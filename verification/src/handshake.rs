//! The handshake on the first substream, as two state machines: the
//! server checks the token, then answers the registration sequence;
//! the client sends its token, waits for the one acknowledgement byte,
//! and only then sends its registration.  Each machine records the
//! bytes its side has put on the handshake substream, so the ordering
//! laws hold of every reachable state.

use vstd::prelude::*;

use crate::codec::{encode_frame, spec_frame};
use crate::proto::{
    encode_auth, encode_res, encode_routes, spec_encode_auth, spec_encode_res, spec_encode_routes,
    Auth, RegisterRoute, RegisterRouteError, RegisterRouteRes,
};
use crate::CODE_AUTH_FAILED;
use crate::CODE_AUTH_SUCCESS;

verus! {

/// Where the server stands with one peer's handshake.
#[derive(Clone, Copy, Debug, PartialEq, Eq, Structural)]
pub enum ServerPhase {
    /// Waiting for the peer's token.
    AwaitAuth,
    /// Token accepted and acknowledged; waiting for the registration.
    Authed,
    /// Registration answered; the handshake substream can be finished.
    Done,
    /// Token refused; the connection closes with `CODE_AUTH_FAILED`
    /// and nothing was ever written on the substream.
    Failed,
}

/// The server's half of the handshake.  `transcript` is everything
/// this side has written on the handshake substream.
pub struct ServerHandshake {
    phase: ServerPhase,
    sent: Ghost<Seq<u8>>,
}

impl ServerHandshake {
    /// The current phase.
    pub closed spec fn phase(&self) -> ServerPhase {
        self.phase
    }

    /// Every byte this side has written on the handshake substream, in
    /// order.
    pub closed spec fn transcript(&self) -> Seq<u8> {
        self.sent@
    }

    /// Holds of every value of this type, by construction.
    #[verifier::type_invariant]
    pub open spec fn inv(self) -> bool {
        match self.phase() {
            ServerPhase::AwaitAuth => self.transcript() == Seq::<u8>::empty(),
            ServerPhase::Failed => self.transcript() == Seq::<u8>::empty(),
            ServerPhase::Authed => self.transcript() == seq![CODE_AUTH_SUCCESS],
            ServerPhase::Done => self.transcript().len() > 0 && self.transcript()[0]
                == CODE_AUTH_SUCCESS,
        }
    }

    /// A fresh handshake: nothing sent, token not yet seen.
    pub fn new() -> (r: Self)
        ensures
            r.phase() == ServerPhase::AwaitAuth,
            r.transcript() == Seq::<u8>::empty(),
    {
        ServerHandshake { phase: ServerPhase::AwaitAuth, sent: Ghost(Seq::empty()) }
    }

    /// Checks the peer's token against the configured one.  On a match
    /// the bytes to write come back — the single acknowledgement byte.
    /// On a mismatch nothing is to be written; the caller closes the
    /// connection with application code `CODE_AUTH_FAILED`.
    pub fn on_auth(&mut self, auth: &Auth, token: &String) -> (r: Option<Vec<u8>>)
        requires
            old(self).phase() == ServerPhase::AwaitAuth,
        ensures
            r is Some <==> auth@ == token@,
            match r {
                Some(ack) => {
                    &&& ack@ == seq![CODE_AUTH_SUCCESS]
                    &&& final(self).phase() == ServerPhase::Authed
                    &&& final(self).transcript() == ack@
                },
                None => {
                    &&& final(self).phase() == ServerPhase::Failed
                    &&& final(self).transcript() == Seq::<u8>::empty()
                },
            },
    {
        proof {
            use_type_invariant(&*self);
        }
        if auth.token == *token {
            let mut ack: Vec<u8> = Vec::new();
            ack.push(CODE_AUTH_SUCCESS);
            proof {
                assert(ack@ =~= seq![CODE_AUTH_SUCCESS]);
            }
            let ghost new_sent: Seq<u8> = seq![CODE_AUTH_SUCCESS];
            *self = ServerHandshake { phase: ServerPhase::Authed, sent: Ghost(new_sent) };
            Some(ack)
        } else {
            self.phase = ServerPhase::Failed;
            None
        }
    }

    /// Frames the one answer to the registration sequence; the caller
    /// writes the returned bytes and then finishes the send half.
    pub fn on_registration_result(&mut self, res: &RegisterRouteRes) -> (r: Vec<u8>)
        requires
            old(self).phase() == ServerPhase::Authed,
        ensures
            r@ == spec_frame(spec_encode_res(res@)),
            final(self).phase() == ServerPhase::Done,
            final(self).transcript() == old(self).transcript() + r@,
    {
        proof {
            use_type_invariant(&*self);
        }
        let mut payload: Vec<u8> = Vec::new();
        encode_res(res, &mut payload);
        let mut out: Vec<u8> = Vec::new();
        encode_frame(&payload, &mut out);
        self.phase = ServerPhase::Done;
        proof {
            let snew = self.sent@ + out@;
            assert(snew[0] == CODE_AUTH_SUCCESS);
        }
        self.sent = Ghost(self.sent@ + out@);
        out
    }

    /// The application close code for a refused token.
    pub fn auth_failure_code(&self) -> (r: u8)
        requires
            self.phase() == ServerPhase::Failed,
        ensures
            r == CODE_AUTH_FAILED,
    {
        CODE_AUTH_FAILED
    }
}

/// Auth comes first: whatever the server has written on the handshake
/// substream, its first byte is the auth acknowledgement.  In
/// particular the registration answer never precedes the ack, and a
/// refused token is answered with silence.
pub proof fn lemma_ack_precedes_all_output(h: &ServerHandshake)
    requires
        h.inv(),
    ensures
        h.transcript().len() > 0 ==> h.transcript()[0] == CODE_AUTH_SUCCESS,
        h.phase() == ServerPhase::Failed ==> h.transcript() == Seq::<u8>::empty(),
{
}

/// Where the client stands with its handshake.
#[derive(Clone, Copy, Debug, PartialEq, Eq, Structural)]
pub enum ClientPhase {
    /// Nothing sent yet.
    Start,
    /// Token written; waiting for the acknowledgement byte.
    AuthSent,
    /// Acknowledgement received; the registration may go out.
    AckReceived,
    /// Registration written; waiting for the server's answer.
    RoutesSent,
    /// The server accepted every route.
    Complete,
    /// The handshake failed: a wrong acknowledgement or a refusal.
    Failed,
}

/// The client's half of the handshake.  `transcript` is everything
/// this side has written on the handshake substream; `auth_frame_len`
/// is the length of its auth frame, so the laws can speak of "bytes
/// beyond the auth frame".
pub struct ClientHandshake {
    phase: ClientPhase,
    got_ack: Ghost<bool>,
    auth_len: Ghost<nat>,
    sent: Ghost<Seq<u8>>,
}

impl ClientHandshake {
    /// The current phase.
    pub closed spec fn phase(&self) -> ClientPhase {
        self.phase
    }

    /// Every byte this side has written on the handshake substream, in
    /// order.
    pub closed spec fn transcript(&self) -> Seq<u8> {
        self.sent@
    }

    /// Whether the auth acknowledgement byte has been received.
    pub closed spec fn got_ack(&self) -> bool {
        self.got_ack@
    }

    /// The length of the auth frame this client wrote first.
    pub closed spec fn auth_frame_len(&self) -> nat {
        self.auth_len@
    }

    /// Holds of every value of this type, by construction.
    #[verifier::type_invariant]
    pub open spec fn inv(self) -> bool {
        match self.phase() {
            ClientPhase::Start => self.transcript() == Seq::<u8>::empty() && !self.got_ack(),
            ClientPhase::AuthSent => self.transcript().len() == self.auth_frame_len()
                && !self.got_ack(),
            ClientPhase::AckReceived => self.transcript().len() == self.auth_frame_len()
                && self.got_ack(),
            ClientPhase::RoutesSent => self.got_ack(),
            ClientPhase::Complete => self.got_ack(),
            ClientPhase::Failed => self.transcript().len() <= self.auth_frame_len()
                || self.got_ack(),
        }
    }

    /// A fresh handshake.
    pub fn new() -> (r: Self)
        ensures
            r.phase() == ClientPhase::Start,
            r.transcript() == Seq::<u8>::empty(),
            !r.got_ack(),
    {
        ClientHandshake {
            phase: ClientPhase::Start,
            got_ack: Ghost(false),
            auth_len: Ghost(0),
            sent: Ghost(Seq::empty()),
        }
    }

    /// Frames the token; the caller writes the returned bytes first on
    /// the handshake substream.
    pub fn start(&mut self, auth: &Auth) -> (r: Vec<u8>)
        requires
            old(self).phase() == ClientPhase::Start,
        ensures
            r@ == spec_frame(spec_encode_auth(auth@)),
            final(self).phase() == ClientPhase::AuthSent,
            final(self).transcript() == r@,
            final(self).auth_frame_len() == r@.len(),
            !final(self).got_ack(),
    {
        proof {
            use_type_invariant(&*self);
        }
        let mut payload: Vec<u8> = Vec::new();
        encode_auth(auth, &mut payload);
        let mut out: Vec<u8> = Vec::new();
        encode_frame(&payload, &mut out);
        *self = ClientHandshake {
            phase: ClientPhase::AuthSent,
            got_ack: Ghost(false),
            auth_len: Ghost(out@.len()),
            sent: Ghost(out@),
        };
        out
    }

    /// Consumes the one byte the server answers the token with.  Only
    /// `CODE_AUTH_SUCCESS` lets the handshake proceed; anything else
    /// fails it, and the registration will never be sent.
    pub fn on_ack(&mut self, b: u8) -> (r: bool)
        requires
            old(self).phase() == ClientPhase::AuthSent,
        ensures
            r == (b == CODE_AUTH_SUCCESS),
            final(self).got_ack() == r,
            final(self).phase() == (if r {
                ClientPhase::AckReceived
            } else {
                ClientPhase::Failed
            }),
            final(self).transcript() == old(self).transcript(),
            final(self).auth_frame_len() == old(self).auth_frame_len(),
    {
        proof {
            use_type_invariant(&*self);
        }
        if b == CODE_AUTH_SUCCESS {
            *self = ClientHandshake {
                phase: ClientPhase::AckReceived,
                got_ack: Ghost(true),
                auth_len: self.auth_len,
                sent: self.sent,
            };
            true
        } else {
            self.phase = ClientPhase::Failed;
            false
        }
    }

    /// Frames the registration sequence; the caller writes the
    /// returned bytes.  Callable only once the acknowledgement is in.
    pub fn send_routes(&mut self, routes: &Vec<RegisterRoute>) -> (r: Vec<u8>)
        requires
            old(self).phase() == ClientPhase::AckReceived,
        ensures
            r@ == spec_frame(
                spec_encode_routes(routes@.map_values(|m: RegisterRoute| m@)),
            ),
            final(self).phase() == ClientPhase::RoutesSent,
            final(self).transcript() == old(self).transcript() + r@,
            final(self).got_ack(),
    {
        proof {
            use_type_invariant(&*self);
        }
        let mut payload: Vec<u8> = Vec::new();
        encode_routes(routes, &mut payload);
        let mut out: Vec<u8> = Vec::new();
        encode_frame(&payload, &mut out);
        self.phase = ClientPhase::RoutesSent;
        self.sent = Ghost(self.sent@ + out@);
        out
    }

    /// Consumes the server's answer: acceptance completes the
    /// handshake, a refusal carries the first error back to the caller.
    pub fn on_result(&mut self, res: RegisterRouteRes) -> (r: Result<(), RegisterRouteError>)
        requires
            old(self).phase() == ClientPhase::RoutesSent,
        ensures
            match res {
                RegisterRouteRes::Accepted => r is Ok && final(self).phase()
                    == ClientPhase::Complete,
                RegisterRouteRes::Rejected(e) => r == Result::<(), RegisterRouteError>::Err(e)
                    && final(self).phase() == ClientPhase::Failed,
            },
            final(self).transcript() == old(self).transcript(),
    {
        proof {
            use_type_invariant(&*self);
        }
        match res {
            RegisterRouteRes::Accepted => {
                self.phase = ClientPhase::Complete;
                Ok(())
            },
            RegisterRouteRes::Rejected(e) => {
                self.phase = ClientPhase::Failed;
                Err(e)
            },
        }
    }
}

/// Auth comes first, client side: if this client has put any byte
/// beyond its auth frame on the handshake substream — that is, any of
/// the registration frame — then it has received the auth
/// acknowledgement byte before.
pub proof fn lemma_registration_after_ack(h: &ClientHandshake)
    requires
        h.inv(),
    ensures
        h.transcript().len() > h.auth_frame_len() ==> h.got_ack(),
{
}

} // verus!
