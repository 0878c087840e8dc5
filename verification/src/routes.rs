//! Route registration on the server and substream dispatch on the
//! client: the decisions around the listeners, with the binding itself
//! left to the caller.

use vstd::prelude::*;

use crate::codec::{encode_frame, spec_frame};
use crate::config::{ClientRoute, RouteType, ServerRoute, SockAddr, DEFAULT_UDP_BUFFER};
use crate::namemap::NameMap;
use crate::proto::{
    encode_stream_start, spec_encode_stream_start, RegisterRoute, RegisterRouteError,
    RegisterRouteRes, StreamStart,
};

verus! {

/// Looks one registration request up in the server's route set: the
/// route must exist under that name and carry the same transport type,
/// or the request is not found.
pub fn route_lookup(routes: &NameMap<ServerRoute>, req: &RegisterRoute) -> (r: Option<
    ServerRoute,
>)
    ensures
        match r {
            Some(sr) => routes@.dom().contains(req.name@) && sr == routes@[req.name@] && sr._type
                == req._type,
            None => !routes@.dom().contains(req.name@) || routes@[req.name@]._type != req._type,
        },
{
    match routes.get(&req.name) {
        Some(sr) => {
            if sr._type == req._type {
                Some(*sr)
            } else {
                None
            }
        },
        None => None,
    }
}

/// The answer for a request that matches no configured route by name
/// and type.
pub fn route_not_found(req: RegisterRoute) -> (r: RegisterRouteRes)
    ensures
        r == RegisterRouteRes::Rejected(RegisterRouteError::RouteNotFound(req)),
{
    RegisterRouteRes::Rejected(RegisterRouteError::RouteNotFound(req))
}

/// How the caller's attempt to bind a public listener went.
pub enum BindOutcome {
    /// The listener is up.
    Bound,
    /// The address was already in use — another peer holds this route.
    AddrInUse,
    /// Any other I/O failure, with its description.
    OtherFailure(String),
}

/// Turns one request and its bind outcome into the protocol's answer:
/// an address in use is `Repeated`, any other failure `Other`, and a
/// bound listener is acceptance.
pub fn classify_bind(req: RegisterRoute, outcome: BindOutcome) -> (r: RegisterRouteRes)
    ensures
        match outcome {
            BindOutcome::Bound => r == RegisterRouteRes::Accepted,
            BindOutcome::AddrInUse => r == RegisterRouteRes::Rejected(
                RegisterRouteError::Repeated(req),
            ),
            BindOutcome::OtherFailure(msg) => r == RegisterRouteRes::Rejected(
                RegisterRouteError::Other(msg, req),
            ),
        },
{
    match outcome {
        BindOutcome::Bound => RegisterRouteRes::Accepted,
        BindOutcome::AddrInUse => RegisterRouteRes::Rejected(RegisterRouteError::Repeated(req)),
        BindOutcome::OtherFailure(msg) => RegisterRouteRes::Rejected(RegisterRouteError::Other(
            msg,
            req,
        )),
    }
}

/// The registration run of one peer: which routes got a listener, and
/// the first refusal if one happened.  Requests after the first
/// refusal are never processed, so only the first error is reported.
pub struct Registrar {
    started: NameMap<u64>,
    refusal: Option<RegisterRouteRes>,
}

impl Registrar {
    /// The listeners started so far: route name to listener handle.
    pub closed spec fn started(&self) -> Map<Seq<char>, u64> {
        self.started@
    }

    /// The first refusal, if any route was refused.
    pub closed spec fn refusal(&self) -> Option<RegisterRouteRes> {
        self.refusal
    }

    /// Holds of every value of this type, by construction: a refusal,
    /// once recorded, is a rejection.
    #[verifier::type_invariant]
    pub open spec fn inv(self) -> bool {
        match self.refusal() {
            Some(res) => res is Rejected,
            None => true,
        }
    }

    /// A fresh run: no listeners, no refusal.
    pub fn new() -> (r: Self)
        ensures
            r.started() == Map::<Seq<char>, u64>::empty(),
            r.refusal() is None,
    {
        Registrar { started: NameMap::new(), refusal: None }
    }

    /// Records the listener that now serves `name`.  A name that
    /// already has a listener is refused: at most one listener per
    /// route name.
    pub fn record_started(&mut self, name: String, listener: u64) -> (r: bool)
        ensures
            r == !old(self).started().dom().contains(name@),
            r ==> final(self).started() == old(self).started().insert(name@, listener),
            !r ==> final(self).started() == old(self).started(),
            final(self).refusal() == old(self).refusal(),
    {
        proof {
            use_type_invariant(&*self);
        }
        let mut started = NameMap::new();
        core::mem::swap(&mut started, &mut self.started);
        let r = started.insert(name, listener);
        core::mem::swap(&mut started, &mut self.started);
        r
    }

    /// Records the answer for the route that failed.  Only the first
    /// failure of a run can be recorded: processing stops there, and
    /// later routes are neither tried nor reported.
    pub fn record_refusal(&mut self, res: RegisterRouteRes) -> (r: bool)
        requires
            res is Rejected,
        ensures
            r == (old(self).refusal() is None),
            r ==> final(self).refusal() == Some(res),
            !r ==> final(self).refusal() == old(self).refusal(),
            final(self).started() == old(self).started(),
    {
        proof {
            use_type_invariant(&*self);
        }
        if self.refusal.is_none() {
            self.refusal = Some(res);
            true
        } else {
            false
        }
    }

    /// Whether the run is still accepting requests.
    pub fn in_progress(&self) -> (r: bool)
        ensures
            r == (self.refusal() is None),
    {
        self.refusal.is_none()
    }

    /// The one answer the peer receives: the first refusal, or
    /// acceptance when every route was bound.
    pub fn result(self) -> (r: RegisterRouteRes)
        ensures
            match self.refusal() {
                Some(res) => r == res,
                None => r == RegisterRouteRes::Accepted,
            },
    {
        proof {
            use_type_invariant(&self);
        }
        match self.refusal {
            Some(res) => res,
            None => RegisterRouteRes::Accepted,
        }
    }
}

/// The first bytes of every substream the server opens for a route:
/// the framed `StreamStart` preamble, written before any user data.
pub fn substream_preamble(start: &StreamStart) -> (r: Vec<u8>)
    ensures
        r@ == spec_frame(spec_encode_stream_start(start@)),
{
    let mut payload: Vec<u8> = Vec::new();
    encode_stream_start(start, &mut payload);
    let mut out: Vec<u8> = Vec::new();
    encode_frame(&payload, &mut out);
    out
}

/// What the client does with a server-opened substream, by the route
/// named in its preamble.
pub enum Dispatch {
    /// Connect a byte-stream bridge to this backend.
    Tcp { to: SockAddr },
    /// Bind a datagram socket towards this backend, with this receive
    /// buffer size.
    Udp { to: SockAddr, buffer: usize },
}

/// Looks the preamble's route name up in the client's route set; an
/// unknown name drops the substream.
pub fn dispatch_substream(routes: &NameMap<ClientRoute>, start: &StreamStart) -> (r: Option<
    Dispatch,
>)
    ensures
        match r {
            Some(d) => {
                &&& routes@.dom().contains(start@)
                &&& match d {
                    Dispatch::Tcp { to } => routes@[start@]._type == RouteType::Tcp && to
                        == routes@[start@].to,
                    Dispatch::Udp { to, buffer } => {
                        &&& routes@[start@]._type == RouteType::Udp
                        &&& to == routes@[start@].to
                        &&& buffer == effective_udp_buffer_spec(routes@[start@].udp_buffer)
                    },
                }
            },
            None => !routes@.dom().contains(start@),
        },
{
    match routes.get(&start.route_name) {
        Some(route) => match route._type {
            RouteType::Tcp => Some(Dispatch::Tcp { to: route.to }),
            RouteType::Udp => Some(
                Dispatch::Udp { to: route.to, buffer: effective_udp_buffer(route.udp_buffer) },
            ),
        },
        None => None,
    }
}

/// The receive buffer size a datagram route uses.
pub open spec fn effective_udp_buffer_spec(configured: Option<usize>) -> usize {
    match configured {
        Some(n) => n,
        None => DEFAULT_UDP_BUFFER,
    }
}

/// The configured buffer size, or the default where none is set.
pub fn effective_udp_buffer(configured: Option<usize>) -> (r: usize)
    ensures
        r == effective_udp_buffer_spec(configured),
{
    match configured {
        Some(n) => n,
        None => DEFAULT_UDP_BUFFER,
    }
}

/// Builds the registration sequence from the client's route set: one
/// request per configured route, names unique, types as configured.
pub fn build_registration(routes: &NameMap<ClientRoute>) -> (r: Vec<RegisterRoute>)
    ensures
        r@.len() == routes@.dom().len(),
        forall|i: int|
            0 <= i < r@.len() ==> routes@.dom().contains(#[trigger] r@[i].name@)
                && r@[i]._type == routes@[r@[i].name@]._type,
        forall|n: Seq<char>|
            #[trigger] routes@.dom().contains(n) ==> exists|i: int|
                0 <= i < r@.len() && #[trigger] r@[i].name@ == n,
        forall|i: int, j: int|
            #![trigger r@[i], r@[j]]
            0 <= i < j < r@.len() ==> r@[i].name@ != r@[j].name@,
{
    let entries = routes.entries();
    let mut out: Vec<RegisterRoute> = Vec::new();
    let mut i: usize = 0;
    while i < entries.len()
        invariant
            i <= entries@.len(),
            out@.len() == i,
            forall|j: int|
                #![trigger out@[j]]
                0 <= j < i ==> out@[j].name@ == entries@[j].0@ && out@[j]._type
                    == entries@[j].1._type,
        decreases entries@.len() - i,
    {
        let name = entries[i].0.clone();
        let rt = entries[i].1._type;
        let rr = RegisterRoute { name, _type: rt };
        let ghost grr = rr;
        let ghost out_prev = out@;
        proof {
            assert(grr.name@ == entries@[i as int].0@);
        }
        out.push(rr);
        proof {
            assert(out@ == out_prev.push(grr));
            assert(out@.len() == i + 1);
            assert(grr._type == entries@[i as int].1._type);
            assert forall|j: int|
                0 <= j < i + 1 implies #[trigger] out@[j].name@ == entries@[j].0@
                && out@[j]._type == entries@[j].1._type by {
                if j < i {
                    assert(out_prev.push(grr)[j] == out_prev[j]);
                    assert(out@[j] == out_prev[j]);
                } else {
                    assert(out_prev.push(grr)[j] == grr);
                    assert(out@[j] == grr);
                }
            }
        }
        i = i + 1;
    }
    proof {
        assert forall|n: Seq<char>| #[trigger] routes@.dom().contains(n) implies exists|i: int|
            0 <= i < out@.len() && #[trigger] out@[i].name@ == n by {
            let i = choose|i: int| 0 <= i < entries@.len() && #[trigger] entries@[i].0@ == n;
            assert(out@[i].name@ == n);
        }
    }
    out
}

} // verus!
