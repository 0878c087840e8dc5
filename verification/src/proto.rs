//! Control messages and their deterministic wire encoding.
//!
//! Every control message travels inside one frame
//! (`varint(len) ++ payload`, see `codec`); this module fixes the
//! payload format: strings are `varint(byte_len) ++ utf-8 bytes`,
//! route types one byte (`0` = TCP, `1` = UDP), and tagged unions one
//! tag byte followed by the variant's fields in order.

use vstd::prelude::*;

use crate::codec::{
    decode_string, encode_string, encode_varint, decode_varint, lemma_frame_round_trip,
    lemma_string_decode_bounds, lemma_string_round_trip, lemma_varint_round_trip,
    lemma_varint_decode_bounds, spec_decode_string, spec_encode_string, spec_frame,
    spec_frame_decode, spec_varint, spec_varint_decode, MAX_FRAME_LEN,
};
use crate::config::RouteType;

verus! {

/// The first message the client sends: its shared token.
#[derive(Debug, Clone, PartialEq)]
pub struct Auth {
    pub token: String,
}

impl View for Auth {
    type V = Seq<char>;

    open spec fn view(&self) -> Seq<char> {
        self.token@
    }
}

/// The preamble of every server-opened substream: which route it
/// serves.
#[derive(Debug, Clone, PartialEq)]
pub struct StreamStart {
    pub route_name: String,
}

impl View for StreamStart {
    type V = Seq<char>;

    open spec fn view(&self) -> Seq<char> {
        self.route_name@
    }
}

/// One route the client asks the server to open.
#[derive(Debug, Clone, PartialEq)]
pub struct RegisterRoute {
    pub name: String,
    pub _type: RouteType,
}

/// The mathematical value of a `RegisterRoute`.
pub struct RegisterRouteView {
    pub name: Seq<char>,
    pub route_type: RouteType,
}

impl View for RegisterRoute {
    type V = RegisterRouteView;

    open spec fn view(&self) -> RegisterRouteView {
        RegisterRouteView { name: self.name@, route_type: self._type }
    }
}

/// Why a registration was refused, with the offending route.
#[derive(Debug, Clone, PartialEq)]
pub enum RegisterRouteError {
    /// Binding the public listener hit an address already in use.
    Repeated(RegisterRoute),
    /// The server has no route of that name and type.
    RouteNotFound(RegisterRoute),
    /// Any other I/O failure, with its description.
    Other(String, RegisterRoute),
}

/// The mathematical value of a `RegisterRouteError`.
pub enum RegisterRouteErrorView {
    Repeated(RegisterRouteView),
    RouteNotFound(RegisterRouteView),
    Other(Seq<char>, RegisterRouteView),
}

impl View for RegisterRouteError {
    type V = RegisterRouteErrorView;

    open spec fn view(&self) -> RegisterRouteErrorView {
        match self {
            RegisterRouteError::Repeated(r) => RegisterRouteErrorView::Repeated(r@),
            RegisterRouteError::RouteNotFound(r) => RegisterRouteErrorView::RouteNotFound(r@),
            RegisterRouteError::Other(msg, r) => RegisterRouteErrorView::Other(msg@, r@),
        }
    }
}

/// The server's one answer to the whole registration sequence.
#[derive(Debug, Clone, PartialEq)]
pub enum RegisterRouteRes {
    Accepted,
    Rejected(RegisterRouteError),
}

/// The mathematical value of a `RegisterRouteRes`.
pub enum RegisterRouteResView {
    Accepted,
    Rejected(RegisterRouteErrorView),
}

impl View for RegisterRouteRes {
    type V = RegisterRouteResView;

    open spec fn view(&self) -> RegisterRouteResView {
        match self {
            RegisterRouteRes::Accepted => RegisterRouteResView::Accepted,
            RegisterRouteRes::Rejected(e) => RegisterRouteResView::Rejected(e@),
        }
    }
}

// ---------------------------------------------------------------------
// Wire format, spec level
// ---------------------------------------------------------------------

/// One byte per route type: `0` = TCP, `1` = UDP.
pub open spec fn spec_encode_route_type(t: RouteType) -> Seq<u8> {
    match t {
        RouteType::Tcp => seq![0u8],
        RouteType::Udp => seq![1u8],
    }
}

/// Total decoder for a route-type byte.
pub open spec fn spec_decode_route_type(bytes: Seq<u8>) -> Option<(RouteType, int)> {
    if bytes.len() == 0 {
        None
    } else if bytes[0] == 0 {
        Some((RouteType::Tcp, 1))
    } else if bytes[0] == 1 {
        Some((RouteType::Udp, 1))
    } else {
        None
    }
}

/// `Auth` payload: the token string.
pub open spec fn spec_encode_auth(token: Seq<char>) -> Seq<u8> {
    spec_encode_string(token)
}

/// `StreamStart` payload: the route name.
pub open spec fn spec_encode_stream_start(route_name: Seq<char>) -> Seq<u8> {
    spec_encode_string(route_name)
}

/// `RegisterRoute` payload: name, then route type.
pub open spec fn spec_encode_register_route(r: RegisterRouteView) -> Seq<u8> {
    spec_encode_string(r.name) + spec_encode_route_type(r.route_type)
}

/// Total decoder for one `RegisterRoute`.
pub open spec fn spec_decode_register_route(bytes: Seq<u8>) -> Option<(RegisterRouteView, int)> {
    match spec_decode_string(bytes) {
        Some((name, u1)) => match spec_decode_route_type(bytes.skip(u1)) {
            Some((t, u2)) => Some((RegisterRouteView { name, route_type: t }, u1 + u2)),
            None => None,
        },
        None => None,
    }
}

/// `RegisterRouteError` payload: a tag byte, then the variant's fields.
pub open spec fn spec_encode_err(e: RegisterRouteErrorView) -> Seq<u8> {
    match e {
        RegisterRouteErrorView::Repeated(r) => seq![0u8] + spec_encode_register_route(r),
        RegisterRouteErrorView::RouteNotFound(r) => seq![1u8] + spec_encode_register_route(r),
        RegisterRouteErrorView::Other(msg, r) => seq![2u8] + spec_encode_string(msg)
            + spec_encode_register_route(r),
    }
}

/// Total decoder for one `RegisterRouteError`.
pub open spec fn spec_decode_err(bytes: Seq<u8>) -> Option<(RegisterRouteErrorView, int)> {
    if bytes.len() == 0 {
        None
    } else if bytes[0] == 0 {
        match spec_decode_register_route(bytes.skip(1)) {
            Some((r, u)) => Some((RegisterRouteErrorView::Repeated(r), 1 + u)),
            None => None,
        }
    } else if bytes[0] == 1 {
        match spec_decode_register_route(bytes.skip(1)) {
            Some((r, u)) => Some((RegisterRouteErrorView::RouteNotFound(r), 1 + u)),
            None => None,
        }
    } else if bytes[0] == 2 {
        match spec_decode_string(bytes.skip(1)) {
            Some((msg, u1)) => match spec_decode_register_route(bytes.skip(1 + u1)) {
                Some((r, u2)) => Some((RegisterRouteErrorView::Other(msg, r), 1 + u1 + u2)),
                None => None,
            },
            None => None,
        }
    } else {
        None
    }
}

/// `RegisterRouteRes` payload: `0` for success, `1` then the error.
pub open spec fn spec_encode_res(r: RegisterRouteResView) -> Seq<u8> {
    match r {
        RegisterRouteResView::Accepted => seq![0u8],
        RegisterRouteResView::Rejected(e) => seq![1u8] + spec_encode_err(e),
    }
}

/// Total decoder for one `RegisterRouteRes`.
pub open spec fn spec_decode_res(bytes: Seq<u8>) -> Option<(RegisterRouteResView, int)> {
    if bytes.len() == 0 {
        None
    } else if bytes[0] == 0 {
        Some((RegisterRouteResView::Accepted, 1))
    } else if bytes[0] == 1 {
        match spec_decode_err(bytes.skip(1)) {
            Some((e, u)) => Some((RegisterRouteResView::Rejected(e), 1 + u)),
            None => None,
        }
    } else {
        None
    }
}

/// A registration sequence: the count, then each route in order.
pub open spec fn spec_encode_routes(rs: Seq<RegisterRouteView>) -> Seq<u8> {
    spec_varint(rs.len()) + spec_encode_routes_items(rs)
}

/// The routes themselves, in order.
pub open spec fn spec_encode_routes_items(rs: Seq<RegisterRouteView>) -> Seq<u8>
    decreases rs.len(),
{
    if rs.len() == 0 {
        Seq::empty()
    } else {
        spec_encode_register_route(rs[0]) + spec_encode_routes_items(rs.skip(1))
    }
}

/// Total decoder for exactly `n` routes.
pub open spec fn spec_decode_routes_items(bytes: Seq<u8>, n: nat) -> Option<
    (Seq<RegisterRouteView>, int),
>
    decreases n,
{
    if n == 0 {
        Some((Seq::empty(), 0))
    } else {
        match spec_decode_register_route(bytes) {
            Some((r, u1)) => match spec_decode_routes_items(bytes.skip(u1), (n - 1) as nat) {
                Some((rest, u2)) => Some((seq![r] + rest, u1 + u2)),
                None => None,
            },
            None => None,
        }
    }
}

/// Total decoder for a registration sequence.
pub open spec fn spec_decode_routes(bytes: Seq<u8>) -> Option<(Seq<RegisterRouteView>, int)> {
    match spec_varint_decode(bytes) {
        Some((n, u1)) => match spec_decode_routes_items(bytes.skip(u1), n) {
            Some((rs, u2)) => Some((rs, u1 + u2)),
            None => None,
        },
        None => None,
    }
}

// ---------------------------------------------------------------------
// Round trips
// ---------------------------------------------------------------------

/// A view small enough for a real machine: the name's UTF-8 form has a
/// 64-bit length.
pub open spec fn route_view_fits(r: RegisterRouteView) -> bool {
    vstd::utf8::encode_utf8(r.name).len() <= u64::MAX
}

/// Round trip for a `StreamStart` payload on its own.
pub proof fn lemma_stream_start_round_trip(name: Seq<char>)
    requires
        vstd::utf8::encode_utf8(name).len() <= u64::MAX,
    ensures
        spec_decode_string(spec_encode_stream_start(name)) == Some(
            (name, spec_encode_stream_start(name).len() as int),
        ),
{
    lemma_string_round_trip(name, Seq::empty());
    assert(spec_encode_string(name) + Seq::<u8>::empty() =~= spec_encode_string(name));
}

/// Round trip for one `RegisterRoute`, whatever follows it.
pub proof fn lemma_register_route_round_trip(r: RegisterRouteView, rest: Seq<u8>)
    requires
        route_view_fits(r),
    ensures
        spec_decode_register_route(spec_encode_register_route(r) + rest) == Some(
            (r, spec_encode_register_route(r).len() as int),
        ),
{
    let s_enc = spec_encode_string(r.name);
    let t_enc = spec_encode_route_type(r.route_type);
    let all = spec_encode_register_route(r) + rest;
    assert(all =~= s_enc + (t_enc + rest));
    lemma_string_round_trip(r.name, t_enc + rest);
    let u1 = s_enc.len() as int;
    assert(all.skip(u1) =~= t_enc + rest);
    assert((t_enc + rest)[0] == t_enc[0]);
}

/// Round trip for one `RegisterRouteError`, whatever follows it.
pub proof fn lemma_err_round_trip(e: RegisterRouteErrorView, rest: Seq<u8>)
    requires
        match e {
            RegisterRouteErrorView::Repeated(r) => route_view_fits(r),
            RegisterRouteErrorView::RouteNotFound(r) => route_view_fits(r),
            RegisterRouteErrorView::Other(msg, r) => route_view_fits(r)
                && vstd::utf8::encode_utf8(msg).len() <= u64::MAX,
        },
    ensures
        spec_decode_err(spec_encode_err(e) + rest) == Some(
            (e, spec_encode_err(e).len() as int),
        ),
{
    let all = spec_encode_err(e) + rest;
    match e {
        RegisterRouteErrorView::Repeated(r) => {
            let r_enc = spec_encode_register_route(r);
            assert(all =~= seq![0u8] + (r_enc + rest));
            assert(all[0] == 0u8);
            assert(all.skip(1) =~= r_enc + rest);
            lemma_register_route_round_trip(r, rest);
        },
        RegisterRouteErrorView::RouteNotFound(r) => {
            let r_enc = spec_encode_register_route(r);
            assert(all =~= seq![1u8] + (r_enc + rest));
            assert(all[0] == 1u8);
            assert(all.skip(1) =~= r_enc + rest);
            lemma_register_route_round_trip(r, rest);
        },
        RegisterRouteErrorView::Other(msg, r) => {
            let m_enc = spec_encode_string(msg);
            let r_enc = spec_encode_register_route(r);
            assert(all =~= seq![2u8] + (m_enc + (r_enc + rest)));
            assert(all[0] == 2u8);
            assert(all.skip(1) =~= m_enc + (r_enc + rest));
            lemma_string_round_trip(msg, r_enc + rest);
            let u1 = m_enc.len() as int;
            assert(all.skip(1).skip(u1) =~= r_enc + rest);
            assert(all.skip(1 + u1) =~= r_enc + rest);
            lemma_register_route_round_trip(r, rest);
        },
    }
}

/// Round trip for one `RegisterRouteRes`, whatever follows it.
pub proof fn lemma_res_round_trip(r: RegisterRouteResView, rest: Seq<u8>)
    requires
        match r {
            RegisterRouteResView::Accepted => true,
            RegisterRouteResView::Rejected(e) => match e {
                RegisterRouteErrorView::Repeated(rr) => route_view_fits(rr),
                RegisterRouteErrorView::RouteNotFound(rr) => route_view_fits(rr),
                RegisterRouteErrorView::Other(msg, rr) => route_view_fits(rr)
                    && vstd::utf8::encode_utf8(msg).len() <= u64::MAX,
            },
        },
    ensures
        spec_decode_res(spec_encode_res(r) + rest) == Some(
            (r, spec_encode_res(r).len() as int),
        ),
{
    let all = spec_encode_res(r) + rest;
    match r {
        RegisterRouteResView::Accepted => {
            assert(all[0] == 0u8);
        },
        RegisterRouteResView::Rejected(e) => {
            let e_enc = spec_encode_err(e);
            assert(all =~= seq![1u8] + (e_enc + rest));
            assert(all[0] == 1u8);
            assert(all.skip(1) =~= e_enc + rest);
            lemma_err_round_trip(e, rest);
        },
    }
}

/// Round trip for a registration sequence, whatever follows it.
pub proof fn lemma_routes_round_trip(rs: Seq<RegisterRouteView>, rest: Seq<u8>)
    requires
        rs.len() <= u64::MAX,
        forall|i: int| 0 <= i < rs.len() ==> route_view_fits(#[trigger] rs[i]),
    ensures
        spec_decode_routes(spec_encode_routes(rs) + rest) == Some(
            (rs, spec_encode_routes(rs).len() as int),
        ),
{
    let items = spec_encode_routes_items(rs);
    let header = spec_varint(rs.len());
    let all = spec_encode_routes(rs) + rest;
    lemma_varint_round_trip(rs.len(), items + rest);
    assert(all =~= header + (items + rest));
    let u1 = header.len() as int;
    assert(all.skip(u1) =~= items + rest);
    lemma_routes_items_round_trip(rs, rest);
}

/// Round trip for the route items alone, by induction on the list.
proof fn lemma_routes_items_round_trip(rs: Seq<RegisterRouteView>, rest: Seq<u8>)
    requires
        forall|i: int| 0 <= i < rs.len() ==> route_view_fits(#[trigger] rs[i]),
    ensures
        spec_decode_routes_items(spec_encode_routes_items(rs) + rest, rs.len()) == Some(
            (rs, spec_encode_routes_items(rs).len() as int),
        ),
    decreases rs.len(),
{
    if rs.len() == 0 {
        assert(spec_encode_routes_items(rs) + rest =~= rest);
        assert(rs =~= Seq::<RegisterRouteView>::empty());
    } else {
        let head = spec_encode_register_route(rs[0]);
        let tail = spec_encode_routes_items(rs.skip(1));
        let all = spec_encode_routes_items(rs) + rest;
        assert(all =~= head + (tail + rest));
        lemma_register_route_round_trip(rs[0], tail + rest);
        let u1 = head.len() as int;
        assert(all.skip(u1) =~= tail + rest);
        lemma_routes_items_round_trip(rs.skip(1), rest);
        assert(seq![rs[0]] + rs.skip(1) =~= rs);
    }
}

/// Round trip for a whole framed `Auth` message as it travels on the
/// handshake substream: unframing yields exactly the auth payload, and
/// decoding that yields the token back.
pub proof fn lemma_framed_auth_round_trip(token: Seq<char>, rest: Seq<u8>)
    requires
        vstd::utf8::encode_utf8(token).len() <= u64::MAX,
        spec_encode_auth(token).len() <= MAX_FRAME_LEN,
    ensures
        spec_frame_decode(spec_frame(spec_encode_auth(token)) + rest) == Some(
            (spec_encode_auth(token), spec_frame(spec_encode_auth(token)).len() as int),
        ),
        spec_decode_string(spec_encode_auth(token)) == Some(
            (token, spec_encode_auth(token).len() as int),
        ),
{
    lemma_frame_round_trip(spec_encode_auth(token), rest);
    lemma_string_round_trip(token, Seq::empty());
    assert(spec_encode_string(token) + Seq::<u8>::empty() =~= spec_encode_string(token));
}

/// Round trip for a whole framed registration answer as it travels on
/// the handshake substream.
pub proof fn lemma_framed_res_round_trip(r: RegisterRouteResView, rest: Seq<u8>)
    requires
        match r {
            RegisterRouteResView::Accepted => true,
            RegisterRouteResView::Rejected(e) => match e {
                RegisterRouteErrorView::Repeated(rr) => route_view_fits(rr),
                RegisterRouteErrorView::RouteNotFound(rr) => route_view_fits(rr),
                RegisterRouteErrorView::Other(msg, rr) => route_view_fits(rr)
                    && vstd::utf8::encode_utf8(msg).len() <= u64::MAX,
            },
        },
        spec_encode_res(r).len() <= MAX_FRAME_LEN,
    ensures
        spec_frame_decode(spec_frame(spec_encode_res(r)) + rest) == Some(
            (spec_encode_res(r), spec_frame(spec_encode_res(r)).len() as int),
        ),
        spec_decode_res(spec_encode_res(r)) == Some((r, spec_encode_res(r).len() as int)),
{
    lemma_frame_round_trip(spec_encode_res(r), rest);
    lemma_res_round_trip(r, Seq::empty());
    assert(spec_encode_res(r) + Seq::<u8>::empty() =~= spec_encode_res(r));
}

// ---------------------------------------------------------------------
// Wire format, executable
// ---------------------------------------------------------------------

/// Appends the route-type byte to `out`.
pub fn encode_route_type(t: RouteType, out: &mut Vec<u8>)
    ensures
        final(out)@ == old(out)@ + spec_encode_route_type(t),
{
    match t {
        RouteType::Tcp => out.push(0u8),
        RouteType::Udp => out.push(1u8),
    }
    proof {
        assert(final(out)@ =~= old(out)@ + spec_encode_route_type(t));
    }
}

/// Decodes one route-type byte starting at `pos`.
pub fn decode_route_type(bytes: &[u8], pos: usize) -> (r: Option<(RouteType, usize)>)
    requires
        pos <= bytes@.len(),
    ensures
        match spec_decode_route_type(bytes@.skip(pos as int)) {
            Some((t, used)) => r == Some((t, (pos + used) as usize)),
            None => r is None,
        },
{
    if pos >= bytes.len() {
        return None;
    }
    let b = *vstd::slice::slice_index_get(bytes, pos);
    proof {
        assert(bytes@.skip(pos as int)[0] == b);
    }
    if b == 0 {
        Some((RouteType::Tcp, pos + 1))
    } else if b == 1 {
        Some((RouteType::Udp, pos + 1))
    } else {
        None
    }
}

/// Appends the `Auth` payload to `out`.
pub fn encode_auth(m: &Auth, out: &mut Vec<u8>)
    ensures
        final(out)@ == old(out)@ + spec_encode_auth(m@),
{
    encode_string(m.token.as_str(), out);
}

/// Decodes one `Auth` payload starting at `pos`.
pub fn decode_auth(bytes: &[u8], pos: usize) -> (r: Option<(Auth, usize)>)
    requires
        pos <= bytes@.len(),
    ensures
        match spec_decode_string(bytes@.skip(pos as int)) {
            Some((t, used)) => {
                &&& r matches Some((m, end))
                &&& m@ == t
                &&& end == pos + used
            },
            None => r is None,
        },
{
    match decode_string(bytes, pos) {
        Some((token, end)) => Some((Auth { token }, end)),
        None => None,
    }
}

/// Appends the `StreamStart` payload to `out`.
pub fn encode_stream_start(m: &StreamStart, out: &mut Vec<u8>)
    ensures
        final(out)@ == old(out)@ + spec_encode_stream_start(m@),
{
    encode_string(m.route_name.as_str(), out);
}

/// Decodes one `StreamStart` payload starting at `pos`.
pub fn decode_stream_start(bytes: &[u8], pos: usize) -> (r: Option<(StreamStart, usize)>)
    requires
        pos <= bytes@.len(),
    ensures
        match spec_decode_string(bytes@.skip(pos as int)) {
            Some((t, used)) => {
                &&& r matches Some((m, end))
                &&& m@ == t
                &&& end == pos + used
            },
            None => r is None,
        },
{
    match decode_string(bytes, pos) {
        Some((route_name, end)) => Some((StreamStart { route_name }, end)),
        None => None,
    }
}

/// Appends one `RegisterRoute` payload to `out`.
pub fn encode_register_route(m: &RegisterRoute, out: &mut Vec<u8>)
    ensures
        final(out)@ == old(out)@ + spec_encode_register_route(m@),
{
    encode_string(m.name.as_str(), out);
    encode_route_type(m._type, out);
    proof {
        assert(final(out)@ =~= old(out)@ + spec_encode_register_route(m@));
    }
}

/// A successful route decode consumes between two bytes and the whole
/// input.
pub proof fn lemma_register_route_decode_bounds(bytes: Seq<u8>)
    ensures
        spec_decode_register_route(bytes) matches Some((v, used)) ==> 2 <= used <= bytes.len(),
{
    lemma_string_decode_bounds(bytes);
    match spec_decode_string(bytes) {
        Some((name, u1)) => {
            match spec_decode_route_type(bytes.skip(u1)) {
                Some((t, u2)) => {
                    assert(bytes.skip(u1).len() >= 1);
                },
                None => {},
            }
        },
        None => {},
    }
}

/// Decodes one `RegisterRoute` starting at `pos`.
pub fn decode_register_route(bytes: &[u8], pos: usize) -> (r: Option<(RegisterRoute, usize)>)
    requires
        pos <= bytes@.len(),
    ensures
        match spec_decode_register_route(bytes@.skip(pos as int)) {
            Some((v, used)) => {
                &&& r matches Some((m, end))
                &&& m@ == v
                &&& end == pos + used
            },
            None => r is None,
        },
{
    let ghost tail = bytes@.skip(pos as int);
    let n: usize = bytes.len();
    match decode_string(bytes, pos) {
        Some((name, p1)) => {
            proof {
                lemma_string_decode_bounds(tail);
                assert(bytes@.len() == n);
                assert(bytes@.skip(p1 as int) =~= tail.skip(p1 - pos));
            }
            match decode_route_type(bytes, p1) {
                Some((t, p2)) => {
                    proof {
                        assert(bytes@.skip(p1 as int).len() >= 1);
                    }
                    Some((RegisterRoute { name, _type: t }, p2))
                },
                None => None,
            }
        },
        None => None,
    }
}

/// Appends one `RegisterRouteError` payload to `out`.
pub fn encode_err(m: &RegisterRouteError, out: &mut Vec<u8>)
    ensures
        final(out)@ == old(out)@ + spec_encode_err(m@),
{
    match m {
        RegisterRouteError::Repeated(r) => {
            out.push(0u8);
            encode_register_route(r, out);
        },
        RegisterRouteError::RouteNotFound(r) => {
            out.push(1u8);
            encode_register_route(r, out);
        },
        RegisterRouteError::Other(msg, r) => {
            out.push(2u8);
            encode_string(msg.as_str(), out);
            encode_register_route(r, out);
        },
    }
    proof {
        assert(final(out)@ =~= old(out)@ + spec_encode_err(m@));
    }
}

/// Decodes one `RegisterRouteError` starting at `pos`.
pub fn decode_err(bytes: &[u8], pos: usize) -> (r: Option<(RegisterRouteError, usize)>)
    requires
        pos <= bytes@.len(),
    ensures
        match spec_decode_err(bytes@.skip(pos as int)) {
            Some((v, used)) => {
                &&& r matches Some((m, end))
                &&& m@ == v
                &&& end == pos + used
            },
            None => r is None,
        },
{
    let ghost tail = bytes@.skip(pos as int);
    if pos >= bytes.len() {
        return None;
    }
    let tag = *vstd::slice::slice_index_get(bytes, pos);
    proof {
        assert(tail[0] == tag);
        assert(bytes@.skip(pos as int + 1) =~= tail.skip(1));
    }
    if tag == 0 {
        match decode_register_route(bytes, pos + 1) {
            Some((r, end)) => Some((RegisterRouteError::Repeated(r), end)),
            None => None,
        }
    } else if tag == 1 {
        match decode_register_route(bytes, pos + 1) {
            Some((r, end)) => Some((RegisterRouteError::RouteNotFound(r), end)),
            None => None,
        }
    } else if tag == 2 {
        match decode_string(bytes, pos + 1) {
            Some((msg, p1)) => {
                proof {
                    lemma_string_decode_bounds(tail.skip(1));
                    assert(bytes@.skip(p1 as int) =~= tail.skip(p1 - pos));
                    assert(tail.skip(1).skip(p1 - pos - 1) =~= tail.skip(p1 - pos));
                }
                match decode_register_route(bytes, p1) {
                    Some((r, end)) => Some((RegisterRouteError::Other(msg, r), end)),
                    None => None,
                }
            },
            None => None,
        }
    } else {
        None
    }
}

/// Appends one `RegisterRouteRes` payload to `out`.
pub fn encode_res(m: &RegisterRouteRes, out: &mut Vec<u8>)
    ensures
        final(out)@ == old(out)@ + spec_encode_res(m@),
{
    match m {
        RegisterRouteRes::Accepted => {
            out.push(0u8);
        },
        RegisterRouteRes::Rejected(e) => {
            out.push(1u8);
            encode_err(e, out);
        },
    }
    proof {
        assert(final(out)@ =~= old(out)@ + spec_encode_res(m@));
    }
}

/// Decodes one `RegisterRouteRes` starting at `pos`.
pub fn decode_res(bytes: &[u8], pos: usize) -> (r: Option<(RegisterRouteRes, usize)>)
    requires
        pos <= bytes@.len(),
    ensures
        match spec_decode_res(bytes@.skip(pos as int)) {
            Some((v, used)) => {
                &&& r matches Some((m, end))
                &&& m@ == v
                &&& end == pos + used
            },
            None => r is None,
        },
{
    let ghost tail = bytes@.skip(pos as int);
    if pos >= bytes.len() {
        return None;
    }
    let tag = *vstd::slice::slice_index_get(bytes, pos);
    proof {
        assert(tail[0] == tag);
        assert(bytes@.skip(pos as int + 1) =~= tail.skip(1));
    }
    if tag == 0 {
        Some((RegisterRouteRes::Accepted, pos + 1))
    } else if tag == 1 {
        match decode_err(bytes, pos + 1) {
            Some((e, end)) => Some((RegisterRouteRes::Rejected(e), end)),
            None => None,
        }
    } else {
        None
    }
}

/// Appends a whole registration sequence to `out`.
pub fn encode_routes(routes: &Vec<RegisterRoute>, out: &mut Vec<u8>)
    ensures
        final(out)@ == old(out)@ + spec_encode_routes(routes@.map_values(|m: RegisterRoute| m@)),
{
    let ghost views = routes@.map_values(|m: RegisterRoute| m@);
    encode_varint(routes.len() as u64, out);
    let ghost mid = out@;
    let mut i: usize = 0;
    while i < routes.len()
        invariant
            i <= routes@.len(),
            views == routes@.map_values(|m: RegisterRoute| m@),
            out@ == mid + spec_encode_routes_items(views.take(i as int)),
            mid == old(out)@ + spec_varint(views.len()),
        decreases routes@.len() - i,
    {
        encode_register_route(&routes[i], out);
        proof {
            assert(views[i as int] == routes@[i as int]@);
        }
        i = i + 1;
        proof {
            lemma_routes_items_take(views, i as int);
            assert(mid + spec_encode_routes_items(views.take(i - 1)) + spec_encode_register_route(
                views[i - 1],
            ) =~= mid + (spec_encode_routes_items(views.take(i - 1)) + spec_encode_register_route(
                views[i - 1],
            )));
        }
    }
    proof {
        assert(views.take(views.len() as int) =~= views);
        assert(final(out)@ =~= old(out)@ + spec_encode_routes(views));
    }
}

/// Encoding a one-longer prefix appends exactly the next route.
proof fn lemma_routes_items_take(rs: Seq<RegisterRouteView>, i: int)
    requires
        0 < i <= rs.len(),
    ensures
        spec_encode_routes_items(rs.take(i)) == spec_encode_routes_items(rs.take(i - 1))
            + spec_encode_register_route(rs[i - 1]),
    decreases i,
{
    if i == 1 {
        assert(rs.take(1)[0] == rs[0]);
        assert(rs.take(1).skip(1) =~= Seq::<RegisterRouteView>::empty());
        assert(rs.take(0) =~= Seq::<RegisterRouteView>::empty());
        assert(spec_encode_routes_items(Seq::<RegisterRouteView>::empty())
            =~= Seq::<u8>::empty());
        assert(spec_encode_routes_items(rs.take(1)) =~= spec_encode_register_route(rs[0])
            + spec_encode_routes_items(rs.take(1).skip(1)));
        assert(spec_encode_routes_items(rs.take(1)) =~= spec_encode_register_route(rs[0]));
        assert(spec_encode_routes_items(rs.take(0)) =~= Seq::<u8>::empty());
    } else {
        assert(rs.take(i).skip(1) =~= rs.skip(1).take(i - 1));
        assert(rs.take(i - 1).skip(1) =~= rs.skip(1).take(i - 2));
        assert(rs.take(i)[0] == rs[0]);
        assert(rs.take(i - 1)[0] == rs[0]);
        lemma_routes_items_take(rs.skip(1), i - 1);
        assert(rs.skip(1)[i - 2] == rs[i - 1]);
        assert(spec_encode_routes_items(rs.take(i)) =~= spec_encode_register_route(rs[0])
            + spec_encode_routes_items(rs.skip(1).take(i - 1)));
        assert(spec_encode_routes_items(rs.take(i - 1)) =~= spec_encode_register_route(rs[0])
            + spec_encode_routes_items(rs.skip(1).take(i - 2)));
        assert(spec_encode_register_route(rs[0]) + (spec_encode_routes_items(
            rs.skip(1).take(i - 2),
        ) + spec_encode_register_route(rs[i - 1])) =~= (spec_encode_register_route(rs[0])
            + spec_encode_routes_items(rs.skip(1).take(i - 2))) + spec_encode_register_route(
            rs[i - 1],
        ));
    }
}

/// Decodes a whole registration sequence starting at `pos`.
pub fn decode_routes(bytes: &[u8], pos: usize) -> (r: Option<(Vec<RegisterRoute>, usize)>)
    requires
        pos <= bytes@.len(),
    ensures
        match spec_decode_routes(bytes@.skip(pos as int)) {
            Some((vs, used)) => {
                &&& r matches Some((ms, end))
                &&& ms@.map_values(|m: RegisterRoute| m@) == vs
                &&& end == pos + used
            },
            None => r is None,
        },
{
    let ghost tail = bytes@.skip(pos as int);
    let n_total: usize = bytes.len();
    match decode_varint(bytes, pos) {
        Some((count, mut p)) => {
            proof {
                lemma_varint_decode_bounds(tail);
                assert(bytes@.len() == n_total);
            }
            let ghost u1 = p - pos;
            let mut out: Vec<RegisterRoute> = Vec::new();
            let mut i: u64 = 0;
            proof {
                assert(tail.skip(u1) =~= bytes@.skip(p as int));
                assert(out@.map_values(|m: RegisterRoute| m@) =~= Seq::<
                    RegisterRouteView,
                >::empty());
                match spec_decode_routes_items(bytes@.skip(p as int), count as nat) {
                    Some((vs, u2)) => {
                        assert(Seq::<RegisterRouteView>::empty() + vs =~= vs);
                    },
                    None => {},
                }
            }
            loop
                invariant
                    i <= count,
                    pos <= p <= bytes@.len(),
                    bytes@.len() == n_total,
                    tail == bytes@.skip(pos as int),
                    pos + u1 <= p,
                    out@.map_values(|m: RegisterRoute| m@).len() == i,
                    spec_varint_decode(tail) == Some::<(nat, int)>((count as nat, u1)),
                    spec_decode_routes_items(tail.skip(u1), count as nat) == (
                    match spec_decode_routes_items(bytes@.skip(p as int), (count - i) as nat) {
                        Some((vs, u2)) => Some::<(Seq<RegisterRouteView>, int)>(
                            (out@.map_values(|m: RegisterRoute| m@) + vs, (p - pos - u1) + u2),
                        ),
                        None => None,
                    }),
                decreases count - i,
            {
                if i >= count {
                    proof {
                        assert(spec_decode_routes_items(bytes@.skip(p as int), 0)
                            == Some::<(Seq<RegisterRouteView>, int)>((Seq::empty(), 0)));
                        assert(out@.map_values(|m: RegisterRoute| m@) + Seq::empty()
                            =~= out@.map_values(|m: RegisterRoute| m@));
                    }
                    return Some((out, p));
                }
                let ghost p_old = p as int;
                let ghost out_old = out@;
                proof {
                    lemma_register_route_decode_bounds(bytes@.skip(p as int));
                }
                match decode_register_route(bytes, p) {
                    Some((m, p2)) => {
                        proof {
                            lemma_routes_decode_step(
                                bytes@,
                                p_old,
                                p2 as int,
                                (count - i) as nat,
                                m@,
                            );
                        }
                        out.push(m);
                        p = p2;
                        i = i + 1;
                        proof {
                            assert(out@ =~= out_old.push(m));
                            assert(out@.map_values(|mm: RegisterRoute| mm@) =~= out_old.map_values(
                                |mm: RegisterRoute| mm@,
                            ).push(m@));
                            match spec_decode_routes_items(
                                bytes@.skip(p as int),
                                (count - i) as nat,
                            ) {
                                Some((vs, u2)) => {
                                    assert(out_old.map_values(|mm: RegisterRoute| mm@) + (seq![m@]
                                        + vs) =~= out@.map_values(|mm: RegisterRoute| mm@) + vs);
                                },
                                None => {},
                            }
                        }
                    },
                    None => {
                        proof {
                            assert(spec_decode_routes_items(
                                bytes@.skip(p as int),
                                (count - i) as nat,
                            ) is None);
                        }
                        return None;
                    },
                }
            }
        },
        None => None,
    }
}

/// One successful item decode extends a partial sequence decode.
proof fn lemma_routes_decode_step(
    bytes: Seq<u8>,
    p: int,
    p2: int,
    n: nat,
    v: RegisterRouteView,
)
    requires
        n >= 1,
        0 <= p <= p2 <= bytes.len(),
        spec_decode_register_route(bytes.skip(p)) == Some::<(RegisterRouteView, int)>(
            (v, p2 - p),
        ),
    ensures
        spec_decode_routes_items(bytes.skip(p), n) == (match spec_decode_routes_items(
            bytes.skip(p2),
            (n - 1) as nat,
        ) {
            Some((vs, u2)) => Some::<(Seq<RegisterRouteView>, int)>(
                (seq![v] + vs, (p2 - p) + u2),
            ),
            None => None,
        }),
{
    assert(bytes.skip(p).skip(p2 - p) =~= bytes.skip(p2));
}

} // verus!
