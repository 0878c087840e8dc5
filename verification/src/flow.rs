//! The server's per-route UDP demultiplexer: a flow table mapping each
//! source address to the substream that carries its datagrams, and the
//! decisions the route loop takes on each event.
//!
//! The table is owned by one route loop; flows are created on the
//! first datagram from a new source — and only once that datagram has
//! been framed and the substream opened — and evicted when either half
//! of the substream fails.

use vstd::prelude::*;

use crate::codec::{
    encode_frame, lemma_frame_round_trip, spec_frame, spec_frame_decode, MAX_FRAME_LEN,
};
use crate::proto::lemma_stream_start_round_trip;
use crate::config::SockAddr;
use crate::proto::{encode_stream_start, spec_encode_stream_start, StreamStart};

verus! {

/// Pairwise-distinct source addresses in an entry list.
pub open spec fn addrs_unique(entries: Seq<(SockAddr, u64)>) -> bool {
    forall|i: int, j: int|
        #![trigger entries[i], entries[j]]
        0 <= i < j < entries.len() ==> entries[i].0 != entries[j].0
}

/// The map an entry list denotes.
pub closed spec fn addr_map(s: Seq<(SockAddr, u64)>) -> Map<SockAddr, u64>
    decreases s.len(),
{
    if s.len() == 0 {
        Map::empty()
    } else {
        addr_map(s.drop_last()).insert(s.last().0, s.last().1)
    }
}

/// What `addr_map` holds: domain, values and size.
proof fn lemma_addr_map(s: Seq<(SockAddr, u64)>)
    ensures
        forall|a: SockAddr|
            #[trigger] addr_map(s).dom().contains(a) <==> exists|i: int|
                0 <= i < s.len() && #[trigger] s[i].0 == a,
        addrs_unique(s) ==> forall|i: int|
            0 <= i < s.len() ==> addr_map(s)[#[trigger] s[i].0] == s[i].1,
        addr_map(s).dom().finite(),
        addrs_unique(s) ==> addr_map(s).dom().len() == s.len(),
    decreases s.len(),
{
    if s.len() > 0 {
        let s0 = s.drop_last();
        lemma_addr_map(s0);
        assert forall|a: SockAddr| #[trigger] addr_map(s).dom().contains(a) implies exists|i: int|
            0 <= i < s.len() && #[trigger] s[i].0 == a by {
            if a == s.last().0 {
                assert(s[s.len() - 1].0 == a);
            } else {
                let i = choose|i: int| 0 <= i < s0.len() && #[trigger] s0[i].0 == a;
                assert(s[i].0 == a);
            }
        }
        assert forall|i: int| 0 <= i < s.len() && #[trigger] s[i].0 == s[i].0 implies addr_map(
            s,
        ).dom().contains(s[i].0) by {
            if i < s.len() - 1 {
                assert(s0[i].0 == s[i].0);
            }
        }
        if addrs_unique(s) {
            assert(addrs_unique(s0));
            assert forall|i: int| 0 <= i < s.len() implies addr_map(s)[#[trigger] s[i].0]
                == s[i].1 by {
                if i < s.len() - 1 {
                    assert(s[i].0 != s.last().0);
                    assert(s0[i].0 == s[i].0 && s0[i].1 == s[i].1);
                }
            }
            assert(!addr_map(s0).dom().contains(s.last().0)) by {
                if addr_map(s0).dom().contains(s.last().0) {
                    let i = choose|i: int| 0 <= i < s0.len() && #[trigger] s0[i].0 == s.last().0;
                    assert(s[i].0 == s.last().0);
                }
            }
            assert(addr_map(s).dom() =~= addr_map(s0).dom().insert(s.last().0));
            vstd::set::axiom_set_insert_len(addr_map(s0).dom(), s.last().0);
        }
    }
}

/// Removing one entry removes exactly its address from the map.
proof fn lemma_addr_map_remove(s: Seq<(SockAddr, u64)>, idx: int)
    requires
        addrs_unique(s),
        0 <= idx < s.len(),
    ensures
        addr_map(s.remove(idx)) =~= addr_map(s).remove(s[idx].0),
        addrs_unique(s.remove(idx)),
    decreases s.len(),
{
    lemma_addr_map(s);
    lemma_addr_map(s.remove(idx));
    let s0 = s.drop_last();
    assert(addrs_unique(s.remove(idx))) by {
        assert forall|i: int, j: int|
            #![trigger s.remove(idx)[i], s.remove(idx)[j]]
            0 <= i < j < s.remove(idx).len() implies s.remove(idx)[i].0 != s.remove(idx)[j].0 by {
            let i0 = if i < idx { i } else { i + 1 };
            let j0 = if j < idx { j } else { j + 1 };
            assert(s.remove(idx)[i] == s[i0] && s.remove(idx)[j] == s[j0]);
        }
    }
    if idx == s.len() - 1 {
        assert(s.remove(idx) =~= s0);
        assert(!addr_map(s0).dom().contains(s.last().0)) by {
            lemma_addr_map(s0);
            if addr_map(s0).dom().contains(s.last().0) {
                let i = choose|i: int| 0 <= i < s0.len() && #[trigger] s0[i].0 == s.last().0;
                assert(s[i].0 == s.last().0);
            }
        }
        assert(addr_map(s) == addr_map(s0).insert(s.last().0, s.last().1));
        assert(addr_map(s).remove(s[idx].0) =~= addr_map(s0));
    } else {
        assert(addrs_unique(s0));
        assert(s.remove(idx).drop_last() =~= s0.remove(idx));
        assert(s.remove(idx).last() == s.last());
        lemma_addr_map_remove(s0, idx);
        assert(s0[idx] == s[idx]);
        assert(s[idx].0 != s.last().0);
        assert(addr_map(s.remove(idx)) == addr_map(s0.remove(idx)).insert(
            s.last().0,
            s.last().1,
        ));
        assert(addr_map(s0).remove(s[idx].0).insert(s.last().0, s.last().1) =~= addr_map(
            s0,
        ).insert(s.last().0, s.last().1).remove(s[idx].0));
    }
}

/// The flow table of one UDP route: source address to the identifier
/// of the substream that serves it.  At most one substream per source
/// address, at all times.
pub struct FlowTable {
    entries: Vec<(SockAddr, u64)>,
}

impl View for FlowTable {
    type V = Map<SockAddr, u64>;

    closed spec fn view(&self) -> Map<SockAddr, u64> {
        addr_map(self.entries@)
    }
}

impl FlowTable {
    #[verifier::type_invariant]
    spec fn wf(self) -> bool {
        addrs_unique(self.entries@)
    }

    /// An empty table.
    pub fn new() -> (r: Self)
        ensures
            r@ == Map::<SockAddr, u64>::empty(),
    {
        FlowTable { entries: Vec::new() }
    }

    /// How many flows are live.
    pub fn len(&self) -> (r: usize)
        ensures
            r == self@.dom().len(),
    {
        proof {
            use_type_invariant(&*self);
            lemma_addr_map(self.entries@);
        }
        self.entries.len()
    }

    /// The substream serving `addr`, if any.
    pub fn get(&self, addr: SockAddr) -> (r: Option<u64>)
        ensures
            match r {
                Some(stream) => self@.dom().contains(addr) && stream == self@[addr],
                None => !self@.dom().contains(addr),
            },
    {
        proof {
            use_type_invariant(&*self);
            lemma_addr_map(self.entries@);
        }
        let ghost s = self.entries@;
        let mut i: usize = 0;
        while i < self.entries.len()
            invariant
                i <= s.len(),
                self.entries@ == s,
                forall|j: int| 0 <= j < i ==> #[trigger] s[j].0 != addr,
            decreases s.len() - i,
        {
            if self.entries[i].0 == addr {
                proof {
                    use_type_invariant(&*self);
                    lemma_addr_map(s);
                    assert(s[i as int].0 == addr);
                    assert(addr_map(s).dom().contains(addr));
                }
                return Some(self.entries[i].1);
            }
            i = i + 1;
        }
        proof {
            if self@.dom().contains(addr) {
                let j = choose|j: int| 0 <= j < s.len() && #[trigger] s[j].0 == addr;
            }
        }
        None
    }

    /// Records the substream now serving `addr`, if no flow exists for
    /// it; an existing flow is left untouched and `false` comes back.
    pub fn insert(&mut self, addr: SockAddr, stream: u64) -> (r: bool)
        ensures
            r == !old(self)@.dom().contains(addr),
            r ==> final(self)@ == old(self)@.insert(addr, stream),
            !r ==> final(self)@ == old(self)@,
    {
        proof {
            use_type_invariant(&*self);
            lemma_addr_map(self.entries@);
        }
        if self.get(addr).is_some() {
            return false;
        }
        let ghost s = self.entries@;
        let mut taken: Vec<(SockAddr, u64)> = Vec::new();
        core::mem::swap(&mut taken, &mut self.entries);
        taken.push((addr, stream));
        proof {
            assert(taken@.drop_last() =~= s);
            assert forall|j: int| 0 <= j < s.len() implies #[trigger] s[j].0 != addr by {
                lemma_addr_map(s);
            }
            assert(addrs_unique(taken@)) by {
                assert forall|i: int, j: int|
                    #![trigger taken@[i], taken@[j]]
                    0 <= i < j < taken@.len() implies taken@[i].0 != taken@[j].0 by {
                    if j < taken@.len() - 1 {
                        assert(s[i].0 != s[j].0);
                    } else {
                        assert(s[i].0 != addr);
                    }
                }
            }
        }
        self.entries = taken;
        true
    }

    /// Drops the flow for `addr`.  Evicting an absent address is a
    /// no-op: the table is unchanged.
    pub fn evict(&mut self, addr: SockAddr)
        ensures
            final(self)@ == old(self)@.remove(addr),
            !old(self)@.dom().contains(addr) ==> final(self)@ == old(self)@,
    {
        proof {
            use_type_invariant(&*self);
            lemma_addr_map(self.entries@);
        }
        let ghost s = self.entries@;
        let mut i: usize = 0;
        let mut found: Option<usize> = None;
        while i < self.entries.len()
            invariant
                i <= s.len(),
                self.entries@ == s,
                match found {
                    Some(idx) => idx < i && s[idx as int].0 == addr,
                    None => forall|j: int| 0 <= j < i ==> #[trigger] s[j].0 != addr,
                },
            decreases s.len() - i,
        {
            if found.is_none() && self.entries[i].0 == addr {
                found = Some(i);
            }
            i = i + 1;
        }
        match found {
            Some(idx) => {
                let mut taken: Vec<(SockAddr, u64)> = Vec::new();
                core::mem::swap(&mut taken, &mut self.entries);
                taken.remove(idx);
                proof {
                    use_type_invariant(&*self);
                    lemma_addr_map_remove(s, idx as int);
                }
                self.entries = taken;
            },
            None => {
                proof {
                    lemma_addr_map(s);
                    if addr_map(s).dom().contains(addr) {
                        let j = choose|j: int| 0 <= j < s.len() && #[trigger] s[j].0 == addr;
                    }
                    assert(addr_map(s).remove(addr) =~= addr_map(s));
                }
            },
        }
    }
}

/// At most one substream serves a source address: two live flow
/// entries for the same address are the same entry.
pub proof fn lemma_one_flow_per_addr(entries: Seq<(SockAddr, u64)>, i: int, j: int)
    requires
        addrs_unique(entries),
        0 <= i < entries.len(),
        0 <= j < entries.len(),
        entries[i].0 == entries[j].0,
    ensures
        i == j,
{
}

/// What the route loop does with one incoming datagram.
pub enum UdpAction {
    /// A flow exists: write this frame on its substream.  A write
    /// failure evicts the flow afterwards.
    Forward { stream: u64, frame: Vec<u8> },
    /// No flow yet: open a substream and write these initial bytes —
    /// the `StreamStart` preamble, then the first datagram's frame.
    /// Only once all of that succeeded is the flow recorded.
    OpenFlow { initial: Vec<u8> },
}

/// Decides what to do with a datagram of `payload` bytes from `addr`:
/// forward on the existing flow, or open a fresh substream whose first
/// bytes are the route's `StreamStart` preamble followed by the framed
/// datagram.
pub fn handle_datagram(
    table: &FlowTable,
    addr: SockAddr,
    start: &StreamStart,
    payload: &Vec<u8>,
) -> (r: UdpAction)
    ensures
        match r {
            UdpAction::Forward { stream, frame } => {
                &&& table@.dom().contains(addr)
                &&& stream == table@[addr]
                &&& frame@ == spec_frame(payload@)
            },
            UdpAction::OpenFlow { initial } => {
                &&& !table@.dom().contains(addr)
                &&& initial@ == spec_frame(spec_encode_stream_start(start@)) + spec_frame(
                    payload@,
                )
            },
        },
{
    match table.get(addr) {
        Some(stream) => {
            let mut frame: Vec<u8> = Vec::new();
            encode_frame(payload, &mut frame);
            UdpAction::Forward { stream, frame }
        },
        None => {
            let mut preamble: Vec<u8> = Vec::new();
            encode_stream_start(start, &mut preamble);
            let mut initial: Vec<u8> = Vec::new();
            encode_frame(&preamble, &mut initial);
            encode_frame(payload, &mut initial);
            proof {
                assert(initial@ =~= spec_frame(spec_encode_stream_start(start@))
                    + spec_frame(payload@));
            }
            UdpAction::OpenFlow { initial }
        },
    }
}

/// Applies the outcome of a `Forward` write: a failed write evicts the
/// flow, a successful one leaves the table as it is.
pub fn on_forward_outcome(table: &mut FlowTable, addr: SockAddr, ok: bool)
    ensures
        ok ==> final(table)@ == old(table)@,
        !ok ==> final(table)@ == old(table)@.remove(addr),
{
    if !ok {
        table.evict(addr);
    }
}

/// Applies the outcome of an `OpenFlow` attempt: on success the new
/// substream is recorded (the first datagram has already been framed
/// onto it); on failure nothing is recorded, so the source's next
/// datagram simply retries.
pub fn on_open_outcome(table: &mut FlowTable, addr: SockAddr, stream: Option<u64>) -> (r: bool)
    ensures
        match stream {
            Some(id) => {
                &&& r == !old(table)@.dom().contains(addr)
                &&& r ==> final(table)@ == old(table)@.insert(addr, id)
                &&& !r ==> final(table)@ == old(table)@
            },
            None => !r && final(table)@ == old(table)@,
        },
{
    match stream {
        Some(id) => table.insert(addr, id),
        None => false,
    }
}

/// Every substream the server opens begins with a well-formed
/// `StreamStart` frame: whoever reads the initial bytes of a fresh
/// flow's substream decodes first a frame whose payload is exactly the
/// route name.
pub proof fn lemma_substream_begins_with_preamble(name: Seq<char>, data: Seq<u8>)
    requires
        vstd::utf8::encode_utf8(name).len() <= u64::MAX,
        spec_encode_stream_start(name).len() <= MAX_FRAME_LEN,
    ensures
        spec_frame_decode(spec_frame(spec_encode_stream_start(name)) + spec_frame(data))
            == Some(
            (
                spec_encode_stream_start(name),
                spec_frame(spec_encode_stream_start(name)).len() as int,
            ),
        ),
        crate::codec::spec_decode_string(spec_encode_stream_start(name)) == Some(
            (name, spec_encode_stream_start(name).len() as int),
        ),
{
    lemma_frame_round_trip(spec_encode_stream_start(name), spec_frame(data));
    lemma_stream_start_round_trip(name);
}

} // verus!
