//! Length-prefixed framing: unsigned LEB128 varints and the
//! `varint(len) ++ payload` frame shape that every control message and
//! every datagram body travels in.
//!
//! The decoder accepts exactly the encodings the encoder produces
//! (minimal-length LEB128, values up to 64 bits); everything else is a
//! framing error.

use vstd::prelude::*;

verus! {

/// Decoders refuse any frame whose announced payload length exceeds this.
pub const MAX_FRAME_LEN: u64 = 0x0100_0000;

/// The unsigned LEB128 encoding of `n`: seven payload bits per byte,
/// least significant group first, high bit set on every byte but the last.
pub open spec fn spec_varint(n: nat) -> Seq<u8>
    decreases n,
{
    if n < 128 {
        seq![n as u8]
    } else {
        seq![(128 + n % 128) as u8] + spec_varint(n / 128)
    }
}

/// Total decoder for minimal-length LEB128: the value and the number of
/// bytes consumed, or `None` when no such varint that fits in 64 bits
/// starts `bytes`.  The `hi > 0` condition refuses padded encodings,
/// which the encoder never emits.
pub open spec fn spec_varint_decode(bytes: Seq<u8>) -> Option<(nat, int)>
    decreases bytes.len(),
{
    if bytes.len() == 0 {
        None
    } else if bytes[0] < 128 {
        Some((bytes[0] as nat, 1))
    } else {
        match spec_varint_decode(bytes.skip(1)) {
            Some((hi, used)) => {
                let v = (bytes[0] - 128) as nat + 128 * hi;
                if hi > 0 && v <= u64::MAX {
                    Some((v, used + 1))
                } else {
                    None
                }
            },
            None => None,
        }
    }
}

/// A complete frame: the payload length as a varint, then the payload.
pub open spec fn spec_frame(payload: Seq<u8>) -> Seq<u8> {
    spec_varint(payload.len()) + payload
}

/// Total decoder for one frame at the head of `bytes`: the payload and
/// the number of bytes consumed.  Fails when the varint is malformed,
/// the length exceeds `MAX_FRAME_LEN`, or the payload is truncated.
pub open spec fn spec_frame_decode(bytes: Seq<u8>) -> Option<(Seq<u8>, int)> {
    match spec_varint_decode(bytes) {
        Some((len, used)) => {
            if len <= MAX_FRAME_LEN && used + len <= bytes.len() {
                Some((bytes.subrange(used, used + len), used + len))
            } else {
                None
            }
        },
        None => None,
    }
}

/// Round trip for varints: decoding an encoding, whatever follows it,
/// yields the value back and consumes exactly the encoding.
pub proof fn lemma_varint_round_trip(n: nat, rest: Seq<u8>)
    requires
        n <= u64::MAX,
    ensures
        spec_varint_decode(spec_varint(n) + rest) == Some((n, spec_varint(n).len() as int)),
    decreases n,
{
    let enc = spec_varint(n);
    if n < 128 {
        assert((enc + rest)[0] == n as u8);
    } else {
        let tail = spec_varint(n / 128);
        assert(enc + rest =~= seq![(128 + n % 128) as u8] + (tail + rest));
        assert((enc + rest).skip(1) =~= tail + rest);
        lemma_varint_round_trip(n / 128, rest);
        assert(((128 + n % 128) as u8 - 128) as nat + 128 * (n / 128) == n);
    }
}

/// Round trip for frames: a frame followed by anything decodes to its
/// own payload, consuming exactly the frame.
pub proof fn lemma_frame_round_trip(payload: Seq<u8>, rest: Seq<u8>)
    requires
        payload.len() <= MAX_FRAME_LEN,
    ensures
        spec_frame_decode(spec_frame(payload) + rest) == Some(
            (payload, spec_frame(payload).len() as int),
        ),
{
    let header = spec_varint(payload.len());
    let all = spec_frame(payload) + rest;
    lemma_varint_round_trip(payload.len(), payload + rest);
    assert(all =~= header + (payload + rest));
    let used = header.len() as int;
    assert(spec_varint_decode(all) == Some((payload.len(), used)));
    assert(all.subrange(used, used + payload.len()) =~= payload);
}

/// `128^k`, the place value of the `k`-th varint byte.
pub open spec fn spec_pow128(k: nat) -> nat
    decreases k,
{
    if k == 0 {
        1
    } else {
        128 * spec_pow128((k - 1) as nat)
    }
}

/// `128^k` is positive.
proof fn lemma_pow128_pos(k: nat)
    ensures
        spec_pow128(k) >= 1,
    decreases k,
{
    if k > 0 {
        lemma_pow128_pos((k - 1) as nat);
        assert(128 * spec_pow128((k - 1) as nat) >= spec_pow128((k - 1) as nat))
            by (nonlinear_arith)
            requires spec_pow128((k - 1) as nat) >= 1;
    }
}

/// `128^k` grows with `k`.
proof fn lemma_pow128_increases(a: nat, b: nat)
    requires
        a <= b,
    ensures
        spec_pow128(a) <= spec_pow128(b),
    decreases b,
{
    if a < b {
        lemma_pow128_increases(a, (b - 1) as nat);
        lemma_pow128_pos((b - 1) as nat);
        assert(128 * spec_pow128((b - 1) as nat) >= spec_pow128((b - 1) as nat))
            by (nonlinear_arith)
            requires spec_pow128((b - 1) as nat) >= 1;
    }
}

/// The concrete place values the decoder's bound rests on.
proof fn lemma_pow128_vals()
    ensures
        spec_pow128(9) == 0x8000000000000000,
        spec_pow128(10) == 0x400000000000000000,
{
    assert(spec_pow128(0) == 1);
    assert(spec_pow128(1) == 0x80);
    assert(spec_pow128(2) == 0x4000);
    assert(spec_pow128(3) == 0x200000);
    assert(spec_pow128(4) == 0x10000000);
    assert(spec_pow128(5) == 0x800000000);
    assert(spec_pow128(6) == 0x40000000000);
    assert(spec_pow128(7) == 0x2000000000000);
    assert(spec_pow128(8) == 0x100000000000000);
    assert(spec_pow128(9) == 0x8000000000000000);
    assert(spec_pow128(10) == 0x400000000000000000);
}

/// The value carried by `k` continuation bytes starting at `pos`,
/// low groups first.
pub open spec fn spec_partial(bytes: Seq<u8>, pos: int, k: nat) -> nat
    decreases k,
{
    if k == 0 {
        0
    } else {
        (bytes[pos] - 128) as nat + 128 * spec_partial(bytes, pos + 1, (k - 1) as nat)
    }
}

/// Unrolls `spec_varint_decode` across a run of `k` continuation bytes:
/// the overall result is determined by the decode of what follows them.
proof fn lemma_decode_unroll(bytes: Seq<u8>, pos: int, k: nat)
    requires
        0 <= pos,
        pos + k <= bytes.len(),
        forall|j: int| 0 <= j < k ==> #[trigger] bytes[pos + j] >= 128,
    ensures
        spec_varint_decode(bytes.skip(pos)) == (match spec_varint_decode(bytes.skip(pos + k)) {
            Some((hi, used)) => {
                let v = spec_partial(bytes, pos, k) + spec_pow128(k) * hi;
                if (k == 0 || hi > 0) && v <= u64::MAX {
                    Some((v, used + k))
                } else {
                    None
                }
            },
            None => None,
        }),
    decreases k,
{
    lemma_pow128_pos(k);
    if k == 0 {
        assert(spec_pow128(0) == 1);
        match spec_varint_decode(bytes.skip(pos)) {
            Some((hi, used)) => {
                assert(0 + spec_pow128(0) * hi == hi) by (nonlinear_arith)
                    requires spec_pow128(0) == 1;
            },
            None => {},
        }
    } else {
        reveal_with_fuel(spec_varint_decode, 3);
        let b = bytes[pos];
        assert(bytes[pos + 0] >= 128);
        assert(b >= 128);
        assert(bytes.skip(pos).len() > 0);
        assert(bytes.skip(pos)[0] == b);
        assert(bytes.skip(pos).skip(1) =~= bytes.skip(pos + 1));
        assert forall|j: int| 0 <= j < k - 1 implies #[trigger] bytes[(pos + 1) + j] >= 128 by {
            assert(bytes[pos + (j + 1)] >= 128);
        }
        lemma_decode_unroll(bytes, pos + 1, (k - 1) as nat);
        assert(spec_pow128(k) == 128 * spec_pow128((k - 1) as nat));
        let p1 = spec_partial(bytes, pos + 1, (k - 1) as nat);
        let w1 = spec_pow128((k - 1) as nat);
        lemma_pow128_pos((k - 1) as nat);
        match spec_varint_decode(bytes.skip(pos + k)) {
            Some((hi, used)) => {
                // value seen from pos+1, then wrapped with the byte at pos
                let v1 = p1 + w1 * hi;
                let v = (b - 128) as nat + 128 * v1;
                assert(v == spec_partial(bytes, pos, k) + spec_pow128(k) * hi)
                    by (nonlinear_arith)
                    requires
                        v == (b - 128) as nat + 128 * (p1 + w1 * hi),
                        spec_partial(bytes, pos, k) == (b - 128) as nat + 128 * p1,
                        spec_pow128(k) == 128 * w1,
                ;
                if hi > 0 {
                    assert(v1 > 0) by (nonlinear_arith)
                        requires v1 == p1 + w1 * hi, w1 >= 1, p1 >= 0, hi >= 1;
                }
                if v1 == 0 {
                    assert(hi == 0) by (nonlinear_arith)
                        requires v1 == p1 + w1 * hi, p1 + w1 * hi == 0, w1 >= 1;
                }
                assert(v >= v1) by (nonlinear_arith)
                    requires v == (b - 128) as nat + 128 * v1;
                if (k == 1 || hi > 0) && v1 <= u64::MAX {
                    // inner decode succeeds with value v1
                    assert(spec_varint_decode(bytes.skip(pos + 1)) == Some::<(nat, int)>(
                        (v1, used + k - 1),
                    ));
                    if v1 > 0 && v <= u64::MAX {
                        assert(spec_varint_decode(bytes.skip(pos)) == Some::<(nat, int)>(
                            (v, used + k),
                        ));
                    } else {
                        assert(spec_varint_decode(bytes.skip(pos)) is None);
                    }
                } else {
                    // inner decode refuses: padded form or 64-bit overflow
                    assert(spec_varint_decode(bytes.skip(pos + 1)) is None);
                    assert(spec_varint_decode(bytes.skip(pos)) is None);
                }
            },
            None => {
                assert(spec_varint_decode(bytes.skip(pos + 1)) is None);
                assert(spec_varint_decode(bytes.skip(pos)) is None);
            },
        }
    }
}

/// Appends the LEB128 encoding of `n` to `out`.
pub fn encode_varint(n: u64, out: &mut Vec<u8>)
    ensures
        final(out)@ == old(out)@ + spec_varint(n as nat),
    decreases n,
{
    if n < 128 {
        out.push(n as u8);
    } else {
        out.push((128 + n % 128) as u8);
        encode_varint(n / 128, out);
        proof {
            assert(old(out)@ + spec_varint(n as nat) =~= (old(out)@ + seq![
                (128 + n % 128) as u8,
            ]) + spec_varint((n / 128) as nat));
        }
    }
}

/// Decodes one LEB128 varint starting at `pos`; returns the value and
/// the position just past it.  Mirrors `spec_varint_decode` exactly.
pub fn decode_varint(bytes: &[u8], pos: usize) -> (r: Option<(u64, usize)>)
    requires
        pos <= bytes@.len(),
    ensures
        match spec_varint_decode(bytes@.skip(pos as int)) {
            Some((v, used)) => r == Some((v as u64, (pos + used) as usize)),
            None => r is None,
        },
{
    let ghost gbytes = bytes@;
    let n: usize = bytes.len();
    let mut value: u128 = 0;
    let mut place: u128 = 1;
    let mut k: usize = 0;
    loop
        invariant
            pos + k <= gbytes.len(),
            n == gbytes.len(),
            bytes@ == gbytes,
            k <= 9,
            value == spec_partial(gbytes, pos as int, k as nat),
            place == spec_pow128(k as nat),
            value < place,
            forall|j: int| 0 <= j < k ==> #[trigger] gbytes[pos + j] >= 128,
        decreases gbytes.len() - pos - k,
    {
        proof {
            lemma_decode_unroll(gbytes, pos as int, k as nat);
            lemma_pow128_pos(k as nat);
            lemma_pow128_vals();
            lemma_pow128_increases(k as nat, 9);
        }
        if k >= n - pos {
            proof {
                assert(gbytes.skip(pos + k as int).len() == 0);
            }
            return None;
        }
        let b = *vstd::slice::slice_index_get(bytes, pos + k);
        proof {
            assert(gbytes.skip(pos + k as int)[0] == b);
        }
        if b < 128 {
            proof {
                assert(gbytes.skip(pos + k as int).len() > 0);
                assert(spec_varint_decode(gbytes.skip(pos + k as int)) == Some::<(nat, int)>(
                    (b as nat, 1),
                ));
            }
            if k > 0 && b == 0 {
                return None;
            }
            proof {
                assert(place * (b as u128) <= spec_pow128(9nat) * 127) by (nonlinear_arith)
                    requires
                        place <= spec_pow128(9nat),
                        b < 128,
                ;
                assert(spec_pow128(9) * 127 < 0x400000000000000000) by {
                    lemma_pow128_vals();
                }
            }
            let total: u128 = value + place * (b as u128);
            if total > u64::MAX as u128 {
                return None;
            }
            return Some((total as u64, pos + k + 1));
        } else {
            if k == 9 {
                // a tenth continuation byte cannot leave room for a
                // 64-bit value
                proof {
                    assert(forall|j: int| 0 <= j < 10 ==> #[trigger] gbytes[pos + j] >= 128);
                    lemma_decode_unroll(gbytes, pos as int, 10);
                    match spec_varint_decode(gbytes.skip(pos + 10)) {
                        Some((hi, used)) => {
                            if hi > 0 {
                                assert(spec_partial(gbytes, pos as int, 10) + spec_pow128(10)
                                    * hi > u64::MAX) by (nonlinear_arith)
                                    requires
                                        hi >= 1,
                                        spec_pow128(10) == 0x400000000000000000,
                                        spec_partial(gbytes, pos as int, 10) >= 0,
                                ;
                            }
                        },
                        None => {},
                    }
                }
                return None;
            }
            let low = (b - 128) as u128;
            proof {
                assert(place * low <= place * 127) by (nonlinear_arith)
                    requires low <= 127, place >= 0;
                assert(value + place * low < place * 128) by (nonlinear_arith)
                    requires value < place, place * low <= place * 127;
                assert(place * 128 == spec_pow128((k + 1) as nat)) by {
                    assert(spec_pow128((k + 1) as nat) == 128 * spec_pow128(k as nat));
                }
                assert(spec_partial(gbytes, pos as int, (k + 1) as nat) == value + place * low)
                    by {
                        lemma_partial_snoc(gbytes, pos as int, k as nat);
                    }
            }
            value = value + place * low;
            place = place * 128;
            k = k + 1;
        }
    }
}

/// Extends a continuation-byte run by one byte on the high end.
proof fn lemma_partial_snoc(bytes: Seq<u8>, pos: int, k: nat)
    requires
        0 <= pos,
        pos + k + 1 <= bytes.len(),
        forall|j: int| 0 <= j <= k ==> #[trigger] bytes[pos + j] >= 128,
    ensures
        spec_partial(bytes, pos, k + 1) == spec_partial(bytes, pos, k) + spec_pow128(k) * (
        (bytes[pos + k] - 128) as nat),
    decreases k,
{
    lemma_pow128_pos(k);
    if k == 0 {
        assert(spec_partial(bytes, pos, 1) == (bytes[pos] - 128) as nat + 128 * spec_partial(
            bytes,
            pos + 1,
            0,
        ));
    } else {
        assert forall|j: int| 0 <= j <= k - 1 implies #[trigger] bytes[(pos + 1) + j] >= 128 by {
            assert(bytes[pos + (j + 1)] >= 128);
        }
        lemma_partial_snoc(bytes, pos + 1, (k - 1) as nat);
        let last = (bytes[pos + k] - 128) as nat;
        let w1 = spec_pow128((k - 1) as nat);
        assert(spec_pow128(k) == 128 * w1);
        assert((bytes[pos] - 128) as nat + 128 * (spec_partial(bytes, pos + 1, (k - 1) as nat)
            + w1 * last) == spec_partial(bytes, pos, k) + (128 * w1) * last)
            by (nonlinear_arith)
            requires
                spec_partial(bytes, pos, k) == (bytes[pos] - 128) as nat + 128 * spec_partial(
                    bytes,
                    pos + 1,
                    (k - 1) as nat,
                ),
        ;
    }
}

/// A successful varint decode yields a 64-bit value and consumes
/// between one byte and the whole input.
pub proof fn lemma_varint_decode_bounds(bytes: Seq<u8>)
    ensures
        spec_varint_decode(bytes) matches Some((v, used)) ==> v <= u64::MAX && 1 <= used
            <= bytes.len(),
    decreases bytes.len(),
{
    if bytes.len() > 0 && bytes[0] >= 128 {
        lemma_varint_decode_bounds(bytes.skip(1));
    }
}

/// Appends `varint(payload.len()) ++ payload` to `out`.
pub fn encode_frame(payload: &Vec<u8>, out: &mut Vec<u8>)
    ensures
        final(out)@ == old(out)@ + spec_frame(payload@),
{
    encode_varint(payload.len() as u64, out);
    let ghost mid = out@;
    let mut i: usize = 0;
    while i < payload.len()
        invariant
            i <= payload@.len(),
            out@ == mid + payload@.take(i as int),
            mid == old(out)@ + spec_varint(payload@.len()),
        decreases payload@.len() - i,
    {
        out.push(payload[i]);
        proof {
            assert(payload@.take(i + 1) =~= payload@.take(i as int) + seq![payload@[i as int]]);
            assert(mid + payload@.take(i + 1) =~= (mid + payload@.take(i as int)) + seq![
                payload@[i as int],
            ]);
        }
        i = i + 1;
    }
    proof {
        assert(payload@.take(payload@.len() as int) =~= payload@);
        assert(out@ =~= old(out)@ + spec_frame(payload@));
    }
}

/// Decodes one frame starting at `pos`: the payload bytes and the
/// position just past the frame.  Mirrors `spec_frame_decode` exactly.
pub fn decode_frame(bytes: &[u8], pos: usize) -> (r: Option<(Vec<u8>, usize)>)
    requires
        pos <= bytes@.len(),
    ensures
        match spec_frame_decode(bytes@.skip(pos as int)) {
            Some((payload, used)) => {
                &&& r matches Some((p, end))
                &&& p@ == payload
                &&& end == pos + used
            },
            None => r is None,
        },
{
    let ghost tail = bytes@.skip(pos as int);
    let n: usize = bytes.len();
    match decode_varint(bytes, pos) {
        Some((len, body_start)) => {
            proof {
                lemma_varint_decode_bounds(tail);
                assert(bytes@.len() == n);
                assert(spec_varint_decode(tail) == Some::<(nat, int)>(
                    (len as nat, body_start - pos),
                ));
                assert(body_start <= bytes@.len());
            }
            if len > MAX_FRAME_LEN {
                return None;
            }
            if (len as usize) > bytes.len() - body_start {
                proof {
                    assert((body_start - pos) + len > tail.len());
                }
                return None;
            }
            let body_end = body_start + (len as usize);
            let payload = vstd::slice::slice_to_vec(
                vstd::slice::slice_subrange(bytes, body_start, body_end),
            );
            proof {
                assert(payload@ =~= tail.subrange(
                    body_start - pos,
                    body_start - pos + len,
                ));
            }
            Some((payload, body_end))
        },
        None => None,
    }
}


/// A length-prefixed UTF-8 string: `varint(byte_len) ++ bytes`.
pub open spec fn spec_encode_string(t: Seq<char>) -> Seq<u8> {
    spec_varint(vstd::utf8::encode_utf8(t).len()) + vstd::utf8::encode_utf8(t)
}

/// Total decoder for one length-prefixed UTF-8 string at the head of
/// `bytes`: the characters and the number of bytes consumed.
pub open spec fn spec_decode_string(bytes: Seq<u8>) -> Option<(Seq<char>, int)> {
    match spec_varint_decode(bytes) {
        Some((len, used)) => {
            if used + len <= bytes.len() && vstd::utf8::valid_utf8(
                bytes.subrange(used, used + len),
            ) {
                Some((vstd::utf8::decode_utf8(bytes.subrange(used, used + len)), used + len))
            } else {
                None
            }
        },
        None => None,
    }
}

/// Round trip for strings: decoding an encoding, whatever follows it,
/// yields the characters back and consumes exactly the encoding.
pub proof fn lemma_string_round_trip(t: Seq<char>, rest: Seq<u8>)
    requires
        vstd::utf8::encode_utf8(t).len() <= u64::MAX,
    ensures
        spec_decode_string(spec_encode_string(t) + rest) == Some(
            (t, spec_encode_string(t).len() as int),
        ),
{
    let body = vstd::utf8::encode_utf8(t);
    let header = spec_varint(body.len());
    let all = spec_encode_string(t) + rest;
    lemma_varint_round_trip(body.len(), body + rest);
    assert(all =~= header + (body + rest));
    let used = header.len() as int;
    assert(all.subrange(used, used + body.len()) =~= body);
    vstd::utf8::encode_utf8_valid_utf8(t);
    vstd::utf8::encode_utf8_decode_utf8(t);
}

/// Relies on `String::from_utf8` from std: succeeds exactly on valid
/// UTF-8 and returns the string holding those very bytes.
#[verifier::external_body]
fn bytes_into_string(v: Vec<u8>) -> (r: Option<String>)
    ensures
        r is Some <==> vstd::utf8::valid_utf8(v@),
        r matches Some(s) ==> vstd::utf8::encode_utf8(s@) == v@,
{
    match String::from_utf8(v) {
        Ok(s) => Some(s),
        Err(_) => None,
    }
}

/// A successful string decode consumes between one byte and the whole
/// input.
pub proof fn lemma_string_decode_bounds(bytes: Seq<u8>)
    ensures
        spec_decode_string(bytes) matches Some((t, used)) ==> 1 <= used <= bytes.len(),
{
    lemma_varint_decode_bounds(bytes);
}

/// Appends `varint(byte_len) ++ utf-8 bytes` of `s` to `out`.
pub fn encode_string(s: &str, out: &mut Vec<u8>)
    ensures
        final(out)@ == old(out)@ + spec_encode_string(s@),
{
    let sb: &[u8] = s.as_bytes();
    encode_varint(sb.len() as u64, out);
    let ghost mid = out@;
    let mut i: usize = 0;
    while i < sb.len()
        invariant
            i <= sb@.len(),
            out@ == mid + sb@.take(i as int),
            mid == old(out)@ + spec_varint(sb@.len()),
            sb@ == vstd::utf8::encode_utf8(s@),
        decreases sb@.len() - i,
    {
        out.push(*vstd::slice::slice_index_get(sb, i));
        proof {
            assert(sb@.take(i + 1) =~= sb@.take(i as int) + seq![sb@[i as int]]);
            assert(mid + sb@.take(i + 1) =~= (mid + sb@.take(i as int)) + seq![sb@[i as int]]);
        }
        i = i + 1;
    }
    proof {
        assert(sb@.take(sb@.len() as int) =~= sb@);
        assert(out@ =~= old(out)@ + spec_encode_string(s@));
    }
}

/// Decodes one length-prefixed UTF-8 string starting at `pos`: the
/// string and the position just past it.  Mirrors `spec_decode_string`
/// exactly.
pub fn decode_string(bytes: &[u8], pos: usize) -> (r: Option<(String, usize)>)
    requires
        pos <= bytes@.len(),
    ensures
        match spec_decode_string(bytes@.skip(pos as int)) {
            Some((t, used)) => {
                &&& r matches Some((s, end))
                &&& s@ == t
                &&& end == pos + used
            },
            None => r is None,
        },
{
    let ghost tail = bytes@.skip(pos as int);
    let n: usize = bytes.len();
    match decode_varint(bytes, pos) {
        Some((len, body_start)) => {
            proof {
                lemma_varint_decode_bounds(tail);
                assert(bytes@.len() == n);
                assert(spec_varint_decode(tail) == Some::<(nat, int)>(
                    (len as nat, body_start - pos),
                ));
                assert(body_start <= bytes@.len());
            }
            if len > (n - body_start) as u64 {
                proof {
                    assert((body_start - pos) + len > tail.len());
                }
                return None;
            }
            let body_end = body_start + (len as usize);
            let ghost body = tail.subrange(body_start - pos, body_start - pos + len);
            let payload = vstd::slice::slice_to_vec(
                vstd::slice::slice_subrange(bytes, body_start, body_end),
            );
            proof {
                assert(payload@ =~= body);
            }
            match bytes_into_string(payload) {
                Some(s) => {
                    proof {
                        vstd::utf8::encode_utf8_decode_utf8(s@);
                    }
                    Some((s, body_end))
                },
                None => None,
            }
        },
        None => None,
    }
}

} // verus!
