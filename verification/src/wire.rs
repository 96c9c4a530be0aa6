//! Protobuf wire primitives: base-128 varints, field keys, fixed-width
//! little-endian values, length-delimited payloads and the skipping of
//! unknown fields (groups included).
//!
//! Decoding is described over a whole input buffer `buf` and a window
//! `[pos, end)` of it; every decoder returns the position just after what it
//! read. A nested message is decoded in the window its length prefix gives,
//! so bytes past that window are never read for it.
use vstd::prelude::*;
use vstd::bytes::*;
use vstd::utf8::*;
use vstd::slice::slice_subrange;

verus! {

/// Largest nesting the decoder follows, counted the way the protobuf runtime
/// counts it: every nested message and every group costs one level.
pub const RECURSION_LIMIT: u32 = 100;

/// The largest field number a key may carry.
pub const MAX_TAG: u32 = 0x1fff_ffff;

/// The six wire types of the protobuf encoding.
#[derive(Debug, Clone, Copy, PartialEq, Eq, Structural)]
pub enum WireType {
    Varint,
    SixtyFourBit,
    LengthDelimited,
    StartGroup,
    EndGroup,
    ThirtyTwoBit,
}

/// Reason a byte string is refused as a protobuf message.
#[derive(Debug, Clone, Copy, PartialEq, Eq, Structural)]
pub struct DecodeError;

/// The wire type with the given 3-bit code, if the code names one.
pub open spec fn wire_type_of(code: int) -> Option<WireType> {
    if code == 0 {
        Some(WireType::Varint)
    } else if code == 1 {
        Some(WireType::SixtyFourBit)
    } else if code == 2 {
        Some(WireType::LengthDelimited)
    } else if code == 3 {
        Some(WireType::StartGroup)
    } else if code == 4 {
        Some(WireType::EndGroup)
    } else if code == 5 {
        Some(WireType::ThirtyTwoBit)
    } else {
        None
    }
}

/// The 3-bit code of a wire type.
pub open spec fn wire_code(w: WireType) -> nat {
    match w {
        WireType::Varint => 0,
        WireType::SixtyFourBit => 1,
        WireType::LengthDelimited => 2,
        WireType::StartGroup => 3,
        WireType::EndGroup => 4,
        WireType::ThirtyTwoBit => 5,
    }
}

/// `128` to the power `i`.
pub open spec fn pow128(i: nat) -> nat
    decreases i,
{
    if i == 0 {
        1
    } else {
        128 * pow128((i - 1) as nat)
    }
}

/// Continues reading a varint whose first `i` bytes, starting at `pos`, have
/// already contributed `acc`. At most ten bytes are read; the tenth must be
/// `0` or `1`, since larger values do not fit in 64 bits.
pub open spec fn varint_from(buf: Seq<u8>, pos: int, end: int, i: nat, acc: int) -> Option<(u64, int)>
    decreases 10 - i,
{
    if i >= 10 || pos < 0 || pos + i >= end || end > buf.len() {
        None
    } else {
        let b = buf[pos + i];
        let acc2 = acc + (b % 128) * pow128(i);
        if b < 128 {
            if i == 9 && b >= 2 {
                None
            } else {
                Some((acc2 as u64, pos + i + 1))
            }
        } else {
            varint_from(buf, pos, end, i + 1, acc2)
        }
    }
}

/// The varint at `pos`, read inside `[pos, end)`: its value and the position
/// after it.
pub open spec fn varint_at(buf: Seq<u8>, pos: int, end: int) -> Option<(u64, int)> {
    varint_from(buf, pos, end, 0, 0)
}

/// The base-128 encoding of `v`, low group first, every byte but the last
/// with its high bit set.
pub open spec fn varint_bytes(v: u64) -> Seq<u8>
    decreases v,
{
    if v < 128 {
        seq![v as u8]
    } else {
        seq![(v % 128 + 128) as u8] + varint_bytes(v / 128)
    }
}

/// The field key at `pos`: field number, wire type and the position after
/// the key. Keys wider than 32 bits, unknown wire types and field number 0
/// are refused.
pub open spec fn key_at(buf: Seq<u8>, pos: int, end: int) -> Option<(u32, WireType, int)> {
    match varint_at(buf, pos, end) {
        None => None,
        Some((k, p)) => if k > u32::MAX {
            None
        } else {
            match wire_type_of((k % 8) as int) {
                None => None,
                Some(w) => if k / 8 == 0 {
                    None
                } else {
                    Some(((k / 8) as u32, w, p))
                },
            }
        },
    }
}

/// The encoding of the key of field `tag` with wire type `w`.
pub open spec fn key_bytes(tag: u32, w: WireType) -> Seq<u8> {
    varint_bytes((tag * 8 + wire_code(w)) as u64)
}

/// The eight bytes at `pos` read as a little-endian 64-bit value.
pub open spec fn fixed64_at(buf: Seq<u8>, pos: int, end: int) -> Option<(u64, int)> {
    if 0 <= pos && pos + 8 <= end && end <= buf.len() {
        Some((spec_u64_from_le_bytes(buf.subrange(pos, pos + 8)), pos + 8))
    } else {
        None
    }
}

/// A length-delimited payload at `pos`: the window `[start, stop)` that its
/// length prefix gives, which must lie inside `[pos, end)`.
pub open spec fn delimited_at(buf: Seq<u8>, pos: int, end: int) -> Option<(int, int)> {
    match varint_at(buf, pos, end) {
        None => None,
        Some((len, p)) => if len <= end - p {
            Some((p, p + len))
        } else {
            None
        },
    }
}

/// A length-delimited payload that must be well-formed UTF-8: the characters
/// it encodes and the position after it.
pub open spec fn string_at(buf: Seq<u8>, pos: int, end: int) -> Option<(Seq<char>, int)> {
    match delimited_at(buf, pos, end) {
        None => None,
        Some((s, e)) => if valid_utf8(buf.subrange(s, e)) {
            Some((decode_utf8(buf.subrange(s, e)), e))
        } else {
            None
        },
    }
}

/// Skips the value of an unknown field whose key (field `tag`, wire type `w`)
/// ends at `pos`, with `depth` levels of nesting left. A group is skipped up
/// to the end-group key of the same field; an end-group key on its own is
/// refused.
pub open spec fn skip_at(buf: Seq<u8>, w: WireType, tag: u32, pos: int, end: int, depth: nat) -> Option<int>
    decreases end - pos, 1int,
{
    if depth == 0 || pos > end {
        None
    } else {
        match w {
            WireType::Varint => match varint_at(buf, pos, end) {
                None => None,
                Some((_, p)) => Some(p),
            },
            WireType::ThirtyTwoBit => if pos + 4 <= end {
                Some(pos + 4)
            } else {
                None
            },
            WireType::SixtyFourBit => if pos + 8 <= end {
                Some(pos + 8)
            } else {
                None
            },
            WireType::LengthDelimited => match delimited_at(buf, pos, end) {
                None => None,
                Some((_, e)) => Some(e),
            },
            WireType::StartGroup => skip_group(buf, tag, pos, end, depth),
            WireType::EndGroup => None,
        }
    }
}

/// Skips the fields of a group of field `tag` from `pos` up to and including
/// its end-group key; each field inside is skipped one level deeper.
pub open spec fn skip_group(buf: Seq<u8>, tag: u32, pos: int, end: int, depth: nat) -> Option<int>
    decreases end - pos, 0int,
{
    if pos > end {
        None
    } else {
        match key_at(buf, pos, end) {
            None => None,
            Some((t, w, p)) => if p <= pos || p > end {
                None
            } else if w == WireType::EndGroup {
                if t == tag {
                    Some(p)
                } else {
                    None
                }
            } else {
                match skip_at(buf, w, t, p, end, (depth - 1) as nat) {
                    None => None,
                    Some(q) => if q <= p || q > end {
                        None
                    } else {
                        skip_group(buf, tag, q, end, depth)
                    },
                }
            },
        }
    }
}

/// `pow128` at the powers a varint uses.
pub proof fn lemma_pow128_values()
    ensures
        pow128(0) == 1,
        pow128(1) == 0x80,
        pow128(2) == 0x4000,
        pow128(3) == 0x20_0000,
        pow128(4) == 0x1000_0000,
        pow128(5) == 0x8_0000_0000,
        pow128(6) == 0x400_0000_0000,
        pow128(7) == 0x2_0000_0000_0000,
        pow128(8) == 0x100_0000_0000_0000,
        pow128(9) == 0x8000_0000_0000_0000,
        pow128(10) == 0x40_0000_0000_0000_0000,
{
    reveal_with_fuel(pow128, 11);
}

/// A varint that decodes ends after where it starts, inside the window, and
/// within ten bytes.
pub proof fn lemma_varint_from_bounds(buf: Seq<u8>, pos: int, end: int, i: nat, acc: int)
    ensures
        varint_from(buf, pos, end, i, acc) matches Some((v, q)) ==> pos + i < q <= end && q <= pos + 10,
    decreases 10 - i,
{
    if !(i >= 10 || pos < 0 || pos + i >= end || end > buf.len()) {
        let b = buf[pos + i];
        if b >= 128 {
            lemma_varint_from_bounds(buf, pos, end, i + 1, acc + (b % 128) * pow128(i));
        }
    }
}

/// Bounds of the position after a varint, a key, a fixed-width value or a
/// length-delimited payload.
pub proof fn lemma_read_bounds(buf: Seq<u8>, pos: int, end: int)
    ensures
        varint_at(buf, pos, end) matches Some((v, q)) ==> pos < q <= end && q <= pos + 10,
        key_at(buf, pos, end) matches Some((t, w, q)) ==> pos < q <= end && 1 <= t <= MAX_TAG,
        fixed64_at(buf, pos, end) matches Some((v, q)) ==> q == pos + 8 && q <= end,
        delimited_at(buf, pos, end) matches Some((s, e)) ==> pos < s <= e <= end,
        string_at(buf, pos, end) matches Some((c, e)) ==> pos < e <= end,
{
    lemma_varint_from_bounds(buf, pos, end, 0, 0);
}

/// What a skip reads lies inside the window.
pub proof fn lemma_skip_bounds(buf: Seq<u8>, w: WireType, tag: u32, pos: int, end: int, depth: nat)
    ensures
        skip_at(buf, w, tag, pos, end, depth) matches Some(q) ==> pos <= q <= end,
        skip_group(buf, tag, pos, end, depth) matches Some(q) ==> pos < q <= end,
    decreases end - pos, 2int,
{
    lemma_read_bounds(buf, pos, end);
    if pos <= end {
        match key_at(buf, pos, end) {
            None => {},
            Some((t, w2, p)) => {
                if p > pos && p <= end && w2 != WireType::EndGroup {
                    lemma_skip_bounds(buf, w2, t, p, end, (depth - 1) as nat);
                    match skip_at(buf, w2, t, p, end, (depth - 1) as nat) {
                        None => {},
                        Some(q) => {
                            if q > p && q <= end {
                                lemma_skip_bounds(buf, w, tag, q, end, depth);
                            }
                        },
                    }
                }
            },
        }
    }
}

/// Reads the varint at `pos` inside `[pos, end)`.
pub fn decode_varint(buf: &[u8], pos: usize, end: usize) -> (r: Option<(u64, usize)>)
    requires
        pos <= end <= buf@.len(),
    ensures
        match varint_at(buf@, pos as int, end as int) {
            Some((v, q)) => r == Some((v, q as usize)),
            None => r is None,
        },
{
    proof {
        lemma_pow128_values();
        lemma_varint_from_bounds(buf@, pos as int, end as int, 0, 0);
    }
    let mut i: usize = 0;
    let mut acc: u64 = 0;
    let mut mult: u64 = 1;
    while i < 10
        invariant
            pos <= end <= buf@.len(),
            i <= 10,
            i < 10 ==> mult == pow128(i as nat),
            acc < pow128(i as nat),
            i <= 9 ==> pow128(i as nat) <= 0x8000_0000_0000_0000,
            varint_at(buf@, pos as int, end as int) == varint_from(buf@, pos as int, end as int, i as nat, acc as int),
            pow128(9) == 0x8000_0000_0000_0000,
            pow128(10) == 0x40_0000_0000_0000_0000,
        decreases 10 - i,
    {
        if i >= end - pos {
            return None;
        }
        let b = buf[pos + i];
        let low: u64 = (b % 128) as u64;
        proof {
            reveal_with_fuel(pow128, 2);
            assert(pow128((i + 1) as nat) == 128 * pow128(i as nat));
            assert(low * mult + acc < 128 * pow128(i as nat)) by (nonlinear_arith)
                requires
                    low < 128,
                    acc < pow128(i as nat),
                    i < 10 ==> mult == pow128(i as nat),
                    i < 10,
            ;
        }
        if i == 9 {
            if b >= 2 {
                proof {
                    reveal_with_fuel(varint_from, 2);
                }
                return None;
            }
            proof {
                assert(low * mult <= mult) by (nonlinear_arith)
                    requires low <= 1;
            }
            return Some((acc + low * mult, pos + i + 1));
        }
        proof {
            assert(128 * pow128(i as nat) <= 0x8000_0000_0000_0000) by {
                if i < 9 {
                    lemma_pow128_mono((i + 1) as nat, 9);
                }
            }
        }
        if b < 128 {
            return Some((acc + low * mult, pos + i + 1));
        }
        acc = acc + low * mult;
        mult = mult * 128;
        i = i + 1;
    }
    None
}

/// `pow128` grows with its exponent.
pub proof fn lemma_pow128_mono(i: nat, j: nat)
    requires
        i <= j,
    ensures
        pow128(i) <= pow128(j),
    decreases j - i,
{
    if i < j {
        lemma_pow128_mono(i, (j - 1) as nat);
        assert(pow128(j) == 128 * pow128((j - 1) as nat));
    }
}

/// Reads the field key at `pos` inside `[pos, end)`.
pub fn decode_key(buf: &[u8], pos: usize, end: usize) -> (r: Option<(u32, WireType, usize)>)
    requires
        pos <= end <= buf@.len(),
    ensures
        match key_at(buf@, pos as int, end as int) {
            Some((t, w, q)) => r == Some((t, w, q as usize)),
            None => r is None,
        },
{
    proof {
        lemma_read_bounds(buf@, pos as int, end as int);
    }
    match decode_varint(buf, pos, end) {
        None => None,
        Some((k, p)) => {
            if k > 0xffff_ffff {
                return None;
            }
            let code = k % 8;
            let w = if code == 0 {
                WireType::Varint
            } else if code == 1 {
                WireType::SixtyFourBit
            } else if code == 2 {
                WireType::LengthDelimited
            } else if code == 3 {
                WireType::StartGroup
            } else if code == 4 {
                WireType::EndGroup
            } else if code == 5 {
                WireType::ThirtyTwoBit
            } else {
                return None;
            };
            let tag = k / 8;
            if tag == 0 {
                return None;
            }
            Some((tag as u32, w, p))
        },
    }
}

/// Reads the little-endian 64-bit value at `pos` inside `[pos, end)`.
pub fn read_fixed64(buf: &[u8], pos: usize, end: usize) -> (r: Option<(u64, usize)>)
    requires
        pos <= end <= buf@.len(),
    ensures
        match fixed64_at(buf@, pos as int, end as int) {
            Some((v, q)) => r == Some((v, q as usize)),
            None => r is None,
        },
{
    if end - pos >= 8 {
        let bytes = slice_subrange(buf, pos, pos + 8);
        let v = u64_from_le_bytes(bytes);
        Some((v, pos + 8))
    } else {
        None
    }
}

/// Reads the length prefix of a length-delimited payload at `pos` and gives
/// the payload's window.
pub fn read_delimited(buf: &[u8], pos: usize, end: usize) -> (r: Option<(usize, usize)>)
    requires
        pos <= end <= buf@.len(),
    ensures
        match delimited_at(buf@, pos as int, end as int) {
            Some((s, e)) => r == Some((s as usize, e as usize)),
            None => r is None,
        },
{
    proof {
        lemma_read_bounds(buf@, pos as int, end as int);
    }
    match decode_varint(buf, pos, end) {
        None => None,
        Some((len, p)) => {
            if len <= (end - p) as u64 {
                Some((p, p + len as usize))
            } else {
                None
            }
        },
    }
}

/// Calls `std::str::from_utf8` on `bytes` and copies the string it accepts.
/// Claimed: the call accepts exactly the well-formed UTF-8 byte strings, and
/// the string it gives back has exactly those bytes as its UTF-8 encoding.
#[verifier::external_body]
fn utf8_to_string(bytes: &[u8]) -> (r: Option<String>)
    ensures
        r is Some <==> valid_utf8(bytes@),
        r matches Some(s) ==> encode_utf8(s@) == bytes@,
{
    match std::str::from_utf8(bytes) {
        Ok(s) => Some(s.to_owned()),
        Err(_) => None,
    }
}

/// Reads a length-delimited UTF-8 string at `pos`.
pub fn read_string(buf: &[u8], pos: usize, end: usize) -> (r: Option<(String, usize)>)
    requires
        pos <= end <= buf@.len(),
    ensures
        match string_at(buf@, pos as int, end as int) {
            Some((c, e)) => r matches Some((x, q)) && x@ == c && q == e,
            None => r is None,
        },
{
    proof {
        lemma_read_bounds(buf@, pos as int, end as int);
    }
    match read_delimited(buf, pos, end) {
        None => None,
        Some((s, e)) => {
            let bytes = slice_subrange(buf, s, e);
            match utf8_to_string(bytes) {
                None => None,
                Some(x) => {
                    proof {
                        decode_utf8_encode_utf8(bytes@);
                        encode_utf8_decode_utf8(x@);
                    }
                    Some((x, e))
                },
            }
        },
    }
}

/// Skips the value of an unknown field (see [`skip_at`]).
pub fn skip_field(buf: &[u8], w: WireType, tag: u32, pos: usize, end: usize, depth: u32) -> (r: Option<usize>)
    requires
        pos <= end <= buf@.len(),
    ensures
        match skip_at(buf@, w, tag, pos as int, end as int, depth as nat) {
            Some(q) => r == Some(q as usize),
            None => r is None,
        },
    decreases end - pos,
{
    proof {
        lemma_read_bounds(buf@, pos as int, end as int);
    }
    if depth == 0 {
        return None;
    }
    match w {
        WireType::Varint => match decode_varint(buf, pos, end) {
            None => None,
            Some((_, p)) => Some(p),
        },
        WireType::ThirtyTwoBit => if end - pos >= 4 {
            Some(pos + 4)
        } else {
            None
        },
        WireType::SixtyFourBit => if end - pos >= 8 {
            Some(pos + 8)
        } else {
            None
        },
        WireType::LengthDelimited => match read_delimited(buf, pos, end) {
            None => None,
            Some((_, e)) => Some(e),
        },
        WireType::EndGroup => None,
        WireType::StartGroup => {
            let mut cur = pos;
            loop
                invariant
                    pos <= cur <= end <= buf@.len(),
                    depth > 0,
                    w == WireType::StartGroup,
                    skip_at(buf@, w, tag, pos as int, end as int, depth as nat)
                        == skip_group(buf@, tag, cur as int, end as int, depth as nat),
                decreases end - cur,
            {
                proof {
                    lemma_read_bounds(buf@, cur as int, end as int);
                }
                match decode_key(buf, cur, end) {
                    None => {
                        return None;
                    },
                    Some((t, w2, p)) => {
                        if w2 == WireType::EndGroup {
                            if t == tag {
                                return Some(p);
                            } else {
                                return None;
                            }
                        }
                        match skip_field(buf, w2, t, p, end, depth - 1) {
                            None => {
                                return None;
                            },
                            Some(q) => {
                                if q <= p || q > end {
                                    return None;
                                }
                                proof {
                                    lemma_skip_bounds(buf@, w2, t, p as int, end as int, (depth - 1) as nat);
                                }
                                cur = q;
                            },
                        }
                    },
                }
            }
        },
    }
}

/// Reading the encoding of `w` from the `i`-th byte of a varint whose first
/// bytes contributed `acc` yields `acc + w * 128^i`.
proof fn lemma_varint_from_bytes(buf: Seq<u8>, pos: int, end: int, i: nat, acc: int, w: u64)
    requires
        0 <= pos,
        i <= 9,
        0 <= acc < pow128(i),
        acc + w * pow128(i) < 0x1_0000_0000_0000_0000,
        pos + i + varint_bytes(w).len() <= end <= buf.len(),
        buf.subrange(pos + i, pos + i + varint_bytes(w).len()) == varint_bytes(w),
    ensures
        varint_from(buf, pos, end, i, acc) == Some(((acc + w * pow128(i)) as u64, pos + i + varint_bytes(w).len())),
    decreases w,
{
    lemma_pow128_values();
    let vb = varint_bytes(w);
    assert(buf[pos + i] == vb[0]) by {
        assert(buf.subrange(pos + i, pos + i + vb.len())[0] == buf[pos + i]);
    }
    let p = pow128(i);
    if w < 128 {
        if i == 9 {
            assert(w <= 1) by (nonlinear_arith)
                requires
                    acc >= 0,
                    acc + w * p < 0x1_0000_0000_0000_0000,
                    p == 0x8000_0000_0000_0000,
            ;
        }
    } else {
        let b = buf[pos + i];
        assert(b == (w % 128 + 128) as u8);
        assert(b % 128 == w % 128);
        let acc2 = acc + (w % 128) * p;
        let w2 = w / 128;
        assert(pow128(i + 1) == 128 * p);
        assert(w == 128 * w2 + w % 128);
        assert(acc2 + w2 * pow128(i + 1) == acc + w * p) by (nonlinear_arith)
            requires
                acc2 == acc + (w % 128) * p,
                pow128(i + 1) == 128 * p,
                w == 128 * w2 + w % 128,
        ;
        assert(0 <= acc2 < pow128(i + 1)) by (nonlinear_arith)
            requires
                acc2 == acc + (w % 128) * p,
                pow128(i + 1) == 128 * p,
                0 <= acc < p,
                0 <= w % 128 < 128,
        ;
        if i == 9 {
            assert(false) by (nonlinear_arith)
                requires
                    acc >= 0,
                    acc + w * p < 0x1_0000_0000_0000_0000,
                    p == 0x8000_0000_0000_0000,
                    w >= 128,
            ;
        }
        assert(vb == seq![b] + varint_bytes(w2));
        assert(buf.subrange(pos + i + 1, pos + i + 1 + varint_bytes(w2).len()) =~= varint_bytes(w2)) by {
            assert forall|j: int| 0 <= j < varint_bytes(w2).len() implies
                buf.subrange(pos + i + 1, pos + i + 1 + varint_bytes(w2).len())[j] == varint_bytes(w2)[j] by {
                assert(buf.subrange(pos + i, pos + i + vb.len())[j + 1] == vb[j + 1]);
            }
        }
        lemma_varint_from_bytes(buf, pos, end, i + 1, acc2, w2);
    }
}

/// A varint written by [`varint_bytes`] reads back as the same value, and
/// takes one to ten bytes.
pub proof fn lemma_varint_roundtrip(buf: Seq<u8>, pos: int, end: int, v: u64)
    requires
        0 <= pos,
        pos + varint_bytes(v).len() <= end <= buf.len(),
        buf.subrange(pos, pos + varint_bytes(v).len()) == varint_bytes(v),
    ensures
        varint_at(buf, pos, end) == Some((v, pos + varint_bytes(v).len())),
        1 <= varint_bytes(v).len() <= 10,
{
    lemma_pow128_values();
    lemma_varint_from_bytes(buf, pos, end, 0, 0, v);
    lemma_read_bounds(buf, pos, end);
}

/// A key written by [`key_bytes`] reads back as the same field and wire type.
pub proof fn lemma_key_roundtrip(buf: Seq<u8>, pos: int, end: int, tag: u32, w: WireType)
    requires
        1 <= tag <= MAX_TAG,
        0 <= pos,
        pos + key_bytes(tag, w).len() <= end <= buf.len(),
        buf.subrange(pos, pos + key_bytes(tag, w).len()) == key_bytes(tag, w),
    ensures
        key_at(buf, pos, end) == Some((tag, w, pos + key_bytes(tag, w).len())),
{
    let k = (tag * 8 + wire_code(w)) as u64;
    lemma_varint_roundtrip(buf, pos, end, k);
    assert(k % 8 == wire_code(w));
    assert(k / 8 == tag);
}

/// A little-endian value written by `u64_to_le_bytes` reads back unchanged.
pub proof fn lemma_fixed64_roundtrip(buf: Seq<u8>, pos: int, end: int, v: u64)
    requires
        0 <= pos,
        pos + 8 <= end <= buf.len(),
        buf.subrange(pos, pos + 8) == spec_u64_to_le_bytes(v),
    ensures
        fixed64_at(buf, pos, end) == Some((v, pos + 8)),
{
    lemma_auto_spec_u64_to_from_le_bytes();
}

/// A length prefix followed by that many bytes reads back as that window.
pub proof fn lemma_delimited_roundtrip(buf: Seq<u8>, pos: int, end: int, len: u64)
    requires
        0 <= pos,
        pos + varint_bytes(len).len() + len <= end <= buf.len(),
        buf.subrange(pos, pos + varint_bytes(len).len()) == varint_bytes(len),
    ensures
        delimited_at(buf, pos, end) == Some((pos + varint_bytes(len).len(), pos + varint_bytes(len).len() + len)),
{
    lemma_varint_roundtrip(buf, pos, end, len);
}

/// Appends the varint encoding of `v`.
pub fn encode_varint(out: &mut Vec<u8>, v: u64)
    ensures
        final(out)@ == old(out)@ + varint_bytes(v),
{
    let mut value = v;
    loop
        invariant
            out@ + varint_bytes(value) == old(out)@ + varint_bytes(v),
        decreases value,
    {
        if value < 128 {
            out.push(value as u8);
            return;
        }
        let ghost before = out@;
        out.push((value % 128 + 128) as u8);
        assert(out@ + varint_bytes(value / 128) =~= before + varint_bytes(value));
        value = value / 128;
    }
}

/// Appends the key of field `tag` with wire type `w`.
pub fn encode_key(out: &mut Vec<u8>, tag: u32, w: WireType)
    requires
        1 <= tag <= MAX_TAG,
    ensures
        final(out)@ == old(out)@ + key_bytes(tag, w),
{
    let code: u64 = match w {
        WireType::Varint => 0,
        WireType::SixtyFourBit => 1,
        WireType::LengthDelimited => 2,
        WireType::StartGroup => 3,
        WireType::EndGroup => 4,
        WireType::ThirtyTwoBit => 5,
    };
    encode_varint(out, tag as u64 * 8 + code);
}

/// Appends `v` as eight little-endian bytes.
pub fn encode_fixed64(out: &mut Vec<u8>, v: u64)
    ensures
        final(out)@ == old(out)@ + spec_u64_to_le_bytes(v),
{
    let mut bytes = u64_to_le_bytes(v);
    out.append(&mut bytes);
}

/// Appends the bytes of `bytes`.
pub fn append_bytes(out: &mut Vec<u8>, bytes: &[u8])
    ensures
        final(out)@ == old(out)@ + bytes@,
{
    let mut i: usize = 0;
    while i < bytes.len()
        invariant
            i <= bytes@.len(),
            out@ == old(out)@ + bytes@.subrange(0, i as int),
        decreases bytes@.len() - i,
    {
        out.push(bytes[i]);
        assert(out@ =~= old(out)@ + bytes@.subrange(0, i + 1));
        i = i + 1;
    }
    assert(bytes@.subrange(0, bytes@.len() as int) =~= bytes@);
}

/// Appends a length prefix and then the bytes of `bytes`.
pub fn encode_delimited(out: &mut Vec<u8>, bytes: &[u8])
    ensures
        final(out)@ == old(out)@ + varint_bytes(bytes@.len() as u64) + bytes@,
{
    encode_varint(out, bytes.len() as u64);
    append_bytes(out, bytes);
}

/// An `int64` field value: a varint reinterpreted as two's complement.
pub open spec fn int64_field(buf: Seq<u8>, w: WireType, pos: int, end: int) -> Option<(i64, int)> {
    if w != WireType::Varint {
        None
    } else {
        match varint_at(buf, pos, end) {
            None => None,
            Some((v, q)) => Some((v as i64, q)),
        }
    }
}

/// A `uint32` field value: a varint cut to its low 32 bits.
pub open spec fn uint32_field(buf: Seq<u8>, w: WireType, pos: int, end: int) -> Option<(u32, int)> {
    if w != WireType::Varint {
        None
    } else {
        match varint_at(buf, pos, end) {
            None => None,
            Some((v, q)) => Some((v as u32, q)),
        }
    }
}

/// An `int32` or enum field value: a varint cut to its low 32 bits, read as
/// two's complement.
pub open spec fn int32_field(buf: Seq<u8>, w: WireType, pos: int, end: int) -> Option<(i32, int)> {
    if w != WireType::Varint {
        None
    } else {
        match varint_at(buf, pos, end) {
            None => None,
            Some((v, q)) => Some((v as i32, q)),
        }
    }
}

/// A `double` field value, kept as its 64 bits.
pub open spec fn double_field(buf: Seq<u8>, w: WireType, pos: int, end: int) -> Option<(u64, int)> {
    if w != WireType::SixtyFourBit {
        None
    } else {
        fixed64_at(buf, pos, end)
    }
}

/// The encoding of an optional `int64` field: nothing when absent.
pub open spec fn int64_bytes(tag: u32, o: Option<i64>) -> Seq<u8> {
    match o {
        None => Seq::empty(),
        Some(v) => key_bytes(tag, WireType::Varint) + varint_bytes(v as u64),
    }
}

/// The encoding of an optional `uint32` field.
pub open spec fn uint32_bytes(tag: u32, o: Option<u32>) -> Seq<u8> {
    match o {
        None => Seq::empty(),
        Some(v) => key_bytes(tag, WireType::Varint) + varint_bytes(v as u64),
    }
}

/// The encoding of an optional `int32` or enum field; a negative value is
/// sign-extended to 64 bits first.
pub open spec fn int32_bytes(tag: u32, o: Option<i32>) -> Seq<u8> {
    match o {
        None => Seq::empty(),
        Some(v) => key_bytes(tag, WireType::Varint) + varint_bytes(v as u64),
    }
}

/// The encoding of an optional `double` field given by its bits.
pub open spec fn double_bytes(tag: u32, o: Option<u64>) -> Seq<u8> {
    match o {
        None => Seq::empty(),
        Some(v) => key_bytes(tag, WireType::SixtyFourBit) + spec_u64_to_le_bytes(v),
    }
}

/// The encoding of a length-delimited field holding `payload`.
pub open spec fn delimited_bytes(tag: u32, payload: Seq<u8>) -> Seq<u8> {
    key_bytes(tag, WireType::LengthDelimited) + varint_bytes(payload.len() as u64) + payload
}

/// The encoding of an optional string field.
pub open spec fn string_bytes(tag: u32, o: Option<Seq<char>>) -> Seq<u8> {
    match o {
        None => Seq::empty(),
        Some(c) => delimited_bytes(tag, encode_utf8(c)),
    }
}

/// Reads an `int64` field value.
pub fn read_int64(buf: &[u8], w: WireType, pos: usize, end: usize) -> (r: Option<(i64, usize)>)
    requires
        pos <= end <= buf@.len(),
    ensures
        match int64_field(buf@, w, pos as int, end as int) {
            Some((v, q)) => r == Some((v, q as usize)),
            None => r is None,
        },
{
    if w != WireType::Varint {
        return None;
    }
    proof {
        lemma_read_bounds(buf@, pos as int, end as int);
    }
    match decode_varint(buf, pos, end) {
        None => None,
        Some((v, q)) => Some((v as i64, q)),
    }
}

/// Reads a `uint32` field value.
pub fn read_uint32(buf: &[u8], w: WireType, pos: usize, end: usize) -> (r: Option<(u32, usize)>)
    requires
        pos <= end <= buf@.len(),
    ensures
        match uint32_field(buf@, w, pos as int, end as int) {
            Some((v, q)) => r == Some((v, q as usize)),
            None => r is None,
        },
{
    if w != WireType::Varint {
        return None;
    }
    proof {
        lemma_read_bounds(buf@, pos as int, end as int);
    }
    match decode_varint(buf, pos, end) {
        None => None,
        Some((v, q)) => Some((v as u32, q)),
    }
}

/// Reads an `int32` or enum field value.
pub fn read_int32(buf: &[u8], w: WireType, pos: usize, end: usize) -> (r: Option<(i32, usize)>)
    requires
        pos <= end <= buf@.len(),
    ensures
        match int32_field(buf@, w, pos as int, end as int) {
            Some((v, q)) => r == Some((v, q as usize)),
            None => r is None,
        },
{
    if w != WireType::Varint {
        return None;
    }
    proof {
        lemma_read_bounds(buf@, pos as int, end as int);
    }
    match decode_varint(buf, pos, end) {
        None => None,
        Some((v, q)) => Some((v as i32, q)),
    }
}

/// Reads a `double` field value as its bits.
pub fn read_double(buf: &[u8], w: WireType, pos: usize, end: usize) -> (r: Option<(u64, usize)>)
    requires
        pos <= end <= buf@.len(),
    ensures
        match double_field(buf@, w, pos as int, end as int) {
            Some((v, q)) => r == Some((v, q as usize)),
            None => r is None,
        },
{
    if w != WireType::SixtyFourBit {
        return None;
    }
    read_fixed64(buf, pos, end)
}

/// Appends an optional `int64` field.
pub fn encode_int64_field(out: &mut Vec<u8>, tag: u32, o: Option<i64>)
    requires
        1 <= tag <= MAX_TAG,
    ensures
        final(out)@ == old(out)@ + int64_bytes(tag, o),
{
    if let Some(v) = o {
        let ghost before = out@;
        encode_key(out, tag, WireType::Varint);
        encode_varint(out, v as u64);
        assert(out@ =~= before + int64_bytes(tag, o));
    } else {
        assert(old(out)@ + int64_bytes(tag, o) =~= old(out)@);
    }
}

/// Appends an optional `uint32` field.
pub fn encode_uint32_field(out: &mut Vec<u8>, tag: u32, o: Option<u32>)
    requires
        1 <= tag <= MAX_TAG,
    ensures
        final(out)@ == old(out)@ + uint32_bytes(tag, o),
{
    if let Some(v) = o {
        let ghost before = out@;
        encode_key(out, tag, WireType::Varint);
        encode_varint(out, v as u64);
        assert(out@ =~= before + uint32_bytes(tag, o));
    } else {
        assert(old(out)@ + uint32_bytes(tag, o) =~= old(out)@);
    }
}

/// Appends an optional `int32` or enum field.
pub fn encode_int32_field(out: &mut Vec<u8>, tag: u32, o: Option<i32>)
    requires
        1 <= tag <= MAX_TAG,
    ensures
        final(out)@ == old(out)@ + int32_bytes(tag, o),
{
    if let Some(v) = o {
        let ghost before = out@;
        encode_key(out, tag, WireType::Varint);
        encode_varint(out, v as u64);
        assert(out@ =~= before + int32_bytes(tag, o));
    } else {
        assert(old(out)@ + int32_bytes(tag, o) =~= old(out)@);
    }
}

/// Appends an optional `double` field given by its bits.
pub fn encode_double_field(out: &mut Vec<u8>, tag: u32, o: Option<u64>)
    requires
        1 <= tag <= MAX_TAG,
    ensures
        final(out)@ == old(out)@ + double_bytes(tag, o),
{
    if let Some(v) = o {
        let ghost before = out@;
        encode_key(out, tag, WireType::SixtyFourBit);
        encode_fixed64(out, v);
        assert(out@ =~= before + double_bytes(tag, o));
    } else {
        assert(old(out)@ + double_bytes(tag, o) =~= old(out)@);
    }
}

/// Appends a length-delimited field holding `payload`.
pub fn encode_delimited_field(out: &mut Vec<u8>, tag: u32, payload: &[u8])
    requires
        1 <= tag <= MAX_TAG,
    ensures
        final(out)@ == old(out)@ + delimited_bytes(tag, payload@),
{
    let ghost before = out@;
    encode_key(out, tag, WireType::LengthDelimited);
    encode_delimited(out, payload);
    assert(out@ =~= before + delimited_bytes(tag, payload@));
}

/// Appends an optional string field.
pub fn encode_string_field(out: &mut Vec<u8>, tag: u32, o: &Option<String>)
    requires
        1 <= tag <= MAX_TAG,
    ensures
        final(out)@ == old(out)@ + string_bytes(tag, match o {
            Some(s) => Some(s@),
            None => None,
        }),
{
    match o {
        Some(s) => {
            let bytes = s.as_str().as_bytes();
            encode_delimited_field(out, tag, bytes);
        },
        None => {
            assert(old(out)@ + Seq::<u8>::empty() =~= old(out)@);
        },
    }
}

/// Splits a window that holds `a + b` into the window of `a` and that of `b`.
pub proof fn lemma_window_split(buf: Seq<u8>, p: int, a: Seq<u8>, b: Seq<u8>)
    requires
        0 <= p,
        p + a.len() + b.len() <= buf.len(),
        buf.subrange(p, p + a.len() + b.len()) == a + b,
    ensures
        buf.subrange(p, p + a.len()) == a,
        buf.subrange(p + a.len(), p + a.len() + b.len()) == b,
{
    assert(buf.subrange(p, p + a.len()) =~= a) by {
        assert forall|j: int| 0 <= j < a.len() implies buf.subrange(p, p + a.len())[j] == a[j] by {
            assert(buf.subrange(p, p + a.len() + b.len())[j] == (a + b)[j]);
        }
    }
    assert(buf.subrange(p + a.len(), p + a.len() + b.len()) =~= b) by {
        assert forall|j: int| 0 <= j < b.len() implies buf.subrange(p + a.len(), p + a.len() + b.len())[j] == b[j] by {
            assert(buf.subrange(p, p + a.len() + b.len())[a.len() + j] == (a + b)[a.len() + j]);
            assert(buf.subrange(p, p + a.len() + b.len())[a.len() + j] == buf[p + a.len() + j]);
            assert((a + b)[a.len() + j] == b[j]);
        }
    }
}

/// Reading an encoded `int64` field gives its key and then its value.
pub proof fn lemma_int64_step(buf: Seq<u8>, p: int, end: int, tag: u32, v: i64)
    requires
        1 <= tag <= MAX_TAG,
        0 <= p,
        p + int64_bytes(tag, Some(v)).len() <= end <= buf.len(),
        buf.subrange(p, p + int64_bytes(tag, Some(v)).len()) == int64_bytes(tag, Some(v)),
    ensures
        key_at(buf, p, end) == Some((tag, WireType::Varint, p + key_bytes(tag, WireType::Varint).len())),
        int64_field(buf, WireType::Varint, p + key_bytes(tag, WireType::Varint).len(), end)
            == Some((v, p + int64_bytes(tag, Some(v)).len())),
{
    let kb = key_bytes(tag, WireType::Varint);
    let vb = varint_bytes(v as u64);
    lemma_window_split(buf, p, kb, vb);
    lemma_key_roundtrip(buf, p, end, tag, WireType::Varint);
    lemma_varint_roundtrip(buf, p + kb.len(), end, v as u64);
    assert((v as u64) as i64 == v) by (bit_vector);
}

/// Reading an encoded `uint32` field gives its key and then its value.
pub proof fn lemma_uint32_step(buf: Seq<u8>, p: int, end: int, tag: u32, v: u32)
    requires
        1 <= tag <= MAX_TAG,
        0 <= p,
        p + uint32_bytes(tag, Some(v)).len() <= end <= buf.len(),
        buf.subrange(p, p + uint32_bytes(tag, Some(v)).len()) == uint32_bytes(tag, Some(v)),
    ensures
        key_at(buf, p, end) == Some((tag, WireType::Varint, p + key_bytes(tag, WireType::Varint).len())),
        uint32_field(buf, WireType::Varint, p + key_bytes(tag, WireType::Varint).len(), end)
            == Some((v, p + uint32_bytes(tag, Some(v)).len())),
{
    let kb = key_bytes(tag, WireType::Varint);
    let vb = varint_bytes(v as u64);
    lemma_window_split(buf, p, kb, vb);
    lemma_key_roundtrip(buf, p, end, tag, WireType::Varint);
    lemma_varint_roundtrip(buf, p + kb.len(), end, v as u64);
}

/// Reading an encoded `int32` field gives its key and then its value.
pub proof fn lemma_int32_step(buf: Seq<u8>, p: int, end: int, tag: u32, v: i32)
    requires
        1 <= tag <= MAX_TAG,
        0 <= p,
        p + int32_bytes(tag, Some(v)).len() <= end <= buf.len(),
        buf.subrange(p, p + int32_bytes(tag, Some(v)).len()) == int32_bytes(tag, Some(v)),
    ensures
        key_at(buf, p, end) == Some((tag, WireType::Varint, p + key_bytes(tag, WireType::Varint).len())),
        int32_field(buf, WireType::Varint, p + key_bytes(tag, WireType::Varint).len(), end)
            == Some((v, p + int32_bytes(tag, Some(v)).len())),
{
    let kb = key_bytes(tag, WireType::Varint);
    let vb = varint_bytes(v as u64);
    lemma_window_split(buf, p, kb, vb);
    lemma_key_roundtrip(buf, p, end, tag, WireType::Varint);
    lemma_varint_roundtrip(buf, p + kb.len(), end, v as u64);
    assert((v as u64) as i32 == v) by (bit_vector);
}

/// Reading an encoded `double` field gives its key and then its bits.
pub proof fn lemma_double_step(buf: Seq<u8>, p: int, end: int, tag: u32, v: u64)
    requires
        1 <= tag <= MAX_TAG,
        0 <= p,
        p + double_bytes(tag, Some(v)).len() <= end <= buf.len(),
        buf.subrange(p, p + double_bytes(tag, Some(v)).len()) == double_bytes(tag, Some(v)),
    ensures
        key_at(buf, p, end) == Some((tag, WireType::SixtyFourBit, p + key_bytes(tag, WireType::SixtyFourBit).len())),
        double_field(buf, WireType::SixtyFourBit, p + key_bytes(tag, WireType::SixtyFourBit).len(), end)
            == Some((v, p + double_bytes(tag, Some(v)).len())),
{
    lemma_auto_spec_u64_to_from_le_bytes();
    let kb = key_bytes(tag, WireType::SixtyFourBit);
    let vb = spec_u64_to_le_bytes(v);
    lemma_window_split(buf, p, kb, vb);
    lemma_key_roundtrip(buf, p, end, tag, WireType::SixtyFourBit);
    lemma_fixed64_roundtrip(buf, p + kb.len(), end, v);
}

/// Reading an encoded length-delimited field gives its key and then the
/// window of its payload.
pub proof fn lemma_delimited_step(buf: Seq<u8>, p: int, end: int, tag: u32, payload: Seq<u8>)
    requires
        1 <= tag <= MAX_TAG,
        0 <= p,
        payload.len() < 0x1_0000_0000_0000_0000,
        p + delimited_bytes(tag, payload).len() <= end <= buf.len(),
        buf.subrange(p, p + delimited_bytes(tag, payload).len()) == delimited_bytes(tag, payload),
    ensures
        ({
            let k = p + key_bytes(tag, WireType::LengthDelimited).len();
            let s = k + varint_bytes(payload.len() as u64).len();
            &&& key_at(buf, p, end) == Some((tag, WireType::LengthDelimited, k))
            &&& delimited_at(buf, k, end) == Some((s, s + payload.len()))
            &&& s + payload.len() == p + delimited_bytes(tag, payload).len()
            &&& buf.subrange(s, s + payload.len()) == payload
        }),
{
    let kb = key_bytes(tag, WireType::LengthDelimited);
    let lb = varint_bytes(payload.len() as u64);
    assert(delimited_bytes(tag, payload) == kb + (lb + payload)) by {
        assert(kb + lb + payload =~= kb + (lb + payload));
    }
    lemma_window_split(buf, p, kb, lb + payload);
    lemma_window_split(buf, p + kb.len(), lb, payload);
    lemma_key_roundtrip(buf, p, end, tag, WireType::LengthDelimited);
    lemma_delimited_roundtrip(buf, p + kb.len(), end, payload.len() as u64);
}

/// Reading an encoded string field gives its key and then its characters.
pub proof fn lemma_string_step(buf: Seq<u8>, p: int, end: int, tag: u32, c: Seq<char>)
    requires
        1 <= tag <= MAX_TAG,
        0 <= p,
        encode_utf8(c).len() < 0x1_0000_0000_0000_0000,
        p + string_bytes(tag, Some(c)).len() <= end <= buf.len(),
        buf.subrange(p, p + string_bytes(tag, Some(c)).len()) == string_bytes(tag, Some(c)),
    ensures
        key_at(buf, p, end) == Some((tag, WireType::LengthDelimited, p + key_bytes(tag, WireType::LengthDelimited).len())),
        string_at(buf, p + key_bytes(tag, WireType::LengthDelimited).len(), end)
            == Some((c, p + string_bytes(tag, Some(c)).len())),
{
    lemma_delimited_step(buf, p, end, tag, encode_utf8(c));
    encode_utf8_valid_utf8(c);
    encode_utf8_decode_utf8(c);
}

/// A `string` field value.
pub open spec fn string_field(buf: Seq<u8>, w: WireType, pos: int, end: int) -> Option<(Seq<char>, int)> {
    if w != WireType::LengthDelimited {
        None
    } else {
        string_at(buf, pos, end)
    }
}

/// The window of a nested message field: the field must be length-delimited
/// and one more level of nesting must be allowed.
pub open spec fn message_window(buf: Seq<u8>, w: WireType, pos: int, end: int, depth: nat) -> Option<(int, int)> {
    if w != WireType::LengthDelimited || depth == 0 {
        None
    } else {
        delimited_at(buf, pos, end)
    }
}

/// Reads a `string` field value.
pub fn read_string_field(buf: &[u8], w: WireType, pos: usize, end: usize) -> (r: Option<(String, usize)>)
    requires
        pos <= end <= buf@.len(),
    ensures
        match string_field(buf@, w, pos as int, end as int) {
            Some((c, e)) => r matches Some((x, q)) && x@ == c && q == e,
            None => r is None,
        },
{
    if w != WireType::LengthDelimited {
        return None;
    }
    read_string(buf, pos, end)
}

/// Reads the window of a nested message field.
pub fn read_message_window(buf: &[u8], w: WireType, pos: usize, end: usize, depth: u32) -> (r: Option<(usize, usize)>)
    requires
        pos <= end <= buf@.len(),
    ensures
        match message_window(buf@, w, pos as int, end as int, depth as nat) {
            Some((s, e)) => r == Some((s as usize, e as usize)) && pos < s <= e <= end,
            None => r is None,
        },
{
    proof {
        lemma_read_bounds(buf@, pos as int, end as int);
    }
    if w != WireType::LengthDelimited || depth == 0 {
        return None;
    }
    read_delimited(buf, pos, end)
}

} // verus!
