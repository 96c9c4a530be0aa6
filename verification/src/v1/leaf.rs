//! Encoding and decoding of the messages whose fields are all scalars:
//! `Level`, `Quote`, `Tick`, `Kline`, `Resume` and `Heartbeat`.
//!
//! For each message `X`, `x_field` says what one field does to a message
//! being decoded, `x_merge` folds the fields of a window into a message, and
//! `x_bytes` is the encoding, which writes the present fields in field
//! number order. A field number that the message does not know is skipped;
//! a known one with another wire type is refused; of a field given twice the
//! last value stands.
use vstd::prelude::*;
use crate::wire::{
    WireType, DecodeError, RECURSION_LIMIT, key_at, skip_at, double_field, int64_field, uint32_field,
    int32_field, double_bytes, int64_bytes, uint32_bytes, int32_bytes, lemma_read_bounds,
    lemma_skip_bounds, read_double, read_int64, read_uint32, read_int32, skip_field, decode_key,
    encode_double_field, encode_int64_field, encode_uint32_field, encode_int32_field,
    lemma_window_split, lemma_double_step, lemma_int64_step, lemma_uint32_step, lemma_int32_step,
};
use super::{Level, Quote, Tick, Kline, Heartbeat, Resume};

verus! {

// ---------------------------------------------------------------- Level
/// One price level with no field set.
pub open spec fn level_empty() -> Level {
    Level { price: None, volume: None }
}
/// Applies the field with number `tag` and wire type `w`, whose value starts
/// at `pos`, to `m`; gives the new message and the position after the field.
pub open spec fn level_field(m: Level, tag: u32, w: WireType, buf: Seq<u8>, pos: int, end: int, depth: nat) -> Option<(Level, int)> {
    if tag == 1 {
        match double_field(buf, w, pos, end) {
            None => None,
            Some((v, q)) => Some((Level { price: Some(v), ..m }, q)),
        }
    } else if tag == 2 {
        match double_field(buf, w, pos, end) {
            None => None,
            Some((v, q)) => Some((Level { volume: Some(v), ..m }, q)),
        }
    } else {
        match skip_at(buf, w, tag, pos, end, depth) {
            None => None,
            Some(q) => Some((m, q)),
        }
    }
}

/// Merges the fields in `[pos, end)` into `m`.
pub open spec fn level_merge(m: Level, buf: Seq<u8>, pos: int, end: int, depth: nat) -> Option<Level>
    decreases end - pos,
{
    if pos >= end {
        Some(m)
    } else {
        match key_at(buf, pos, end) {
            None => None,
            Some((t, w, p)) => match level_field(m, t, w, buf, p, end, depth) {
                None => None,
                Some((m2, q)) => if q <= pos || q > end {
                    None
                } else {
                    level_merge(m2, buf, q, end, depth)
                },
            },
        }
    }
}

/// Decodes a whole buffer as one price level.
pub open spec fn level_decode(buf: Seq<u8>) -> Option<Level> {
    level_merge(level_empty(), buf, 0, buf.len() as int, RECURSION_LIMIT as nat)
}

/// The encoding of one price level: its present fields in field number order.
pub open spec fn level_bytes(m: Level) -> Seq<u8> {
    double_bytes(1, m.price) + double_bytes(2, m.volume)
}

impl Default for Level {
    fn default() -> (r: Level)
        ensures
            r == level_empty(),
    {
        Level { price: None, volume: None }
    }
}

impl Level {
    /// Applies one field to `self` (see [`level_field`]).
    pub fn merge_field(&mut self, tag: u32, w: WireType, buf: &[u8], pos: usize, end: usize, depth: u32) -> (r: Option<usize>)
        requires
            pos <= end <= buf@.len(),
        ensures
            match level_field(*old(self), tag, w, buf@, pos as int, end as int, depth as nat) {
                Some((m, q)) => pos <= q <= end && r == Some(q as usize) && *final(self) == m,
                None => r is None,
            },
    {
        proof {
            lemma_read_bounds(buf@, pos as int, end as int);
            lemma_skip_bounds(buf@, w, tag, pos as int, end as int, depth as nat);
        }
        if tag == 1 {
            let (v, q) = match read_double(buf, w, pos, end) {
                None => return None,
                Some(x) => x,
            };
            self.price = Some(v);
            Some(q)
        } else if tag == 2 {
            let (v, q) = match read_double(buf, w, pos, end) {
                None => return None,
                Some(x) => x,
            };
            self.volume = Some(v);
            Some(q)
        } else {
            skip_field(buf, w, tag, pos, end, depth)
        }
    }

    /// Merges the fields in `[pos, end)` into `self` (see [`level_merge`]);
    /// `false` when the window does not hold a well-formed message.
    pub fn merge(&mut self, buf: &[u8], pos: usize, end: usize, depth: u32) -> (ok: bool)
        requires
            pos <= end <= buf@.len(),
        ensures
            match level_merge(*old(self), buf@, pos as int, end as int, depth as nat) {
                Some(m) => ok && *final(self) == m,
                None => !ok,
            },
    {
        let mut p = pos;
        while p < end
            invariant
                pos <= p <= end <= buf@.len(),
                level_merge(*old(self), buf@, pos as int, end as int, depth as nat)
                    == level_merge(*self, buf@, p as int, end as int, depth as nat),
            decreases end - p,
        {
            proof {
                lemma_read_bounds(buf@, p as int, end as int);
            }
            let (t, w, k) = match decode_key(buf, p, end) {
                None => return false,
                Some(x) => x,
            };
            let q = match self.merge_field(t, w, buf, k, end, depth) {
                None => return false,
                Some(q) => q,
            };
            if q <= p || q > end {
                return false;
            }
            p = q;
        }
        true
    }

    /// Decodes a whole buffer as one price level; refused exactly when [`level_decode`]
    /// refuses it.
    pub fn decode(buf: &[u8]) -> (r: Result<Level, DecodeError>)
        ensures
            match level_decode(buf@) {
                Some(m) => r == Ok::<Level, DecodeError>(m),
                None => r is Err,
            },
    {
        let mut m = Level::default();
        if m.merge(buf, 0, buf.len(), RECURSION_LIMIT) {
            Ok(m)
        } else {
            Err(DecodeError)
        }
    }

    /// Appends the encoding of `self`.
    pub fn encode_raw(&self, out: &mut Vec<u8>)
        ensures
            final(out)@ == old(out)@ + level_bytes(*self),
    {
        let ghost before = out@;
        encode_double_field(out, 1, self.price);
        encode_double_field(out, 2, self.volume);
        assert(out@ =~= before + level_bytes(*self));
    }

    /// The encoding of `self`.
    pub fn encode_to_vec(&self) -> (r: Vec<u8>)
        ensures
            r@ == level_bytes(*self),
    {
        let mut out = Vec::new();
        self.encode_raw(&mut out);
        assert(out@ =~= level_bytes(*self));
        out
    }
}

/// Decoding the encoding of one price level, placed anywhere in a buffer, from the
/// empty message gives the message back, at any depth.
#[verifier::rlimit(50)]
pub proof fn lemma_level_roundtrip(buf: Seq<u8>, pos: int, m: Level, depth: nat)
    requires
        0 <= pos,
        pos + level_bytes(m).len() <= buf.len(),
        buf.subrange(pos, pos + level_bytes(m).len()) == level_bytes(m),
    ensures
        level_merge(level_empty(), buf, pos, pos + level_bytes(m).len(), depth) == Some(m),
{
    let end = pos + level_bytes(m).len();
    let b1 = double_bytes(1, m.price);
    let b2 = double_bytes(2, m.volume);
    let a1 = b1;
    let a2 = b1 + b2;
    assert(a2 == level_bytes(m));
    lemma_window_split(buf, pos, a1, b2);
    let p0 = pos;
    let p1 = pos + a1.len();
    let p2 = pos + a2.len();
    let s0 = Level { price: None, volume: None };
    let s1 = Level { price: m.price, volume: None };
    let s2 = Level { price: m.price, volume: m.volume };
    assert(level_merge(s0, buf, p0, end, depth) == level_merge(s1, buf, p1, end, depth)) by {
        if let Some(v) = m.price {
            lemma_double_step(buf, p0, end, 1, v);
        }
    }
    assert(level_merge(s1, buf, p1, end, depth) == level_merge(s2, buf, p2, end, depth)) by {
        if let Some(v) = m.volume {
            lemma_double_step(buf, p1, end, 2, v);
        }
    }
    assert(level_merge(s2, buf, end, end, depth) == Some(m));
}

// ---------------------------------------------------------------- Quote
/// A quote with no field set.
pub open spec fn quote_empty() -> Quote {
    Quote { ts: None, price: None, open: None, high: None, low: None, pre_close: None, volume: None, amount: None, in_vol: None, out_vol: None }
}
/// Applies the field with number `tag` and wire type `w`, whose value starts
/// at `pos`, to `m`; gives the new message and the position after the field.
pub open spec fn quote_field(m: Quote, tag: u32, w: WireType, buf: Seq<u8>, pos: int, end: int, depth: nat) -> Option<(Quote, int)> {
    if tag == 1 {
        match int64_field(buf, w, pos, end) {
            None => None,
            Some((v, q)) => Some((Quote { ts: Some(v), ..m }, q)),
        }
    } else if tag == 2 {
        match double_field(buf, w, pos, end) {
            None => None,
            Some((v, q)) => Some((Quote { price: Some(v), ..m }, q)),
        }
    } else if tag == 3 {
        match double_field(buf, w, pos, end) {
            None => None,
            Some((v, q)) => Some((Quote { open: Some(v), ..m }, q)),
        }
    } else if tag == 4 {
        match double_field(buf, w, pos, end) {
            None => None,
            Some((v, q)) => Some((Quote { high: Some(v), ..m }, q)),
        }
    } else if tag == 5 {
        match double_field(buf, w, pos, end) {
            None => None,
            Some((v, q)) => Some((Quote { low: Some(v), ..m }, q)),
        }
    } else if tag == 6 {
        match double_field(buf, w, pos, end) {
            None => None,
            Some((v, q)) => Some((Quote { pre_close: Some(v), ..m }, q)),
        }
    } else if tag == 7 {
        match double_field(buf, w, pos, end) {
            None => None,
            Some((v, q)) => Some((Quote { volume: Some(v), ..m }, q)),
        }
    } else if tag == 8 {
        match double_field(buf, w, pos, end) {
            None => None,
            Some((v, q)) => Some((Quote { amount: Some(v), ..m }, q)),
        }
    } else if tag == 9 {
        match double_field(buf, w, pos, end) {
            None => None,
            Some((v, q)) => Some((Quote { in_vol: Some(v), ..m }, q)),
        }
    } else if tag == 10 {
        match double_field(buf, w, pos, end) {
            None => None,
            Some((v, q)) => Some((Quote { out_vol: Some(v), ..m }, q)),
        }
    } else {
        match skip_at(buf, w, tag, pos, end, depth) {
            None => None,
            Some(q) => Some((m, q)),
        }
    }
}

/// Merges the fields in `[pos, end)` into `m`.
pub open spec fn quote_merge(m: Quote, buf: Seq<u8>, pos: int, end: int, depth: nat) -> Option<Quote>
    decreases end - pos,
{
    if pos >= end {
        Some(m)
    } else {
        match key_at(buf, pos, end) {
            None => None,
            Some((t, w, p)) => match quote_field(m, t, w, buf, p, end, depth) {
                None => None,
                Some((m2, q)) => if q <= pos || q > end {
                    None
                } else {
                    quote_merge(m2, buf, q, end, depth)
                },
            },
        }
    }
}

/// Decodes a whole buffer as a quote.
pub open spec fn quote_decode(buf: Seq<u8>) -> Option<Quote> {
    quote_merge(quote_empty(), buf, 0, buf.len() as int, RECURSION_LIMIT as nat)
}

/// The encoding of a quote: its present fields in field number order.
pub open spec fn quote_bytes(m: Quote) -> Seq<u8> {
    int64_bytes(1, m.ts) + double_bytes(2, m.price) + double_bytes(3, m.open) + double_bytes(4, m.high) + double_bytes(5, m.low) + double_bytes(6, m.pre_close) + double_bytes(7, m.volume) + double_bytes(8, m.amount) + double_bytes(9, m.in_vol) + double_bytes(10, m.out_vol)
}

impl Default for Quote {
    fn default() -> (r: Quote)
        ensures
            r == quote_empty(),
    {
        Quote { ts: None, price: None, open: None, high: None, low: None, pre_close: None, volume: None, amount: None, in_vol: None, out_vol: None }
    }
}

impl Quote {
    /// Applies one field to `self` (see [`quote_field`]).
    pub fn merge_field(&mut self, tag: u32, w: WireType, buf: &[u8], pos: usize, end: usize, depth: u32) -> (r: Option<usize>)
        requires
            pos <= end <= buf@.len(),
        ensures
            match quote_field(*old(self), tag, w, buf@, pos as int, end as int, depth as nat) {
                Some((m, q)) => pos <= q <= end && r == Some(q as usize) && *final(self) == m,
                None => r is None,
            },
    {
        proof {
            lemma_read_bounds(buf@, pos as int, end as int);
            lemma_skip_bounds(buf@, w, tag, pos as int, end as int, depth as nat);
        }
        if tag == 1 {
            let (v, q) = match read_int64(buf, w, pos, end) {
                None => return None,
                Some(x) => x,
            };
            self.ts = Some(v);
            Some(q)
        } else if tag == 2 {
            let (v, q) = match read_double(buf, w, pos, end) {
                None => return None,
                Some(x) => x,
            };
            self.price = Some(v);
            Some(q)
        } else if tag == 3 {
            let (v, q) = match read_double(buf, w, pos, end) {
                None => return None,
                Some(x) => x,
            };
            self.open = Some(v);
            Some(q)
        } else if tag == 4 {
            let (v, q) = match read_double(buf, w, pos, end) {
                None => return None,
                Some(x) => x,
            };
            self.high = Some(v);
            Some(q)
        } else if tag == 5 {
            let (v, q) = match read_double(buf, w, pos, end) {
                None => return None,
                Some(x) => x,
            };
            self.low = Some(v);
            Some(q)
        } else if tag == 6 {
            let (v, q) = match read_double(buf, w, pos, end) {
                None => return None,
                Some(x) => x,
            };
            self.pre_close = Some(v);
            Some(q)
        } else if tag == 7 {
            let (v, q) = match read_double(buf, w, pos, end) {
                None => return None,
                Some(x) => x,
            };
            self.volume = Some(v);
            Some(q)
        } else if tag == 8 {
            let (v, q) = match read_double(buf, w, pos, end) {
                None => return None,
                Some(x) => x,
            };
            self.amount = Some(v);
            Some(q)
        } else if tag == 9 {
            let (v, q) = match read_double(buf, w, pos, end) {
                None => return None,
                Some(x) => x,
            };
            self.in_vol = Some(v);
            Some(q)
        } else if tag == 10 {
            let (v, q) = match read_double(buf, w, pos, end) {
                None => return None,
                Some(x) => x,
            };
            self.out_vol = Some(v);
            Some(q)
        } else {
            skip_field(buf, w, tag, pos, end, depth)
        }
    }

    /// Merges the fields in `[pos, end)` into `self` (see [`quote_merge`]);
    /// `false` when the window does not hold a well-formed message.
    pub fn merge(&mut self, buf: &[u8], pos: usize, end: usize, depth: u32) -> (ok: bool)
        requires
            pos <= end <= buf@.len(),
        ensures
            match quote_merge(*old(self), buf@, pos as int, end as int, depth as nat) {
                Some(m) => ok && *final(self) == m,
                None => !ok,
            },
    {
        let mut p = pos;
        while p < end
            invariant
                pos <= p <= end <= buf@.len(),
                quote_merge(*old(self), buf@, pos as int, end as int, depth as nat)
                    == quote_merge(*self, buf@, p as int, end as int, depth as nat),
            decreases end - p,
        {
            proof {
                lemma_read_bounds(buf@, p as int, end as int);
            }
            let (t, w, k) = match decode_key(buf, p, end) {
                None => return false,
                Some(x) => x,
            };
            let q = match self.merge_field(t, w, buf, k, end, depth) {
                None => return false,
                Some(q) => q,
            };
            if q <= p || q > end {
                return false;
            }
            p = q;
        }
        true
    }

    /// Decodes a whole buffer as a quote; refused exactly when [`quote_decode`]
    /// refuses it.
    pub fn decode(buf: &[u8]) -> (r: Result<Quote, DecodeError>)
        ensures
            match quote_decode(buf@) {
                Some(m) => r == Ok::<Quote, DecodeError>(m),
                None => r is Err,
            },
    {
        let mut m = Quote::default();
        if m.merge(buf, 0, buf.len(), RECURSION_LIMIT) {
            Ok(m)
        } else {
            Err(DecodeError)
        }
    }

    /// Appends the encoding of `self`.
    pub fn encode_raw(&self, out: &mut Vec<u8>)
        ensures
            final(out)@ == old(out)@ + quote_bytes(*self),
    {
        let ghost before = out@;
        encode_int64_field(out, 1, self.ts);
        encode_double_field(out, 2, self.price);
        encode_double_field(out, 3, self.open);
        encode_double_field(out, 4, self.high);
        encode_double_field(out, 5, self.low);
        encode_double_field(out, 6, self.pre_close);
        encode_double_field(out, 7, self.volume);
        encode_double_field(out, 8, self.amount);
        encode_double_field(out, 9, self.in_vol);
        encode_double_field(out, 10, self.out_vol);
        assert(out@ =~= before + quote_bytes(*self));
    }

    /// The encoding of `self`.
    pub fn encode_to_vec(&self) -> (r: Vec<u8>)
        ensures
            r@ == quote_bytes(*self),
    {
        let mut out = Vec::new();
        self.encode_raw(&mut out);
        assert(out@ =~= quote_bytes(*self));
        out
    }
}

/// Decoding the encoding of a quote, placed anywhere in a buffer, from the
/// empty message gives the message back, at any depth.
#[verifier::rlimit(50)]
pub proof fn lemma_quote_roundtrip(buf: Seq<u8>, pos: int, m: Quote, depth: nat)
    requires
        0 <= pos,
        pos + quote_bytes(m).len() <= buf.len(),
        buf.subrange(pos, pos + quote_bytes(m).len()) == quote_bytes(m),
    ensures
        quote_merge(quote_empty(), buf, pos, pos + quote_bytes(m).len(), depth) == Some(m),
{
    let end = pos + quote_bytes(m).len();
    let b1 = int64_bytes(1, m.ts);
    let b2 = double_bytes(2, m.price);
    let b3 = double_bytes(3, m.open);
    let b4 = double_bytes(4, m.high);
    let b5 = double_bytes(5, m.low);
    let b6 = double_bytes(6, m.pre_close);
    let b7 = double_bytes(7, m.volume);
    let b8 = double_bytes(8, m.amount);
    let b9 = double_bytes(9, m.in_vol);
    let b10 = double_bytes(10, m.out_vol);
    let a1 = b1;
    let a2 = b1 + b2;
    let a3 = b1 + b2 + b3;
    let a4 = b1 + b2 + b3 + b4;
    let a5 = b1 + b2 + b3 + b4 + b5;
    let a6 = b1 + b2 + b3 + b4 + b5 + b6;
    let a7 = b1 + b2 + b3 + b4 + b5 + b6 + b7;
    let a8 = b1 + b2 + b3 + b4 + b5 + b6 + b7 + b8;
    let a9 = b1 + b2 + b3 + b4 + b5 + b6 + b7 + b8 + b9;
    let a10 = b1 + b2 + b3 + b4 + b5 + b6 + b7 + b8 + b9 + b10;
    assert(a10 == quote_bytes(m));
    lemma_window_split(buf, pos, a9, b10);
    lemma_window_split(buf, pos, a8, b9);
    lemma_window_split(buf, pos, a7, b8);
    lemma_window_split(buf, pos, a6, b7);
    lemma_window_split(buf, pos, a5, b6);
    lemma_window_split(buf, pos, a4, b5);
    lemma_window_split(buf, pos, a3, b4);
    lemma_window_split(buf, pos, a2, b3);
    lemma_window_split(buf, pos, a1, b2);
    let p0 = pos;
    let p1 = pos + a1.len();
    let p2 = pos + a2.len();
    let p3 = pos + a3.len();
    let p4 = pos + a4.len();
    let p5 = pos + a5.len();
    let p6 = pos + a6.len();
    let p7 = pos + a7.len();
    let p8 = pos + a8.len();
    let p9 = pos + a9.len();
    let p10 = pos + a10.len();
    let s0 = Quote { ts: None, price: None, open: None, high: None, low: None, pre_close: None, volume: None, amount: None, in_vol: None, out_vol: None };
    let s1 = Quote { ts: m.ts, price: None, open: None, high: None, low: None, pre_close: None, volume: None, amount: None, in_vol: None, out_vol: None };
    let s2 = Quote { ts: m.ts, price: m.price, open: None, high: None, low: None, pre_close: None, volume: None, amount: None, in_vol: None, out_vol: None };
    let s3 = Quote { ts: m.ts, price: m.price, open: m.open, high: None, low: None, pre_close: None, volume: None, amount: None, in_vol: None, out_vol: None };
    let s4 = Quote { ts: m.ts, price: m.price, open: m.open, high: m.high, low: None, pre_close: None, volume: None, amount: None, in_vol: None, out_vol: None };
    let s5 = Quote { ts: m.ts, price: m.price, open: m.open, high: m.high, low: m.low, pre_close: None, volume: None, amount: None, in_vol: None, out_vol: None };
    let s6 = Quote { ts: m.ts, price: m.price, open: m.open, high: m.high, low: m.low, pre_close: m.pre_close, volume: None, amount: None, in_vol: None, out_vol: None };
    let s7 = Quote { ts: m.ts, price: m.price, open: m.open, high: m.high, low: m.low, pre_close: m.pre_close, volume: m.volume, amount: None, in_vol: None, out_vol: None };
    let s8 = Quote { ts: m.ts, price: m.price, open: m.open, high: m.high, low: m.low, pre_close: m.pre_close, volume: m.volume, amount: m.amount, in_vol: None, out_vol: None };
    let s9 = Quote { ts: m.ts, price: m.price, open: m.open, high: m.high, low: m.low, pre_close: m.pre_close, volume: m.volume, amount: m.amount, in_vol: m.in_vol, out_vol: None };
    let s10 = Quote { ts: m.ts, price: m.price, open: m.open, high: m.high, low: m.low, pre_close: m.pre_close, volume: m.volume, amount: m.amount, in_vol: m.in_vol, out_vol: m.out_vol };
    assert(quote_merge(s0, buf, p0, end, depth) == quote_merge(s1, buf, p1, end, depth)) by {
        if let Some(v) = m.ts {
            lemma_int64_step(buf, p0, end, 1, v);
        }
    }
    assert(quote_merge(s1, buf, p1, end, depth) == quote_merge(s2, buf, p2, end, depth)) by {
        if let Some(v) = m.price {
            lemma_double_step(buf, p1, end, 2, v);
        }
    }
    assert(quote_merge(s2, buf, p2, end, depth) == quote_merge(s3, buf, p3, end, depth)) by {
        if let Some(v) = m.open {
            lemma_double_step(buf, p2, end, 3, v);
        }
    }
    assert(quote_merge(s3, buf, p3, end, depth) == quote_merge(s4, buf, p4, end, depth)) by {
        if let Some(v) = m.high {
            lemma_double_step(buf, p3, end, 4, v);
        }
    }
    assert(quote_merge(s4, buf, p4, end, depth) == quote_merge(s5, buf, p5, end, depth)) by {
        if let Some(v) = m.low {
            lemma_double_step(buf, p4, end, 5, v);
        }
    }
    assert(quote_merge(s5, buf, p5, end, depth) == quote_merge(s6, buf, p6, end, depth)) by {
        if let Some(v) = m.pre_close {
            lemma_double_step(buf, p5, end, 6, v);
        }
    }
    assert(quote_merge(s6, buf, p6, end, depth) == quote_merge(s7, buf, p7, end, depth)) by {
        if let Some(v) = m.volume {
            lemma_double_step(buf, p6, end, 7, v);
        }
    }
    assert(quote_merge(s7, buf, p7, end, depth) == quote_merge(s8, buf, p8, end, depth)) by {
        if let Some(v) = m.amount {
            lemma_double_step(buf, p7, end, 8, v);
        }
    }
    assert(quote_merge(s8, buf, p8, end, depth) == quote_merge(s9, buf, p9, end, depth)) by {
        if let Some(v) = m.in_vol {
            lemma_double_step(buf, p8, end, 9, v);
        }
    }
    assert(quote_merge(s9, buf, p9, end, depth) == quote_merge(s10, buf, p10, end, depth)) by {
        if let Some(v) = m.out_vol {
            lemma_double_step(buf, p9, end, 10, v);
        }
    }
    assert(quote_merge(s10, buf, end, end, depth) == Some(m));
}

// ---------------------------------------------------------------- Tick
/// A tick with no field set.
pub open spec fn tick_empty() -> Tick {
    Tick { ts: None, price: None, volume: None, buy_price: None, sell_price: None, inout_flag: None, serial: None }
}
/// Applies the field with number `tag` and wire type `w`, whose value starts
/// at `pos`, to `m`; gives the new message and the position after the field.
pub open spec fn tick_field(m: Tick, tag: u32, w: WireType, buf: Seq<u8>, pos: int, end: int, depth: nat) -> Option<(Tick, int)> {
    if tag == 1 {
        match int64_field(buf, w, pos, end) {
            None => None,
            Some((v, q)) => Some((Tick { ts: Some(v), ..m }, q)),
        }
    } else if tag == 2 {
        match double_field(buf, w, pos, end) {
            None => None,
            Some((v, q)) => Some((Tick { price: Some(v), ..m }, q)),
        }
    } else if tag == 3 {
        match double_field(buf, w, pos, end) {
            None => None,
            Some((v, q)) => Some((Tick { volume: Some(v), ..m }, q)),
        }
    } else if tag == 4 {
        match double_field(buf, w, pos, end) {
            None => None,
            Some((v, q)) => Some((Tick { buy_price: Some(v), ..m }, q)),
        }
    } else if tag == 5 {
        match double_field(buf, w, pos, end) {
            None => None,
            Some((v, q)) => Some((Tick { sell_price: Some(v), ..m }, q)),
        }
    } else if tag == 6 {
        match uint32_field(buf, w, pos, end) {
            None => None,
            Some((v, q)) => Some((Tick { inout_flag: Some(v), ..m }, q)),
        }
    } else if tag == 7 {
        match int64_field(buf, w, pos, end) {
            None => None,
            Some((v, q)) => Some((Tick { serial: Some(v), ..m }, q)),
        }
    } else {
        match skip_at(buf, w, tag, pos, end, depth) {
            None => None,
            Some(q) => Some((m, q)),
        }
    }
}

/// Merges the fields in `[pos, end)` into `m`.
pub open spec fn tick_merge(m: Tick, buf: Seq<u8>, pos: int, end: int, depth: nat) -> Option<Tick>
    decreases end - pos,
{
    if pos >= end {
        Some(m)
    } else {
        match key_at(buf, pos, end) {
            None => None,
            Some((t, w, p)) => match tick_field(m, t, w, buf, p, end, depth) {
                None => None,
                Some((m2, q)) => if q <= pos || q > end {
                    None
                } else {
                    tick_merge(m2, buf, q, end, depth)
                },
            },
        }
    }
}

/// Decodes a whole buffer as a tick.
pub open spec fn tick_decode(buf: Seq<u8>) -> Option<Tick> {
    tick_merge(tick_empty(), buf, 0, buf.len() as int, RECURSION_LIMIT as nat)
}

/// The encoding of a tick: its present fields in field number order.
pub open spec fn tick_bytes(m: Tick) -> Seq<u8> {
    int64_bytes(1, m.ts) + double_bytes(2, m.price) + double_bytes(3, m.volume) + double_bytes(4, m.buy_price) + double_bytes(5, m.sell_price) + uint32_bytes(6, m.inout_flag) + int64_bytes(7, m.serial)
}

impl Default for Tick {
    fn default() -> (r: Tick)
        ensures
            r == tick_empty(),
    {
        Tick { ts: None, price: None, volume: None, buy_price: None, sell_price: None, inout_flag: None, serial: None }
    }
}

impl Tick {
    /// Applies one field to `self` (see [`tick_field`]).
    pub fn merge_field(&mut self, tag: u32, w: WireType, buf: &[u8], pos: usize, end: usize, depth: u32) -> (r: Option<usize>)
        requires
            pos <= end <= buf@.len(),
        ensures
            match tick_field(*old(self), tag, w, buf@, pos as int, end as int, depth as nat) {
                Some((m, q)) => pos <= q <= end && r == Some(q as usize) && *final(self) == m,
                None => r is None,
            },
    {
        proof {
            lemma_read_bounds(buf@, pos as int, end as int);
            lemma_skip_bounds(buf@, w, tag, pos as int, end as int, depth as nat);
        }
        if tag == 1 {
            let (v, q) = match read_int64(buf, w, pos, end) {
                None => return None,
                Some(x) => x,
            };
            self.ts = Some(v);
            Some(q)
        } else if tag == 2 {
            let (v, q) = match read_double(buf, w, pos, end) {
                None => return None,
                Some(x) => x,
            };
            self.price = Some(v);
            Some(q)
        } else if tag == 3 {
            let (v, q) = match read_double(buf, w, pos, end) {
                None => return None,
                Some(x) => x,
            };
            self.volume = Some(v);
            Some(q)
        } else if tag == 4 {
            let (v, q) = match read_double(buf, w, pos, end) {
                None => return None,
                Some(x) => x,
            };
            self.buy_price = Some(v);
            Some(q)
        } else if tag == 5 {
            let (v, q) = match read_double(buf, w, pos, end) {
                None => return None,
                Some(x) => x,
            };
            self.sell_price = Some(v);
            Some(q)
        } else if tag == 6 {
            let (v, q) = match read_uint32(buf, w, pos, end) {
                None => return None,
                Some(x) => x,
            };
            self.inout_flag = Some(v);
            Some(q)
        } else if tag == 7 {
            let (v, q) = match read_int64(buf, w, pos, end) {
                None => return None,
                Some(x) => x,
            };
            self.serial = Some(v);
            Some(q)
        } else {
            skip_field(buf, w, tag, pos, end, depth)
        }
    }

    /// Merges the fields in `[pos, end)` into `self` (see [`tick_merge`]);
    /// `false` when the window does not hold a well-formed message.
    pub fn merge(&mut self, buf: &[u8], pos: usize, end: usize, depth: u32) -> (ok: bool)
        requires
            pos <= end <= buf@.len(),
        ensures
            match tick_merge(*old(self), buf@, pos as int, end as int, depth as nat) {
                Some(m) => ok && *final(self) == m,
                None => !ok,
            },
    {
        let mut p = pos;
        while p < end
            invariant
                pos <= p <= end <= buf@.len(),
                tick_merge(*old(self), buf@, pos as int, end as int, depth as nat)
                    == tick_merge(*self, buf@, p as int, end as int, depth as nat),
            decreases end - p,
        {
            proof {
                lemma_read_bounds(buf@, p as int, end as int);
            }
            let (t, w, k) = match decode_key(buf, p, end) {
                None => return false,
                Some(x) => x,
            };
            let q = match self.merge_field(t, w, buf, k, end, depth) {
                None => return false,
                Some(q) => q,
            };
            if q <= p || q > end {
                return false;
            }
            p = q;
        }
        true
    }

    /// Decodes a whole buffer as a tick; refused exactly when [`tick_decode`]
    /// refuses it.
    pub fn decode(buf: &[u8]) -> (r: Result<Tick, DecodeError>)
        ensures
            match tick_decode(buf@) {
                Some(m) => r == Ok::<Tick, DecodeError>(m),
                None => r is Err,
            },
    {
        let mut m = Tick::default();
        if m.merge(buf, 0, buf.len(), RECURSION_LIMIT) {
            Ok(m)
        } else {
            Err(DecodeError)
        }
    }

    /// Appends the encoding of `self`.
    pub fn encode_raw(&self, out: &mut Vec<u8>)
        ensures
            final(out)@ == old(out)@ + tick_bytes(*self),
    {
        let ghost before = out@;
        encode_int64_field(out, 1, self.ts);
        encode_double_field(out, 2, self.price);
        encode_double_field(out, 3, self.volume);
        encode_double_field(out, 4, self.buy_price);
        encode_double_field(out, 5, self.sell_price);
        encode_uint32_field(out, 6, self.inout_flag);
        encode_int64_field(out, 7, self.serial);
        assert(out@ =~= before + tick_bytes(*self));
    }

    /// The encoding of `self`.
    pub fn encode_to_vec(&self) -> (r: Vec<u8>)
        ensures
            r@ == tick_bytes(*self),
    {
        let mut out = Vec::new();
        self.encode_raw(&mut out);
        assert(out@ =~= tick_bytes(*self));
        out
    }
}

/// Decoding the encoding of a tick, placed anywhere in a buffer, from the
/// empty message gives the message back, at any depth.
#[verifier::rlimit(50)]
pub proof fn lemma_tick_roundtrip(buf: Seq<u8>, pos: int, m: Tick, depth: nat)
    requires
        0 <= pos,
        pos + tick_bytes(m).len() <= buf.len(),
        buf.subrange(pos, pos + tick_bytes(m).len()) == tick_bytes(m),
    ensures
        tick_merge(tick_empty(), buf, pos, pos + tick_bytes(m).len(), depth) == Some(m),
{
    let end = pos + tick_bytes(m).len();
    let b1 = int64_bytes(1, m.ts);
    let b2 = double_bytes(2, m.price);
    let b3 = double_bytes(3, m.volume);
    let b4 = double_bytes(4, m.buy_price);
    let b5 = double_bytes(5, m.sell_price);
    let b6 = uint32_bytes(6, m.inout_flag);
    let b7 = int64_bytes(7, m.serial);
    let a1 = b1;
    let a2 = b1 + b2;
    let a3 = b1 + b2 + b3;
    let a4 = b1 + b2 + b3 + b4;
    let a5 = b1 + b2 + b3 + b4 + b5;
    let a6 = b1 + b2 + b3 + b4 + b5 + b6;
    let a7 = b1 + b2 + b3 + b4 + b5 + b6 + b7;
    assert(a7 == tick_bytes(m));
    lemma_window_split(buf, pos, a6, b7);
    lemma_window_split(buf, pos, a5, b6);
    lemma_window_split(buf, pos, a4, b5);
    lemma_window_split(buf, pos, a3, b4);
    lemma_window_split(buf, pos, a2, b3);
    lemma_window_split(buf, pos, a1, b2);
    let p0 = pos;
    let p1 = pos + a1.len();
    let p2 = pos + a2.len();
    let p3 = pos + a3.len();
    let p4 = pos + a4.len();
    let p5 = pos + a5.len();
    let p6 = pos + a6.len();
    let p7 = pos + a7.len();
    let s0 = Tick { ts: None, price: None, volume: None, buy_price: None, sell_price: None, inout_flag: None, serial: None };
    let s1 = Tick { ts: m.ts, price: None, volume: None, buy_price: None, sell_price: None, inout_flag: None, serial: None };
    let s2 = Tick { ts: m.ts, price: m.price, volume: None, buy_price: None, sell_price: None, inout_flag: None, serial: None };
    let s3 = Tick { ts: m.ts, price: m.price, volume: m.volume, buy_price: None, sell_price: None, inout_flag: None, serial: None };
    let s4 = Tick { ts: m.ts, price: m.price, volume: m.volume, buy_price: m.buy_price, sell_price: None, inout_flag: None, serial: None };
    let s5 = Tick { ts: m.ts, price: m.price, volume: m.volume, buy_price: m.buy_price, sell_price: m.sell_price, inout_flag: None, serial: None };
    let s6 = Tick { ts: m.ts, price: m.price, volume: m.volume, buy_price: m.buy_price, sell_price: m.sell_price, inout_flag: m.inout_flag, serial: None };
    let s7 = Tick { ts: m.ts, price: m.price, volume: m.volume, buy_price: m.buy_price, sell_price: m.sell_price, inout_flag: m.inout_flag, serial: m.serial };
    assert(tick_merge(s0, buf, p0, end, depth) == tick_merge(s1, buf, p1, end, depth)) by {
        if let Some(v) = m.ts {
            lemma_int64_step(buf, p0, end, 1, v);
        }
    }
    assert(tick_merge(s1, buf, p1, end, depth) == tick_merge(s2, buf, p2, end, depth)) by {
        if let Some(v) = m.price {
            lemma_double_step(buf, p1, end, 2, v);
        }
    }
    assert(tick_merge(s2, buf, p2, end, depth) == tick_merge(s3, buf, p3, end, depth)) by {
        if let Some(v) = m.volume {
            lemma_double_step(buf, p2, end, 3, v);
        }
    }
    assert(tick_merge(s3, buf, p3, end, depth) == tick_merge(s4, buf, p4, end, depth)) by {
        if let Some(v) = m.buy_price {
            lemma_double_step(buf, p3, end, 4, v);
        }
    }
    assert(tick_merge(s4, buf, p4, end, depth) == tick_merge(s5, buf, p5, end, depth)) by {
        if let Some(v) = m.sell_price {
            lemma_double_step(buf, p4, end, 5, v);
        }
    }
    assert(tick_merge(s5, buf, p5, end, depth) == tick_merge(s6, buf, p6, end, depth)) by {
        if let Some(v) = m.inout_flag {
            lemma_uint32_step(buf, p5, end, 6, v);
        }
    }
    assert(tick_merge(s6, buf, p6, end, depth) == tick_merge(s7, buf, p7, end, depth)) by {
        if let Some(v) = m.serial {
            lemma_int64_step(buf, p6, end, 7, v);
        }
    }
    assert(tick_merge(s7, buf, end, end, depth) == Some(m));
}

// ---------------------------------------------------------------- Kline
/// A candlestick with no field set.
pub open spec fn kline_empty() -> Kline {
    Kline { ts: None, period: None, open: None, high: None, low: None, close: None, volume: None, amount: None, turnover: None, pre_close: None }
}
/// Applies the field with number `tag` and wire type `w`, whose value starts
/// at `pos`, to `m`; gives the new message and the position after the field.
pub open spec fn kline_field(m: Kline, tag: u32, w: WireType, buf: Seq<u8>, pos: int, end: int, depth: nat) -> Option<(Kline, int)> {
    if tag == 1 {
        match int64_field(buf, w, pos, end) {
            None => None,
            Some((v, q)) => Some((Kline { ts: Some(v), ..m }, q)),
        }
    } else if tag == 2 {
        match int32_field(buf, w, pos, end) {
            None => None,
            Some((v, q)) => Some((Kline { period: Some(v), ..m }, q)),
        }
    } else if tag == 3 {
        match double_field(buf, w, pos, end) {
            None => None,
            Some((v, q)) => Some((Kline { open: Some(v), ..m }, q)),
        }
    } else if tag == 4 {
        match double_field(buf, w, pos, end) {
            None => None,
            Some((v, q)) => Some((Kline { high: Some(v), ..m }, q)),
        }
    } else if tag == 5 {
        match double_field(buf, w, pos, end) {
            None => None,
            Some((v, q)) => Some((Kline { low: Some(v), ..m }, q)),
        }
    } else if tag == 6 {
        match double_field(buf, w, pos, end) {
            None => None,
            Some((v, q)) => Some((Kline { close: Some(v), ..m }, q)),
        }
    } else if tag == 7 {
        match double_field(buf, w, pos, end) {
            None => None,
            Some((v, q)) => Some((Kline { volume: Some(v), ..m }, q)),
        }
    } else if tag == 8 {
        match double_field(buf, w, pos, end) {
            None => None,
            Some((v, q)) => Some((Kline { amount: Some(v), ..m }, q)),
        }
    } else if tag == 9 {
        match double_field(buf, w, pos, end) {
            None => None,
            Some((v, q)) => Some((Kline { turnover: Some(v), ..m }, q)),
        }
    } else if tag == 10 {
        match double_field(buf, w, pos, end) {
            None => None,
            Some((v, q)) => Some((Kline { pre_close: Some(v), ..m }, q)),
        }
    } else {
        match skip_at(buf, w, tag, pos, end, depth) {
            None => None,
            Some(q) => Some((m, q)),
        }
    }
}

/// Merges the fields in `[pos, end)` into `m`.
pub open spec fn kline_merge(m: Kline, buf: Seq<u8>, pos: int, end: int, depth: nat) -> Option<Kline>
    decreases end - pos,
{
    if pos >= end {
        Some(m)
    } else {
        match key_at(buf, pos, end) {
            None => None,
            Some((t, w, p)) => match kline_field(m, t, w, buf, p, end, depth) {
                None => None,
                Some((m2, q)) => if q <= pos || q > end {
                    None
                } else {
                    kline_merge(m2, buf, q, end, depth)
                },
            },
        }
    }
}

/// Decodes a whole buffer as a candlestick.
pub open spec fn kline_decode(buf: Seq<u8>) -> Option<Kline> {
    kline_merge(kline_empty(), buf, 0, buf.len() as int, RECURSION_LIMIT as nat)
}

/// The encoding of a candlestick: its present fields in field number order.
pub open spec fn kline_bytes(m: Kline) -> Seq<u8> {
    int64_bytes(1, m.ts) + int32_bytes(2, m.period) + double_bytes(3, m.open) + double_bytes(4, m.high) + double_bytes(5, m.low) + double_bytes(6, m.close) + double_bytes(7, m.volume) + double_bytes(8, m.amount) + double_bytes(9, m.turnover) + double_bytes(10, m.pre_close)
}

impl Default for Kline {
    fn default() -> (r: Kline)
        ensures
            r == kline_empty(),
    {
        Kline { ts: None, period: None, open: None, high: None, low: None, close: None, volume: None, amount: None, turnover: None, pre_close: None }
    }
}

impl Kline {
    /// Applies one field to `self` (see [`kline_field`]).
    pub fn merge_field(&mut self, tag: u32, w: WireType, buf: &[u8], pos: usize, end: usize, depth: u32) -> (r: Option<usize>)
        requires
            pos <= end <= buf@.len(),
        ensures
            match kline_field(*old(self), tag, w, buf@, pos as int, end as int, depth as nat) {
                Some((m, q)) => pos <= q <= end && r == Some(q as usize) && *final(self) == m,
                None => r is None,
            },
    {
        proof {
            lemma_read_bounds(buf@, pos as int, end as int);
            lemma_skip_bounds(buf@, w, tag, pos as int, end as int, depth as nat);
        }
        if tag == 1 {
            let (v, q) = match read_int64(buf, w, pos, end) {
                None => return None,
                Some(x) => x,
            };
            self.ts = Some(v);
            Some(q)
        } else if tag == 2 {
            let (v, q) = match read_int32(buf, w, pos, end) {
                None => return None,
                Some(x) => x,
            };
            self.period = Some(v);
            Some(q)
        } else if tag == 3 {
            let (v, q) = match read_double(buf, w, pos, end) {
                None => return None,
                Some(x) => x,
            };
            self.open = Some(v);
            Some(q)
        } else if tag == 4 {
            let (v, q) = match read_double(buf, w, pos, end) {
                None => return None,
                Some(x) => x,
            };
            self.high = Some(v);
            Some(q)
        } else if tag == 5 {
            let (v, q) = match read_double(buf, w, pos, end) {
                None => return None,
                Some(x) => x,
            };
            self.low = Some(v);
            Some(q)
        } else if tag == 6 {
            let (v, q) = match read_double(buf, w, pos, end) {
                None => return None,
                Some(x) => x,
            };
            self.close = Some(v);
            Some(q)
        } else if tag == 7 {
            let (v, q) = match read_double(buf, w, pos, end) {
                None => return None,
                Some(x) => x,
            };
            self.volume = Some(v);
            Some(q)
        } else if tag == 8 {
            let (v, q) = match read_double(buf, w, pos, end) {
                None => return None,
                Some(x) => x,
            };
            self.amount = Some(v);
            Some(q)
        } else if tag == 9 {
            let (v, q) = match read_double(buf, w, pos, end) {
                None => return None,
                Some(x) => x,
            };
            self.turnover = Some(v);
            Some(q)
        } else if tag == 10 {
            let (v, q) = match read_double(buf, w, pos, end) {
                None => return None,
                Some(x) => x,
            };
            self.pre_close = Some(v);
            Some(q)
        } else {
            skip_field(buf, w, tag, pos, end, depth)
        }
    }

    /// Merges the fields in `[pos, end)` into `self` (see [`kline_merge`]);
    /// `false` when the window does not hold a well-formed message.
    pub fn merge(&mut self, buf: &[u8], pos: usize, end: usize, depth: u32) -> (ok: bool)
        requires
            pos <= end <= buf@.len(),
        ensures
            match kline_merge(*old(self), buf@, pos as int, end as int, depth as nat) {
                Some(m) => ok && *final(self) == m,
                None => !ok,
            },
    {
        let mut p = pos;
        while p < end
            invariant
                pos <= p <= end <= buf@.len(),
                kline_merge(*old(self), buf@, pos as int, end as int, depth as nat)
                    == kline_merge(*self, buf@, p as int, end as int, depth as nat),
            decreases end - p,
        {
            proof {
                lemma_read_bounds(buf@, p as int, end as int);
            }
            let (t, w, k) = match decode_key(buf, p, end) {
                None => return false,
                Some(x) => x,
            };
            let q = match self.merge_field(t, w, buf, k, end, depth) {
                None => return false,
                Some(q) => q,
            };
            if q <= p || q > end {
                return false;
            }
            p = q;
        }
        true
    }

    /// Decodes a whole buffer as a candlestick; refused exactly when [`kline_decode`]
    /// refuses it.
    pub fn decode(buf: &[u8]) -> (r: Result<Kline, DecodeError>)
        ensures
            match kline_decode(buf@) {
                Some(m) => r == Ok::<Kline, DecodeError>(m),
                None => r is Err,
            },
    {
        let mut m = Kline::default();
        if m.merge(buf, 0, buf.len(), RECURSION_LIMIT) {
            Ok(m)
        } else {
            Err(DecodeError)
        }
    }

    /// Appends the encoding of `self`.
    pub fn encode_raw(&self, out: &mut Vec<u8>)
        ensures
            final(out)@ == old(out)@ + kline_bytes(*self),
    {
        let ghost before = out@;
        encode_int64_field(out, 1, self.ts);
        encode_int32_field(out, 2, self.period);
        encode_double_field(out, 3, self.open);
        encode_double_field(out, 4, self.high);
        encode_double_field(out, 5, self.low);
        encode_double_field(out, 6, self.close);
        encode_double_field(out, 7, self.volume);
        encode_double_field(out, 8, self.amount);
        encode_double_field(out, 9, self.turnover);
        encode_double_field(out, 10, self.pre_close);
        assert(out@ =~= before + kline_bytes(*self));
    }

    /// The encoding of `self`.
    pub fn encode_to_vec(&self) -> (r: Vec<u8>)
        ensures
            r@ == kline_bytes(*self),
    {
        let mut out = Vec::new();
        self.encode_raw(&mut out);
        assert(out@ =~= kline_bytes(*self));
        out
    }
}

/// Decoding the encoding of a candlestick, placed anywhere in a buffer, from the
/// empty message gives the message back, at any depth.
#[verifier::rlimit(50)]
pub proof fn lemma_kline_roundtrip(buf: Seq<u8>, pos: int, m: Kline, depth: nat)
    requires
        0 <= pos,
        pos + kline_bytes(m).len() <= buf.len(),
        buf.subrange(pos, pos + kline_bytes(m).len()) == kline_bytes(m),
    ensures
        kline_merge(kline_empty(), buf, pos, pos + kline_bytes(m).len(), depth) == Some(m),
{
    let end = pos + kline_bytes(m).len();
    let b1 = int64_bytes(1, m.ts);
    let b2 = int32_bytes(2, m.period);
    let b3 = double_bytes(3, m.open);
    let b4 = double_bytes(4, m.high);
    let b5 = double_bytes(5, m.low);
    let b6 = double_bytes(6, m.close);
    let b7 = double_bytes(7, m.volume);
    let b8 = double_bytes(8, m.amount);
    let b9 = double_bytes(9, m.turnover);
    let b10 = double_bytes(10, m.pre_close);
    let a1 = b1;
    let a2 = b1 + b2;
    let a3 = b1 + b2 + b3;
    let a4 = b1 + b2 + b3 + b4;
    let a5 = b1 + b2 + b3 + b4 + b5;
    let a6 = b1 + b2 + b3 + b4 + b5 + b6;
    let a7 = b1 + b2 + b3 + b4 + b5 + b6 + b7;
    let a8 = b1 + b2 + b3 + b4 + b5 + b6 + b7 + b8;
    let a9 = b1 + b2 + b3 + b4 + b5 + b6 + b7 + b8 + b9;
    let a10 = b1 + b2 + b3 + b4 + b5 + b6 + b7 + b8 + b9 + b10;
    assert(a10 == kline_bytes(m));
    lemma_window_split(buf, pos, a9, b10);
    lemma_window_split(buf, pos, a8, b9);
    lemma_window_split(buf, pos, a7, b8);
    lemma_window_split(buf, pos, a6, b7);
    lemma_window_split(buf, pos, a5, b6);
    lemma_window_split(buf, pos, a4, b5);
    lemma_window_split(buf, pos, a3, b4);
    lemma_window_split(buf, pos, a2, b3);
    lemma_window_split(buf, pos, a1, b2);
    let p0 = pos;
    let p1 = pos + a1.len();
    let p2 = pos + a2.len();
    let p3 = pos + a3.len();
    let p4 = pos + a4.len();
    let p5 = pos + a5.len();
    let p6 = pos + a6.len();
    let p7 = pos + a7.len();
    let p8 = pos + a8.len();
    let p9 = pos + a9.len();
    let p10 = pos + a10.len();
    let s0 = Kline { ts: None, period: None, open: None, high: None, low: None, close: None, volume: None, amount: None, turnover: None, pre_close: None };
    let s1 = Kline { ts: m.ts, period: None, open: None, high: None, low: None, close: None, volume: None, amount: None, turnover: None, pre_close: None };
    let s2 = Kline { ts: m.ts, period: m.period, open: None, high: None, low: None, close: None, volume: None, amount: None, turnover: None, pre_close: None };
    let s3 = Kline { ts: m.ts, period: m.period, open: m.open, high: None, low: None, close: None, volume: None, amount: None, turnover: None, pre_close: None };
    let s4 = Kline { ts: m.ts, period: m.period, open: m.open, high: m.high, low: None, close: None, volume: None, amount: None, turnover: None, pre_close: None };
    let s5 = Kline { ts: m.ts, period: m.period, open: m.open, high: m.high, low: m.low, close: None, volume: None, amount: None, turnover: None, pre_close: None };
    let s6 = Kline { ts: m.ts, period: m.period, open: m.open, high: m.high, low: m.low, close: m.close, volume: None, amount: None, turnover: None, pre_close: None };
    let s7 = Kline { ts: m.ts, period: m.period, open: m.open, high: m.high, low: m.low, close: m.close, volume: m.volume, amount: None, turnover: None, pre_close: None };
    let s8 = Kline { ts: m.ts, period: m.period, open: m.open, high: m.high, low: m.low, close: m.close, volume: m.volume, amount: m.amount, turnover: None, pre_close: None };
    let s9 = Kline { ts: m.ts, period: m.period, open: m.open, high: m.high, low: m.low, close: m.close, volume: m.volume, amount: m.amount, turnover: m.turnover, pre_close: None };
    let s10 = Kline { ts: m.ts, period: m.period, open: m.open, high: m.high, low: m.low, close: m.close, volume: m.volume, amount: m.amount, turnover: m.turnover, pre_close: m.pre_close };
    assert(kline_merge(s0, buf, p0, end, depth) == kline_merge(s1, buf, p1, end, depth)) by {
        if let Some(v) = m.ts {
            lemma_int64_step(buf, p0, end, 1, v);
        }
    }
    assert(kline_merge(s1, buf, p1, end, depth) == kline_merge(s2, buf, p2, end, depth)) by {
        if let Some(v) = m.period {
            lemma_int32_step(buf, p1, end, 2, v);
        }
    }
    assert(kline_merge(s2, buf, p2, end, depth) == kline_merge(s3, buf, p3, end, depth)) by {
        if let Some(v) = m.open {
            lemma_double_step(buf, p2, end, 3, v);
        }
    }
    assert(kline_merge(s3, buf, p3, end, depth) == kline_merge(s4, buf, p4, end, depth)) by {
        if let Some(v) = m.high {
            lemma_double_step(buf, p3, end, 4, v);
        }
    }
    assert(kline_merge(s4, buf, p4, end, depth) == kline_merge(s5, buf, p5, end, depth)) by {
        if let Some(v) = m.low {
            lemma_double_step(buf, p4, end, 5, v);
        }
    }
    assert(kline_merge(s5, buf, p5, end, depth) == kline_merge(s6, buf, p6, end, depth)) by {
        if let Some(v) = m.close {
            lemma_double_step(buf, p5, end, 6, v);
        }
    }
    assert(kline_merge(s6, buf, p6, end, depth) == kline_merge(s7, buf, p7, end, depth)) by {
        if let Some(v) = m.volume {
            lemma_double_step(buf, p6, end, 7, v);
        }
    }
    assert(kline_merge(s7, buf, p7, end, depth) == kline_merge(s8, buf, p8, end, depth)) by {
        if let Some(v) = m.amount {
            lemma_double_step(buf, p7, end, 8, v);
        }
    }
    assert(kline_merge(s8, buf, p8, end, depth) == kline_merge(s9, buf, p9, end, depth)) by {
        if let Some(v) = m.turnover {
            lemma_double_step(buf, p8, end, 9, v);
        }
    }
    assert(kline_merge(s9, buf, p9, end, depth) == kline_merge(s10, buf, p10, end, depth)) by {
        if let Some(v) = m.pre_close {
            lemma_double_step(buf, p9, end, 10, v);
        }
    }
    assert(kline_merge(s10, buf, end, end, depth) == Some(m));
}

// ---------------------------------------------------------------- Resume
/// A resume request with no field set.
pub open spec fn resume_empty() -> Resume {
    Resume { since_ts: None, since_serial: None }
}
/// Applies the field with number `tag` and wire type `w`, whose value starts
/// at `pos`, to `m`; gives the new message and the position after the field.
pub open spec fn resume_field(m: Resume, tag: u32, w: WireType, buf: Seq<u8>, pos: int, end: int, depth: nat) -> Option<(Resume, int)> {
    if tag == 1 {
        match int64_field(buf, w, pos, end) {
            None => None,
            Some((v, q)) => Some((Resume { since_ts: Some(v), ..m }, q)),
        }
    } else if tag == 2 {
        match int64_field(buf, w, pos, end) {
            None => None,
            Some((v, q)) => Some((Resume { since_serial: Some(v), ..m }, q)),
        }
    } else {
        match skip_at(buf, w, tag, pos, end, depth) {
            None => None,
            Some(q) => Some((m, q)),
        }
    }
}

/// Merges the fields in `[pos, end)` into `m`.
pub open spec fn resume_merge(m: Resume, buf: Seq<u8>, pos: int, end: int, depth: nat) -> Option<Resume>
    decreases end - pos,
{
    if pos >= end {
        Some(m)
    } else {
        match key_at(buf, pos, end) {
            None => None,
            Some((t, w, p)) => match resume_field(m, t, w, buf, p, end, depth) {
                None => None,
                Some((m2, q)) => if q <= pos || q > end {
                    None
                } else {
                    resume_merge(m2, buf, q, end, depth)
                },
            },
        }
    }
}

/// Decodes a whole buffer as a resume request.
pub open spec fn resume_decode(buf: Seq<u8>) -> Option<Resume> {
    resume_merge(resume_empty(), buf, 0, buf.len() as int, RECURSION_LIMIT as nat)
}

/// The encoding of a resume request: its present fields in field number order.
pub open spec fn resume_bytes(m: Resume) -> Seq<u8> {
    int64_bytes(1, m.since_ts) + int64_bytes(2, m.since_serial)
}

impl Default for Resume {
    fn default() -> (r: Resume)
        ensures
            r == resume_empty(),
    {
        Resume { since_ts: None, since_serial: None }
    }
}

impl Resume {
    /// Applies one field to `self` (see [`resume_field`]).
    pub fn merge_field(&mut self, tag: u32, w: WireType, buf: &[u8], pos: usize, end: usize, depth: u32) -> (r: Option<usize>)
        requires
            pos <= end <= buf@.len(),
        ensures
            match resume_field(*old(self), tag, w, buf@, pos as int, end as int, depth as nat) {
                Some((m, q)) => pos <= q <= end && r == Some(q as usize) && *final(self) == m,
                None => r is None,
            },
    {
        proof {
            lemma_read_bounds(buf@, pos as int, end as int);
            lemma_skip_bounds(buf@, w, tag, pos as int, end as int, depth as nat);
        }
        if tag == 1 {
            let (v, q) = match read_int64(buf, w, pos, end) {
                None => return None,
                Some(x) => x,
            };
            self.since_ts = Some(v);
            Some(q)
        } else if tag == 2 {
            let (v, q) = match read_int64(buf, w, pos, end) {
                None => return None,
                Some(x) => x,
            };
            self.since_serial = Some(v);
            Some(q)
        } else {
            skip_field(buf, w, tag, pos, end, depth)
        }
    }

    /// Merges the fields in `[pos, end)` into `self` (see [`resume_merge`]);
    /// `false` when the window does not hold a well-formed message.
    pub fn merge(&mut self, buf: &[u8], pos: usize, end: usize, depth: u32) -> (ok: bool)
        requires
            pos <= end <= buf@.len(),
        ensures
            match resume_merge(*old(self), buf@, pos as int, end as int, depth as nat) {
                Some(m) => ok && *final(self) == m,
                None => !ok,
            },
    {
        let mut p = pos;
        while p < end
            invariant
                pos <= p <= end <= buf@.len(),
                resume_merge(*old(self), buf@, pos as int, end as int, depth as nat)
                    == resume_merge(*self, buf@, p as int, end as int, depth as nat),
            decreases end - p,
        {
            proof {
                lemma_read_bounds(buf@, p as int, end as int);
            }
            let (t, w, k) = match decode_key(buf, p, end) {
                None => return false,
                Some(x) => x,
            };
            let q = match self.merge_field(t, w, buf, k, end, depth) {
                None => return false,
                Some(q) => q,
            };
            if q <= p || q > end {
                return false;
            }
            p = q;
        }
        true
    }

    /// Decodes a whole buffer as a resume request; refused exactly when [`resume_decode`]
    /// refuses it.
    pub fn decode(buf: &[u8]) -> (r: Result<Resume, DecodeError>)
        ensures
            match resume_decode(buf@) {
                Some(m) => r == Ok::<Resume, DecodeError>(m),
                None => r is Err,
            },
    {
        let mut m = Resume::default();
        if m.merge(buf, 0, buf.len(), RECURSION_LIMIT) {
            Ok(m)
        } else {
            Err(DecodeError)
        }
    }

    /// Appends the encoding of `self`.
    pub fn encode_raw(&self, out: &mut Vec<u8>)
        ensures
            final(out)@ == old(out)@ + resume_bytes(*self),
    {
        let ghost before = out@;
        encode_int64_field(out, 1, self.since_ts);
        encode_int64_field(out, 2, self.since_serial);
        assert(out@ =~= before + resume_bytes(*self));
    }

    /// The encoding of `self`.
    pub fn encode_to_vec(&self) -> (r: Vec<u8>)
        ensures
            r@ == resume_bytes(*self),
    {
        let mut out = Vec::new();
        self.encode_raw(&mut out);
        assert(out@ =~= resume_bytes(*self));
        out
    }
}

/// Decoding the encoding of a resume request, placed anywhere in a buffer, from the
/// empty message gives the message back, at any depth.
#[verifier::rlimit(50)]
pub proof fn lemma_resume_roundtrip(buf: Seq<u8>, pos: int, m: Resume, depth: nat)
    requires
        0 <= pos,
        pos + resume_bytes(m).len() <= buf.len(),
        buf.subrange(pos, pos + resume_bytes(m).len()) == resume_bytes(m),
    ensures
        resume_merge(resume_empty(), buf, pos, pos + resume_bytes(m).len(), depth) == Some(m),
{
    let end = pos + resume_bytes(m).len();
    let b1 = int64_bytes(1, m.since_ts);
    let b2 = int64_bytes(2, m.since_serial);
    let a1 = b1;
    let a2 = b1 + b2;
    assert(a2 == resume_bytes(m));
    lemma_window_split(buf, pos, a1, b2);
    let p0 = pos;
    let p1 = pos + a1.len();
    let p2 = pos + a2.len();
    let s0 = Resume { since_ts: None, since_serial: None };
    let s1 = Resume { since_ts: m.since_ts, since_serial: None };
    let s2 = Resume { since_ts: m.since_ts, since_serial: m.since_serial };
    assert(resume_merge(s0, buf, p0, end, depth) == resume_merge(s1, buf, p1, end, depth)) by {
        if let Some(v) = m.since_ts {
            lemma_int64_step(buf, p0, end, 1, v);
        }
    }
    assert(resume_merge(s1, buf, p1, end, depth) == resume_merge(s2, buf, p2, end, depth)) by {
        if let Some(v) = m.since_serial {
            lemma_int64_step(buf, p1, end, 2, v);
        }
    }
    assert(resume_merge(s2, buf, end, end, depth) == Some(m));
}

// ---------------------------------------------------------------- Heartbeat
/// A heartbeat with no field set.
pub open spec fn heartbeat_empty() -> Heartbeat {
    Heartbeat {  }
}
/// Applies the field with number `tag` and wire type `w`, whose value starts
/// at `pos`, to `m`; gives the new message and the position after the field.
pub open spec fn heartbeat_field(m: Heartbeat, tag: u32, w: WireType, buf: Seq<u8>, pos: int, end: int, depth: nat) -> Option<(Heartbeat, int)> {
    match skip_at(buf, w, tag, pos, end, depth) {
        None => None,
        Some(q) => Some((m, q)),
    }
}

/// Merges the fields in `[pos, end)` into `m`.
pub open spec fn heartbeat_merge(m: Heartbeat, buf: Seq<u8>, pos: int, end: int, depth: nat) -> Option<Heartbeat>
    decreases end - pos,
{
    if pos >= end {
        Some(m)
    } else {
        match key_at(buf, pos, end) {
            None => None,
            Some((t, w, p)) => match heartbeat_field(m, t, w, buf, p, end, depth) {
                None => None,
                Some((m2, q)) => if q <= pos || q > end {
                    None
                } else {
                    heartbeat_merge(m2, buf, q, end, depth)
                },
            },
        }
    }
}

/// Decodes a whole buffer as a heartbeat.
pub open spec fn heartbeat_decode(buf: Seq<u8>) -> Option<Heartbeat> {
    heartbeat_merge(heartbeat_empty(), buf, 0, buf.len() as int, RECURSION_LIMIT as nat)
}

/// The encoding of a heartbeat: its present fields in field number order.
pub open spec fn heartbeat_bytes(m: Heartbeat) -> Seq<u8> {
    Seq::empty()
}

impl Default for Heartbeat {
    fn default() -> (r: Heartbeat)
        ensures
            r == heartbeat_empty(),
    {
        Heartbeat {  }
    }
}

impl Heartbeat {
    /// Applies one field to `self` (see [`heartbeat_field`]).
    pub fn merge_field(&mut self, tag: u32, w: WireType, buf: &[u8], pos: usize, end: usize, depth: u32) -> (r: Option<usize>)
        requires
            pos <= end <= buf@.len(),
        ensures
            match heartbeat_field(*old(self), tag, w, buf@, pos as int, end as int, depth as nat) {
                Some((m, q)) => pos <= q <= end && r == Some(q as usize) && *final(self) == m,
                None => r is None,
            },
    {
        proof {
            lemma_read_bounds(buf@, pos as int, end as int);
            lemma_skip_bounds(buf@, w, tag, pos as int, end as int, depth as nat);
        }
        skip_field(buf, w, tag, pos, end, depth)
    }

    /// Merges the fields in `[pos, end)` into `self` (see [`heartbeat_merge`]);
    /// `false` when the window does not hold a well-formed message.
    pub fn merge(&mut self, buf: &[u8], pos: usize, end: usize, depth: u32) -> (ok: bool)
        requires
            pos <= end <= buf@.len(),
        ensures
            match heartbeat_merge(*old(self), buf@, pos as int, end as int, depth as nat) {
                Some(m) => ok && *final(self) == m,
                None => !ok,
            },
    {
        let mut p = pos;
        while p < end
            invariant
                pos <= p <= end <= buf@.len(),
                heartbeat_merge(*old(self), buf@, pos as int, end as int, depth as nat)
                    == heartbeat_merge(*self, buf@, p as int, end as int, depth as nat),
            decreases end - p,
        {
            proof {
                lemma_read_bounds(buf@, p as int, end as int);
            }
            let (t, w, k) = match decode_key(buf, p, end) {
                None => return false,
                Some(x) => x,
            };
            let q = match self.merge_field(t, w, buf, k, end, depth) {
                None => return false,
                Some(q) => q,
            };
            if q <= p || q > end {
                return false;
            }
            p = q;
        }
        true
    }

    /// Decodes a whole buffer as a heartbeat; refused exactly when [`heartbeat_decode`]
    /// refuses it.
    pub fn decode(buf: &[u8]) -> (r: Result<Heartbeat, DecodeError>)
        ensures
            match heartbeat_decode(buf@) {
                Some(m) => r == Ok::<Heartbeat, DecodeError>(m),
                None => r is Err,
            },
    {
        let mut m = Heartbeat::default();
        if m.merge(buf, 0, buf.len(), RECURSION_LIMIT) {
            Ok(m)
        } else {
            Err(DecodeError)
        }
    }

    /// Appends the encoding of `self`.
    pub fn encode_raw(&self, out: &mut Vec<u8>)
        ensures
            final(out)@ == old(out)@ + heartbeat_bytes(*self),
    {
        let ghost before = out@;
        assert(out@ =~= before + heartbeat_bytes(*self));
    }

    /// The encoding of `self`.
    pub fn encode_to_vec(&self) -> (r: Vec<u8>)
        ensures
            r@ == heartbeat_bytes(*self),
    {
        let mut out = Vec::new();
        self.encode_raw(&mut out);
        assert(out@ =~= heartbeat_bytes(*self));
        out
    }
}

/// Decoding the encoding of a heartbeat, placed anywhere in a buffer, from the
/// empty message gives the message back, at any depth.
#[verifier::rlimit(50)]
pub proof fn lemma_heartbeat_roundtrip(buf: Seq<u8>, pos: int, m: Heartbeat, depth: nat)
    requires
        0 <= pos,
        pos + heartbeat_bytes(m).len() <= buf.len(),
        buf.subrange(pos, pos + heartbeat_bytes(m).len()) == heartbeat_bytes(m),
    ensures
        heartbeat_merge(heartbeat_empty(), buf, pos, pos + heartbeat_bytes(m).len(), depth) == Some(m),
{
    let end = pos + heartbeat_bytes(m).len();
    let p0 = pos;
    let s0 = Heartbeat {  };
    assert(heartbeat_merge(s0, buf, end, end, depth) == Some(m));
}

} // verus!
