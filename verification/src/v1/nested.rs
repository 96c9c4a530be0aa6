//! Encoding and decoding of the messages that hold strings, repeated or
//! nested messages: `Symbol`, `QuoteSnapshot`, `MarketEnvelope` and
//! `TransportFrame`.
//!
//! These are described over their views, in which a `String` is its
//! characters and a `Vec` its sequence. A nested message is decoded inside
//! the window its length prefix gives, one nesting level deeper; a second
//! occurrence of a singular nested field is merged into the first, as is a
//! second occurrence of the same oneof member, while another oneof member
//! replaces the one before.
use vstd::prelude::*;
use vstd::utf8::encode_utf8;
use crate::wire::{
    WireType, DecodeError, RECURSION_LIMIT, key_at, skip_at, int64_field, int32_field,
    string_field, message_window, delimited_bytes, int64_bytes, int32_bytes, string_bytes,
    lemma_read_bounds, lemma_skip_bounds, read_int64, read_int32, read_string_field,
    read_message_window, skip_field, decode_key, encode_int64_field, encode_int32_field,
    encode_string_field, encode_delimited_field, lemma_window_split, lemma_int64_step,
    lemma_int32_step, lemma_string_step, lemma_delimited_step, MAX_TAG,
};
use super::leaf::{
    level_empty, level_merge, level_bytes, lemma_level_roundtrip, quote_empty, quote_merge,
    quote_bytes, lemma_quote_roundtrip, tick_empty, tick_merge, tick_bytes, lemma_tick_roundtrip,
    kline_empty, kline_merge, kline_bytes, lemma_kline_roundtrip, heartbeat_empty, heartbeat_merge,
    heartbeat_bytes, lemma_heartbeat_roundtrip, resume_empty, resume_merge, resume_bytes,
    lemma_resume_roundtrip,
};
use super::{Symbol, Level, QuoteSnapshot, Quote, Tick, Kline, Heartbeat, Resume, MarketEnvelope, TransportFrame};
use super::market_envelope;
use super::transport_frame;

verus! {

// ---------------------------------------------------------------- Symbol

/// The view of a [`Symbol`]: its code as characters.
pub struct SymbolView {
    pub market: Option<i32>,
    pub code: Option<Seq<char>>,
}

impl View for Symbol {
    type V = SymbolView;

    open spec fn view(&self) -> SymbolView {
        SymbolView {
            market: self.market,
            code: match self.code {
                Some(s) => Some(s@),
                None => None,
            },
        }
    }
}

/// A symbol with no field set.
pub open spec fn symbol_empty() -> SymbolView {
    SymbolView { market: None, code: None }
}

/// Applies one field to a symbol being decoded.
pub open spec fn symbol_field(m: SymbolView, tag: u32, w: WireType, buf: Seq<u8>, pos: int, end: int, depth: nat) -> Option<(SymbolView, int)> {
    if tag == 1 {
        match int32_field(buf, w, pos, end) {
            None => None,
            Some((v, q)) => Some((SymbolView { market: Some(v), ..m }, q)),
        }
    } else if tag == 2 {
        match string_field(buf, w, pos, end) {
            None => None,
            Some((c, q)) => Some((SymbolView { code: Some(c), ..m }, q)),
        }
    } else {
        match skip_at(buf, w, tag, pos, end, depth) {
            None => None,
            Some(q) => Some((m, q)),
        }
    }
}

/// Merges the fields in `[pos, end)` into a symbol.
pub open spec fn symbol_merge(m: SymbolView, buf: Seq<u8>, pos: int, end: int, depth: nat) -> Option<SymbolView>
    decreases end - pos,
{
    if pos >= end {
        Some(m)
    } else {
        match key_at(buf, pos, end) {
            None => None,
            Some((t, w, p)) => match symbol_field(m, t, w, buf, p, end, depth) {
                None => None,
                Some((m2, q)) => if q <= pos || q > end {
                    None
                } else {
                    symbol_merge(m2, buf, q, end, depth)
                },
            },
        }
    }
}

/// The encoding of a symbol.
pub open spec fn symbol_bytes(m: SymbolView) -> Seq<u8> {
    int32_bytes(1, m.market) + string_bytes(2, m.code)
}

impl Default for Symbol {
    fn default() -> (r: Symbol)
        ensures
            r@ == symbol_empty(),
    {
        Symbol { market: None, code: None }
    }
}

impl Symbol {
    /// Applies one field to `self` (see [`symbol_field`]).
    pub fn merge_field(&mut self, tag: u32, w: WireType, buf: &[u8], pos: usize, end: usize, depth: u32) -> (r: Option<usize>)
        requires
            pos <= end <= buf@.len(),
        ensures
            match symbol_field(old(self)@, tag, w, buf@, pos as int, end as int, depth as nat) {
                Some((m, q)) => pos <= q <= end && r == Some(q as usize) && final(self)@ == m,
                None => r is None,
            },
    {
        proof {
            lemma_read_bounds(buf@, pos as int, end as int);
            lemma_skip_bounds(buf@, w, tag, pos as int, end as int, depth as nat);
        }
        if tag == 1 {
            let (v, q) = match read_int32(buf, w, pos, end) {
                None => return None,
                Some(x) => x,
            };
            self.market = Some(v);
            Some(q)
        } else if tag == 2 {
            let (x, q) = match read_string_field(buf, w, pos, end) {
                None => return None,
                Some(x) => x,
            };
            self.code = Some(x);
            Some(q)
        } else {
            skip_field(buf, w, tag, pos, end, depth)
        }
    }

    /// Merges the fields in `[pos, end)` into `self` (see [`symbol_merge`]).
    pub fn merge(&mut self, buf: &[u8], pos: usize, end: usize, depth: u32) -> (ok: bool)
        requires
            pos <= end <= buf@.len(),
        ensures
            match symbol_merge(old(self)@, buf@, pos as int, end as int, depth as nat) {
                Some(m) => ok && final(self)@ == m,
                None => !ok,
            },
    {
        let mut p = pos;
        while p < end
            invariant
                pos <= p <= end <= buf@.len(),
                symbol_merge(old(self)@, buf@, pos as int, end as int, depth as nat)
                    == symbol_merge(self@, buf@, p as int, end as int, depth as nat),
            decreases end - p,
        {
            proof {
                lemma_read_bounds(buf@, p as int, end as int);
            }
            let (t, w, k) = match decode_key(buf, p, end) {
                None => return false,
                Some(x) => x,
            };
            let q = match self.merge_field(t, w, buf, k, end, depth) {
                None => return false,
                Some(q) => q,
            };
            if q <= p || q > end {
                return false;
            }
            p = q;
        }
        true
    }

    /// Decodes a whole buffer as a symbol.
    pub fn decode(buf: &[u8]) -> (r: Result<Symbol, DecodeError>)
        ensures
            match symbol_merge(symbol_empty(), buf@, 0, buf@.len() as int, RECURSION_LIMIT as nat) {
                Some(m) => r matches Ok(x) && x@ == m,
                None => r is Err,
            },
    {
        let mut m = Symbol::default();
        if m.merge(buf, 0, buf.len(), RECURSION_LIMIT) {
            Ok(m)
        } else {
            Err(DecodeError)
        }
    }

    /// Appends the encoding of `self`.
    pub fn encode_raw(&self, out: &mut Vec<u8>)
        ensures
            final(out)@ == old(out)@ + symbol_bytes(self@),
    {
        let ghost before = out@;
        encode_int32_field(out, 1, self.market);
        encode_string_field(out, 2, &self.code);
        assert(out@ =~= before + symbol_bytes(self@));
    }

    /// The encoding of `self`.
    pub fn encode_to_vec(&self) -> (r: Vec<u8>)
        ensures
            r@ == symbol_bytes(self@),
    {
        let mut out = Vec::new();
        self.encode_raw(&mut out);
        assert(out@ =~= symbol_bytes(self@));
        out
    }
}

/// Decoding the encoding of a symbol from the empty symbol gives it back.
pub proof fn lemma_symbol_roundtrip(buf: Seq<u8>, pos: int, m: SymbolView, depth: nat)
    requires
        0 <= pos,
        pos + symbol_bytes(m).len() <= buf.len(),
        buf.len() < 0x1_0000_0000_0000_0000,
        buf.subrange(pos, pos + symbol_bytes(m).len()) == symbol_bytes(m),
    ensures
        symbol_merge(symbol_empty(), buf, pos, pos + symbol_bytes(m).len(), depth) == Some(m),
{
    let end = pos + symbol_bytes(m).len();
    let b1 = int32_bytes(1, m.market);
    let b2 = string_bytes(2, m.code);
    lemma_window_split(buf, pos, b1, b2);
    let p1 = pos + b1.len();
    let s0 = symbol_empty();
    let s1 = SymbolView { market: m.market, code: None };
    assert(symbol_merge(s0, buf, pos, end, depth) == symbol_merge(s1, buf, p1, end, depth)) by {
        if let Some(v) = m.market {
            lemma_int32_step(buf, pos, end, 1, v);
        }
    }
    assert(symbol_merge(s1, buf, p1, end, depth) == symbol_merge(m, buf, end, end, depth)) by {
        if let Some(c) = m.code {
            lemma_string_step(buf, p1, end, 2, c);
        }
    }
}

// ---------------------------------------------------------------- QuoteSnapshot

/// The view of a [`QuoteSnapshot`]: its sides as sequences.
pub struct QuoteSnapshotView {
    pub ts: Option<i64>,
    pub bids: Seq<Level>,
    pub asks: Seq<Level>,
}

impl View for QuoteSnapshot {
    type V = QuoteSnapshotView;

    open spec fn view(&self) -> QuoteSnapshotView {
        QuoteSnapshotView { ts: self.ts, bids: self.bids@, asks: self.asks@ }
    }
}

/// A snapshot with no field set and no levels.
pub open spec fn snapshot_empty() -> QuoteSnapshotView {
    QuoteSnapshotView { ts: None, bids: Seq::empty(), asks: Seq::empty() }
}

/// A nested level: its window is decoded as a fresh level one level deeper.
pub open spec fn level_in(buf: Seq<u8>, w: WireType, pos: int, end: int, depth: nat) -> Option<(Level, int)> {
    match message_window(buf, w, pos, end, depth) {
        None => None,
        Some((s, e)) => match level_merge(level_empty(), buf, s, e, (depth - 1) as nat) {
            None => None,
            Some(l) => Some((l, e)),
        },
    }
}

/// Applies one field to a snapshot being decoded; a level is appended to its
/// side.
pub open spec fn snapshot_field(m: QuoteSnapshotView, tag: u32, w: WireType, buf: Seq<u8>, pos: int, end: int, depth: nat) -> Option<(QuoteSnapshotView, int)> {
    if tag == 1 {
        match int64_field(buf, w, pos, end) {
            None => None,
            Some((v, q)) => Some((QuoteSnapshotView { ts: Some(v), ..m }, q)),
        }
    } else if tag == 2 {
        match level_in(buf, w, pos, end, depth) {
            None => None,
            Some((l, q)) => Some((QuoteSnapshotView { bids: m.bids.push(l), ..m }, q)),
        }
    } else if tag == 3 {
        match level_in(buf, w, pos, end, depth) {
            None => None,
            Some((l, q)) => Some((QuoteSnapshotView { asks: m.asks.push(l), ..m }, q)),
        }
    } else {
        match skip_at(buf, w, tag, pos, end, depth) {
            None => None,
            Some(q) => Some((m, q)),
        }
    }
}

/// Merges the fields in `[pos, end)` into a snapshot.
pub open spec fn snapshot_merge(m: QuoteSnapshotView, buf: Seq<u8>, pos: int, end: int, depth: nat) -> Option<QuoteSnapshotView>
    decreases end - pos,
{
    if pos >= end {
        Some(m)
    } else {
        match key_at(buf, pos, end) {
            None => None,
            Some((t, w, p)) => match snapshot_field(m, t, w, buf, p, end, depth) {
                None => None,
                Some((m2, q)) => if q <= pos || q > end {
                    None
                } else {
                    snapshot_merge(m2, buf, q, end, depth)
                },
            },
        }
    }
}

/// The encoding of a repeated level field: one length-delimited field per
/// level, in order.
pub open spec fn levels_bytes(tag: u32, s: Seq<Level>) -> Seq<u8>
    decreases s.len(),
{
    if s.len() == 0 {
        Seq::empty()
    } else {
        delimited_bytes(tag, level_bytes(s[0])) + levels_bytes(tag, s.drop_first())
    }
}

/// The encoding of a snapshot.
pub open spec fn snapshot_bytes(m: QuoteSnapshotView) -> Seq<u8> {
    int64_bytes(1, m.ts) + levels_bytes(2, m.bids) + levels_bytes(3, m.asks)
}

/// Appending a level appends its field to the encoding of a repeated field.
pub proof fn lemma_levels_bytes_push(tag: u32, s: Seq<Level>, x: Level)
    ensures
        levels_bytes(tag, s.push(x)) == levels_bytes(tag, s) + delimited_bytes(tag, level_bytes(x)),
    decreases s.len(),
{
    if s.len() == 0 {
        assert(s.push(x).drop_first() =~= Seq::<Level>::empty());
        assert(levels_bytes(tag, s.push(x).drop_first()) == Seq::<u8>::empty());
        assert(s.push(x)[0] == x);
        assert(levels_bytes(tag, s.push(x)) =~= delimited_bytes(tag, level_bytes(x)));
    } else {
        assert(s.push(x).drop_first() =~= s.drop_first().push(x));
        lemma_levels_bytes_push(tag, s.drop_first(), x);
        assert(levels_bytes(tag, s.push(x)) =~= levels_bytes(tag, s) + delimited_bytes(tag, level_bytes(x)));
    }
}

/// Appends a repeated level field.
fn encode_levels(out: &mut Vec<u8>, tag: u32, levels: &Vec<Level>)
    requires
        1 <= tag <= MAX_TAG,
    ensures
        final(out)@ == old(out)@ + levels_bytes(tag, levels@),
{
    let mut i: usize = 0;
    assert(levels_bytes(tag, levels@.take(0)) =~= Seq::<u8>::empty()) by {
        assert(levels@.take(0).len() == 0);
    }
    assert(out@ =~= old(out)@ + levels_bytes(tag, levels@.take(0)));
    while i < levels.len()
        invariant
            1 <= tag <= MAX_TAG,
            i <= levels@.len(),
            out@ == old(out)@ + levels_bytes(tag, levels@.take(i as int)),
        decreases levels@.len() - i,
    {
        let body = levels[i].encode_to_vec();
        let ghost before = out@;
        encode_delimited_field(out, tag, body.as_slice());
        proof {
            assert(levels@.take(i + 1) =~= levels@.take(i as int).push(levels@[i as int]));
            lemma_levels_bytes_push(tag, levels@.take(i as int), levels@[i as int]);
            assert(out@ =~= old(out)@ + levels_bytes(tag, levels@.take(i + 1)));
        }
        i = i + 1;
    }
    assert(levels@.take(levels@.len() as int) =~= levels@);
}

impl Default for QuoteSnapshot {
    fn default() -> (r: QuoteSnapshot)
        ensures
            r@ == snapshot_empty(),
    {
        QuoteSnapshot { ts: None, bids: Vec::new(), asks: Vec::new() }
    }
}

impl QuoteSnapshot {
    /// Applies one field to `self` (see [`snapshot_field`]).
    pub fn merge_field(&mut self, tag: u32, w: WireType, buf: &[u8], pos: usize, end: usize, depth: u32) -> (r: Option<usize>)
        requires
            pos <= end <= buf@.len(),
        ensures
            match snapshot_field(old(self)@, tag, w, buf@, pos as int, end as int, depth as nat) {
                Some((m, q)) => pos <= q <= end && r == Some(q as usize) && final(self)@ == m,
                None => r is None,
            },
    {
        proof {
            lemma_read_bounds(buf@, pos as int, end as int);
            lemma_skip_bounds(buf@, w, tag, pos as int, end as int, depth as nat);
        }
        if tag == 1 {
            let (v, q) = match read_int64(buf, w, pos, end) {
                None => return None,
                Some(x) => x,
            };
            self.ts = Some(v);
            Some(q)
        } else if tag == 2 || tag == 3 {
            let (s, e) = match read_message_window(buf, w, pos, end, depth) {
                None => return None,
                Some(x) => x,
            };
            let mut l = Level::default();
            if !l.merge(buf, s, e, depth - 1) {
                return None;
            }
            if tag == 2 {
                self.bids.push(l);
            } else {
                self.asks.push(l);
            }
            Some(e)
        } else {
            skip_field(buf, w, tag, pos, end, depth)
        }
    }

    /// Merges the fields in `[pos, end)` into `self` (see [`snapshot_merge`]).
    pub fn merge(&mut self, buf: &[u8], pos: usize, end: usize, depth: u32) -> (ok: bool)
        requires
            pos <= end <= buf@.len(),
        ensures
            match snapshot_merge(old(self)@, buf@, pos as int, end as int, depth as nat) {
                Some(m) => ok && final(self)@ == m,
                None => !ok,
            },
    {
        let mut p = pos;
        while p < end
            invariant
                pos <= p <= end <= buf@.len(),
                snapshot_merge(old(self)@, buf@, pos as int, end as int, depth as nat)
                    == snapshot_merge(self@, buf@, p as int, end as int, depth as nat),
            decreases end - p,
        {
            proof {
                lemma_read_bounds(buf@, p as int, end as int);
            }
            let (t, w, k) = match decode_key(buf, p, end) {
                None => return false,
                Some(x) => x,
            };
            let q = match self.merge_field(t, w, buf, k, end, depth) {
                None => return false,
                Some(q) => q,
            };
            if q <= p || q > end {
                return false;
            }
            p = q;
        }
        true
    }

    /// Decodes a whole buffer as a snapshot.
    pub fn decode(buf: &[u8]) -> (r: Result<QuoteSnapshot, DecodeError>)
        ensures
            match snapshot_merge(snapshot_empty(), buf@, 0, buf@.len() as int, RECURSION_LIMIT as nat) {
                Some(m) => r matches Ok(x) && x@ == m,
                None => r is Err,
            },
    {
        let mut m = QuoteSnapshot::default();
        if m.merge(buf, 0, buf.len(), RECURSION_LIMIT) {
            Ok(m)
        } else {
            Err(DecodeError)
        }
    }

    /// Appends the encoding of `self`.
    pub fn encode_raw(&self, out: &mut Vec<u8>)
        ensures
            final(out)@ == old(out)@ + snapshot_bytes(self@),
    {
        let ghost before = out@;
        encode_int64_field(out, 1, self.ts);
        encode_levels(out, 2, &self.bids);
        encode_levels(out, 3, &self.asks);
        assert(out@ =~= before + snapshot_bytes(self@));
    }

    /// The encoding of `self`.
    pub fn encode_to_vec(&self) -> (r: Vec<u8>)
        ensures
            r@ == snapshot_bytes(self@),
    {
        let mut out = Vec::new();
        self.encode_raw(&mut out);
        assert(out@ =~= snapshot_bytes(self@));
        out
    }
}

/// `m` with `levels` appended to the side of field `tag` (2 bids, 3 asks).
pub open spec fn snapshot_extend(m: QuoteSnapshotView, tag: u32, levels: Seq<Level>) -> QuoteSnapshotView {
    if tag == 2 {
        QuoteSnapshotView { bids: m.bids + levels, ..m }
    } else {
        QuoteSnapshotView { asks: m.asks + levels, ..m }
    }
}

/// Decoding the encoding of a repeated level field appends those levels.
pub proof fn lemma_levels_decode(buf: Seq<u8>, p: int, end: int, m: QuoteSnapshotView, tag: u32, levels: Seq<Level>, depth: nat)
    requires
        tag == 2 || tag == 3,
        depth >= 1,
        0 <= p,
        p + levels_bytes(tag, levels).len() <= end <= buf.len(),
        buf.len() < 0x1_0000_0000_0000_0000,
        buf.subrange(p, p + levels_bytes(tag, levels).len()) == levels_bytes(tag, levels),
    ensures
        snapshot_merge(m, buf, p, end, depth)
            == snapshot_merge(snapshot_extend(m, tag, levels), buf, p + levels_bytes(tag, levels).len(), end, depth),
    decreases levels.len(),
{
    if levels.len() == 0 {
        assert(m.bids + levels =~= m.bids);
        assert(m.asks + levels =~= m.asks);
        assert(snapshot_extend(m, tag, levels) == m);
    } else {
        let l0 = levels[0];
        let rest = levels.drop_first();
        let f = delimited_bytes(tag, level_bytes(l0));
        let rb = levels_bytes(tag, rest);
        lemma_window_split(buf, p, f, rb);
        lemma_delimited_step(buf, p, end, tag, level_bytes(l0));
        let k = p + crate::wire::key_bytes(tag, WireType::LengthDelimited).len();
        let s = k + crate::wire::varint_bytes(level_bytes(l0).len() as u64).len();
        let e = s + level_bytes(l0).len();
        lemma_level_roundtrip(buf, s, l0, (depth - 1) as nat);
        assert(level_in(buf, WireType::LengthDelimited, k, end, depth) == Some((l0, e)));
        let m1 = snapshot_extend(m, tag, seq![l0]);
        assert(m1 == if tag == 2 {
            QuoteSnapshotView { bids: m.bids.push(l0), ..m }
        } else {
            QuoteSnapshotView { asks: m.asks.push(l0), ..m }
        }) by {
            assert(m.bids + seq![l0] =~= m.bids.push(l0));
            assert(m.asks + seq![l0] =~= m.asks.push(l0));
        }
        assert(snapshot_merge(m, buf, p, end, depth) == snapshot_merge(m1, buf, p + f.len(), end, depth));
        lemma_levels_decode(buf, p + f.len(), end, m1, tag, rest, depth);
        assert(snapshot_extend(m1, tag, rest) == snapshot_extend(m, tag, levels)) by {
            assert(m.bids.push(l0) + rest =~= m.bids + levels);
            assert(m.asks.push(l0) + rest =~= m.asks + levels);
        }
    }
}

/// Decoding the encoding of a snapshot from the empty snapshot gives it
/// back, at any depth that allows the nested levels.
pub proof fn lemma_snapshot_roundtrip(buf: Seq<u8>, pos: int, m: QuoteSnapshotView, depth: nat)
    requires
        depth >= 1,
        0 <= pos,
        pos + snapshot_bytes(m).len() <= buf.len(),
        buf.len() < 0x1_0000_0000_0000_0000,
        buf.subrange(pos, pos + snapshot_bytes(m).len()) == snapshot_bytes(m),
    ensures
        snapshot_merge(snapshot_empty(), buf, pos, pos + snapshot_bytes(m).len(), depth) == Some(m),
{
    let end = pos + snapshot_bytes(m).len();
    let b1 = int64_bytes(1, m.ts);
    let b2 = levels_bytes(2, m.bids);
    let b3 = levels_bytes(3, m.asks);
    lemma_window_split(buf, pos, b1 + b2, b3);
    lemma_window_split(buf, pos, b1, b2);
    let p1 = pos + b1.len();
    let p2 = p1 + b2.len();
    let s0 = snapshot_empty();
    let s1 = QuoteSnapshotView { ts: m.ts, ..s0 };
    assert(snapshot_merge(s0, buf, pos, end, depth) == snapshot_merge(s1, buf, p1, end, depth)) by {
        if let Some(v) = m.ts {
            lemma_int64_step(buf, pos, end, 1, v);
        }
    }
    lemma_levels_decode(buf, p1, end, s1, 2, m.bids, depth);
    let s2 = snapshot_extend(s1, 2, m.bids);
    lemma_levels_decode(buf, p2, end, s2, 3, m.asks, depth);
    let s3 = snapshot_extend(s2, 3, m.asks);
    assert(s3 == m) by {
        assert(s0.bids + m.bids =~= m.bids);
        assert(s0.asks + m.asks =~= m.asks);
    }
}

// ---------------------------------------------------------------- MarketEnvelope

/// The view of the oneof of a [`MarketEnvelope`].
pub enum EnvelopePayloadView {
    Quote(Quote),
    Tick(Tick),
    Kline(Kline),
    QuoteSnapshot(QuoteSnapshotView),
}

/// The view of a [`MarketEnvelope`].
pub struct MarketEnvelopeView {
    pub symbol: Option<SymbolView>,
    pub payload: Option<EnvelopePayloadView>,
}

impl View for market_envelope::Payload {
    type V = EnvelopePayloadView;

    open spec fn view(&self) -> EnvelopePayloadView {
        match self {
            market_envelope::Payload::Quote(q) => EnvelopePayloadView::Quote(*q),
            market_envelope::Payload::Tick(t) => EnvelopePayloadView::Tick(*t),
            market_envelope::Payload::Kline(k) => EnvelopePayloadView::Kline(*k),
            market_envelope::Payload::QuoteSnapshot(s) => EnvelopePayloadView::QuoteSnapshot(s@),
        }
    }
}

impl View for MarketEnvelope {
    type V = MarketEnvelopeView;

    open spec fn view(&self) -> MarketEnvelopeView {
        MarketEnvelopeView {
            symbol: match self.symbol {
                Some(x) => Some(x@),
                None => None,
            },
            payload: match self.payload {
                Some(x) => Some(x@),
                None => None,
            },
        }
    }
}

/// An envelope with no field set.
pub open spec fn envelope_empty() -> MarketEnvelopeView {
    MarketEnvelopeView { symbol: None, payload: None }
}

/// Applies one field to an envelope being decoded. The symbol is merged
/// into the symbol so far; a payload member is merged into the member so far
/// when it is the same member, and into an empty one otherwise.
pub open spec fn envelope_field(m: MarketEnvelopeView, tag: u32, w: WireType, buf: Seq<u8>, pos: int, end: int, depth: nat) -> Option<(MarketEnvelopeView, int)> {
    if 1 <= tag <= 5 {
        match message_window(buf, w, pos, end, depth) {
            None => None,
            Some((s, e)) => {
                let d = (depth - 1) as nat;
                if tag == 1 {
                    let base = match m.symbol {
                        Some(x) => x,
                        None => symbol_empty(),
                    };
                    match symbol_merge(base, buf, s, e, d) {
                        None => None,
                        Some(x) => Some((MarketEnvelopeView { symbol: Some(x), ..m }, e)),
                    }
                } else if tag == 2 {
                    let base = match m.payload {
                        Some(EnvelopePayloadView::Quote(x)) => x,
                        _ => quote_empty(),
                    };
                    match quote_merge(base, buf, s, e, d) {
                        None => None,
                        Some(x) => Some((MarketEnvelopeView { payload: Some(EnvelopePayloadView::Quote(x)), ..m }, e)),
                    }
                } else if tag == 3 {
                    let base = match m.payload {
                        Some(EnvelopePayloadView::Tick(x)) => x,
                        _ => tick_empty(),
                    };
                    match tick_merge(base, buf, s, e, d) {
                        None => None,
                        Some(x) => Some((MarketEnvelopeView { payload: Some(EnvelopePayloadView::Tick(x)), ..m }, e)),
                    }
                } else if tag == 4 {
                    let base = match m.payload {
                        Some(EnvelopePayloadView::Kline(x)) => x,
                        _ => kline_empty(),
                    };
                    match kline_merge(base, buf, s, e, d) {
                        None => None,
                        Some(x) => Some((MarketEnvelopeView { payload: Some(EnvelopePayloadView::Kline(x)), ..m }, e)),
                    }
                } else {
                    let base = match m.payload {
                        Some(EnvelopePayloadView::QuoteSnapshot(x)) => x,
                        _ => snapshot_empty(),
                    };
                    match snapshot_merge(base, buf, s, e, d) {
                        None => None,
                        Some(x) => Some((MarketEnvelopeView { payload: Some(EnvelopePayloadView::QuoteSnapshot(x)), ..m }, e)),
                    }
                }
            },
        }
    } else {
        match skip_at(buf, w, tag, pos, end, depth) {
            None => None,
            Some(q) => Some((m, q)),
        }
    }
}

/// Merges the fields in `[pos, end)` into an envelope.
pub open spec fn envelope_merge(m: MarketEnvelopeView, buf: Seq<u8>, pos: int, end: int, depth: nat) -> Option<MarketEnvelopeView>
    decreases end - pos,
{
    if pos >= end {
        Some(m)
    } else {
        match key_at(buf, pos, end) {
            None => None,
            Some((t, w, p)) => match envelope_field(m, t, w, buf, p, end, depth) {
                None => None,
                Some((m2, q)) => if q <= pos || q > end {
                    None
                } else {
                    envelope_merge(m2, buf, q, end, depth)
                },
            },
        }
    }
}

/// The encoding of the symbol field of an envelope.
pub open spec fn envelope_symbol_bytes(o: Option<SymbolView>) -> Seq<u8> {
    match o {
        None => Seq::empty(),
        Some(x) => delimited_bytes(1, symbol_bytes(x)),
    }
}

/// The encoding of the payload member of an envelope.
pub open spec fn envelope_payload_bytes(o: Option<EnvelopePayloadView>) -> Seq<u8> {
    match o {
        None => Seq::empty(),
        Some(EnvelopePayloadView::Quote(x)) => delimited_bytes(2, quote_bytes(x)),
        Some(EnvelopePayloadView::Tick(x)) => delimited_bytes(3, tick_bytes(x)),
        Some(EnvelopePayloadView::Kline(x)) => delimited_bytes(4, kline_bytes(x)),
        Some(EnvelopePayloadView::QuoteSnapshot(x)) => delimited_bytes(5, snapshot_bytes(x)),
    }
}

/// The encoding of an envelope: the symbol, then the payload member.
pub open spec fn envelope_bytes(m: MarketEnvelopeView) -> Seq<u8> {
    envelope_symbol_bytes(m.symbol) + envelope_payload_bytes(m.payload)
}

impl Default for MarketEnvelope {
    fn default() -> (r: MarketEnvelope)
        ensures
            r@ == envelope_empty(),
    {
        MarketEnvelope { symbol: None, payload: None }
    }
}

impl MarketEnvelope {
    /// Applies one field to `self` (see [`envelope_field`]).
    pub fn merge_field(&mut self, tag: u32, w: WireType, buf: &[u8], pos: usize, end: usize, depth: u32) -> (r: Option<usize>)
        requires
            pos <= end <= buf@.len(),
        ensures
            match envelope_field(old(self)@, tag, w, buf@, pos as int, end as int, depth as nat) {
                Some((m, q)) => pos <= q <= end && r == Some(q as usize) && final(self)@ == m,
                None => r is None,
            },
    {
        proof {
            lemma_read_bounds(buf@, pos as int, end as int);
            lemma_skip_bounds(buf@, w, tag, pos as int, end as int, depth as nat);
        }
        if tag < 1 || tag > 5 {
            return skip_field(buf, w, tag, pos, end, depth);
        }
        let (s, e) = match read_message_window(buf, w, pos, end, depth) {
            None => return None,
            Some(x) => x,
        };
        if tag == 1 {
            let mut base = match self.symbol.take() {
                Some(x) => x,
                None => Symbol::default(),
            };
            if !base.merge(buf, s, e, depth - 1) {
                return None;
            }
            self.symbol = Some(base);
        } else if tag == 2 {
            let mut base = match self.payload.take() {
                Some(market_envelope::Payload::Quote(x)) => x,
                _ => Quote::default(),
            };
            if !base.merge(buf, s, e, depth - 1) {
                return None;
            }
            self.payload = Some(market_envelope::Payload::Quote(base));
        } else if tag == 3 {
            let mut base = match self.payload.take() {
                Some(market_envelope::Payload::Tick(x)) => x,
                _ => Tick::default(),
            };
            if !base.merge(buf, s, e, depth - 1) {
                return None;
            }
            self.payload = Some(market_envelope::Payload::Tick(base));
        } else if tag == 4 {
            let mut base = match self.payload.take() {
                Some(market_envelope::Payload::Kline(x)) => x,
                _ => Kline::default(),
            };
            if !base.merge(buf, s, e, depth - 1) {
                return None;
            }
            self.payload = Some(market_envelope::Payload::Kline(base));
        } else {
            let mut base = match self.payload.take() {
                Some(market_envelope::Payload::QuoteSnapshot(x)) => x,
                _ => QuoteSnapshot::default(),
            };
            if !base.merge(buf, s, e, depth - 1) {
                return None;
            }
            self.payload = Some(market_envelope::Payload::QuoteSnapshot(base));
        }
        Some(e)
    }

    /// Merges the fields in `[pos, end)` into `self` (see [`envelope_merge`]).
    pub fn merge(&mut self, buf: &[u8], pos: usize, end: usize, depth: u32) -> (ok: bool)
        requires
            pos <= end <= buf@.len(),
        ensures
            match envelope_merge(old(self)@, buf@, pos as int, end as int, depth as nat) {
                Some(m) => ok && final(self)@ == m,
                None => !ok,
            },
    {
        let mut p = pos;
        while p < end
            invariant
                pos <= p <= end <= buf@.len(),
                envelope_merge(old(self)@, buf@, pos as int, end as int, depth as nat)
                    == envelope_merge(self@, buf@, p as int, end as int, depth as nat),
            decreases end - p,
        {
            proof {
                lemma_read_bounds(buf@, p as int, end as int);
            }
            let (t, w, k) = match decode_key(buf, p, end) {
                None => return false,
                Some(x) => x,
            };
            let q = match self.merge_field(t, w, buf, k, end, depth) {
                None => return false,
                Some(q) => q,
            };
            if q <= p || q > end {
                return false;
            }
            p = q;
        }
        true
    }

    /// Decodes a whole buffer as an envelope.
    pub fn decode(buf: &[u8]) -> (r: Result<MarketEnvelope, DecodeError>)
        ensures
            match envelope_merge(envelope_empty(), buf@, 0, buf@.len() as int, RECURSION_LIMIT as nat) {
                Some(m) => r matches Ok(x) && x@ == m,
                None => r is Err,
            },
    {
        let mut m = MarketEnvelope::default();
        if m.merge(buf, 0, buf.len(), RECURSION_LIMIT) {
            Ok(m)
        } else {
            Err(DecodeError)
        }
    }

    /// Appends the encoding of `self`.
    pub fn encode_raw(&self, out: &mut Vec<u8>)
        ensures
            final(out)@ == old(out)@ + envelope_bytes(self@),
    {
        let ghost before = out@;
        match &self.symbol {
            Some(x) => {
                let body = x.encode_to_vec();
                encode_delimited_field(out, 1, body.as_slice());
            },
            None => {},
        }
        assert(out@ =~= before + envelope_symbol_bytes(self@.symbol));
        let ghost mid = out@;
        match &self.payload {
            Some(market_envelope::Payload::Quote(x)) => {
                let body = x.encode_to_vec();
                encode_delimited_field(out, 2, body.as_slice());
            },
            Some(market_envelope::Payload::Tick(x)) => {
                let body = x.encode_to_vec();
                encode_delimited_field(out, 3, body.as_slice());
            },
            Some(market_envelope::Payload::Kline(x)) => {
                let body = x.encode_to_vec();
                encode_delimited_field(out, 4, body.as_slice());
            },
            Some(market_envelope::Payload::QuoteSnapshot(x)) => {
                let body = x.encode_to_vec();
                encode_delimited_field(out, 5, body.as_slice());
            },
            None => {},
        }
        assert(out@ =~= mid + envelope_payload_bytes(self@.payload));
        assert(out@ =~= before + envelope_bytes(self@));
    }

    /// The encoding of `self`.
    pub fn encode_to_vec(&self) -> (r: Vec<u8>)
        ensures
            r@ == envelope_bytes(self@),
    {
        let mut out = Vec::new();
        self.encode_raw(&mut out);
        assert(out@ =~= envelope_bytes(self@));
        out
    }
}

/// Decoding the encoding of an envelope from the empty envelope gives it
/// back, at any depth that allows its nested messages.
#[verifier::rlimit(50)]
pub proof fn lemma_envelope_roundtrip(buf: Seq<u8>, pos: int, m: MarketEnvelopeView, depth: nat)
    requires
        depth >= 2,
        0 <= pos,
        pos + envelope_bytes(m).len() <= buf.len(),
        buf.len() < 0x1_0000_0000_0000_0000,
        buf.subrange(pos, pos + envelope_bytes(m).len()) == envelope_bytes(m),
    ensures
        envelope_merge(envelope_empty(), buf, pos, pos + envelope_bytes(m).len(), depth) == Some(m),
{
    let end = pos + envelope_bytes(m).len();
    let b1 = envelope_symbol_bytes(m.symbol);
    let b2 = envelope_payload_bytes(m.payload);
    lemma_window_split(buf, pos, b1, b2);
    let p1 = pos + b1.len();
    let s0 = envelope_empty();
    let s1 = MarketEnvelopeView { symbol: m.symbol, payload: None };
    let d = (depth - 1) as nat;
    assert(envelope_merge(s0, buf, pos, end, depth) == envelope_merge(s1, buf, p1, end, depth)) by {
        if let Some(x) = m.symbol {
            lemma_delimited_step(buf, pos, end, 1, symbol_bytes(x));
            let k = pos + crate::wire::key_bytes(1, WireType::LengthDelimited).len();
            let st = k + crate::wire::varint_bytes(symbol_bytes(x).len() as u64).len();
            lemma_symbol_roundtrip(buf, st, x, d);
        }
    }
    assert(envelope_merge(s1, buf, p1, end, depth) == envelope_merge(m, buf, end, end, depth)) by {
        match m.payload {
            None => {},
            Some(EnvelopePayloadView::Quote(x)) => {
                lemma_delimited_step(buf, p1, end, 2, quote_bytes(x));
                let k = p1 + crate::wire::key_bytes(2, WireType::LengthDelimited).len();
                let st = k + crate::wire::varint_bytes(quote_bytes(x).len() as u64).len();
                lemma_quote_roundtrip(buf, st, x, d);
            },
            Some(EnvelopePayloadView::Tick(x)) => {
                lemma_delimited_step(buf, p1, end, 3, tick_bytes(x));
                let k = p1 + crate::wire::key_bytes(3, WireType::LengthDelimited).len();
                let st = k + crate::wire::varint_bytes(tick_bytes(x).len() as u64).len();
                lemma_tick_roundtrip(buf, st, x, d);
            },
            Some(EnvelopePayloadView::Kline(x)) => {
                lemma_delimited_step(buf, p1, end, 4, kline_bytes(x));
                let k = p1 + crate::wire::key_bytes(4, WireType::LengthDelimited).len();
                let st = k + crate::wire::varint_bytes(kline_bytes(x).len() as u64).len();
                lemma_kline_roundtrip(buf, st, x, d);
            },
            Some(EnvelopePayloadView::QuoteSnapshot(x)) => {
                lemma_delimited_step(buf, p1, end, 5, snapshot_bytes(x));
                let k = p1 + crate::wire::key_bytes(5, WireType::LengthDelimited).len();
                let st = k + crate::wire::varint_bytes(snapshot_bytes(x).len() as u64).len();
                lemma_snapshot_roundtrip(buf, st, x, d);
            },
        }
    }
}

// ---------------------------------------------------------------- TransportFrame

/// The view of the oneof of a [`TransportFrame`].
pub enum FramePayloadView {
    Market(MarketEnvelopeView),
    Heartbeat(Heartbeat),
    Resume(Resume),
}

/// The view of a [`TransportFrame`].
pub struct TransportFrameView {
    pub payload: Option<FramePayloadView>,
}

impl View for transport_frame::Payload {
    type V = FramePayloadView;

    open spec fn view(&self) -> FramePayloadView {
        match self {
            transport_frame::Payload::Market(x) => FramePayloadView::Market(x@),
            transport_frame::Payload::Heartbeat(x) => FramePayloadView::Heartbeat(*x),
            transport_frame::Payload::Resume(x) => FramePayloadView::Resume(*x),
        }
    }
}

impl View for TransportFrame {
    type V = TransportFrameView;

    open spec fn view(&self) -> TransportFrameView {
        TransportFrameView {
            payload: match self.payload {
                Some(x) => Some(x@),
                None => None,
            },
        }
    }
}

/// A frame with no payload.
pub open spec fn frame_empty() -> TransportFrameView {
    TransportFrameView { payload: None }
}

/// Applies one field to a frame being decoded; a payload member is merged
/// into the member so far when it is the same member, and into an empty one
/// otherwise.
pub open spec fn frame_field(m: TransportFrameView, tag: u32, w: WireType, buf: Seq<u8>, pos: int, end: int, depth: nat) -> Option<(TransportFrameView, int)> {
    if 1 <= tag <= 3 {
        match message_window(buf, w, pos, end, depth) {
            None => None,
            Some((s, e)) => {
                let d = (depth - 1) as nat;
                if tag == 1 {
                    let base = match m.payload {
                        Some(FramePayloadView::Market(x)) => x,
                        _ => envelope_empty(),
                    };
                    match envelope_merge(base, buf, s, e, d) {
                        None => None,
                        Some(x) => Some((TransportFrameView { payload: Some(FramePayloadView::Market(x)) }, e)),
                    }
                } else if tag == 2 {
                    let base = match m.payload {
                        Some(FramePayloadView::Heartbeat(x)) => x,
                        _ => heartbeat_empty(),
                    };
                    match heartbeat_merge(base, buf, s, e, d) {
                        None => None,
                        Some(x) => Some((TransportFrameView { payload: Some(FramePayloadView::Heartbeat(x)) }, e)),
                    }
                } else {
                    let base = match m.payload {
                        Some(FramePayloadView::Resume(x)) => x,
                        _ => resume_empty(),
                    };
                    match resume_merge(base, buf, s, e, d) {
                        None => None,
                        Some(x) => Some((TransportFrameView { payload: Some(FramePayloadView::Resume(x)) }, e)),
                    }
                }
            },
        }
    } else {
        match skip_at(buf, w, tag, pos, end, depth) {
            None => None,
            Some(q) => Some((m, q)),
        }
    }
}

/// Merges the fields in `[pos, end)` into a frame.
pub open spec fn frame_merge(m: TransportFrameView, buf: Seq<u8>, pos: int, end: int, depth: nat) -> Option<TransportFrameView>
    decreases end - pos,
{
    if pos >= end {
        Some(m)
    } else {
        match key_at(buf, pos, end) {
            None => None,
            Some((t, w, p)) => match frame_field(m, t, w, buf, p, end, depth) {
                None => None,
                Some((m2, q)) => if q <= pos || q > end {
                    None
                } else {
                    frame_merge(m2, buf, q, end, depth)
                },
            },
        }
    }
}

/// What decoding a whole buffer as a frame gives: the frame, or `None` when
/// the bytes are not a well-formed frame.
pub open spec fn frame_decode(buf: Seq<u8>) -> Option<TransportFrameView> {
    frame_merge(frame_empty(), buf, 0, buf.len() as int, RECURSION_LIMIT as nat)
}

/// The encoding of a frame: its payload member, if any.
pub open spec fn frame_bytes(m: TransportFrameView) -> Seq<u8> {
    match m.payload {
        None => Seq::empty(),
        Some(FramePayloadView::Market(x)) => delimited_bytes(1, envelope_bytes(x)),
        Some(FramePayloadView::Heartbeat(x)) => delimited_bytes(2, heartbeat_bytes(x)),
        Some(FramePayloadView::Resume(x)) => delimited_bytes(3, resume_bytes(x)),
    }
}

impl Default for TransportFrame {
    fn default() -> (r: TransportFrame)
        ensures
            r@ == frame_empty(),
    {
        TransportFrame { payload: None }
    }
}

impl TransportFrame {
    /// Applies one field to `self` (see [`frame_field`]).
    pub fn merge_field(&mut self, tag: u32, w: WireType, buf: &[u8], pos: usize, end: usize, depth: u32) -> (r: Option<usize>)
        requires
            pos <= end <= buf@.len(),
        ensures
            match frame_field(old(self)@, tag, w, buf@, pos as int, end as int, depth as nat) {
                Some((m, q)) => pos <= q <= end && r == Some(q as usize) && final(self)@ == m,
                None => r is None,
            },
    {
        proof {
            lemma_read_bounds(buf@, pos as int, end as int);
            lemma_skip_bounds(buf@, w, tag, pos as int, end as int, depth as nat);
        }
        if tag < 1 || tag > 3 {
            return skip_field(buf, w, tag, pos, end, depth);
        }
        let (s, e) = match read_message_window(buf, w, pos, end, depth) {
            None => return None,
            Some(x) => x,
        };
        if tag == 1 {
            let mut base = match self.payload.take() {
                Some(transport_frame::Payload::Market(x)) => x,
                _ => MarketEnvelope::default(),
            };
            if !base.merge(buf, s, e, depth - 1) {
                return None;
            }
            self.payload = Some(transport_frame::Payload::Market(base));
        } else if tag == 2 {
            let mut base = match self.payload.take() {
                Some(transport_frame::Payload::Heartbeat(x)) => x,
                _ => Heartbeat::default(),
            };
            if !base.merge(buf, s, e, depth - 1) {
                return None;
            }
            self.payload = Some(transport_frame::Payload::Heartbeat(base));
        } else {
            let mut base = match self.payload.take() {
                Some(transport_frame::Payload::Resume(x)) => x,
                _ => Resume::default(),
            };
            if !base.merge(buf, s, e, depth - 1) {
                return None;
            }
            self.payload = Some(transport_frame::Payload::Resume(base));
        }
        Some(e)
    }

    /// Merges the fields in `[pos, end)` into `self` (see [`frame_merge`]).
    pub fn merge(&mut self, buf: &[u8], pos: usize, end: usize, depth: u32) -> (ok: bool)
        requires
            pos <= end <= buf@.len(),
        ensures
            match frame_merge(old(self)@, buf@, pos as int, end as int, depth as nat) {
                Some(m) => ok && final(self)@ == m,
                None => !ok,
            },
    {
        let mut p = pos;
        while p < end
            invariant
                pos <= p <= end <= buf@.len(),
                frame_merge(old(self)@, buf@, pos as int, end as int, depth as nat)
                    == frame_merge(self@, buf@, p as int, end as int, depth as nat),
            decreases end - p,
        {
            proof {
                lemma_read_bounds(buf@, p as int, end as int);
            }
            let (t, w, k) = match decode_key(buf, p, end) {
                None => return false,
                Some(x) => x,
            };
            let q = match self.merge_field(t, w, buf, k, end, depth) {
                None => return false,
                Some(q) => q,
            };
            if q <= p || q > end {
                return false;
            }
            p = q;
        }
        true
    }

    /// Decodes a whole buffer as a frame: `Ok` exactly when [`frame_decode`]
    /// gives a frame, and then that frame.
    pub fn decode(buf: &[u8]) -> (r: Result<TransportFrame, DecodeError>)
        ensures
            match frame_decode(buf@) {
                Some(m) => r matches Ok(x) && x@ == m,
                None => r is Err,
            },
    {
        let mut m = TransportFrame::default();
        if m.merge(buf, 0, buf.len(), RECURSION_LIMIT) {
            Ok(m)
        } else {
            Err(DecodeError)
        }
    }

    /// Appends the encoding of `self`.
    pub fn encode_raw(&self, out: &mut Vec<u8>)
        ensures
            final(out)@ == old(out)@ + frame_bytes(self@),
    {
        let ghost before = out@;
        match &self.payload {
            Some(transport_frame::Payload::Market(x)) => {
                let body = x.encode_to_vec();
                encode_delimited_field(out, 1, body.as_slice());
            },
            Some(transport_frame::Payload::Heartbeat(x)) => {
                let body = x.encode_to_vec();
                encode_delimited_field(out, 2, body.as_slice());
            },
            Some(transport_frame::Payload::Resume(x)) => {
                let body = x.encode_to_vec();
                encode_delimited_field(out, 3, body.as_slice());
            },
            None => {},
        }
        assert(out@ =~= before + frame_bytes(self@));
    }

    /// The encoding of `self`.
    pub fn encode_to_vec(&self) -> (r: Vec<u8>)
        ensures
            r@ == frame_bytes(self@),
    {
        let mut out = Vec::new();
        self.encode_raw(&mut out);
        assert(out@ =~= frame_bytes(self@));
        out
    }
}

/// Decoding the encoding of a frame from the empty frame gives it back, at
/// any depth that allows its nested messages.
pub proof fn lemma_frame_roundtrip(buf: Seq<u8>, pos: int, m: TransportFrameView, depth: nat)
    requires
        depth >= 3,
        0 <= pos,
        pos + frame_bytes(m).len() <= buf.len(),
        buf.len() < 0x1_0000_0000_0000_0000,
        buf.subrange(pos, pos + frame_bytes(m).len()) == frame_bytes(m),
    ensures
        frame_merge(frame_empty(), buf, pos, pos + frame_bytes(m).len(), depth) == Some(m),
{
    let end = pos + frame_bytes(m).len();
    let d = (depth - 1) as nat;
    match m.payload {
        None => {},
        Some(FramePayloadView::Market(x)) => {
            lemma_delimited_step(buf, pos, end, 1, envelope_bytes(x));
            let k = pos + crate::wire::key_bytes(1, WireType::LengthDelimited).len();
            let st = k + crate::wire::varint_bytes(envelope_bytes(x).len() as u64).len();
            lemma_envelope_roundtrip(buf, st, x, d);
            assert(frame_merge(frame_empty(), buf, pos, end, depth) == frame_merge(m, buf, end, end, depth));
        },
        Some(FramePayloadView::Heartbeat(x)) => {
            lemma_delimited_step(buf, pos, end, 2, heartbeat_bytes(x));
            let k = pos + crate::wire::key_bytes(2, WireType::LengthDelimited).len();
            let st = k + crate::wire::varint_bytes(heartbeat_bytes(x).len() as u64).len();
            lemma_heartbeat_roundtrip(buf, st, x, d);
            assert(frame_merge(frame_empty(), buf, pos, end, depth) == frame_merge(m, buf, end, end, depth));
        },
        Some(FramePayloadView::Resume(x)) => {
            lemma_delimited_step(buf, pos, end, 3, resume_bytes(x));
            let k = pos + crate::wire::key_bytes(3, WireType::LengthDelimited).len();
            let st = k + crate::wire::varint_bytes(resume_bytes(x).len() as u64).len();
            lemma_resume_roundtrip(buf, st, x, d);
            assert(frame_merge(frame_empty(), buf, pos, end, depth) == frame_merge(m, buf, end, end, depth));
        },
    }
}

/// Round trip: decoding the encoding of any frame gives that frame back.
/// (The encoding must fit in memory, as every encoding a program holds does.)
pub proof fn law_frame_roundtrip(m: TransportFrameView)
    requires
        frame_bytes(m).len() <= usize::MAX,
    ensures
        frame_decode(frame_bytes(m)) == Some(m),
{
    let b = frame_bytes(m);
    assert(b.subrange(0, b.len() as int) =~= b);
    lemma_frame_roundtrip(b, 0, m, RECURSION_LIMIT as nat);
}

/// Forward compatibility: a varint field whose number the frame does not
/// know, placed before the encoding of a frame, is skipped and the frame is
/// read as if it were not there.
pub proof fn law_unknown_varint_field_skipped(m: TransportFrameView, tag: u32, v: u64)
    requires
        4 <= tag <= MAX_TAG,
        (crate::wire::key_bytes(tag, WireType::Varint) + crate::wire::varint_bytes(v) + frame_bytes(m)).len() <= usize::MAX,
    ensures
        frame_decode(crate::wire::key_bytes(tag, WireType::Varint) + crate::wire::varint_bytes(v) + frame_bytes(m)) == Some(m),
{
    let kb = crate::wire::key_bytes(tag, WireType::Varint);
    let vb = crate::wire::varint_bytes(v);
    let fb = frame_bytes(m);
    let buf = kb + vb + fb;
    let end = buf.len() as int;
    assert(buf.subrange(0, end) =~= buf);
    lemma_window_split(buf, 0, kb + vb, fb);
    lemma_window_split(buf, 0, kb, vb);
    crate::wire::lemma_key_roundtrip(buf, 0, end, tag, WireType::Varint);
    crate::wire::lemma_varint_roundtrip(buf, kb.len() as int, end, v);
    let u = (kb + vb).len() as int;
    assert(frame_field(frame_empty(), tag, WireType::Varint, buf, kb.len() as int, end, RECURSION_LIMIT as nat)
        == Some((frame_empty(), u)));
    lemma_frame_roundtrip(buf, u, m, RECURSION_LIMIT as nat);
}

/// Forward compatibility: a length-delimited field whose number the frame
/// does not know, placed before the encoding of a frame, is skipped whatever
/// its payload.
pub proof fn law_unknown_delimited_field_skipped(m: TransportFrameView, tag: u32, payload: Seq<u8>)
    requires
        4 <= tag <= MAX_TAG,
        (delimited_bytes(tag, payload) + frame_bytes(m)).len() <= usize::MAX,
    ensures
        frame_decode(delimited_bytes(tag, payload) + frame_bytes(m)) == Some(m),
{
    let db = delimited_bytes(tag, payload);
    let fb = frame_bytes(m);
    let buf = db + fb;
    let end = buf.len() as int;
    assert(buf.subrange(0, end) =~= buf);
    lemma_window_split(buf, 0, db, fb);
    lemma_delimited_step(buf, 0, end, tag, payload);
    let k = crate::wire::key_bytes(tag, WireType::LengthDelimited).len() as int;
    assert(frame_field(frame_empty(), tag, WireType::LengthDelimited, buf, k, end, RECURSION_LIMIT as nat)
        == Some((frame_empty(), db.len() as int)));
    lemma_frame_roundtrip(buf, db.len() as int, m, RECURSION_LIMIT as nat);
}

/// A varint whose bytes, from `pos + i` to the end of the window, all have
/// the continuation bit set does not decode.
proof fn lemma_unterminated_varint(buf: Seq<u8>, pos: int, end: int, i: nat, acc: int)
    requires
        0 <= pos,
        end <= buf.len(),
        forall|j: int| pos + i <= j < end ==> buf[j] >= 128,
    ensures
        crate::wire::varint_from(buf, pos, end, i, acc) is None,
    decreases 10 - i,
{
    if !(i >= 10 || pos + i >= end) {
        lemma_unterminated_varint(buf, pos, end, i + 1, acc + (buf[pos + i] % 128) * crate::wire::pow128(i));
    }
}

/// Malformed input is refused: a non-empty byte string in which every byte
/// has its continuation bit set (a varint that never ends, such as the single
/// byte `0x80`) is not a frame.
pub proof fn law_unterminated_input_refused(buf: Seq<u8>)
    requires
        buf.len() > 0,
        forall|j: int| 0 <= j < buf.len() ==> buf[j] >= 128,
    ensures
        frame_decode(buf) is None,
{
    lemma_unterminated_varint(buf, 0, buf.len() as int, 0, 0);
}

} // verus!
