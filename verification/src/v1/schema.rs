//! The schema of `market_protocol.v1`, field by field: for every field of
//! every message, the key byte it is written under and the member of the
//! Rust type it is read into, and the number of every variant of the two
//! enums. These laws pin the field numbers of the
//! published schema (see the table in the module documentation of `v1`)
//! independently of the round trip, which would hold under any numbering.
use vstd::prelude::*;
use vstd::bytes::spec_u64_to_le_bytes;
use crate::wire::{
    WireType, RECURSION_LIMIT, key_bytes, varint_bytes, double_bytes, int64_bytes, uint32_bytes,
    int32_bytes, lemma_double_step, lemma_int64_step, lemma_uint32_step, lemma_int32_step,
    delimited_bytes, string_bytes, lemma_delimited_step, lemma_string_step,
};
use super::leaf::{
    level_empty, level_merge, level_bytes, level_decode, quote_empty, quote_merge, quote_bytes,
    quote_decode, tick_empty, tick_merge, tick_bytes, tick_decode, kline_empty, kline_merge,
    kline_bytes, kline_decode, resume_empty, resume_merge, resume_bytes, resume_decode,
};
use super::{Level, Quote, Tick, Kline, Resume, Market, Period, market_of, period_of};
use super::leaf::{heartbeat_bytes, lemma_heartbeat_roundtrip, lemma_level_roundtrip, lemma_quote_roundtrip,
    lemma_tick_roundtrip, lemma_kline_roundtrip, lemma_resume_roundtrip};
use super::nested::{
    SymbolView, QuoteSnapshotView, MarketEnvelopeView, EnvelopePayloadView, TransportFrameView,
    FramePayloadView, symbol_empty, symbol_merge, symbol_bytes, lemma_symbol_roundtrip, snapshot_empty,
    snapshot_merge, snapshot_bytes, levels_bytes, lemma_snapshot_roundtrip, envelope_empty,
    envelope_merge, envelope_bytes, lemma_envelope_roundtrip, frame_empty, frame_merge, frame_bytes,
};
use super::Heartbeat;
use vstd::utf8::encode_utf8;
use vstd::bytes::lemma_auto_spec_u64_to_from_le_bytes;

verus! {

/// Schema: field 1 of `Level` is `price`, a `double`: the eight little-endian bytes of the value, under key byte
/// `0x09`. Such a field alone decodes to a level with only `price` set,
/// and a level with only `price` set encodes to exactly that field.
pub proof fn law_level_field_1_is_price(v: u64)
    ensures
        level_decode(seq![0x09u8] + spec_u64_to_le_bytes(v)) == Some(Level { price: Some(v), ..level_empty() }),
        level_bytes(Level { price: Some(v), ..level_empty() }) == seq![0x09u8] + spec_u64_to_le_bytes(v),
{
    let buf = seq![0x09u8] + spec_u64_to_le_bytes(v);
    let end = buf.len() as int;
    let m = Level { price: Some(v), ..level_empty() };
    assert(key_bytes(1, WireType::SixtyFourBit) == seq![0x09u8]);
    assert(double_bytes(1, Some(v)) == buf);
    assert(buf.subrange(0, end) =~= buf);
    lemma_double_step(buf, 0, end, 1, v);
    assert(level_merge(m, buf, end, end, RECURSION_LIMIT as nat) == Some(m));
    assert(level_bytes(m) =~= buf);
}

/// Schema: field 2 of `Level` is `volume`, a `double`: the eight little-endian bytes of the value, under key byte
/// `0x11`. Such a field alone decodes to a level with only `volume` set,
/// and a level with only `volume` set encodes to exactly that field.
pub proof fn law_level_field_2_is_volume(v: u64)
    ensures
        level_decode(seq![0x11u8] + spec_u64_to_le_bytes(v)) == Some(Level { volume: Some(v), ..level_empty() }),
        level_bytes(Level { volume: Some(v), ..level_empty() }) == seq![0x11u8] + spec_u64_to_le_bytes(v),
{
    let buf = seq![0x11u8] + spec_u64_to_le_bytes(v);
    let end = buf.len() as int;
    let m = Level { volume: Some(v), ..level_empty() };
    assert(key_bytes(2, WireType::SixtyFourBit) == seq![0x11u8]);
    assert(double_bytes(2, Some(v)) == buf);
    assert(buf.subrange(0, end) =~= buf);
    lemma_double_step(buf, 0, end, 2, v);
    assert(level_merge(m, buf, end, end, RECURSION_LIMIT as nat) == Some(m));
    assert(level_bytes(m) =~= buf);
}

/// Schema: field 1 of `Quote` is `ts`, an `int64` varint, under key byte
/// `0x08`. Such a field alone decodes to a quote with only `ts` set,
/// and a quote with only `ts` set encodes to exactly that field.
pub proof fn law_quote_field_1_is_ts(v: i64)
    ensures
        quote_decode(seq![0x08u8] + varint_bytes(v as u64)) == Some(Quote { ts: Some(v), ..quote_empty() }),
        quote_bytes(Quote { ts: Some(v), ..quote_empty() }) == seq![0x08u8] + varint_bytes(v as u64),
{
    let buf = seq![0x08u8] + varint_bytes(v as u64);
    let end = buf.len() as int;
    let m = Quote { ts: Some(v), ..quote_empty() };
    assert(key_bytes(1, WireType::Varint) == seq![0x08u8]);
    assert(int64_bytes(1, Some(v)) == buf);
    assert(buf.subrange(0, end) =~= buf);
    lemma_int64_step(buf, 0, end, 1, v);
    assert(quote_merge(m, buf, end, end, RECURSION_LIMIT as nat) == Some(m));
    assert(quote_bytes(m) =~= buf);
}

/// Schema: field 2 of `Quote` is `price`, a `double`: the eight little-endian bytes of the value, under key byte
/// `0x11`. Such a field alone decodes to a quote with only `price` set,
/// and a quote with only `price` set encodes to exactly that field.
pub proof fn law_quote_field_2_is_price(v: u64)
    ensures
        quote_decode(seq![0x11u8] + spec_u64_to_le_bytes(v)) == Some(Quote { price: Some(v), ..quote_empty() }),
        quote_bytes(Quote { price: Some(v), ..quote_empty() }) == seq![0x11u8] + spec_u64_to_le_bytes(v),
{
    let buf = seq![0x11u8] + spec_u64_to_le_bytes(v);
    let end = buf.len() as int;
    let m = Quote { price: Some(v), ..quote_empty() };
    assert(key_bytes(2, WireType::SixtyFourBit) == seq![0x11u8]);
    assert(double_bytes(2, Some(v)) == buf);
    assert(buf.subrange(0, end) =~= buf);
    lemma_double_step(buf, 0, end, 2, v);
    assert(quote_merge(m, buf, end, end, RECURSION_LIMIT as nat) == Some(m));
    assert(quote_bytes(m) =~= buf);
}

/// Schema: field 3 of `Quote` is `open`, a `double`: the eight little-endian bytes of the value, under key byte
/// `0x19`. Such a field alone decodes to a quote with only `open` set,
/// and a quote with only `open` set encodes to exactly that field.
pub proof fn law_quote_field_3_is_open(v: u64)
    ensures
        quote_decode(seq![0x19u8] + spec_u64_to_le_bytes(v)) == Some(Quote { open: Some(v), ..quote_empty() }),
        quote_bytes(Quote { open: Some(v), ..quote_empty() }) == seq![0x19u8] + spec_u64_to_le_bytes(v),
{
    let buf = seq![0x19u8] + spec_u64_to_le_bytes(v);
    let end = buf.len() as int;
    let m = Quote { open: Some(v), ..quote_empty() };
    assert(key_bytes(3, WireType::SixtyFourBit) == seq![0x19u8]);
    assert(double_bytes(3, Some(v)) == buf);
    assert(buf.subrange(0, end) =~= buf);
    lemma_double_step(buf, 0, end, 3, v);
    assert(quote_merge(m, buf, end, end, RECURSION_LIMIT as nat) == Some(m));
    assert(quote_bytes(m) =~= buf);
}

/// Schema: field 4 of `Quote` is `high`, a `double`: the eight little-endian bytes of the value, under key byte
/// `0x21`. Such a field alone decodes to a quote with only `high` set,
/// and a quote with only `high` set encodes to exactly that field.
pub proof fn law_quote_field_4_is_high(v: u64)
    ensures
        quote_decode(seq![0x21u8] + spec_u64_to_le_bytes(v)) == Some(Quote { high: Some(v), ..quote_empty() }),
        quote_bytes(Quote { high: Some(v), ..quote_empty() }) == seq![0x21u8] + spec_u64_to_le_bytes(v),
{
    let buf = seq![0x21u8] + spec_u64_to_le_bytes(v);
    let end = buf.len() as int;
    let m = Quote { high: Some(v), ..quote_empty() };
    assert(key_bytes(4, WireType::SixtyFourBit) == seq![0x21u8]);
    assert(double_bytes(4, Some(v)) == buf);
    assert(buf.subrange(0, end) =~= buf);
    lemma_double_step(buf, 0, end, 4, v);
    assert(quote_merge(m, buf, end, end, RECURSION_LIMIT as nat) == Some(m));
    assert(quote_bytes(m) =~= buf);
}

/// Schema: field 5 of `Quote` is `low`, a `double`: the eight little-endian bytes of the value, under key byte
/// `0x29`. Such a field alone decodes to a quote with only `low` set,
/// and a quote with only `low` set encodes to exactly that field.
pub proof fn law_quote_field_5_is_low(v: u64)
    ensures
        quote_decode(seq![0x29u8] + spec_u64_to_le_bytes(v)) == Some(Quote { low: Some(v), ..quote_empty() }),
        quote_bytes(Quote { low: Some(v), ..quote_empty() }) == seq![0x29u8] + spec_u64_to_le_bytes(v),
{
    let buf = seq![0x29u8] + spec_u64_to_le_bytes(v);
    let end = buf.len() as int;
    let m = Quote { low: Some(v), ..quote_empty() };
    assert(key_bytes(5, WireType::SixtyFourBit) == seq![0x29u8]);
    assert(double_bytes(5, Some(v)) == buf);
    assert(buf.subrange(0, end) =~= buf);
    lemma_double_step(buf, 0, end, 5, v);
    assert(quote_merge(m, buf, end, end, RECURSION_LIMIT as nat) == Some(m));
    assert(quote_bytes(m) =~= buf);
}

/// Schema: field 6 of `Quote` is `pre_close`, a `double`: the eight little-endian bytes of the value, under key byte
/// `0x31`. Such a field alone decodes to a quote with only `pre_close` set,
/// and a quote with only `pre_close` set encodes to exactly that field.
pub proof fn law_quote_field_6_is_pre_close(v: u64)
    ensures
        quote_decode(seq![0x31u8] + spec_u64_to_le_bytes(v)) == Some(Quote { pre_close: Some(v), ..quote_empty() }),
        quote_bytes(Quote { pre_close: Some(v), ..quote_empty() }) == seq![0x31u8] + spec_u64_to_le_bytes(v),
{
    let buf = seq![0x31u8] + spec_u64_to_le_bytes(v);
    let end = buf.len() as int;
    let m = Quote { pre_close: Some(v), ..quote_empty() };
    assert(key_bytes(6, WireType::SixtyFourBit) == seq![0x31u8]);
    assert(double_bytes(6, Some(v)) == buf);
    assert(buf.subrange(0, end) =~= buf);
    lemma_double_step(buf, 0, end, 6, v);
    assert(quote_merge(m, buf, end, end, RECURSION_LIMIT as nat) == Some(m));
    assert(quote_bytes(m) =~= buf);
}

/// Schema: field 7 of `Quote` is `volume`, a `double`: the eight little-endian bytes of the value, under key byte
/// `0x39`. Such a field alone decodes to a quote with only `volume` set,
/// and a quote with only `volume` set encodes to exactly that field.
pub proof fn law_quote_field_7_is_volume(v: u64)
    ensures
        quote_decode(seq![0x39u8] + spec_u64_to_le_bytes(v)) == Some(Quote { volume: Some(v), ..quote_empty() }),
        quote_bytes(Quote { volume: Some(v), ..quote_empty() }) == seq![0x39u8] + spec_u64_to_le_bytes(v),
{
    let buf = seq![0x39u8] + spec_u64_to_le_bytes(v);
    let end = buf.len() as int;
    let m = Quote { volume: Some(v), ..quote_empty() };
    assert(key_bytes(7, WireType::SixtyFourBit) == seq![0x39u8]);
    assert(double_bytes(7, Some(v)) == buf);
    assert(buf.subrange(0, end) =~= buf);
    lemma_double_step(buf, 0, end, 7, v);
    assert(quote_merge(m, buf, end, end, RECURSION_LIMIT as nat) == Some(m));
    assert(quote_bytes(m) =~= buf);
}

/// Schema: field 8 of `Quote` is `amount`, a `double`: the eight little-endian bytes of the value, under key byte
/// `0x41`. Such a field alone decodes to a quote with only `amount` set,
/// and a quote with only `amount` set encodes to exactly that field.
pub proof fn law_quote_field_8_is_amount(v: u64)
    ensures
        quote_decode(seq![0x41u8] + spec_u64_to_le_bytes(v)) == Some(Quote { amount: Some(v), ..quote_empty() }),
        quote_bytes(Quote { amount: Some(v), ..quote_empty() }) == seq![0x41u8] + spec_u64_to_le_bytes(v),
{
    let buf = seq![0x41u8] + spec_u64_to_le_bytes(v);
    let end = buf.len() as int;
    let m = Quote { amount: Some(v), ..quote_empty() };
    assert(key_bytes(8, WireType::SixtyFourBit) == seq![0x41u8]);
    assert(double_bytes(8, Some(v)) == buf);
    assert(buf.subrange(0, end) =~= buf);
    lemma_double_step(buf, 0, end, 8, v);
    assert(quote_merge(m, buf, end, end, RECURSION_LIMIT as nat) == Some(m));
    assert(quote_bytes(m) =~= buf);
}

/// Schema: field 9 of `Quote` is `in_vol`, a `double`: the eight little-endian bytes of the value, under key byte
/// `0x49`. Such a field alone decodes to a quote with only `in_vol` set,
/// and a quote with only `in_vol` set encodes to exactly that field.
pub proof fn law_quote_field_9_is_in_vol(v: u64)
    ensures
        quote_decode(seq![0x49u8] + spec_u64_to_le_bytes(v)) == Some(Quote { in_vol: Some(v), ..quote_empty() }),
        quote_bytes(Quote { in_vol: Some(v), ..quote_empty() }) == seq![0x49u8] + spec_u64_to_le_bytes(v),
{
    let buf = seq![0x49u8] + spec_u64_to_le_bytes(v);
    let end = buf.len() as int;
    let m = Quote { in_vol: Some(v), ..quote_empty() };
    assert(key_bytes(9, WireType::SixtyFourBit) == seq![0x49u8]);
    assert(double_bytes(9, Some(v)) == buf);
    assert(buf.subrange(0, end) =~= buf);
    lemma_double_step(buf, 0, end, 9, v);
    assert(quote_merge(m, buf, end, end, RECURSION_LIMIT as nat) == Some(m));
    assert(quote_bytes(m) =~= buf);
}

/// Schema: field 10 of `Quote` is `out_vol`, a `double`: the eight little-endian bytes of the value, under key byte
/// `0x51`. Such a field alone decodes to a quote with only `out_vol` set,
/// and a quote with only `out_vol` set encodes to exactly that field.
pub proof fn law_quote_field_10_is_out_vol(v: u64)
    ensures
        quote_decode(seq![0x51u8] + spec_u64_to_le_bytes(v)) == Some(Quote { out_vol: Some(v), ..quote_empty() }),
        quote_bytes(Quote { out_vol: Some(v), ..quote_empty() }) == seq![0x51u8] + spec_u64_to_le_bytes(v),
{
    let buf = seq![0x51u8] + spec_u64_to_le_bytes(v);
    let end = buf.len() as int;
    let m = Quote { out_vol: Some(v), ..quote_empty() };
    assert(key_bytes(10, WireType::SixtyFourBit) == seq![0x51u8]);
    assert(double_bytes(10, Some(v)) == buf);
    assert(buf.subrange(0, end) =~= buf);
    lemma_double_step(buf, 0, end, 10, v);
    assert(quote_merge(m, buf, end, end, RECURSION_LIMIT as nat) == Some(m));
    assert(quote_bytes(m) =~= buf);
}

/// Schema: field 1 of `Tick` is `ts`, an `int64` varint, under key byte
/// `0x08`. Such a field alone decodes to a tick with only `ts` set,
/// and a tick with only `ts` set encodes to exactly that field.
pub proof fn law_tick_field_1_is_ts(v: i64)
    ensures
        tick_decode(seq![0x08u8] + varint_bytes(v as u64)) == Some(Tick { ts: Some(v), ..tick_empty() }),
        tick_bytes(Tick { ts: Some(v), ..tick_empty() }) == seq![0x08u8] + varint_bytes(v as u64),
{
    let buf = seq![0x08u8] + varint_bytes(v as u64);
    let end = buf.len() as int;
    let m = Tick { ts: Some(v), ..tick_empty() };
    assert(key_bytes(1, WireType::Varint) == seq![0x08u8]);
    assert(int64_bytes(1, Some(v)) == buf);
    assert(buf.subrange(0, end) =~= buf);
    lemma_int64_step(buf, 0, end, 1, v);
    assert(tick_merge(m, buf, end, end, RECURSION_LIMIT as nat) == Some(m));
    assert(tick_bytes(m) =~= buf);
}

/// Schema: field 2 of `Tick` is `price`, a `double`: the eight little-endian bytes of the value, under key byte
/// `0x11`. Such a field alone decodes to a tick with only `price` set,
/// and a tick with only `price` set encodes to exactly that field.
pub proof fn law_tick_field_2_is_price(v: u64)
    ensures
        tick_decode(seq![0x11u8] + spec_u64_to_le_bytes(v)) == Some(Tick { price: Some(v), ..tick_empty() }),
        tick_bytes(Tick { price: Some(v), ..tick_empty() }) == seq![0x11u8] + spec_u64_to_le_bytes(v),
{
    let buf = seq![0x11u8] + spec_u64_to_le_bytes(v);
    let end = buf.len() as int;
    let m = Tick { price: Some(v), ..tick_empty() };
    assert(key_bytes(2, WireType::SixtyFourBit) == seq![0x11u8]);
    assert(double_bytes(2, Some(v)) == buf);
    assert(buf.subrange(0, end) =~= buf);
    lemma_double_step(buf, 0, end, 2, v);
    assert(tick_merge(m, buf, end, end, RECURSION_LIMIT as nat) == Some(m));
    assert(tick_bytes(m) =~= buf);
}

/// Schema: field 3 of `Tick` is `volume`, a `double`: the eight little-endian bytes of the value, under key byte
/// `0x19`. Such a field alone decodes to a tick with only `volume` set,
/// and a tick with only `volume` set encodes to exactly that field.
pub proof fn law_tick_field_3_is_volume(v: u64)
    ensures
        tick_decode(seq![0x19u8] + spec_u64_to_le_bytes(v)) == Some(Tick { volume: Some(v), ..tick_empty() }),
        tick_bytes(Tick { volume: Some(v), ..tick_empty() }) == seq![0x19u8] + spec_u64_to_le_bytes(v),
{
    let buf = seq![0x19u8] + spec_u64_to_le_bytes(v);
    let end = buf.len() as int;
    let m = Tick { volume: Some(v), ..tick_empty() };
    assert(key_bytes(3, WireType::SixtyFourBit) == seq![0x19u8]);
    assert(double_bytes(3, Some(v)) == buf);
    assert(buf.subrange(0, end) =~= buf);
    lemma_double_step(buf, 0, end, 3, v);
    assert(tick_merge(m, buf, end, end, RECURSION_LIMIT as nat) == Some(m));
    assert(tick_bytes(m) =~= buf);
}

/// Schema: field 4 of `Tick` is `buy_price`, a `double`: the eight little-endian bytes of the value, under key byte
/// `0x21`. Such a field alone decodes to a tick with only `buy_price` set,
/// and a tick with only `buy_price` set encodes to exactly that field.
pub proof fn law_tick_field_4_is_buy_price(v: u64)
    ensures
        tick_decode(seq![0x21u8] + spec_u64_to_le_bytes(v)) == Some(Tick { buy_price: Some(v), ..tick_empty() }),
        tick_bytes(Tick { buy_price: Some(v), ..tick_empty() }) == seq![0x21u8] + spec_u64_to_le_bytes(v),
{
    let buf = seq![0x21u8] + spec_u64_to_le_bytes(v);
    let end = buf.len() as int;
    let m = Tick { buy_price: Some(v), ..tick_empty() };
    assert(key_bytes(4, WireType::SixtyFourBit) == seq![0x21u8]);
    assert(double_bytes(4, Some(v)) == buf);
    assert(buf.subrange(0, end) =~= buf);
    lemma_double_step(buf, 0, end, 4, v);
    assert(tick_merge(m, buf, end, end, RECURSION_LIMIT as nat) == Some(m));
    assert(tick_bytes(m) =~= buf);
}

/// Schema: field 5 of `Tick` is `sell_price`, a `double`: the eight little-endian bytes of the value, under key byte
/// `0x29`. Such a field alone decodes to a tick with only `sell_price` set,
/// and a tick with only `sell_price` set encodes to exactly that field.
pub proof fn law_tick_field_5_is_sell_price(v: u64)
    ensures
        tick_decode(seq![0x29u8] + spec_u64_to_le_bytes(v)) == Some(Tick { sell_price: Some(v), ..tick_empty() }),
        tick_bytes(Tick { sell_price: Some(v), ..tick_empty() }) == seq![0x29u8] + spec_u64_to_le_bytes(v),
{
    let buf = seq![0x29u8] + spec_u64_to_le_bytes(v);
    let end = buf.len() as int;
    let m = Tick { sell_price: Some(v), ..tick_empty() };
    assert(key_bytes(5, WireType::SixtyFourBit) == seq![0x29u8]);
    assert(double_bytes(5, Some(v)) == buf);
    assert(buf.subrange(0, end) =~= buf);
    lemma_double_step(buf, 0, end, 5, v);
    assert(tick_merge(m, buf, end, end, RECURSION_LIMIT as nat) == Some(m));
    assert(tick_bytes(m) =~= buf);
}

/// Schema: field 6 of `Tick` is `inout_flag`, a `uint32` varint, under key byte
/// `0x30`. Such a field alone decodes to a tick with only `inout_flag` set,
/// and a tick with only `inout_flag` set encodes to exactly that field.
pub proof fn law_tick_field_6_is_inout_flag(v: u32)
    ensures
        tick_decode(seq![0x30u8] + varint_bytes(v as u64)) == Some(Tick { inout_flag: Some(v), ..tick_empty() }),
        tick_bytes(Tick { inout_flag: Some(v), ..tick_empty() }) == seq![0x30u8] + varint_bytes(v as u64),
{
    let buf = seq![0x30u8] + varint_bytes(v as u64);
    let end = buf.len() as int;
    let m = Tick { inout_flag: Some(v), ..tick_empty() };
    assert(key_bytes(6, WireType::Varint) == seq![0x30u8]);
    assert(uint32_bytes(6, Some(v)) == buf);
    assert(buf.subrange(0, end) =~= buf);
    lemma_uint32_step(buf, 0, end, 6, v);
    assert(tick_merge(m, buf, end, end, RECURSION_LIMIT as nat) == Some(m));
    assert(tick_bytes(m) =~= buf);
}

/// Schema: field 7 of `Tick` is `serial`, an `int64` varint, under key byte
/// `0x38`. Such a field alone decodes to a tick with only `serial` set,
/// and a tick with only `serial` set encodes to exactly that field.
pub proof fn law_tick_field_7_is_serial(v: i64)
    ensures
        tick_decode(seq![0x38u8] + varint_bytes(v as u64)) == Some(Tick { serial: Some(v), ..tick_empty() }),
        tick_bytes(Tick { serial: Some(v), ..tick_empty() }) == seq![0x38u8] + varint_bytes(v as u64),
{
    let buf = seq![0x38u8] + varint_bytes(v as u64);
    let end = buf.len() as int;
    let m = Tick { serial: Some(v), ..tick_empty() };
    assert(key_bytes(7, WireType::Varint) == seq![0x38u8]);
    assert(int64_bytes(7, Some(v)) == buf);
    assert(buf.subrange(0, end) =~= buf);
    lemma_int64_step(buf, 0, end, 7, v);
    assert(tick_merge(m, buf, end, end, RECURSION_LIMIT as nat) == Some(m));
    assert(tick_bytes(m) =~= buf);
}

/// Schema: field 1 of `Kline` is `ts`, an `int64` varint, under key byte
/// `0x08`. Such a field alone decodes to a candlestick with only `ts` set,
/// and a candlestick with only `ts` set encodes to exactly that field.
pub proof fn law_kline_field_1_is_ts(v: i64)
    ensures
        kline_decode(seq![0x08u8] + varint_bytes(v as u64)) == Some(Kline { ts: Some(v), ..kline_empty() }),
        kline_bytes(Kline { ts: Some(v), ..kline_empty() }) == seq![0x08u8] + varint_bytes(v as u64),
{
    let buf = seq![0x08u8] + varint_bytes(v as u64);
    let end = buf.len() as int;
    let m = Kline { ts: Some(v), ..kline_empty() };
    assert(key_bytes(1, WireType::Varint) == seq![0x08u8]);
    assert(int64_bytes(1, Some(v)) == buf);
    assert(buf.subrange(0, end) =~= buf);
    lemma_int64_step(buf, 0, end, 1, v);
    assert(kline_merge(m, buf, end, end, RECURSION_LIMIT as nat) == Some(m));
    assert(kline_bytes(m) =~= buf);
}

/// Schema: field 2 of `Kline` is `period`, an `int32` varint, under key byte
/// `0x10`. Such a field alone decodes to a candlestick with only `period` set,
/// and a candlestick with only `period` set encodes to exactly that field.
pub proof fn law_kline_field_2_is_period(v: i32)
    ensures
        kline_decode(seq![0x10u8] + varint_bytes(v as u64)) == Some(Kline { period: Some(v), ..kline_empty() }),
        kline_bytes(Kline { period: Some(v), ..kline_empty() }) == seq![0x10u8] + varint_bytes(v as u64),
{
    let buf = seq![0x10u8] + varint_bytes(v as u64);
    let end = buf.len() as int;
    let m = Kline { period: Some(v), ..kline_empty() };
    assert(key_bytes(2, WireType::Varint) == seq![0x10u8]);
    assert(int32_bytes(2, Some(v)) == buf);
    assert(buf.subrange(0, end) =~= buf);
    lemma_int32_step(buf, 0, end, 2, v);
    assert(kline_merge(m, buf, end, end, RECURSION_LIMIT as nat) == Some(m));
    assert(kline_bytes(m) =~= buf);
}

/// Schema: field 3 of `Kline` is `open`, a `double`: the eight little-endian bytes of the value, under key byte
/// `0x19`. Such a field alone decodes to a candlestick with only `open` set,
/// and a candlestick with only `open` set encodes to exactly that field.
pub proof fn law_kline_field_3_is_open(v: u64)
    ensures
        kline_decode(seq![0x19u8] + spec_u64_to_le_bytes(v)) == Some(Kline { open: Some(v), ..kline_empty() }),
        kline_bytes(Kline { open: Some(v), ..kline_empty() }) == seq![0x19u8] + spec_u64_to_le_bytes(v),
{
    let buf = seq![0x19u8] + spec_u64_to_le_bytes(v);
    let end = buf.len() as int;
    let m = Kline { open: Some(v), ..kline_empty() };
    assert(key_bytes(3, WireType::SixtyFourBit) == seq![0x19u8]);
    assert(double_bytes(3, Some(v)) == buf);
    assert(buf.subrange(0, end) =~= buf);
    lemma_double_step(buf, 0, end, 3, v);
    assert(kline_merge(m, buf, end, end, RECURSION_LIMIT as nat) == Some(m));
    assert(kline_bytes(m) =~= buf);
}

/// Schema: field 4 of `Kline` is `high`, a `double`: the eight little-endian bytes of the value, under key byte
/// `0x21`. Such a field alone decodes to a candlestick with only `high` set,
/// and a candlestick with only `high` set encodes to exactly that field.
pub proof fn law_kline_field_4_is_high(v: u64)
    ensures
        kline_decode(seq![0x21u8] + spec_u64_to_le_bytes(v)) == Some(Kline { high: Some(v), ..kline_empty() }),
        kline_bytes(Kline { high: Some(v), ..kline_empty() }) == seq![0x21u8] + spec_u64_to_le_bytes(v),
{
    let buf = seq![0x21u8] + spec_u64_to_le_bytes(v);
    let end = buf.len() as int;
    let m = Kline { high: Some(v), ..kline_empty() };
    assert(key_bytes(4, WireType::SixtyFourBit) == seq![0x21u8]);
    assert(double_bytes(4, Some(v)) == buf);
    assert(buf.subrange(0, end) =~= buf);
    lemma_double_step(buf, 0, end, 4, v);
    assert(kline_merge(m, buf, end, end, RECURSION_LIMIT as nat) == Some(m));
    assert(kline_bytes(m) =~= buf);
}

/// Schema: field 5 of `Kline` is `low`, a `double`: the eight little-endian bytes of the value, under key byte
/// `0x29`. Such a field alone decodes to a candlestick with only `low` set,
/// and a candlestick with only `low` set encodes to exactly that field.
pub proof fn law_kline_field_5_is_low(v: u64)
    ensures
        kline_decode(seq![0x29u8] + spec_u64_to_le_bytes(v)) == Some(Kline { low: Some(v), ..kline_empty() }),
        kline_bytes(Kline { low: Some(v), ..kline_empty() }) == seq![0x29u8] + spec_u64_to_le_bytes(v),
{
    let buf = seq![0x29u8] + spec_u64_to_le_bytes(v);
    let end = buf.len() as int;
    let m = Kline { low: Some(v), ..kline_empty() };
    assert(key_bytes(5, WireType::SixtyFourBit) == seq![0x29u8]);
    assert(double_bytes(5, Some(v)) == buf);
    assert(buf.subrange(0, end) =~= buf);
    lemma_double_step(buf, 0, end, 5, v);
    assert(kline_merge(m, buf, end, end, RECURSION_LIMIT as nat) == Some(m));
    assert(kline_bytes(m) =~= buf);
}

/// Schema: field 6 of `Kline` is `close`, a `double`: the eight little-endian bytes of the value, under key byte
/// `0x31`. Such a field alone decodes to a candlestick with only `close` set,
/// and a candlestick with only `close` set encodes to exactly that field.
pub proof fn law_kline_field_6_is_close(v: u64)
    ensures
        kline_decode(seq![0x31u8] + spec_u64_to_le_bytes(v)) == Some(Kline { close: Some(v), ..kline_empty() }),
        kline_bytes(Kline { close: Some(v), ..kline_empty() }) == seq![0x31u8] + spec_u64_to_le_bytes(v),
{
    let buf = seq![0x31u8] + spec_u64_to_le_bytes(v);
    let end = buf.len() as int;
    let m = Kline { close: Some(v), ..kline_empty() };
    assert(key_bytes(6, WireType::SixtyFourBit) == seq![0x31u8]);
    assert(double_bytes(6, Some(v)) == buf);
    assert(buf.subrange(0, end) =~= buf);
    lemma_double_step(buf, 0, end, 6, v);
    assert(kline_merge(m, buf, end, end, RECURSION_LIMIT as nat) == Some(m));
    assert(kline_bytes(m) =~= buf);
}

/// Schema: field 7 of `Kline` is `volume`, a `double`: the eight little-endian bytes of the value, under key byte
/// `0x39`. Such a field alone decodes to a candlestick with only `volume` set,
/// and a candlestick with only `volume` set encodes to exactly that field.
pub proof fn law_kline_field_7_is_volume(v: u64)
    ensures
        kline_decode(seq![0x39u8] + spec_u64_to_le_bytes(v)) == Some(Kline { volume: Some(v), ..kline_empty() }),
        kline_bytes(Kline { volume: Some(v), ..kline_empty() }) == seq![0x39u8] + spec_u64_to_le_bytes(v),
{
    let buf = seq![0x39u8] + spec_u64_to_le_bytes(v);
    let end = buf.len() as int;
    let m = Kline { volume: Some(v), ..kline_empty() };
    assert(key_bytes(7, WireType::SixtyFourBit) == seq![0x39u8]);
    assert(double_bytes(7, Some(v)) == buf);
    assert(buf.subrange(0, end) =~= buf);
    lemma_double_step(buf, 0, end, 7, v);
    assert(kline_merge(m, buf, end, end, RECURSION_LIMIT as nat) == Some(m));
    assert(kline_bytes(m) =~= buf);
}

/// Schema: field 8 of `Kline` is `amount`, a `double`: the eight little-endian bytes of the value, under key byte
/// `0x41`. Such a field alone decodes to a candlestick with only `amount` set,
/// and a candlestick with only `amount` set encodes to exactly that field.
pub proof fn law_kline_field_8_is_amount(v: u64)
    ensures
        kline_decode(seq![0x41u8] + spec_u64_to_le_bytes(v)) == Some(Kline { amount: Some(v), ..kline_empty() }),
        kline_bytes(Kline { amount: Some(v), ..kline_empty() }) == seq![0x41u8] + spec_u64_to_le_bytes(v),
{
    let buf = seq![0x41u8] + spec_u64_to_le_bytes(v);
    let end = buf.len() as int;
    let m = Kline { amount: Some(v), ..kline_empty() };
    assert(key_bytes(8, WireType::SixtyFourBit) == seq![0x41u8]);
    assert(double_bytes(8, Some(v)) == buf);
    assert(buf.subrange(0, end) =~= buf);
    lemma_double_step(buf, 0, end, 8, v);
    assert(kline_merge(m, buf, end, end, RECURSION_LIMIT as nat) == Some(m));
    assert(kline_bytes(m) =~= buf);
}

/// Schema: field 9 of `Kline` is `turnover`, a `double`: the eight little-endian bytes of the value, under key byte
/// `0x49`. Such a field alone decodes to a candlestick with only `turnover` set,
/// and a candlestick with only `turnover` set encodes to exactly that field.
pub proof fn law_kline_field_9_is_turnover(v: u64)
    ensures
        kline_decode(seq![0x49u8] + spec_u64_to_le_bytes(v)) == Some(Kline { turnover: Some(v), ..kline_empty() }),
        kline_bytes(Kline { turnover: Some(v), ..kline_empty() }) == seq![0x49u8] + spec_u64_to_le_bytes(v),
{
    let buf = seq![0x49u8] + spec_u64_to_le_bytes(v);
    let end = buf.len() as int;
    let m = Kline { turnover: Some(v), ..kline_empty() };
    assert(key_bytes(9, WireType::SixtyFourBit) == seq![0x49u8]);
    assert(double_bytes(9, Some(v)) == buf);
    assert(buf.subrange(0, end) =~= buf);
    lemma_double_step(buf, 0, end, 9, v);
    assert(kline_merge(m, buf, end, end, RECURSION_LIMIT as nat) == Some(m));
    assert(kline_bytes(m) =~= buf);
}

/// Schema: field 10 of `Kline` is `pre_close`, a `double`: the eight little-endian bytes of the value, under key byte
/// `0x51`. Such a field alone decodes to a candlestick with only `pre_close` set,
/// and a candlestick with only `pre_close` set encodes to exactly that field.
pub proof fn law_kline_field_10_is_pre_close(v: u64)
    ensures
        kline_decode(seq![0x51u8] + spec_u64_to_le_bytes(v)) == Some(Kline { pre_close: Some(v), ..kline_empty() }),
        kline_bytes(Kline { pre_close: Some(v), ..kline_empty() }) == seq![0x51u8] + spec_u64_to_le_bytes(v),
{
    let buf = seq![0x51u8] + spec_u64_to_le_bytes(v);
    let end = buf.len() as int;
    let m = Kline { pre_close: Some(v), ..kline_empty() };
    assert(key_bytes(10, WireType::SixtyFourBit) == seq![0x51u8]);
    assert(double_bytes(10, Some(v)) == buf);
    assert(buf.subrange(0, end) =~= buf);
    lemma_double_step(buf, 0, end, 10, v);
    assert(kline_merge(m, buf, end, end, RECURSION_LIMIT as nat) == Some(m));
    assert(kline_bytes(m) =~= buf);
}

/// Schema: field 1 of `Resume` is `since_ts`, an `int64` varint, under key byte
/// `0x08`. Such a field alone decodes to a resume request with only `since_ts` set,
/// and a resume request with only `since_ts` set encodes to exactly that field.
pub proof fn law_resume_field_1_is_since_ts(v: i64)
    ensures
        resume_decode(seq![0x08u8] + varint_bytes(v as u64)) == Some(Resume { since_ts: Some(v), ..resume_empty() }),
        resume_bytes(Resume { since_ts: Some(v), ..resume_empty() }) == seq![0x08u8] + varint_bytes(v as u64),
{
    let buf = seq![0x08u8] + varint_bytes(v as u64);
    let end = buf.len() as int;
    let m = Resume { since_ts: Some(v), ..resume_empty() };
    assert(key_bytes(1, WireType::Varint) == seq![0x08u8]);
    assert(int64_bytes(1, Some(v)) == buf);
    assert(buf.subrange(0, end) =~= buf);
    lemma_int64_step(buf, 0, end, 1, v);
    assert(resume_merge(m, buf, end, end, RECURSION_LIMIT as nat) == Some(m));
    assert(resume_bytes(m) =~= buf);
}

/// Schema: field 2 of `Resume` is `since_serial`, an `int64` varint, under key byte
/// `0x10`. Such a field alone decodes to a resume request with only `since_serial` set,
/// and a resume request with only `since_serial` set encodes to exactly that field.
pub proof fn law_resume_field_2_is_since_serial(v: i64)
    ensures
        resume_decode(seq![0x10u8] + varint_bytes(v as u64)) == Some(Resume { since_serial: Some(v), ..resume_empty() }),
        resume_bytes(Resume { since_serial: Some(v), ..resume_empty() }) == seq![0x10u8] + varint_bytes(v as u64),
{
    let buf = seq![0x10u8] + varint_bytes(v as u64);
    let end = buf.len() as int;
    let m = Resume { since_serial: Some(v), ..resume_empty() };
    assert(key_bytes(2, WireType::Varint) == seq![0x10u8]);
    assert(int64_bytes(2, Some(v)) == buf);
    assert(buf.subrange(0, end) =~= buf);
    lemma_int64_step(buf, 0, end, 2, v);
    assert(resume_merge(m, buf, end, end, RECURSION_LIMIT as nat) == Some(m));
    assert(resume_bytes(m) =~= buf);
}


// ---------------------------------------------------------------- nested messages

/// Schema: field 1 of `MarketEnvelope` is `symbol`, a nested `Symbol` under key byte
/// `0x0a`; alone it decodes to an envelope with that symbol and no payload, and
/// such an envelope encodes to exactly that field.
pub proof fn law_envelope_field_1_is_symbol(x: SymbolView)
    requires
        (seq![0x0au8] + varint_bytes(symbol_bytes(x).len() as u64) + symbol_bytes(x)).len() <= usize::MAX,
    ensures
        envelope_merge(envelope_empty(), seq![0x0au8] + varint_bytes(symbol_bytes(x).len() as u64) + symbol_bytes(x),
            0, (seq![0x0au8] + varint_bytes(symbol_bytes(x).len() as u64) + symbol_bytes(x)).len() as int,
            RECURSION_LIMIT as nat) == Some(MarketEnvelopeView { symbol: Some(x), payload: None }),
        envelope_bytes(MarketEnvelopeView { symbol: Some(x), payload: None }) == seq![0x0au8] + varint_bytes(symbol_bytes(x).len() as u64) + symbol_bytes(x),
{
    let body = symbol_bytes(x);
    let buf = seq![0x0au8] + varint_bytes(body.len() as u64) + body;
    let end = buf.len() as int;
    let m = MarketEnvelopeView { symbol: Some(x), payload: None };
    assert(key_bytes(1, WireType::LengthDelimited) == seq![0x0au8]);
    assert(delimited_bytes(1, body) == buf);
    assert(buf.subrange(0, end) =~= buf);
    lemma_delimited_step(buf, 0, end, 1, body);
    let st: int = 1int + varint_bytes(body.len() as u64).len();
    assert(buf.subrange(st, st + body.len()) =~= body);
    lemma_symbol_roundtrip(buf, st, x, (RECURSION_LIMIT - 1) as nat);
    assert(envelope_merge(m, buf, end, end, RECURSION_LIMIT as nat) == Some(m));
    assert(envelope_bytes(m) =~= buf);
}

/// Schema: field 2 of `MarketEnvelope` is the `quote` member of the payload
/// oneof, a nested `Quote` under key byte `0x12`; alone it decodes to an envelope
/// carrying that quote and no symbol, and such an envelope encodes to exactly
/// that field.
pub proof fn law_envelope_field_2_is_quote(x: Quote)
    requires
        (seq![0x12u8] + varint_bytes(quote_bytes(x).len() as u64) + quote_bytes(x)).len() <= usize::MAX,
    ensures
        envelope_merge(envelope_empty(), seq![0x12u8] + varint_bytes(quote_bytes(x).len() as u64) + quote_bytes(x),
            0, (seq![0x12u8] + varint_bytes(quote_bytes(x).len() as u64) + quote_bytes(x)).len() as int,
            RECURSION_LIMIT as nat) == Some(MarketEnvelopeView { symbol: None, payload: Some(EnvelopePayloadView::Quote(x)) }),
        envelope_bytes(MarketEnvelopeView { symbol: None, payload: Some(EnvelopePayloadView::Quote(x)) }) == seq![0x12u8] + varint_bytes(quote_bytes(x).len() as u64) + quote_bytes(x),
{
    let body = quote_bytes(x);
    let buf = seq![0x12u8] + varint_bytes(body.len() as u64) + body;
    let end = buf.len() as int;
    let m = MarketEnvelopeView { symbol: None, payload: Some(EnvelopePayloadView::Quote(x)) };
    assert(key_bytes(2, WireType::LengthDelimited) == seq![0x12u8]);
    assert(delimited_bytes(2, body) == buf);
    assert(buf.subrange(0, end) =~= buf);
    lemma_delimited_step(buf, 0, end, 2, body);
    let st: int = 1int + varint_bytes(body.len() as u64).len();
    assert(buf.subrange(st, st + body.len()) =~= body);
    lemma_quote_roundtrip(buf, st, x, (RECURSION_LIMIT - 1) as nat);
    assert(envelope_merge(m, buf, end, end, RECURSION_LIMIT as nat) == Some(m));
    assert(envelope_bytes(m) =~= buf);
}

/// Schema: field 3 of `MarketEnvelope` is the `tick` member of the payload
/// oneof, a nested `Tick` under key byte `0x1a`; alone it decodes to an envelope
/// carrying that tick and no symbol, and such an envelope encodes to exactly
/// that field.
pub proof fn law_envelope_field_3_is_tick(x: Tick)
    requires
        (seq![0x1au8] + varint_bytes(tick_bytes(x).len() as u64) + tick_bytes(x)).len() <= usize::MAX,
    ensures
        envelope_merge(envelope_empty(), seq![0x1au8] + varint_bytes(tick_bytes(x).len() as u64) + tick_bytes(x),
            0, (seq![0x1au8] + varint_bytes(tick_bytes(x).len() as u64) + tick_bytes(x)).len() as int,
            RECURSION_LIMIT as nat) == Some(MarketEnvelopeView { symbol: None, payload: Some(EnvelopePayloadView::Tick(x)) }),
        envelope_bytes(MarketEnvelopeView { symbol: None, payload: Some(EnvelopePayloadView::Tick(x)) }) == seq![0x1au8] + varint_bytes(tick_bytes(x).len() as u64) + tick_bytes(x),
{
    let body = tick_bytes(x);
    let buf = seq![0x1au8] + varint_bytes(body.len() as u64) + body;
    let end = buf.len() as int;
    let m = MarketEnvelopeView { symbol: None, payload: Some(EnvelopePayloadView::Tick(x)) };
    assert(key_bytes(3, WireType::LengthDelimited) == seq![0x1au8]);
    assert(delimited_bytes(3, body) == buf);
    assert(buf.subrange(0, end) =~= buf);
    lemma_delimited_step(buf, 0, end, 3, body);
    let st: int = 1int + varint_bytes(body.len() as u64).len();
    assert(buf.subrange(st, st + body.len()) =~= body);
    lemma_tick_roundtrip(buf, st, x, (RECURSION_LIMIT - 1) as nat);
    assert(envelope_merge(m, buf, end, end, RECURSION_LIMIT as nat) == Some(m));
    assert(envelope_bytes(m) =~= buf);
}

/// Schema: field 4 of `MarketEnvelope` is the `kline` member of the payload
/// oneof, a nested `Kline` under key byte `0x22`; alone it decodes to an envelope
/// carrying that kline and no symbol, and such an envelope encodes to exactly
/// that field.
pub proof fn law_envelope_field_4_is_kline(x: Kline)
    requires
        (seq![0x22u8] + varint_bytes(kline_bytes(x).len() as u64) + kline_bytes(x)).len() <= usize::MAX,
    ensures
        envelope_merge(envelope_empty(), seq![0x22u8] + varint_bytes(kline_bytes(x).len() as u64) + kline_bytes(x),
            0, (seq![0x22u8] + varint_bytes(kline_bytes(x).len() as u64) + kline_bytes(x)).len() as int,
            RECURSION_LIMIT as nat) == Some(MarketEnvelopeView { symbol: None, payload: Some(EnvelopePayloadView::Kline(x)) }),
        envelope_bytes(MarketEnvelopeView { symbol: None, payload: Some(EnvelopePayloadView::Kline(x)) }) == seq![0x22u8] + varint_bytes(kline_bytes(x).len() as u64) + kline_bytes(x),
{
    let body = kline_bytes(x);
    let buf = seq![0x22u8] + varint_bytes(body.len() as u64) + body;
    let end = buf.len() as int;
    let m = MarketEnvelopeView { symbol: None, payload: Some(EnvelopePayloadView::Kline(x)) };
    assert(key_bytes(4, WireType::LengthDelimited) == seq![0x22u8]);
    assert(delimited_bytes(4, body) == buf);
    assert(buf.subrange(0, end) =~= buf);
    lemma_delimited_step(buf, 0, end, 4, body);
    let st: int = 1int + varint_bytes(body.len() as u64).len();
    assert(buf.subrange(st, st + body.len()) =~= body);
    lemma_kline_roundtrip(buf, st, x, (RECURSION_LIMIT - 1) as nat);
    assert(envelope_merge(m, buf, end, end, RECURSION_LIMIT as nat) == Some(m));
    assert(envelope_bytes(m) =~= buf);
}

/// Schema: field 5 of `MarketEnvelope` is the `quote_snapshot` member of the payload
/// oneof, a nested `QuoteSnapshot` under key byte `0x2a`; alone it decodes to an envelope
/// carrying that quote_snapshot and no symbol, and such an envelope encodes to exactly
/// that field.
pub proof fn law_envelope_field_5_is_quote_snapshot(x: QuoteSnapshotView)
    requires
        (seq![0x2au8] + varint_bytes(snapshot_bytes(x).len() as u64) + snapshot_bytes(x)).len() <= usize::MAX,
    ensures
        envelope_merge(envelope_empty(), seq![0x2au8] + varint_bytes(snapshot_bytes(x).len() as u64) + snapshot_bytes(x),
            0, (seq![0x2au8] + varint_bytes(snapshot_bytes(x).len() as u64) + snapshot_bytes(x)).len() as int,
            RECURSION_LIMIT as nat) == Some(MarketEnvelopeView { symbol: None, payload: Some(EnvelopePayloadView::QuoteSnapshot(x)) }),
        envelope_bytes(MarketEnvelopeView { symbol: None, payload: Some(EnvelopePayloadView::QuoteSnapshot(x)) }) == seq![0x2au8] + varint_bytes(snapshot_bytes(x).len() as u64) + snapshot_bytes(x),
{
    let body = snapshot_bytes(x);
    let buf = seq![0x2au8] + varint_bytes(body.len() as u64) + body;
    let end = buf.len() as int;
    let m = MarketEnvelopeView { symbol: None, payload: Some(EnvelopePayloadView::QuoteSnapshot(x)) };
    assert(key_bytes(5, WireType::LengthDelimited) == seq![0x2au8]);
    assert(delimited_bytes(5, body) == buf);
    assert(buf.subrange(0, end) =~= buf);
    lemma_delimited_step(buf, 0, end, 5, body);
    let st: int = 1int + varint_bytes(body.len() as u64).len();
    assert(buf.subrange(st, st + body.len()) =~= body);
    lemma_snapshot_roundtrip(buf, st, x, (RECURSION_LIMIT - 1) as nat);
    assert(envelope_merge(m, buf, end, end, RECURSION_LIMIT as nat) == Some(m));
    assert(envelope_bytes(m) =~= buf);
}

/// Schema: field 1 of `TransportFrame` is the `market` member of the payload
/// oneof, a nested `Market` under key byte `0x0a`; alone it decodes to a frame
/// carrying it, and such a frame encodes to exactly that field.
pub proof fn law_frame_field_1_is_market(x: MarketEnvelopeView)
    requires
        (seq![0x0au8] + varint_bytes(envelope_bytes(x).len() as u64) + envelope_bytes(x)).len() <= usize::MAX,
    ensures
        frame_merge(frame_empty(), seq![0x0au8] + varint_bytes(envelope_bytes(x).len() as u64) + envelope_bytes(x),
            0, (seq![0x0au8] + varint_bytes(envelope_bytes(x).len() as u64) + envelope_bytes(x)).len() as int,
            RECURSION_LIMIT as nat) == Some(TransportFrameView { payload: Some(FramePayloadView::Market(x)) }),
        frame_bytes(TransportFrameView { payload: Some(FramePayloadView::Market(x)) }) == seq![0x0au8] + varint_bytes(envelope_bytes(x).len() as u64) + envelope_bytes(x),
{
    let body = envelope_bytes(x);
    let buf = seq![0x0au8] + varint_bytes(body.len() as u64) + body;
    let end = buf.len() as int;
    let m = TransportFrameView { payload: Some(FramePayloadView::Market(x)) };
    assert(key_bytes(1, WireType::LengthDelimited) == seq![0x0au8]);
    assert(delimited_bytes(1, body) == buf);
    assert(buf.subrange(0, end) =~= buf);
    lemma_delimited_step(buf, 0, end, 1, body);
    let st: int = 1int + varint_bytes(body.len() as u64).len();
    assert(buf.subrange(st, st + body.len()) =~= body);
    lemma_envelope_roundtrip(buf, st, x, (RECURSION_LIMIT - 1) as nat);
    assert(frame_merge(m, buf, end, end, RECURSION_LIMIT as nat) == Some(m));
    assert(frame_bytes(m) =~= buf);
}

/// Schema: field 2 of `TransportFrame` is the `heartbeat` member of the payload
/// oneof, a nested `Heartbeat` under key byte `0x12`; alone it decodes to a frame
/// carrying it, and such a frame encodes to exactly that field.
pub proof fn law_frame_field_2_is_heartbeat(x: Heartbeat)
    requires
        (seq![0x12u8] + varint_bytes(heartbeat_bytes(x).len() as u64) + heartbeat_bytes(x)).len() <= usize::MAX,
    ensures
        frame_merge(frame_empty(), seq![0x12u8] + varint_bytes(heartbeat_bytes(x).len() as u64) + heartbeat_bytes(x),
            0, (seq![0x12u8] + varint_bytes(heartbeat_bytes(x).len() as u64) + heartbeat_bytes(x)).len() as int,
            RECURSION_LIMIT as nat) == Some(TransportFrameView { payload: Some(FramePayloadView::Heartbeat(x)) }),
        frame_bytes(TransportFrameView { payload: Some(FramePayloadView::Heartbeat(x)) }) == seq![0x12u8] + varint_bytes(heartbeat_bytes(x).len() as u64) + heartbeat_bytes(x),
{
    let body = heartbeat_bytes(x);
    let buf = seq![0x12u8] + varint_bytes(body.len() as u64) + body;
    let end = buf.len() as int;
    let m = TransportFrameView { payload: Some(FramePayloadView::Heartbeat(x)) };
    assert(key_bytes(2, WireType::LengthDelimited) == seq![0x12u8]);
    assert(delimited_bytes(2, body) == buf);
    assert(buf.subrange(0, end) =~= buf);
    lemma_delimited_step(buf, 0, end, 2, body);
    let st: int = 1int + varint_bytes(body.len() as u64).len();
    assert(buf.subrange(st, st + body.len()) =~= body);
    lemma_heartbeat_roundtrip(buf, st, x, (RECURSION_LIMIT - 1) as nat);
    assert(frame_merge(m, buf, end, end, RECURSION_LIMIT as nat) == Some(m));
    assert(frame_bytes(m) =~= buf);
}

/// Schema: field 3 of `TransportFrame` is the `resume` member of the payload
/// oneof, a nested `Resume` under key byte `0x1a`; alone it decodes to a frame
/// carrying it, and such a frame encodes to exactly that field.
pub proof fn law_frame_field_3_is_resume(x: Resume)
    requires
        (seq![0x1au8] + varint_bytes(resume_bytes(x).len() as u64) + resume_bytes(x)).len() <= usize::MAX,
    ensures
        frame_merge(frame_empty(), seq![0x1au8] + varint_bytes(resume_bytes(x).len() as u64) + resume_bytes(x),
            0, (seq![0x1au8] + varint_bytes(resume_bytes(x).len() as u64) + resume_bytes(x)).len() as int,
            RECURSION_LIMIT as nat) == Some(TransportFrameView { payload: Some(FramePayloadView::Resume(x)) }),
        frame_bytes(TransportFrameView { payload: Some(FramePayloadView::Resume(x)) }) == seq![0x1au8] + varint_bytes(resume_bytes(x).len() as u64) + resume_bytes(x),
{
    let body = resume_bytes(x);
    let buf = seq![0x1au8] + varint_bytes(body.len() as u64) + body;
    let end = buf.len() as int;
    let m = TransportFrameView { payload: Some(FramePayloadView::Resume(x)) };
    assert(key_bytes(3, WireType::LengthDelimited) == seq![0x1au8]);
    assert(delimited_bytes(3, body) == buf);
    assert(buf.subrange(0, end) =~= buf);
    lemma_delimited_step(buf, 0, end, 3, body);
    let st: int = 1int + varint_bytes(body.len() as u64).len();
    assert(buf.subrange(st, st + body.len()) =~= body);
    lemma_resume_roundtrip(buf, st, x, (RECURSION_LIMIT - 1) as nat);
    assert(frame_merge(m, buf, end, end, RECURSION_LIMIT as nat) == Some(m));
    assert(frame_bytes(m) =~= buf);
}

/// Schema: field 2 of `QuoteSnapshot` is `bids`, a repeated nested `Level`
/// under key byte `0x12`; one such field alone decodes to a snapshot whose
/// bids are that one level and whose asks are empty, and that snapshot
/// encodes to exactly that field.
pub proof fn law_snapshot_field_2_is_bids(l: Level)
    ensures
        snapshot_merge(snapshot_empty(), seq![0x12u8] + varint_bytes(level_bytes(l).len() as u64) + level_bytes(l),
            0, (seq![0x12u8] + varint_bytes(level_bytes(l).len() as u64) + level_bytes(l)).len() as int,
            RECURSION_LIMIT as nat) == Some(QuoteSnapshotView { ts: None, bids: seq![l], asks: Seq::empty() }),
        snapshot_bytes(QuoteSnapshotView { ts: None, bids: seq![l], asks: Seq::empty() })
            == seq![0x12u8] + varint_bytes(level_bytes(l).len() as u64) + level_bytes(l),
{
    lemma_side_field(l, 2);
}

/// Schema: field 3 of `QuoteSnapshot` is `asks`, a repeated nested `Level`
/// under key byte `0x1a`; one such field alone decodes to a snapshot whose
/// asks are that one level and whose bids are empty, and that snapshot
/// encodes to exactly that field.
pub proof fn law_snapshot_field_3_is_asks(l: Level)
    ensures
        snapshot_merge(snapshot_empty(), seq![0x1au8] + varint_bytes(level_bytes(l).len() as u64) + level_bytes(l),
            0, (seq![0x1au8] + varint_bytes(level_bytes(l).len() as u64) + level_bytes(l)).len() as int,
            RECURSION_LIMIT as nat) == Some(QuoteSnapshotView { ts: None, bids: Seq::empty(), asks: seq![l] }),
        snapshot_bytes(QuoteSnapshotView { ts: None, bids: Seq::empty(), asks: seq![l] })
            == seq![0x1au8] + varint_bytes(level_bytes(l).len() as u64) + level_bytes(l),
{
    lemma_side_field(l, 3);
}

/// One level under field 2 or 3 of a snapshot.
proof fn lemma_side_field(l: Level, tag: u32)
    requires
        tag == 2 || tag == 3,
    ensures
        ({
            let body = level_bytes(l);
            let buf = seq![(tag * 8 + 2) as u8] + varint_bytes(body.len() as u64) + body;
            let m = if tag == 2 {
                QuoteSnapshotView { ts: None, bids: seq![l], asks: Seq::empty() }
            } else {
                QuoteSnapshotView { ts: None, bids: Seq::empty(), asks: seq![l] }
            };
            &&& snapshot_merge(snapshot_empty(), buf, 0, buf.len() as int, RECURSION_LIMIT as nat) == Some(m)
            &&& snapshot_bytes(m) == buf
        }),
{
    lemma_auto_spec_u64_to_from_le_bytes();
    let body = level_bytes(l);
    assert(body.len() <= 18);
    let buf = seq![(tag * 8 + 2) as u8] + varint_bytes(body.len() as u64) + body;
    let end = buf.len() as int;
    let m = if tag == 2 {
        QuoteSnapshotView { ts: None, bids: seq![l], asks: Seq::empty() }
    } else {
        QuoteSnapshotView { ts: None, bids: Seq::empty(), asks: seq![l] }
    };
    assert(key_bytes(tag, WireType::LengthDelimited) == seq![(tag * 8 + 2) as u8]);
    assert(delimited_bytes(tag, body) == buf);
    assert(buf.subrange(0, end) =~= buf);
    lemma_delimited_step(buf, 0, end, tag, body);
    let st: int = 1int + varint_bytes(body.len() as u64).len();
    assert(buf.subrange(st, st + body.len()) =~= body);
    lemma_level_roundtrip(buf, st, l, (RECURSION_LIMIT - 1) as nat);
    assert(snapshot_empty().bids.push(l) =~= seq![l]);
    assert(snapshot_empty().asks.push(l) =~= seq![l]);
    assert(snapshot_merge(m, buf, end, end, RECURSION_LIMIT as nat) == Some(m));
    assert(seq![l].drop_first() =~= Seq::<Level>::empty());
    assert(levels_bytes(tag, Seq::<Level>::empty()) == Seq::<u8>::empty());
    assert(levels_bytes(tag, seq![l]) =~= buf);
    assert(levels_bytes((5 - tag) as u32, Seq::<Level>::empty()) == Seq::<u8>::empty());
    assert(int64_bytes(1, None) == Seq::<u8>::empty());
    assert(snapshot_bytes(m) =~= buf);
}

/// Schema: field 1 of `QuoteSnapshot` is `ts`, an `int64` varint under key
/// byte `0x08`; alone it decodes to a snapshot with that timestamp and no
/// levels, and that snapshot encodes to exactly that field.
pub proof fn law_snapshot_field_1_is_ts(v: i64)
    ensures
        snapshot_merge(snapshot_empty(), seq![0x08u8] + varint_bytes(v as u64), 0,
            (seq![0x08u8] + varint_bytes(v as u64)).len() as int, RECURSION_LIMIT as nat)
            == Some(QuoteSnapshotView { ts: Some(v), bids: Seq::empty(), asks: Seq::empty() }),
        snapshot_bytes(QuoteSnapshotView { ts: Some(v), bids: Seq::empty(), asks: Seq::empty() })
            == seq![0x08u8] + varint_bytes(v as u64),
{
    let buf = seq![0x08u8] + varint_bytes(v as u64);
    let end = buf.len() as int;
    let m = QuoteSnapshotView { ts: Some(v), bids: Seq::empty(), asks: Seq::empty() };
    assert(key_bytes(1, WireType::Varint) == seq![0x08u8]);
    assert(int64_bytes(1, Some(v)) == buf);
    assert(buf.subrange(0, end) =~= buf);
    lemma_int64_step(buf, 0, end, 1, v);
    assert(snapshot_merge(m, buf, end, end, RECURSION_LIMIT as nat) == Some(m));
    assert(levels_bytes(2, Seq::<Level>::empty()) == Seq::<u8>::empty());
    assert(levels_bytes(3, Seq::<Level>::empty()) == Seq::<u8>::empty());
    assert(snapshot_bytes(m) =~= buf);
}

/// Schema: field 1 of `Symbol` is `market`, an enum (`int32` varint) under
/// key byte `0x08`; alone it decodes to a symbol with that market number and
/// no code, and that symbol encodes to exactly that field.
pub proof fn law_symbol_field_1_is_market(v: i32)
    ensures
        symbol_merge(symbol_empty(), seq![0x08u8] + varint_bytes(v as u64), 0,
            (seq![0x08u8] + varint_bytes(v as u64)).len() as int, RECURSION_LIMIT as nat)
            == Some(SymbolView { market: Some(v), code: None }),
        symbol_bytes(SymbolView { market: Some(v), code: None }) == seq![0x08u8] + varint_bytes(v as u64),
{
    let buf = seq![0x08u8] + varint_bytes(v as u64);
    let end = buf.len() as int;
    let m = SymbolView { market: Some(v), code: None };
    assert(key_bytes(1, WireType::Varint) == seq![0x08u8]);
    assert(int32_bytes(1, Some(v)) == buf);
    assert(buf.subrange(0, end) =~= buf);
    lemma_int32_step(buf, 0, end, 1, v);
    assert(symbol_merge(m, buf, end, end, RECURSION_LIMIT as nat) == Some(m));
    assert(symbol_bytes(m) =~= buf);
}

/// Schema: field 2 of `Symbol` is `code`, a UTF-8 string under key byte
/// `0x12`; alone it decodes to a symbol with that code and no market, and
/// that symbol encodes to exactly that field.
pub proof fn law_symbol_field_2_is_code(c: Seq<char>)
    requires
        encode_utf8(c).len() <= usize::MAX,
    ensures
        symbol_merge(symbol_empty(), seq![0x12u8] + varint_bytes(encode_utf8(c).len() as u64) + encode_utf8(c), 0,
            (seq![0x12u8] + varint_bytes(encode_utf8(c).len() as u64) + encode_utf8(c)).len() as int,
            RECURSION_LIMIT as nat) == Some(SymbolView { market: None, code: Some(c) }),
        symbol_bytes(SymbolView { market: None, code: Some(c) })
            == seq![0x12u8] + varint_bytes(encode_utf8(c).len() as u64) + encode_utf8(c),
{
    let e = encode_utf8(c);
    let buf = seq![0x12u8] + varint_bytes(e.len() as u64) + e;
    let end = buf.len() as int;
    let m = SymbolView { market: None, code: Some(c) };
    assert(key_bytes(2, WireType::LengthDelimited) == seq![0x12u8]);
    assert(string_bytes(2, Some(c)) == buf);
    assert(buf.subrange(0, end) =~= buf);
    lemma_string_step(buf, 0, end, 2, c);
    assert(symbol_merge(m, buf, end, end, RECURSION_LIMIT as nat) == Some(m));
    assert(symbol_bytes(m) =~= buf);
}

// ---------------------------------------------------------------- enums

/// Schema: the numbers of `Market` are the positions of its variants in the
/// declaration (`Unspecified` 0, `A` 1, `Tw` 2, `Crypto` 3). Every variant
/// is read back from its number, and exactly the numbers 0 to 3 name a
/// variant, each the one declared at that position.
pub proof fn law_market_numbers(m: Market, v: i32)
    ensures
        market_of(m as i32) == Some(m),
        0 <= m as i32 <= 3,
        market_of(v) is Some <==> 0 <= v <= 3,
        market_of(v) matches Some(x) ==> x as i32 == v,
{
}

/// Schema: the numbers of `Period` are the positions of its variants in the
/// declaration (`Unspecified` 0, `M1` 1, `M5` 2, `M15` 3, `M30` 4, `M60` 5,
/// `D1` 6, `W1` 7, `Month1` 8). Every variant is read back from its number,
/// and exactly the numbers 0 to 8 name a variant, each the one declared at
/// that position.
pub proof fn law_period_numbers(p: Period, v: i32)
    ensures
        period_of(p as i32) == Some(p),
        0 <= p as i32 <= 8,
        period_of(v) is Some <==> 0 <= v <= 8,
        period_of(v) matches Some(x) ==> x as i32 == v,
{
}

} // verus!
