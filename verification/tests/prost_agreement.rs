//! Decoding agrees with the protobuf runtime: messages written against the
//! runtime's own field codecs accept and refuse the same byte strings and
//! read the same values.

use market_protocol::v1;
use prost::bytes::{Buf, BufMut};
use prost::encoding::{double, int32, int64, skip_field, string, DecodeContext, WireType};
use prost::DecodeError;
use prost::Message as _;

#[derive(Debug, Default, PartialEq)]
struct RuntimeResume {
    since_ts: Option<i64>,
    since_serial: Option<i64>,
}

impl prost::Message for RuntimeResume {
    fn encode_raw(&self, buf: &mut impl BufMut) {
        if let Some(v) = self.since_ts {
            int64::encode(1, &v, buf);
        }
        if let Some(v) = self.since_serial {
            int64::encode(2, &v, buf);
        }
    }
    fn merge_field(&mut self, tag: u32, wire_type: WireType, buf: &mut impl Buf, ctx: DecodeContext) -> Result<(), DecodeError> {
        match tag {
            1 => int64::merge(wire_type, self.since_ts.get_or_insert_with(Default::default), buf, ctx),
            2 => int64::merge(wire_type, self.since_serial.get_or_insert_with(Default::default), buf, ctx),
            _ => skip_field(wire_type, tag, buf, ctx),
        }
    }
    fn encoded_len(&self) -> usize {
        self.since_ts.map_or(0, |v| int64::encoded_len(1, &v)) + self.since_serial.map_or(0, |v| int64::encoded_len(2, &v))
    }
    fn clear(&mut self) {
        *self = Self::default();
    }
}

#[derive(Debug, Default, PartialEq)]
struct RuntimeSymbol {
    market: Option<i32>,
    code: Option<String>,
}

impl prost::Message for RuntimeSymbol {
    fn encode_raw(&self, buf: &mut impl BufMut) {
        if let Some(v) = self.market {
            int32::encode(1, &v, buf);
        }
        if let Some(v) = &self.code {
            string::encode(2, v, buf);
        }
    }
    fn merge_field(&mut self, tag: u32, wire_type: WireType, buf: &mut impl Buf, ctx: DecodeContext) -> Result<(), DecodeError> {
        match tag {
            1 => int32::merge(wire_type, self.market.get_or_insert_with(Default::default), buf, ctx),
            2 => string::merge(wire_type, self.code.get_or_insert_with(Default::default), buf, ctx),
            _ => skip_field(wire_type, tag, buf, ctx),
        }
    }
    fn encoded_len(&self) -> usize {
        self.market.map_or(0, |v| int32::encoded_len(1, &v)) + self.code.as_ref().map_or(0, |v| string::encoded_len(2, v))
    }
    fn clear(&mut self) {
        *self = Self::default();
    }
}

#[derive(Debug, Default, PartialEq)]
struct RuntimeLevel {
    price: Option<f64>,
    volume: Option<f64>,
}

impl prost::Message for RuntimeLevel {
    fn encode_raw(&self, buf: &mut impl BufMut) {
        if let Some(v) = self.price {
            double::encode(1, &v, buf);
        }
        if let Some(v) = self.volume {
            double::encode(2, &v, buf);
        }
    }
    fn merge_field(&mut self, tag: u32, wire_type: WireType, buf: &mut impl Buf, ctx: DecodeContext) -> Result<(), DecodeError> {
        match tag {
            1 => double::merge(wire_type, self.price.get_or_insert_with(Default::default), buf, ctx),
            2 => double::merge(wire_type, self.volume.get_or_insert_with(Default::default), buf, ctx),
            _ => skip_field(wire_type, tag, buf, ctx),
        }
    }
    fn encoded_len(&self) -> usize {
        self.price.map_or(0, |v| double::encoded_len(1, &v)) + self.volume.map_or(0, |v| double::encoded_len(2, &v))
    }
    fn clear(&mut self) {
        *self = Self::default();
    }
}

/// A message without fields: every field is skipped.
#[derive(Debug, Default, PartialEq)]
struct RuntimeEmpty {}

impl prost::Message for RuntimeEmpty {
    fn encode_raw(&self, _buf: &mut impl BufMut) {}
    fn merge_field(&mut self, tag: u32, wire_type: WireType, buf: &mut impl Buf, ctx: DecodeContext) -> Result<(), DecodeError> {
        skip_field(wire_type, tag, buf, ctx)
    }
    fn encoded_len(&self) -> usize {
        0
    }
    fn clear(&mut self) {}
}

/// Deterministic byte strings rich in keys, continuation bytes and groups.
struct Inputs {
    state: u64,
}

impl Inputs {
    fn next(&mut self) -> u64 {
        self.state = self.state.wrapping_mul(6364136223846793005).wrapping_add(1442695040888963407);
        self.state >> 33
    }

    fn bytes(&mut self) -> Vec<u8> {
        const ALPHABET: [u8; 24] = [
            0x00, 0x01, 0x02, 0x05, 0x08, 0x09, 0x0a, 0x0b, 0x0c, 0x0d, 0x10, 0x11, 0x12, 0x13, 0x14, 0x15,
            0x1a, 0x48, 0x4b, 0x4c, 0x7f, 0x80, 0xc3, 0xff,
        ];
        let len = (self.next() % 20) as usize;
        (0..len)
            .map(|_| {
                let r = self.next();
                if r % 4 == 0 {
                    (r >> 8) as u8
                } else {
                    ALPHABET[(r >> 8) as usize % ALPHABET.len()]
                }
            })
            .collect()
    }
}

#[test]
fn decoding_agrees_with_the_protobuf_runtime() {
    let mut inputs = Inputs { state: 0x5eed };
    let mut accepted = 0;
    for _ in 0..40_000 {
        let bytes = inputs.bytes();

        let ours = v1::Resume::decode(&bytes).ok().map(|m| (m.since_ts, m.since_serial));
        let theirs = RuntimeResume::decode(bytes.as_slice()).ok().map(|m| (m.since_ts, m.since_serial));
        assert_eq!(ours, theirs, "Resume {bytes:02x?}");

        let ours = v1::Symbol::decode(&bytes).ok().map(|m| (m.market, m.code));
        let theirs = RuntimeSymbol::decode(bytes.as_slice()).ok().map(|m| (m.market, m.code));
        assert_eq!(ours, theirs, "Symbol {bytes:02x?}");

        let ours = v1::Level::decode(&bytes).ok().map(|m| (m.price, m.volume));
        let theirs = RuntimeLevel::decode(bytes.as_slice())
            .ok()
            .map(|m| (m.price.map(f64::to_bits), m.volume.map(f64::to_bits)));
        assert_eq!(ours, theirs, "Level {bytes:02x?}");

        let ours = v1::Heartbeat::decode(&bytes).is_ok();
        let theirs = RuntimeEmpty::decode(bytes.as_slice()).is_ok();
        assert_eq!(ours, theirs, "Heartbeat {bytes:02x?}");
        if ours {
            accepted += 1;
        }
    }
    assert!(accepted > 1_000);
}

#[test]
fn encoding_agrees_with_the_protobuf_runtime() {
    let resume = v1::Resume { since_ts: Some(-5), since_serial: Some(1 << 40) };
    let runtime = RuntimeResume { since_ts: Some(-5), since_serial: Some(1 << 40) };
    assert_eq!(resume.encode_to_vec(), runtime.encode_to_vec());

    let symbol = v1::Symbol { market: Some(-1), code: Some("台股 2330".to_owned()) };
    let runtime = RuntimeSymbol { market: Some(-1), code: Some("台股 2330".to_owned()) };
    assert_eq!(symbol.encode_to_vec(), runtime.encode_to_vec());

    let level = v1::Level { price: Some(3.207f64.to_bits()), volume: None };
    let runtime = RuntimeLevel { price: Some(3.207), volume: None };
    assert_eq!(level.encode_to_vec(), runtime.encode_to_vec());
}
