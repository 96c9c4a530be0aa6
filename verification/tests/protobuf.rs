use market_protocol::v1;
use market_protocol::wire::DecodeError;
use prost::encoding::{encode_key, encode_varint, WireType};

fn bits(x: f64) -> Option<u64> {
    Some(x.to_bits())
}

fn quote() -> v1::Quote {
    v1::Quote {
        ts: Some(1_787_904_896_000),
        price: bits(3.208),
        open: bits(3.211),
        high: bits(3.245),
        low: bits(3.204),
        pre_close: bits(3.220),
        volume: bits(132_886_000.0),
        amount: bits(428_272_326.0),
        in_vol: bits(69_090_700.0),
        out_vol: bits(63_795_300.0),
    }
}

fn market_frame() -> v1::TransportFrame {
    v1::TransportFrame {
        payload: Some(v1::transport_frame::Payload::Market(v1::MarketEnvelope {
            symbol: Some(v1::Symbol {
                market: Some(v1::Market::A as i32),
                code: Some("560010".to_owned()),
            }),
            payload: Some(v1::market_envelope::Payload::Quote(quote())),
        })),
    }
}

fn hex_bytes(value: &str) -> Vec<u8> {
    value
        .trim()
        .as_bytes()
        .chunks_exact(2)
        .map(|pair| {
            let high = (pair[0] as char).to_digit(16).unwrap();
            let low = (pair[1] as char).to_digit(16).unwrap();
            ((high << 4) | low) as u8
        })
        .collect()
}

/// The pinned encoding of `market_frame()`.
const QUOTE_TRANSPORT_HEX: &str = "0a660a0a0801120635363030313012580880d8bebb843411448b6ce7fba9094019e3a59bc420b0094021f6285c8fc2f50940296f1283c0caa1094031c3f5285c8fc2094039000000c0b7ae9f4141000000c6ea86b9414900000030f67890415100000020836b8e41";

#[test]
fn rust_fixture_is_stable_for_the_pinned_encoder() {
    let expected = hex_bytes(QUOTE_TRANSPORT_HEX);
    assert_eq!(market_frame().encode_to_vec(), expected);
}

#[test]
fn market_data_round_trips_through_transport_frame() {
    let encoded = market_frame().encode_to_vec();
    let decoded = v1::TransportFrame::decode(encoded.as_slice()).unwrap();

    let Some(v1::transport_frame::Payload::Market(envelope)) = decoded.payload else {
        panic!("expected market transport payload");
    };
    assert_eq!(envelope.symbol.unwrap().code.as_deref(), Some("560010"));
    let Some(v1::market_envelope::Payload::Quote(quote)) = envelope.payload else {
        panic!("expected quote payload");
    };
    assert_eq!(quote.price, bits(3.208));
    assert_eq!(quote.in_vol, bits(69_090_700.0));
}

#[test]
fn all_market_payloads_use_the_same_envelope() {
    let symbol = v1::Symbol {
        market: Some(v1::Market::Tw as i32),
        code: Some("2330".to_owned()),
    };
    let payloads = [
        v1::market_envelope::Payload::Quote(quote()),
        v1::market_envelope::Payload::Tick(v1::Tick {
            ts: Some(1),
            price: bits(2.0),
            volume: bits(3.0),
            buy_price: None,
            sell_price: None,
            inout_flag: None,
            serial: Some(4),
        }),
        v1::market_envelope::Payload::Kline(v1::Kline {
            ts: Some(1),
            period: Some(v1::Period::D1 as i32),
            open: bits(1.0),
            high: bits(1.0),
            low: bits(1.0),
            close: bits(1.0),
            volume: bits(1.0),
            amount: bits(1.0),
            turnover: None,
            pre_close: None,
        }),
        v1::market_envelope::Payload::QuoteSnapshot(v1::QuoteSnapshot {
            ts: Some(1),
            bids: vec![],
            asks: vec![],
        }),
    ];

    for payload in payloads {
        let frame = v1::TransportFrame {
            payload: Some(v1::transport_frame::Payload::Market(v1::MarketEnvelope {
                symbol: Some(symbol.clone()),
                payload: Some(payload),
            })),
        };
        let decoded = v1::TransportFrame::decode(frame.encode_to_vec().as_slice()).unwrap();
        assert!(matches!(
            decoded.payload,
            Some(v1::transport_frame::Payload::Market(_))
        ));
    }
}

#[test]
fn control_frames_are_binary_oneof_variants() {
    let heartbeat = v1::TransportFrame {
        payload: Some(v1::transport_frame::Payload::Heartbeat(v1::Heartbeat {})),
    };
    assert_eq!(
        v1::TransportFrame::decode(heartbeat.encode_to_vec().as_slice())
            .unwrap()
            .payload
            .map(|payload| match payload {
                v1::transport_frame::Payload::Heartbeat(_) => "heartbeat",
                _ => "other",
            }),
        Some("heartbeat")
    );

    let resume = v1::TransportFrame {
        payload: Some(v1::transport_frame::Payload::Resume(v1::Resume {
            since_ts: Some(123),
            since_serial: Some(456),
        })),
    };
    let decoded = v1::TransportFrame::decode(resume.encode_to_vec().as_slice()).unwrap();
    let Some(v1::transport_frame::Payload::Resume(resume)) = decoded.payload else {
        panic!("expected resume payload");
    };
    assert_eq!(resume.since_ts, Some(123));
    assert_eq!(resume.since_serial, Some(456));
}

#[test]
fn optional_fields_preserve_missing_and_explicit_zero() {
    let missing = v1::Quote::default();
    assert_eq!(missing.price, None);

    let explicit_zero = v1::Quote {
        price: bits(0.0),
        ..Default::default()
    };
    assert_eq!(explicit_zero.price, bits(0.0));
}

#[test]
fn malformed_wire_is_rejected() {
    assert!(v1::TransportFrame::decode([0x80].as_slice()).is_err());
}

// ------------------------------------------------------------------
// Further cases of the codec.

#[test]
fn encoding_matches_the_protobuf_runtime() {
    // Build the expected bytes of `market_frame()` field by field with the
    // protobuf runtime's own primitives.
    let mut symbol = Vec::new();
    encode_key(1, WireType::Varint, &mut symbol);
    encode_varint(1, &mut symbol);
    encode_key(2, WireType::LengthDelimited, &mut symbol);
    encode_varint(6, &mut symbol);
    symbol.extend_from_slice(b"560010");

    let mut q = Vec::new();
    encode_key(1, WireType::Varint, &mut q);
    encode_varint(1_787_904_896_000, &mut q);
    let doubles = [3.208, 3.211, 3.245, 3.204, 3.220, 132_886_000.0, 428_272_326.0, 69_090_700.0, 63_795_300.0];
    for (i, x) in doubles.iter().enumerate() {
        prost::encoding::double::encode(i as u32 + 2, x, &mut q);
    }

    let mut envelope = Vec::new();
    encode_key(1, WireType::LengthDelimited, &mut envelope);
    encode_varint(symbol.len() as u64, &mut envelope);
    envelope.extend_from_slice(&symbol);
    encode_key(2, WireType::LengthDelimited, &mut envelope);
    encode_varint(q.len() as u64, &mut envelope);
    envelope.extend_from_slice(&q);

    let mut frame = Vec::new();
    encode_key(1, WireType::LengthDelimited, &mut frame);
    encode_varint(envelope.len() as u64, &mut frame);
    frame.extend_from_slice(&envelope);

    assert_eq!(market_frame().encode_to_vec(), frame);
}

#[test]
fn heartbeat_frame_encodes_as_empty_member() {
    let heartbeat = v1::TransportFrame {
        payload: Some(v1::transport_frame::Payload::Heartbeat(v1::Heartbeat {})),
    };
    assert_eq!(heartbeat.encode_to_vec(), vec![0x12, 0x00]);
}

#[test]
fn empty_frame_encodes_as_nothing_and_decodes_without_payload() {
    let empty = v1::TransportFrame { payload: None };
    assert!(empty.encode_to_vec().is_empty());
    assert_eq!(v1::TransportFrame::decode(&[]).unwrap(), empty);
}

#[test]
fn negative_values_and_unknown_enum_numbers_round_trip() {
    let frame = v1::TransportFrame {
        payload: Some(v1::transport_frame::Payload::Market(v1::MarketEnvelope {
            symbol: Some(v1::Symbol { market: Some(-7), code: Some("台積電".to_owned()) }),
            payload: Some(v1::market_envelope::Payload::Tick(v1::Tick {
                ts: Some(-1),
                price: bits(-0.0),
                volume: bits(f64::NAN),
                buy_price: None,
                sell_price: bits(1e300),
                inout_flag: Some(15),
                serial: Some(-1),
            })),
        })),
    };
    let bytes = frame.encode_to_vec();
    let decoded = v1::TransportFrame::decode(&bytes).unwrap();
    // The NaN volume makes the frames unequal under `==`, as with `f64`;
    // the bits are compared instead.
    assert_ne!(decoded, frame);
    assert_eq!(decoded.encode_to_vec(), bytes);
    let Some(v1::transport_frame::Payload::Market(envelope)) = decoded.payload else {
        panic!("expected market transport payload");
    };
    assert_eq!(envelope.symbol.unwrap().code.as_deref(), Some("台積電"));
    let Some(v1::market_envelope::Payload::Tick(tick)) = envelope.payload else {
        panic!("expected tick payload");
    };
    assert_eq!(tick.price, bits(-0.0));
    assert_eq!(tick.volume, bits(f64::NAN));
    assert_eq!(tick.serial, Some(-1));
}

#[test]
fn real_fields_compare_as_f64() {
    let zero = v1::Level { price: bits(0.0), volume: None };
    let negative_zero = v1::Level { price: bits(-0.0), volume: None };
    assert_eq!(zero, negative_zero);
    let nan = v1::Level { price: bits(f64::NAN), volume: None };
    assert_ne!(nan, nan);
    assert_ne!(zero, v1::Level { price: None, volume: None });
    assert_ne!(zero, v1::Level { price: bits(1.0), volume: None });
    assert_eq!(v1::Level { price: bits(f64::INFINITY), volume: None }, v1::Level { price: bits(f64::INFINITY), volume: None });
}

#[test]
fn snapshot_with_many_levels_round_trips() {
    let level = |p: f64, v: f64| v1::Level { price: bits(p), volume: bits(v) };
    let frame = v1::TransportFrame {
        payload: Some(v1::transport_frame::Payload::Market(v1::MarketEnvelope {
            symbol: None,
            payload: Some(v1::market_envelope::Payload::QuoteSnapshot(v1::QuoteSnapshot {
                ts: Some(1_787_904_896_000),
                bids: vec![level(3.207, 10_000.0), level(3.206, 20_000.0), v1::Level::default()],
                asks: vec![level(3.208, 5_000.0)],
            })),
        })),
    };
    let bytes = frame.encode_to_vec();
    assert_eq!(v1::TransportFrame::decode(&bytes).unwrap(), frame);
}

#[test]
fn truncated_frames_are_rejected() {
    let bytes = market_frame().encode_to_vec();
    for cut in 1..bytes.len() {
        assert!(v1::TransportFrame::decode(&bytes[..cut]).is_err(), "cut at {cut}");
    }
}

#[test]
fn unknown_fields_are_skipped() {
    // Unknown varint field 9, unknown length-delimited field 10, an unknown
    // group 11 holding a varint, then the frame itself.
    let mut bytes = vec![0x48, 0x96, 0x01, 0x52, 0x02, 0xaa, 0xbb, 0x5b, 0x08, 0x01, 0x5c];
    bytes.extend(market_frame().encode_to_vec());
    assert_eq!(v1::TransportFrame::decode(&bytes).unwrap(), market_frame());
}

#[test]
fn repeated_fields_keep_the_last_scalar_and_merge_messages() {
    // Resume with since_ts given twice: the last value stands.
    let bytes = [0x1a, 0x04, 0x08, 0x01, 0x08, 0x02];
    let decoded = v1::TransportFrame::decode(&bytes).unwrap();
    assert_eq!(
        decoded.payload,
        Some(v1::transport_frame::Payload::Resume(v1::Resume { since_ts: Some(2), since_serial: None }))
    );
    // Two resume members: the second is merged into the first.
    let bytes = [0x1a, 0x02, 0x08, 0x05, 0x1a, 0x02, 0x10, 0x06];
    let decoded = v1::TransportFrame::decode(&bytes).unwrap();
    assert_eq!(
        decoded.payload,
        Some(v1::transport_frame::Payload::Resume(v1::Resume { since_ts: Some(5), since_serial: Some(6) }))
    );
    // A heartbeat member after a resume member replaces it.
    let bytes = [0x1a, 0x02, 0x08, 0x05, 0x12, 0x00];
    let decoded = v1::TransportFrame::decode(&bytes).unwrap();
    assert_eq!(decoded.payload, Some(v1::transport_frame::Payload::Heartbeat(v1::Heartbeat {})));
}

#[test]
fn wrong_wire_type_for_known_field_is_rejected() {
    // Field 1 of Resume with wire type 64-bit instead of varint.
    let bytes = [0x1a, 0x09, 0x09, 0, 0, 0, 0, 0, 0, 0, 0];
    assert_eq!(v1::TransportFrame::decode(&bytes), Err(DecodeError));
}

#[test]
fn invalid_utf8_code_is_rejected() {
    // MarketEnvelope { symbol: Symbol { code: [0xff] } }
    let bytes = [0x0a, 0x05, 0x0a, 0x03, 0x12, 0x01, 0xff];
    assert!(v1::TransportFrame::decode(&bytes).is_err());
}

#[test]
fn invalid_keys_are_rejected() {
    // Field number 0.
    assert!(v1::TransportFrame::decode(&[0x00, 0x00]).is_err());
    // Wire type 6.
    assert!(v1::TransportFrame::decode(&[0x0e]).is_err());
    // End group without a start.
    assert!(v1::TransportFrame::decode(&[0x4c]).is_err());
    // A varint of eleven bytes.
    assert!(v1::TransportFrame::decode(&[0x48, 0xff, 0xff, 0xff, 0xff, 0xff, 0xff, 0xff, 0xff, 0xff, 0xff, 0x01]).is_err());
    // A ten-byte varint whose last byte overflows 64 bits.
    assert!(v1::TransportFrame::decode(&[0x48, 0xff, 0xff, 0xff, 0xff, 0xff, 0xff, 0xff, 0xff, 0xff, 0x02]).is_err());
    // The largest ten-byte varint is accepted.
    assert!(v1::TransportFrame::decode(&[0x48, 0xff, 0xff, 0xff, 0xff, 0xff, 0xff, 0xff, 0xff, 0xff, 0x01]).is_ok());
    // A length that runs past the end.
    assert!(v1::TransportFrame::decode(&[0x0a, 0x05, 0x00]).is_err());
}

#[test]
fn deeply_nested_groups_hit_the_recursion_limit() {
    // 100 nested groups of field 9 fit within the limit; 101 do not.
    let nest = |n: usize| {
        let mut b = vec![0x4b; n];
        b.extend(vec![0x4c; n]);
        b
    };
    assert!(v1::TransportFrame::decode(&nest(100)).is_ok());
    assert!(v1::TransportFrame::decode(&nest(101)).is_err());
}

#[test]
fn market_and_period_numbers_match_the_schema() {
    assert_eq!(v1::Market::A as i32, 1);
    assert_eq!(v1::Market::from_i32(2), Some(v1::Market::Tw));
    assert_eq!(v1::Market::from_i32(4), None);
    assert_eq!(v1::Market::Crypto.to_i32(), 3);
    assert_eq!(v1::Period::D1 as i32, 6);
    assert_eq!(v1::Period::from_i32(8), Some(v1::Period::Month1));
    assert_eq!(v1::Period::from_i32(-1), None);
    assert_eq!(v1::Period::M1.to_i32(), 1);
}

#[test]
fn leaf_messages_decode_on_their_own() {
    let q = quote();
    assert_eq!(v1::Quote::decode(&q.encode_to_vec()).unwrap(), q);
    let l = v1::Level { price: bits(1.5), volume: None };
    assert_eq!(l.encode_to_vec(), {
        let mut v = vec![0x09];
        v.extend(1.5f64.to_le_bytes());
        v
    });
    assert_eq!(v1::Level::decode(&l.encode_to_vec()).unwrap(), l);
    let s = v1::Symbol { market: Some(1), code: Some("000001".to_owned()) };
    assert_eq!(v1::Symbol::decode(&s.encode_to_vec()).unwrap(), s);
}

#[test]
fn getters_give_defaults_for_unset_fields() {
    let q = quote();
    assert_eq!(q.ts(), 1_787_904_896_000);
    assert_eq!(f64::from_bits(q.price()), 3.208);
    assert_eq!(v1::Quote::default().price(), 0.0f64.to_bits());
    assert_eq!(v1::Tick::default().serial(), 0);
    let mut s = v1::Symbol { market: Some(9), code: None };
    assert_eq!(s.market(), v1::Market::Unspecified);
    assert_eq!(s.code(), "");
    s.set_market(v1::Market::Tw);
    assert_eq!(s.market, Some(2));
    assert_eq!(s.market(), v1::Market::Tw);
    let mut k = v1::Kline::default();
    assert_eq!(k.period(), v1::Period::Unspecified);
    k.set_period(v1::Period::W1);
    assert_eq!(k.period, Some(7));
    assert_eq!(v1::Resume { since_ts: Some(5), since_serial: None }.since_serial(), 0);
}
