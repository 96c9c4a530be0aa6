use market_protocol::frame::control_frame_kind;
use market_protocol::message::MarketMessage;
use market_protocol::types::{Kline, Level, Period, Quote, QuoteSnapshot, Tick};
use market_protocol::{Market, Message, Symbol};

fn b(x: f64) -> u64 {
    x.to_bits()
}

fn a_symbol() -> Symbol {
    Symbol::new(Market::A, "560010")
}

fn tw_symbol(code: &str) -> Symbol {
    Symbol::new(Market::Tw, code)
}

fn sample_quote() -> Quote {
    Quote {
        ts: 1_787_904_896_000,
        price: b(3.208),
        open: b(3.211),
        high: b(3.245),
        low: b(3.204),
        pre_close: b(3.220),
        volume: b(132_886_000.0),
        amount: b(428_272_326.0),
        in_vol: Some(b(69_090_700.0)),
        out_vol: Some(b(63_795_300.0)),
    }
}

fn sample_tick() -> Tick {
    Tick {
        ts: 1_787_887_504_611,
        price: b(1420.0),
        volume: b(2_000.0),
        buy_price: Some(b(1420.0)),
        sell_price: Some(b(1425.0)),
        inout_flag: Some(1),
        serial: 42,
    }
}

fn sample_kline() -> Kline {
    Kline {
        ts: 1_787_500_800_000,
        period: Period::D1,
        open: b(32.3),
        high: b(32.30),
        low: b(31.70),
        close: b(31.8),
        volume: b(70_951.0),
        amount: b(2_260_790.0),
        turnover: Some(b(74.0)),
        pre_close: Some(b(32.0)),
    }
}

fn sample_snapshot() -> QuoteSnapshot {
    QuoteSnapshot {
        ts: 1_787_904_896_000,
        bids: vec![
            Level { price: b(3.207), volume: b(10_000.0) },
            Level { price: b(3.206), volume: b(20_000.0) },
        ],
        asks: vec![Level { price: b(3.208), volume: b(5_000.0) }],
    }
}

fn messages() -> Vec<MarketMessage> {
    vec![
        MarketMessage::Quote { symbol: a_symbol(), data: sample_quote() },
        MarketMessage::Tick { symbol: tw_symbol("2330"), data: sample_tick() },
        MarketMessage::Kline { symbol: tw_symbol("1437"), data: sample_kline() },
        MarketMessage::QuoteSnapshot { symbol: a_symbol(), data: sample_snapshot() },
    ]
}

#[test]
fn accessors_return_symbol_and_data_ts() {
    let quote = MarketMessage::Quote { symbol: a_symbol(), data: sample_quote() };
    assert_eq!(quote.symbol(), &a_symbol());
    assert_eq!(quote.timestamp(), 1_787_904_896_000);

    let tick = MarketMessage::Tick { symbol: tw_symbol("2330"), data: sample_tick() };
    assert_eq!(tick.symbol(), &tw_symbol("2330"));
    assert_eq!(tick.timestamp(), 1_787_887_504_611);

    let kline = MarketMessage::Kline { symbol: tw_symbol("1437"), data: sample_kline() };
    assert_eq!(kline.symbol(), &tw_symbol("1437"));
    assert_eq!(kline.timestamp(), 1_787_500_800_000);

    let snapshot = MarketMessage::QuoteSnapshot { symbol: a_symbol(), data: sample_snapshot() };
    assert_eq!(snapshot.symbol(), &a_symbol());
    assert_eq!(snapshot.timestamp(), 1_787_904_896_000);
}

#[test]
fn old_consumer_known_variants_still_work() {
    // An older consumer handles the four known variants and falls back with
    // `_` for variants added later.
    #[allow(unreachable_patterns)]
    fn consume(msg: &MarketMessage) -> i64 {
        match msg {
            MarketMessage::Quote { data, .. } => data.ts,
            MarketMessage::Tick { data, .. } => data.ts,
            MarketMessage::Kline { data, .. } => data.ts,
            MarketMessage::QuoteSnapshot { data, .. } => data.ts,
            _ => 0,
        }
    }

    for msg in &messages() {
        assert_eq!(consume(msg), msg.timestamp());
    }
}

#[test]
fn kind_returns_envelope_type_label_for_all_variants() {
    let expected = ["quote", "tick", "kline", "quote_snapshot"];
    for (msg, expected_kind) in messages().iter().zip(expected) {
        assert_eq!(msg.kind(), expected_kind);
    }
}

#[test]
fn symbol_and_timestamp_match_enum_accessors() {
    for msg in messages() {
        let dyn_msg: &dyn Message = &msg;
        assert_eq!(dyn_msg.symbol(), msg.symbol());
        assert_eq!(dyn_msg.timestamp(), msg.timestamp());
    }
}

#[test]
fn fanout_can_consume_via_dyn_message() {
    let mut kinds = Vec::new();
    let mut fanout = |msg: &dyn Message| kinds.push(msg.kind());
    for msg in &messages() {
        fanout(msg);
    }
    assert_eq!(kinds, vec!["quote", "tick", "kline", "quote_snapshot"]);
}

#[test]
fn symbol_new_keeps_leading_zeros() {
    let s = Symbol::new(Market::A, "000001");
    assert_eq!(s.market, Market::A);
    assert_eq!(s.code, "000001");
    let owned = Symbol::new(Market::Crypto, String::from("BTC-USDT"));
    assert_eq!(owned.code, "BTC-USDT");
}

#[test]
fn message_kinds_are_never_control_frame_kinds() {
    for msg in messages() {
        assert_eq!(control_frame_kind(Some(msg.kind())), None);
    }
}
