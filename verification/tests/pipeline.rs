//! Resume semantics with the `(ts, serial)` cursor: ticks are located exactly,
//! snapshot-like messages may be resent at `ts` granularity.

use market_protocol::frame::resume_json;
use market_protocol::message::MarketMessage;
use market_protocol::types::{Kline, Level, Period, Quote, QuoteSnapshot, Tick};
use market_protocol::{Market, Message, Symbol};

type DynSink<'a> = &'a mut dyn FnMut(&dyn Message);
type EnumSink<'a> = &'a mut dyn FnMut(&MarketMessage);

fn fanout_dyn(msg: &dyn Message, subscribers: &mut [DynSink<'_>]) {
    for subscriber in subscribers {
        subscriber(msg);
    }
}

fn fanout_enum(msg: &MarketMessage, subscribers: &mut [EnumSink<'_>]) {
    for subscriber in subscribers {
        subscriber(msg);
    }
}

fn b(x: f64) -> u64 {
    x.to_bits()
}

fn a_symbol() -> Symbol {
    Symbol::new(Market::A, "560010")
}

fn tw_symbol(code: &str) -> Symbol {
    Symbol::new(Market::Tw, code)
}

fn sample_quote(ts: i64) -> Quote {
    Quote {
        ts,
        price: b(3.208),
        open: b(3.211),
        high: b(3.245),
        low: b(3.204),
        pre_close: b(3.220),
        volume: b(132_886_000.0),
        amount: b(428_272_326.0),
        in_vol: Some(b(69_090_700.0)),
        out_vol: Some(b(63_795_300.0)),
    }
}

fn sample_tick(ts: i64, serial: i64) -> Tick {
    Tick {
        ts,
        price: b(1420.0),
        volume: b(2_000.0),
        buy_price: Some(b(1420.0)),
        sell_price: Some(b(1425.0)),
        inout_flag: Some(1),
        serial,
    }
}

fn sample_kline(ts: i64) -> Kline {
    Kline {
        ts,
        period: Period::D1,
        open: b(32.3),
        high: b(32.30),
        low: b(31.70),
        close: b(31.8),
        volume: b(70_951.0),
        amount: b(2_260_790.0),
        turnover: Some(b(74.0)),
        pre_close: Some(b(32.0)),
    }
}

fn sample_snapshot(ts: i64) -> QuoteSnapshot {
    QuoteSnapshot {
        ts,
        bids: vec![Level { price: b(3.207), volume: b(10_000.0) }],
        asks: vec![Level { price: b(3.208), volume: b(5_000.0) }],
    }
}

fn sample_messages() -> Vec<MarketMessage> {
    vec![
        MarketMessage::Quote { symbol: a_symbol(), data: sample_quote(1_000) },
        MarketMessage::Tick { symbol: tw_symbol("2330"), data: sample_tick(2_000, 1) },
        MarketMessage::Tick { symbol: tw_symbol("2330"), data: sample_tick(2_000, 2) },
        MarketMessage::Tick { symbol: tw_symbol("2330"), data: sample_tick(2_000, 3) },
        MarketMessage::Kline { symbol: tw_symbol("1437"), data: sample_kline(3_000) },
        MarketMessage::QuoteSnapshot { symbol: a_symbol(), data: sample_snapshot(4_000) },
    ]
}

#[derive(Debug, Clone, Copy, PartialEq, Eq)]
struct Cursor {
    ts: i64,
    serial: i64,
}

fn cursor_of(msg: &MarketMessage) -> Cursor {
    let serial = match msg {
        MarketMessage::Tick { data, .. } => data.serial,
        _ => 0,
    };
    Cursor { ts: msg.timestamp(), serial }
}

/// Server-side resume filter: ticks by `(ts, serial)`; other messages by
/// `ts >= since_ts`, resending same-`ts` snapshots rather than leaving gaps.
fn resume_after(messages: &[MarketMessage], cursor: Cursor) -> Vec<MarketMessage> {
    messages
        .iter()
        .filter(|m| match m {
            MarketMessage::Tick { data, .. } => {
                data.ts > cursor.ts || (data.ts == cursor.ts && data.serial > cursor.serial)
            }
            _ => m.timestamp() >= cursor.ts,
        })
        .cloned()
        .collect()
}

#[test]
fn resume_does_not_skip_same_ts_non_tick_even_with_imperfect_order() {
    let messages = vec![
        MarketMessage::Quote { symbol: a_symbol(), data: sample_quote(2_000) },
        MarketMessage::Tick { symbol: tw_symbol("2330"), data: sample_tick(2_000, 1) },
        MarketMessage::Kline { symbol: tw_symbol("1437"), data: sample_kline(2_000) },
        MarketMessage::Tick { symbol: tw_symbol("2330"), data: sample_tick(2_000, 2) },
    ];

    let consumed = &messages[..2];
    let cursor = cursor_of(consumed.last().expect("consumed non-empty"));
    let resumed = resume_after(&messages, cursor);

    assert!(
        resumed
            .iter()
            .any(|m| matches!(m, MarketMessage::Kline { data, .. } if data.ts == 2_000))
    );
    assert_eq!(
        resumed
            .iter()
            .filter(|m| matches!(m, MarketMessage::Tick { .. }))
            .count(),
        1
    );
    if let Some(MarketMessage::Tick { data, .. }) = resumed.last() {
        assert_eq!(data.serial, 2);
    } else {
        panic!("last resumed message should be Tick serial 2");
    }
}

#[test]
fn resume_at_stream_start_returns_full_history() {
    let all = sample_messages();
    let resumed = resume_after(&all, Cursor { ts: 0, serial: 0 });
    assert_eq!(resumed, all);
}

#[test]
fn resume_at_stream_end_has_no_new_messages() {
    let all = sample_messages();
    let last = all.last().expect("sample stream non-empty");
    let cursor = cursor_of(last);
    let resumed = resume_after(&all, cursor);

    assert!(resumed.iter().all(|m| m.timestamp() == cursor.ts));
    assert!(
        resumed
            .iter()
            .all(|m| !matches!(m, MarketMessage::Tick { .. }))
    );
}

#[test]
fn resume_after_disconnect_has_no_duplicates_and_no_gaps_for_ticks() {
    let all = sample_messages();
    let consumed: Vec<MarketMessage> = all.iter().take(3).cloned().collect();
    let cursor = cursor_of(consumed.last().expect("consumed non-empty"));

    let resume = resume_json(cursor.ts, cursor.serial);
    assert_eq!(
        resume,
        format!(
            r#"{{"type":"resume","since_ts":{},"since_serial":{}}}"#,
            cursor.ts, cursor.serial
        )
    );

    let resumed = resume_after(&all, cursor);
    let kinds: Vec<_> = resumed.iter().map(|m| m.kind()).collect();
    assert_eq!(kinds, vec!["tick", "kline", "quote_snapshot"]);
    if let MarketMessage::Tick { data, .. } = &resumed[0] {
        assert_eq!(data.serial, 3);
    } else {
        panic!("first resumed message should be Tick serial 3");
    }
    let mut combined = consumed;
    combined.extend(resumed);
    assert_eq!(combined, all);
}

#[test]
fn normal_pipeline_delivers_all_messages_to_both_subscribers() {
    // The frames of the stream are taken as already parsed: their textual
    // form belongs to the JSON layer outside this crate.
    let parsed = sample_messages();

    let mut subscriber_a = Vec::new();
    let mut subscriber_b = Vec::new();
    for msg in &parsed {
        fanout_dyn(
            msg,
            &mut [
                &mut |m: &dyn Message| {
                    subscriber_a.push((m.kind().to_string(), m.symbol().code.clone(), m.timestamp()));
                },
                &mut |m: &dyn Message| {
                    subscriber_b.push((m.kind().to_string(), m.symbol().code.clone(), m.timestamp()));
                },
            ],
        );
    }

    let expected: Vec<_> = parsed
        .iter()
        .map(|m| (m.kind().to_string(), m.symbol().code.clone(), m.timestamp()))
        .collect();
    assert_eq!(subscriber_a, expected);
    assert_eq!(subscriber_b, expected);

    let mut enum_sink = Vec::new();
    for msg in &parsed {
        fanout_enum(msg, &mut [&mut |m: &MarketMessage| {
            enum_sink.push(m.kind().to_string());
        }]);
    }
    assert_eq!(enum_sink, expected.iter().map(|(k, _, _)| k.clone()).collect::<Vec<_>>());
}
