use market_protocol::types::{Kline, Level, Period, Quote, QuoteSnapshot, Tick};

fn b(x: f64) -> u64 {
    x.to_bits()
}

#[test]
fn real_a_share_560010_quote_fixture() {
    let quote = Quote {
        ts: 1_787_904_896_000,
        price: b(3.208),
        open: b(3.211),
        high: b(3.245),
        low: b(3.204),
        pre_close: b(3.220),
        volume: b(132_886_000.0),
        amount: b(428_272_326.0),
        in_vol: Some(b(69_090_700.0)),
        out_vol: Some(b(63_795_300.0)),
    };

    assert_eq!(quote.ts, 1_787_904_896_000);
    assert_eq!(f64::from_bits(quote.price), 3.208);
    assert_eq!(f64::from_bits(quote.open), 3.211);
    assert_eq!(f64::from_bits(quote.high), 3.245);
    assert_eq!(f64::from_bits(quote.low), 3.204);
    assert_eq!(f64::from_bits(quote.pre_close), 3.220);
    assert_eq!(f64::from_bits(quote.volume), 132_886_000.0);
    assert_eq!(f64::from_bits(quote.amount), 428_272_326.0);
    assert_eq!(quote.in_vol.map(f64::from_bits), Some(69_090_700.0));
    assert_eq!(quote.out_vol.map(f64::from_bits), Some(63_795_300.0));
}

#[test]
fn real_tw_2330_quote_fixture() {
    let quote = Quote {
        ts: 1_787_887_504_611,
        price: b(1420.0),
        open: b(1415.0),
        high: b(1430.0),
        low: b(1410.0),
        pre_close: b(1410.0),
        volume: b(14_992.0),
        amount: b(21_289_000.0),
        in_vol: Some(b(7_997.0)),
        out_vol: Some(b(6_995.0)),
    };

    assert_eq!(f64::from_bits(quote.price), 1420.0);
    assert_eq!(f64::from_bits(quote.volume), 14_992.0);
    assert_eq!(quote.in_vol.map(f64::from_bits), Some(7_997.0));
    assert_eq!(quote.out_vol.map(f64::from_bits), Some(6_995.0));
}

#[test]
fn real_tw_1437_kline_fixture() {
    let kline = Kline {
        ts: 1_787_500_800_000,
        period: Period::D1,
        open: b(32.3),
        high: b(32.30),
        low: b(31.70),
        close: b(31.8),
        volume: b(70_951.0),
        amount: b(2_260_790.0),
        turnover: Some(b(74.0)),
        pre_close: Some(b(32.0)),
    };

    assert_eq!(kline.period, Period::D1);
    assert_eq!(f64::from_bits(kline.open), 32.3);
    assert_eq!(f64::from_bits(kline.high), 32.30);
    assert_eq!(f64::from_bits(kline.low), 31.70);
    assert_eq!(f64::from_bits(kline.close), 31.8);
    assert_eq!(f64::from_bits(kline.volume), 70_951.0);
    assert_eq!(f64::from_bits(kline.amount), 2_260_790.0);
    assert_eq!(kline.turnover.map(f64::from_bits), Some(74.0));
    assert_eq!(kline.pre_close.map(f64::from_bits), Some(32.0));
}

#[test]
fn missing_source_fields_and_empty_book_are_valid_values() {
    let tick = Tick {
        ts: 0,
        price: b(0.0),
        volume: b(0.0),
        buy_price: None,
        sell_price: None,
        inout_flag: None,
        serial: -1,
    };
    assert_eq!(tick.serial, -1);
    let empty = QuoteSnapshot { ts: 0, bids: vec![], asks: vec![] };
    assert!(empty.bids.is_empty() && empty.asks.is_empty());
    let level = Level { price: b(1.0), volume: b(2.0) };
    assert_eq!(level, level.clone());
}

#[test]
fn domain_real_fields_compare_as_f64() {
    let a = Level { price: b(0.0), volume: b(1.0) };
    let c = Level { price: b(-0.0), volume: b(1.0) };
    assert_eq!(a, c);
    let n = Level { price: b(f64::NAN), volume: b(1.0) };
    assert_ne!(n, n);
    let snap = QuoteSnapshot { ts: 0, bids: vec![n], asks: vec![] };
    assert_ne!(snap, snap.clone());
    let t = Tick { ts: 0, price: b(0.0), volume: b(0.0), buy_price: Some(b(-0.0)), sell_price: None, inout_flag: None, serial: -1 };
    let u = Tick { buy_price: Some(b(0.0)), ..t };
    assert_eq!(t, u);
    assert_ne!(t, Tick { buy_price: None, ..t });
}
