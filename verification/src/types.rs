//! Core market data types.
//!
//! Protocol conventions:
//! - every timestamp is epoch milliseconds as `i64`; sources that give dates
//!   or other time formats are converted before they reach the protocol;
//! - `volume` is counted in shares and `amount` in the quote currency;
//!   sources that count in lots are converted before they reach the protocol;
//! - real-valued quantities (prices, volumes, amounts, rates) are held as the
//!   bit pattern of an IEEE-754 binary64 number: `f64::to_bits` gives it and
//!   `f64::from_bits` reads it back, exactly.
//!
//! Fields that some sources do not provide are `Option`s.
use vstd::prelude::*;
use vstd::std_specs::cmp::PartialEqSpecImpl;
use crate::float_bits::{real_bits_eq, opt_real_bits_eq, real_bits_equal, opt_real_bits_equal};

verus! {

/// Latest trade snapshot. `in_vol` / `out_vol` (volume traded at the bid /
/// at the ask) are missing for sources that do not report them.
#[derive(Debug, Clone, Copy)]
pub struct Quote {
    /// Business timestamp, epoch milliseconds.
    pub ts: i64,
    /// Last trade price (bits of an `f64`).
    pub price: u64,
    /// Opening price (bits of an `f64`).
    pub open: u64,
    /// Highest price (bits of an `f64`).
    pub high: u64,
    /// Lowest price (bits of an `f64`).
    pub low: u64,
    /// Previous close (bits of an `f64`).
    pub pre_close: u64,
    /// Cumulative volume in shares (bits of an `f64`).
    pub volume: u64,
    /// Cumulative amount (bits of an `f64`).
    pub amount: u64,
    /// Volume traded at the bid (bits of an `f64`).
    pub in_vol: Option<u64>,
    /// Volume traded at the ask (bits of an `f64`).
    pub out_vol: Option<u64>,
}

/// A single trade. `serial` increases along the trades of an instrument and
/// is the cursor for resuming a stream; `-1` marks a reset.
#[derive(Debug, Clone, Copy)]
pub struct Tick {
    /// Epoch milliseconds.
    pub ts: i64,
    /// Trade price (bits of an `f64`).
    pub price: u64,
    /// Traded volume in shares (bits of an `f64`).
    pub volume: u64,
    /// Best bid at the time of the trade (bits of an `f64`).
    pub buy_price: Option<u64>,
    /// Best ask at the time of the trade (bits of an `f64`).
    pub sell_price: Option<u64>,
    /// Side / disclosure flag of the source: 0 at the bid, 1 at the ask,
    /// 2 and 3 the same at the fixing, 10 ordinary disclosure, 11 and 12
    /// matching deferred on a falling / rising trend, 13 close deferred after
    /// the trial match, 14 trading halted, 15 trading resumed.
    pub inout_flag: Option<u8>,
    /// Increasing sequence number, the resume cursor; `-1` marks a reset.
    pub serial: i64,
}

/// Candlestick period. The set is closed; the compact names are `1m`,
/// `5m`, `15m`, `30m`, `60m`, `1d`, `1w` and `1M`.
#[derive(Debug, Clone, Copy, PartialEq, Eq, Hash, Structural)]
pub enum Period {
    M1,
    M5,
    M15,
    M30,
    M60,
    D1,
    W1,
    Month1,
}

/// Candlestick: OHLCV, its period, and the fields offline sources carry
/// (`amount`, `turnover`, `pre_close`), so that historical queries and live
/// pushes share one type.
#[derive(Debug, Clone, Copy)]
pub struct Kline {
    /// Start of the candle, epoch milliseconds.
    pub ts: i64,
    pub period: Period,
    pub open: u64,
    pub high: u64,
    pub low: u64,
    pub close: u64,
    /// Volume in shares (bits of an `f64`).
    pub volume: u64,
    /// Amount (bits of an `f64`).
    pub amount: u64,
    /// Turnover rate in percent (bits of an `f64`); some sources lack it.
    pub turnover: Option<u64>,
    /// Previous close (bits of an `f64`); some sources lack it.
    pub pre_close: Option<u64>,
}

/// One level of an order book side.
#[derive(Debug, Clone, Copy)]
pub struct Level {
    /// Price (bits of an `f64`).
    pub price: u64,
    /// Volume in shares (bits of an `f64`).
    pub volume: u64,
}

/// Order book snapshot. The number of levels depends on the source (five or
/// ten are common) and either side may be empty.
#[derive(Debug, Clone, PartialEq)]
pub struct QuoteSnapshot {
    /// Epoch milliseconds.
    pub ts: i64,
    /// Bid levels, best (highest) first.
    pub bids: Vec<Level>,
    /// Ask levels, best (lowest) first.
    pub asks: Vec<Level>,
}

impl PartialEq for Quote {
    /// Field by field, real values compared as `f64` compares them.
    fn eq(&self, other: &Self) -> (r: bool) {
        self.ts == other.ts
            && real_bits_equal(self.price, other.price)
            && real_bits_equal(self.open, other.open)
            && real_bits_equal(self.high, other.high)
            && real_bits_equal(self.low, other.low)
            && real_bits_equal(self.pre_close, other.pre_close)
            && real_bits_equal(self.volume, other.volume)
            && real_bits_equal(self.amount, other.amount)
            && opt_real_bits_equal(self.in_vol, other.in_vol)
            && opt_real_bits_equal(self.out_vol, other.out_vol)
    }
}

impl PartialEqSpecImpl for Quote {
    open spec fn obeys_eq_spec() -> bool {
        true
    }

    open spec fn eq_spec(&self, other: &Quote) -> bool {
        self.ts == other.ts
            && real_bits_eq(self.price, other.price)
            && real_bits_eq(self.open, other.open)
            && real_bits_eq(self.high, other.high)
            && real_bits_eq(self.low, other.low)
            && real_bits_eq(self.pre_close, other.pre_close)
            && real_bits_eq(self.volume, other.volume)
            && real_bits_eq(self.amount, other.amount)
            && opt_real_bits_eq(self.in_vol, other.in_vol)
            && opt_real_bits_eq(self.out_vol, other.out_vol)
    }
}

impl PartialEq for Tick {
    /// Field by field, real values compared as `f64` compares them.
    fn eq(&self, other: &Self) -> (r: bool) {
        self.ts == other.ts
            && real_bits_equal(self.price, other.price)
            && real_bits_equal(self.volume, other.volume)
            && opt_real_bits_equal(self.buy_price, other.buy_price)
            && opt_real_bits_equal(self.sell_price, other.sell_price)
            && (match (self.inout_flag, other.inout_flag) {
            (Some(x), Some(y)) => x == y,
            (None, None) => true,
            _ => false,
        })
            && self.serial == other.serial
    }
}

impl PartialEqSpecImpl for Tick {
    open spec fn obeys_eq_spec() -> bool {
        true
    }

    open spec fn eq_spec(&self, other: &Tick) -> bool {
        self.ts == other.ts
            && real_bits_eq(self.price, other.price)
            && real_bits_eq(self.volume, other.volume)
            && opt_real_bits_eq(self.buy_price, other.buy_price)
            && opt_real_bits_eq(self.sell_price, other.sell_price)
            && self.inout_flag == other.inout_flag
            && self.serial == other.serial
    }
}

impl PartialEq for Kline {
    /// Field by field, real values compared as `f64` compares them.
    fn eq(&self, other: &Self) -> (r: bool) {
        self.ts == other.ts
            && self.period == other.period
            && real_bits_equal(self.open, other.open)
            && real_bits_equal(self.high, other.high)
            && real_bits_equal(self.low, other.low)
            && real_bits_equal(self.close, other.close)
            && real_bits_equal(self.volume, other.volume)
            && real_bits_equal(self.amount, other.amount)
            && opt_real_bits_equal(self.turnover, other.turnover)
            && opt_real_bits_equal(self.pre_close, other.pre_close)
    }
}

impl PartialEqSpecImpl for Kline {
    open spec fn obeys_eq_spec() -> bool {
        true
    }

    open spec fn eq_spec(&self, other: &Kline) -> bool {
        self.ts == other.ts
            && self.period == other.period
            && real_bits_eq(self.open, other.open)
            && real_bits_eq(self.high, other.high)
            && real_bits_eq(self.low, other.low)
            && real_bits_eq(self.close, other.close)
            && real_bits_eq(self.volume, other.volume)
            && real_bits_eq(self.amount, other.amount)
            && opt_real_bits_eq(self.turnover, other.turnover)
            && opt_real_bits_eq(self.pre_close, other.pre_close)
    }
}

impl PartialEq for Level {
    /// Field by field, real values compared as `f64` compares them.
    fn eq(&self, other: &Self) -> (r: bool) {
        real_bits_equal(self.price, other.price)
            && real_bits_equal(self.volume, other.volume)
    }
}

impl PartialEqSpecImpl for Level {
    open spec fn obeys_eq_spec() -> bool {
        true
    }

    open spec fn eq_spec(&self, other: &Level) -> bool {
        real_bits_eq(self.price, other.price)
            && real_bits_eq(self.volume, other.volume)
    }
}

} // verus!
