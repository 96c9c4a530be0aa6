//! Version 1 of the binary protocol: the message types of the protobuf
//! schema `market_protocol.v1` and their wire encoding.
//!
//! Field numbers of the schema:
//!
//! | message          | fields |
//! |------------------|--------|
//! | `Symbol`         | 1 market (enum), 2 code (string) |
//! | `Quote`          | 1 ts, 2 price, 3 open, 4 high, 5 low, 6 pre_close, 7 volume, 8 amount, 9 in_vol, 10 out_vol |
//! | `Tick`           | 1 ts, 2 price, 3 volume, 4 buy_price, 5 sell_price, 6 inout_flag (uint32), 7 serial |
//! | `Kline`          | 1 ts, 2 period (enum), 3 open, 4 high, 5 low, 6 close, 7 volume, 8 amount, 9 turnover, 10 pre_close |
//! | `Level`          | 1 price, 2 volume |
//! | `QuoteSnapshot`  | 1 ts, 2 bids (repeated Level), 3 asks (repeated Level) |
//! | `MarketEnvelope` | 1 symbol; oneof payload: 2 quote, 3 tick, 4 kline, 5 quote_snapshot |
//! | `Heartbeat`      | no fields |
//! | `Resume`         | 1 since_ts, 2 since_serial |
//! | `TransportFrame` | oneof payload: 1 market, 2 heartbeat, 3 resume |
//!
//! `ts`, `serial`, `since_ts` and `since_serial` are `int64`; every other
//! scalar but the enums and `inout_flag` is a `double`, held here as the bits
//! of the `f64`. Every scalar field is `optional`, so that a missing value and
//! an explicit zero stay apart.
use vstd::prelude::*;
use vstd::std_specs::cmp::PartialEqSpecImpl;
use crate::float_bits::{real_bits_eq, opt_real_bits_eq, real_bits_equal, opt_real_bits_equal};

pub mod accessors;
pub mod leaf;
pub mod market_envelope;
pub mod nested;
pub mod schema;
pub mod transport_frame;

verus! {

/// Market of an instrument. The numbers of the variants are those of the
/// schema: `Unspecified` is 0, `A` 1, `Tw` 2, `Crypto` 3.
#[derive(Debug, Clone, Copy, PartialEq, Eq, Hash, Structural)]
pub enum Market {
    Unspecified,
    A,
    Tw,
    Crypto,
}

/// Period of a candlestick. The numbers of the variants are those of the
/// schema: `Unspecified` is 0, then `M1` 1 up to `Month1` 8.
#[derive(Debug, Clone, Copy, PartialEq, Eq, Hash, Structural)]
pub enum Period {
    Unspecified,
    M1,
    M5,
    M15,
    M30,
    M60,
    D1,
    W1,
    Month1,
}

/// Instrument identity: market (the number of a [`Market`]) and code.
#[derive(Debug, Clone, PartialEq)]
pub struct Symbol {
    pub market: Option<i32>,
    pub code: Option<String>,
}

/// Latest trade snapshot.
#[derive(Debug, Clone, Copy)]
pub struct Quote {
    pub ts: Option<i64>,
    pub price: Option<u64>,
    pub open: Option<u64>,
    pub high: Option<u64>,
    pub low: Option<u64>,
    pub pre_close: Option<u64>,
    pub volume: Option<u64>,
    pub amount: Option<u64>,
    pub in_vol: Option<u64>,
    pub out_vol: Option<u64>,
}

/// A single trade. `serial` orders the trades of one instrument and is the
/// resume cursor; `-1` marks a reset.
#[derive(Debug, Clone, Copy)]
pub struct Tick {
    pub ts: Option<i64>,
    pub price: Option<u64>,
    pub volume: Option<u64>,
    pub buy_price: Option<u64>,
    pub sell_price: Option<u64>,
    pub inout_flag: Option<u32>,
    pub serial: Option<i64>,
}

/// Candlestick: OHLCV of one period, with the fields that offline sources
/// carry.
#[derive(Debug, Clone, Copy)]
pub struct Kline {
    pub ts: Option<i64>,
    pub period: Option<i32>,
    pub open: Option<u64>,
    pub high: Option<u64>,
    pub low: Option<u64>,
    pub close: Option<u64>,
    pub volume: Option<u64>,
    pub amount: Option<u64>,
    pub turnover: Option<u64>,
    pub pre_close: Option<u64>,
}

/// One price level of an order book side.
#[derive(Debug, Clone, Copy)]
pub struct Level {
    pub price: Option<u64>,
    pub volume: Option<u64>,
}

/// Order book snapshot; either side may hold any number of levels, none
/// included.
#[derive(Debug, Clone, PartialEq)]
pub struct QuoteSnapshot {
    pub ts: Option<i64>,
    pub bids: Vec<Level>,
    pub asks: Vec<Level>,
}

/// A market data message of one instrument.
#[derive(Debug, Clone, PartialEq)]
pub struct MarketEnvelope {
    pub symbol: Option<Symbol>,
    pub payload: Option<market_envelope::Payload>,
}

/// Keep-alive control frame.
#[derive(Debug, Clone, Copy, PartialEq, Structural)]
pub struct Heartbeat {}

/// Request to resume the stream after the cursor `(since_ts, since_serial)`.
#[derive(Debug, Clone, Copy, PartialEq, Structural)]
pub struct Resume {
    pub since_ts: Option<i64>,
    pub since_serial: Option<i64>,
}

/// The unit of the transport: market data or a control frame.
#[derive(Debug, Clone, PartialEq)]
pub struct TransportFrame {
    pub payload: Option<transport_frame::Payload>,
}

impl Market {
    /// The variant with schema number `v`, if there is one.
    pub fn from_i32(v: i32) -> (r: Option<Market>)
        ensures
            r == market_of(v),
    {
        if v == 0 {
            Some(Market::Unspecified)
        } else if v == 1 {
            Some(Market::A)
        } else if v == 2 {
            Some(Market::Tw)
        } else if v == 3 {
            Some(Market::Crypto)
        } else {
            None
        }
    }

    /// The schema number of this variant: its position in the declaration
    /// of `Market`, counted from 0.
    pub fn to_i32(self) -> (r: i32)
        ensures
            r == self as i32,
            market_of(r) == Some(self),
    {
        match self {
            Market::Unspecified => 0,
            Market::A => 1,
            Market::Tw => 2,
            Market::Crypto => 3,
        }
    }
}

/// The [`Market`] with schema number `v`.
pub open spec fn market_of(v: i32) -> Option<Market> {
    if v == 0 {
        Some(Market::Unspecified)
    } else if v == 1 {
        Some(Market::A)
    } else if v == 2 {
        Some(Market::Tw)
    } else if v == 3 {
        Some(Market::Crypto)
    } else {
        None
    }
}

impl Period {
    /// The variant with schema number `v`, if there is one.
    pub fn from_i32(v: i32) -> (r: Option<Period>)
        ensures
            r == period_of(v),
    {
        if v == 0 {
            Some(Period::Unspecified)
        } else if v == 1 {
            Some(Period::M1)
        } else if v == 2 {
            Some(Period::M5)
        } else if v == 3 {
            Some(Period::M15)
        } else if v == 4 {
            Some(Period::M30)
        } else if v == 5 {
            Some(Period::M60)
        } else if v == 6 {
            Some(Period::D1)
        } else if v == 7 {
            Some(Period::W1)
        } else if v == 8 {
            Some(Period::Month1)
        } else {
            None
        }
    }

    /// The schema number of this variant: its position in the declaration
    /// of `Period`, counted from 0.
    pub fn to_i32(self) -> (r: i32)
        ensures
            r == self as i32,
            period_of(r) == Some(self),
    {
        match self {
            Period::Unspecified => 0,
            Period::M1 => 1,
            Period::M5 => 2,
            Period::M15 => 3,
            Period::M30 => 4,
            Period::M60 => 5,
            Period::D1 => 6,
            Period::W1 => 7,
            Period::Month1 => 8,
        }
    }
}

/// The [`Period`] with schema number `v`.
pub open spec fn period_of(v: i32) -> Option<Period> {
    if v == 0 {
        Some(Period::Unspecified)
    } else if v == 1 {
        Some(Period::M1)
    } else if v == 2 {
        Some(Period::M5)
    } else if v == 3 {
        Some(Period::M15)
    } else if v == 4 {
        Some(Period::M30)
    } else if v == 5 {
        Some(Period::M60)
    } else if v == 6 {
        Some(Period::D1)
    } else if v == 7 {
        Some(Period::W1)
    } else if v == 8 {
        Some(Period::Month1)
    } else {
        None
    }
}

impl PartialEq for Quote {
    /// Field by field, real values compared as `f64` compares them.
    fn eq(&self, other: &Self) -> (r: bool) {
        (match (self.ts, other.ts) {
            (Some(x), Some(y)) => x == y,
            (None, None) => true,
            _ => false,
        })
            && opt_real_bits_equal(self.price, other.price)
            && opt_real_bits_equal(self.open, other.open)
            && opt_real_bits_equal(self.high, other.high)
            && opt_real_bits_equal(self.low, other.low)
            && opt_real_bits_equal(self.pre_close, other.pre_close)
            && opt_real_bits_equal(self.volume, other.volume)
            && opt_real_bits_equal(self.amount, other.amount)
            && opt_real_bits_equal(self.in_vol, other.in_vol)
            && opt_real_bits_equal(self.out_vol, other.out_vol)
    }
}

impl PartialEqSpecImpl for Quote {
    open spec fn obeys_eq_spec() -> bool {
        true
    }

    open spec fn eq_spec(&self, other: &Quote) -> bool {
        self.ts == other.ts
            && opt_real_bits_eq(self.price, other.price)
            && opt_real_bits_eq(self.open, other.open)
            && opt_real_bits_eq(self.high, other.high)
            && opt_real_bits_eq(self.low, other.low)
            && opt_real_bits_eq(self.pre_close, other.pre_close)
            && opt_real_bits_eq(self.volume, other.volume)
            && opt_real_bits_eq(self.amount, other.amount)
            && opt_real_bits_eq(self.in_vol, other.in_vol)
            && opt_real_bits_eq(self.out_vol, other.out_vol)
    }
}

impl PartialEq for Tick {
    /// Field by field, real values compared as `f64` compares them.
    fn eq(&self, other: &Self) -> (r: bool) {
        (match (self.ts, other.ts) {
            (Some(x), Some(y)) => x == y,
            (None, None) => true,
            _ => false,
        })
            && opt_real_bits_equal(self.price, other.price)
            && opt_real_bits_equal(self.volume, other.volume)
            && opt_real_bits_equal(self.buy_price, other.buy_price)
            && opt_real_bits_equal(self.sell_price, other.sell_price)
            && (match (self.inout_flag, other.inout_flag) {
            (Some(x), Some(y)) => x == y,
            (None, None) => true,
            _ => false,
        })
            && (match (self.serial, other.serial) {
            (Some(x), Some(y)) => x == y,
            (None, None) => true,
            _ => false,
        })
    }
}

impl PartialEqSpecImpl for Tick {
    open spec fn obeys_eq_spec() -> bool {
        true
    }

    open spec fn eq_spec(&self, other: &Tick) -> bool {
        self.ts == other.ts
            && opt_real_bits_eq(self.price, other.price)
            && opt_real_bits_eq(self.volume, other.volume)
            && opt_real_bits_eq(self.buy_price, other.buy_price)
            && opt_real_bits_eq(self.sell_price, other.sell_price)
            && self.inout_flag == other.inout_flag
            && self.serial == other.serial
    }
}

impl PartialEq for Kline {
    /// Field by field, real values compared as `f64` compares them.
    fn eq(&self, other: &Self) -> (r: bool) {
        (match (self.ts, other.ts) {
            (Some(x), Some(y)) => x == y,
            (None, None) => true,
            _ => false,
        })
            && (match (self.period, other.period) {
            (Some(x), Some(y)) => x == y,
            (None, None) => true,
            _ => false,
        })
            && opt_real_bits_equal(self.open, other.open)
            && opt_real_bits_equal(self.high, other.high)
            && opt_real_bits_equal(self.low, other.low)
            && opt_real_bits_equal(self.close, other.close)
            && opt_real_bits_equal(self.volume, other.volume)
            && opt_real_bits_equal(self.amount, other.amount)
            && opt_real_bits_equal(self.turnover, other.turnover)
            && opt_real_bits_equal(self.pre_close, other.pre_close)
    }
}

impl PartialEqSpecImpl for Kline {
    open spec fn obeys_eq_spec() -> bool {
        true
    }

    open spec fn eq_spec(&self, other: &Kline) -> bool {
        self.ts == other.ts
            && self.period == other.period
            && opt_real_bits_eq(self.open, other.open)
            && opt_real_bits_eq(self.high, other.high)
            && opt_real_bits_eq(self.low, other.low)
            && opt_real_bits_eq(self.close, other.close)
            && opt_real_bits_eq(self.volume, other.volume)
            && opt_real_bits_eq(self.amount, other.amount)
            && opt_real_bits_eq(self.turnover, other.turnover)
            && opt_real_bits_eq(self.pre_close, other.pre_close)
    }
}

impl PartialEq for Level {
    /// Field by field, real values compared as `f64` compares them.
    fn eq(&self, other: &Self) -> (r: bool) {
        opt_real_bits_equal(self.price, other.price)
            && opt_real_bits_equal(self.volume, other.volume)
    }
}

impl PartialEqSpecImpl for Level {
    open spec fn obeys_eq_spec() -> bool {
        true
    }

    open spec fn eq_spec(&self, other: &Level) -> bool {
        opt_real_bits_eq(self.price, other.price)
            && opt_real_bits_eq(self.volume, other.volume)
    }
}

} // verus!
