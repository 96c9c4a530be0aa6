//! Wire protocol for market data passed between the market-data pipeline's
//! producers and consumers.
//!
//! Protocol conventions shared by every message type:
//! - timestamps (`ts`) are epoch milliseconds held as `i64`;
//! - `volume` is counted in shares and `amount` in the quote currency;
//! - real-valued quantities are carried as the bit pattern of an IEEE-754
//!   binary64 number (`f64::to_bits` / `f64::from_bits`), so that every value
//!   round-trips exactly.
use vstd::prelude::*;

pub mod frame;
pub mod message;
pub mod metadata;
pub mod float_bits;
pub mod types;
pub mod v1;
pub mod wire;

pub use metadata::Message;

verus! {

/// Market of a listed instrument: `A` is the mainland A-share market, `Tw` the
/// Taiwan market and `Crypto` crypto assets.
#[derive(Debug, Clone, Copy, PartialEq, Eq, Hash, Structural)]
pub enum Market {
    A,
    Tw,
    Crypto,
}

/// Stable identity of an instrument: its market and its code. The code is a
/// string so that leading zeros (as in `"000001"`) are kept.
#[derive(Debug, Clone, PartialEq, Eq, Hash)]
pub struct Symbol {
    pub market: Market,
    pub code: String,
}

impl Symbol {
    /// Builds a symbol from a market and anything that converts into the code.
    pub fn new<S: Into<String>>(market: Market, code: S) -> (r: Symbol)
        ensures
            r.market == market,
            call_ensures(S::into, (code,), r.code),
    {
        Symbol { market, code: code.into() }
    }
}

} // verus!
