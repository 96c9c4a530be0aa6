//! The `payload` oneof of `MarketEnvelope`.
use vstd::prelude::*;
use super::{Quote, Tick, Kline, QuoteSnapshot};

verus! {

/// The market data an envelope carries: field 2 `quote`, 3 `tick`,
/// 4 `kline` or 5 `quote_snapshot`.
#[derive(Debug, Clone, PartialEq)]
pub enum Payload {
    Quote(Quote),
    Tick(Tick),
    Kline(Kline),
    QuoteSnapshot(QuoteSnapshot),
}

} // verus!
