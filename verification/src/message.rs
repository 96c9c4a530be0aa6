//! The unified market message envelope.
//!
//! An envelope carries one message of one of the four market data kinds and
//! the symbol it concerns. Its textual form is
//! `{"type":"...","symbol":{...},"data":{...}}`, with the type label
//! `quote`, `tick`, `kline` or `quote_snapshot`; the envelope has no
//! timestamp of its own, the data carries it. The type labels and the
//! `symbol` / `data` member names are fixed.
//!
//! Compatibility rules of the textual form: members a reader does not know
//! are ignored; members added later to a message are optional; an unknown
//! type label is an error, which the reader catches and skips.
use vstd::prelude::*;
use crate::Symbol;
use crate::types::{Kline, Quote, QuoteSnapshot, Tick};

verus! {

/// A market data message with the symbol it concerns.
#[derive(Debug, Clone, PartialEq)]
pub enum MarketMessage {
    Quote { symbol: Symbol, data: Quote },
    Tick { symbol: Symbol, data: Tick },
    Kline { symbol: Symbol, data: Kline },
    QuoteSnapshot { symbol: Symbol, data: QuoteSnapshot },
}

/// The symbol a message concerns.
pub open spec fn message_symbol(m: MarketMessage) -> Symbol {
    match m {
        MarketMessage::Quote { symbol, .. } => symbol,
        MarketMessage::Tick { symbol, .. } => symbol,
        MarketMessage::Kline { symbol, .. } => symbol,
        MarketMessage::QuoteSnapshot { symbol, .. } => symbol,
    }
}

/// The timestamp in the data of a message.
pub open spec fn message_ts(m: MarketMessage) -> i64 {
    match m {
        MarketMessage::Quote { data, .. } => data.ts,
        MarketMessage::Tick { data, .. } => data.ts,
        MarketMessage::Kline { data, .. } => data.ts,
        MarketMessage::QuoteSnapshot { data, .. } => data.ts,
    }
}

/// The type label of a message in its envelope.
pub open spec fn message_kind(m: MarketMessage) -> Seq<char> {
    match m {
        MarketMessage::Quote { .. } => "quote"@,
        MarketMessage::Tick { .. } => "tick"@,
        MarketMessage::Kline { .. } => "kline"@,
        MarketMessage::QuoteSnapshot { .. } => "quote_snapshot"@,
    }
}

impl MarketMessage {
    /// The symbol the message concerns.
    pub fn symbol(&self) -> (r: &Symbol)
        ensures
            *r == message_symbol(*self),
    {
        match self {
            MarketMessage::Quote { symbol, .. } => symbol,
            MarketMessage::Tick { symbol, .. } => symbol,
            MarketMessage::Kline { symbol, .. } => symbol,
            MarketMessage::QuoteSnapshot { symbol, .. } => symbol,
        }
    }

    /// The timestamp in the message's data (epoch milliseconds).
    pub fn timestamp(&self) -> (r: i64)
        ensures
            r == message_ts(*self),
    {
        match self {
            MarketMessage::Quote { data, .. } => data.ts,
            MarketMessage::Tick { data, .. } => data.ts,
            MarketMessage::Kline { data, .. } => data.ts,
            MarketMessage::QuoteSnapshot { data, .. } => data.ts,
        }
    }
}

} // verus!
