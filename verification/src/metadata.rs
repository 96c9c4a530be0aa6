//! Uniform access to the metadata of a market message, so that a consumer
//! can handle any message through `&dyn Message` without matching on its
//! concrete type.
use vstd::prelude::*;
use crate::Symbol;
use crate::message::{MarketMessage, message_kind, message_symbol, message_ts};

verus! {

/// Metadata of a market message.
pub trait Message {
    /// The type label, the same as in the envelope: `quote`, `tick`,
    /// `kline` or `quote_snapshot`.
    fn kind(&self) -> &'static str;

    /// The symbol the message concerns.
    fn symbol(&self) -> &Symbol;

    /// The timestamp in the message's data (epoch milliseconds).
    fn timestamp(&self) -> i64;
}

impl Message for MarketMessage {
    fn kind(&self) -> (r: &'static str)
        ensures
            r@ == message_kind(*self),
    {
        match self {
            MarketMessage::Quote { .. } => "quote",
            MarketMessage::Tick { .. } => "tick",
            MarketMessage::Kline { .. } => "kline",
            MarketMessage::QuoteSnapshot { .. } => "quote_snapshot",
        }
    }

    fn symbol(&self) -> (r: &Symbol)
        ensures
            *r == message_symbol(*self),
    {
        MarketMessage::symbol(self)
    }

    fn timestamp(&self) -> (r: i64)
        ensures
            r == message_ts(*self),
    {
        MarketMessage::timestamp(self)
    }
}

} // verus!
