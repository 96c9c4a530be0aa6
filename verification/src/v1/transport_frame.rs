//! The `payload` oneof of `TransportFrame`.
use vstd::prelude::*;
use super::{MarketEnvelope, Heartbeat, Resume};

verus! {

/// What a frame carries: field 1 `market`, 2 `heartbeat` or 3 `resume`.
#[derive(Debug, Clone, PartialEq)]
pub enum Payload {
    Market(MarketEnvelope),
    Heartbeat(Heartbeat),
    Resume(Resume),
}

} // verus!
