//! Accessors of the optional fields: each getter gives the field's value, or
//! the field type's default (zero, the bits of `0.0`, the empty string, the
//! first variant of an enum) when the field is unset; an enum getter also
//! gives the default for a number the enum does not know. Setters of enum
//! fields store the variant's schema number.
use vstd::prelude::*;
use super::{Market, Period, Symbol, Quote, Tick, Kline, Level, QuoteSnapshot, Resume, market_of, period_of};

verus! {

impl Quote {
    /// The value of `ts`, or `0` when it is unset.
    pub fn ts(&self) -> (r: i64)
        ensures
            r == match self.ts {
                Some(v) => v,
                None => 0,
            },
    {
        match self.ts {
            Some(v) => v,
            None => 0,
        }
    }

    /// The bits of the value of `price`, or `0` when it is unset.
    pub fn price(&self) -> (r: u64)
        ensures
            r == match self.price {
                Some(v) => v,
                None => 0,
            },
    {
        match self.price {
            Some(v) => v,
            None => 0,
        }
    }

    /// The bits of the value of `open`, or `0` when it is unset.
    pub fn open(&self) -> (r: u64)
        ensures
            r == match self.open {
                Some(v) => v,
                None => 0,
            },
    {
        match self.open {
            Some(v) => v,
            None => 0,
        }
    }

    /// The bits of the value of `high`, or `0` when it is unset.
    pub fn high(&self) -> (r: u64)
        ensures
            r == match self.high {
                Some(v) => v,
                None => 0,
            },
    {
        match self.high {
            Some(v) => v,
            None => 0,
        }
    }

    /// The bits of the value of `low`, or `0` when it is unset.
    pub fn low(&self) -> (r: u64)
        ensures
            r == match self.low {
                Some(v) => v,
                None => 0,
            },
    {
        match self.low {
            Some(v) => v,
            None => 0,
        }
    }

    /// The bits of the value of `pre_close`, or `0` when it is unset.
    pub fn pre_close(&self) -> (r: u64)
        ensures
            r == match self.pre_close {
                Some(v) => v,
                None => 0,
            },
    {
        match self.pre_close {
            Some(v) => v,
            None => 0,
        }
    }

    /// The bits of the value of `volume`, or `0` when it is unset.
    pub fn volume(&self) -> (r: u64)
        ensures
            r == match self.volume {
                Some(v) => v,
                None => 0,
            },
    {
        match self.volume {
            Some(v) => v,
            None => 0,
        }
    }

    /// The bits of the value of `amount`, or `0` when it is unset.
    pub fn amount(&self) -> (r: u64)
        ensures
            r == match self.amount {
                Some(v) => v,
                None => 0,
            },
    {
        match self.amount {
            Some(v) => v,
            None => 0,
        }
    }

    /// The bits of the value of `in_vol`, or `0` when it is unset.
    pub fn in_vol(&self) -> (r: u64)
        ensures
            r == match self.in_vol {
                Some(v) => v,
                None => 0,
            },
    {
        match self.in_vol {
            Some(v) => v,
            None => 0,
        }
    }

    /// The bits of the value of `out_vol`, or `0` when it is unset.
    pub fn out_vol(&self) -> (r: u64)
        ensures
            r == match self.out_vol {
                Some(v) => v,
                None => 0,
            },
    {
        match self.out_vol {
            Some(v) => v,
            None => 0,
        }
    }
}

impl Tick {
    /// The value of `ts`, or `0` when it is unset.
    pub fn ts(&self) -> (r: i64)
        ensures
            r == match self.ts {
                Some(v) => v,
                None => 0,
            },
    {
        match self.ts {
            Some(v) => v,
            None => 0,
        }
    }

    /// The bits of the value of `price`, or `0` when it is unset.
    pub fn price(&self) -> (r: u64)
        ensures
            r == match self.price {
                Some(v) => v,
                None => 0,
            },
    {
        match self.price {
            Some(v) => v,
            None => 0,
        }
    }

    /// The bits of the value of `volume`, or `0` when it is unset.
    pub fn volume(&self) -> (r: u64)
        ensures
            r == match self.volume {
                Some(v) => v,
                None => 0,
            },
    {
        match self.volume {
            Some(v) => v,
            None => 0,
        }
    }

    /// The bits of the value of `buy_price`, or `0` when it is unset.
    pub fn buy_price(&self) -> (r: u64)
        ensures
            r == match self.buy_price {
                Some(v) => v,
                None => 0,
            },
    {
        match self.buy_price {
            Some(v) => v,
            None => 0,
        }
    }

    /// The bits of the value of `sell_price`, or `0` when it is unset.
    pub fn sell_price(&self) -> (r: u64)
        ensures
            r == match self.sell_price {
                Some(v) => v,
                None => 0,
            },
    {
        match self.sell_price {
            Some(v) => v,
            None => 0,
        }
    }

    /// The value of `inout_flag`, or `0` when it is unset.
    pub fn inout_flag(&self) -> (r: u32)
        ensures
            r == match self.inout_flag {
                Some(v) => v,
                None => 0,
            },
    {
        match self.inout_flag {
            Some(v) => v,
            None => 0,
        }
    }

    /// The value of `serial`, or `0` when it is unset.
    pub fn serial(&self) -> (r: i64)
        ensures
            r == match self.serial {
                Some(v) => v,
                None => 0,
            },
    {
        match self.serial {
            Some(v) => v,
            None => 0,
        }
    }
}

impl Kline {
    /// The value of `ts`, or `0` when it is unset.
    pub fn ts(&self) -> (r: i64)
        ensures
            r == match self.ts {
                Some(v) => v,
                None => 0,
            },
    {
        match self.ts {
            Some(v) => v,
            None => 0,
        }
    }

    /// The bits of the value of `open`, or `0` when it is unset.
    pub fn open(&self) -> (r: u64)
        ensures
            r == match self.open {
                Some(v) => v,
                None => 0,
            },
    {
        match self.open {
            Some(v) => v,
            None => 0,
        }
    }

    /// The bits of the value of `high`, or `0` when it is unset.
    pub fn high(&self) -> (r: u64)
        ensures
            r == match self.high {
                Some(v) => v,
                None => 0,
            },
    {
        match self.high {
            Some(v) => v,
            None => 0,
        }
    }

    /// The bits of the value of `low`, or `0` when it is unset.
    pub fn low(&self) -> (r: u64)
        ensures
            r == match self.low {
                Some(v) => v,
                None => 0,
            },
    {
        match self.low {
            Some(v) => v,
            None => 0,
        }
    }

    /// The bits of the value of `close`, or `0` when it is unset.
    pub fn close(&self) -> (r: u64)
        ensures
            r == match self.close {
                Some(v) => v,
                None => 0,
            },
    {
        match self.close {
            Some(v) => v,
            None => 0,
        }
    }

    /// The bits of the value of `volume`, or `0` when it is unset.
    pub fn volume(&self) -> (r: u64)
        ensures
            r == match self.volume {
                Some(v) => v,
                None => 0,
            },
    {
        match self.volume {
            Some(v) => v,
            None => 0,
        }
    }

    /// The bits of the value of `amount`, or `0` when it is unset.
    pub fn amount(&self) -> (r: u64)
        ensures
            r == match self.amount {
                Some(v) => v,
                None => 0,
            },
    {
        match self.amount {
            Some(v) => v,
            None => 0,
        }
    }

    /// The bits of the value of `turnover`, or `0` when it is unset.
    pub fn turnover(&self) -> (r: u64)
        ensures
            r == match self.turnover {
                Some(v) => v,
                None => 0,
            },
    {
        match self.turnover {
            Some(v) => v,
            None => 0,
        }
    }

    /// The bits of the value of `pre_close`, or `0` when it is unset.
    pub fn pre_close(&self) -> (r: u64)
        ensures
            r == match self.pre_close {
                Some(v) => v,
                None => 0,
            },
    {
        match self.pre_close {
            Some(v) => v,
            None => 0,
        }
    }

    /// The period, or `Period::Unspecified` when it is unset or holds a
    /// number that names no period.
    pub fn period(&self) -> (r: Period)
        ensures
            r == match self.period {
                Some(v) => match period_of(v) {
                    Some(p) => p,
                    None => Period::Unspecified,
                },
                None => Period::Unspecified,
            },
    {
        match self.period {
            Some(v) => match Period::from_i32(v) {
                Some(p) => p,
                None => Period::Unspecified,
            },
            None => Period::Unspecified,
        }
    }

    /// Sets the period to the schema number of `value`.
    pub fn set_period(&mut self, value: Period)
        ensures
            final(self).period matches Some(n) && period_of(n) == Some(value),
            *final(self) == (Kline { period: final(self).period, ..*old(self) }),
    {
        self.period = Some(value.to_i32());
    }
}

impl Level {
    /// The bits of the value of `price`, or `0` when it is unset.
    pub fn price(&self) -> (r: u64)
        ensures
            r == match self.price {
                Some(v) => v,
                None => 0,
            },
    {
        match self.price {
            Some(v) => v,
            None => 0,
        }
    }

    /// The bits of the value of `volume`, or `0` when it is unset.
    pub fn volume(&self) -> (r: u64)
        ensures
            r == match self.volume {
                Some(v) => v,
                None => 0,
            },
    {
        match self.volume {
            Some(v) => v,
            None => 0,
        }
    }
}

impl QuoteSnapshot {
    /// The value of `ts`, or `0` when it is unset.
    pub fn ts(&self) -> (r: i64)
        ensures
            r == match self.ts {
                Some(v) => v,
                None => 0,
            },
    {
        match self.ts {
            Some(v) => v,
            None => 0,
        }
    }
}

impl Resume {
    /// The value of `since_ts`, or `0` when it is unset.
    pub fn since_ts(&self) -> (r: i64)
        ensures
            r == match self.since_ts {
                Some(v) => v,
                None => 0,
            },
    {
        match self.since_ts {
            Some(v) => v,
            None => 0,
        }
    }

    /// The value of `since_serial`, or `0` when it is unset.
    pub fn since_serial(&self) -> (r: i64)
        ensures
            r == match self.since_serial {
                Some(v) => v,
                None => 0,
            },
    {
        match self.since_serial {
            Some(v) => v,
            None => 0,
        }
    }
}

impl Symbol {
    /// The market, or `Market::Unspecified` when it is unset or holds a
    /// number that names no market.
    pub fn market(&self) -> (r: Market)
        ensures
            r == match self.market {
                Some(v) => match market_of(v) {
                    Some(m) => m,
                    None => Market::Unspecified,
                },
                None => Market::Unspecified,
            },
    {
        match self.market {
            Some(v) => match Market::from_i32(v) {
                Some(m) => m,
                None => Market::Unspecified,
            },
            None => Market::Unspecified,
        }
    }

    /// Sets the market to the schema number of `value`.
    pub fn set_market(&mut self, value: Market)
        ensures
            final(self).market matches Some(n) && market_of(n) == Some(value),
            final(self).code == old(self).code,
    {
        self.market = Some(value.to_i32());
    }

    /// The code, or the empty string when it is unset.
    pub fn code(&self) -> (r: &str)
        ensures
            r@ == match self.code {
                Some(s) => s@,
                None => ""@,
            },
    {
        match &self.code {
            Some(s) => s.as_str(),
            None => "",
        }
    }
}

} // verus!
