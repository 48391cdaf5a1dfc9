//! Currency routing: which currencies are supported, and each venue's symbol
//! for the trading pair of a supported currency.

use vstd::prelude::*;

verus! {

/// The ISO 4217 numeric code of the United States dollar.
pub const USD_NUMERIC: u16 = 840;

/// A supported base-asset / fiat trading pair.
#[derive(Clone, Copy, Debug, PartialEq, Eq, Structural)]
pub enum ExchangePair {
    Usd,
}

/// The pair that serves a currency given by its ISO 4217 numeric code, if any.
pub open spec fn pair_of(numeric: u16) -> Option<ExchangePair> {
    if numeric == USD_NUMERIC {
        Some(ExchangePair::Usd)
    } else {
        None
    }
}

impl ExchangePair {
    /// Resolves a currency, given by its ISO 4217 numeric code, to its trading
    /// pair; `None` means that the currency is not supported.
    pub fn get(numeric: u16) -> (r: Option<ExchangePair>)
        ensures
            r == pair_of(numeric),
    {
        if numeric == USD_NUMERIC {
            Some(ExchangePair::Usd)
        } else {
            None
        }
    }

    /// The pair's symbol on Binance.
    pub fn binance(&self) -> (r: &'static str)
        ensures
            *self == ExchangePair::Usd ==> r@ == "ZECUSDT"@,
    {
        proof {
            reveal_strlit("ZECUSDT");
        }
        match self {
            ExchangePair::Usd => "ZECUSDT",
        }
    }

    /// The pair's symbol on Coinbase.
    pub fn coinbase(&self) -> (r: &'static str)
        ensures
            *self == ExchangePair::Usd ==> r@ == "ZEC-USD"@,
    {
        proof {
            reveal_strlit("ZEC-USD");
        }
        match self {
            ExchangePair::Usd => "ZEC-USD",
        }
    }

    /// The pair's symbol on Gate.io.
    pub fn gate_io(&self) -> (r: &'static str)
        ensures
            *self == ExchangePair::Usd ==> r@ == "ZEC_USDT"@,
    {
        proof {
            reveal_strlit("ZEC_USDT");
        }
        match self {
            ExchangePair::Usd => "ZEC_USDT",
        }
    }

    /// The pair's symbol on Gemini.
    pub fn gemini(&self) -> (r: &'static str)
        ensures
            *self == ExchangePair::Usd ==> r@ == "zecusd"@,
    {
        proof {
            reveal_strlit("zecusd");
        }
        match self {
            ExchangePair::Usd => "zecusd",
        }
    }

    /// The pair's symbol on KuCoin.
    pub fn ku_coin(&self) -> (r: &'static str)
        ensures
            *self == ExchangePair::Usd ==> r@ == "ZEC-USDT"@,
    {
        proof {
            reveal_strlit("ZEC-USDT");
        }
        match self {
            ExchangePair::Usd => "ZEC-USDT",
        }
    }

    /// The pair's symbol on MEXC.
    pub fn mexc(&self) -> (r: &'static str)
        ensures
            *self == ExchangePair::Usd ==> r@ == "ZECUSDT"@,
    {
        proof {
            reveal_strlit("ZECUSDT");
        }
        match self {
            ExchangePair::Usd => "ZECUSDT",
        }
    }
}

} // verus!
