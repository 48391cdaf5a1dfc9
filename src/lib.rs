//! Quorum aggregation of exchange-rate quotes from several trading venues.

pub mod aggregate;
pub mod decimal;
pub mod median;
pub mod quote;
pub mod routing;
