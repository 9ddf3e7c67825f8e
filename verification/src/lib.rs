//! A small currency-rates library: a fixed list of tracked currency pairs,
//! each holding its latest bid and ask price, refreshed from the JSON body of
//! a quote service's response.

pub mod cycle;
pub mod json;
pub mod price;
pub mod quote;
pub mod store;
