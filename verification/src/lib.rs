//! Order-book aggregation across exchanges: fixed-point decoding of decimal
//! texts, decoding of depth frames into price-level events, and the merged
//! top-of-book over per-exchange price ladders.

pub mod api;
pub mod orderbook;
pub mod text;
pub mod util;
