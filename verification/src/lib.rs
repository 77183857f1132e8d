//! Watchlist construction: turning provider-specific listings of trading
//! symbols into canonical, ordered, deduplicated ticker lists.
//!
//! Each provider module holds the verified processing pipeline for one data
//! source; `text` holds the character-level string machinery that the
//! pipelines share, and `output` the final rendering of a watchlist.

pub mod binance;
pub mod coingecko;
pub mod earningshub;
pub mod ibkr;
pub mod kucoin;
pub mod output;
pub mod ranking;
pub mod stockanalysis;
pub mod text;
pub mod woo;
