//! Match-history analytics for ban recommendations: per-champion encounter
//! tallies, ban and ally rankings, a per-player match cache and a request
//! budget with two fixed windows.

pub mod cache;
pub mod champion_stats;
pub mod client;
pub mod config;
pub mod error;
pub mod models;
pub mod rate_limit;
pub mod ranking;
pub mod recommender;
pub mod session;
