//! An API gateway's core: routing, load balancing, response caching, rate
//! limiting, circuit breaking and the request checks of its middleware.

pub mod circuit_breaker;
pub mod clock;
pub mod config;
pub mod health;
pub mod http;
pub mod retry;
pub mod time;
pub mod loadbalancer;
pub mod lru;
pub mod cache_metrics;
pub mod sharded;

pub mod params;
pub mod router;
pub mod rate_limit;
pub mod text;
pub mod middleware;
pub mod timeseries;
pub mod proxy;
pub mod metrics;
pub mod prometheus;
pub mod alerts;
