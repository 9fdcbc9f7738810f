//! The request checks that run before a request is forwarded, each as the
//! decision it makes from the parts of the request it reads.

pub mod cache;
pub mod chain;
pub mod cors;
pub mod ip_filter;
pub mod jwt;
pub mod logging;
pub mod metrics;
pub mod request_validation;
