//! The ingress side of a trusted network gateway: its configuration types, the
//! decisions of its oblivious HTTP client layer, and a round-robin HTTP load
//! balancer that rewrites request paths.

pub mod balancer;
pub mod headers;
pub mod ingress;
pub mod load_balancer;
pub mod ohttp;
pub mod patterns;
pub mod text;
pub mod urls;
