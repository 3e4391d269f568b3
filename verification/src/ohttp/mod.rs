//! The client side of oblivious HTTP: which headers of a request are forwarded, to
//! which URL it goes, and which client it shares.

pub mod base_url;
pub mod client_cache;
pub mod forward_headers;
pub mod security;
