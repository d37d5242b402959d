//! Selection of the fastest CDN addresses: address-range parsing, latency and
//! download result selection, location-code extraction and the small hashing
//! and random-range utilities they rest on.

pub mod hash;
pub mod traits;
pub mod text;
pub mod ip;
pub mod colo;
pub mod sort;
pub mod models;
pub mod ping;
pub mod download;
pub mod ui;
pub mod net;
pub mod random;
