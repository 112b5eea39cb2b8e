//! A name registry with block-height expiration sweeps and content-addressed
//! short links, with its state kept as plain in-memory values.

pub mod store;
pub mod expiry;
pub mod shortcode;
pub mod state;
pub mod error;
pub mod msg;
pub mod contract;
pub mod laws;
