//! Growable, offset-indexed dense storage for counting bins.
//!
//! The store records, for each signed bucket index, an accumulated 64-bit
//! count payload, and keeps the backing buffer roughly centered on the
//! active index range so that growth in either direction stays cheap.

pub mod iter;
pub mod store;
