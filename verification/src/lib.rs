//! Rolling-window volatility ingestion: the time-bounded window of recent
//! observations kept per symbol, the reconnect supervisor that feeds it, and
//! the decoders that pick a price out of a raw payload.
//!
//! Prices pass through this crate untouched: every type that carries one is
//! generic in the price, and the arithmetic on prices is the caller's.

pub mod batch;
pub mod clock;
pub mod decoder;
pub mod literal;
pub mod store;
pub mod supervisor;
pub mod window;
