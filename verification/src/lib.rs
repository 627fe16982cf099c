//! In-memory market-state core for a single trading instrument.
//!
//! `orderbook` keeps a live view of resting liquidity (an order book) and
//! derives market signals from it; `oms` tracks the engine's own outstanding
//! orders and the net inventory they imply. Both are pure in-memory
//! structures: all I/O (the exchange feed, order transport) lives outside
//! this crate and talks to it through plain values.
//!
//! Prices are integer ticks and sizes are integer quantity units; the layer
//! that translates exchange messages chooses the scale of both.

pub mod oms;
pub mod orderbook;
