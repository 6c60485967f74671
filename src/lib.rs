//! Liquidity profiles of an order-book stream, gap detection over persisted
//! snapshots, and the reconnect discipline of the live feed.
//!
//! Prices and quantities are held as whole numbers of units of 10^-8 (see
//! [`book::SCALE`]); every derived value is an exact ratio of integers.
pub mod book;
pub mod text;
pub mod frame;
pub mod record;
pub mod keys;
pub mod recovery;
pub mod reconnect;
