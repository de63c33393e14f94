//! Market-data synchronization and historical-backfill engine.
//!
//! The crate maintains a periodically refreshed snapshot of market
//! indicators (spot price, trailing fundamentals, treasury yields,
//! inflation) merged from several unreliable providers, rolls completed
//! quarterly and monthly observations into annual records, and derives
//! compound growth metrics over the annual series.
//!
//! Every quantity is a fixed-point decimal: an `i64` holding the value
//! multiplied by [`numeric::SCALE`]. Timestamps are Unix seconds.
//!
//! The snapshot's read-modify-write round trip against the store is a
//! documented constraint: the engine assumes at most one refresh cycle
//! in flight at a time, serialized by the caller's scheduler;
//! concurrent unserialized writers can lose updates.

pub mod annual;
pub mod cache;
pub mod clock;
pub mod errors;
pub mod metrics;
pub mod monthly;
pub mod numeric;
pub mod period;
pub mod quarterly;
pub mod store;
pub mod sync;
