//! Periodic market-metric collection: fetch a quote summary per ticker,
//! shape each into an immutable `Snapshot`, tolerate per-ticker failures,
//! and render the surviving records as append-safe CSV rows.

pub mod appender;
pub mod clock;
pub mod collect;
pub mod digits;
pub mod rows;
pub mod snapshot;
