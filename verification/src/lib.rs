//! Calendar-aligned time intervals (hour, day, week, month, year) over a
//! bounded proleptic Gregorian calendar, chart metadata, and an idempotent
//! upsert protocol for persisting per-interval values.

pub mod charts;
pub mod date;
pub mod duration;
pub mod resolution;
pub mod store;
pub mod telemetry;
pub mod timespans;
pub mod timestamp;
pub mod traits;
pub mod values;
