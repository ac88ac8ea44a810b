//! Core of a small weather-station service: the data model of sensor
//! readings, the rule that stamps an incoming reading, the listing of the
//! trailing thirty-day window, and the per-location statistics.
//!
//! Sample values (temperature, humidity) are carried as the 32-bit pattern of
//! an IEEE-754 single-precision number; instants are milliseconds since the
//! Unix epoch, in UTC.

pub mod model;
pub mod error;
pub mod clock;
pub mod ingest;
pub mod listing;
pub mod stats;
