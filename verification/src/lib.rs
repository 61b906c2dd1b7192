//! A verified simulator for time-series environmental sensor readings.
//!
//! The library generates random-walk readings on a timed schedule, buffers
//! them, and persists them in batches to rotating partition files with an
//! append-with-backup protocol.  Sampling values are modelled as fixed-point
//! integers in hundredths of a unit, and file contents as byte vectors; the
//! thin runner around the library performs the actual clock waits and disk
//! writes.

pub mod args;
pub mod codec;
pub mod digits;
pub mod sensor;
pub mod utils;
pub mod timestamp;
