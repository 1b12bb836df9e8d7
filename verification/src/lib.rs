//! Verified core of an options-selling campaign tracker.
//!
//! The library normalizes brokerage CSV exports into canonical trade
//! records, nets sold against bought premium per option contract, and
//! derives per-campaign summaries (break-even price, weeks running,
//! profit per week, weekly expiring premium).
//!
//! Money is carried as a fixed-point integer in units of 1/10000 dollar;
//! calendar dates are carried as year/month/day triples with a verified
//! day-number conversion. The current date is always an explicit
//! parameter, never read from a clock.

pub mod date;
pub mod fixed;
pub mod grammar;
pub mod model;
pub mod normalize;
pub mod aggregate;
pub mod summary;
