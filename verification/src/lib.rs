//! Enumeration and selection of round-robin tournament schedules for six
//! alliances: every alliance meets every other exactly once across five
//! rounds ("series") of three simultaneous matches.

use vstd::prelude::*;

pub mod matrix;
pub mod pairing;
pub mod perms;
pub mod schedule;
pub mod search;
pub mod series;
pub mod codec;

verus! {

/// Number of competing alliances, identified by the integers 1..=ALLIANCES.
pub const ALLIANCES: usize = 6;

/// Number of series in a full schedule: each alliance must meet the other
/// ALLIANCES - 1 alliances exactly once.
pub const NUM_SERIES: usize = 5;

/// Number of simultaneous matches in one series: ALLIANCES / 2.
pub const MATCHES_PER_SERIES: usize = 3;

} // verus!
