//! The timestamp record: four signed 64-bit tick counts.

use vstd::prelude::*;

verus! {

/// The four raw Windows timestamps of one filesystem entry, in
/// 100-nanosecond ticks since the Windows epoch. The values are opaque:
/// no validity range is enforced.
#[derive(Clone, Copy, Debug, PartialEq, Eq, Structural)]
pub struct TimestampRecord {
    pub created: i64,
    pub modified: i64,
    pub changed: i64,
    pub accessed: i64,
}

impl TimestampRecord {
    /// Builds a record from the four raw fields.
    pub fn new(created: i64, modified: i64, changed: i64, accessed: i64) -> (r: TimestampRecord)
        ensures
            r.created == created,
            r.modified == modified,
            r.changed == changed,
            r.accessed == accessed,
    {
        TimestampRecord { created, modified, changed, accessed }
    }
}

} // verus!
