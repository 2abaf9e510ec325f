//! Points in time, as the pipeline carries them.
use vstd::prelude::*;

verus! {

/// A point in time: seconds and nanoseconds since the Unix epoch, in UTC.
#[derive(Debug, Clone, Copy, PartialEq, Eq, Structural)]
pub struct Timestamp {
    pub seconds: i64,
    pub nanos: u32,
}

} // verus!
