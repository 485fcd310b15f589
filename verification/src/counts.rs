//! Counts as they are reported: in a signed field of 64 bits, which holds
//! any count that can come up on a machine of 64 bits but for the upper half
//! of its range.

use vstd::prelude::*;

verus! {

/// A count as it is reported: itself, or the largest value that the field
/// can hold where it is larger.
pub open spec fn reported(n: int) -> int {
    if n > i64::MAX {
        i64::MAX as int
    } else {
        n
    }
}

/// Reports a count.
pub fn report_u64(n: u64) -> (r: i64)
    ensures
        r == reported(n as int),
{
    if n > i64::MAX as u64 {
        i64::MAX
    } else {
        n as i64
    }
}

/// Reports a length.
pub fn report_count(n: usize) -> (r: i64)
    ensures
        r == reported(n as int),
{
    report_u64(n as u64)
}

} // verus!
