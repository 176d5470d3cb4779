use vstd::prelude::*;

verus! {

/// The number of years, counted back from the current one, within which a repository
/// must have been pushed to in order to count as active.
pub const ACTIVITY_WINDOW: i32 = 2;

/// The cutoff year for a current year: the current year less the activity window,
/// reduced to sixteen bits.
pub open spec fn cutoff_for(current_year: int) -> int {
    (current_year - ACTIVITY_WINDOW) % 65536
}

/// Computes the cutoff year for a current year. For the years from 2 to 65537 this is
/// the year two years earlier.
pub fn cutoff_year(current_year: i32) -> (cutoff: u16)
    ensures
        cutoff == cutoff_for(current_year as int),
        ACTIVITY_WINDOW <= current_year <= ACTIVITY_WINDOW + u16::MAX ==> cutoff == current_year
            - ACTIVITY_WINDOW,
{
    let earlier: i64 = current_year as i64 - ACTIVITY_WINDOW as i64;
    let reduced: i64 = earlier % 65536;
    if reduced < 0 {
        (reduced + 65536) as u16
    } else {
        reduced as u16
    }
}

} // verus!
