use vstd::prelude::*;

verus! {

/// The filter policy: a repository counts as active when it is public, not archived,
/// has at least one star and was last pushed to in the cutoff year or later.
pub open spec fn passes_filter(
    is_private: bool,
    is_archived: bool,
    stars: int,
    pushed_year: int,
    cutoff_year: int,
) -> bool {
    !is_private && !is_archived && stars > 0 && pushed_year >= cutoff_year
}

/// Applies the filter policy to the four fields that it reads.
pub fn is_active(
    is_private: bool,
    is_archived: bool,
    stars: u32,
    pushed_year: u16,
    cutoff_year: u16,
) -> (keep: bool)
    ensures
        keep == passes_filter(
            is_private,
            is_archived,
            stars as int,
            pushed_year as int,
            cutoff_year as int,
        ),
        keep <==> !is_private && !is_archived && stars > 0 && pushed_year >= cutoff_year,
{
    !is_private && !is_archived && stars >= 1 && pushed_year >= cutoff_year
}

} // verus!
