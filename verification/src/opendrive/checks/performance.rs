//! The performance checker. It compares floating-point equation
//! coefficients, which runs outside the library; here stands its description.
use vstd::prelude::*;

use crate::opendrive::checks::{after_basic_checks, checker_after_basic, spec_entry, CheckerSpec};

verus! {

/// The performance checkers
pub open spec fn performance_table() -> Seq<(Seq<char>, Seq<char>, Seq<char>, Option<Seq<char>>)> {
    seq![
        ("check_asam_xodr_performance_avoid_redundant_info"@, "Avoid redundant info."@, "asam.net:xodr:1.7.0:performance.avoid_redundant_info"@, None),
    ]
}

/// The performance checkers, in the order they run; each waits for the basic checks and goes by
/// the schema version.
pub fn specs() -> (r: Vec<CheckerSpec>)
    ensures
        r@.map_values(|c: CheckerSpec| spec_entry(c)) == performance_table(),
        forall|k: int| 0 <= k < r@.len() ==> after_basic_checks(#[trigger] r@[k]),
{
    let mut r: Vec<CheckerSpec> = Vec::new();
    r.push(checker_after_basic(
        "check_asam_xodr_performance_avoid_redundant_info",
        "Avoid redundant info.",
        "asam.net:xodr:1.7.0:performance.avoid_redundant_info",
        None,
    ));
    assert(r@.map_values(|c: CheckerSpec| spec_entry(c)) =~= performance_table());
    r
}

} // verus!
