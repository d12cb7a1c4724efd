//! The smoothness checker. It measures floating-point gaps between lane
//! borders, which runs outside the library; here stands its description.
use vstd::prelude::*;

use crate::opendrive::checks::{after_basic_checks, checker_after_basic, spec_entry, CheckerSpec};

verus! {

/// The smoothness checkers
pub open spec fn smoothness_table() -> Seq<(Seq<char>, Seq<char>, Seq<char>, Option<Seq<char>>)> {
    seq![
        ("check_asam_xodr_lane_smoothness_contact_point_no_horizontal_gaps"@, "Contact point no horizontal gaps."@, "asam.net:xodr:1.7.0:lane_smoothness.contact_point_no_horizontal_gaps"@, None),
    ]
}

/// The smoothness checkers, in the order they run; each waits for the basic checks and goes by
/// the schema version.
pub fn specs() -> (r: Vec<CheckerSpec>)
    ensures
        r@.map_values(|c: CheckerSpec| spec_entry(c)) == smoothness_table(),
        forall|k: int| 0 <= k < r@.len() ==> after_basic_checks(#[trigger] r@[k]),
{
    let mut r: Vec<CheckerSpec> = Vec::new();
    r.push(checker_after_basic(
        "check_asam_xodr_lane_smoothness_contact_point_no_horizontal_gaps",
        "Contact point no horizontal gaps.",
        "asam.net:xodr:1.7.0:lane_smoothness.contact_point_no_horizontal_gaps",
        None,
    ));
    assert(r@.map_values(|c: CheckerSpec| spec_entry(c)) =~= smoothness_table());
    r
}

} // verus!
