//! The geometry checkers. What they compute is floating-point geometry of
//! the plan view and of lane borders, which runs outside the library; here
//! stands the table that describes them.
use vstd::prelude::*;

use crate::opendrive::checks::{after_basic_checks, checker_after_basic, spec_entry, CheckerSpec};

verus! {

/// The geometry checkers
pub open spec fn geometry_table() -> Seq<(Seq<char>, Seq<char>, Seq<char>, Option<Seq<char>>)> {
    seq![
        ("check_asam_xodr_road_geometry_parampoly3_length_match"@, "ParamPoly3 length match."@, "asam.net:xodr:1.7.0:road.geometry.parampoly3.length_match"@, None),
        ("check_asam_xodr_road_lane_border_overlap_with_inner_lanes"@, "Lane border overlap with inner lanes."@, "asam.net:xodr:1.4.0:road.lane.border.overlap_with_inner_lanes"@, None),
        ("check_asam_xodr_road_geometry_parampoly3_arclength_range"@, "ParamPoly3 arclength range."@, "asam.net:xodr:1.7.0:road.geometry.parampoly3.arclength_range"@, None),
        ("check_asam_xodr_road_geometry_parampoly3_normalized_range"@, "ParamPoly3 normalized range."@, "asam.net:xodr:1.7.0:road.geometry.parampoly3.normalized_range"@, None),
        ("check_asam_xodr_road_geometry_contact_point"@, "Geometry contact point."@, "asam.net:xodr:1.7.0:road.geometry.contact_point"@, None),
        ("check_asam_xodr_road_geometry_elem_asc_order"@, "Geometry elements in ascending order."@, "asam.net:xodr:1.4.0:road.geometry.elem_asc_order"@, None),
        ("check_asam_xodr_road_geometry_parampoly3_valid_parameters"@, "ParamPoly3 valid parameters."@, "asam.net:xodr:1.7.0:road.geometry.paramPoly3.valid_parameters"@, None),
    ]
}

/// The geometry checkers, in the order they run; each waits for the basic checks and goes by
/// the schema version.
pub fn specs() -> (r: Vec<CheckerSpec>)
    ensures
        r@.map_values(|c: CheckerSpec| spec_entry(c)) == geometry_table(),
        forall|k: int| 0 <= k < r@.len() ==> after_basic_checks(#[trigger] r@[k]),
{
    let mut r: Vec<CheckerSpec> = Vec::new();
    r.push(checker_after_basic(
        "check_asam_xodr_road_geometry_parampoly3_length_match",
        "ParamPoly3 length match.",
        "asam.net:xodr:1.7.0:road.geometry.parampoly3.length_match",
        None,
    ));
    r.push(checker_after_basic(
        "check_asam_xodr_road_lane_border_overlap_with_inner_lanes",
        "Lane border overlap with inner lanes.",
        "asam.net:xodr:1.4.0:road.lane.border.overlap_with_inner_lanes",
        None,
    ));
    r.push(checker_after_basic(
        "check_asam_xodr_road_geometry_parampoly3_arclength_range",
        "ParamPoly3 arclength range.",
        "asam.net:xodr:1.7.0:road.geometry.parampoly3.arclength_range",
        None,
    ));
    r.push(checker_after_basic(
        "check_asam_xodr_road_geometry_parampoly3_normalized_range",
        "ParamPoly3 normalized range.",
        "asam.net:xodr:1.7.0:road.geometry.parampoly3.normalized_range",
        None,
    ));
    r.push(checker_after_basic(
        "check_asam_xodr_road_geometry_contact_point",
        "Geometry contact point.",
        "asam.net:xodr:1.7.0:road.geometry.contact_point",
        None,
    ));
    r.push(checker_after_basic(
        "check_asam_xodr_road_geometry_elem_asc_order",
        "Geometry elements in ascending order.",
        "asam.net:xodr:1.4.0:road.geometry.elem_asc_order",
        None,
    ));
    r.push(checker_after_basic(
        "check_asam_xodr_road_geometry_parampoly3_valid_parameters",
        "ParamPoly3 valid parameters.",
        "asam.net:xodr:1.7.0:road.geometry.paramPoly3.valid_parameters",
        None,
    ));
    assert(r@.map_values(|c: CheckerSpec| spec_entry(c)) =~= geometry_table());
    r
}

} // verus!
