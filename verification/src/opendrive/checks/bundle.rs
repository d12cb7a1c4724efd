//! The checkers of the bundle, in the order they run.
use vstd::prelude::*;

use crate::opendrive::checks::geometry::geometry_table;
use crate::opendrive::checks::performance::performance_table;
use crate::opendrive::checks::semantic::semantic_table;
use crate::opendrive::checks::smoothness::smoothness_table;
use crate::opendrive::checks::{
    after_basic_checks, basic, geometry, ids_view, performance, schema, semantic, smoothness, spec_entry,
    CheckerSpec,
};

verus! {

/// The ids of the checkers `s`, in order.
pub open spec fn checker_ids(s: Seq<CheckerSpec>) -> Seq<Seq<char>> {
    s.map_values(|c: CheckerSpec| c.id@)
}

/// The ids listed in a checker table, in order.
pub open spec fn table_ids(t: Seq<(Seq<char>, Seq<char>, Seq<char>, Option<Seq<char>>)>) -> Seq<Seq<char>> {
    t.map_values(|e: (Seq<char>, Seq<char>, Seq<char>, Option<Seq<char>>)| e.0)
}

/// The basic checks and the schema check, in the order they run; each waits
/// for all of those before it.
pub open spec fn leading_ids() -> Seq<Seq<char>> {
    seq![
        "check_asam_xodr_xml_valid_xml_document"@,
        "check_asam_xodr_xml_root_tag_is_opendrive"@,
        "check_asam_xodr_xml_fileheader_is_present"@,
        "check_asam_xodr_xml_version_is_defined"@,
        "check_asam_xodr_xml_valid_schema"@,
    ]
}

/// The checkers listed after the leading ones: semantic, geometry,
/// performance and smoothness, in that order.
pub open spec fn later_table() -> Seq<(Seq<char>, Seq<char>, Seq<char>, Option<Seq<char>>)> {
    semantic_table() + geometry_table() + performance_table() + smoothness_table()
}

/// The ids of every checker of the bundle, in the order they run.
pub open spec fn bundle_ids() -> Seq<Seq<char>> {
    leading_ids() + table_ids(later_table())
}

/// What a table lists of each of the checkers `v`, in order.
pub open spec fn entries(v: Seq<CheckerSpec>) -> Seq<(Seq<char>, Seq<char>, Seq<char>, Option<Seq<char>>)> {
    v.map_values(|c: CheckerSpec| spec_entry(c))
}

/// The entries of two lists one after the other.
proof fn lemma_entries_concat(a: Seq<CheckerSpec>, b: Seq<CheckerSpec>)
    ensures
        entries(a + b) == entries(a) + entries(b),
{
    assert(entries(a + b) =~= entries(a) + entries(b));
}

/// The ids of a list of checkers are those its table lists.
proof fn lemma_table_ids(v: Seq<CheckerSpec>, t: Seq<(Seq<char>, Seq<char>, Seq<char>, Option<Seq<char>>)>)
    requires
        entries(v) == t,
    ensures
        checker_ids(v) == table_ids(t),
{
    assert forall|k: int| 0 <= k < v.len() implies #[trigger] checker_ids(v)[k] == table_ids(t)[k] by {
        assert(entries(v)[k] == spec_entry(v[k]));
    }
    assert(checker_ids(v) =~= table_ids(t));
}

/// The ids of the bundle, written out.
proof fn lemma_bundle_ids_literal()
    ensures
        bundle_ids() == seq![
            "check_asam_xodr_xml_valid_xml_document"@,
            "check_asam_xodr_xml_root_tag_is_opendrive"@,
            "check_asam_xodr_xml_fileheader_is_present"@,
            "check_asam_xodr_xml_version_is_defined"@,
            "check_asam_xodr_xml_valid_schema"@,
            "check_asam_xodr_road_lane_level_true_one_side"@,
            "check_asam_xodr_road_lane_access_no_mix_of_deny_or_allow"@,
            "check_asam_xodr_road_lane_link_lanes_across_lane_sections"@,
            "check_asam_xodr_road_linkage_is_junction_needed"@,
            "check_asam_xodr_road_lane_link_zero_width_at_start"@,
            "check_asam_xodr_road_lane_link_zero_width_at_end"@,
            "check_asam_xodr_road_lane_link_new_lane_appear"@,
            "check_asam_xodr_junctions_connection_connect_road_no_incoming_road"@,
            "check_asam_xodr_junctions_connection_one_connection_element"@,
            "check_asam_xodr_junctions_connection_one_link_to_incoming"@,
            "check_asam_xodr_junctions_connection_start_along_linkage"@,
            "check_asam_xodr_junctions_connection_end_opposite_linkage"@,
            "check_asam_xodr_road_geometry_parampoly3_length_match"@,
            "check_asam_xodr_road_lane_border_overlap_with_inner_lanes"@,
            "check_asam_xodr_road_geometry_parampoly3_arclength_range"@,
            "check_asam_xodr_road_geometry_parampoly3_normalized_range"@,
            "check_asam_xodr_road_geometry_contact_point"@,
            "check_asam_xodr_road_geometry_elem_asc_order"@,
            "check_asam_xodr_road_geometry_parampoly3_valid_parameters"@,
            "check_asam_xodr_performance_avoid_redundant_info"@,
            "check_asam_xodr_lane_smoothness_contact_point_no_horizontal_gaps"@,
        ],
{
    assert(table_ids(later_table()) =~= table_ids(semantic_table()) + table_ids(geometry_table())
        + table_ids(performance_table()) + table_ids(smoothness_table()));
    assert(bundle_ids() =~= seq![
        "check_asam_xodr_xml_valid_xml_document"@,
        "check_asam_xodr_xml_root_tag_is_opendrive"@,
        "check_asam_xodr_xml_fileheader_is_present"@,
        "check_asam_xodr_xml_version_is_defined"@,
        "check_asam_xodr_xml_valid_schema"@,
        "check_asam_xodr_road_lane_level_true_one_side"@,
        "check_asam_xodr_road_lane_access_no_mix_of_deny_or_allow"@,
        "check_asam_xodr_road_lane_link_lanes_across_lane_sections"@,
        "check_asam_xodr_road_linkage_is_junction_needed"@,
        "check_asam_xodr_road_lane_link_zero_width_at_start"@,
        "check_asam_xodr_road_lane_link_zero_width_at_end"@,
        "check_asam_xodr_road_lane_link_new_lane_appear"@,
        "check_asam_xodr_junctions_connection_connect_road_no_incoming_road"@,
        "check_asam_xodr_junctions_connection_one_connection_element"@,
        "check_asam_xodr_junctions_connection_one_link_to_incoming"@,
        "check_asam_xodr_junctions_connection_start_along_linkage"@,
        "check_asam_xodr_junctions_connection_end_opposite_linkage"@,
        "check_asam_xodr_road_geometry_parampoly3_length_match"@,
        "check_asam_xodr_road_lane_border_overlap_with_inner_lanes"@,
        "check_asam_xodr_road_geometry_parampoly3_arclength_range"@,
        "check_asam_xodr_road_geometry_parampoly3_normalized_range"@,
        "check_asam_xodr_road_geometry_contact_point"@,
        "check_asam_xodr_road_geometry_elem_asc_order"@,
        "check_asam_xodr_road_geometry_parampoly3_valid_parameters"@,
        "check_asam_xodr_performance_avoid_redundant_info"@,
        "check_asam_xodr_lane_smoothness_contact_point_no_horizontal_gaps"@,
    ]);
}

/// `s` with `x` added at its end, which keeps it free of repeats when `x`
/// is new to it.
proof fn push_fresh(s: Seq<Seq<char>>, x: Seq<char>) -> (r: Seq<Seq<char>>)
    requires
        s.no_duplicates(),
        !s.contains(x),
    ensures
        r == s.push(x),
        r.no_duplicates(),
{
    let r = s.push(x);
    assert forall|i: int, j: int| 0 <= i < r.len() && 0 <= j < r.len() && i != j implies
        #[trigger] r[i] != #[trigger] r[j] by {
        if i < s.len() && j < s.len() {
            assert(s[i] != s[j]);
        } else if i < s.len() {
            assert(s[i] == r[i]);
        } else {
            assert(s[j] == r[j]);
        }
    }
    r
}

/// No two checkers of the bundle share an id: each differs from those
/// before it in its length or in a letter where ids of its length differ.
proof fn lemma_bundle_ids_distinct()
    ensures
        bundle_ids().no_duplicates(),
{
    broadcast use vstd::seq_lib::lemma_seq_contains_after_push;
    lemma_bundle_ids_literal();
    reveal_strlit("check_asam_xodr_xml_valid_xml_document");
    assert("check_asam_xodr_xml_valid_xml_document"@.len() == 38 && "check_asam_xodr_xml_valid_xml_document"@[21] == 'a');
    reveal_strlit("check_asam_xodr_xml_root_tag_is_opendrive");
    assert("check_asam_xodr_xml_root_tag_is_opendrive"@.len() == 41 && "check_asam_xodr_xml_root_tag_is_opendrive"@[20] == 'r');
    reveal_strlit("check_asam_xodr_xml_fileheader_is_present");
    assert("check_asam_xodr_xml_fileheader_is_present"@.len() == 41 && "check_asam_xodr_xml_fileheader_is_present"@[20] == 'f');
    reveal_strlit("check_asam_xodr_xml_version_is_defined");
    assert("check_asam_xodr_xml_version_is_defined"@.len() == 38 && "check_asam_xodr_xml_version_is_defined"@[21] == 'e');
    reveal_strlit("check_asam_xodr_xml_valid_schema");
    assert("check_asam_xodr_xml_valid_schema"@.len() == 32);
    reveal_strlit("check_asam_xodr_road_lane_level_true_one_side");
    assert("check_asam_xodr_road_lane_level_true_one_side"@.len() == 45);
    reveal_strlit("check_asam_xodr_road_lane_access_no_mix_of_deny_or_allow");
    assert("check_asam_xodr_road_lane_access_no_mix_of_deny_or_allow"@.len() == 56 && "check_asam_xodr_road_lane_access_no_mix_of_deny_or_allow"@[16] == 'r' && "check_asam_xodr_road_lane_access_no_mix_of_deny_or_allow"@[21] == 'l');
    reveal_strlit("check_asam_xodr_road_lane_link_lanes_across_lane_sections");
    assert("check_asam_xodr_road_lane_link_lanes_across_lane_sections"@.len() == 57 && "check_asam_xodr_road_lane_link_lanes_across_lane_sections"@[16] == 'r' && "check_asam_xodr_road_lane_link_lanes_across_lane_sections"@[21] == 'l' && "check_asam_xodr_road_lane_link_lanes_across_lane_sections"@[26] == 'l' && "check_asam_xodr_road_lane_link_lanes_across_lane_sections"@[37] == 'a' && "check_asam_xodr_road_lane_link_lanes_across_lane_sections"@[41] == 's');
    reveal_strlit("check_asam_xodr_road_linkage_is_junction_needed");
    assert("check_asam_xodr_road_linkage_is_junction_needed"@.len() == 47);
    reveal_strlit("check_asam_xodr_road_lane_link_zero_width_at_start");
    assert("check_asam_xodr_road_lane_link_zero_width_at_start"@.len() == 50);
    reveal_strlit("check_asam_xodr_road_lane_link_zero_width_at_end");
    assert("check_asam_xodr_road_lane_link_zero_width_at_end"@.len() == 48 && "check_asam_xodr_road_lane_link_zero_width_at_end"@[16] == 'r');
    reveal_strlit("check_asam_xodr_road_lane_link_new_lane_appear");
    assert("check_asam_xodr_road_lane_link_new_lane_appear"@.len() == 46);
    reveal_strlit("check_asam_xodr_junctions_connection_connect_road_no_incoming_road");
    assert("check_asam_xodr_junctions_connection_connect_road_no_incoming_road"@.len() == 66);
    reveal_strlit("check_asam_xodr_junctions_connection_one_connection_element");
    assert("check_asam_xodr_junctions_connection_one_connection_element"@.len() == 59);
    reveal_strlit("check_asam_xodr_junctions_connection_one_link_to_incoming");
    assert("check_asam_xodr_junctions_connection_one_link_to_incoming"@.len() == 57 && "check_asam_xodr_junctions_connection_one_link_to_incoming"@[16] == 'j' && "check_asam_xodr_junctions_connection_one_link_to_incoming"@[21] == 'i' && "check_asam_xodr_junctions_connection_one_link_to_incoming"@[26] == 'c' && "check_asam_xodr_junctions_connection_one_link_to_incoming"@[37] == 'o' && "check_asam_xodr_junctions_connection_one_link_to_incoming"@[41] == 'l');
    reveal_strlit("check_asam_xodr_junctions_connection_start_along_linkage");
    assert("check_asam_xodr_junctions_connection_start_along_linkage"@.len() == 56 && "check_asam_xodr_junctions_connection_start_along_linkage"@[16] == 'j' && "check_asam_xodr_junctions_connection_start_along_linkage"@[21] == 'i');
    reveal_strlit("check_asam_xodr_junctions_connection_end_opposite_linkage");
    assert("check_asam_xodr_junctions_connection_end_opposite_linkage"@.len() == 57 && "check_asam_xodr_junctions_connection_end_opposite_linkage"@[16] == 'j' && "check_asam_xodr_junctions_connection_end_opposite_linkage"@[21] == 'i' && "check_asam_xodr_junctions_connection_end_opposite_linkage"@[26] == 'c' && "check_asam_xodr_junctions_connection_end_opposite_linkage"@[37] == 'e' && "check_asam_xodr_junctions_connection_end_opposite_linkage"@[41] == 'o');
    reveal_strlit("check_asam_xodr_road_geometry_parampoly3_length_match");
    assert("check_asam_xodr_road_geometry_parampoly3_length_match"@.len() == 53);
    reveal_strlit("check_asam_xodr_road_lane_border_overlap_with_inner_lanes");
    assert("check_asam_xodr_road_lane_border_overlap_with_inner_lanes"@.len() == 57 && "check_asam_xodr_road_lane_border_overlap_with_inner_lanes"@[16] == 'r' && "check_asam_xodr_road_lane_border_overlap_with_inner_lanes"@[21] == 'l' && "check_asam_xodr_road_lane_border_overlap_with_inner_lanes"@[26] == 'b' && "check_asam_xodr_road_lane_border_overlap_with_inner_lanes"@[37] == 'l' && "check_asam_xodr_road_lane_border_overlap_with_inner_lanes"@[41] == 'w');
    reveal_strlit("check_asam_xodr_road_geometry_parampoly3_arclength_range");
    assert("check_asam_xodr_road_geometry_parampoly3_arclength_range"@.len() == 56 && "check_asam_xodr_road_geometry_parampoly3_arclength_range"@[16] == 'r' && "check_asam_xodr_road_geometry_parampoly3_arclength_range"@[21] == 'g');
    reveal_strlit("check_asam_xodr_road_geometry_parampoly3_normalized_range");
    assert("check_asam_xodr_road_geometry_parampoly3_normalized_range"@.len() == 57 && "check_asam_xodr_road_geometry_parampoly3_normalized_range"@[16] == 'r' && "check_asam_xodr_road_geometry_parampoly3_normalized_range"@[21] == 'g' && "check_asam_xodr_road_geometry_parampoly3_normalized_range"@[26] == 't' && "check_asam_xodr_road_geometry_parampoly3_normalized_range"@[37] == 'l' && "check_asam_xodr_road_geometry_parampoly3_normalized_range"@[41] == 'n');
    reveal_strlit("check_asam_xodr_road_geometry_contact_point");
    assert("check_asam_xodr_road_geometry_contact_point"@.len() == 43);
    reveal_strlit("check_asam_xodr_road_geometry_elem_asc_order");
    assert("check_asam_xodr_road_geometry_elem_asc_order"@.len() == 44);
    reveal_strlit("check_asam_xodr_road_geometry_parampoly3_valid_parameters");
    assert("check_asam_xodr_road_geometry_parampoly3_valid_parameters"@.len() == 57 && "check_asam_xodr_road_geometry_parampoly3_valid_parameters"@[16] == 'r' && "check_asam_xodr_road_geometry_parampoly3_valid_parameters"@[21] == 'g' && "check_asam_xodr_road_geometry_parampoly3_valid_parameters"@[26] == 't' && "check_asam_xodr_road_geometry_parampoly3_valid_parameters"@[37] == 'l' && "check_asam_xodr_road_geometry_parampoly3_valid_parameters"@[41] == 'v');
    reveal_strlit("check_asam_xodr_performance_avoid_redundant_info");
    assert("check_asam_xodr_performance_avoid_redundant_info"@.len() == 48 && "check_asam_xodr_performance_avoid_redundant_info"@[16] == 'p');
    reveal_strlit("check_asam_xodr_lane_smoothness_contact_point_no_horizontal_gaps");
    assert("check_asam_xodr_lane_smoothness_contact_point_no_horizontal_gaps"@.len() == 64);
    let s = Seq::<Seq<char>>::empty();
    let s = push_fresh(s, "check_asam_xodr_xml_valid_xml_document"@);
    let s = push_fresh(s, "check_asam_xodr_xml_root_tag_is_opendrive"@);
    let s = push_fresh(s, "check_asam_xodr_xml_fileheader_is_present"@);
    let s = push_fresh(s, "check_asam_xodr_xml_version_is_defined"@);
    let s = push_fresh(s, "check_asam_xodr_xml_valid_schema"@);
    let s = push_fresh(s, "check_asam_xodr_road_lane_level_true_one_side"@);
    let s = push_fresh(s, "check_asam_xodr_road_lane_access_no_mix_of_deny_or_allow"@);
    let s = push_fresh(s, "check_asam_xodr_road_lane_link_lanes_across_lane_sections"@);
    let s = push_fresh(s, "check_asam_xodr_road_linkage_is_junction_needed"@);
    let s = push_fresh(s, "check_asam_xodr_road_lane_link_zero_width_at_start"@);
    let s = push_fresh(s, "check_asam_xodr_road_lane_link_zero_width_at_end"@);
    let s = push_fresh(s, "check_asam_xodr_road_lane_link_new_lane_appear"@);
    let s = push_fresh(s, "check_asam_xodr_junctions_connection_connect_road_no_incoming_road"@);
    let s = push_fresh(s, "check_asam_xodr_junctions_connection_one_connection_element"@);
    let s = push_fresh(s, "check_asam_xodr_junctions_connection_one_link_to_incoming"@);
    let s = push_fresh(s, "check_asam_xodr_junctions_connection_start_along_linkage"@);
    let s = push_fresh(s, "check_asam_xodr_junctions_connection_end_opposite_linkage"@);
    let s = push_fresh(s, "check_asam_xodr_road_geometry_parampoly3_length_match"@);
    let s = push_fresh(s, "check_asam_xodr_road_lane_border_overlap_with_inner_lanes"@);
    let s = push_fresh(s, "check_asam_xodr_road_geometry_parampoly3_arclength_range"@);
    let s = push_fresh(s, "check_asam_xodr_road_geometry_parampoly3_normalized_range"@);
    let s = push_fresh(s, "check_asam_xodr_road_geometry_contact_point"@);
    let s = push_fresh(s, "check_asam_xodr_road_geometry_elem_asc_order"@);
    let s = push_fresh(s, "check_asam_xodr_road_geometry_parampoly3_valid_parameters"@);
    let s = push_fresh(s, "check_asam_xodr_performance_avoid_redundant_info"@);
    let s = push_fresh(s, "check_asam_xodr_lane_smoothness_contact_point_no_horizontal_gaps"@);
    assert(s == bundle_ids());
}

/// The descriptions of every checker of the bundle, in the order they run:
/// the basic checks and the schema check, each waiting for those before it,
/// then the semantic, geometry, performance and smoothness checkers, each
/// waiting for the basic checks and going by the version. No two share an
/// id.
pub fn bundle_specs() -> (r: Vec<CheckerSpec>)
    ensures
        checker_ids(r@) == bundle_ids(),
        checker_ids(r@).no_duplicates(),
        forall|k: int| 0 <= k < leading_ids().len() ==> {
            &&& ids_view(#[trigger] r@[k].preconditions@) == leading_ids().take(k)
            &&& r@[k].applicable_versions is None
            &&& !r@[k].version_required
        },
        entries(r@.skip(leading_ids().len() as int)) == later_table(),
        forall|k: int| leading_ids().len() <= k < r@.len() ==> after_basic_checks(#[trigger] r@[k]),
{
    let mut r: Vec<CheckerSpec> = Vec::new();
    r.push(basic::valid_xml_document_spec());
    r.push(basic::root_tag_is_opendrive_spec());
    r.push(basic::fileheader_is_present_spec());
    r.push(basic::version_is_defined_spec());
    r.push(schema::valid_schema_spec());
    let ghost lead = r@;
    let mut sem = semantic::specs();
    let mut geo = geometry::specs();
    let mut perf = performance::specs();
    let mut smooth = smoothness::specs();
    let ghost (sv, gv, pv, mv) = (sem@, geo@, perf@, smooth@);
    r.append(&mut sem);
    r.append(&mut geo);
    r.append(&mut perf);
    r.append(&mut smooth);
    proof {
        let later = sv + gv + pv + mv;
        assert(r@ =~= lead + later);
        lemma_entries_concat(sv, gv);
        lemma_entries_concat(sv + gv, pv);
        lemma_entries_concat(sv + gv + pv, mv);
        assert(entries(later) == later_table());
        assert(r@.skip(5) =~= later);
        lemma_table_ids(later, later_table());
        assert(checker_ids(lead) =~= leading_ids());
        assert(checker_ids(r@) =~= checker_ids(lead) + checker_ids(later));
        lemma_bundle_ids_distinct();
        assert forall|k: int| 0 <= k < leading_ids().len() implies {
            &&& ids_view(#[trigger] r@[k].preconditions@) == leading_ids().take(k)
            &&& r@[k].applicable_versions is None
            &&& !r@[k].version_required
        } by {
            assert(r@[k] == lead[k]);
            assert(leading_ids().take(0) =~= seq![]);
            assert(leading_ids().take(1) =~= seq![leading_ids()[0]]);
            assert(leading_ids().take(2) =~= seq![leading_ids()[0], leading_ids()[1]]);
            assert(leading_ids().take(3) =~= seq![leading_ids()[0], leading_ids()[1], leading_ids()[2]]);
            assert(leading_ids().take(4) =~= seq![leading_ids()[0], leading_ids()[1], leading_ids()[2], leading_ids()[3]]);
        }
        assert forall|k: int| leading_ids().len() <= k < r@.len() implies after_basic_checks(#[trigger] r@[k]) by {
            let j = k - 5;
            assert(r@[k] == later[j]);
            if j < sv.len() {
                assert(after_basic_checks(sv[j]));
            } else if j < sv.len() + gv.len() {
                assert(after_basic_checks(gv[j - sv.len()]));
            } else if j < sv.len() + gv.len() + pv.len() {
                assert(after_basic_checks(pv[j - sv.len() - gv.len()]));
            } else {
                assert(after_basic_checks(mv[j - sv.len() - gv.len() - pv.len()]));
            }
        }
    }
    r
}

} // verus!
