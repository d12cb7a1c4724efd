//! Reading the OpenDRIVE structure out of a parsed document: roads,
//! junctions, lane sections and lanes, and the links between them.
use vstd::prelude::*;

use crate::opendrive::models::{
    ContactPoint, ContactingLaneSection, ContactingLaneSections, LaneDirection, LinkageTag,
    RoadLinkage, TrafficHandRule,
};
use crate::text::{chars_of, parse_i64, str_eq, to_int_spec, trim_chars};
use crate::xml::{
    attribute, children_with_tag, descendants_with_tag, elements_with_tag, first_child,
    lemma_end_from_bounds, lemma_select_bounds, subtree_end, xpath, ElementView, XmlDoc,
};

verus! {

/// `s.trim().parse::<i64>().ok()`.
pub fn to_int(s: &str) -> (r: Option<i64>)
    ensures
        r == to_int_spec(s@),
{
    let v = chars_of(s);
    let t = trim_chars(&v);
    parse_i64(&t)
}

/// The ASCII lower-case of a character.
pub open spec fn ascii_lower(c: char) -> char {
    if 'A' <= c && c <= 'Z' {
        ((c as u32) + 32) as char
    } else {
        c
    }
}

/// Whether `value` is `true` ignoring ASCII case.
pub open spec fn is_true_ignoring_case(value: Seq<char>) -> bool {
    &&& value.len() == 4
    &&& ascii_lower(value[0]) == 't'
    &&& ascii_lower(value[1]) == 'r'
    &&& ascii_lower(value[2]) == 'u'
    &&& ascii_lower(value[3]) == 'e'
}

fn is_ascii_letter_ignoring_case(c: char, lower: char) -> (r: bool)
    requires
        'a' <= lower && lower <= 'z',
    ensures
        r == (ascii_lower(c) == lower),
{
    let upper = (((lower as u32) - 32) as u8) as char;
    c == lower || c == upper
}

/// `value.eq_ignore_ascii_case("true")`.
pub fn xml_string_to_bool(value: &str) -> (r: bool)
    ensures
        r == is_true_ignoring_case(value@),
{
    let v = chars_of(value);
    v.len() == 4 && is_ascii_letter_ignoring_case(v[0], 't') && is_ascii_letter_ignoring_case(
        v[1],
        'r',
    ) && is_ascii_letter_ignoring_case(v[2], 'u') && is_ascii_letter_ignoring_case(v[3], 'e')
}

/// The integer value of attribute `name` of element `i`, when present and
/// readable as an integer.
pub open spec fn int_attr(d: Seq<ElementView>, i: int, name: Seq<char>) -> Option<i64> {
    match attribute(d, i, name) {
        Some(v) => to_int_spec(v),
        None => None,
    }
}

/// The integer value of attribute `name` of element `i`.
pub fn int_attribute(doc: &XmlDoc, i: usize, name: &str) -> (r: Option<i64>)
    requires
        i < doc@.len(),
    ensures
        r == int_attr(doc@, i as int, name@),
{
    match doc.attribute(i, name) {
        Some(v) => to_int(v),
        None => None,
    }
}

/// Whether attribute `name` of element `i` equals `value`.
pub fn attribute_is(doc: &XmlDoc, i: usize, name: &str, value: &str) -> (r: bool)
    requires
        i < doc@.len(),
    ensures
        r == (attribute(doc@, i as int, name@) == Some(value@)),
{
    match doc.attribute(i, name) {
        Some(v) => str_eq(v, value),
        None => false,
    }
}

/// The schema version `revMajor.revMinor.0` read from the header below the
/// root element.
pub open spec fn standard_schema_version(d: Seq<ElementView>) -> Option<Seq<char>> {
    if d.len() == 0 {
        None
    } else {
        match first_child(d, 0, "header"@) {
            None => None,
            Some(h) => match (attribute(d, h as int, "revMajor"@), attribute(d, h as int, "revMinor"@)) {
                (Some(ma), Some(mi)) => Some(ma + "."@ + mi + ".0"@),
                _ => None,
            },
        }
    }
}

/// Reads the OpenDRIVE schema version from the header's revMajor and
/// revMinor, e.g. `1.7.0`.
pub fn get_standard_schema_version(doc: &XmlDoc) -> (r: Option<String>)
    ensures
        match r {
            Some(v) => standard_schema_version(doc@) == Some(v@),
            None => standard_schema_version(doc@) is None,
        },
{
    if doc.len() == 0 {
        return None;
    }
    let header = match doc.first_child(0, "header") {
        Some(h) => h,
        None => return None,
    };
    proof {
        lemma_first_child_in(doc@, 0, "header"@);
    }
    let rev_major = match doc.attribute(header, "revMajor") {
        Some(v) => v,
        None => return None,
    };
    let rev_minor = match doc.attribute(header, "revMinor") {
        Some(v) => v,
        None => return None,
    };
    let mut s = rev_major.to_owned();
    s.append(".");
    s.append(rev_minor);
    s.append(".0");
    Some(s)
}

/// The first child found by `first_child` is an element of the document.
pub proof fn lemma_first_child_in(d: Seq<ElementView>, i: int, tag: Seq<char>)
    requires
        0 <= i < d.len(),
        d.len() <= usize::MAX,
    ensures
        first_child(d, i, tag) matches Some(c) ==> i < c < d.len() && d[c as int].tag == tag,
{
    lemma_end_from_bounds(d, i, i + 1);
    lemma_select_bounds(d, i + 1, subtree_end(d, i), Some(d[i].depth + 1), tag);
}

} // verus!

verus! {

pub open spec fn roads(d: Seq<ElementView>) -> Seq<usize> {
    elements_with_tag(d, "road"@)
}

pub open spec fn junctions(d: Seq<ElementView>) -> Seq<usize> {
    elements_with_tag(d, "junction"@)
}

pub open spec fn lane_sections(d: Seq<ElementView>, road: int) -> Seq<usize> {
    descendants_with_tag(d, road, "laneSection"@)
}

pub open spec fn first_lane_section(d: Seq<ElementView>, road: int) -> Option<usize> {
    let ls = lane_sections(d, road);
    if ls.len() > 0 { Some(ls[0]) } else { None }
}

pub open spec fn last_lane_section(d: Seq<ElementView>, road: int) -> Option<usize> {
    let ls = lane_sections(d, road);
    if ls.len() > 0 { Some(ls.last()) } else { None }
}

/// All roads of the document, in document order.
pub fn get_roads(doc: &XmlDoc) -> (r: Vec<usize>)
    ensures
        r@ == roads(doc@),
        forall|k: int| 0 <= k < r@.len() ==> #[trigger] r@[k] < doc@.len(),
{
    doc.elements_with_tag("road")
}

/// All junctions of the document, in document order.
pub fn get_junctions(doc: &XmlDoc) -> (r: Vec<usize>)
    ensures
        r@ == junctions(doc@),
        forall|k: int| 0 <= k < r@.len() ==> #[trigger] r@[k] < doc@.len(),
{
    doc.elements_with_tag("junction")
}

/// All lanes of the document, in document order.
pub fn get_lanes(doc: &XmlDoc) -> (r: Vec<usize>)
    ensures
        r@ == elements_with_tag(doc@, "lane"@),
        forall|k: int| 0 <= k < r@.len() ==> #[trigger] r@[k] < doc@.len(),
{
    doc.elements_with_tag("lane")
}

/// The lane sections of a road, in document order.
pub fn get_lane_sections(doc: &XmlDoc, road: usize) -> (r: Vec<usize>)
    requires
        road < doc@.len(),
    ensures
        r@ == lane_sections(doc@, road as int),
        forall|k: int| 0 <= k < r@.len() ==> #[trigger] r@[k] < doc@.len(),
{
    doc.descendants(road, "laneSection")
}

/// The last lane section of a road.
pub fn get_last_lane_section(doc: &XmlDoc, road: usize) -> (r: Option<usize>)
    requires
        road < doc@.len(),
    ensures
        r == last_lane_section(doc@, road as int),
        r matches Some(x) ==> x < doc@.len(),
{
    let ls = get_lane_sections(doc, road);
    if ls.len() > 0 {
        Some(ls[ls.len() - 1])
    } else {
        None
    }
}

/// The first lane section of a road.
pub fn get_first_lane_section(doc: &XmlDoc, road: usize) -> (r: Option<usize>)
    requires
        road < doc@.len(),
    ensures
        r == first_lane_section(doc@, road as int),
        r matches Some(x) ==> x < doc@.len(),
{
    let ls = get_lane_sections(doc, road);
    if ls.len() > 0 {
        Some(ls[0])
    } else {
        None
    }
}

/// The pairs (integer `id` attribute, element) of the elements `els` whose id
/// reads as an integer, in order.
pub open spec fn id_entries(d: Seq<ElementView>, els: Seq<usize>) -> Seq<(i64, usize)>
    decreases els.len(),
{
    if els.len() == 0 {
        Seq::empty()
    } else {
        let prev = id_entries(d, els.drop_last());
        match int_attr(d, els.last() as int, "id"@) {
            Some(id) => prev.push((id, els.last())),
            None => prev,
        }
    }
}

/// The element of the last entry with key `id` (later entries replace earlier
/// ones, as in a map filled in order).
pub open spec fn map_get(entries: Seq<(i64, usize)>, id: i64) -> Option<usize>
    decreases entries.len(),
{
    if entries.len() == 0 {
        None
    } else if entries.last().0 == id {
        Some(entries.last().1)
    } else {
        map_get(entries.drop_last(), id)
    }
}

pub open spec fn entries_in(d: Seq<ElementView>, entries: Seq<(i64, usize)>) -> bool {
    forall|k: int| 0 <= k < entries.len() ==> (#[trigger] entries[k]).1 < d.len()
}

pub proof fn lemma_map_get_in(d: Seq<ElementView>, entries: Seq<(i64, usize)>, id: i64)
    requires
        entries_in(d, entries),
    ensures
        map_get(entries, id) matches Some(x) ==> x < d.len(),
    decreases entries.len(),
{
    if entries.len() > 0 && entries.last().0 != id {
        lemma_map_get_in(d, entries.drop_last(), id);
    }
}

/// Map from element id to element, for the elements `els`.
pub fn id_map(doc: &XmlDoc, els: &Vec<usize>) -> (r: Vec<(i64, usize)>)
    requires
        forall|k: int| 0 <= k < els@.len() ==> #[trigger] els@[k] < doc@.len(),
    ensures
        r@ == id_entries(doc@, els@),
        entries_in(doc@, r@),
{
    let mut r: Vec<(i64, usize)> = Vec::new();
    let n = els.len();
    let mut i: usize = 0;
    while i < n
        invariant
            i <= n,
            n == els@.len(),
            forall|k: int| 0 <= k < els@.len() ==> #[trigger] els@[k] < doc@.len(),
            r@ == id_entries(doc@, els@.take(i as int)),
            entries_in(doc@, r@),
        decreases n - i,
    {
        assert(els@.take(i + 1).drop_last() =~= els@.take(i as int));
        let e = els[i];
        match int_attribute(doc, e, "id") {
            Some(id) => r.push((id, e)),
            None => {},
        }
        i = i + 1;
    }
    assert(els@.take(n as int) =~= els@);
    r
}

/// The element that `map_get` finds for `id`.
pub fn map_lookup(entries: &Vec<(i64, usize)>, id: i64) -> (r: Option<usize>)
    ensures
        r == map_get(entries@, id),
{
    let mut i = entries.len();
    assert(entries@.take(i as int) =~= entries@);
    while i > 0
        invariant
            i <= entries@.len(),
            map_get(entries@, id) == map_get(entries@.take(i as int), id),
        decreases i,
    {
        assert(entries@.take(i as int).drop_last() =~= entries@.take(i - 1));
        if entries[i - 1].0 == id {
            return Some(entries[i - 1].1);
        }
        i = i - 1;
    }
    None
}

/// The road id map: every road whose id reads as an integer, by id.
pub fn get_road_id_map(doc: &XmlDoc) -> (r: Vec<(i64, usize)>)
    ensures
        r@ == id_entries(doc@, roads(doc@)),
        entries_in(doc@, r@),
{
    let roads = get_roads(doc);
    id_map(doc, &roads)
}

/// The junction id map: every junction whose id reads as an integer, by id.
pub fn get_junction_id_map(doc: &XmlDoc) -> (r: Vec<(i64, usize)>)
    ensures
        r@ == id_entries(doc@, junctions(doc@)),
        entries_in(doc@, r@),
{
    let js = get_junctions(doc);
    id_map(doc, &js)
}

/// The lanes below the `side` (`left` or `right`) child of a lane section.
pub open spec fn side_lanes(d: Seq<ElementView>, lane_section: int, side: Seq<char>) -> Seq<usize> {
    match first_child(d, lane_section, side) {
        Some(s) => children_with_tag(d, s as int, "lane"@),
        None => Seq::empty(),
    }
}

pub open spec fn left_and_right_lanes(d: Seq<ElementView>, lane_section: int) -> Seq<usize> {
    side_lanes(d, lane_section, "left"@) + side_lanes(d, lane_section, "right"@)
}

fn get_side_lanes(doc: &XmlDoc, lane_section: usize, side: &str) -> (r: Vec<usize>)
    requires
        lane_section < doc@.len(),
    ensures
        r@ == side_lanes(doc@, lane_section as int, side@),
        forall|k: int| 0 <= k < r@.len() ==> #[trigger] r@[k] < doc@.len(),
{
    match doc.first_child(lane_section, side) {
        Some(s) => doc.children(s, "lane"),
        None => Vec::new(),
    }
}

/// The lanes of the `left` side of a lane section.
pub fn get_left_lanes_from_lane_section(doc: &XmlDoc, lane_section: usize) -> (r: Vec<usize>)
    requires
        lane_section < doc@.len(),
    ensures
        r@ == side_lanes(doc@, lane_section as int, "left"@),
        forall|k: int| 0 <= k < r@.len() ==> #[trigger] r@[k] < doc@.len(),
{
    get_side_lanes(doc, lane_section, "left")
}

/// The lanes of the `right` side of a lane section.
pub fn get_right_lanes_from_lane_section(doc: &XmlDoc, lane_section: usize) -> (r: Vec<usize>)
    requires
        lane_section < doc@.len(),
    ensures
        r@ == side_lanes(doc@, lane_section as int, "right"@),
        forall|k: int| 0 <= k < r@.len() ==> #[trigger] r@[k] < doc@.len(),
{
    get_side_lanes(doc, lane_section, "right")
}

/// The lanes of the left side followed by those of the right side.
pub fn get_left_and_right_lanes_from_lane_section(doc: &XmlDoc, lane_section: usize) -> (r: Vec<
    usize,
>)
    requires
        lane_section < doc@.len(),
    ensures
        r@ == left_and_right_lanes(doc@, lane_section as int),
        forall|k: int| 0 <= k < r@.len() ==> #[trigger] r@[k] < doc@.len(),
{
    let mut v = get_left_lanes_from_lane_section(doc, lane_section);
    let mut w = get_right_lanes_from_lane_section(doc, lane_section);
    v.append(&mut w);
    v
}

} // verus!

verus! {

/// The `predecessor` or `successor` element below the road's `link`.
pub open spec fn road_link_child(d: Seq<ElementView>, road: int, tag: LinkageTag) -> Option<usize> {
    match first_child(d, road, "link"@) {
        None => None,
        Some(l) => first_child(d, l as int, tag.spec_value()),
    }
}

/// The road a road is linked to under `tag`, with the contact point there.
pub open spec fn road_linkage(d: Seq<ElementView>, road: int, tag: LinkageTag) -> Option<RoadLinkage> {
    match road_link_child(d, road, tag) {
        None => None,
        Some(k) => if attribute(d, k as int, "elementType"@) == Some("road"@) {
            match attribute(d, k as int, "elementId"@) {
                None => None,
                Some(v) => match to_int_spec(v) {
                    None => None,
                    Some(id) => match attribute(d, k as int, "contactPoint"@) {
                        None => None,
                        Some(c) => match ContactPoint::spec_from_str(c) {
                            None => None,
                            Some(cp) => Some(RoadLinkage { id: id, contact_point: cp }),
                        },
                    },
                },
            }
        } else {
            None
        },
    }
}

/// The junction a road is linked to under `tag`.
pub open spec fn linked_junction_id(d: Seq<ElementView>, road: int, tag: LinkageTag) -> Option<i64> {
    match road_link_child(d, road, tag) {
        None => None,
        Some(k) => if attribute(d, k as int, "elementType"@) == Some("junction"@) {
            match attribute(d, k as int, "elementId"@) {
                None => None,
                Some(v) => to_int_spec(v),
            }
        } else {
            None
        },
    }
}

fn get_road_link_child(doc: &XmlDoc, road: usize, tag: LinkageTag) -> (r: Option<usize>)
    requires
        road < doc@.len(),
    ensures
        r == road_link_child(doc@, road as int, tag),
        r matches Some(x) ==> x < doc@.len(),
{
    match doc.first_child(road, "link") {
        None => None,
        Some(l) => doc.first_child(l, tag.value()),
    }
}

/// The road a road is linked to under `linkage_tag` (when the link names a
/// road), with the contact point there.
pub fn get_road_linkage(doc: &XmlDoc, road: usize, linkage_tag: LinkageTag) -> (r: Option<RoadLinkage>)
    requires
        road < doc@.len(),
    ensures
        r == road_linkage(doc@, road as int, linkage_tag),
{
    let k = match get_road_link_child(doc, road, linkage_tag) {
        None => return None,
        Some(k) => k,
    };
    if !attribute_is(doc, k, "elementType", "road") {
        return None;
    }
    let id = match doc.attribute(k, "elementId") {
        None => return None,
        Some(v) => match to_int(v) {
            None => return None,
            Some(id) => id,
        },
    };
    let cp = match doc.attribute(k, "contactPoint") {
        None => return None,
        Some(c) => match ContactPoint::from_str(c) {
            None => return None,
            Some(cp) => cp,
        },
    };
    Some(RoadLinkage { id: id, contact_point: cp })
}

/// The junction a road is linked to under `linkage_tag`.
pub fn get_linked_junction_id(doc: &XmlDoc, road: usize, linkage_tag: LinkageTag) -> (r: Option<i64>)
    requires
        road < doc@.len(),
    ensures
        r == linked_junction_id(doc@, road as int, linkage_tag),
{
    let k = match get_road_link_child(doc, road, linkage_tag) {
        None => return None,
        Some(k) => k,
    };
    if !attribute_is(doc, k, "elementType", "junction") {
        return None;
    }
    match doc.attribute(k, "elementId") {
        None => None,
        Some(v) => to_int(v),
    }
}

/// The id of the road a road has as predecessor.
pub fn get_predecessor_road_id(doc: &XmlDoc, road: usize) -> (r: Option<i64>)
    requires
        road < doc@.len(),
    ensures
        r == match road_linkage(doc@, road as int, LinkageTag::Predecessor) {
            Some(l) => Some(l.id),
            None => None,
        },
{
    match get_road_linkage(doc, road, LinkageTag::Predecessor) {
        Some(l) => Some(l.id),
        None => None,
    }
}

/// The id of the road a road has as successor.
pub fn get_successor_road_id(doc: &XmlDoc, road: usize) -> (r: Option<i64>)
    requires
        road < doc@.len(),
    ensures
        r == match road_linkage(doc@, road as int, LinkageTag::Successor) {
            Some(l) => Some(l.id),
            None => None,
        },
{
    match get_road_linkage(doc, road, LinkageTag::Successor) {
        Some(l) => Some(l.id),
        None => None,
    }
}

/// The integer values of attribute `name` over the elements `els`, skipping
/// those that do not read as integers.
pub open spec fn int_attrs(d: Seq<ElementView>, els: Seq<usize>, name: Seq<char>) -> Seq<i64>
    decreases els.len(),
{
    if els.len() == 0 {
        Seq::empty()
    } else {
        let prev = int_attrs(d, els.drop_last(), name);
        match int_attr(d, els.last() as int, name) {
            Some(v) => prev.push(v),
            None => prev,
        }
    }
}

/// The lane ids a lane names under `tag`, over all its `link` children.
pub open spec fn link_ids_over(d: Seq<ElementView>, links: Seq<usize>, tag: Seq<char>) -> Seq<i64>
    decreases links.len(),
{
    if links.len() == 0 {
        Seq::empty()
    } else {
        link_ids_over(d, links.drop_last(), tag) + int_attrs(
            d,
            children_with_tag(d, links.last() as int, tag),
            "id"@,
        )
    }
}

pub open spec fn lane_link_ids(d: Seq<ElementView>, lane: int, tag: LinkageTag) -> Seq<i64> {
    link_ids_over(d, children_with_tag(d, lane, "link"@), tag.spec_value())
}

fn get_int_attrs(doc: &XmlDoc, els: &Vec<usize>, name: &str) -> (r: Vec<i64>)
    requires
        forall|k: int| 0 <= k < els@.len() ==> #[trigger] els@[k] < doc@.len(),
    ensures
        r@ == int_attrs(doc@, els@, name@),
{
    let mut r: Vec<i64> = Vec::new();
    let n = els.len();
    let mut i: usize = 0;
    while i < n
        invariant
            i <= n,
            n == els@.len(),
            forall|k: int| 0 <= k < els@.len() ==> #[trigger] els@[k] < doc@.len(),
            r@ == int_attrs(doc@, els@.take(i as int), name@),
        decreases n - i,
    {
        assert(els@.take(i + 1).drop_last() =~= els@.take(i as int));
        match int_attribute(doc, els[i], name) {
            Some(v) => r.push(v),
            None => {},
        }
        i = i + 1;
    }
    assert(els@.take(n as int) =~= els@);
    r
}

/// The ids of the lanes a lane links to under `linkage_tag`.
pub fn get_connecting_lane_ids(doc: &XmlDoc, lane: usize, linkage_tag: LinkageTag) -> (r: Vec<i64>)
    requires
        lane < doc@.len(),
    ensures
        r@ == lane_link_ids(doc@, lane as int, linkage_tag),
{
    let links = doc.children(lane, "link");
    let tag = linkage_tag.value();
    let mut r: Vec<i64> = Vec::new();
    let n = links.len();
    let mut i: usize = 0;
    while i < n
        invariant
            i <= n,
            n == links@.len(),
            links@ == children_with_tag(doc@, lane as int, "link"@),
            tag@ == linkage_tag.spec_value(),
            forall|k: int| 0 <= k < links@.len() ==> #[trigger] links@[k] < doc@.len(),
            r@ == link_ids_over(doc@, links@.take(i as int), tag@),
        decreases n - i,
    {
        assert(links@.take(i + 1).drop_last() =~= links@.take(i as int));
        let cs = doc.children(links[i], tag);
        let mut ids = get_int_attrs(doc, &cs, "id");
        r.append(&mut ids);
        i = i + 1;
    }
    assert(links@.take(n as int) =~= links@);
    r
}

/// The ids of the predecessor lanes of a lane.
pub fn get_predecessor_lane_ids(doc: &XmlDoc, lane: usize) -> (r: Vec<i64>)
    requires
        lane < doc@.len(),
    ensures
        r@ == lane_link_ids(doc@, lane as int, LinkageTag::Predecessor),
{
    get_connecting_lane_ids(doc, lane, LinkageTag::Predecessor)
}

/// The ids of the successor lanes of a lane.
pub fn get_successor_lane_ids(doc: &XmlDoc, lane: usize) -> (r: Vec<i64>)
    requires
        lane < doc@.len(),
    ensures
        r@ == lane_link_ids(doc@, lane as int, LinkageTag::Successor),
{
    get_connecting_lane_ids(doc, lane, LinkageTag::Successor)
}

/// The first of `els` whose `id` attribute reads as `id`, looking from `k` on.
pub open spec fn first_with_id(d: Seq<ElementView>, els: Seq<usize>, id: i64, k: int) -> Option<usize>
    decreases els.len() - k,
{
    if k < 0 || k >= els.len() {
        None
    } else if int_attr(d, els[k] as int, "id"@) == Some(id) {
        Some(els[k])
    } else {
        first_with_id(d, els, id, k + 1)
    }
}

/// The lane of a lane section with id `lane_id` (left side first).
pub open spec fn lane_in_section(d: Seq<ElementView>, lane_section: int, lane_id: i64) -> Option<usize> {
    first_with_id(d, left_and_right_lanes(d, lane_section), lane_id, 0)
}

proof fn lemma_first_with_id_in(d: Seq<ElementView>, els: Seq<usize>, id: i64, k: int)
    requires
        forall|m: int| 0 <= m < els.len() ==> #[trigger] els[m] < d.len(),
    ensures
        first_with_id(d, els, id, k) matches Some(x) ==> x < d.len(),
    decreases els.len() - k,
{
    if 0 <= k < els.len() && int_attr(d, els[k] as int, "id"@) != Some(id) {
        lemma_first_with_id_in(d, els, id, k + 1);
    }
}

/// The lane of a lane section with id `lane_id`.
pub fn get_lane_from_lane_section(doc: &XmlDoc, lane_section: usize, lane_id: i64) -> (r: Option<usize>)
    requires
        lane_section < doc@.len(),
    ensures
        r == lane_in_section(doc@, lane_section as int, lane_id),
        r matches Some(x) ==> x < doc@.len(),
{
    let lanes = get_left_and_right_lanes_from_lane_section(doc, lane_section);
    proof {
        lemma_first_with_id_in(doc@, lanes@, lane_id, 0);
    }
    let n = lanes.len();
    let mut i: usize = 0;
    while i < n
        invariant
            i <= n,
            n == lanes@.len(),
            forall|k: int| 0 <= k < lanes@.len() ==> #[trigger] lanes@[k] < doc@.len(),
            lane_in_section(doc@, lane_section as int, lane_id) == first_with_id(
                doc@,
                lanes@,
                lane_id,
                i as int,
            ),
        decreases n - i,
    {
        if int_attribute(doc, lanes[i], "id") == Some(lane_id) {
            return Some(lanes[i]);
        }
        i = i + 1;
    }
    None
}

/// Whether a lane's `level` attribute is exactly `true`.
pub fn get_lane_level_from_lane(doc: &XmlDoc, lane: usize) -> (r: bool)
    requires
        lane < doc@.len(),
    ensures
        r == (attribute(doc@, lane as int, "level"@) == Some("true"@)),
{
    attribute_is(doc, lane, "level", "true")
}

/// A lane's `type` attribute.
pub fn get_type_from_lane<'a>(doc: &'a XmlDoc, lane: usize) -> (r: Option<&'a str>)
    requires
        lane < doc@.len(),
    ensures
        match r {
            Some(v) => attribute(doc@, lane as int, "type"@) == Some(v@),
            None => attribute(doc@, lane as int, "type"@) is None,
        },
{
    doc.attribute(lane, "type")
}

/// A lane's id.
pub fn get_lane_id(doc: &XmlDoc, lane: usize) -> (r: Option<i64>)
    requires
        lane < doc@.len(),
    ensures
        r == int_attr(doc@, lane as int, "id"@),
{
    int_attribute(doc, lane, "id")
}

/// The junction a road belongs to (`junction` attribute).
pub fn get_road_junction_id(doc: &XmlDoc, road: usize) -> (r: Option<i64>)
    requires
        road < doc@.len(),
    ensures
        r == int_attr(doc@, road as int, "junction"@),
{
    int_attribute(doc, road, "junction")
}

/// Whether a road belongs to a junction: its junction id reads and is not -1.
pub open spec fn belongs_to_junction(d: Seq<ElementView>, road: int) -> bool {
    match int_attr(d, road, "junction"@) {
        Some(id) => id != -1,
        None => false,
    }
}

/// Whether a road is a connecting road of a junction.
pub fn road_belongs_to_junction(doc: &XmlDoc, road: usize) -> (r: bool)
    requires
        road < doc@.len(),
    ensures
        r == belongs_to_junction(doc@, road as int),
{
    match get_road_junction_id(doc, road) {
        Some(id) => id != -1,
        None => false,
    }
}

/// The first linkage element of tag `tag` (over all `link` children of the
/// road) whose `elementId` reads as `link_id`.
pub open spec fn link_element_over(d: Seq<ElementView>, links: Seq<usize>, tag: Seq<char>, link_id: i64) -> Option<usize>
    decreases links.len(),
{
    if links.len() == 0 {
        None
    } else {
        match first_with_attr(d, children_with_tag(d, links[0] as int, tag), "elementId"@, link_id, 0) {
            Some(x) => Some(x),
            None => link_element_over(d, links.drop_first(), tag, link_id),
        }
    }
}

/// The first of `els` whose attribute `name` reads as `v`, looking from `k` on.
pub open spec fn first_with_attr(d: Seq<ElementView>, els: Seq<usize>, name: Seq<char>, v: i64, k: int) -> Option<usize>
    decreases els.len() - k,
{
    if k < 0 || k >= els.len() {
        None
    } else if int_attr(d, els[k] as int, name) == Some(v) {
        Some(els[k])
    } else {
        first_with_attr(d, els, name, v, k + 1)
    }
}

pub open spec fn road_link_element(d: Seq<ElementView>, road: int, link_id: i64, tag: LinkageTag) -> Option<usize> {
    link_element_over(d, children_with_tag(d, road, "link"@), tag.spec_value(), link_id)
}

proof fn lemma_first_with_attr_in(d: Seq<ElementView>, els: Seq<usize>, name: Seq<char>, v: i64, k: int)
    requires
        forall|m: int| 0 <= m < els.len() ==> #[trigger] els[m] < d.len(),
    ensures
        first_with_attr(d, els, name, v, k) matches Some(x) ==> x < d.len(),
    decreases els.len() - k,
{
    if 0 <= k < els.len() && int_attr(d, els[k] as int, name) != Some(v) {
        lemma_first_with_attr_in(d, els, name, v, k + 1);
    }
}

fn find_with_attr(doc: &XmlDoc, els: &Vec<usize>, name: &str, v: i64) -> (r: Option<usize>)
    requires
        forall|k: int| 0 <= k < els@.len() ==> #[trigger] els@[k] < doc@.len(),
    ensures
        r == first_with_attr(doc@, els@, name@, v, 0),
        r matches Some(x) ==> x < doc@.len(),
{
    proof {
        lemma_first_with_attr_in(doc@, els@, name@, v, 0);
    }
    let n = els.len();
    let mut i: usize = 0;
    while i < n
        invariant
            i <= n,
            n == els@.len(),
            forall|k: int| 0 <= k < els@.len() ==> #[trigger] els@[k] < doc@.len(),
            first_with_attr(doc@, els@, name@, v, 0) == first_with_attr(doc@, els@, name@, v, i as int),
        decreases n - i,
    {
        if int_attribute(doc, els[i], name) == Some(v) {
            return Some(els[i]);
        }
        i = i + 1;
    }
    None
}

/// The linkage element (`predecessor` or `successor` below a `link` of the
/// road) that names the element with id `link_id`.
pub fn get_road_link_element(doc: &XmlDoc, road: usize, link_id: i64, linkage_tag: LinkageTag) -> (r: Option<usize>)
    requires
        road < doc@.len(),
    ensures
        r == road_link_element(doc@, road as int, link_id, linkage_tag),
        r matches Some(x) ==> x < doc@.len(),
{
    let links = doc.children(road, "link");
    let tag = linkage_tag.value();
    let n = links.len();
    assert(links@.subrange(0, n as int) =~= links@);
    let mut i: usize = 0;
    while i < n
        invariant
            i <= n,
            n == links@.len(),
            tag@ == linkage_tag.spec_value(),
            forall|k: int| 0 <= k < links@.len() ==> #[trigger] links@[k] < doc@.len(),
            road_link_element(doc@, road as int, link_id, linkage_tag) == link_element_over(
                doc@,
                links@.subrange(i as int, n as int),
                tag@,
                link_id,
            ),
        decreases n - i,
    {
        let ghost rest = links@.subrange(i as int, n as int);
        assert(rest.drop_first() =~= links@.subrange(i + 1, n as int));
        assert(rest[0] == links@[i as int]);
        let cs = doc.children(links[i], tag);
        match find_with_attr(doc, &cs, "elementId", link_id) {
            Some(x) => return Some(x),
            None => {},
        }
        i = i + 1;
    }
    None
}

} // verus!

verus! {

/// The id of the incoming road of a junction connection.
pub fn get_incoming_road_id_from_connection(doc: &XmlDoc, connection: usize) -> (r: Option<i64>)
    requires
        connection < doc@.len(),
    ensures
        r == int_attr(doc@, connection as int, "incomingRoad"@),
{
    int_attribute(doc, connection, "incomingRoad")
}

/// The id of the connecting road of a junction connection.
pub fn get_connecting_road_id_from_connection(doc: &XmlDoc, connection: usize) -> (r: Option<i64>)
    requires
        connection < doc@.len(),
    ensures
        r == int_attr(doc@, connection as int, "connectingRoad"@),
{
    int_attribute(doc, connection, "connectingRoad")
}

/// The contact point named by a junction connection.
pub open spec fn connection_contact_point(d: Seq<ElementView>, connection: int) -> Option<ContactPoint> {
    match attribute(d, connection, "contactPoint"@) {
        None => None,
        Some(c) => ContactPoint::spec_from_str(c),
    }
}

/// The contact point named by a junction connection.
pub fn get_contact_point_from_connection(doc: &XmlDoc, connection: usize) -> (r: Option<ContactPoint>)
    requires
        connection < doc@.len(),
    ensures
        r == connection_contact_point(doc@, connection as int),
{
    match doc.attribute(connection, "contactPoint") {
        None => None,
        Some(c) => ContactPoint::from_str(c),
    }
}

/// The `from` lane id of a lane link.
pub fn get_from_attribute_from_lane_link(doc: &XmlDoc, lane_link: usize) -> (r: Option<i64>)
    requires
        lane_link < doc@.len(),
    ensures
        r == int_attr(doc@, lane_link as int, "from"@),
{
    int_attribute(doc, lane_link, "from")
}

/// The `to` lane id of a lane link.
pub fn get_to_attribute_from_lane_link(doc: &XmlDoc, lane_link: usize) -> (r: Option<i64>)
    requires
        lane_link < doc@.len(),
    ensures
        r == int_attr(doc@, lane_link as int, "to"@),
{
    int_attribute(doc, lane_link, "to")
}

/// The `laneLink` children of a junction connection.
pub fn get_lane_links_from_connection(doc: &XmlDoc, connection: usize) -> (r: Vec<usize>)
    requires
        connection < doc@.len(),
    ensures
        r@ == children_with_tag(doc@, connection as int, "laneLink"@),
        forall|k: int| 0 <= k < r@.len() ==> #[trigger] r@[k] < doc@.len(),
{
    doc.children(connection, "laneLink")
}

/// The `connection` children of a junction.
pub fn get_connections_from_junction(doc: &XmlDoc, junction: usize) -> (r: Vec<usize>)
    requires
        junction < doc@.len(),
    ensures
        r@ == children_with_tag(doc@, junction as int, "connection"@),
        forall|k: int| 0 <= k < r@.len() ==> #[trigger] r@[k] < doc@.len(),
{
    doc.children(junction, "connection")
}

/// The integer id of a junction.
pub fn get_junction_id(doc: &XmlDoc, junction: usize) -> (r: Option<i64>)
    requires
        junction < doc@.len(),
    ensures
        r == int_attr(doc@, junction as int, "id"@),
{
    int_attribute(doc, junction, "id")
}

/// The lane section of a road at a contact point: the first one at the
/// start, the last one at the end.
pub open spec fn contact_lane_section(d: Seq<ElementView>, road: int, contact_point: ContactPoint) -> Option<usize> {
    match contact_point {
        ContactPoint::Start => first_lane_section(d, road),
        ContactPoint::End => last_lane_section(d, road),
    }
}

/// The linkage through which a road is left at a contact point:
/// its predecessor at the start, its successor at the end.
pub open spec fn tag_at(contact_point: ContactPoint) -> LinkageTag {
    match contact_point {
        ContactPoint::Start => LinkageTag::Predecessor,
        ContactPoint::End => LinkageTag::Successor,
    }
}

fn linkage_tag_at(contact_point: ContactPoint) -> (r: LinkageTag)
    ensures
        r == tag_at(contact_point),
{
    match contact_point {
        ContactPoint::Start => LinkageTag::Predecessor,
        ContactPoint::End => LinkageTag::Successor,
    }
}

/// The lane section of the road named by `linkage` at which the linkage
/// touches it, with the linkage by which that road is left there.
pub open spec fn contact_lane_section_of_linkage(
    d: Seq<ElementView>,
    linkage: RoadLinkage,
    road_ids: Seq<(i64, usize)>,
) -> Option<ContactingLaneSection> {
    match map_get(road_ids, linkage.id) {
        None => None,
        Some(road) => match contact_lane_section(d, road as int, linkage.contact_point) {
            None => None,
            Some(ls) => Some(ContactingLaneSection { lane_section: ls, linkage_tag: tag_at(linkage.contact_point) }),
        },
    }
}

/// The lane section of a linked road at which the link touches it.
pub fn get_contact_lane_section_from_linked_road(
    doc: &XmlDoc,
    linkage: &RoadLinkage,
    road_id_map: &Vec<(i64, usize)>,
) -> (r: Option<ContactingLaneSection>)
    requires
        entries_in(doc@, road_id_map@),
    ensures
        r == contact_lane_section_of_linkage(doc@, *linkage, road_id_map@),
        r matches Some(c) ==> c.lane_section < doc@.len(),
{
    proof {
        lemma_map_get_in(doc@, road_id_map@, linkage.id);
    }
    let road = match map_lookup(road_id_map, linkage.id) {
        None => return None,
        Some(road) => road,
    };
    match get_contact_lane_section_from_junction_connection_road(doc, road, linkage.contact_point) {
        None => None,
        Some(ls) => Some(ContactingLaneSection { lane_section: ls, linkage_tag: linkage_tag_at(linkage.contact_point) }),
    }
}

/// The lane section of a connecting road at the given contact point.
pub fn get_contact_lane_section_from_junction_connection_road(
    doc: &XmlDoc,
    connection_road: usize,
    contact_point: ContactPoint,
) -> (r: Option<usize>)
    requires
        connection_road < doc@.len(),
    ensures
        r == contact_lane_section(doc@, connection_road as int, contact_point),
        r matches Some(x) ==> x < doc@.len(),
{
    match contact_point {
        ContactPoint::Start => get_first_lane_section(doc, connection_road),
        ContactPoint::End => get_last_lane_section(doc, connection_road),
    }
}

/// For a junction connection: the lane section of the incoming road and the
/// lane section of the connecting road at which the two roads touch.
pub open spec fn contacting_lane_sections(
    d: Seq<ElementView>,
    connection: int,
    road_ids: Seq<(i64, usize)>,
) -> Option<ContactingLaneSections> {
    match (int_attr(d, connection, "connectingRoad"@), int_attr(d, connection, "incomingRoad"@)) {
        (Some(cid), Some(iid)) => match (map_get(road_ids, cid), map_get(road_ids, iid)) {
            (Some(croad), Some(iroad)) => match connection_contact_point(d, connection) {
                None => None,
                Some(cp) => match contact_lane_section(d, croad as int, cp) {
                    None => None,
                    Some(cls) => match road_linkage(d, croad as int, tag_at(cp)) {
                        None => None,
                        Some(l) => match contact_lane_section(d, iroad as int, l.contact_point) {
                            None => None,
                            Some(ils) => Some(ContactingLaneSections { incoming: ils, connection: cls }),
                        },
                    },
                },
            },
            _ => None,
        },
        _ => None,
    }
}

/// The lane sections at which the incoming road and the connecting road of a
/// junction connection touch.
pub fn get_incoming_and_connection_contacting_lane_sections(
    doc: &XmlDoc,
    connection: usize,
    road_id_map: &Vec<(i64, usize)>,
) -> (r: Option<ContactingLaneSections>)
    requires
        connection < doc@.len(),
        entries_in(doc@, road_id_map@),
    ensures
        r == contacting_lane_sections(doc@, connection as int, road_id_map@),
        r matches Some(c) ==> c.incoming < doc@.len() && c.connection < doc@.len(),
{
    let cid = match get_connecting_road_id_from_connection(doc, connection) {
        None => return None,
        Some(x) => x,
    };
    let iid = match get_incoming_road_id_from_connection(doc, connection) {
        None => return None,
        Some(x) => x,
    };
    proof {
        lemma_map_get_in(doc@, road_id_map@, cid);
        lemma_map_get_in(doc@, road_id_map@, iid);
    }
    let croad = match map_lookup(road_id_map, cid) {
        None => return None,
        Some(x) => x,
    };
    let iroad = match map_lookup(road_id_map, iid) {
        None => return None,
        Some(x) => x,
    };
    let cp = match get_contact_point_from_connection(doc, connection) {
        None => return None,
        Some(x) => x,
    };
    let cls = match get_contact_lane_section_from_junction_connection_road(doc, croad, cp) {
        None => return None,
        Some(x) => x,
    };
    let l = match get_road_linkage(doc, croad, linkage_tag_at(cp)) {
        None => return None,
        Some(x) => x,
    };
    let ils = match get_contact_lane_section_from_junction_connection_road(doc, iroad, l.contact_point) {
        None => return None,
        Some(x) => x,
    };
    Some(ContactingLaneSections { incoming: ils, connection: cls })
}

} // verus!

verus! {

/// Whether junction connection `c` leads from the road `road_id` into a
/// connecting road whose linkage at the connection's contact point meets the
/// incoming road at `contact_point`.
pub open spec fn links_incoming_road(
    d: Seq<ElementView>,
    c: int,
    road_id: i64,
    road_ids: Seq<(i64, usize)>,
    contact_point: ContactPoint,
) -> bool {
    &&& int_attr(d, c, "incomingRoad"@) == Some(road_id)
    &&& match int_attr(d, c, "connectingRoad"@) {
        None => false,
        Some(cid) => match map_get(road_ids, cid) {
            None => false,
            Some(croad) => match connection_contact_point(d, c) {
                None => false,
                Some(ccp) => match road_linkage(d, croad as int, tag_at(ccp)) {
                    None => false,
                    Some(l) => l.contact_point == contact_point,
                },
            },
        },
    }
}

/// Those of `connections` that `links_incoming_road` accepts, in order.
pub open spec fn incoming_connections(
    d: Seq<ElementView>,
    connections: Seq<usize>,
    road_id: i64,
    road_ids: Seq<(i64, usize)>,
    contact_point: ContactPoint,
) -> Seq<usize> {
    connections.filter(|c: usize| links_incoming_road(d, c as int, road_id, road_ids, contact_point))
}

/// The connections of junction `junction_id` that lead from road `road_id`
/// entered at `contact_point`.
pub open spec fn connections_between(
    d: Seq<ElementView>,
    road_id: i64,
    junction_id: i64,
    road_ids: Seq<(i64, usize)>,
    junction_ids: Seq<(i64, usize)>,
    contact_point: ContactPoint,
) -> Seq<usize> {
    match map_get(junction_ids, junction_id) {
        None => Seq::empty(),
        Some(j) => incoming_connections(d, children_with_tag(d, j as int, "connection"@), road_id, road_ids, contact_point),
    }
}

fn connection_links_incoming_road(
    doc: &XmlDoc,
    c: usize,
    road_id: i64,
    road_id_map: &Vec<(i64, usize)>,
    contact_point: ContactPoint,
) -> (r: bool)
    requires
        c < doc@.len(),
        entries_in(doc@, road_id_map@),
    ensures
        r == links_incoming_road(doc@, c as int, road_id, road_id_map@, contact_point),
{
    match get_incoming_road_id_from_connection(doc, c) {
        Some(i) => if i != road_id {
            return false;
        },
        None => return false,
    }
    let cid = match get_connecting_road_id_from_connection(doc, c) {
        None => return false,
        Some(x) => x,
    };
    proof {
        lemma_map_get_in(doc@, road_id_map@, cid);
    }
    let croad = match map_lookup(road_id_map, cid) {
        None => return false,
        Some(x) => x,
    };
    let ccp = match get_contact_point_from_connection(doc, c) {
        None => return false,
        Some(x) => x,
    };
    match get_road_linkage(doc, croad, linkage_tag_at(ccp)) {
        None => false,
        Some(l) => l.contact_point == contact_point,
    }
}

/// The connections of junction `junction_id` that lead from road `road_id`
/// into a connecting road that meets it at `incoming_road_contact_point`.
pub fn get_connections_between_road_and_junction(
    doc: &XmlDoc,
    road_id: i64,
    junction_id: i64,
    road_id_map: &Vec<(i64, usize)>,
    junction_id_map: &Vec<(i64, usize)>,
    incoming_road_contact_point: ContactPoint,
) -> (r: Vec<usize>)
    requires
        entries_in(doc@, road_id_map@),
        entries_in(doc@, junction_id_map@),
    ensures
        r@ == connections_between(doc@, road_id, junction_id, road_id_map@, junction_id_map@, incoming_road_contact_point),
        forall|k: int| 0 <= k < r@.len() ==> #[trigger] r@[k] < doc@.len(),
{
    let mut r: Vec<usize> = Vec::new();
    proof {
        lemma_map_get_in(doc@, junction_id_map@, junction_id);
    }
    let junction = match map_lookup(junction_id_map, junction_id) {
        None => return r,
        Some(j) => j,
    };
    let cs = get_connections_from_junction(doc, junction);
    let n = cs.len();
    let mut i: usize = 0;
    while i < n
        invariant
            i <= n,
            n == cs@.len(),
            entries_in(doc@, road_id_map@),
            forall|k: int| 0 <= k < cs@.len() ==> #[trigger] cs@[k] < doc@.len(),
            r@ == incoming_connections(doc@, cs@.take(i as int), road_id, road_id_map@, incoming_road_contact_point),
            forall|k: int| 0 <= k < r@.len() ==> #[trigger] r@[k] < doc@.len(),
        decreases n - i,
    {
        proof {
            reveal(Seq::filter);
            assert(cs@.take(i + 1).drop_last() =~= cs@.take(i as int));
        }
        let c = cs[i];
        if connection_links_incoming_road(doc, c, road_id, road_id_map, incoming_road_contact_point) {
            r.push(c);
        }
        i = i + 1;
    }
    assert(cs@.take(n as int) =~= cs@);
    r
}

/// Whether junction connection `c` names road `road_id` as its connecting
/// road with contact point `contact_point`.
pub open spec fn is_connection_of(d: Seq<ElementView>, c: int, road_id: i64, contact_point: ContactPoint) -> bool {
    &&& int_attr(d, c, "connectingRoad"@) == Some(road_id)
    &&& connection_contact_point(d, c) == Some(contact_point)
}

/// Those of `connections` that name road `road_id` with `contact_point`.
pub open spec fn connections_of(d: Seq<ElementView>, connections: Seq<usize>, road_id: i64, contact_point: ContactPoint) -> Seq<usize> {
    connections.filter(|c: usize| is_connection_of(d, c as int, road_id, contact_point))
}

/// The connections of a junction whose connecting road is
/// `connecting_road_id`, entered at `connecting_road_contact_point`.
pub fn get_connections_of_connecting_road(
    doc: &XmlDoc,
    connecting_road_id: i64,
    junction: usize,
    connecting_road_contact_point: ContactPoint,
) -> (r: Vec<usize>)
    requires
        junction < doc@.len(),
    ensures
        r@ == connections_of(
            doc@,
            children_with_tag(doc@, junction as int, "connection"@),
            connecting_road_id,
            connecting_road_contact_point,
        ),
        forall|k: int| 0 <= k < r@.len() ==> #[trigger] r@[k] < doc@.len(),
{
    let mut r: Vec<usize> = Vec::new();
    let cs = get_connections_from_junction(doc, junction);
    let n = cs.len();
    let mut i: usize = 0;
    while i < n
        invariant
            i <= n,
            n == cs@.len(),
            forall|k: int| 0 <= k < cs@.len() ==> #[trigger] cs@[k] < doc@.len(),
            r@ == connections_of(doc@, cs@.take(i as int), connecting_road_id, connecting_road_contact_point),
            forall|k: int| 0 <= k < r@.len() ==> #[trigger] r@[k] < doc@.len(),
        decreases n - i,
    {
        proof {
            reveal(Seq::filter);
            assert(cs@.take(i + 1).drop_last() =~= cs@.take(i as int));
        }
        let c = cs[i];
        let keep = match get_connecting_road_id_from_connection(doc, c) {
            Some(id) => id == connecting_road_id && match get_contact_point_from_connection(doc, c) {
                Some(cp) => cp == connecting_road_contact_point,
                None => false,
            },
            None => false,
        };
        if keep {
            r.push(c);
        }
        i = i + 1;
    }
    assert(cs@.take(n as int) =~= cs@);
    r
}

/// The traffic rule of a road: its `rule` attribute, right-hand traffic
/// where it is absent or unknown.
pub open spec fn traffic_hand_rule(d: Seq<ElementView>, road: int) -> TrafficHandRule {
    match attribute(d, road, "rule"@) {
        None => TrafficHandRule::RHT,
        Some(v) => match TrafficHandRule::spec_from_str(v) {
            Some(t) => t,
            None => TrafficHandRule::RHT,
        },
    }
}

/// The traffic rule of a road (right-hand traffic by default).
pub fn get_traffic_hand_rule_from_road(doc: &XmlDoc, road: usize) -> (r: TrafficHandRule)
    requires
        road < doc@.len(),
    ensures
        r == traffic_hand_rule(doc@, road as int),
{
    match doc.attribute(road, "rule") {
        None => TrafficHandRule::RHT,
        Some(v) => match TrafficHandRule::from_str(v) {
            Some(t) => t,
            None => TrafficHandRule::RHT,
        },
    }
}

/// The direction of a lane: `standard` where the attribute is absent, none
/// where it is present and not a known direction.
pub open spec fn lane_direction(d: Seq<ElementView>, lane: int) -> Option<LaneDirection> {
    match attribute(d, lane, "direction"@) {
        None => Some(LaneDirection::Standard),
        Some(v) => LaneDirection::spec_from_str(v),
    }
}

/// The direction of a lane.
pub fn get_lane_direction(doc: &XmlDoc, lane: usize) -> (r: Option<LaneDirection>)
    requires
        lane < doc@.len(),
    ensures
        r == lane_direction(doc@, lane as int),
{
    match doc.attribute(lane, "direction") {
        None => Some(LaneDirection::Standard),
        Some(v) => LaneDirection::from_str(v),
    }
}

/// The `geometry` elements of a road's plan view.
pub open spec fn plan_view_geometries(d: Seq<ElementView>, road: int) -> Seq<usize> {
    match first_child(d, road, "planView"@) {
        None => Seq::empty(),
        Some(pv) => children_with_tag(d, pv as int, "geometry"@),
    }
}

/// The `geometry` elements of a road's plan view, in order.
pub fn get_road_plan_view_geometry_list(doc: &XmlDoc, road: usize) -> (r: Vec<usize>)
    requires
        road < doc@.len(),
    ensures
        r@ == plan_view_geometries(doc@, road as int),
        forall|k: int| 0 <= k < r@.len() ==> #[trigger] r@[k] < doc@.len(),
{
    match doc.first_child(road, "planView") {
        None => Vec::new(),
        Some(pv) => doc.children(pv, "geometry"),
    }
}

/// Whether a plan view geometry is a straight line.
pub fn is_line_geometry(doc: &XmlDoc, geometry: usize) -> (r: bool)
    requires
        geometry < doc@.len(),
    ensures
        r == (first_child(doc@, geometry as int, "line"@) is Some),
{
    doc.first_child(geometry, "line").is_some()
}

} // verus!

verus! {

/// The xpath of element `node`: `/` and the path of tag names from the root
/// element down, each step indexed (1-based) among same-tag siblings where
/// there are any, e.g. `/OpenDRIVE/road[2]/lanes/laneSection`.
pub fn node_xpath(doc: &XmlDoc, node: usize) -> (r: String)
    requires
        node < doc@.len(),
    ensures
        r@ == xpath(doc@, node as int),
{
    doc.xpath(node)
}

/// The line (1-based) at which element `node` starts.
pub fn node_row(doc: &XmlDoc, node: usize) -> (r: Option<u32>)
    requires
        node < doc@.len(),
    ensures
        r == Some(doc@[node as int].row),
{
    Some(doc.row(node))
}

} // verus!
