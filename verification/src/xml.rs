//! The parsed XML document that the checkers read: its elements in document
//! order, each with its local tag name, its depth, its attributes and its
//! position in the text.
use vstd::prelude::*;

use crate::text::str_eq;

verus! {

/// A node of the parsed text, as the parser lists them in document order:
/// the position of its parent in that list, whether it is an element, and
/// for an element its local tag name, its attributes (whether the name
/// carries a namespace prefix, the local name, the value) and the row and
/// column where it starts.
#[derive(Debug)]
pub struct RawXmlNode {
    pub parent: Option<u32>,
    pub is_element: bool,
    pub tag: String,
    pub attributes: Vec<(bool, String, String)>,
    pub pos: (u32, u32),
}

pub ghost struct RawNodeView {
    pub parent: Option<u32>,
    pub is_element: bool,
    pub tag: Seq<char>,
    pub attributes: Seq<(bool, Seq<char>, Seq<char>)>,
    pub pos: (u32, u32),
}

/// The attributes `a` as plain values.
pub open spec fn attributes_view(a: Seq<(bool, String, String)>) -> Seq<(bool, Seq<char>, Seq<char>)> {
    a.map_values(|x: (bool, String, String)| (x.0, x.1@, x.2@))
}

impl View for RawXmlNode {
    type V = RawNodeView;

    open spec fn view(&self) -> RawNodeView {
        RawNodeView {
            parent: self.parent,
            is_element: self.is_element,
            tag: self.tag@,
            attributes: attributes_view(self.attributes@),
            pos: self.pos,
        }
    }
}

pub open spec fn raw_views(nodes: Seq<RawXmlNode>) -> Seq<RawNodeView> {
    nodes.map_values(|n: RawXmlNode| n@)
}

/// An element of the document.
#[derive(Clone, Debug)]
pub struct XmlElement {
    pub tag: String,
    pub depth: usize,
    pub attributes: Vec<(bool, String, String)>,
    pub row: u32,
    pub column: u32,
}

/// Where the text stops being well-formed XML.
#[derive(Clone, Copy, Debug)]
pub struct XmlParseError {
    pub row: u32,
    pub column: u32,
}

#[verifier::ext_equal]
pub ghost struct ElementView {
    pub tag: Seq<char>,
    pub depth: nat,
    pub attributes: Seq<(bool, Seq<char>, Seq<char>)>,
    pub row: u32,
    pub column: u32,
}

impl View for XmlElement {
    type V = ElementView;

    open spec fn view(&self) -> ElementView {
        ElementView {
            tag: self.tag@,
            depth: self.depth as nat,
            attributes: attributes_view(self.attributes@),
            row: self.row,
            column: self.column,
        }
    }
}

/// Number of element ancestors of node `k`, following parent numbers that
/// point backwards.
pub open spec fn element_ancestors(nodes: Seq<RawNodeView>, k: int) -> nat
    decreases k,
{
    if k < 0 || k >= nodes.len() {
        0
    } else {
        match nodes[k].parent {
            Some(p) => if (p as int) < k {
                element_ancestors(nodes, p as int) + if nodes[p as int].is_element {
                    1nat
                } else {
                    0nat
                }
            } else {
                0
            },
            None => 0,
        }
    }
}

pub proof fn lemma_element_ancestors_bound(nodes: Seq<RawNodeView>, k: int)
    ensures
        element_ancestors(nodes, k) <= if k < 0 { 0 } else { k },
    decreases k,
{
    if 0 <= k < nodes.len() {
        match nodes[k].parent {
            Some(p) => if (p as int) < k {
                lemma_element_ancestors_bound(nodes, p as int);
            },
            None => {},
        }
    }
}

/// The elements among the first `n` nodes, in document order.
pub open spec fn elements_of(nodes: Seq<RawNodeView>, n: int) -> Seq<ElementView>
    decreases n,
{
    if n <= 0 || n > nodes.len() {
        Seq::empty()
    } else {
        let prev = elements_of(nodes, n - 1);
        let node = nodes[n - 1];
        if node.is_element {
            prev.push(
                ElementView {
                    tag: node.tag,
                    depth: element_ancestors(nodes, n - 1),
                    attributes: node.attributes,
                    row: node.pos.0,
                    column: node.pos.1,
                },
            )
        } else {
            prev
        }
    }
}

/// One past the last element of the subtree of element `i`, looking from `k`
/// on: the first element after `i` that is not deeper than `i`.
pub open spec fn end_from(d: Seq<ElementView>, i: int, k: int) -> int
    decreases d.len() - k,
{
    if k < 0 || k >= d.len() {
        d.len() as int
    } else if d[k].depth <= d[i].depth {
        k
    } else {
        end_from(d, i, k + 1)
    }
}

/// One past the last element of the subtree of element `i`.
pub open spec fn subtree_end(d: Seq<ElementView>, i: int) -> int {
    end_from(d, i, i + 1)
}

pub proof fn lemma_end_from_bounds(d: Seq<ElementView>, i: int, k: int)
    requires
        0 <= k <= d.len(),
    ensures
        k <= end_from(d, i, k) <= d.len(),
        forall|m: int| k <= m < end_from(d, i, k) ==> d[m].depth > d[i].depth,
    decreases d.len() - k,
{
    if k < d.len() && d[k].depth > d[i].depth {
        lemma_end_from_bounds(d, i, k + 1);
    }
}

/// The elements at positions `lo..hi` with tag `tag` (and depth `depth` when
/// given), in document order.
pub open spec fn select(d: Seq<ElementView>, lo: int, hi: int, depth: Option<nat>, tag: Seq<char>) -> Seq<usize>
    decreases hi - lo,
{
    if hi <= lo {
        Seq::empty()
    } else {
        let prev = select(d, lo, hi - 1, depth, tag);
        let j = hi - 1;
        if d[j].tag == tag && (depth matches Some(dp) ==> d[j].depth == dp) {
            prev.push(j as usize)
        } else {
            prev
        }
    }
}

/// The elements of the document with tag `tag`.
pub open spec fn elements_with_tag(d: Seq<ElementView>, tag: Seq<char>) -> Seq<usize> {
    select(d, 0, d.len() as int, None, tag)
}

/// The descendants of element `i` with tag `tag`.
pub open spec fn descendants_with_tag(d: Seq<ElementView>, i: int, tag: Seq<char>) -> Seq<usize> {
    select(d, i + 1, subtree_end(d, i), None, tag)
}

/// The children of element `i` with tag `tag`.
pub open spec fn children_with_tag(d: Seq<ElementView>, i: int, tag: Seq<char>) -> Seq<usize> {
    select(d, i + 1, subtree_end(d, i), Some(d[i].depth + 1), tag)
}

/// The first child of element `i` with tag `tag`.
pub open spec fn first_child(d: Seq<ElementView>, i: int, tag: Seq<char>) -> Option<usize> {
    let cs = children_with_tag(d, i, tag);
    if cs.len() > 0 { Some(cs[0]) } else { None }
}

/// The value of the first attribute without namespace named `name`.
pub open spec fn attr_value(attrs: Seq<(bool, Seq<char>, Seq<char>)>, name: Seq<char>) -> Option<Seq<char>>
    decreases attrs.len(),
{
    if attrs.len() == 0 {
        None
    } else if !attrs[0].0 && attrs[0].1 == name {
        Some(attrs[0].2)
    } else {
        attr_value(attrs.drop_first(), name)
    }
}

/// The value of attribute `name` of element `i`.
pub open spec fn attribute(d: Seq<ElementView>, i: int, name: Seq<char>) -> Option<Seq<char>> {
    attr_value(d[i].attributes, name)
}

pub proof fn lemma_select_bounds(d: Seq<ElementView>, lo: int, hi: int, depth: Option<nat>, tag: Seq<char>)
    requires
        0 <= lo,
        hi <= d.len(),
        d.len() <= usize::MAX,
    ensures
        forall|k: int| 0 <= k < select(d, lo, hi, depth, tag).len() ==> lo <= #[trigger] select(d, lo, hi, depth, tag)[k] < hi,
        forall|k: int| 0 <= k < select(d, lo, hi, depth, tag).len() ==> d[#[trigger] select(d, lo, hi, depth, tag)[k] as int].tag == tag,
    decreases hi - lo,
{
    if hi > lo {
        lemma_select_bounds(d, lo, hi - 1, depth, tag);
        let prev = select(d, lo, hi - 1, depth, tag);
        let cur = select(d, lo, hi, depth, tag);
        assert forall|k: int| 0 <= k < cur.len() implies lo <= #[trigger] cur[k] < hi && d[cur[k] as int].tag == tag by {
            if k < prev.len() {
                assert(cur[k] == prev[k]);
            } else {
                assert(cur[k] == (hi - 1) as usize);
                assert(cur[k] as int == hi - 1);
            }
        }
    }
}

} // verus!

verus! {

/// What `roxmltree::Document::parse` makes of the text: its nodes in document
/// order (as `parse_nodes` lists them), or the row and column of the error.
pub uninterp spec fn roxmltree_parse(text: Seq<char>) -> Result<Seq<RawNodeView>, (u32, u32)>;

/// `roxmltree::Document::parse(text)`, its nodes listed in document order
/// with their parent's number, element flag, local tag name, attributes and
/// start position; on failure, the error's position. The outcome is named by
/// `roxmltree_parse`.
#[verifier::external_body]
fn parse_nodes(text: &str) -> (r: Result<Vec<RawXmlNode>, (u32, u32)>)
    ensures
        match r {
            Ok(v) => roxmltree_parse(text@) == Ok::<Seq<RawNodeView>, (u32, u32)>(raw_views(v@)),
            Err(pos) => roxmltree_parse(text@) == Err::<Seq<RawNodeView>, (u32, u32)>(pos),
        },
{
    let doc = roxmltree::Document::parse(text).map_err(|e| (e.pos().row, e.pos().col))?;
    Ok(doc.descendants().map(|n| RawXmlNode {
        parent: n.parent().map(|p| p.id().get()),
        is_element: n.is_element(),
        tag: n.tag_name().name().into(),
        attributes: n.attributes().map(|a| (a.namespace().is_some(), a.name().into(), a.value().into())).collect(),
        pos: {
            let p = doc.text_pos_at(n.range().start);
            (p.row, p.col)
        },
    }).collect())
}

/// A parsed document: its elements in document order, and for each the end
/// of its subtree.
pub struct XmlDoc {
    elements: Vec<XmlElement>,
    ends: Vec<usize>,
}

impl View for XmlDoc {
    type V = Seq<ElementView>;

    closed spec fn view(&self) -> Seq<ElementView> {
        self.elements@.map_values(|e: XmlElement| e@)
    }
}

impl XmlDoc {
    #[verifier::type_invariant]
    spec fn inv(self) -> bool {
        &&& self.ends@.len() == self.elements@.len()
        &&& self.elements@.len() <= usize::MAX
        &&& forall|i: int| 0 <= i < self.ends@.len() ==> #[trigger] self.ends@[i] == subtree_end(self@, i)
    }

    /// Number of elements.
    pub fn len(&self) -> (r: usize)
        ensures
            r == self@.len(),
            self@.len() <= usize::MAX,
    {
        proof {
            use_type_invariant(self);
        }
        self.elements.len()
    }
}

} // verus!

verus! {

impl XmlDoc {
    /// The document made of the element nodes of `nodes`, each with its depth
    /// among element ancestors.
    pub fn from_nodes(nodes: Vec<RawXmlNode>) -> (d: XmlDoc)
        ensures
            d@ == elements_of(raw_views(nodes@), nodes@.len() as int),
    {
        let n = nodes.len();
        let ghost ns = raw_views(nodes@);
        let mut anc: Vec<usize> = Vec::new();
        let mut k: usize = 0;
        while k < n
            invariant
                k <= n,
                n == ns.len(),
                ns == raw_views(nodes@),
                anc@.len() == k,
                forall|j: int| 0 <= j < k ==> #[trigger] anc@[j] == element_ancestors(ns, j),
            decreases n - k,
        {
            let a: usize = match nodes[k].parent {
                Some(p) => if (p as usize) < k {
                    proof {
                        lemma_element_ancestors_bound(ns, p as int);
                    }
                    if nodes[p as usize].is_element {
                        anc[p as usize] + 1
                    } else {
                        anc[p as usize]
                    }
                } else {
                    0
                },
                None => 0,
            };
            anc.push(a);
            k = k + 1;
        }
        let mut elements: Vec<XmlElement> = Vec::new();
        let mut idx: usize = 0;
        assert(elements@.map_values(|e: XmlElement| e@) =~= elements_of(ns, 0));
        for node in it: nodes
            invariant
                idx == it.index(),
                it.seq() == nodes@,
                ns == raw_views(nodes@),
                n == ns.len(),
                anc@.len() == n,
                forall|j: int| 0 <= j < n ==> #[trigger] anc@[j] == element_ancestors(ns, j),
                elements@.map_values(|e: XmlElement| e@) == elements_of(ns, idx as int),
                elements@.len() <= idx,
        {
            assert(node@ == ns[idx as int]);
            if node.is_element {
                let e = XmlElement {
                    tag: node.tag,
                    depth: anc[idx],
                    attributes: node.attributes,
                    row: node.pos.0,
                    column: node.pos.1,
                };
                let ghost prev = elements@;
                elements.push(e);
                assert(elements@.map_values(|e: XmlElement| e@) =~= elements_of(ns, idx + 1));
            } else {
                assert(elements_of(ns, idx + 1) == elements_of(ns, idx as int));
            }
            idx = idx + 1;
        }
        let ghost view = elements@.map_values(|e: XmlElement| e@);
        let m = elements.len();
        let mut ends: Vec<usize> = Vec::new();
        let mut i: usize = 0;
        while i < m
            invariant
                i <= m,
                m == elements@.len(),
                view == elements@.map_values(|e: XmlElement| e@),
                ends@.len() == i,
                forall|j: int| 0 <= j < i ==> #[trigger] ends@[j] == subtree_end(view, j),
            decreases m - i,
        {
            let mut k = i + 1;
            while k < m && elements[k].depth > elements[i].depth
                invariant
                    i < k <= m,
                    m == elements@.len(),
                    view == elements@.map_values(|e: XmlElement| e@),
                    end_from(view, i as int, k as int) == subtree_end(view, i as int),
                decreases m - k,
            {
                k = k + 1;
            }
            ends.push(k);
            i = i + 1;
        }
        XmlDoc { elements, ends }
    }

    /// Parses `text`; on failure, the position of the error.
    pub fn parse(text: &str) -> (r: Result<XmlDoc, XmlParseError>)
        ensures
            match roxmltree_parse(text@) {
                Ok(nodes) => r matches Ok(d) && d@ == elements_of(nodes, nodes.len() as int),
                Err(pos) => r matches Err(e) && (e.row, e.column) == pos,
            },
    {
        match parse_nodes(text) {
            Ok(nodes) => Ok(XmlDoc::from_nodes(nodes)),
            Err((row, column)) => Err(XmlParseError { row, column }),
        }
    }
}

} // verus!

verus! {

pub open spec fn opt_nat(d: Option<usize>) -> Option<nat> {
    match d {
        Some(x) => Some(x as nat),
        None => None,
    }
}

impl XmlDoc {
    /// The local tag name of element `i`.
    pub fn tag(&self, i: usize) -> (r: &str)
        requires
            i < self@.len(),
        ensures
            r@ == self@[i as int].tag,
    {
        self.elements[i].tag.as_str()
    }

    /// The depth of element `i` (0 for the root element).
    pub fn depth(&self, i: usize) -> (r: usize)
        requires
            i < self@.len(),
        ensures
            r == self@[i as int].depth,
    {
        self.elements[i].depth
    }

    /// The row where element `i` starts.
    pub fn row(&self, i: usize) -> (r: u32)
        requires
            i < self@.len(),
        ensures
            r == self@[i as int].row,
    {
        self.elements[i].row
    }

    /// The column where element `i` starts.
    pub fn column(&self, i: usize) -> (r: u32)
        requires
            i < self@.len(),
        ensures
            r == self@[i as int].column,
    {
        self.elements[i].column
    }

    /// One past the last element of the subtree of element `i`.
    pub fn end(&self, i: usize) -> (r: usize)
        requires
            i < self@.len(),
        ensures
            r == subtree_end(self@, i as int),
            i < r <= self@.len(),
    {
        proof {
            use_type_invariant(self);
            lemma_end_from_bounds(self@, i as int, i + 1);
        }
        self.ends[i]
    }

    /// The value of the attribute `name` (without namespace) of element `i`.
    pub fn attribute(&self, i: usize, name: &str) -> (r: Option<&str>)
        requires
            i < self@.len(),
        ensures
            match r {
                Some(v) => attribute(self@, i as int, name@) == Some(v@),
                None => attribute(self@, i as int, name@) is None,
            },
    {
        let attrs = &self.elements[i].attributes;
        let ghost av = self@[i as int].attributes;
        let n = attrs.len();
        let mut k: usize = 0;
        assert(av.subrange(0, n as int) =~= av);
        while k < n
            invariant
                k <= n,
                n == attrs@.len(),
                av == attributes_view(attrs@),
                av == self@[i as int].attributes,
                attr_value(av, name@) == attr_value(av.subrange(k as int, n as int), name@),
            decreases n - k,
        {
            assert(av.subrange(k as int, n as int).drop_first() =~= av.subrange(k + 1, n as int));
            assert(av.subrange(k as int, n as int)[0] == attrs@[k as int]@);
            if !attrs[k].0 && str_eq(attrs[k].1.as_str(), name) {
                assert(av.subrange(k as int, n as int)[0] == attrs@[k as int]@);
                return Some(attrs[k].2.as_str());
            }
            k = k + 1;
        }
        None
    }

    /// The elements at positions `lo..hi` with tag `tag` (and depth `depth`
    /// when given), in document order.
    pub fn select(&self, lo: usize, hi: usize, depth: Option<usize>, tag: &str) -> (r: Vec<usize>)
        requires
            lo <= hi <= self@.len(),
        ensures
            r@ == select(self@, lo as int, hi as int, opt_nat(depth), tag@),
            forall|k: int| 0 <= k < r@.len() ==> lo <= #[trigger] r@[k] < hi,
    {
        proof {
            use_type_invariant(self);
            lemma_select_bounds(self@, lo as int, hi as int, opt_nat(depth), tag@);
        }
        let mut r: Vec<usize> = Vec::new();
        let mut j = lo;
        while j < hi
            invariant
                lo <= j <= hi,
                hi <= self@.len(),
                r@ == select(self@, lo as int, j as int, opt_nat(depth), tag@),
            decreases hi - j,
        {
            let depth_ok = match depth {
                Some(dp) => self.elements[j].depth == dp,
                None => true,
            };
            if depth_ok && str_eq(self.elements[j].tag.as_str(), tag) {
                r.push(j);
            }
            j = j + 1;
        }
        r
    }

    /// The elements of the document with tag `tag`, in document order.
    pub fn elements_with_tag(&self, tag: &str) -> (r: Vec<usize>)
        ensures
            r@ == elements_with_tag(self@, tag@),
            forall|k: int| 0 <= k < r@.len() ==> #[trigger] r@[k] < self@.len(),
    {
        let n = self.len();
        self.select(0, n, None, tag)
    }

    /// The descendants of element `i` with tag `tag`, in document order.
    pub fn descendants(&self, i: usize, tag: &str) -> (r: Vec<usize>)
        requires
            i < self@.len(),
        ensures
            r@ == descendants_with_tag(self@, i as int, tag@),
            forall|k: int| 0 <= k < r@.len() ==> #[trigger] r@[k] < self@.len(),
    {
        let e = self.end(i);
        self.select(i + 1, e, None, tag)
    }

    /// The children of element `i` with tag `tag`, in document order.
    pub fn children(&self, i: usize, tag: &str) -> (r: Vec<usize>)
        requires
            i < self@.len(),
        ensures
            r@ == children_with_tag(self@, i as int, tag@),
            forall|k: int| 0 <= k < r@.len() ==> i < #[trigger] r@[k] < self@.len(),
    {
        let e = self.end(i);
        let d = self.elements[i].depth;
        if d == usize::MAX {
            proof {
                use_type_invariant(self);
                assert forall|k: int| 0 <= k < self@.len() implies #[trigger] self@[k].depth <= usize::MAX by {
                    assert(self@[k] == self.elements@[k]@);
                }
                lemma_select_no_depth(self@, i + 1, e as int, (d + 1) as nat, tag@);
            }
            return Vec::new();
        }
        self.select(i + 1, e, Some(d + 1), tag)
    }

    /// The first child of element `i` with tag `tag`.
    pub fn first_child(&self, i: usize, tag: &str) -> (r: Option<usize>)
        requires
            i < self@.len(),
        ensures
            r == first_child(self@, i as int, tag@),
            r matches Some(c) ==> i < c < self@.len(),
    {
        let cs = self.children(i, tag);
        if cs.len() > 0 {
            Some(cs[0])
        } else {
            None
        }
    }
}

pub proof fn lemma_select_len(d: Seq<ElementView>, lo: int, hi: int, depth: Option<nat>, tag: Seq<char>)
    requires
        lo <= hi,
    ensures
        select(d, lo, hi, depth, tag).len() <= hi - lo,
    decreases hi - lo,
{
    if hi > lo {
        lemma_select_len(d, lo, hi - 1, depth, tag);
    }
}

/// No element of a document held in memory is as deep as `usize::MAX + 1`.
proof fn lemma_select_no_depth(d: Seq<ElementView>, lo: int, hi: int, depth: nat, tag: Seq<char>)
    requires
        depth > usize::MAX,
        0 <= lo,
        hi <= d.len(),
        forall|k: int| 0 <= k < d.len() ==> #[trigger] d[k].depth <= usize::MAX,
    ensures
        select(d, lo, hi, Some(depth), tag) =~= Seq::<usize>::empty(),
    decreases hi - lo,
{
    if hi > lo {
        lemma_select_no_depth(d, lo, hi - 1, depth, tag);
    }
}

} // verus!

verus! {

/// The nearest element at or before `k` that is shallower than element `j`.
pub open spec fn parent_from(d: Seq<ElementView>, j: int, k: int) -> Option<int>
    decreases k + 1,
{
    if k < 0 || k >= d.len() {
        None
    } else if d[k].depth < d[j].depth {
        Some(k)
    } else {
        parent_from(d, j, k - 1)
    }
}

/// The parent element of element `j`: the nearest shallower element before it.
pub open spec fn parent(d: Seq<ElementView>, j: int) -> Option<int> {
    parent_from(d, j, j - 1)
}

pub proof fn lemma_parent_from_bounds(d: Seq<ElementView>, j: int, k: int)
    ensures
        parent_from(d, j, k) matches Some(p) ==> 0 <= p <= k && p < d.len() && d[p].depth < d[j].depth,
    decreases k + 1,
{
    if 0 <= k < d.len() && d[k].depth >= d[j].depth {
        lemma_parent_from_bounds(d, j, k - 1);
    }
}

/// The xpath step of element `j`: its tag, followed by its 1-based position
/// among same-tag siblings when it has any; the root element is never indexed.
pub open spec fn xpath_step(d: Seq<ElementView>, j: int) -> Seq<char> {
    match parent(d, j) {
        None => d[j].tag,
        Some(p) => {
            let sib = Some(d[p].depth + 1);
            let preceding = select(d, p + 1, j, sib, d[j].tag).len();
            let following = select(d, j + 1, subtree_end(d, p), sib, d[j].tag).len();
            if preceding > 0 || following > 0 {
                d[j].tag + "["@ + crate::text::dec(preceding + 1) + "]"@
            } else {
                d[j].tag
            }
        },
    }
}

/// The xpath of element `j`: `/` followed by the steps from the root element
/// down to `j`, separated by `/`.
pub open spec fn xpath(d: Seq<ElementView>, j: int) -> Seq<char>
    decreases j,
{
    match parent(d, j) {
        None => "/"@ + xpath_step(d, j),
        Some(p) => {
            proof {
                lemma_parent_from_bounds(d, j, j - 1);
            }
            if 0 <= p < j {
                xpath(d, p) + "/"@ + xpath_step(d, j)
            } else {
                Seq::empty()
            }
        },
    }
}

impl XmlDoc {
    /// The parent element of element `j`.
    pub fn parent(&self, j: usize) -> (r: Option<usize>)
        requires
            j < self@.len(),
        ensures
            match parent(self@, j as int) {
                Some(p) => r == Some(p as usize) && 0 <= p < j,
                None => r is None,
            },
    {
        proof {
            lemma_parent_from_bounds(self@, j as int, j - 1);
        }
        let dj = self.elements[j].depth;
        let mut k = j;
        while k > 0
            invariant
                k <= j,
                j < self@.len(),
                dj == self@[j as int].depth,
                parent(self@, j as int) == parent_from(self@, j as int, k - 1),
            decreases k,
        {
            if self.elements[k - 1].depth < dj {
                return Some(k - 1);
            }
            k = k - 1;
        }
        None
    }

    fn xpath_step(&self, j: usize) -> (r: String)
        requires
            j < self@.len(),
        ensures
            r@ == xpath_step(self@, j as int),
    {
        proof {
            use_type_invariant(self);
        }
        let tag = self.tag(j);
        match self.parent(j) {
            None => tag.to_owned(),
            Some(p) => {
                proof {
                    lemma_parent_from_bounds(self@, j as int, j - 1);
                }
                let dp = self.depth(p);
                let pe = self.end(p);
                let sib = Some(dp + 1);
                let sel = self.select(p + 1, j, sib, tag);
                proof {
                    lemma_select_len(self@, p + 1, j as int, opt_nat(sib), tag@);
                }
                let preceding = sel.len();
                let following = if j + 1 <= pe {
                    self.select(j + 1, pe, sib, tag).len()
                } else {
                    0
                };
                let mut s = tag.to_owned();
                if preceding > 0 || following > 0 {
                    s.append("[");
                    crate::text::push_dec(&mut s, (preceding + 1) as u64);
                    s.append("]");
                }
                s
            },
        }
    }

    /// The xpath of element `j`, e.g. `/OpenDRIVE/road[2]/lanes/laneSection`.
    pub fn xpath(&self, j: usize) -> (r: String)
        requires
            j < self@.len(),
        ensures
            r@ == xpath(self@, j as int),
    {
        let mut s = String::new();
        let mut cur = j;
        loop
            invariant
                cur < self@.len(),
                xpath(self@, j as int) == xpath(self@, cur as int) + s@,
            decreases cur,
        {
            let step = self.xpath_step(cur);
            let mut t = "/".to_owned();
            t.append(step.as_str());
            t.append(s.as_str());
            match self.parent(cur) {
                None => {
                    assert(t@ =~= xpath(self@, cur as int) + s@);
                    return t;
                },
                Some(p) => {
                    assert(xpath(self@, cur as int) == xpath(self@, p as int) + "/"@ + xpath_step(self@, cur as int));
                    assert(t@ =~= "/"@ + xpath_step(self@, cur as int) + s@);
                    s = t;
                    cur = p;
                },
            }
        }
    }
}


/// The xpath of the root element is `/` followed by its tag.
pub proof fn law_root_xpath(d: Seq<ElementView>)
    requires
        d.len() > 0,
    ensures
        xpath(d, 0) == "/"@ + d[0].tag,
{
    assert(parent(d, 0) is None);
}

} // verus!
