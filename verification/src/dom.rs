//! The element tree of a parsed HTML document.
//!
//! An HTML document is parsed once, by the HTML5 parser behind
//! [`dom_elements`], into a flat vector of element records in document
//! order (pre-order).  Each record carries the element's depth in the
//! element tree; parent, children and subtree relations are derived from
//! the depths by verified code.  CSS selector queries run behind
//! [`select_indices`] and yield positions into the same vector.

use vstd::prelude::*;
use crate::json::eq_chars;
use crate::chars::to_chars;

verus! {

/// One element of the document, in document order.
pub struct ElemRec {
    /// Number of proper element ancestors.
    pub depth: usize,
    /// Lowercased tag name.
    pub tag: String,
    /// Attribute names and values; names are unique.
    pub attrs: Vec<(String, String)>,
    /// Concatenated text of all descendant text nodes.
    pub text: String,
    /// The markup between the element's tags.
    pub inner_html: String,
    /// The element's own markup.
    pub outer_html: String,
}

/// Ghost mirror of an element record.
pub struct ElemShape {
    pub depth: int,
    pub tag: Seq<char>,
    pub attrs: Seq<(Seq<char>, Seq<char>)>,
    pub text: Seq<char>,
    pub inner_html: Seq<char>,
    pub outer_html: Seq<char>,
}

impl ElemRec {
    /// The shape this record stands for.
    pub open spec fn shape(self) -> ElemShape {
        ElemShape {
            depth: self.depth as int,
            tag: self.tag@,
            attrs: Seq::new(self.attrs@.len(), |i: int| if 0 <= i < self.attrs@.len() {
                (self.attrs@[i].0@, self.attrs@[i].1@)
            } else {
                (Seq::empty(), Seq::empty())
            }),
            text: self.text@,
            inner_html: self.inner_html@,
            outer_html: self.outer_html@,
        }
    }
}

/// The shapes of a record sequence.
pub open spec fn spec_shapes(rs: Seq<ElemRec>) -> Seq<ElemShape> {
    Seq::new(rs.len(), |i: int| if 0 <= i < rs.len() { rs[i].shape() } else { rs[0].shape() })
}

/// The element tree of an HTML document: every element in document order,
/// with its depth, tag, attributes, text, and markup.
pub uninterp spec fn spec_dom(html: Seq<char>) -> Seq<ElemShape>;

/// The positions of the elements an HTML document's CSS selector query
/// matches, in the order the matcher walks the parsed document — the
/// document order, except that foster-parented table content sits where
/// the HTML5 parser moved it; nothing when the selector is malformed.
pub uninterp spec fn spec_selected(html: Seq<char>, selector: Seq<char>) -> Option<Seq<int>>;

/// Relies on scraper's HTML5 parsing (`Html::parse_document`) and element
/// traversal: the records list every element of the parsed document in
/// pre-order, and an element's recorded depth counts its element
/// ancestors, so the first record is the root at depth zero and a step in
/// document order descends at most one level.
#[verifier::external_body]
pub fn dom_elements(html: &str) -> (r: Vec<ElemRec>)
    ensures
        spec_shapes(r@) == spec_dom(html@),
        r@.len() > 0 ==> r@[0].depth == 0,
        forall|k: int| 0 < k < r@.len() ==> #[trigger] r@[k].depth <= r@[k - 1].depth + 1,
        forall|k: int| 0 < k < r@.len() ==> #[trigger] r@[k].depth >= 1,
{
    let doc = scraper::Html::parse_document(html);
    doc.root_element().descendants().filter_map(scraper::ElementRef::wrap).map(
        |e| elem_record(&e),
    ).collect()
}

#[verifier::external_type_specification]
#[verifier::external_body]
pub struct ExElementRef<'a>(scraper::ElementRef<'a>);

/// Relies on scraper's element accessors: the record of one element.
#[verifier::external_body]
fn elem_record(e: &scraper::ElementRef<'_>) -> (r: ElemRec) {
    ElemRec {
        depth: e.ancestors().filter(|n| n.value().is_element()).count(),
        tag: e.value().name().to_string(),
        attrs: e.value().attrs().map(|(k, v)| (k.to_string(), v.to_string())).collect(),
        text: e.text().collect::<String>(),
        inner_html: e.inner_html(),
        outer_html: e.html(),
    }
}

/// Relies on scraper's `Selector::parse` and `Html::select`: a malformed
/// selector yields nothing, and a match list holds positions of elements
/// of the same document, in the matcher's walk order (see
/// [`spec_selected`]).
#[verifier::external_body]
pub fn select_indices(html: &str, selector: &str) -> (r: Option<Vec<usize>>)
    ensures
        (r is Some) == (spec_selected(html@, selector@) is Some),
        r matches Some(v) ==> {
            &&& spec_selected(html@, selector@) == Some(
                Seq::new(v@.len(), |k: int| if 0 <= k < v@.len() { v@[k] as int } else { 0 }),
            )
            &&& forall|k: int| 0 <= k < v@.len() ==> (v@[k] as int) < spec_dom(html@).len()
        },
{
    let sel = match scraper::Selector::parse(selector) {
        Ok(s) => s,
        Err(_) => return None,
    };
    let doc = scraper::Html::parse_document(html);
    let refs: Vec<scraper::ElementRef> = doc.root_element().descendants().filter_map(
        scraper::ElementRef::wrap,
    ).collect();
    Some(doc.select(&sel).filter_map(|e| refs.iter().position(|x| x.id() == e.id())).collect())
}

/// The value of the first attribute named `name`.
pub open spec fn spec_attr(attrs: Seq<(Seq<char>, Seq<char>)>, name: Seq<char>) -> Option<Seq<char>>
    decreases attrs.len(),
{
    if attrs.len() == 0 {
        None
    } else if attrs[0].0 == name {
        Some(attrs[0].1)
    } else {
        spec_attr(attrs.drop_first(), name)
    }
}

/// If no attribute is named `name`, the lookup yields nothing.
pub proof fn lemma_attr_none(attrs: Seq<(Seq<char>, Seq<char>)>, name: Seq<char>)
    requires
        forall|k: int| 0 <= k < attrs.len() ==> attrs[k].0 != name,
    ensures
        spec_attr(attrs, name) is None,
    decreases attrs.len(),
{
    if attrs.len() > 0 {
        lemma_attr_none(attrs.drop_first(), name);
    }
}

/// If attributes before `i` miss `name` and attribute `i` carries it,
/// the lookup yields attribute `i`'s value.
pub proof fn lemma_attr_hit(attrs: Seq<(Seq<char>, Seq<char>)>, name: Seq<char>, i: int)
    requires
        0 <= i < attrs.len(),
        forall|k: int| 0 <= k < i ==> attrs[k].0 != name,
        attrs[i].0 == name,
    ensures
        spec_attr(attrs, name) == Some(attrs[i].1),
    decreases i,
{
    if i > 0 {
        lemma_attr_hit(attrs.drop_first(), name, i - 1);
    }
}

impl ElemRec {
    /// The value of the element's attribute `name`, if present.
    pub fn attr(&self, name: &Vec<char>) -> (r: Option<&String>)
        ensures
            match r {
                Some(v) => spec_attr(self.shape().attrs, name@) == Some(v@),
                None => spec_attr(self.shape().attrs, name@) is None,
            },
    {
        let ghost m = self.shape().attrs;
        let mut i: usize = 0;
        while i < self.attrs.len()
            invariant
                i <= self.attrs@.len(),
                m == self.shape().attrs,
                forall|k: int| 0 <= k < i ==> m[k].0 != name@,
            decreases self.attrs@.len() - i,
        {
            let key = to_chars(self.attrs[i].0.as_str());
            if eq_chars(&key, name) {
                proof {
                    lemma_attr_hit(m, name@, i as int);
                }
                return Some(&self.attrs[i].1);
            }
            i = i + 1;
        }
        proof {
            lemma_attr_none(m, name@);
        }
        None
    }

    /// Whether the element has attribute `name`.
    pub fn has_attr(&self, name: &Vec<char>) -> (r: bool)
        ensures
            r == (spec_attr(self.shape().attrs, name@) is Some),
    {
        match self.attr(name) {
            Some(_) => true,
            None => false,
        }
    }

    /// Whether the element's tag is exactly `tag`.
    pub fn has_tag(&self, tag: &Vec<char>) -> (r: bool)
        ensures
            r == (self.shape().tag == tag@),
    {
        let t = to_chars(self.tag.as_str());
        eq_chars(&t, tag)
    }
}

/// One past the end of the subtree rooted at `i`: the first later
/// position whose depth does not exceed `i`'s.
pub open spec fn spec_subtree_end(doms: Seq<ElemShape>, i: int, j: int) -> int
    decreases doms.len() - j,
{
    if j < 0 || j >= doms.len() {
        doms.len() as int
    } else if doms[j].depth <= doms[i].depth {
        j
    } else {
        spec_subtree_end(doms, i, j + 1)
    }
}

/// Bounds of the subtree scan.
pub proof fn lemma_subtree_end_bounds(doms: Seq<ElemShape>, i: int, j: int)
    requires
        0 <= j <= doms.len(),
    ensures
        j <= spec_subtree_end(doms, i, j) <= doms.len(),
    decreases doms.len() - j,
{
    if j < doms.len() && !(doms[j].depth <= doms[i].depth) {
        lemma_subtree_end_bounds(doms, i, j + 1);
    }
}

/// One past the end of the subtree rooted at `i`, executable.
pub fn subtree_end(doms: &Vec<ElemRec>, i: usize) -> (r: usize)
    requires
        (i as int) < doms@.len(),
    ensures
        r == spec_subtree_end(spec_shapes(doms@), i as int, i + 1),
        i < r <= doms@.len(),
{
    let ghost m = spec_shapes(doms@);
    let total = doms.len();
    proof {
        lemma_subtree_end_bounds(m, i as int, i + 1);
    }
    let mut j: usize = i + 1;
    while j < doms.len() && doms[j].depth > doms[i].depth
        invariant
            i + 1 <= j <= doms@.len(),
            m == spec_shapes(doms@),
            spec_subtree_end(m, i as int, i + 1) == spec_subtree_end(m, i as int, j as int),
        decreases doms@.len() - j,
    {
        j = j + 1;
    }
    j
}

/// The candidate parent scan: the nearest position at or before `k` that
/// sits one level above `j`.
pub open spec fn spec_parent_from(doms: Seq<ElemShape>, j: int, k: int) -> Option<int>
    decreases k + 1,
{
    if k < 0 || j > doms.len() || k >= j {
        None
    } else if doms[k].depth == doms[j].depth - 1 {
        Some(k)
    } else {
        spec_parent_from(doms, j, k - 1)
    }
}

/// The nearest earlier element one level up: `j`'s parent in the element
/// tree, for the depth sequence the HTML parser hands over.
pub open spec fn spec_parent(doms: Seq<ElemShape>, j: int) -> Option<int> {
    spec_parent_from(doms, j, j - 1)
}

/// A found parent lies before `j`, one level up.
pub proof fn lemma_parent_from_bounds(doms: Seq<ElemShape>, j: int, k: int)
    ensures
        spec_parent_from(doms, j, k) matches Some(p) ==> 0 <= p <= k && p < j && doms[p].depth
            == doms[j].depth - 1,
    decreases k + 1,
{
    if k >= 0 && j <= doms.len() && k < j && doms[k].depth != doms[j].depth - 1 {
        lemma_parent_from_bounds(doms, j, k - 1);
    }
}

/// The position of `j`'s parent element, if any.
pub fn parent_of(doms: &Vec<ElemRec>, j: usize) -> (r: Option<usize>)
    requires
        (j as int) < doms@.len(),
    ensures
        match r {
            Some(p) => spec_parent(spec_shapes(doms@), j as int) == Some(p as int) && p < j,
            None => spec_parent(spec_shapes(doms@), j as int) is None,
        },
{
    let ghost m = spec_shapes(doms@);
    let total = doms.len();
    if j == 0 {
        return None;
    }
    let mut k: usize = j - 1;
    loop
        invariant
            0 <= k < j < total,
            total == doms@.len(),
            m == spec_shapes(doms@),
            spec_parent(m, j as int) == spec_parent_from(m, j as int, k as int),
        decreases k,
    {
        if doms[j].depth >= 1 && doms[k].depth == doms[j].depth - 1 {
            return Some(k);
        }
        proof {
            assert(spec_parent_from(m, j as int, k as int) == spec_parent_from(m, j as int, k - 1));
        }
        if k == 0 {
            proof {
                assert(spec_parent_from(m, j as int, -1) is None);
            }
            return None;
        }
        k = k - 1;
    }
}

/// The `n`-th element child of `i`, scanning from `j` with `left` more
/// children to skip.
pub open spec fn spec_child_from(doms: Seq<ElemShape>, i: int, j: int, left: int) -> Option<int>
    decreases doms.len() - j,
{
    if j < 0 || j >= doms.len() {
        None
    } else if doms[j].depth <= doms[i].depth {
        None
    } else if doms[j].depth == doms[i].depth + 1 {
        if left <= 0 {
            Some(j)
        } else {
            spec_child_from(doms, i, j + 1, left - 1)
        }
    } else {
        spec_child_from(doms, i, j + 1, left)
    }
}

/// The `n`-th element child of `i` (text nodes are not in the record
/// vector, so only element children count).
pub open spec fn spec_nth_child(doms: Seq<ElemShape>, i: int, n: int) -> Option<int> {
    spec_child_from(doms, i, i + 1, n)
}

/// The `n`-th element child of `i`, executable.
pub fn nth_child(doms: &Vec<ElemRec>, i: usize, n: usize) -> (r: Option<usize>)
    requires
        (i as int) < doms@.len(),
    ensures
        match r {
            Some(c) => spec_nth_child(spec_shapes(doms@), i as int, n as int) == Some(c as int)
                && (c as int) < doms@.len(),
            None => spec_nth_child(spec_shapes(doms@), i as int, n as int) is None,
        },
{
    let ghost m = spec_shapes(doms@);
    let total = doms.len();
    let mut j: usize = i + 1;
    let mut left: usize = n;
    while j < doms.len()
        invariant
            i + 1 <= j,
            total == doms@.len(),
            i < total,
            m == spec_shapes(doms@),
            spec_nth_child(m, i as int, n as int) == spec_child_from(m, i as int, j as int, left as int),
        decreases doms@.len() - j,
    {
        if doms[j].depth <= doms[i].depth {
            return None;
        }
        if doms[j].depth == doms[i].depth + 1 {
            if left == 0 {
                return Some(j);
            }
            left = left - 1;
        }
        j = j + 1;
    }
    None
}

} // verus!
