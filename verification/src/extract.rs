//! The extraction engine.
//!
//! A document is indexed once — JSON-LD, microdata, OpenGraph/meta
//! groups, JavaScript variables, and the element tree — and a batch of
//! extraction specs runs against the indices: each spec names a source
//! and a path, may fall back to alternatives when it finds nothing, may
//! parse its result as JSON and navigate an arrow path, and may expand a
//! JSON array into one value per element.

use vstd::prelude::*;
use crate::json::{JsonModel, JsonValue, spec_obj_get, spec_get_key, eq_chars, clone_string};
use crate::jsontext::{spec_json_text, json_text_string};
use crate::jsonparse::{spec_json_parse, json_parse};
use crate::index::{IndexModel, TypedIndex, spec_index_get};
use crate::dom::{
    ElemShape, ElemRec, spec_dom, spec_attr, spec_selected, dom_elements, select_indices,
    spec_shapes, spec_parent, parent_of, spec_nth_child, nth_child,
};
use crate::jsonld::{spec_jsonld_blocks, jsonld_index_of_dom};
use crate::microdata::{spec_microdata_items, microdata_index_of_dom, spec_obj_fields};
use crate::opengraph::{MetaGroups, spec_og_state, og_index_of_dom};
use crate::jsvars::{spec_js_state, js_index_of_dom};
use crate::pathlang::{
    SegStyle, spec_nav, navigate, spec_arrow_nav, arrow_navigate, spec_find_char, find_char,
    lemma_find_char_bounds,
};
use crate::chars::{
    spec_trim, trim_chars, spec_has_prefix, has_prefix, spec_parse_usize, parse_usize, to_chars,
    from_chars, slice_chars,
};

verus! {

/// One extraction specification.
pub struct ExtractSpec {
    /// The index read: `jsonld`, `microdata`, `og`, `meta`, `css` or `js`.
    pub source: String,
    /// Path segments; the first names a type, a key or a variable.
    pub path: Vec<String>,
    /// CSS selector, for the `css` source.
    pub selector: Option<String>,
    /// Accessor, for the `css` source.
    pub accessor: Option<String>,
    /// Whether strings are returned raw rather than as JSON text.
    pub return_text: bool,
    /// The output key.
    pub alias: String,
    /// Specs tried in order when this one yields nothing.
    pub alternatives: Vec<ExtractSpec>,
    /// Whether the result is parsed as JSON before further handling.
    pub is_json_cast: bool,
    /// Whether a JSON array result is expanded element-wise.
    pub expand_array: bool,
    /// With expansion: the field projected from each element.
    pub array_field: Option<String>,
    /// Arrow path navigated after the JSON cast.
    pub json_path: Option<String>,
}

/// The indices of one document.
pub struct DocumentIndex {
    pub html: String,
    pub doms: Vec<ElemRec>,
    pub jsonld: TypedIndex,
    pub microdata: TypedIndex,
    pub og: MetaGroups,
    pub js: Vec<(String, JsonValue)>,
}

impl DocumentIndex {
    /// The indices are the ones of the held document.
    pub open spec fn wf(self) -> bool {
        &&& spec_shapes(self.doms@) == spec_dom(self.html@)
        &&& self.jsonld.model() == spec_jsonld_blocks(spec_dom(self.html@), spec_dom(self.html@).len() as int)
        &&& self.microdata.model() == spec_microdata_items(
            spec_dom(self.html@),
            spec_dom(self.html@).len() as int,
        )
        &&& self.og.model() == spec_og_state(spec_dom(self.html@), spec_dom(self.html@).len() as int)
        &&& spec_obj_fields(self.js@) == spec_js_state(
            spec_dom(self.html@),
            spec_dom(self.html@).len() as int,
        )
    }
}

/// Index a document: parse it once and build all five indices.
pub fn build_index(html: &str) -> (r: DocumentIndex)
    ensures
        r.wf(),
        r.html@ == html@,
{
    let doms = dom_elements(html);
    let jsonld = jsonld_index_of_dom(&doms);
    let microdata = microdata_index_of_dom(&doms);
    let og = og_index_of_dom(&doms);
    let js = js_index_of_dom(&doms);
    DocumentIndex { html: String::from_str(html), doms, jsonld, microdata, og, js }
}

/// How a JSON value becomes an output string: with `return_text`, a
/// string is returned raw and null is no value; everything else is
/// canonical JSON text.
pub open spec fn spec_value_to_string(v: JsonModel, return_text: bool) -> Option<Seq<char>> {
    if return_text {
        match v {
            JsonModel::Str(s) => Some(s),
            JsonModel::Null => None,
            _ => Some(spec_json_text(v)),
        }
    } else {
        Some(spec_json_text(v))
    }
}

/// How a JSON value becomes an output string, executable.
pub fn value_to_string(v: &JsonValue, return_text: bool) -> (r: Option<String>)
    ensures
        match r {
            Some(s) => spec_value_to_string(v.model(), return_text) == Some(s@),
            None => spec_value_to_string(v.model(), return_text) is None,
        },
{
    if return_text {
        match v {
            JsonValue::Str(s) => Some(clone_string(s)),
            JsonValue::Null => None,
            _ => Some(json_text_string(v)),
        }
    } else {
        Some(json_text_string(v))
    }
}

/// A structured lookup: the type's first object, then the remaining
/// path by field lookups, then stringification.  With `first_of_list`
/// (the microdata rule), a value that accumulated into a list answers
/// with its first entry — the first one in document order.
pub open spec fn spec_typed_lookup(
    idx: IndexModel,
    path: Seq<Seq<char>>,
    return_text: bool,
    first_of_list: bool,
) -> Option<Seq<char>> {
    if path.len() == 0 {
        None
    } else {
        match spec_index_get(idx, path[0]) {
            Some(items) => if items.len() > 0 {
                match spec_nav(items[0], path.skip(1), 0, SegStyle::KeyOnly) {
                    Some(v) => spec_value_to_string(spec_first_of(v, first_of_list), return_text),
                    None => None,
                }
            } else {
                None
            },
            None => None,
        }
    }
}

/// The first entry of a non-empty array when the rule asks for it; the
/// value itself otherwise.
pub open spec fn spec_first_of(v: JsonModel, first_of_list: bool) -> JsonModel {
    if first_of_list {
        match v {
            JsonModel::Arr(a) => if a.len() > 0 {
                a[0]
            } else {
                v
            },
            _ => v,
        }
    } else {
        v
    }
}

/// A structured lookup, executable.
pub fn typed_lookup(
    idx: &TypedIndex,
    path: &Vec<Vec<char>>,
    return_text: bool,
    first_of_list: bool,
) -> (r: Option<String>)
    ensures
        match r {
            Some(s) => spec_typed_lookup(idx.model(), path.deep_view(), return_text, first_of_list)
                == Some(s@),
            None => spec_typed_lookup(idx.model(), path.deep_view(), return_text, first_of_list) is None,
        },
{
    if path.len() == 0 {
        return None;
    }
    proof {
        assert(path.deep_view()[0] =~= path@[0]@);
    }
    match idx.get(&path[0]) {
        Some(items) => {
            if items.len() > 0 {
                let ghost p = path.deep_view();
                let rest = tail_segments(path);
                proof {
                    assert(rest.deep_view() =~~= p.skip(1));
                }
                match navigate(&items[0], &rest, 0, &SegStyle::KeyOnly) {
                    Some(v) => {
                        let chosen: &JsonValue = if first_of_list {
                            match v {
                                JsonValue::Arr(a) => {
                                    if a.len() > 0 {
                                        &a[0]
                                    } else {
                                        v
                                    }
                                },
                                _ => v,
                            }
                        } else {
                            v
                        };
                        value_to_string(chosen, return_text)
                    },
                    None => None,
                }
            } else {
                None
            }
        },
        None => None,
    }
}

/// The path without its first segment.
pub fn tail_segments(path: &Vec<Vec<char>>) -> (r: Vec<Vec<char>>)
    requires
        path@.len() > 0,
    ensures
        r@.len() == path@.len() - 1,
        forall|k: int| 0 <= k < r@.len() ==> r@[k]@ == path@[k + 1]@,
{
    let mut r: Vec<Vec<char>> = Vec::new();
    let mut i: usize = 1;
    while i < path.len()
        invariant
            1 <= i <= path@.len(),
            r@.len() == i - 1,
            forall|k: int| 0 <= k < r@.len() ==> r@[k]@ == path@[k + 1]@,
        decreases path@.len() - i,
    {
        let seg = slice_chars(&path[i], 0, path[i].len());
        proof {
            assert(seg@ =~= path@[i as int]@);
        }
        r.push(seg);
        i = i + 1;
    }
    r
}

/// A group lookup: a string value is returned raw, anything else as its
/// JSON text.
pub open spec fn spec_group_lookup(group: Seq<(Seq<char>, JsonModel)>, path: Seq<Seq<char>>) -> Option<
    Seq<char>,
> {
    if path.len() == 0 {
        None
    } else {
        match spec_obj_get(group, path[0]) {
            Some(v) => match v {
                JsonModel::Str(s) => Some(s),
                _ => Some(spec_json_text(v)),
            },
            None => None,
        }
    }
}

/// A group lookup, executable.
pub fn group_lookup(group: &Vec<(String, JsonValue)>, path: &Vec<Vec<char>>) -> (r: Option<String>)
    ensures
        match r {
            Some(s) => spec_group_lookup(spec_obj_fields(group@), path.deep_view()) == Some(s@),
            None => spec_group_lookup(spec_obj_fields(group@), path.deep_view()) is None,
        },
{
    if path.len() == 0 {
        return None;
    }
    proof {
        assert(path.deep_view()[0] =~= path@[0]@);
    }
    let ghost g = spec_obj_fields(group@);
    let mut k: usize = 0;
    while k < group.len()
        invariant
            k <= group@.len(),
            g == spec_obj_fields(group@),
            forall|i: int| 0 <= i < k ==> g[i].0 != path.deep_view()[0],
        decreases group@.len() - k,
    {
        let key = to_chars(group[k].0.as_str());
        if eq_chars(&key, &path[0]) {
            proof {
                crate::json::lemma_obj_get_hit(g, path.deep_view()[0], k as int);
            }
            let v = &group[k].1;
            return match v {
                JsonValue::Str(s) => Some(clone_string(s)),
                _ => Some(json_text_string(v)),
            };
        }
        k = k + 1;
    }
    proof {
        crate::json::lemma_obj_get_none(g, path.deep_view()[0]);
    }
    None
}

/// The accessor applied to element `e` of the document: `text` (or
/// anything unrecognised) is the trimmed text, `html` the element's own
/// markup, `attr:NAME` an attribute, and `parent.…` / `children.N.…`
/// first move to the parent or the `N`-th element child.
pub open spec fn spec_css_accessor(doms: Seq<ElemShape>, e: int, accessor: Seq<char>) -> Option<
    Seq<char>,
> {
    if spec_has_prefix(accessor, "parent."@) {
        match spec_parent(doms, e) {
            Some(p) => spec_leaf_accessor(doms[p], accessor.skip(7)),
            None => None,
        }
    } else if spec_has_prefix(accessor, "children."@) {
        let rest = accessor.skip(9);
        match spec_find_char(rest, '.', 0) {
            Some(dp) => match spec_parse_usize(rest.subrange(0, dp)) {
                Some(n) => match spec_nth_child(doms, e, n) {
                    Some(c) => spec_leaf_accessor(doms[c], rest.skip(dp + 1)),
                    None => None,
                },
                None => None,
            },
            None => None,
        }
    } else {
        if 0 <= e < doms.len() {
            spec_leaf_accessor(doms[e], accessor)
        } else {
            None
        }
    }
}

/// The leaf accessor on one element.
pub open spec fn spec_leaf_accessor(e: ElemShape, accessor: Seq<char>) -> Option<Seq<char>> {
    if accessor == "html"@ {
        Some(e.outer_html)
    } else if spec_has_prefix(accessor, "attr:"@) {
        spec_attr(e.attrs, accessor.skip(5))
    } else {
        Some(spec_trim(e.text))
    }
}

/// The leaf accessor, executable.
pub fn leaf_accessor(e: &ElemRec, accessor: &Vec<char>) -> (r: Option<String>)
    ensures
        match r {
            Some(s) => spec_leaf_accessor(e.shape(), accessor@) == Some(s@),
            None => spec_leaf_accessor(e.shape(), accessor@) is None,
        },
{
    let html_kw = to_chars("html");
    let attr_prefix = to_chars("attr:");
    proof {
        reveal_strlit("html");
        reveal_strlit("attr:");
    }
    if eq_chars(accessor, &html_kw) {
        Some(clone_string(&e.outer_html))
    } else if has_prefix(accessor, &attr_prefix) {
        let name = slice_chars(accessor, 5, accessor.len());
        proof {
            assert(name@ =~= accessor@.skip(5));
        }
        match e.attr(&name) {
            Some(v) => Some(clone_string(v)),
            None => None,
        }
    } else {
        let tc = to_chars(e.text.as_str());
        let trimmed = trim_chars(&tc);
        Some(from_chars(&trimmed))
    }
}

/// The accessor applied to element `e`, executable.
pub fn css_accessor(doms: &Vec<ElemRec>, e: usize, accessor: &Vec<char>) -> (r: Option<String>)
    requires
        (e as int) < doms@.len(),
    ensures
        match r {
            Some(s) => spec_css_accessor(spec_shapes(doms@), e as int, accessor@) == Some(s@),
            None => spec_css_accessor(spec_shapes(doms@), e as int, accessor@) is None,
        },
{
    let ghost dm = spec_shapes(doms@);
    let parent_prefix = to_chars("parent.");
    let children_prefix = to_chars("children.");
    proof {
        reveal_strlit("parent.");
        reveal_strlit("children.");
    }
    if has_prefix(accessor, &parent_prefix) {
        let rest = slice_chars(accessor, 7, accessor.len());
        proof {
            assert(rest@ =~= accessor@.skip(7));
        }
        match parent_of(doms, e) {
            Some(p) => leaf_accessor(&doms[p], &rest),
            None => None,
        }
    } else if has_prefix(accessor, &children_prefix) {
        let rest = slice_chars(accessor, 9, accessor.len());
        proof {
            assert(rest@ =~= accessor@.skip(9));
        }
        match find_char(&rest, '.', 0) {
            Some(dp) => {
                proof {
                    lemma_find_char_bounds(rest@, '.', 0);
                }
                let idx_str = slice_chars(&rest, 0, dp);
                let sub = slice_chars(&rest, dp + 1, rest.len());
                proof {
                    assert(sub@ =~= rest@.skip(dp + 1));
                }
                match parse_usize(&idx_str) {
                    Some(n) => {
                        match nth_child(doms, e, n) {
                            Some(c) => leaf_accessor(&doms[c], &sub),
                            None => None,
                        }
                    },
                    None => None,
                }
            },
            None => None,
        }
    } else {
        leaf_accessor(&doms[e], accessor)
    }
}

/// The primary lookup of one spec against the indices.
pub open spec fn spec_extract_primary(html: Seq<char>, s: ExtractSpec) -> Option<Seq<char>> {
    let doms = spec_dom(html);
    let path = Seq::new(s.path@.len(), |i: int| s.path@[i]@);
    if s.source@ == "jsonld"@ {
        spec_typed_lookup(spec_jsonld_blocks(doms, doms.len() as int), path, s.return_text, false)
    } else if s.source@ == "microdata"@ {
        spec_typed_lookup(spec_microdata_items(doms, doms.len() as int), path, s.return_text, true)
    } else if s.source@ == "og"@ {
        spec_group_lookup(spec_og_state(doms, doms.len() as int).og, path)
    } else if s.source@ == "meta"@ {
        spec_group_lookup(spec_og_state(doms, doms.len() as int).meta, path)
    } else if s.source@ == "css"@ {
        match s.selector {
            Some(sel) => match spec_selected(html, sel@) {
                Some(matches_) => if matches_.len() > 0 {
                    let acc = match s.accessor {
                        Some(a) => a@,
                        None => "text"@,
                    };
                    spec_css_accessor(doms, matches_[0], acc)
                } else {
                    None
                },
                None => None,
            },
            None => None,
        }
    } else if s.source@ == "js"@ {
        if path.len() == 0 {
            None
        } else {
            match spec_obj_get(spec_js_state(doms, doms.len() as int), path[0]) {
                Some(v) => match spec_nav(v, path.skip(1), 0, SegStyle::KeyFirst) {
                    Some(out) => spec_value_to_string(out, s.return_text),
                    None => None,
                },
                None => None,
            }
        }
    } else {
        None
    }
}

/// The full lookup of one spec: the primary value, or the first
/// alternative that yields one.
pub open spec fn spec_extract_value(html: Seq<char>, s: ExtractSpec) -> Option<Seq<char>>
    decreases s, 1int,
{
    match spec_extract_primary(html, s) {
        Some(v) => Some(v),
        None => spec_alt_value(html, s.alternatives@, 0),
    }
}

/// The first alternative from `i` on that yields a value.
pub open spec fn spec_alt_value(html: Seq<char>, alts: Seq<ExtractSpec>, i: int) -> Option<
    Seq<char>,
>
    decreases alts, alts.len() - i,
{
    if i < 0 || i >= alts.len() {
        None
    } else {
        match spec_extract_value(html, alts[i]) {
            Some(v) => Some(v),
            None => spec_alt_value(html, alts, i + 1),
        }
    }
}

/// When the primary yields a value, the alternatives play no part: the
/// full lookup is the primary one.
pub proof fn lemma_alternatives_unused(html: Seq<char>, s: ExtractSpec)
    requires
        spec_extract_primary(html, s) is Some,
    ensures
        spec_extract_value(html, s) == spec_extract_primary(html, s),
{
}

/// The full lookup of one spec, executable; alternatives are only
/// evaluated when the primary yields nothing.
pub fn extract_value(doc: &DocumentIndex, s: &ExtractSpec) -> (r: Option<String>)
    requires
        doc.wf(),
    ensures
        match r {
            Some(v) => spec_extract_value(doc.html@, *s) == Some(v@),
            None => spec_extract_value(doc.html@, *s) is None,
        },
    decreases *s,
{
    let primary = extract_primary(doc, s);
    match primary {
        Some(v) => Some(v),
        None => {
            let ghost am = s.alternatives@;
            let mut i: usize = 0;
            while i < s.alternatives.len()
                invariant
                    i <= am.len(),
                    am == s.alternatives@,
                    doc.wf(),
                    spec_alt_value(doc.html@, am, 0) == spec_alt_value(doc.html@, am, i as int),
                decreases am.len() - i,
            {
                match extract_value(doc, &s.alternatives[i]) {
                    Some(v) => {
                        return Some(v);
                    },
                    None => {
                    },
                }
                i = i + 1;
            }
            None
        },
    }
}

/// The primary lookup, executable.
pub fn extract_primary(doc: &DocumentIndex, s: &ExtractSpec) -> (r: Option<String>)
    requires
        doc.wf(),
    ensures
        match r {
            Some(v) => spec_extract_primary(doc.html@, *s) == Some(v@),
            None => spec_extract_primary(doc.html@, *s) is None,
        },
{
    let ghost hm = doc.html@;
    let source = to_chars(s.source.as_str());
    let path = path_segments(&s.path);
    let ghost p = Seq::new(s.path@.len(), |i: int| s.path@[i]@);
    proof {
        assert(path.deep_view() =~~= p);
        reveal_strlit("jsonld");
        reveal_strlit("microdata");
        reveal_strlit("og");
        reveal_strlit("meta");
        reveal_strlit("css");
        reveal_strlit("js");
        reveal_strlit("text");
    }
    if eq_chars(&source, &to_chars("jsonld")) {
        typed_lookup(&doc.jsonld, &path, s.return_text, false)
    } else if eq_chars(&source, &to_chars("microdata")) {
        typed_lookup(&doc.microdata, &path, s.return_text, true)
    } else if eq_chars(&source, &to_chars("og")) {
        group_lookup(&doc.og.og, &path)
    } else if eq_chars(&source, &to_chars("meta")) {
        group_lookup(&doc.og.meta, &path)
    } else if eq_chars(&source, &to_chars("css")) {
        match &s.selector {
            Some(sel) => {
                match select_indices(doc.html.as_str(), sel.as_str()) {
                    Some(matches_) => {
                        if matches_.len() > 0 {
                            let acc: Vec<char> = match &s.accessor {
                                Some(a) => to_chars(a.as_str()),
                                None => to_chars("text"),
                            };
                            let e = matches_[0];
                            proof {
                                assert(spec_selected(hm, sel@)->Some_0[0] == e as int);
                            }
                            css_accessor(&doc.doms, e, &acc)
                        } else {
                            None
                        }
                    },
                    None => None,
                }
            },
            None => None,
        }
    } else if eq_chars(&source, &to_chars("js")) {
        if path.len() == 0 {
            return None;
        }
        proof {
            assert(p[0] =~= path@[0]@);
        }
        match js_var_lookup(&doc.js, &path[0]) {
            Some(v) => {
                let rest = tail_segments(&path);
                proof {
                    assert(rest.deep_view() =~~= p.skip(1));
                }
                match navigate(v, &rest, 0, &SegStyle::KeyFirst) {
                    Some(out) => value_to_string(out, s.return_text),
                    None => None,
                }
            },
            None => None,
        }
    } else {
        None
    }
}

/// The spec's path, as character buffers.
pub fn path_segments(path: &Vec<String>) -> (r: Vec<Vec<char>>)
    ensures
        r@.len() == path@.len(),
        forall|k: int| 0 <= k < r@.len() ==> r@[k]@ == path@[k]@,
{
    let mut r: Vec<Vec<char>> = Vec::new();
    let mut i: usize = 0;
    while i < path.len()
        invariant
            i <= path@.len(),
            r@.len() == i,
            forall|k: int| 0 <= k < r@.len() ==> r@[k]@ == path@[k]@,
        decreases path@.len() - i,
    {
        r.push(to_chars(path[i].as_str()));
        i = i + 1;
    }
    r
}

/// A batch of extraction specs.
pub struct ExtractionRequest {
    pub specs: Vec<ExtractSpec>,
}

/// The outcome of one extraction: the scalar map entry, and the expanded
/// list entry when array expansion fired.
pub struct CastOutcome {
    pub value: Option<Seq<char>>,
    pub expanded: Option<Seq<Seq<char>>>,
}

/// How one expanded element becomes a string: a JSON string unwraps,
/// anything else is canonical JSON text.
pub open spec fn spec_item_string(v: JsonModel) -> Seq<char> {
    match v {
        JsonModel::Str(s) => s,
        _ => spec_json_text(v),
    }
}

/// The strings of the first `i` array elements: with a field, the
/// field's value of each element that has one; without, each element.
pub open spec fn spec_expand_items(arr: Seq<JsonModel>, field: Option<Seq<char>>, i: int) -> Seq<
    Seq<char>,
>
    decreases i,
{
    if i <= 0 || i > arr.len() {
        Seq::empty()
    } else {
        let prev = spec_expand_items(arr, field, i - 1);
        match field {
            Some(f) => match spec_get_key(arr[i - 1], f) {
                Some(v) => prev.push(spec_item_string(v)),
                None => prev,
            },
            None => prev.push(spec_item_string(arr[i - 1])),
        }
    }
}

/// The outcome of one spec: its raw value, then the optional JSON cast,
/// arrow-path navigation, and array expansion.  A failed JSON parse
/// hands the raw value through; a failed navigation yields no value.
pub open spec fn spec_outcome(html: Seq<char>, s: ExtractSpec) -> CastOutcome {
    let raw = spec_extract_value(html, s);
    if s.is_json_cast || s.expand_array {
        match raw {
            Some(rawv) => match spec_json_parse(rawv) {
                Some(j) => {
                    let target = match s.json_path {
                        Some(pp) => spec_arrow_nav(j, spec_trim(pp@), 0),
                        None => Some(j),
                    };
                    match target {
                        Some(val) => if s.expand_array {
                            match val {
                                JsonModel::Arr(arr) => CastOutcome {
                                    value: None,
                                    expanded: Some(
                                        spec_expand_items(
                                            arr,
                                            match s.array_field {
                                                Some(f) => Some(f@),
                                                None => None,
                                            },
                                            arr.len() as int,
                                        ),
                                    ),
                                },
                                _ => CastOutcome { value: Some(spec_json_text(val)), expanded: None },
                            }
                        } else {
                            CastOutcome { value: Some(spec_json_text(val)), expanded: None }
                        },
                        None => CastOutcome { value: None, expanded: None },
                    }
                },
                None => CastOutcome { value: Some(rawv), expanded: None },
            },
            None => CastOutcome { value: None, expanded: None },
        }
    } else {
        CastOutcome { value: raw, expanded: None }
    }
}

/// Replacement or append in the scalar result map.
pub open spec fn spec_set_value(
    m: Seq<(Seq<char>, Option<Seq<char>>)>,
    key: Seq<char>,
    v: Option<Seq<char>>,
) -> Seq<(Seq<char>, Option<Seq<char>>)>
    decreases m.len(),
{
    if m.len() == 0 {
        seq![(key, v)]
    } else if m[0].0 == key {
        seq![(key, v)] + m.drop_first()
    } else {
        seq![m[0]] + spec_set_value(m.drop_first(), key, v)
    }
}

/// Replacement or append in the expanded result map.
pub open spec fn spec_set_list(
    m: Seq<(Seq<char>, Seq<Seq<char>>)>,
    key: Seq<char>,
    v: Seq<Seq<char>>,
) -> Seq<(Seq<char>, Seq<Seq<char>>)>
    decreases m.len(),
{
    if m.len() == 0 {
        seq![(key, v)]
    } else if m[0].0 == key {
        seq![(key, v)] + m.drop_first()
    } else {
        seq![m[0]] + spec_set_list(m.drop_first(), key, v)
    }
}

/// The scalar result map after the first `i` specs.
pub open spec fn spec_all_values(html: Seq<char>, specs: Seq<ExtractSpec>, i: int) -> Seq<
    (Seq<char>, Option<Seq<char>>),
>
    decreases i,
{
    if i <= 0 || i > specs.len() {
        Seq::empty()
    } else {
        spec_set_value(
            spec_all_values(html, specs, i - 1),
            specs[i - 1].alias@,
            spec_outcome(html, specs[i - 1]).value,
        )
    }
}

/// The expanded result map after the first `i` specs.
pub open spec fn spec_all_expanded(html: Seq<char>, specs: Seq<ExtractSpec>, i: int) -> Seq<
    (Seq<char>, Seq<Seq<char>>),
>
    decreases i,
{
    if i <= 0 || i > specs.len() {
        Seq::empty()
    } else {
        let prev = spec_all_expanded(html, specs, i - 1);
        match spec_outcome(html, specs[i - 1]).expanded {
            Some(l) => spec_set_list(prev, specs[i - 1].alias@, l),
            None => prev,
        }
    }
}

/// The result of a batch extraction.
pub struct ExtractionResult {
    /// Scalar value (or no value) per alias.
    pub values: Vec<(String, Option<String>)>,
    /// Expanded lists, per alias whose expansion fired.
    pub expanded_values: Vec<(String, Vec<String>)>,
    /// A request-level failure; extraction itself reports none.
    pub error: Option<String>,
}

/// The model of the scalar map.
pub open spec fn spec_values_model(vs: Seq<(String, Option<String>)>) -> Seq<
    (Seq<char>, Option<Seq<char>>),
> {
    Seq::new(
        vs.len(),
        |i: int|
            if 0 <= i < vs.len() {
                (
                    vs[i].0@,
                    match vs[i].1 {
                        Some(s) => Some(s@),
                        None => None,
                    },
                )
            } else {
                (Seq::empty(), None)
            },
    )
}

/// The model of the expanded map.
pub open spec fn spec_expanded_model(vs: Seq<(String, Vec<String>)>) -> Seq<
    (Seq<char>, Seq<Seq<char>>),
> {
    Seq::new(
        vs.len(),
        |i: int|
            if 0 <= i < vs.len() {
                (vs[i].0@, Seq::new(vs[i].1@.len(), |j: int| if 0 <= j < vs[i].1@.len() { vs[i].1@[j]@ } else { Seq::empty() }))
            } else {
                (Seq::empty(), Seq::empty())
            },
    )
}

/// When an entry holds the key, replacement updates it in place.
proof fn lemma_set_value_hit(
    m: Seq<(Seq<char>, Option<Seq<char>>)>,
    key: Seq<char>,
    v: Option<Seq<char>>,
    k: int,
)
    requires
        0 <= k < m.len(),
        forall|i: int| 0 <= i < k ==> m[i].0 != key,
        m[k].0 == key,
    ensures
        spec_set_value(m, key, v) =~= m.update(k, (key, v)),
    decreases k,
{
    if k > 0 {
        lemma_set_value_hit(m.drop_first(), key, v, k - 1);
        assert(spec_set_value(m, key, v) =~= m.update(k, (key, v)));
    }
}

/// When no entry holds the key, replacement appends.
proof fn lemma_set_value_miss(m: Seq<(Seq<char>, Option<Seq<char>>)>, key: Seq<char>, v: Option<Seq<char>>)
    requires
        forall|i: int| 0 <= i < m.len() ==> m[i].0 != key,
    ensures
        spec_set_value(m, key, v) =~= m.push((key, v)),
    decreases m.len(),
{
    if m.len() > 0 {
        lemma_set_value_miss(m.drop_first(), key, v);
        assert(spec_set_value(m, key, v) =~= m.push((key, v)));
    }
}

/// When an entry holds the key, replacement updates it in place.
proof fn lemma_set_list_hit(
    m: Seq<(Seq<char>, Seq<Seq<char>>)>,
    key: Seq<char>,
    v: Seq<Seq<char>>,
    k: int,
)
    requires
        0 <= k < m.len(),
        forall|i: int| 0 <= i < k ==> m[i].0 != key,
        m[k].0 == key,
    ensures
        spec_set_list(m, key, v) =~= m.update(k, (key, v)),
    decreases k,
{
    if k > 0 {
        lemma_set_list_hit(m.drop_first(), key, v, k - 1);
        assert(spec_set_list(m, key, v) =~= m.update(k, (key, v)));
    }
}

/// When no entry holds the key, replacement appends.
proof fn lemma_set_list_miss(m: Seq<(Seq<char>, Seq<Seq<char>>)>, key: Seq<char>, v: Seq<Seq<char>>)
    requires
        forall|i: int| 0 <= i < m.len() ==> m[i].0 != key,
    ensures
        spec_set_list(m, key, v) =~= m.push((key, v)),
    decreases m.len(),
{
    if m.len() > 0 {
        lemma_set_list_miss(m.drop_first(), key, v);
        assert(spec_set_list(m, key, v) =~= m.push((key, v)));
    }
}

/// Replacement or append in the scalar result map, executable.
fn set_value(m: &mut Vec<(String, Option<String>)>, key: &Vec<char>, v: Option<String>)
    ensures
        spec_values_model(final(m)@) == spec_set_value(spec_values_model(old(m)@), key@, match v {
            Some(s) => Some(s@),
            None => None,
        }),
{
    let ghost mm = spec_values_model(m@);
    let ghost vm: Option<Seq<char>> = match &v {
        Some(s) => Some(s@),
        None => None,
    };
    let mut k: usize = 0;
    let n = m.len();
    while k < n
        invariant
            k <= n,
            n == m@.len(),
            mm == spec_values_model(m@),
            forall|i: int| 0 <= i < k ==> mm[i].0 != key@,
        decreases n - k,
    {
        let kc = to_chars(m[k].0.as_str());
        if eq_chars(&kc, key) {
            let entry = m.remove(k);
            m.insert(k, (entry.0, v));
            proof {
                lemma_set_value_hit(mm, key@, vm, k as int);
                assert(spec_values_model(m@) =~~= spec_set_value(mm, key@, vm));
            }
            return ;
        }
        k = k + 1;
    }
    m.push((from_chars(key), v));
    proof {
        lemma_set_value_miss(mm, key@, vm);
        assert(spec_values_model(m@) =~~= spec_set_value(mm, key@, vm));
    }
}

/// Replacement or append in the expanded result map, executable.
fn set_list(m: &mut Vec<(String, Vec<String>)>, key: &Vec<char>, v: Vec<String>)
    ensures
        spec_expanded_model(final(m)@) == spec_set_list(
            spec_expanded_model(old(m)@),
            key@,
            Seq::new(v@.len(), |j: int| if 0 <= j < v@.len() { v@[j]@ } else { Seq::empty() }),
        ),
{
    let ghost mm = spec_expanded_model(m@);
    let ghost vm = Seq::new(v@.len(), |j: int| if 0 <= j < v@.len() { v@[j]@ } else { Seq::empty() });
    let mut k: usize = 0;
    let n = m.len();
    while k < n
        invariant
            k <= n,
            n == m@.len(),
            mm == spec_expanded_model(m@),
            forall|i: int| 0 <= i < k ==> mm[i].0 != key@,
        decreases n - k,
    {
        let kc = to_chars(m[k].0.as_str());
        if eq_chars(&kc, key) {
            let entry = m.remove(k);
            m.insert(k, (entry.0, v));
            proof {
                lemma_set_list_hit(mm, key@, vm, k as int);
                assert(spec_expanded_model(m@) =~~= spec_set_list(mm, key@, vm));
            }
            return ;
        }
        k = k + 1;
    }
    m.push((from_chars(key), v));
    proof {
        lemma_set_list_miss(mm, key@, vm);
        assert(spec_expanded_model(m@) =~~= spec_set_list(mm, key@, vm));
    }
}

/// The strings of the expanded array, executable.
fn expand_items(arr: &Vec<JsonValue>, field: &Option<Vec<char>>) -> (r: Vec<String>)
    ensures
        Seq::new(r@.len(), |j: int| if 0 <= j < r@.len() { r@[j]@ } else { Seq::empty() })
            =~= spec_expand_items(
            Seq::new(arr@.len(), |i: int| if 0 <= i < arr@.len() { arr@[i].model() } else { JsonModel::Null }),
            match field {
                Some(f) => Some(f@),
                None => None,
            },
            arr@.len() as int,
        ),
{
    let ghost am = Seq::new(
        arr@.len(),
        |i: int| if 0 <= i < arr@.len() { arr@[i].model() } else { JsonModel::Null },
    );
    let ghost fm: Option<Seq<char>> = match field {
        Some(f) => Some(f@),
        None => None,
    };
    let mut r: Vec<String> = Vec::new();
    let mut i: usize = 0;
    while i < arr.len()
        invariant
            i <= arr@.len(),
            am.len() == arr@.len(),
            forall|k: int| 0 <= k < arr@.len() ==> am[k] == arr@[k].model(),
            fm == (match field {
                Some(f) => Some(f@),
                None => None,
            }),
            Seq::new(r@.len(), |j: int| if 0 <= j < r@.len() { r@[j]@ } else { Seq::empty() })
                =~= spec_expand_items(am, fm, i as int),
        decreases arr@.len() - i,
    {
        let item_opt: Option<String> = match field {
            Some(f) => {
                match arr[i].get_key(f) {
                    Some(v) => Some(item_string(v)),
                    None => None,
                }
            },
            None => Some(item_string(&arr[i])),
        };
        match item_opt {
            Some(s) => {
                r.push(s);
            },
            None => {
            },
        }
        proof {
            assert(Seq::new(
                r@.len(),
                |j: int| if 0 <= j < r@.len() { r@[j]@ } else { Seq::empty() },
            ) =~= spec_expand_items(am, fm, i + 1));
        }
        i = i + 1;
    }
    r
}

/// How one expanded element becomes a string, executable.
fn item_string(v: &JsonValue) -> (r: String)
    ensures
        r@ == spec_item_string(v.model()),
{
    match v {
        JsonValue::Str(s) => clone_string(s),
        _ => json_text_string(v),
    }
}

/// One spec's outcome applied to the result maps.
fn apply_spec(
    doc: &DocumentIndex,
    s: &ExtractSpec,
    values: &mut Vec<(String, Option<String>)>,
    expanded: &mut Vec<(String, Vec<String>)>,
)
    requires
        doc.wf(),
    ensures
        spec_values_model(final(values)@) == spec_set_value(
            spec_values_model(old(values)@),
            s.alias@,
            spec_outcome(doc.html@, *s).value,
        ),
        spec_expanded_model(final(expanded)@) == (match spec_outcome(doc.html@, *s).expanded {
            Some(l) => spec_set_list(spec_expanded_model(old(expanded)@), s.alias@, l),
            None => spec_expanded_model(old(expanded)@),
        }),
{
    let ghost out = spec_outcome(doc.html@, *s);
    let alias = to_chars(s.alias.as_str());
    let raw = extract_value(doc, s);
    if s.is_json_cast || s.expand_array {
        match raw {
            Some(rawv) => {
                match json_parse(rawv.as_str()) {
                    Some(j) => {
                        let target: Option<&JsonValue> = match &s.json_path {
                            Some(pp) => {
                                let pc = to_chars(pp.as_str());
                                arrow_navigate(&j, &pc)
                            },
                            None => Some(&j),
                        };
                        match target {
                            Some(val) => {
                                if s.expand_array {
                                    match val {
                                        JsonValue::Arr(items) => {
                                            let fc: Option<Vec<char>> = match &s.array_field {
                                                Some(f) => Some(to_chars(f.as_str())),
                                                None => None,
                                            };
                                            let list = expand_items(items, &fc);
                                            proof {
                                                assert(val.model()->Arr_0 =~= Seq::new(
                                                    items@.len(),
                                                    |i: int|
                                                        if 0 <= i < items@.len() {
                                                            items@[i].model()
                                                        } else {
                                                            JsonModel::Null
                                                        },
                                                ));
                                            }
                                            set_list(expanded, &alias, list);
                                            set_value(values, &alias, None);
                                        },
                                        _ => {
                                            let text = json_text_string(val);
                                            set_value(values, &alias, Some(text));
                                        },
                                    }
                                } else {
                                    let text = json_text_string(val);
                                    set_value(values, &alias, Some(text));
                                }
                            },
                            None => {
                                set_value(values, &alias, None);
                            },
                        }
                    },
                    None => {
                        set_value(values, &alias, Some(rawv));
                    },
                }
            },
            None => {
                set_value(values, &alias, None);
            },
        }
    } else {
        set_value(values, &alias, raw);
    }
}

/// Run a batch of specs over a document: index it once, resolve every
/// spec, and report each alias's value — and its expanded list where
/// array expansion fired.
pub fn extract_all(html: &str, request: &ExtractionRequest) -> (r: ExtractionResult)
    ensures
        spec_values_model(r.values@) == spec_all_values(
            html@,
            request.specs@,
            request.specs@.len() as int,
        ),
        spec_expanded_model(r.expanded_values@) == spec_all_expanded(
            html@,
            request.specs@,
            request.specs@.len() as int,
        ),
        r.error is None,
{
    let doc = build_index(html);
    let ghost sm = request.specs@;
    let mut values: Vec<(String, Option<String>)> = Vec::new();
    let mut expanded: Vec<(String, Vec<String>)> = Vec::new();
    proof {
        assert(spec_values_model(values@) =~= spec_all_values(html@, sm, 0));
        assert(spec_expanded_model(expanded@) =~= spec_all_expanded(html@, sm, 0));
    }
    let mut i: usize = 0;
    while i < request.specs.len()
        invariant
            i <= sm.len(),
            sm == request.specs@,
            doc.wf(),
            doc.html@ == html@,
            spec_values_model(values@) == spec_all_values(html@, sm, i as int),
            spec_expanded_model(expanded@) == spec_all_expanded(html@, sm, i as int),
        decreases sm.len() - i,
    {
        apply_spec(&doc, &request.specs[i], &mut values, &mut expanded);
        i = i + 1;
    }
    ExtractionResult { values, expanded_values: expanded, error: None }
}

/// The value recorded under a variable name, if any.
pub fn js_var_lookup<'a>(js: &'a Vec<(String, JsonValue)>, name: &Vec<char>) -> (r: Option<
    &'a JsonValue,
>)
    ensures
        match r {
            Some(v) => spec_obj_get(spec_obj_fields(js@), name@) == Some(v.model()),
            None => spec_obj_get(spec_obj_fields(js@), name@) is None,
        },
{
    let ghost g = spec_obj_fields(js@);
    let mut k: usize = 0;
    while k < js.len()
        invariant
            k <= js@.len(),
            g == spec_obj_fields(js@),
            forall|i: int| 0 <= i < k ==> g[i].0 != name@,
        decreases js@.len() - k,
    {
        let key = to_chars(js[k].0.as_str());
        if eq_chars(&key, name) {
            proof {
                crate::json::lemma_obj_get_hit(g, name@, k as int);
            }
            return Some(&js[k].1);
        }
        k = k + 1;
    }
    proof {
        crate::json::lemma_obj_get_none(g, name@);
    }
    None
}

} // verus!
