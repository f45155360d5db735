//! Microdata indexing.
//!
//! Every element carrying `itemscope` whose ancestors carry none is a
//! top-level item.  An item's properties are the `itemprop` descendants
//! whose nearest `itemscope` ancestor is the item itself; a property that
//! itself carries `itemscope` nests recursively.  A property value comes
//! from the tag-appropriate attribute (`content`, `href`, `src`,
//! `datetime`, `value`) or from the trimmed text.  A repeated property
//! name accumulates its values into an array in document order.  The
//! index maps each item type name — the last `/`-segment of `itemtype` —
//! to the non-empty list of its items in document order.

use vstd::prelude::*;
use crate::json::{JsonModel, JsonValue, spec_obj_get};
use crate::index::{IndexModel, TypedIndex, spec_index_insert, lemma_index_insert_nonempty};
use crate::dom::{
    ElemShape, ElemRec, spec_dom, spec_attr, dom_elements, spec_shapes, spec_parent, parent_of,
    spec_subtree_end, subtree_end, lemma_parent_from_bounds,
};
use crate::chars::{spec_trim, trim_chars, to_chars, from_chars};
use crate::pathlang::{spec_rfind_char, rfind_char, lemma_rfind_char_bounds};

verus! {

/// The last `/`-separated segment of a type URL.
pub open spec fn spec_last_segment(s: Seq<char>) -> Seq<char> {
    match spec_rfind_char(s, '/') {
        Some(p) => s.subrange(p + 1, s.len() as int),
        None => s,
    }
}

/// The last `/`-separated segment, executable.
pub fn last_segment(v: &Vec<char>) -> (r: Vec<char>)
    ensures
        r@ == spec_last_segment(v@),
{
    let n = v.len();
    match rfind_char(v, '/') {
        Some(p) => {
            proof {
                lemma_rfind_char_bounds(v@, '/');
            }
            crate::chars::slice_chars(v, p + 1, n)
        },
        None => {
            let mut r: Vec<char> = Vec::new();
            let mut i: usize = 0;
            while i < v.len()
                invariant
                    i <= v@.len(),
                    r@ == v@.subrange(0, i as int),
                decreases v@.len() - i,
            {
                r.push(v[i]);
                proof {
                    assert(r@ =~= v@.subrange(0, i + 1));
                }
                i = i + 1;
            }
            proof {
                assert(r@ =~= v@);
            }
            r
        },
    }
}

/// An element's attribute value, or empty.
pub open spec fn spec_attr_or_empty(e: ElemShape, name: Seq<char>) -> Seq<char> {
    match spec_attr(e.attrs, name) {
        Some(v) => v,
        None => Seq::empty(),
    }
}

/// The scalar value of a property element: the tag-appropriate attribute
/// or the text, trimmed.
pub open spec fn spec_prop_value(e: ElemShape) -> JsonModel {
    let raw = if e.tag == "meta"@ {
        spec_attr_or_empty(e, "content"@)
    } else if e.tag == "link"@ || e.tag == "a"@ || e.tag == "area"@ {
        spec_attr_or_empty(e, "href"@)
    } else if e.tag == "img"@ || e.tag == "audio"@ || e.tag == "video"@ || e.tag == "source"@ {
        spec_attr_or_empty(e, "src"@)
    } else if e.tag == "time"@ {
        match spec_attr(e.attrs, "datetime"@) {
            Some(v) => v,
            None => e.text,
        }
    } else if e.tag == "data"@ || e.tag == "meter"@ {
        spec_attr_or_empty(e, "value"@)
    } else {
        e.text
    };
    JsonModel::Str(spec_trim(raw))
}

/// Accumulation of a property: a new name is appended; a repeated name
/// turns its value into an array, or extends the array it already has.
pub open spec fn spec_prop_insert(
    fields: Seq<(Seq<char>, JsonModel)>,
    name: Seq<char>,
    value: JsonModel,
) -> Seq<(Seq<char>, JsonModel)>
    decreases fields.len(),
{
    if fields.len() == 0 {
        seq![(name, value)]
    } else if fields[0].0 == name {
        match fields[0].1 {
            JsonModel::Arr(a) => seq![(name, JsonModel::Arr(a.push(value)))] + fields.drop_first(),
            _ => seq![(name, JsonModel::Arr(seq![fields[0].1, value]))] + fields.drop_first(),
        }
    } else {
        seq![fields[0]] + spec_prop_insert(fields.drop_first(), name, value)
    }
}

/// Repeated properties accumulate into a list in document order: after
/// recording one more `value` under `name`, the name's lookup holds the
/// old scalar and the new value as a pair, the old list extended by the
/// new value, or — for a first occurrence — the value itself.
pub proof fn lemma_prop_accumulates(
    fields: Seq<(Seq<char>, JsonModel)>,
    name: Seq<char>,
    value: JsonModel,
)
    ensures
        spec_obj_get(spec_prop_insert(fields, name, value), name) == Some(
            match spec_obj_get(fields, name) {
                None => value,
                Some(JsonModel::Arr(a)) => JsonModel::Arr(a.push(value)),
                Some(x) => JsonModel::Arr(seq![x, value]),
            },
        ),
    decreases fields.len(),
{
    if fields.len() > 0 && fields[0].0 != name {
        lemma_prop_accumulates(fields.drop_first(), name, value);
        assert(spec_prop_insert(fields, name, value).drop_first() =~= spec_prop_insert(
            fields.drop_first(),
            name,
            value,
        ));
    }
}

/// Whether the walk from `j` up the parent chain reaches `i` before any
/// element that carries `itemscope`: such a property belongs to item `i`.
pub open spec fn spec_scope_ok(doms: Seq<ElemShape>, j: int, i: int) -> bool
    decreases j,
    via spec_scope_ok_dec
{
    match spec_parent(doms, j) {
        None => false,
        Some(p) => if p == i {
            true
        } else if spec_attr(doms[p].attrs, "itemscope"@) is Some {
            false
        } else {
            spec_scope_ok(doms, p, i)
        },
    }
}

#[via_fn]
proof fn spec_scope_ok_dec(doms: Seq<ElemShape>, j: int, i: int) {
    lemma_parent_from_bounds(doms, j, j - 1);
}

/// Whether no element ancestor of `j` carries `itemscope`: such an
/// element, if it carries `itemscope` itself, is a top-level item.
pub open spec fn spec_top_level(doms: Seq<ElemShape>, j: int) -> bool
    decreases j,
    via spec_top_level_dec
{
    match spec_parent(doms, j) {
        None => true,
        Some(p) => if spec_attr(doms[p].attrs, "itemscope"@) is Some {
            false
        } else {
            spec_top_level(doms, p)
        },
    }
}

#[via_fn]
proof fn spec_top_level_dec(doms: Seq<ElemShape>, j: int) {
    lemma_parent_from_bounds(doms, j, j - 1);
}

/// The base fields of an item: its type name from `itemtype`, and its
/// `itemid`, where present.
pub open spec fn spec_item_base(e: ElemShape) -> Seq<(Seq<char>, JsonModel)> {
    let with_type = match spec_attr(e.attrs, "itemtype"@) {
        Some(t) => seq![("@type"@, JsonModel::Str(spec_last_segment(t)))],
        None => Seq::empty(),
    };
    match spec_attr(e.attrs, "itemid"@) {
        Some(id) => with_type.push(("@id"@, JsonModel::Str(id))),
        None => with_type,
    }
}

/// The item rooted at element `i`.
pub open spec fn spec_item(doms: Seq<ElemShape>, i: int) -> JsonModel
    decreases doms.len() - i, 1int,
{
    if 0 <= i < doms.len() {
        JsonModel::Obj(spec_item_props(doms, i, i + 1, spec_item_base(doms[i])))
    } else {
        JsonModel::Obj(Seq::empty())
    }
}

/// The fields of item `i` after walking properties from position `j` to
/// the end of `i`'s subtree, starting from `acc`.
pub open spec fn spec_item_props(
    doms: Seq<ElemShape>,
    i: int,
    j: int,
    acc: Seq<(Seq<char>, JsonModel)>,
) -> Seq<(Seq<char>, JsonModel)>
    decreases doms.len() - j, 2int,
{
    if j <= i || j >= doms.len() || doms[j].depth <= doms[i].depth {
        acc
    } else {
        let acc2 = match spec_attr(doms[j].attrs, "itemprop"@) {
            Some(pname) => if spec_scope_ok(doms, j, i) {
                let value = if spec_attr(doms[j].attrs, "itemscope"@) is Some {
                    spec_item(doms, j)
                } else {
                    spec_prop_value(doms[j])
                };
                spec_prop_insert(acc, pname, value)
            } else {
                acc
            },
            None => acc,
        };
        spec_item_props(doms, i, j + 1, acc2)
    }
}

/// The microdata index over the first `n` elements.
pub open spec fn spec_microdata_items(doms: Seq<ElemShape>, n: int) -> IndexModel
    decreases n,
{
    if n <= 0 || n > doms.len() {
        Seq::empty()
    } else {
        let m = spec_microdata_items(doms, n - 1);
        let i = n - 1;
        if spec_attr(doms[i].attrs, "itemscope"@) is Some && spec_top_level(doms, i) {
            match spec_attr(doms[i].attrs, "itemtype"@) {
                Some(t) => spec_index_insert(m, spec_last_segment(t), spec_item(doms, i)),
                None => m,
            }
        } else {
            m
        }
    }
}

/// The microdata index of an HTML document.
pub open spec fn spec_microdata_index(html: Seq<char>) -> IndexModel {
    spec_microdata_items(spec_dom(html), spec_dom(html).len() as int)
}

/// Whether the walk from `j` up the parent chain reaches `i` first.
fn scope_ok(doms: &Vec<ElemRec>, j: usize, i: usize) -> (r: bool)
    requires
        (j as int) < doms@.len(),
    ensures
        r == spec_scope_ok(spec_shapes(doms@), j as int, i as int),
{
    let ghost m = spec_shapes(doms@);
    let itemscope = to_chars("itemscope");
    proof {
        reveal_strlit("itemscope");
    }
    let mut cur: usize = j;
    loop
        invariant
            (cur as int) < doms@.len(),
            m == spec_shapes(doms@),
            itemscope@ == "itemscope"@,
            spec_scope_ok(m, j as int, i as int) == spec_scope_ok(m, cur as int, i as int),
        decreases cur,
    {
        match parent_of(doms, cur) {
            None => {
                return false;
            },
            Some(p) => {
                if p == i {
                    return true;
                }
                if doms[p].has_attr(&itemscope) {
                    return false;
                }
                cur = p;
            },
        }
    }
}

/// Whether no element ancestor of `j` carries `itemscope`.
fn top_level(doms: &Vec<ElemRec>, j: usize) -> (r: bool)
    requires
        (j as int) < doms@.len(),
    ensures
        r == spec_top_level(spec_shapes(doms@), j as int),
{
    let ghost m = spec_shapes(doms@);
    let itemscope = to_chars("itemscope");
    proof {
        reveal_strlit("itemscope");
    }
    let mut cur: usize = j;
    loop
        invariant
            (cur as int) < doms@.len(),
            m == spec_shapes(doms@),
            itemscope@ == "itemscope"@,
            spec_top_level(m, j as int) == spec_top_level(m, cur as int),
        decreases cur,
    {
        match parent_of(doms, cur) {
            None => {
                return true;
            },
            Some(p) => {
                if doms[p].has_attr(&itemscope) {
                    return false;
                }
                cur = p;
            },
        }
    }
}

/// The scalar value of a property element.
fn prop_value(e: &ElemRec) -> (r: JsonValue)
    ensures
        r.model() == spec_prop_value(e.shape()),
{
    proof {
        reveal_strlit("meta");
        reveal_strlit("link");
        reveal_strlit("a");
        reveal_strlit("area");
        reveal_strlit("img");
        reveal_strlit("audio");
        reveal_strlit("video");
        reveal_strlit("source");
        reveal_strlit("time");
        reveal_strlit("data");
        reveal_strlit("meter");
    }
    let raw: Vec<char> = if e.has_tag(&to_chars("meta")) {
        attr_or_empty(e, "content")
    } else if e.has_tag(&to_chars("link")) || e.has_tag(&to_chars("a")) || e.has_tag(
        &to_chars("area"),
    ) {
        attr_or_empty(e, "href")
    } else if e.has_tag(&to_chars("img")) || e.has_tag(&to_chars("audio")) || e.has_tag(
        &to_chars("video"),
    ) || e.has_tag(&to_chars("source")) {
        attr_or_empty(e, "src")
    } else if e.has_tag(&to_chars("time")) {
        match e.attr(&to_chars("datetime")) {
            Some(v) => to_chars(v.as_str()),
            None => to_chars(e.text.as_str()),
        }
    } else if e.has_tag(&to_chars("data")) || e.has_tag(&to_chars("meter")) {
        attr_or_empty(e, "value")
    } else {
        to_chars(e.text.as_str())
    };
    let trimmed = trim_chars(&raw);
    JsonValue::Str(from_chars(&trimmed))
}

/// An element's attribute value as characters, or empty.
fn attr_or_empty(e: &ElemRec, name: &str) -> (r: Vec<char>)
    ensures
        r@ == spec_attr_or_empty(e.shape(), name@),
{
    let n = to_chars(name);
    match e.attr(&n) {
        Some(v) => to_chars(v.as_str()),
        None => {
            let r: Vec<char> = Vec::new();
            proof {
                assert(r@ =~= Seq::<char>::empty());
            }
            r
        },
    }
}

/// Accumulation of a property into an item's field list.
fn prop_insert(fields: &mut Vec<(String, JsonValue)>, name: &Vec<char>, value: JsonValue)
    ensures
        spec_obj_fields(final(fields)@) == spec_prop_insert(
            spec_obj_fields(old(fields)@),
            name@,
            value.model(),
        ),
{
    let ghost m = spec_obj_fields(fields@);
    let mut k: usize = 0;
    let n = fields.len();
    while k < n
        invariant
            k <= n,
            n == fields@.len(),
            m == spec_obj_fields(fields@),
            forall|i: int| 0 <= i < k ==> m[i].0 != name@,
        decreases n - k,
    {
        let key = to_chars(fields[k].0.as_str());
        if crate::json::eq_chars(&key, name) {
            let ghost old_field = m[k as int].1;
            let ghost vm = value.model();
            let entry = fields.remove(k);
            let new_value = match entry.1 {
                JsonValue::Arr(a) => {
                    let mut a2 = a;
                    a2.push(value);
                    let nv = JsonValue::Arr(a2);
                    proof {
                        assert(nv.model()->Arr_0 =~= old_field->Arr_0.push(vm));
                        assert(nv.model() == JsonModel::Arr(old_field->Arr_0.push(vm)));
                    }
                    nv
                },
                other => {
                    let mut a2: Vec<JsonValue> = Vec::new();
                    a2.push(other);
                    a2.push(value);
                    let nv = JsonValue::Arr(a2);
                    proof {
                        assert(nv.model()->Arr_0 =~= seq![old_field, vm]);
                        assert(nv.model() == JsonModel::Arr(seq![old_field, vm]));
                    }
                    nv
                },
            };
            fields.insert(k, (entry.0, new_value));
            proof {
                lemma_prop_insert_hit(m, name@, vm, k as int);
                assert(spec_obj_fields(fields@) =~~= spec_prop_insert(m, name@, vm));
            }
            return ;
        }
        k = k + 1;
    }
    let key_string = from_chars(name);
    fields.push((key_string, value));
    proof {
        lemma_prop_insert_miss(m, name@, value.model());
        assert(spec_obj_fields(fields@) =~~= spec_prop_insert(m, name@, value.model()));
    }
}

/// The models of an object field vector.
pub open spec fn spec_obj_fields(fs: Seq<(String, JsonValue)>) -> Seq<(Seq<char>, JsonModel)> {
    Seq::new(
        fs.len(),
        |i: int|
            if 0 <= i < fs.len() {
                (fs[i].0@, fs[i].1.model())
            } else {
                (Seq::empty(), JsonModel::Null)
            },
    )
}

/// When an entry holds the key, accumulation updates it in place.
proof fn lemma_prop_insert_hit(m: Seq<(Seq<char>, JsonModel)>, name: Seq<char>, value: JsonModel, k: int)
    requires
        0 <= k < m.len(),
        forall|i: int| 0 <= i < k ==> m[i].0 != name,
        m[k].0 == name,
    ensures
        spec_prop_insert(m, name, value) =~= m.update(
            k,
            (
                m[k].0,
                match m[k].1 {
                    JsonModel::Arr(a) => JsonModel::Arr(a.push(value)),
                    _ => JsonModel::Arr(seq![m[k].1, value]),
                },
            ),
        ),
    decreases k,
{
    if k == 0 {
    } else {
        lemma_prop_insert_hit(m.drop_first(), name, value, k - 1);
        assert(spec_prop_insert(m, name, value) =~= m.update(
            k,
            (
                m[k].0,
                match m[k].1 {
                    JsonModel::Arr(a) => JsonModel::Arr(a.push(value)),
                    _ => JsonModel::Arr(seq![m[k].1, value]),
                },
            ),
        ));
    }
}

/// When no entry holds the key, accumulation appends.
proof fn lemma_prop_insert_miss(m: Seq<(Seq<char>, JsonModel)>, name: Seq<char>, value: JsonModel)
    requires
        forall|i: int| 0 <= i < m.len() ==> m[i].0 != name,
    ensures
        spec_prop_insert(m, name, value) =~= m.push((name, value)),
    decreases m.len(),
{
    if m.len() > 0 {
        lemma_prop_insert_miss(m.drop_first(), name, value);
        assert(spec_prop_insert(m, name, value) =~= m.push((name, value)));
    }
}

/// The item rooted at element `i`, executable.
pub fn extract_item(doms: &Vec<ElemRec>, i: usize) -> (r: JsonValue)
    requires
        (i as int) < doms@.len(),
    ensures
        r.model() == spec_item(spec_shapes(doms@), i as int),
    decreases doms@.len() - i,
{
    let ghost m = spec_shapes(doms@);
    let itemprop = to_chars("itemprop");
    let itemscope = to_chars("itemscope");
    let itemtype = to_chars("itemtype");
    let itemid = to_chars("itemid");
    proof {
        reveal_strlit("itemprop");
        reveal_strlit("itemscope");
        reveal_strlit("itemtype");
        reveal_strlit("itemid");
        reveal_strlit("@type");
        reveal_strlit("@id");
    }
    let mut fields: Vec<(String, JsonValue)> = Vec::new();
    match doms[i].attr(&itemtype) {
        Some(t) => {
            let tc = to_chars(t.as_str());
            let seg = last_segment(&tc);
            fields.push((String::from_str("@type"), JsonValue::Str(from_chars(&seg))));
        },
        None => {
        },
    }
    match doms[i].attr(&itemid) {
        Some(idv) => {
            let idc = to_chars(idv.as_str());
            fields.push((String::from_str("@id"), JsonValue::Str(from_chars(&idc))));
        },
        None => {
        },
    }
    proof {
        assert(spec_obj_fields(fields@) =~~= spec_item_base(m[i as int]));
    }
    let stop = subtree_end(doms, i);
    let mut j: usize = i + 1;
    while j < stop
        invariant
            i + 1 <= j <= stop,
            stop == spec_subtree_end(m, i as int, i + 1),
            stop <= doms@.len(),
            (i as int) < doms@.len(),
            m == spec_shapes(doms@),
            itemprop@ == "itemprop"@,
            itemscope@ == "itemscope"@,
            spec_item_props(m, i as int, i + 1, spec_item_base(m[i as int])) == spec_item_props(
                m,
                i as int,
                j as int,
                spec_obj_fields(fields@),
            ),
        decreases stop - j,
    {
        proof {
            lemma_subtree_inside(m, i as int, i + 1, j as int);
        }
        match doms[j].attr(&itemprop) {
            Some(pname_s) => {
                let pname = to_chars(pname_s.as_str());
                if scope_ok(doms, j, i) {
                    let value: JsonValue = if doms[j].has_attr(&itemscope) {
                        extract_item(doms, j)
                    } else {
                        prop_value(&doms[j])
                    };
                    prop_insert(&mut fields, &pname, value);
                }
            },
            None => {
            },
        }
        j = j + 1;
    }
    proof {
        lemma_item_props_at_end(m, i as int, j as int, spec_obj_fields(fields@));
    }
    let r = JsonValue::Obj(fields);
    proof {
        assert(r.model()->Obj_0 =~~= spec_item(m, i as int)->Obj_0);
    }
    r
}

/// Every position strictly inside the subtree scan keeps a greater depth.
proof fn lemma_subtree_inside(doms: Seq<ElemShape>, i: int, from: int, j: int)
    requires
        0 <= from,
        from <= j < spec_subtree_end(doms, i, from),
    ensures
        j < doms.len(),
        doms[j].depth > doms[i].depth,
    decreases j - from,
{
    lemma_subtree_end_hi(doms, i, from);
    if from < j {
        lemma_subtree_inside(doms, i, from + 1, j);
    }
}

/// The subtree scan never exceeds the length, and positions below it that
/// the scan passed keep a greater depth.
proof fn lemma_subtree_end_hi(doms: Seq<ElemShape>, i: int, from: int)
    requires
        0 <= from,
    ensures
        spec_subtree_end(doms, i, from) <= doms.len(),
        from < spec_subtree_end(doms, i, from) && from < doms.len() ==> doms[from].depth
            > doms[i].depth,
    decreases doms.len() - from,
{
    if from < doms.len() && !(doms[from].depth <= doms[i].depth) {
        lemma_subtree_end_hi(doms, i, from + 1);
    }
}

/// At the end of the subtree the property walk is complete.
proof fn lemma_item_props_at_end(doms: Seq<ElemShape>, i: int, j: int, acc: Seq<(Seq<char>, JsonModel)>)
    requires
        j == spec_subtree_end(doms, i, i + 1) || j >= doms.len(),
        j > i,
    ensures
        spec_item_props(doms, i, j, acc) == acc,
{
    if j < doms.len() {
        lemma_subtree_end_at(doms, i, i + 1, j);
    }
}

/// The subtree scan stops at a position of small depth.
proof fn lemma_subtree_end_at(doms: Seq<ElemShape>, i: int, from: int, j: int)
    requires
        0 <= from,
        j == spec_subtree_end(doms, i, from),
        j < doms.len(),
    ensures
        doms[j].depth <= doms[i].depth,
    decreases doms.len() - from,
{
    if from < doms.len() && !(doms[from].depth <= doms[i].depth) {
        lemma_subtree_end_at(doms, i, from + 1, j);
    } else {
    }
}

/// The microdata index over an already parsed element list.
pub fn microdata_index_of_dom(doms: &Vec<ElemRec>) -> (r: TypedIndex)
    ensures
        r.model() == spec_microdata_items(spec_shapes(doms@), doms@.len() as int),
{
    let ghost m = spec_shapes(doms@);
    let itemscope = to_chars("itemscope");
    let itemtype = to_chars("itemtype");
    proof {
        reveal_strlit("itemscope");
        reveal_strlit("itemtype");
    }
    let mut idx = TypedIndex::new();
    let mut i: usize = 0;
    while i < doms.len()
        invariant
            i <= doms@.len(),
            m == spec_shapes(doms@),
            itemscope@ == "itemscope"@,
            itemtype@ == "itemtype"@,
            idx.model() == spec_microdata_items(m, i as int),
        decreases doms@.len() - i,
    {
        if doms[i].has_attr(&itemscope) && top_level(doms, i) {
            match doms[i].attr(&itemtype) {
                Some(t) => {
                    let tc = to_chars(t.as_str());
                    let seg = last_segment(&tc);
                    let item = extract_item(doms, i);
                    idx.insert(&seg, item);
                },
                None => {
                },
            }
        }
        i = i + 1;
    }
    idx
}

/// The microdata index of an HTML document: every item type name maps to
/// the list of the document's items of that type, in document order.
pub fn extract_microdata(html: &str) -> (r: TypedIndex)
    ensures
        r.model() == spec_microdata_index(html@),
{
    let doms = dom_elements(html);
    microdata_index_of_dom(&doms)
}

/// Every entry of a microdata index holds at least one item.
pub proof fn lemma_microdata_arrayification(doms: Seq<ElemShape>, n: int)
    ensures
        forall|k: int|
            0 <= k < spec_microdata_items(doms, n).len() ==> #[trigger] spec_microdata_items(
                doms,
                n,
            )[k].1.len() > 0,
    decreases n,
{
    if 0 < n && n <= doms.len() {
        lemma_microdata_arrayification(doms, n - 1);
        let m = spec_microdata_items(doms, n - 1);
        let i = n - 1;
        if spec_attr(doms[i].attrs, "itemscope"@) is Some && spec_top_level(doms, i) {
            match spec_attr(doms[i].attrs, "itemtype"@) {
                Some(t) => {
                    lemma_index_insert_nonempty(m, spec_last_segment(t), spec_item(doms, i));
                },
                None => {
                },
            }
        }
    }
}

} // verus!
