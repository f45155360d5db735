//! OpenGraph, Twitter Card and standard meta-tag indexing.
//!
//! `<meta>` elements with non-empty `content` feed three groups: `og`
//! (from `property="og:…"`, stripped, plus `article:*` and `product:*`
//! kept whole), `twitter` (from `name="twitter:…"`, stripped), and `meta`
//! (from an allow-list of `name` values).  In the `og` and `twitter`
//! groups a key with a `:` nests (`image:width` becomes a `width` field
//! of `image`, an existing scalar moving to `_value`), and a repeated
//! simple key collapses its values into an array in document order.

use vstd::prelude::*;
use crate::json::{JsonModel, JsonValue};
use crate::dom::{ElemShape, ElemRec, spec_dom, spec_attr, dom_elements, spec_shapes};
use crate::microdata::spec_obj_fields;
use crate::jsonld::find_key;
use crate::chars::{spec_has_prefix, has_prefix, to_chars, from_chars, slice_chars};
use crate::pathlang::{spec_find_char, find_char, lemma_find_char_bounds};

verus! {

/// Replacement of a key's value, keeping its position; a new key is
/// appended.
pub open spec fn spec_map_set(
    fields: Seq<(Seq<char>, JsonModel)>,
    key: Seq<char>,
    value: JsonModel,
) -> Seq<(Seq<char>, JsonModel)>
    decreases fields.len(),
{
    if fields.len() == 0 {
        seq![(key, value)]
    } else if fields[0].0 == key {
        seq![(key, value)] + fields.drop_first()
    } else {
        seq![fields[0]] + spec_map_set(fields.drop_first(), key, value)
    }
}

/// The one step of group accumulation for one `<meta>` value.
pub open spec fn spec_og_insert(
    fields: Seq<(Seq<char>, JsonModel)>,
    key: Seq<char>,
    value: Seq<char>,
) -> Seq<(Seq<char>, JsonModel)>
    decreases fields.len(),
{
    match spec_find_char(key, ':', 0) {
        Some(cp) => {
            let main = key.subrange(0, cp);
            let sub = key.subrange(cp + 1, key.len() as int);
            if fields.len() == 0 {
                seq![(main, JsonModel::Obj(seq![(sub, JsonModel::Str(value))]))]
            } else if fields[0].0 == main {
                match fields[0].1 {
                    JsonModel::Obj(nf) => seq![(main, JsonModel::Obj(spec_map_set(nf, sub, JsonModel::Str(value))))]
                        + fields.drop_first(),
                    JsonModel::Str(s) => seq![
                        (
                            main,
                            JsonModel::Obj(
                                seq![("_value"@, JsonModel::Str(s)), (sub, JsonModel::Str(value))],
                            ),
                        ),
                    ] + fields.drop_first(),
                    _ => fields,
                }
            } else {
                seq![fields[0]] + spec_og_insert(fields.drop_first(), key, value)
            }
        },
        None => {
            if fields.len() == 0 {
                seq![(key, JsonModel::Str(value))]
            } else if fields[0].0 == key {
                match fields[0].1 {
                    JsonModel::Arr(a) => seq![(key, JsonModel::Arr(a.push(JsonModel::Str(value))))]
                        + fields.drop_first(),
                    _ => seq![(key, JsonModel::Arr(seq![fields[0].1, JsonModel::Str(value)]))]
                        + fields.drop_first(),
                }
            } else {
                seq![fields[0]] + spec_og_insert(fields.drop_first(), key, value)
            }
        },
    }
}

/// A recognised standard meta name.
pub open spec fn spec_meta_allowed(n: Seq<char>) -> bool {
    ||| n == "description"@
    ||| n == "keywords"@
    ||| n == "author"@
    ||| n == "robots"@
    ||| n == "viewport"@
    ||| n == "generator"@
    ||| n == "theme-color"@
    ||| n == "canonical"@
}

/// The three meta groups of a document.
pub struct OgShape {
    pub og: Seq<(Seq<char>, JsonModel)>,
    pub twitter: Seq<(Seq<char>, JsonModel)>,
    pub meta: Seq<(Seq<char>, JsonModel)>,
}

/// The groups after one element.
pub open spec fn spec_og_step(st: OgShape, e: ElemShape) -> OgShape {
    if e.tag != "meta"@ {
        st
    } else {
        let content = match spec_attr(e.attrs, "content"@) {
            Some(c) => c,
            None => Seq::empty(),
        };
        if content.len() == 0 {
            st
        } else {
            let og1 = match spec_attr(e.attrs, "property"@) {
                Some(p) => if spec_has_prefix(p, "og:"@) {
                    spec_og_insert(st.og, p.subrange(3, p.len() as int), content)
                } else if spec_has_prefix(p, "article:"@) || spec_has_prefix(p, "product:"@) {
                    spec_og_insert(st.og, p, content)
                } else {
                    st.og
                },
                None => st.og,
            };
            let tw1 = match spec_attr(e.attrs, "name"@) {
                Some(n) => if spec_has_prefix(n, "twitter:"@) {
                    spec_og_insert(st.twitter, n.subrange(8, n.len() as int), content)
                } else {
                    st.twitter
                },
                None => st.twitter,
            };
            let meta1 = match spec_attr(e.attrs, "name"@) {
                Some(n) => if spec_meta_allowed(n) {
                    spec_map_set(st.meta, n, JsonModel::Str(content))
                } else {
                    st.meta
                },
                None => st.meta,
            };
            OgShape { og: og1, twitter: tw1, meta: meta1 }
        }
    }
}

/// The groups over the first `n` elements.
pub open spec fn spec_og_state(doms: Seq<ElemShape>, n: int) -> OgShape
    decreases n,
{
    if n <= 0 || n > doms.len() {
        OgShape { og: Seq::empty(), twitter: Seq::empty(), meta: Seq::empty() }
    } else {
        spec_og_step(spec_og_state(doms, n - 1), doms[n - 1])
    }
}

/// The meta groups of an HTML document.
pub open spec fn spec_og_index(html: Seq<char>) -> OgShape {
    spec_og_state(spec_dom(html), spec_dom(html).len() as int)
}

/// The three meta groups, executable.
pub struct MetaGroups {
    pub og: Vec<(String, JsonValue)>,
    pub twitter: Vec<(String, JsonValue)>,
    pub meta: Vec<(String, JsonValue)>,
}

impl MetaGroups {
    /// The shape these groups stand for.
    pub open spec fn model(self) -> OgShape {
        OgShape {
            og: spec_obj_fields(self.og@),
            twitter: spec_obj_fields(self.twitter@),
            meta: spec_obj_fields(self.meta@),
        }
    }
}

/// When an entry holds the key, replacement updates it in place.
proof fn lemma_map_set_hit(m: Seq<(Seq<char>, JsonModel)>, key: Seq<char>, value: JsonModel, k: int)
    requires
        0 <= k < m.len(),
        forall|i: int| 0 <= i < k ==> m[i].0 != key,
        m[k].0 == key,
    ensures
        spec_map_set(m, key, value) =~= m.update(k, (key, value)),
    decreases k,
{
    if k > 0 {
        lemma_map_set_hit(m.drop_first(), key, value, k - 1);
        assert(spec_map_set(m, key, value) =~= m.update(k, (key, value)));
    }
}

/// When no entry holds the key, replacement appends.
proof fn lemma_map_set_miss(m: Seq<(Seq<char>, JsonModel)>, key: Seq<char>, value: JsonModel)
    requires
        forall|i: int| 0 <= i < m.len() ==> m[i].0 != key,
    ensures
        spec_map_set(m, key, value) =~= m.push((key, value)),
    decreases m.len(),
{
    if m.len() > 0 {
        lemma_map_set_miss(m.drop_first(), key, value);
        assert(spec_map_set(m, key, value) =~= m.push((key, value)));
    }
}

/// Replacement of a key's value, executable.
pub fn map_set(fields: &mut Vec<(String, JsonValue)>, key: &Vec<char>, value: JsonValue)
    ensures
        spec_obj_fields(final(fields)@) == spec_map_set(
            spec_obj_fields(old(fields)@),
            key@,
            value.model(),
        ),
{
    let ghost m = spec_obj_fields(fields@);
    match find_key(fields, key) {
        Some(k) => {
            let entry = fields.remove(k);
            fields.insert(k, (entry.0, value));
            proof {
                lemma_map_set_hit(m, key@, value.model(), k as int);
                assert(spec_obj_fields(fields@) =~~= spec_map_set(m, key@, value.model()));
            }
        },
        None => {
            fields.push((from_chars(key), value));
            proof {
                lemma_map_set_miss(m, key@, value.model());
                assert(spec_obj_fields(fields@) =~~= spec_map_set(m, key@, value.model()));
            }
        },
    }
}

/// When an entry holds the main key of a nested insertion, the update is
/// in place.
proof fn lemma_og_insert_nested_hit(
    m: Seq<(Seq<char>, JsonModel)>,
    key: Seq<char>,
    value: Seq<char>,
    cp: int,
    k: int,
)
    requires
        spec_find_char(key, ':', 0) == Some(cp),
        0 <= k < m.len(),
        forall|i: int| 0 <= i < k ==> m[i].0 != key.subrange(0, cp),
        m[k].0 == key.subrange(0, cp),
    ensures
        spec_og_insert(m, key, value) =~= (match m[k].1 {
            JsonModel::Obj(nf) => m.update(
                k,
                (
                    m[k].0,
                    JsonModel::Obj(
                        spec_map_set(nf, key.subrange(cp + 1, key.len() as int), JsonModel::Str(value)),
                    ),
                ),
            ),
            JsonModel::Str(s) => m.update(
                k,
                (
                    m[k].0,
                    JsonModel::Obj(
                        seq![
                            ("_value"@, JsonModel::Str(s)),
                            (key.subrange(cp + 1, key.len() as int), JsonModel::Str(value)),
                        ],
                    ),
                ),
            ),
            _ => m,
        }),
    decreases k,
{
    if k > 0 {
        lemma_og_insert_nested_hit(m.drop_first(), key, value, cp, k - 1);
    }
}

/// When no entry holds the main key of a nested insertion, a fresh
/// nested object is appended.
proof fn lemma_og_insert_nested_miss(m: Seq<(Seq<char>, JsonModel)>, key: Seq<char>, value: Seq<char>, cp: int)
    requires
        spec_find_char(key, ':', 0) == Some(cp),
        forall|i: int| 0 <= i < m.len() ==> m[i].0 != key.subrange(0, cp),
    ensures
        spec_og_insert(m, key, value) =~= m.push(
            (
                key.subrange(0, cp),
                JsonModel::Obj(
                    seq![(key.subrange(cp + 1, key.len() as int), JsonModel::Str(value))],
                ),
            ),
        ),
    decreases m.len(),
{
    if m.len() > 0 {
        lemma_og_insert_nested_miss(m.drop_first(), key, value, cp);
    }
}

/// When an entry holds a simple key, its values collapse into an array.
proof fn lemma_og_insert_simple_hit(m: Seq<(Seq<char>, JsonModel)>, key: Seq<char>, value: Seq<char>, k: int)
    requires
        spec_find_char(key, ':', 0) is None,
        0 <= k < m.len(),
        forall|i: int| 0 <= i < k ==> m[i].0 != key,
        m[k].0 == key,
    ensures
        spec_og_insert(m, key, value) =~= (match m[k].1 {
            JsonModel::Arr(a) => m.update(k, (key, JsonModel::Arr(a.push(JsonModel::Str(value))))),
            _ => m.update(k, (key, JsonModel::Arr(seq![m[k].1, JsonModel::Str(value)]))),
        }),
    decreases k,
{
    if k > 0 {
        lemma_og_insert_simple_hit(m.drop_first(), key, value, k - 1);
    }
}

/// When no entry holds a simple key, the value is appended.
proof fn lemma_og_insert_simple_miss(m: Seq<(Seq<char>, JsonModel)>, key: Seq<char>, value: Seq<char>)
    requires
        spec_find_char(key, ':', 0) is None,
        forall|i: int| 0 <= i < m.len() ==> m[i].0 != key,
    ensures
        spec_og_insert(m, key, value) =~= m.push((key, JsonModel::Str(value))),
    decreases m.len(),
{
    if m.len() > 0 {
        lemma_og_insert_simple_miss(m.drop_first(), key, value);
    }
}

/// One group accumulation step, executable.
pub fn og_insert(fields: &mut Vec<(String, JsonValue)>, key: &Vec<char>, value: &Vec<char>)
    ensures
        spec_obj_fields(final(fields)@) == spec_og_insert(spec_obj_fields(old(fields)@), key@, value@),
{
    let ghost m = spec_obj_fields(fields@);
    let klen = key.len();
    match find_char(key, ':', 0) {
        Some(cp) => {
            proof {
                lemma_find_char_bounds(key@, ':', 0);
            }
            let main = slice_chars(key, 0, cp);
            let sub = slice_chars(key, cp + 1, klen);
            match find_key(fields, &main) {
                Some(k) => {
                    proof {
                        lemma_og_insert_nested_hit(m, key@, value@, cp as int, k as int);
                    }
                    let entry = fields.remove(k);
                    let entry_key = entry.0;
                    let entry_value = entry.1;
                    let ghost ev = entry_value.model();
                    proof {
                        assert(ev == m[k as int].1);
                    }
                    match entry_value {
                        JsonValue::Obj(nf) => {
                            proof {
                                assert(ev == JsonValue::Obj(nf).model());
                            }
                            let mut nf2 = nf;
                            proof {
                                assert(spec_obj_fields(nf2@) =~~= ev->Obj_0);
                            }
                            let ghost nfm = spec_obj_fields(nf2@);
                            map_set(&mut nf2, &sub, JsonValue::Str(from_chars(value)));
                            let nv = JsonValue::Obj(nf2);
                            proof {
                                assert(nv.model()->Obj_0 =~~= spec_obj_fields(nf2@));
                                assert(nv.model()->Obj_0 == spec_map_set(
                                    ev->Obj_0,
                                    sub@,
                                    JsonModel::Str(value@),
                                ));
                            }
                            fields.insert(k, (entry_key, nv));
                            proof {
                                assert(spec_obj_fields(fields@) =~~= spec_og_insert(m, key@, value@));
                            }
                        },
                        JsonValue::Str(str_old) => {
                            proof {
                                assert(ev == JsonValue::Str(str_old).model());
                            }
                            let mut nf2: Vec<(String, JsonValue)> = Vec::new();
                            nf2.push((String::from_str("_value"), JsonValue::Str(str_old)));
                            nf2.push((from_chars(&sub), JsonValue::Str(from_chars(value))));
                            proof {
                                reveal_strlit("_value");
                                assert(nf2@.len() == 2);
                                assert(nf2@[0].0@ == "_value"@ && nf2@[0].1.model() == ev);
                                assert(nf2@[1].0@ == sub@ && nf2@[1].1.model() == JsonModel::Str(
                                    value@,
                                ));
                            }
                            let nv = JsonValue::Obj(nf2);
                            proof {
                                assert(nv.model()->Obj_0 =~~= seq![
                                    ("_value"@, ev),
                                    (sub@, JsonModel::Str(value@)),
                                ]);
                            }
                            fields.insert(k, (entry_key, nv));
                            proof {
                                assert(spec_obj_fields(fields@) =~~= spec_og_insert(m, key@, value@));
                            }
                        },
                        other => {
                            proof {
                                assert(ev == other.model());
                            }
                            fields.insert(k, (entry_key, other));
                            proof {
                                assert(spec_obj_fields(fields@) =~~= m);
                                assert(spec_obj_fields(fields@) =~~= spec_og_insert(m, key@, value@));
                            }
                        },
                    }
                },
                None => {
                    let mut nf: Vec<(String, JsonValue)> = Vec::new();
                    nf.push((from_chars(&sub), JsonValue::Str(from_chars(value))));
                    proof {
                        assert(nf@.len() == 1);
                        assert(nf@[0].0@ == sub@ && nf@[0].1.model() == JsonModel::Str(value@));
                    }
                    let nv = JsonValue::Obj(nf);
                    proof {
                        assert(nv.model()->Obj_0 =~~= seq![(sub@, JsonModel::Str(value@))]);
                    }
                    fields.push((from_chars(&main), nv));
                    proof {
                        lemma_og_insert_nested_miss(m, key@, value@, cp as int);
                        assert(spec_obj_fields(fields@) =~~= spec_og_insert(m, key@, value@));
                    }
                },
            }
        },
        None => {
            match find_key(fields, key) {
                Some(k) => {
                    proof {
                        lemma_og_insert_simple_hit(m, key@, value@, k as int);
                    }
                    let entry = fields.remove(k);
                    let entry_key = entry.0;
                    let entry_value = entry.1;
                    let ghost ev = entry_value.model();
                    proof {
                        assert(ev == m[k as int].1);
                    }
                    let nv = match entry_value {
                        JsonValue::Arr(a) => {
                            proof {
                                assert(ev == JsonValue::Arr(a).model());
                            }
                            let ghost a0 = a@;
                            let mut a2 = a;
                            a2.push(JsonValue::Str(from_chars(value)));
                            proof {
                                assert(a2@.len() == a0.len() + 1);
                                assert(forall|i: int| 0 <= i < a0.len() ==> a2@[i] == a0[i]);
                                assert(a2@[a0.len() as int].model() == JsonModel::Str(value@));
                            }
                            let nv = JsonValue::Arr(a2);
                            proof {
                                assert(nv.model()->Arr_0 =~= ev->Arr_0.push(JsonModel::Str(value@)));
                            }
                            nv
                        },
                        other => {
                            let ghost om = other.model();
                            let mut a2: Vec<JsonValue> = Vec::new();
                            a2.push(other);
                            a2.push(JsonValue::Str(from_chars(value)));
                            proof {
                                assert(a2@.len() == 2);
                                assert(a2@[0].model() == om);
                                assert(a2@[1].model() == JsonModel::Str(value@));
                            }
                            let nv = JsonValue::Arr(a2);
                            proof {
                                assert(nv.model()->Arr_0 =~= seq![ev, JsonModel::Str(value@)]);
                            }
                            nv
                        },
                    };
                    fields.insert(k, (entry_key, nv));
                    proof {
                        assert(spec_obj_fields(fields@) =~~= spec_og_insert(m, key@, value@));
                    }
                },
                None => {
                    fields.push((from_chars(key), JsonValue::Str(from_chars(value))));
                    proof {
                        lemma_og_insert_simple_miss(m, key@, value@);
                        assert(spec_obj_fields(fields@) =~~= spec_og_insert(m, key@, value@));
                    }
                },
            }
        },
    }
}

/// The meta groups over an already parsed element list.
pub fn og_index_of_dom(doms: &Vec<ElemRec>) -> (r: MetaGroups)
    ensures
        r.model() == spec_og_state(spec_shapes(doms@), doms@.len() as int),
{
    let ghost dm = spec_shapes(doms@);
    let meta_tag = to_chars("meta");
    let content_attr = to_chars("content");
    let property_attr = to_chars("property");
    let name_attr = to_chars("name");
    let og_prefix = to_chars("og:");
    let article_prefix = to_chars("article:");
    let product_prefix = to_chars("product:");
    let twitter_prefix = to_chars("twitter:");
    proof {
        reveal_strlit("meta");
        reveal_strlit("content");
        reveal_strlit("property");
        reveal_strlit("name");
        reveal_strlit("og:");
        reveal_strlit("article:");
        reveal_strlit("product:");
        reveal_strlit("twitter:");
    }
    let mut groups = MetaGroups { og: Vec::new(), twitter: Vec::new(), meta: Vec::new() };
    proof {
        assert(groups.model().og =~= spec_og_state(dm, 0).og);
        assert(groups.model().twitter =~= spec_og_state(dm, 0).twitter);
        assert(groups.model().meta =~= spec_og_state(dm, 0).meta);
    }
    let mut i: usize = 0;
    while i < doms.len()
        invariant
            i <= doms@.len(),
            dm == spec_shapes(doms@),
            meta_tag@ == "meta"@,
            content_attr@ == "content"@,
            property_attr@ == "property"@,
            name_attr@ == "name"@,
            og_prefix@ == "og:"@,
            article_prefix@ == "article:"@,
            product_prefix@ == "product:"@,
            twitter_prefix@ == "twitter:"@,
            groups.model() == spec_og_state(dm, i as int),
        decreases doms@.len() - i,
    {
        let ghost st = groups.model();
        let e = &doms[i];
        if e.has_tag(&meta_tag) {
            let content: Vec<char> = match e.attr(&content_attr) {
                Some(c) => to_chars(c.as_str()),
                None => Vec::new(),
            };
            if content.len() > 0 {
                match e.attr(&property_attr) {
                    Some(p) => {
                        let pc = to_chars(p.as_str());
                        if has_prefix(&pc, &og_prefix) {
                            let stripped = slice_chars(&pc, 3, pc.len());
                            og_insert(&mut groups.og, &stripped, &content);
                        } else if has_prefix(&pc, &article_prefix) || has_prefix(
                            &pc,
                            &product_prefix,
                        ) {
                            og_insert(&mut groups.og, &pc, &content);
                        }
                    },
                    None => {
                    },
                }
                match e.attr(&name_attr) {
                    Some(n) => {
                        let nc = to_chars(n.as_str());
                        if has_prefix(&nc, &twitter_prefix) {
                            let stripped = slice_chars(&nc, 8, nc.len());
                            og_insert(&mut groups.twitter, &stripped, &content);
                        }
                        if meta_allowed(&nc) {
                            map_set(&mut groups.meta, &nc, JsonValue::Str(from_chars(&content)));
                        }
                    },
                    None => {
                    },
                }
            }
            proof {
                if content@.len() == 0 {
                    match spec_attr(dm[i as int].attrs, "content"@) {
                        Some(c) => {
                            assert(c =~= content@);
                        },
                        None => {
                        },
                    }
                }
                assert(groups.model() == spec_og_step(st, dm[i as int]));
            }
        }
        i = i + 1;
    }
    groups
}

/// Whether a meta name is in the allow-list, executable.
pub fn meta_allowed(n: &Vec<char>) -> (r: bool)
    ensures
        r == spec_meta_allowed(n@),
{
    let d = to_chars("description");
    let k = to_chars("keywords");
    let a = to_chars("author");
    let rb = to_chars("robots");
    let v = to_chars("viewport");
    let g = to_chars("generator");
    let t = to_chars("theme-color");
    let c = to_chars("canonical");
    crate::json::eq_chars(n, &d) || crate::json::eq_chars(n, &k) || crate::json::eq_chars(n, &a)
        || crate::json::eq_chars(n, &rb) || crate::json::eq_chars(n, &v) || crate::json::eq_chars(
        n,
        &g,
    ) || crate::json::eq_chars(n, &t) || crate::json::eq_chars(n, &c)
}

/// The meta groups of an HTML document.
pub fn extract_opengraph(html: &str) -> (r: MetaGroups)
    ensures
        r.model() == spec_og_index(html@),
{
    let doms = dom_elements(html);
    og_index_of_dom(&doms)
}

} // verus!
