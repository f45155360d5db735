//! JSON-LD indexing.
//!
//! Every `<script type="application/ld+json">` block is parsed as JSON;
//! blocks that fail to parse contribute nothing.  Each parsed value is
//! walked: arrays element-wise, objects through an `@graph` array first,
//! and every object with an `@type` is recorded under each of its
//! normalised type names.  The index maps each name to the non-empty list
//! of its objects in document order.

use vstd::prelude::*;
use crate::json::{JsonModel, JsonValue, spec_obj_get};
use crate::index::{IndexModel, TypedIndex, spec_index_insert, lemma_index_insert_nonempty};
use crate::dom::{ElemShape, ElemRec, spec_dom, spec_attr, dom_elements, spec_shapes};
use crate::jsonparse::{spec_json_parse, json_parse};
use crate::chars::{spec_has_prefix, has_prefix, to_chars, slice_chars};

verus! {

/// A schema.org type URL prefix is stripped; anything else is kept.
pub open spec fn spec_normalise_type(t: Seq<char>) -> Seq<char> {
    if spec_has_prefix(t, "https://schema.org/"@) {
        t.subrange("https://schema.org/"@.len() as int, t.len() as int)
    } else if spec_has_prefix(t, "http://schema.org/"@) {
        t.subrange("http://schema.org/"@.len() as int, t.len() as int)
    } else {
        t
    }
}

/// Normalisation of a type name, executable.
pub fn normalise_type(t: &Vec<char>) -> (r: Vec<char>)
    ensures
        r@ == spec_normalise_type(t@),
{
    let https = to_chars("https://schema.org/");
    let http = to_chars("http://schema.org/");
    if has_prefix(t, &https) {
        slice_chars(t, https.len(), t.len())
    } else if has_prefix(t, &http) {
        slice_chars(t, http.len(), t.len())
    } else {
        let mut r: Vec<char> = Vec::new();
        let mut i: usize = 0;
        while i < t.len()
            invariant
                i <= t@.len(),
                r@ == t@.subrange(0, i as int),
            decreases t@.len() - i,
        {
            r.push(t[i]);
            proof {
                assert(r@ =~= t@.subrange(0, i + 1));
            }
            i = i + 1;
        }
        proof {
            assert(r@ =~= t@);
        }
        r
    }
}

/// Stripping either schema.org prefix from a name gives the name back:
/// the two spellings of a schema URL normalise to the same bare type.
pub proof fn lemma_normalise_schema_prefix(t: Seq<char>)
    ensures
        spec_normalise_type("https://schema.org/"@ + t) == t,
        spec_normalise_type("http://schema.org/"@ + t) == t,
{
    reveal_strlit("https://schema.org/");
    reveal_strlit("http://schema.org/");
    let hs = "https://schema.org/"@;
    let h = "http://schema.org/"@;
    assert((hs + t).subrange(0, hs.len() as int) =~= hs);
    assert(spec_has_prefix(hs + t, hs));
    assert((hs + t).subrange(hs.len() as int, (hs + t).len() as int) =~= t);
    assert((h + t).subrange(0, h.len() as int) =~= h);
    assert(spec_has_prefix(h + t, h));
    if spec_has_prefix(h + t, hs) {
        assert((h + t).subrange(0, hs.len() as int)[4] == (h + t)[4]);
        assert((h + t)[4] == ':');
        assert(hs[4] == 's');
        assert(false);
    }
    assert((h + t).subrange(h.len() as int, (h + t).len() as int) =~= t);
}

/// The indexing key never depends on the schema URL's scheme: a string
/// `@type` under either spelling files its object under the bare type.
pub proof fn lemma_type_names_scheme_agnostic(t: Seq<char>)
    ensures
        spec_type_names(JsonModel::Str("http://schema.org/"@ + t)) == spec_type_names(
            JsonModel::Str("https://schema.org/"@ + t),
        ),
        spec_type_names(JsonModel::Str("http://schema.org/"@ + t)) == seq![t],
{
    lemma_normalise_schema_prefix(t);
    assert(spec_type_names(JsonModel::Str("http://schema.org/"@ + t)) =~= seq![t]);
    assert(spec_type_names(JsonModel::Str("https://schema.org/"@ + t)) =~= seq![t]);
}

/// The normalised names under which a `@type` value files an object:
/// a string gives its one name; an array gives the names of its string
/// elements, in order; anything else gives none.
pub open spec fn spec_type_names(tv: JsonModel) -> Seq<Seq<char>> {
    match tv {
        JsonModel::Str(s) => seq![spec_normalise_type(s)],
        JsonModel::Arr(a) => spec_str_names(a, a.len() as int),
        _ => Seq::empty(),
    }
}

/// The normalised names of the string elements among the first `i`.
pub open spec fn spec_str_names(a: Seq<JsonModel>, i: int) -> Seq<Seq<char>>
    decreases i,
{
    if i <= 0 || i > a.len() {
        Seq::empty()
    } else {
        match a[i - 1] {
            JsonModel::Str(s) => spec_str_names(a, i - 1).push(spec_normalise_type(s)),
            _ => spec_str_names(a, i - 1),
        }
    }
}

/// The `(type name, object)` emissions of one JSON-LD value, in document
/// order: `@graph` children first, recursively, then the object itself
/// under each of its type names; arrays element-wise.
pub open spec fn spec_typed_pairs(j: JsonModel) -> Seq<(Seq<char>, JsonModel)>
    decreases j, 2int,
{
    match j {
        JsonModel::Obj(fields) => {
            let graph_part = spec_graph_pairs(fields);
            let names = match spec_obj_get(fields, "@type"@) {
                Some(tv) => spec_type_names(tv),
                None => Seq::empty(),
            };
            graph_part + Seq::new(names.len(), |k: int| (names[k], j))
        },
        JsonModel::Arr(a) => spec_seq_pairs(a, a.len() as int),
        _ => Seq::empty(),
    }
}

/// The emissions of an object's `@graph` array, if its first field of
/// that name holds an array.
pub open spec fn spec_graph_pairs(fields: Seq<(Seq<char>, JsonModel)>) -> Seq<
    (Seq<char>, JsonModel),
>
    decreases fields, 1int,
{
    if fields.len() == 0 {
        Seq::empty()
    } else if fields[0].0 == "@graph"@ {
        match fields[0].1 {
            JsonModel::Arr(g) => spec_seq_pairs(g, g.len() as int),
            _ => Seq::empty(),
        }
    } else {
        spec_graph_pairs(fields.drop_first())
    }
}

/// The emissions of the first `i` elements of an array.
pub open spec fn spec_seq_pairs(a: Seq<JsonModel>, i: int) -> Seq<(Seq<char>, JsonModel)>
    decreases a, i,
{
    if i <= 0 || i > a.len() {
        Seq::empty()
    } else {
        spec_seq_pairs(a, i - 1) + spec_typed_pairs(a[i - 1])
    }
}

/// A pair stream folded into an index.
pub open spec fn spec_fold_pairs(m: IndexModel, ps: Seq<(Seq<char>, JsonModel)>, i: int) -> IndexModel
    decreases i,
{
    if i <= 0 || i > ps.len() {
        m
    } else {
        spec_index_insert(spec_fold_pairs(m, ps, i - 1), ps[i - 1].0, ps[i - 1].1)
    }
}

/// Folding pairs keeps every entry non-empty.
pub proof fn lemma_fold_pairs_nonempty(m: IndexModel, ps: Seq<(Seq<char>, JsonModel)>, i: int)
    requires
        forall|k: int| 0 <= k < m.len() ==> #[trigger] m[k].1.len() > 0,
    ensures
        forall|k: int|
            0 <= k < spec_fold_pairs(m, ps, i).len() ==> #[trigger] spec_fold_pairs(m, ps, i)[k].1.len()
                > 0,
    decreases i,
{
    if 0 < i && i <= ps.len() {
        lemma_fold_pairs_nonempty(m, ps, i - 1);
        lemma_index_insert_nonempty(spec_fold_pairs(m, ps, i - 1), ps[i - 1].0, ps[i - 1].1);
    }
}

/// Fold over a concatenation: the second stream continues where the
/// first ended.
pub proof fn lemma_fold_pairs_concat(m: IndexModel, a: Seq<(Seq<char>, JsonModel)>, b: Seq<(Seq<char>, JsonModel)>)
    ensures
        spec_fold_pairs(m, a + b, (a + b).len() as int) == spec_fold_pairs(
            spec_fold_pairs(m, a, a.len() as int),
            b,
            b.len() as int,
        ),
    decreases b.len(),
{
    if b.len() == 0 {
        assert(a + b =~= a);
    } else {
        lemma_fold_pairs_concat(m, a, b.drop_last());
        assert((a + b).drop_last() =~= a + b.drop_last());
        assert(spec_fold_pairs(m, a + b, (a + b).len() as int) == spec_index_insert(
            spec_fold_pairs(m, a + b.drop_last(), (a + b.drop_last()).len() as int),
            b.last().0,
            b.last().1,
        )) by {
            assert((a + b)[(a + b).len() - 1] == b.last());
            lemma_fold_pairs_prefix(m, a + b, a + b.drop_last());
        }
        lemma_fold_pairs_prefix(spec_fold_pairs(m, a, a.len() as int), b, b.drop_last());
        assert(spec_fold_pairs(spec_fold_pairs(m, a, a.len() as int), b, b.len() as int)
            == spec_index_insert(
            spec_fold_pairs(spec_fold_pairs(m, a, a.len() as int), b.drop_last(), b.drop_last().len() as int),
            b.last().0,
            b.last().1,
        ));
    }
}

/// A fold up to `p.len()` of a prefix agrees with the fold of the whole
/// stream up to the prefix length.
pub proof fn lemma_fold_pairs_prefix(m: IndexModel, ps: Seq<(Seq<char>, JsonModel)>, p: Seq<(Seq<char>, JsonModel)>)
    requires
        p.len() <= ps.len(),
        forall|k: int| 0 <= k < p.len() ==> ps[k] == p[k],
    ensures
        spec_fold_pairs(m, ps, p.len() as int) == spec_fold_pairs(m, p, p.len() as int),
    decreases p.len(),
{
    if p.len() > 0 {
        lemma_fold_pairs_prefix(m, ps, p.drop_last());
        lemma_fold_pairs_prefix(m, p, p.drop_last());
        assert(p.drop_last().len() == p.len() - 1);
    }
}

/// The fold of the name pairs of `j`: each of the first `i` names
/// inserted with `j`.
pub open spec fn spec_fold_names(m: IndexModel, names: Seq<Seq<char>>, j: JsonModel, i: int) -> IndexModel
    decreases i,
{
    if i <= 0 || i > names.len() {
        m
    } else {
        spec_index_insert(spec_fold_names(m, names, j, i - 1), names[i - 1], j)
    }
}

/// Folding names one by one is folding their pair stream.
pub proof fn lemma_fold_names_eq(m: IndexModel, names: Seq<Seq<char>>, j: JsonModel, i: int)
    requires
        i <= names.len(),
    ensures
        spec_fold_names(m, names, j, i) == spec_fold_pairs(
            m,
            Seq::new(names.len(), |k: int| (names[k], j)),
            i,
        ),
    decreases i,
{
    if i > 0 {
        lemma_fold_names_eq(m, names, j, i - 1);
    }
}

/// A names fold only reads the first `i` names.
pub proof fn lemma_fold_names_prefix(m: IndexModel, n1: Seq<Seq<char>>, n2: Seq<Seq<char>>, j: JsonModel, i: int)
    requires
        0 <= i <= n1.len(),
        i <= n2.len(),
        forall|k: int| 0 <= k < i ==> n1[k] == n2[k],
    ensures
        spec_fold_names(m, n1, j, i) == spec_fold_names(m, n2, j, i),
    decreases i,
{
    if i > 0 {
        lemma_fold_names_prefix(m, n1, n2, j, i - 1);
    }
}

/// The position of the first field named `key`, if any.
pub fn find_key(fields: &Vec<(String, JsonValue)>, key: &Vec<char>) -> (r: Option<usize>)
    ensures
        match r {
            Some(k) => (k as int) < fields@.len() && fields@[k as int].0@ == key@ && (forall|i: int|
                0 <= i < k ==> fields@[i].0@ != key@),
            None => forall|i: int| 0 <= i < fields@.len() ==> fields@[i].0@ != key@,
        },
{
    let mut k: usize = 0;
    while k < fields.len()
        invariant
            k <= fields@.len(),
            forall|i: int| 0 <= i < k ==> fields@[i].0@ != key@,
        decreases fields@.len() - k,
    {
        let name = to_chars(fields[k].0.as_str());
        if crate::json::eq_chars(&name, key) {
            return Some(k);
        }
        k = k + 1;
    }
    None
}

/// If no field before `k` is named `@graph` and field `k` is, the graph
/// emissions come from field `k`.
pub proof fn lemma_graph_pairs_hit(fields: Seq<(Seq<char>, JsonModel)>, k: int)
    requires
        0 <= k < fields.len(),
        forall|i: int| 0 <= i < k ==> fields[i].0 != "@graph"@,
        fields[k].0 == "@graph"@,
    ensures
        spec_graph_pairs(fields) == (match fields[k].1 {
            JsonModel::Arr(g) => spec_seq_pairs(g, g.len() as int),
            _ => Seq::empty(),
        }),
    decreases k,
{
    if k > 0 {
        lemma_graph_pairs_hit(fields.drop_first(), k - 1);
    }
}

/// If no field is named `@graph`, there are no graph emissions.
pub proof fn lemma_graph_pairs_none(fields: Seq<(Seq<char>, JsonModel)>)
    requires
        forall|i: int| 0 <= i < fields.len() ==> fields[i].0 != "@graph"@,
    ensures
        spec_graph_pairs(fields) == Seq::<(Seq<char>, JsonModel)>::empty(),
    decreases fields.len(),
{
    if fields.len() > 0 {
        lemma_graph_pairs_none(fields.drop_first());
    }
}

/// Record the emissions of `v` into `idx`, in document order.
pub fn collect_typed(v: &JsonValue, idx: &mut TypedIndex)
    ensures
        final(idx).model() == spec_fold_pairs(
            old(idx).model(),
            spec_typed_pairs(v.model()),
            spec_typed_pairs(v.model()).len() as int,
        ),
    decreases v,
{
    let ghost m0 = idx.model();
    let ghost jm = v.model();
    match v {
        JsonValue::Obj(fields) => {
            let ghost fm = jm->Obj_0;
            let graph_key = to_chars("@graph");
            proof {
                reveal_strlit("@graph");
            }
            match find_key(fields, &graph_key) {
                Some(gk) => {
                    proof {
                        assert(forall|i: int|
                            0 <= i < fields@.len() ==> fm[i] == (fields@[i].0@, fields@[i].1.model()));
                        lemma_graph_pairs_hit(fm, gk as int);
                    }
                    match &fields[gk].1 {
                        JsonValue::Arr(ga) => {
                            let ghost gm = fields@[gk as int].1.model()->Arr_0;
                            let mut t: usize = 0;
                            while t < ga.len()
                                invariant
                                    t <= ga@.len(),
                                    gm.len() == ga@.len(),
                                    forall|i: int| 0 <= i < ga@.len() ==> gm[i] == ga@[i].model(),
                                    idx.model() == spec_fold_pairs(
                                        m0,
                                        spec_seq_pairs(gm, t as int),
                                        spec_seq_pairs(gm, t as int).len() as int,
                                    ),
                                decreases ga@.len() - t,
                            {
                                collect_typed(&ga[t], idx);
                                proof {
                                    lemma_fold_pairs_concat(
                                        m0,
                                        spec_seq_pairs(gm, t as int),
                                        spec_typed_pairs(gm[t as int]),
                                    );
                                    assert(spec_seq_pairs(gm, t + 1) == spec_seq_pairs(gm, t as int)
                                        + spec_typed_pairs(gm[t as int]));
                                }
                                t = t + 1;
                            }
                        },
                        _ => {
                        },
                    }
                },
                None => {
                    proof {
                        assert(forall|i: int|
                            0 <= i < fields@.len() ==> fm[i] == (fields@[i].0@, fields@[i].1.model()));
                        lemma_graph_pairs_none(fm);
                    }
                },
            }
            proof {
                assert(idx.model() == spec_fold_pairs(
                    m0,
                    spec_graph_pairs(fm),
                    spec_graph_pairs(fm).len() as int,
                ));
            }
            let ghost m1 = idx.model();
            let type_key = to_chars("@type");
            proof {
                reveal_strlit("@type");
            }
            let ghost names = match spec_obj_get(fm, "@type"@) {
                Some(tv) => spec_type_names(tv),
                None => Seq::empty(),
            };
            match v.get_key(&type_key) {
                Some(tv) => {
                    match tv {
                        JsonValue::Str(s) => {
                            let sc = to_chars(s.as_str());
                            let name = normalise_type(&sc);
                            idx.insert(&name, v.duplicate());
                            proof {
                                assert(names =~= seq![spec_normalise_type(s@)]);
                                assert(spec_fold_names(m1, names, jm, 0) == m1);
                                assert(idx.model() == spec_fold_names(m1, names, jm, names.len() as int));
                            }
                        },
                        JsonValue::Arr(a) => {
                            let ghost am = tv.model()->Arr_0;
                            let mut t: usize = 0;
                            while t < a.len()
                                invariant
                                    t <= a@.len(),
                                    am.len() == a@.len(),
                                    forall|i: int| 0 <= i < a@.len() ==> am[i] == a@[i].model(),
                                    jm == v.model(),
                                    names == spec_type_names(tv.model()),
                                    tv.model() == JsonModel::Arr(am),
                                    idx.model() == spec_fold_names(
                                        m1,
                                        spec_str_names(am, t as int),
                                        jm,
                                        spec_str_names(am, t as int).len() as int,
                                    ),
                                decreases a@.len() - t,
                            {
                                match &a[t] {
                                    JsonValue::Str(s) => {
                                        let sc = to_chars(s.as_str());
                                        let name = normalise_type(&sc);
                                        idx.insert(&name, v.duplicate());
                                        proof {
                                            let prev = spec_str_names(am, t as int);
                                            let now = spec_str_names(am, t + 1);
                                            assert(now == prev.push(spec_normalise_type(s@)));
                                            lemma_fold_names_prefix(m1, prev, now, jm, prev.len() as int);
                                        }
                                    },
                                    _ => {
                                    },
                                }
                                t = t + 1;
                            }
                        },
                        _ => {
                            proof {
                                assert(names =~= Seq::<Seq<char>>::empty());
                            }
                        },
                    }
                },
                None => {
                    proof {
                        assert(names =~= Seq::<Seq<char>>::empty());
                    }
                },
            }
            proof {
                assert(idx.model() == spec_fold_names(m1, names, jm, names.len() as int));
                lemma_fold_names_eq(m1, names, jm, names.len() as int);
                lemma_fold_pairs_concat(
                    m0,
                    spec_graph_pairs(fm),
                    Seq::new(names.len(), |k2: int| (names[k2], jm)),
                );
                assert(spec_typed_pairs(jm) == spec_graph_pairs(fm) + Seq::new(
                    names.len(),
                    |k2: int| (names[k2], jm),
                ));
            }
        },
        JsonValue::Arr(a) => {
            let ghost am = jm->Arr_0;
            let mut t: usize = 0;
            while t < a.len()
                invariant
                    t <= a@.len(),
                    am.len() == a@.len(),
                    forall|i: int| 0 <= i < a@.len() ==> am[i] == a@[i].model(),
                    idx.model() == spec_fold_pairs(
                        m0,
                        spec_seq_pairs(am, t as int),
                        spec_seq_pairs(am, t as int).len() as int,
                    ),
                decreases a@.len() - t,
            {
                collect_typed(&a[t], idx);
                proof {
                    lemma_fold_pairs_concat(
                        m0,
                        spec_seq_pairs(am, t as int),
                        spec_typed_pairs(am[t as int]),
                    );
                    assert(spec_seq_pairs(am, t + 1) == spec_seq_pairs(am, t as int)
                        + spec_typed_pairs(am[t as int]));
                }
                t = t + 1;
            }
        },
        _ => {
        },
    }
}

/// The JSON-LD index over the first `i` elements of a document.
pub open spec fn spec_jsonld_blocks(doms: Seq<ElemShape>, i: int) -> IndexModel
    decreases i,
{
    if i <= 0 || i > doms.len() {
        Seq::empty()
    } else {
        let m = spec_jsonld_blocks(doms, i - 1);
        let e = doms[i - 1];
        if e.tag == "script"@ && spec_attr(e.attrs, "type"@) == Some("application/ld+json"@) {
            match spec_json_parse(e.text) {
                Some(j) => spec_fold_pairs(m, spec_typed_pairs(j), spec_typed_pairs(j).len() as int),
                None => m,
            }
        } else {
            m
        }
    }
}

/// The JSON-LD index of an HTML document.
pub open spec fn spec_jsonld_index(html: Seq<char>) -> IndexModel {
    spec_jsonld_blocks(spec_dom(html), spec_dom(html).len() as int)
}

/// The JSON-LD index over an already parsed element list.
pub fn jsonld_index_of_dom(doms: &Vec<ElemRec>) -> (r: TypedIndex)
    ensures
        r.model() == spec_jsonld_blocks(spec_shapes(doms@), doms@.len() as int),
{
    let ghost dm = spec_shapes(doms@);
    let script_tag = to_chars("script");
    let type_attr = to_chars("type");
    let ld_type = to_chars("application/ld+json");
    proof {
        reveal_strlit("script");
        reveal_strlit("type");
        reveal_strlit("application/ld+json");
    }
    let mut idx = TypedIndex::new();
    let mut i: usize = 0;
    while i < doms.len()
        invariant
            i <= doms@.len(),
            dm == spec_shapes(doms@),
            script_tag@ == "script"@,
            type_attr@ == "type"@,
            ld_type@ == "application/ld+json"@,
            idx.model() == spec_jsonld_blocks(dm, i as int),
        decreases doms@.len() - i,
    {
        if doms[i].has_tag(&script_tag) {
            let is_ld = match doms[i].attr(&type_attr) {
                Some(t) => {
                    let tc = to_chars(t.as_str());
                    crate::json::eq_chars(&tc, &ld_type)
                },
                None => false,
            };
            if is_ld {
                match json_parse(doms[i].text.as_str()) {
                    Some(parsed) => {
                        collect_typed(&parsed, &mut idx);
                    },
                    None => {
                    },
                }
            }
        }
        i = i + 1;
    }
    idx
}

/// The JSON-LD index of an HTML document: every type name maps to the
/// list of the document's objects of that type, in document order.
pub fn extract_jsonld_objects(html: &str) -> (r: TypedIndex)
    ensures
        r.model() == spec_jsonld_index(html@),
{
    let doms = dom_elements(html);
    jsonld_index_of_dom(&doms)
}

/// Every entry of a JSON-LD index holds at least one object: a type name
/// only exists because some object carried it.
pub proof fn lemma_jsonld_arrayification(doms: Seq<ElemShape>, i: int)
    ensures
        forall|k: int|
            0 <= k < spec_jsonld_blocks(doms, i).len() ==> #[trigger] spec_jsonld_blocks(doms, i)[k].1.len()
                > 0,
    decreases i,
{
    if 0 < i && i <= doms.len() {
        lemma_jsonld_arrayification(doms, i - 1);
        let m = spec_jsonld_blocks(doms, i - 1);
        let e = doms[i - 1];
        if e.tag == "script"@ && spec_attr(e.attrs, "type"@) == Some("application/ld+json"@) {
            match spec_json_parse(e.text) {
                Some(j) => {
                    lemma_fold_pairs_nonempty(m, spec_typed_pairs(j), spec_typed_pairs(j).len() as int);
                },
                None => {
                },
            }
        }
    }
}

} // verus!
