//! Element extraction, the unified path API, link harvesting, CSS
//! convenience lookups, and article extraction.

use vstd::prelude::*;
use crate::json::{JsonModel, JsonValue, eq_chars, clone_string, spec_obj_get};
use crate::dom::{
    ElemShape, spec_dom, spec_attr, spec_selected, dom_elements, select_indices, spec_shapes,
};
use crate::jsonparse::{spec_json_parse, json_parse};
use crate::jsvars::{spec_js_parse, spec_stmts_binds, script_bindings};
use crate::microdata::spec_obj_fields;
use crate::pathlang::{SegStyle, spec_nav, navigate, spec_parse_path, parse_path};
use crate::chars::{
    spec_trim, trim_chars, spec_has_prefix, has_prefix, to_chars, from_chars, slice_chars,
    spec_match_at, match_at,
};
use crate::extract::js_var_lookup;

verus! {

/// The last occurrence of ` @` in a selector, if any: the split between
/// a CSS selector and a bare attribute request.
pub open spec fn spec_rfind_at(s: Seq<char>) -> Option<int>
    decreases s.len(),
{
    if s.len() < 2 {
        None
    } else if spec_match_at(s, seq![' ', '@'], s.len() - 2) {
        Some(s.len() - 2)
    } else {
        spec_rfind_at(s.drop_last())
    }
}

/// The last occurrence of ` @`, executable.
pub fn rfind_at(v: &Vec<char>) -> (r: Option<usize>)
    ensures
        match r {
            Some(i) => spec_rfind_at(v@) == Some(i as int),
            None => spec_rfind_at(v@) is None,
        },
{
    proof {
        assert(v@.subrange(0, v@.len() as int) =~= v@);
    }
    let mut i: usize = v.len();
    let mut pat: Vec<char> = Vec::new();
    pat.push(' ');
    pat.push('@');
    proof {
        assert(pat@ =~= seq![' ', '@']);
    }
    while i >= 2
        invariant
            i <= v@.len(),
            pat@ == seq![' ', '@'],
            spec_rfind_at(v@) == spec_rfind_at(v@.subrange(0, i as int)),
        decreases i,
    {
        proof {
            assert(v@.subrange(0, i as int).drop_last() =~= v@.subrange(0, i - 1));
            assert(v@.subrange(0, i as int).subrange(i - 2, i as int) =~= v@.subrange(i - 2, i as int));
        }
        if match_at(v, &pat, i - 2) {
            proof {
                assert(spec_match_at(v@.subrange(0, i as int), pat@, i - 2));
            }
            return Some(i - 2);
        }
        proof {
            if spec_match_at(v@.subrange(0, i as int), pat@, i - 2) {
                assert(v@.subrange(i - 2, i as int) =~= v@.subrange(0, i as int).subrange(
                    i - 2,
                    i as int,
                ));
                assert(false);
            }
        }
        i = i - 1;
    }
    None
}

/// A found split lies two short of the end at most.
pub proof fn lemma_rfind_at_bounds(s: Seq<char>)
    ensures
        spec_rfind_at(s) matches Some(i) ==> 0 <= i && i + 2 <= s.len(),
    decreases s.len(),
{
    if s.len() >= 2 && !spec_match_at(s, seq![' ', '@'], s.len() - 2) {
        lemma_rfind_at_bounds(s.drop_last());
    }
}

/// The structured value of the first element a selector matches:
/// `selector @attr` yields that attribute as a string; a plain selector
/// yields `{text, html, attr}` with the trimmed text, the inner markup,
/// and every attribute.
pub open spec fn spec_extract_element(html: Seq<char>, selector: Seq<char>) -> Option<JsonModel> {
    match spec_rfind_at(selector) {
        Some(at) => {
            let css = spec_trim(selector.subrange(0, at));
            let attr = spec_trim(selector.skip(at + 2));
            match spec_selected(html, css) {
                Some(ms) => if ms.len() > 0 {
                    match spec_attr(spec_dom(html)[ms[0]].attrs, attr) {
                        Some(v) => Some(JsonModel::Str(v)),
                        None => None,
                    }
                } else {
                    None
                },
                None => None,
            }
        },
        None => {
            match spec_selected(html, selector) {
                Some(ms) => if ms.len() > 0 {
                    let e = spec_dom(html)[ms[0]];
                    Some(
                        JsonModel::Obj(
                            seq![
                                ("text"@, JsonModel::Str(spec_trim(e.text))),
                                ("html"@, JsonModel::Str(e.inner_html)),
                                ("attr"@, JsonModel::Obj(spec_attr_obj(e.attrs, e.attrs.len() as int))),
                            ],
                        ),
                    )
                } else {
                    None
                },
                None => None,
            }
        },
    }
}

/// The first `i` attributes as string fields.
pub open spec fn spec_attr_obj(attrs: Seq<(Seq<char>, Seq<char>)>, i: int) -> Seq<
    (Seq<char>, JsonModel),
>
    decreases i,
{
    if i <= 0 || i > attrs.len() {
        Seq::empty()
    } else {
        spec_attr_obj(attrs, i - 1).push((attrs[i - 1].0, JsonModel::Str(attrs[i - 1].1)))
    }
}

/// Element extraction, executable.
pub fn extract_element(html: &str, selector: &str) -> (r: Option<JsonValue>)
    ensures
        match r {
            Some(v) => spec_extract_element(html@, selector@) == Some(v.model()),
            None => spec_extract_element(html@, selector@) is None,
        },
{
    let sel = to_chars(selector);
    let n = sel.len();
    let doms = dom_elements(html);
    match rfind_at(&sel) {
        Some(at) => {
            proof {
                lemma_rfind_at_bounds(sel@);
            }
            let css_raw = slice_chars(&sel, 0, at);
            let css = trim_chars(&css_raw);
            let attr_raw = slice_chars(&sel, at + 2, n);
            let attr = trim_chars(&attr_raw);
            proof {
                assert(attr_raw@ =~= sel@.skip(at + 2));
            }
            let css_s = from_chars(&css);
            match select_indices(html, css_s.as_str()) {
                Some(ms) => {
                    if ms.len() > 0 {
                        let e = ms[0];
                        proof {
                            assert(spec_selected(html@, css@)->Some_0[0] == e as int);
                            assert(spec_shapes(doms@) == spec_dom(html@));
                        }
                        match doms[e].attr(&attr) {
                            Some(v) => Some(JsonValue::Str(clone_string(v))),
                            None => None,
                        }
                    } else {
                        None
                    }
                },
                None => None,
            }
        },
        None => {
            match select_indices(html, selector) {
                Some(ms) => {
                    if ms.len() > 0 {
                        let e = ms[0];
                        proof {
                            assert(spec_selected(html@, sel@)->Some_0[0] == e as int);
                            assert(spec_shapes(doms@) == spec_dom(html@));
                        }
                        let el = &doms[e];
                        let tc = to_chars(el.text.as_str());
                        let trimmed = trim_chars(&tc);
                        let mut attrs_obj: Vec<(String, JsonValue)> = Vec::new();
                        let ghost am = el.shape().attrs;
                        let mut k: usize = 0;
                        while k < el.attrs.len()
                            invariant
                                k <= el.attrs@.len(),
                                am == el.shape().attrs,
                                am.len() == el.attrs@.len(),
                                spec_obj_fields(attrs_obj@) == spec_attr_obj(am, k as int),
                            decreases el.attrs@.len() - k,
                        {
                            let name = clone_string(&el.attrs[k].0);
                            let val = clone_string(&el.attrs[k].1);
                            attrs_obj.push((name, JsonValue::Str(val)));
                            proof {
                                assert(spec_obj_fields(attrs_obj@) =~~= spec_attr_obj(am, k + 1));
                            }
                            k = k + 1;
                        }
                        let mut fields: Vec<(String, JsonValue)> = Vec::new();
                        fields.push((String::from_str("text"), JsonValue::Str(from_chars(&trimmed))));
                        fields.push((String::from_str("html"), JsonValue::Str(clone_string(&el.inner_html))));
                        fields.push((String::from_str("attr"), JsonValue::Obj(attrs_obj)));
                        proof {
                            reveal_strlit("text");
                            reveal_strlit("html");
                            reveal_strlit("attr");
                            assert(fields@.len() == 3);
                            assert(fields@[0].0@ == "text"@ && fields@[0].1.model() == JsonModel::Str(
                                spec_trim(el.shape().text),
                            ));
                            assert(fields@[1].0@ == "html"@ && fields@[1].1.model() == JsonModel::Str(
                                el.shape().inner_html,
                            ));
                            assert(fields@[2].0@ == "attr"@);
                            assert(fields@[2].1.model()->Obj_0 =~~= spec_attr_obj(am, am.len() as int));
                            assert(fields@[2].1.model() == JsonModel::Obj(
                                spec_attr_obj(am, am.len() as int),
                            ));
                        }
                        let rv = JsonValue::Obj(fields);
                        proof {
                            let ghost eshape = spec_dom(html@)[ms@[0] as int];
                            assert(eshape == el.shape());
                            assert(rv.model()->Obj_0 =~~= seq![
                                ("text"@, JsonModel::Str(spec_trim(eshape.text))),
                                ("html"@, JsonModel::Str(eshape.inner_html)),
                                (
                                    "attr"@,
                                    JsonModel::Obj(spec_attr_obj(eshape.attrs, eshape.attrs.len() as int)),
                                ),
                            ]);
                        }
                        Some(rv)
                    } else {
                        None
                    }
                },
                None => None,
            }
        },
    }
}

/// Path application after the raw value: with expansion the value must
/// be an array, whole without segments, element-wise (dropping misses)
/// with them; without expansion, plain navigation.
pub open spec fn spec_apply_path(j: JsonModel, expand: bool, segs: Seq<Seq<char>>) -> Option<
    JsonModel,
> {
    if expand {
        match j {
            JsonModel::Arr(arr) => if segs.len() == 0 {
                Some(JsonModel::Arr(arr))
            } else {
                Some(JsonModel::Arr(spec_map_nav(arr, segs, arr.len() as int)))
            },
            _ => None,
        }
    } else if segs.len() == 0 {
        Some(j)
    } else {
        spec_nav(j, segs, 0, SegStyle::IndexFirst)
    }
}

/// Navigation mapped over the first `i` elements, dropping misses.
pub open spec fn spec_map_nav(arr: Seq<JsonModel>, segs: Seq<Seq<char>>, i: int) -> Seq<JsonModel>
    decreases i,
{
    if i <= 0 || i > arr.len() {
        Seq::empty()
    } else {
        let prev = spec_map_nav(arr, segs, i - 1);
        match spec_nav(arr[i - 1], segs, 0, SegStyle::IndexFirst) {
            Some(v) => prev.push(v),
            None => prev,
        }
    }
}

/// Path application, executable.
pub fn apply_path(j: &JsonValue, expand: bool, segs: &Vec<Vec<char>>) -> (r: Option<JsonValue>)
    ensures
        match r {
            Some(v) => spec_apply_path(j.model(), expand, segs.deep_view()) == Some(v.model()),
            None => spec_apply_path(j.model(), expand, segs.deep_view()) is None,
        },
{
    let ghost sv = segs.deep_view();
    if expand {
        match j {
            JsonValue::Arr(arr) => {
                let ghost am = j.model()->Arr_0;
                if segs.len() == 0 {
                    let rv = j.duplicate();
                    proof {
                        assert(spec_apply_path(j.model(), expand, sv) == Some(j.model()));
                    }
                    Some(rv)
                } else {
                    let mut out: Vec<JsonValue> = Vec::new();
                    let mut i: usize = 0;
                    while i < arr.len()
                        invariant
                            i <= arr@.len(),
                            am.len() == arr@.len(),
                            forall|k: int| 0 <= k < arr@.len() ==> am[k] == arr@[k].model(),
                            sv == segs.deep_view(),
                            spec_map_nav(am, sv, i as int).len() == out@.len(),
                            forall|k: int|
                                0 <= k < out@.len() ==> out@[k].model() == spec_map_nav(
                                    am,
                                    sv,
                                    i as int,
                                )[k],
                        decreases arr@.len() - i,
                    {
                        let ghost prev = spec_map_nav(am, sv, i as int);
                        match navigate(&arr[i], segs, 0, &SegStyle::IndexFirst) {
                            Some(v) => {
                                out.push(v.duplicate());
                            },
                            None => {
                            },
                        }
                        proof {
                            assert(forall|k: int|
                                0 <= k < prev.len() ==> spec_map_nav(am, sv, i + 1)[k] == prev[k]);
                        }
                        i = i + 1;
                    }
                    let rv = JsonValue::Arr(out);
                    proof {
                        assert(rv.model()->Arr_0 =~= spec_map_nav(am, sv, am.len() as int));
                    }
                    Some(rv)
                }
            },
            _ => None,
        }
    } else if segs.len() == 0 {
        Some(j.duplicate())
    } else {
        match navigate(j, segs, 0, &SegStyle::IndexFirst) {
            Some(v) => Some(v.duplicate()),
            None => None,
        }
    }
}

/// The scan of matched scripts for a variable: the first script that
/// parses and binds the variable answers, through the path.
pub open spec fn spec_js_path_scan(
    doms: Seq<ElemShape>,
    ms: Seq<int>,
    i: int,
    var: Seq<char>,
    expand: bool,
    segs: Seq<Seq<char>>,
) -> Option<JsonModel>
    decreases ms.len() - i,
{
    if i < 0 || i >= ms.len() {
        None
    } else {
        let e = ms[i];
        let next = spec_js_path_scan(doms, ms, i + 1, var, expand, segs);
        if 0 <= e < doms.len() {
            match spec_js_parse(doms[e].text) {
                Some(stmts) => {
                    let binds = spec_stmts_binds(Seq::empty(), stmts, stmts.len() as int);
                    match spec_obj_get(binds, var) {
                        Some(j) => spec_apply_path(j, expand, segs),
                        None => next,
                    }
                },
                None => next,
            }
        } else {
            next
        }
    }
}

/// The value of a unified path over a document: selector, accessor and
/// modifiers per the path grammar; `$name` reads a JavaScript variable
/// from the matched scripts, other accessors read the element's text,
/// markup or attribute, parsing it as JSON when modifiers follow.
pub open spec fn spec_extract_path(html: Seq<char>, path: Seq<char>) -> Option<JsonModel> {
    match spec_parse_path(path) {
        None => None,
        Some(shape) => {
            let is_js = shape.accessor.len() > 0 && shape.accessor[0] == '$';
            if is_js {
                let effective = if shape.selector.len() == 0 {
                    "script"@
                } else {
                    shape.selector
                };
                match spec_selected(html, effective) {
                    Some(ms) => spec_js_path_scan(
                        spec_dom(html),
                        ms,
                        0,
                        shape.accessor.skip(1),
                        shape.expand,
                        shape.segs,
                    ),
                    None => None,
                }
            } else if shape.selector.len() == 0 {
                None
            } else {
                match spec_selected(html, shape.selector) {
                    Some(ms) => if ms.len() > 0 {
                        let e = spec_dom(html)[ms[0]];
                        let raw = if shape.accessor == "text"@ || shape.accessor == "innerText"@ {
                            Some(spec_trim(e.text))
                        } else if shape.accessor == "html"@ || shape.accessor == "innerHTML"@ {
                            Some(e.inner_html)
                        } else {
                            spec_attr(e.attrs, shape.accessor)
                        };
                        match raw {
                            Some(rawv) => if shape.segs.len() == 0 && !shape.expand {
                                Some(JsonModel::Str(rawv))
                            } else {
                                match spec_json_parse(rawv) {
                                    Some(j) => spec_apply_path(j, shape.expand, shape.segs),
                                    None => None,
                                }
                            },
                            None => None,
                        }
                    } else {
                        None
                    },
                    None => None,
                }
            }
        },
    }
}

/// The unified path API, executable.
pub fn extract_path(html: &str, path: &str) -> (r: Option<JsonValue>)
    ensures
        match r {
            Some(v) => spec_extract_path(html@, path@) == Some(v.model()),
            None => spec_extract_path(html@, path@) is None,
        },
{
    let pc = to_chars(path);
    let parsed = match parse_path(&pc) {
        Some(pp) => pp,
        None => {
            return None;
        },
    };
    let ghost shape = spec_parse_path(path@)->Some_0;
    let doms = dom_elements(html);
    proof {
        assert(spec_shapes(doms@) == spec_dom(html@));
    }
    let is_js = parsed.accessor.len() > 0 && parsed.accessor[0] == '$';
    if is_js {
        let effective: Vec<char> = if parsed.selector.len() == 0 {
            to_chars("script")
        } else {
            slice_chars(&parsed.selector, 0, parsed.selector.len())
        };
        proof {
            reveal_strlit("script");
            if shape.selector.len() == 0 {
                assert(effective@ =~= "script"@);
            } else {
                assert(effective@ =~= shape.selector);
            }
        }
        let eff_s = from_chars(&effective);
        let var = slice_chars(&parsed.accessor, 1, parsed.accessor.len());
        proof {
            assert(var@ =~= shape.accessor.skip(1));
        }
        match select_indices(html, eff_s.as_str()) {
            Some(ms) => {
                let ghost msm = spec_selected(html@, effective@)->Some_0;
                let mut i: usize = 0;
                while i < ms.len()
                    invariant
                        i <= ms@.len(),
                        msm.len() == ms@.len(),
                        forall|k: int| 0 <= k < ms@.len() ==> msm[k] == ms@[k] as int,
                        forall|k: int| 0 <= k < ms@.len() ==> (ms@[k] as int) < spec_dom(html@).len(),
                        spec_shapes(doms@) == spec_dom(html@),
                        var@ == shape.accessor.skip(1),
                        parsed.segs.deep_view() =~~= shape.segs,
                        parsed.expand == shape.expand,
                        spec_js_path_scan(
                            spec_dom(html@),
                            msm,
                            0,
                            var@,
                            parsed.expand,
                            shape.segs,
                        ) == spec_js_path_scan(
                            spec_dom(html@),
                            msm,
                            i as int,
                            var@,
                            parsed.expand,
                            shape.segs,
                        ),
                    decreases ms@.len() - i,
                {
                    let e = ms[i];
                    let mut binds: Vec<(String, JsonValue)> = Vec::new();
                    proof {
                        assert(spec_obj_fields(binds@) =~= Seq::<(Seq<char>, JsonModel)>::empty());
                    }
                    script_bindings(doms[e].text.as_str(), &mut binds);
                    let parsed_ok = crate::jsvars::parse_check(doms[e].text.as_str());
                    if parsed_ok {
                        match js_var_lookup(&binds, &var) {
                            Some(j) => {
                                return apply_path(j, parsed.expand, &parsed.segs);
                            },
                            None => {
                            },
                        }
                    }
                    i = i + 1;
                }
                None
            },
            None => None,
        }
    } else if parsed.selector.len() == 0 {
        None
    } else {
        let sel_s = from_chars(&parsed.selector);
        match select_indices(html, sel_s.as_str()) {
            Some(ms) => {
                if ms.len() > 0 {
                    let e = ms[0];
                    proof {
                        assert(spec_selected(html@, shape.selector)->Some_0[0] == e as int);
                    }
                    let el = &doms[e];
                    let text_kw = to_chars("text");
                    let inner_text_kw = to_chars("innerText");
                    let html_kw = to_chars("html");
                    let inner_html_kw = to_chars("innerHTML");
                    proof {
                        reveal_strlit("text");
                        reveal_strlit("innerText");
                        reveal_strlit("html");
                        reveal_strlit("innerHTML");
                    }
                    let raw: Option<Vec<char>> = if eq_chars(&parsed.accessor, &text_kw) || eq_chars(
                        &parsed.accessor,
                        &inner_text_kw,
                    ) {
                        let tc = to_chars(el.text.as_str());
                        Some(trim_chars(&tc))
                    } else if eq_chars(&parsed.accessor, &html_kw) || eq_chars(
                        &parsed.accessor,
                        &inner_html_kw,
                    ) {
                        Some(to_chars(el.inner_html.as_str()))
                    } else {
                        match el.attr(&parsed.accessor) {
                            Some(v) => Some(to_chars(v.as_str())),
                            None => None,
                        }
                    };
                    match raw {
                        Some(rawv) => {
                            if parsed.segs.len() == 0 && !parsed.expand {
                                Some(JsonValue::Str(from_chars(&rawv)))
                            } else {
                                let raw_s = from_chars(&rawv);
                                match json_parse(raw_s.as_str()) {
                                    Some(j) => {
                                        proof {
                                            assert(parsed.segs.deep_view() =~~= shape.segs);
                                        }
                                        apply_path(&j, parsed.expand, &parsed.segs)
                                    },
                                    None => None,
                                }
                            }
                        },
                        None => None,
                    }
                } else {
                    None
                }
            },
            None => None,
        }
    }
}

/// What resolving `href` against `base` yields: the absolute URL's text
/// and scheme, or nothing when either side is unusable.
pub uninterp spec fn spec_url_join(base: Seq<char>, href: Seq<char>) -> Option<(Seq<char>, Seq<char>)>;

/// Relies on `url::Url::parse` and `Url::join`: resolution is a function
/// of the two texts, failing when the base does not parse or the join is
/// invalid.
#[verifier::external_body]
fn url_join(base: &str, href: &str) -> (r: Option<(String, String)>)
    ensures
        match r {
            Some(p) => spec_url_join(base@, href@) == Some((p.0@, p.1@)),
            None => spec_url_join(base@, href@) is None,
        },
{
    let b = match url::Url::parse(base) {
        Ok(u) => u,
        Err(_) => return None,
    };
    match b.join(href) {
        Ok(u) => {
            let scheme = u.scheme().to_string();
            Some((u.to_string(), scheme))
        },
        Err(_) => None,
    }
}

/// Whether a trimmed href is skipped: empty, a `javascript:`, `mailto:`
/// or `tel:` pseudo-link, or a bare fragment.
pub open spec fn spec_href_skipped(h: Seq<char>) -> bool {
    ||| h.len() == 0
    ||| spec_has_prefix(h, "javascript:"@)
    ||| spec_has_prefix(h, "mailto:"@)
    ||| spec_has_prefix(h, "tel:"@)
    ||| (h.len() > 0 && h[0] == '#')
}

/// The absolute links of the matched elements from `i` on.
pub open spec fn spec_links_from(doms: Seq<ElemShape>, ms: Seq<int>, i: int, base: Seq<char>) -> Seq<
    Seq<char>,
>
    decreases ms.len() - i,
{
    if i < 0 || i >= ms.len() {
        Seq::empty()
    } else {
        let rest = spec_links_from(doms, ms, i + 1, base);
        if 0 <= ms[i] < doms.len() {
            match spec_attr(doms[ms[i]].attrs, "href"@) {
                Some(href) => {
                    let t = spec_trim(href);
                    if spec_href_skipped(t) {
                        rest
                    } else {
                        match spec_url_join(base, t) {
                            Some(p) => if p.1 == "http"@ || p.1 == "https"@ {
                                seq![p.0] + rest
                            } else {
                                rest
                            },
                            None => rest,
                        }
                    }
                },
                None => rest,
            }
        } else {
            rest
        }
    }
}

/// The absolute links an HTML document offers under a selector
/// (`a[href]` when empty), resolved against `base` and kept when their
/// scheme is `http` or `https`; pseudo-links and fragments are skipped.
/// An unparsable base or a malformed selector yields no links.
pub open spec fn spec_extract_links(html: Seq<char>, selector: Seq<char>, base: Seq<char>) -> Seq<
    Seq<char>,
> {
    let sel = if selector.len() == 0 {
        "a[href]"@
    } else {
        selector
    };
    match spec_selected(html, sel) {
        Some(ms) => spec_links_from(spec_dom(html), ms, 0, base),
        None => Seq::empty(),
    }
}

/// Link harvesting, executable.
pub fn extract_links(html: &str, selector: &str, base_url: &str) -> (r: Vec<String>)
    ensures
        Seq::new(r@.len(), |j: int| if 0 <= j < r@.len() { r@[j]@ } else { Seq::empty() })
            =~= spec_extract_links(html@, selector@, base_url@),
{
    let selc = to_chars(selector);
    let effective: Vec<char> = if selc.len() == 0 {
        to_chars("a[href]")
    } else {
        slice_chars(&selc, 0, selc.len())
    };
    proof {
        reveal_strlit("a[href]");
        reveal_strlit("href");
        reveal_strlit("http");
        reveal_strlit("https");
        if selc@.len() == 0 {
            assert(effective@ =~= "a[href]"@);
        } else {
            assert(effective@ =~= selector@);
        }
    }
    let doms = dom_elements(html);
    let eff_s = from_chars(&effective);
    let href_attr = to_chars("href");
    let http_s = to_chars("http");
    let https_s = to_chars("https");
    let mut out: Vec<String> = Vec::new();
    match select_indices(html, eff_s.as_str()) {
        Some(ms) => {
            let ghost msm = spec_selected(html@, effective@)->Some_0;
            let ghost dm = spec_dom(html@);
            proof {
                assert(spec_shapes(doms@) == dm);
            }
            let mut i: usize = ms.len();
            while i > 0
                invariant
                    i <= ms@.len(),
                    msm.len() == ms@.len(),
                    forall|k: int| 0 <= k < ms@.len() ==> msm[k] == ms@[k] as int,
                    forall|k: int| 0 <= k < ms@.len() ==> (ms@[k] as int) < dm.len(),
                    dm == spec_shapes(doms@),
                    href_attr@ == "href"@,
                    http_s@ == "http"@,
                    https_s@ == "https"@,
                    Seq::new(out@.len(), |j: int| if 0 <= j < out@.len() { out@[j]@ } else { Seq::empty() })
                        =~= spec_links_from(dm, msm, i as int, base_url@),
                decreases i,
            {
                i = i - 1;
                let e = ms[i];
                let ghost before = spec_links_from(dm, msm, i + 1, base_url@);
                match doms[e].attr(&href_attr) {
                    Some(href) => {
                        let hc = to_chars(href.as_str());
                        let t = trim_chars(&hc);
                        if href_skipped(&t) {
                        } else {
                            let t_s = from_chars(&t);
                            match url_join(base_url, t_s.as_str()) {
                                Some(p) => {
                                    let scheme_c = to_chars(p.1.as_str());
                                    if eq_chars(&scheme_c, &http_s) || eq_chars(&scheme_c, &https_s) {
                                        out.insert(0, p.0);
                                    }
                                },
                                None => {
                                },
                            }
                        }
                    },
                    None => {
                    },
                }
                proof {
                    assert(Seq::new(
                        out@.len(),
                        |j: int| if 0 <= j < out@.len() { out@[j]@ } else { Seq::empty() },
                    ) =~= spec_links_from(dm, msm, i as int, base_url@));
                }
            }
        },
        None => {
        },
    }
    out
}

/// Whether a trimmed href is skipped, executable.
fn href_skipped(h: &Vec<char>) -> (r: bool)
    ensures
        r == spec_href_skipped(h@),
{
    proof {
        reveal_strlit("javascript:");
        reveal_strlit("mailto:");
        reveal_strlit("tel:");
    }
    if h.len() == 0 {
        return true;
    }
    let js = to_chars("javascript:");
    let mailto = to_chars("mailto:");
    let tel = to_chars("tel:");
    has_prefix(h, &js) || has_prefix(h, &mailto) || has_prefix(h, &tel) || h[0] == '#'
}

/// The outer markup of every element a selector matches; a malformed
/// selector matches nothing.
pub open spec fn spec_css_outer(doms: Seq<ElemShape>, ms: Seq<int>, i: int) -> Seq<Seq<char>>
    decreases i,
{
    if i <= 0 || i > ms.len() {
        Seq::empty()
    } else {
        let prev = spec_css_outer(doms, ms, i - 1);
        if 0 <= ms[i - 1] < doms.len() {
            prev.push(doms[ms[i - 1]].outer_html)
        } else {
            prev
        }
    }
}

/// The trimmed text of every element a selector matches.
pub open spec fn spec_css_texts(doms: Seq<ElemShape>, ms: Seq<int>, i: int) -> Seq<Seq<char>>
    decreases i,
{
    if i <= 0 || i > ms.len() {
        Seq::empty()
    } else {
        let prev = spec_css_texts(doms, ms, i - 1);
        if 0 <= ms[i - 1] < doms.len() {
            prev.push(spec_trim(doms[ms[i - 1]].text))
        } else {
            prev
        }
    }
}

/// The named attribute of every element a selector matches that has it.
pub open spec fn spec_css_attrs(doms: Seq<ElemShape>, ms: Seq<int>, i: int, name: Seq<char>) -> Seq<
    Seq<char>,
>
    decreases i,
{
    if i <= 0 || i > ms.len() {
        Seq::empty()
    } else {
        let prev = spec_css_attrs(doms, ms, i - 1, name);
        if 0 <= ms[i - 1] < doms.len() {
            match spec_attr(doms[ms[i - 1]].attrs, name) {
                Some(v) => prev.push(v),
                None => prev,
            }
        } else {
            prev
        }
    }
}

/// The outer markup of every matched element.
pub fn extract_css(html: &str, selector: &str) -> (r: Vec<String>)
    ensures
        Seq::new(r@.len(), |j: int| if 0 <= j < r@.len() { r@[j]@ } else { Seq::empty() })
            =~= (match spec_selected(html@, selector@) {
            Some(ms) => spec_css_outer(spec_dom(html@), ms, ms.len() as int),
            None => Seq::empty(),
        }),
{
    let doms = dom_elements(html);
    let mut out: Vec<String> = Vec::new();
    match select_indices(html, selector) {
        Some(ms) => {
            let ghost msm = spec_selected(html@, selector@)->Some_0;
            let ghost dm = spec_dom(html@);
            proof {
                assert(spec_shapes(doms@) == dm);
            }
            let mut i: usize = 0;
            while i < ms.len()
                invariant
                    i <= ms@.len(),
                    msm.len() == ms@.len(),
                    forall|k: int| 0 <= k < ms@.len() ==> msm[k] == ms@[k] as int,
                    forall|k: int| 0 <= k < ms@.len() ==> (ms@[k] as int) < dm.len(),
                    dm == spec_shapes(doms@),
                    Seq::new(out@.len(), |j: int| if 0 <= j < out@.len() { out@[j]@ } else { Seq::empty() })
                        =~= spec_css_outer(dm, msm, i as int),
                decreases ms@.len() - i,
            {
                out.push(clone_string(&doms[ms[i]].outer_html));
                proof {
                    assert(Seq::new(
                        out@.len(),
                        |j: int| if 0 <= j < out@.len() { out@[j]@ } else { Seq::empty() },
                    ) =~= spec_css_outer(dm, msm, i + 1));
                }
                i = i + 1;
            }
        },
        None => {
        },
    }
    out
}

/// The trimmed text of every matched element.
pub fn extract_css_text(html: &str, selector: &str) -> (r: Vec<String>)
    ensures
        Seq::new(r@.len(), |j: int| if 0 <= j < r@.len() { r@[j]@ } else { Seq::empty() })
            =~= (match spec_selected(html@, selector@) {
            Some(ms) => spec_css_texts(spec_dom(html@), ms, ms.len() as int),
            None => Seq::empty(),
        }),
{
    let doms = dom_elements(html);
    let mut out: Vec<String> = Vec::new();
    match select_indices(html, selector) {
        Some(ms) => {
            let ghost msm = spec_selected(html@, selector@)->Some_0;
            let ghost dm = spec_dom(html@);
            proof {
                assert(spec_shapes(doms@) == dm);
            }
            let mut i: usize = 0;
            while i < ms.len()
                invariant
                    i <= ms@.len(),
                    msm.len() == ms@.len(),
                    forall|k: int| 0 <= k < ms@.len() ==> msm[k] == ms@[k] as int,
                    forall|k: int| 0 <= k < ms@.len() ==> (ms@[k] as int) < dm.len(),
                    dm == spec_shapes(doms@),
                    Seq::new(out@.len(), |j: int| if 0 <= j < out@.len() { out@[j]@ } else { Seq::empty() })
                        =~= spec_css_texts(dm, msm, i as int),
                decreases ms@.len() - i,
            {
                let tc = to_chars(doms[ms[i]].text.as_str());
                let t = trim_chars(&tc);
                out.push(from_chars(&t));
                proof {
                    assert(Seq::new(
                        out@.len(),
                        |j: int| if 0 <= j < out@.len() { out@[j]@ } else { Seq::empty() },
                    ) =~= spec_css_texts(dm, msm, i + 1));
                }
                i = i + 1;
            }
        },
        None => {
        },
    }
    out
}

/// The named attribute of every matched element that has it.
pub fn extract_css_attr(html: &str, selector: &str, attr_name: &str) -> (r: Vec<String>)
    ensures
        Seq::new(r@.len(), |j: int| if 0 <= j < r@.len() { r@[j]@ } else { Seq::empty() })
            =~= (match spec_selected(html@, selector@) {
            Some(ms) => spec_css_attrs(spec_dom(html@), ms, ms.len() as int, attr_name@),
            None => Seq::empty(),
        }),
{
    let doms = dom_elements(html);
    let name = to_chars(attr_name);
    let mut out: Vec<String> = Vec::new();
    match select_indices(html, selector) {
        Some(ms) => {
            let ghost msm = spec_selected(html@, selector@)->Some_0;
            let ghost dm = spec_dom(html@);
            proof {
                assert(spec_shapes(doms@) == dm);
            }
            let mut i: usize = 0;
            while i < ms.len()
                invariant
                    i <= ms@.len(),
                    msm.len() == ms@.len(),
                    forall|k: int| 0 <= k < ms@.len() ==> msm[k] == ms@[k] as int,
                    forall|k: int| 0 <= k < ms@.len() ==> (ms@[k] as int) < dm.len(),
                    dm == spec_shapes(doms@),
                    name@ == attr_name@,
                    Seq::new(out@.len(), |j: int| if 0 <= j < out@.len() { out@[j]@ } else { Seq::empty() })
                        =~= spec_css_attrs(dm, msm, i as int, attr_name@),
                decreases ms@.len() - i,
            {
                match doms[ms[i]].attr(&name) {
                    Some(v) => {
                        out.push(clone_string(v));
                    },
                    None => {
                    },
                }
                proof {
                    assert(Seq::new(
                        out@.len(),
                        |j: int| if 0 <= j < out@.len() { out@[j]@ } else { Seq::empty() },
                    ) =~= spec_css_attrs(dm, msm, i + 1, attr_name@));
                }
                i = i + 1;
            }
        },
        None => {
        },
    }
    out
}

/// The trimmed text of the first matched element, if any.
pub fn extract_css_first_text(html: &str, selector: &str) -> (r: Option<String>)
    ensures
        match r {
            Some(s) => {
                &&& spec_selected(html@, selector@) matches Some(ms)
                &&& ms.len() > 0
                &&& s@ == spec_trim(spec_dom(html@)[ms[0]].text)
            },
            None => (match spec_selected(html@, selector@) {
                Some(ms) => ms.len() == 0,
                None => true,
            }),
        },
{
    let doms = dom_elements(html);
    match select_indices(html, selector) {
        Some(ms) => {
            if ms.len() > 0 {
                proof {
                    assert(spec_selected(html@, selector@)->Some_0[0] == ms@[0] as int);
                    assert(spec_shapes(doms@) == spec_dom(html@));
                }
                let tc = to_chars(doms[ms[0]].text.as_str());
                let t = trim_chars(&tc);
                Some(from_chars(&t))
            } else {
                None
            }
        },
        None => None,
    }
}

/// The named attribute of the first matched element, if present.
pub fn extract_css_first_attr(html: &str, selector: &str, attr_name: &str) -> (r: Option<String>)
    ensures
        match r {
            Some(s) => {
                &&& spec_selected(html@, selector@) matches Some(ms)
                &&& ms.len() > 0
                &&& spec_attr(spec_dom(html@)[ms[0]].attrs, attr_name@) == Some(s@)
            },
            None => (match spec_selected(html@, selector@) {
                Some(ms) => ms.len() == 0 || spec_attr(
                    spec_dom(html@)[ms[0]].attrs,
                    attr_name@,
                ) is None,
                None => true,
            }),
        },
{
    let doms = dom_elements(html);
    let name = to_chars(attr_name);
    match select_indices(html, selector) {
        Some(ms) => {
            if ms.len() > 0 {
                proof {
                    assert(spec_selected(html@, selector@)->Some_0[0] == ms@[0] as int);
                    assert(spec_shapes(doms@) == spec_dom(html@));
                }
                match doms[ms[0]].attr(&name) {
                    Some(v) => Some(clone_string(v)),
                    None => None,
                }
            } else {
                None
            }
        },
        None => None,
    }
}

/// What article extraction yields on a document and URL: title, content
/// markup and plain text, or nothing when extraction fails.
pub uninterp spec fn spec_readability(html: Seq<char>, url: Seq<char>) -> Option<
    (Seq<char>, Seq<char>, Seq<char>),
>;

/// Relies on `readability::extractor::extract` (and `url::Url::parse`
/// with a fixed fallback base): the product is a function of the
/// document and URL texts.
#[verifier::external_body]
fn readability_extract(html: &str, url: &str) -> (r: Option<(String, String, String)>)
    ensures
        match r {
            Some(p) => spec_readability(html@, url@) == Some((p.0@, p.1@, p.2@)),
            None => spec_readability(html@, url@) is None,
        },
{
    let u = match url::Url::parse(url).or_else(|_| url::Url::parse("http://example.com")) {
        Ok(u) => u,
        Err(_) => return None,
    };
    let mut cursor = std::io::Cursor::new(html.as_bytes().to_vec());
    readability::extractor::extract(&mut cursor, &u).ok().map(|p| (p.title, p.content, p.text))
}

/// An extracted article: title, content markup, plain text, the text's
/// byte length, and a short excerpt.
pub struct ReadabilityResult {
    pub title: String,
    pub content: String,
    pub text_content: String,
    pub length: usize,
    pub excerpt: String,
}

/// Article extraction: the readability product, with the text's byte
/// length and an excerpt of the first two hundred characters, marked
/// with an ellipsis when the text's byte length runs past two hundred.
/// A failed extraction yields empty fields.
pub fn extract_readability(html: &str, url: &str) -> (r: ReadabilityResult)
    ensures
        match spec_readability(html@, url@) {
            Some(p) => {
                &&& r.title@ == p.0
                &&& r.content@ == p.1
                &&& r.text_content@ == p.2
                &&& vstd::utf8::encode_utf8(p.2).len() <= usize::MAX ==> r.length
                    == vstd::utf8::encode_utf8(p.2).len()
                &&& r.excerpt@ == (p.2.take(
                    if p.2.len() < 200 {
                        p.2.len() as int
                    } else {
                        200
                    },
                ) + (if r.length > 200 {
                    "..."@
                } else {
                    Seq::empty()
                }))
            },
            None => {
                &&& r.title@.len() == 0
                &&& r.content@.len() == 0
                &&& r.text_content@.len() == 0
                &&& r.excerpt@.len() == 0
            },
        },
{
    match readability_extract(html, url) {
        Some(p) => {
            let text = p.2;
            let byte_len = text.as_str().len();
            let tc = to_chars(text.as_str());
            let keep: usize = if tc.len() < 200 {
                tc.len()
            } else {
                200
            };
            let head = slice_chars(&tc, 0, keep);
            let mut excerpt = from_chars(&head);
            if byte_len > 200 {
                excerpt.append("...");
            }
            proof {
                reveal_strlit("...");
                if byte_len <= 200 {
                    assert(excerpt@ =~= head@ + Seq::<char>::empty());
                }
            }
            ReadabilityResult {
                title: p.0,
                content: p.1,
                text_content: text,
                length: byte_len,
                excerpt,
            }
        },
        None => {
            let r = ReadabilityResult {
                title: String::new(),
                content: String::new(),
                text_content: String::new(),
                length: 0,
                excerpt: String::new(),
            };
            r
        },
    }
}

/// Whether a text's UTF-8 byte count exceeds `n`.
pub open spec fn spec_str_bytes_over(s: Seq<char>, n: int) -> bool {
    vstd::utf8::encode_utf8(s).len() > n
}

} // verus!
