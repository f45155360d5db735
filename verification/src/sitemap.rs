//! Sitemap parsing and traversal.
//!
//! The XML tokeniser runs behind [`xml_events`]; the `<urlset>` /
//! `<sitemapindex>` state machine over the events is verified.  An entry
//! is pushed when its `</url>` or `</sitemap>` closes with a non-empty
//! `loc`; malformed XML ends the walk with one non-fatal error, keeping
//! what was already parsed.  [`SitemapCrawl`] holds the depth-bounded
//! recursive traversal: it decides which sitemap to fetch next and folds
//! fetched documents in, while the fetching itself stays with the caller.

use vstd::prelude::*;
use crate::chars::{spec_is_digit, is_digit, to_chars, from_chars};

verus! {

/// One XML event, as far as the sitemap machine reads it.
pub enum XmlEv {
    /// An opening tag, by name.
    Open(String),
    /// A closing tag, by name.
    Close(String),
    /// Text content, unescaped.
    Text(String),
    /// Anything else (self-closing tags, comments, declarations).
    Other,
}

/// Ghost mirror of an XML event.
pub enum XmlEvShape {
    Open(Seq<char>),
    Close(Seq<char>),
    Text(Seq<char>),
    Other,
}

impl XmlEv {
    /// The shape this event stands for.
    pub open spec fn shape(self) -> XmlEvShape {
        match self {
            XmlEv::Open(t) => XmlEvShape::Open(t@),
            XmlEv::Close(t) => XmlEvShape::Close(t@),
            XmlEv::Text(t) => XmlEvShape::Text(t@),
            XmlEv::Other => XmlEvShape::Other,
        }
    }
}

/// The event stream the XML tokeniser yields on a text, up to its end
/// or its first error.
pub uninterp spec fn spec_xml_events(x: Seq<char>) -> Seq<XmlEvShape>;

/// The tokeniser's error on a text, if the text is malformed.
pub uninterp spec fn spec_xml_error(x: Seq<char>) -> Option<Seq<char>>;

/// Relies on quick_xml's `Reader::read_event` with text trimming: the
/// events and the error are functions of the text alone; the stream
/// stops at the first error.
#[verifier::external_body]
fn xml_events(xml: &str) -> (r: (Vec<XmlEv>, Option<String>))
    ensures
        Seq::new(r.0@.len(), |i: int| r.0@[i].shape()) == spec_xml_events(xml@),
        match r.1 {
            Some(e) => spec_xml_error(xml@) == Some(e@),
            None => spec_xml_error(xml@) is None,
        },
{
    let mut reader = quick_xml::Reader::from_str(xml);
    reader.config_mut().trim_text(true);
    let mut evs: Vec<XmlEv> = Vec::new();
    loop {
        match reader.read_event() {
            Ok(quick_xml::events::Event::Eof) => return (evs, None),
            Ok(e) => evs.push(xml_ev_of(&e)),
            Err(e) => return (evs, Some(e.to_string())),
        }
    }
}

#[verifier::external_type_specification]
#[verifier::external_body]
pub struct ExEvent<'a>(quick_xml::events::Event<'a>);

/// Relies on the shape of `quick_xml::events::Event`: tag names and
/// unescaped text are carried, everything else is opaque.
#[verifier::external_body]
fn xml_ev_of(e: &quick_xml::events::Event<'_>) -> (r: XmlEv) {
    match e {
        quick_xml::events::Event::Start(s) => XmlEv::Open(s.name().as_ref().to_string()),
        quick_xml::events::Event::End(s) => XmlEv::Close(s.name().as_ref().to_string()),
        quick_xml::events::Event::Text(t) => XmlEv::Text(
            quick_xml::escape::unescape(t.xml10_content().as_ref()).map(
                |c| c.into_owned(),
            ).unwrap_or_default(),
        ),
        _ => XmlEv::Other,
    }
}

/// One page entry of a urlset.
pub struct SitemapEntry {
    pub url: String,
    pub lastmod: Option<String>,
    pub changefreq: Option<String>,
    /// The priority text, kept only when it reads as a decimal number.
    pub priority: Option<String>,
}

/// One child reference of a sitemap index.
pub struct SitemapIndexEntry {
    pub url: String,
    pub lastmod: Option<String>,
}

/// A parse or traversal result.
pub struct SitemapResult {
    pub urls: Vec<SitemapEntry>,
    pub sitemaps: Vec<SitemapIndexEntry>,
    pub errors: Vec<String>,
}

/// Ghost mirror of a page entry.
pub struct EntryShape {
    pub url: Seq<char>,
    pub lastmod: Option<Seq<char>>,
    pub changefreq: Option<Seq<char>>,
    pub priority: Option<Seq<char>>,
}

/// Ghost mirror of a child reference.
pub struct IndexEntryShape {
    pub url: Seq<char>,
    pub lastmod: Option<Seq<char>>,
}

/// Ghost mirror of a result.
pub struct ResultShape {
    pub urls: Seq<EntryShape>,
    pub sitemaps: Seq<IndexEntryShape>,
    pub errors: Seq<Seq<char>>,
}

/// Option of a string, viewed.
pub open spec fn spec_opt_str(o: Option<String>) -> Option<Seq<char>> {
    match o {
        Some(s) => Some(s@),
        None => None,
    }
}

impl SitemapEntry {
    /// The shape this entry stands for.
    pub open spec fn shape(self) -> EntryShape {
        EntryShape {
            url: self.url@,
            lastmod: spec_opt_str(self.lastmod),
            changefreq: spec_opt_str(self.changefreq),
            priority: spec_opt_str(self.priority),
        }
    }
}

impl SitemapIndexEntry {
    /// The shape this entry stands for.
    pub open spec fn shape(self) -> IndexEntryShape {
        IndexEntryShape { url: self.url@, lastmod: spec_opt_str(self.lastmod) }
    }
}

impl SitemapResult {
    /// The shape this result stands for.
    pub open spec fn shape(self) -> ResultShape {
        ResultShape {
            urls: Seq::new(self.urls@.len(), |i: int| self.urls@[i].shape()),
            sitemaps: Seq::new(self.sitemaps@.len(), |i: int| self.sitemaps@[i].shape()),
            errors: Seq::new(self.errors@.len(), |i: int| self.errors@[i]@),
        }
    }
}

/// The machine state while scanning events.
pub struct ScanState {
    pub cur_tag: Seq<char>,
    pub in_url: bool,
    pub in_sitemap: bool,
    pub url: Seq<char>,
    pub lastmod: Option<Seq<char>>,
    pub changefreq: Option<Seq<char>>,
    pub priority: Option<Seq<char>>,
    pub urls: Seq<EntryShape>,
    pub sitemaps: Seq<IndexEntryShape>,
}

/// The initial machine state.
pub open spec fn spec_scan_init() -> ScanState {
    ScanState {
        cur_tag: Seq::empty(),
        in_url: false,
        in_sitemap: false,
        url: Seq::empty(),
        lastmod: None,
        changefreq: None,
        priority: None,
        urls: Seq::empty(),
        sitemaps: Seq::empty(),
    }
}

/// Whether a text reads as a decimal number the way `str::parse::<f64>`
/// accepts it: an optional sign, then `inf`, `infinity` or `nan` in any
/// letter case, or digits with an optional point and an optional
/// exponent.
pub open spec fn spec_is_decimal(s: Seq<char>) -> bool {
    let t = if s.len() > 0 && (s[0] == '+' || s[0] == '-') {
        s.drop_first()
    } else {
        s
    };
    spec_is_decimal_body(t)
}

/// A case-insensitive ASCII letter match.
pub open spec fn spec_eq_ci(a: char, b: char) -> bool {
    a == b || (a as int) + 32 == b as int || a as int == (b as int) + 32
}

/// The keyword forms of a decimal: `inf`, `infinity`, `nan`.
pub open spec fn spec_is_decimal_keyword(t: Seq<char>) -> bool {
    ||| (t.len() == 3 && spec_eq_ci(t[0], 'i') && spec_eq_ci(t[1], 'n') && spec_eq_ci(t[2], 'f'))
    ||| (t.len() == 8 && spec_eq_ci(t[0], 'i') && spec_eq_ci(t[1], 'n') && spec_eq_ci(t[2], 'f')
        && spec_eq_ci(t[3], 'i') && spec_eq_ci(t[4], 'n') && spec_eq_ci(t[5], 'i') && spec_eq_ci(
        t[6],
        't',
    ) && spec_eq_ci(t[7], 'y'))
    ||| (t.len() == 3 && spec_eq_ci(t[0], 'n') && spec_eq_ci(t[1], 'a') && spec_eq_ci(t[2], 'n'))
}

/// The unsigned body of a decimal: keyword, or digits with an optional
/// point and exponent.
pub open spec fn spec_is_decimal_body(t: Seq<char>) -> bool {
    spec_is_decimal_keyword(t) || spec_is_mantissa_exp(t)
}

/// The first `e`/`E` at or after `from`, or the length.
pub open spec fn spec_find_exp_mark(t: Seq<char>, from: int) -> int
    decreases t.len() - from,
{
    if from < 0 || from >= t.len() {
        t.len() as int
    } else if t[from] == 'e' || t[from] == 'E' {
        from
    } else {
        spec_find_exp_mark(t, from + 1)
    }
}

/// The first `.` at or after `from`, or the length.
pub open spec fn spec_find_dot(t: Seq<char>, from: int) -> int
    decreases t.len() - from,
{
    if from < 0 || from >= t.len() {
        t.len() as int
    } else if t[from] == '.' {
        from
    } else {
        spec_find_dot(t, from + 1)
    }
}

/// Digits with an optional point up to the first `e`/`E`, then an
/// optional exponent.
pub open spec fn spec_is_mantissa_exp(t: Seq<char>) -> bool {
    &&& spec_is_mantissa(t.subrange(0, spec_find_exp_mark(t, 0)))
    &&& (spec_find_exp_mark(t, 0) < t.len() ==> spec_is_exponent(
        t.subrange(spec_find_exp_mark(t, 0) + 1, t.len() as int),
    ))
}

/// Every position but `d` holds a digit.
pub open spec fn spec_digits_but(m: Seq<char>, d: int) -> bool {
    forall|k: int| 0 <= k < m.len() && k != d ==> spec_is_digit(m[k])
}

/// Every position but the first point holds a digit, and at least one
/// digit is there.
pub open spec fn spec_is_mantissa(m: Seq<char>) -> bool {
    &&& spec_digits_but(m, spec_find_dot(m, 0))
    &&& m.len() > (if spec_find_dot(m, 0) == m.len() {
        0int
    } else {
        1int
    })
}

/// At least one character, all digits.
pub open spec fn spec_some_digits(b: Seq<char>) -> bool {
    b.len() > 0 && forall|k: int| 0 <= k < b.len() ==> spec_is_digit(b[k])
}

/// An optional sign, then at least one digit.
pub open spec fn spec_is_exponent(x: Seq<char>) -> bool {
    if x.len() > 0 && (x[0] == '+' || x[0] == '-') {
        spec_some_digits(x.drop_first())
    } else {
        spec_some_digits(x)
    }
}

/// One machine step.
pub open spec fn spec_scan_step(st: ScanState, ev: XmlEvShape) -> ScanState {
    match ev {
        XmlEvShape::Open(tag) => {
            let st1 = ScanState { cur_tag: tag, ..st };
            if tag == "url"@ {
                ScanState {
                    in_url: true,
                    url: Seq::empty(),
                    lastmod: None,
                    changefreq: None,
                    priority: None,
                    ..st1
                }
            } else if tag == "sitemap"@ {
                ScanState { in_sitemap: true, url: Seq::empty(), lastmod: None, ..st1 }
            } else {
                st1
            }
        },
        XmlEvShape::Close(tag) => {
            let st1 = if tag == "url"@ && st.in_url {
                if st.url.len() > 0 {
                    ScanState {
                        in_url: false,
                        urls: st.urls.push(
                            EntryShape {
                                url: st.url,
                                lastmod: st.lastmod,
                                changefreq: st.changefreq,
                                priority: st.priority,
                            },
                        ),
                        ..st
                    }
                } else {
                    ScanState { in_url: false, ..st }
                }
            } else if tag == "sitemap"@ && st.in_sitemap {
                if st.url.len() > 0 {
                    ScanState {
                        in_sitemap: false,
                        sitemaps: st.sitemaps.push(
                            IndexEntryShape { url: st.url, lastmod: st.lastmod },
                        ),
                        ..st
                    }
                } else {
                    ScanState { in_sitemap: false, ..st }
                }
            } else {
                st
            };
            ScanState { cur_tag: Seq::empty(), ..st1 }
        },
        XmlEvShape::Text(t) => {
            if st.in_url || st.in_sitemap {
                if st.cur_tag == "loc"@ {
                    ScanState { url: t, ..st }
                } else if st.cur_tag == "lastmod"@ {
                    ScanState { lastmod: Some(t), ..st }
                } else if st.cur_tag == "changefreq"@ && st.in_url {
                    ScanState { changefreq: Some(t), ..st }
                } else if st.cur_tag == "priority"@ && st.in_url {
                    ScanState {
                        priority: if spec_is_decimal(t) {
                            Some(t)
                        } else {
                            None
                        },
                        ..st
                    }
                } else {
                    st
                }
            } else {
                st
            }
        },
        XmlEvShape::Other => st,
    }
}

/// The machine run over the first `i` events.
pub open spec fn spec_scan_run(evs: Seq<XmlEvShape>, i: int) -> ScanState
    decreases i,
{
    if i <= 0 || i > evs.len() {
        spec_scan_init()
    } else {
        spec_scan_step(spec_scan_run(evs, i - 1), evs[i - 1])
    }
}

/// What parsing a sitemap text yields: the machine's entries over the
/// event stream, and the tokeniser's error, if any, as the one
/// non-fatal error.
pub open spec fn spec_parse_sitemap(x: Seq<char>) -> ResultShape {
    let st = spec_scan_run(spec_xml_events(x), spec_xml_events(x).len() as int);
    ResultShape {
        urls: st.urls,
        sitemaps: st.sitemaps,
        errors: match spec_xml_error(x) {
            Some(e) => seq!["XML parse error: "@ + e],
            None => Seq::empty(),
        },
    }
}

/// Whether a text reads as a decimal number, executable.
pub fn is_decimal(v: &Vec<char>) -> (r: bool)
    ensures
        r == spec_is_decimal(v@),
{
    let start: usize = if v.len() > 0 && (v[0] == '+' || v[0] == '-') {
        1
    } else {
        0
    };
    let ghost t = if v@.len() > 0 && (v@[0] == '+' || v@[0] == '-') {
        v@.drop_first()
    } else {
        v@
    };
    let body = crate::chars::slice_chars(v, start, v.len());
    proof {
        assert(body@ =~= t);
    }
    is_decimal_body(&body)
}

/// Whether an unsigned body reads as a decimal, executable.
fn is_decimal_body(t: &Vec<char>) -> (r: bool)
    ensures
        r == spec_is_decimal_body(t@),
{
    if is_decimal_keyword(t) {
        return true;
    }
    is_mantissa_exp(t)
}

/// The keyword forms, executable.
fn is_decimal_keyword(t: &Vec<char>) -> (r: bool)
    ensures
        r == spec_is_decimal_keyword(t@),
{
    if t.len() == 3 {
        (eq_ci(t[0], 'i') && eq_ci(t[1], 'n') && eq_ci(t[2], 'f')) || (eq_ci(t[0], 'n') && eq_ci(
            t[1],
            'a',
        ) && eq_ci(t[2], 'n'))
    } else if t.len() == 8 {
        eq_ci(t[0], 'i') && eq_ci(t[1], 'n') && eq_ci(t[2], 'f') && eq_ci(t[3], 'i') && eq_ci(
            t[4],
            'n',
        ) && eq_ci(t[5], 'i') && eq_ci(t[6], 't') && eq_ci(t[7], 'y')
    } else {
        false
    }
}

/// A case-insensitive ASCII letter match, executable.
fn eq_ci(a: char, b: char) -> (r: bool)
    ensures
        r == spec_eq_ci(a, b),
{
    let av = a as u32;
    let bv = b as u32;
    av == bv || av + 32 == bv || av == bv + 32
}

/// The mantissa-exponent form, executable.
fn is_mantissa_exp(t: &Vec<char>) -> (r: bool)
    ensures
        r == spec_is_mantissa_exp(t@),
{
    let mut e: usize = 0;
    while e < t.len() && !(t[e] == 'e' || t[e] == 'E')
        invariant
            e <= t@.len(),
            spec_find_exp_mark(t@, 0) == spec_find_exp_mark(t@, e as int),
        decreases t@.len() - e,
    {
        e = e + 1;
    }
    proof {
        assert(spec_find_exp_mark(t@, 0) == e as int);
    }
    let mantissa = crate::chars::slice_chars(t, 0, e);
    let man_ok = is_mantissa(&mantissa);
    if e < t.len() {
        let exponent = crate::chars::slice_chars(t, e + 1, t.len());
        man_ok && is_exponent(&exponent)
    } else {
        man_ok
    }
}

/// The mantissa form, executable.
fn is_mantissa(m: &Vec<char>) -> (r: bool)
    ensures
        r == spec_is_mantissa(m@),
{
    let mut d: usize = 0;
    while d < m.len() && m[d] != '.'
        invariant
            d <= m@.len(),
            spec_find_dot(m@, 0) == spec_find_dot(m@, d as int),
        decreases m@.len() - d,
    {
        d = d + 1;
    }
    proof {
        assert(spec_find_dot(m@, 0) == d as int);
    }
    let mut digits_ok = true;
    let mut k: usize = 0;
    while k < m.len()
        invariant
            k <= m@.len(),
            d <= m@.len(),
            digits_ok == (forall|i: int| 0 <= i < k && i != d ==> spec_is_digit(m@[i])),
        decreases m@.len() - k,
    {
        if k != d && !is_digit(m[k]) {
            if digits_ok {
                digits_ok = false;
            }
        }
        k = k + 1;
    }
    let enough: bool = if d == m.len() {
        m.len() > 0
    } else {
        m.len() > 1
    };
    proof {
        if digits_ok {
            assert(spec_digits_but(m@, d as int));
        } else {
            assert(!spec_digits_but(m@, d as int));
        }
    }
    digits_ok && enough
}

/// The exponent form, executable.
fn is_exponent(x: &Vec<char>) -> (r: bool)
    ensures
        r == spec_is_exponent(x@),
{
    let start: usize = if x.len() > 0 && (x[0] == '+' || x[0] == '-') {
        1
    } else {
        0
    };
    let ghost b = if x@.len() > 0 && (x@[0] == '+' || x@[0] == '-') {
        x@.drop_first()
    } else {
        x@
    };
    let body = crate::chars::slice_chars(x, start, x.len());
    proof {
        assert(body@ =~= b);
    }
    if body.len() == 0 {
        return false;
    }
    let mut k: usize = 0;
    while k < body.len()
        invariant
            k <= body@.len(),
            body@ == b,
            forall|i: int| 0 <= i < k ==> spec_is_digit(#[trigger] body@[i]),
        decreases body@.len() - k,
    {
        if !crate::chars::is_digit(body[k]) {
            proof {
                assert(!spec_is_digit(b[k as int]));
            }
            return false;
        }
        k = k + 1;
    }
    true
}

/// Parse one sitemap document: the verified machine over the tokeniser's
/// events.
pub fn parse_sitemap(xml: &str) -> (r: SitemapResult)
    ensures
        r.shape() == spec_parse_sitemap(xml@),
{
    let (evs, err) = xml_events(xml);
    let ghost em = spec_xml_events(xml@);
    let mut urls: Vec<SitemapEntry> = Vec::new();
    let mut sitemaps: Vec<SitemapIndexEntry> = Vec::new();
    let mut cur_tag: Vec<char> = Vec::new();
    let mut in_url = false;
    let mut in_sitemap = false;
    let mut url: Vec<char> = Vec::new();
    let mut lastmod: Option<String> = None;
    let mut changefreq: Option<String> = None;
    let mut priority: Option<String> = None;
    let url_tag = to_chars("url");
    let sitemap_tag = to_chars("sitemap");
    let loc_tag = to_chars("loc");
    let lastmod_tag = to_chars("lastmod");
    let changefreq_tag = to_chars("changefreq");
    let priority_tag = to_chars("priority");
    proof {
        reveal_strlit("url");
        reveal_strlit("sitemap");
        reveal_strlit("loc");
        reveal_strlit("lastmod");
        reveal_strlit("changefreq");
        reveal_strlit("priority");
    }
    proof {
        assert(cur_tag@ =~= Seq::<char>::empty());
        assert(url@ =~= Seq::<char>::empty());
        assert(Seq::new(urls@.len(), |k: int| urls@[k].shape()) =~= Seq::<EntryShape>::empty());
        assert(Seq::new(sitemaps@.len(), |k: int| sitemaps@[k].shape())
            =~= Seq::<IndexEntryShape>::empty());
    }
    let mut i: usize = 0;
    while i < evs.len()
        invariant
            i <= evs@.len(),
            em.len() == evs@.len(),
            forall|k: int| 0 <= k < evs@.len() ==> em[k] == evs@[k].shape(),
            url_tag@ == "url"@,
            sitemap_tag@ == "sitemap"@,
            loc_tag@ == "loc"@,
            lastmod_tag@ == "lastmod"@,
            changefreq_tag@ == "changefreq"@,
            priority_tag@ == "priority"@,
            spec_scan_run(em, i as int) == (ScanState {
                cur_tag: cur_tag@,
                in_url,
                in_sitemap,
                url: url@,
                lastmod: spec_opt_str(lastmod),
                changefreq: spec_opt_str(changefreq),
                priority: spec_opt_str(priority),
                urls: Seq::new(urls@.len(), |k: int| urls@[k].shape()),
                sitemaps: Seq::new(sitemaps@.len(), |k: int| sitemaps@[k].shape()),
            }),
        decreases evs@.len() - i,
    {
        let ghost st_before = spec_scan_run(em, i as int);
        match &evs[i] {
            XmlEv::Open(tag) => {
                let tc = to_chars(tag.as_str());
                cur_tag = tc;
                if crate::json::eq_chars(&cur_tag, &url_tag) {
                    in_url = true;
                    url = Vec::new();
                    lastmod = None;
                    changefreq = None;
                    priority = None;
                    proof {
                        assert(url@ =~= Seq::<char>::empty());
                    }
                } else if crate::json::eq_chars(&cur_tag, &sitemap_tag) {
                    in_sitemap = true;
                    url = Vec::new();
                    lastmod = None;
                    proof {
                        assert(url@ =~= Seq::<char>::empty());
                    }
                }
            },
            XmlEv::Close(tag) => {
                let tc = to_chars(tag.as_str());
                if crate::json::eq_chars(&tc, &url_tag) && in_url {
                    if url.len() > 0 {
                        let entry = SitemapEntry {
                            url: from_chars(&url),
                            lastmod: opt_clone(&lastmod),
                            changefreq: opt_clone(&changefreq),
                            priority: opt_clone(&priority),
                        };
                        urls.push(entry);
                    }
                    in_url = false;
                } else if crate::json::eq_chars(&tc, &sitemap_tag) && in_sitemap {
                    if url.len() > 0 {
                        let entry = SitemapIndexEntry {
                            url: from_chars(&url),
                            lastmod: opt_clone(&lastmod),
                        };
                        sitemaps.push(entry);
                    }
                    in_sitemap = false;
                }
                cur_tag = Vec::new();
                proof {
                    assert(cur_tag@ =~= Seq::<char>::empty());
                    assert(Seq::new(urls@.len(), |k: int| urls@[k].shape()) =~= spec_scan_step(
                        st_before,
                        em[i as int],
                    ).urls);
                    assert(Seq::new(sitemaps@.len(), |k: int| sitemaps@[k].shape())
                        =~= spec_scan_step(st_before, em[i as int]).sitemaps);
                }
            },
            XmlEv::Text(t) => {
                if in_url || in_sitemap {
                    if crate::json::eq_chars(&cur_tag, &loc_tag) {
                        url = to_chars(t.as_str());
                    } else if crate::json::eq_chars(&cur_tag, &lastmod_tag) {
                        lastmod = Some(clone_str(t));
                    } else if crate::json::eq_chars(&cur_tag, &changefreq_tag) && in_url {
                        changefreq = Some(clone_str(t));
                    } else if crate::json::eq_chars(&cur_tag, &priority_tag) && in_url {
                        let tc = to_chars(t.as_str());
                        priority = if is_decimal(&tc) {
                            Some(clone_str(t))
                        } else {
                            None
                        };
                    }
                }
            },
            XmlEv::Other => {
            },
        }
        proof {
            assert(spec_scan_run(em, i + 1) == (ScanState {
                cur_tag: cur_tag@,
                in_url,
                in_sitemap,
                url: url@,
                lastmod: spec_opt_str(lastmod),
                changefreq: spec_opt_str(changefreq),
                priority: spec_opt_str(priority),
                urls: Seq::new(urls@.len(), |k: int| urls@[k].shape()),
                sitemaps: Seq::new(sitemaps@.len(), |k: int| sitemaps@[k].shape()),
            }));
        }
        i = i + 1;
    }
    let mut errors: Vec<String> = Vec::new();
    match err {
        Some(e) => {
            let prefixed = String::from_str("XML parse error: ").concat(e.as_str());
            errors.push(prefixed);
        },
        None => {
        },
    }
    let r = SitemapResult { urls, sitemaps, errors };
    proof {
        assert(r.shape().urls =~= spec_parse_sitemap(xml@).urls);
        assert(r.shape().sitemaps =~= spec_parse_sitemap(xml@).sitemaps);
        assert(r.shape().errors =~= spec_parse_sitemap(xml@).errors);
    }
    r
}

/// Ghost mirror of a traversal in progress.
pub struct CrawlShape {
    pub pending: Seq<(Seq<char>, int)>,
    pub recursive: bool,
    pub max_depth: int,
    pub urls: Seq<EntryShape>,
    pub sitemaps: Seq<IndexEntryShape>,
    pub errors: Seq<Seq<char>>,
}

/// A depth-bounded sitemap traversal: the caller fetches what
/// [`SitemapCrawl::next_fetch`] asks for and hands the document (or the
/// failure) back; the traversal decides what to fetch next.  Child
/// sitemaps within the depth bound are queued depth-first; beyond the
/// bound, or without recursion, they are kept as residual references.
pub struct SitemapCrawl {
    /// Sitemaps still to fetch, with their depth; the next one is last.
    pub pending: Vec<(String, usize)>,
    pub recursive: bool,
    pub max_depth: usize,
    pub urls: Vec<SitemapEntry>,
    pub sitemaps: Vec<SitemapIndexEntry>,
    pub errors: Vec<String>,
}

impl SitemapCrawl {
    /// The shape this traversal stands for.
    pub open spec fn shape(self) -> CrawlShape {
        CrawlShape {
            pending: Seq::new(
                self.pending@.len(),
                |i: int| (self.pending@[i].0@, self.pending@[i].1 as int),
            ),
            recursive: self.recursive,
            max_depth: self.max_depth as int,
            urls: Seq::new(self.urls@.len(), |i: int| self.urls@[i].shape()),
            sitemaps: Seq::new(self.sitemaps@.len(), |i: int| self.sitemaps@[i].shape()),
            errors: Seq::new(self.errors@.len(), |i: int| self.errors@[i]@),
        }
    }

    /// Every queued fetch sits within the depth bound.
    pub open spec fn wf(self) -> bool {
        forall|i: int|
            0 <= i < self.shape().pending.len() ==> #[trigger] self.shape().pending[i].1
                <= self.shape().max_depth
    }

    /// A fresh traversal: the root sitemap at depth zero, nothing
    /// collected.
    pub fn new(url: &str, recursive: bool, max_depth: usize) -> (r: SitemapCrawl)
        ensures
            r.shape().pending =~= seq![(url@, 0int)],
            r.shape().recursive == recursive,
            r.shape().max_depth == max_depth as int,
            r.shape().urls =~= Seq::<EntryShape>::empty(),
            r.shape().sitemaps =~= Seq::<IndexEntryShape>::empty(),
            r.shape().errors =~= Seq::<Seq<char>>::empty(),
            r.wf(),
    {
        let mut pending: Vec<(String, usize)> = Vec::new();
        pending.push((String::from_str(url), 0));
        SitemapCrawl {
            pending,
            recursive,
            max_depth,
            urls: Vec::new(),
            sitemaps: Vec::new(),
            errors: Vec::new(),
        }
    }

    /// The next sitemap to fetch, with its depth; nothing when the
    /// traversal is complete.
    pub fn next_fetch(&mut self) -> (r: Option<(String, usize)>)
        ensures
            match r {
                Some(p) => old(self).shape().pending.len() > 0 && (p.0@, p.1 as int) == old(
                    self,
                ).shape().pending.last() && final(self).shape() == (CrawlShape {
                    pending: old(self).shape().pending.drop_last(),
                    ..old(self).shape()
                }),
                None => old(self).shape().pending.len() == 0 && final(self).shape() == old(
                    self,
                ).shape(),
            },
            old(self).wf() ==> final(self).wf(),
            match r {
                Some(p) => old(self).wf() ==> p.1 as int <= old(self).shape().max_depth,
                None => true,
            },
    {
        let ghost sh = self.shape();
        match self.pending.pop() {
            Some(p) => {
                proof {
                    assert(self.shape().pending =~~= sh.pending.drop_last());
                    assert(self.shape() == (CrawlShape { pending: sh.pending.drop_last(), ..sh }));
                    if old(self).wf() {
                        assert(sh.pending[sh.pending.len() - 1].1 <= sh.max_depth);
                        assert forall|i: int|
                            0 <= i < self.shape().pending.len() implies #[trigger] self.shape().pending[i].1
                            <= self.shape().max_depth by {
                            assert(self.shape().pending[i] == sh.pending[i]);
                            assert(sh.pending[i].1 <= sh.max_depth);
                        }
                    }
                }
                Some(p)
            },
            None => None,
        }
    }

    /// Record a fetch failure: one more non-fatal error.
    pub fn record_failure(&mut self, msg: String)
        ensures
            final(self).shape() == (CrawlShape {
                errors: old(self).shape().errors.push(msg@),
                ..old(self).shape()
            }),
            old(self).wf() ==> final(self).wf(),
    {
        let ghost sh = self.shape();
        self.errors.push(msg);
        proof {
            assert(self.shape().errors =~= sh.errors.push(self.errors@.last()@));
            assert(self.shape() == (CrawlShape { errors: sh.errors.push(self.errors@.last()@), ..sh }));
        }
    }

    /// Record a fetched sitemap document at `depth`: its page entries and
    /// errors are kept; child sitemaps are queued (depth-first) while the
    /// next depth stays within the bound, and kept as residual references
    /// otherwise.
    #[verifier::rlimit(60)]
    pub fn record_document(&mut self, depth: usize, xml: &str)
        ensures
            final(self).shape() == spec_record(old(self).shape(), depth as int, spec_parse_sitemap(xml@)),
            old(self).wf() ==> final(self).wf(),
    {
        let ghost sh = self.shape();
        let ghost p = spec_parse_sitemap(xml@);
        let parsed = parse_sitemap(xml);
        let mut parsed_urls = parsed.urls;
        let mut parsed_errors = parsed.errors;
        let parsed_maps = parsed.sitemaps;
        self.urls.append(&mut parsed_urls);
        self.errors.append(&mut parsed_errors);
        proof {
            assert(self.shape().urls =~= sh.urls + p.urls);
            assert(self.shape().errors =~= sh.errors + p.errors);
        }
        if self.recursive && depth < self.max_depth {
            let ghost pend0 = self.shape().pending;
            let mut k: usize = parsed_maps.len();
            while k > 0
                invariant
                    k <= parsed_maps@.len(),
                    p.sitemaps.len() == parsed_maps@.len(),
                    forall|i: int|
                        0 <= i < parsed_maps@.len() ==> p.sitemaps[i] == parsed_maps@[i].shape(),
                    depth < self.max_depth,
                    self.recursive == sh.recursive,
                    self.max_depth as int == sh.max_depth,
                    self.shape().urls == sh.urls + p.urls,
                    self.shape().errors == sh.errors + p.errors,
                    self.shape().sitemaps == sh.sitemaps,
                    self.shape().pending =~~= pend0 + Seq::new(
                        (parsed_maps@.len() - k) as nat,
                        |i: int| (p.sitemaps[parsed_maps@.len() - 1 - i].url, depth + 1int),
                    ),
                    pend0 == sh.pending,
                decreases k,
            {
                k = k - 1;
                let ghost before = self.shape().pending;
                let child = crate::json::clone_string(&parsed_maps[k].url);
                let ghost childv = child@;
                proof {
                    assert(p.sitemaps[k as int] == parsed_maps@[k as int].shape());
                    assert(childv == p.sitemaps[k as int].url);
                }
                self.pending.push((child, depth + 1));
                proof {
                    assert(self.shape().pending.len() == before.len() + 1);
                    assert forall|j: int| 0 <= j < before.len() implies self.shape().pending[j]
                        == before[j] by {
                    }
                    assert(self.shape().pending[before.len() as int] == (childv, depth + 1int));
                    assert(self.shape().pending =~~= before.push((childv, depth + 1int)));
                    assert(parsed_maps@.len() - 1 - (parsed_maps@.len() - k - 1) == k as int);
                    assert(before.push((childv, depth + 1int)) =~~= pend0 + Seq::new(
                        (parsed_maps@.len() - k) as nat,
                        |i: int| (p.sitemaps[parsed_maps@.len() - 1 - i].url, depth + 1int),
                    ));
                }
            }
            proof {
                assert(self.shape().pending =~~= sh.pending + spec_rev_children(
                    p.sitemaps,
                    depth + 1,
                ));
                assert(self.shape() == spec_record(sh, depth as int, p));
            }
        } else {
            let mut residual = parsed_maps;
            self.sitemaps.append(&mut residual);
            proof {
                assert(self.shape().sitemaps =~= sh.sitemaps + p.sitemaps);
                assert(self.shape() == spec_record(sh, depth as int, p));
            }
        }
    }
}

/// Child references queued depth-first: reversed, at the next depth.
pub open spec fn spec_rev_children(cs: Seq<IndexEntryShape>, d: int) -> Seq<(Seq<char>, int)> {
    Seq::new(cs.len(), |i: int| (cs[cs.len() - 1 - i].url, d))
}

/// The traversal step for one fetched document.
pub open spec fn spec_record(sh: CrawlShape, depth: int, p: ResultShape) -> CrawlShape {
    if sh.recursive && depth + 1 <= sh.max_depth {
        CrawlShape {
            urls: sh.urls + p.urls,
            errors: sh.errors + p.errors,
            pending: sh.pending + spec_rev_children(p.sitemaps, depth + 1),
            ..sh
        }
    } else {
        CrawlShape {
            urls: sh.urls + p.urls,
            errors: sh.errors + p.errors,
            sitemaps: sh.sitemaps + p.sitemaps,
            ..sh
        }
    }
}

/// The traversal state after its next fetch is taken.
pub open spec fn spec_after_pop(sh: CrawlShape) -> CrawlShape {
    CrawlShape { pending: sh.pending.drop_last(), ..sh }
}

/// The traversal of a fresh recursive crawl over a sitemap index with
/// two children, within the depth bound: fetch the root, then each
/// child in order.
pub open spec fn spec_two_child_run(
    sh0: CrawlShape,
    p_root: ResultShape,
    p1: ResultShape,
    p2: ResultShape,
) -> CrawlShape {
    spec_record(
        spec_after_pop(
            spec_record(spec_after_pop(spec_record(spec_after_pop(sh0), 0, p_root)), 1, p1),
        ),
        1,
        p2,
    )
}

/// A sitemap index with two child urlsets, crawled recursively within
/// the depth bound, yields the union of the children's pages in order
/// and no residual references: after the root the first child is
/// fetched, then the second, and then the traversal is complete.
pub proof fn lemma_two_child_traversal(
    sh0: CrawlShape,
    p_root: ResultShape,
    p1: ResultShape,
    p2: ResultShape,
)
    requires
        sh0.recursive,
        sh0.max_depth >= 1,
        sh0.pending.len() == 1,
        sh0.urls.len() == 0,
        sh0.sitemaps.len() == 0,
        p_root.urls.len() == 0,
        p_root.sitemaps.len() == 2,
        p1.sitemaps.len() == 0,
        p2.sitemaps.len() == 0,
    ensures
        spec_record(spec_after_pop(sh0), 0, p_root).pending.last() == (
            p_root.sitemaps[0].url,
            1int,
        ),
        spec_record(spec_after_pop(spec_record(spec_after_pop(sh0), 0, p_root)), 1, p1)
            .pending.last() == (p_root.sitemaps[1].url, 1int),
        spec_two_child_run(sh0, p_root, p1, p2).urls =~= p1.urls + p2.urls,
        spec_two_child_run(sh0, p_root, p1, p2).sitemaps =~= Seq::<IndexEntryShape>::empty(),
        spec_two_child_run(sh0, p_root, p1, p2).pending.len() == 0,
{
    let a = spec_record(spec_after_pop(sh0), 0, p_root);
    assert(a.pending =~= spec_rev_children(p_root.sitemaps, 1));
    assert(a.pending.len() == 2);
    assert(a.pending[1] == (p_root.sitemaps[0].url, 1int));
    assert(a.pending[0] == (p_root.sitemaps[1].url, 1int));
    let b = spec_record(spec_after_pop(a), 1, p1);
    if 2 <= sh0.max_depth {
        assert(b.pending =~= a.pending.drop_last() + spec_rev_children(p1.sitemaps, 2));
        assert(b.pending =~= a.pending.drop_last());
    } else {
        assert(b.pending =~= a.pending.drop_last());
        assert(b.sitemaps.len() == 0);
    }
    assert(b.pending.last() == (p_root.sitemaps[1].url, 1int));
    let c = spec_record(spec_after_pop(b), 1, p2);
    assert(c.urls =~= sh0.urls + p_root.urls + p1.urls + p2.urls);
    assert(c.urls =~= p1.urls + p2.urls);
    assert(c.sitemaps.len() == 0);
    assert(c.pending.len() == 0) by {
        if 2 <= sh0.max_depth {
            assert(c.pending =~= b.pending.drop_last() + spec_rev_children(p2.sitemaps, 2));
        } else {
            assert(c.pending =~= b.pending.drop_last());
        }
    }
}

/// A copy of an optional string.
fn opt_clone(o: &Option<String>) -> (r: Option<String>)
    ensures
        spec_opt_str(r) == (match o {
            Some(s) => Some(s@),
            None => None,
        }),
{
    match o {
        Some(s) => Some(crate::json::clone_string(s)),
        None => None,
    }
}

/// A copy of a string.
fn clone_str(s: &String) -> (r: String)
    ensures
        r@ == s@,
{
    crate::json::clone_string(s)
}

} // verus!
