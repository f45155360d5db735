//! robots.txt evaluation and caching.
//!
//! Allow-ness is answered by the robots-exclusion matcher behind
//! [`robots_allowed`]; the `Crawl-delay` and `Sitemap:` directives are
//! read by verified line scans.  The cache keys entries by lowercased
//! host and holds them for an hour: [`RobotsCache::fresh_entry`] answers
//! from a fresh entry or asks the caller to fetch, and
//! [`RobotsCache::record`] stores a fetched text and answers from it.

use vstd::prelude::*;
use crate::chars::{
    spec_trim, trim_chars, spec_has_prefix, has_prefix, spec_contains, contains_sub, to_chars,
    from_chars, slice_chars,
};
use crate::pathlang::{spec_find_char, find_char, lemma_find_char_bounds};
use crate::sitemap::{spec_is_decimal, is_decimal, spec_opt_str};
use crate::json::eq_chars;

verus! {

/// Whether the robots-exclusion rules of `txt` allow `url` for agent
/// `ua`.
pub uninterp spec fn spec_robots_allowed(ua: Seq<char>, txt: Seq<char>, url: Seq<char>) -> bool;

/// Relies on texting_robots (`Robot::new` and `Robot::allowed`): the
/// verdict is a function of agent, text and URL; a text the parser
/// rejects allows everything.
#[verifier::external_body]
pub fn robots_allowed(ua: &str, txt: &str, url: &str) -> (r: bool)
    ensures
        r == spec_robots_allowed(ua@, txt@, url@),
{
    match texting_robots::Robot::new(ua, txt.as_bytes()) {
        Ok(robot) => robot.allowed(url),
        Err(_) => true,
    }
}

/// What lowercasing a text yields.
pub uninterp spec fn spec_lower(s: Seq<char>) -> Seq<char>;

/// Relies on `str::to_lowercase`: the result depends on the characters
/// alone.
#[verifier::external_body]
pub fn lowercase(s: &str) -> (r: String)
    ensures
        r@ == spec_lower(s@),
{
    s.to_lowercase()
}

/// The scheme and host of a parsed URL.
pub uninterp spec fn spec_url_parts(u: Seq<char>) -> Option<(Seq<char>, Option<Seq<char>>)>;

/// Relies on `url::Url::parse`: scheme and host are functions of the
/// text; an unparsable text yields nothing.
#[verifier::external_body]
pub fn url_parts(u: &str) -> (r: Option<(String, Option<String>)>)
    ensures
        match r {
            Some(p) => spec_url_parts(u@) == Some(
                (
                    p.0@,
                    match p.1 {
                        Some(h) => Some(h@),
                        None => None,
                    },
                ),
            ),
            None => spec_url_parts(u@) is None,
        },
{
    match url::Url::parse(u) {
        Ok(parsed) => {
            let scheme = parsed.scheme().to_string();
            let host = parsed.host_str().map(|h| h.to_string());
            Some((scheme, host))
        },
        Err(_) => None,
    }
}

/// The text split at every newline, from position `from` on.
pub open spec fn spec_lines_from(s: Seq<char>, from: int) -> Seq<Seq<char>>
    decreases s.len() - from,
    via spec_lines_from_dec
{
    if from < 0 || from > s.len() {
        Seq::empty()
    } else {
        match spec_find_char(s, '\n', from) {
            Some(p) => seq![s.subrange(from, p)] + spec_lines_from(s, p + 1),
            None => seq![s.subrange(from, s.len() as int)],
        }
    }
}

#[via_fn]
proof fn spec_lines_from_dec(s: Seq<char>, from: int) {
    lemma_find_char_bounds(s, '\n', from);
}

/// The text split at every newline.
pub open spec fn spec_lines(s: Seq<char>) -> Seq<Seq<char>> {
    spec_lines_from(s, 0)
}

/// The text split at every newline, executable.
pub fn split_lines(v: &Vec<char>) -> (r: Vec<Vec<char>>)
    ensures
        r.deep_view() =~~= spec_lines(v@),
{
    let n = v.len();
    let mut out: Vec<Vec<char>> = Vec::new();
    let mut from: usize = 0;
    let mut done = false;
    proof {
        assert(out.deep_view() =~~= Seq::<Seq<char>>::empty());
    }
    while !done
        invariant
            from <= v@.len(),
            n == v@.len(),
            !done ==> spec_lines(v@) =~~= out.deep_view() + spec_lines_from(v@, from as int),
            done ==> spec_lines(v@) =~~= out.deep_view(),
        decreases (if done { 0int } else { 1int }), v@.len() - from,
    {
        let ghost dv = out.deep_view();
        match find_char(v, '\n', from) {
            Some(p) => {
                proof {
                    lemma_find_char_bounds(v@, '\n', from as int);
                }
                let line = slice_chars(v, from, p);
                out.push(line);
                proof {
                    assert(out.deep_view() =~~= dv.push(v@.subrange(from as int, p as int)));
                }
                from = p + 1;
            },
            None => {
                let line = slice_chars(v, from, v.len());
                out.push(line);
                proof {
                    assert(out.deep_view() =~~= dv.push(
                        v@.subrange(from as int, v@.len() as int),
                    ));
                }
                done = true;
            },
        }
    }
    out
}

/// Which section a scan of the directives currently stands in: one
/// whose agent token the lowercased agent contains, the `*` section, or
/// neither — which is also where the lines before any `User-agent:`
/// header stand.
pub enum SectionKind {
    Specific,
    Star,
    Other,
}

/// The crawl delay the directives give an agent: the first delay of a
/// section whose agent token is a case-insensitive substring of the
/// agent, else the first delay of a `User-agent: *` section, else none.
/// Delays that do not read as decimal numbers are ignored, as are
/// delays outside any section.
pub open spec fn spec_delay_scan(
    lines: Seq<Seq<char>>,
    i: int,
    ua_lower: Seq<char>,
    kind: SectionKind,
    star: Option<Seq<char>>,
) -> Option<Seq<char>>
    decreases lines.len() - i,
{
    if i < 0 || i >= lines.len() {
        star
    } else {
        let t = spec_trim(lines[i]);
        if t.len() == 0 || t[0] == '#' {
            spec_delay_scan(lines, i + 1, ua_lower, kind, star)
        } else {
            let lower = spec_lower(t);
            if spec_has_prefix(lower, "user-agent:"@) {
                let agent = spec_trim(lower.skip(11));
                let k2 = if agent == "*"@ {
                    SectionKind::Star
                } else if spec_contains(ua_lower, agent) {
                    SectionKind::Specific
                } else {
                    SectionKind::Other
                };
                spec_delay_scan(lines, i + 1, ua_lower, k2, star)
            } else if spec_has_prefix(lower, "crawl-delay:"@) {
                let ds = spec_trim(lower.skip(12));
                if spec_is_decimal(ds) {
                    match kind {
                        SectionKind::Specific => Some(ds),
                        SectionKind::Star => spec_delay_scan(
                            lines,
                            i + 1,
                            ua_lower,
                            kind,
                            if star is None {
                                Some(ds)
                            } else {
                                star
                            },
                        ),
                        SectionKind::Other => spec_delay_scan(lines, i + 1, ua_lower, kind, star),
                    }
                } else {
                    spec_delay_scan(lines, i + 1, ua_lower, kind, star)
                }
            } else {
                spec_delay_scan(lines, i + 1, ua_lower, kind, star)
            }
        }
    }
}

/// The crawl delay of a robots text for an agent: the matching
/// section's, else the `*` section's, else none.
pub open spec fn spec_crawl_delay(txt: Seq<char>, ua: Seq<char>) -> Option<Seq<char>> {
    spec_delay_scan(spec_lines(txt), 0, spec_lower(ua), SectionKind::Other, None)
}

/// The crawl delay, executable.
pub fn extract_crawl_delay(txt: &str, ua: &str) -> (r: Option<String>)
    ensures
        spec_opt_str(r) == spec_crawl_delay(txt@, ua@),
{
    let tc = to_chars(txt);
    let lines = split_lines(&tc);
    let ghost lm = spec_lines(txt@);
    let ua_lower_s = lowercase(ua);
    let ua_lower = to_chars(ua_lower_s.as_str());
    let ua_prefix = to_chars("user-agent:");
    let delay_prefix = to_chars("crawl-delay:");
    let star_tok = to_chars("*");
    proof {
        reveal_strlit("user-agent:");
        reveal_strlit("crawl-delay:");
        reveal_strlit("*");
    }
    let mut kind = SectionKind::Other;
    let mut star: Option<String> = None;
    let mut i: usize = 0;
    while i < lines.len()
        invariant
            i <= lines@.len(),
            lm =~~= lines.deep_view(),
            lm.len() == lines@.len(),
            ua_lower@ == spec_lower(ua@),
            ua_prefix@ == "user-agent:"@,
            delay_prefix@ == "crawl-delay:"@,
            star_tok@ == "*"@,
            spec_crawl_delay(txt@, ua@) == spec_delay_scan(
                lm,
                i as int,
                spec_lower(ua@),
                kind,
                spec_opt_str(star),
            ),
        decreases lines@.len() - i,
    {
        proof {
            assert(lm[i as int] == lines@[i as int].deep_view());
            assert(lines@[i as int].deep_view() =~= lines@[i as int]@);
        }
        let t = trim_chars(&lines[i]);
        if t.len() == 0 || t[0] == '#' {
        } else {
            let t_s = from_chars(&t);
            let lower_s = lowercase(t_s.as_str());
            let lower = to_chars(lower_s.as_str());
            if has_prefix(&lower, &ua_prefix) {
                let agent_raw = slice_chars(&lower, 11, lower.len());
                let agent = trim_chars(&agent_raw);
                proof {
                    assert(agent_raw@ =~= spec_lower(spec_trim(lines@[i as int]@)).skip(11));
                }
                kind = if eq_chars(&agent, &star_tok) {
                    SectionKind::Star
                } else if contains_sub(&ua_lower, &agent) {
                    SectionKind::Specific
                } else {
                    SectionKind::Other
                };
            } else if has_prefix(&lower, &delay_prefix) {
                let ds_raw = slice_chars(&lower, 12, lower.len());
                let ds = trim_chars(&ds_raw);
                proof {
                    assert(ds_raw@ =~= spec_lower(spec_trim(lines@[i as int]@)).skip(12));
                }
                if is_decimal(&ds) {
                    match kind {
                        SectionKind::Specific => {
                            return Some(from_chars(&ds));
                        },
                        SectionKind::Star => {
                            if matches!(star, None) {
                                star = Some(from_chars(&ds));
                            }
                        },
                        SectionKind::Other => {
                        },
                    }
                }
            }
        }
        i = i + 1;
    }
    star
}

/// The sitemap URLs the directives name, in order: the rest of every
/// line whose lowercased, trimmed text starts with `sitemap:`, trimmed,
/// with its letter case kept.
pub open spec fn spec_sitemap_scan(lines: Seq<Seq<char>>, i: int) -> Seq<Seq<char>>
    decreases i,
{
    if i <= 0 || i > lines.len() {
        Seq::empty()
    } else {
        let prev = spec_sitemap_scan(lines, i - 1);
        let t = spec_trim(lines[i - 1]);
        if spec_has_prefix(spec_lower(t), "sitemap:"@) && t.len() >= 8 {
            prev.push(spec_trim(t.skip(8)))
        } else {
            prev
        }
    }
}

/// The sitemap URLs of a robots text.
pub open spec fn spec_sitemaps(txt: Seq<char>) -> Seq<Seq<char>> {
    spec_sitemap_scan(spec_lines(txt), spec_lines(txt).len() as int)
}

/// The sitemap URLs, executable.
pub fn extract_sitemaps(txt: &str) -> (r: Vec<String>)
    ensures
        r.deep_view() =~~= spec_sitemaps(txt@),
{
    let tc = to_chars(txt);
    let lines = split_lines(&tc);
    let ghost lm = spec_lines(txt@);
    let sitemap_prefix = to_chars("sitemap:");
    proof {
        reveal_strlit("sitemap:");
    }
    let mut out: Vec<String> = Vec::new();
    let mut i: usize = 0;
    proof {
        assert(out.deep_view() =~~= spec_sitemap_scan(lm, 0));
    }
    while i < lines.len()
        invariant
            i <= lines@.len(),
            lm =~~= lines.deep_view(),
            lm.len() == lines@.len(),
            sitemap_prefix@ == "sitemap:"@,
            out.deep_view() =~~= spec_sitemap_scan(lm, i as int),
        decreases lines@.len() - i,
    {
        proof {
            assert(lm[i as int] == lines@[i as int].deep_view());
            assert(lines@[i as int].deep_view() =~= lines@[i as int]@);
        }
        let ghost dv = out.deep_view();
        let t = trim_chars(&lines[i]);
        let t_s = from_chars(&t);
        let lower_s = lowercase(t_s.as_str());
        let lower = to_chars(lower_s.as_str());
        if has_prefix(&lower, &sitemap_prefix) && t.len() >= 8 {
            let rest_raw = slice_chars(&t, 8, t.len());
            let rest = trim_chars(&rest_raw);
            out.push(from_chars(&rest));
            proof {
                assert(rest_raw@ =~= spec_trim(lines@[i as int]@).skip(8));
                assert(out.deep_view() =~~= dv.push(
                    spec_trim(spec_trim(lines@[i as int]@).skip(8)),
                ));
                assert(out.deep_view() =~~= spec_sitemap_scan(lm, i + 1));
            }
        } else {
            proof {
                assert(out.deep_view() =~~= spec_sitemap_scan(lm, i + 1));
            }
        }
        i = i + 1;
    }
    out
}

/// The answer of a robots check.
pub struct RobotsCheckResult {
    pub allowed: bool,
    /// The crawl delay's decimal text, when one applies.
    pub crawl_delay: Option<String>,
    pub sitemaps: Vec<String>,
}

/// One cached robots text.
pub struct CacheEntry {
    /// Lowercased host.
    pub host: String,
    pub robots_txt: String,
    pub crawl_delay: Option<String>,
    pub sitemaps: Vec<String>,
    /// Seconds at which the text was fetched.
    pub fetched_at: u64,
}

/// The per-host robots cache.  An entry answers for an hour; the caller
/// supplies the clock.
pub struct RobotsCache {
    pub entries: Vec<CacheEntry>,
}

/// How long an entry answers, in seconds.
pub open spec fn spec_cache_ttl() -> int {
    3600
}

/// The position of the entry for `host`, if one is cached.
pub open spec fn spec_cache_find(entries: Seq<CacheEntry>, host: Seq<char>) -> Option<int>
    decreases entries.len(),
{
    if entries.len() == 0 {
        None
    } else if entries[0].host@ == host {
        Some(0)
    } else {
        match spec_cache_find(entries.drop_first(), host) {
            Some(p) => Some(p + 1),
            None => None,
        }
    }
}

/// A found entry names the host.
pub proof fn lemma_cache_find_hit(entries: Seq<CacheEntry>, host: Seq<char>)
    ensures
        spec_cache_find(entries, host) matches Some(p) ==> 0 <= p < entries.len() && entries[p].host@
            == host,
    decreases entries.len(),
{
    if entries.len() > 0 && entries[0].host@ != host {
        lemma_cache_find_hit(entries.drop_first(), host);
    }
}

impl RobotsCache {
    /// An empty cache.
    pub fn new() -> (r: RobotsCache)
        ensures
            r.entries@.len() == 0,
    {
        RobotsCache { entries: Vec::new() }
    }

    /// The cached entry for `host` that is still fresh at `now`, if any:
    /// a caller fetches exactly when this yields nothing.
    pub fn fresh_entry(&self, host: &Vec<char>, now: u64) -> (r: Option<&CacheEntry>)
        ensures
            (r is None) == spec_needs_fetch(*self, host@, now),
            match r {
                Some(e) => {
                    &&& spec_cache_find(self.entries@, host@) matches Some(p) && e == self.entries@[p]
                    &&& e.host@ == host@
                    &&& now >= e.fetched_at
                    &&& now - e.fetched_at < spec_cache_ttl()
                },
                None => (match spec_cache_find(self.entries@, host@) {
                    Some(p) => now < self.entries@[p].fetched_at || now - self.entries@[p].fetched_at
                        >= spec_cache_ttl(),
                    None => true,
                }),
            },
    {
        let ghost es = self.entries@;
        let mut k: usize = 0;
        while k < self.entries.len()
            invariant
                k <= es.len(),
                es == self.entries@,
                forall|i: int| 0 <= i < k ==> es[i].host@ != host@,
            decreases es.len() - k,
        {
            let hc = to_chars(self.entries[k].host.as_str());
            if eq_chars(&hc, host) {
                proof {
                    lemma_cache_find_at(es, host@, k as int);
                }
                let e = &self.entries[k];
                if now >= e.fetched_at && now - e.fetched_at < 3600 {
                    return Some(e);
                }
                return None;
            }
            k = k + 1;
        }
        proof {
            lemma_cache_find_none(es, host@);
        }
        None
    }

    /// Record a fetched robots text for `host` at `now`, replacing any
    /// older entry, and answer for `url` and `ua` from it.
    pub fn record(&mut self, host: &Vec<char>, txt: &str, url: &str, ua: &str, now: u64) -> (r:
        RobotsCheckResult)
        ensures
            r.allowed == spec_robots_allowed(ua@, txt@, url@),
            spec_opt_str(r.crawl_delay) == spec_crawl_delay(txt@, ua@),
            r.sitemaps.deep_view() =~~= spec_sitemaps(txt@),
            spec_cache_find(final(self).entries@, host@) matches Some(p) && {
                &&& final(self).entries@[p].fetched_at == now
                &&& final(self).entries@[p].robots_txt@ == txt@
                &&& spec_opt_str(final(self).entries@[p].crawl_delay) == spec_crawl_delay(txt@, ua@)
                &&& final(self).entries@[p].sitemaps.deep_view() =~~= spec_sitemaps(txt@)
            },
    {
        let allowed = robots_allowed(ua, txt, url);
        let delay = extract_crawl_delay(txt, ua);
        let maps = extract_sitemaps(txt);
        let entry = CacheEntry {
            host: from_chars(host),
            robots_txt: String::from_str(txt),
            crawl_delay: opt_clone_str(&delay),
            sitemaps: clone_strings(&maps),
            fetched_at: now,
        };
        let mut k: usize = 0;
        let mut replaced = false;
        let n = self.entries.len();
        let mut pos: usize = 0;
        while k < n
            invariant
                k <= n,
                n == self.entries@.len(),
                !replaced ==> forall|i: int| 0 <= i < k ==> self.entries@[i].host@ != host@,
                replaced ==> pos < k && self.entries@[pos as int].host@ == host@
                    && self.entries@[pos as int].fetched_at == now && self.entries@[pos as int].robots_txt@
                    == txt@ && spec_opt_str(self.entries@[pos as int].crawl_delay)
                    == spec_crawl_delay(txt@, ua@) && self.entries@[pos as int].sitemaps.deep_view()
                    =~~= spec_sitemaps(txt@),
                replaced ==> forall|i: int| 0 <= i < pos ==> self.entries@[i].host@ != host@,
            decreases n - k,
        {
            if !replaced {
                let hc = to_chars(self.entries[k].host.as_str());
                if eq_chars(&hc, host) {
                    let old_entry = self.entries.remove(k);
                    self.entries.insert(k, entry2(&entry));
                    replaced = true;
                    pos = k;
                }
            }
            k = k + 1;
        }
        if !replaced {
            self.entries.push(entry2(&entry));
            proof {
                lemma_cache_find_at(self.entries@, host@, self.entries@.len() - 1);
            }
        } else {
            proof {
                lemma_cache_find_at(self.entries@, host@, pos as int);
            }
        }
        RobotsCheckResult { allowed, crawl_delay: delay, sitemaps: maps }
    }

    /// Answer for `url` and `ua` from a fresh entry's stored text and
    /// directives; allow-ness is evaluated anew against the stored text.
    pub fn check_cached(entry: &CacheEntry, url: &str, ua: &str) -> (r: RobotsCheckResult)
        ensures
            r.allowed == spec_robots_allowed(ua@, entry.robots_txt@, url@),
            spec_opt_str(r.crawl_delay) == spec_opt_str(entry.crawl_delay),
            r.sitemaps.deep_view() =~~= entry.sitemaps.deep_view(),
    {
        let allowed = robots_allowed(ua, entry.robots_txt.as_str(), url);
        RobotsCheckResult {
            allowed,
            crawl_delay: opt_clone_str(&entry.crawl_delay),
            sitemaps: clone_strings(&entry.sitemaps),
        }
    }
}

/// Whether a query for `host` at `now` must fetch: no entry, or only a
/// stale one.
pub open spec fn spec_needs_fetch(cache: RobotsCache, host: Seq<char>, now: u64) -> bool {
    match spec_cache_find(cache.entries@, host) {
        Some(p) => now < cache.entries@[p].fetched_at || now - cache.entries@[p].fetched_at
            >= spec_cache_ttl(),
        None => true,
    }
}

/// Within an hour of a host's fetch, the cache answers: no second
/// robots.txt fetch is asked for the same host.
pub proof fn lemma_cache_ttl(cache: RobotsCache, host: Seq<char>, now: u64, p: int)
    requires
        spec_cache_find(cache.entries@, host) == Some(p),
        0 <= p < cache.entries@.len(),
        cache.entries@[p].fetched_at <= now,
        now - cache.entries@[p].fetched_at < spec_cache_ttl(),
    ensures
        !spec_needs_fetch(cache, host, now),
{
}

/// If no entry names the host, the search yields nothing.
proof fn lemma_cache_find_none(entries: Seq<CacheEntry>, host: Seq<char>)
    requires
        forall|i: int| 0 <= i < entries.len() ==> entries[i].host@ != host,
    ensures
        spec_cache_find(entries, host) is None,
    decreases entries.len(),
{
    if entries.len() > 0 {
        lemma_cache_find_none(entries.drop_first(), host);
    }
}

/// If entries before `k` miss the host and entry `k` names it, the
/// search finds `k`.
proof fn lemma_cache_find_at(entries: Seq<CacheEntry>, host: Seq<char>, k: int)
    requires
        0 <= k < entries.len(),
        forall|i: int| 0 <= i < k ==> entries[i].host@ != host,
        entries[k].host@ == host,
    ensures
        spec_cache_find(entries, host) == Some(k),
    decreases k,
{
    if k > 0 {
        lemma_cache_find_at(entries.drop_first(), host, k - 1);
    }
}

/// A copy of an optional string.
fn opt_clone_str(o: &Option<String>) -> (r: Option<String>)
    ensures
        spec_opt_str(r) == (match o {
            Some(s) => Some(s@),
            None => None,
        }),
{
    match o {
        Some(s) => Some(crate::json::clone_string(s)),
        None => None,
    }
}

/// A copy of a string list.
fn clone_strings(v: &Vec<String>) -> (r: Vec<String>)
    ensures
        r.deep_view() =~~= v.deep_view(),
{
    let mut out: Vec<String> = Vec::new();
    let mut i: usize = 0;
    while i < v.len()
        invariant
            i <= v@.len(),
            out@.len() == i,
            forall|k: int| 0 <= k < i ==> out@[k]@ == v@[k]@,
        decreases v@.len() - i,
    {
        out.push(crate::json::clone_string(&v[i]));
        i = i + 1;
    }
    out
}

/// A copy of a cache entry.
fn entry2(e: &CacheEntry) -> (r: CacheEntry)
    ensures
        r.host@ == e.host@,
        r.robots_txt@ == e.robots_txt@,
        spec_opt_str(r.crawl_delay) == spec_opt_str(e.crawl_delay),
        r.sitemaps.deep_view() =~~= e.sitemaps.deep_view(),
        r.fetched_at == e.fetched_at,
{
    CacheEntry {
        host: crate::json::clone_string(&e.host),
        robots_txt: crate::json::clone_string(&e.robots_txt),
        crawl_delay: opt_clone_str(&e.crawl_delay),
        sitemaps: clone_strings(&e.sitemaps),
        fetched_at: e.fetched_at,
    }
}

} // verus!
