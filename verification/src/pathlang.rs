//! The path languages over JSON values.
//!
//! Two pure navigation languages run over [`crate::json::JsonValue`]:
//! arrow paths (`->'key'->>[0]`), and plain segment paths whose segments
//! come from a parsed extraction spec or from the unified
//! `selector@accessor[mods]` syntax, which is parsed here as well.

use vstd::prelude::*;
use crate::json::{JsonModel, JsonValue, spec_get_key, spec_get_index};
use crate::chars::{
    spec_parse_usize, parse_usize, spec_trim, trim_chars, is_space, spec_match_at,
    match_at, slice_chars, spec_skip_spaces, lemma_skip_spaces_bounds,
};

verus! {

/// How one path segment reads a JSON value.
pub enum SegStyle {
    /// Only object fields: a segment never indexes an array.
    KeyOnly,
    /// A numeric segment indexes an array; any other segment reads a field.
    IndexFirst,
    /// A segment reads a field first and falls back to indexing an array
    /// when it is numeric.
    KeyFirst,
}

/// One navigation step.
pub open spec fn spec_step(j: JsonModel, seg: Seq<char>, style: SegStyle) -> Option<JsonModel> {
    match style {
        SegStyle::KeyOnly => spec_get_key(j, seg),
        SegStyle::IndexFirst => match spec_parse_usize(seg) {
            Some(u) => spec_get_index(j, u),
            None => spec_get_key(j, seg),
        },
        SegStyle::KeyFirst => match spec_get_key(j, seg) {
            Some(v) => Some(v),
            None => match spec_parse_usize(seg) {
                Some(u) => spec_get_index(j, u),
                None => None,
            },
        },
    }
}

/// Navigation along `path` from segment `i` on.
pub open spec fn spec_nav(j: JsonModel, path: Seq<Seq<char>>, i: int, style: SegStyle) -> Option<
    JsonModel,
>
    decreases path.len() - i,
{
    if i < 0 || i >= path.len() {
        Some(j)
    } else {
        match spec_step(j, path[i], style) {
            Some(next) => spec_nav(next, path, i + 1, style),
            None => None,
        }
    }
}

/// One navigation step, executable.
pub fn step<'a>(v: &'a JsonValue, seg: &Vec<char>, style: &SegStyle) -> (r: Option<&'a JsonValue>)
    ensures
        match r {
            Some(x) => spec_step(v.model(), seg@, *style) == Some(x.model()),
            None => spec_step(v.model(), seg@, *style) is None,
        },
{
    match style {
        SegStyle::KeyOnly => v.get_key(seg),
        SegStyle::IndexFirst => {
            match parse_usize(seg) {
                Some(u) => v.get_index(u),
                None => v.get_key(seg),
            }
        },
        SegStyle::KeyFirst => {
            match v.get_key(seg) {
                Some(x) => Some(x),
                None => {
                    match parse_usize(seg) {
                        Some(u) => v.get_index(u),
                        None => None,
                    }
                },
            }
        },
    }
}

/// Navigation along `path` from segment `from` on.
pub fn navigate<'a>(v: &'a JsonValue, path: &Vec<Vec<char>>, from: usize, style: &SegStyle) -> (r:
    Option<&'a JsonValue>)
    ensures
        match r {
            Some(x) => spec_nav(v.model(), path.deep_view(), from as int, *style) == Some(x.model()),
            None => spec_nav(v.model(), path.deep_view(), from as int, *style) is None,
        },
{
    let ghost p = path.deep_view();
    let mut cur: &'a JsonValue = v;
    let mut i: usize = from;
    if from >= path.len() {
        return Some(v);
    }
    while i < path.len()
        invariant
            from <= i <= path@.len(),
            p.len() == path@.len(),
            forall|k: int| 0 <= k < path@.len() ==> p[k] == path@[k]@,
            spec_nav(v.model(), p, from as int, *style) == spec_nav(cur.model(), p, i as int, *style),
        decreases path@.len() - i,
    {
        match step(cur, &path[i], style) {
            Some(next) => {
                cur = next;
            },
            None => {
                return None;
            },
        }
        i = i + 1;
    }
    Some(cur)
}

/// The first position at or after `from` holding character `c`.
pub open spec fn spec_find_char(s: Seq<char>, c: char, from: int) -> Option<int>
    decreases s.len() - from,
{
    if from < 0 || from >= s.len() {
        None
    } else if s[from] == c {
        Some(from)
    } else {
        spec_find_char(s, c, from + 1)
    }
}

/// Executable search matching `spec_find_char`.
pub fn find_char(v: &Vec<char>, c: char, from: usize) -> (r: Option<usize>)
    ensures
        match r {
            Some(i) => spec_find_char(v@, c, from as int) == Some(i as int),
            None => spec_find_char(v@, c, from as int) is None,
        },
{
    let mut i: usize = from;
    while i < v.len()
        invariant
            from <= i,
            spec_find_char(v@, c, from as int) == spec_find_char(v@, c, i as int),
        decreases v@.len() - i,
    {
        if v[i] == c {
            return Some(i);
        }
        i = i + 1;
    }
    None
}

/// The last position holding character `c`, if any.
pub open spec fn spec_rfind_char(s: Seq<char>, c: char) -> Option<int>
    decreases s.len(),
{
    if s.len() == 0 {
        None
    } else if s[s.len() - 1] == c {
        Some(s.len() - 1)
    } else {
        spec_rfind_char(s.drop_last(), c)
    }
}

/// Executable search matching `spec_rfind_char`.
pub fn rfind_char(v: &Vec<char>, c: char) -> (r: Option<usize>)
    ensures
        match r {
            Some(i) => spec_rfind_char(v@, c) == Some(i as int),
            None => spec_rfind_char(v@, c) is None,
        },
{
    proof {
        assert(v@.subrange(0, v@.len() as int) =~= v@);
    }
    let mut i: usize = v.len();
    while i > 0
        invariant
            i <= v@.len(),
            spec_rfind_char(v@, c) == spec_rfind_char(v@.subrange(0, i as int), c),
        decreases i,
    {
        proof {
            assert(v@.subrange(0, i as int).drop_last() =~= v@.subrange(0, i - 1));
        }
        if v[i - 1] == c {
            return Some(i - 1);
        }
        i = i - 1;
    }
    None
}

/// The first position at or after `from` where `p` occurs.
pub open spec fn spec_find_sub(s: Seq<char>, p: Seq<char>, from: int) -> Option<int>
    decreases s.len() - from,
{
    if from < 0 || from > s.len() {
        None
    } else if spec_match_at(s, p, from) {
        Some(from)
    } else if from == s.len() {
        None
    } else {
        spec_find_sub(s, p, from + 1)
    }
}

/// Executable search matching `spec_find_sub`.
pub fn find_sub(v: &Vec<char>, p: &Vec<char>, from: usize) -> (r: Option<usize>)
    ensures
        match r {
            Some(i) => spec_find_sub(v@, p@, from as int) == Some(i as int),
            None => spec_find_sub(v@, p@, from as int) is None,
        },
{
    if from > v.len() {
        return None;
    }
    let mut i: usize = from;
    while i < v.len() && !match_at(v, p, i)
        invariant
            from <= i <= v@.len(),
            spec_find_sub(v@, p@, from as int) == spec_find_sub(v@, p@, i as int),
        decreases v@.len() - i,
    {
        i = i + 1;
    }
    if match_at(v, p, i) {
        Some(i)
    } else {
        None
    }
}

/// A successful backwards search lands inside the string.
pub proof fn lemma_rfind_char_bounds(s: Seq<char>, c: char)
    ensures
        spec_rfind_char(s, c) matches Some(i) ==> 0 <= i < s.len(),
    decreases s.len(),
{
    if s.len() > 0 && s[s.len() - 1] != c {
        lemma_rfind_char_bounds(s.drop_last(), c);
    }
}

/// A successful character search lands between `from` and the end.
pub proof fn lemma_find_char_bounds(s: Seq<char>, c: char, from: int)
    ensures
        spec_find_char(s, c, from) matches Some(i) ==> from <= i < s.len(),
    decreases s.len() - from,
{
    if 0 <= from && from < s.len() && s[from] != c {
        lemma_find_char_bounds(s, c, from + 1);
    }
}

/// A successful substring search lands between `from` and the end.
pub proof fn lemma_find_sub_bounds(s: Seq<char>, p: Seq<char>, from: int)
    ensures
        spec_find_sub(s, p, from) matches Some(i) ==> from <= i && i + p.len() <= s.len(),
    decreases s.len() - from,
{
    if 0 <= from && from <= s.len() && !spec_match_at(s, p, from) && from < s.len() {
        lemma_find_sub_bounds(s, p, from + 1);
    }
}

/// Navigation of an arrow path from position `pos` of the trimmed path
/// text: each `->key` or `->>key` step reads a field, or indexes an array
/// when the key is numeric.  Keys are single-quoted, double-quoted,
/// bracketed, or barewords running to the next arrow.  A missing closing
/// quote or bracket, like a missing field, yields nothing; text that does
/// not continue with an arrow ends the walk.
pub open spec fn spec_arrow_nav(j: JsonModel, s: Seq<char>, pos: int) -> Option<JsonModel>
    decreases s.len() - pos,
    via spec_arrow_nav_dec
{
    if pos < 0 || pos >= s.len() {
        Some(j)
    } else if !spec_match_at(s, seq!['-', '>'], pos) {
        Some(j)
    } else {
        let pos2 = if spec_match_at(s, seq!['-', '>', '>'], pos) {
            pos + 3
        } else {
            pos + 2
        };
        let pos3 = spec_skip_spaces(s, pos2);
        if pos3 < s.len() && s[pos3] == '\'' {
            match spec_find_char(s, '\'', pos3 + 1) {
                Some(q) => match spec_step(j, s.subrange(pos3 + 1, q), SegStyle::IndexFirst) {
                    Some(nj) => spec_arrow_nav(nj, s, q + 1),
                    None => None,
                },
                None => None,
            }
        } else if pos3 < s.len() && s[pos3] == '"' {
            match spec_find_char(s, '"', pos3 + 1) {
                Some(q) => match spec_step(j, s.subrange(pos3 + 1, q), SegStyle::IndexFirst) {
                    Some(nj) => spec_arrow_nav(nj, s, q + 1),
                    None => None,
                },
                None => None,
            }
        } else if pos3 < s.len() && s[pos3] == '[' {
            match spec_find_char(s, ']', pos3 + 1) {
                Some(e) => match spec_step(j, s.subrange(pos3 + 1, e), SegStyle::IndexFirst) {
                    Some(nj) => spec_arrow_nav(nj, s, e + 1),
                    None => None,
                },
                None => None,
            }
        } else {
            let e = match spec_find_sub(s, seq!['-', '>'], pos3) {
                Some(e) => e,
                None => s.len() as int,
            };
            match spec_step(j, spec_trim(s.subrange(pos3, e)), SegStyle::IndexFirst) {
                Some(nj) => spec_arrow_nav(nj, s, e),
                None => None,
            }
        }
    }
}

#[via_fn]
proof fn spec_arrow_nav_dec(j: JsonModel, s: Seq<char>, pos: int) {
    if 0 <= pos && pos < s.len() && spec_match_at(s, seq!['-', '>'], pos) {
        let pos2 = if spec_match_at(s, seq!['-', '>', '>'], pos) {
            pos + 3
        } else {
            pos + 2
        };
        lemma_skip_spaces_bounds(s, pos2);
        let pos3 = spec_skip_spaces(s, pos2);
        lemma_find_char_bounds(s, '\'', pos3 + 1);
        lemma_find_char_bounds(s, '"', pos3 + 1);
        lemma_find_char_bounds(s, ']', pos3 + 1);
        lemma_find_sub_bounds(s, seq!['-', '>'], pos3);
    }
}

/// Arrow-path navigation over `v`, starting from the trimmed path text.
pub fn arrow_navigate<'a>(v: &'a JsonValue, path: &Vec<char>) -> (r: Option<&'a JsonValue>)
    ensures
        match r {
            Some(x) => spec_arrow_nav(v.model(), spec_trim(path@), 0) == Some(x.model()),
            None => spec_arrow_nav(v.model(), spec_trim(path@), 0) is None,
        },
{
    let t = trim_chars(path);
    let ghost s = t@;
    let mut arrow2: Vec<char> = Vec::new();
    arrow2.push('-');
    arrow2.push('>');
    let mut arrow3: Vec<char> = Vec::new();
    arrow3.push('-');
    arrow3.push('>');
    arrow3.push('>');
    proof {
        assert(arrow2@ =~= seq!['-', '>']);
        assert(arrow3@ =~= seq!['-', '>', '>']);
    }
    let mut cur: &'a JsonValue = v;
    let mut pos: usize = 0;
    while pos < t.len() && match_at(&t, &arrow2, pos)
        invariant
            pos <= t@.len(),
            t@ == s,
            arrow2@ == seq!['-', '>'],
            arrow3@ == seq!['-', '>', '>'],
            spec_arrow_nav(v.model(), s, 0) == spec_arrow_nav(cur.model(), s, pos as int),
        decreases t@.len() - pos,
    {
        let pos2: usize = if match_at(&t, &arrow3, pos) {
            pos + 3
        } else {
            pos + 2
        };
        let mut pos3: usize = pos2;
        while pos3 < t.len() && is_space(t[pos3])
            invariant
                pos2 <= pos3 <= t@.len(),
                t@ == s,
                spec_skip_spaces(s, pos2 as int) == spec_skip_spaces(s, pos3 as int),
            decreases t@.len() - pos3,
        {
            pos3 = pos3 + 1;
        }
        proof {
            assert(spec_skip_spaces(s, pos2 as int) == pos3 as int);
        }
        let key: Vec<char>;
        let next: usize;
        if pos3 < t.len() && (t[pos3] == '\'' || t[pos3] == '"') {
            let quote = t[pos3];
            match find_char(&t, quote, pos3 + 1) {
                Some(q) => {
                    proof {
                        lemma_find_char_bounds(s, quote, pos3 + 1);
                    }
                    key = slice_chars(&t, pos3 + 1, q);
                    next = q + 1;
                },
                None => {
                    return None;
                },
            }
        } else if pos3 < t.len() && t[pos3] == '[' {
            match find_char(&t, ']', pos3 + 1) {
                Some(e) => {
                    proof {
                        lemma_find_char_bounds(s, ']', pos3 + 1);
                    }
                    key = slice_chars(&t, pos3 + 1, e);
                    next = e + 1;
                },
                None => {
                    return None;
                },
            }
        } else {
            let e: usize = match find_sub(&t, &arrow2, pos3) {
                Some(e) => {
                    proof {
                        lemma_find_sub_bounds(s, arrow2@, pos3 as int);
                    }
                    e
                },
                None => t.len(),
            };
            let raw = slice_chars(&t, pos3, e);
            key = trim_chars(&raw);
            next = e;
        }
        match step(cur, &key, &SegStyle::IndexFirst) {
            Some(nj) => {
                cur = nj;
                pos = next;
            },
            None => {
                return None;
            },
        }
    }
    Some(cur)
}

/// The parsed form of a unified path: the CSS selector before the last
/// `@`, the accessor after it, whether `[*]` asked for array expansion,
/// and the trailing index/field segments.
pub struct PathShape {
    pub selector: Seq<char>,
    pub accessor: Seq<char>,
    pub expand: bool,
    pub segs: Seq<Seq<char>>,
}

/// The first position at or after `from` holding `[` or `.`, or the length.
pub open spec fn spec_find_mod(s: Seq<char>, from: int) -> int
    decreases s.len() - from,
{
    if from < 0 || from >= s.len() {
        s.len() as int
    } else if s[from] == '[' || s[from] == '.' {
        from
    } else {
        spec_find_mod(s, from + 1)
    }
}

/// Bounds of the modifier search.
pub proof fn lemma_find_mod_bounds(s: Seq<char>, from: int)
    requires
        0 <= from <= s.len(),
    ensures
        from <= spec_find_mod(s, from) <= s.len(),
    decreases s.len() - from,
{
    if from < s.len() && !(s[from] == '[' || s[from] == '.') {
        lemma_find_mod_bounds(s, from + 1);
    }
}

/// The modifier walk over the accessor tail: `[*]` switches expansion on,
/// `[N]` appends the bracketed text as a segment, `.field` appends the
/// field name; anything else, or an unclosed bracket, ends the walk.
pub open spec fn spec_parse_mods(s: Seq<char>, pos: int, expand: bool, segs: Seq<Seq<char>>) -> (
    bool,
    Seq<Seq<char>>,
)
    decreases s.len() - pos,
    via spec_parse_mods_dec
{
    if pos < 0 || pos >= s.len() {
        (expand, segs)
    } else if spec_match_at(s, seq!['[', '*', ']'], pos) {
        spec_parse_mods(s, pos + 3, true, segs)
    } else if s[pos] == '[' {
        match spec_find_char(s, ']', pos + 1) {
            Some(e) => spec_parse_mods(s, e + 1, expand, segs.push(s.subrange(pos + 1, e))),
            None => (expand, segs),
        }
    } else if s[pos] == '.' {
        let fe = spec_find_mod(s, pos + 1);
        if fe > pos + 1 {
            spec_parse_mods(s, fe, expand, segs.push(s.subrange(pos + 1, fe)))
        } else {
            spec_parse_mods(s, pos + 1, expand, segs)
        }
    } else {
        (expand, segs)
    }
}

#[via_fn]
proof fn spec_parse_mods_dec(s: Seq<char>, pos: int, expand: bool, segs: Seq<Seq<char>>) {
    if 0 <= pos && pos < s.len() {
        lemma_find_char_bounds(s, ']', pos + 1);
        lemma_find_mod_bounds(s, pos + 1);
    }
}

/// The parse of a unified path: selector before the last `@` (trimmed),
/// non-empty accessor after it, then modifiers.  No `@`, or an empty
/// accessor, is a malformed path.
pub open spec fn spec_parse_path(p: Seq<char>) -> Option<PathShape> {
    let t = spec_trim(p);
    match spec_rfind_char(t, '@') {
        None => None,
        Some(at) => {
            let selector = spec_trim(t.subrange(0, at));
            let after = t.subrange(at + 1, t.len() as int);
            let aend = spec_find_mod(after, 0);
            if aend == 0 {
                None
            } else {
                let mods = spec_parse_mods(after, aend, false, Seq::empty());
                Some(
                    PathShape {
                        selector,
                        accessor: after.subrange(0, aend),
                        expand: mods.0,
                        segs: mods.1,
                    },
                )
            }
        },
    }
}

/// The parsed form of a unified path, executable.
pub struct ParsedPath {
    pub selector: Vec<char>,
    pub accessor: Vec<char>,
    pub expand: bool,
    pub segs: Vec<Vec<char>>,
}

impl ParsedPath {
    /// The shape this parse stands for.
    pub open spec fn shape(self) -> PathShape {
        PathShape {
            selector: self.selector@,
            accessor: self.accessor@,
            expand: self.expand,
            segs: self.segs.deep_view(),
        }
    }
}

/// Parse of the unified `selector@accessor[mods]` syntax.
pub fn parse_path(p: &Vec<char>) -> (r: Option<ParsedPath>)
    ensures
        match r {
            Some(pp) => spec_parse_path(p@) == Some(pp.shape()),
            None => spec_parse_path(p@) is None,
        },
{
    let t = trim_chars(p);
    let ghost tv = t@;
    let at = match rfind_char(&t, '@') {
        Some(at) => at,
        None => {
            return None;
        },
    };
    proof {
        lemma_rfind_char_bounds(tv, '@');
    }
    let before = slice_chars(&t, 0, at);
    let selector = trim_chars(&before);
    let after = slice_chars(&t, at + 1, t.len());
    let ghost av = after@;
    let mut aend: usize = 0;
    while aend < after.len() && !(after[aend] == '[' || after[aend] == '.')
        invariant
            aend <= after@.len(),
            spec_find_mod(av, 0) == spec_find_mod(av, aend as int),
        decreases after@.len() - aend,
    {
        aend = aend + 1;
    }
    proof {
        assert(spec_find_mod(av, 0) == aend as int);
    }
    if aend == 0 {
        return None;
    }
    let accessor = slice_chars(&after, 0, aend);
    let mut star: Vec<char> = Vec::new();
    star.push('[');
    star.push('*');
    star.push(']');
    proof {
        assert(star@ =~= seq!['[', '*', ']']);
    }
    let mut expand = false;
    let mut segs: Vec<Vec<char>> = Vec::new();
    let mut pos: usize = aend;
    let mut done = false;
    proof {
        assert(segs.deep_view() =~~= Seq::<Seq<char>>::empty());
    }
    let ghost mods = spec_parse_mods(av, aend as int, false, Seq::empty());
    while !done
        invariant
            aend <= pos <= after@.len(),
            star@ == seq!['[', '*', ']'],
            after@ == av,
            !done ==> mods == spec_parse_mods(av, pos as int, expand, segs.deep_view()),
            done ==> mods == (expand, segs.deep_view()),
        decreases (if done { 0int } else { 1int }), after@.len() - pos,
    {
        let ghost old_dv = segs.deep_view();
        if pos >= after.len() {
            done = true;
        } else if match_at(&after, &star, pos) {
            expand = true;
            pos = pos + 3;
        } else if after[pos] == '[' {
            match find_char(&after, ']', pos + 1) {
                Some(e) => {
                    proof {
                        lemma_find_char_bounds(av, ']', pos + 1);
                    }
                    let seg = slice_chars(&after, pos + 1, e);
                    segs.push(seg);
                    proof {
                        assert(segs.deep_view() =~~= old_dv.push(av.subrange(pos + 1, e as int)));
                    }
                    pos = e + 1;
                },
                None => {
                    done = true;
                },
            }
        } else if after[pos] == '.' {
            let mut fe: usize = pos + 1;
            while fe < after.len() && !(after[fe] == '[' || after[fe] == '.')
                invariant
                    pos + 1 <= fe <= after@.len(),
                    after@ == av,
                    spec_find_mod(av, pos + 1) == spec_find_mod(av, fe as int),
                decreases after@.len() - fe,
            {
                fe = fe + 1;
            }
            proof {
                assert(spec_find_mod(av, pos + 1) == fe as int);
            }
            if fe > pos + 1 {
                let seg = slice_chars(&after, pos + 1, fe);
                segs.push(seg);
                proof {
                    assert(segs.deep_view() =~~= old_dv.push(av.subrange(pos + 1, fe as int)));
                }
                pos = fe;
            } else {
                pos = pos + 1;
            }
        } else {
            done = true;
        }
    }
    proof {
        assert(mods == (expand, segs.deep_view()));
    }
    Some(ParsedPath { selector, accessor, expand, segs })
}

} // verus!
