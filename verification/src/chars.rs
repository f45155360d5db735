//! Character-level string utilities.
//!
//! The extraction logic works on `Vec<char>` buffers so that every scan is
//! an ordinary indexed loop; these helpers convert between `str`/`String`
//! and `Vec<char>` and give the small spec vocabulary used by the parsers.

use vstd::prelude::*;

verus! {

/// Relies on `String::push`: appends exactly one character.
#[verifier::external_body]
pub fn push_char(s: &mut String, c: char)
    ensures
        final(s)@ == old(s)@.push(c),
{
    s.push(c);
}

/// The characters of `s`, in order.
pub fn to_chars(s: &str) -> (r: Vec<char>)
    ensures
        r@ == s@,
{
    let n = s.unicode_len();
    let mut r: Vec<char> = Vec::new();
    let mut i: usize = 0;
    while i < n
        invariant
            i <= n,
            n == s@.len(),
            r@ == s@.subrange(0, i as int),
        decreases n - i,
    {
        let c = s.get_char(i);
        r.push(c);
        proof {
            assert(r@ =~= s@.subrange(0, i + 1));
        }
        i = i + 1;
    }
    proof {
        assert(r@ =~= s@);
    }
    r
}

/// The string holding exactly the characters of `v`.
pub fn from_chars(v: &Vec<char>) -> (r: String)
    ensures
        r@ == v@,
{
    let mut r = String::new();
    let mut i: usize = 0;
    while i < v.len()
        invariant
            i <= v.len(),
            r@ == v@.subrange(0, i as int),
        decreases v.len() - i,
    {
        push_char(&mut r, v[i]);
        proof {
            assert(r@ =~= v@.subrange(0, i + 1));
        }
        i = i + 1;
    }
    proof {
        assert(r@ =~= v@);
    }
    r
}

/// A slice of `v`, as its own vector.
pub fn slice_chars(v: &Vec<char>, from: usize, to: usize) -> (r: Vec<char>)
    requires
        from <= to <= v@.len(),
    ensures
        r@ == v@.subrange(from as int, to as int),
{
    let mut r: Vec<char> = Vec::new();
    let mut i: usize = from;
    while i < to
        invariant
            from <= i <= to <= v@.len(),
            r@ == v@.subrange(from as int, i as int),
        decreases to - i,
    {
        r.push(v[i]);
        proof {
            assert(r@ =~= v@.subrange(from as int, i + 1));
        }
        i = i + 1;
    }
    r
}

/// Whether `p` occurs in `s` starting at position `at`.
pub open spec fn spec_match_at(s: Seq<char>, p: Seq<char>, at: int) -> bool {
    0 <= at && at + p.len() <= s.len() && s.subrange(at, at + p.len()) == p
}

/// Whether `p` is a prefix of `s`.
pub open spec fn spec_has_prefix(s: Seq<char>, p: Seq<char>) -> bool {
    spec_match_at(s, p, 0)
}

/// Whether `p` occurs anywhere in `s`.
pub open spec fn spec_contains(s: Seq<char>, p: Seq<char>) -> bool {
    exists|at: int| spec_match_at(s, p, at)
}

/// Whether `p` occurs in `v` starting at `at`.
pub fn match_at(v: &Vec<char>, p: &Vec<char>, at: usize) -> (r: bool)
    ensures
        r == spec_match_at(v@, p@, at as int),
{
    let n = v.len();
    if at > n || p.len() > n - at {
        proof {
            assert(!spec_match_at(v@, p@, at as int));
        }
        return false;
    }
    let mut i: usize = 0;
    while i < p.len()
        invariant
            i <= p@.len(),
            n == v@.len(),
            at + p@.len() <= n,
            v@.subrange(at as int, at + i) =~= p@.subrange(0, i as int),
        decreases p.len() - i,
    {
        if v[at + i] != p[i] {
            proof {
                assert(v@.subrange(at as int, at + p@.len())[i as int] == v@[at + i]);
                assert(v@.subrange(at as int, at + p@.len()) != p@);
            }
            return false;
        }
        proof {
            assert(v@.subrange(at as int, at + i + 1) =~= p@.subrange(0, i + 1));
        }
        i = i + 1;
    }
    proof {
        assert(v@.subrange(at as int, at + p@.len()) =~= p@);
    }
    true
}

/// Whether `p` is a prefix of `v`.
pub fn has_prefix(v: &Vec<char>, p: &Vec<char>) -> (r: bool)
    ensures
        r == spec_has_prefix(v@, p@),
{
    match_at(v, p, 0)
}

/// Whether `p` occurs anywhere in `v`.
pub fn contains_sub(v: &Vec<char>, p: &Vec<char>) -> (r: bool)
    ensures
        r == spec_contains(v@, p@),
{
    if p.len() > v.len() {
        proof {
            assert forall|at: int| !spec_match_at(v@, p@, at) by {}
        }
        return false;
    }
    if p.len() == 0 {
        proof {
            assert(v@.subrange(0, 0) =~= p@);
            assert(spec_match_at(v@, p@, 0));
        }
        return true;
    }
    let n = v.len();
    let mut at: usize = 0;
    while at <= n - p.len()
        invariant
            0 < p@.len() <= n,
            n == v@.len(),
            at <= n - p@.len() + 1,
            forall|k: int| 0 <= k < at ==> !spec_match_at(v@, p@, k),
        decreases v.len() - p.len() - at + 1,
    {
        if match_at(v, p, at) {
            return true;
        }
        at = at + 1;
    }
    proof {
        assert forall|k: int| !spec_match_at(v@, p@, k) by {
            if 0 <= k && k + p@.len() <= v@.len() {
                assert(k < at);
            }
        }
    }
    false
}

/// ASCII whitespace: what trimming strips in this crate.
pub open spec fn spec_is_space(c: char) -> bool {
    c == ' ' || c == '\t' || c == '\n' || c == '\r' || c == '\u{0b}' || c == '\u{0c}'
}

/// Executable test matching `spec_is_space`.
pub fn is_space(c: char) -> (r: bool)
    ensures
        r == spec_is_space(c),
{
    c == ' ' || c == '\t' || c == '\n' || c == '\r' || c == '\u{0b}' || c == '\u{0c}'
}

/// The first index at or after `from` holding a non-space character, or the length.
pub open spec fn spec_skip_spaces(s: Seq<char>, from: int) -> int
    decreases s.len() - from,
{
    if from < 0 || from >= s.len() {
        s.len() as int
    } else if spec_is_space(s[from]) {
        spec_skip_spaces(s, from + 1)
    } else {
        from
    }
}

/// The start of the trimmed region of `s`.
pub open spec fn spec_trim_start(s: Seq<char>) -> int {
    spec_skip_spaces(s, 0)
}

/// One past the end of the trimmed region of `s` (at least `spec_trim_start`).
pub open spec fn spec_trim_end(s: Seq<char>) -> int
    decreases s.len(),
{
    if s.len() == 0 {
        0
    } else if spec_is_space(s[s.len() - 1]) {
        spec_trim_end(s.drop_last())
    } else {
        s.len() as int
    }
}

/// `s` without its leading and trailing whitespace.
pub open spec fn spec_trim(s: Seq<char>) -> Seq<char> {
    if spec_trim_start(s) <= spec_trim_end(s) {
        s.subrange(spec_trim_start(s), spec_trim_end(s))
    } else {
        Seq::empty()
    }
}

/// Bounds of the space-skipping scan.
pub proof fn lemma_skip_spaces_bounds(s: Seq<char>, from: int)
    requires
        0 <= from <= s.len(),
    ensures
        from <= spec_skip_spaces(s, from) <= s.len(),
    decreases s.len() - from,
{
    if from < s.len() && spec_is_space(s[from]) {
        lemma_skip_spaces_bounds(s, from + 1);
    }
}

/// If every character from `e` on is a space, the trimmed region ends at or
/// before `e`.
proof fn lemma_trim_end_le(s: Seq<char>, e: int)
    requires
        0 <= e <= s.len(),
        forall|k: int| e <= k < s.len() ==> spec_is_space(s[k]),
    ensures
        spec_trim_end(s) <= e,
    decreases s.len(),
{
    if s.len() > 0 && spec_is_space(s[s.len() - 1]) {
        if e < s.len() {
            lemma_trim_end_le(s.drop_last(), e);
        } else {
            lemma_trim_end_le(s.drop_last(), s.len() - 1);
        }
    }
}

/// If every character from `end` on is space and `s[end-1]` is not,
/// the trimmed region ends exactly at `end`.
proof fn lemma_trim_end_with_suffix(s: Seq<char>, end: int)
    requires
        0 < end <= s.len(),
        !spec_is_space(s[end - 1]),
        forall|k: int| end <= k < s.len() ==> spec_is_space(s[k]),
    ensures
        spec_trim_end(s) == end,
    decreases s.len(),
{
    if s.len() > end {
        lemma_trim_end_with_suffix(s.drop_last(), end);
    }
}

/// The trimmed copy of `v`.
pub fn trim_chars(v: &Vec<char>) -> (r: Vec<char>)
    ensures
        r@ == spec_trim(v@),
{
    let mut start: usize = 0;
    while start < v.len() && is_space(v[start])
        invariant
            start <= v@.len(),
            forall|k: int| 0 <= k < start ==> spec_is_space(v@[k]),
            spec_trim_start(v@) == spec_skip_spaces(v@, start as int),
        decreases v.len() - start,
    {
        start = start + 1;
    }
    proof {
        assert(spec_trim_start(v@) == start);
    }
    let mut end: usize = v.len();
    while end > start && is_space(v[end - 1])
        invariant
            start <= end <= v@.len(),
            forall|k: int| end <= k < v@.len() ==> spec_is_space(v@[k]),
        decreases end,
    {
        end = end - 1;
    }
    proof {
        if end > start {
            lemma_trim_end_with_suffix(v@, end as int);
        } else {
            // The first loop stopped at a non-space character unless it ran
            // off the end; the second loop's exit shows everything from
            // `start` on is space, so here the whole string is space.
            assert(start == v@.len());
            lemma_trim_end_le(v@, 0);
            assert(spec_trim(v@) =~= Seq::<char>::empty());
            assert(v@.subrange(start as int, end as int) =~= Seq::<char>::empty());
        }
    }
    slice_chars(v, start, end)
}

/// An ASCII decimal digit.
pub open spec fn spec_is_digit(c: char) -> bool {
    48 <= c as int <= 57
}

/// The numeric value of a digit character.
pub open spec fn spec_digit_val(c: char) -> int {
    c as int - 48
}

/// Executable test matching `spec_is_digit`.
pub fn is_digit(c: char) -> (r: bool)
    ensures
        r == spec_is_digit(c),
{
    match c {
        '0' | '1' | '2' | '3' | '4' | '5' | '6' | '7' | '8' | '9' => true,
        _ => false,
    }
}

/// The value of a digit character.
pub fn digit_val(c: char) -> (d: usize)
    requires
        spec_is_digit(c),
    ensures
        d == spec_digit_val(c),
{
    match c {
        '0' => 0,
        '1' => 1,
        '2' => 2,
        '3' => 3,
        '4' => 4,
        '5' => 5,
        '6' => 6,
        '7' => 7,
        '8' => 8,
        _ => 9,
    }
}

/// The value of a digit string, most significant first.
pub open spec fn spec_digits_val(s: Seq<char>) -> int
    decreases s.len(),
{
    if s.len() == 0 {
        0
    } else {
        spec_digits_val(s.drop_last()) * 10 + spec_digit_val(s.last())
    }
}

/// A non-empty string of digits.
pub open spec fn spec_all_digits(s: Seq<char>) -> bool {
    s.len() > 0 && forall|k: int| 0 <= k < s.len() ==> spec_is_digit(s[k])
}

/// The value of `s` read as unsigned decimal the way `str::parse` for an
/// unsigned integer type reads it: an optional leading `+`, then digits.
/// `None` when the shape is wrong; range is checked by the callers' specs.
pub open spec fn spec_parse_uint(s: Seq<char>) -> Option<int> {
    let t = if s.len() > 0 && s[0] == '+' {
        s.drop_first()
    } else {
        s
    };
    if spec_all_digits(t) {
        Some(spec_digits_val(t))
    } else {
        None
    }
}

/// What `str::parse::<usize>` yields on `s`.
pub open spec fn spec_parse_usize(s: Seq<char>) -> Option<int> {
    match spec_parse_uint(s) {
        Some(v) => if v <= usize::MAX {
            Some(v)
        } else {
            None
        },
        None => None,
    }
}

/// The value of a digit string is never negative.
pub proof fn lemma_digits_val_nonneg(s: Seq<char>)
    requires
        forall|k: int| 0 <= k < s.len() ==> spec_is_digit(s[k]),
    ensures
        spec_digits_val(s) >= 0,
    decreases s.len(),
{
    if s.len() > 0 {
        lemma_digits_val_nonneg(s.drop_last());
    }
}

/// Extending a digit string to the right never shrinks its value.
pub proof fn lemma_digits_val_prefix_le(s: Seq<char>, i: int)
    requires
        forall|k: int| 0 <= k < s.len() ==> spec_is_digit(s[k]),
        0 <= i <= s.len(),
    ensures
        spec_digits_val(s.subrange(0, i)) <= spec_digits_val(s),
    decreases s.len() - i,
{
    if i < s.len() {
        lemma_digits_val_prefix_le(s, i + 1);
        let p = s.subrange(0, i);
        let q = s.subrange(0, i + 1);
        assert(q.drop_last() =~= p);
        lemma_digits_val_nonneg(p);
        assert(spec_digits_val(q) == spec_digits_val(p) * 10 + spec_digit_val(q.last()));
        assert(spec_digits_val(p) * 10 >= spec_digits_val(p)) by (nonlinear_arith)
            requires
                spec_digits_val(p) >= 0,
        {
        }
    } else {
        assert(s.subrange(0, i) =~= s);
    }
}

/// What `str::parse::<usize>` yields on the characters of `v`.
pub fn parse_usize(v: &Vec<char>) -> (r: Option<usize>)
    ensures
        match r {
            Some(u) => spec_parse_usize(v@) == Some(u as int),
            None => spec_parse_usize(v@) is None,
        },
{
    let start: usize = if v.len() > 0 && v[0] == '+' {
        1
    } else {
        0
    };
    let ghost t = if v@.len() > 0 && v@[0] == '+' {
        v@.drop_first()
    } else {
        v@
    };
    proof {
        assert(t =~= v@.subrange(start as int, v@.len() as int));
    }
    if v.len() == start {
        return None;
    }
    let mut acc: usize = 0;
    let mut i: usize = start;
    while i < v.len()
        invariant
            start <= i <= v@.len(),
            forall|k: int| start <= k < i ==> spec_is_digit(v@[k]),
            acc as int == spec_digits_val(v@.subrange(start as int, i as int)),
        decreases v@.len() - i,
    {
        let c = v[i];
        if !is_digit(c) {
            proof {
                assert(t[i - start] == v@[i as int]);
                assert(!spec_all_digits(t));
            }
            return None;
        }
        let d: usize = digit_val(c);
        proof {
            lemma_digits_val_nonneg(v@.subrange(start as int, i as int));
        }
        if acc > usize::MAX / 10 || (acc == usize::MAX / 10 && d > usize::MAX % 10) {
            proof {
                let p = v@.subrange(start as int, i + 1);
                assert(p.drop_last() =~= v@.subrange(start as int, i as int));
                assert(p.last() == c);
                assert(spec_digits_val(p) == acc * 10 + d as int);
                assert(acc * 10 + d as int > usize::MAX) by (nonlinear_arith)
                    requires
                        acc > usize::MAX / 10 || (acc == usize::MAX / 10 && d > usize::MAX % 10),
                        d >= 0,
                        acc >= 0,
                {
                }
                if forall|k: int| 0 <= k < t.len() ==> spec_is_digit(t[k]) {
                    lemma_digits_val_prefix_le(t, i + 1 - start);
                    assert(t.subrange(0, i + 1 - start) =~= p);
                    assert(spec_digits_val(t) > usize::MAX);
                }
            }
            return None;
        }
        proof {
            assert(acc * 10 + d <= usize::MAX) by (nonlinear_arith)
                requires
                    0 <= acc <= usize::MAX / 10,
                    acc < usize::MAX / 10 || d <= usize::MAX % 10,
                    0 <= d <= 9,
            {
            }
            let p = v@.subrange(start as int, i + 1);
            assert(p.drop_last() =~= v@.subrange(start as int, i as int));
            assert(p.last() == c);
        }
        acc = acc * 10 + d;
        i = i + 1;
    }
    proof {
        assert(t =~= v@.subrange(start as int, v@.len() as int));
        assert(spec_all_digits(t)) by {
            assert(forall|k: int| 0 <= k < t.len() ==> t[k] == v@[k + start]);
        }
        assert(spec_digits_val(t) == acc as int);
    }
    Some(acc)
}

/// What `str::parse::<i64>` yields on `s`: an optional sign, digits, and
/// a range check.
pub open spec fn spec_parse_i64(s: Seq<char>) -> Option<int> {
    let neg = s.len() > 0 && s[0] == '-';
    let t = if s.len() > 0 && (s[0] == '-' || s[0] == '+') {
        s.drop_first()
    } else {
        s
    };
    if spec_all_digits(t) {
        let v = if neg {
            -spec_digits_val(t)
        } else {
            spec_digits_val(t)
        };
        if i64::MIN <= v <= i64::MAX {
            Some(v)
        } else {
            None
        }
    } else {
        None
    }
}

/// What `str::parse::<i64>` yields on the characters of `v`.
pub fn parse_i64(v: &Vec<char>) -> (r: Option<i64>)
    ensures
        match r {
            Some(u) => spec_parse_i64(v@) == Some(u as int),
            None => spec_parse_i64(v@) is None,
        },
{
    let neg: bool = v.len() > 0 && v[0] == '-';
    let start: usize = if v.len() > 0 && (v[0] == '-' || v[0] == '+') {
        1
    } else {
        0
    };
    let ghost t = if v@.len() > 0 && (v@[0] == '-' || v@[0] == '+') {
        v@.drop_first()
    } else {
        v@
    };
    proof {
        assert(t =~= v@.subrange(start as int, v@.len() as int));
    }
    if v.len() == start {
        return None;
    }
    let mut acc: u64 = 0;
    let mut i: usize = start;
    while i < v.len()
        invariant
            start <= i <= v@.len(),
            forall|k: int| start <= k < i ==> spec_is_digit(v@[k]),
            acc as int == spec_digits_val(v@.subrange(start as int, i as int)),
        decreases v@.len() - i,
    {
        let c = v[i];
        if !is_digit(c) {
            proof {
                assert(t[i - start] == v@[i as int]);
                assert(!spec_all_digits(t));
            }
            return None;
        }
        let d: u64 = digit_val(c) as u64;
        proof {
            lemma_digits_val_nonneg(v@.subrange(start as int, i as int));
        }
        if acc > u64::MAX / 10 || (acc == u64::MAX / 10 && d > u64::MAX % 10) {
            proof {
                let p = v@.subrange(start as int, i + 1);
                assert(p.drop_last() =~= v@.subrange(start as int, i as int));
                assert(p.last() == c);
                assert(spec_digits_val(p) == acc * 10 + d as int);
                assert(acc * 10 + d as int > u64::MAX) by (nonlinear_arith)
                    requires
                        acc > u64::MAX / 10 || (acc == u64::MAX / 10 && d > u64::MAX % 10),
                        d >= 0,
                        acc >= 0,
                {
                }
                if forall|k: int| 0 <= k < t.len() ==> spec_is_digit(t[k]) {
                    lemma_digits_val_prefix_le(t, i + 1 - start);
                    assert(t.subrange(0, i + 1 - start) =~= p);
                    assert(spec_digits_val(t) > u64::MAX);
                }
            }
            return None;
        }
        proof {
            assert(acc * 10 + d <= u64::MAX) by (nonlinear_arith)
                requires
                    0 <= acc <= u64::MAX / 10,
                    acc < u64::MAX / 10 || d <= u64::MAX % 10,
                    0 <= d <= 9,
            {
            }
            let p = v@.subrange(start as int, i + 1);
            assert(p.drop_last() =~= v@.subrange(start as int, i as int));
            assert(p.last() == c);
        }
        acc = acc * 10 + d;
        i = i + 1;
    }
    proof {
        assert(t =~= v@.subrange(start as int, v@.len() as int));
        assert(spec_all_digits(t)) by {
            assert(forall|k: int| 0 <= k < t.len() ==> t[k] == v@[k + start]);
        }
        assert(spec_digits_val(t) == acc as int);
    }
    if neg {
        if acc > 9223372036854775808u64 {
            return None;
        }
        if acc == 9223372036854775808u64 {
            return Some(i64::MIN);
        }
        Some(-(acc as i64))
    } else {
        if acc > i64::MAX as u64 {
            return None;
        }
        Some(acc as i64)
    }
}

} // verus!
