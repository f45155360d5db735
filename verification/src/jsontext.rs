//! Canonical JSON text.
//!
//! Values stringify the way the compact JSON form does: objects and arrays
//! without whitespace, strings quoted with `"`, `\` and control characters
//! escaped (the named escapes `\b \t \n \f \r`, and `\u00XX` in lowercase
//! hex for the rest), integers in decimal, and other numbers by the decimal
//! text they carry.

use vstd::prelude::*;
use crate::json::{JsonModel, JsonValue};
use crate::chars::to_chars;

verus! {

/// The character of a decimal digit value.
pub open spec fn spec_digit_char(n: int) -> char {
    if n == 0 { '0' }
    else if n == 1 { '1' }
    else if n == 2 { '2' }
    else if n == 3 { '3' }
    else if n == 4 { '4' }
    else if n == 5 { '5' }
    else if n == 6 { '6' }
    else if n == 7 { '7' }
    else if n == 8 { '8' }
    else { '9' }
}

/// The lowercase character of a hexadecimal digit value.
pub open spec fn spec_hex_char(n: int) -> char {
    if n < 10 { spec_digit_char(n) }
    else if n == 10 { 'a' }
    else if n == 11 { 'b' }
    else if n == 12 { 'c' }
    else if n == 13 { 'd' }
    else if n == 14 { 'e' }
    else { 'f' }
}

/// How one character appears inside a JSON string literal.
pub open spec fn spec_escape_char(c: char) -> Seq<char> {
    if c == '"' { seq!['\\', '"'] }
    else if c == '\\' { seq!['\\', '\\'] }
    else if c == '\u{8}' { seq!['\\', 'b'] }
    else if c == '\t' { seq!['\\', 't'] }
    else if c == '\n' { seq!['\\', 'n'] }
    else if c == '\u{c}' { seq!['\\', 'f'] }
    else if c == '\r' { seq!['\\', 'r'] }
    else if (c as int) < 32 {
        seq!['\\', 'u', '0', '0', spec_hex_char(c as int / 16), spec_hex_char(c as int % 16)]
    } else {
        seq![c]
    }
}

/// The escaped body of a JSON string literal.
pub open spec fn spec_escape(s: Seq<char>) -> Seq<char>
    decreases s.len(),
{
    if s.len() == 0 {
        Seq::empty()
    } else {
        spec_escape(s.drop_last()) + spec_escape_char(s.last())
    }
}

/// A JSON string literal: quotes around the escaped body.
pub open spec fn spec_quoted(s: Seq<char>) -> Seq<char> {
    seq!['"'] + spec_escape(s) + seq!['"']
}

/// Decimal text of a non-negative integer.
pub open spec fn spec_nat_text(n: int) -> Seq<char>
    decreases n,
    when n >= 0
    via spec_nat_text_dec
{
    if n <= 9 {
        seq![spec_digit_char(n)]
    } else {
        spec_nat_text(n / 10).push(spec_digit_char(n % 10))
    }
}

#[via_fn]
proof fn spec_nat_text_dec(n: int) {
    assert(n >= 10 ==> 0 <= n / 10 < n) by (nonlinear_arith);
}

/// Decimal text of an integer.
pub open spec fn spec_int_text(i: int) -> Seq<char> {
    if i < 0 {
        seq!['-'] + spec_nat_text(-i)
    } else {
        spec_nat_text(i)
    }
}

/// The canonical JSON text of a value.
pub open spec fn spec_json_text(j: JsonModel) -> Seq<char>
    decreases j, 0int,
{
    match j {
        JsonModel::Null => seq!['n', 'u', 'l', 'l'],
        JsonModel::Bool(b) => if b {
            seq!['t', 'r', 'u', 'e']
        } else {
            seq!['f', 'a', 'l', 's', 'e']
        },
        JsonModel::Int(i) => spec_int_text(i),
        JsonModel::Num(t) => t,
        JsonModel::Str(s) => spec_quoted(s),
        JsonModel::Arr(a) => seq!['['] + spec_arr_items(a, a.len() as int) + seq![']'],
        JsonModel::Obj(f) => seq!['{'] + spec_obj_items(f, f.len() as int) + seq!['}'],
    }
}

/// The comma-joined text of the first `i` array elements.
pub open spec fn spec_arr_items(a: Seq<JsonModel>, i: int) -> Seq<char>
    decreases a, i,
{
    if i <= 0 || i > a.len() {
        Seq::empty()
    } else if i == 1 {
        spec_json_text(a[0])
    } else {
        spec_arr_items(a, i - 1) + seq![','] + spec_json_text(a[i - 1])
    }
}

/// The comma-joined text of the first `i` object fields.
pub open spec fn spec_obj_items(f: Seq<(Seq<char>, JsonModel)>, i: int) -> Seq<char>
    decreases f, i,
{
    if i <= 0 || i > f.len() {
        Seq::empty()
    } else if i == 1 {
        spec_quoted(f[0].0) + seq![':'] + spec_json_text(f[0].1)
    } else {
        spec_obj_items(f, i - 1) + seq![','] + spec_quoted(f[i - 1].0) + seq![':'] + spec_json_text(
            f[i - 1].1,
        )
    }
}

/// The character of a decimal digit value.
pub fn digit_char(n: u64) -> (c: char)
    requires
        n <= 9,
    ensures
        c == spec_digit_char(n as int),
{
    match n {
        0 => '0',
        1 => '1',
        2 => '2',
        3 => '3',
        4 => '4',
        5 => '5',
        6 => '6',
        7 => '7',
        8 => '8',
        _ => '9',
    }
}

/// The lowercase character of a hexadecimal digit value.
pub fn hex_char(n: u32) -> (c: char)
    requires
        n <= 15,
    ensures
        c == spec_hex_char(n as int),
{
    match n {
        0 => '0',
        1 => '1',
        2 => '2',
        3 => '3',
        4 => '4',
        5 => '5',
        6 => '6',
        7 => '7',
        8 => '8',
        9 => '9',
        10 => 'a',
        11 => 'b',
        12 => 'c',
        13 => 'd',
        14 => 'e',
        _ => 'f',
    }
}

/// Decimal text of a non-negative 64-bit number.
pub fn nat_text(n: u64) -> (r: Vec<char>)
    ensures
        r@ == spec_nat_text(n as int),
    decreases n,
{
    if n <= 9 {
        let mut r: Vec<char> = Vec::new();
        r.push(digit_char(n));
        proof {
            assert(r@ =~= spec_nat_text(n as int));
        }
        r
    } else {
        proof {
            assert(0 <= n / 10 < n) by (nonlinear_arith)
                requires
                    n >= 10,
            {
            }
        }
        let mut r = nat_text(n / 10);
        r.push(digit_char(n % 10));
        r
    }
}

/// Decimal text of a 64-bit integer.
pub fn int_text(i: i64) -> (r: Vec<char>)
    ensures
        r@ == spec_int_text(i as int),
{
    if i >= 0 {
        nat_text(i as u64)
    } else {
        let m: u64 = if i == i64::MIN {
            9223372036854775808u64
        } else {
            (-i) as u64
        };
        let digits = nat_text(m);
        let mut r: Vec<char> = Vec::new();
        r.push('-');
        let mut k: usize = 0;
        while k < digits.len()
            invariant
                k <= digits@.len(),
                r@ == seq!['-'] + digits@.subrange(0, k as int),
            decreases digits@.len() - k,
        {
            r.push(digits[k]);
            proof {
                assert(r@ =~= seq!['-'] + digits@.subrange(0, k + 1));
            }
            k = k + 1;
        }
        proof {
            assert(digits@.subrange(0, digits@.len() as int) =~= digits@);
            assert(r@ =~= spec_int_text(i as int));
        }
        r
    }
}

/// How one character appears inside a JSON string literal.
pub fn escape_char(c: char) -> (r: Vec<char>)
    ensures
        r@ == spec_escape_char(c),
{
    let mut r: Vec<char> = Vec::new();
    if c == '"' {
        r.push('\\');
        r.push('"');
    } else if c == '\\' {
        r.push('\\');
        r.push('\\');
    } else if c == '\u{8}' {
        r.push('\\');
        r.push('b');
    } else if c == '\t' {
        r.push('\\');
        r.push('t');
    } else if c == '\n' {
        r.push('\\');
        r.push('n');
    } else if c == '\u{c}' {
        r.push('\\');
        r.push('f');
    } else if c == '\r' {
        r.push('\\');
        r.push('r');
    } else if (c as u32) < 32 {
        let v = c as u32;
        r.push('\\');
        r.push('u');
        r.push('0');
        r.push('0');
        r.push(hex_char(v / 16));
        r.push(hex_char(v % 16));
    } else {
        r.push(c);
    }
    proof {
        assert(r@ =~= spec_escape_char(c));
    }
    r
}

/// The escaped body of a JSON string literal.
pub fn escape_chars(s: &Vec<char>) -> (r: Vec<char>)
    ensures
        r@ == spec_escape(s@),
{
    let mut r: Vec<char> = Vec::new();
    let mut i: usize = 0;
    while i < s.len()
        invariant
            i <= s@.len(),
            r@ == spec_escape(s@.subrange(0, i as int)),
        decreases s@.len() - i,
    {
        let mut e = escape_char(s[i]);
        r.append(&mut e);
        proof {
            let p = s@.subrange(0, i + 1);
            assert(p.drop_last() =~= s@.subrange(0, i as int));
            assert(p.last() == s@[i as int]);
        }
        i = i + 1;
    }
    proof {
        assert(s@.subrange(0, s@.len() as int) =~= s@);
    }
    r
}

/// A JSON string literal around `s`.
pub fn quoted_chars(s: &Vec<char>) -> (r: Vec<char>)
    ensures
        r@ == spec_quoted(s@),
{
    let mut r: Vec<char> = Vec::new();
    r.push('"');
    let mut body = escape_chars(s);
    r.append(&mut body);
    r.push('"');
    proof {
        assert(r@ =~= spec_quoted(s@));
    }
    r
}

/// The canonical JSON text of `v`.
pub fn json_text(v: &JsonValue) -> (r: Vec<char>)
    ensures
        r@ == spec_json_text(v.model()),
    decreases v,
{
    match v {
        JsonValue::Null => {
            let r = to_chars("null");
            proof {
                reveal_strlit("null");
                assert(r@ =~= spec_json_text(v.model()));
            }
            r
        },
        JsonValue::Bool(b) => {
            if *b {
                let r = to_chars("true");
                proof {
                    reveal_strlit("true");
                    assert(r@ =~= spec_json_text(v.model()));
                }
                r
            } else {
                let r = to_chars("false");
                proof {
                    reveal_strlit("false");
                    assert(r@ =~= spec_json_text(v.model()));
                }
                r
            }
        },
        JsonValue::Int(i) => int_text(*i),
        JsonValue::Num(t) => to_chars(t.as_str()),
        JsonValue::Str(s) => {
            let cs = to_chars(s.as_str());
            quoted_chars(&cs)
        },
        JsonValue::Arr(a) => {
            let ghost m = v.model()->Arr_0;
            let mut r: Vec<char> = Vec::new();
            r.push('[');
            let mut i: usize = 0;
            while i < a.len()
                invariant
                    i <= a@.len(),
                    m.len() == a@.len(),
                    forall|k: int| 0 <= k < a@.len() ==> m[k] == a@[k].model(),
                    r@ == seq!['['] + spec_arr_items(m, i as int),
                decreases a@.len() - i,
            {
                if i > 0 {
                    r.push(',');
                }
                let mut item = json_text(&a[i]);
                r.append(&mut item);
                proof {
                    assert(r@ =~= seq!['['] + spec_arr_items(m, i + 1));
                }
                i = i + 1;
            }
            r.push(']');
            proof {
                assert(r@ =~= spec_json_text(v.model()));
            }
            r
        },
        JsonValue::Obj(f) => {
            let ghost m = v.model()->Obj_0;
            let mut r: Vec<char> = Vec::new();
            r.push('{');
            let mut i: usize = 0;
            while i < f.len()
                invariant
                    i <= f@.len(),
                    m.len() == f@.len(),
                    forall|k: int|
                        0 <= k < f@.len() ==> m[k].0 == f@[k].0@ && m[k].1 == f@[k].1.model(),
                    r@ == seq!['{'] + spec_obj_items(m, i as int),
                decreases f@.len() - i,
            {
                if i > 0 {
                    r.push(',');
                }
                let entry = &f[i];
                let key_cs = to_chars(entry.0.as_str());
                let mut key = quoted_chars(&key_cs);
                r.append(&mut key);
                r.push(':');
                let mut item = json_text(&entry.1);
                r.append(&mut item);
                proof {
                    assert(r@ =~= seq!['{'] + spec_obj_items(m, i + 1));
                }
                i = i + 1;
            }
            r.push('}');
            proof {
                assert(r@ =~= spec_json_text(v.model()));
            }
            r
        },
    }
}

/// The canonical JSON text of `v`, as a `String`.
pub fn json_text_string(v: &JsonValue) -> (r: String)
    ensures
        r@ == spec_json_text(v.model()),
{
    let cs = json_text(v);
    crate::chars::from_chars(&cs)
}

} // verus!
