//! Decoding a create-record request body.
//!
//! The accepted grammar is a JSON object holding the members `title` and
//! `icon` exactly once each, in either order, each a JSON string literal
//! with the standard escapes (`\uXXXX`, with surrogate pairs combined).
//! Other members are ignored, whatever JSON value they carry, as a
//! schema-free decoder would ignore them. Anything else fails to decode
//! as a record and must answer with a client error.

use vstd::prelude::*;
use vstd::string::*;
use crate::chars::{
    check_hex_digit, hex_digit_char, hex_digit_value, hex_val, is_hex_digit,
    lemma_hex_digit_roundtrip,
};
use crate::json::{
    escape_char, escape_text, json_string, lemma_escape_plain, plain_text, record_json,
};
use crate::record::{Record, RecordView};

verus! {

/// A request body that does not decode as a record.
#[derive(Clone, Copy, Debug, PartialEq, Eq, Structural)]
pub struct DecodeError;

/// JSON inter-token whitespace.
pub open spec fn is_ws(c: char) -> bool {
    c == ' ' || c == '\t' || c == '\n' || c == '\r'
}

/// The first position at or after `i` holding no whitespace.
pub open spec fn spec_skip_ws(s: Seq<char>, i: int) -> int
    decreases s.len() - i,
{
    if i < s.len() && is_ws(s[i]) {
        spec_skip_ws(s, i + 1)
    } else {
        i
    }
}

/// A code point that is a Unicode scalar value (no surrogate).
pub open spec fn valid_scalar(n: nat) -> bool {
    n < 0xD800 || (0xE000 <= n && n <= 0x10FFFF)
}

/// The character denoted by a single-letter escape.
pub open spec fn unescape_simple(e: char) -> char {
    if e == '"' {
        '"'
    } else if e == '\\' {
        '\\'
    } else if e == '/' {
        '/'
    } else if e == 'b' {
        '\u{8}'
    } else if e == 'f' {
        '\u{c}'
    } else if e == 'n' {
        '\n'
    } else if e == 'r' {
        '\r'
    } else {
        '\t'
    }
}

/// Whether `e` is one of the single-letter escapes.
pub open spec fn is_simple_escape(e: char) -> bool {
    e == '"' || e == '\\' || e == '/' || e == 'b' || e == 'f' || e == 'n' || e == 'r' || e == 't'
}

/// Parses the body of a JSON string literal starting at `i` (just past the
/// opening quote): the decoded text and the position just past the closing
/// quote, or `None` when the literal is malformed.
pub open spec fn spec_parse_chars(s: Seq<char>, i: int) -> Option<(Seq<char>, int)>
    decreases s.len() - i,
{
    if i < 0 || i >= s.len() {
        None
    } else if s[i] == '"' {
        Some((Seq::empty(), i + 1))
    } else if s[i] == '\\' {
        if i + 1 >= s.len() {
            None
        } else if is_simple_escape(s[i + 1]) {
            match spec_parse_chars(s, i + 2) {
                Some(rest) => Some((seq![unescape_simple(s[i + 1])] + rest.0, rest.1)),
                None => None,
            }
        } else if s[i + 1] == 'u' {
            if i + 6 <= s.len() && is_hex_digit(s[i + 2]) && is_hex_digit(s[i + 3])
                && is_hex_digit(s[i + 4]) && is_hex_digit(s[i + 5]) {
                let n = hex_val(s[i + 2]) * 4096 + hex_val(s[i + 3]) * 256
                    + hex_val(s[i + 4]) * 16 + hex_val(s[i + 5]);
                if valid_scalar(n) {
                    match spec_parse_chars(s, i + 6) {
                        Some(rest) => Some((seq![(n as u32) as char] + rest.0, rest.1)),
                        None => None,
                    }
                } else if 0xD800 <= n < 0xDC00 && i + 12 <= s.len() && s[i + 6] == '\\'
                    && s[i + 7] == 'u' && is_hex_digit(s[i + 8]) && is_hex_digit(s[i + 9])
                    && is_hex_digit(s[i + 10]) && is_hex_digit(s[i + 11]) {
                    let m = hex_val(s[i + 8]) * 4096 + hex_val(s[i + 9]) * 256
                        + hex_val(s[i + 10]) * 16 + hex_val(s[i + 11]);
                    if 0xDC00 <= m < 0xE000 {
                        let code = 0x10000 + (n - 0xD800) * 0x400 + (m - 0xDC00);
                        match spec_parse_chars(s, i + 12) {
                            Some(rest) => Some((seq![(code as u32) as char] + rest.0, rest.1)),
                            None => None,
                        }
                    } else {
                        None
                    }
                } else {
                    None
                }
            } else {
                None
            }
        } else {
            None
        }
    } else if (s[i] as u32) < 32 {
        None
    } else {
        match spec_parse_chars(s, i + 1) {
            Some(rest) => Some((seq![s[i]] + rest.0, rest.1)),
            None => None,
        }
    }
}

/// Parses a JSON string literal whose opening quote stands at `i`.
pub open spec fn spec_parse_string(s: Seq<char>, i: int) -> Option<(Seq<char>, int)> {
    if 0 <= i < s.len() && s[i] == '"' {
        spec_parse_chars(s, i + 1)
    } else {
        None
    }
}

/// A decimal digit.
pub open spec fn is_digit(c: char) -> bool {
    48 <= c as u32 && c as u32 <= 57
}

/// The first position at or after `i` holding no decimal digit.
pub open spec fn spec_skip_digits(s: Seq<char>, i: int) -> int
    decreases s.len() - i,
{
    if i < s.len() && is_digit(s[i]) {
        spec_skip_digits(s, i + 1)
    } else {
        i
    }
}

/// The position past the fraction part of a JSON number, if any stands at
/// `j`; `None` when a decimal point comes without a digit.
pub open spec fn spec_skip_fraction(s: Seq<char>, j: int) -> Option<int> {
    if j < s.len() && s[j] == '.' {
        if j + 1 < s.len() && is_digit(s[j + 1]) {
            Some(spec_skip_digits(s, j + 1))
        } else {
            None
        }
    } else {
        Some(j)
    }
}

/// The position past the exponent part of a JSON number, if any stands at
/// `j`; `None` when an exponent mark comes without a digit.
pub open spec fn spec_skip_exponent(s: Seq<char>, j: int) -> Option<int> {
    if j < s.len() && (s[j] == 'e' || s[j] == 'E') {
        let js = if j + 1 < s.len() && (s[j + 1] == '+' || s[j + 1] == '-') {
            j + 2
        } else {
            j + 1
        };
        if js < s.len() && is_digit(s[js]) {
            Some(spec_skip_digits(s, js))
        } else {
            None
        }
    } else {
        Some(j)
    }
}

/// The position past a JSON number standing at `i`, or `None`.
pub open spec fn spec_skip_number(s: Seq<char>, i: int) -> Option<int> {
    let j0 = if 0 <= i < s.len() && s[i] == '-' {
        i + 1
    } else {
        i
    };
    if !(0 <= j0 < s.len() && is_digit(s[j0])) {
        None
    } else {
        let j1 = if s[j0] == '0' {
            j0 + 1
        } else {
            spec_skip_digits(s, j0)
        };
        match spec_skip_fraction(s, j1) {
            None => None,
            Some(j2) => spec_skip_exponent(s, j2),
        }
    }
}

/// The position past any JSON value standing at `i`, or `None`. The fuel
/// `d` bounds the recursion; it decreases along the call stack, so twice
/// the input's length covers every value the input can spell.
pub open spec fn spec_skip_value(s: Seq<char>, i: int, d: nat) -> Option<int>
    decreases d,
{
    if d == 0 {
        None
    } else if !(0 <= i < s.len()) {
        None
    } else if s[i] == '"' {
        match spec_parse_chars(s, i + 1) {
            Some(r) => Some(r.1),
            None => None,
        }
    } else if s[i] == '{' {
        let j = spec_skip_ws(s, i + 1);
        if j < s.len() && s[j] == '}' {
            Some(j + 1)
        } else {
            spec_skip_members(s, j, (d - 1) as nat)
        }
    } else if s[i] == '[' {
        let j = spec_skip_ws(s, i + 1);
        if j < s.len() && s[j] == ']' {
            Some(j + 1)
        } else {
            spec_skip_elements(s, j, (d - 1) as nat)
        }
    } else if s[i] == 't' {
        if i + 4 <= s.len() && s[i + 1] == 'r' && s[i + 2] == 'u' && s[i + 3] == 'e' {
            Some(i + 4)
        } else {
            None
        }
    } else if s[i] == 'f' {
        if i + 5 <= s.len() && s[i + 1] == 'a' && s[i + 2] == 'l' && s[i + 3] == 's'
            && s[i + 4] == 'e' {
            Some(i + 5)
        } else {
            None
        }
    } else if s[i] == 'n' {
        if i + 4 <= s.len() && s[i + 1] == 'u' && s[i + 2] == 'l' && s[i + 3] == 'l' {
            Some(i + 4)
        } else {
            None
        }
    } else {
        spec_skip_number(s, i)
    }
}

/// The position past an object's members (key, colon, value, separators)
/// and closing brace, the first key standing at `i`.
pub open spec fn spec_skip_members(s: Seq<char>, i: int, d: nat) -> Option<int>
    decreases d,
{
    if d == 0 {
        None
    } else {
        match spec_parse_string(s, i) {
            None => None,
            Some(k) => {
                let jc = spec_skip_ws(s, k.1);
                if !(jc < s.len() && s[jc] == ':') {
                    None
                } else {
                    match spec_skip_value(s, spec_skip_ws(s, jc + 1), (d - 1) as nat) {
                        None => None,
                        Some(jv) => {
                            let je = spec_skip_ws(s, jv);
                            if je < s.len() && s[je] == ',' {
                                spec_skip_members(s, spec_skip_ws(s, je + 1), (d - 1) as nat)
                            } else if je < s.len() && s[je] == '}' {
                                Some(je + 1)
                            } else {
                                None
                            }
                        },
                    }
                }
            },
        }
    }
}

/// The position past an array's elements and closing bracket, the first
/// element standing at `i`.
pub open spec fn spec_skip_elements(s: Seq<char>, i: int, d: nat) -> Option<int>
    decreases d,
{
    if d == 0 {
        None
    } else {
        match spec_skip_value(s, i, (d - 1) as nat) {
            None => None,
            Some(jv) => {
                let je = spec_skip_ws(s, jv);
                if je < s.len() && s[je] == ',' {
                    spec_skip_elements(s, spec_skip_ws(s, je + 1), (d - 1) as nat)
                } else if je < s.len() && s[je] == ']' {
                    Some(je + 1)
                } else {
                    None
                }
            },
        }
    }
}

/// The fuel that the record grammar runs on: recursion depth is bounded
/// by twice the text's length, since every level consumes text.
pub open spec fn record_fuel(s: Seq<char>) -> nat {
    2 * s.len() + 2
}

/// The view of an optional field gathered while members are walked.
pub open spec fn opt_text(o: Option<String>) -> Option<Seq<char>> {
    match o {
        Some(t) => Some(t@),
        None => None,
    }
}

/// Walks the object's members from the one whose key starts at or after
/// `i`: a `title` or `icon` member must carry a string and may come only
/// once; any other member is skipped whatever JSON value it carries.
pub open spec fn spec_parse_fields(
    s: Seq<char>,
    i: int,
    title: Option<Seq<char>>,
    icon: Option<Seq<char>>,
    d: nat,
) -> Option<RecordView>
    decreases d,
{
    if d == 0 {
        None
    } else {
        let ik = spec_skip_ws(s, i);
        match spec_parse_string(s, ik) {
            None => None,
            Some(k) => {
                let jc = spec_skip_ws(s, k.1);
                if !(jc < s.len() && s[jc] == ':') {
                    None
                } else {
                    let jv = spec_skip_ws(s, jc + 1);
                    if k.0 == "title"@ {
                        if title is Some {
                            None
                        } else {
                            match spec_parse_string(s, jv) {
                                None => None,
                                Some(v) => spec_parse_more(s, v.1, Some(v.0), icon, (d - 1) as nat),
                            }
                        }
                    } else if k.0 == "icon"@ {
                        if icon is Some {
                            None
                        } else {
                            match spec_parse_string(s, jv) {
                                None => None,
                                Some(v) => spec_parse_more(s, v.1, title, Some(v.0), (d - 1) as nat),
                            }
                        }
                    } else {
                        match spec_skip_value(s, jv, (d - 1) as nat) {
                            None => None,
                            Some(jv2) => spec_parse_more(s, jv2, title, icon, (d - 1) as nat),
                        }
                    }
                }
            },
        }
    }
}

/// After a member: a comma continues with the next member, a closing
/// brace ends the object, which must be followed by whitespace alone and
/// must have yielded both fields.
pub open spec fn spec_parse_more(
    s: Seq<char>,
    j: int,
    title: Option<Seq<char>>,
    icon: Option<Seq<char>>,
    d: nat,
) -> Option<RecordView>
    decreases d,
{
    if d == 0 {
        None
    } else {
        let je = spec_skip_ws(s, j);
        if je < s.len() && s[je] == ',' {
            spec_parse_fields(s, je + 1, title, icon, (d - 1) as nat)
        } else if je < s.len() && s[je] == '}' {
            if spec_skip_ws(s, je + 1) == s.len() {
                match (title, icon) {
                    (Some(t), Some(c)) => Some(RecordView { title: t, icon: c }),
                    _ => None,
                }
            } else {
                None
            }
        } else {
            None
        }
    }
}

/// Parses a whole request body as a record: a JSON object holding the
/// members `title` and `icon` exactly once each, in either order, other
/// members ignored, and nothing but whitespace around the object.
pub open spec fn spec_parse_record(s: Seq<char>) -> Option<RecordView> {
    let i0 = spec_skip_ws(s, 0);
    if !(i0 < s.len() && s[i0] == '{') {
        None
    } else {
        spec_parse_fields(s, i0 + 1, None, None, record_fuel(s))
    }
}

/// Whether the character at `j` is whitespace, executably.
fn ws_at(s: &str, j: usize) -> (r: bool)
    requires
        j < s@.len(),
    ensures
        r == is_ws(s@[j as int]),
{
    let c = s.get_char(j);
    c == ' ' || c == '\t' || c == '\n' || c == '\r'
}

/// Advances past whitespace, executably.
fn skip_ws(s: &str, i: usize, n: usize) -> (r: usize)
    requires
        n == s@.len(),
        i <= n,
    ensures
        r == spec_skip_ws(s@, i as int),
        i <= r <= n,
{
    let mut j = i;
    while j < n && ws_at(s, j)
        invariant
            n == s@.len(),
            i <= j <= n,
            spec_skip_ws(s@, i as int) == spec_skip_ws(s@, j as int),
        decreases n - j,
    {
        proof {
            assert(is_ws(s@[j as int]));
            assert(spec_skip_ws(s@, j as int) == spec_skip_ws(s@, j as int + 1));
        }
        j = j + 1;
    }
    proof {
        assert(spec_skip_ws(s@, j as int) == j as int);
    }
    j
}

/// Parses a JSON string literal body, executably; mirrors
/// `spec_parse_chars` step for step.
fn parse_chars(s: &str, i: usize, n: usize) -> (r: Option<(String, usize)>)
    requires
        n == s@.len(),
        i <= n,
    ensures
        r is None ==> spec_parse_chars(s@, i as int) is None,
        r is Some ==> spec_parse_chars(s@, i as int) == Some(((r->0).0@, (r->0).1 as int))
            && i < (r->0).1 <= n,
    decreases n - i,
{
    if i >= n {
        return None;
    }
    let c = s.get_char(i);
    if c == '"' {
        Some((String::new(), i + 1))
    } else if c == '\\' {
        if i + 1 >= n {
            return None;
        }
        let e = s.get_char(i + 1);
        if e == '"' || e == '\\' || e == '/' || e == 'b' || e == 'f' || e == 'n' || e == 'r'
            || e == 't' {
            let d = if e == '"' {
                '"'
            } else if e == '\\' {
                '\\'
            } else if e == '/' {
                '/'
            } else if e == 'b' {
                '\u{8}'
            } else if e == 'f' {
                '\u{c}'
            } else if e == 'n' {
                '\n'
            } else if e == 'r' {
                '\r'
            } else {
                '\t'
            };
            match parse_chars(s, i + 2, n) {
                Some((tail, j)) => {
                    let mut out = String::new();
                    out.push(d);
                    out.append(tail.as_str());
                    proof {
                        assert(out@ =~= seq![unescape_simple(s@[i as int + 1])] + tail@);
                    }
                    Some((out, j))
                },
                None => None,
            }
        } else if e == 'u' {
            if n - i < 6 {
                return None;
            }
            let h2 = s.get_char(i + 2);
            let h3 = s.get_char(i + 3);
            let h4 = s.get_char(i + 4);
            let h5 = s.get_char(i + 5);
            if !(check_hex_digit(h2) && check_hex_digit(h3) && check_hex_digit(h4)
                && check_hex_digit(h5)) {
                return None;
            }
            let v: u32 = hex_digit_value(h2) * 4096 + hex_digit_value(h3) * 256
                + hex_digit_value(h4) * 16 + hex_digit_value(h5);
            if v < 0xD800 || v >= 0xE000 {
                let ch = match char::from_u32(v) {
                    Some(ch) => ch,
                    None => {
                        proof {
                            assert(false);
                        }
                        ' '
                    },
                };
                match parse_chars(s, i + 6, n) {
                    Some((tail, j)) => {
                        let mut out = String::new();
                        out.push(ch);
                        out.append(tail.as_str());
                        proof {
                            assert(out@ =~= seq![ch] + tail@);
                        }
                        Some((out, j))
                    },
                    None => None,
                }
            } else if v < 0xDC00 {
                // a high surrogate: a second escape must follow and carry
                // the low half
                if n - i < 12 {
                    return None;
                }
                if !(s.get_char(i + 6) == '\\' && s.get_char(i + 7) == 'u') {
                    return None;
                }
                let g8 = s.get_char(i + 8);
                let g9 = s.get_char(i + 9);
                let g10 = s.get_char(i + 10);
                let g11 = s.get_char(i + 11);
                if !(check_hex_digit(g8) && check_hex_digit(g9) && check_hex_digit(g10)
                    && check_hex_digit(g11)) {
                    return None;
                }
                let w: u32 = hex_digit_value(g8) * 4096 + hex_digit_value(g9) * 256
                    + hex_digit_value(g10) * 16 + hex_digit_value(g11);
                if !(0xDC00 <= w && w < 0xE000) {
                    return None;
                }
                let code: u32 = 0x10000 + (v - 0xD800) * 0x400 + (w - 0xDC00);
                let ch = match char::from_u32(code) {
                    Some(ch) => ch,
                    None => {
                        proof {
                            assert(false);
                        }
                        ' '
                    },
                };
                match parse_chars(s, i + 12, n) {
                    Some((tail, j)) => {
                        let mut out = String::new();
                        out.push(ch);
                        out.append(tail.as_str());
                        proof {
                            assert(out@ =~= seq![ch] + tail@);
                        }
                        Some((out, j))
                    },
                    None => None,
                }
            } else {
                None
            }
        } else {
            None
        }
    } else if (c as u32) < 32 {
        None
    } else {
        match parse_chars(s, i + 1, n) {
            Some((tail, j)) => {
                let mut out = String::new();
                out.push(c);
                out.append(tail.as_str());
                proof {
                    assert(out@ =~= seq![s@[i as int]] + tail@);
                }
                Some((out, j))
            },
            None => None,
        }
    }
}

/// Parses a JSON string literal whose opening quote stands at `i`,
/// executably.
fn parse_string(s: &str, i: usize, n: usize) -> (r: Option<(String, usize)>)
    requires
        n == s@.len(),
        i <= n,
    ensures
        r is None ==> spec_parse_string(s@, i as int) is None,
        r is Some ==> spec_parse_string(s@, i as int) == Some(((r->0).0@, (r->0).1 as int))
            && i < (r->0).1 <= n,
{
    if i >= n {
        return None;
    }
    if s.get_char(i) != '"' {
        return None;
    }
    parse_chars(s, i + 1, n)
}

/// Whether the character at `j` is a decimal digit, executably.
fn digit_at(s: &str, j: usize) -> (r: bool)
    requires
        j < s@.len(),
    ensures
        r == is_digit(s@[j as int]),
{
    let c = s.get_char(j);
    let u = c as u32;
    48 <= u && u <= 57
}

/// Advances past decimal digits, executably.
fn skip_digits(s: &str, i: usize, n: usize) -> (r: usize)
    requires
        n == s@.len(),
        i <= n,
    ensures
        r == spec_skip_digits(s@, i as int),
        i <= r <= n,
{
    let mut j = i;
    while j < n && digit_at(s, j)
        invariant
            n == s@.len(),
            i <= j <= n,
            spec_skip_digits(s@, i as int) == spec_skip_digits(s@, j as int),
        decreases n - j,
    {
        proof {
            assert(is_digit(s@[j as int]));
            assert(spec_skip_digits(s@, j as int) == spec_skip_digits(s@, j as int + 1));
        }
        j = j + 1;
    }
    proof {
        assert(spec_skip_digits(s@, j as int) == j as int);
    }
    j
}

/// Skips a JSON number, executably.
fn skip_number(s: &str, i: usize, n: usize) -> (r: Option<usize>)
    requires
        n == s@.len(),
        i <= n,
    ensures
        r is None ==> spec_skip_number(s@, i as int) is None,
        r is Some ==> spec_skip_number(s@, i as int) == Some(r->0 as int) && r->0 <= n,
{
    let j0 = if i < n && s.get_char(i) == '-' {
        i + 1
    } else {
        i
    };
    if j0 >= n || !digit_at(s, j0) {
        return None;
    }
    let j1 = if s.get_char(j0) == '0' {
        j0 + 1
    } else {
        skip_digits(s, j0, n)
    };
    let j2 = if j1 < n && s.get_char(j1) == '.' {
        if j1 + 1 < n && digit_at(s, j1 + 1) {
            skip_digits(s, j1 + 1, n)
        } else {
            return None;
        }
    } else {
        j1
    };
    let j3 = if j2 < n && (s.get_char(j2) == 'e' || s.get_char(j2) == 'E') {
        let js = if j2 + 1 < n && (s.get_char(j2 + 1) == '+' || s.get_char(j2 + 1) == '-') {
            j2 + 2
        } else {
            j2 + 1
        };
        if js < n && digit_at(s, js) {
            skip_digits(s, js, n)
        } else {
            return None;
        }
    } else {
        j2
    };
    Some(j3)
}

/// Skips any JSON value, executably; mirrors `spec_skip_value`.
fn skip_value(s: &str, i: usize, n: usize, d: u128) -> (r: Option<usize>)
    requires
        n == s@.len(),
        i <= n,
    ensures
        r is None ==> spec_skip_value(s@, i as int, d as nat) is None,
        r is Some ==> spec_skip_value(s@, i as int, d as nat) == Some(r->0 as int) && r->0 <= n,
    decreases d,
{
    if d == 0 {
        return None;
    }
    if i >= n {
        return None;
    }
    let c = s.get_char(i);
    if c == '"' {
        match parse_chars(s, i + 1, n) {
            Some((_text, j)) => Some(j),
            None => None,
        }
    } else if c == '{' {
        let j = skip_ws(s, i + 1, n);
        if j < n && s.get_char(j) == '}' {
            Some(j + 1)
        } else {
            skip_members(s, j, n, d - 1)
        }
    } else if c == '[' {
        let j = skip_ws(s, i + 1, n);
        if j < n && s.get_char(j) == ']' {
            Some(j + 1)
        } else {
            skip_elements(s, j, n, d - 1)
        }
    } else if c == 't' {
        if n - i >= 4 && s.get_char(i + 1) == 'r' && s.get_char(i + 2) == 'u'
            && s.get_char(i + 3) == 'e' {
            Some(i + 4)
        } else {
            None
        }
    } else if c == 'f' {
        if n - i >= 5 && s.get_char(i + 1) == 'a' && s.get_char(i + 2) == 'l'
            && s.get_char(i + 3) == 's' && s.get_char(i + 4) == 'e' {
            Some(i + 5)
        } else {
            None
        }
    } else if c == 'n' {
        if n - i >= 4 && s.get_char(i + 1) == 'u' && s.get_char(i + 2) == 'l'
            && s.get_char(i + 3) == 'l' {
            Some(i + 4)
        } else {
            None
        }
    } else {
        skip_number(s, i, n)
    }
}

/// Skips an object's members and closing brace, executably.
fn skip_members(s: &str, i: usize, n: usize, d: u128) -> (r: Option<usize>)
    requires
        n == s@.len(),
        i <= n,
    ensures
        r is None ==> spec_skip_members(s@, i as int, d as nat) is None,
        r is Some ==> spec_skip_members(s@, i as int, d as nat) == Some(r->0 as int) && r->0 <= n,
    decreases d,
{
    if d == 0 {
        return None;
    }
    let p = match parse_string(s, i, n) {
        Some((_key, p)) => p,
        None => {
            return None;
        },
    };
    let jc = skip_ws(s, p, n);
    if jc >= n || s.get_char(jc) != ':' {
        return None;
    }
    let jv = match skip_value(s, skip_ws(s, jc + 1, n), n, d - 1) {
        Some(jv) => jv,
        None => {
            return None;
        },
    };
    let je = skip_ws(s, jv, n);
    if je < n && s.get_char(je) == ',' {
        skip_members(s, skip_ws(s, je + 1, n), n, d - 1)
    } else if je < n && s.get_char(je) == '}' {
        Some(je + 1)
    } else {
        None
    }
}

/// Skips an array's elements and closing bracket, executably.
fn skip_elements(s: &str, i: usize, n: usize, d: u128) -> (r: Option<usize>)
    requires
        n == s@.len(),
        i <= n,
    ensures
        r is None ==> spec_skip_elements(s@, i as int, d as nat) is None,
        r is Some ==> spec_skip_elements(s@, i as int, d as nat) == Some(r->0 as int) && r->0 <= n,
    decreases d,
{
    if d == 0 {
        return None;
    }
    let jv = match skip_value(s, i, n, d - 1) {
        Some(jv) => jv,
        None => {
            return None;
        },
    };
    let je = skip_ws(s, jv, n);
    if je < n && s.get_char(je) == ',' {
        skip_elements(s, skip_ws(s, je + 1, n), n, d - 1)
    } else if je < n && s.get_char(je) == ']' {
        Some(je + 1)
    } else {
        None
    }
}

/// Walks the object's members gathering the two fields, executably;
/// mirrors `spec_parse_fields`.
fn parse_fields(
    s: &str,
    i: usize,
    n: usize,
    title: Option<String>,
    icon: Option<String>,
    d: u128,
) -> (r: Option<Record>)
    requires
        n == s@.len(),
        i <= n,
    ensures
        r is None ==> spec_parse_fields(s@, i as int, opt_text(title), opt_text(icon), d as nat)
            is None,
        r is Some ==> spec_parse_fields(s@, i as int, opt_text(title), opt_text(icon), d as nat)
            == Some(r->0@),
    decreases d,
{
    if d == 0 {
        return None;
    }
    let ik = skip_ws(s, i, n);
    let (key, p) = match parse_string(s, ik, n) {
        Some(kp) => kp,
        None => {
            return None;
        },
    };
    let jc = skip_ws(s, p, n);
    if jc >= n || s.get_char(jc) != ':' {
        return None;
    }
    let jv = skip_ws(s, jc + 1, n);
    let title_key: String = "title".to_owned();
    let icon_key: String = "icon".to_owned();
    if key == title_key {
        if title.is_some() {
            return None;
        }
        match parse_string(s, jv, n) {
            Some((value, p2)) => parse_more(s, p2, n, Some(value), icon, d - 1),
            None => None,
        }
    } else if key == icon_key {
        if icon.is_some() {
            return None;
        }
        match parse_string(s, jv, n) {
            Some((value, p2)) => parse_more(s, p2, n, title, Some(value), d - 1),
            None => None,
        }
    } else {
        match skip_value(s, jv, n, d - 1) {
            Some(jv2) => parse_more(s, jv2, n, title, icon, d - 1),
            None => None,
        }
    }
}

/// After a member: continues on a comma, finishes on the closing brace,
/// executably; mirrors `spec_parse_more`.
fn parse_more(
    s: &str,
    j: usize,
    n: usize,
    title: Option<String>,
    icon: Option<String>,
    d: u128,
) -> (r: Option<Record>)
    requires
        n == s@.len(),
        j <= n,
    ensures
        r is None ==> spec_parse_more(s@, j as int, opt_text(title), opt_text(icon), d as nat)
            is None,
        r is Some ==> spec_parse_more(s@, j as int, opt_text(title), opt_text(icon), d as nat)
            == Some(r->0@),
    decreases d,
{
    if d == 0 {
        return None;
    }
    let je = skip_ws(s, j, n);
    if je < n && s.get_char(je) == ',' {
        parse_fields(s, je + 1, n, title, icon, d - 1)
    } else if je < n && s.get_char(je) == '}' {
        if skip_ws(s, je + 1, n) != n {
            return None;
        }
        match (title, icon) {
            (Some(t), Some(c)) => Some(Record { title: t, icon: c }),
            _ => None,
        }
    } else {
        None
    }
}

/// Decodes a request body as a record, or reports that it is malformed.
pub fn parse_record(s: &str) -> (r: Result<Record, DecodeError>)
    ensures
        r is Ok ==> spec_parse_record(s@) == Some(r->Ok_0@),
        r is Err ==> spec_parse_record(s@) is None,
{
    let n = s.unicode_len();
    let i0 = skip_ws(s, 0, n);
    if i0 >= n || s.get_char(i0) != '{' {
        return Err(DecodeError);
    }
    let d: u128 = 2 * (n as u128) + 2;
    proof {
        assert(d as nat == record_fuel(s@));
    }
    match parse_fields(s, i0 + 1, n, None, None, d) {
        Some(record) => Ok(record),
        None => Err(DecodeError),
    }
}


/// Skipping whitespace stops at once at the end or at a non-blank.
pub proof fn lemma_skip_ws_stop(s: Seq<char>, i: int)
    requires
        0 <= i <= s.len(),
        i == s.len() || !is_ws(s[i]),
    ensures
        spec_skip_ws(s, i) == i,
{
}

/// Parsing the escape of a text, up to its closing quote, gives the text
/// back: the character-level half of the round trip.
pub proof fn lemma_parse_escaped(full: Seq<char>, s: Seq<char>, i: int)
    requires
        0 <= i,
        i + escape_text(s).len() + 1 <= full.len(),
        full.subrange(i, i + escape_text(s).len() + 1) == escape_text(s) + seq!['"'],
    ensures
        spec_parse_chars(full, i) == Some((s, i + escape_text(s).len() + 1)),
    decreases s.len(),
{
    let et = escape_text(s);
    let end = i + et.len() + 1;
    let sub = full.subrange(i, end);
    if s.len() == 0 {
        assert(et =~= Seq::<char>::empty());
        assert(full[i] == sub[0]);
        assert(full[i] == '"');
        assert(s =~= Seq::<char>::empty());
    } else {
        let c = s.first();
        let rest = s.drop_first();
        let e1 = escape_char(c);
        let er = escape_text(rest);
        assert(et == e1 + er);
        let k = e1.len() as int;
        assert(sub[0] == full[i]);
        assert(sub[1] == full[i + 1]);
        assert(sub[0] == (et + seq!['"'])[0]);
        assert(sub[1] == (et + seq!['"'])[1]);
        assert(full.subrange(i + k, end) =~= er + seq!['"']) by {
            assert forall|j: int| 0 <= j < end - (i + k) implies full.subrange(i + k, end)[j]
                == (er + seq!['"'])[j] by {
                assert(full.subrange(i + k, end)[j] == full[i + k + j]);
                assert(sub[k + j] == full[i + (k + j)]);
                assert(sub[k + j] == (et + seq!['"'])[k + j]);
            }
        }
        lemma_parse_escaped(full, rest, i + k);
        assert(i + k + er.len() + 1 == end);
        assert(seq![c] + rest =~= s);
        if c == '"' {
            assert(e1 == seq!['\\', '"']);
            assert(full[i] == '\\');
            assert(full[i + 1] == '"');
            assert(unescape_simple(full[i + 1]) == c);
        } else if c == '\\' {
            assert(e1 == seq!['\\', '\\']);
            assert(full[i] == '\\');
            assert(full[i + 1] == '\\');
            assert(unescape_simple(full[i + 1]) == c);
        } else if c == '\u{8}' {
            assert(e1 == seq!['\\', 'b']);
            assert(full[i] == '\\');
            assert(full[i + 1] == 'b');
            assert(unescape_simple(full[i + 1]) == c);
        } else if c == '\u{c}' {
            assert(e1 == seq!['\\', 'f']);
            assert(full[i] == '\\');
            assert(full[i + 1] == 'f');
            assert(unescape_simple(full[i + 1]) == c);
        } else if c == '\n' {
            assert(e1 == seq!['\\', 'n']);
            assert(full[i] == '\\');
            assert(full[i + 1] == 'n');
            assert(unescape_simple(full[i + 1]) == c);
        } else if c == '\r' {
            assert(e1 == seq!['\\', 'r']);
            assert(full[i] == '\\');
            assert(full[i + 1] == 'r');
            assert(unescape_simple(full[i + 1]) == c);
        } else if c == '\t' {
            assert(e1 == seq!['\\', 't']);
            assert(full[i] == '\\');
            assert(full[i + 1] == 't');
            assert(unescape_simple(full[i + 1]) == c);
        } else if (c as u32) < 32 {
            let u = c as u32;
            let hi = (u / 16) as nat;
            let lo = (u % 16) as nat;
            assert(e1 == seq!['\\', 'u', '0', '0', hex_digit_char(hi), hex_digit_char(lo)]);
            assert(k == 6);
            assert(sub[2] == full[i + 2] && sub[2] == (et + seq!['"'])[2]);
            assert(sub[3] == full[i + 3] && sub[3] == (et + seq!['"'])[3]);
            assert(sub[4] == full[i + 4] && sub[4] == (et + seq!['"'])[4]);
            assert(sub[5] == full[i + 5] && sub[5] == (et + seq!['"'])[5]);
            assert(full[i] == '\\');
            assert(full[i + 1] == 'u');
            assert(full[i + 2] == '0');
            assert(full[i + 3] == '0');
            assert(full[i + 4] == hex_digit_char(hi));
            assert(full[i + 5] == hex_digit_char(lo));
            assert(!is_simple_escape('u'));
            assert(is_hex_digit('0') && hex_val('0') == 0);
            lemma_hex_digit_roundtrip(hi);
            lemma_hex_digit_roundtrip(lo);
            let n = hex_val(full[i + 2]) * 4096 + hex_val(full[i + 3]) * 256 + hex_val(
                full[i + 4],
            ) * 16 + hex_val(full[i + 5]);
            assert(n == hi * 16 + lo);
            assert(n == u as nat);
            assert(valid_scalar(n));
            assert(n as u32 == u);
            vstd::utf8::char_u32_cast(c, u);
            assert((n as u32) as char == c);
        } else {
            assert(e1 == seq![c]);
            assert(full[i] == c);
            assert(c != '"' && c != '\\' && !((c as u32) < 32));
        }
        assert(spec_parse_chars(full, i) == Some((s, end)));
    }
}

/// Parsing a JSON string literal placed into a larger text gives back the
/// text it encodes, ending just past its closing quote.
pub proof fn lemma_parse_json_string(full: Seq<char>, s: Seq<char>, i: int)
    requires
        0 <= i,
        i + json_string(s).len() <= full.len(),
        full.subrange(i, i + json_string(s).len()) == json_string(s),
    ensures
        spec_parse_string(full, i) == Some((s, i + json_string(s).len())),
{
    let js = json_string(s);
    let sub = full.subrange(i, i + js.len());
    assert(js == seq!['"'] + escape_text(s) + seq!['"']);
    assert(full[i] == sub[0]);
    assert(full[i] == '"');
    assert(full.subrange(i + 1, i + js.len()) =~= escape_text(s) + seq!['"']) by {
        assert forall|j: int| 0 <= j < js.len() - 1 implies full.subrange(i + 1, i + js.len())[j]
            == (escape_text(s) + seq!['"'])[j] by {
            assert(full.subrange(i + 1, i + js.len())[j] == full[i + 1 + j]);
            assert(full[i + 1 + j] == sub[1 + j]);
        }
    }
    lemma_parse_escaped(full, s, i + 1);
    assert(i + 1 + escape_text(s).len() + 1 == i + js.len());
}

/// The member walk of the canonical record text: with the tokens and the
/// two string literals already placed, the grammar yields the record.
proof fn lemma_round_trip_walk(full: Seq<char>, r: RecordView, a: int, b: int)
    requires
        full.len() == b + 1,
        9 <= a,
        a + 8 <= b,
        spec_skip_ws(full, 0) == 0,
        full[0] == '{',
        spec_skip_ws(full, 1) == 1,
        spec_parse_string(full, 1) == Some(("title"@, 8int)),
        spec_skip_ws(full, 8) == 8,
        full[8] == ':',
        spec_skip_ws(full, 9) == 9,
        spec_parse_string(full, 9) == Some((r.title, a)),
        spec_skip_ws(full, a) == a,
        full[a] == ',',
        spec_skip_ws(full, a + 1) == a + 1,
        spec_parse_string(full, a + 1) == Some(("icon"@, a + 7)),
        spec_skip_ws(full, a + 7) == a + 7,
        full[a + 7] == ':',
        spec_skip_ws(full, a + 8) == a + 8,
        spec_parse_string(full, a + 8) == Some((r.icon, b)),
        spec_skip_ws(full, b) == b,
        full[b] == '}',
        spec_skip_ws(full, b + 1) == b + 1,
        "icon"@ != "title"@,
    ensures
        spec_parse_record(full) == Some(r),
{
    let d0 = record_fuel(full);
    assert(d0 >= 4);
    let none = None::<Seq<char>>;
    assert(spec_parse_fields(full, 1, none, none, d0) == spec_parse_more(
        full,
        a,
        Some(r.title),
        none,
        (d0 - 1) as nat,
    ));
    assert(spec_parse_more(full, a, Some(r.title), none, (d0 - 1) as nat) == spec_parse_fields(
        full,
        a + 1,
        Some(r.title),
        none,
        (d0 - 2) as nat,
    ));
    assert(spec_parse_fields(full, a + 1, Some(r.title), none, (d0 - 2) as nat)
        == spec_parse_more(full, b, Some(r.title), Some(r.icon), (d0 - 3) as nat));
    assert(spec_parse_more(full, b, Some(r.title), Some(r.icon), (d0 - 3) as nat) == Some(
        RecordView { title: r.title, icon: r.icon },
    ));
    assert(RecordView { title: r.title, icon: r.icon } == r);
}

/// The single-character tokens of the canonical record text, and that no
/// whitespace stands between them.
#[verifier::rlimit(100)]
proof fn lemma_record_marks(r: RecordView, a: int, b: int)
    requires
        a == 9 + json_string(r.title).len(),
        b == a + 8 + json_string(r.icon).len(),
    ensures
        record_json(r).len() == b + 1,
        record_json(r)[0] == '{' && spec_skip_ws(record_json(r), 0) == 0,
        spec_skip_ws(record_json(r), 1) == 1,
        record_json(r)[8] == ':' && spec_skip_ws(record_json(r), 8) == 8,
        spec_skip_ws(record_json(r), 9) == 9,
        record_json(r)[a] == ',' && spec_skip_ws(record_json(r), a) == a,
        spec_skip_ws(record_json(r), a + 1) == a + 1,
        record_json(r)[a + 7] == ':' && spec_skip_ws(record_json(r), a + 7) == a + 7,
        spec_skip_ws(record_json(r), a + 8) == a + 8,
        record_json(r)[b] == '}' && spec_skip_ws(record_json(r), b) == b,
        spec_skip_ws(record_json(r), b + 1) == b + 1,
{
    let pre = "{\"title\":"@;
    let mid = ",\"icon\":"@;
    let post = "}"@;
    let jt = json_string(r.title);
    let ji = json_string(r.icon);
    let full = record_json(r);
    reveal_strlit("{\"title\":");
    reveal_strlit(",\"icon\":");
    reveal_strlit("}");
    assert(pre =~= seq!['{', '"', 't', 'i', 't', 'l', 'e', '"', ':']);
    assert(mid =~= seq![',', '"', 'i', 'c', 'o', 'n', '"', ':']);
    assert(post =~= seq!['}']);
    assert(full == pre + jt + mid + ji + post);
    assert(full.len() == b + 1);
    let s0 = full.subrange(0, 9);
    let s2 = full.subrange(a, a + 8);
    let s4 = full.subrange(b, b + 1);
    assert(s0 =~= pre);
    assert(s2 =~= mid);
    assert(s4 =~= post);
    assert(full[0] == s0[0] && s0[0] == pre[0] && full[0] == '{');
    assert(full[1] == s0[1] && s0[1] == pre[1] && full[1] == '"');
    assert(full[8] == s0[8] && s0[8] == pre[8] && full[8] == ':');
    assert(jt[0] == '"');
    assert(full[9] == full.subrange(9, a)[0] && full.subrange(9, a)[0] == (pre + jt + mid + ji
        + post).subrange(9, a)[0]);
    assert(full.subrange(9, a) =~= jt);
    assert(full[9] == '"');
    assert(full[a] == s2[0] && s2[0] == mid[0] && full[a] == ',');
    assert(full[a + 1] == s2[1] && s2[1] == mid[1] && full[a + 1] == '"');
    assert(full[a + 7] == s2[7] && s2[7] == mid[7] && full[a + 7] == ':');
    assert(ji[0] == '"');
    assert(full.subrange(a + 8, b) =~= ji);
    assert(full[a + 8] == full.subrange(a + 8, b)[0]);
    assert(full[a + 8] == '"');
    assert(full[b] == s4[0] && s4[0] == post[0] && full[b] == '}');
    lemma_skip_ws_stop(full, 0);
    lemma_skip_ws_stop(full, 1);
    lemma_skip_ws_stop(full, 8);
    lemma_skip_ws_stop(full, 9);
    lemma_skip_ws_stop(full, a);
    lemma_skip_ws_stop(full, a + 1);
    lemma_skip_ws_stop(full, a + 7);
    lemma_skip_ws_stop(full, a + 8);
    lemma_skip_ws_stop(full, b);
    lemma_skip_ws_stop(full, b + 1);
}

/// The two key literals of the canonical record text parse as the texts
/// `title` and `icon`.
#[verifier::rlimit(100)]
proof fn lemma_record_keys(r: RecordView, a: int)
    requires
        a == 9 + json_string(r.title).len(),
    ensures
        spec_parse_string(record_json(r), 1) == Some(("title"@, 8int)),
        spec_parse_string(record_json(r), a + 1) == Some(("icon"@, a + 7)),
{
    let pre = "{\"title\":"@;
    let mid = ",\"icon\":"@;
    let post = "}"@;
    let jt = json_string(r.title);
    let ji = json_string(r.icon);
    let full = record_json(r);
    reveal_strlit("{\"title\":");
    reveal_strlit(",\"icon\":");
    reveal_strlit("title");
    reveal_strlit("icon");
    assert(pre =~= seq!['{', '"', 't', 'i', 't', 'l', 'e', '"', ':']);
    assert(mid =~= seq![',', '"', 'i', 'c', 'o', 'n', '"', ':']);
    assert("title"@ =~= seq!['t', 'i', 't', 'l', 'e']);
    assert("icon"@ =~= seq!['i', 'c', 'o', 'n']);
    assert(full == pre + jt + mid + ji + post);
    let s0 = full.subrange(0, 9);
    let s2 = full.subrange(a, a + 8);
    assert(s0 =~= pre);
    assert(s2 =~= mid);
    assert(full[1] == s0[1] && s0[1] == pre[1] && full[1] == '"');
    assert(full[a + 1] == s2[1] && s2[1] == mid[1] && full[a + 1] == '"');
    assert(plain_text("title"@));
    assert(plain_text("icon"@));
    lemma_escape_plain("title"@);
    lemma_escape_plain("icon"@);
    assert(full.subrange(2, 8) =~= escape_text("title"@) + seq!['"']);
    assert(full.subrange(a + 2, a + 7) =~= escape_text("icon"@) + seq!['"']);
    lemma_parse_escaped(full, "title"@, 2);
    lemma_parse_escaped(full, "icon"@, a + 2);
}

/// The two value literals of the canonical record text parse as the
/// record's fields.
#[verifier::rlimit(100)]
proof fn lemma_record_values(r: RecordView, a: int, b: int)
    requires
        a == 9 + json_string(r.title).len(),
        b == a + 8 + json_string(r.icon).len(),
    ensures
        spec_parse_string(record_json(r), 9) == Some((r.title, a)),
        spec_parse_string(record_json(r), a + 8) == Some((r.icon, b)),
{
    let pre = "{\"title\":"@;
    let mid = ",\"icon\":"@;
    let post = "}"@;
    let jt = json_string(r.title);
    let ji = json_string(r.icon);
    let full = record_json(r);
    reveal_strlit("{\"title\":");
    reveal_strlit(",\"icon\":");
    reveal_strlit("}");
    assert(full == pre + jt + mid + ji + post);
    assert(pre.len() == 9 && mid.len() == 8 && post.len() == 1);
    assert(full.len() == b + 1);
    assert(full.subrange(9, a) =~= jt);
    assert(full.subrange(a + 8, b) =~= ji);
    lemma_parse_json_string(full, r.title, 9);
    lemma_parse_json_string(full, r.icon, a + 8);
}

/// Round trip: the canonical JSON text of any record decodes back to
/// exactly that record.
#[verifier::rlimit(100)]
pub proof fn lemma_record_round_trip(r: RecordView)
    ensures
        spec_parse_record(record_json(r)) == Some(r),
{
    let full = record_json(r);
    let a: int = 9 + json_string(r.title).len() as int;
    let b: int = a + 8 + json_string(r.icon).len() as int;
    lemma_record_marks(r, a, b);
    lemma_record_keys(r, a);
    lemma_record_values(r, a, b);
    assert("icon"@ != "title"@) by {
        reveal_strlit("title");
        reveal_strlit("icon");
        assert("title"@ =~= seq!['t', 'i', 't', 'l', 'e']);
        assert("icon"@ =~= seq!['i', 'c', 'o', 'n']);
        assert("icon"@.len() != "title"@.len());
    }
    lemma_round_trip_walk(full, r, a, b);
}

/// Distinct records render as distinct JSON texts, so a batch of creates
/// with pairwise distinct payloads stores pairwise distinct documents.
pub proof fn lemma_record_json_injective(r1: RecordView, r2: RecordView)
    requires
        record_json(r1) == record_json(r2),
    ensures
        r1 == r2,
{
    lemma_record_round_trip(r1);
    lemma_record_round_trip(r2);
}

} // verus!
