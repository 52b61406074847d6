//! Character-level helpers: hexadecimal digits and contracts for the two
//! pieces of `std` string handling that the codec builds on.

use vstd::prelude::*;

verus! {

/// Relies on `String::push`: appends the given character to the end of the
/// string.
pub assume_specification[ String::push ](s: &mut String, c: char)
    ensures
        final(s)@ == old(s)@.push(c),
;

/// Relies on `char::from_u32`: returns the character with the given code
/// point, or `None` when the value is a surrogate or lies beyond the last
/// code point.
pub assume_specification[ char::from_u32 ](n: u32) -> (r: Option<char>)
    ensures
        r is Some <==> (n < 0xD800 || (0xE000 <= n && n <= 0x10FFFF)),
        r is Some ==> r->0 == n as char && r->0 as u32 == n,
;

/// Whether `c` is a hexadecimal digit, in either case.
pub open spec fn is_hex_digit(c: char) -> bool {
    (48 <= c as nat && c as nat <= 57)  // '0' ..= '9'
    || (97 <= c as nat && c as nat <= 102)  // 'a' ..= 'f'
    || (65 <= c as nat && c as nat <= 70)  // 'A' ..= 'F'
}

/// The numeric value of a hexadecimal digit.
pub open spec fn hex_val(c: char) -> nat {
    if 48 <= c as nat && c as nat <= 57 {
        (c as nat - 48) as nat
    } else if 97 <= c as nat && c as nat <= 102 {
        (c as nat - 87) as nat
    } else if 65 <= c as nat && c as nat <= 70 {
        (c as nat - 55) as nat
    } else {
        0
    }
}

/// The lower-case hexadecimal digit for a value below sixteen.
pub open spec fn hex_digit_char(d: nat) -> char {
    if d < 10 {
        ((d + 48) as u32) as char
    } else {
        ((d + 87) as u32) as char
    }
}

/// The decimal rendering of a number: most significant digit first, no
/// leading zero unless the number is zero. A digit below ten has the same
/// character in decimal as in hexadecimal.
pub open spec fn decimal_digits(n: nat) -> Seq<char>
    decreases n,
{
    if n < 10 {
        seq![hex_digit_char(n)]
    } else {
        decimal_digits(n / 10).push(hex_digit_char(n % 10))
    }
}

/// Renders a number in decimal, executably.
pub fn decimal_string(n: u64) -> (r: String)
    ensures
        r@ == decimal_digits(n as nat),
    decreases n,
{
    if n < 10 {
        let mut s = String::new();
        s.push(hex_char_of(n as u32));
        proof {
            assert(s@ =~= seq![hex_digit_char(n as nat)]);
        }
        s
    } else {
        let mut s = decimal_string(n / 10);
        s.push(hex_char_of((n % 10) as u32));
        s
    }
}

/// A digit character carries back the value it was made from.
pub proof fn lemma_hex_digit_roundtrip(d: nat)
    requires
        d < 16,
    ensures
        is_hex_digit(hex_digit_char(d)),
        hex_val(hex_digit_char(d)) == d,
{
    if d < 10 {
        assert(hex_digit_char(d) as nat == d + 48);
    } else {
        assert(hex_digit_char(d) as nat == d + 87);
    }
}

/// Tests whether an executable character is a hexadecimal digit.
pub fn check_hex_digit(c: char) -> (r: bool)
    ensures
        r == is_hex_digit(c),
{
    let n = c as u32;
    (48 <= n && n <= 57) || (97 <= n && n <= 102) || (65 <= n && n <= 70)
}

/// The numeric value of a hexadecimal digit, executably.
pub fn hex_digit_value(c: char) -> (r: u32)
    requires
        is_hex_digit(c),
    ensures
        r == hex_val(c),
        r < 16,
{
    let n = c as u32;
    if n >= 97 {
        n - 87
    } else if n >= 65 {
        n - 55
    } else {
        n - 48
    }
}

/// The character for a hexadecimal digit value, executably.
pub fn hex_char_of(d: u32) -> (r: char)
    requires
        d < 16,
    ensures
        r == hex_digit_char(d as nat),
        is_hex_digit(r),
        hex_val(r) == d,
{
    let n: u32 = if d < 10 {
        d + 48
    } else {
        d + 87
    };
    let c = char::from_u32(n);
    if let Some(ch) = c {
        ch
    } else {
        proof {
            assert(false);
        }
        ' '
    }
}

} // verus!
