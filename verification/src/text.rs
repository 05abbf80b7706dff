//! Character and string utilities shared by the lexer, the preprocessor and
//! the renderers: character classification, conversion between `&str` and
//! `Vec<char>`, and string building.

use vstd::prelude::*;

verus! {

/// What `char::is_alphanumeric` returns; beyond ASCII the answer depends on
/// Unicode tables that are not restated here.
pub uninterp spec fn char_alphanumeric(c: char) -> bool;

/// What `char::is_whitespace` returns; beyond ASCII the answer depends on
/// Unicode tables that are not restated here.
pub uninterp spec fn char_whitespace(c: char) -> bool;

/// Whether `c` is an ASCII letter or digit.
pub open spec fn ascii_alphanumeric(c: char) -> bool {
    ('0' <= c && c <= '9') || ('a' <= c && c <= 'z') || ('A' <= c && c <= 'Z')
}

/// Whether `c` is one of the ASCII whitespace characters with the Unicode
/// `White_Space` property: space, tab, line feed, vertical tab, form feed,
/// carriage return.
pub open spec fn ascii_whitespace(c: char) -> bool {
    c == ' ' || c == '\t' || c == '\n' || c == '\u{b}' || c == '\u{c}' || c == '\r'
}

/// Relies on `char::is_alphanumeric`: true exactly for characters in the
/// Unicode Alphabetic or Number categories; on ASCII these are the letters
/// and digits.
#[verifier::external_body]
pub fn is_alphanumeric(c: char) -> (r: bool)
    ensures
        r == char_alphanumeric(c),
        (c as u32) < 128 ==> r == ascii_alphanumeric(c),
{
    c.is_alphanumeric()
}

/// Relies on `char::is_whitespace`: true exactly for characters with the
/// Unicode `White_Space` property; on ASCII these are space, tab, line feed,
/// vertical tab, form feed and carriage return.
#[verifier::external_body]
pub fn is_whitespace(c: char) -> (r: bool)
    ensures
        r == char_whitespace(c),
        (c as u32) < 128 ==> r == ascii_whitespace(c),
{
    c.is_whitespace()
}

/// Relies on `String::push`: appends one character.
#[verifier::external_body]
pub fn string_push(s: &mut String, c: char)
    ensures
        final(s)@ == old(s)@.push(c),
{
    s.push(c)
}

/// The characters of `s`, one vector entry per character.
pub fn str_to_chars(s: &str) -> (v: Vec<char>)
    ensures
        v@ == s@,
{
    let n = s.unicode_len();
    let mut v: Vec<char> = Vec::new();
    let mut i: usize = 0;
    while i < n
        invariant
            i <= n,
            n == s@.len(),
            v@ == s@.subrange(0, i as int),
        decreases n - i,
    {
        v.push(s.get_char(i));
        i = i + 1;
        proof {
            assert(v@ =~= s@.subrange(0, i as int));
        }
    }
    proof {
        assert(v@ =~= s@);
    }
    v
}

/// The string whose characters are exactly those of `v`, in order.
pub fn chars_to_string(v: &Vec<char>) -> (s: String)
    ensures
        s@ == v@,
{
    let mut s = String::new();
    let mut i: usize = 0;
    while i < v.len()
        invariant
            i <= v@.len(),
            s@ == v@.subrange(0, i as int),
        decreases v@.len() - i,
    {
        string_push(&mut s, v[i]);
        i = i + 1;
        proof {
            assert(s@ =~= v@.subrange(0, i as int));
        }
    }
    proof {
        assert(s@ =~= v@);
    }
    s
}

/// The decimal digit character for `d`.
pub open spec fn digit_char(d: nat) -> char
    recommends
        d < 10,
{
    if d == 0 {
        '0'
    } else if d == 1 {
        '1'
    } else if d == 2 {
        '2'
    } else if d == 3 {
        '3'
    } else if d == 4 {
        '4'
    } else if d == 5 {
        '5'
    } else if d == 6 {
        '6'
    } else if d == 7 {
        '7'
    } else if d == 8 {
        '8'
    } else {
        '9'
    }
}

/// The decimal digits of `n`, most significant first, no leading zeros
/// (except for `n == 0` itself).
pub open spec fn dec_of(n: nat) -> Seq<char>
    decreases n,
{
    if n < 10 {
        seq![digit_char(n)]
    } else {
        dec_of(n / 10).push(digit_char(n % 10))
    }
}

/// The decimal digits of a signed value: a `-` sign, if negative, before the
/// digits of its magnitude.
pub open spec fn dec_of_int(v: int) -> Seq<char> {
    if v < 0 {
        seq!['-'] + dec_of((0 - v) as nat)
    } else {
        dec_of(v as nat)
    }
}

fn digit_char_exec(d: u64) -> (c: char)
    requires
        d < 10,
    ensures
        c == digit_char(d as nat),
{
    if d == 0 {
        '0'
    } else if d == 1 {
        '1'
    } else if d == 2 {
        '2'
    } else if d == 3 {
        '3'
    } else if d == 4 {
        '4'
    } else if d == 5 {
        '5'
    } else if d == 6 {
        '6'
    } else if d == 7 {
        '7'
    } else if d == 8 {
        '8'
    } else {
        '9'
    }
}

/// Renders `n` in decimal.
pub fn u64_to_string(n: u64) -> (r: String)
    ensures
        r@ == dec_of(n as nat),
{
    if n == 0 {
        let r = String::from_str("0");
        proof {
            reveal_strlit("0");
            assert(r@ =~= dec_of(0));
        }
        return r;
    }
    let mut digits: Vec<char> = Vec::new();
    let mut m = n;
    proof {
        assert(digits@.reverse() =~= Seq::<char>::empty());
        assert(dec_of(n as nat) + digits@.reverse() =~= dec_of(n as nat));
    }
    loop
        invariant
            dec_of(n as nat) == (if m > 0 {
                dec_of(m as nat)
            } else {
                Seq::<char>::empty()
            }) + digits@.reverse(),
            m == 0 ==> digits@.len() > 0,
        ensures
            m == 0,
            dec_of(n as nat) == digits@.reverse(),
        decreases m,
    {
        if m == 0 {
            proof {
                assert(dec_of(n as nat) =~= digits@.reverse());
            }
            break;
        }
        let d = m % 10;
        let c = digit_char_exec(d);
        let ghost old_digits = digits@;
        digits.push(c);
        proof {
            assert(digits@.reverse() =~= seq![c] + old_digits.reverse());
            if m >= 10 {
                assert(dec_of(m as nat) == dec_of((m as nat) / 10).push(digit_char((m as nat) % 10)));
                assert(dec_of((m / 10) as nat) + digits@.reverse() =~= dec_of(m as nat)
                    + old_digits.reverse());
            } else {
                assert(dec_of(m as nat) =~= seq![c]);
                assert(Seq::<char>::empty() + digits@.reverse() =~= dec_of(m as nat)
                    + old_digits.reverse());
            }
        }
        m = m / 10;
    }
    let n_digits = digits.len();
    let mut s = String::new();
    let mut i: usize = 0;
    while i < n_digits
        invariant
            i <= n_digits,
            n_digits == digits@.len(),
            s@ == digits@.reverse().subrange(0, i as int),
        decreases n_digits - i,
    {
        string_push(&mut s, digits[n_digits - 1 - i]);
        i = i + 1;
        proof {
            assert(s@ =~= digits@.reverse().subrange(0, i as int));
        }
    }
    proof {
        assert(s@ =~= digits@.reverse());
    }
    s
}

/// Renders `n` in decimal.
pub fn usize_to_string(n: usize) -> (r: String)
    ensures
        r@ == dec_of(n as nat),
{
    u64_to_string(n as u64)
}

/// Renders `v` in decimal, with a `-` sign when negative.
pub fn i32_to_string(v: i32) -> (r: String)
    ensures
        r@ == dec_of_int(v as int),
{
    if v < 0 {
        let magnitude: u64 = (-(v as i64)) as u64;
        let mut s = String::from_str("-");
        let digits = u64_to_string(magnitude);
        s.append(digits.as_str());
        proof {
            reveal_strlit("-");
            assert(s@ =~= seq!['-'] + dec_of(magnitude as nat));
        }
        s
    } else {
        u64_to_string(v as u64)
    }
}

} // verus!
