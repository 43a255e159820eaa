//! Verified text utilities: splitting on a separator character, decimal
//! parsing, and building runs of spaces. Everything is specified over the
//! `Seq<char>` view of the strings involved.

use vstd::prelude::*;

use crate::error::Errors;

verus! {

/// The index of the first occurrence of `sep` in `s`, or `s.len()` if there
/// is none.
pub open spec fn find_sep(s: Seq<char>, sep: char) -> int
    decreases s.len(),
{
    if s.len() == 0 {
        0
    } else if s[0] == sep {
        0
    } else {
        1 + find_sep(s.drop_first(), sep)
    }
}

/// The pieces of `s` between occurrences of `sep`: always at least one piece,
/// none containing `sep`, and `s` is the pieces joined by `sep`.
pub open spec fn spec_split(s: Seq<char>, sep: char) -> Seq<Seq<char>>
    decreases s.len(),
    via spec_split_decreases
{
    let i = find_sep(s, sep);
    if i == s.len() {
        seq![s]
    } else {
        seq![s.subrange(0, i)] + spec_split(s.subrange(i + 1, s.len() as int), sep)
    }
}

#[via_fn]
proof fn spec_split_decreases(s: Seq<char>, sep: char) {
    lemma_find_sep(s, sep);
}

/// `find_sep` returns the first index holding `sep`, or the length.
pub proof fn lemma_find_sep(s: Seq<char>, sep: char)
    ensures
        0 <= find_sep(s, sep) <= s.len(),
        find_sep(s, sep) < s.len() ==> s[find_sep(s, sep)] == sep,
        forall|j: int| 0 <= j < find_sep(s, sep) ==> s[j] != sep,
    decreases s.len(),
{
    if s.len() != 0 && s[0] != sep {
        lemma_find_sep(s.drop_first(), sep);
        assert forall|j: int| 0 <= j < find_sep(s, sep) implies s[j] != sep by {
            if j > 0 {
                assert(s.drop_first()[j - 1] == s[j]);
            }
        }
    }
}

/// `find_sep` is pinned by its characterization: no `sep` before `i`, and
/// `sep` at `i` (or `i` is the length).
pub proof fn lemma_find_sep_at(s: Seq<char>, sep: char, i: int)
    requires
        0 <= i <= s.len(),
        forall|j: int| 0 <= j < i ==> s[j] != sep,
        i < s.len() ==> s[i] == sep,
    ensures
        find_sep(s, sep) == i,
    decreases s.len(),
{
    if s.len() != 0 && s[0] != sep {
        assert forall|j: int| 0 <= j < i - 1 implies s.drop_first()[j] != sep by {
            assert(s.drop_first()[j] == s[j + 1]);
        }
        assert(i - 1 < s.drop_first().len() ==> s.drop_first()[i - 1] == sep);
        lemma_find_sep_at(s.drop_first(), sep, i - 1);
    }
}

/// Splits `s` at every occurrence of `sep`.
pub fn split_char(s: &str, sep: char) -> (r: Vec<String>)
    ensures
        r@.map_values(|p: String| p@) == spec_split(s@, sep),
        r@.len() >= 1,
    decreases s@.len(),
{
    let n = s.unicode_len();
    let mut i: usize = 0;
    while i < n && s.get_char(i) != sep
        invariant
            0 <= i <= n,
            n == s@.len(),
            forall|j: int| 0 <= j < i ==> s@[j] != sep,
        decreases n - i,
    {
        i = i + 1;
    }
    proof {
        lemma_find_sep_at(s@, sep, i as int);
    }
    if i == n {
        let mut r: Vec<String> = Vec::new();
        r.push(s.to_owned());
        proof {
            assert(r@.map_values(|p: String| p@) =~= spec_split(s@, sep));
        }
        r
    } else {
        let head = s.substring_char(0, i).to_owned();
        let tail = s.substring_char(i + 1, n);
        let mut r = split_char(tail, sep);
        r.insert(0, head);
        proof {
            assert(r@.map_values(|p: String| p@) =~= spec_split(s@, sep));
        }
        r
    }
}

/// Whether `c` is a decimal digit.
pub open spec fn is_digit(c: char) -> bool {
    '0' as int <= c as int <= '9' as int
}

/// The value of a decimal digit.
pub open spec fn digit_val(c: char) -> int {
    c as int - '0' as int
}

/// Whether `s` is a non-empty run of decimal digits.
pub open spec fn is_digits(s: Seq<char>) -> bool {
    s.len() > 0 && forall|i: int| 0 <= i < s.len() ==> is_digit(s[i])
}

/// The number the digit run `s` denotes.
pub open spec fn decimal_val(s: Seq<char>) -> int
    decreases s.len(),
{
    if s.len() == 0 {
        0
    } else {
        10 * decimal_val(s.drop_last()) + digit_val(s.last())
    }
}

/// A digit run denotes a non-negative number.
pub proof fn lemma_decimal_val_nonneg(s: Seq<char>)
    requires
        forall|i: int| 0 <= i < s.len() ==> is_digit(s[i]),
    ensures
        decimal_val(s) >= 0,
    decreases s.len(),
{
    if s.len() > 0 {
        lemma_decimal_val_nonneg(s.drop_last());
    }
}

/// Extending a digit run never shrinks its value.
pub proof fn lemma_decimal_val_prefix(s: Seq<char>, i: int)
    requires
        forall|k: int| 0 <= k < s.len() ==> is_digit(s[k]),
        0 <= i <= s.len(),
    ensures
        decimal_val(s.take(i)) <= decimal_val(s),
    decreases s.len() - i,
{
    if i < s.len() {
        lemma_decimal_val_nonneg(s.take(i));
        assert(s.take(i + 1).drop_last() =~= s.take(i));
        assert(decimal_val(s.take(i + 1)) == 10 * decimal_val(s.take(i)) + digit_val(
            s.take(i + 1).last(),
        ));
        lemma_decimal_val_prefix(s, i + 1);
    } else {
        assert(s.take(i) =~= s);
    }
}

/// Whether `s` is a decimal number as `str::parse` to an unsigned integer
/// accepts one: an optional leading `+`, then at least one digit.
pub open spec fn is_decimal(s: Seq<char>) -> bool {
    if s.len() > 0 && s[0] == '+' {
        is_digits(s.drop_first())
    } else {
        is_digits(s)
    }
}

/// The number `s` denotes (the optional leading `+` changes nothing).
pub open spec fn decimal_num(s: Seq<char>) -> int {
    if s.len() > 0 && s[0] == '+' {
        decimal_val(s.drop_first())
    } else {
        decimal_val(s)
    }
}

/// Parses a decimal number as a `u16`: an optional leading `+` and at least
/// one digit. Anything else — an empty string, a sign alone, a non-digit
/// character, a value above `u16::MAX` — is a validation error.
pub fn parse_u16(s: &str) -> (r: Result<u16, Errors>)
    ensures
        r is Ok <==> is_decimal(s@) && decimal_num(s@) <= u16::MAX,
        r matches Ok(v) ==> v as int == decimal_num(s@),
        r matches Err(e) ==> e is Validation,
{
    let n = s.unicode_len();
    if n > 0 && s.get_char(0) == '+' {
        let body = s.substring_char(1, n);
        proof {
            assert(body@ =~= s@.drop_first());
        }
        parse_digits(body)
    } else {
        parse_digits(s)
    }
}

/// Parses a non-empty run of decimal digits as a `u16`.
fn parse_digits(s: &str) -> (r: Result<u16, Errors>)
    ensures
        r is Ok <==> is_digits(s@) && decimal_val(s@) <= u16::MAX,
        r matches Ok(v) ==> v as int == decimal_val(s@),
        r matches Err(e) ==> e is Validation,
{
    let n = s.unicode_len();
    if n == 0 {
        return Err(Errors::Validation(String::from_str("empty number")));
    }
    let mut acc: u32 = 0;
    let mut i: usize = 0;
    while i < n
        invariant
            0 <= i <= n,
            n == s@.len(),
            forall|j: int| 0 <= j < i ==> is_digit(s@[j]),
            acc as int == decimal_val(s@.take(i as int)),
            acc <= 0xFFFF,
        decreases n - i,
    {
        let c = s.get_char(i);
        let cv = c as u32;
        if cv < 48 || cv > 57 {
            return Err(Errors::Validation(String::from_str("not a number")));
        }
        let d: u32 = cv - 48;
        proof {
            assert(s@.take(i + 1).drop_last() =~= s@.take(i as int));
        }
        if acc > 6553 || (acc == 6553 && d > 5) {
            proof {
                if is_digits(s@) {
                    lemma_decimal_val_prefix(s@, i + 1);
                }
            }
            return Err(Errors::Validation(String::from_str("number out of range")));
        }
        acc = acc * 10 + d;
        i = i + 1;
    }
    proof {
        assert(s@.take(n as int) =~= s@);
    }
    Ok(acc as u16)
}

/// Parses a decimal number (optional leading `+`, then digits) as a `u8`.
pub fn parse_u8(s: &str) -> (r: Result<u8, Errors>)
    ensures
        r is Ok <==> is_decimal(s@) && decimal_num(s@) <= u8::MAX,
        r matches Ok(v) ==> v as int == decimal_num(s@),
        r matches Err(e) ==> e is Validation,
{
    match parse_u16(s) {
        Ok(v) => {
            if v <= 255 {
                Ok(v as u8)
            } else {
                Err(Errors::Validation(String::from_str("number out of range")))
            }
        },
        Err(e) => Err(e),
    }
}

/// A run of `n` spaces.
pub fn spaces(n: usize) -> (r: String)
    ensures
        r@ == Seq::new(n as nat, |i: int| ' '),
{
    let mut r = String::new();
    let mut i: usize = 0;
    proof {
        reveal_strlit(" ");
    }
    while i < n
        invariant
            0 <= i <= n,
            r@ =~= Seq::new(i as nat, |k: int| ' '),
            " "@ =~= seq![' '],
        decreases n - i,
    {
        r.append(" ");
        i = i + 1;
    }
    proof {
        assert(r@ =~= Seq::new(n as nat, |i: int| ' '));
    }
    r
}

/// Whether two string slices hold the same characters.
pub fn str_eq(a: &str, b: &str) -> (r: bool)
    ensures
        r == (a@ == b@),
{
    let sa = a.to_owned();
    let sb = b.to_owned();
    sa == sb
}

} // verus!
