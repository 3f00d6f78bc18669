//! Brazilian phone numbers: validation against patterns, and formatting as
//! `+55 (AA) NNNNN-NNNN`.

use vstd::prelude::*;
use vstd::string::*;
use crate::digits::{digits_of, extract_digits};
use crate::pattern::{matches_pattern, regex_matches};
use crate::text_buf::{push_char, push_range};

verus! {

/// `+55`, a two-digit area code, an optional `9`, then eight digits.
pub const PHONE_STRICT: &'static str = "^\\+55\\d{2}9?\\d{8}$";

/// `+55`, area code, `9`, eight digits.
pub const PHONE_INTL_MOBILE: &'static str = "^\\+55\\d{2}9\\d{8}$";

/// `+55`, area code, eight digits.
pub const PHONE_INTL_LANDLINE: &'static str = "^\\+55\\d{2}\\d{8}$";

/// `55`, area code, `9`, eight digits.
pub const PHONE_COUNTRY_MOBILE: &'static str = "^55\\d{2}9\\d{8}$";

/// `0`, area code, `9`, eight digits.
pub const PHONE_TRUNK_MOBILE: &'static str = "^0\\d{2}9\\d{8}$";

/// Area code, `9`, eight digits.
pub const PHONE_LOCAL_MOBILE: &'static str = "^\\d{2}9\\d{8}$";

/// The characters dropped before flexible matching.
pub open spec fn is_phone_separator(c: char) -> bool {
    c == ' ' || c == '-' || c == '(' || c == ')' || c == '.'
}

/// `s` without its separators.
pub open spec fn strip_separators(s: Seq<char>) -> Seq<char>
    decreases s.len(),
{
    if s.len() == 0 {
        Seq::empty()
    } else if is_phone_separator(s.last()) {
        strip_separators(s.drop_last())
    } else {
        strip_separators(s.drop_last()).push(s.last())
    }
}

/// Whether one of the accepted layouts matches `s` once separators are gone.
pub open spec fn flexible_phone(s: Seq<char>) -> bool {
    let c = strip_separators(s);
    regex_matches(PHONE_INTL_MOBILE@, c) || regex_matches(PHONE_INTL_LANDLINE@, c)
        || regex_matches(PHONE_COUNTRY_MOBILE@, c) || regex_matches(PHONE_TRUNK_MOBILE@, c)
        || regex_matches(PHONE_LOCAL_MOBILE@, c)
}

/// `+55 (AA) NNNNN-NNNN` from the eleven digits of `d` that start at `k`.
pub open spec fn phone_layout(d: Seq<char>, k: int) -> Seq<char> {
    seq!['+', '5', '5', ' ', '('] + d.subrange(k, k + 2) + seq![')', ' '] + d.subrange(k + 2, k + 7)
        + seq!['-'] + d.subrange(k + 7, k + 11)
}

/// What `format_phone` returns for `s`.
pub open spec fn phone_formatted(s: Seq<char>) -> Seq<char> {
    let d = digits_of(s);
    if d.len() == 13 && d[0] == '5' && d[1] == '5' {
        phone_layout(d, 2)
    } else if d.len() == 11 {
        phone_layout(d, 0)
    } else if d.len() == 12 && d[0] == '0' {
        phone_layout(d, 1)
    } else {
        s
    }
}

/// Whether `phone` is written as `+55`, area code, optional `9`, eight digits,
/// with nothing around it.
pub fn validate_phone(phone: &str) -> (r: bool)
    ensures
        r == regex_matches(PHONE_STRICT@, phone@),
{
    matches_pattern(PHONE_STRICT, phone)
}

/// `phone` without spaces, dashes, parentheses and dots.
fn strip_phone_separators(phone: &str) -> (r: String)
    ensures
        r@ == strip_separators(phone@),
{
    let n = phone.unicode_len();
    let mut out = String::new();
    let mut i: usize = 0;
    while i < n
        invariant
            n == phone@.len(),
            i <= n,
            out@ == strip_separators(phone@.subrange(0, i as int)),
        decreases n - i,
    {
        let c = phone.get_char(i);
        assert(phone@.subrange(0, i + 1).drop_last() =~= phone@.subrange(0, i as int));
        if !(c == ' ' || c == '-' || c == '(' || c == ')' || c == '.') {
            push_char(&mut out, c);
        }
        i = i + 1;
    }
    assert(phone@.subrange(0, n as int) =~= phone@);
    out
}

/// Whether `phone`, once spaces, dashes, parentheses and dots are removed,
/// takes one of the accepted layouts: with `+55` or `55`, with a trunk `0`, or
/// bare area code and number.
pub fn validate_phone_flexible_expr(phone: &str) -> (r: bool)
    ensures
        r == flexible_phone(phone@),
{
    let clean = strip_phone_separators(phone);
    let c = clean.as_str();
    matches_pattern(PHONE_INTL_MOBILE, c) || matches_pattern(PHONE_INTL_LANDLINE, c)
        || matches_pattern(PHONE_COUNTRY_MOBILE, c) || matches_pattern(PHONE_TRUNK_MOBILE, c)
        || matches_pattern(PHONE_LOCAL_MOBILE, c)
}

/// `+55 (AA) NNNNN-NNNN` from the eleven digits of `d` that start at `k`.
fn phone_punctuated(d: &str, k: usize) -> (r: String)
    requires
        k <= 2,
        k + 11 <= d@.len(),
    ensures
        r@ == phone_layout(d@, k as int),
{
    let mut out = String::new();
    push_char(&mut out, '+');
    push_char(&mut out, '5');
    push_char(&mut out, '5');
    push_char(&mut out, ' ');
    push_char(&mut out, '(');
    push_range(&mut out, d, k, k + 2);
    push_char(&mut out, ')');
    push_char(&mut out, ' ');
    push_range(&mut out, d, k + 2, k + 7);
    push_char(&mut out, '-');
    push_range(&mut out, d, k + 7, k + 11);
    assert(out@ =~= phone_layout(d@, k as int));
    out
}

/// Formats the digits of `phone` as `+55 (AA) NNNNN-NNNN`: 13 digits that
/// start with `55`, 11 digits, or 12 digits that start with `0`. Any other
/// input comes back unchanged.
pub fn format_phone(phone: &str) -> (r: String)
    ensures
        r@ == phone_formatted(phone@),
{
    let d = extract_digits(phone);
    let n = d.unicode_len();
    if n == 13 && d.get_char(0) == '5' && d.get_char(1) == '5' {
        phone_punctuated(d.as_str(), 2)
    } else if n == 11 {
        phone_punctuated(d.as_str(), 0)
    } else if n == 12 && d.get_char(0) == '0' {
        phone_punctuated(d.as_str(), 1)
    } else {
        phone.to_owned()
    }
}

/// Formats `phone` as `format_phone` does when it passes the flexible
/// validation; otherwise returns it unchanged.
pub fn format_phone_expr(phone: &str) -> (r: String)
    ensures
        r@ == if flexible_phone(phone@) {
            phone_formatted(phone@)
        } else {
            phone@
        },
{
    if validate_phone_flexible_expr(phone) {
        format_phone(phone)
    } else {
        phone.to_owned()
    }
}

} // verus!
