//! CPF and CNPJ: modulo-11 check digits, classification and punctuation.

use vstd::prelude::*;
use vstd::string::*;
use crate::digits::{
    all_ascii_digits, digit_value, digits_of, extract_digits, is_ascii_digit,
    lemma_digits_of_all_digits, lemma_digits_of_concat, lemma_digits_of_digits,
};
use crate::text_buf::{push_char, push_range};

verus! {

/// The two kinds of taxpayer document.
#[derive(Clone, Copy, Debug, PartialEq, Eq, Structural)]
pub enum DocKind {
    /// An individual's number: 11 digits.
    Cpf,
    /// A company's number: 14 digits.
    Cnpj,
}

/// Weights of the first CPF check digit.
pub open spec fn cpf_weights1() -> Seq<u32> {
    seq![10, 9, 8, 7, 6, 5, 4, 3, 2]
}

/// Weights of the second CPF check digit.
pub open spec fn cpf_weights2() -> Seq<u32> {
    seq![11, 10, 9, 8, 7, 6, 5, 4, 3, 2]
}

/// Weights of the first CNPJ check digit.
pub open spec fn cnpj_weights1() -> Seq<u32> {
    seq![5, 4, 3, 2, 9, 8, 7, 6, 5, 4, 3, 2]
}

/// Weights of the second CNPJ check digit.
pub open spec fn cnpj_weights2() -> Seq<u32> {
    seq![6, 5, 4, 3, 2, 9, 8, 7, 6, 5, 4, 3, 2]
}

/// Sum of `digit_value(d[i]) * w[i]` over `i < n`.
pub open spec fn weighted_sum(d: Seq<char>, w: Seq<u32>, n: nat) -> int
    decreases n,
{
    if n == 0 {
        0
    } else {
        weighted_sum(d, w, (n - 1) as nat) + digit_value(d[n - 1]) * w[n - 1] as int
    }
}

/// The check digit for a weighted sum: 0 when the remainder modulo 11 is
/// below 2, else 11 minus the remainder.
pub open spec fn check_digit(sum: int) -> int {
    let r = sum % 11;
    if r < 2 {
        0
    } else {
        11 - r
    }
}

/// The digit right after the weighted prefix equals the check digit of that prefix.
pub open spec fn check_holds(d: Seq<char>, w: Seq<u32>) -> bool {
    digit_value(d[w.len() as int]) == check_digit(weighted_sum(d, w, w.len()))
}

/// Every digit equals the first.
pub open spec fn all_same(d: Seq<char>) -> bool {
    forall|i: int| 0 <= i < d.len() ==> #[trigger] d[i] == d[0]
}

/// A valid CPF digit sequence.
pub open spec fn cpf_valid(d: Seq<char>) -> bool {
    &&& d.len() == 11
    &&& !all_same(d)
    &&& check_holds(d, cpf_weights1())
    &&& check_holds(d, cpf_weights2())
}

/// A valid CNPJ digit sequence.
pub open spec fn cnpj_valid(d: Seq<char>) -> bool {
    &&& d.len() == 14
    &&& !all_same(d)
    &&& check_holds(d, cnpj_weights1())
    &&& check_holds(d, cnpj_weights2())
}

/// The kind of document a digit sequence is, if any.
pub open spec fn classify(d: Seq<char>) -> Option<DocKind> {
    if d.len() == 11 && cpf_valid(d) {
        Some(DocKind::Cpf)
    } else if d.len() == 14 && cnpj_valid(d) {
        Some(DocKind::Cnpj)
    } else {
        None
    }
}

/// `DDD.DDD.DDD-DD`.
pub open spec fn cpf_layout(d: Seq<char>) -> Seq<char> {
    d.subrange(0, 3) + seq!['.'] + d.subrange(3, 6) + seq!['.'] + d.subrange(6, 9) + seq!['-']
        + d.subrange(9, 11)
}

/// `DD.DDD.DDD/DDDD-DD`.
pub open spec fn cnpj_layout(d: Seq<char>) -> Seq<char> {
    d.subrange(0, 2) + seq!['.'] + d.subrange(2, 5) + seq!['.'] + d.subrange(5, 8) + seq!['/']
        + d.subrange(8, 12) + seq!['-'] + d.subrange(12, 14)
}

/// What `format_cpf` returns for `s`: the punctuated digits of a valid CPF,
/// else `s` itself.
pub open spec fn cpf_formatted(s: Seq<char>) -> Seq<char> {
    if cpf_valid(digits_of(s)) {
        cpf_layout(digits_of(s))
    } else {
        s
    }
}

/// What `format_cnpj` returns for `s`: the punctuated digits of a valid
/// CNPJ, else `s` itself.
pub open spec fn cnpj_formatted(s: Seq<char>) -> Seq<char> {
    if cnpj_valid(digits_of(s)) {
        cnpj_layout(digits_of(s))
    } else {
        s
    }
}

/// What `format_cpf_cnpj` returns for `s`: the punctuated digits of a valid
/// document, else `s` itself.
pub open spec fn document_formatted(s: Seq<char>) -> Seq<char> {
    match classify(digits_of(s)) {
        Some(DocKind::Cpf) => cpf_layout(digits_of(s)),
        Some(DocKind::Cnpj) => cnpj_layout(digits_of(s)),
        None => s,
    }
}

proof fn lemma_weighted_sum_bounds(d: Seq<char>, w: Seq<u32>, n: nat)
    requires
        n <= w.len(),
        n <= d.len(),
        all_ascii_digits(d),
        forall|i: int| 0 <= i < w.len() ==> #[trigger] w[i] <= 11,
    ensures
        0 <= weighted_sum(d, w, n) <= 99 * n,
    decreases n,
{
    if n > 0 {
        lemma_weighted_sum_bounds(d, w, (n - 1) as nat);
        let x = digit_value(d[n - 1]);
        let y = w[n - 1] as int;
        assert(is_ascii_digit(d[n - 1]));
        assert(0 <= x * y <= 99) by (nonlinear_arith)
            requires
                0 <= x <= 9,
                0 <= y <= 11,
        ;
    }
}

/// Checks the digit at `weights.len()` against the check digit of the
/// weighted digits before it.
fn check_digit_matches(d: &str, weights: &Vec<u32>) -> (r: bool)
    requires
        all_ascii_digits(d@),
        weights@.len() < d@.len() <= 14,
        forall|i: int| 0 <= i < weights@.len() ==> #[trigger] weights@[i] <= 11,
    ensures
        r == check_holds(d@, weights@),
{
    let n = weights.len();
    let mut sum: u32 = 0;
    let mut i: usize = 0;
    while i < n
        invariant
            n == weights@.len(),
            n < d@.len() <= 14,
            i <= n,
            all_ascii_digits(d@),
            forall|k: int| 0 <= k < weights@.len() ==> #[trigger] weights@[k] <= 11,
            sum as int == weighted_sum(d@, weights@, i as nat),
        decreases n - i,
    {
        let c = d.get_char(i);
        assert(is_ascii_digit(d@[i as int]));
        proof {
            lemma_weighted_sum_bounds(d@, weights@, (i + 1) as nat);
        }
        let v = (c as u32) - ('0' as u32);
        sum = sum + v * weights[i];
        i = i + 1;
    }
    let remainder = sum % 11;
    let expected: u32 = if remainder < 2 {
        0
    } else {
        11 - remainder
    };
    let c = d.get_char(n);
    assert(is_ascii_digit(d@[n as int]));
    (c as u32) - ('0' as u32) == expected
}

/// Whether every character of `d` equals the first.
fn all_same_char(d: &str) -> (r: bool)
    requires
        d@.len() > 0,
    ensures
        r == all_same(d@),
{
    let n = d.unicode_len();
    let first = d.get_char(0);
    let mut i: usize = 1;
    while i < n
        invariant
            n == d@.len(),
            1 <= i <= n,
            first == d@[0],
            forall|k: int| 0 <= k < i ==> #[trigger] d@[k] == d@[0],
        decreases n - i,
    {
        if d.get_char(i) != first {
            return false;
        }
        i = i + 1;
    }
    true
}

/// CPF validity of a string of digits.
fn cpf_digits_valid(d: &str) -> (r: bool)
    requires
        all_ascii_digits(d@),
    ensures
        r == cpf_valid(d@),
{
    if d.unicode_len() != 11 {
        return false;
    }
    if all_same_char(d) {
        return false;
    }
    let w1: Vec<u32> = vec![10, 9, 8, 7, 6, 5, 4, 3, 2];
    let w2: Vec<u32> = vec![11, 10, 9, 8, 7, 6, 5, 4, 3, 2];
    assert(w1@ =~= cpf_weights1());
    assert(w2@ =~= cpf_weights2());
    if !check_digit_matches(d, &w1) {
        return false;
    }
    check_digit_matches(d, &w2)
}

/// CNPJ validity of a string of digits.
fn cnpj_digits_valid(d: &str) -> (r: bool)
    requires
        all_ascii_digits(d@),
    ensures
        r == cnpj_valid(d@),
{
    if d.unicode_len() != 14 {
        return false;
    }
    if all_same_char(d) {
        return false;
    }
    let w1: Vec<u32> = vec![5, 4, 3, 2, 9, 8, 7, 6, 5, 4, 3, 2];
    let w2: Vec<u32> = vec![6, 5, 4, 3, 2, 9, 8, 7, 6, 5, 4, 3, 2];
    assert(w1@ =~= cnpj_weights1());
    assert(w2@ =~= cnpj_weights2());
    if !check_digit_matches(d, &w1) {
        return false;
    }
    check_digit_matches(d, &w2)
}

/// Whether the digits of `cpf` form a valid CPF; every other character is ignored.
pub fn validate_cpf(cpf: &str) -> (r: bool)
    ensures
        r == cpf_valid(digits_of(cpf@)),
{
    let d = extract_digits(cpf);
    proof {
        lemma_digits_of_all_digits(cpf@);
    }
    cpf_digits_valid(d.as_str())
}

/// Whether the digits of `cnpj` form a valid CNPJ; every other character is ignored.
pub fn validate_cnpj(cnpj: &str) -> (r: bool)
    ensures
        r == cnpj_valid(digits_of(cnpj@)),
{
    let d = extract_digits(cnpj);
    proof {
        lemma_digits_of_all_digits(cnpj@);
    }
    cnpj_digits_valid(d.as_str())
}

/// The kind of document whose digits `value` holds: a valid CPF, a valid
/// CNPJ, or neither.
pub fn identify_cpf_cnpj(value: &str) -> (r: Option<DocKind>)
    ensures
        r == classify(digits_of(value@)),
{
    let d = extract_digits(value);
    proof {
        lemma_digits_of_all_digits(value@);
    }
    let n = d.unicode_len();
    if n == 11 {
        if cpf_digits_valid(d.as_str()) {
            Some(DocKind::Cpf)
        } else {
            None
        }
    } else if n == 14 {
        if cnpj_digits_valid(d.as_str()) {
            Some(DocKind::Cnpj)
        } else {
            None
        }
    } else {
        None
    }
}

/// Punctuates 11 digits as `DDD.DDD.DDD-DD`.
fn cpf_punctuated(d: &str) -> (r: String)
    requires
        d@.len() == 11,
    ensures
        r@ == cpf_layout(d@),
{
    let mut out = String::new();
    push_range(&mut out, d, 0, 3);
    push_char(&mut out, '.');
    push_range(&mut out, d, 3, 6);
    push_char(&mut out, '.');
    push_range(&mut out, d, 6, 9);
    push_char(&mut out, '-');
    push_range(&mut out, d, 9, 11);
    assert(out@ =~= cpf_layout(d@));
    out
}

/// Punctuates 14 digits as `DD.DDD.DDD/DDDD-DD`.
fn cnpj_punctuated(d: &str) -> (r: String)
    requires
        d@.len() == 14,
    ensures
        r@ == cnpj_layout(d@),
{
    let mut out = String::new();
    push_range(&mut out, d, 0, 2);
    push_char(&mut out, '.');
    push_range(&mut out, d, 2, 5);
    push_char(&mut out, '.');
    push_range(&mut out, d, 5, 8);
    push_char(&mut out, '/');
    push_range(&mut out, d, 8, 12);
    push_char(&mut out, '-');
    push_range(&mut out, d, 12, 14);
    assert(out@ =~= cnpj_layout(d@));
    out
}

/// Punctuates the digits of `cpf` as `DDD.DDD.DDD-DD` when they form a valid
/// CPF; otherwise returns `cpf` unchanged.
pub fn format_cpf(cpf: &str) -> (r: String)
    ensures
        r@ == cpf_formatted(cpf@),
{
    let d = extract_digits(cpf);
    proof {
        lemma_digits_of_all_digits(cpf@);
    }
    if cpf_digits_valid(d.as_str()) {
        cpf_punctuated(d.as_str())
    } else {
        cpf.to_owned()
    }
}

/// Punctuates the digits of `cnpj` as `DD.DDD.DDD/DDDD-DD` when they form a
/// valid CNPJ; otherwise returns `cnpj` unchanged.
pub fn format_cnpj(cnpj: &str) -> (r: String)
    ensures
        r@ == cnpj_formatted(cnpj@),
{
    let d = extract_digits(cnpj);
    proof {
        lemma_digits_of_all_digits(cnpj@);
    }
    if cnpj_digits_valid(d.as_str()) {
        cnpj_punctuated(d.as_str())
    } else {
        cnpj.to_owned()
    }
}

/// Whether the digits of `value` form a valid CPF (11 digits) or a valid
/// CNPJ (14 digits).
pub fn validate_cpf_cnpj(value: &str) -> (r: bool)
    ensures
        r == classify(digits_of(value@)).is_some(),
{
    let d = extract_digits(value);
    proof {
        lemma_digits_of_all_digits(value@);
    }
    let n = d.unicode_len();
    if n == 11 {
        cpf_digits_valid(d.as_str())
    } else if n == 14 {
        cnpj_digits_valid(d.as_str())
    } else {
        false
    }
}

/// The label of a document kind: `"CPF"` or `"CNPJ"`.
pub open spec fn kind_label(k: DocKind) -> Seq<char> {
    match k {
        DocKind::Cpf => seq!['C', 'P', 'F'],
        DocKind::Cnpj => seq!['C', 'N', 'P', 'J'],
    }
}

impl DocKind {
    /// `"CPF"` or `"CNPJ"`.
    pub fn label(&self) -> (r: String)
        ensures
            r@ == kind_label(*self),
    {
        let mut out = String::new();
        match self {
            DocKind::Cpf => {
                push_char(&mut out, 'C');
                push_char(&mut out, 'P');
                push_char(&mut out, 'F');
            },
            DocKind::Cnpj => {
                push_char(&mut out, 'C');
                push_char(&mut out, 'N');
                push_char(&mut out, 'P');
                push_char(&mut out, 'J');
            },
        }
        assert(out@ =~= kind_label(*self));
        out
    }
}

/// `"CPF"` or `"CNPJ"` for a valid document, nothing otherwise.
pub fn is_cpf_or_cnpj(value: &str) -> (r: Option<String>)
    ensures
        match classify(digits_of(value@)) {
            Some(k) => r is Some && r->0@ == kind_label(k),
            None => r is None,
        },
{
    match identify_cpf_cnpj(value) {
        Some(k) => Some(k.label()),
        None => None,
    }
}

/// Punctuates `value` as a CPF or a CNPJ when its digits form a valid one;
/// otherwise returns `value` unchanged.
pub fn format_cpf_cnpj(value: &str) -> (r: String)
    ensures
        r@ == document_formatted(value@),
{
    let d = extract_digits(value);
    proof {
        lemma_digits_of_all_digits(value@);
    }
    let n = d.unicode_len();
    if n == 11 {
        if cpf_digits_valid(d.as_str()) {
            return format_cpf(value);
        }
    } else if n == 14 {
        if cnpj_digits_valid(d.as_str()) {
            return format_cnpj(value);
        }
    }
    value.to_owned()
}

/// A digit sequence whose length is neither 11 nor 14 is no document.
pub proof fn lemma_other_lengths_unclassified(s: Seq<char>)
    requires
        digits_of(s).len() != 11,
        digits_of(s).len() != 14,
    ensures
        classify(digits_of(s)) is None,
{
}

/// A sequence of one repeated digit is neither a valid CPF nor a valid CNPJ.
pub proof fn lemma_repeated_digit_invalid(d: Seq<char>)
    requires
        all_same(d),
    ensures
        !cpf_valid(d),
        !cnpj_valid(d),
        classify(d) is None,
{
}

/// Formatting leaves an input whose digits fail validation unchanged, with
/// either single-kind formatter and with the combined one.
pub proof fn lemma_format_invalid_unchanged(s: Seq<char>)
    requires
        classify(digits_of(s)) is None,
    ensures
        document_formatted(s) == s,
        cpf_formatted(s) == s,
        cnpj_formatted(s) == s,
{
}

/// Formatting is idempotent: the punctuated form of a valid document has the
/// same digits, so formatting it again gives it back.
pub proof fn lemma_format_idempotent(s: Seq<char>)
    ensures
        document_formatted(document_formatted(s)) == document_formatted(s),
{
    let d = digits_of(s);
    lemma_digits_of_all_digits(s);
    if classify(d) is Some {
        let f = document_formatted(s);
        assert(digits_of(f) == d) by {
            lemma_layout_digits(d);
        }
    }
}

/// A separator contributes no digit.
proof fn lemma_separator_digits(c: char)
    requires
        !is_ascii_digit(c),
    ensures
        digits_of(seq![c]) == Seq::<char>::empty(),
{
    assert(digits_of(Seq::<char>::empty()) == Seq::<char>::empty());
    assert(seq![c].drop_last() =~= Seq::<char>::empty());
    assert(seq![c].last() == c);
}

/// The digits of `acc + seq![sep] + part`, where `part` is all digits.
proof fn lemma_append_piece(acc: Seq<char>, sep: char, part: Seq<char>)
    requires
        !is_ascii_digit(sep),
        all_ascii_digits(part),
    ensures
        digits_of(acc + seq![sep] + part) == digits_of(acc) + part,
{
    lemma_separator_digits(sep);
    lemma_digits_of_concat(acc, seq![sep]);
    lemma_digits_of_concat(acc + seq![sep], part);
    lemma_digits_of_digits(part);
    assert(digits_of(acc) + Seq::<char>::empty() =~= digits_of(acc));
}

/// The punctuation of either layout adds no digit.
proof fn lemma_layout_digits(d: Seq<char>)
    requires
        all_ascii_digits(d),
    ensures
        d.len() == 11 ==> digits_of(cpf_layout(d)) == d,
        d.len() == 14 ==> digits_of(cnpj_layout(d)) == d,
{
    assert forall|a: int, b: int| 0 <= a <= b <= d.len() implies all_ascii_digits(
        #[trigger] d.subrange(a, b),
    ) by {
        assert forall|i: int| 0 <= i < b - a implies is_ascii_digit(
            #[trigger] d.subrange(a, b)[i],
        ) by {
            assert(d.subrange(a, b)[i] == d[a + i]);
        }
    }
    if d.len() == 11 {
        let p0 = d.subrange(0, 3);
        lemma_digits_of_digits(p0);
        lemma_append_piece(p0, '.', d.subrange(3, 6));
        let p1 = p0 + seq!['.'] + d.subrange(3, 6);
        lemma_append_piece(p1, '.', d.subrange(6, 9));
        let p2 = p1 + seq!['.'] + d.subrange(6, 9);
        lemma_append_piece(p2, '-', d.subrange(9, 11));
        assert(p0 + d.subrange(3, 6) + d.subrange(6, 9) + d.subrange(9, 11) =~= d);
    }
    if d.len() == 14 {
        let p0 = d.subrange(0, 2);
        lemma_digits_of_digits(p0);
        lemma_append_piece(p0, '.', d.subrange(2, 5));
        let p1 = p0 + seq!['.'] + d.subrange(2, 5);
        lemma_append_piece(p1, '.', d.subrange(5, 8));
        let p2 = p1 + seq!['.'] + d.subrange(5, 8);
        lemma_append_piece(p2, '/', d.subrange(8, 12));
        let p3 = p2 + seq!['/'] + d.subrange(8, 12);
        lemma_append_piece(p3, '-', d.subrange(12, 14));
        assert(p0 + d.subrange(2, 5) + d.subrange(5, 8) + d.subrange(8, 12) + d.subrange(12, 14)
            =~= d);
    }
}

} // verus!
