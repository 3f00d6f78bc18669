//! Text transforms: accent stripping, title case and pig latin.

use vstd::prelude::*;
use vstd::string::*;
use crate::text_buf::{push_char, push_range, push_str};

verus! {

/// The unaccented form of a Portuguese or Spanish letter; every other
/// character maps to itself.
pub open spec fn unaccent(c: char) -> char {
    match c {
        'á' | 'à' | 'ã' | 'â' | 'ä' => 'a',
        'é' | 'è' | 'ê' | 'ë' => 'e',
        'í' | 'ì' | 'î' | 'ï' => 'i',
        'ó' | 'ò' | 'õ' | 'ô' | 'ö' => 'o',
        'ú' | 'ù' | 'û' | 'ü' => 'u',
        'ç' => 'c',
        'ñ' => 'n',
        'Á' | 'À' | 'Ã' | 'Â' | 'Ä' => 'A',
        'É' | 'È' | 'Ê' | 'Ë' => 'E',
        'Í' | 'Ì' | 'Î' | 'Ï' => 'I',
        'Ó' | 'Ò' | 'Õ' | 'Ô' | 'Ö' => 'O',
        'Ú' | 'Ù' | 'Û' | 'Ü' => 'U',
        'Ç' => 'C',
        'Ñ' => 'N',
        _ => c,
    }
}

/// `unaccent` applied to each character.
pub open spec fn unaccented(s: Seq<char>) -> Seq<char> {
    s.map_values(|c: char| unaccent(c))
}

fn unaccent_char(c: char) -> (r: char)
    ensures
        r == unaccent(c),
{
    match c {
        'á' | 'à' | 'ã' | 'â' | 'ä' => 'a',
        'é' | 'è' | 'ê' | 'ë' => 'e',
        'í' | 'ì' | 'î' | 'ï' => 'i',
        'ó' | 'ò' | 'õ' | 'ô' | 'ö' => 'o',
        'ú' | 'ù' | 'û' | 'ü' => 'u',
        'ç' => 'c',
        'ñ' => 'n',
        'Á' | 'À' | 'Ã' | 'Â' | 'Ä' => 'A',
        'É' | 'È' | 'Ê' | 'Ë' => 'E',
        'Í' | 'Ì' | 'Î' | 'Ï' => 'I',
        'Ó' | 'Ò' | 'Õ' | 'Ô' | 'Ö' => 'O',
        'Ú' | 'Ù' | 'Û' | 'Ü' => 'U',
        'Ç' => 'C',
        'Ñ' => 'N',
        _ => c,
    }
}

/// Replaces each accented vowel, `ç` and `ñ` (either case) by its plain letter.
pub fn remove_accents_expr(text: &str) -> (r: String)
    ensures
        r@ == unaccented(text@),
{
    let n = text.unicode_len();
    let mut out = String::new();
    let mut i: usize = 0;
    while i < n
        invariant
            n == text@.len(),
            i <= n,
            out@ == unaccented(text@.subrange(0, i as int)),
        decreases n - i,
    {
        let c = text.get_char(i);
        push_char(&mut out, unaccent_char(c));
        assert(unaccented(text@.subrange(0, i + 1)) =~= unaccented(
            text@.subrange(0, i as int),
        ).push(unaccent(c)));
        i = i + 1;
    }
    assert(text@.subrange(0, n as int) =~= text@);
    out
}

/// The pig latin of a word: its first character moved to the end, then `ay`.
/// The empty string stays empty.
pub open spec fn pig_latin(s: Seq<char>) -> Seq<char> {
    if s.len() == 0 {
        Seq::empty()
    } else {
        s.drop_first() + seq![s[0], 'a', 'y']
    }
}

/// Appends the pig latin of `value` to `output`.
pub fn pig_latin_str(value: &str, output: &mut String)
    ensures
        final(output)@ == old(output)@ + pig_latin(value@),
{
    let n = value.unicode_len();
    if n > 0 {
        let ghost start = output@;
        let first = value.get_char(0);
        push_range(output, value, 1, n);
        push_char(output, first);
        push_char(output, 'a');
        push_char(output, 'y');
        assert(output@ =~= start + pig_latin(value@));
    } else {
        assert(old(output)@ + pig_latin(value@) =~= old(output)@);
    }
}

/// The pig latin of `value`.
pub fn pig_latinnify(value: &str) -> (r: String)
    ensures
        r@ == pig_latin(value@),
{
    let mut out = String::new();
    pig_latin_str(value, &mut out);
    assert(out@ =~= pig_latin(value@));
    out
}

/// Whether `c` has the Unicode `White_Space` property: tab through carriage
/// return, space, next line, no-break space, ogham space mark, the spaces
/// U+2000 through U+200A, the line and paragraph separators, narrow no-break
/// space, medium mathematical space and ideographic space.
pub open spec fn white_space(c: char) -> bool {
    ('\u{9}' <= c && c <= '\u{d}') || c == ' ' || c == '\u{85}' || c == '\u{a0}'
        || c == '\u{1680}' || ('\u{2000}' <= c && c <= '\u{200a}') || c == '\u{2028}'
        || c == '\u{2029}' || c == '\u{202f}' || c == '\u{205f}' || c == '\u{3000}'
}

/// The characters of the uppercase mapping of `c`.
pub uninterp spec fn upper_of(c: char) -> Seq<char>;

/// The lowercase mapping of the string `s`.
pub uninterp spec fn lower_of(s: Seq<char>) -> Seq<char>;

/// Whether `c` is Unicode white space, the set `str::split_whitespace` splits on.
pub fn is_white_space(c: char) -> (r: bool)
    ensures
        r == white_space(c),
{
    ('\u{9}' <= c && c <= '\u{d}') || c == ' ' || c == '\u{85}' || c == '\u{a0}'
        || c == '\u{1680}' || ('\u{2000}' <= c && c <= '\u{200a}') || c == '\u{2028}'
        || c == '\u{2029}' || c == '\u{202f}' || c == '\u{205f}' || c == '\u{3000}'
}

/// Relies on `char::to_uppercase`: the characters of the uppercase mapping.
#[verifier::external_body]
fn char_to_upper(c: char) -> (r: String)
    ensures
        r@ == upper_of(c),
{
    c.to_uppercase().collect::<String>()
}

/// Relies on `str::to_lowercase`: the lowercase mapping of the whole string;
/// an empty string stays empty.
#[verifier::external_body]
fn str_to_lower(s: &str) -> (r: String)
    ensures
        r@ == lower_of(s@),
        s@.len() == 0 ==> r@.len() == 0,
{
    s.to_lowercase()
}

/// Scans `s` left to right: the words already closed by white space, and the
/// word still open at the end.
pub open spec fn scan_words(s: Seq<char>) -> (Seq<Seq<char>>, Seq<char>)
    decreases s.len(),
{
    if s.len() == 0 {
        (Seq::empty(), Seq::empty())
    } else {
        let (ws, cur) = scan_words(s.drop_last());
        let c = s.last();
        if white_space(c) {
            if cur.len() > 0 {
                (ws.push(cur), Seq::empty())
            } else {
                (ws, cur)
            }
        } else {
            (ws, cur.push(c))
        }
    }
}

/// The maximal runs of non-white-space characters of `s`, in order.
pub open spec fn words(s: Seq<char>) -> Seq<Seq<char>> {
    let (ws, cur) = scan_words(s);
    if cur.len() > 0 {
        ws.push(cur)
    } else {
        ws
    }
}

/// A word with its first character uppercased and the rest lowercased.
pub open spec fn title_word(w: Seq<char>) -> Seq<char> {
    upper_of(w[0]) + lower_of(w.drop_first())
}

/// The pieces joined by single spaces.
pub open spec fn join_spaced(parts: Seq<Seq<char>>) -> Seq<char>
    decreases parts.len(),
{
    if parts.len() == 0 {
        Seq::empty()
    } else if parts.len() == 1 {
        parts[0]
    } else {
        join_spaced(parts.drop_last()) + seq![' '] + parts.last()
    }
}

/// What `title_case_expr` returns for `s`: its words, title-cased, joined by
/// single spaces.
pub open spec fn title_cased(s: Seq<char>) -> Seq<char> {
    join_spaced(words(s).map_values(|w: Seq<char>| title_word(w)))
}

/// The views of a vector of strings.
pub open spec fn views(v: Seq<String>) -> Seq<Seq<char>> {
    v.map_values(|x: String| x@)
}

proof fn lemma_scan_words_nonempty(s: Seq<char>)
    ensures
        forall|i: int|
            0 <= i < scan_words(s).0.len() ==> (#[trigger] scan_words(s).0[i]).len() > 0,
    decreases s.len(),
{
    if s.len() > 0 {
        lemma_scan_words_nonempty(s.drop_last());
        let ws = scan_words(s.drop_last()).0;
        assert forall|i: int| 0 <= i < scan_words(s).0.len() implies (
        #[trigger] scan_words(s).0[i]).len() > 0 by {
            if i < ws.len() {
                assert(ws[i].len() > 0);
            }
        }
    }
}

/// Every word is non-empty.
pub proof fn lemma_words_nonempty(s: Seq<char>)
    ensures
        forall|i: int| 0 <= i < words(s).len() ==> (#[trigger] words(s)[i]).len() > 0,
{
    lemma_scan_words_nonempty(s);
}

/// The white-space-separated words of `text`, in order.
pub fn split_words(text: &str) -> (r: Vec<String>)
    ensures
        views(r@) == words(text@),
{
    let n = text.unicode_len();
    let mut out: Vec<String> = Vec::new();
    let mut word = String::new();
    let mut i: usize = 0;
    while i < n
        invariant
            n == text@.len(),
            i <= n,
            word@ == scan_words(text@.subrange(0, i as int)).1,
            views(out@) == scan_words(text@.subrange(0, i as int)).0,
        decreases n - i,
    {
        let c = text.get_char(i);
        assert(text@.subrange(0, i + 1).drop_last() =~= text@.subrange(0, i as int));
        if is_white_space(c) {
            if word.unicode_len() > 0 {
                let ghost before = out@;
                let done = word;
                word = String::new();
                out.push(done);
                assert(views(out@) =~= views(before).push(done@));
            }
        } else {
            push_char(&mut word, c);
        }
        i = i + 1;
    }
    assert(text@.subrange(0, n as int) =~= text@);
    if word.unicode_len() > 0 {
        let ghost before = out@;
        let ghost w = word@;
        out.push(word);
        assert(views(out@) =~= views(before).push(w));
    }
    out
}

/// Joins `first + rest` of each pair with single spaces: the last step of
/// title case, once each word's first character has been uppercased and its
/// rest lowercased.
pub fn join_title_parts(parts: &Vec<(String, String)>) -> (r: String)
    ensures
        r@ == join_spaced(parts@.map_values(|p: (String, String)| p.0@ + p.1@)),
{
    let ghost pieces = parts@.map_values(|p: (String, String)| p.0@ + p.1@);
    let mut out = String::new();
    let mut i: usize = 0;
    while i < parts.len()
        invariant
            i <= parts@.len(),
            pieces == parts@.map_values(|p: (String, String)| p.0@ + p.1@),
            out@ == join_spaced(pieces.subrange(0, i as int)),
        decreases parts@.len() - i,
    {
        let ghost pre = pieces.subrange(0, i as int);
        assert(pieces.subrange(0, i + 1).drop_last() =~= pre);
        assert(pieces.subrange(0, i + 1).last() == pieces[i as int]);
        if i > 0 {
            push_char(&mut out, ' ');
        }
        push_str(&mut out, parts[i].0.as_str());
        push_str(&mut out, parts[i].1.as_str());
        if i == 0 {
            assert(out@ =~= join_spaced(pieces.subrange(0, 1)));
        } else {
            assert(out@ =~= join_spaced(pieces.subrange(0, i + 1)));
        }
        i = i + 1;
    }
    assert(pieces.subrange(0, parts@.len() as int) =~= pieces);
    out
}

/// Uppercases the first character of each white-space-separated word and
/// lowercases the rest; the words are joined by single spaces.
pub fn title_case_expr(text: &str) -> (r: String)
    ensures
        r@ == title_cased(text@),
{
    let ws = split_words(text);
    proof {
        lemma_words_nonempty(text@);
    }
    let ghost titled = words(text@).map_values(|w: Seq<char>| title_word(w));
    let mut parts: Vec<(String, String)> = Vec::new();
    let mut i: usize = 0;
    while i < ws.len()
        invariant
            i <= ws@.len(),
            views(ws@) == words(text@),
            forall|k: int| 0 <= k < words(text@).len() ==> (#[trigger] words(text@)[k]).len() > 0,
            titled == words(text@).map_values(|w: Seq<char>| title_word(w)),
            parts@.map_values(|p: (String, String)| p.0@ + p.1@) == titled.subrange(0, i as int),
        decreases ws@.len() - i,
    {
        let w = ws[i].as_str();
        assert(w@ == words(text@)[i as int]);
        let n = w.unicode_len();
        let first = w.get_char(0);
        let upper = char_to_upper(first);
        let rest = w.substring_char(1, n);
        let lower = str_to_lower(rest);
        assert(rest@ =~= w@.drop_first());
        let ghost before = parts@;
        let ghost piece = upper@ + lower@;
        assert(piece == titled[i as int]);
        parts.push((upper, lower));
        assert(parts@.map_values(|p: (String, String)| p.0@ + p.1@) =~= before.map_values(
            |p: (String, String)| p.0@ + p.1@,
        ).push(piece));
        assert(titled.subrange(0, i + 1) =~= titled.subrange(0, i as int).push(piece));
        i = i + 1;
    }
    assert(titled.subrange(0, ws@.len() as int) =~= titled);
    join_title_parts(&parts)
}

} // verus!
