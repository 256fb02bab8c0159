//! Character-level primitives shared by the tokenizer, the snippet
//! extractor and the highlighter.
//!
//! Case folding maps every character to exactly one character — the first
//! character of its Unicode lowercase mapping — so positions in a
//! case-folded text line up one to one with positions in the original
//! text. The ASCII range is folded by verified code; the rest of Unicode
//! goes through one trusted per-character wrapper. The whitespace test is
//! fully verified: `char::is_whitespace` is the Unicode `White_Space`
//! property, a fixed set of twenty-five code points written out below.

use vstd::prelude::*;

verus! {

/// The Unicode `White_Space` code points — the set `char::is_whitespace`
/// documents: the ASCII whitespace characters, next line, no-break space,
/// ogham space mark, the en-quad..hair-space block, line and paragraph
/// separators, narrow no-break space, medium mathematical space, and the
/// ideographic space.
pub open spec fn is_ws_char(c: char) -> bool {
    ||| c == '\t' || c == '\n' || c == '\u{0b}' || c == '\u{0c}' || c == '\r' || c == ' '
    ||| c == '\u{85}' || c == '\u{a0}' || c == '\u{1680}'
    ||| ('\u{2000}' <= c && c <= '\u{200a}')
    ||| c == '\u{2028}' || c == '\u{2029}' || c == '\u{202f}' || c == '\u{205f}'
    ||| c == '\u{3000}'
}

/// The lowercase of a character outside the ASCII range: the first
/// character of its Unicode lowercase mapping.
pub uninterp spec fn unicode_lower(c: char) -> char;

/// Relies on char::to_lowercase: the Unicode lowercase mapping of a
/// character is a fixed function of that character alone. Its first
/// character stands for the whole mapping, keeping the fold one character
/// to one character; the iterator is never empty, so the fallback is
/// unreachable.
#[verifier::external_body]
fn unicode_char_lower(c: char) -> (r: char)
    ensures
        r == unicode_lower(c),
{
    c.to_lowercase().next().unwrap_or(c)
}

/// One character's case fold: ASCII letters drop to lowercase, other ASCII
/// characters stay themselves, and the rest of Unicode folds by
/// `unicode_lower`.
pub open spec fn spec_lower_char(c: char) -> char {
    if 'A' <= c && c <= 'Z' {
        ((c as u32) + 32) as char
    } else if c <= '\u{7f}' {
        c
    } else {
        unicode_lower(c)
    }
}

/// Whether a character counts as alphanumeric for the highlighter's word
/// boundaries; what `char::is_alphanumeric` returns, a fixed
/// classification of the character alone.
pub uninterp spec fn is_alnum_char(c: char) -> bool;

pub open spec fn lower_seq(s: Seq<char>) -> Seq<char> {
    s.map_values(|c: char| spec_lower_char(c))
}

/// A sequence is fold-fixed when case folding leaves it unchanged.
pub open spec fn all_lower(s: Seq<char>) -> bool {
    forall|i: int| 0 <= i < s.len() ==> spec_lower_char(s[i]) == s[i]
}

/// The case fold changes nothing when applied to already-folded text:
/// folding any character of `s` a second time gives the same character.
/// This holds of the Unicode lowercase mapping, but the mapping of
/// non-ASCII characters stands behind a trusted name, so laws that need
/// the fact carry this predicate as a hypothesis instead of asserting it
/// of the name.
pub open spec fn fold_stable(s: Seq<char>) -> bool {
    forall|i: int|
        0 <= i < s.len() ==> spec_lower_char(#[trigger] spec_lower_char(s[i]))
            == spec_lower_char(s[i])
}

pub fn is_ws(c: char) -> (r: bool)
    ensures
        r == is_ws_char(c),
{
    if c <= '\u{7f}' {
        c == '\t' || c == '\n' || c == '\u{0b}' || c == '\u{0c}' || c == '\r' || c == ' '
    } else {
        c == '\u{85}' || c == '\u{a0}' || c == '\u{1680}' || ('\u{2000}' <= c && c <= '\u{200a}')
            || c == '\u{2028}' || c == '\u{2029}' || c == '\u{202f}' || c == '\u{205f}'
            || c == '\u{3000}'
    }
}

/// Relies on char::is_alphanumeric: a fixed classification of one
/// character.
#[verifier::external_body]
pub(crate) fn is_alnum(c: char) -> (r: bool)
    ensures
        r == is_alnum_char(c),
{
    c.is_alphanumeric()
}

pub fn lower_char(c: char) -> (r: char)
    ensures
        r == spec_lower_char(c),
{
    if c > '\u{7f}' {
        return unicode_char_lower(c);
    }
    match c {
        'A' => 'a',
        'B' => 'b',
        'C' => 'c',
        'D' => 'd',
        'E' => 'e',
        'F' => 'f',
        'G' => 'g',
        'H' => 'h',
        'I' => 'i',
        'J' => 'j',
        'K' => 'k',
        'L' => 'l',
        'M' => 'm',
        'N' => 'n',
        'O' => 'o',
        'P' => 'p',
        'Q' => 'q',
        'R' => 'r',
        'S' => 's',
        'T' => 't',
        'U' => 'u',
        'V' => 'v',
        'W' => 'w',
        'X' => 'x',
        'Y' => 'y',
        'Z' => 'z',
        _ => c,
    }
}

/// In the ASCII range the case fold is idempotent outright; beyond it the
/// fact rests on `fold_stable`.
pub proof fn lemma_ascii_lower_idempotent(c: char)
    requires
        c <= '\u{7f}',
    ensures
        spec_lower_char(spec_lower_char(c)) == spec_lower_char(c),
{
}

/// Any text made of ASCII characters is fold-stable, so the laws that
/// carry `fold_stable` as a hypothesis hold of it unconditionally.
pub proof fn lemma_ascii_fold_stable(s: Seq<char>)
    requires
        forall|i: int| 0 <= i < s.len() ==> (#[trigger] s[i]) <= '\u{7f}',
    ensures
        fold_stable(s),
{
    assert forall|i: int|
        0 <= i < s.len() implies spec_lower_char(#[trigger] spec_lower_char(s[i]))
        == spec_lower_char(s[i]) by {
        lemma_ascii_lower_idempotent(s[i]);
    }
}

/// Relies on str::chars, which yields exactly the characters of the
/// string; a string's view in vstd is that character sequence.
#[verifier::external_body]
pub(crate) fn str_to_chars(s: &str) -> (r: Vec<char>)
    ensures
        r@ == s@,
{
    s.chars().collect()
}

/// Relies on String's FromIterator over characters: collecting characters
/// builds the string of exactly those characters.
#[verifier::external_body]
pub(crate) fn chars_to_string(v: &Vec<char>) -> (r: String)
    ensures
        r@ == v@,
{
    v.iter().collect()
}

pub fn lower_chars(v: &Vec<char>) -> (r: Vec<char>)
    ensures
        r@ == lower_seq(v@),
{
    let mut r: Vec<char> = Vec::new();
    let mut i: usize = 0;
    while i < v.len()
        invariant
            i <= v.len(),
            r@ == lower_seq(v@.take(i as int)),
        decreases v.len() - i,
    {
        r.push(lower_char(v[i]));
        proof {
            assert(v@.take(i + 1 as int).drop_last() =~= v@.take(i as int));
            assert(r@ =~= lower_seq(v@.take(i + 1 as int)));
        }
        i = i + 1;
    }
    proof {
        assert(v@.take(v@.len() as int) =~= v@);
    }
    r
}

} // verus!
