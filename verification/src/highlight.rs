//! Term highlighting: non-overlapping whole-word ranges of the query
//! terms, and the insertion of emphasis markers around them.
//!
//! Candidate occurrences are collected word-major — earlier query words
//! first, and within one word left to right — and a candidate overlapping
//! an already accepted range is discarded. Query words shorter than three
//! characters are not highlighted. Ranges are character ranges.

use vstd::prelude::*;
use crate::chars::{chars_to_string, is_alnum, is_alnum_char, lower_chars, lower_seq, str_to_chars};
use crate::snippet::occurs_at;
use crate::tokenize::{spec_tokenize, token_views, tokenize};

verus! {

/// The query words long enough to highlight.
pub open spec fn spec_highlight_words(q: Seq<char>) -> Seq<Seq<char>> {
    spec_tokenize(q).filter(|w: Seq<char>| w.len() >= 3)
}

/// `w` occurs at `i` as a whole word: the neighbouring characters, when
/// they exist, are not alphanumeric.
pub open spec fn word_occurs_at(low: Seq<char>, w: Seq<char>, i: int) -> bool {
    &&& occurs_at(low, w, i)
    &&& (i == 0 || !is_alnum_char(low[i - 1]))
    &&& (i + w.len() == low.len() || !is_alnum_char(low[i + w.len()]))
}

pub open spec fn ranges_overlap(a: (int, int), b: (int, int)) -> bool {
    a.0 < b.1 && b.0 < a.1
}

pub open spec fn overlaps_any(rs: Seq<(int, int)>, c: (int, int)) -> bool {
    exists|k: int| 0 <= k < rs.len() && ranges_overlap(#[trigger] rs[k], c)
}

/// Scan one word across the text from offset `i`, accepting every
/// whole-word occurrence that does not overlap an accepted range.
pub open spec fn add_word_ranges(low: Seq<char>, w: Seq<char>, i: int, acc: Seq<(int, int)>) -> Seq<
    (int, int),
>
    decreases low.len() - i + 1,
{
    if i < 0 || i + w.len() > low.len() {
        acc
    } else if word_occurs_at(low, w, i) && !overlaps_any(acc, (i, i + w.len())) {
        add_word_ranges(low, w, i + 1, acc.push((i, i + w.len())))
    } else {
        add_word_ranges(low, w, i + 1, acc)
    }
}

pub open spec fn ranges_for_words(low: Seq<char>, ws: Seq<Seq<char>>, acc: Seq<(int, int)>) -> Seq<
    (int, int),
>
    decreases ws.len(),
{
    if ws.len() == 0 {
        acc
    } else {
        ranges_for_words(low, ws.drop_first(), add_word_ranges(low, ws[0], 0, acc))
    }
}

/// The accepted highlight ranges of a query against a text.
pub open spec fn spec_highlight_ranges(text: Seq<char>, q: Seq<char>) -> Seq<(int, int)> {
    ranges_for_words(lower_seq(text), spec_highlight_words(q), Seq::empty())
}

pub open spec fn pairwise_disjoint(rs: Seq<(int, int)>) -> bool {
    forall|k1: int, k2: int|
        0 <= k1 < k2 < rs.len() ==> !ranges_overlap(#[trigger] rs[k1], #[trigger] rs[k2])
}

pub open spec fn ranges_wf(rs: Seq<(int, int)>, len: int) -> bool {
    forall|k: int| 0 <= k < rs.len() ==> 0 <= (#[trigger] rs[k]).0 < rs[k].1 <= len
}

proof fn lemma_add_word_ranges_props(low: Seq<char>, w: Seq<char>, i: int, acc: Seq<(int, int)>)
    requires
        w.len() >= 1,
        pairwise_disjoint(acc),
        ranges_wf(acc, low.len() as int),
        acc.is_prefix_of(add_word_ranges(low, w, i, acc)),
    ensures
        pairwise_disjoint(add_word_ranges(low, w, i, acc)),
        ranges_wf(add_word_ranges(low, w, i, acc), low.len() as int),
    decreases low.len() - i + 1,
{
    if i < 0 || i + w.len() > low.len() {
    } else if word_occurs_at(low, w, i) && !overlaps_any(acc, (i, i + w.len())) {
        let acc2 = acc.push((i, i + w.len()));
        assert(pairwise_disjoint(acc2)) by {
            assert forall|k1: int, k2: int| 0 <= k1 < k2 < acc2.len() implies !ranges_overlap(
                #[trigger] acc2[k1],
                #[trigger] acc2[k2],
            ) by {
                if k2 == acc.len() {
                    assert(acc2[k1] == acc[k1]);
                    assert(!ranges_overlap(acc[k1], (i, i + w.len())));
                } else {
                    assert(acc2[k1] == acc[k1] && acc2[k2] == acc[k2]);
                }
            }
        }
        assert(ranges_wf(acc2, low.len() as int)) by {
            assert(forall|k: int| 0 <= k < acc.len() ==> acc2[k] == acc[k]);
            assert(acc2[acc.len() as int] == (i, i + w.len()));
        }
        lemma_add_prefix(low, w, i + 1, acc2);
        lemma_add_word_ranges_props(low, w, i + 1, acc2);
    } else {
        lemma_add_prefix(low, w, i + 1, acc);
        lemma_add_word_ranges_props(low, w, i + 1, acc);
    }
}

/// The accumulator is always a prefix of what the scan returns.
proof fn lemma_add_prefix(low: Seq<char>, w: Seq<char>, i: int, acc: Seq<(int, int)>)
    ensures
        acc.is_prefix_of(add_word_ranges(low, w, i, acc)),
    decreases low.len() - i + 1,
{
    if i < 0 || i + w.len() > low.len() {
    } else if word_occurs_at(low, w, i) && !overlaps_any(acc, (i, i + w.len())) {
        let acc2 = acc.push((i, i + w.len()));
        lemma_add_prefix(low, w, i + 1, acc2);
        assert(acc.is_prefix_of(acc2));
        lemma_prefix_trans(acc, acc2, add_word_ranges(low, w, i + 1, acc2));
    } else {
        lemma_add_prefix(low, w, i + 1, acc);
    }
}

proof fn lemma_prefix_trans(a: Seq<(int, int)>, b: Seq<(int, int)>, c: Seq<(int, int)>)
    requires
        a.is_prefix_of(b),
        b.is_prefix_of(c),
    ensures
        a.is_prefix_of(c),
{
    assert(a =~= c.subrange(0, a.len() as int));
}

proof fn lemma_ranges_for_words_props(low: Seq<char>, ws: Seq<Seq<char>>, acc: Seq<(int, int)>)
    requires
        forall|k: int| 0 <= k < ws.len() ==> (#[trigger] ws[k]).len() >= 1,
        pairwise_disjoint(acc),
        ranges_wf(acc, low.len() as int),
    ensures
        pairwise_disjoint(ranges_for_words(low, ws, acc)),
        ranges_wf(ranges_for_words(low, ws, acc), low.len() as int),
    decreases ws.len(),
{
    if ws.len() > 0 {
        assert(ws[0].len() >= 1);
        lemma_add_prefix(low, ws[0], 0, acc);
        lemma_add_word_ranges_props(low, ws[0], 0, acc);
        assert(forall|k: int|
            0 <= k < ws.drop_first().len() ==> (#[trigger] ws.drop_first()[k]).len() >= 1);
        lemma_ranges_for_words_props(low, ws.drop_first(), add_word_ranges(low, ws[0], 0, acc));
    }
}

/// The highlighter's ranges never overlap, and every range is a non-empty
/// character range of the text.
pub proof fn lemma_highlight_ranges_disjoint(text: Seq<char>, q: Seq<char>)
    ensures
        pairwise_disjoint(spec_highlight_ranges(text, q)),
        ranges_wf(spec_highlight_ranges(text, q), text.len() as int),
{
    let ws = spec_highlight_words(q);
    assert forall|k: int| 0 <= k < ws.len() implies (#[trigger] ws[k]).len() >= 1 by {
        spec_tokenize(q).lemma_filter_pred(|w: Seq<char>| w.len() >= 3, k);
    }
    lemma_ranges_for_words_props(lower_seq(text), ws, Seq::empty());
}

// ------------------------------------------------------------------
// Inserting the markers.
// ------------------------------------------------------------------

/// Some accepted range starts at `p`.
pub open spec fn has_start(rs: Seq<(int, int)>, p: int) -> bool {
    exists|k: int| 0 <= k < rs.len() && (#[trigger] rs[k]).0 == p
}

/// Some accepted range ends at `p`.
pub open spec fn has_end(rs: Seq<(int, int)>, p: int) -> bool {
    exists|k: int| 0 <= k < rs.len() && (#[trigger] rs[k]).1 == p
}

/// The text from position `p` on, with an opening marker before every
/// position where a range starts and a closing marker after every
/// position where one ends. For disjoint ranges this wraps each range.
pub open spec fn emit_pos(
    text: Seq<char>,
    rs: Seq<(int, int)>,
    pre: Seq<char>,
    suf: Seq<char>,
    p: int,
) -> Seq<char>
    decreases text.len() - p,
{
    if p < 0 || p >= text.len() {
        if has_end(rs, p) {
            suf
        } else {
            Seq::empty()
        }
    } else {
        (if has_end(rs, p) {
            suf
        } else {
            Seq::empty()
        }) + (if has_start(rs, p) {
            pre
        } else {
            Seq::empty()
        }) + seq![text[p]] + emit_pos(text, rs, pre, suf, p + 1)
    }
}

/// What the full highlighter computes.
pub open spec fn spec_highlight(text: Seq<char>, q: Seq<char>, pre: Seq<char>, suf: Seq<char>) -> Seq<
    char,
> {
    emit_pos(text, spec_highlight_ranges(text, q), pre, suf, 0)
}

/// With empty markers the emission is the text itself: stripping the
/// markers from the highlighted text yields exactly the input, and the
/// highlighter, a pure function, then finds the same ranges again.
pub proof fn lemma_emit_empty_markers(text: Seq<char>, rs: Seq<(int, int)>, p: int)
    requires
        0 <= p <= text.len(),
    ensures
        emit_pos(text, rs, Seq::empty(), Seq::empty(), p) == text.subrange(p, text.len() as int),
    decreases text.len() - p,
{
    if p >= text.len() {
        assert(emit_pos(text, rs, Seq::empty(), Seq::empty(), p) =~= text.subrange(
            p,
            text.len() as int,
        ));
    } else {
        lemma_emit_empty_markers(text, rs, p + 1);
        assert(Seq::<char>::empty() + Seq::<char>::empty() + seq![text[p]] + text.subrange(
            p + 1,
            text.len() as int,
        ) =~= text.subrange(p, text.len() as int));
    }
}

pub open spec fn range_views(rs: Seq<(usize, usize)>) -> Seq<(int, int)> {
    rs.map_values(|r: (usize, usize)| (r.0 as int, r.1 as int))
}

// ------------------------------------------------------------------
// The executable highlighter.
// ------------------------------------------------------------------

fn overlaps_accepted(acc: &Vec<(usize, usize)>, a: usize, b: usize) -> (r: bool)
    ensures
        r == overlaps_any(range_views(acc@), (a as int, b as int)),
{
    let mut k: usize = 0;
    while k < acc.len()
        invariant
            k <= acc@.len(),
            forall|m: int|
                0 <= m < k ==> !ranges_overlap(#[trigger] range_views(acc@)[m], (a as int, b as int)),
        decreases acc@.len() - k,
    {
        if acc[k].0 < b && a < acc[k].1 {
            proof {
                assert(ranges_overlap(range_views(acc@)[k as int], (a as int, b as int)));
            }
            return true;
        }
        k = k + 1;
    }
    false
}

fn word_matches_at(low: &Vec<char>, w: &Vec<char>, i: usize) -> (r: bool)
    requires
        i + w.len() <= low.len(),
    ensures
        r == word_occurs_at(low@, w@, i as int),
{
    if !crate::snippet::match_at(low, w, i) {
        return false;
    }
    if i > 0 && is_alnum(low[i - 1]) {
        return false;
    }
    if i + w.len() < low.len() && is_alnum(low[i + w.len()]) {
        return false;
    }
    true
}

/// The accepted highlight ranges, word-major, as character ranges.
pub fn highlight_ranges(text: &str, query: &str) -> (r: Vec<(usize, usize)>)
    ensures
        range_views(r@) == spec_highlight_ranges(text@, query@),
{
    let cs = str_to_chars(text);
    let low = lower_chars(&cs);
    let toks = tokenize(query);
    let mut words: Vec<String> = Vec::new();
    let mut i: usize = 0;
    proof {
        reveal(Seq::filter);
        assert(token_views(toks@).subrange(0, 0) =~= Seq::<Seq<char>>::empty());
        assert(Seq::<Seq<char>>::empty().filter(|w: Seq<char>| w.len() >= 3)
            =~= Seq::<Seq<char>>::empty());
        assert(token_views(words@) =~= Seq::<Seq<char>>::empty());
    }
    while i < toks.len()
        invariant
            i <= toks@.len(),
            token_views(words@) == token_views(toks@).subrange(0, i as int).filter(
                |w: Seq<char>| w.len() >= 3,
            ),
        decreases toks@.len() - i,
    {
        proof {
            let pre = token_views(toks@).subrange(0, i + 1 as int);
            assert(pre.drop_last() =~= token_views(toks@).subrange(0, i as int));
            assert(pre.last() == token_views(toks@)[i as int]);
        }
        let wc = str_to_chars(toks[i].as_str());
        proof {
            reveal(Seq::filter);
            let pred = |w: Seq<char>| w.len() >= 3;
            let prefix = token_views(toks@).subrange(0, i as int);
            let x = toks@[i as int]@;
            assert(token_views(toks@).subrange(0, i + 1 as int) =~= prefix + seq![x]);
            Seq::<Seq<char>>::filter_distributes_over_add(prefix, seq![x], pred);
            assert(seq![x].drop_last() =~= Seq::<Seq<char>>::empty());
            assert(seq![x].filter(pred) == if pred(x) {
                Seq::<Seq<char>>::empty().push(x)
            } else {
                Seq::<Seq<char>>::empty()
            });
        }
        if wc.len() >= 3 {
            let ghost before = words@;
            let w = toks[i].clone();
            words.push(w);
            proof {
                assert(token_views(words@) =~= token_views(before).push(toks@[i as int]@));
                assert(token_views(words@) =~= token_views(toks@).subrange(0, i + 1 as int).filter(
                    |w: Seq<char>| w.len() >= 3,
                ));
            }
        } else {
            proof {
                assert(token_views(words@) =~= token_views(toks@).subrange(0, i + 1 as int).filter(
                    |w: Seq<char>| w.len() >= 3,
                ));
            }
        }
        i = i + 1;
    }
    proof {
        assert(token_views(toks@).subrange(0, toks@.len() as int) =~= token_views(toks@));
    }
    let mut acc: Vec<(usize, usize)> = Vec::new();
    let ghost wviews = token_views(words@);
    let mut wi: usize = 0;
    proof {
        assert(wviews.skip(0) =~= wviews);
        assert(range_views(acc@) =~= Seq::<(int, int)>::empty());
        assert forall|k: int| 0 <= k < wviews.len() implies (#[trigger] wviews[k]).len() >= 3 by {
            spec_tokenize(query@).lemma_filter_pred(|w: Seq<char>| w.len() >= 3, k);
        }
    }
    while wi < words.len()
        invariant
            wi <= words@.len(),
            wviews == token_views(words@),
            forall|k: int| 0 <= k < wviews.len() ==> (#[trigger] wviews[k]).len() >= 3,
            spec_highlight_ranges(text@, query@) == ranges_for_words(
                lower_seq(text@),
                wviews.skip(wi as int),
                range_views(acc@),
            ),
            low@ == lower_seq(text@),
        decreases words@.len() - wi,
    {
        proof {
            assert(wviews.skip(wi as int)[0] == wviews[wi as int]);
            assert(wviews.skip(wi as int).drop_first() =~= wviews.skip(wi + 1 as int));
        }
        let wc = str_to_chars(words[wi].as_str());
        if wc.len() <= low.len() {
            let last = low.len() - wc.len();
            let mut p: usize = 0;
            while p <= last
                invariant
                    p <= last + 1,
                    last == low@.len() - wc@.len(),
                    3 <= wc@.len() <= low@.len(),
                    low@.len() <= usize::MAX,
                    wc@ == wviews[wi as int],
                    wi < wviews.len(),
                    low@ == lower_seq(text@),
                    spec_highlight_ranges(text@, query@) == ranges_for_words(
                        lower_seq(text@),
                        wviews.skip(wi + 1 as int),
                        add_word_ranges(low@, wc@, p as int, range_views(acc@)),
                    ),
                decreases last + 1 - p,
            {
                let hit = word_matches_at(&low, &wc, p);
                if hit && !overlaps_accepted(&acc, p, p + wc.len()) {
                    let ghost before = acc@;
                    acc.push((p, p + wc.len()));
                    proof {
                        assert(range_views(acc@) =~= range_views(before).push(
                            (p as int, p + wc@.len()),
                        ));
                    }
                }
                p = p + 1;
            }
        } else {
            proof {
                assert(add_word_ranges(low@, wc@, 0, range_views(acc@)) == range_views(acc@));
            }
        }
        wi = wi + 1;
    }
    proof {
        assert(wviews.skip(words@.len() as int) =~= Seq::<Seq<char>>::empty());
    }
    acc
}

fn range_starts_at(rs: &Vec<(usize, usize)>, p: usize) -> (r: bool)
    ensures
        r == has_start(range_views(rs@), p as int),
{
    let mut k: usize = 0;
    while k < rs.len()
        invariant
            k <= rs@.len(),
            forall|m: int| 0 <= m < k ==> (#[trigger] range_views(rs@)[m]).0 != p as int,
        decreases rs@.len() - k,
    {
        if rs[k].0 == p {
            proof {
                assert(range_views(rs@)[k as int].0 == p as int);
            }
            return true;
        }
        k = k + 1;
    }
    proof {
        if has_start(range_views(rs@), p as int) {
            let k = choose|k: int|
                0 <= k < range_views(rs@).len() && (#[trigger] range_views(rs@)[k]).0 == p as int;
            assert(range_views(rs@)[k].0 != p as int);
        }
    }
    false
}

fn range_ends_at(rs: &Vec<(usize, usize)>, p: usize) -> (r: bool)
    ensures
        r == has_end(range_views(rs@), p as int),
{
    let mut k: usize = 0;
    while k < rs.len()
        invariant
            k <= rs@.len(),
            forall|m: int| 0 <= m < k ==> (#[trigger] range_views(rs@)[m]).1 != p as int,
        decreases rs@.len() - k,
    {
        if rs[k].1 == p {
            proof {
                assert(range_views(rs@)[k as int].1 == p as int);
            }
            return true;
        }
        k = k + 1;
    }
    proof {
        if has_end(range_views(rs@), p as int) {
            let k = choose|k: int|
                0 <= k < range_views(rs@).len() && (#[trigger] range_views(rs@)[k]).1 == p as int;
            assert(range_views(rs@)[k].1 != p as int);
        }
    }
    false
}

fn push_str_chars(out: &mut Vec<char>, s: &str)
    ensures
        final(out)@ == old(out)@ + s@,
{
    let cs = str_to_chars(s);
    let mut k: usize = 0;
    while k < cs.len()
        invariant
            k <= cs@.len(),
            out@ == old(out)@ + cs@.take(k as int),
        decreases cs@.len() - k,
    {
        out.push(cs[k]);
        proof {
            assert(cs@.take(k + 1 as int) =~= cs@.take(k as int).push(cs@[k as int]));
        }
        k = k + 1;
    }
    proof {
        assert(cs@.take(cs@.len() as int) =~= cs@);
    }
}

/// Wrap every accepted range of the query in the given markers. The
/// accepted ranges never overlap (`lemma_highlight_ranges_disjoint`), and
/// with empty markers the result is the text itself
/// (`lemma_emit_empty_markers`).
pub fn highlight_match(text: &str, query: &str, pre: &str, suf: &str) -> (r: String)
    ensures
        r@ == spec_highlight(text@, query@, pre@, suf@),
{
    let cs = str_to_chars(text);
    let rs = highlight_ranges(text, query);
    let ghost rv = range_views(rs@);
    let mut out: Vec<char> = Vec::new();
    let mut p: usize = 0;
    let n = cs.len();
    while p < n
        invariant
            p <= n,
            n == cs@.len(),
            cs@ == text@,
            rv == range_views(rs@),
            emit_pos(text@, rv, pre@, suf@, 0) == out@ + emit_pos(text@, rv, pre@, suf@, p as int),
        decreases n - p,
    {
        if range_ends_at(&rs, p) {
            push_str_chars(&mut out, suf);
        }
        if range_starts_at(&rs, p) {
            push_str_chars(&mut out, pre);
        }
        out.push(cs[p]);
        proof {
            assert(emit_pos(text@, rv, pre@, suf@, p as int) == (if has_end(rv, p as int) {
                suf@
            } else {
                Seq::<char>::empty()
            }) + (if has_start(rv, p as int) {
                pre@
            } else {
                Seq::<char>::empty()
            }) + seq![text@[p as int]] + emit_pos(text@, rv, pre@, suf@, p + 1 as int));
            assert(out@ + emit_pos(text@, rv, pre@, suf@, p + 1 as int) =~= emit_pos(
                text@,
                rv,
                pre@,
                suf@,
                0,
            ));
        }
        p = p + 1;
    }
    if range_ends_at(&rs, n) {
        push_str_chars(&mut out, suf);
    }
    proof {
        assert(out@ =~= emit_pos(text@, rv, pre@, suf@, 0));
    }
    chars_to_string(&out)
}

} // verus!
