//! Snippet extraction: a bounded window of characters around the first
//! query-term occurrence in a document.
//!
//! All offsets here are character offsets, never byte offsets: the window
//! is carved out of the document's character sequence and re-encoded, so a
//! snippet boundary can never split a multi-byte character.

use vstd::prelude::*;
use crate::chars::{chars_to_string, is_ws, is_ws_char, lower_chars, lower_seq, str_to_chars};
use crate::tokenize::token_views;

verus! {

/// Term `t` occurs in `s` at character offset `i`.
pub open spec fn occurs_at(s: Seq<char>, t: Seq<char>, i: int) -> bool {
    0 <= i && i + t.len() <= s.len() && s.subrange(i, i + t.len()) == t
}

/// The first offset at or after `i` where `t` occurs in `s`.
pub open spec fn spec_find_from(s: Seq<char>, t: Seq<char>, i: int) -> Option<int>
    decreases s.len() - i + 1,
{
    if i < 0 || i + t.len() > s.len() {
        None
    } else if occurs_at(s, t, i) {
        Some(i)
    } else {
        spec_find_from(s, t, i + 1)
    }
}

pub open spec fn opt_min(a: Option<int>, b: Option<int>) -> Option<int> {
    match (a, b) {
        (None, None) => None,
        (Some(x), None) => Some(x),
        (None, Some(y)) => Some(y),
        (Some(x), Some(y)) => if y < x {
            Some(y)
        } else {
            Some(x)
        },
    }
}

/// The earliest character offset at which any of the (case-folded) query
/// words occurs in the case-folded text.
pub open spec fn spec_best_pos(low: Seq<char>, words: Seq<Seq<char>>) -> Option<int>
    decreases words.len(),
{
    if words.len() == 0 {
        None
    } else {
        opt_min(
            spec_best_pos(low, words.drop_last()),
            spec_find_from(low, lower_seq(words.last()), 0),
        )
    }
}

pub open spec fn trim_front(s: Seq<char>) -> Seq<char>
    decreases s.len(),
{
    if s.len() > 0 && is_ws_char(s[0]) {
        trim_front(s.drop_first())
    } else {
        s
    }
}

pub open spec fn trim_back(s: Seq<char>) -> Seq<char>
    decreases s.len(),
{
    if s.len() > 0 && is_ws_char(s.last()) {
        trim_back(s.drop_last())
    } else {
        s
    }
}

/// Whitespace stripped from both ends.
pub open spec fn spec_trim(s: Seq<char>) -> Seq<char> {
    trim_back(trim_front(s))
}

pub open spec fn ellipsis() -> Seq<char> {
    seq!['.', '.', '.']
}

/// What `extract_snippet_with_words` computes. When a query word occurs,
/// the window spans `ctx` characters to each side of the earliest
/// occurrence; otherwise it is the first `2 * ctx` characters. The window
/// is trimmed of surrounding whitespace and an ellipsis marks each side
/// that was cut off.
pub open spec fn spec_snippet(text: Seq<char>, words: Seq<Seq<char>>, ctx: int) -> Seq<char> {
    let low = lower_seq(text);
    match spec_best_pos(low, words) {
        Some(p) => {
            let start = if p - ctx > 0 {
                p - ctx
            } else {
                0
            };
            let end = if p + ctx < text.len() {
                p + ctx
            } else {
                text.len() as int
            };
            let mid = spec_trim(text.subrange(start, end));
            (if start > 0 {
                ellipsis()
            } else {
                Seq::empty()
            }) + mid + (if end < text.len() {
                ellipsis()
            } else {
                Seq::empty()
            })
        },
        None => {
            let end = if 2 * ctx < text.len() {
                2 * ctx
            } else {
                text.len() as int
            };
            let mid = spec_trim(text.subrange(0, end));
            mid + (if end < text.len() {
                ellipsis()
            } else {
                Seq::empty()
            })
        },
    }
}

pub(crate) fn match_at(low: &Vec<char>, w: &Vec<char>, i: usize) -> (r: bool)
    requires
        i + w.len() <= low.len(),
    ensures
        r == occurs_at(low@, w@, i as int),
{
    let mut k: usize = 0;
    while k < w.len()
        invariant
            k <= w@.len(),
            i + w@.len() <= low@.len(),
            low@.len() <= usize::MAX,
            forall|m: int| 0 <= m < k ==> low@[i + m] == w@[m],
        decreases w@.len() - k,
    {
        if low[i + k] != w[k] {
            proof {
                assert(low@.subrange(i as int, i + w@.len()) != w@) by {
                    if low@.subrange(i as int, i + w@.len()) == w@ {
                        assert(low@.subrange(i as int, i + w@.len())[k as int] == low@[i + k]);
                    }
                }
            }
            return false;
        }
        k = k + 1;
    }
    proof {
        assert(low@.subrange(i as int, i + w@.len()) =~= w@);
    }
    true
}

fn find_first(low: &Vec<char>, w: &Vec<char>) -> (r: Option<usize>)
    ensures
        match r {
            Some(p) => spec_find_from(low@, w@, 0) == Some(p as int),
            None => spec_find_from(low@, w@, 0) is None,
        },
{
    if w.len() > low.len() {
        return None;
    }
    if w.len() == 0 {
        proof {
            assert(low@.subrange(0, 0) =~= w@);
            assert(occurs_at(low@, w@, 0));
        }
        return Some(0);
    }
    let last = low.len() - w.len();
    let mut i: usize = 0;
    while i <= last
        invariant
            i <= last + 1,
            last == low@.len() - w@.len(),
            1 <= w@.len() <= low@.len(),
            low@.len() <= usize::MAX,
            spec_find_from(low@, w@, 0) == spec_find_from(low@, w@, i as int),
        decreases last + 1 - i,
    {
        if match_at(low, w, i) {
            return Some(i);
        }
        i = i + 1;
    }
    None
}

/// Any position the search reports lies inside the text.
proof fn lemma_find_from_bounds(s: Seq<char>, t: Seq<char>, i: int)
    requires
        spec_find_from(s, t, i) is Some,
    ensures
        0 <= spec_find_from(s, t, i)->Some_0 <= s.len(),
    decreases s.len() - i + 1,
{
    if !(i < 0 || i + t.len() > s.len()) && !occurs_at(s, t, i) {
        lemma_find_from_bounds(s, t, i + 1);
    }
}

proof fn lemma_best_pos_bounds(low: Seq<char>, words: Seq<Seq<char>>)
    requires
        spec_best_pos(low, words) is Some,
    ensures
        0 <= spec_best_pos(low, words)->Some_0 <= low.len(),
    decreases words.len(),
{
    if words.len() > 0 {
        if spec_best_pos(low, words.drop_last()) is Some {
            lemma_best_pos_bounds(low, words.drop_last());
        }
        if spec_find_from(low, lower_seq(words.last()), 0) is Some {
            lemma_find_from_bounds(low, lower_seq(words.last()), 0);
        }
    }
}

fn best_pos(low: &Vec<char>, words: &Vec<String>) -> (r: Option<usize>)
    ensures
        match r {
            Some(p) => spec_best_pos(low@, token_views(words@)) == Some(p as int),
            None => spec_best_pos(low@, token_views(words@)) is None,
        },
{
    let ghost wv = token_views(words@);
    let mut best: Option<usize> = None;
    let mut i: usize = 0;
    proof {
        assert(wv.subrange(0, 0) =~= Seq::<Seq<char>>::empty());
    }
    while i < words.len()
        invariant
            i <= words@.len(),
            wv == token_views(words@),
            match best {
                Some(p) => spec_best_pos(low@, wv.subrange(0, i as int)) == Some(p as int),
                None => spec_best_pos(low@, wv.subrange(0, i as int)) is None,
            },
        decreases words@.len() - i,
    {
        proof {
            let pre = wv.subrange(0, i + 1 as int);
            assert(pre.drop_last() =~= wv.subrange(0, i as int));
            assert(pre.last() == wv[i as int]);
        }
        let cs = str_to_chars(words[i].as_str());
        let lw = lower_chars(&cs);
        let found = find_first(low, &lw);
        best = match (best, found) {
            (None, None) => None,
            (Some(p), None) => Some(p),
            (None, Some(q)) => Some(q),
            (Some(p), Some(q)) => if q < p {
                Some(q)
            } else {
                Some(p)
            },
        };
        i = i + 1;
    }
    proof {
        assert(wv.subrange(0, words@.len() as int) =~= wv);
    }
    best
}

/// Copy the character range `[start, end)` out of `cs`, trimmed of
/// surrounding whitespace.
fn trimmed_window(cs: &Vec<char>, start: usize, end: usize) -> (r: Vec<char>)
    requires
        start <= end <= cs@.len(),
    ensures
        r@ == spec_trim(cs@.subrange(start as int, end as int)),
{
    let ghost win = cs@.subrange(start as int, end as int);
    let mut s: usize = start;
    while s < end && is_ws(cs[s])
        invariant
            start <= s <= end <= cs@.len(),
            win == cs@.subrange(start as int, end as int),
            trim_front(win) == trim_front(cs@.subrange(s as int, end as int)),
        decreases end - s,
    {
        proof {
            let cur = cs@.subrange(s as int, end as int);
            assert(cur[0] == cs@[s as int]);
            assert(cur.drop_first() =~= cs@.subrange(s + 1 as int, end as int));
        }
        s = s + 1;
    }
    proof {
        let cur = cs@.subrange(s as int, end as int);
        if s < end {
            assert(cur[0] == cs@[s as int]);
        }
        assert(trim_front(cur) == cur);
    }
    let mut e: usize = end;
    while e > s && is_ws(cs[e - 1])
        invariant
            s <= e <= end <= cs@.len(),
            start <= s,
            trim_front(win) == cs@.subrange(s as int, end as int),
            trim_back(cs@.subrange(s as int, end as int)) == trim_back(
                cs@.subrange(s as int, e as int),
            ),
        decreases e,
    {
        proof {
            let cur = cs@.subrange(s as int, e as int);
            assert(cur.last() == cs@[e - 1 as int]);
            assert(cur.drop_last() =~= cs@.subrange(s as int, e - 1 as int));
        }
        e = e - 1;
    }
    proof {
        let cur = cs@.subrange(s as int, e as int);
        if e > s {
            assert(cur.last() == cs@[e - 1 as int]);
        }
        assert(trim_back(cur) == cur);
    }
    let mut out: Vec<char> = Vec::new();
    let mut k: usize = s;
    while k < e
        invariant
            s <= k <= e <= cs@.len(),
            out@ == cs@.subrange(s as int, k as int),
        decreases e - k,
    {
        out.push(cs[k]);
        proof {
            assert(cs@.subrange(s as int, k + 1 as int) =~= cs@.subrange(s as int, k as int).push(
                cs@[k as int],
            ));
        }
        k = k + 1;
    }
    proof {
        assert(out@ =~= spec_trim(win));
    }
    out
}

/// Extract the display snippet for a document: a window of `context_chars`
/// characters around the earliest occurrence of any query word
/// (case-insensitively), or the document's head when no word occurs. Every
/// boundary falls between characters by construction.
pub fn extract_snippet_with_words(text: &str, query_words: &Vec<String>, context_chars: usize) -> (r:
    String)
    ensures
        r@ == spec_snippet(text@, token_views(query_words@), context_chars as int),
{
    let cs = str_to_chars(text);
    let low = lower_chars(&cs);
    let n = cs.len();
    let mut out: Vec<char> = Vec::new();
    match best_pos(&low, query_words) {
        Some(p) => {
            proof {
                lemma_best_pos_bounds(low@, token_views(query_words@));
                assert(p <= low@.len());
            }
            let start = if p > context_chars {
                p - context_chars
            } else {
                0
            };
            let end = if n - p > context_chars {
                p + context_chars
            } else {
                n
            };
            let mid = trimmed_window(&cs, start, end);
            if start > 0 {
                out.push('.');
                out.push('.');
                out.push('.');
            }
            let mut k: usize = 0;
            let ghost head = out@;
            while k < mid.len()
                invariant
                    k <= mid@.len(),
                    out@ == head + mid@.subrange(0, k as int),
                decreases mid@.len() - k,
            {
                out.push(mid[k]);
                proof {
                    assert(mid@.subrange(0, k + 1 as int) =~= mid@.subrange(0, k as int).push(
                        mid@[k as int],
                    ));
                }
                k = k + 1;
            }
            proof {
                assert(mid@.subrange(0, mid@.len() as int) =~= mid@);
            }
            if end < n {
                out.push('.');
                out.push('.');
                out.push('.');
            }
            proof {
                assert(out@ =~= spec_snippet(
                    text@,
                    token_views(query_words@),
                    context_chars as int,
                ));
            }
        },
        None => {
            let end = if context_chars < n && n - context_chars > context_chars {
                2 * context_chars
            } else {
                n
            };
            proof {
                assert(end as int == (if 2 * (context_chars as int) < cs@.len() {
                    2 * (context_chars as int)
                } else {
                    cs@.len() as int
                }));
            }
            let mid = trimmed_window(&cs, 0, end);
            let mut k: usize = 0;
            while k < mid.len()
                invariant
                    k <= mid@.len(),
                    out@ == mid@.subrange(0, k as int),
                decreases mid@.len() - k,
            {
                out.push(mid[k]);
                proof {
                    assert(mid@.subrange(0, k + 1 as int) =~= mid@.subrange(0, k as int).push(
                        mid@[k as int],
                    ));
                }
                k = k + 1;
            }
            proof {
                assert(mid@.subrange(0, mid@.len() as int) =~= mid@);
            }
            if end < n {
                out.push('.');
                out.push('.');
                out.push('.');
            }
            proof {
                assert(out@ =~= spec_snippet(
                    text@,
                    token_views(query_words@),
                    context_chars as int,
                ));
            }
        },
    }
    chars_to_string(&out)
}

} // verus!
