//! Ranked search over the normalized timeline: score every event against
//! the query, keep only positive scores, and order the matches by score
//! with ties broken by timeline order.

use vstd::prelude::*;
use vstd::string::StringExecFns;
use crate::bm25::{doc_views, spec_contribution, spec_df_count, spec_tf, spec_total_tokens, BM25};
use crate::bm25::clamp64;
use crate::normalize::{DisplayEvent, DisplayEventV};
use crate::snippet::{extract_snippet_with_words, spec_snippet};
use crate::tokenize::{spec_tokenize, token_views, tokenize};

verus! {

/// The standard BM25 saturation parameter, in millionths: `k1 = 1.2`.
pub const K1_DEFAULT_MICRO: u64 = 1_200_000;

/// The standard BM25 length-normalization parameter, in millionths:
/// `b = 0.75`.
pub const B_DEFAULT_MICRO: u64 = 750_000;

/// The number of context characters around a match in a snippet.
pub const SNIPPET_CONTEXT: usize = 100;

/// The text an event contributes to the search corpus: its content, its
/// thinking if any, and a marker naming its tool invocation if any.
pub open spec fn spec_doc_text(e: DisplayEventV) -> Seq<char> {
    e.content + (match e.thinking {
        Some(th) => seq!['\n'] + th,
        None => Seq::empty(),
    }) + (match e.tool_info {
        Some(t) => "\n[Tool: "@ + t.name + "]"@,
        None => Seq::empty(),
    })
}

pub open spec fn event_views(events: Seq<DisplayEvent>) -> Seq<DisplayEventV> {
    events.map_values(|e: DisplayEvent| e@)
}

/// The BM25 score of a document against a query, written directly over
/// the corpus: `n` documents, their total token count, and per-term
/// document frequencies all come from `docs`.
pub open spec fn spec_corpus_score(
    docs: Seq<Seq<char>>,
    k1: int,
    b: int,
    q: Seq<Seq<char>>,
    d: Seq<Seq<char>>,
) -> int
    decreases q.len(),
{
    if spec_total_tokens(docs) == 0 {
        0
    } else if q.len() == 0 {
        0
    } else {
        clamp64(
            spec_corpus_score(docs, k1, b, q.drop_last(), d) + spec_contribution(
                k1,
                b,
                docs.len() as int,
                spec_total_tokens(docs) as int,
                spec_df_count(docs, q.last()) as int,
                spec_tf(d, q.last()) as int,
                d.len() as int,
            ),
        )
    }
}

/// A scorer built over `docs` scores as the corpus formula says.
proof fn lemma_score_is_corpus_score(
    bm: BM25,
    docs: Seq<Seq<char>>,
    q: Seq<Seq<char>>,
    d: Seq<Seq<char>>,
)
    requires
        bm.n_spec() == docs.len(),
        bm.total_spec() == spec_total_tokens(docs),
        forall|t: Seq<char>| #[trigger] bm.df_of(t) == spec_df_count(docs, t),
    ensures
        bm.spec_score(q, d) == spec_corpus_score(docs, bm.k1_spec(), bm.b_spec(), q, d),
    decreases q.len(),
{
    if bm.total_spec() != 0 && q.len() > 0 {
        lemma_score_is_corpus_score(bm, docs, q.drop_last(), d);
    }
}

/// The positively scored documents from index `i` on, in document order,
/// paired with their scores.
pub open spec fn spec_positives(
    docs: Seq<Seq<char>>,
    k1: int,
    b: int,
    qt: Seq<Seq<char>>,
    i: int,
) -> Seq<(int, int)>
    decreases docs.len() - i,
{
    if i < 0 || i >= docs.len() {
        Seq::empty()
    } else {
        let s = spec_corpus_score(docs, k1, b, qt, spec_tokenize(docs[i]));
        (if s > 0 {
            seq![(i, s)]
        } else {
            Seq::empty()
        }) + spec_positives(docs, k1, b, qt, i + 1)
    }
}

/// `a` is ranked strictly before `b`: a higher score, or the same score
/// and an earlier document. A total order on distinct documents, so the
/// ranking is deterministic.
pub open spec fn ranked_before(a: (int, int), b: (int, int)) -> bool {
    a.1 > b.1 || (a.1 == b.1 && a.0 < b.0)
}

/// Insert behind everything ranked before `x`.
pub open spec fn spec_insert_ranked(x: (int, int), s: Seq<(int, int)>) -> Seq<(int, int)>
    decreases s.len(),
{
    if s.len() == 0 {
        seq![x]
    } else if ranked_before(s[0], x) {
        seq![s[0]] + spec_insert_ranked(x, s.drop_first())
    } else {
        seq![x] + s
    }
}

/// The scored documents ordered by rank: each is inserted, in document
/// order, behind everything ranked before it.
pub open spec fn spec_rank(s: Seq<(int, int)>) -> Seq<(int, int)>
    decreases s.len(),
{
    if s.len() == 0 {
        Seq::empty()
    } else {
        spec_insert_ranked(s.last(), spec_rank(s.drop_last()))
    }
}

/// One search match: the matched event's timestamp and role, a display
/// snippet of the matched text, and the score in millionths.
pub struct SearchMatch {
    pub timestamp: String,
    pub role: String,
    pub content: String,
    pub score: i64,
}

pub struct SearchMatchV {
    pub timestamp: Seq<char>,
    pub role: Seq<char>,
    pub content: Seq<char>,
    pub score: int,
}

impl View for SearchMatch {
    type V = SearchMatchV;

    open spec fn view(&self) -> SearchMatchV {
        SearchMatchV {
            timestamp: self.timestamp@,
            role: self.role@,
            content: self.content@,
            score: self.score as int,
        }
    }
}

pub open spec fn match_views(ms: Seq<SearchMatch>) -> Seq<SearchMatchV> {
    ms.map_values(|m: SearchMatch| m@)
}

pub open spec fn spec_make_match(
    events: Seq<DisplayEventV>,
    docs: Seq<Seq<char>>,
    qt: Seq<Seq<char>>,
    p: (int, int),
) -> SearchMatchV {
    SearchMatchV {
        timestamp: events[p.0].timestamp,
        role: events[p.0].role,
        content: spec_snippet(docs[p.0], qt, SNIPPET_CONTEXT as int),
        score: p.1,
    }
}

/// What `search_events` computes: nothing for a query without tokens;
/// otherwise the positively scored events, ranked, as matches.
pub open spec fn spec_search(events: Seq<DisplayEventV>, q: Seq<char>) -> Seq<SearchMatchV> {
    let qt = spec_tokenize(q);
    if qt.len() == 0 {
        Seq::empty()
    } else {
        let docs = events.map_values(|e: DisplayEventV| spec_doc_text(e));
        let ranked = spec_rank(
            spec_positives(docs, K1_DEFAULT_MICRO as int, B_DEFAULT_MICRO as int, qt, 0),
        );
        ranked.map_values(|p: (int, int)| spec_make_match(events, docs, qt, p))
    }
}

// ------------------------------------------------------------------
// Range facts used to index safely and to state the emptiness law.
// ------------------------------------------------------------------

proof fn lemma_positives_range(docs: Seq<Seq<char>>, k1: int, b: int, qt: Seq<Seq<char>>, i: int)
    ensures
        forall|k: int|
            0 <= k < spec_positives(docs, k1, b, qt, i).len() ==> i <= (#[trigger] spec_positives(
                docs,
                k1,
                b,
                qt,
                i,
            )[k]).0 < docs.len() && 0 < spec_positives(docs, k1, b, qt, i)[k].1
                <= i64::MAX,
    decreases docs.len() - i,
{
    if 0 <= i < docs.len() {
        lemma_positives_range(docs, k1, b, qt, i + 1);
        let s = spec_corpus_score(docs, k1, b, qt, spec_tokenize(docs[i]));
        assert(s <= i64::MAX) by {
            lemma_corpus_score_range(docs, k1, b, qt, spec_tokenize(docs[i]));
        }
        let r = spec_positives(docs, k1, b, qt, i);
        let rest = spec_positives(docs, k1, b, qt, i + 1);
        assert forall|k: int| 0 <= k < r.len() implies i <= (#[trigger] r[k]).0 < docs.len() && 0
            < r[k].1 <= i64::MAX by {
            if s > 0 {
                if k == 0 {
                    assert(r[k] == (i, s));
                } else {
                    assert(r[k] == rest[k - 1]);
                }
            } else {
                assert(r[k] == rest[k]);
            }
        }
    }
}

proof fn lemma_corpus_score_range(
    docs: Seq<Seq<char>>,
    k1: int,
    b: int,
    q: Seq<Seq<char>>,
    d: Seq<Seq<char>>,
)
    ensures
        i64::MIN <= spec_corpus_score(docs, k1, b, q, d) <= i64::MAX,
    decreases q.len(),
{
    if spec_total_tokens(docs) != 0 && q.len() > 0 {
        lemma_corpus_score_range(docs, k1, b, q.drop_last(), d);
    }
}

proof fn lemma_insert_ranked_elems(x: (int, int), s: Seq<(int, int)>)
    ensures
        forall|k: int|
            0 <= k < spec_insert_ranked(x, s).len() ==> (#[trigger] spec_insert_ranked(x, s)[k])
                == x || s.contains(spec_insert_ranked(x, s)[k]),
    decreases s.len(),
{
    let r = spec_insert_ranked(x, s);
    if s.len() == 0 {
        assert(r[0] == x);
    } else if ranked_before(s[0], x) {
        lemma_insert_ranked_elems(x, s.drop_first());
        assert forall|k: int| 0 <= k < r.len() implies (#[trigger] r[k]) == x || s.contains(
            r[k],
        ) by {
            if k == 0 {
                assert(s[0] == r[0]);
                assert(s.contains(r[0]));
            } else {
                let inner = spec_insert_ranked(x, s.drop_first());
                assert(r[k] == inner[k - 1]);
                if inner[k - 1] != x {
                    assert(s.drop_first().contains(inner[k - 1]));
                    let m = choose|m: int|
                        0 <= m < s.drop_first().len() && s.drop_first()[m] == inner[k - 1];
                    assert(s[m + 1] == inner[k - 1]);
                }
            }
        }
    } else {
        assert forall|k: int| 0 <= k < r.len() implies (#[trigger] r[k]) == x || s.contains(
            r[k],
        ) by {
            if k > 0 {
                assert(r[k] == s[k - 1]);
            }
        }
    }
}

proof fn lemma_rank_elems(s: Seq<(int, int)>)
    ensures
        forall|k: int|
            0 <= k < spec_rank(s).len() ==> s.contains(#[trigger] spec_rank(s)[k]),
    decreases s.len(),
{
    if s.len() > 0 {
        lemma_rank_elems(s.drop_last());
        lemma_insert_ranked_elems(s.last(), spec_rank(s.drop_last()));
        let r = spec_rank(s);
        assert forall|k: int| 0 <= k < r.len() implies s.contains(#[trigger] r[k]) by {
            if r[k] == s.last() {
                assert(s[s.len() - 1] == r[k]);
            } else {
                assert(spec_rank(s.drop_last()).contains(r[k]));
                let m = choose|m: int|
                    0 <= m < spec_rank(s.drop_last()).len() && spec_rank(s.drop_last())[m] == r[k];
                assert(s.drop_last().contains(r[k])) by {
                    lemma_rank_elems(s.drop_last());
                }
                let m2 = choose|m2: int|
                    0 <= m2 < s.drop_last().len() && s.drop_last()[m2] == r[k];
                assert(s[m2] == r[k]);
            }
        }
    }
}

pub open spec fn rank_sorted(s: Seq<(int, int)>) -> bool {
    forall|i: int, j: int| 0 <= i < j < s.len() ==> !ranked_before(#[trigger] s[j], #[trigger] s[i])
}

proof fn lemma_insert_ranked_sorted(x: (int, int), s: Seq<(int, int)>)
    requires
        rank_sorted(s),
    ensures
        rank_sorted(spec_insert_ranked(x, s)),
    decreases s.len(),
{
    let r = spec_insert_ranked(x, s);
    if s.len() == 0 {
    } else if ranked_before(s[0], x) {
        assert(rank_sorted(s.drop_first())) by {
            assert(forall|i: int, j: int|
                0 <= i < j < s.drop_first().len() ==> s.drop_first()[i] == s[i + 1]
                    && s.drop_first()[j] == s[j + 1]);
        }
        lemma_insert_ranked_sorted(x, s.drop_first());
        lemma_insert_ranked_elems(x, s.drop_first());
        let inner = spec_insert_ranked(x, s.drop_first());
        assert forall|i: int, j: int| 0 <= i < j < r.len() implies !ranked_before(
            #[trigger] r[j],
            #[trigger] r[i],
        ) by {
            if i == 0 {
                assert(r[j] == inner[j - 1]);
                if inner[j - 1] == x {
                } else {
                    assert(s.drop_first().contains(inner[j - 1]));
                    let m = choose|m: int|
                        0 <= m < s.drop_first().len() && s.drop_first()[m] == inner[j - 1];
                    assert(s[m + 1] == inner[j - 1]);
                    assert(!ranked_before(s[m + 1], s[0]));
                }
            } else {
                assert(r[i] == inner[i - 1] && r[j] == inner[j - 1]);
            }
        }
    } else {
        assert forall|i: int, j: int| 0 <= i < j < r.len() implies !ranked_before(
            #[trigger] r[j],
            #[trigger] r[i],
        ) by {
            if i == 0 {
                assert(r[0] == x && r[j] == s[j - 1]);
                if j > 1 {
                    assert(!ranked_before(s[j - 1], s[0]));
                }
            } else {
                assert(r[i] == s[i - 1] && r[j] == s[j - 1]);
            }
        }
    }
}

proof fn lemma_rank_sorted(s: Seq<(int, int)>)
    ensures
        rank_sorted(spec_rank(s)),
    decreases s.len(),
{
    if s.len() > 0 {
        lemma_rank_sorted(s.drop_last());
        lemma_insert_ranked_sorted(s.last(), spec_rank(s.drop_last()));
    }
}

/// The matches come out ordered by score, highest first; the tie-break is
/// the fixed ranking order, so the result is deterministic.
pub proof fn lemma_search_scores_descend(events: Seq<DisplayEventV>, q: Seq<char>)
    ensures
        forall|i: int, j: int|
            0 <= i < j < spec_search(events, q).len() ==> (#[trigger] spec_search(events, q)[i]).score
                >= (#[trigger] spec_search(events, q)[j]).score,
{
    let qt = spec_tokenize(q);
    if qt.len() != 0 {
        let docs = events.map_values(|e: DisplayEventV| spec_doc_text(e));
        let ranked = spec_rank(
            spec_positives(docs, K1_DEFAULT_MICRO as int, B_DEFAULT_MICRO as int, qt, 0),
        );
        lemma_rank_sorted(
            spec_positives(docs, K1_DEFAULT_MICRO as int, B_DEFAULT_MICRO as int, qt, 0),
        );
        assert forall|i: int, j: int|
            0 <= i < j < spec_search(events, q).len() implies (#[trigger] spec_search(
            events,
            q,
        )[i]).score >= (#[trigger] spec_search(events, q)[j]).score by {
            assert(!ranked_before(ranked[j], ranked[i]));
            assert(spec_search(events, q)[i].score == ranked[i].1);
            assert(spec_search(events, q)[j].score == ranked[j].1);
        }
    }
}

/// Ranking loses nothing and invents nothing: the ranked list has exactly
/// the scored entries, one match per positively scored document.
pub proof fn lemma_rank_complete(s: Seq<(int, int)>)
    ensures
        spec_rank(s).len() == s.len(),
        forall|x: (int, int)| s.contains(x) ==> spec_rank(s).contains(x),
    decreases s.len(),
{
    if s.len() > 0 {
        lemma_rank_complete(s.drop_last());
        lemma_insert_ranked_len(s.last(), spec_rank(s.drop_last()));
        lemma_insert_ranked_membership(s.last(), spec_rank(s.drop_last()));
        assert forall|x: (int, int)| s.contains(x) implies spec_rank(s).contains(x) by {
            let m = choose|m: int| 0 <= m < s.len() && s[m] == x;
            if m < s.len() - 1 {
                assert(s.drop_last()[m] == x);
                assert(s.drop_last().contains(x));
                assert(spec_rank(s.drop_last()).contains(x));
            }
        }
    }
}

proof fn lemma_insert_ranked_len(x: (int, int), s: Seq<(int, int)>)
    ensures
        spec_insert_ranked(x, s).len() == s.len() + 1,
    decreases s.len(),
{
    if s.len() > 0 && ranked_before(s[0], x) {
        lemma_insert_ranked_len(x, s.drop_first());
    }
}

proof fn lemma_insert_ranked_membership(x: (int, int), s: Seq<(int, int)>)
    ensures
        spec_insert_ranked(x, s).contains(x),
        forall|y: (int, int)| s.contains(y) ==> spec_insert_ranked(x, s).contains(y),
    decreases s.len(),
{
    let r = spec_insert_ranked(x, s);
    if s.len() == 0 {
        assert(r[0] == x);
    } else if ranked_before(s[0], x) {
        lemma_insert_ranked_membership(x, s.drop_first());
        let inner = spec_insert_ranked(x, s.drop_first());
        assert(inner.contains(x));
        let k = choose|k: int| 0 <= k < inner.len() && inner[k] == x;
        assert(r[k + 1] == x);
        assert forall|y: (int, int)| s.contains(y) implies r.contains(y) by {
            let m = choose|m: int| 0 <= m < s.len() && s[m] == y;
            if m == 0 {
                assert(r[0] == y);
            } else {
                assert(s.drop_first()[m - 1] == y);
                assert(s.drop_first().contains(y));
                assert(inner.contains(y));
                let k2 = choose|k2: int| 0 <= k2 < inner.len() && inner[k2] == y;
                assert(r[k2 + 1] == y);
            }
        }
    } else {
        assert(r[0] == x);
        assert forall|y: (int, int)| s.contains(y) implies r.contains(y) by {
            let m = choose|m: int| 0 <= m < s.len() && s[m] == y;
            assert(r[m + 1] == y);
        }
    }
}

/// A query none of whose tokens occurs in any document matches nothing.
pub proof fn lemma_no_matching_terms_no_results(events: Seq<DisplayEventV>, q: Seq<char>)
    requires
        forall|i: int, j: int|
            0 <= i < events.len() && 0 <= j < spec_tokenize(q).len() ==> spec_tf(
                spec_tokenize(spec_doc_text(#[trigger] events[i])),
                #[trigger] spec_tokenize(q)[j],
            ) == 0,
    ensures
        spec_search(events, q).len() == 0,
{
    let qt = spec_tokenize(q);
    if qt.len() != 0 {
        let docs = events.map_values(|e: DisplayEventV| spec_doc_text(e));
        lemma_positives_empty(docs, K1_DEFAULT_MICRO as int, B_DEFAULT_MICRO as int, qt, 0, events);
        assert(spec_rank(Seq::<(int, int)>::empty()) =~= Seq::<(int, int)>::empty());
    }
}

proof fn lemma_positives_empty(
    docs: Seq<Seq<char>>,
    k1: int,
    b: int,
    qt: Seq<Seq<char>>,
    i: int,
    events: Seq<DisplayEventV>,
)
    requires
        docs == events.map_values(|e: DisplayEventV| spec_doc_text(e)),
        forall|i0: int, j: int|
            0 <= i0 < events.len() && 0 <= j < qt.len() ==> spec_tf(
                spec_tokenize(spec_doc_text(#[trigger] events[i0])),
                #[trigger] qt[j],
            ) == 0,
    ensures
        spec_positives(docs, k1, b, qt, i).len() == 0,
    decreases docs.len() - i,
{
    if 0 <= i < docs.len() {
        assert(docs[i] == spec_doc_text(events[i]));
        lemma_corpus_score_no_terms(docs, k1, b, qt, spec_tokenize(docs[i]));
        lemma_positives_empty(docs, k1, b, qt, i + 1, events);
    }
}

proof fn lemma_corpus_score_no_terms(
    docs: Seq<Seq<char>>,
    k1: int,
    b: int,
    q: Seq<Seq<char>>,
    d: Seq<Seq<char>>,
)
    requires
        forall|j: int| 0 <= j < q.len() ==> spec_tf(d, #[trigger] q[j]) == 0,
    ensures
        spec_corpus_score(docs, k1, b, q, d) == 0,
    decreases q.len(),
{
    if spec_total_tokens(docs) != 0 && q.len() > 0 {
        assert(spec_tf(d, q.last()) == 0);
        assert(forall|j: int| 0 <= j < q.drop_last().len() ==> q.drop_last()[j] == q[j]);
        lemma_corpus_score_no_terms(docs, k1, b, q.drop_last(), d);
    }
}

// ------------------------------------------------------------------
// The executable search.
// ------------------------------------------------------------------

/// The search text of one event.
pub fn build_search_text(e: &DisplayEvent) -> (r: String)
    ensures
        r@ == spec_doc_text(e@),
{
    let mut out = String::new();
    out.append(e.content.as_str());
    match &e.thinking {
        Some(th) => {
            out.append("\n");
            out.append(th.as_str());
            proof {
                reveal_strlit("\n");
                assert("\n"@ =~= seq!['\n']);
            }
        },
        None => {
        },
    }
    match &e.tool_info {
        Some(t) => {
            out.append("\n[Tool: ");
            out.append(t.name.as_str());
            out.append("]");
        },
        None => {
        },
    }
    proof {
        assert(out@ =~= spec_doc_text(e@));
    }
    out
}

pub open spec fn pair_views(ps: Seq<(usize, i64)>) -> Seq<(int, int)> {
    ps.map_values(|p: (usize, i64)| (p.0 as int, p.1 as int))
}

fn insert_ranked(cur: &mut Vec<(usize, i64)>, x: (usize, i64))
    ensures
        pair_views(final(cur)@) == spec_insert_ranked((x.0 as int, x.1 as int), pair_views(
            old(cur)@,
        )),
{
    let mut j: usize = 0;
    while j < cur.len() && (cur[j].1 > x.1 || (cur[j].1 == x.1 && cur[j].0 < x.0))
        invariant
            j <= cur@.len(),
            cur@ == old(cur)@,
            forall|m: int|
                0 <= m < j ==> ranked_before(#[trigger] pair_views(cur@)[m], (x.0 as int, x.1 as int)),
        decreases cur@.len() - j,
    {
        j = j + 1;
    }
    proof {
        if j < cur@.len() {
            assert(!ranked_before(pair_views(cur@)[j as int], (x.0 as int, x.1 as int)));
        }
    }
    cur.insert(j, x);
    proof {
        lemma_insert_ranked_at(pair_views(old(cur)@), (x.0 as int, x.1 as int), j as int);
        assert(pair_views(cur@) =~= pair_views(old(cur)@).insert(j as int, (x.0 as int, x.1 as int)));
    }
}

/// Inserting behind a fully ranked-before prefix lands exactly at the
/// first position not ranked before.
proof fn lemma_insert_ranked_at(s: Seq<(int, int)>, x: (int, int), j: int)
    requires
        0 <= j <= s.len(),
        forall|m: int| 0 <= m < j ==> ranked_before(#[trigger] s[m], x),
        j < s.len() ==> !ranked_before(s[j], x),
    ensures
        spec_insert_ranked(x, s) == s.insert(j, x),
    decreases j,
{
    if s.len() == 0 {
        assert(spec_insert_ranked(x, s) =~= s.insert(0, x));
    } else if j == 0 {
        assert(spec_insert_ranked(x, s) =~= s.insert(0, x));
    } else {
        assert(ranked_before(s[0], x));
        lemma_insert_ranked_at(s.drop_first(), x, j - 1);
        assert(s.drop_first().insert(j - 1, x) =~= s.insert(j, x).drop_first());
        assert(s.insert(j, x)[0] == s[0]);
        assert(spec_insert_ranked(x, s) =~= s.insert(j, x));
    }
}

/// Search the events for a query: score each event's search text with the
/// standard BM25 parameters, keep those with strictly positive scores, and
/// return them ranked by score, ties broken by timeline order, each with a
/// display snippet. A query with no tokens yields no matches.
pub fn search_events(events: &Vec<DisplayEvent>, query: &str) -> (r: Vec<SearchMatch>)
    ensures
        match_views(r@) == spec_search(event_views(events@), query@),
{
    let ghost ev = event_views(events@);
    let ghost qts = spec_tokenize(query@);
    let qt = tokenize(query);
    if qt.len() == 0 {
        let r: Vec<SearchMatch> = Vec::new();
        proof {
            assert(match_views(r@) =~= spec_search(ev, query@));
        }
        return r;
    }
    let mut docs: Vec<String> = Vec::new();
    let mut i: usize = 0;
    proof {
        assert(doc_views(docs@) =~= ev.map_values(|e: DisplayEventV| spec_doc_text(e)).subrange(
            0,
            0,
        ));
    }
    while i < events.len()
        invariant
            i <= events@.len(),
            ev == event_views(events@),
            docs@.len() == i,
            doc_views(docs@) == ev.map_values(|e: DisplayEventV| spec_doc_text(e)).subrange(
                0,
                i as int,
            ),
        decreases events@.len() - i,
    {
        let ghost before = docs@;
        let d = build_search_text(&events[i]);
        docs.push(d);
        proof {
            assert(doc_views(docs@) =~= doc_views(before).push(spec_doc_text(ev[i as int])));
            assert(ev.map_values(|e: DisplayEventV| spec_doc_text(e)).subrange(0, i + 1 as int)
                =~= ev.map_values(|e: DisplayEventV| spec_doc_text(e)).subrange(0, i as int).push(
                spec_doc_text(ev[i as int]),
            ));
        }
        i = i + 1;
    }
    let ghost dv = ev.map_values(|e: DisplayEventV| spec_doc_text(e));
    proof {
        assert(dv.subrange(0, ev.len() as int) =~= dv);
        assert(doc_views(docs@) == dv);
    }
    let bm = BM25::new(&docs, K1_DEFAULT_MICRO, B_DEFAULT_MICRO);
    let mut scored: Vec<(usize, i64)> = Vec::new();
    let mut k: usize = 0;
    proof {
        assert(pair_views(scored@) + spec_positives(
            dv,
            K1_DEFAULT_MICRO as int,
            B_DEFAULT_MICRO as int,
            qts,
            0,
        ) =~= spec_positives(dv, K1_DEFAULT_MICRO as int, B_DEFAULT_MICRO as int, qts, 0));
    }
    while k < docs.len()
        invariant
            k <= docs@.len(),
            docs@.len() == events@.len(),
            ev == event_views(events@),
            dv == doc_views(docs@),
            dv == ev.map_values(|e: DisplayEventV| spec_doc_text(e)),
            qts == spec_tokenize(query@),
            bm.wf(),
            bm.n_spec() == dv.len(),
            bm.total_spec() == spec_total_tokens(dv),
            bm.k1_spec() == K1_DEFAULT_MICRO as int,
            bm.b_spec() == B_DEFAULT_MICRO as int,
            forall|t: Seq<char>| #[trigger] bm.df_of(t) == spec_df_count(dv, t),
            spec_positives(dv, K1_DEFAULT_MICRO as int, B_DEFAULT_MICRO as int, qts, 0)
                == pair_views(scored@) + spec_positives(
                dv,
                K1_DEFAULT_MICRO as int,
                B_DEFAULT_MICRO as int,
                qts,
                k as int,
            ),
        decreases docs@.len() - k,
    {
        proof {
            assert(dv[k as int] == docs@[k as int]@);
        }
        let s = bm.score(query, docs[k].as_str());
        proof {
            lemma_score_is_corpus_score(bm, dv, qts, spec_tokenize(dv[k as int]));
        }
        let ghost before = scored@;
        if s > 0 {
            scored.push((k, s));
            proof {
                assert(pair_views(scored@) =~= pair_views(before).push((k as int, s as int)));
                assert(pair_views(before) + (seq![(k as int, s as int)] + spec_positives(
                    dv,
                    K1_DEFAULT_MICRO as int,
                    B_DEFAULT_MICRO as int,
                    qts,
                    k + 1 as int,
                )) =~= pair_views(scored@) + spec_positives(
                    dv,
                    K1_DEFAULT_MICRO as int,
                    B_DEFAULT_MICRO as int,
                    qts,
                    k + 1 as int,
                ));
            }
        }
        k = k + 1;
    }
    let ghost positives = spec_positives(
        dv,
        K1_DEFAULT_MICRO as int,
        B_DEFAULT_MICRO as int,
        qts,
        0,
    );
    proof {
        assert(spec_positives(dv, K1_DEFAULT_MICRO as int, B_DEFAULT_MICRO as int, qts,
            docs@.len() as int) =~= Seq::<(int, int)>::empty());
        assert(pair_views(scored@) + Seq::<(int, int)>::empty() =~= pair_views(scored@));
        assert(pair_views(scored@) == positives);
    }
    let mut sorted: Vec<(usize, i64)> = Vec::new();
    let mut k2: usize = 0;
    proof {
        assert(pair_views(scored@).subrange(0, 0) =~= Seq::<(int, int)>::empty());
    }
    while k2 < scored.len()
        invariant
            k2 <= scored@.len(),
            pair_views(scored@) == positives,
            pair_views(sorted@) == spec_rank(pair_views(scored@).subrange(0, k2 as int)),
        decreases scored@.len() - k2,
    {
        proof {
            let pre = pair_views(scored@).subrange(0, k2 + 1 as int);
            assert(pre.drop_last() =~= pair_views(scored@).subrange(0, k2 as int));
            assert(pre.last() == pair_views(scored@)[k2 as int]);
        }
        let x = scored[k2];
        insert_ranked(&mut sorted, x);
        k2 = k2 + 1;
    }
    proof {
        assert(pair_views(scored@).subrange(0, scored@.len() as int) =~= pair_views(scored@));
    }
    let ghost ranked = spec_rank(positives);
    let mut out: Vec<SearchMatch> = Vec::new();
    let mut k3: usize = 0;
    proof {
        lemma_rank_elems(positives);
        lemma_positives_range(dv, K1_DEFAULT_MICRO as int, B_DEFAULT_MICRO as int, qts, 0);
        assert(match_views(out@) =~= ranked.subrange(0, 0).map_values(
            |p: (int, int)| spec_make_match(ev, dv, qts, p),
        ));
    }
    while k3 < sorted.len()
        invariant
            k3 <= sorted@.len(),
            ev == event_views(events@),
            dv == doc_views(docs@),
            qts == spec_tokenize(query@),
            docs@.len() == events@.len(),
            pair_views(sorted@) == ranked,
            token_views(qt@) == qts,
            forall|m: int| 0 <= m < ranked.len() ==> positives.contains(#[trigger] ranked[m]),
            forall|m: int|
                0 <= m < positives.len() ==> 0 <= (#[trigger] positives[m]).0 < dv.len() && 0
                    < positives[m].1 <= i64::MAX,
            match_views(out@) == ranked.subrange(0, k3 as int).map_values(
                |p: (int, int)| spec_make_match(ev, dv, qts, p),
            ),
        decreases sorted@.len() - k3,
    {
        proof {
            assert(ranked[k3 as int] == pair_views(sorted@)[k3 as int]);
            assert(positives.contains(ranked[k3 as int]));
            let m = choose|m: int| 0 <= m < positives.len() && positives[m] == ranked[k3 as int];
            assert(0 <= ranked[k3 as int].0 < dv.len());
        }
        let idx = sorted[k3].0;
        let m = SearchMatch {
            timestamp: events[idx].timestamp.clone(),
            role: events[idx].role.clone(),
            content: extract_snippet_with_words(docs[idx].as_str(), &qt, SNIPPET_CONTEXT),
            score: sorted[k3].1,
        };
        let ghost before = out@;
        proof {
            assert(dv[idx as int] == docs@[idx as int]@);
            assert(m@ == spec_make_match(ev, dv, qts, ranked[k3 as int]));
        }
        out.push(m);
        proof {
            assert(match_views(out@) =~= match_views(before).push(
                spec_make_match(ev, dv, qts, ranked[k3 as int]),
            ));
            assert(ranked.subrange(0, k3 + 1 as int) =~= ranked.subrange(0, k3 as int).push(
                ranked[k3 as int],
            ));
            assert(ranked.subrange(0, k3 + 1 as int).map_values(
                |p: (int, int)| spec_make_match(ev, dv, qts, p),
            ) =~= ranked.subrange(0, k3 as int).map_values(
                |p: (int, int)| spec_make_match(ev, dv, qts, p),
            ).push(spec_make_match(ev, dv, qts, ranked[k3 as int])));
        }
        k3 = k3 + 1;
    }
    proof {
        assert(ranked.subrange(0, sorted@.len() as int) =~= ranked);
        assert(match_views(out@) == spec_search(ev, query@));
    }
    out
}

} // verus!
