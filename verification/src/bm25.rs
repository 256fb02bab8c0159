//! The BM25 ranking engine: corpus statistics and per-document scoring.
//!
//! Scores are integers in millionths (see `fixed`). The saturation
//! parameter `k1` and the length-normalization parameter `b` are taken in
//! the same fixed-point form, so the standard parameters are
//! `k1_micro = 1_200_000` and `b_micro = 750_000`. A query term absent
//! from a document contributes nothing; a term present in more than half
//! the corpus has a negative inverse document frequency, so a document
//! that contains a query term can still score at or below zero.
//!
//! Intermediate arithmetic runs in 128 bits; products that cannot fit even
//! there saturate, which only ever drives a length-normalized denominator
//! upward, and the running total is clamped to the 64-bit score range at
//! every step.

use vstd::prelude::*;
use vstd::arithmetic::div_mod::{
    lemma_div_is_ordered, lemma_div_is_ordered_by_denominator, lemma_div_multiples_vanish,
    lemma_div_pos_is_pos,
};
use vstd::arithmetic::mul::{lemma_mul_inequality, lemma_mul_nonnegative};
use crate::fixed::{lemma_ln_micro_bound, lemma_ln_micro_sign, ln_micro, spec_ln_micro};
use crate::json::str_eq;
use crate::tokenize::{spec_tokenize, token_views, tokenize};

verus! {

/// Saturating product at the 128-bit limit.
pub open spec fn sat_mul(a: int, b: int) -> int {
    if a * b > 0xffff_ffff_ffff_ffff_ffff_ffff_ffff_ffff {
        0xffff_ffff_ffff_ffff_ffff_ffff_ffff_ffff
    } else {
        a * b
    }
}

/// Saturating sum at the 128-bit limit.
pub open spec fn sat_add(a: int, b: int) -> int {
    if a + b > 0xffff_ffff_ffff_ffff_ffff_ffff_ffff_ffff {
        0xffff_ffff_ffff_ffff_ffff_ffff_ffff_ffff
    } else {
        a + b
    }
}

/// Clamp to the signed 64-bit range.
pub open spec fn clamp64(x: int) -> int {
    if x > i64::MAX {
        i64::MAX as int
    } else if x < i64::MIN {
        i64::MIN as int
    } else {
        x
    }
}

/// Number of occurrences of `t` in a token sequence.
pub open spec fn spec_tf(tokens: Seq<Seq<char>>, t: Seq<char>) -> nat
    decreases tokens.len(),
{
    if tokens.len() == 0 {
        0
    } else {
        spec_tf(tokens.drop_last(), t) + (if tokens.last() == t {
            1nat
        } else {
            0nat
        })
    }
}

/// Number of documents whose tokens contain `t` at least once.
pub open spec fn spec_df_count(docs: Seq<Seq<char>>, t: Seq<char>) -> nat
    decreases docs.len(),
{
    if docs.len() == 0 {
        0
    } else {
        spec_df_count(docs.drop_last(), t) + (if spec_tf(spec_tokenize(docs.last()), t) >= 1 {
            1nat
        } else {
            0nat
        })
    }
}

/// Total token count over the documents.
pub open spec fn spec_total_tokens(docs: Seq<Seq<char>>) -> nat
    decreases docs.len(),
{
    if docs.len() == 0 {
        0
    } else {
        spec_total_tokens(docs.drop_last()) + spec_tokenize(docs.last()).len()
    }
}

/// The inverse document frequency, in millionths:
/// `ln((n - df + 1/2) / (df + 1/2))`, both sides doubled to clear the
/// halves. Negative as soon as `t` sits in more than half the corpus.
pub open spec fn spec_idf(n: int, df: int) -> int {
    spec_ln_micro(2 * (n - df) + 1, 2 * df + 1)
}

/// The term-frequency component, in millionths:
/// `tf (k1 + 1) / (tf + k1 (1 - b + b * dl / avg))` where `avg` is
/// `total / n`.
pub open spec fn spec_tf_norm(k1: int, b: int, n: int, total: int, tf: int, dl: int) -> int {
    let rm = sat_mul(b, dl * n) / total;
    let inner = sat_add(1_000_000 - b, rm);
    let k1in = sat_mul(k1, inner) / 1_000_000;
    let denom = sat_add(tf * 1_000_000, k1in);
    (tf * (k1 + 1_000_000) * 1_000_000) / denom
}

/// One query term's contribution to a document's score, in millionths.
pub open spec fn spec_contribution(
    k1: int,
    b: int,
    n: int,
    total: int,
    df: int,
    tf: int,
    dl: int,
) -> int {
    if tf == 0 {
        0
    } else {
        let idf = spec_idf(n, df);
        let tfn = spec_tf_norm(k1, b, n, total, tf, dl);
        if idf >= 0 {
            (idf * tfn) / 1_000_000
        } else {
            -((-idf * tfn) / 1_000_000)
        }
    }
}

/// BM25 scorer over a fixed corpus.
pub struct BM25 {
    k1_micro: u64,
    b_micro: u64,
    doc_count: usize,
    total_tokens: u128,
    /// Term document frequencies; keys are distinct.
    dfs: Vec<(String, u64)>,
}

/// First document frequency recorded for `t`, or zero.
pub open spec fn df_look(pairs: Seq<(String, u64)>, t: Seq<char>) -> nat
    decreases pairs.len(),
{
    if pairs.len() == 0 {
        0
    } else if pairs[0].0@ == t {
        pairs[0].1 as nat
    } else {
        df_look(pairs.drop_first(), t)
    }
}

impl BM25 {
    pub closed spec fn k1_spec(&self) -> int {
        self.k1_micro as int
    }

    pub closed spec fn b_spec(&self) -> int {
        self.b_micro as int
    }

    pub closed spec fn n_spec(&self) -> int {
        self.doc_count as int
    }

    pub closed spec fn total_spec(&self) -> int {
        self.total_tokens as int
    }

    /// Document frequency of a term: in how many corpus documents it
    /// occurs.
    pub closed spec fn df_of(&self, t: Seq<char>) -> nat {
        df_look(self.dfs@, t)
    }

    /// The scorer's internal invariant: parameters within fixed-point
    /// range and every recorded frequency within the corpus size.
    pub closed spec fn wf(&self) -> bool {
        &&& self.k1_micro <= 1_000_000_000_000
        &&& self.b_micro <= 1_000_000
        &&& forall|t: Seq<char>| #[trigger] self.df_of(t) <= self.doc_count
    }

    /// What `score` computes for already-tokenized query and document.
    pub open spec fn spec_score(&self, q: Seq<Seq<char>>, d: Seq<Seq<char>>) -> int
        decreases q.len(),
    {
        if self.total_spec() == 0 {
            0
        } else if q.len() == 0 {
            0
        } else {
            clamp64(
                self.spec_score(q.drop_last(), d) + spec_contribution(
                    self.k1_spec(),
                    self.b_spec(),
                    self.n_spec(),
                    self.total_spec(),
                    self.df_of(q.last()) as int,
                    spec_tf(d, q.last()) as int,
                    d.len() as int,
                ),
            )
        }
    }
}

// ------------------------------------------------------------------
// Facts about the lookup table and the counting functions.
// ------------------------------------------------------------------

/// A term occurs in a token sequence exactly when its count is positive.
pub proof fn lemma_tf_contains(tokens: Seq<Seq<char>>, t: Seq<char>)
    ensures
        spec_tf(tokens, t) >= 1 <==> tokens.contains(t),
    decreases tokens.len(),
{
    if tokens.len() > 0 {
        lemma_tf_contains(tokens.drop_last(), t);
        if spec_tf(tokens, t) >= 1 {
            if tokens.last() == t {
                assert(tokens[tokens.len() - 1] == t);
            } else {
                let i = choose|i: int| 0 <= i < tokens.drop_last().len() && tokens.drop_last()[i]
                    == t;
                assert(tokens[i] == t);
            }
        }
        if tokens.contains(t) {
            let i = choose|i: int| 0 <= i < tokens.len() && tokens[i] == t;
            if i < tokens.len() - 1 {
                assert(tokens.drop_last()[i] == t);
            }
        }
    }
}

/// A document frequency never exceeds the number of documents counted.
proof fn lemma_df_count_le(docs: Seq<Seq<char>>, t: Seq<char>)
    ensures
        spec_df_count(docs, t) <= docs.len(),
    decreases docs.len(),
{
    if docs.len() > 0 {
        lemma_df_count_le(docs.drop_last(), t);
    }
}

proof fn lemma_df_look_update_first(pairs: Seq<(String, u64)>, k: int, p2: (String, u64))
    requires
        0 <= k < pairs.len(),
        forall|j: int| 0 <= j < k ==> pairs[j].0@ != pairs[k].0@,
        p2.0@ == pairs[k].0@,
    ensures
        df_look(pairs.update(k, p2), pairs[k].0@) == p2.1 as nat,
        forall|s: Seq<char>|
            s != pairs[k].0@ ==> df_look(pairs.update(k, p2), s) == df_look(pairs, s),
    decreases k,
{
    let up = pairs.update(k, p2);
    if k == 0 {
        assert(up[0] == p2);
        assert(up.drop_first() =~= pairs.drop_first());
        assert forall|s: Seq<char>| s != pairs[k].0@ implies df_look(up, s) == df_look(
            pairs,
            s,
        ) by {
            assert(df_look(up, s) == df_look(up.drop_first(), s));
            assert(df_look(pairs, s) == df_look(pairs.drop_first(), s));
        }
    } else {
        assert(up[0] == pairs[0]);
        assert(up.drop_first() =~= pairs.drop_first().update(k - 1, p2));
        assert(pairs.drop_first()[k - 1] == pairs[k]);
        assert forall|j: int| 0 <= j < k - 1 implies (#[trigger] pairs.drop_first()[j]).0@
            != pairs.drop_first()[k - 1].0@ by {
            assert(pairs.drop_first()[j] == pairs[j + 1]);
        }
        lemma_df_look_update_first(pairs.drop_first(), k - 1, p2);
        assert forall|s: Seq<char>| s != pairs[k].0@ implies df_look(up, s) == df_look(
            pairs,
            s,
        ) by {
            if s != pairs[0].0@ {
                assert(df_look(up, s) == df_look(up.drop_first(), s));
                assert(df_look(pairs, s) == df_look(pairs.drop_first(), s));
            }
        }
    }
}

proof fn lemma_df_look_push(pairs: Seq<(String, u64)>, p: (String, u64))
    requires
        forall|j: int| 0 <= j < pairs.len() ==> pairs[j].0@ != p.0@,
    ensures
        df_look(pairs.push(p), p.0@) == p.1 as nat,
        forall|s: Seq<char>| s != p.0@ ==> df_look(pairs.push(p), s) == df_look(pairs, s),
    decreases pairs.len(),
{
    if pairs.len() == 0 {
        assert(pairs.push(p)[0] == p);
        assert(pairs.push(p).drop_first() =~= Seq::<(String, u64)>::empty());
        assert forall|s: Seq<char>| s != p.0@ implies df_look(pairs.push(p), s) == df_look(
            pairs,
            s,
        ) by {
            assert(df_look(pairs.push(p), s) == df_look(pairs.push(p).drop_first(), s));
        }
    } else {
        assert(pairs.push(p)[0] == pairs[0]);
        assert(pairs.push(p).drop_first() =~= pairs.drop_first().push(p));
        lemma_df_look_push(pairs.drop_first(), p);
        assert forall|s: Seq<char>| s != p.0@ implies df_look(pairs.push(p), s) == df_look(
            pairs,
            s,
        ) by {
            if s != pairs[0].0@ {
                assert(df_look(pairs.push(p), s) == df_look(pairs.drop_first().push(p), s));
                assert(df_look(pairs, s) == df_look(pairs.drop_first(), s));
            }
        }
    }
}

proof fn lemma_contains_push(s: Seq<Seq<char>>, v: Seq<char>, t: Seq<char>)
    ensures
        s.push(v).contains(t) <==> (s.contains(t) || v == t),
{
    if s.contains(t) {
        let i = choose|i: int| 0 <= i < s.len() && s[i] == t;
        assert(s.push(v)[i] == t);
    }
    if v == t {
        assert(s.push(v)[s.len() as int] == t);
    }
    if s.push(v).contains(t) {
        let i = choose|i: int| 0 <= i < s.push(v).len() && s.push(v)[i] == t;
        if i < s.len() {
            assert(s[i] == t);
        }
    }
}

// ------------------------------------------------------------------
// Executable helpers.
// ------------------------------------------------------------------

fn vec_contains_str(v: &Vec<String>, t: &String) -> (r: bool)
    ensures
        r == token_views(v@).contains(t@),
{
    let mut i: usize = 0;
    while i < v.len()
        invariant
            i <= v@.len(),
            forall|j: int| 0 <= j < i ==> token_views(v@)[j] != t@,
        decreases v@.len() - i,
    {
        if str_eq(v[i].as_str(), t.as_str()) {
            proof {
                assert(token_views(v@)[i as int] == t@);
            }
            return true;
        }
        i = i + 1;
    }
    proof {
        if token_views(v@).contains(t@) {
            let j = choose|j: int|
                0 <= j < token_views(v@).len() && token_views(v@)[j] == t@;
            assert(token_views(v@)[j] != t@);
        }
    }
    false
}

fn count_tf(tokens: &Vec<String>, t: &String) -> (r: usize)
    ensures
        r as nat == spec_tf(token_views(tokens@), t@),
{
    let mut count: usize = 0;
    let mut i: usize = 0;
    proof {
        assert(token_views(tokens@).subrange(0, 0) =~= Seq::<Seq<char>>::empty());
    }
    while i < tokens.len()
        invariant
            i <= tokens@.len(),
            count <= i,
            count as nat == spec_tf(token_views(tokens@).subrange(0, i as int), t@),
        decreases tokens@.len() - i,
    {
        proof {
            let pre = token_views(tokens@).subrange(0, i + 1 as int);
            assert(pre.drop_last() =~= token_views(tokens@).subrange(0, i as int));
            assert(pre.last() == token_views(tokens@)[i as int]);
        }
        if str_eq(tokens[i].as_str(), t.as_str()) {
            count = count + 1;
        }
        i = i + 1;
    }
    proof {
        assert(token_views(tokens@).subrange(0, tokens@.len() as int) =~= token_views(tokens@));
    }
    count
}

/// Record one more document containing `t`.
fn df_bump(pairs: &mut Vec<(String, u64)>, t: &String)
    requires
        df_look(old(pairs)@, t@) < u64::MAX as nat,
    ensures
        df_look(final(pairs)@, t@) == df_look(old(pairs)@, t@) + 1,
        forall|s: Seq<char>| s != t@ ==> df_look(final(pairs)@, s) == df_look(old(pairs)@, s),
{
    let mut i: usize = 0;
    while i < pairs.len()
        invariant
            i <= pairs@.len(),
            pairs@ == old(pairs)@,
            df_look(old(pairs)@, t@) < u64::MAX as nat,
            forall|j: int| 0 <= j < i ==> pairs@[j].0@ != t@,
        decreases pairs@.len() - i,
    {
        if str_eq(pairs[i].0.as_str(), t.as_str()) {
            proof {
                lemma_df_look_first(pairs@, t@, i as int);
            }
            let cur = pairs[i].1;
            pairs[i].1 = cur + 1;
            proof {
                lemma_df_look_update_first(
                    old(pairs)@,
                    i as int,
                    (old(pairs)@[i as int].0, (cur + 1) as u64),
                );
                assert(pairs@ =~= old(pairs)@.update(
                    i as int,
                    (old(pairs)@[i as int].0, (cur + 1) as u64),
                ));
            }
            return;
        }
        i = i + 1;
    }
    proof {
        lemma_df_look_absent(pairs@, t@);
    }
    let mut key = String::new();
    key.append(t.as_str());
    pairs.push((key, 1));
    proof {
        lemma_df_look_push(old(pairs)@, pairs@.last());
        assert(pairs@ =~= old(pairs)@.push(pairs@.last()));
    }
}

/// The first matching key decides the recorded frequency.
proof fn lemma_df_look_first(pairs: Seq<(String, u64)>, t: Seq<char>, k: int)
    requires
        0 <= k < pairs.len(),
        pairs[k].0@ == t,
        forall|j: int| 0 <= j < k ==> pairs[j].0@ != t,
    ensures
        df_look(pairs, t) == pairs[k].1 as nat,
    decreases k,
{
    if k > 0 {
        assert(pairs.drop_first()[k - 1] == pairs[k]);
        lemma_df_look_first(pairs.drop_first(), t, k - 1);
    }
}

/// A key under none of the entries has frequency zero.
proof fn lemma_df_look_absent(pairs: Seq<(String, u64)>, t: Seq<char>)
    requires
        forall|j: int| 0 <= j < pairs.len() ==> pairs[j].0@ != t,
    ensures
        df_look(pairs, t) == 0,
    decreases pairs.len(),
{
    if pairs.len() > 0 {
        lemma_df_look_absent(pairs.drop_first(), t);
    }
}

// ------------------------------------------------------------------
// Bounds of the fixed-point pipeline.
// ------------------------------------------------------------------

/// The term-frequency component is never negative.
pub proof fn lemma_tf_norm_nonneg(k1: int, b: int, n: int, total: int, tf: int, dl: int)
    requires
        0 <= k1,
        0 <= b <= 1_000_000,
        1 <= total,
        1 <= tf,
        0 <= dl,
        0 <= n,
    ensures
        0 <= spec_tf_norm(k1, b, n, total, tf, dl),
{
    let rm = sat_mul(b, dl * n) / total;
    lemma_mul_nonnegative(dl, n);
    lemma_mul_nonnegative(b, dl * n);
    lemma_div_pos_is_pos(sat_mul(b, dl * n), total);
    let inner = sat_add(1_000_000 - b + rm, 0);
    lemma_mul_nonnegative(k1, sat_add(1_000_000 - b, rm));
    lemma_div_pos_is_pos(sat_mul(k1, sat_add(1_000_000 - b, rm)), 1_000_000);
    lemma_mul_nonnegative(k1 + 1_000_000, tf);
    lemma_mul_nonnegative(tf, k1 + 1_000_000);
    lemma_mul_nonnegative(tf * (k1 + 1_000_000), 1_000_000);
    lemma_div_pos_is_pos(
        tf * (k1 + 1_000_000) * 1_000_000,
        sat_add(tf * 1_000_000, sat_mul(k1, sat_add(1_000_000 - b, rm)) / 1_000_000),
    );
}

/// The term-frequency component saturates at `k1 + 1` (in millionths).
pub proof fn lemma_tf_norm_le(k1: int, b: int, n: int, total: int, tf: int, dl: int)
    requires
        0 <= k1,
        0 <= b <= 1_000_000,
        1 <= total,
        1 <= tf <= 0xffff_ffff_ffff_ffff,
        0 <= dl,
        0 <= n,
    ensures
        spec_tf_norm(k1, b, n, total, tf, dl) <= k1 + 1_000_000,
{
    let rm = sat_mul(b, dl * n) / total;
    let inner = sat_add(1_000_000 - b, rm);
    let k1in = sat_mul(k1, inner) / 1_000_000;
    let denom = sat_add(tf * 1_000_000, k1in);
    let num = tf * (k1 + 1_000_000) * 1_000_000;
    lemma_mul_nonnegative(dl, n);
    lemma_mul_nonnegative(b, dl * n);
    lemma_div_pos_is_pos(sat_mul(b, dl * n), total);
    lemma_mul_nonnegative(k1, inner);
    lemma_div_pos_is_pos(sat_mul(k1, inner), 1_000_000);
    assert(tf * 1_000_000 <= denom) by {
        assert(tf * 1_000_000 <= 0xffff_ffff_ffff_ffff * 1_000_000) by (nonlinear_arith)
            requires
                1 <= tf <= 0xffff_ffff_ffff_ffff,
        ;
    }
    assert(0 < tf * 1_000_000) by (nonlinear_arith)
        requires
            1 <= tf,
    ;
    lemma_div_is_ordered_by_denominator(num, tf * 1_000_000, denom);
    assert(tf * (k1 + 1_000_000) * 1_000_000 == (k1 + 1_000_000) * (tf * 1_000_000))
        by (nonlinear_arith);
    lemma_div_multiples_vanish(k1 + 1_000_000, tf * 1_000_000);
    assert(num / (tf * 1_000_000) == k1 + 1_000_000);
}

/// The fixed-point term-frequency component shrinks as the document
/// grows: with everything else fixed, a longer document normalizes lower.
pub proof fn lemma_tf_norm_mono_len(
    k1: int,
    b: int,
    n: int,
    total: int,
    tf: int,
    dl1: int,
    dl2: int,
)
    requires
        0 <= k1,
        0 <= b <= 1_000_000,
        1 <= total,
        1 <= tf,
        0 <= dl1 <= dl2,
        0 <= n,
    ensures
        spec_tf_norm(k1, b, n, total, tf, dl2) <= spec_tf_norm(k1, b, n, total, tf, dl1),
{
    // Each stage of the pipeline is monotone in the document length.
    let q1 = dl1 * n;
    let q2 = dl2 * n;
    lemma_mul_inequality(dl1, dl2, n);
    lemma_mul_nonnegative(dl1, n);
    assert(sat_mul(b, q1) <= sat_mul(b, q2)) by {
        assert(b * q1 <= b * q2) by (nonlinear_arith)
            requires
                0 <= b,
                q1 <= q2,
        ;
        lemma_mul_nonnegative(b, q1);
    }
    let rm1 = sat_mul(b, q1) / total;
    let rm2 = sat_mul(b, q2) / total;
    lemma_div_is_ordered(sat_mul(b, q1), sat_mul(b, q2), total);
    let in1 = sat_add(1_000_000 - b, rm1);
    let in2 = sat_add(1_000_000 - b, rm2);
    assert(in1 <= in2);
    lemma_mul_nonnegative(b, q1);
    lemma_div_pos_is_pos(sat_mul(b, q1), total);
    assert(sat_mul(k1, in1) <= sat_mul(k1, in2)) by {
        assert(k1 * in1 <= k1 * in2) by (nonlinear_arith)
            requires
                0 <= k1,
                in1 <= in2,
        ;
        lemma_mul_nonnegative(k1, in1);
    }
    let k1in1 = sat_mul(k1, in1) / 1_000_000;
    let k1in2 = sat_mul(k1, in2) / 1_000_000;
    lemma_div_is_ordered(sat_mul(k1, in1), sat_mul(k1, in2), 1_000_000);
    let den1 = sat_add(tf * 1_000_000, k1in1);
    let den2 = sat_add(tf * 1_000_000, k1in2);
    assert(den1 <= den2);
    lemma_mul_nonnegative(k1, in1);
    lemma_div_pos_is_pos(sat_mul(k1, in1), 1_000_000);
    assert(0 < den1) by {
        assert(0 < tf * 1_000_000) by (nonlinear_arith)
            requires
                1 <= tf,
        ;
    }
    let num = tf * (k1 + 1_000_000) * 1_000_000;
    lemma_mul_nonnegative(tf, k1 + 1_000_000);
    lemma_mul_nonnegative(tf * (k1 + 1_000_000), 1_000_000);
    lemma_div_is_ordered_by_denominator(num, den1, den2);
}

// ------------------------------------------------------------------
// The executable pipeline.
// ------------------------------------------------------------------

/// The term-frequency component, executed in 128-bit saturating
/// arithmetic.
fn tf_norm_micro(k1: u64, b: u64, n: usize, total: u128, tf: usize, dl: usize) -> (r: u128)
    requires
        k1 <= 1_000_000_000_000,
        b <= 1_000_000,
        1 <= total,
        1 <= tf,
    ensures
        r as int == spec_tf_norm(k1 as int, b as int, n as int, total as int, tf as int, dl as int),
        r as int <= k1 + 1_000_000,
{
    proof {
        lemma_tf_norm_le(k1 as int, b as int, n as int, total as int, tf as int, dl as int);
        assert((dl as int) * (n as int) <= (0xffff_ffff_ffff_ffff as int) * (
        0xffff_ffff_ffff_ffff as int)) by (nonlinear_arith)
            requires
                0 <= dl <= 0xffff_ffff_ffff_ffff,
                0 <= n <= 0xffff_ffff_ffff_ffff,
        ;
    }
    let q: u128 = (dl as u128) * (n as u128);
    let bq: u128 = match (b as u128).checked_mul(q) {
        Some(p) => p,
        None => u128::MAX,
    };
    let rm: u128 = bq / total;
    proof {
        lemma_div_is_ordered(rm as int, bq as int, 1);
        vstd::arithmetic::div_mod::lemma_div_nonincreasing(bq as int, total as int);
        lemma_div_pos_is_pos(bq as int, total as int);
    }
    let base: u128 = (1_000_000 - b) as u128;
    let inner: u128 = match base.checked_add(rm) {
        Some(v) => v,
        None => u128::MAX,
    };
    let k1in_full: u128 = match (k1 as u128).checked_mul(inner) {
        Some(p) => p,
        None => u128::MAX,
    };
    let k1in: u128 = k1in_full / 1_000_000;
    proof {
        vstd::arithmetic::div_mod::lemma_div_nonincreasing(k1in_full as int, 1_000_000);
        lemma_div_pos_is_pos(k1in_full as int, 1_000_000);
    }
    let tfm: u128 = (tf as u128) * 1_000_000;
    proof {
        assert((tf as int) * 1_000_000 <= (0xffff_ffff_ffff_ffff as int) * 1_000_000)
            by (nonlinear_arith)
            requires
                tf <= 0xffff_ffff_ffff_ffff,
        ;
    }
    let denom: u128 = match tfm.checked_add(k1in) {
        Some(v) => v,
        None => u128::MAX,
    };
    proof {
        assert(1 <= (tf as int) * 1_000_000) by (nonlinear_arith)
            requires
                1 <= tf,
        ;
    }
    proof {
        assert((tf as int) * ((k1 as int) + 1_000_000) <= (0xffff_ffff_ffff_ffff as int) * (
        1_000_001_000_000 as int)) by (nonlinear_arith)
            requires
                tf <= 0xffff_ffff_ffff_ffff,
                k1 <= 1_000_000_000_000,
                1 <= tf,
        ;
    }
    let num0: u128 = (tf as u128) * ((k1 as u128) + 1_000_000);
    proof {
        assert((num0 as int) * 1_000_000 <= u128::MAX as int) by (nonlinear_arith)
            requires
                0 <= num0 as int <= (0xffff_ffff_ffff_ffff as int) * (1_000_001_000_000 as int),
        ;
    }
    let num: u128 = num0 * 1_000_000;
    num / denom
}

/// One query term's contribution, in millionths, clamped nowhere: its
/// magnitude already fits far inside the 64-bit range.
fn contribution_micro(k1: u64, b: u64, n: usize, total: u128, df: u64, tf: usize, dl: usize) -> (r:
    i64)
    requires
        k1 <= 1_000_000_000_000,
        b <= 1_000_000,
        1 <= total,
        df as int <= n as int,
    ensures
        r as int == spec_contribution(
            k1 as int,
            b as int,
            n as int,
            total as int,
            df as int,
            tf as int,
            dl as int,
        ),
{
    if tf == 0 {
        return 0;
    }
    let num: u128 = 2 * ((n as u128) - (df as u128)) + 1;
    let den: u128 = 2 * (df as u128) + 1;
    proof {
        lemma_ln_micro_bound(num as int, den as int);
    }
    let idf: i64 = ln_micro(num, den);
    let tfn: u128 = tf_norm_micro(k1, b, n, total, tf, dl);
    if idf >= 0 {
        proof {
            assert(((idf as u128) as int) * (tfn as int) <= 2_147_485_795_483_648_000_000)
                by (nonlinear_arith)
                requires
                    0 <= (idf as u128) as int <= 0x8000_0000,
                    0 <= tfn as int <= 1_000_001_000_000,
            ;
        }
        let prod: u128 = (idf as u128) * tfn;
        proof {
            lemma_div_is_ordered(prod as int, 2_147_485_795_483_648_000_000, 1_000_000);
            lemma_div_pos_is_pos(prod as int, 1_000_000);
        }
        (prod / 1_000_000) as i64
    } else {
        proof {
            assert((((-idf) as u128) as int) * (tfn as int) <= 2_147_485_795_483_648_000_000)
                by (nonlinear_arith)
                requires
                    0 <= ((-idf) as u128) as int <= 0x8000_0000,
                    0 <= tfn as int <= 1_000_001_000_000,
            ;
        }
        let mag: u128 = ((-idf) as u128) * tfn;
        proof {
            lemma_div_is_ordered(mag as int, 2_147_485_795_483_648_000_000, 1_000_000);
            lemma_div_pos_is_pos(mag as int, 1_000_000);
        }
        -((mag / 1_000_000) as i64)
    }
}

impl BM25 {
    /// Build a scorer over a corpus of documents: per-term document
    /// frequencies, the document count, and the corpus token total.
    pub fn new(documents: &Vec<String>, k1_micro: u64, b_micro: u64) -> (r: BM25)
        requires
            k1_micro <= 1_000_000_000_000,
            b_micro <= 1_000_000,
        ensures
            r.wf(),
            r.k1_spec() == k1_micro as int,
            r.b_spec() == b_micro as int,
            r.n_spec() == documents@.len(),
            r.total_spec() == spec_total_tokens(doc_views(documents@)),
            forall|t: Seq<char>| #[trigger] r.df_of(t) == spec_df_count(doc_views(documents@), t),
    {
        let ghost dviews = doc_views(documents@);
        let mut dfs: Vec<(String, u64)> = Vec::new();
        let mut total: u128 = 0;
        let mut i: usize = 0;
        let n_docs = documents.len();
        proof {
            assert(dviews.subrange(0, 0) =~= Seq::<Seq<char>>::empty());
            assert(documents@.len() == n_docs as nat);
        }
        while i < documents.len()
            invariant
                i <= documents@.len(),
                documents@.len() <= 0xffff_ffff_ffff_ffff,
                dviews == doc_views(documents@),
                total as int == spec_total_tokens(dviews.subrange(0, i as int)),
                total as int <= (i as int) * 0xffff_ffff_ffff_ffff,
                forall|t: Seq<char>|
                    #[trigger] df_look(dfs@, t) == spec_df_count(dviews.subrange(0, i as int), t),
            decreases documents@.len() - i,
        {
            let tokens = tokenize(documents[i].as_str());
            proof {
                let pre = dviews.subrange(0, i + 1 as int);
                assert(pre.drop_last() =~= dviews.subrange(0, i as int));
                assert(pre.last() == dviews[i as int]);
                assert(dviews[i as int] == documents@[i as int]@);
                assert((i as int) * 0xffff_ffff_ffff_ffff + 0xffff_ffff_ffff_ffff == (i + 1 as int)
                    * 0xffff_ffff_ffff_ffff) by (nonlinear_arith);
                assert((i + 1 as int) * 0xffff_ffff_ffff_ffff <= u128::MAX as int)
                    by (nonlinear_arith)
                    requires
                        0 <= i + 1 <= 0x1_0000_0000_0000_0000,
                ;
            }
            total = total + (tokens.len() as u128);
            let ghost df_start = dfs@;
            let mut seen: Vec<String> = Vec::new();
            let mut j: usize = 0;
            while j < tokens.len()
                invariant
                    j <= tokens@.len(),
                    i < documents@.len(),
                    documents@.len() <= 0xffff_ffff_ffff_ffff,
                    dviews == doc_views(documents@),
                    token_views(tokens@) == spec_tokenize(dviews[i as int]),
                    forall|t: Seq<char>|
                        #[trigger] df_look(df_start, t) == spec_df_count(
                            dviews.subrange(0, i as int),
                            t,
                        ),
                    forall|t: Seq<char>|
                        token_views(seen@).contains(t) <==> token_views(
                            tokens@.subrange(0, j as int),
                        ).contains(t),
                    forall|t: Seq<char>|
                        #[trigger] df_look(dfs@, t) == df_look(df_start, t) + (if token_views(
                            seen@,
                        ).contains(t) {
                            1nat
                        } else {
                            0nat
                        }),
                decreases tokens@.len() - j,
            {
                proof {
                    let pj = token_views(tokens@.subrange(0, j + 1 as int));
                    assert(pj =~= token_views(tokens@.subrange(0, j as int)).push(
                        tokens@[j as int]@,
                    ));
                }
                let ghost tv = tokens@[j as int]@;
                proof {
                    assert forall|t: Seq<char>| true implies (token_views(
                        tokens@.subrange(0, j + 1 as int),
                    ).contains(t) <==> (token_views(tokens@.subrange(0, j as int)).contains(t)
                        || tv == t)) by {
                        lemma_contains_push(token_views(tokens@.subrange(0, j as int)), tv, t);
                    }
                }
                if !vec_contains_str(&seen, &tokens[j]) {
                    let ghost dfs_before = dfs@;
                    let ghost seen_before = seen@;
                    proof {
                        assert(!token_views(seen@).contains(tv));
                        assert(df_look(dfs@, tv) == df_look(df_start, tv) + 0nat);
                        assert(df_look(df_start, tv) == spec_df_count(
                            dviews.subrange(0, i as int),
                            tv,
                        ));
                        lemma_df_count_le(dviews.subrange(0, i as int), tv);
                        assert(dviews.subrange(0, i as int).len() == i as int);
                        assert(df_look(df_start, tv) <= i as nat);
                        assert((i as int) < documents@.len());
                        assert(df_look(dfs@, tv) < u64::MAX as nat);
                    }
                    df_bump(&mut dfs, &tokens[j]);
                    let k = tokens[j].clone();
                    seen.push(k);
                    proof {
                        assert(token_views(seen@) =~= token_views(seen_before).push(tv));
                        assert forall|t: Seq<char>| true implies (token_views(seen@).contains(t)
                            <==> (token_views(seen_before).contains(t) || tv == t)) by {
                            lemma_contains_push(token_views(seen_before), tv, t);
                        }
                        assert forall|t: Seq<char>| true implies #[trigger] df_look(dfs@, t)
                            == df_look(df_start, t) + (if token_views(seen@).contains(t) {
                            1nat
                        } else {
                            0nat
                        }) by {
                            if t == tv {
                                assert(df_look(dfs@, t) == df_look(dfs_before, t) + 1);
                                assert(!token_views(seen_before).contains(t));
                                assert(df_look(dfs_before, t) == df_look(df_start, t) + 0nat);
                                assert(token_views(seen@).contains(t));
                            } else {
                                assert(df_look(dfs@, t) == df_look(dfs_before, t));
                                assert(token_views(seen@).contains(t) <==> token_views(
                                    seen_before,
                                ).contains(t));
                            }
                        }
                        assert forall|t: Seq<char>| true implies (token_views(seen@).contains(t)
                            <==> token_views(tokens@.subrange(0, j + 1 as int)).contains(t)) by {
                            assert(token_views(seen@).contains(t) <==> (token_views(
                                seen_before,
                            ).contains(t) || tv == t));
                            assert(token_views(tokens@.subrange(0, j + 1 as int)).contains(t) <==> (
                            token_views(tokens@.subrange(0, j as int)).contains(t) || tv == t));
                        }
                    }
                } else {
                    proof {
                        assert(token_views(seen@).contains(tv));
                        assert forall|t: Seq<char>| true implies (token_views(seen@).contains(t)
                            <==> token_views(tokens@.subrange(0, j + 1 as int)).contains(t)) by {
                        }
                    }
                }
                j = j + 1;
            }
            proof {
                assert(tokens@.subrange(0, tokens@.len() as int) =~= tokens@);
                let pre = dviews.subrange(0, i + 1 as int);
                assert(pre.drop_last() =~= dviews.subrange(0, i as int));
                assert(pre.last() == dviews[i as int]);
                assert forall|t: Seq<char>| true implies #[trigger] df_look(dfs@, t)
                    == spec_df_count(dviews.subrange(0, i + 1 as int), t) by {
                    lemma_tf_contains(spec_tokenize(dviews[i as int]), t);
                }
            }
            i = i + 1;
        }
        proof {
            assert(dviews.subrange(0, documents@.len() as int) =~= dviews);
            assert forall|t: Seq<char>| true implies #[trigger] df_look(dfs@, t)
                <= documents@.len() by {
                lemma_df_count_le(dviews, t);
            }
        }
        BM25 { k1_micro, b_micro, doc_count: documents.len(), total_tokens: total, dfs }
    }

    fn df_lookup(&self, t: &String) -> (r: u64)
        ensures
            r as nat == self.df_of(t@),
    {
        let mut i: usize = 0;
        proof {
            assert(self.dfs@.skip(0) =~= self.dfs@);
        }
        while i < self.dfs.len()
            invariant
                i <= self.dfs@.len(),
                df_look(self.dfs@, t@) == df_look(self.dfs@.skip(i as int), t@),
            decreases self.dfs@.len() - i,
        {
            proof {
                assert(self.dfs@.skip(i as int)[0] == self.dfs@[i as int]);
                assert(self.dfs@.skip(i as int).drop_first() =~= self.dfs@.skip(i + 1 as int));
            }
            if str_eq(self.dfs[i].0.as_str(), t.as_str()) {
                return self.dfs[i].1;
            }
            i = i + 1;
        }
        0
    }

    /// Score one document against a query: the sum, over the query's
    /// tokens, of each token's BM25 contribution against this corpus,
    /// clamped to the 64-bit range at every step. An empty corpus scores
    /// zero for every document.
    pub fn score(&self, query: &str, document: &str) -> (r: i64)
        requires
            self.wf(),
        ensures
            r as int == self.spec_score(spec_tokenize(query@), spec_tokenize(document@)),
    {
        let q = tokenize(query);
        let d = tokenize(document);
        let ghost qv = spec_tokenize(query@);
        let ghost dv = spec_tokenize(document@);
        if self.total_tokens == 0 {
            return 0;
        }
        let dl = d.len();
        let mut acc: i64 = 0;
        let mut i: usize = 0;
        proof {
            assert(qv.subrange(0, 0) =~= Seq::<Seq<char>>::empty());
        }
        while i < q.len()
            invariant
                i <= q@.len(),
                self.wf(),
                self.total_spec() >= 1,
                token_views(q@) == qv,
                token_views(d@) == dv,
                dl == d@.len(),
                acc as int == self.spec_score(qv.subrange(0, i as int), dv),
            decreases q@.len() - i,
        {
            proof {
                let pre = qv.subrange(0, i + 1 as int);
                assert(pre.drop_last() =~= qv.subrange(0, i as int));
                assert(pre.last() == qv[i as int]);
            }
            let tf = count_tf(&d, &q[i]);
            let c: i64 = if tf > 0 {
                let df = self.df_lookup(&q[i]);
                proof {
                    assert(self.df_of(q@[i as int]@) <= self.doc_count);
                }
                contribution_micro(
                    self.k1_micro,
                    self.b_micro,
                    self.doc_count,
                    self.total_tokens,
                    df,
                    tf,
                    dl,
                )
            } else {
                0
            };
            let wide: i128 = (acc as i128) + (c as i128);
            if wide > (i64::MAX as i128) {
                acc = i64::MAX;
            } else if wide < (i64::MIN as i128) {
                acc = i64::MIN;
            } else {
                acc = wide as i64;
            }
            i = i + 1;
        }
        proof {
            assert(qv.subrange(0, q@.len() as int) =~= qv);
        }
        acc
    }
}

/// The texts of the documents, as character sequences.
pub open spec fn doc_views(docs: Seq<String>) -> Seq<Seq<char>> {
    docs.map_values(|d: String| d@)
}

// ------------------------------------------------------------------
// Ranking laws.
// ------------------------------------------------------------------

/// A term's contribution is non-negative as long as the term occurs in at
/// most half the corpus (its inverse document frequency is then
/// non-negative).
proof fn lemma_contribution_nonneg(k1: int, b: int, n: int, total: int, df: int, tf: int, dl: int)
    requires
        0 <= k1,
        0 <= b <= 1_000_000,
        1 <= total,
        0 <= tf,
        0 <= dl,
        0 <= df,
        2 * df <= n,
        n <= 0xffff_ffff_ffff_ffff,
    ensures
        spec_contribution(k1, b, n, total, df, tf, dl) >= 0,
{
    if tf != 0 {
        lemma_ln_micro_sign(2 * (n - df) + 1, 2 * df + 1);
        lemma_tf_norm_nonneg(k1, b, n, total, tf, dl);
        let idf = spec_idf(n, df);
        let tfn = spec_tf_norm(k1, b, n, total, tf, dl);
        lemma_mul_nonnegative(idf, tfn);
        lemma_div_pos_is_pos(idf * tfn, 1_000_000);
    }
}

/// A document containing none of the query terms scores exactly zero.
pub proof fn lemma_score_no_terms_zero(bm: BM25, q: Seq<Seq<char>>, d: Seq<Seq<char>>)
    requires
        forall|i: int| 0 <= i < q.len() ==> spec_tf(d, #[trigger] q[i]) == 0,
    ensures
        bm.spec_score(q, d) == 0,
    decreases q.len(),
{
    if bm.total_spec() != 0 && q.len() > 0 {
        assert(spec_tf(d, q[q.len() - 1]) == 0);
        lemma_score_no_terms_zero(bm, q.drop_last(), d);
        assert(forall|i: int|
            0 <= i < q.drop_last().len() ==> q.drop_last()[i] == q[i]);
    }
}

/// When every query term occurs in at most half the corpus, no document's
/// score is negative.
pub proof fn lemma_score_nonneg(bm: BM25, q: Seq<Seq<char>>, d: Seq<Seq<char>>)
    requires
        bm.wf(),
        forall|i: int|
            0 <= i < q.len() ==> 2 * (bm.df_of(#[trigger] q[i]) as int) <= bm.n_spec(),
    ensures
        bm.spec_score(q, d) >= 0,
    decreases q.len(),
{
    if bm.total_spec() != 0 && q.len() > 0 {
        lemma_score_nonneg(bm, q.drop_last(), d);
        assert(forall|i: int|
            0 <= i < q.drop_last().len() ==> q.drop_last()[i] == q[i]);
        let t = q[q.len() - 1];
        assert(2 * (bm.df_of(t) as int) <= bm.n_spec());
        lemma_contribution_nonneg(
            bm.k1_spec(),
            bm.b_spec(),
            bm.n_spec(),
            bm.total_spec(),
            bm.df_of(t) as int,
            spec_tf(d, t) as int,
            d.len() as int,
        );
    }
}

/// A document containing every query term scores at least as high as an
/// otherwise identical document, of the same length, containing none of
/// them — provided each query term occurs in at most half the corpus.
/// (With a majority term the inverse document frequency turns negative and
/// the containing document can score below zero.)
pub proof fn lemma_all_terms_beat_absent(
    bm: BM25,
    q: Seq<Seq<char>>,
    d1: Seq<Seq<char>>,
    d2: Seq<Seq<char>>,
)
    requires
        bm.wf(),
        d1.len() == d2.len(),
        forall|i: int| 0 <= i < q.len() ==> spec_tf(d1, #[trigger] q[i]) >= 1,
        forall|i: int| 0 <= i < q.len() ==> spec_tf(d2, #[trigger] q[i]) == 0,
        forall|i: int|
            0 <= i < q.len() ==> 2 * (bm.df_of(#[trigger] q[i]) as int) <= bm.n_spec(),
    ensures
        bm.spec_score(q, d1) >= bm.spec_score(q, d2),
{
    lemma_score_no_terms_zero(bm, q, d2);
    lemma_score_nonneg(bm, q, d1);
}

/// Of two documents that both contain the query term exactly once, with
/// the corpus statistics held fixed and the term in at most half the
/// corpus, the shorter document scores at least as high: that is the
/// direction of BM25's length normalization.
pub proof fn lemma_shorter_doc_scores_at_least(
    bm: BM25,
    t: Seq<char>,
    d1: Seq<Seq<char>>,
    d2: Seq<Seq<char>>,
)
    requires
        bm.wf(),
        spec_tf(d1, t) == 1,
        spec_tf(d2, t) == 1,
        d1.len() <= d2.len(),
        2 * (bm.df_of(t) as int) <= bm.n_spec(),
    ensures
        bm.spec_score(seq![t], d1) >= bm.spec_score(seq![t], d2),
{
    if bm.total_spec() != 0 {
        let k1 = bm.k1_spec();
        let b = bm.b_spec();
        let n = bm.n_spec();
        let total = bm.total_spec();
        let df = bm.df_of(t) as int;
        assert(seq![t].drop_last() =~= Seq::<Seq<char>>::empty());
        assert(seq![t].last() == t);
        lemma_ln_micro_sign(2 * (n - df) + 1, 2 * df + 1);
        let idf = spec_idf(n, df);
        assert(idf >= 0);
        lemma_tf_norm_mono_len(k1, b, n, total, 1, d1.len() as int, d2.len() as int);
        lemma_tf_norm_nonneg(k1, b, n, total, 1, d1.len() as int);
        lemma_tf_norm_nonneg(k1, b, n, total, 1, d2.len() as int);
        let tfn1 = spec_tf_norm(k1, b, n, total, 1, d1.len() as int);
        let tfn2 = spec_tf_norm(k1, b, n, total, 1, d2.len() as int);
        assert(idf * tfn2 <= idf * tfn1) by (nonlinear_arith)
            requires
                idf >= 0,
                0 <= tfn2 <= tfn1,
        ;
        lemma_div_is_ordered(idf * tfn2, idf * tfn1, 1_000_000);
        let c1 = spec_contribution(k1, b, n, total, df, 1, d1.len() as int);
        let c2 = spec_contribution(k1, b, n, total, df, 1, d2.len() as int);
        assert(c2 <= c1);
        assert(bm.spec_score(seq![t].drop_last(), d1) == 0);
        assert(bm.spec_score(seq![t].drop_last(), d2) == 0);
        assert(bm.spec_score(seq![t], d1) == clamp64(0 + c1));
        assert(bm.spec_score(seq![t], d2) == clamp64(0 + c2));
    }
}

/// Over an empty corpus every document scores exactly zero, whatever the
/// query.
pub proof fn lemma_empty_corpus_scores_zero(bm: BM25, q: Seq<Seq<char>>, d: Seq<Seq<char>>)
    requires
        bm.total_spec() == 0,
    ensures
        bm.spec_score(q, d) == 0,
{
}

} // verus!
