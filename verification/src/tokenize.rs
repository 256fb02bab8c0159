//! The tokenizer: case folding followed by splitting on whitespace,
//! dropping empty tokens.

use vstd::prelude::*;
use crate::chars::{
    all_lower, chars_to_string, is_ws, is_ws_char, lower_chars, lower_seq, spec_lower_char,
    str_to_chars,
};

verus! {

/// Split `s` on whitespace with `cur` as the word accumulated so far;
/// empty words are dropped.
pub open spec fn split_acc(s: Seq<char>, cur: Seq<char>) -> Seq<Seq<char>>
    decreases s.len(),
{
    if s.len() == 0 {
        if cur.len() == 0 {
            Seq::empty()
        } else {
            seq![cur]
        }
    } else if is_ws_char(s[0]) {
        if cur.len() == 0 {
            split_acc(s.drop_first(), Seq::empty())
        } else {
            seq![cur] + split_acc(s.drop_first(), Seq::empty())
        }
    } else {
        split_acc(s.drop_first(), cur.push(s[0]))
    }
}

/// Split on whitespace, dropping empty tokens.
pub open spec fn split_ws(s: Seq<char>) -> Seq<Seq<char>> {
    split_acc(s, Seq::empty())
}

/// What `tokenize` computes: lower-case the text, split it on whitespace.
pub open spec fn spec_tokenize(s: Seq<char>) -> Seq<Seq<char>> {
    split_ws(lower_seq(s))
}

/// What `join_tokens` computes: the tokens separated by single spaces.
pub open spec fn spec_join(ts: Seq<Seq<char>>) -> Seq<char>
    decreases ts.len(),
{
    if ts.len() == 0 {
        Seq::empty()
    } else if ts.len() == 1 {
        ts[0]
    } else {
        ts[0] + seq![' '] + spec_join(ts.drop_first())
    }
}

pub open spec fn token_views(ts: Seq<String>) -> Seq<Seq<char>> {
    ts.map_values(|t: String| t@)
}

fn tokenize_chars(low: &Vec<char>) -> (r: Vec<String>)
    ensures
        token_views(r@) == split_ws(low@),
{
    let n = low.len();
    let mut r: Vec<String> = Vec::new();
    let mut i: usize = 0;
    proof {
        assert(low@.skip(0) =~= low@);
        assert(token_views(r@) + split_ws(low@) =~= split_ws(low@));
    }
    while i < n
        invariant
            i <= n,
            n == low@.len(),
            split_ws(low@) == token_views(r@) + split_acc(low@.skip(i as int), Seq::empty()),
        decreases n - i,
    {
        if is_ws(low[i]) {
            proof {
                assert(low@.skip(i as int)[0] == low@[i as int]);
                assert(low@.skip(i as int).drop_first() =~= low@.skip(i + 1 as int));
            }
            i = i + 1;
        } else {
            let start = i;
            let mut j: usize = i;
            let mut word: Vec<char> = Vec::new();
            while j < n && !is_ws(low[j])
                invariant
                    start <= j <= n,
                    n == low@.len(),
                    word@ == low@.subrange(start as int, j as int),
                    split_ws(low@) == token_views(r@) + split_acc(low@.skip(j as int), word@),
                decreases n - j,
            {
                proof {
                    assert(low@.skip(j as int)[0] == low@[j as int]);
                    assert(low@.skip(j as int).drop_first() =~= low@.skip(j + 1 as int));
                    assert(word@.push(low@[j as int]) =~= low@.subrange(start as int, j + 1 as int));
                }
                word.push(low[j]);
                j = j + 1;
            }
            proof {
                assert(word@.len() == j - start >= 1) by {
                    if j == start {
                        assert(low@.skip(j as int)[0] == low@[j as int]);
                    }
                }
            }
            let t = chars_to_string(&word);
            if j < n {
                proof {
                    assert(low@.skip(j as int)[0] == low@[j as int]);
                    assert(low@.skip(j as int).drop_first() =~= low@.skip(j + 1 as int));
                    assert(split_acc(low@.skip(j as int), word@) == seq![word@] + split_acc(
                        low@.skip(j + 1 as int),
                        Seq::empty(),
                    ));
                }
                i = j + 1;
            } else {
                proof {
                    assert(low@.skip(j as int).len() == 0);
                    assert(split_acc(low@.skip(j as int), word@) == seq![word@]);
                    assert(seq![word@] =~= seq![word@] + split_acc(
                        low@.skip(j as int),
                        Seq::empty(),
                    ));
                }
                i = j;
            }
            r.push(t);
            proof {
                assert(token_views(r@) =~= token_views(r@.drop_last()).push(t@));
                assert(token_views(r@.drop_last()).push(t@) + split_acc(
                    low@.skip(i as int),
                    Seq::empty(),
                ) =~= token_views(r@.drop_last()) + (seq![word@] + split_acc(
                    low@.skip(i as int),
                    Seq::empty(),
                )));
            }
        }
    }
    proof {
        assert(low@.skip(n as int) =~= Seq::<char>::empty());
        assert(token_views(r@) + split_acc(low@.skip(n as int), Seq::empty()) =~= token_views(r@));
    }
    r
}

/// Lower-case `text` and split it into words on whitespace. Empty tokens
/// are dropped: every token is a non-empty, whitespace-free, lower-cased
/// span of the lower-cased text.
pub fn tokenize(text: &str) -> (r: Vec<String>)
    ensures
        token_views(r@) == spec_tokenize(text@),
{
    let cs = str_to_chars(text);
    let low = lower_chars(&cs);
    tokenize_chars(&low)
}

/// Join tokens with single spaces.
pub fn join_tokens(ts: &Vec<String>) -> (r: String)
    ensures
        r@ == spec_join(token_views(ts@)),
{
    let mut out: Vec<char> = Vec::new();
    let mut i: usize = 0;
    while i < ts.len()
        invariant
            i <= ts@.len(),
            out@ == spec_join_prefix(token_views(ts@), i as int),
        decreases ts@.len() - i,
    {
        if i > 0 {
            out.push(' ');
        }
        let cs = str_to_chars(ts[i].as_str());
        let mut j: usize = 0;
        while j < cs.len()
            invariant
                j <= cs@.len(),
                cs@ == ts@[i as int]@,
                i < ts@.len(),
                out@ == spec_join_prefix(token_views(ts@), i as int) + (if i > 0 {
                    seq![' ']
                } else {
                    Seq::<char>::empty()
                }) + cs@.take(j as int),
            decreases cs@.len() - j,
        {
            out.push(cs[j]);
            proof {
                assert(cs@.take(j + 1 as int) =~= cs@.take(j as int).push(cs@[j as int]));
            }
            j = j + 1;
        }
        proof {
            assert(cs@.take(cs@.len() as int) =~= cs@);
            lemma_join_prefix_step(token_views(ts@), i as int);
            assert(out@ =~= spec_join_prefix(token_views(ts@), i + 1 as int));
        }
        i = i + 1;
    }
    proof {
        assert(token_views(ts@).take(ts@.len() as int) =~= token_views(ts@));
    }
    chars_to_string(&out)
}

/// The join of the first `i` tokens.
spec fn spec_join_prefix(ts: Seq<Seq<char>>, i: int) -> Seq<char> {
    spec_join(ts.take(i))
}

/// What every token produced by the tokenizer looks like: non-empty, free
/// of whitespace, and unchanged by lower-casing.
pub open spec fn is_word(t: Seq<char>) -> bool {
    &&& t.len() >= 1
    &&& forall|i: int| 0 <= i < t.len() ==> !is_ws_char(t[i])
    &&& all_lower(t)
}

proof fn lemma_split_acc_words(s: Seq<char>, cur: Seq<char>)
    requires
        all_lower(s),
        all_lower(cur),
        forall|i: int| 0 <= i < cur.len() ==> !is_ws_char(cur[i]),
    ensures
        forall|k: int|
            0 <= k < split_acc(s, cur).len() ==> #[trigger] is_word(split_acc(s, cur)[k]),
    decreases s.len(),
{
    if s.len() == 0 {
        if cur.len() != 0 {
            assert(is_word(cur));
            let res = split_acc(s, cur);
            assert forall|k: int| 0 <= k < res.len() implies #[trigger] is_word(res[k]) by {
                assert(res[k] == cur);
            }
        }
    } else {
        assert(all_lower(s.drop_first())) by {
            assert(forall|i: int|
                0 <= i < s.drop_first().len() ==> s.drop_first()[i] == s[i + 1]);
        }
        if is_ws_char(s[0]) {
            lemma_split_acc_words(s.drop_first(), Seq::empty());
            if cur.len() != 0 {
                assert(is_word(cur));
                let res = split_acc(s, cur);
                let sub = split_acc(s.drop_first(), Seq::empty());
                assert forall|k: int| 0 <= k < res.len() implies #[trigger] is_word(res[k]) by {
                    if k == 0 {
                        assert(res[k] == cur);
                    } else {
                        assert(res[k] == sub[k - 1]);
                        assert(is_word(sub[k - 1]));
                    }
                }
            }
        } else {
            assert(all_lower(cur.push(s[0]))) by {
                assert(forall|i: int|
                    0 <= i < cur.len() ==> cur.push(s[0])[i] == cur[i]);
                assert(cur.push(s[0])[cur.len() as int] == s[0]);
            }
            assert(forall|i: int|
                0 <= i < cur.push(s[0]).len() ==> !is_ws_char(cur.push(s[0])[i])) by {
                assert(forall|i: int|
                    0 <= i < cur.len() ==> cur.push(s[0])[i] == cur[i]);
                assert(cur.push(s[0])[cur.len() as int] == s[0]);
            }
            lemma_split_acc_words(s.drop_first(), cur.push(s[0]));
            let res = split_acc(s, cur);
            let sub = split_acc(s.drop_first(), cur.push(s[0]));
            assert forall|k: int| 0 <= k < res.len() implies #[trigger] is_word(res[k]) by {
                assert(res[k] == sub[k]);
                assert(is_word(sub[k]));
            }
        }
    }
}

/// Splitting a text that begins with a whitespace-free word `t` carries
/// `t` into the accumulator.
proof fn lemma_split_acc_word_prefix(t: Seq<char>, rest: Seq<char>, cur: Seq<char>)
    requires
        forall|i: int| 0 <= i < t.len() ==> !is_ws_char(t[i]),
    ensures
        split_acc(t + rest, cur) == split_acc(rest, cur + t),
    decreases t.len(),
{
    if t.len() == 0 {
        assert(t + rest =~= rest);
        assert(cur + t =~= cur);
    } else {
        assert((t + rest)[0] == t[0]);
        assert((t + rest).drop_first() =~= t.drop_first() + rest);
        lemma_split_acc_word_prefix(t.drop_first(), rest, cur.push(t[0]));
        assert(cur.push(t[0]) + t.drop_first() =~= cur + t);
    }
}

proof fn lemma_split_join_words(ts: Seq<Seq<char>>)
    requires
        forall|k: int| 0 <= k < ts.len() ==> #[trigger] is_word(ts[k]),
    ensures
        split_ws(spec_join(ts)) == ts,
    decreases ts.len(),
{
    if ts.len() == 0 {
    } else if ts.len() == 1 {
        assert(is_word(ts[0]));
        lemma_split_acc_word_prefix(ts[0], Seq::empty(), Seq::empty());
        assert(ts[0] + Seq::<char>::empty() =~= ts[0]);
        assert(Seq::<char>::empty() + ts[0] =~= ts[0]);
        assert(split_acc(Seq::<char>::empty(), ts[0]) =~= seq![ts[0]]);
        assert(seq![ts[0]] =~= ts);
    } else {
        assert(is_word(ts[0]));
        let rest = seq![' '] + spec_join(ts.drop_first());
        assert(spec_join(ts) =~= ts[0] + rest);
        lemma_split_acc_word_prefix(ts[0], rest, Seq::empty());
        assert(Seq::<char>::empty() + ts[0] =~= ts[0]);
        assert(rest[0] == ' ');
        assert(rest.drop_first() =~= spec_join(ts.drop_first()));
        assert(split_acc(rest, ts[0]) == seq![ts[0]] + split_acc(
            spec_join(ts.drop_first()),
            Seq::empty(),
        ));
        assert(forall|k: int|
            0 <= k < ts.drop_first().len() ==> #[trigger] is_word(ts.drop_first()[k]));
        lemma_split_join_words(ts.drop_first());
        assert(seq![ts[0]] + ts.drop_first() =~= ts);
    }
}

proof fn lemma_join_all_lower(ts: Seq<Seq<char>>)
    requires
        forall|k: int| 0 <= k < ts.len() ==> #[trigger] is_word(ts[k]),
    ensures
        lower_seq(spec_join(ts)) == spec_join(ts),
    decreases ts.len(),
{
    if ts.len() == 0 {
        assert(lower_seq(spec_join(ts)) =~= spec_join(ts));
    } else if ts.len() == 1 {
        assert(is_word(ts[0]));
        assert(lower_seq(spec_join(ts)) =~= spec_join(ts));
    } else {
        assert(is_word(ts[0]));
        assert(forall|k: int|
            0 <= k < ts.drop_first().len() ==> #[trigger] is_word(ts.drop_first()[k]));
        lemma_join_all_lower(ts.drop_first());
        let j = spec_join(ts);
        assert forall|i: int| 0 <= i < j.len() implies spec_lower_char(j[i]) == j[i] by {
            let head = ts[0];
            if i < head.len() {
                assert(j[i] == head[i]);
            } else if i == head.len() {
                assert(j[i] == ' ');
            } else {
                assert(j[i] == spec_join(ts.drop_first())[i - head.len() - 1]);
                assert(spec_lower_char(spec_join(ts.drop_first())[i - head.len() - 1])
                    == spec_join(ts.drop_first())[i - head.len() - 1]);
            }
        }
        assert(lower_seq(j) =~= j);
    }
}

/// Tokenization is idempotent: joining the tokens of a text with spaces
/// and tokenizing again yields the same tokens. The hypothesis asks that
/// the case fold be stable on the text's characters — folding a folded
/// character changes nothing. That is a fact of the Unicode lowercase
/// mapping (and provable outright for ASCII, `lemma_ascii_lower_idempotent`),
/// but the non-ASCII fold stands behind a trusted name, so the law carries
/// the fact as an assumption rather than asserting it of the name.
pub proof fn lemma_tokenize_idempotent(s: Seq<char>)
    requires
        crate::chars::fold_stable(s),
    ensures
        spec_tokenize(spec_join(spec_tokenize(s))) == spec_tokenize(s),
{
    let ts = spec_tokenize(s);
    assert(all_lower(lower_seq(s))) by {
        assert forall|i: int|
            0 <= i < lower_seq(s).len() implies spec_lower_char(#[trigger] lower_seq(s)[i])
            == lower_seq(s)[i] by {
            assert(spec_lower_char(spec_lower_char(s[i])) == spec_lower_char(s[i]));
        }
    }
    lemma_split_acc_words(lower_seq(s), Seq::empty());
    lemma_join_all_lower(ts);
    lemma_split_join_words(ts);
}

proof fn lemma_join_drop_last(ts: Seq<Seq<char>>)
    requires
        ts.len() >= 2,
    ensures
        spec_join(ts) == spec_join(ts.drop_last()) + seq![' '] + ts.last(),
    decreases ts.len(),
{
    if ts.len() == 2 {
        assert(ts.drop_first().len() == 1);
        assert(spec_join(ts.drop_first()) == ts[1]);
        assert(ts.drop_last().len() == 1);
        assert(spec_join(ts.drop_last()) == ts[0]);
        assert(spec_join(ts) =~= spec_join(ts.drop_last()) + seq![' '] + ts.last());
    } else {
        lemma_join_drop_last(ts.drop_first());
        assert(ts.drop_first().drop_last() =~= ts.drop_last().drop_first());
        assert(ts.drop_first().last() == ts.last());
        assert(spec_join(ts.drop_last()) == ts.drop_last()[0] + seq![' '] + spec_join(
            ts.drop_last().drop_first(),
        ));
        assert(ts.drop_last()[0] == ts[0]);
        assert(spec_join(ts) == ts[0] + seq![' '] + spec_join(ts.drop_first()));
        assert(spec_join(ts) =~= spec_join(ts.drop_last()) + seq![' '] + ts.last());
    }
}

proof fn lemma_join_prefix_step(ts: Seq<Seq<char>>, i: int)
    requires
        0 <= i < ts.len(),
    ensures
        i == 0 ==> spec_join_prefix(ts, 1) == ts[0],
        i > 0 ==> spec_join_prefix(ts, i + 1) == spec_join_prefix(ts, i) + seq![' '] + ts[i],
{
    if i == 0 {
        assert(ts.take(1).len() == 1);
        assert(ts.take(1)[0] == ts[0]);
    } else {
        lemma_join_drop_last(ts.take(i + 1));
        assert(ts.take(i + 1).drop_last() =~= ts.take(i));
        assert(ts.take(i + 1).last() == ts[i]);
    }
}

} // verus!
