//! Fuzzy scores and the order in which matching records are shown.
//!
//! A record's score against a query comes from the skim matcher. The records
//! that match are shown by falling score; records with equal scores keep the
//! order in which they are stored.

use fuzzy_matcher::skim::SkimMatcherV2;
use fuzzy_matcher::FuzzyMatcher;
use vstd::prelude::*;
use vstd::string::*;

verus! {

/// The score that `SkimMatcherV2`, made by `default()` and used for this one
/// call, gives to `choice` against `pattern`; `None` where `pattern` does not
/// match.
pub uninterp spec fn skim_score(choice: Seq<char>, pattern: Seq<char>) -> Option<i64>;

/// The longest text, in characters, that is handed to the matcher.
pub const MAX_SCORED_CHARS: usize = 10_000;

/// Calls `fuzzy_match` of `fuzzy_matcher::skim::SkimMatcherV2`, on a matcher
/// that `SkimMatcherV2::default()` has just made. Such a matcher starts with
/// empty scratch buffers, so what it returns depends on the two texts alone.
/// It counts in 32-bit integers, in steps of at most 32 for each character of
/// the pattern; the limit on the lengths keeps that far from overflow.
#[verifier::external_body]
fn skim_match(choice: &str, pattern: &str) -> (score: Option<i64>)
    requires
        choice@.len() <= MAX_SCORED_CHARS,
        pattern@.len() <= MAX_SCORED_CHARS,
    ensures
        score == skim_score(choice@, pattern@),
{
    SkimMatcherV2::default().fuzzy_match(choice, pattern)
}

/// The score of a record's label against a query. A text of more than
/// `MAX_SCORED_CHARS` characters is never matched.
pub open spec fn match_score(label: Seq<char>, query: Seq<char>) -> Option<i64> {
    if label.len() <= MAX_SCORED_CHARS && query.len() <= MAX_SCORED_CHARS {
        skim_score(label, query)
    } else {
        None
    }
}

/// The score of `label` against `query`, or `None` where it does not match.
pub fn score(label: &str, query: &str) -> (r: Option<i64>)
    ensures
        r == match_score(label@, query@),
{
    if label.unicode_len() <= MAX_SCORED_CHARS && query.unicode_len() <= MAX_SCORED_CHARS {
        skim_match(label, query)
    } else {
        None
    }
}

/// Whether record `a` is shown before record `b`: its score is higher, or the
/// scores are equal and `a` is stored first.
pub open spec fn outranks(scores: Seq<Option<i64>>, a: int, b: int) -> bool {
    scores[a]->0 > scores[b]->0 || (scores[a]->0 == scores[b]->0 && a < b)
}

/// Every entry of `order` is the index of a score that is not `None`.
pub open spec fn all_matched(scores: Seq<Option<i64>>, order: Seq<int>) -> bool {
    forall|k: int|
        0 <= k < order.len() ==> 0 <= (#[trigger] order[k]) < scores.len() && scores[order[k]]
            is Some
}

/// Each entry of `order` outranks all that follow it.
pub open spec fn in_rank_order(scores: Seq<Option<i64>>, order: Seq<int>) -> bool {
    forall|a: int, b: int|
        0 <= a < b < order.len() ==> outranks(scores, #[trigger] order[a], #[trigger] order[b])
}

/// `order` holds the indices below `n` whose score is not `None`, and no
/// others, in rank order.
pub open spec fn is_ranking_upto(scores: Seq<Option<i64>>, n: int, order: Seq<int>) -> bool {
    &&& all_matched(scores, order)
    &&& forall|k: int| 0 <= k < order.len() ==> (#[trigger] order[k]) < n
    &&& forall|i: int| 0 <= i < n && (#[trigger] scores[i]) is Some ==> order.contains(i)
    &&& in_rank_order(scores, order)
}

/// `order` is the ranking of `scores`: the indices whose score is not `None`,
/// each once, by falling score, equal scores by rising index.
pub open spec fn is_ranking(scores: Seq<Option<i64>>, order: Seq<int>) -> bool {
    is_ranking_upto(scores, scores.len() as int, order)
}

/// Where an index with score `s` goes into `order` when it is stored after
/// all of them: behind the last entry whose score is at least `s`.
pub open spec fn slot(scores: Seq<Option<i64>>, order: Seq<int>, s: i64) -> nat
    decreases order.len(),
{
    if order.len() > 0 && scores[order.last()]->0 < s {
        slot(scores, order.drop_last(), s)
    } else {
        order.len()
    }
}

/// The ranking of the first `n` scores.
pub open spec fn ranked_upto(scores: Seq<Option<i64>>, n: nat) -> Seq<int>
    decreases n,
{
    if n == 0 {
        Seq::empty()
    } else {
        let before = ranked_upto(scores, (n - 1) as nat);
        match scores[n - 1] {
            None => before,
            Some(s) => before.insert(slot(scores, before, s) as int, n - 1),
        }
    }
}

/// The ranking of `scores`.
pub open spec fn ranked(scores: Seq<Option<i64>>) -> Seq<int> {
    ranked_upto(scores, scores.len())
}

/// The entries of a vector of indices, as integers.
pub open spec fn indices(v: Seq<usize>) -> Seq<int> {
    v.map_values(|i: usize| i as int)
}

/// What `slot` returns: the entries from it on have a score below `s`, and
/// the entry before it, if there is one, has not.
pub proof fn lemma_slot(scores: Seq<Option<i64>>, order: Seq<int>, s: i64)
    ensures
        slot(scores, order, s) <= order.len(),
        forall|k: int|
            slot(scores, order, s) <= k < order.len() ==> scores[#[trigger] order[k]]->0 < s,
        slot(scores, order, s) > 0 ==> scores[order[slot(scores, order, s) - 1]]->0 >= s,
    decreases order.len(),
{
    if order.len() > 0 && scores[order.last()]->0 < s {
        let front = order.drop_last();
        lemma_slot(scores, front, s);
        assert forall|k: int| slot(scores, order, s) <= k < order.len() implies scores[
        #[trigger] order[k]]->0 < s by {
            if k < front.len() {
                assert(order[k] == front[k]);
            }
        }
        if slot(scores, order, s) > 0 {
            assert(order[slot(scores, order, s) - 1] == front[slot(scores, front, s) - 1]);
        }
    }
}

/// `ranked_upto` is the ranking of the first `n` scores.
pub proof fn lemma_ranked_upto(scores: Seq<Option<i64>>, n: nat)
    requires
        n <= scores.len(),
    ensures
        is_ranking_upto(scores, n as int, ranked_upto(scores, n)),
    decreases n,
{
    if n > 0 {
        let before = ranked_upto(scores, (n - 1) as nat);
        lemma_ranked_upto(scores, (n - 1) as nat);
        let after = ranked_upto(scores, n);
        match scores[n - 1] {
            None => {},
            Some(s) => {
                let p = slot(scores, before, s) as int;
                let x = n - 1;
                lemma_slot(scores, before, s);
                assert(after == before.insert(p, x));
                assert(after[p] == x);
                assert forall|i: int| 0 <= i < n && (#[trigger] scores[i]) is Some implies after
                    .contains(i) by {
                    if i < n - 1 {
                        let k = choose|k: int| 0 <= k < before.len() && before[k] == i;
                        if k < p {
                            assert(after[k] == i);
                        } else {
                            assert(after[k + 1] == i);
                        }
                    }
                }
                assert forall|a: int, b: int| 0 <= a < b < after.len() implies outranks(
                    scores,
                    #[trigger] after[a],
                    #[trigger] after[b],
                ) by {
                    let ka = if a < p { a } else { a - 1 };
                    let kb = if b < p { b } else { b - 1 };
                    if a == p {
                        assert(after[b] == before[kb]);
                    } else if b == p {
                        assert(after[a] == before[ka]);
                        if p > 0 && ka < p - 1 {
                            assert(outranks(scores, before[ka], before[p - 1]));
                        }
                    } else {
                        assert(after[a] == before[ka]);
                        assert(after[b] == before[kb]);
                    }
                }
                assert forall|k: int| 0 <= k < after.len() implies 0 <= (#[trigger] after[k]) < n
                    && scores[after[k]] is Some by {
                    if k < p {
                        assert(after[k] == before[k]);
                    } else if k > p {
                        assert(after[k] == before[k - 1]);
                    }
                }
            },
        }
    }
}

/// `ranked(scores)` holds the indices whose score is not `None`, and no
/// others, by falling score, equal scores by rising index.
pub proof fn lemma_ranked(scores: Seq<Option<i64>>)
    ensures
        is_ranking(scores, ranked(scores)),
{
    lemma_ranked_upto(scores, scores.len());
}

/// Two sequences in rank order that hold the same indices are equal.
pub proof fn lemma_rank_order_unique(scores: Seq<Option<i64>>, a: Seq<int>, b: Seq<int>)
    requires
        in_rank_order(scores, a),
        in_rank_order(scores, b),
        forall|x: int| a.contains(x) <==> b.contains(x),
    ensures
        a == b,
    decreases a.len(),
{
    if a.len() == 0 {
        if b.len() > 0 {
            assert(b.contains(b[0]));
        }
        assert(a =~= b);
    } else {
        assert(a.contains(a[0]));
        let j = choose|j: int| 0 <= j < b.len() && b[j] == a[0];
        if j > 0 {
            assert(outranks(scores, b[0], b[j]));
            assert(b.contains(b[0]));
            let i = choose|i: int| 0 <= i < a.len() && a[i] == b[0];
            if i > 0 {
                assert(outranks(scores, a[0], a[i]));
            }
        }
        assert(a[0] == b[0]);
        let ta = a.drop_first();
        let tb = b.drop_first();
        assert forall|x: int| ta.contains(x) <==> tb.contains(x) by {
            if ta.contains(x) {
                let i = choose|i: int| 0 <= i < ta.len() && ta[i] == x;
                assert(a[i + 1] == x);
                assert(outranks(scores, a[0], a[i + 1]));
                assert(a.contains(x));
                let k = choose|k: int| 0 <= k < b.len() && b[k] == x;
                assert(tb[k - 1] == x);
            }
            if tb.contains(x) {
                let i = choose|i: int| 0 <= i < tb.len() && tb[i] == x;
                assert(b[i + 1] == x);
                assert(outranks(scores, b[0], b[i + 1]));
                assert(b.contains(x));
                let k = choose|k: int| 0 <= k < a.len() && a[k] == x;
                assert(ta[k - 1] == x);
            }
        }
        assert forall|i: int, k: int| 0 <= i < k < ta.len() implies outranks(
            scores,
            #[trigger] ta[i],
            #[trigger] ta[k],
        ) by {
            assert(ta[i] == a[i + 1] && ta[k] == a[k + 1]);
        }
        assert forall|i: int, k: int| 0 <= i < k < tb.len() implies outranks(
            scores,
            #[trigger] tb[i],
            #[trigger] tb[k],
        ) by {
            assert(tb[i] == b[i + 1] && tb[k] == b[k + 1]);
        }
        lemma_rank_order_unique(scores, ta, tb);
        assert(a =~= seq![a[0]] + ta);
        assert(b =~= seq![b[0]] + tb);
    }
}

/// Scores have one ranking only: whatever is a ranking of `scores` is
/// `ranked(scores)`.
pub proof fn lemma_ranking_unique(scores: Seq<Option<i64>>, order: Seq<int>)
    requires
        is_ranking(scores, order),
    ensures
        order == ranked(scores),
{
    lemma_ranked(scores);
    let r = ranked(scores);
    assert forall|x: int| order.contains(x) <==> r.contains(x) by {
        if order.contains(x) {
            let k = choose|k: int| 0 <= k < order.len() && order[k] == x;
            assert(scores[order[k]] is Some);
        }
        if r.contains(x) {
            let k = choose|k: int| 0 <= k < r.len() && r[k] == x;
            assert(scores[r[k]] is Some);
        }
    }
    lemma_rank_order_unique(scores, order, r);
}

/// The order in which the records with these scores are shown.
pub fn rank(scores: &Vec<Option<i64>>) -> (order: Vec<usize>)
    ensures
        indices(order@) == ranked(scores@),
{
    let mut order: Vec<usize> = Vec::new();
    let mut i: usize = 0;
    assert(indices(order@) =~= ranked_upto(scores@, 0));
    while i < scores.len()
        invariant
            i <= scores.len(),
            indices(order@) == ranked_upto(scores@, i as nat),
            all_matched(scores@, indices(order@)),
        decreases scores.len() - i,
    {
        match scores[i] {
            Some(s) => {
                let ghost before = indices(order@);
                let mut p: usize = order.len();
                assert(before.take(p as int) =~= before);
                while p > 0 && scores[order[p - 1]].unwrap() < s
                    invariant
                        p <= order.len(),
                        before == indices(order@),
                        all_matched(scores@, before),
                        slot(scores@, before, s) == slot(scores@, before.take(p as int), s),
                    decreases p,
                {
                    assert(before.take(p as int).drop_last() =~= before.take(p - 1));
                    assert(before[p - 1] == order@[p - 1]);
                    p -= 1;
                }
                assert(p > 0 ==> before[p - 1] == order@[p - 1]);
                order.insert(p, i);
                assert(indices(order@) =~= before.insert(p as int, i as int));
                assert forall|k: int| 0 <= k < order.len() implies 0 <= (#[trigger] indices(
                    order@,
                )[k]) < scores.len() && scores@[indices(order@)[k]] is Some by {
                    if k < p {
                        assert(indices(order@)[k] == before[k]);
                    } else if k > p {
                        assert(indices(order@)[k] == before[k - 1]);
                    }
                }
            },
            None => {},
        }
        i += 1;
    }
    order
}

} // verus!
