use vstd::prelude::*;
use crate::models::Embedding;

verus! {

/// Ranks stored chunks by their similarity to a query.
pub struct SearchEngine;

/// Item `a` comes before item `b` in the ranking: it is more similar, or as
/// similar and earlier in the corpus.
pub open spec fn ranks_before(scores: Seq<u64>, a: int, b: int) -> bool {
    scores[a] > scores[b] || (scores[a] == scores[b] && a < b)
}

/// `picks` lists, best first, the `k` best of the first `n` items (all of them
/// if there are fewer than `k`): it is in ranking order, and every item that it
/// leaves out ranks after every item in it.
pub open spec fn is_top_k(scores: Seq<u64>, n: int, k: int, picks: Seq<int>) -> bool {
    &&& picks.len() == if k <= n { k } else { n }
    &&& forall|i: int| 0 <= i < picks.len() ==> 0 <= #[trigger] picks[i] < n
    &&& forall|i: int, j: int|
        0 <= i < j < picks.len() ==> ranks_before(scores, #[trigger] picks[i], #[trigger] picks[j])
    &&& forall|x: int, i: int|
        0 <= x < n && 0 <= i < picks.len() && !picks.contains(x) ==> #[trigger] ranks_before(
            scores,
            picks[i],
            x,
        )
}

/// The corpus in ranking order, cut after `k` items.
pub open spec fn top_k(scores: Seq<u64>, k: int) -> Seq<int> {
    choose|picks: Seq<int>| is_top_k(scores, scores.len() as int, k, picks)
}

/// There is only one list of the `k` best.
pub proof fn lemma_top_k_unique(scores: Seq<u64>, n: int, k: int, a: Seq<int>, b: Seq<int>)
    requires
        0 <= n <= scores.len(),
        is_top_k(scores, n, k, a),
        is_top_k(scores, n, k, b),
    ensures
        a == b,
{
    assert forall|i: int| 0 <= i < a.len() implies a[i] == b[i] by {
        lemma_same_pick(scores, n, k, a, b, i);
    }
    assert(a =~= b);
}

proof fn lemma_same_pick(scores: Seq<u64>, n: int, k: int, a: Seq<int>, b: Seq<int>, i: int)
    requires
        0 <= n <= scores.len(),
        is_top_k(scores, n, k, a),
        is_top_k(scores, n, k, b),
        0 <= i < a.len(),
    ensures
        a[i] == b[i],
    decreases i,
{
    assert forall|j: int| 0 <= j < i implies a[j] == b[j] by {
        lemma_same_pick(scores, n, k, a, b, j);
    }
    lemma_agreeing_picks_in_order(scores, n, a, b, i);
    lemma_agreeing_picks_in_order(scores, n, b, a, i);
}

/// Where two lists of the best agree before position `i`, the first list's
/// item at `i` does not rank before the second's.
proof fn lemma_agreeing_picks_in_order(scores: Seq<u64>, n: int, a: Seq<int>, b: Seq<int>, i: int)
    requires
        0 <= n <= scores.len(),
        a.len() == b.len(),
        0 <= i < a.len(),
        forall|p: int| 0 <= p < a.len() ==> 0 <= #[trigger] a[p] < n,
        forall|p: int| 0 <= p < b.len() ==> 0 <= #[trigger] b[p] < n,
        forall|p: int, q: int| 0 <= p < q < a.len() ==> ranks_before(scores, #[trigger] a[p], #[trigger] a[q]),
        forall|p: int, q: int| 0 <= p < q < b.len() ==> ranks_before(scores, #[trigger] b[p], #[trigger] b[q]),
        forall|x: int, p: int|
            0 <= x < n && 0 <= p < b.len() && !b.contains(x) ==> #[trigger] ranks_before(scores, b[p], x),
        forall|j: int| 0 <= j < i ==> a[j] == b[j],
    ensures
        !ranks_before(scores, a[i], b[i]),
{
    let x = a[i];
    if !ranks_before(scores, a[i], b[i]) {
    } else if b.contains(x) {
        let j = choose|j: int| 0 <= j < b.len() && b[j] == x;
        if j < i {
            assert(a[j] == x);
            assert(ranks_before(scores, a[j], a[i]));
        } else if j > i {
            assert(ranks_before(scores, b[i], b[j]));
        }
    } else {
        assert(ranks_before(scores, b[i], x));
    }
}

/// The `k` best are the first `k` of the whole corpus in ranking order,
/// however that order was arrived at.
pub proof fn lemma_top_k_is_prefix_of_ranking(scores: Seq<u64>, k: int, ranking: Seq<int>, picks: Seq<int>)
    requires
        0 <= k,
        is_top_k(scores, scores.len() as int, scores.len() as int, ranking),
        is_top_k(scores, scores.len() as int, k, picks),
    ensures
        picks == ranking.take(if k <= scores.len() { k } else { scores.len() as int }),
{
    let n = scores.len() as int;
    let m = if k <= n { k } else { n };
    let prefix = ranking.take(m);
    assert forall|x: int, i: int| 0 <= x < n && 0 <= i < prefix.len() && !prefix.contains(x) implies #[trigger] ranks_before(
        scores,
        prefix[i],
        x,
    ) by {
        if ranking.contains(x) {
            let j = choose|j: int| 0 <= j < ranking.len() && ranking[j] == x;
            if j < m {
                assert(prefix[j] == x);
            }
            assert(ranks_before(scores, ranking[i], ranking[j]));
        } else {
            assert(ranks_before(scores, ranking[i], x));
        }
    }
    assert(is_top_k(scores, n, k, prefix));
    lemma_top_k_unique(scores, n, k, picks, prefix);
}

/// While fewer than `k` items have been seen, all of them are picked.
pub open spec fn holds_all_while_short(n: int, k: int, picks: Seq<int>) -> bool {
    n <= k ==> forall|x: int| 0 <= x < n ==> picks.contains(x)
}

/// The `k` best of the first `n` items stay the `k` best of the first `n + 1`
/// when the new item ranks after all `k` of them.
proof fn lemma_pass_over(scores: Seq<u64>, n: int, k: int, picks: Seq<int>)
    requires
        0 <= n < scores.len(),
        is_top_k(scores, n, k, picks),
        picks.len() == k,
        forall|p: int| 0 <= p < picks.len() ==> ranks_before(scores, #[trigger] picks[p], n),
    ensures
        is_top_k(scores, n + 1, k, picks),
        holds_all_while_short(n + 1, k, picks),
{
    assert forall|x: int, i: int| 0 <= x < n + 1 && 0 <= i < picks.len() && !picks.contains(x) implies #[trigger] ranks_before(
        scores,
        picks[i],
        x,
    ) by {
        if x < n {
            assert(ranks_before(scores, picks[i], x));
        }
    }
}

/// The `k` best of the first `n + 1` items, where the new item belongs at
/// position `pos` among the `k` best of the first `n`: it is put there, and the
/// last item leaves if the list was full.
proof fn lemma_take_in(scores: Seq<u64>, n: int, k: int, picks: Seq<int>, pos: int) -> (next: Seq<int>)
    requires
        0 <= n < scores.len(),
        is_top_k(scores, n, k, picks),
        holds_all_while_short(n, k, picks),
        0 <= pos <= picks.len(),
        pos < k,
        forall|p: int| 0 <= p < pos ==> ranks_before(scores, #[trigger] picks[p], n),
        forall|p: int| pos <= p < picks.len() ==> ranks_before(scores, n, #[trigger] picks[p]),
    ensures
        next == if picks.len() < k {
            picks.insert(pos, n)
        } else {
            picks.insert(pos, n).drop_last()
        },
        is_top_k(scores, n + 1, k, next),
        holds_all_while_short(n + 1, k, next),
{
    let longer = picks.insert(pos, n);
    assert(longer.len() == picks.len() + 1);
    assert forall|p: int| 0 <= p < longer.len() implies #[trigger] longer[p] == (if p < pos {
        picks[p]
    } else if p == pos {
        n
    } else {
        picks[p - 1]
    }) by {}
    assert forall|p: int, q: int| 0 <= p < q < longer.len() implies ranks_before(
        scores,
        #[trigger] longer[p],
        #[trigger] longer[q],
    ) by {
        if q < pos {
            assert(ranks_before(scores, picks[p], picks[q]));
        } else if q == pos {
            assert(ranks_before(scores, picks[p], n));
        } else if p < pos {
            assert(ranks_before(scores, picks[p], picks[q - 1]));
        } else if p == pos {
            assert(ranks_before(scores, n, picks[q - 1]));
        } else {
            assert(ranks_before(scores, picks[p - 1], picks[q - 1]));
        }
    }
    assert forall|x: int| picks.contains(x) implies longer.contains(x) by {
        let p = choose|p: int| 0 <= p < picks.len() && picks[p] == x;
        if p < pos {
            assert(longer[p] == x);
        } else {
            assert(longer[p + 1] == x);
        }
    }
    assert(longer[pos] == n);
    let next = if picks.len() < k {
        longer
    } else {
        longer.drop_last()
    };
    assert forall|p: int| 0 <= p < next.len() implies #[trigger] next[p] == longer[p] by {}
    assert forall|x: int, i: int| 0 <= x < n + 1 && 0 <= i < next.len() && !next.contains(x) implies #[trigger] ranks_before(
        scores,
        next[i],
        x,
    ) by {
        if picks.len() < k {
            assert(longer.contains(x));
        } else {
            let left = longer[k];
            assert(next[pos] == n);
            if x == left {
                assert(ranks_before(scores, longer[i], longer[k]));
            } else {
                if picks.contains(x) {
                    let p = choose|p: int| 0 <= p < longer.len() && longer[p] == x;
                    assert(p < k);
                    assert(next[p] == x);
                }
                assert(ranks_before(scores, picks[pos], x));
                assert(ranks_before(scores, n, picks[pos]));
                if i < pos {
                    assert(ranks_before(scores, picks[i], x));
                } else if i > pos {
                    assert(ranks_before(scores, picks[i - 1], x));
                }
            }
        }
    }
    if n + 1 <= k {
        assert forall|x: int| 0 <= x < n + 1 implies next.contains(x) by {
            if x < n {
                assert(picks.contains(x));
            }
        }
    }
    next
}

impl SearchEngine {
    /// The positions of the `k` greatest scores, greatest first; of two equal
    /// scores the earlier position comes first. The result is what a stable
    /// sort of all positions by descending score begins with.
    pub fn rank(scores: &Vec<u64>, k: usize) -> (best: Vec<usize>)
        ensures
            is_top_k(scores@, scores.len() as int, k as int, top_k(scores@, k as int)),
            best.len() == top_k(scores@, k as int).len(),
            forall|p: int| 0 <= p < best.len() ==> #[trigger] best[p] as int == top_k(scores@, k as int)[p],
            forall|p: int| 0 <= p < best.len() ==> #[trigger] best[p] < scores.len(),
    {
        let n = scores.len();
        let mut best: Vec<usize> = Vec::new();
        let ghost mut picks: Seq<int> = Seq::empty();
        let mut i: usize = 0;
        while i < n
            invariant
                n == scores.len(),
                i <= n,
                picks.len() == best.len(),
                forall|p: int| 0 <= p < best.len() ==> #[trigger] picks[p] == best[p] as int,
                is_top_k(scores@, i as int, k as int, picks),
                holds_all_while_short(i as int, k as int, picks),
            decreases n - i,
        {
            let score = scores[i];
            let mut pos: usize = best.len();
            proof {
                assert forall|p: int| 0 <= p < best.len() implies #[trigger] best[p] < i by {
                    assert(picks[p] == best[p] as int);
                }
            }
            while pos > 0 && scores[best[pos - 1]] < score
                invariant
                    n == scores.len(),
                    i < n,
                    score == scores[i as int],
                    pos <= best.len(),
                    picks.len() == best.len(),
                    forall|p: int| 0 <= p < best.len() ==> #[trigger] picks[p] == best[p] as int,
                    forall|p: int| 0 <= p < picks.len() ==> 0 <= #[trigger] picks[p] < i,
                    forall|p: int| 0 <= p < best.len() ==> #[trigger] best[p] < i,
                    forall|p: int| pos <= p < picks.len() ==> ranks_before(scores@, i as int, #[trigger] picks[p]),
                decreases pos,
            {
                proof {
                    assert(picks[pos - 1] == best[pos - 1] as int);
                }
                pos -= 1;
            }
            proof {
                assert forall|p: int| 0 <= p < pos implies ranks_before(scores@, #[trigger] picks[p], i as int) by {
                    assert(picks[pos - 1] == best[pos - 1] as int);
                    if p < pos - 1 {
                        assert(ranks_before(scores@, picks[p], picks[pos - 1]));
                    }
                }
            }
            if pos < k {
                proof {
                    picks = lemma_take_in(scores@, i as int, k as int, picks, pos as int);
                }
                let full = best.len() >= k;
                best.insert(pos, i);
                if full {
                    best.pop();
                }
                assert(picks.len() == best.len());
                assert forall|p: int| 0 <= p < best.len() implies #[trigger] picks[p] == best[p] as int by {}
            } else {
                proof {
                    lemma_pass_over(scores@, i as int, k as int, picks);
                }
            }
            i += 1;
        }
        proof {
            lemma_top_k_unique(scores@, n as int, k as int, picks, top_k(scores@, k as int));
            assert forall|p: int| 0 <= p < best.len() implies #[trigger] best[p] < scores.len() by {
                assert(picks[p] == best[p] as int);
            }
        }
        best
    }

    /// The texts of the `top_k` stored chunks that are most similar to the
    /// query, most similar first. Each chunk comes with its score, which
    /// stands for its similarity to the query: an integer that is greater
    /// where the similarity is greater. Of two chunks that are equally
    /// similar, the one that comes first in the corpus is ranked first.
    pub fn find_relevant_chunks(corpus: &Vec<(u64, &Embedding)>, top_k: usize) -> (texts: Vec<String>)
        ensures
            is_top_k(
                scores_of(corpus@),
                corpus.len() as int,
                top_k as int,
                self::top_k(scores_of(corpus@), top_k as int),
            ),
            texts.len() == self::top_k(scores_of(corpus@), top_k as int).len(),
            texts.len() <= top_k,
            forall|i: int|
                0 <= i < texts.len() ==> (#[trigger] texts[i])@ == corpus[self::top_k(
                    scores_of(corpus@),
                    top_k as int,
                )[i]].1.text@,
            forall|i: int, j: int|
                0 <= i < j < texts.len() ==> corpus[self::top_k(scores_of(corpus@), top_k as int)[i]].0
                    >= corpus[self::top_k(scores_of(corpus@), top_k as int)[j]].0,
    {
        let mut scores: Vec<u64> = Vec::new();
        let mut i: usize = 0;
        while i < corpus.len()
            invariant
                i <= corpus.len(),
                scores.len() == i,
                forall|p: int| 0 <= p < i ==> #[trigger] scores[p] == corpus[p].0,
            decreases corpus.len() - i,
        {
            scores.push(corpus[i].0);
            i += 1;
        }
        assert(scores@ =~= scores_of(corpus@));
        let best = Self::rank(&scores, top_k);
        let ghost picks = self::top_k(scores@, top_k as int);
        let mut texts: Vec<String> = Vec::new();
        let mut j: usize = 0;
        while j < best.len()
            invariant
                scores.len() == corpus.len(),
                j <= best.len(),
                picks.len() == best.len(),
                forall|p: int| 0 <= p < best.len() ==> #[trigger] best[p] as int == picks[p],
                forall|p: int| 0 <= p < best.len() ==> #[trigger] best[p] < scores.len(),
                texts.len() == j,
                forall|p: int| 0 <= p < j ==> (#[trigger] texts[p])@ == corpus[picks[p]].1.text@,
            decreases best.len() - j,
        {
            texts.push(corpus[best[j]].1.text.clone());
            j += 1;
        }
        proof {
            assert forall|a: int, b: int| 0 <= a < b < texts.len() implies scores[picks[a]] >= scores[picks[b]] by {
                assert(ranks_before(scores@, picks[a], picks[b]));
            }
        }
        texts
    }
}

/// The scores of a corpus of scored chunks.
pub open spec fn scores_of(corpus: Seq<(u64, &Embedding)>) -> Seq<u64> {
    Seq::new(corpus.len(), |i: int| corpus[i].0)
}

} // verus!
