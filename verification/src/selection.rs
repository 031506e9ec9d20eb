//! Choosing endpoints: of two drawn at random, the better one goes first.
use rand::Rng;
use vstd::prelude::*;
use vstd::seq_lib::*;

verus! {

/// Which endpoints a selection was made from.
#[derive(Clone, Copy, Debug, PartialEq, Eq, Structural)]
pub enum PoolKind {
    Active,
    Probation,
    Empty,
}

/// The endpoints to try, in this order, by their place among the endpoints of the chain.
#[derive(Debug)]
pub struct CandidateSet {
    pub endpoints: Vec<usize>,
    pub kind: PoolKind,
}

/// `Rng::random_range` of the thread's generator over `0..n`: some number below `n`.
#[verifier::external_body]
fn random_below(n: usize) -> (r: usize)
    requires
        n > 0,
    ensures
        r < n,
{
    rand::rng().random_range(0..n)
}

/// Two different places of a pool, from a draw of one among all and a draw of one among the rest.
pub open spec fn rival(pick: (usize, usize)) -> int {
    if pick.1 >= pick.0 {
        pick.1 + 1
    } else {
        pick.1 as int
    }
}

/// The better of the two places drawn; a smaller score is better, and the first wins a draw.
pub open spec fn winner(pool: Seq<usize>, scores: Seq<u64>, pick: (usize, usize)) -> int {
    if scores[pool[pick.0 as int] as int] <= scores[pool[rival(pick)] as int] {
        pick.0 as int
    } else {
        rival(pick)
    }
}

/// The pool without the given place, whose slot the last takes.
pub open spec fn without_place(pool: Seq<usize>, at: int) -> Seq<usize> {
    pool.update(at, pool.last()).drop_last()
}

/// Draws that pick two different places of a pool as it shrinks.
pub open spec fn fit(picks: Seq<(usize, usize)>, size: int) -> bool {
    &&& picks.len() == (if size > 1 {
        size - 1
    } else {
        0
    })
    &&& forall|i: int|
        0 <= i < picks.len() ==> (#[trigger] picks[i]).0 < size - i && picks[i].1 < size - i - 1
}

/// The pool in the order in which the draws take it.
pub open spec fn arranged(
    pool: Seq<usize>,
    scores: Seq<u64>,
    picks: Seq<(usize, usize)>,
) -> Seq<usize>
    decreases picks.len(),
{
    if picks.len() == 0 {
        pool
    } else {
        let at = winner(pool, scores, picks[0]);
        seq![pool[at]] + arranged(without_place(pool, at), scores, picks.skip(1))
    }
}

/// The pool in an order that some draws lead to.
pub open spec fn is_draw(list: Seq<usize>, pool: Seq<usize>, scores: Seq<u64>) -> bool {
    exists|picks: Seq<(usize, usize)>|
        fit(picks, pool.len() as int) && list == #[trigger] arranged(pool, scores, picks)
}

/// Orders a pool by given draws.
pub fn arrange(pool: Vec<usize>, scores: &Vec<u64>, picks: &Vec<(usize, usize)>) -> (r: Vec<usize>)
    requires
        fit(picks@, pool@.len() as int),
        forall|i: int| 0 <= i < pool@.len() ==> (#[trigger] pool@[i]) < scores@.len(),
    ensures
        r@ == arranged(pool@, scores@, picks@),
{
    let ghost target = arranged(pool@, scores@, picks@);
    let ghost size = pool@.len() as int;
    let mut rest = pool;
    let mut r: Vec<usize> = Vec::new();
    let mut n: usize = 0;
    proof {
        assert(picks@.skip(0) =~= picks@);
        assert(r@ + arranged(rest@, scores@, picks@) =~= target);
    }
    while n < picks.len()
        invariant
            n <= picks@.len(),
            fit(picks@, size),
            rest@.len() == size - n,
            forall|i: int| 0 <= i < rest@.len() ==> (#[trigger] rest@[i]) < scores@.len(),
            r@ + arranged(rest@, scores@, picks@.skip(n as int)) == target,
        decreases picks@.len() - n,
    {
        let first: usize = picks[n].0;
        let mut second: usize = picks[n].1;
        assert(picks@[n as int].0 < size - n);
        if second >= first {
            second = second + 1;
        }
        let at: usize = if scores[rest[first]] <= scores[rest[second]] {
            first
        } else {
            second
        };
        let ghost before = rest@;
        let ghost had = r@;
        let chosen: usize = rest.swap_remove(at);
        r.push(chosen);
        proof {
            let left = picks@.skip(n as int);
            assert(left[0] == picks@[n as int]);
            assert(left.skip(1) =~= picks@.skip(n + 1));
            assert(at == winner(before, scores@, left[0]));
            assert(rest@ =~= without_place(before, at as int));
            assert(r@ + arranged(rest@, scores@, left.skip(1)) =~= had + (seq![before[at as int]]
                + arranged(rest@, scores@, left.skip(1))));
        }
        n = n + 1;
    }
    proof {
        assert(picks@.skip(n as int) =~= Seq::<(usize, usize)>::empty());
    }
    r.append(&mut rest);
    r
}

/// Draws places at random for a pool of the given size.
fn draw(size: usize) -> (picks: Vec<(usize, usize)>)
    ensures
        fit(picks@, size as int),
{
    let mut picks: Vec<(usize, usize)> = Vec::new();
    let mut left: usize = size;
    while left > 1
        invariant
            left <= size,
            picks@.len() == size - left,
            left == 0 ==> size == 0,
            forall|i: int|
                0 <= i < picks@.len() ==> (#[trigger] picks@[i]).0 < size - i && picks@[i].1 < size
                    - i - 1,
        decreases left,
    {
        let first: usize = random_below(left);
        let second: usize = random_below(left - 1);
        picks.push((first, second));
        left = left - 1;
    }
    picks
}

/// Orders a pool by draws at random.
pub fn shuffle(pool: Vec<usize>, scores: &Vec<u64>) -> (r: Vec<usize>)
    requires
        forall|i: int| 0 <= i < pool@.len() ==> (#[trigger] pool@[i]) < scores@.len(),
    ensures
        is_draw(r@, pool@, scores@),
{
    let picks = draw(pool.len());
    arrange(pool, scores, &picks)
}

/// Something that is tried later is no better than what is tried at place `i`.
pub open spec fn beats_a_later_one(list: Seq<usize>, scores: Seq<u64>, i: int) -> bool {
    exists|j: int|
        i < j < list.len() && scores[list[i] as int] <= scores[#[trigger] list[j] as int]
}

/// Whatever is drawn, the whole pool is tried and nothing else, and nothing is tried while all that is
/// left would be better.
pub proof fn lemma_arranged(pool: Seq<usize>, scores: Seq<u64>, picks: Seq<(usize, usize)>)
    requires
        fit(picks, pool.len() as int),
    ensures
        arranged(pool, scores, picks).len() == pool.len(),
        arranged(pool, scores, picks).to_multiset() == pool.to_multiset(),
        forall|i: int|
            0 <= i < pool.len() - 1 ==> #[trigger] beats_a_later_one(
                arranged(pool, scores, picks),
                scores,
                i,
            ),
    decreases picks.len(),
{
    let all = arranged(pool, scores, picks);
    if picks.len() > 0 {
        let at = winner(pool, scores, picks[0]);
        let other = if at == picks[0].0 {
            rival(picks[0])
        } else {
            picks[0].0 as int
        };
        let rest = without_place(pool, at);
        let tail = arranged(rest, scores, picks.skip(1));
        assert(fit(picks.skip(1), rest.len() as int)) by {
            assert forall|i: int| 0 <= i < picks.skip(1).len() implies (
            #[trigger] picks.skip(1)[i]).0 < rest.len() - i && picks.skip(1)[i].1 < rest.len() - i
                - 1 by {
                assert(picks.skip(1)[i] == picks[i + 1]);
            }
        }
        lemma_arranged(rest, scores, picks.skip(1));
        lemma_without_place(pool, at);
        lemma_multiset_commutative(seq![pool[at]], tail);
        assert(all == seq![pool[at]] + tail);
        assert(seq![pool[at]].to_multiset() =~= vstd::multiset::Multiset::singleton(pool[at])) by {
            to_multiset_build(Seq::<usize>::empty(), pool[at]);
            assert(Seq::<usize>::empty().push(pool[at]) =~= seq![pool[at]]);
            assert(Seq::<usize>::empty().to_multiset() =~= vstd::multiset::Multiset::empty()) by {
                Seq::<usize>::empty().to_multiset_ensures();
            }
        }
        assert(all.to_multiset() =~= pool.to_multiset());
        assert forall|i: int| 0 <= i < pool.len() - 1 implies #[trigger] beats_a_later_one(
            all,
            scores,
            i,
        ) by {
            if i == 0 {
                let x = pool[other];
                assert(rest.contains(x)) by {
                    if other == pool.len() - 1 {
                        assert(rest[at] == x);
                    } else {
                        assert(rest[other] == x);
                    }
                }
                assert(tail.contains(x)) by {
                    rest.to_multiset_ensures();
                    tail.to_multiset_ensures();
                    assert(rest.to_multiset().count(x) > 0);
                    assert(tail.to_multiset().count(x) > 0);
                }
                let k = choose|k: int| 0 <= k < tail.len() && tail[k] == x;
                assert(all[k + 1] == x);
                assert(scores[all[0] as int] <= scores[all[k + 1] as int]);
            } else {
                assert(beats_a_later_one(tail, scores, i - 1));
                let k = choose|k: int|
                    i - 1 < k < tail.len() && scores[tail[i - 1] as int] <= scores[#[trigger] tail[k] as int];
                assert(all[i] == tail[i - 1]);
                assert(all[k + 1] == tail[k]);
            }
        }
    }
}

proof fn lemma_without_place(pool: Seq<usize>, at: int)
    requires
        0 <= at < pool.len(),
    ensures
        pool.to_multiset() == without_place(pool, at).to_multiset().insert(pool[at]),
{
    broadcast use {
        vstd::multiset::group_multiset_axioms,
        vstd::multiset::group_multiset_properties,
    };

    let last = pool.len() - 1;
    let changed = pool.update(at, pool.last());
    to_multiset_update(pool, at, pool.last());
    let short = changed.drop_last();
    assert(changed =~= short.push(changed[last]));
    to_multiset_build(short, changed[last]);
    pool.to_multiset_ensures();
    assert(pool.to_multiset().count(pool[at]) > 0) by {
        assert(pool.contains(pool[at]));
    }
    if at == last {
        assert(changed =~= pool);
    } else {
        assert(changed[last] == pool.last());
    }
    assert forall|x: usize| pool.to_multiset().count(x) == short.to_multiset().insert(
        pool[at],
    ).count(x) by {
        let grown = pool.to_multiset().insert(pool.last());
        assert(grown.count(pool[at]) > 0);
        assert(changed.to_multiset().count(x) == grown.remove(pool[at]).count(x));
        assert(changed.to_multiset().count(x) == short.to_multiset().insert(pool.last()).count(x));
    }
    assert(pool.to_multiset() =~= short.to_multiset().insert(pool[at]));
}

} // verus!
