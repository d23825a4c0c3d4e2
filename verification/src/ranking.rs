//! The order in which candidates and agents are listed: best first, and in the
//! order of arrival among equals.

use vstd::prelude::*;
use vstd::seq_lib::{to_multiset_build, to_multiset_insert};

use crate::measure::Measure;
use crate::text::{comes_before, text_before};

verus! {

/// What candidates, agents and stored files are ordered by.
#[derive(Debug)]
pub struct Rank {
    /// Whether there is a valid candidate at all.
    pub valid: bool,
    pub score: Measure,
    pub performance: Measure,
    /// What tells equals apart; empty where nothing does.
    pub name: String,
}

/// The mathematical model of a rank.
pub struct RankView {
    pub valid: bool,
    pub score: int,
    pub performance: int,
    pub name: Seq<char>,
}

impl View for Rank {
    type V = RankView;

    open spec fn view(&self) -> RankView {
        RankView {
            valid: self.valid,
            score: self.score.key as int,
            performance: self.performance.key as int,
            name: self.name@,
        }
    }
}

/// Whether `a` is listed before `b`: valid first, then the greater score, then
/// the greater performance, then the name that comes first.
pub open spec fn listed_before(a: RankView, b: RankView) -> bool {
    if a.valid != b.valid {
        a.valid
    } else if a.score != b.score {
        a.score > b.score
    } else if a.performance != b.performance {
        a.performance > b.performance
    } else {
        text_before(a.name, b.name)
    }
}

/// Nothing is listed before itself, and of two ranks at most one is listed
/// before the other.
pub proof fn listed_before_asymmetric(a: RankView, b: RankView)
    ensures
        !(listed_before(a, b) && listed_before(b, a)),
{
    if text_before(a.name, b.name) && text_before(b.name, a.name) {
        crate::text::text_before_transitive(a.name, b.name, a.name);
        crate::text::text_before_irreflexive(a.name);
    }
}

/// What is not listed after a second one that is not listed after a third, is
/// not listed after the third.
pub proof fn listed_before_negatively_transitive(a: RankView, b: RankView, c: RankView)
    requires
        !listed_before(b, a),
        !listed_before(c, b),
    ensures
        !listed_before(c, a),
{
    if listed_before(c, a) && text_before(c.name, a.name) {
        crate::text::text_before_total(a.name, b.name);
        crate::text::text_before_total(b.name, c.name);
        if a.name == b.name || b.name == c.name {
        } else {
            crate::text::text_before_transitive(a.name, b.name, c.name);
            crate::text::text_before_transitive(c.name, a.name, c.name);
            crate::text::text_before_irreflexive(c.name);
        }
    }
}

/// Where the newcomer `k` goes in an order: before those that it is listed
/// before, at the end of it.
pub open spec fn slot(order: Seq<int>, keys: Seq<RankView>, k: RankView) -> nat
    decreases order.len(),
{
    if order.len() > 0 && listed_before(k, keys[order.last()]) {
        slot(order.drop_last(), keys, k)
    } else {
        order.len()
    }
}

/// The positions of the keys, best first; equals in the order they stand in.
pub open spec fn ranking(keys: Seq<RankView>) -> Seq<int>
    decreases keys.len(),
{
    if keys.len() == 0 {
        Seq::empty()
    } else {
        let rest = ranking(keys.drop_last());
        rest.insert(slot(rest, keys, keys.last()) as int, keys.len() - 1)
    }
}

/// Whether position `i` is listed before position `j`: because its key is, or
/// because neither is and it stands first.
pub open spec fn ahead(keys: Seq<RankView>, i: int, j: int) -> bool {
    listed_before(keys[i], keys[j]) || (!listed_before(keys[j], keys[i]) && i < j)
}

/// A newcomer is listed before all that follow its place, and not before what
/// stands in front of it.
pub proof fn lemma_slot(order: Seq<int>, keys: Seq<RankView>, k: RankView)
    ensures
        slot(order, keys, k) <= order.len(),
        forall|j: int|
            slot(order, keys, k) <= j < order.len() ==> listed_before(k, keys[#[trigger] order[j]]),
        slot(order, keys, k) > 0 ==> !listed_before(k, keys[order[slot(order, keys, k) - 1]]),
    decreases order.len(),
{
    if order.len() > 0 && listed_before(k, keys[order.last()]) {
        lemma_slot(order.drop_last(), keys, k);
        let s = slot(order, keys, k);
        assert forall|j: int| s <= j < order.len() implies listed_before(
            k,
            keys[#[trigger] order[j]],
        ) by {
            if j < order.len() - 1 {
                assert(order.drop_last()[j] == order[j]);
            }
        }
        if s > 0 {
            assert(order.drop_last()[s - 1] == order[s - 1]);
        }
    }
}

/// A ranking lists every position once, best first, and equals in the order
/// that they stand in.
pub proof fn ranking_lists_best_first(keys: Seq<RankView>)
    ensures
        ranking(keys).len() == keys.len(),
        forall|i: int| 0 <= i < keys.len() ==> 0 <= #[trigger] ranking(keys)[i] < keys.len(),
        forall|i: int, j: int|
            #![trigger ranking(keys)[i], ranking(keys)[j]]
            0 <= i < j < keys.len() ==> ranking(keys)[i] != ranking(keys)[j] && ahead(
                keys,
                ranking(keys)[i],
                ranking(keys)[j],
            ),
    decreases keys.len(),
{
    if keys.len() > 0 {
        let before = keys.drop_last();
        let rest = ranking(before);
        let n = keys.len() - 1;
        ranking_lists_best_first(before);
        lemma_slot(rest, keys, keys.last());
        let s = slot(rest, keys, keys.last()) as int;
        let all = ranking(keys);
        assert(all == rest.insert(s, n));
        assert forall|i: int| 0 <= i < keys.len() implies 0 <= #[trigger] all[i] < keys.len() by {
            if i < s {
                assert(all[i] == rest[i]);
            } else if i > s {
                assert(all[i] == rest[i - 1]);
            }
        }
        assert forall|i: int, j: int|
            #![trigger all[i], all[j]]
            0 <= i < j < keys.len() implies all[i] != all[j] && ahead(keys, all[i], all[j]) by {
            let p = if i < s {
                i
            } else {
                i - 1
            };
            let q = if j < s {
                j
            } else {
                j - 1
            };
            if i != s && j != s {
                assert(all[i] == rest[p]);
                assert(all[j] == rest[q]);
                assert(ahead(before, rest[p], rest[q]));
                assert(before[rest[p]] == keys[rest[p]]);
                assert(before[rest[q]] == keys[rest[q]]);
            } else if i == s {
                assert(all[i] == n);
                assert(all[j] == rest[q]);
                assert(listed_before(keys[n], keys[rest[q]]));
            } else {
                assert(all[i] == rest[p]);
                assert(all[j] == n);
                assert(!listed_before(keys[n], keys[rest[s - 1]]));
                if p < s - 1 {
                    assert(ahead(before, rest[p], rest[s - 1]));
                    assert(before[rest[p]] == keys[rest[p]]);
                    assert(before[rest[s - 1]] == keys[rest[s - 1]]);
                    listed_before_asymmetric(keys[rest[p]], keys[rest[s - 1]]);
                    listed_before_negatively_transitive(
                        keys[rest[p]],
                        keys[rest[s - 1]],
                        keys[n],
                    );
                }
            }
        }
    }
}

/// Every position is listed.
pub proof fn ranking_lists_all(keys: Seq<RankView>, i: int)
    requires
        0 <= i < keys.len(),
    ensures
        ranking(keys).contains(i),
    decreases keys.len(),
{
    let rest = ranking(keys.drop_last());
    let n = keys.len() - 1;
    ranking_lists_best_first(keys.drop_last());
    lemma_slot(rest, keys, keys.last());
    let s = slot(rest, keys, keys.last()) as int;
    if i == n {
        assert(rest.insert(s, n)[s] == n);
    } else {
        ranking_lists_all(keys.drop_last(), i);
        let p = choose|p: int| 0 <= p < rest.len() && rest[p] == i;
        if p < s {
            assert(rest.insert(s, n)[p] == i);
        } else {
            assert(rest.insert(s, n)[p + 1] == i);
        }
    }
}

/// Whether each of these is listed before all that follow it.
pub open spec fn strictly_listed(list: Seq<RankView>) -> bool {
    forall|i: int, j: int|
        #![trigger list[i], list[j]]
        0 <= i < j < list.len() ==> listed_before(list[i], list[j])
}

/// There is one way to list ranks of which no two are equal.
pub proof fn listing_is_unique(list: Seq<RankView>, other: Seq<RankView>)
    requires
        list.len() == other.len(),
        strictly_listed(list),
        strictly_listed(other),
        forall|i: int| 0 <= i < list.len() ==> other.contains(#[trigger] list[i]),
        forall|i: int| 0 <= i < other.len() ==> list.contains(#[trigger] other[i]),
    ensures
        list == other,
    decreases list.len(),
{
    if list.len() > 0 {
        let a = list[0];
        let b = other[0];
        assert(other.contains(list[0]));
        assert(list.contains(other[0]));
        let k = choose|k: int| 0 <= k < other.len() && other[k] == a;
        let m = choose|m: int| 0 <= m < list.len() && list[m] == b;
        listed_before_asymmetric(a, b);
        listed_before_asymmetric(a, a);
        if k > 0 {
            assert(listed_before(other[0], other[k]));
            if m > 0 {
                assert(listed_before(list[0], list[m]));
            }
        }
        let rest = list.drop_first();
        let other_rest = other.drop_first();
        assert forall|i: int| 0 <= i < rest.len() implies other_rest.contains(
            #[trigger] rest[i],
        ) by {
            assert(rest[i] == list[i + 1]);
            assert(listed_before(list[0], list[i + 1]));
            let p = choose|p: int| 0 <= p < other.len() && other[p] == list[i + 1];
            assert(other_rest[p - 1] == other[p]);
        }
        assert forall|i: int| 0 <= i < other_rest.len() implies rest.contains(
            #[trigger] other_rest[i],
        ) by {
            assert(other_rest[i] == other[i + 1]);
            assert(listed_before(other[0], other[i + 1]));
            let p = choose|p: int| 0 <= p < list.len() && list[p] == other[i + 1];
            assert(rest[p - 1] == list[p]);
        }
        listing_is_unique(rest, other_rest);
        assert(list =~= seq![a] + rest);
        assert(other =~= seq![b] + other_rest);
    } else {
        assert(list =~= other);
    }
}

/// The models of some ranks.
pub open spec fn rank_views(keys: Seq<Rank>) -> Seq<RankView> {
    keys.map_values(|k: Rank| k@)
}

/// The positions in a list, as integers.
pub open spec fn positions(v: Seq<usize>) -> Seq<int> {
    v.map_values(|i: usize| i as int)
}

impl Rank {
    /// Whether this is listed before the other.
    pub fn before(&self, other: &Rank) -> (r: bool)
        ensures
            r == listed_before(self@, other@),
    {
        if self.valid != other.valid {
            self.valid
        } else if self.score.key != other.score.key {
            self.score.key > other.score.key
        } else if self.performance.key != other.performance.key {
            self.performance.key > other.performance.key
        } else {
            comes_before(self.name.as_str(), other.name.as_str())
        }
    }
}

/// Ranks the keys: their positions, best first, equals in the order they stand
/// in.
pub fn rank_keys(keys: &Vec<Rank>) -> (r: Vec<usize>)
    ensures
        positions(r@) == ranking(rank_views(keys@)),
{
    let ghost all = rank_views(keys@);
    let mut order: Vec<usize> = Vec::new();
    let mut n: usize = 0;
    assert(positions(order@) =~= ranking(all.take(0)));
    while n < keys.len()
        invariant
            all == rank_views(keys@),
            n <= keys@.len(),
            positions(order@) == ranking(all.take(n as int)),
        decreases keys.len() - n,
    {
        let ghost now = all.take(n as int);
        let ghost next = all.take(n + 1);
        let ghost rest = positions(order@);
        proof {
            ranking_lists_best_first(now);
            assert(next.drop_last() =~= now);
            assert(next.last() == keys@[n as int]@);
        }
        let mut s: usize = order.len();
        assert(rest.take(s as int) =~= rest);
        while s > 0 && keys[n].before(&keys[order[s - 1]])
            invariant
                all == rank_views(keys@),
                n < keys@.len(),
                next == all.take(n + 1),
                now == all.take(n as int),
                rest == positions(order@),
                rest == ranking(now),
                rest.len() == n,
                forall|i: int| 0 <= i < n ==> 0 <= #[trigger] rest[i] < n,
                s <= order@.len(),
                slot(rest, next, keys@[n as int]@) == slot(
                    rest.take(s as int),
                    next,
                    keys@[n as int]@,
                ),
            decreases s,
        {
            proof {
                let t = rest.take(s as int);
                assert(t.last() == rest[s - 1]);
                assert(0 <= rest[s - 1] < n);
                assert(next[rest[s - 1]] == keys@[order@[s - 1] as int]@);
                assert(t.drop_last() =~= rest.take(s - 1));
            }
            s -= 1;
            assert(s > 0 ==> 0 <= rest[s - 1] < n);
        }
        proof {
            let t = rest.take(s as int);
            if s > 0 {
                assert(t.last() == rest[s - 1]);
                assert(next[rest[s - 1]] == keys@[order@[s - 1] as int]@);
            }
            assert(slot(t, next, keys@[n as int]@) == s);
        }
        order.insert(s, n);
        assert(positions(order@) =~= rest.insert(s as int, n as int));
        n += 1;
    }
    assert(all.take(all.len() as int) =~= all);
    order
}

/// Valid ones are listed first, then greater scores, then greater performances,
/// and then by name.
pub proof fn listing_goes_by_score_performance_and_name(a: RankView, b: RankView)
    ensures
        a.valid && !b.valid ==> listed_before(a, b) && !listed_before(b, a),
        a.valid == b.valid && a.score > b.score ==> listed_before(a, b) && !listed_before(b, a),
        a.valid == b.valid && a.score == b.score && a.performance > b.performance
            ==> listed_before(a, b) && !listed_before(b, a),
        a.valid == b.valid && a.score == b.score && a.performance == b.performance ==> (
        listed_before(a, b) <==> text_before(a.name, b.name)),
{
}

/// A ranking lists what the keys stand for as often as it is there.
pub proof fn rankings_list_every_member<T>(pool: Seq<T>, keys: Seq<RankView>)
    requires
        keys.len() == pool.len(),
    ensures
        ranking(keys).map_values(|i: int| pool[i]).to_multiset() == pool.to_multiset(),
        ranking(keys).len() == pool.len(),
    decreases pool.len(),
{
    ranking_lists_best_first(keys);
    let listed = ranking(keys).map_values(|i: int| pool[i]);
    if pool.len() == 0 {
        assert(listed =~= pool);
    } else {
        let before = pool.drop_last();
        let rest = ranking(keys.drop_last());
        let listed_rest = rest.map_values(|i: int| before[i]);
        let s = slot(rest, keys, keys.last()) as int;
        rankings_list_every_member(before, keys.drop_last());
        ranking_lists_best_first(keys.drop_last());
        lemma_slot(rest, keys, keys.last());
        assert forall|i: int| 0 <= i < rest.len() implies pool[#[trigger] rest[i]]
            == before[rest[i]] by {}
        assert(listed =~= listed_rest.insert(s, pool.last()));
        to_multiset_insert(listed_rest, s, pool.last());
        to_multiset_build(before, pool.last());
        assert(pool =~= before.push(pool.last()));
    }
}

/// Of two positions the one with the key that is listed first is listed first, and
/// of two with equal keys the one that stands first.
pub proof fn rankings_keep_the_order(keys: Seq<RankView>, p: int, q: int)
    requires
        0 <= p < keys.len(),
        0 <= q < keys.len(),
        listed_before(keys[p], keys[q]) || (keys[p] == keys[q] && p < q),
    ensures
        exists|i: int, j: int|
            0 <= i < j < keys.len() && #[trigger] ranking(keys)[i] == p && #[trigger] ranking(
                keys,
            )[j] == q,
{
    let order = ranking(keys);
    ranking_lists_best_first(keys);
    ranking_lists_all(keys, p);
    ranking_lists_all(keys, q);
    let i = choose|i: int| 0 <= i < order.len() && order[i] == p;
    let j = choose|j: int| 0 <= j < order.len() && order[j] == q;
    listed_before_asymmetric(keys[p], keys[q]);
    if j <= i {
        if j < i {
            assert(order[j] != order[i] && ahead(keys, order[j], order[i]));
        }
        listed_before_asymmetric(keys[p], keys[p]);
    }
    assert(ranking(keys)[i] == p && ranking(keys)[j] == q);
}

/// The model of a rank is what the rank holds, and a list of positions is itself.
pub proof fn ranks_are_what_they_hold(r: Rank, v: Seq<Rank>, w: Seq<usize>, i: int)
    ensures
        r@.valid == r.valid,
        r@.score == r.score.key,
        r@.performance == r.performance.key,
        r@.name == r.name@,
        rank_views(v).len() == v.len(),
        0 <= i < v.len() ==> rank_views(v)[i] == v[i]@,
        positions(w).len() == w.len(),
        0 <= i < w.len() ==> positions(w)[i] == w[i],
{
}

} // verus!
