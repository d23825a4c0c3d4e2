//! The archive of every evaluated candidate, the standings that follow from
//! it, and the choice of parents.

use std::time::UNIX_EPOCH;
use vstd::prelude::*;
use vstd::seq_lib::{
    to_multiset_build, to_multiset_contains, to_multiset_insert, to_multiset_len,
};
use vstd::string::*;

use crate::digits::{
    decimal, is_digit, lemma_zero_padded, parse_usize, parsed, write_padded, write_usize,
    zero_padded,
};
use crate::fitness::{reward_for_position, rewarded};
use crate::harness::HarnessResult;
use crate::json::{option_str_view, option_view};
use crate::measure::Measure;
use crate::ranking::{
    ahead, lemma_slot, listed_before, listing_is_unique, positions, rank_keys, rank_views, ranking,
    ranking_lists_best_first, rankings_keep_the_order, slot, strictly_listed, Rank, RankView,
};
use crate::text::{
    contains_text, in_order, is_blank, is_blank_text, lemma_rfind_to, occurs_at, rfind, rfind_text,
    same, string_views, text_before, text_before_irreflexive, text_before_total, woven,
    woven_parts_are_in_order,
};

verus! {

/// A candidate that was evaluated.
#[derive(Debug)]
pub struct Candidate {
    pub id: String,
    pub agent: String,
    pub round: usize,
    pub operator: String,
    pub parents: Vec<String>,
    pub guidance: Option<String>,
    pub block: String,
    pub code_path: String,
    pub result: HarnessResult,
    pub performance: Measure,
    pub novelty: Measure,
    pub score: Measure,
    pub valid: bool,
    pub created_at: u64,
}

impl Candidate {
    /// What candidates are ordered by.
    pub open spec fn rank_view(self) -> RankView {
        RankView {
            valid: self.valid,
            score: self.score.key as int,
            performance: self.performance.key as int,
            name: Seq::empty(),
        }
    }

    /// What candidates are ordered by.
    pub fn rank(&self) -> (r: Rank)
        ensures
            r@ == self.rank_view(),
    {
        let r = Rank {
            valid: self.valid,
            score: self.score,
            performance: self.performance,
            name: String::new(),
        };
        assert(r.name@ =~= Seq::<char>::empty());
        r
    }
}

/// Which candidates are asked for.
#[derive(Debug)]
pub struct Filter<'a> {
    pub valid_only: bool,
    pub agent: Option<&'a str>,
    pub not_agent: Option<&'a str>,
    pub not_id: Option<&'a str>,
}

/// The mathematical model of a filter.
pub struct FilterView {
    pub valid_only: bool,
    pub agent: Option<Seq<char>>,
    pub not_agent: Option<Seq<char>>,
    pub not_id: Option<Seq<char>>,
}

impl<'a> View for Filter<'a> {
    type V = FilterView;

    open spec fn view(&self) -> FilterView {
        FilterView {
            valid_only: self.valid_only,
            agent: option_str_view(self.agent),
            not_agent: option_str_view(self.not_agent),
            not_id: option_str_view(self.not_id),
        }
    }
}

impl FilterView {
    /// Whether this candidate is asked for.
    pub open spec fn admits(self, c: Candidate) -> bool {
        &&& self.valid_only ==> c.valid
        &&& self.agent matches Some(a) ==> c.agent@ == a
        &&& self.not_agent matches Some(a) ==> c.agent@ != a
        &&& self.not_id matches Some(id) ==> c.id@ != id
    }

    /// Every candidate of an agent, or of all.
    pub open spec fn of_agent(agent: Option<Seq<char>>) -> FilterView {
        FilterView { valid_only: false, agent, not_agent: None, not_id: None }
    }

    /// The valid candidates of an agent, or of all.
    pub open spec fn valid_of_agent(agent: Option<Seq<char>>) -> FilterView {
        FilterView { valid_only: true, agent, not_agent: None, not_id: None }
    }

    /// What parents are drawn from: the valid candidates but those of an agent
    /// and the one with an id.
    pub open spec fn parents(not_agent: Option<Seq<char>>, not_id: Option<Seq<char>>) -> FilterView {
        FilterView { valid_only: true, agent: None, not_agent, not_id }
    }
}

impl<'a> Filter<'a> {
    /// Whether this candidate is asked for.
    pub fn test(&self, c: &Candidate) -> (r: bool)
        ensures
            r == self@.admits(*c),
    {
        if self.valid_only && !c.valid {
            return false;
        }
        if let Some(a) = self.agent {
            if !same(c.agent.as_str(), a) {
                return false;
            }
        }
        if let Some(a) = self.not_agent {
            if same(c.agent.as_str(), a) {
                return false;
            }
        }
        if let Some(id) = self.not_id {
            if same(c.id.as_str(), id) {
                return false;
            }
        }
        true
    }
}

/// The candidates that are asked for, in the order of their arrival.
pub open spec fn selected(entries: Seq<Candidate>, f: FilterView) -> Seq<Candidate>
    decreases entries.len(),
{
    if entries.len() == 0 {
        Seq::empty()
    } else {
        let rest = selected(entries.drop_last(), f);
        if f.admits(entries.last()) {
            rest.push(entries.last())
        } else {
            rest
        }
    }
}

/// The best of some candidates, the first among equals.
pub open spec fn best_of(pool: Seq<Candidate>) -> Option<Candidate>
    decreases pool.len(),
{
    if pool.len() == 0 {
        None
    } else {
        match best_of(pool.drop_last()) {
            None => Some(pool.last()),
            Some(b) => if listed_before(pool.last().rank_view(), b.rank_view()) {
                Some(pool.last())
            } else {
                Some(b)
            },
        }
    }
}

/// The latest of some candidates.
pub open spec fn latest_of(pool: Seq<Candidate>) -> Option<Candidate> {
    if pool.len() == 0 {
        None
    } else {
        Some(pool.last())
    }
}

/// What some candidates are ordered by.
pub open spec fn candidate_ranks(pool: Seq<Candidate>) -> Seq<RankView> {
    pool.map_values(|c: Candidate| c.rank_view())
}

/// Some candidates, best first; equals in the order of their arrival.
pub open spec fn ranked(pool: Seq<Candidate>) -> Seq<Candidate> {
    ranking(candidate_ranks(pool)).map_values(|i: int| pool[i])
}

/// The first `n` of a list, or all of it where it is shorter.
pub open spec fn first_of<T>(list: Seq<T>, n: nat) -> Seq<T> {
    if list.len() < n {
        list
    } else {
        list.take(n as int)
    }
}

/// The candidates that are referred to.
pub open spec fn owned(v: Seq<&Candidate>) -> Seq<Candidate> {
    v.map_values(|c: &Candidate| *c)
}

/// The candidate that is referred to, where there is one.
pub open spec fn owned_option(c: Option<&Candidate>) -> Option<Candidate> {
    match c {
        Some(c) => Some(*c),
        None => None,
    }
}

/// Every candidate that is selected is one that was asked for, and every such
/// candidate is selected.
pub proof fn selection_is_exact(entries: Seq<Candidate>, f: FilterView, c: Candidate)
    ensures
        selected(entries, f).contains(c) <==> entries.contains(c) && f.admits(c),
    decreases entries.len(),
{
    if entries.len() > 0 {
        let rest = selected(entries.drop_last(), f);
        selection_is_exact(entries.drop_last(), f, c);
        if rest.contains(c) {
            let i = choose|i: int| 0 <= i < rest.len() && rest[i] == c;
            assert(rest.push(entries.last())[i] == c);
            let k = choose|k: int|
                0 <= k < entries.drop_last().len() && entries.drop_last()[k] == c;
            assert(entries[k] == c);
        }
        if f.admits(entries.last()) {
            let all = rest.push(entries.last());
            assert(all[all.len() - 1] == entries.last());
            if all.contains(c) && !rest.contains(c) {
                let i = choose|i: int| 0 <= i < all.len() && all[i] == c;
                if i < rest.len() {
                    assert(rest[i] == c);
                }
                assert(entries[entries.len() - 1] == c);
            }
        }
        if entries.contains(c) && !entries.drop_last().contains(c) {
            let k = choose|k: int| 0 <= k < entries.len() && entries[k] == c;
            if k < entries.len() - 1 {
                assert(entries.drop_last()[k] == c);
            }
        }
    }
}

/// The best candidate is one that no other is listed before, and every one that
/// came earlier is listed behind it.
pub proof fn best_is_first_maximum(pool: Seq<Candidate>)
    ensures
        best_of(pool) is None <==> pool.len() == 0,
        best_of(pool) matches Some(b) ==> exists|k: int|
            {
                &&& 0 <= k < pool.len()
                &&& #[trigger] pool[k] == b
                &&& forall|j: int|
                    0 <= j < pool.len() ==> !listed_before(
                        (#[trigger] pool[j]).rank_view(),
                        b.rank_view(),
                    )
                &&& forall|j: int|
                    0 <= j < k ==> listed_before(b.rank_view(), (#[trigger] pool[j]).rank_view())
            },
    decreases pool.len(),
{
    if pool.len() > 0 {
        let rest = pool.drop_last();
        let last = pool.last();
        best_is_first_maximum(rest);
        match best_of(rest) {
            None => {
                assert(pool[0] == last);
                crate::ranking::listed_before_asymmetric(last.rank_view(), last.rank_view());
            },
            Some(b) => {
                let k = choose|k: int|
                    {
                        &&& 0 <= k < rest.len()
                        &&& #[trigger] rest[k] == b
                        &&& forall|j: int|
                            0 <= j < rest.len() ==> !listed_before(
                                (#[trigger] rest[j]).rank_view(),
                                b.rank_view(),
                            )
                        &&& forall|j: int|
                            0 <= j < k ==> listed_before(
                                b.rank_view(),
                                (#[trigger] rest[j]).rank_view(),
                            )
                    };
                if listed_before(last.rank_view(), b.rank_view()) {
                    assert(pool[pool.len() - 1] == last);
                    assert forall|j: int| 0 <= j < pool.len() implies !listed_before(
                        (#[trigger] pool[j]).rank_view(),
                        last.rank_view(),
                    ) by {
                        crate::ranking::listed_before_asymmetric(last.rank_view(), b.rank_view());
                        crate::ranking::listed_before_asymmetric(
                            last.rank_view(),
                            last.rank_view(),
                        );
                        if j < rest.len() {
                            assert(rest[j] == pool[j]);
                            crate::ranking::listed_before_negatively_transitive(
                                last.rank_view(),
                                b.rank_view(),
                                pool[j].rank_view(),
                            );
                        }
                    }
                    assert forall|j: int| 0 <= j < pool.len() - 1 implies listed_before(
                        last.rank_view(),
                        (#[trigger] pool[j]).rank_view(),
                    ) by {
                        assert(rest[j] == pool[j]);
                        if !listed_before(last.rank_view(), pool[j].rank_view()) {
                            crate::ranking::listed_before_negatively_transitive(
                                b.rank_view(),
                                pool[j].rank_view(),
                                last.rank_view(),
                            );
                        }
                    }
                } else {
                    assert(pool[k] == b);
                    assert forall|j: int| 0 <= j < pool.len() implies !listed_before(
                        (#[trigger] pool[j]).rank_view(),
                        b.rank_view(),
                    ) by {
                        if j < rest.len() {
                            assert(rest[j] == pool[j]);
                        }
                    }
                    assert forall|j: int| 0 <= j < k implies listed_before(
                        b.rank_view(),
                        (#[trigger] pool[j]).rank_view(),
                    ) by {
                        assert(rest[j] == pool[j]);
                    }
                }
            },
        }
    }
}

/// The best candidate heads the list of the ranked ones.
pub proof fn best_heads_ranking(pool: Seq<Candidate>)
    requires
        pool.len() > 0,
    ensures
        ranked(pool).len() == pool.len(),
        best_of(pool) == Some(ranked(pool)[0]),
{
    let keys = candidate_ranks(pool);
    let order = ranking(keys);
    ranking_lists_best_first(keys);
    best_is_first_maximum(pool);
    let b = best_of(pool)->0;
    let k = choose|k: int|
        {
            &&& 0 <= k < pool.len()
            &&& #[trigger] pool[k] == b
            &&& forall|j: int|
                0 <= j < pool.len() ==> !listed_before(
                    (#[trigger] pool[j]).rank_view(),
                    b.rank_view(),
                )
            &&& forall|j: int|
                0 <= j < k ==> listed_before(b.rank_view(), (#[trigger] pool[j]).rank_view())
        };
    crate::ranking::ranking_lists_all(keys, k);
    let p = choose|p: int| 0 <= p < order.len() && order[p] == k;
    let f = order[0];
    assert(keys[f] == pool[f].rank_view());
    assert(keys[k] == pool[k].rank_view());
    if p > 0 {
        assert(order[0] != order[p] && ahead(keys, order[0], order[p]));
        crate::ranking::listed_before_asymmetric(keys[f], keys[k]);
    }
}

/// What is known of an agent in the competition.
#[derive(Debug)]
pub struct Standing {
    pub agent: String,
    pub rank_position: usize,
    pub reward: u8,
    pub best_score: Measure,
    pub best_performance: Measure,
    pub best_id: Option<String>,
    pub candidates: usize,
    pub valid_candidates: usize,
}

/// The mathematical model of a standing.
pub struct StandingView {
    pub agent: Seq<char>,
    pub rank_position: nat,
    pub reward: nat,
    pub best_score: Measure,
    pub best_performance: Measure,
    pub best_id: Option<Seq<char>>,
    pub candidates: nat,
    pub valid_candidates: nat,
}

impl View for Standing {
    type V = StandingView;

    open spec fn view(&self) -> StandingView {
        StandingView {
            agent: self.agent@,
            rank_position: self.rank_position as nat,
            reward: self.reward as nat,
            best_score: self.best_score,
            best_performance: self.best_performance,
            best_id: option_view(self.best_id),
            candidates: self.candidates as nat,
            valid_candidates: self.valid_candidates as nat,
        }
    }
}

/// The models of some standings.
pub open spec fn standing_views(rows: Seq<Standing>) -> Seq<StandingView> {
    rows.map_values(|s: Standing| s@)
}

impl StandingView {
    /// What agents are ordered by: those with a valid candidate first, by their
    /// best score, then by their best performance, then by name.
    pub open spec fn rank_view(self) -> RankView {
        RankView {
            valid: self.best_id is Some,
            score: self.best_score.key as int,
            performance: self.best_performance.key as int,
            name: self.agent,
        }
    }

    /// This, at a position out of `n`.
    pub open spec fn at(self, position: nat, n: nat) -> StandingView {
        StandingView {
            rank_position: position,
            reward: if 1 <= position <= rewarded(n) {
                1
            } else {
                0
            },
            ..self
        }
    }
}

/// What the candidates say of an agent that has no position yet.
pub open spec fn standing_of(entries: Seq<Candidate>, agent: Seq<char>) -> StandingView {
    let best = best_of(selected(entries, FilterView::valid_of_agent(Some(agent))));
    let any = best_of(selected(entries, FilterView::of_agent(Some(agent))));
    StandingView {
        agent,
        rank_position: 0,
        reward: 0,
        best_score: match best {
            Some(c) => c.score,
            None => Measure::spec_zero(),
        },
        best_performance: match best {
            Some(c) => c.performance,
            None => match any {
                Some(c) => c.performance,
                None => Measure::spec_zero(),
            },
        },
        best_id: match best {
            Some(c) => Some(c.id@),
            None => None,
        },
        candidates: selected(entries, FilterView::of_agent(Some(agent))).len(),
        valid_candidates: selected(entries, FilterView::valid_of_agent(Some(agent))).len(),
    }
}

/// What the candidates say of each agent.
pub open spec fn unplaced(entries: Seq<Candidate>, agents: Seq<Seq<char>>) -> Seq<StandingView> {
    agents.map_values(|a: Seq<char>| standing_of(entries, a))
}

/// What some standings are ordered by.
pub open spec fn standing_ranks(rows: Seq<StandingView>) -> Seq<RankView> {
    rows.map_values(|s: StandingView| s.rank_view())
}

/// The standings of the agents, best first.
pub open spec fn standings_of(entries: Seq<Candidate>, agents: Seq<Seq<char>>) -> Seq<
    StandingView,
> {
    let rows = unplaced(entries, agents);
    let order = ranking(standing_ranks(rows));
    Seq::new(order.len(), |i: int| rows[order[i]].at((i + 1) as nat, order.len()))
}

/// The standings list every agent, the best first; positions count up from one,
/// and the better half of the agents, rounded up, is rewarded. No agent without a
/// valid candidate stands before one that has one.
pub proof fn standings_rank_best_first(entries: Seq<Candidate>, agents: Seq<Seq<char>>)
    ensures
        standings_of(entries, agents).len() == agents.len(),
        forall|i: int|
            0 <= i < agents.len() ==> {
                let s = #[trigger] standings_of(entries, agents)[i];
                &&& s.rank_position == i + 1
                &&& s.reward == 1 <==> i + 1 <= rewarded(agents.len())
                &&& s.reward == 0 || s.reward == 1
                &&& agents.contains(s.agent)
                &&& s == standing_of(entries, s.agent).at((i + 1) as nat, agents.len())
            },
        forall|i: int, j: int|
            #![trigger standings_of(entries, agents)[i], standings_of(entries, agents)[j]]
            0 <= i < j < agents.len() ==> !listed_before(
                standings_of(entries, agents)[j].rank_view(),
                standings_of(entries, agents)[i].rank_view(),
            ),
        forall|i: int, j: int|
            #![trigger standings_of(entries, agents)[i], standings_of(entries, agents)[j]]
            0 <= i < j < agents.len() && standings_of(entries, agents)[j].best_id is Some
                ==> standings_of(entries, agents)[i].best_id is Some,
        forall|k: int|
            0 <= k < agents.len() ==> exists|i: int|
                0 <= i < agents.len() && #[trigger] standings_of(entries, agents)[i].agent
                    == #[trigger] agents[k],
{
    let rows = unplaced(entries, agents);
    let keys = standing_ranks(rows);
    let order = ranking(keys);
    let all = standings_of(entries, agents);
    ranking_lists_best_first(keys);
    assert forall|i: int| 0 <= i < agents.len() implies {
        let s = #[trigger] all[i];
        &&& s.rank_position == i + 1
        &&& s.reward == 1 <==> i + 1 <= rewarded(agents.len())
        &&& s.reward == 0 || s.reward == 1
        &&& agents.contains(s.agent)
        &&& s == standing_of(entries, s.agent).at((i + 1) as nat, agents.len())
    } by {
        assert(0 <= order[i] < keys.len());
        assert(rows[order[i]] == standing_of(entries, agents[order[i]]));
        assert(agents.contains(agents[order[i]]));
    }
    assert forall|i: int, j: int|
        #![trigger all[i], all[j]]
        0 <= i < j < agents.len() implies !listed_before(
        all[j].rank_view(),
        all[i].rank_view(),
    ) by {
        assert(order[i] != order[j] && ahead(keys, order[i], order[j]));
        assert(keys[order[i]] == rows[order[i]].rank_view());
        assert(keys[order[j]] == rows[order[j]].rank_view());
        crate::ranking::listed_before_asymmetric(keys[order[i]], keys[order[j]]);
    }
    assert forall|k: int| 0 <= k < agents.len() implies exists|i: int|
        0 <= i < agents.len() && #[trigger] all[i].agent == #[trigger] agents[k] by {
        crate::ranking::ranking_lists_all(keys, k);
        let i = choose|i: int| 0 <= i < order.len() && order[i] == k;
        assert(all[i].agent == rows[k].agent);
    }
}

/// Whether some candidates and others are the same ones, in whatever order.
pub open spec fn same_candidates(entries: Seq<Candidate>, others: Seq<Candidate>) -> bool {
    entries.to_multiset() == others.to_multiset()
}

proof fn lemma_same_members<A>(list: Seq<A>, others: Seq<A>, x: A)
    requires
        list.to_multiset() == others.to_multiset(),
    ensures
        list.contains(x) <==> others.contains(x),
{
    to_multiset_contains(list, x);
    to_multiset_contains(others, x);
}

/// What is selected does not depend on the order of arrival.
proof fn lemma_selected_members(entries: Seq<Candidate>, f: FilterView)
    ensures
        selected(entries, f).to_multiset() == entries.to_multiset().filter(
            |c: Candidate| f.admits(c),
        ),
    decreases entries.len(),
{
    broadcast use vstd::multiset::group_multiset_axioms;

    let admits = |c: Candidate| f.admits(c);
    if entries.len() == 0 {
        assert forall|c: Candidate|
            selected(entries, f).to_multiset().count(c) == entries.to_multiset().filter(
                admits,
            ).count(c) by {
            to_multiset_contains(entries, c);
            to_multiset_contains(selected(entries, f), c);
        }
        assert(selected(entries, f).to_multiset() =~= entries.to_multiset().filter(admits));
    } else {
        let rest = entries.drop_last();
        let last = entries.last();
        lemma_selected_members(rest, f);
        assert(entries =~= rest.push(last));
        to_multiset_build(rest, last);
        to_multiset_build(selected(rest, f), last);
        assert(selected(entries, f).to_multiset() =~= entries.to_multiset().filter(admits));
    }
}

proof fn lemma_same_count(entries: Seq<Candidate>, others: Seq<Candidate>, f: FilterView)
    requires
        same_candidates(entries, others),
    ensures
        selected(entries, f).len() == selected(others, f).len(),
{
    lemma_selected_members(entries, f);
    lemma_selected_members(others, f);
    to_multiset_len(selected(entries, f));
    to_multiset_len(selected(others, f));
}

proof fn lemma_best_has_same_rank(entries: Seq<Candidate>, others: Seq<Candidate>, f: FilterView)
    requires
        same_candidates(entries, others),
    ensures
        match (best_of(selected(entries, f)), best_of(selected(others, f))) {
            (Some(a), Some(b)) => a.rank_view() == b.rank_view(),
            (None, None) => true,
            _ => false,
        },
{
    let p = selected(entries, f);
    let q = selected(others, f);
    best_is_first_maximum(p);
    best_is_first_maximum(q);
    if let Some(a) = best_of(p) {
        assert(p.contains(a));
        lemma_same_members(entries, others, a);
        selection_is_exact(entries, f, a);
        selection_is_exact(others, f, a);
        let k = choose|k: int| 0 <= k < q.len() && q[k] == a;
        let b = best_of(q)->0;
        lemma_same_members(entries, others, b);
        assert(!listed_before(q[k].rank_view(), b.rank_view()));
        assert(q.contains(b));
        selection_is_exact(others, f, b);
        selection_is_exact(entries, f, b);
        let j = choose|j: int| 0 <= j < p.len() && p[j] == b;
        assert(!listed_before(p[j].rank_view(), a.rank_view()));
    } else if let Some(b) = best_of(q) {
        assert(q.contains(b));
        lemma_same_members(entries, others, b);
        selection_is_exact(others, f, b);
        selection_is_exact(entries, f, b);
    }
}

/// Whether two rows of a leaderboard say the same, but for which of several equal
/// candidates is named as the best.
pub open spec fn same_row(s: StandingView, t: StandingView) -> bool {
    &&& s.agent == t.agent
    &&& s.rank_position == t.rank_position
    &&& s.reward == t.reward
    &&& s.best_score == t.best_score
    &&& s.best_performance == t.best_performance
    &&& s.best_id is Some <==> t.best_id is Some
    &&& s.candidates == t.candidates
    &&& s.valid_candidates == t.valid_candidates
}

proof fn lemma_same_standing(entries: Seq<Candidate>, others: Seq<Candidate>, agent: Seq<char>)
    requires
        same_candidates(entries, others),
    ensures
        same_row(standing_of(entries, agent), standing_of(others, agent)),
{
    lemma_best_has_same_rank(entries, others, FilterView::valid_of_agent(Some(agent)));
    lemma_best_has_same_rank(entries, others, FilterView::of_agent(Some(agent)));
    lemma_same_count(entries, others, FilterView::valid_of_agent(Some(agent)));
    lemma_same_count(entries, others, FilterView::of_agent(Some(agent)));
}

/// Where no two agents have the same name, no two rows of the leaderboard are
/// equal.
proof fn lemma_strictly_listed(entries: Seq<Candidate>, agents: Seq<Seq<char>>)
    requires
        agents.no_duplicates(),
    ensures
        strictly_listed(standing_ranks(standings_of(entries, agents))),
{
    let rows = unplaced(entries, agents);
    let keys = standing_ranks(rows);
    let order = ranking(keys);
    let all = standings_of(entries, agents);
    let list = standing_ranks(all);
    ranking_lists_best_first(keys);
    assert forall|i: int, j: int|
        #![trigger list[i], list[j]]
        0 <= i < j < list.len() implies listed_before(list[i], list[j]) by {
        assert(order[i] != order[j] && ahead(keys, order[i], order[j]));
        assert(list[i] == keys[order[i]]);
        assert(list[j] == keys[order[j]]);
        assert(keys[order[i]].name == agents[order[i]]);
        assert(keys[order[j]].name == agents[order[j]]);
        text_before_total(agents[order[i]], agents[order[j]]);
    }
}

/// The leaderboard is settled by which candidates and which agents there are: in
/// whatever order either came, the same agents stand at the same positions, with
/// the same reward, score, performance and numbers of candidates.
pub proof fn standings_do_not_depend_on_arrival(
    entries: Seq<Candidate>,
    others: Seq<Candidate>,
    agents: Seq<Seq<char>>,
    other_agents: Seq<Seq<char>>,
)
    requires
        same_candidates(entries, others),
        agents.no_duplicates(),
        other_agents.no_duplicates(),
        agents.to_multiset() == other_agents.to_multiset(),
    ensures
        standings_of(entries, agents).len() == standings_of(others, other_agents).len(),
        forall|i: int|
            0 <= i < standings_of(entries, agents).len() ==> same_row(
                #[trigger] standings_of(entries, agents)[i],
                standings_of(others, other_agents)[i],
            ),
{
    let all = standings_of(entries, agents);
    let other = standings_of(others, other_agents);
    let list = standing_ranks(all);
    let other_list = standing_ranks(other);
    to_multiset_len(agents);
    to_multiset_len(other_agents);
    standings_rank_best_first(entries, agents);
    standings_rank_best_first(others, other_agents);
    lemma_strictly_listed(entries, agents);
    lemma_strictly_listed(others, other_agents);
    assert forall|i: int| 0 <= i < list.len() implies other_list.contains(#[trigger] list[i]) by {
        let name = all[i].agent;
        assert(agents.contains(name));
        lemma_same_members(agents, other_agents, name);
        let k = choose|k: int| 0 <= k < other_agents.len() && other_agents[k] == name;
        let j = choose|j: int|
            0 <= j < other_agents.len() && #[trigger] other[j].agent == other_agents[k];
        lemma_same_standing(entries, others, name);
        assert(other_list[j] == list[i]);
    }
    assert forall|i: int| 0 <= i < other_list.len() implies list.contains(
        #[trigger] other_list[i],
    ) by {
        let name = other[i].agent;
        assert(other_agents.contains(name));
        lemma_same_members(agents, other_agents, name);
        let k = choose|k: int| 0 <= k < agents.len() && agents[k] == name;
        let j = choose|j: int| 0 <= j < agents.len() && #[trigger] all[j].agent == agents[k];
        lemma_same_standing(entries, others, name);
        assert(list[j] == other_list[i]);
    }
    listing_is_unique(list, other_list);
    assert forall|i: int| 0 <= i < all.len() implies same_row(#[trigger] all[i], other[i]) by {
        assert(list[i].name == other_list[i].name);
        lemma_same_standing(entries, others, all[i].agent);
    }
}

/// Where a parent comes from, and how it did.
#[derive(Clone, Copy, Debug, PartialEq, Eq)]
pub enum ParentMetrics {
    /// The seed: the baseline by definition.
    Seed,
    /// A candidate. The times are those of fit and predict, where both were
    /// measured.
    Measured {
        quality: Option<Measure>,
        times: Option<(Measure, Measure)>,
        performance: Measure,
        novelty: Measure,
        score: Measure,
    },
}

/// What a new candidate is derived from.
#[derive(Debug)]
pub struct Parent {
    pub id: String,
    pub label: String,
    pub block: String,
    pub metrics: ParentMetrics,
}

/// The mathematical model of a parent.
pub struct ParentView {
    pub id: Seq<char>,
    pub label: Seq<char>,
    pub block: Seq<char>,
    pub metrics: ParentMetrics,
}

impl View for Parent {
    type V = ParentView;

    open spec fn view(&self) -> ParentView {
        ParentView {
            id: self.id@,
            label: self.label@,
            block: self.block@,
            metrics: self.metrics,
        }
    }
}

/// The id of the seed among the parents.
pub const SEED_ID: &'static str = "seed";

/// The seed as a parent.
pub open spec fn seed_as_parent(seed_block: Seq<char>) -> ParentView {
    ParentView {
        id: SEED_ID@,
        label: "seed (original "@ + "implementation)"@,
        block: seed_block,
        metrics: ParentMetrics::Seed,
    }
}

/// A candidate as a parent.
pub open spec fn candidate_as_parent(c: Candidate) -> ParentView {
    ParentView {
        id: c.id@,
        label: c.id@ + " by "@ + c.agent@ + " ("@ + c.operator@ + ")"@,
        block: c.block@,
        metrics: ParentMetrics::Measured {
            quality: c.result.quality,
            times: match (c.result.fit_time, c.result.predict_time) {
                (Some(fit), Some(predict)) => Some((fit, predict)),
                _ => None,
            },
            performance: c.performance,
            novelty: c.novelty,
            score: c.score,
        },
    }
}

/// How a draw from a pool of candidates came out.
#[derive(Clone, Copy, Debug, PartialEq, Eq, Structural)]
pub enum Draw {
    /// The seed was drawn.
    Seed,
    /// The candidate at this position was drawn; beyond the end, the last one.
    Pick(usize),
}

/// The parent that a draw from a pool gives: the seed where it was drawn or
/// there is no candidate, else the candidate that was drawn.
pub open spec fn drawn(pool: Seq<Candidate>, seed_block: Seq<char>, draw: Draw) -> ParentView {
    if pool.len() == 0 {
        seed_as_parent(seed_block)
    } else {
        match draw {
            Draw::Seed => seed_as_parent(seed_block),
            Draw::Pick(k) => candidate_as_parent(
                if k < pool.len() {
                    pool[k as int]
                } else {
                    pool.last()
                },
            ),
        }
    }
}

/// A parent is the seed or a valid candidate: invalid ones are never parents.
pub proof fn parents_are_seed_or_valid(
    entries: Seq<Candidate>,
    seed_block: Seq<char>,
    not_agent: Option<Seq<char>>,
    not_id: Option<Seq<char>>,
    draw: Draw,
)
    ensures
        ({
            let p = drawn(
                selected(entries, FilterView::parents(not_agent, not_id)),
                seed_block,
                draw,
            );
            p == seed_as_parent(seed_block) || exists|c: Candidate|
                {
                    &&& #[trigger] entries.contains(c)
                    &&& c.valid
                    &&& not_agent matches Some(a) ==> c.agent@ != a
                    &&& not_id matches Some(id) ==> c.id@ != id
                    &&& p == candidate_as_parent(c)
                }
        }),
{
    let f = FilterView::parents(not_agent, not_id);
    let pool = selected(entries, f);
    if pool.len() > 0 {
        if let Draw::Pick(k) = draw {
            let c = if k < pool.len() {
                pool[k as int]
            } else {
                pool.last()
            };
            assert(pool.contains(c));
            selection_is_exact(entries, f, c);
        }
    }
}

/// How far the choice of two parents has come.
#[derive(Debug)]
pub enum PairState {
    /// The first parent is to be drawn, from all valid candidates.
    First,
    /// The second is to be drawn, from those of the rivals.
    Rival(Parent),
    /// It is to be drawn once more, from those of anyone.
    Any(Parent),
}

impl PairState {
    /// Whether the next draw may give the seed though there are candidates: only
    /// the first may.
    pub fn may_draw_seed(&self) -> (r: bool)
        ensures
            r <==> self@ is First,
    {
        match self {
            PairState::First => true,
            _ => false,
        }
    }
}

/// What a draw leads to.
#[derive(Debug)]
pub enum PairStep {
    Next(PairState),
    /// Two parents, or none where there is only the seed.
    Done(Option<(Parent, Parent)>),
}

/// The mathematical model of a state.
pub enum PairStateView {
    First,
    Rival(ParentView),
    Any(ParentView),
}

/// The mathematical model of a step.
pub enum PairStepView {
    Next(PairStateView),
    Done(Option<(ParentView, ParentView)>),
}

impl View for PairState {
    type V = PairStateView;

    open spec fn view(&self) -> PairStateView {
        match self {
            PairState::First => PairStateView::First,
            PairState::Rival(a) => PairStateView::Rival(a@),
            PairState::Any(a) => PairStateView::Any(a@),
        }
    }
}

impl View for PairStep {
    type V = PairStepView;

    open spec fn view(&self) -> PairStepView {
        match self {
            PairStep::Next(s) => PairStepView::Next(s@),
            PairStep::Done(pair) => PairStepView::Done(
                match pair {
                    Some((a, b)) => Some((a@, b@)),
                    None => None,
                },
            ),
        }
    }
}

/// Which candidates the next draw for `agent` is from.
pub open spec fn pair_filter(state: PairStateView, agent: Seq<char>) -> FilterView {
    match state {
        PairStateView::First => FilterView::parents(None, None),
        PairStateView::Rival(a) => FilterView::parents(Some(agent), Some(a.id)),
        PairStateView::Any(a) => FilterView::parents(None, Some(a.id)),
    }
}

/// What drawing `p` leads to. A second parent that is the first one again is
/// drawn once more from the candidates of anyone; where that gives it again,
/// the seed takes its place, unless it is the seed already.
pub open spec fn pair_step(state: PairStateView, p: ParentView, seed_block: Seq<char>) -> PairStepView {
    match state {
        PairStateView::First => PairStepView::Next(PairStateView::Rival(p)),
        PairStateView::Rival(a) => if p.id == a.id {
            PairStepView::Next(PairStateView::Any(a))
        } else {
            PairStepView::Done(Some((a, p)))
        },
        PairStateView::Any(a) => PairStepView::Done(
            if p.id != a.id {
                Some((a, p))
            } else if a.id == SEED_ID@ {
                None
            } else {
                Some((a, seed_as_parent(seed_block)))
            },
        ),
    }
}

/// The two parents of a pair are distinct.
pub proof fn pair_is_distinct(state: PairStateView, p: ParentView, seed_block: Seq<char>)
    ensures
        pair_step(state, p, seed_block) matches PairStepView::Done(Some((a, b))) ==> a.id != b.id,
{
}

/// The second parent is a candidate of a rival wherever there is one besides the
/// first parent; and where it is drawn once more, it is a candidate of anyone
/// wherever there is one besides the first. The seed is not drawn a second time.
pub proof fn second_parent_is_a_rival(
    entries: Seq<Candidate>,
    seed_block: Seq<char>,
    agent: Seq<char>,
    state: PairStateView,
    draw: Draw,
    other: Candidate,
)
    requires
        state !is First,
        draw !is Seed,
        entries.contains(other),
        pair_filter(state, agent).admits(other),
    ensures
        ({
            let p = drawn(selected(entries, pair_filter(state, agent)), seed_block, draw);
            let a = match state {
                PairStateView::First => p,
                PairStateView::Rival(a) => a,
                PairStateView::Any(a) => a,
            };
            &&& pair_step(state, p, seed_block) == PairStepView::Done(Some((a, p)))
            &&& exists|c: Candidate|
                {
                    &&& #[trigger] entries.contains(c)
                    &&& c.valid
                    &&& c.id@ != a.id
                    &&& state is Rival ==> c.agent@ != agent
                    &&& p == candidate_as_parent(c)
                }
        }),
{
    let f = pair_filter(state, agent);
    let pool = selected(entries, f);
    selection_is_exact(entries, f, other);
    if let Draw::Pick(k) = draw {
        let c = if k < pool.len() {
            pool[k as int]
        } else {
            pool.last()
        };
        assert(pool.contains(c));
        selection_is_exact(entries, f, c);
    }
}

/// There is no pair only where there is no valid candidate besides the seed.
pub proof fn no_pair_without_candidates(
    entries: Seq<Candidate>,
    seed_block: Seq<char>,
    agent: Seq<char>,
    state: PairStateView,
    k: usize,
)
    requires
        ({
            let pool = selected(entries, pair_filter(state, agent));
            pair_step(state, drawn(pool, seed_block, Draw::Pick(k)), seed_block)
                == PairStepView::Done(None)
        }),
    ensures
        forall|c: Candidate| #[trigger] entries.contains(c) && c.valid ==> c.id@ == SEED_ID@,
{
    let f = pair_filter(state, agent);
    let pool = selected(entries, f);
    let p = drawn(pool, seed_block, Draw::Pick(k));
    if pool.len() > 0 {
        let c = if k < pool.len() {
            pool[k as int]
        } else {
            pool.last()
        };
        assert(pool.contains(c));
        selection_is_exact(entries, f, c);
    }
    assert forall|c: Candidate| #[trigger] entries.contains(c) && c.valid implies c.id@
        == SEED_ID@ by {
        selection_is_exact(entries, f, c);
        if c.id@ != SEED_ID@ {
            assert(pool.contains(c));
        }
    }
}

/// Where there is no valid candidate, every draw gives the seed, and there is no
/// pair.
pub proof fn seed_alone_gives_no_pair(
    entries: Seq<Candidate>,
    seed_block: Seq<char>,
    agent: Seq<char>,
    draw: Draw,
)
    requires
        forall|c: Candidate| #[trigger] entries.contains(c) ==> !c.valid,
    ensures
        ({
            let seed = seed_as_parent(seed_block);
            let first = PairStateView::First;
            let rival = PairStateView::Rival(seed);
            let any = PairStateView::Any(seed);
            &&& drawn(selected(entries, pair_filter(first, agent)), seed_block, draw) == seed
            &&& pair_step(first, seed, seed_block) == PairStepView::Next(rival)
            &&& drawn(selected(entries, pair_filter(rival, agent)), seed_block, draw) == seed
            &&& pair_step(rival, seed, seed_block) == PairStepView::Next(any)
            &&& drawn(selected(entries, pair_filter(any, agent)), seed_block, draw) == seed
            &&& pair_step(any, seed, seed_block) == PairStepView::Done(None)
        }),
{
    let seed = seed_as_parent(seed_block);
    lemma_nothing_selected(entries, pair_filter(PairStateView::First, agent));
    lemma_nothing_selected(entries, pair_filter(PairStateView::Rival(seed), agent));
    lemma_nothing_selected(entries, pair_filter(PairStateView::Any(seed), agent));
}

proof fn lemma_nothing_selected(entries: Seq<Candidate>, f: FilterView)
    requires
        forall|c: Candidate| #[trigger] entries.contains(c) ==> !c.valid,
        f.valid_only,
    ensures
        selected(entries, f).len() == 0,
{
    let pool = selected(entries, f);
    if pool.len() > 0 {
        assert(pool.contains(pool[0]));
        selection_is_exact(entries, f, pool[0]);
    }
}

/// The memory of a run: the seed, every candidate and how many were refused.
#[derive(Debug)]
pub struct Archive {
    pub seed_block: String,
    pub entries: Vec<Candidate>,
    pub agents: Vec<String>,
    /// How many ids were given out.
    pub counter: usize,
    pub rejected_near_duplicates: usize,
    pub rejected_invalid_shape: usize,
}

/// The id that the `n`th candidate of a run gets.
pub open spec fn candidate_id(agent: Seq<char>, round: nat, n: nat) -> Seq<char> {
    agent + "-r"@ + decimal(round) + "-c"@ + zero_padded(n, 3)
}

/// Ids never collide, across agents and rounds.
pub proof fn ids_never_collide(
    agent: Seq<char>,
    round: nat,
    n: nat,
    other_agent: Seq<char>,
    other_round: nat,
    m: nat,
)
    requires
        candidate_id(agent, round, n) == candidate_id(other_agent, other_round, m),
    ensures
        n == m,
{
    reveal_strlit("-c");
    let x = candidate_id(agent, round, n);
    let d = zero_padded(n, 3);
    let e = zero_padded(m, 3);
    lemma_zero_padded(n, 3);
    lemma_zero_padded(m, 3);
    let i = x.len() - d.len();
    let j = x.len() - e.len();
    assert(x[i - 1] == 'c');
    assert(x[j - 1] == 'c');
    if i < j {
        assert(x[j - 1] == d[j - 1 - i]);
        assert(is_digit(d[j - 1 - i]));
    } else if j < i {
        assert(x[i - 1] == e[i - 1 - j]);
        assert(is_digit(e[i - 1 - j]));
    }
    assert(d =~= x.skip(i));
    assert(e =~= x.skip(j));
}

/// The number in an id: what stands behind the last `-c`, where that is a number
/// that can be counted to.
pub open spec fn id_number(id: Seq<char>) -> Option<nat> {
    match rfind_text(id, "-c"@) {
        Some(i) => parsed(id.skip(i + "-c"@.len()), usize::MAX as nat),
        None => None,
    }
}

/// The greatest number in the ids of some candidates; zero where there is none.
pub open spec fn greatest_number(entries: Seq<Candidate>) -> nat
    decreases entries.len(),
{
    if entries.len() == 0 {
        0
    } else {
        let rest = greatest_number(entries.drop_last());
        match id_number(entries.last().id@) {
            Some(n) => if n > rest {
                n
            } else {
                rest
            },
            None => rest,
        }
    }
}

/// How many ids count as given out where these candidates are archived already:
/// as many as there are candidates, and as many as the greatest number in an id
/// says. Not every id that was given out need be archived.
pub open spec fn counter_for(entries: Seq<Candidate>) -> nat {
    if greatest_number(entries) > entries.len() {
        greatest_number(entries)
    } else {
        entries.len()
    }
}

/// Whether no candidate has an id with a number beyond `counter`.
pub open spec fn ids_counted(entries: Seq<Candidate>, counter: nat) -> bool {
    forall|i: int|
        0 <= i < entries.len() ==> (id_number((#[trigger] entries[i]).id@) matches Some(n) ==> n
            <= counter)
}

/// The number can be read back out of an id that was given out.
pub proof fn id_number_reads_back(agent: Seq<char>, round: nat, n: nat)
    requires
        n <= usize::MAX,
    ensures
        id_number(candidate_id(agent, round, n)) == Some(n),
{
    reveal_strlit("-c");
    let x = candidate_id(agent, round, n);
    let d = zero_padded(n, 3);
    lemma_zero_padded(n, 3);
    let i = x.len() - d.len() - 2;
    assert(x.subrange(i, i + 2) =~= "-c"@);
    assert(occurs_at(x, "-c"@, i));
    lemma_rfind_to(x, "-c"@, x.len() - 2);
    let k = rfind_text(x, "-c"@)->0;
    if k > i {
        assert(x.subrange(k, k + 2)[0] == x[k]);
        if k == i + 1 {
            assert(x[k] == 'c');
        } else {
            assert(x[k] == d[k - i - 2]);
            assert(is_digit(d[k - i - 2]));
        }
    }
    assert(x.skip(i + 2) =~= d);
    assert(is_digit(d[0]));
}

proof fn lemma_greatest_number(entries: Seq<Candidate>)
    ensures
        ids_counted(entries, greatest_number(entries)),
    decreases entries.len(),
{
    if entries.len() > 0 {
        let rest = entries.drop_last();
        lemma_greatest_number(rest);
        assert forall|i: int| 0 <= i < entries.len() implies (id_number(
            (#[trigger] entries[i]).id@,
        ) matches Some(n) ==> n <= greatest_number(entries)) by {
            if i < rest.len() {
                assert(rest[i] == entries[i]);
            }
        }
    }
}

/// As long as no candidate has an id beyond the counter, the next id is new:
/// no candidate has it, and none that was given out before is it. And no
/// candidate has an id beyond the counter then.
pub proof fn next_id_is_new(
    entries: Seq<Candidate>,
    counter: nat,
    agent: Seq<char>,
    round: nat,
)
    requires
        counter < usize::MAX,
        ids_counted(entries, counter),
    ensures
        forall|i: int|
            0 <= i < entries.len() ==> (#[trigger] entries[i]).id@ != candidate_id(
                agent,
                round,
                counter + 1,
            ),
        forall|a: Seq<char>, r: nat, n: nat|
            n <= counter ==> #[trigger] candidate_id(a, r, n) != candidate_id(
                agent,
                round,
                counter + 1,
            ),
        ids_counted(entries, counter + 1),
{
    id_number_reads_back(agent, round, counter + 1);
    assert forall|a: Seq<char>, r: nat, n: nat| n <= counter implies #[trigger] candidate_id(
        a,
        r,
        n,
    ) != candidate_id(agent, round, counter + 1) by {
        id_number_reads_back(a, r, n);
    }
}

/// An archive that is opened knows how far its ids go, whatever gaps there are
/// between them: the id that it gives out next is new.
pub proof fn reopened_archive_gives_new_ids(
    entries: Seq<Candidate>,
    agent: Seq<char>,
    round: nat,
)
    requires
        counter_for(entries) < usize::MAX,
    ensures
        ids_counted(entries, counter_for(entries)),
        forall|i: int|
            0 <= i < entries.len() ==> (#[trigger] entries[i]).id@ != candidate_id(
                agent,
                round,
                counter_for(entries) + 1,
            ),
{
    lemma_greatest_number(entries);
    next_id_is_new(entries, counter_for(entries), agent, round);
}

/// The ids in an archive stay unique, in whatever order candidates come in, and
/// though some never do: each has an id that was given out since the archive was
/// opened, and no two have the same.
pub proof fn ids_stay_unique(
    entries: Seq<Candidate>,
    counter: nat,
    later: Seq<Candidate>,
    agents: Seq<Seq<char>>,
    rounds: Seq<nat>,
    numbers: Seq<nat>,
)
    requires
        ids_unique(entries),
        ids_counted(entries, counter),
        agents.len() == later.len(),
        rounds.len() == later.len(),
        numbers.len() == later.len(),
        numbers.no_duplicates(),
        forall|j: int|
            0 <= j < later.len() ==> {
                &&& counter < #[trigger] numbers[j] <= usize::MAX
                &&& later[j].id@ == candidate_id(agents[j], rounds[j], numbers[j])
            },
    ensures
        ids_unique(entries + later),
{
    let all = entries + later;
    let n = entries.len() as int;
    assert forall|i: int, j: int|
        #![trigger all[i], all[j]]
        0 <= i < all.len() && 0 <= j < all.len() && all[i].id@ == all[j].id@ implies i == j by {
        if i >= n {
            assert(counter < numbers[i - n] <= usize::MAX);
            id_number_reads_back(agents[i - n], rounds[i - n], numbers[i - n]);
        } else {
            assert(all[i] == entries[i]);
        }
        if j >= n {
            assert(counter < numbers[j - n] <= usize::MAX);
            id_number_reads_back(agents[j - n], rounds[j - n], numbers[j - n]);
        } else {
            assert(all[j] == entries[j]);
        }
    }
}

/// Reads the number in an id.
fn read_id_number(id: &str) -> (r: Option<usize>)
    ensures
        match r {
            Some(n) => id_number(id@) == Some(n as nat),
            None => id_number(id@) is None,
        },
{
    match rfind(id, "-c") {
        Some(i) => {
            proof {
                lemma_rfind_to(id@, "-c"@, id@.len() - "-c"@.len());
            }
            let end = id.unicode_len();
            let digits = id.substring_char(i + "-c".unicode_len(), end);
            assert(digits@ =~= id@.skip(i + "-c"@.len()));
            parse_usize(digits)
        },
        None => None,
    }
}

/// The best candidates of the rivals of `agent`, for those that have one, in
/// the order of the agents.
pub open spec fn rivals_best(
    entries: Seq<Candidate>,
    agents: Seq<Seq<char>>,
    agent: Seq<char>,
) -> Seq<Candidate>
    decreases agents.len(),
{
    if agents.len() == 0 {
        Seq::empty()
    } else {
        let rest = rivals_best(entries, agents.drop_last(), agent);
        let best = best_of(selected(entries, FilterView::valid_of_agent(Some(agents.last()))));
        if agents.last() == agent {
            rest
        } else {
            match best {
                Some(c) => rest.push(c),
                None => rest,
            }
        }
    }
}

/// The first candidate with this id, from position `i` on.
pub open spec fn with_id(entries: Seq<Candidate>, id: Seq<char>, i: int) -> Option<Candidate>
    decreases entries.len() - i,
{
    if i < 0 || i >= entries.len() {
        None
    } else if entries[i].id@ == id {
        Some(entries[i])
    } else {
        with_id(entries, id, i + 1)
    }
}

/// The candidate that a row of the standings names as an agent's best, unless
/// the agent is `me`.
pub open spec fn rival_in(entries: Seq<Candidate>, row: StandingView, me: Seq<char>) -> Option<
    Candidate,
> {
    match row.best_id {
        Some(id) => if row.agent == me {
            None
        } else {
            with_id(entries, id, 0)
        },
        None => None,
    }
}

/// The best of the candidates that the standings name as the best of the rivals
/// of `me`; among equal scores the one that is named last.
pub open spec fn best_rival_of(
    entries: Seq<Candidate>,
    rows: Seq<StandingView>,
    me: Seq<char>,
) -> Option<Candidate>
    decreases rows.len(),
{
    if rows.len() == 0 {
        None
    } else {
        let before = best_rival_of(entries, rows.drop_last(), me);
        match (before, rival_in(entries, rows.last(), me)) {
            (Some(b), Some(c)) => if c.score.key >= b.score.key {
                Some(c)
            } else {
                Some(b)
            },
            (None, Some(c)) => Some(c),
            (b, None) => b,
        }
    }
}

/// Whether no two candidates have the same id.
pub open spec fn ids_unique(entries: Seq<Candidate>) -> bool {
    forall|i: int, j: int|
        #![trigger entries[i], entries[j]]
        0 <= i < entries.len() && 0 <= j < entries.len() && entries[i].id@ == entries[j].id@
            ==> i == j
}

proof fn lemma_with_id(entries: Seq<Candidate>, k: int, i: int)
    requires
        ids_unique(entries),
        0 <= i <= k < entries.len(),
    ensures
        with_id(entries, entries[k].id@, i) == Some(entries[k]),
    decreases k - i,
{
    if i < k {
        assert(entries[i].id@ != entries[k].id@);
        lemma_with_id(entries, k, i + 1);
    }
}

proof fn lemma_named_best(entries: Seq<Candidate>, agent: Seq<char>)
    requires
        ids_unique(entries),
    ensures
        standing_of(entries, agent).best_id matches Some(id) ==> {
            &&& with_id(entries, id, 0) matches Some(c)
            &&& c.agent@ == agent
            &&& c.valid
            &&& c.score == standing_of(entries, agent).best_score
        },
{
    let f = FilterView::valid_of_agent(Some(agent));
    let pool = selected(entries, f);
    best_is_first_maximum(pool);
    if let Some(c) = best_of(pool) {
        assert(pool.contains(c));
        selection_is_exact(entries, f, c);
        let k = choose|k: int| 0 <= k < entries.len() && entries[k] == c;
        lemma_with_id(entries, k, 0);
    }
}

/// The best rival is a valid candidate of another agent, and no other agent has
/// a better score; and there is none only where no other agent has a valid
/// candidate.
pub proof fn best_rival_is_best_of_others(
    entries: Seq<Candidate>,
    agents: Seq<Seq<char>>,
    me: Seq<char>,
)
    requires
        ids_unique(entries),
    ensures
        ({
            let rows = standings_of(entries, agents);
            match best_rival_of(entries, rows, me) {
                Some(c) => {
                    &&& c.valid
                    &&& c.agent@ != me
                    &&& forall|i: int|
                        0 <= i < rows.len() && (#[trigger] rows[i]).agent != me
                            && rows[i].best_id is Some ==> rows[i].best_score.key <= c.score.key
                },
                None => forall|i: int|
                    0 <= i < rows.len() && (#[trigger] rows[i]).agent != me
                        ==> rows[i].best_id is None,
            }
        }),
{
    let rows = standings_of(entries, agents);
    standings_rank_best_first(entries, agents);
    lemma_best_rival(entries, rows, agents, me, rows.len() as int);
    assert(rows.take(rows.len() as int) =~= rows);
}

proof fn lemma_best_rival(
    entries: Seq<Candidate>,
    rows: Seq<StandingView>,
    agents: Seq<Seq<char>>,
    me: Seq<char>,
    n: int,
)
    requires
        ids_unique(entries),
        0 <= n <= rows.len(),
        rows.len() == agents.len(),
        forall|i: int|
            0 <= i < rows.len() ==> #[trigger] rows[i] == standing_of(entries, rows[i].agent).at(
                (i + 1) as nat,
                agents.len(),
            ),
    ensures
        match best_rival_of(entries, rows.take(n), me) {
            Some(c) => {
                &&& c.valid
                &&& c.agent@ != me
                &&& forall|i: int|
                    0 <= i < n && (#[trigger] rows[i]).agent != me && rows[i].best_id is Some
                        ==> rows[i].best_score.key <= c.score.key
            },
            None => forall|i: int|
                0 <= i < n && (#[trigger] rows[i]).agent != me ==> rows[i].best_id is None,
        },
    decreases n,
{
    if n > 0 {
        lemma_best_rival(entries, rows, agents, me, n - 1);
        let row = rows[n - 1];
        assert(rows.take(n).drop_last() =~= rows.take(n - 1));
        assert(rows.take(n).last() == row);
        assert(row == standing_of(entries, row.agent).at(n as nat, agents.len()));
        lemma_named_best(entries, row.agent);
    }
}

impl Archive {
    /// Whether no candidate has an id with a number beyond the counter.
    pub open spec fn counted(self) -> bool {
        ids_counted(self.entries@, self.counter as nat)
    }

    /// The archive of a run with these candidates. Its ids go on behind the
    /// greatest that a candidate has.
    pub fn open(seed_block: &str, entries: Vec<Candidate>, agents: Vec<String>) -> (r: Archive)
        ensures
            r.seed_block@ == seed_block@,
            r.entries == entries,
            r.agents == agents,
            r.counter == counter_for(entries@),
            r.counter >= entries@.len(),
            r.counted(),
            forall|i: int, a: Seq<char>, k: nat, n: nat|
                #![trigger entries@[i], candidate_id(a, k, n)]
                0 <= i < entries@.len() && n <= usize::MAX && entries@[i].id@ == candidate_id(
                    a,
                    k,
                    n,
                ) ==> n <= r.counter,
            r.rejected_near_duplicates == 0,
            r.rejected_invalid_shape == 0,
    {
        let ghost all = entries@;
        let mut counter: usize = entries.len();
        let mut i: usize = 0;
        while i < entries.len()
            invariant
                all == entries@,
                i <= all.len(),
                counter == if greatest_number(all.take(i as int)) > all.len() {
                    greatest_number(all.take(i as int))
                } else {
                    all.len()
                },
            decreases entries.len() - i,
        {
            assert(all.take(i + 1).drop_last() =~= all.take(i as int));
            assert(all.take(i + 1).last() == all[i as int]);
            if let Some(n) = read_id_number(entries[i].id.as_str()) {
                if n > counter {
                    counter = n;
                }
            }
            i += 1;
        }
        proof {
            assert(all.take(all.len() as int) =~= all);
            lemma_greatest_number(all);
            assert forall|i: int, a: Seq<char>, k: nat, n: nat|
                #![trigger all[i], candidate_id(a, k, n)]
                0 <= i < all.len() && n <= usize::MAX && all[i].id@ == candidate_id(
                    a,
                    k,
                    n,
                ) implies n <= counter by {
                id_number_reads_back(a, k, n);
            }
        }
        Archive {
            seed_block: seed_block.to_owned(),
            entries,
            agents,
            counter,
            rejected_near_duplicates: 0,
            rejected_invalid_shape: 0,
        }
    }

    /// How many candidates there are.
    pub fn len(&self) -> (r: usize)
        ensures
            r == self.entries@.len(),
    {
        self.entries.len()
    }

    /// The candidates, in the order of their arrival.
    pub fn entries(&self) -> (r: &Vec<Candidate>)
        ensures
            *r == self.entries,
    {
        &self.entries
    }

    /// The code that everything started from.
    pub fn seed_block(&self) -> (r: &str)
        ensures
            r@ == self.seed_block@,
    {
        self.seed_block.as_str()
    }

    /// Gives out the next id.
    pub fn next_id(&mut self, agent: &str, round: usize) -> (r: String)
        requires
            old(self).counter < usize::MAX,
        ensures
            final(self).counter == old(self).counter + 1,
            r@ == candidate_id(agent@, round as nat, final(self).counter as nat),
            forall|a: Seq<char>, k: nat, n: nat|
                n <= old(self).counter ==> #[trigger] candidate_id(a, k, n) != r@,
            old(self).counted() ==> final(self).counted(),
            old(self).counted() ==> forall|i: int|
                0 <= i < final(self).entries@.len() ==> (#[trigger] final(self).entries@[i]).id@
                    != r@,
            final(self).seed_block == old(self).seed_block,
            final(self).entries == old(self).entries,
            final(self).agents == old(self).agents,
            final(self).rejected_near_duplicates == old(self).rejected_near_duplicates,
            final(self).rejected_invalid_shape == old(self).rejected_invalid_shape,
    {
        proof {
            next_id_is_new(Seq::empty(), self.counter as nat, agent@, round as nat);
            if self.counted() {
                next_id_is_new(self.entries@, self.counter as nat, agent@, round as nat);
            }
        }
        self.counter = self.counter + 1;
        let mut out = agent.to_owned();
        out.append("-r");
        out.append(write_usize(round).as_str());
        out.append("-c");
        out.append(write_padded(self.counter, 3).as_str());
        out
    }

    /// Adds a candidate.
    pub fn insert(&mut self, candidate: Candidate)
        ensures
            final(self).entries@ == old(self).entries@.push(candidate),
            final(self).seed_block == old(self).seed_block,
            final(self).agents == old(self).agents,
            final(self).counter == old(self).counter,
            old(self).counted() && (id_number(candidate.id@) matches Some(n) ==> n <= old(
                self,
            ).counter) ==> final(self).counted(),
            final(self).rejected_near_duplicates == old(self).rejected_near_duplicates,
            final(self).rejected_invalid_shape == old(self).rejected_invalid_shape,
    {
        self.entries.push(candidate);
    }

    /// The candidates that are asked for, in the order of their arrival.
    pub fn select<'a>(&'a self, f: &Filter) -> (r: Vec<&'a Candidate>)
        ensures
            owned(r@) == selected(self.entries@, f@),
    {
        let mut out: Vec<&'a Candidate> = Vec::new();
        let ghost all = self.entries@;
        let mut i: usize = 0;
        assert(owned(out@) =~= selected(all.take(0), f@));
        while i < self.entries.len()
            invariant
                all == self.entries@,
                i <= all.len(),
                owned(out@) == selected(all.take(i as int), f@),
            decreases self.entries.len() - i,
        {
            let ghost before = owned(out@);
            assert(all.take(i + 1).drop_last() =~= all.take(i as int));
            assert(all.take(i + 1).last() == all[i as int]);
            if f.test(&self.entries[i]) {
                out.push(&self.entries[i]);
                assert(owned(out@) =~= before.push(all[i as int]));
            }
            i += 1;
        }
        assert(all.take(all.len() as int) =~= all);
        out
    }

    /// How many candidates are valid.
    pub fn valid_count(&self) -> (r: usize)
        ensures
            r == selected(self.entries@, FilterView::valid_of_agent(None)).len(),
    {
        self.select(
            &Filter { valid_only: true, agent: None, not_agent: None, not_id: None },
        ).len()
    }

    /// The best valid candidate.
    pub fn best<'a>(&'a self) -> (r: Option<&'a Candidate>)
        ensures
            owned_option(r) == best_of(selected(self.entries@, FilterView::valid_of_agent(None))),
    {
        best_among(
            &self.select(&Filter { valid_only: true, agent: None, not_agent: None, not_id: None }),
        )
    }

    /// The best valid candidate of an agent.
    pub fn best_for_agent<'a>(&'a self, agent: &str) -> (r: Option<&'a Candidate>)
        ensures
            owned_option(r) == best_of(
                selected(self.entries@, FilterView::valid_of_agent(Some(agent@))),
            ),
    {
        best_among(
            &self.select(
                &Filter { valid_only: true, agent: Some(agent), not_agent: None, not_id: None },
            ),
        )
    }

    /// The latest candidate of an agent.
    pub fn latest_for_agent<'a>(&'a self, agent: &str) -> (r: Option<&'a Candidate>)
        ensures
            owned_option(r) == latest_of(
                selected(self.entries@, FilterView::of_agent(Some(agent@))),
            ),
    {
        let pool = self.select(
            &Filter { valid_only: false, agent: Some(agent), not_agent: None, not_id: None },
        );
        assert(owned(pool@).len() == pool@.len());
        if pool.len() == 0 {
            None
        } else {
            Some(pool[pool.len() - 1])
        }
    }

    /// The best `n` candidates of an agent, or of all; at least one is given
    /// where there is one.
    pub fn top<'a>(&'a self, n: usize, agent: Option<&str>) -> (r: Vec<&'a Candidate>)
        ensures
            owned(r@) == first_of(
                ranked(selected(self.entries@, FilterView::of_agent(option_str_view(agent)))),
                if n == 0 {
                    1
                } else {
                    n as nat
                },
            ),
    {
        let pool = self.select(
            &Filter { valid_only: false, agent, not_agent: None, not_id: None },
        );
        let all = rank_all(&pool);
        let limit: usize = if n == 0 {
            1
        } else {
            n
        };
        let mut out: Vec<&'a Candidate> = Vec::new();
        let ghost whole = owned(all@);
        let mut i: usize = 0;
        assert(owned(out@) =~= whole.take(0));
        while i < all.len() && i < limit
            invariant
                whole == owned(all@),
                i <= all@.len(),
                i <= limit,
                owned(out@) == whole.take(i as int),
            decreases all.len() - i,
        {
            let ghost before = owned(out@);
            out.push(all[i]);
            assert(owned(out@) =~= before.push(whole[i as int]));
            assert(whole.take(i + 1) =~= before.push(whole[i as int]));
            i += 1;
        }
        assert(whole.len() < limit ==> whole.take(i as int) =~= whole);
        out
    }

    /// The standing of an agent that has no position yet.
    fn unplaced_standing(&self, agent: &str) -> (r: Standing)
        ensures
            r@ == standing_of(self.entries@, agent@),
    {
        let valid = self.select(
            &Filter { valid_only: true, agent: Some(agent), not_agent: None, not_id: None },
        );
        let any = self.select(
            &Filter { valid_only: false, agent: Some(agent), not_agent: None, not_id: None },
        );
        assert(owned(valid@).len() == valid@.len());
        assert(owned(any@).len() == any@.len());
        let best = best_among(&valid);
        let best_any = best_among(&any);
        let best_score = match best {
            Some(c) => c.score,
            None => Measure::zero(),
        };
        let best_performance = match best {
            Some(c) => c.performance,
            None => match best_any {
                Some(c) => c.performance,
                None => Measure::zero(),
            },
        };
        let best_id = match best {
            Some(c) => Some(c.id.clone()),
            None => None,
        };
        Standing {
            agent: agent.to_owned(),
            rank_position: 0,
            reward: 0,
            best_score,
            best_performance,
            best_id,
            candidates: any.len(),
            valid_candidates: valid.len(),
        }
    }

    /// The standings of the agents, best first.
    pub fn standings(&self) -> (r: Vec<Standing>)
        ensures
            standing_views(r@) == standings_of(self.entries@, string_views(self.agents@)),
    {
        let ghost names = string_views(self.agents@);
        let ghost rows_view = unplaced(self.entries@, names);
        let mut keys: Vec<Rank> = Vec::new();
        let mut i: usize = 0;
        while i < self.agents.len()
            invariant
                names == string_views(self.agents@),
                rows_view == unplaced(self.entries@, names),
                i <= names.len(),
                names.len() == self.agents@.len(),
                keys@.len() == i,
                forall|k: int|
                    0 <= k < i ==> (#[trigger] keys@[k])@ == standing_ranks(rows_view)[k],
            decreases self.agents.len() - i,
        {
            let row = self.unplaced_standing(self.agents[i].as_str());
            assert(row@ == rows_view[i as int]);
            keys.push(row.rank());
            i += 1;
        }
        assert(rank_views(keys@) =~= standing_ranks(rows_view));
        let order = rank_keys(&keys);
        proof {
            ranking_lists_best_first(standing_ranks(rows_view));
        }
        let ghost seq_order = ranking(standing_ranks(rows_view));
        let n = order.len();
        assert(seq_order.len() == n);
        let mut out: Vec<Standing> = Vec::new();
        let mut j: usize = 0;
        while j < n
            invariant
                names == string_views(self.agents@),
                rows_view == unplaced(self.entries@, names),
                seq_order == ranking(standing_ranks(rows_view)),
                seq_order == positions(order@),
                seq_order.len() == names.len(),
                names.len() == self.agents@.len(),
                n == order@.len(),
                n == seq_order.len(),
                forall|k: int| 0 <= k < n ==> 0 <= #[trigger] seq_order[k] < names.len(),
                j <= n,
                out@.len() == j,
                forall|k: int|
                    0 <= k < j ==> (#[trigger] out@[k])@ == standings_of(
                        self.entries@,
                        names,
                    )[k],
            decreases n - j,
        {
            assert(0 <= seq_order[j as int] < names.len());
            assert(order@[j as int] == seq_order[j as int]);
            let mut row = self.unplaced_standing(self.agents[order[j]].as_str());
            assert(row@ == rows_view[seq_order[j as int]]);
            row.rank_position = j + 1;
            row.reward = reward_for_position(j + 1, n);
            assert(row@ == standings_of(self.entries@, names)[j as int]);
            out.push(row);
            j += 1;
        }
        assert(standing_views(out@) =~= standings_of(self.entries@, names));
        out
    }

    /// The seed as a parent.
    pub fn seed_parent(&self) -> (r: Parent)
        ensures
            r@ == seed_as_parent(self.seed_block@),
    {
        let mut label = "seed (original ".to_owned();
        label.append("implementation)");
        Parent {
            id: SEED_ID.to_owned(),
            label,
            block: self.seed_block.clone(),
            metrics: ParentMetrics::Seed,
        }
    }

    /// What a parent is drawn from: the valid candidates but those of an agent
    /// and the one with an id.
    pub fn parent_pool<'a>(
        &'a self,
        only_agents_other_than: Option<&str>,
        exclude_id: Option<&str>,
    ) -> (r: Vec<&'a Candidate>)
        ensures
            owned(r@) == selected(
                self.entries@,
                FilterView::parents(
                    option_str_view(only_agents_other_than),
                    option_str_view(exclude_id),
                ),
            ),
    {
        self.select(
            &Filter {
                valid_only: true,
                agent: None,
                not_agent: only_agents_other_than,
                not_id: exclude_id,
            },
        )
    }

    /// The parent that a draw from a pool gives.
    pub fn sample_parent(&self, pool: &Vec<&Candidate>, draw: Draw) -> (r: Parent)
        ensures
            r@ == drawn(owned(pool@), self.seed_block@, draw),
            forall|k: usize|
                draw == Draw::Pick(k) && k < pool@.len() ==> r.id@ == (
                #[trigger] pool@[k as int]).id@ && r.block@ == pool@[k as int].block@,
            pool@.len() == 0 || draw is Seed ==> r.id@ == "seed"@ && r.block@ == self.seed_block@,
    {
        assert(owned(pool@).len() == pool@.len());
        if pool.len() == 0 {
            return self.seed_parent();
        }
        match draw {
            Draw::Seed => self.seed_parent(),
            Draw::Pick(k) => {
                if k < pool.len() {
                    to_parent(pool[k])
                } else {
                    to_parent(pool[pool.len() - 1])
                }
            },
        }
    }

    /// What the next draw in the choice of two parents for `agent` is from.
    pub fn pair_pool<'a>(&'a self, state: &PairState, agent: &str) -> (r: Vec<&'a Candidate>)
        ensures
            owned(r@) == selected(self.entries@, pair_filter(state@, agent@)),
    {
        match state {
            PairState::First => self.parent_pool(None, None),
            PairState::Rival(a) => self.parent_pool(Some(agent), Some(a.id.as_str())),
            PairState::Any(a) => self.parent_pool(None, Some(a.id.as_str())),
        }
    }

    /// What drawing `p` leads to in the choice of two distinct parents.
    pub fn sample_pair(&self, state: PairState, p: Parent) -> (r: PairStep)
        ensures
            r@ == pair_step(state@, p@, self.seed_block@),
    {
        match state {
            PairState::First => PairStep::Next(PairState::Rival(p)),
            PairState::Rival(a) => {
                if same(p.id.as_str(), a.id.as_str()) {
                    PairStep::Next(PairState::Any(a))
                } else {
                    PairStep::Done(Some((a, p)))
                }
            },
            PairState::Any(a) => {
                if !same(p.id.as_str(), a.id.as_str()) {
                    PairStep::Done(Some((a, p)))
                } else if same(a.id.as_str(), SEED_ID) {
                    PairStep::Done(None)
                } else {
                    let b = self.seed_parent();
                    PairStep::Done(Some((a, b)))
                }
            },
        }
    }

    /// The best of the candidates that the standings name as the best of the
    /// rivals of `me`.
    pub fn best_rival<'a>(&'a self, rows: &Vec<Standing>, me: &str) -> (r: Option<&'a Candidate>)
        ensures
            owned_option(r) == best_rival_of(self.entries@, standing_views(rows@), me@),
    {
        let ghost all = standing_views(rows@);
        let mut best: Option<&'a Candidate> = None;
        let mut i: usize = 0;
        while i < rows.len()
            invariant
                all == standing_views(rows@),
                i <= rows@.len(),
                owned_option(best) == best_rival_of(self.entries@, all.take(i as int), me@),
            decreases rows.len() - i,
        {
            assert(all.take(i + 1).drop_last() =~= all.take(i as int));
            assert(all.take(i + 1).last() == rows@[i as int]@);
            if !same(rows[i].agent.as_str(), me) {
                if let Some(id) = &rows[i].best_id {
                    if let Some(c) = self.find(id.as_str()) {
                        match best {
                            Some(b) => {
                                if c.score.at_least(b.score) {
                                    best = Some(c);
                                }
                            },
                            None => {
                                best = Some(c);
                            },
                        }
                    }
                }
            }
            i += 1;
        }
        assert(all.take(all.len() as int) =~= all);
        best
    }

    /// The first candidate with this id.
    pub fn find<'a>(&'a self, id: &str) -> (r: Option<&'a Candidate>)
        ensures
            owned_option(r) == with_id(self.entries@, id@, 0),
    {
        let mut i: usize = 0;
        while i < self.entries.len()
            invariant
                i <= self.entries@.len(),
                with_id(self.entries@, id@, 0) == with_id(self.entries@, id@, i as int),
            decreases self.entries.len() - i,
        {
            if same(self.entries[i].id.as_str(), id) {
                return Some(&self.entries[i]);
            }
            i += 1;
        }
        None
    }

    /// The best candidates of the rivals of `agent`, for those that have one.
    pub fn rivals<'a>(&'a self, agent: &str) -> (r: Vec<&'a Candidate>)
        ensures
            owned(r@) == rivals_best(self.entries@, string_views(self.agents@), agent@),
    {
        let ghost names = string_views(self.agents@);
        let mut out: Vec<&'a Candidate> = Vec::new();
        let mut i: usize = 0;
        assert(owned(out@) =~= rivals_best(self.entries@, names.take(0), agent@));
        while i < self.agents.len()
            invariant
                names == string_views(self.agents@),
                i <= self.agents@.len(),
                owned(out@) == rivals_best(self.entries@, names.take(i as int), agent@),
            decreases self.agents.len() - i,
        {
            assert(names.take(i + 1).drop_last() =~= names.take(i as int));
            assert(names.take(i + 1).last() == self.agents@[i as int]@);
            let ghost before = owned(out@);
            if !same(self.agents[i].as_str(), agent) {
                if let Some(c) = self.best_for_agent(self.agents[i].as_str()) {
                    out.push(c);
                    assert(owned(out@) =~= before.push(*c));
                }
            }
            i += 1;
        }
        assert(names.take(names.len() as int) =~= names);
        out
    }
}

/// What the novelty of a block is measured against: the seed, the previous
/// candidate of its agent, and the best candidates of the rivals.
#[derive(Debug)]
pub struct NoveltyTerms<'a> {
    pub seed: &'a str,
    pub previous: Option<&'a Candidate>,
    pub rivals: Vec<&'a Candidate>,
}

impl Archive {
    /// What the novelty of a block by `agent` is measured against.
    pub fn novelty_similarities<'a>(&'a self, agent: &str) -> (r: NoveltyTerms<'a>)
        ensures
            r.seed@ == self.seed_block@,
            owned_option(r.previous) == latest_of(
                selected(self.entries@, FilterView::of_agent(Some(agent@))),
            ),
            owned(r.rivals@) == rivals_best(self.entries@, string_views(self.agents@), agent@),
    {
        NoveltyTerms {
            seed: self.seed_block.as_str(),
            previous: self.latest_for_agent(agent),
            rivals: self.rivals(agent),
        }
    }
}

impl Standing {
    /// What agents are ordered by.
    pub fn rank(&self) -> (r: Rank)
        ensures
            r@ == self@.rank_view(),
    {
        Rank {
            valid: self.best_id.is_some(),
            score: self.best_score,
            performance: self.best_performance,
            name: self.agent.clone(),
        }
    }
}

/// A candidate as a parent.
pub fn to_parent(c: &Candidate) -> (r: Parent)
    ensures
        r@ == candidate_as_parent(*c),
{
    let mut label = c.id.clone();
    label.append(" by ");
    label.append(c.agent.as_str());
    label.append(" (");
    label.append(c.operator.as_str());
    label.append(")");
    Parent {
        id: c.id.clone(),
        label,
        block: c.block.clone(),
        metrics: ParentMetrics::Measured {
            quality: c.result.quality,
            times: c.result.times(),
            performance: c.performance,
            novelty: c.novelty,
            score: c.score,
        },
    }
}

/// The best of some candidates, the first among equals.
fn best_among<'a>(pool: &Vec<&'a Candidate>) -> (r: Option<&'a Candidate>)
    ensures
        owned_option(r) == best_of(owned(pool@)),
{
    let ghost all = owned(pool@);
    let mut best: Option<&'a Candidate> = None;
    let mut i: usize = 0;
    while i < pool.len()
        invariant
            all == owned(pool@),
            i <= pool@.len(),
            owned_option(best) == best_of(all.take(i as int)),
        decreases pool.len() - i,
    {
        assert(all.take(i + 1).drop_last() =~= all.take(i as int));
        assert(all.take(i + 1).last() == *pool@[i as int]);
        match best {
            None => {
                best = Some(pool[i]);
            },
            Some(b) => {
                if pool[i].rank().before(&b.rank()) {
                    best = Some(pool[i]);
                }
            },
        }
        i += 1;
    }
    assert(all.take(all.len() as int) =~= all);
    best
}

/// Some candidates, best first; equals in the order of their arrival.
fn rank_all<'a>(pool: &Vec<&'a Candidate>) -> (r: Vec<&'a Candidate>)
    ensures
        owned(r@) == ranked(owned(pool@)),
{
    let ghost all = owned(pool@);
    let ghost ranks = candidate_ranks(all);
    let mut keys: Vec<Rank> = Vec::new();
    let mut i: usize = 0;
    while i < pool.len()
        invariant
            all == owned(pool@),
            ranks == candidate_ranks(all),
            i <= pool@.len(),
            keys@.len() == i,
            forall|k: int| 0 <= k < i ==> (#[trigger] keys@[k])@ == ranks[k],
        decreases pool.len() - i,
    {
        keys.push(pool[i].rank());
        i += 1;
    }
    assert(rank_views(keys@) =~= ranks);
    let order = rank_keys(&keys);
    let ghost seq_order = ranking(ranks);
    proof {
        ranking_lists_best_first(ranks);
    }
    let mut out: Vec<&'a Candidate> = Vec::new();
    let mut j: usize = 0;
    while j < order.len()
        invariant
            all == owned(pool@),
            seq_order == positions(order@),
            seq_order == ranking(candidate_ranks(all)),
            forall|k: int| 0 <= k < seq_order.len() ==> 0 <= #[trigger] seq_order[k] < all.len(),
            j <= order@.len(),
            out@.len() == j,
            forall|k: int| 0 <= k < j ==> *(#[trigger] out@[k]) == all[seq_order[k]],
        decreases order.len() - j,
    {
        assert(0 <= seq_order[j as int] < all.len());
        assert(order@[j as int] == seq_order[j as int]);
        out.push(pool[order[j]]);
        j += 1;
    }
    assert(owned(out@) =~= ranked(all));
    out
}

/// What a line of the record of a run comes to.
#[derive(Clone, Copy, Debug, PartialEq, Eq, Structural)]
pub enum LineKind {
    Blank,
    /// It is no candidate.
    Unreadable,
    Kept,
}

/// A line of the record of a run, and the candidate that it reads as, where it
/// does.
pub struct LineView {
    pub text: Seq<char>,
    pub read: Option<Candidate>,
}

impl LineView {
    /// What this line comes to.
    pub open spec fn kind(self) -> LineKind {
        if is_blank_text(self.text) {
            LineKind::Blank
        } else if self.read is None {
            LineKind::Unreadable
        } else {
            LineKind::Kept
        }
    }
}

/// The candidates in the record of a run, in order.
pub open spec fn kept_lines(lines: Seq<LineView>) -> Seq<Candidate>
    decreases lines.len(),
{
    if lines.len() == 0 {
        Seq::empty()
    } else {
        let rest = kept_lines(lines.drop_last());
        if lines.last().kind() == LineKind::Kept {
            rest.push(lines.last().read->0)
        } else {
            rest
        }
    }
}

/// Takes in a line of the record of a run, and the candidate that it reads as.
/// Blank and unreadable lines are passed over.
pub fn take_line(entries: &mut Vec<Candidate>, line: &str, read: Option<Candidate>) -> (r: LineKind)
    ensures
        r == (LineView { text: line@, read }).kind(),
        final(entries)@ == if r == LineKind::Kept {
            old(entries)@.push(read->0)
        } else {
            old(entries)@
        },
        forall|seen: Seq<LineView>|
            old(entries)@ == #[trigger] kept_lines(seen) ==> final(entries)@ == kept_lines(
                seen.push(LineView { text: line@, read }),
            ),
{
    proof {
        assert forall|seen: Seq<LineView>, l: LineView| #[trigger]
            seen.push(l).drop_last() == seen by {
            assert(seen.push(l).drop_last() =~= seen);
        }
    }
    if is_blank(line) {
        return LineKind::Blank;
    }
    match read {
        Some(c) => {
            entries.push(c);
            LineKind::Kept
        },
        None => LineKind::Unreadable,
    }
}

/// The candidates of two records one behind the other are those of the first and
/// then those of the second.
pub proof fn kept_lines_join(first: Seq<LineView>, second: Seq<LineView>)
    ensures
        kept_lines(first + second) == kept_lines(first) + kept_lines(second),
    decreases second.len(),
{
    if second.len() == 0 {
        assert(first + second =~= first);
        assert(kept_lines(first) + kept_lines(second) =~= kept_lines(first));
    } else {
        kept_lines_join(first, second.drop_last());
        assert((first + second).drop_last() =~= first + second.drop_last());
        assert((first + second).last() == second.last());
        assert(kept_lines(first + second) =~= kept_lines(first) + kept_lines(second));
    }
}

/// Lines that are blank or no candidate may stand anywhere in a record: they are
/// passed over, and all candidates are found, in order.
pub proof fn other_lines_are_skipped(
    first: Seq<LineView>,
    skipped: Seq<LineView>,
    second: Seq<LineView>,
)
    requires
        forall|i: int|
            0 <= i < skipped.len() ==> (#[trigger] skipped[i]).kind() != LineKind::Kept,
    ensures
        kept_lines(first + skipped + second) == kept_lines(first + second),
{
    lemma_nothing_kept(skipped);
    kept_lines_join(first + skipped, second);
    kept_lines_join(first, skipped);
    kept_lines_join(first, second);
    assert(kept_lines(first) + kept_lines(skipped) =~= kept_lines(first));
}

proof fn lemma_nothing_kept(lines: Seq<LineView>)
    requires
        forall|i: int| 0 <= i < lines.len() ==> (#[trigger] lines[i]).kind() != LineKind::Kept,
    ensures
        kept_lines(lines).len() == 0,
    decreases lines.len(),
{
    if lines.len() > 0 {
        assert forall|i: int| 0 <= i < lines.drop_last().len() implies (
        #[trigger] lines.drop_last()[i]).kind() != LineKind::Kept by {
            assert(lines.drop_last()[i] == lines[i]);
        }
        lemma_nothing_kept(lines.drop_last());
        assert(lines[lines.len() - 1].kind() != LineKind::Kept);
    }
}

/// A record that has a line for every candidate, each of which reads as its
/// candidate, holds these candidates, in order.
pub proof fn records_hold_what_was_inserted(lines: Seq<LineView>, entries: Seq<Candidate>)
    requires
        lines.len() == entries.len(),
        forall|i: int|
            0 <= i < lines.len() ==> !is_blank_text((#[trigger] lines[i]).text) && lines[i].read
                == Some(entries[i]),
    ensures
        kept_lines(lines) == entries,
    decreases lines.len(),
{
    if lines.len() > 0 {
        let rest = lines.drop_last();
        assert forall|i: int| 0 <= i < rest.len() implies !is_blank_text(
            (#[trigger] rest[i]).text,
        ) && rest[i].read == Some(entries.drop_last()[i]) by {
            assert(rest[i] == lines[i]);
        }
        records_hold_what_was_inserted(rest, entries.drop_last());
        assert(lines[lines.len() - 1].kind() == LineKind::Kept);
        assert(kept_lines(lines) =~= entries);
    } else {
        assert(kept_lines(lines) =~= entries);
    }
}

/// Calls `SystemTime::elapsed` on the Unix epoch and converts the time that it
/// gives to whole seconds; nothing where the clock stands before the epoch.
/// Nothing is claimed of the reading.
#[verifier::external_body]
fn clock_seconds() -> (r: Option<u64>) {
    UNIX_EPOCH.elapsed().ok().map(|d| d.as_secs())
}

/// The time that a reading of the clock stands for.
pub fn timestamp(reading: Option<u64>) -> (r: u64)
    ensures
        r == match reading {
            Some(t) => t,
            None => 0,
        },
{
    match reading {
        Some(t) => t,
        None => 0,
    }
}

/// The seconds since the Unix epoch, by the clock of the machine; zero where it
/// stands before the epoch.
pub fn now_secs() -> (r: u64) {
    timestamp(clock_seconds())
}

/// Selecting keeps the candidates that are asked for, each as often as it is
/// there and in the order of arrival: all of an agent's, its valid ones, and for
/// parents the valid ones but those of an agent and the one with an id.
pub proof fn selections_keep_what_is_asked_for(
    entries: Seq<Candidate>,
    agent: Seq<char>,
    id: Seq<char>,
)
    ensures
        selected(entries, FilterView::of_agent(None)) == entries,
        selected(entries, FilterView::of_agent(Some(agent))) == entries.filter(
            |c: Candidate| c.agent@ == agent,
        ),
        selected(entries, FilterView::valid_of_agent(None)) == entries.filter(
            |c: Candidate| c.valid,
        ),
        selected(entries, FilterView::valid_of_agent(Some(agent))) == entries.filter(
            |c: Candidate| c.valid && c.agent@ == agent,
        ),
        selected(entries, FilterView::parents(None, None)) == entries.filter(
            |c: Candidate| c.valid,
        ),
        selected(entries, FilterView::parents(None, Some(id))) == entries.filter(
            |c: Candidate| c.valid && c.id@ != id,
        ),
        selected(entries, FilterView::parents(Some(agent), Some(id))) == entries.filter(
            |c: Candidate| c.valid && c.agent@ != agent && c.id@ != id,
        ),
    decreases entries.len(),
{
    reveal(Seq::filter);
    if entries.len() > 0 {
        selections_keep_what_is_asked_for(entries.drop_last(), agent, id);
        assert(entries =~= entries.drop_last().push(entries.last()));
    } else {
        assert(entries =~= Seq::<Candidate>::empty());
    }
}

/// Whether a candidate is at least as good as another: valid where that one is,
/// and, where both are or neither is, of a greater score, or of the same score and
/// of no lesser performance.
pub open spec fn no_worse(a: Candidate, b: Candidate) -> bool {
    &&& b.valid ==> a.valid
    &&& a.valid == b.valid ==> a.score.key > b.score.key || (a.score.key == b.score.key
        && a.performance.key >= b.performance.key)
}

/// The best of some candidates is one of them and no worse than any; of equals
/// it is the one that came first.
pub proof fn best_is_no_worse_than_any(pool: Seq<Candidate>)
    ensures
        best_of(pool) is Some <==> pool.len() > 0,
        best_of(pool) matches Some(b) ==> exists|k: int|
            {
                &&& 0 <= k < pool.len()
                &&& #[trigger] pool[k] == b
                &&& forall|j: int| 0 <= j < pool.len() ==> no_worse(b, #[trigger] pool[j])
                &&& forall|j: int| 0 <= j < k ==> !no_worse(#[trigger] pool[j], b)
            },
{
    best_is_first_maximum(pool);
    if let Some(b) = best_of(pool) {
        let k = choose|k: int|
            {
                &&& 0 <= k < pool.len()
                &&& #[trigger] pool[k] == b
                &&& forall|j: int|
                    0 <= j < pool.len() ==> !listed_before(
                        (#[trigger] pool[j]).rank_view(),
                        b.rank_view(),
                    )
                &&& forall|j: int|
                    0 <= j < k ==> listed_before(b.rank_view(), (#[trigger] pool[j]).rank_view())
            };
        text_before_irreflexive(Seq::<char>::empty());
        assert forall|j: int| 0 <= j < pool.len() implies no_worse(b, #[trigger] pool[j]) by {}
        assert forall|j: int| 0 <= j < k implies !no_worse(#[trigger] pool[j], b) by {}
        assert(pool[k] == b);
    }
}

/// Ranking lists every candidate as often as it is there, and none before a
/// better one.
pub proof fn ranked_candidates_come_best_first(pool: Seq<Candidate>)
    ensures
        ranked(pool).to_multiset() == pool.to_multiset(),
        ranked(pool).len() == pool.len(),
        forall|i: int, j: int|
            #![trigger ranked(pool)[i], ranked(pool)[j]]
            0 <= i < j < pool.len() ==> no_worse(ranked(pool)[i], ranked(pool)[j]),
{
    lemma_ranked_members(pool);
    let keys = candidate_ranks(pool);
    let order = ranking(keys);
    ranking_lists_best_first(keys);
    text_before_irreflexive(Seq::<char>::empty());
    assert forall|i: int, j: int|
        #![trigger ranked(pool)[i], ranked(pool)[j]]
        0 <= i < j < pool.len() implies no_worse(ranked(pool)[i], ranked(pool)[j]) by {
        assert(order[i] != order[j] && ahead(keys, order[i], order[j]));
        assert(keys[order[i]] == pool[order[i]].rank_view());
        assert(keys[order[j]] == pool[order[j]].rank_view());
        crate::ranking::listed_before_asymmetric(keys[order[i]], keys[order[j]]);
    }
}

proof fn lemma_ranked_members(pool: Seq<Candidate>)
    ensures
        ranked(pool).to_multiset() == pool.to_multiset(),
    decreases pool.len(),
{
    let keys = candidate_ranks(pool);
    if pool.len() == 0 {
        assert(ranked(pool) =~= pool);
    } else {
        let before = pool.drop_last();
        let rest = ranking(keys.drop_last());
        let s = slot(rest, keys, keys.last()) as int;
        assert(keys.drop_last() =~= candidate_ranks(before));
        lemma_ranked_members(before);
        ranking_lists_best_first(keys.drop_last());
        lemma_slot(rest, keys, keys.last());
        assert forall|i: int| 0 <= i < rest.len() implies pool[#[trigger] rest[i]]
            == before[rest[i]] by {}
        assert(ranked(pool) =~= ranked(before).insert(s, pool.last()));
        to_multiset_insert(ranked(before), s, pool.last());
        to_multiset_build(before, pool.last());
        assert(pool =~= before.push(pool.last()));
    }
}

/// What a row of the leaderboard says of an agent: how many candidates it has and
/// how many are valid; and, where one is, the id, score and performance of one
/// that has the greatest score of its valid ones, and of those with that score
/// the greatest performance. An agent without a valid candidate has no best one
/// and no score.
pub open spec fn tells_of_agent(entries: Seq<Candidate>, s: StandingView) -> bool {
    &&& s.candidates == entries.filter(|c: Candidate| c.agent@ == s.agent).len()
    &&& s.valid_candidates == entries.filter(|c: Candidate| c.valid && c.agent@ == s.agent).len()
    &&& match s.best_id {
        Some(id) => exists|c: Candidate|
            {
                &&& #[trigger] entries.contains(c)
                &&& c.valid
                &&& c.agent@ == s.agent
                &&& c.id@ == id
                &&& c.score == s.best_score
                &&& c.performance == s.best_performance
                &&& forall|d: Candidate| #[trigger]
                    entries.contains(d) && d.valid && d.agent@ == s.agent ==> d.score.key
                        < c.score.key || (d.score.key == c.score.key && d.performance.key
                        <= c.performance.key)
            },
        None => {
            &&& forall|d: Candidate| #[trigger]
                entries.contains(d) && d.agent@ == s.agent ==> !d.valid
            &&& s.best_score == (Measure { key: 0 })
        },
    }
}

proof fn lemma_standing_tells(entries: Seq<Candidate>, agent: Seq<char>)
    ensures
        tells_of_agent(entries, standing_of(entries, agent)),
        standing_of(entries, agent).agent == agent,
{
    let s = standing_of(entries, agent);
    selections_keep_what_is_asked_for(entries, agent, Seq::empty());
    let f = FilterView::valid_of_agent(Some(agent));
    let pool = selected(entries, f);
    best_is_no_worse_than_any(pool);
    assert(s.agent == agent);
    match best_of(pool) {
        Some(c) => {
            assert(pool.contains(c));
            selection_is_exact(entries, f, c);
            assert forall|d: Candidate| #[trigger]
                entries.contains(d) && d.valid && d.agent@ == agent implies d.score.key
                < c.score.key || (d.score.key == c.score.key && d.performance.key
                <= c.performance.key) by {
                selection_is_exact(entries, f, d);
                let j = choose|j: int| 0 <= j < pool.len() && pool[j] == d;
                assert(no_worse(c, pool[j]));
            }
            assert(entries.contains(c));
        },
        None => {
            assert forall|d: Candidate| #[trigger]
                entries.contains(d) && d.agent@ == agent implies !d.valid by {
                selection_is_exact(entries, f, d);
            }
        },
    }
}

/// The leaderboard has a row for every agent, which says what the candidates say
/// of it. Who has a valid candidate stands before who has none; of those that have
/// one, the greater score stands first, of equal scores the greater performance,
/// of equal ones the name that comes first. Positions count from one, and the
/// first half of the rows, rounded up, is rewarded.
pub proof fn leaderboard_is_led_by_score(entries: Seq<Candidate>, agents: Seq<Seq<char>>)
    ensures
        ({
            let rows = standings_of(entries, agents);
            &&& rows.len() == agents.len()
            &&& forall|i: int|
                0 <= i < rows.len() ==> {
                    &&& tells_of_agent(entries, #[trigger] rows[i])
                    &&& agents.contains(rows[i].agent)
                    &&& rows[i].rank_position == i + 1
                    &&& rows[i].reward == if 2 * i + 1 <= agents.len() {
                        1int
                    } else {
                        0int
                    }
                }
            &&& forall|k: int|
                0 <= k < agents.len() ==> exists|i: int|
                    0 <= i < rows.len() && #[trigger] rows[i].agent == #[trigger] agents[k]
            &&& forall|i: int, j: int|
                #![trigger rows[i], rows[j]]
                0 <= i < j < rows.len() ==> {
                    &&& rows[j].best_id is Some ==> rows[i].best_id is Some
                    &&& rows[i].best_id is Some && rows[j].best_id is Some ==> {
                        &&& rows[i].best_score.key >= rows[j].best_score.key
                        &&& rows[i].best_score.key == rows[j].best_score.key
                            ==> rows[i].best_performance.key >= rows[j].best_performance.key
                        &&& rows[i].best_score.key == rows[j].best_score.key
                            && rows[i].best_performance.key == rows[j].best_performance.key
                            ==> !text_before(rows[j].agent, rows[i].agent)
                    }
                    &&& rows[i].best_id is None ==> rows[i].best_performance.key
                        >= rows[j].best_performance.key
                }
        }),
{
    let rows = standings_of(entries, agents);
    standings_rank_best_first(entries, agents);
    assert forall|i: int| 0 <= i < rows.len() implies {
        &&& tells_of_agent(entries, #[trigger] rows[i])
        &&& agents.contains(rows[i].agent)
        &&& rows[i].rank_position == i + 1
        &&& rows[i].reward == if 2 * i + 1 <= agents.len() {
            1int
        } else {
            0int
        }
    } by {
        let name = rows[i].agent;
        lemma_standing_tells(entries, name);
        let s = standing_of(entries, name);
        assert(rows[i] == s.at((i + 1) as nat, agents.len()));
        if s.best_id is Some {
            let c = choose|c: Candidate|
                {
                    &&& #[trigger] entries.contains(c)
                    &&& c.valid
                    &&& c.agent@ == s.agent
                    &&& c.id@ == s.best_id->0
                    &&& c.score == s.best_score
                    &&& c.performance == s.best_performance
                    &&& forall|d: Candidate| #[trigger]
                        entries.contains(d) && d.valid && d.agent@ == s.agent ==> d.score.key
                            < c.score.key || (d.score.key == c.score.key && d.performance.key
                            <= c.performance.key)
                };
            assert(entries.contains(c));
        }
    }
    assert forall|i: int, j: int|
        #![trigger rows[i], rows[j]]
        0 <= i < j < rows.len() implies {
        &&& rows[j].best_id is Some ==> rows[i].best_id is Some
        &&& rows[i].best_id is Some && rows[j].best_id is Some ==> {
            &&& rows[i].best_score.key >= rows[j].best_score.key
            &&& rows[i].best_score.key == rows[j].best_score.key ==> rows[i].best_performance.key
                >= rows[j].best_performance.key
            &&& rows[i].best_score.key == rows[j].best_score.key && rows[i].best_performance.key
                == rows[j].best_performance.key ==> !text_before(rows[j].agent, rows[i].agent)
        }
        &&& rows[i].best_id is None ==> rows[i].best_performance.key
            >= rows[j].best_performance.key
    } by {
        assert(tells_of_agent(entries, rows[i]) && tells_of_agent(entries, rows[j]));
        assert(!listed_before(rows[j].rank_view(), rows[i].rank_view()));
    }
}

/// Every candidate of a pool can be drawn: the draw of a position gives the
/// candidate that stands there, with its id, its code and what was measured of it,
/// under a label with its id, agent and operator. The seed is given where it was
/// drawn or there is no candidate.
pub proof fn draws_give_what_was_drawn(pool: Seq<Candidate>, seed_block: Seq<char>, k: usize)
    ensures
        pool.len() > 0 ==> ({
            let p = drawn(pool, seed_block, Draw::Pick(k));
            let c = if k < pool.len() {
                pool[k as int]
            } else {
                pool[pool.len() - 1]
            };
            &&& p.id == c.id@
            &&& p.block == c.block@
            &&& in_order(p.label, seq![c.id@, c.agent@, c.operator@])
            &&& p.metrics matches ParentMetrics::Measured {
                quality,
                times,
                performance,
                novelty,
                score,
            }
            &&& quality == c.result.quality
            &&& performance == c.performance
            &&& novelty == c.novelty
            &&& score == c.score
            &&& times is Some <==> c.result.fit_time is Some && c.result.predict_time is Some
            &&& times matches Some((fit, predict)) ==> Some(fit) == c.result.fit_time && Some(
                predict,
            ) == c.result.predict_time
        }),
        drawn(pool, seed_block, Draw::Seed).id == "seed"@,
        drawn(pool, seed_block, Draw::Seed).block == seed_block,
        drawn(pool, seed_block, Draw::Seed).metrics == ParentMetrics::Seed,
        pool.len() == 0 ==> drawn(pool, seed_block, Draw::Pick(k)) == drawn(
            pool,
            seed_block,
            Draw::Seed,
        ),
{
    if pool.len() > 0 {
        let c = if k < pool.len() {
            pool[k as int]
        } else {
            pool[pool.len() - 1]
        };
        let p = drawn(pool, seed_block, Draw::Pick(k));
        let parts = seq![c.id@, c.agent@, c.operator@];
        let gaps = seq![Seq::empty(), " by "@, " ("@, ")"@];
        woven_parts_are_in_order(gaps, parts, 0);
        reveal_with_fuel(woven, 4);
        assert(p.label =~= woven(gaps, parts, 0));
    }
}

/// Where no two candidates have the same id, the draws of two positions give
/// different parents.
pub proof fn different_draws_differ(pool: Seq<Candidate>, seed_block: Seq<char>, i: usize, j: usize)
    requires
        ids_unique(pool),
        i < pool.len(),
        j < pool.len(),
        drawn(pool, seed_block, Draw::Pick(i)).id == drawn(pool, seed_block, Draw::Pick(j)).id,
    ensures
        i == j,
{
    draws_give_what_was_drawn(pool, seed_block, i);
    draws_give_what_was_drawn(pool, seed_block, j);
    assert(pool[i as int].id@ == pool[j as int].id@);
}

/// Who can be drawn as a parent: first any valid candidate; second any valid
/// candidate of a rival, and where it is drawn once more one of anyone, but for
/// the first parent. For each of them there is a draw that gives it.
pub proof fn every_candidate_can_be_a_parent(
    entries: Seq<Candidate>,
    seed_block: Seq<char>,
    agent: Seq<char>,
    state: PairStateView,
    c: Candidate,
)
    requires
        entries.len() <= usize::MAX,
        entries.contains(c),
        c.valid,
        match state {
            PairStateView::First => true,
            PairStateView::Rival(a) => c.agent@ != agent && c.id@ != a.id,
            PairStateView::Any(a) => c.id@ != a.id,
        },
    ensures
        exists|k: usize|
            {
                let p = #[trigger] drawn(
                    selected(entries, pair_filter(state, agent)),
                    seed_block,
                    Draw::Pick(k),
                );
                &&& p.id == c.id@
                &&& p.block == c.block@
            },
{
    let f = pair_filter(state, agent);
    let pool = selected(entries, f);
    selection_is_exact(entries, f, c);
    lemma_selection_shrinks(entries, f);
    let k = choose|k: int| 0 <= k < pool.len() && pool[k] == c;
    draws_give_what_was_drawn(pool, seed_block, k as usize);
    let p = drawn(pool, seed_block, Draw::Pick(k as usize));
    assert(p.id == c.id@ && p.block == c.block@);
}

proof fn lemma_selection_shrinks(entries: Seq<Candidate>, f: FilterView)
    ensures
        selected(entries, f).len() <= entries.len(),
    decreases entries.len(),
{
    if entries.len() > 0 {
        lemma_selection_shrinks(entries.drop_last(), f);
    }
}

/// The choice of two parents keeps what was drawn: the first stays the first, and
/// what is drawn next is the second, unless it is the first again. That one is
/// drawn once more, and where it comes again the seed takes its place; there is no
/// pair only where it is the seed itself.
pub proof fn pairs_are_what_was_drawn(a: ParentView, p: ParentView, seed_block: Seq<char>)
    ensures
        pair_step(PairStateView::First, p, seed_block) == PairStepView::Next(
            PairStateView::Rival(p),
        ),
        p.id != a.id ==> {
            &&& pair_step(PairStateView::Rival(a), p, seed_block) == PairStepView::Done(Some((a, p)))
            &&& pair_step(PairStateView::Any(a), p, seed_block) == PairStepView::Done(Some((a, p)))
        },
        p.id == a.id ==> {
            &&& pair_step(PairStateView::Rival(a), p, seed_block) == PairStepView::Next(
                PairStateView::Any(a),
            )
            &&& pair_step(PairStateView::Any(a), p, seed_block) == PairStepView::Done(None)
                <==> a.id == "seed"@
            &&& a.id != "seed"@ ==> (pair_step(
                PairStateView::Any(a),
                p,
                seed_block,
            ) matches PairStepView::Done(Some((x, y))) && x == a && y.id == "seed"@ && y.block
                == seed_block)
        },
{
}

/// The latest candidate of an agent is one of its candidates, and none that came
/// after it is; there is none only where the agent has no candidate.
pub proof fn latest_came_last(entries: Seq<Candidate>, agent: Seq<char>)
    ensures
        match latest_of(selected(entries, FilterView::of_agent(Some(agent)))) {
            Some(c) => exists|k: int|
                {
                    &&& 0 <= k < entries.len()
                    &&& #[trigger] entries[k] == c
                    &&& c.agent@ == agent
                    &&& forall|j: int| k < j < entries.len() ==> (#[trigger] entries[j]).agent@
                        != agent
                },
            None => forall|j: int|
                0 <= j < entries.len() ==> (#[trigger] entries[j]).agent@ != agent,
        },
    decreases entries.len(),
{
    if entries.len() > 0 {
        let rest = entries.drop_last();
        let f = FilterView::of_agent(Some(agent));
        latest_came_last(rest, agent);
        assert(entries[entries.len() - 1] == entries.last());
        if entries.last().agent@ != agent {
            match latest_of(selected(rest, f)) {
                Some(c) => {
                    let k = choose|k: int|
                        {
                            &&& 0 <= k < rest.len()
                            &&& #[trigger] rest[k] == c
                            &&& c.agent@ == agent
                            &&& forall|j: int| k < j < rest.len() ==> (#[trigger] rest[j]).agent@
                                != agent
                        };
                    assert(entries[k] == c);
                    assert forall|j: int| k < j < entries.len() implies (
                    #[trigger] entries[j]).agent@ != agent by {
                        if j < rest.len() {
                            assert(rest[j] == entries[j]);
                        }
                    }
                },
                None => {
                    assert forall|j: int| 0 <= j < entries.len() implies (
                    #[trigger] entries[j]).agent@ != agent by {
                        if j < rest.len() {
                            assert(rest[j] == entries[j]);
                        }
                    }
                },
            }
        }
    }
}

/// What novelty is measured against of the rivals is the best valid candidate of
/// each other agent that has one, and of nobody else.
pub proof fn rivals_are_the_others_best(
    entries: Seq<Candidate>,
    agents: Seq<Seq<char>>,
    agent: Seq<char>,
)
    ensures
        forall|i: int|
            0 <= i < rivals_best(entries, agents, agent).len() ==> {
                let c = #[trigger] rivals_best(entries, agents, agent)[i];
                &&& entries.contains(c)
                &&& c.valid
                &&& c.agent@ != agent
                &&& agents.contains(c.agent@)
                &&& forall|d: Candidate| #[trigger]
                    entries.contains(d) && d.valid && d.agent@ == c.agent@ ==> d.score.key
                        <= c.score.key
            },
        forall|d: Candidate| #[trigger]
            entries.contains(d) && d.valid && d.agent@ != agent && agents.contains(d.agent@)
                ==> exists|i: int|
                0 <= i < rivals_best(entries, agents, agent).len() && (#[trigger] rivals_best(
                    entries,
                    agents,
                    agent,
                )[i]).agent@ == d.agent@,
    decreases agents.len(),
{
    let all = rivals_best(entries, agents, agent);
    if agents.len() > 0 {
        let front = agents.drop_last();
        let rest = rivals_best(entries, front, agent);
        let name = agents.last();
        let f = FilterView::valid_of_agent(Some(name));
        let pool = selected(entries, f);
        rivals_are_the_others_best(entries, front, agent);
        best_is_no_worse_than_any(pool);
        assert(agents[agents.len() - 1] == name);
        assert forall|x: Seq<char>| front.contains(x) implies agents.contains(x) by {
            let k = choose|k: int| 0 <= k < front.len() && front[k] == x;
            assert(agents[k] == x);
        }
        assert forall|i: int| 0 <= i < all.len() implies {
            let c = #[trigger] all[i];
            &&& entries.contains(c)
            &&& c.valid
            &&& c.agent@ != agent
            &&& agents.contains(c.agent@)
            &&& forall|d: Candidate| #[trigger]
                entries.contains(d) && d.valid && d.agent@ == c.agent@ ==> d.score.key
                    <= c.score.key
        } by {
            if i < rest.len() {
                assert(all[i] == rest[i]);
            } else {
                let c = best_of(pool)->0;
                assert(all[i] == c);
                assert(pool.contains(c));
                selection_is_exact(entries, f, c);
                assert forall|d: Candidate| #[trigger]
                    entries.contains(d) && d.valid && d.agent@ == c.agent@ implies d.score.key
                    <= c.score.key by {
                    selection_is_exact(entries, f, d);
                    let j = choose|j: int| 0 <= j < pool.len() && pool[j] == d;
                    assert(no_worse(c, pool[j]));
                }
            }
        }
        assert forall|d: Candidate| #[trigger]
            entries.contains(d) && d.valid && d.agent@ != agent && agents.contains(
                d.agent@,
            ) implies exists|i: int| 0 <= i < all.len() && (#[trigger] all[i]).agent@
            == d.agent@ by {
            if front.contains(d.agent@) {
                let i = choose|i: int|
                    0 <= i < rest.len() && (#[trigger] rest[i]).agent@ == d.agent@;
                assert(all[i] == rest[i]);
            } else {
                let k = choose|k: int| 0 <= k < agents.len() && agents[k] == d.agent@;
                if k < front.len() {
                    assert(front[k] == d.agent@);
                }
                selection_is_exact(entries, f, d);
                let c = best_of(pool)->0;
                assert(pool.contains(c));
                selection_is_exact(entries, f, c);
                assert(all[rest.len() as int] == c);
            }
        }
    }
}

/// The candidate with an id is the first one that has it; there is none only where
/// no candidate has it.
pub proof fn candidates_are_found_by_id(entries: Seq<Candidate>, id: Seq<char>, from: int)
    requires
        0 <= from <= entries.len(),
    ensures
        match with_id(entries, id, from) {
            Some(c) => exists|k: int|
                {
                    &&& from <= k < entries.len()
                    &&& #[trigger] entries[k] == c
                    &&& c.id@ == id
                    &&& forall|j: int| from <= j < k ==> (#[trigger] entries[j]).id@ != id
                },
            None => forall|j: int|
                from <= j < entries.len() ==> (#[trigger] entries[j]).id@ != id,
        },
    decreases entries.len() - from,
{
    if from < entries.len() && entries[from].id@ != id {
        candidates_are_found_by_id(entries, id, from + 1);
        if let Some(c) = with_id(entries, id, from) {
            let k = choose|k: int|
                {
                    &&& from + 1 <= k < entries.len()
                    &&& #[trigger] entries[k] == c
                    &&& c.id@ == id
                    &&& forall|j: int| from + 1 <= j < k ==> (#[trigger] entries[j]).id@ != id
                };
            assert(entries[k] == c);
        }
    } else if from < entries.len() {
        assert(entries[from].id@ == id);
    }
}

/// A list that is cut keeps its beginning, as much of it as asked or all there is.
pub proof fn cut_lists_keep_their_beginning<T>(list: Seq<T>, n: nat)
    ensures
        first_of(list, n).len() == if list.len() < n {
            list.len()
        } else {
            n
        },
        forall|i: int|
            0 <= i < first_of(list, n).len() ==> #[trigger] first_of(list, n)[i] == list[i],
{
}

/// An id begins with the agent, then names the round, and ends in the number,
/// with three digits at least.
pub proof fn ids_name_agent_round_and_number(agent: Seq<char>, round: nat, n: nat)
    ensures
        ({
            let id = candidate_id(agent, round, n);
            &&& id.take(agent.len() as int) == agent
            &&& in_order(id, seq![agent, "-r"@, decimal(round), "-c"@, zero_padded(n, 3)])
            &&& zero_padded(n, 3).len() >= 3
            &&& n <= usize::MAX ==> id_number(id) == Some(n)
        }),
{
    let d = zero_padded(n, 3);
    let none = Seq::<char>::empty();
    let id = candidate_id(agent, round, n);
    let parts = seq![agent, "-r"@, decimal(round), "-c"@, d];
    let gaps = seq![none, none, none, none, none, none];
    woven_parts_are_in_order(gaps, parts, 0);
    reveal_with_fuel(woven, 6);
    assert(id =~= woven(gaps, parts, 0));
    assert(id.take(agent.len() as int) =~= agent);
    if n <= usize::MAX {
        id_number_reads_back(agent, round, n);
    }
}

/// The model of a filter, of a row, of a parent and of a step in the choice of two is
/// what it holds, field by field.
pub proof fn models_are_what_they_hold(
    f: Filter,
    s: Standing,
    p: Parent,
    q: Parent,
    rows: Seq<Standing>,
    pool: Seq<&Candidate>,
    i: int,
)
    ensures
        f@.valid_only == f.valid_only,
        f@.agent == option_str_view(f.agent),
        f@.not_agent == option_str_view(f.not_agent),
        f@.not_id == option_str_view(f.not_id),
        s@.agent == s.agent@,
        s@.rank_position == s.rank_position,
        s@.reward == s.reward,
        s@.best_score == s.best_score,
        s@.best_performance == s.best_performance,
        s@.best_id == option_view(s.best_id),
        s@.candidates == s.candidates,
        s@.valid_candidates == s.valid_candidates,
        p@.id == p.id@,
        p@.label == p.label@,
        p@.block == p.block@,
        p@.metrics == p.metrics,
        PairState::First@ is First,
        PairState::Rival(p)@ == PairStateView::Rival(p@),
        PairState::Any(p)@ == PairStateView::Any(p@),
        PairStep::Next(PairState::Any(p))@ == PairStepView::Next(PairStateView::Any(p@)),
        PairStep::Done(Some((p, q)))@ == PairStepView::Done(Some((p@, q@))),
        PairStep::Done(None)@ == PairStepView::Done(None),
        standing_views(rows).len() == rows.len(),
        0 <= i < rows.len() ==> standing_views(rows)[i] == rows[i]@,
        owned(pool).len() == pool.len(),
        0 <= i < pool.len() ==> owned(pool)[i] == *pool[i] && owned_option(Some(pool[i])) == Some(
            *pool[i],
        ),
        owned_option(None) is None,
{
}

/// A filter asks for valid candidates where it says so, for those of an agent where
/// it names one, and for all but those of an agent and the one with an id where it
/// names these.
pub proof fn filters_ask_for_what_they_name(f: FilterView, c: Candidate)
    ensures
        f.admits(c) <==> {
            &&& !f.valid_only || c.valid
            &&& f.agent is None || c.agent@ == f.agent->0
            &&& f.not_agent is None || c.agent@ != f.not_agent->0
            &&& f.not_id is None || c.id@ != f.not_id->0
        },
{
}

/// Of two candidates the valid one comes first, then the one with the greater score,
/// then the one with the greater performance, and then the one that arrived first.
pub proof fn ranked_candidates_keep_the_order(pool: Seq<Candidate>, p: int, q: int)
    requires
        0 <= p < pool.len(),
        0 <= q < pool.len(),
        ({
            let a = pool[p];
            let b = pool[q];
            ||| a.valid && !b.valid
            ||| a.valid == b.valid && a.score.key > b.score.key
            ||| a.valid == b.valid && a.score.key == b.score.key && a.performance.key
                > b.performance.key
            ||| a.valid == b.valid && a.score.key == b.score.key && a.performance.key
                == b.performance.key && p < q
        }),
    ensures
        exists|i: int, j: int|
            0 <= i < j < pool.len() && #[trigger] ranked(pool)[i] == pool[p] && #[trigger] ranked(
                pool,
            )[j] == pool[q],
{
    let keys = candidate_ranks(pool);
    let order = ranking(keys);
    assert(keys[p] == pool[p].rank_view());
    assert(keys[q] == pool[q].rank_view());
    rankings_keep_the_order(keys, p, q);
    let (i, j) = choose|i: int, j: int|
        0 <= i < j < keys.len() && #[trigger] order[i] == p && #[trigger] order[j] == q;
    ranking_lists_best_first(keys);
    assert(ranked(pool)[i] == pool[p]);
    assert(ranked(pool)[j] == pool[q]);
}

/// Ids go on behind the greatest number that a candidate has, and behind the number
/// of candidates, and nowhere further on.
pub proof fn counters_go_on_behind_the_last(entries: Seq<Candidate>)
    ensures
        counter_for(entries) >= entries.len(),
        forall|i: int|
            0 <= i < entries.len() ==> (id_number((#[trigger] entries[i]).id@) matches Some(n)
                ==> n <= counter_for(entries)),
        counter_for(entries) == entries.len() || exists|i: int|
            0 <= i < entries.len() && id_number((#[trigger] entries[i]).id@) == Some(
                counter_for(entries),
            ),
{
    lemma_greatest_number(entries);
    lemma_greatest_is_there(entries);
}

proof fn lemma_greatest_is_there(entries: Seq<Candidate>)
    ensures
        greatest_number(entries) > 0 ==> exists|i: int|
            0 <= i < entries.len() && id_number((#[trigger] entries[i]).id@) == Some(
                greatest_number(entries),
            ),
    decreases entries.len(),
{
    if entries.len() > 0 {
        let rest = entries.drop_last();
        lemma_greatest_is_there(rest);
        if greatest_number(entries) > 0 {
            if greatest_number(entries) == greatest_number(rest) {
                let i = choose|i: int|
                    0 <= i < rest.len() && id_number((#[trigger] rest[i]).id@) == Some(
                        greatest_number(rest),
                    );
                assert(entries[i] == rest[i]);
            } else {
                assert(id_number(entries[entries.len() - 1].id@) == Some(greatest_number(entries)));
            }
        }
    }
}

/// The number in an id is what is written behind its last mark, where that is a
/// number; an id without the mark has none.
pub proof fn numbers_stand_behind_the_last_mark(id: Seq<char>, k: int)
    ensures
        !contains_text(id, "-c"@) ==> id_number(id) is None,
        occurs_at(id, "-c"@, k) && (forall|j: int| j > k ==> !#[trigger] occurs_at(id, "-c"@, j))
            ==> id_number(id) == parsed(id.skip(k + 2), usize::MAX as nat),
{
    reveal_strlit("-c");
    lemma_rfind_to(id, "-c"@, id.len() - 2);
    if let Some(i) = rfind_text(id, "-c"@) {
        assert(occurs_at(id, "-c"@, i));
    }
}

/// The best valid candidates of the rivals stand in the order of the agents: each
/// other agent adds its best, where it has one, and the agent itself adds none.
pub proof fn rivals_stand_in_the_order_of_the_agents(
    entries: Seq<Candidate>,
    a: Seq<Seq<char>>,
    b: Seq<Seq<char>>,
    rival: Seq<char>,
    agent: Seq<char>,
)
    ensures
        rivals_best(entries, a + b, agent) == rivals_best(entries, a, agent) + rivals_best(
            entries,
            b,
            agent,
        ),
        rivals_best(entries, seq![agent], agent).len() == 0,
        rival != agent ==> match best_of(
            selected(entries, FilterView::valid_of_agent(Some(rival))),
        ) {
            Some(c) => rivals_best(entries, seq![rival], agent) == seq![c],
            None => rivals_best(entries, seq![rival], agent).len() == 0,
        },
    decreases b.len(),
{
    if b.len() == 0 {
        assert(a + b =~= a);
        assert(rivals_best(entries, a, agent) + rivals_best(entries, b, agent) =~= rivals_best(
            entries,
            a,
            agent,
        ));
    } else {
        assert((a + b).drop_last() =~= a + b.drop_last());
        rivals_stand_in_the_order_of_the_agents(entries, a, b.drop_last(), rival, agent);
        assert(rivals_best(entries, a + b, agent) =~= rivals_best(entries, a, agent) + rivals_best(
            entries,
            b,
            agent,
        ));
    }
    let none = Seq::<Seq<char>>::empty();
    assert(seq![agent].drop_last() =~= none);
    assert(seq![rival].drop_last() =~= none);
    assert(rivals_best(entries, none, agent) =~= Seq::<Candidate>::empty());
    if let Some(c) = best_of(selected(entries, FilterView::valid_of_agent(Some(rival)))) {
        assert(Seq::<Candidate>::empty().push(c) =~= seq![c]);
    }
}

/// The best rival gives way to the candidate that a later row names for another
/// agent, where that has the same score or a greater one; a row of the agent itself,
/// or one that names nobody, changes nothing.
pub proof fn later_rivals_win_ties(
    entries: Seq<Candidate>,
    rows: Seq<StandingView>,
    row: StandingView,
    me: Seq<char>,
)
    ensures
        ({
            let before = best_rival_of(entries, rows, me);
            let after = best_rival_of(entries, rows.push(row), me);
            &&& row.agent == me || row.best_id is None ==> after == before
            &&& row.agent != me && row.best_id is Some ==> match with_id(
                entries,
                row.best_id->0,
                0,
            ) {
                Some(c) => {
                    &&& before is None || c.score.key >= before->0.score.key ==> after == Some(c)
                    &&& before is Some && c.score.key < before->0.score.key ==> after == before
                },
                None => after == before,
            }
        }),
        best_rival_of(entries, Seq::empty(), me) is None,
{
    assert(rows.push(row).drop_last() =~= rows);
}

/// A line is kept where it is not blank and reads as a candidate.
pub proof fn lines_are_kept_where_they_read(line: LineView)
    ensures
        is_blank_text(line.text) ==> line.kind() == LineKind::Blank,
        !is_blank_text(line.text) && line.read is None ==> line.kind() == LineKind::Unreadable,
        !is_blank_text(line.text) && line.read is Some ==> line.kind() == LineKind::Kept
            && kept_lines(seq![line]) == seq![line.read->0],
{
    assert(seq![line].drop_last() =~= Seq::<LineView>::empty());
    assert(kept_lines(Seq::<LineView>::empty()) =~= Seq::<Candidate>::empty());
    if line.read is Some {
        assert(Seq::<Candidate>::empty().push(line.read->0) =~= seq![line.read->0]);
    }
}

/// Ids are unique where none stands twice in the list of them.
pub proof fn unique_ids_stand_once(entries: Seq<Candidate>)
    ensures
        ids_unique(entries) <==> entries.map_values(|c: Candidate| c.id@).no_duplicates(),
{
    let ids = entries.map_values(|c: Candidate| c.id@);
    if ids.no_duplicates() {
        assert forall|i: int, j: int|
            #![trigger entries[i], entries[j]]
            0 <= i < entries.len() && 0 <= j < entries.len() && entries[i].id@
                == entries[j].id@ implies i == j by {
            assert(ids[i] == ids[j]);
        }
    }
    if ids_unique(entries) {
        assert forall|i: int, j: int|
            0 <= i < ids.len() && 0 <= j < ids.len() && i != j implies ids[i] != ids[j] by {
            assert(entries[i].id@ != entries[j].id@);
        }
    }
}

} // verus!
