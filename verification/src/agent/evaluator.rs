//! The evaluation of an agent's sample: what it is compared with, and where the
//! agent stands among the others.

use vstd::prelude::*;
use vstd::string::*;

use crate::agent::database::{
    entry_rank, entry_ranks, matching, matching_is_exact, owned_entries, ranked_entries,
    reads_are_ranked, reads_find_something, reads_give_the_first_of_the_ranked, reads_go_by_tags,
    top_entries, Connection, ReadPlan, ReadView, RelationalEntry, CODE, TEST_DATA, TRAINING_DATA,
};
use crate::digits::{decimal, write_decimal};
use crate::json::{option_view, Json, Tree};
use crate::measure::Measure;
use crate::ranking::{
    ahead, positions, rank_keys, rank_views, ranking, ranking_lists_all, ranking_lists_best_first,
    rankings_keep_the_order, Rank, RankView,
};
use crate::text::{
    in_order, lemma_whole, runs, runs_of, same, show_gap, show_part, string_views, views,
    CharClass,
};

verus! {

/// An agent's most recent evaluation.
#[derive(Debug)]
pub struct AgentEvaluation {
    pub code: String,
    pub performance: Measure,
    pub novelty: Measure,
    pub accuracy: Measure,
    pub training_time_seconds: Measure,
    pub syntax_errors: u32,
    pub runtime_errors: u32,
    /// What agents are ranked by: novelty and squashed performance together.
    pub combined: Measure,
}

/// An evaluation and whose it is.
#[derive(Debug)]
pub struct NamedEvaluation {
    pub agent: String,
    pub evaluation: AgentEvaluation,
}

/// The most recent evaluation of every agent that was evaluated.
#[derive(Debug)]
pub struct Evaluations {
    pub rows: Vec<NamedEvaluation>,
}

/// The evaluation of an agent, from position `i` on.
pub open spec fn evaluation_of(rows: Seq<NamedEvaluation>, agent: Seq<char>, i: int) -> Option<
    AgentEvaluation,
>
    decreases rows.len() - i,
{
    if i < 0 || i >= rows.len() {
        None
    } else if rows[i].agent@ == agent {
        Some(rows[i].evaluation)
    } else {
        evaluation_of(rows, agent, i + 1)
    }
}

proof fn lemma_evaluation_at(rows: Seq<NamedEvaluation>, agent: Seq<char>, i: int, k: int)
    requires
        0 <= i <= k < rows.len(),
        rows[k].agent@ == agent,
        forall|j: int| 0 <= j < k ==> (#[trigger] rows[j]).agent@ != agent,
    ensures
        evaluation_of(rows, agent, i) == Some(rows[k].evaluation),
    decreases k - i,
{
    if i < k {
        assert(rows[i].agent@ != agent);
        lemma_evaluation_at(rows, agent, i + 1, k);
    }
}

proof fn lemma_no_evaluation(rows: Seq<NamedEvaluation>, agent: Seq<char>, i: int)
    requires
        0 <= i,
        forall|j: int| 0 <= j < rows.len() ==> (#[trigger] rows[j]).agent@ != agent,
    ensures
        evaluation_of(rows, agent, i) is None,
    decreases rows.len() - i,
{
    if i < rows.len() {
        assert(rows[i].agent@ != agent);
        lemma_no_evaluation(rows, agent, i + 1);
    }
}

/// Two lists with the same agents, and the same evaluations but for one agent,
/// agree on every other.
proof fn lemma_same_elsewhere(
    rows: Seq<NamedEvaluation>,
    other: Seq<NamedEvaluation>,
    agent: Seq<char>,
    name: Seq<char>,
    i: int,
)
    requires
        0 <= i,
        name != agent,
        rows.len() <= other.len(),
        forall|j: int|
            0 <= j < rows.len() ==> (#[trigger] other[j]).agent@ == rows[j].agent@ && (
            rows[j].agent@ != agent ==> other[j].evaluation == rows[j].evaluation),
        forall|j: int| rows.len() <= j < other.len() ==> (#[trigger] other[j]).agent@ == agent,
    ensures
        evaluation_of(other, name, i) == evaluation_of(rows, name, i),
    decreases other.len() - i,
{
    if i < other.len() {
        assert(other[i].agent@ == other[i].agent@);
        lemma_same_elsewhere(rows, other, agent, name, i + 1);
        if i >= rows.len() {
            assert(evaluation_of(rows, name, i) is None);
            assert(evaluation_of(rows, name, i + 1) is None);
        }
    }
}

impl Evaluations {
    /// Whether every agent is listed once.
    pub open spec fn wf(self) -> bool {
        forall|i: int, j: int|
            #![trigger self.rows@[i], self.rows@[j]]
            0 <= i < self.rows@.len() && 0 <= j < self.rows@.len() && self.rows@[i].agent@
                == self.rows@[j].agent@ ==> i == j
    }

    /// The evaluation of an agent, where it was evaluated.
    pub open spec fn of(self, agent: Seq<char>) -> Option<AgentEvaluation> {
        evaluation_of(self.rows@, agent, 0)
    }

    /// Nobody was evaluated yet.
    pub fn new() -> (r: Evaluations)
        ensures
            r.wf(),
            r.rows@.len() == 0,
    {
        Evaluations { rows: Vec::new() }
    }

    /// The evaluation of an agent, where it was evaluated.
    pub fn get<'a>(&'a self, agent: &str) -> (r: Option<&'a AgentEvaluation>)
        ensures
            match r {
                Some(e) => self.of(agent@) == Some(*e),
                None => self.of(agent@) is None,
            },
    {
        let mut i: usize = 0;
        while i < self.rows.len()
            invariant
                i <= self.rows@.len(),
                self.of(agent@) == evaluation_of(self.rows@, agent@, i as int),
            decreases self.rows.len() - i,
        {
            if same(self.rows[i].agent.as_str(), agent) {
                return Some(&self.rows[i].evaluation);
            }
            i += 1;
        }
        None
    }

    /// Records an evaluation in the place of the agent's earlier one.
    pub fn record(&mut self, agent: &str, evaluation: AgentEvaluation)
        requires
            old(self).wf(),
        ensures
            final(self).wf(),
            final(self).of(agent@) == Some(evaluation),
            forall|name: Seq<char>|
                name != agent@ ==> #[trigger] final(self).of(name) == old(self).of(name),
            final(self).rows@.len() == old(self).rows@.len() + (if old(self).of(agent@) is None {
                1int
            } else {
                0int
            }),
    {
        let ghost before = self.rows@;
        let mut i: usize = 0;
        while i < self.rows.len()
            invariant
                before == self.rows@,
                *old(self) == *self,
                self.wf(),
                i <= self.rows@.len(),
                forall|j: int| 0 <= j < i ==> (#[trigger] self.rows@[j]).agent@ != agent@,
            decreases self.rows.len() - i,
        {
            if same(self.rows[i].agent.as_str(), agent) {
                proof {
                    lemma_evaluation_at(before, agent@, 0, i as int);
                }
                let row = NamedEvaluation { agent: agent.to_owned(), evaluation };
                self.rows.set(i, row);
                proof {
                    lemma_evaluation_at(self.rows@, agent@, 0, i as int);
                    assert forall|name: Seq<char>| name != agent@ implies #[trigger] self.of(name)
                        == old(self).of(name) by {
                        lemma_same_elsewhere(before, self.rows@, agent@, name, 0);
                    }
                    assert forall|p: int, q: int|
                        #![trigger self.rows@[p], self.rows@[q]]
                        0 <= p < self.rows@.len() && 0 <= q < self.rows@.len()
                            && self.rows@[p].agent@ == self.rows@[q].agent@ implies p == q by {
                        assert(before[p].agent@ == self.rows@[p].agent@);
                        assert(before[q].agent@ == self.rows@[q].agent@);
                    }
                }
                return;
            }
            i += 1;
        }
        proof {
            lemma_no_evaluation(before, agent@, 0);
        }
        let row = NamedEvaluation { agent: agent.to_owned(), evaluation };
        self.rows.push(row);
        proof {
            let n = before.len() as int;
            assert forall|j: int| 0 <= j < n implies (#[trigger] self.rows@[j]).agent@
                != agent@ by {
                assert(before[j].agent@ != agent@);
            }
            lemma_evaluation_at(self.rows@, agent@, 0, n);
            assert forall|name: Seq<char>| name != agent@ implies #[trigger] self.of(name) == old(
                self,
            ).of(name) by {
                lemma_same_elsewhere(before, self.rows@, agent@, name, 0);
            }
            assert forall|p: int, q: int|
                #![trigger self.rows@[p], self.rows@[q]]
                0 <= p < self.rows@.len() && 0 <= q < self.rows@.len() && self.rows@[p].agent@
                    == self.rows@[q].agent@ implies p == q by {
                if p < n && q < n {
                    assert(before[p].agent@ == before[q].agent@);
                }
            }
        }
    }
}

/// What evaluations are ordered by.
pub open spec fn evaluation_ranks(rows: Seq<NamedEvaluation>) -> Seq<RankView> {
    rows.map_values(
        |e: NamedEvaluation|
            RankView {
                valid: true,
                score: e.evaluation.combined.key as int,
                performance: 0,
                name: Seq::empty(),
            },
    )
}

/// The agents that were evaluated, best first, with their rank positions,
/// counted from one.
pub open spec fn ranked_agents(rows: Seq<NamedEvaluation>) -> Seq<(Seq<char>, nat)> {
    let order = ranking(evaluation_ranks(rows));
    Seq::new(order.len(), |i: int| (rows[order[i]].agent@, (i + 1) as nat))
}

/// Agents with their rank positions, without their memory.
pub open spec fn place_views(v: Seq<(String, usize)>) -> Seq<(Seq<char>, nat)> {
    v.map_values(|p: (String, usize)| (p.0@, p.1 as nat))
}

/// Every agent that was evaluated has a rank position, from one up to their
/// number.
pub proof fn positions_rank_agents(rows: Seq<NamedEvaluation>)
    ensures
        ranked_agents(rows).len() == rows.len(),
        forall|i: int| 0 <= i < rows.len() ==> (#[trigger] ranked_agents(rows)[i]).1 == i + 1,
        forall|k: int|
            0 <= k < rows.len() ==> exists|i: int|
                0 <= i < rows.len() && #[trigger] ranked_agents(rows)[i].0 == (#[trigger]
                rows[k]).agent@,
{
    let keys = evaluation_ranks(rows);
    let order = ranking(keys);
    let all = ranked_agents(rows);
    ranking_lists_best_first(keys);
    assert forall|k: int| 0 <= k < rows.len() implies exists|i: int|
        0 <= i < rows.len() && #[trigger] all[i].0 == (#[trigger] rows[k]).agent@ by {
        ranking_lists_all(keys, k);
        let i = choose|i: int| 0 <= i < order.len() && order[i] == k;
        assert(all[i].0 == rows[k].agent@);
    }
}

/// Of two agents, the one with the greater value has the better position.
pub proof fn greater_value_ranks_better(rows: Seq<NamedEvaluation>, p: int, q: int)
    requires
        0 <= p < rows.len(),
        0 <= q < rows.len(),
        rows[p].evaluation.combined.key > rows[q].evaluation.combined.key,
    ensures
        exists|i: int, j: int|
            {
                &&& 0 <= i < j < rows.len()
                &&& #[trigger] ranked_agents(rows)[i].0 == rows[p].agent@
                &&& #[trigger] ranked_agents(rows)[j].0 == rows[q].agent@
            },
{
    let keys = evaluation_ranks(rows);
    let order = ranking(keys);
    ranking_lists_best_first(keys);
    ranking_lists_all(keys, p);
    ranking_lists_all(keys, q);
    let i = choose|i: int| 0 <= i < order.len() && order[i] == p;
    let j = choose|j: int| 0 <= j < order.len() && order[j] == q;
    if j < i {
        assert(order[j] != order[i] && ahead(keys, order[j], order[i]));
    }
    assert(ranked_agents(rows)[i].0 == rows[p].agent@);
    assert(ranked_agents(rows)[j].0 == rows[q].agent@);
}

/// Why nobody is ranked before anyone was evaluated.
pub const NOBODY_EVALUATED: &'static str =
    "no agent has been evaluated yet; run the 'evaluator' tool for at least one agent first";

/// Ranks the agents that were evaluated.
pub fn compute_rank_positions(evaluations: &Evaluations) -> (r: Result<
    Vec<(String, usize)>,
    String,
>)
    ensures
        match r {
            Ok(v) => {
                &&& evaluations.rows@.len() > 0
                &&& place_views(v@) == ranked_agents(evaluations.rows@)
            },
            Err(e) => evaluations.rows@.len() == 0 && e@ == NOBODY_EVALUATED@,
        },
{
    let rows = &evaluations.rows;
    if rows.len() == 0 {
        return Err(NOBODY_EVALUATED.to_owned());
    }
    let ghost ranks = evaluation_ranks(rows@);
    let mut keys: Vec<Rank> = Vec::new();
    let mut i: usize = 0;
    while i < rows.len()
        invariant
            ranks == evaluation_ranks(rows@),
            i <= rows@.len(),
            keys@.len() == i,
            forall|k: int| 0 <= k < i ==> (#[trigger] keys@[k])@ == ranks[k],
        decreases rows.len() - i,
    {
        let key = Rank {
            valid: true,
            score: rows[i].evaluation.combined,
            performance: Measure::zero(),
            name: String::new(),
        };
        assert(key.name@ =~= Seq::<char>::empty());
        keys.push(key);
        i += 1;
    }
    assert(rank_views(keys@) =~= ranks);
    let order = rank_keys(&keys);
    let ghost seq_order = ranking(ranks);
    proof {
        ranking_lists_best_first(ranks);
    }
    let mut out: Vec<(String, usize)> = Vec::new();
    let mut j: usize = 0;
    while j < order.len()
        invariant
            seq_order == positions(order@),
            seq_order == ranking(evaluation_ranks(rows@)),
            forall|k: int| 0 <= k < seq_order.len() ==> 0 <= #[trigger] seq_order[k] < rows@.len(),
            j <= order@.len(),
            out@.len() == j,
            forall|k: int|
                0 <= k < j ==> (#[trigger] out@[k]).0@ == rows@[seq_order[k]].agent@ && out@[k].1
                    == k + 1,
        decreases order.len() - j,
    {
        assert(0 <= seq_order[j as int] < rows@.len());
        assert(order@[j as int] == seq_order[j as int]);
        out.push((rows[order[j]].agent.clone(), j + 1));
        j += 1;
    }
    assert(place_views(out@) =~= ranked_agents(rows@));
    Ok(out)
}

/// The rank position of an agent, from position `i` on.
pub open spec fn place_of(places: Seq<(Seq<char>, nat)>, agent: Seq<char>, i: int) -> Option<nat>
    decreases places.len() - i,
{
    if i < 0 || i >= places.len() {
        None
    } else if places[i].0 == agent {
        Some(places[i].1)
    } else {
        place_of(places, agent, i + 1)
    }
}

/// The rank position of an agent.
pub fn find_place(places: &Vec<(String, usize)>, agent: &str) -> (r: Option<usize>)
    ensures
        match r {
            Some(p) => place_of(place_views(places@), agent@, 0) == Some(p as nat),
            None => place_of(place_views(places@), agent@, 0) is None,
        },
{
    let ghost all = place_views(places@);
    let mut i: usize = 0;
    while i < places.len()
        invariant
            all == place_views(places@),
            i <= places@.len(),
            place_of(all, agent@, 0) == place_of(all, agent@, i as int),
        decreases places.len() - i,
    {
        assert(all[i as int] == (places@[i as int].0@, places@[i as int].1 as nat));
        if same(places[i].0.as_str(), agent) {
            return Some(places[i].1);
        }
        i += 1;
    }
    None
}

proof fn lemma_place_found(places: Seq<(Seq<char>, nat)>, agent: Seq<char>, i: int, k: int)
    requires
        0 <= i <= k < places.len(),
        places[k].0 == agent,
    ensures
        place_of(places, agent, i) is Some,
    decreases k - i,
{
    if i < k && places[i].0 != agent {
        lemma_place_found(places, agent, i + 1, k);
    }
}

/// Every agent that was evaluated has a rank position.
pub proof fn evaluated_agents_are_ranked(evaluations: Evaluations, agent: Seq<char>)
    requires
        evaluations.of(agent) is Some,
    ensures
        place_of(ranked_agents(evaluations.rows@), agent, 0) is Some,
{
    let rows = evaluations.rows@;
    lemma_evaluated_row(rows, agent, 0);
    let k = choose|k: int| 0 <= k < rows.len() && #[trigger] rows[k].agent@ == agent;
    positions_rank_agents(rows);
    let all = ranked_agents(rows);
    let i = choose|i: int|
        0 <= i < rows.len() && #[trigger] all[i].0 == rows[k].agent@;
    lemma_place_found(all, agent, 0, i);
}

proof fn lemma_evaluated_row(rows: Seq<NamedEvaluation>, agent: Seq<char>, i: int)
    requires
        0 <= i,
        evaluation_of(rows, agent, i) is Some,
    ensures
        exists|k: int| 0 <= k < rows.len() && #[trigger] rows[k].agent@ == agent,
    decreases rows.len() - i,
{
    if i < rows.len() && rows[i].agent@ != agent {
        lemma_evaluated_row(rows, agent, i + 1);
    }
}

/// The code that an agent wrote last for an algorithm.
pub open spec fn latest_sample(
    entries: Seq<RelationalEntry>,
    agent: Seq<char>,
    algorithm: Seq<char>,
) -> Option<Seq<char>> {
    let own = matching(
        entries,
        ReadView { top_n: 1, category: CODE@, agent: Some(agent), algorithm: Some(algorithm) },
    );
    if own.len() == 0 {
        None
    } else {
        Some(own.last().code@)
    }
}

/// The code entries of an algorithm.
pub open spec fn code_for(algorithm: Seq<char>) -> ReadView {
    ReadView { top_n: 1, category: CODE@, agent: None, algorithm: Some(algorithm) }
}

/// The first entry that no agent wrote, from position `i` on.
pub open spec fn first_untagged(entries: Seq<RelationalEntry>, i: int) -> Option<Seq<char>>
    decreases entries.len() - i,
{
    if i < 0 || i >= entries.len() {
        None
    } else if entries[i].agent is None {
        Some(entries[i].code@)
    } else {
        first_untagged(entries, i + 1)
    }
}

/// The baseline of an algorithm: the best entry that no agent wrote.
pub open spec fn baseline_code(entries: Seq<RelationalEntry>, algorithm: Seq<char>) -> Option<
    Seq<char>,
> {
    first_untagged(ranked_entries(matching(entries, code_for(algorithm))), 0)
}

proof fn lemma_first_untagged(entries: Seq<RelationalEntry>, i: int)
    requires
        0 <= i,
    ensures
        match first_untagged(entries, i) {
            Some(code) => exists|k: int|
                {
                    &&& i <= k < entries.len()
                    &&& (#[trigger] entries[k]).agent is None
                    &&& entries[k].code@ == code
                    &&& forall|j: int| i <= j < k ==> (#[trigger] entries[j]).agent is Some
                },
            None => forall|k: int| i <= k < entries.len() ==> (#[trigger] entries[k]).agent is Some,
        },
    decreases entries.len() - i,
{
    if i < entries.len() && entries[i].agent is Some {
        lemma_first_untagged(entries, i + 1);
        if let Some(code) = first_untagged(entries, i) {
            let k = choose|k: int|
                {
                    &&& i + 1 <= k < entries.len()
                    &&& (#[trigger] entries[k]).agent is None
                    &&& entries[k].code@ == code
                    &&& forall|j: int| i + 1 <= j < k ==> (#[trigger] entries[j]).agent is Some
                };
            assert(entries[k].agent is None);
        }
    }
}

proof fn lemma_same_matches(entries: Seq<RelationalEntry>, p: ReadView, q: ReadView)
    requires
        p.category == q.category,
        p.agent == q.agent,
        p.algorithm == q.algorithm,
    ensures
        matching(entries, p) == matching(entries, q),
        matching(entries, q).len() <= entries.len(),
    decreases entries.len(),
{
    if entries.len() > 0 {
        lemma_same_matches(entries.drop_last(), p, q);
    }
}

/// An algorithm has a baseline exactly where code for it is stored that no agent
/// wrote, however many samples of agents rank higher; and none of that code
/// ranks higher than the baseline.
pub proof fn baseline_is_best_untagged(entries: Seq<RelationalEntry>, algorithm: Seq<char>)
    ensures
        match baseline_code(entries, algorithm) {
            Some(code) => exists|b: RelationalEntry|
                {
                    &&& #[trigger] entries.contains(b)
                    &&& code_for(algorithm).admits(b)
                    &&& b.agent is None
                    &&& b.code@ == code
                    &&& forall|e: RelationalEntry|
                        #[trigger] entries.contains(e) && code_for(algorithm).admits(e)
                            && e.agent is None ==> e.rank_score.key <= b.rank_score.key
                },
            None => forall|e: RelationalEntry|
                #[trigger] entries.contains(e) && code_for(algorithm).admits(e) ==> e.agent is Some,
        },
{
    let q = code_for(algorithm);
    let pool = matching(entries, q);
    let keys = entry_ranks(pool);
    let order = ranking(keys);
    let list = ranked_entries(pool);
    ranking_lists_best_first(keys);
    lemma_first_untagged(list, 0);
    assert forall|e: RelationalEntry| #[trigger] entries.contains(e) && q.admits(e) implies exists|
        i: int,
    | 0 <= i < list.len() && #[trigger] list[i] == e by {
        matching_is_exact(entries, q, e);
        let k = choose|k: int| 0 <= k < pool.len() && pool[k] == e;
        ranking_lists_all(keys, k);
        let i = choose|i: int| 0 <= i < order.len() && order[i] == k;
        assert(list[i] == e);
    }
    if let Some(code) = baseline_code(entries, algorithm) {
        let k = choose|k: int|
            {
                &&& 0 <= k < list.len()
                &&& (#[trigger] list[k]).agent is None
                &&& list[k].code@ == code
                &&& forall|j: int| 0 <= j < k ==> (#[trigger] list[j]).agent is Some
            };
        let b = list[k];
        assert(0 <= order[k] < keys.len());
        assert(pool.contains(pool[order[k]]));
        matching_is_exact(entries, q, b);
        assert forall|e: RelationalEntry|
            #[trigger] entries.contains(e) && q.admits(e) && e.agent is None implies e.rank_score.key
            <= b.rank_score.key by {
            let i = choose|i: int| 0 <= i < list.len() && #[trigger] list[i] == e;
            assert(i >= k);
            if i > k {
                assert(0 <= order[i] < keys.len());
                assert(order[k] != order[i] && ahead(keys, order[k], order[i]));
                assert(keys[order[k]] == entry_rank(b));
                assert(keys[order[i]] == entry_rank(e));
            }
        }
    }
}

/// The best entry of a category for an algorithm.
pub open spec fn best_entry(
    entries: Seq<RelationalEntry>,
    category: Seq<char>,
    algorithm: Seq<char>,
) -> Option<Seq<char>> {
    let top = top_entries(
        entries,
        ReadView { top_n: 1, category, agent: None, algorithm: Some(algorithm) },
    );
    if top.len() == 0 {
        None
    } else {
        Some(top[0].code@)
    }
}

impl Connection {
    /// The code that an agent wrote last for an algorithm.
    pub fn latest_sample(&self, agent: &str, algorithm: &str) -> (r: Option<String>)
        ensures
            option_view(r) == latest_sample(self.entries@, agent@, algorithm@),
    {
        let plan = ReadPlan {
            top_n: 1,
            category: CODE.to_owned(),
            agent: Some(agent.to_owned()),
            algorithm: Some(algorithm.to_owned()),
        };
        let ghost all = self.entries@;
        let ghost q = plan@;
        let mut last: Option<usize> = None;
        let mut i: usize = 0;
        while i < self.entries.len()
            invariant
                all == self.entries@,
                q == plan@,
                i <= all.len(),
                match last {
                    Some(k) => {
                        &&& k < all.len()
                        &&& matching(all.take(i as int), q).len() > 0
                        &&& matching(all.take(i as int), q).last() == all[k as int]
                    },
                    None => matching(all.take(i as int), q).len() == 0,
                },
            decreases self.entries.len() - i,
        {
            assert(all.take(i + 1).drop_last() =~= all.take(i as int));
            assert(all.take(i + 1).last() == all[i as int]);
            if plan.test(&self.entries[i]) {
                last = Some(i);
            }
            i += 1;
        }
        assert(all.take(all.len() as int) =~= all);
        match last {
            Some(k) => Some(self.entries[k].code.clone()),
            None => None,
        }
    }

    /// The baseline of an algorithm.
    pub fn baseline_code(&self, algorithm: &str) -> (r: Option<String>)
        ensures
            option_view(r) == baseline_code(self.entries@, algorithm@),
    {
        let plan = ReadPlan {
            top_n: self.entries.len(),
            category: CODE.to_owned(),
            agent: None,
            algorithm: Some(algorithm.to_owned()),
        };
        let found = self.read_top(&plan);
        let ghost all = owned_entries(found@);
        proof {
            let q = code_for(algorithm@);
            lemma_same_matches(self.entries@, plan@, q);
            ranking_lists_best_first(entry_ranks(matching(self.entries@, q)));
            let list = ranked_entries(matching(self.entries@, q));
            assert(list.len() == plan.top_n ==> list.take(list.len() as int) =~= list);
            assert(all == list);
        }
        let mut i: usize = 0;
        while i < found.len()
            invariant
                all == owned_entries(found@),
                i <= found@.len(),
                baseline_code(self.entries@, algorithm@) == first_untagged(all, i as int),
            decreases found.len() - i,
        {
            assert(all[i as int] == *found@[i as int]);
            if found[i].agent.is_none() {
                return Some(found[i].code.clone());
            }
            i += 1;
        }
        None
    }

    /// The best entry of a category for an algorithm.
    pub fn best_entry(&self, category: &str, algorithm: &str) -> (r: Option<String>)
        ensures
            option_view(r) == best_entry(self.entries@, category@, algorithm@),
    {
        let plan = ReadPlan {
            top_n: 1,
            category: category.to_owned(),
            agent: None,
            algorithm: Some(algorithm.to_owned()),
        };
        let found = self.read_top(&plan);
        assert(owned_entries(found@).len() == found@.len());
        if found.len() == 0 {
            None
        } else {
            assert(owned_entries(found@)[0] == *found@[0]);
            Some(found[0].code.clone())
        }
    }
}

/// What an evaluation works on.
#[derive(Debug)]
pub struct Inputs {
    pub sample_code: String,
    pub original_code: String,
    pub training_data: String,
    pub test_data: String,
}

/// The mathematical model of what an evaluation works on.
pub struct InputsView {
    pub sample_code: Seq<char>,
    pub original_code: Seq<char>,
    pub training_data: Seq<char>,
    pub test_data: Seq<char>,
}

impl View for Inputs {
    type V = InputsView;

    open spec fn view(&self) -> InputsView {
        InputsView {
            sample_code: self.sample_code@,
            original_code: self.original_code@,
            training_data: self.training_data@,
            test_data: self.test_data@,
        }
    }
}

/// What is given, or what is stored, or else an error.
pub open spec fn given_or_stored(
    given: Option<Seq<char>>,
    stored: Option<Seq<char>>,
    error: Seq<char>,
) -> Result<Seq<char>, Seq<char>> {
    match given {
        Some(s) => Ok(s),
        None => match stored {
            Some(s) => Ok(s),
            None => Err(error),
        },
    }
}

/// Why there is no sample to evaluate.
pub open spec fn no_sample(agent: Seq<char>, algorithm: Seq<char>) -> Seq<char> {
    "no '"@ + algorithm + "' sample found in the database for agent '"@ + agent
        + "'; run 'evolution' for this agent first, or pass 'candidate' explicitly"@
}

/// Why there is no baseline.
pub open spec fn no_baseline(algorithm: Seq<char>) -> Seq<char> {
    "no baseline (agent-less) 'code' entry found for algorithm '"@ + algorithm
        + "'; write the original "@
        + "implementation first (database write with category: 'code', algorithm: '"@ + algorithm
        + "', and no 'agent' field)"@
}

/// Why there is no entry of a category.
pub open spec fn no_entry(category: Seq<char>, algorithm: Seq<char>) -> Seq<char> {
    "no '"@ + category + "' entry found for algorithm '"@ + algorithm
        + "' in the database; write one first (e.g. database write with category: '"@ + category
        + "', algorithm: '"@ + algorithm + "')"@
}

/// Says why there is no sample to evaluate.
pub fn no_sample_message(agent: &str, algorithm: &str) -> (r: String)
    ensures
        r@ == no_sample(agent@, algorithm@),
{
    let mut out = "no '".to_owned();
    out.append(algorithm);
    out.append("' sample found in the database for agent '");
    out.append(agent);
    out.append("'; run 'evolution' for this agent first, or pass 'candidate' explicitly");
    out
}

/// Says why there is no baseline.
pub fn no_baseline_message(algorithm: &str) -> (r: String)
    ensures
        r@ == no_baseline(algorithm@),
{
    let mut out = "no baseline (agent-less) 'code' entry found for algorithm '".to_owned();
    out.append(algorithm);
    out.append("'; write the original ");
    out.append("implementation first (database write with category: 'code', algorithm: '");
    out.append(algorithm);
    out.append("', and no 'agent' field)");
    out
}

/// Says why there is no entry of a category.
pub fn no_entry_message(category: &str, algorithm: &str) -> (r: String)
    ensures
        r@ == no_entry(category@, algorithm@),
{
    let mut out = "no '".to_owned();
    out.append(category);
    out.append("' entry found for algorithm '");
    out.append(algorithm);
    out.append("' in the database; write one first (e.g. database write with category: '");
    out.append(category);
    out.append("', algorithm: '");
    out.append(algorithm);
    out.append("')");
    out
}

/// What an evaluation works on: what the arguments give, and what is stored of
/// the rest. The first thing that is missing is the error.
pub open spec fn inputs_of(
    args: Tree,
    entries: Seq<RelationalEntry>,
    agent: Seq<char>,
    algorithm: Seq<char>,
) -> Result<InputsView, Seq<char>> {
    let sample = given_or_stored(
        args.text_member("candidate"@),
        latest_sample(entries, agent, algorithm),
        no_sample(agent, algorithm),
    );
    let original = given_or_stored(
        args.text_member("original_code"@),
        baseline_code(entries, algorithm),
        no_baseline(algorithm),
    );
    let training = given_or_stored(
        args.text_member("training_data"@),
        best_entry(entries, TRAINING_DATA@, algorithm),
        no_entry(TRAINING_DATA@, algorithm),
    );
    let test = given_or_stored(
        args.text_member("test_data"@),
        best_entry(entries, TEST_DATA@, algorithm),
        no_entry(TEST_DATA@, algorithm),
    );
    match (sample, original, training, test) {
        (Err(e), _, _, _) => Err(e),
        (_, Err(e), _, _) => Err(e),
        (_, _, Err(e), _) => Err(e),
        (_, _, _, Err(e)) => Err(e),
        (Ok(sample_code), Ok(original_code), Ok(training_data), Ok(test_data)) => Ok(
            InputsView { sample_code, original_code, training_data, test_data },
        ),
    }
}

/// Inputs or an error, without their memory.
pub open spec fn inputs_view(r: Result<Inputs, String>) -> Result<InputsView, Seq<char>> {
    match r {
        Ok(i) => Ok(i@),
        Err(e) => Err(e@),
    }
}

/// Gathers what an evaluation works on.
pub fn gather_inputs(args: &Json, store: &Connection, agent: &str, algorithm: &str) -> (r: Result<
    Inputs,
    String,
>)
    ensures
        inputs_view(r) == inputs_of(args@, store.entries@, agent@, algorithm@),
{
    let sample_code = match args.owned_field("candidate") {
        Some(s) => s,
        None => match store.latest_sample(agent, algorithm) {
            Some(s) => s,
            None => {
                return Err(no_sample_message(agent, algorithm));
            },
        },
    };
    let original_code = match args.owned_field("original_code") {
        Some(s) => s,
        None => match store.baseline_code(algorithm) {
            Some(s) => s,
            None => {
                return Err(no_baseline_message(algorithm));
            },
        },
    };
    let training_data = match args.owned_field("training_data") {
        Some(s) => s,
        None => match store.best_entry(TRAINING_DATA, algorithm) {
            Some(s) => s,
            None => {
                return Err(no_entry_message(TRAINING_DATA, algorithm));
            },
        },
    };
    let test_data = match args.owned_field("test_data") {
        Some(s) => s,
        None => match store.best_entry(TEST_DATA, algorithm) {
            Some(s) => s,
            None => {
                return Err(no_entry_message(TEST_DATA, algorithm));
            },
        },
    };
    Ok(Inputs { sample_code, original_code, training_data, test_data })
}

/// Puts an entry in the place of the earlier one of its agent, from position
/// `i` on, or at the end.
pub open spec fn put_sample(list: Seq<RelationalEntry>, e: RelationalEntry, i: int) -> Seq<
    RelationalEntry,
>
    decreases list.len() - i,
{
    if i < 0 || i >= list.len() {
        list.push(e)
    } else if option_view(list[i].agent) == option_view(e.agent) {
        list.update(i, e)
    } else {
        put_sample(list, e, i + 1)
    }
}

/// The latest of some entries of every agent but `me`, in the order in which the
/// agents wrote their first. Entries that no agent wrote do not count.
pub open spec fn latest_of_others(pool: Seq<RelationalEntry>, me: Seq<char>) -> Seq<
    RelationalEntry,
>
    decreases pool.len(),
{
    if pool.len() == 0 {
        Seq::empty()
    } else {
        let rest = latest_of_others(pool.drop_last(), me);
        match pool.last().agent {
            Some(a) => if a@ == me {
                rest
            } else {
                put_sample(rest, pool.last(), 0)
            },
            None => rest,
        }
    }
}

/// Whether every entry is by an agent other than `me`, and no two are by the
/// same.
pub open spec fn one_per_rival(list: Seq<RelationalEntry>, me: Seq<char>) -> bool {
    &&& forall|i: int|
        0 <= i < list.len() ==> {
            &&& option_view((#[trigger] list[i]).agent) is Some
            &&& option_view(list[i].agent) != Some(me)
        }
    &&& forall|i: int, j: int|
        #![trigger list[i], list[j]]
        0 <= i < j < list.len() ==> option_view(list[i].agent) != option_view(list[j].agent)
}

proof fn lemma_put_sample(list: Seq<RelationalEntry>, e: RelationalEntry, me: Seq<char>, i: int)
    requires
        0 <= i <= list.len(),
        one_per_rival(list, me),
        option_view(e.agent) is Some,
        option_view(e.agent) != Some(me),
        forall|j: int| 0 <= j < i ==> option_view((#[trigger] list[j]).agent) != option_view(
            e.agent,
        ),
    ensures
        one_per_rival(put_sample(list, e, i), me),
        put_sample(list, e, i).contains(e),
    decreases list.len() - i,
{
    let r = put_sample(list, e, i);
    if i >= list.len() {
        assert(r[r.len() - 1] == e);
    } else if option_view(list[i].agent) == option_view(e.agent) {
        assert(r[i] == e);
        assert forall|p: int, q: int|
            #![trigger r[p], r[q]]
            0 <= p < q < r.len() implies option_view(r[p].agent) != option_view(r[q].agent) by {
            assert(list[p] == list[p] && list[q] == list[q]);
        }
    } else {
        lemma_put_sample(list, e, me, i + 1);
    }
}

/// Every other agent is compared with once, and the agent itself is not.
pub proof fn rivals_are_compared_once(pool: Seq<RelationalEntry>, me: Seq<char>)
    ensures
        one_per_rival(latest_of_others(pool, me), me),
    decreases pool.len(),
{
    if pool.len() > 0 {
        rivals_are_compared_once(pool.drop_last(), me);
        let rest = latest_of_others(pool.drop_last(), me);
        if let Some(a) = pool.last().agent {
            if a@ != me {
                lemma_put_sample(rest, pool.last(), me, 0);
            }
        }
    }
}

proof fn lemma_put_keeps(
    list: Seq<RelationalEntry>,
    e: RelationalEntry,
    i: int,
    x: RelationalEntry,
)
    requires
        0 <= i <= list.len(),
        list.contains(x),
        option_view(x.agent) != option_view(e.agent),
    ensures
        put_sample(list, e, i).contains(x),
    decreases list.len() - i,
{
    let k = choose|k: int| 0 <= k < list.len() && list[k] == x;
    if i >= list.len() {
        assert(list.push(e)[k] == x);
    } else if option_view(list[i].agent) == option_view(e.agent) {
        assert(list.update(i, e)[k] == x);
    } else {
        lemma_put_keeps(list, e, i + 1, x);
    }
}

/// The most recent sample of a rival is the one that is compared with.
pub proof fn latest_sample_is_compared(pool: Seq<RelationalEntry>, me: Seq<char>, k: int)
    requires
        0 <= k < pool.len(),
        option_view(pool[k].agent) is Some,
        option_view(pool[k].agent) != Some(me),
        forall|j: int|
            k < j < pool.len() ==> option_view((#[trigger] pool[j]).agent) != option_view(
                pool[k].agent,
            ),
    ensures
        latest_of_others(pool, me).contains(pool[k]),
    decreases pool.len(),
{
    let front = pool.drop_last();
    let rest = latest_of_others(front, me);
    rivals_are_compared_once(front, me);
    if k == pool.len() - 1 {
        lemma_put_sample(rest, pool.last(), me, 0);
    } else {
        assert(front[k] == pool[k]);
        assert forall|j: int| k < j < front.len() implies option_view((#[trigger] front[j]).agent)
            != option_view(front[k].agent) by {
            assert(front[j] == pool[j]);
        }
        latest_sample_is_compared(front, me, k);
        assert(option_view(pool[pool.len() - 1].agent) != option_view(pool[k].agent));
        lemma_put_keeps(rest, pool.last(), 0, pool[k]);
    }
}

/// The samples of the other agents that a sample is compared with: the most
/// recent one of each, for the same algorithm. There may be none.
pub fn samples_of_others<'a>(store: &'a Connection, agent: &str, algorithm: &str) -> (r: Vec<
    &'a RelationalEntry,
>)
    ensures
        owned_entries(r@) == latest_of_others(
            matching(store.entries@, code_for(algorithm@)),
            agent@,
        ),
{
    let plan = ReadPlan {
        top_n: 1,
        category: CODE.to_owned(),
        agent: None,
        algorithm: Some(algorithm.to_owned()),
    };
    let ghost all = store.entries@;
    let ghost q = code_for(algorithm@);
    assert(q == plan@);
    let mut out: Vec<&'a RelationalEntry> = Vec::new();
    let mut i: usize = 0;
    assert(owned_entries(out@) =~= latest_of_others(matching(all.take(0), q), agent@));
    while i < store.entries.len()
        invariant
            all == store.entries@,
            q == plan@,
            i <= all.len(),
            owned_entries(out@) == latest_of_others(matching(all.take(i as int), q), agent@),
        decreases store.entries.len() - i,
    {
        let ghost before = matching(all.take(i as int), q);
        assert(all.take(i + 1).drop_last() =~= all.take(i as int));
        assert(all.take(i + 1).last() == all[i as int]);
        let e: &'a RelationalEntry = &store.entries[i];
        if plan.test(e) {
            assert(before.push(*e).drop_last() =~= before);
            assert(before.push(*e).last() == *e);
            if let Some(a) = &e.agent {
                if !same(a.as_str(), agent) {
                    put(&mut out, e);
                }
            }
        }
        i += 1;
    }
    assert(all.take(all.len() as int) =~= all);
    out
}

/// Puts an entry in the place of the earlier one of its agent, or at the end.
fn put<'a>(list: &mut Vec<&'a RelationalEntry>, e: &'a RelationalEntry)
    requires
        e.agent is Some,
    ensures
        owned_entries(final(list)@) == put_sample(owned_entries(old(list)@), *e, 0),
{
    let ghost before = owned_entries(list@);
    let mut i: usize = 0;
    while i < list.len()
        invariant
            before == owned_entries(list@),
            *old(list) == *list,
            e.agent is Some,
            i <= list@.len(),
            put_sample(before, *e, 0) == put_sample(before, *e, i as int),
        decreases list.len() - i,
    {
        assert(before[i as int] == *list@[i as int]);
        if same_tag(&list[i].agent, &e.agent) {
            list.set(i, e);
            assert(owned_entries(list@) =~= before.update(i as int, *e));
            return;
        }
        i += 1;
    }
    list.push(e);
    assert(owned_entries(list@) =~= before.push(*e));
}

fn same_tag(a: &Option<String>, b: &Option<String>) -> (r: bool)
    ensures
        r == (option_view(*a) == option_view(*b)),
{
    match (a, b) {
        (Some(x), Some(y)) => same(x.as_str(), y.as_str()),
        (None, None) => true,
        _ => false,
    }
}

/// What running a piece of code showed.
#[derive(Debug)]
pub struct SandboxResult {
    pub accuracy: Measure,
    pub training_time_seconds: Measure,
    pub syntax_errors: u32,
    pub runtime_errors: u32,
    pub stderr: String,
}

impl SandboxResult {
    /// Whether the code ran without an error.
    pub open spec fn clean(self) -> bool {
        self.syntax_errors == 0 && self.runtime_errors == 0
    }

    /// Whether the code ran without an error.
    pub fn is_clean(&self) -> (r: bool)
        ensures
            r == self.clean(),
    {
        self.syntax_errors == 0 && self.runtime_errors == 0
    }

    /// How many errors there were, of both kinds.
    pub fn errors(&self) -> (r: u64)
        ensures
            r == self.syntax_errors + self.runtime_errors,
    {
        self.syntax_errors as u64 + self.runtime_errors as u64
    }
}

/// The length that the errors of a sample are scaled by: its words, at least
/// one.
pub fn code_length(code: &str) -> (r: usize)
    ensures
        r == if runs_of(code@, CharClass::NonBlank).len() == 0 {
            1
        } else {
            runs_of(code@, CharClass::NonBlank).len()
        },
{
    let words = runs(code, CharClass::NonBlank);
    assert(views(words@).len() == words@.len());
    if words.len() == 0 {
        1
    } else {
        words.len()
    }
}

/// What an agent is told of the errors in its sample.
pub open spec fn sample_note(syntax: nat, runtime: nat) -> Seq<char> {
    "Your submitted code had "@ + decimal(syntax) + " syntax error(s) and "@ + decimal(runtime)
        + " runtime error(s), which reduced its performance score. Fix these and evolve a new sample."@
}

/// What an agent is told of the errors in the baseline.
pub open spec fn baseline_note(algorithm: Seq<char>, syntax: nat, runtime: nat) -> Seq<char> {
    "The original '"@ + algorithm + "' baseline code failed in the sandbox ("@ + decimal(syntax)
        + " syntax error(s), "@ + decimal(runtime)
        + " runtime error(s)), so performance couldn't be scaled against it this round. If you can, write a corrected baseline via the database tool (category: 'code', algorithm: '"@
        + algorithm
        + "', no 'agent' field) defining `def run(train_path, test_path) -> float`."@
}

/// What an agent is told besides the numbers.
pub open spec fn notes_for(sample: SandboxResult, baseline: SandboxResult, algorithm: Seq<char>) -> Seq<
    Seq<char>,
> {
    let first = if sample.clean() {
        Seq::empty()
    } else {
        seq![sample_note(sample.syntax_errors as nat, sample.runtime_errors as nat)]
    };
    if baseline.clean() {
        first
    } else {
        first.push(
            baseline_note(
                algorithm,
                baseline.syntax_errors as nat,
                baseline.runtime_errors as nat,
            ),
        )
    }
}

/// Writes what an agent is told besides the numbers.
pub fn evaluation_notes(sample: &SandboxResult, baseline: &SandboxResult, algorithm: &str) -> (r: Vec<
    String,
>)
    ensures
        string_views(r@) == notes_for(*sample, *baseline, algorithm@),
{
    let mut notes: Vec<String> = Vec::new();
    assert(string_views(notes@) =~= Seq::<Seq<char>>::empty());
    if !sample.is_clean() {
        let mut out = "Your submitted code had ".to_owned();
        out.append(write_decimal(sample.syntax_errors as u64).as_str());
        out.append(" syntax error(s) and ");
        out.append(write_decimal(sample.runtime_errors as u64).as_str());
        out.append(
            " runtime error(s), which reduced its performance score. Fix these and evolve a new sample.",
        );
        notes.push(out);
        assert(string_views(notes@) =~= seq![out@]);
    }
    if !baseline.is_clean() {
        let mut out = "The original '".to_owned();
        out.append(algorithm);
        out.append("' baseline code failed in the sandbox (");
        out.append(write_decimal(baseline.syntax_errors as u64).as_str());
        out.append(" syntax error(s), ");
        out.append(write_decimal(baseline.runtime_errors as u64).as_str());
        out.append(
            " runtime error(s)), so performance couldn't be scaled against it this round. If you can, write a corrected baseline via the database tool (category: 'code', algorithm: '",
        );
        out.append(algorithm);
        out.append("', no 'agent' field) defining `def run(train_path, test_path) -> float`.");
        let ghost before = string_views(notes@);
        notes.push(out);
        assert(string_views(notes@) =~= before.push(out@));
    }
    notes
}

/// What an evaluation says of an agent's place.
#[derive(Debug)]
pub struct Report {
    pub baseline_ok: bool,
    pub rank_position: usize,
    pub agent_count: usize,
    pub notes: Vec<String>,
}

/// Records an evaluation and says where its agent stands now.
pub fn run(
    evaluations: &mut Evaluations,
    agent: &str,
    algorithm: &str,
    evaluation: AgentEvaluation,
    sample: &SandboxResult,
    baseline: &SandboxResult,
) -> (r: Report)
    requires
        old(evaluations).wf(),
    ensures
        final(evaluations).wf(),
        final(evaluations).of(agent@) == Some(evaluation),
        forall|name: Seq<char>|
            name != agent@ ==> #[trigger] final(evaluations).of(name) == old(evaluations).of(
                name,
            ),
        r.baseline_ok == baseline.clean(),
        place_of(ranked_agents(final(evaluations).rows@), agent@, 0) == Some(
            r.rank_position as nat,
        ),
        r.agent_count == final(evaluations).rows@.len(),
        string_views(r.notes@) == notes_for(*sample, *baseline, algorithm@),
{
    evaluations.record(agent, evaluation);
    proof {
        evaluated_agents_are_ranked(*evaluations, agent@);
        positions_rank_agents(evaluations.rows@);
        lemma_evaluated_row(evaluations.rows@, agent@, 0);
    }
    let notes = evaluation_notes(sample, baseline, algorithm);
    let (rank_position, agent_count): (usize, usize) = match compute_rank_positions(evaluations) {
        Ok(places) => {
            assert(place_views(places@).len() == places@.len());
            match find_place(&places, agent) {
                Some(p) => (p, places.len()),
                None => (0, places.len()),
            }
        },
        Err(_) => (0, 0),
    };
    Report { baseline_ok: baseline.is_clean(), rank_position, agent_count, notes }
}

/// An agent's evaluation is that of the row that bears its name; an agent without a
/// row has none.
pub proof fn evaluations_go_by_agent(evaluations: Evaluations, agent: Seq<char>, k: int)
    requires
        0 <= k <= evaluations.rows@.len(),
        forall|j: int| 0 <= j < k ==> (#[trigger] evaluations.rows@[j]).agent@ != agent,
    ensures
        k < evaluations.rows@.len() && evaluations.rows@[k].agent@ == agent ==> evaluations.of(agent)
            == Some(evaluations.rows@[k].evaluation),
        k == evaluations.rows@.len() ==> evaluations.of(agent) is None,
{
    if k == evaluations.rows@.len() {
        lemma_no_evaluation(evaluations.rows@, agent, 0);
    } else if evaluations.rows@[k].agent@ == agent {
        lemma_evaluation_at(evaluations.rows@, agent, 0, k);
    }
}

/// Agents are ranked by their combined value, the greatest first, and equals in the
/// order in which they were first evaluated; the first has position one.
pub proof fn agents_are_ranked_by_value(rows: Seq<NamedEvaluation>, p: int, q: int)
    requires
        0 <= p < rows.len(),
        0 <= q < rows.len(),
        rows[p].evaluation.combined.key > rows[q].evaluation.combined.key || (
        rows[p].evaluation.combined.key == rows[q].evaluation.combined.key && p < q),
    ensures
        exists|i: int, j: int|
            {
                &&& 0 <= i < j < rows.len()
                &&& #[trigger] ranked_agents(rows)[i] == (rows[p].agent@, (i + 1) as nat)
                &&& #[trigger] ranked_agents(rows)[j] == (rows[q].agent@, (j + 1) as nat)
            },
{
    let keys = evaluation_ranks(rows);
    let order = ranking(keys);
    ranking_lists_best_first(keys);
    rankings_keep_the_order(keys, p, q);
    let (i, j) = choose|i: int, j: int|
        0 <= i < j < keys.len() && #[trigger] order[i] == p && #[trigger] order[j] == q;
    assert(ranked_agents(rows)[i] == (rows[p].agent@, (i + 1) as nat));
    assert(ranked_agents(rows)[j] == (rows[q].agent@, (j + 1) as nat));
}

proof fn lemma_place_of(places: Seq<(Seq<char>, nat)>, agent: Seq<char>, i: int, k: int)
    requires
        0 <= i <= k <= places.len(),
        forall|j: int| i <= j < k ==> (#[trigger] places[j]).0 != agent,
    ensures
        k < places.len() && places[k].0 == agent ==> place_of(places, agent, i) == Some(
            places[k].1,
        ),
        k == places.len() ==> place_of(places, agent, i) is None,
    decreases k - i,
{
    if i < k {
        lemma_place_of(places, agent, i + 1, k);
    }
}

/// An agent's position is that of the first place that bears its name; an agent
/// without a place has none.
pub proof fn places_go_by_agent(places: Seq<(Seq<char>, nat)>, agent: Seq<char>, k: int)
    requires
        0 <= k <= places.len(),
        forall|j: int| 0 <= j < k ==> (#[trigger] places[j]).0 != agent,
    ensures
        k < places.len() && places[k].0 == agent ==> place_of(places, agent, 0) == Some(
            places[k].1,
        ),
        k == places.len() ==> place_of(places, agent, 0) is None,
{
    lemma_place_of(places, agent, 0, k);
}

proof fn lemma_last_match(entries: Seq<RelationalEntry>, q: ReadView, k: int)
    requires
        0 <= k <= entries.len(),
        forall|j: int| k <= j < entries.len() ==> !q.admits(#[trigger] entries[j]),
    ensures
        k > 0 && q.admits(entries[k - 1]) ==> matching(entries, q).len() > 0 && matching(
            entries,
            q,
        ).last() == entries[k - 1],
        k == 0 ==> matching(entries, q).len() == 0,
    decreases entries.len() - k,
{
    if k < entries.len() {
        let front = entries.drop_last();
        assert(!q.admits(entries[entries.len() - 1]));
        assert forall|j: int| k <= j < front.len() implies !q.admits(#[trigger] front[j]) by {
            assert(front[j] == entries[j]);
        }
        lemma_last_match(front, q, k);
    }
}

/// Whether an entry is code that an agent wrote for an algorithm.
pub open spec fn is_sample(e: RelationalEntry, agent: Seq<char>, algorithm: Seq<char>) -> bool {
    &&& e.category@ == "code"@
    &&& e.agent is Some && e.agent->0@ == agent
    &&& e.algorithm is Some && e.algorithm->0@ == algorithm
}

/// The sample of an agent is the code of its that was stored last for the
/// algorithm.
pub proof fn samples_are_the_latest(
    entries: Seq<RelationalEntry>,
    agent: Seq<char>,
    algorithm: Seq<char>,
    k: int,
)
    requires
        0 <= k <= entries.len(),
        forall|j: int|
            k <= j < entries.len() ==> !is_sample(#[trigger] entries[j], agent, algorithm),
    ensures
        k > 0 && is_sample(entries[k - 1], agent, algorithm) ==> latest_sample(
            entries,
            agent,
            algorithm,
        ) == Some(entries[k - 1].code@),
        k == 0 ==> latest_sample(entries, agent, algorithm) is None,
{
    let q = ReadView {
        top_n: 1,
        category: CODE@,
        agent: Some(agent),
        algorithm: Some(algorithm),
    };
    assert forall|e: RelationalEntry| #[trigger] q.admits(e) == is_sample(e, agent, algorithm) by {
        reads_go_by_tags(q, e);
    }
    assert forall|j: int| k <= j < entries.len() implies !q.admits(#[trigger] entries[j]) by {
        assert(!is_sample(entries[j], agent, algorithm));
    }
    lemma_last_match(entries, q, k);
}

/// The best entry of a category for an algorithm is one of those that are stored,
/// and none of them ranks higher; where there is none, nothing is stored for it.
pub proof fn best_entries_rank_highest(
    entries: Seq<RelationalEntry>,
    category: Seq<char>,
    algorithm: Seq<char>,
)
    ensures
        match best_entry(entries, category, algorithm) {
            Some(code) => exists|b: RelationalEntry|
                {
                    &&& #[trigger] entries.contains(b)
                    &&& b.category@ == category
                    &&& b.algorithm is Some && b.algorithm->0@ == algorithm
                    &&& b.code@ == code
                    &&& forall|e: RelationalEntry| #[trigger]
                        entries.contains(e) && e.category@ == category && e.algorithm is Some
                            && e.algorithm->0@ == algorithm ==> e.rank_score.key
                            <= b.rank_score.key
                },
            None => forall|e: RelationalEntry| #[trigger]
                entries.contains(e) ==> e.category@ != category || e.algorithm is None
                    || e.algorithm->0@ != algorithm,
        },
{
    let q = ReadView { top_n: 1, category, agent: None, algorithm: Some(algorithm) };
    let top = top_entries(entries, q);
    let pool = matching(entries, q);
    let list = ranked_entries(pool);
    reads_find_something(entries, q);
    reads_are_ranked(entries, q);
    reads_give_the_first_of_the_ranked(entries, q);
    if top.len() > 0 {
        let b = top[0];
        reads_go_by_tags(q, b);
        assert forall|e: RelationalEntry| #[trigger]
            entries.contains(e) && e.category@ == category && e.algorithm is Some
                && e.algorithm->0@ == algorithm implies e.rank_score.key <= b.rank_score.key by {
            reads_go_by_tags(q, e);
            matching_is_exact(entries, q, e);
            let k = choose|k: int| 0 <= k < pool.len() && pool[k] == e;
            let keys = entry_ranks(pool);
            let order = ranking(keys);
            ranking_lists_best_first(keys);
            ranking_lists_all(keys, k);
            let i = choose|i: int| 0 <= i < order.len() && order[i] == k;
            assert(list[i] == e);
            if i > 0 {
                assert(order[0] != order[i] && ahead(keys, order[0], order[i]));
                assert(keys[order[0]] == entry_rank(b));
                assert(keys[order[i]] == entry_rank(e));
            }
        }
    } else {
        assert forall|e: RelationalEntry| #[trigger] entries.contains(e) implies e.category@
            != category || e.algorithm is None || e.algorithm->0@ != algorithm by {
            reads_go_by_tags(q, e);
        }
    }
}

/// An evaluation works on what is given where it is given, and else on what is
/// stored: the agent's own latest sample, the baseline, and the best training and
/// test data. Where one of these is neither given nor stored, the first such one is
/// the error.
pub proof fn inputs_are_given_or_stored(
    args: Tree,
    entries: Seq<RelationalEntry>,
    agent: Seq<char>,
    algorithm: Seq<char>,
)
    ensures
        ({
            let sample = args.text_member("candidate"@);
            let original = args.text_member("original_code"@);
            let training = args.text_member("training_data"@);
            let test = args.text_member("test_data"@);
            match inputs_of(args, entries, agent, algorithm) {
                Ok(i) => {
                    &&& sample is Some ==> i.sample_code == sample->0
                    &&& sample is None ==> latest_sample(entries, agent, algorithm) == Some(
                        i.sample_code,
                    )
                    &&& original is Some ==> i.original_code == original->0
                    &&& original is None ==> baseline_code(entries, algorithm) == Some(
                        i.original_code,
                    )
                    &&& training is Some ==> i.training_data == training->0
                    &&& training is None ==> best_entry(entries, "training_data"@, algorithm)
                        == Some(i.training_data)
                    &&& test is Some ==> i.test_data == test->0
                    &&& test is None ==> best_entry(entries, "test_data"@, algorithm) == Some(
                        i.test_data,
                    )
                },
                Err(e) => if sample is None && latest_sample(entries, agent, algorithm) is None {
                    e == no_sample(agent, algorithm)
                } else if original is None && baseline_code(entries, algorithm) is None {
                    e == no_baseline(algorithm)
                } else if training is None && best_entry(
                    entries,
                    "training_data"@,
                    algorithm,
                ) is None {
                    e == no_entry("training_data"@, algorithm)
                } else {
                    &&& test is None && best_entry(entries, "test_data"@, algorithm) is None
                    &&& e == no_entry("test_data"@, algorithm)
                },
            }
        }),
{
}

/// What is missing is told by the algorithm, and by the agent or the category.
pub proof fn missing_inputs_are_named(
    agent: Seq<char>,
    category: Seq<char>,
    algorithm: Seq<char>,
)
    ensures
        in_order(no_sample(agent, algorithm), seq![algorithm, agent]),
        in_order(no_baseline(algorithm), seq![algorithm, algorithm]),
        in_order(no_entry(category, algorithm), seq![category, algorithm, category, algorithm]),
{
    lemma_no_sample_names(agent, algorithm);
    lemma_no_baseline_names(algorithm);
    lemma_no_entry_names(category, algorithm);
}

proof fn lemma_no_sample_names(agent: Seq<char>, algorithm: Seq<char>)
    ensures
        in_order(no_sample(agent, algorithm), seq![algorithm, agent]),
{
    let mut t = "no '"@;
    let mut p = Seq::<Seq<char>>::empty();
    show_part(t, p, algorithm);
    t = t + algorithm;
    p = p.push(algorithm);
    show_gap(t, p, "' sample found in the database for agent '"@);
    t = t + "' sample found in the database for agent '"@;
    show_part(t, p, agent);
    t = t + agent;
    p = p.push(agent);
    show_gap(t, p, "'; run 'evolution' for this agent first, or pass 'candidate' explicitly"@);
    t = t + "'; run 'evolution' for this agent first, or pass 'candidate' explicitly"@;
    assert(t == no_sample(agent, algorithm));
    assert(p =~= seq![algorithm, agent]);
}

proof fn lemma_no_baseline_names(algorithm: Seq<char>)
    ensures
        in_order(no_baseline(algorithm), seq![algorithm, algorithm]),
{
    let mut t = "no baseline (agent-less) 'code' entry found for algorithm '"@;
    let mut p = Seq::<Seq<char>>::empty();
    show_part(t, p, algorithm);
    t = t + algorithm;
    p = p.push(algorithm);
    show_gap(t, p, "'; write the original "@);
    t = t + "'; write the original "@;
    show_gap(t, p, "implementation first (database write with category: 'code', algorithm: '"@);
    t = t + "implementation first (database write with category: 'code', algorithm: '"@;
    show_part(t, p, algorithm);
    t = t + algorithm;
    p = p.push(algorithm);
    show_gap(t, p, "', and no 'agent' field)"@);
    t = t + "', and no 'agent' field)"@;
    assert(t == no_baseline(algorithm));
    assert(p =~= seq![algorithm, algorithm]);
}

proof fn lemma_no_entry_names(category: Seq<char>, algorithm: Seq<char>)
    ensures
        in_order(no_entry(category, algorithm), seq![category, algorithm, category, algorithm]),
{
    let mut t = "no '"@;
    let mut p = Seq::<Seq<char>>::empty();
    show_part(t, p, category);
    t = t + category;
    p = p.push(category);
    show_gap(t, p, "' entry found for algorithm '"@);
    t = t + "' entry found for algorithm '"@;
    show_part(t, p, algorithm);
    t = t + algorithm;
    p = p.push(algorithm);
    show_gap(t, p, "' in the database; write one first (e.g. database write with category: '"@);
    t = t + "' in the database; write one first (e.g. database write with category: '"@;
    show_part(t, p, category);
    t = t + category;
    p = p.push(category);
    show_gap(t, p, "', algorithm: '"@);
    t = t + "', algorithm: '"@;
    show_part(t, p, algorithm);
    t = t + algorithm;
    p = p.push(algorithm);
    show_gap(t, p, "')"@);
    t = t + "')"@;
    assert(t == no_entry(category, algorithm));
    assert(p =~= seq![category, algorithm, category, algorithm]);
}

proof fn lemma_put_members(list: Seq<RelationalEntry>, e: RelationalEntry, i: int, x: RelationalEntry)
    requires
        0 <= i <= list.len(),
        put_sample(list, e, i).contains(x),
    ensures
        x == e || list.contains(x),
    decreases list.len() - i,
{
    let r = put_sample(list, e, i);
    let k = choose|k: int| 0 <= k < r.len() && r[k] == x;
    if i >= list.len() {
        if k < list.len() {
            assert(list[k] == x);
        }
    } else if option_view(list[i].agent) == option_view(e.agent) {
        if k != i {
            assert(list[k] == x);
        }
    } else {
        lemma_put_members(list, e, i + 1, x);
    }
}

/// What a sample is compared with is stored: nothing else comes in.
pub proof fn compared_samples_are_stored(
    pool: Seq<RelationalEntry>,
    me: Seq<char>,
    x: RelationalEntry,
)
    requires
        latest_of_others(pool, me).contains(x),
    ensures
        pool.contains(x),
        x.agent is Some && x.agent->0@ != me,
    decreases pool.len(),
{
    rivals_are_compared_once(pool, me);
    let list = latest_of_others(pool, me);
    let i = choose|i: int| 0 <= i < list.len() && list[i] == x;
    assert(option_view(list[i].agent) is Some);
    if pool.len() > 0 {
        let front = pool.drop_last();
        let rest = latest_of_others(front, me);
        assert(pool[pool.len() - 1] == pool.last());
        if pool.last().agent is Some && pool.last().agent->0@ != me {
            lemma_put_members(rest, pool.last(), 0, x);
        }
        if rest.contains(x) {
            compared_samples_are_stored(front, me, x);
            let k = choose|k: int| 0 <= k < front.len() && front[k] == x;
            assert(pool[k] == x);
        }
    }
}

/// An agent is told of the errors in its sample where there are any, and behind that
/// of those in the baseline: how many of each kind.
pub proof fn notes_count_the_errors(
    sample: SandboxResult,
    baseline: SandboxResult,
    algorithm: Seq<char>,
)
    ensures
        ({
            let notes = notes_for(sample, baseline, algorithm);
            let of_sample = sample.syntax_errors > 0 || sample.runtime_errors > 0;
            let of_baseline = baseline.syntax_errors > 0 || baseline.runtime_errors > 0;
            &&& !of_sample && !of_baseline ==> notes.len() == 0
            &&& of_sample && of_baseline ==> notes.len() == 2
            &&& of_sample != of_baseline ==> notes.len() == 1
            &&& of_sample ==> in_order(
                notes[0],
                seq![
                    "Your submitted code had "@,
                    decimal(sample.syntax_errors as nat),
                    " syntax error(s) and "@,
                    decimal(sample.runtime_errors as nat),
                    " runtime error(s), which reduced its performance score. Fix these and evolve a new sample."@,
                ],
            )
            &&& of_baseline ==> in_order(
                notes.last(),
                seq![
                    algorithm,
                    decimal(baseline.syntax_errors as nat),
                    " syntax error(s), "@,
                    decimal(baseline.runtime_errors as nat),
                    algorithm,
                ],
            )
        }),
        sample.clean() <==> sample.syntax_errors == 0 && sample.runtime_errors == 0,
{
    lemma_sample_note(sample.syntax_errors as nat, sample.runtime_errors as nat);
    lemma_baseline_note(algorithm, baseline.syntax_errors as nat, baseline.runtime_errors as nat);
}

proof fn lemma_sample_note(syntax: nat, runtime: nat)
    ensures
        in_order(
            sample_note(syntax, runtime),
            seq![
                "Your submitted code had "@,
                decimal(syntax),
                " syntax error(s) and "@,
                decimal(runtime),
                " runtime error(s), which reduced its performance score. Fix these and evolve a new sample."@,
            ],
        ),
{
    let last = " runtime error(s), which reduced its performance score. Fix these and evolve a new sample."@;
    let mut t = "Your submitted code had "@;
    lemma_whole("Your submitted code had "@);
    let mut p = seq!["Your submitted code had "@];
    show_part(t, p, decimal(syntax));
    t = t + decimal(syntax);
    p = p.push(decimal(syntax));
    show_part(t, p, " syntax error(s) and "@);
    t = t + " syntax error(s) and "@;
    p = p.push(" syntax error(s) and "@);
    show_part(t, p, decimal(runtime));
    t = t + decimal(runtime);
    p = p.push(decimal(runtime));
    show_part(t, p, last);
    t = t + last;
    p = p.push(last);
    assert(t == sample_note(syntax, runtime));
    assert(p =~= seq![
        "Your submitted code had "@,
        decimal(syntax),
        " syntax error(s) and "@,
        decimal(runtime),
        last,
    ]);
}

proof fn lemma_baseline_note(algorithm: Seq<char>, syntax: nat, runtime: nat)
    ensures
        in_order(
            baseline_note(algorithm, syntax, runtime),
            seq![algorithm, decimal(syntax), " syntax error(s), "@, decimal(runtime), algorithm],
        ),
{
    let mut t = "The original '"@;
    let mut p = Seq::<Seq<char>>::empty();
    show_part(t, p, algorithm);
    t = t + algorithm;
    p = p.push(algorithm);
    show_gap(t, p, "' baseline code failed in the sandbox ("@);
    t = t + "' baseline code failed in the sandbox ("@;
    show_part(t, p, decimal(syntax));
    t = t + decimal(syntax);
    p = p.push(decimal(syntax));
    show_part(t, p, " syntax error(s), "@);
    t = t + " syntax error(s), "@;
    p = p.push(" syntax error(s), "@);
    show_part(t, p, decimal(runtime));
    t = t + decimal(runtime);
    p = p.push(decimal(runtime));
    show_gap(t, p, " runtime error(s)), so performance couldn't be scaled against it this round. If you can, write a corrected baseline via the database tool (category: 'code', algorithm: '"@);
    t = t + " runtime error(s)), so performance couldn't be scaled against it this round. If you can, write a corrected baseline via the database tool (category: 'code', algorithm: '"@;
    show_part(t, p, algorithm);
    t = t + algorithm;
    p = p.push(algorithm);
    show_gap(t, p, "', no 'agent' field) defining `def run(train_path, test_path) -> float`."@);
    t = t + "', no 'agent' field) defining `def run(train_path, test_path) -> float`."@;
    assert(t == baseline_note(algorithm, syntax, runtime));
    assert(p =~= seq![
        algorithm,
        decimal(syntax),
        " syntax error(s), "@,
        decimal(runtime),
        algorithm,
    ]);
}

/// The model of what an evaluation works on is what it holds, and so is that of a
/// list of places.
pub proof fn inputs_are_what_they_hold(
    x: Inputs,
    e: String,
    places: Seq<(String, usize)>,
    i: int,
)
    ensures
        x@.sample_code == x.sample_code@,
        x@.original_code == x.original_code@,
        x@.training_data == x.training_data@,
        x@.test_data == x.test_data@,
        inputs_view(Ok(x)) == Ok::<InputsView, Seq<char>>(x@),
        inputs_view(Err(e)) == Err::<InputsView, Seq<char>>(e@),
        place_views(places).len() == places.len(),
        0 <= i < places.len() ==> place_views(places)[i].0 == places[i].0@ && place_views(
            places,
        )[i].1 == places[i].1,
{
}

} // verus!
