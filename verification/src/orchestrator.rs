//! The course of a run: the baseline, the rounds, the barrier between them, and
//! when it ends.

use vstd::prelude::*;
use vstd::string::*;

use crate::agent::{find_row, row_of};
use crate::archive::{
    best_of, best_rival_of, owned_option, selected, standing_views, Archive, Candidate, FilterView,
    Standing,
};
use crate::digits::{decimal, write_decimal, write_usize};
use crate::harness::HarnessResult;
use crate::json::option_str_view;
use crate::measure::Measure;
use crate::prompts::StandingLine;
use crate::text::{in_order, lemma_whole, same, show_part, string_views};

verus! {

/// What a run is asked to do.
#[derive(Debug)]
pub struct RunOptions {
    pub task: String,
    pub goal: Option<String>,
    pub context_file: Option<String>,
    pub run_id: Option<String>,
    pub baseline_only: bool,
}

/// What is asked of a clustering algorithm unless the options say otherwise.
pub const CLUSTERING_GOAL: &'static str =
    "Reduce fit time and improve clustering quality (adjusted Rand index) of the implementation without using external libraries.";

/// What is asked of any other algorithm.
pub const CLASSIFICATION_GOAL: &'static str =
    "Reduce training and prediction time while keeping or improving held-out accuracy, without using external libraries.";

/// What is asked of an algorithm for a task of this kind.
pub open spec fn goal_for(kind: Seq<char>) -> Seq<char> {
    if kind == "clustering"@ {
        CLUSTERING_GOAL@
    } else {
        CLASSIFICATION_GOAL@
    }
}

/// What is asked of an algorithm for a task of this kind.
pub fn default_goal(kind: &str) -> (r: String)
    ensures
        r@ == goal_for(kind@),
{
    if same(kind, "clustering") {
        CLUSTERING_GOAL.to_owned()
    } else {
        CLASSIFICATION_GOAL.to_owned()
    }
}

impl RunOptions {
    /// The goal of the run, for a task of this kind.
    pub fn goal(&self, kind: &str) -> (r: String)
        ensures
            r@ == match self.goal {
                Some(g) => g@,
                None => goal_for(kind@),
            },
    {
        match &self.goal {
            Some(g) => g.clone(),
            None => default_goal(kind),
        }
    }

    /// The name of the run: as asked for, or after the task and the time.
    pub fn run_id(&self, task: &str, now: u64) -> (r: String)
        ensures
            r@ == match self.run_id {
                Some(id) => id@,
                None => task@ + "-"@ + decimal(now as nat),
            },
    {
        match &self.run_id {
            Some(id) => id.clone(),
            None => {
                let mut out = task.to_owned();
                out.append("-");
                out.append(write_decimal(now).as_str());
                out
            },
        }
    }
}

/// The names of `n` agents.
pub open spec fn names_of_agents(n: nat) -> Seq<Seq<char>> {
    Seq::new(n, |i: int| "agent-"@ + decimal((i + 1) as nat))
}

/// Names `n` agents.
pub fn agent_names(n: usize) -> (r: Vec<String>)
    ensures
        string_views(r@) == names_of_agents(n as nat),
{
    let mut out: Vec<String> = Vec::new();
    let mut i: usize = 0;
    while i < n
        invariant
            i <= n,
            out@.len() == i,
            forall|k: int| 0 <= k < i ==> (#[trigger] out@[k])@ == names_of_agents(n as nat)[k],
        decreases n - i,
    {
        i += 1;
        let mut name = "agent-".to_owned();
        name.append(write_usize(i).as_str());
        out.push(name);
    }
    assert(string_views(out@) =~= names_of_agents(n as nat));
    out
}

/// Agents have different names.
pub proof fn agent_names_differ(n: nat, i: int, j: int)
    requires
        0 <= i < n,
        0 <= j < n,
        names_of_agents(n)[i] == names_of_agents(n)[j],
    ensures
        i == j,
{
    let p = "agent-"@;
    let a = decimal((i + 1) as nat);
    let b = decimal((j + 1) as nat);
    assert((p + a).skip(p.len() as int) =~= a);
    assert((p + b).skip(p.len() as int) =~= b);
    crate::digits::lemma_decimal((i + 1) as nat);
    crate::digits::lemma_decimal((j + 1) as nat);
}

/// What the seed of a run is mixed with.
pub const SEED_MIX: u64 = 0x5eed_c0de;

/// The seed of the draws of a run.
pub fn rng_seed(seed: u64) -> (r: u64)
    ensures
        r == seed ^ SEED_MIX,
{
    seed ^ SEED_MIX
}

/// Why there is no competition without a key.
pub const NO_KEY: &'static str = "GEMINI_API_KEY is not set (copy .env.example to .env)";

/// What follows the measurement of the baselines.
#[derive(Debug)]
pub enum Start {
    /// Nothing more was asked for.
    Stop,
    /// The competition, with this key.
    Compete(String),
    /// An error.
    Refused(&'static str),
}

/// What follows the measurement of the baselines.
pub fn after_baseline(opts: &RunOptions, api_key: Option<String>) -> (r: Start)
    ensures
        r is Stop <==> opts.baseline_only,
        !opts.baseline_only ==> match api_key {
            Some(k) => r == Start::Compete(k),
            None => r matches Start::Refused(e) && e@ == NO_KEY@,
        },
{
    if opts.baseline_only {
        return Start::Stop;
    }
    match api_key {
        Some(k) => Start::Compete(k),
        None => Start::Refused(NO_KEY),
    }
}

/// The result of the reference implementation, where it can be used.
pub fn usable_reference(result: Option<HarnessResult>) -> (r: Option<HarnessResult>)
    ensures
        r == match result {
            Some(h) => if h.status@ == "ok"@ {
                Some(h)
            } else {
                None
            },
            None => None,
        },
{
    match result {
        Some(h) => {
            if h.is_ok() {
                Some(h)
            } else {
                None
            }
        },
        None => None,
    }
}

/// How far a run has come.
#[derive(Clone, Copy, Debug, PartialEq, Eq, Structural)]
pub struct Run {
    /// How many rounds there are at most.
    pub rounds: usize,
    /// How many are completed.
    pub completed: usize,
    /// Whether the threshold was reached.
    pub reached: bool,
}

impl Run {
    /// Whether this is a state that a run can be in.
    pub open spec fn wf(self) -> bool {
        &&& self.completed <= self.rounds
        &&& self.reached ==> self.completed > 0
    }

    /// The round that follows, where one does.
    pub open spec fn next(self) -> Option<usize> {
        if self.reached || self.completed >= self.rounds {
            None
        } else {
            Some((self.completed + 1) as usize)
        }
    }

    /// The run once a round has ended with this value.
    pub open spec fn after(self, mu: Measure, threshold: Measure) -> Run {
        Run {
            rounds: self.rounds,
            completed: (self.completed + 1) as usize,
            reached: mu.key >= threshold.key,
        }
    }

    /// A run that begins.
    pub fn start(rounds: usize) -> (r: Run)
        ensures
            r == (Run { rounds, completed: 0, reached: false }),
            r.wf(),
    {
        Run { rounds, completed: 0, reached: false }
    }

    /// The round that follows, where one does.
    pub fn next_round(&self) -> (r: Option<usize>)
        requires
            self.wf(),
        ensures
            r == self.next(),
    {
        if self.reached || self.completed >= self.rounds {
            None
        } else {
            Some(self.completed + 1)
        }
    }

    /// Ends a round. `mu` is the squashed performance of the best candidate,
    /// zero where there is none.
    pub fn end_round(&mut self, mu: Measure, threshold: Measure)
        requires
            old(self).wf(),
            old(self).next() is Some,
        ensures
            *final(self) == old(self).after(mu, threshold),
            final(self).wf(),
    {
        self.completed = self.completed + 1;
        self.reached = mu.at_least(threshold);
    }
}

/// The run once rounds have ended with these values, for as long as it goes on.
pub open spec fn run_after(rounds: usize, mus: Seq<Measure>, threshold: Measure) -> Run
    decreases mus.len(),
{
    if mus.len() == 0 {
        Run { rounds, completed: 0, reached: false }
    } else {
        let before = run_after(rounds, mus.drop_last(), threshold);
        if before.next() is Some {
            before.after(mus.last(), threshold)
        } else {
            before
        }
    }
}

/// A run completes no more rounds than there are, goes on as long as there are
/// rounds and the threshold is not reached, and stops once it is.
pub proof fn run_stops_at_threshold(rounds: usize, mus: Seq<Measure>, threshold: Measure)
    ensures
        ({
            let run = run_after(rounds, mus, threshold);
            &&& run.wf()
            &&& run.rounds == rounds
            &&& run.completed <= mus.len()
            &&& forall|i: int|
                0 <= i < run.completed - 1 ==> (#[trigger] mus[i]).key < threshold.key
            &&& run.reached <==> run.completed > 0 && mus[run.completed - 1].key >= threshold.key
            &&& run.completed < mus.len() ==> run.reached || run.completed == rounds
        }),
    decreases mus.len(),
{
    if mus.len() > 0 {
        let rest = mus.drop_last();
        run_stops_at_threshold(rounds, rest, threshold);
        let before = run_after(rounds, rest, threshold);
        let run = run_after(rounds, mus, threshold);
        assert forall|i: int| 0 <= i < run.completed - 1 implies (#[trigger] mus[i]).key
            < threshold.key by {
            assert(rest[i] == mus[i]);
        }
        if before.completed > 0 {
            assert(rest[before.completed - 1] == mus[before.completed - 1]);
        }
    }
}

/// What an agent learns from a round: its place, its reward, and the best
/// rival.
#[derive(Debug)]
pub struct Feedback<'a> {
    pub position: usize,
    pub reward: u8,
    pub rival: Option<&'a Candidate>,
}

/// What the agent called `name` learns from the standings after a round;
/// nothing where it is not among them.
pub fn feedback<'a>(archive: &'a Archive, standings: &Vec<Standing>, name: &str) -> (r: Option<
    Feedback<'a>,
>)
    ensures
        match row_of(standing_views(standings@), name@, 0) {
            Some(row) => {
                &&& r matches Some(f)
                &&& f.position == row.rank_position
                &&& f.reward == row.reward
                &&& owned_option(f.rival) == best_rival_of(
                    archive.entries@,
                    standing_views(standings@),
                    name@,
                )
            },
            None => r is None,
        },
{
    match find_row(standings, name) {
        Some(row) => Some(
            Feedback {
                position: row.rank_position,
                reward: row.reward,
                rival: archive.best_rival(standings, name),
            },
        ),
        None => None,
    }
}

/// A row of the leaderboard that is printed after a round.
pub open spec fn printed_row(line: StandingLine, best_id: Option<Seq<char>>) -> Seq<char> {
    line.line_text() + "  best "@ + match best_id {
        Some(id) => id,
        None => "-"@,
    }
}

/// Writes a row of the leaderboard that is printed after a round.
pub fn leaderboard_row(line: &StandingLine, best_id: Option<&str>) -> (r: String)
    ensures
        r@ == printed_row(*line, option_str_view(best_id)),
{
    let mut out = line.line();
    out.append("  best ");
    match best_id {
        Some(id) => {
            out.append(id);
        },
        None => {
            out.append("-");
        },
    }
    out
}

/// How many candidates a run produced, and what became of them.
#[derive(Debug)]
pub struct Tally<'a> {
    pub candidates: usize,
    pub valid_candidates: usize,
    pub rejected_near_duplicates: usize,
    pub rejected_invalid_shape: usize,
    pub best: Option<&'a Candidate>,
}

/// Counts what a run produced.
pub fn tally<'a>(archive: &'a Archive) -> (r: Tally<'a>)
    ensures
        r.candidates == archive.entries@.len(),
        r.valid_candidates == selected(
            archive.entries@,
            FilterView::valid_of_agent(None),
        ).len(),
        r.rejected_near_duplicates == archive.rejected_near_duplicates,
        r.rejected_invalid_shape == archive.rejected_invalid_shape,
        owned_option(r.best) == best_of(
            selected(archive.entries@, FilterView::valid_of_agent(None)),
        ),
{
    Tally {
        candidates: archive.len(),
        valid_candidates: archive.valid_count(),
        rejected_near_duplicates: archive.rejected_near_duplicates,
        rejected_invalid_shape: archive.rejected_invalid_shape,
        best: archive.best(),
    }
}

/// Clustering algorithms are asked for clustering quality, all others for accuracy.
pub proof fn goals_go_by_kind(kind: Seq<char>)
    ensures
        goal_for("clustering"@) == CLUSTERING_GOAL@,
        kind != "clustering"@ ==> goal_for(kind) == CLASSIFICATION_GOAL@,
{
}

/// Agents are named by their number, from one on.
pub proof fn agents_are_numbered_from_one(n: nat, i: int)
    requires
        0 <= i < n,
    ensures
        names_of_agents(n).len() == n,
        names_of_agents(n)[i] == "agent-"@ + decimal((i + 1) as nat),
{
}

/// A run goes on with the round behind the last, as long as there is one and the
/// threshold is not reached; ending a round completes one more, and reaches the
/// threshold where the value does.
pub proof fn rounds_follow_each_other(run: Run, mu: Measure, threshold: Measure)
    requires
        run.wf(),
    ensures
        run.reached ==> run.next() is None,
        run.completed == run.rounds ==> run.next() is None,
        !run.reached && run.completed < run.rounds ==> run.next() == Some(
            (run.completed + 1) as usize,
        ) && {
            let after = run.after(mu, threshold);
            &&& after.completed == run.completed + 1
            &&& after.rounds == run.rounds
            &&& after.reached <==> threshold.key <= mu.key
            &&& after.wf()
        },
{
}

/// A printed row is the row of the leaderboard and the id of the best candidate,
/// or a dash where there is none.
pub proof fn printed_rows_name_the_best(line: StandingLine, best_id: Option<Seq<char>>)
    ensures
        best_id is Some ==> in_order(
            printed_row(line, best_id),
            seq![line.line_text(), "  best "@, best_id->0],
        ),
        best_id is None ==> in_order(
            printed_row(line, best_id),
            seq![line.line_text(), "  best "@, "-"@],
        ),
{
    let row = line.line_text();
    let last = match best_id {
        Some(id) => id,
        None => "-"@,
    };
    let mut t = row;
    lemma_whole(row);
    let mut p = seq![row];
    show_part(t, p, "  best "@);
    t = t + "  best "@;
    p = p.push("  best "@);
    show_part(t, p, last);
    t = t + last;
    p = p.push(last);
    assert(t == printed_row(line, best_id));
    assert(p =~= seq![row, "  best "@, last]);
}

} // verus!
