//! The reward of an agent for its rank, and what it is told of it.

use vstd::prelude::*;
use vstd::string::*;

use crate::agent::evaluator::{
    compute_rank_positions, find_place, place_of, place_views, positions_rank_agents, ranked_agents,
    Evaluations, NOBODY_EVALUATED,
};
use crate::digits::{decimal, write_usize};
use crate::json::{Json, Tree};
use crate::text::{in_order, lemma_whole, show_part};

verus! {

/// The reward for a rank position among `n` agents: the better half is
/// rewarded, the positions below half of `n`, and the best of two agents or more
/// in any case.
pub open spec fn reward_of(position: nat, n: nat) -> nat {
    if 2 * position < n || (position == 1 && n >= 2) {
        1
    } else {
        0
    }
}

/// The reward for a rank position among `n` agents.
pub fn reward_for(position: usize, n: usize) -> (r: u8)
    ensures
        r == reward_of(position as nat, n as nat),
{
    if (position < n && position < n - position) || (position == 1 && n >= 2) {
        1
    } else {
        0
    }
}

/// Who is ranked better than a rewarded agent is rewarded too.
pub proof fn reward_is_monotone(better: nat, position: nat, n: nat)
    requires
        better <= position,
        reward_of(position, n) == 1,
    ensures
        reward_of(better, n) == 1,
{
}

/// Of two agents or more, the best is rewarded; the last never is, and no agent
/// in the worse half is.
pub proof fn best_rank_is_rewarded(n: nat)
    ensures
        n >= 2 ==> reward_of(1, n) == 1,
        reward_of(n, n) == 0,
        forall|position: nat| 2 * position > n ==> #[trigger] reward_of(position, n) == 0,
{
}

/// A row of the leaderboard.
#[derive(Debug)]
pub struct RewardRow {
    pub agent: String,
    pub rank_position: usize,
    pub reward: u8,
}

/// The mathematical model of a row.
pub struct RewardRowView {
    pub agent: Seq<char>,
    pub rank_position: nat,
    pub reward: nat,
}

impl View for RewardRow {
    type V = RewardRowView;

    open spec fn view(&self) -> RewardRowView {
        RewardRowView {
            agent: self.agent@,
            rank_position: self.rank_position as nat,
            reward: self.reward as nat,
        }
    }
}

/// The models of some rows.
pub open spec fn reward_row_views(v: Seq<RewardRow>) -> Seq<RewardRowView> {
    v.map_values(|r: RewardRow| r@)
}

/// The leaderboard of some ranked agents.
pub open spec fn rewards_of(places: Seq<(Seq<char>, nat)>) -> Seq<RewardRowView> {
    places.map_values(
        |p: (Seq<char>, nat)|
            RewardRowView { agent: p.0, rank_position: p.1, reward: reward_of(p.1, places.len()) },
    )
}

/// What an agent is told of its rank and reward.
pub open spec fn feedback_text(position: nat, n: nat) -> Seq<char> {
    "Reinforcement feedback: your last sample ranked position "@ + decimal(position) + " of "@
        + decimal(n) + (if reward_of(position, n) == 1 {
        " agents and earned a reward of 1. Keep exploring in this direction."@
    } else {
        " agents and earned a reward of 0. Consider trying a different mutation strategy to improve your rank."@
    })
}

/// What an agent gets for its rank.
#[derive(Debug)]
pub struct Reinforcement {
    pub rank_position: usize,
    pub reward: u8,
    pub agent_count: usize,
    pub feedback_prompt: String,
    pub leaderboard: Vec<RewardRow>,
}

/// Why an agent gets nothing, where it does.
pub open spec fn refusal(args: Tree, places: Seq<(Seq<char>, nat)>, agent: Seq<char>) -> Option<
    Seq<char>,
> {
    if args.whole_member("episodes"@) == Some(0u64) {
        Some("'episodes' must be at least 1"@)
    } else if places.len() == 0 {
        Some(NOBODY_EVALUATED@)
    } else if place_of(places, agent, 0) is None {
        Some("agent '"@ + agent + "' has not been evaluated yet"@)
    } else {
        None
    }
}

/// Gives an agent its reward for its rank.
pub fn run(args: &Json, evaluations: &Evaluations, agent: &str) -> (r: Result<
    Reinforcement,
    String,
>)
    ensures
        ({
            let places = ranked_agents(evaluations.rows@);
            match r {
                Ok(x) => {
                    &&& refusal(args@, places, agent@) is None
                    &&& place_of(places, agent@, 0) == Some(x.rank_position as nat)
                    &&& x.reward == reward_of(x.rank_position as nat, places.len())
                    &&& x.agent_count == places.len()
                    &&& x.feedback_prompt@ == feedback_text(x.rank_position as nat, places.len())
                    &&& reward_row_views(x.leaderboard@) == rewards_of(places)
                },
                Err(e) => refusal(args@, places, agent@) == Some(e@),
            }
        }),
{
    proof {
        positions_rank_agents(evaluations.rows@);
    }
    if let Some(episodes) = args.whole_field("episodes") {
        if episodes == 0 {
            return Err("'episodes' must be at least 1".to_owned());
        }
    }
    let places = match compute_rank_positions(evaluations) {
        Ok(p) => p,
        Err(e) => {
            return Err(e);
        },
    };
    let ghost all = place_views(places@);
    let n: usize = places.len();
    assert(all.len() == n);
    let mut leaderboard: Vec<RewardRow> = Vec::new();
    let mut i: usize = 0;
    while i < places.len()
        invariant
            all == place_views(places@),
            n == places@.len(),
            all.len() == n,
            i <= n,
            leaderboard@.len() == i,
            forall|k: int| 0 <= k < i ==> (#[trigger] leaderboard@[k])@ == rewards_of(all)[k],
        decreases places.len() - i,
    {
        assert(all[i as int] == (places@[i as int].0@, places@[i as int].1 as nat));
        let row = RewardRow {
            agent: places[i].0.clone(),
            rank_position: places[i].1,
            reward: reward_for(places[i].1, n),
        };
        assert(row@ == rewards_of(all)[i as int]);
        leaderboard.push(row);
        i += 1;
    }
    assert(reward_row_views(leaderboard@) =~= rewards_of(all));
    let rank_position: usize = match find_place(&places, agent) {
        Some(p) => p,
        None => {
            let mut out = "agent '".to_owned();
            out.append(agent);
            out.append("' has not been evaluated yet");
            return Err(out);
        },
    };
    let reward: u8 = reward_for(rank_position, n);
    let mut feedback_prompt =
        "Reinforcement feedback: your last sample ranked position ".to_owned();
    feedback_prompt.append(write_usize(rank_position).as_str());
    feedback_prompt.append(" of ");
    feedback_prompt.append(write_usize(n).as_str());
    if reward == 1 {
        feedback_prompt.append(
            " agents and earned a reward of 1. Keep exploring in this direction.",
        );
    } else {
        feedback_prompt.append(
            " agents and earned a reward of 0. Consider trying a different mutation strategy to improve your rank.",
        );
    }
    Ok(Reinforcement { rank_position, reward, agent_count: n, feedback_prompt, leaderboard })
}

/// Positions below half of the number of agents are rewarded, and the best
/// position among two agents or more; all others are not.
pub proof fn rewards_go_to_the_better_half(position: nat, n: nat)
    ensures
        reward_of(position, n) == 1 || reward_of(position, n) == 0,
        2 * position < n ==> reward_of(position, n) == 1,
        n >= 2 ==> reward_of(1, n) == 1,
        position >= 2 && 2 * position >= n ==> reward_of(position, n) == 0,
        reward_of(1, 1) == 0,
{
}

/// The leaderboard has a row for every ranked agent, in order, with its position
/// and the reward for it.
pub proof fn leaderboards_reward_every_agent(places: Seq<(Seq<char>, nat)>, i: int)
    requires
        0 <= i < places.len(),
    ensures
        rewards_of(places).len() == places.len(),
        rewards_of(places)[i].agent == places[i].0,
        rewards_of(places)[i].rank_position == places[i].1,
        rewards_of(places)[i].reward == reward_of(places[i].1, places.len()),
{
}

/// An agent is told its position, how many agents there are and its reward; who is
/// rewarded is told to go on, and who is not to try something else.
pub proof fn feedback_tells_position_and_reward(position: nat, n: nat)
    ensures
        in_order(
            feedback_text(position, n),
            seq![
                "Reinforcement feedback: your last sample ranked position "@,
                decimal(position),
                " of "@,
                decimal(n),
                if reward_of(position, n) == 1 {
                    " agents and earned a reward of 1. Keep exploring in this direction."@
                } else {
                    " agents and earned a reward of 0. Consider trying a different mutation strategy to improve your rank."@
                },
            ],
        ),
{
    let last = if reward_of(position, n) == 1 {
        " agents and earned a reward of 1. Keep exploring in this direction."@
    } else {
        " agents and earned a reward of 0. Consider trying a different mutation strategy to improve your rank."@
    };
    let at = decimal(position);
    let all = decimal(n);
    let mut t = "Reinforcement feedback: your last sample ranked position "@;
    lemma_whole("Reinforcement feedback: your last sample ranked position "@);
    let mut p = seq!["Reinforcement feedback: your last sample ranked position "@];
    show_part(t, p, at);
    t = t + at;
    p = p.push(at);
    show_part(t, p, " of "@);
    t = t + " of "@;
    p = p.push(" of "@);
    show_part(t, p, all);
    t = t + all;
    p = p.push(all);
    show_part(t, p, last);
    t = t + last;
    p = p.push(last);
    assert(t == feedback_text(position, n));
    assert(p =~= seq![
        "Reinforcement feedback: your last sample ranked position "@,
        at,
        " of "@,
        all,
        last,
    ]);
}

/// A call without an episode is refused, and so is one before any agent was
/// evaluated, and one of an agent that was not; every other is served.
pub proof fn refusals_have_a_reason(args: Tree, places: Seq<(Seq<char>, nat)>, agent: Seq<char>)
    ensures
        args.whole_member("episodes"@) == Some(0u64) ==> refusal(args, places, agent) == Some(
            "'episodes' must be at least 1"@,
        ),
        args.whole_member("episodes"@) != Some(0u64) && places.len() == 0 ==> refusal(
            args,
            places,
            agent,
        ) == Some(NOBODY_EVALUATED@),
        args.whole_member("episodes"@) != Some(0u64) && places.len() > 0 && place_of(
            places,
            agent,
            0,
        ) is None ==> {
            &&& refusal(args, places, agent) is Some
            &&& in_order(
                refusal(args, places, agent)->0,
                seq!["agent '"@, agent, "' has not been evaluated yet"@],
            )
        },
        args.whole_member("episodes"@) != Some(0u64) && place_of(places, agent, 0) is Some
            ==> refusal(args, places, agent) is None,
{
    let mut t = "agent '"@;
    lemma_whole("agent '"@);
    let mut p = seq!["agent '"@];
    show_part(t, p, agent);
    t = t + agent;
    p = p.push(agent);
    show_part(t, p, "' has not been evaluated yet"@);
    t = t + "' has not been evaluated yet"@;
    p = p.push("' has not been evaluated yet"@);
    assert(p =~= seq!["agent '"@, agent, "' has not been evaluated yet"@]);
}

/// The model of a row is what it holds.
pub proof fn rows_are_what_they_hold(r: RewardRow, rows: Seq<RewardRow>, i: int)
    ensures
        r@.agent == r.agent@,
        r@.rank_position == r.rank_position,
        r@.reward == r.reward,
        reward_row_views(rows).len() == rows.len(),
        0 <= i < rows.len() ==> reward_row_views(rows)[i] == rows[i]@,
{
}

} // verus!
