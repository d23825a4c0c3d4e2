//! All prompt text in one place.
//!
//! Numbers that were measured or configured as fractions come as text, written
//! with as many digits as the place asks for.

use vstd::prelude::*;
use vstd::string::*;

use crate::archive::{Parent, ParentView};
use crate::digits::{decimal, write_usize};
use crate::gemini::{truncate, truncated};
use crate::json::{option_str_view, option_view};
use crate::text::{
    contains_text, in_order, is_blank, is_blank_text, join, joined, joined_parts_are_in_order,
    lemma_orders_join, lemma_whole, order_is_containment, pad_right, padded, show_gap, show_part,
    spaces, string_views, trimmed_texts_keep_the_rest, white_space,
};

verus! {

/// What the model that writes candidates is told it is.
pub const GENERATION_SYSTEM: &'static str =
    "You are an expert in numerical algorithms and NumPy performance engineering. You write correct, vectorised, dependency-free Python. You reply with code only.";

/// What every prompt says of the task. The numbers come as text: the quality
/// and the time of the baseline to four and five digits, the least valid
/// quality to four, the others as configured.
#[derive(Debug)]
pub struct Brief {
    pub description: String,
    pub goal: String,
    pub contract: String,
    pub least_quality: String,
    pub quality: String,
    pub tolerance: String,
    pub time: String,
    pub quality_exponent: String,
    pub speed_exponent: String,
}

impl Brief {
    /// What a candidate must keep to.
    pub open spec fn constraints_text(self) -> Seq<char> {
        "Constraints:\n- "@ + self.contract@
            + "\n- Only `numpy` (already imported as `np` above the block) and the Python standard library may be imported. scikit-learn, scipy and every other package are rejected.\n- Your output replaces everything between `# EVOLVE-BLOCK-START` and `# EVOLVE-BLOCK-END`, so it must be complete: helper functions plus the whole `class Model`.\n- Quality must stay at or above "@
            + self.least_quality@ + " (baseline "@ + self.quality@ + " minus tolerance "@
            + self.tolerance@
            + "); otherwise the candidate is invalid no matter how fast it is.\n- Lower wall time (fit + predict) is rewarded: performance = (quality/"@
            + self.quality@ + ")^"@ + self.quality_exponent@ + " x ("@ + self.time@ + "s/time)^"@
            + self.speed_exponent@ + "."@
    }

    /// What a candidate must keep to.
    pub fn constraints(&self) -> (r: String)
        ensures
            r@ == self.constraints_text(),
    {
        let mut out = "Constraints:\n- ".to_owned();
        out.append(self.contract.as_str());
        out.append(
            "\n- Only `numpy` (already imported as `np` above the block) and the Python standard library may be imported. scikit-learn, scipy and every other package are rejected.\n- Your output replaces everything between `# EVOLVE-BLOCK-START` and `# EVOLVE-BLOCK-END`, so it must be complete: helper functions plus the whole `class Model`.\n- Quality must stay at or above ",
        );
        out.append(self.least_quality.as_str());
        out.append(" (baseline ");
        out.append(self.quality.as_str());
        out.append(" minus tolerance ");
        out.append(self.tolerance.as_str());
        out.append(
            "); otherwise the candidate is invalid no matter how fast it is.\n- Lower wall time (fit + predict) is rewarded: performance = (quality/",
        );
        out.append(self.quality.as_str());
        out.append(")^");
        out.append(self.quality_exponent.as_str());
        out.append(" x (");
        out.append(self.time.as_str());
        out.append("s/time)^");
        out.append(self.speed_exponent.as_str());
        out.append(".");
        out
    }

    /// How a prompt for a candidate begins.
    pub open spec fn opening_text(self, guidance: Option<Seq<char>>) -> Seq<char> {
        "Task: "@ + self.description@ + "\nGoal: "@ + self.goal@ + "\n\n"@
            + self.constraints_text() + "\n\n"@ + guidance_text(guidance) + "\n"@
    }

    /// How a prompt for a candidate begins.
    fn opening(&self, guidance: Option<&str>) -> (r: String)
        ensures
            r@ == self.opening_text(option_str_view(guidance)),
    {
        let mut out = "Task: ".to_owned();
        out.append(self.description.as_str());
        out.append("\nGoal: ");
        out.append(self.goal.as_str());
        out.append("\n\n");
        out.append(self.constraints().as_str());
        out.append("\n\n");
        out.append(guidance_line(guidance).as_str());
        out.append("\n");
        out
    }
}

/// What a prompt passes on of the supervising agent's strategy.
pub open spec fn guidance_text(guidance: Option<Seq<char>>) -> Seq<char> {
    match guidance {
        Some(g) => "Strategy from the supervising agent: "@ + g + "\n"@,
        None => Seq::empty(),
    }
}

fn guidance_line(guidance: Option<&str>) -> (r: String)
    ensures
        r@ == guidance_text(option_str_view(guidance)),
{
    match guidance {
        Some(g) => {
            let mut out = "Strategy from the supervising agent: ".to_owned();
            out.append(g);
            out.append("\n");
            out
        },
        None => {
            let out = String::new();
            assert(out@ =~= Seq::<char>::empty());
            out
        },
    }
}

/// What a prompt shows of a parent, with its metrics as text.
pub open spec fn parent_text(title: Seq<char>, p: ParentView, metrics: Seq<char>) -> Seq<char> {
    title + ": "@ + p.label + "\nMetrics: "@ + metrics + "\n```python\n"@ + p.block
        + "\n```\n"@
}

fn parent_section(title: &str, p: &Parent, metrics: &str) -> (r: String)
    ensures
        r@ == parent_text(title@, p@, metrics@),
{
    let mut out = title.to_owned();
    out.append(": ");
    out.append(p.label.as_str());
    out.append("\nMetrics: ");
    out.append(metrics);
    out.append("\n```python\n");
    out.append(p.block.as_str());
    out.append("\n```\n");
    out
}

/// What a mutation is asked for with.
pub const MUTATE_REQUEST: &'static str =
    "\nProduce ONE improved variant of the parent. Make a real algorithmic, numerical or vectorisation change (initialisation, convergence, data layout, avoiding Python loops, better numerics), not cosmetic edits. Keep the code self-contained.\nRespond with ONLY the Python code for the block. No markdown fences, no explanation.";

/// What a crossover is asked for with.
pub const CROSSOVER_REQUEST: &'static str =
    "\nProduce ONE new implementation that combines the strengths of Parent A and Parent B (for example A's algorithmic idea with B's vectorisation), and improves on both. Do not copy either parent verbatim.\nRespond with ONLY the Python code for the block. No markdown fences, no explanation.";

/// The prompt for a variant of one parent.
pub open spec fn mutate_text(
    brief: Brief,
    p: ParentView,
    metrics: Seq<char>,
    guidance: Option<Seq<char>>,
) -> Seq<char> {
    brief.opening_text(guidance) + parent_text("Parent"@, p, metrics) + MUTATE_REQUEST@
}

/// The prompt for a combination of two parents.
pub open spec fn crossover_text(
    brief: Brief,
    a: ParentView,
    a_metrics: Seq<char>,
    b: ParentView,
    b_metrics: Seq<char>,
    guidance: Option<Seq<char>>,
) -> Seq<char> {
    brief.opening_text(guidance) + parent_text("Parent A"@, a, a_metrics) + "\n"@ + parent_text(
        "Parent B"@,
        b,
        b_metrics,
    ) + CROSSOVER_REQUEST@
}

/// Writes the prompt for a variant of one parent.
pub fn mutate_prompt(
    brief: &Brief,
    parent: &Parent,
    metrics: &str,
    guidance: Option<&str>,
) -> (r: String)
    ensures
        r@ == mutate_text(*brief, parent@, metrics@, option_str_view(guidance)),
{
    let mut out = brief.opening(guidance);
    out.append(parent_section("Parent", parent, metrics).as_str());
    out.append(MUTATE_REQUEST);
    out
}

/// Writes the prompt for a combination of two parents.
pub fn crossover_prompt(
    brief: &Brief,
    a: &Parent,
    a_metrics: &str,
    b: &Parent,
    b_metrics: &str,
    guidance: Option<&str>,
) -> (r: String)
    ensures
        r@ == crossover_text(
            *brief,
            a@,
            a_metrics@,
            b@,
            b_metrics@,
            option_str_view(guidance),
        ),
{
    let mut out = brief.opening(guidance);
    out.append(parent_section("Parent A", a, a_metrics).as_str());
    out.append("\n");
    out.append(parent_section("Parent B", b, b_metrics).as_str());
    out.append(CROSSOVER_REQUEST);
    out
}

/// What an agent is told of the competition, besides the task.
#[derive(Debug)]
pub struct Rules {
    pub agents: usize,
    pub datasets: Vec<String>,
    pub budget: usize,
    /// The weight of novelty, as configured.
    pub novelty_weight: String,
    /// The threshold that ends the run, as configured.
    pub mu_threshold: String,
}

/// What the agent called `name` is told it is.
pub open spec fn agent_system_text(brief: Brief, rules: Rules, name: Seq<char>) -> Seq<char> {
    "You are "@ + name + ", one of "@ + decimal(rules.agents as nat)
        + " agents competing in CompeteEvolve, a system that improves machine-learning algorithm implementations through LLM-guided evolutionary search.\n\nTASK: "@
        + brief.description@ + "\nGOAL: "@ + brief.goal@ + "\n\n"@ + brief.constraints_text()
        + "\n\nHOW YOU ARE SCORED\n- Every candidate is executed for real by a Python harness on "@
        + joined(string_views(rules.datasets@), ", "@)
        + ". Nothing is estimated.\n- performance = 2^-(errors) x reliability x (quality/baseline)^"@
        + brief.quality_exponent@ + " x (baseline_time/time)^"@ + brief.speed_exponent@
        + ". 1.0 means 'as good as the seed'.\n- A candidate is VALID only if every fold ran without error and quality >= baseline - "@
        + brief.tolerance@
        + ".\n- novelty = 1 - mean similarity to the seed, your previous candidate and the rivals' best. Near-duplicates of anything already archived are rejected before evaluation.\n- rank score = squash(performance) x (1 - "@
        + rules.novelty_weight@ + " + "@ + rules.novelty_weight@
        + " x novelty), squash(x) = x/(1+x).\n- Agents are ranked by their best VALID candidate's rank score. The top half earn reward 1, the rest 0. The run stops once squash(best performance) >= "@
        + rules.mu_threshold@
        + ".\n\nTOOLS\n- evolve(operator, n_samples, guidance): a generator model writes n_samples candidates from parents sampled out of the shared archive ('mutate' = one parent, 'crossover' = two parents, one preferably from a rival). Your guidance steers what it changes. Each candidate is evaluated and archived; you get the metrics and errors back.\n- submit_code(code): evaluate a block you wrote yourself. Best for precise algorithmic changes or for fixing an error you saw.\n- archive(top_n, agent, include_code): inspect the best archived candidates.\n- leaderboard(): current standings, your reward, and the best rival's code.\n\nRULES\n- You have at most "@
        + decimal(rules.budget as nat)
        + " tool calls this round. Use them; prose alone scores nothing.\n- When you are done (or the budget is spent) reply with plain text: what worked, what failed, and the concrete strategy for your next round. That text is the only memory you keep.\n- Copying a rival's code earns nothing: it is rejected as a duplicate or scored with zero novelty."@
}

/// Writes what the agent called `name` is told it is.
pub fn agent_system(brief: &Brief, rules: &Rules, name: &str) -> (r: String)
    ensures
        r@ == agent_system_text(*brief, *rules, name@),
{
    let mut out = "You are ".to_owned();
    out.append(name);
    out.append(", one of ");
    out.append(write_usize(rules.agents).as_str());
    out.append(
        " agents competing in CompeteEvolve, a system that improves machine-learning algorithm implementations through LLM-guided evolutionary search.\n\nTASK: ",
    );
    out.append(brief.description.as_str());
    out.append("\nGOAL: ");
    out.append(brief.goal.as_str());
    out.append("\n\n");
    out.append(brief.constraints().as_str());
    out.append(
        "\n\nHOW YOU ARE SCORED\n- Every candidate is executed for real by a Python harness on ",
    );
    out.append(join(&rules.datasets, ", ").as_str());
    out.append(
        ". Nothing is estimated.\n- performance = 2^-(errors) x reliability x (quality/baseline)^",
    );
    out.append(brief.quality_exponent.as_str());
    out.append(" x (baseline_time/time)^");
    out.append(brief.speed_exponent.as_str());
    out.append(
        ". 1.0 means 'as good as the seed'.\n- A candidate is VALID only if every fold ran without error and quality >= baseline - ",
    );
    out.append(brief.tolerance.as_str());
    out.append(
        ".\n- novelty = 1 - mean similarity to the seed, your previous candidate and the rivals' best. Near-duplicates of anything already archived are rejected before evaluation.\n- rank score = squash(performance) x (1 - ",
    );
    out.append(rules.novelty_weight.as_str());
    out.append(" + ");
    out.append(rules.novelty_weight.as_str());
    out.append(
        " x novelty), squash(x) = x/(1+x).\n- Agents are ranked by their best VALID candidate's rank score. The top half earn reward 1, the rest 0. The run stops once squash(best performance) >= ",
    );
    out.append(rules.mu_threshold.as_str());
    out.append(
        ".\n\nTOOLS\n- evolve(operator, n_samples, guidance): a generator model writes n_samples candidates from parents sampled out of the shared archive ('mutate' = one parent, 'crossover' = two parents, one preferably from a rival). Your guidance steers what it changes. Each candidate is evaluated and archived; you get the metrics and errors back.\n- submit_code(code): evaluate a block you wrote yourself. Best for precise algorithmic changes or for fixing an error you saw.\n- archive(top_n, agent, include_code): inspect the best archived candidates.\n- leaderboard(): current standings, your reward, and the best rival's code.\n\nRULES\n- You have at most ",
    );
    out.append(write_usize(rules.budget).as_str());
    out.append(
        " tool calls this round. Use them; prose alone scores nothing.\n- When you are done (or the budget is spent) reply with plain text: what worked, what failed, and the concrete strategy for your next round. That text is the only memory you keep.\n- Copying a rival's code earns nothing: it is rejected as a duplicate or scored with zero novelty.",
    );
    out
}

/// A row of the leaderboard, with score and performance as text, to four
/// digits.
#[derive(Debug)]
pub struct StandingLine {
    pub rank_position: usize,
    pub agent: String,
    pub best_score: String,
    pub best_performance: String,
    pub reward: u8,
    pub valid_candidates: usize,
    pub candidates: usize,
}

impl StandingLine {
    /// This row as a line of text.
    pub open spec fn line_text(self) -> Seq<char> {
        "  #"@ + decimal(self.rank_position as nat) + " "@ + padded(self.agent@, 10) + " score "@
            + self.best_score@ + "  performance "@ + self.best_performance@ + "  reward "@
            + decimal(self.reward as nat) + "  valid "@ + decimal(self.valid_candidates as nat)
            + "/"@ + decimal(self.candidates as nat)
    }

    /// This row as a line of text.
    pub fn line(&self) -> (r: String)
        ensures
            r@ == self.line_text(),
    {
        let mut out = "  #".to_owned();
        out.append(write_usize(self.rank_position).as_str());
        out.append(" ");
        out.append(pad_right(self.agent.as_str(), 10).as_str());
        out.append(" score ");
        out.append(self.best_score.as_str());
        out.append("  performance ");
        out.append(self.best_performance.as_str());
        out.append("  reward ");
        out.append(write_usize(self.reward as usize).as_str());
        out.append("  valid ");
        out.append(write_usize(self.valid_candidates).as_str());
        out.append("/");
        out.append(write_usize(self.candidates).as_str());
        out
    }
}

/// Rows of the leaderboard as lines of text.
pub open spec fn line_texts(rows: Seq<StandingLine>) -> Seq<Seq<char>> {
    rows.map_values(|s: StandingLine| s.line_text())
}

/// What an agent is told of the round before: the leaderboard, its own place
/// and reward, and the best rival. The metrics of the rival come as text.
#[derive(Debug)]
pub struct RoundFeedback {
    pub standings: Vec<StandingLine>,
    pub position: usize,
    pub reward: u8,
    pub best_rival_id: Option<String>,
    pub best_rival_agent: Option<String>,
    pub best_rival_block: Option<String>,
    pub best_rival_metrics: Option<String>,
}

/// What the harness measured of the seed and of scikit-learn: quality and its
/// deviation to four digits, times to five.
#[derive(Debug)]
pub struct Baselines {
    pub quality: String,
    pub quality_std: String,
    pub fit_time: String,
    pub predict_time: String,
    /// Quality and total time of scikit-learn, where it was measured.
    pub reference: Option<(String, String)>,
}

/// How many characters of a candidate's code a round prompt shows.
pub const SHOWN_CODE: usize = 6000;

/// How many characters of its notes an agent gets back.
pub const SHOWN_NOTES: usize = 2500;

/// What a round prompt says of the baselines.
pub open spec fn baselines_text(b: Baselines) -> Seq<char> {
    let seed = "\n\nBaseline (seed) measured by the harness: quality "@ + b.quality@ + " (std "@
        + b.quality_std@ + "), fit "@ + b.fit_time@ + "s, predict "@ + b.predict_time@
        + "s per fold.\n"@;
    match b.reference {
        Some((quality, time)) => seed
            + "For reference, scikit-learn's own implementation scores quality "@ + quality@
            + " in "@ + time@ + "s per fold.\n"@,
        None => seed,
    }
}

fn baselines_section(b: &Baselines) -> (r: String)
    ensures
        r@ == baselines_text(*b),
{
    let mut out = "\n\nBaseline (seed) measured by the harness: quality ".to_owned();
    out.append(b.quality.as_str());
    out.append(" (std ");
    out.append(b.quality_std.as_str());
    out.append("), fit ");
    out.append(b.fit_time.as_str());
    out.append("s, predict ");
    out.append(b.predict_time.as_str());
    out.append("s per fold.\n");
    if let Some((quality, time)) = &b.reference {
        out.append("For reference, scikit-learn's own implementation scores quality ");
        out.append(quality.as_str());
        out.append(" in ");
        out.append(time.as_str());
        out.append("s per fold.\n");
    }
    out
}

/// What a round prompt says of the agent's own best candidate: its summary and
/// code, or that there is none, from the second round on.
pub open spec fn own_best_text(best: Option<(Seq<char>, Seq<char>)>, round: nat) -> Seq<char> {
    match best {
        Some((summary, block)) => "\nYOUR BEST VALID CANDIDATE SO FAR: "@ + summary
            + "\n```python\n"@ + truncated(block, SHOWN_CODE as nat) + "\n```\n"@,
        None => if round > 1 {
            "\nYou have no valid candidate yet. Priority: produce one that runs on every fold.\n"@
        } else {
            Seq::empty()
        },
    }
}

/// The characters of a pair of texts that may be missing.
pub open spec fn option_pair_view(p: Option<(&str, &str)>) -> Option<(Seq<char>, Seq<char>)> {
    match p {
        Some((a, b)) => Some((a@, b@)),
        None => None,
    }
}

fn own_best_section(best: Option<(&str, &str)>, round: usize) -> (r: String)
    ensures
        r@ == own_best_text(option_pair_view(best), round as nat),
{
    match best {
        Some((summary, block)) => {
            let mut out = "\nYOUR BEST VALID CANDIDATE SO FAR: ".to_owned();
            out.append(summary);
            out.append("\n```python\n");
            out.append(truncate(block, SHOWN_CODE).as_str());
            out.append("\n```\n");
            out
        },
        None => {
            if round > 1 {
                "\nYou have no valid candidate yet. Priority: produce one that runs on every fold.\n".to_owned()
            } else {
                let out = String::new();
                assert(out@ =~= Seq::<char>::empty());
                out
            }
        },
    }
}

/// What a round prompt gives back of the notes from the last round.
pub open spec fn notes_text(notes: Seq<char>) -> Seq<char> {
    if is_blank_text(notes) {
        Seq::empty()
    } else {
        "\nYOUR NOTES FROM LAST ROUND:\n"@ + truncated(notes, SHOWN_NOTES as nat) + "\n"@
    }
}

fn notes_section(notes: &str) -> (r: String)
    ensures
        r@ == notes_text(notes@),
{
    if is_blank(notes) {
        let out = String::new();
        assert(out@ =~= Seq::<char>::empty());
        out
    } else {
        let mut out = "\nYOUR NOTES FROM LAST ROUND:\n".to_owned();
        out.append(truncate(notes, SHOWN_NOTES).as_str());
        out.append("\n");
        out
    }
}

/// What the rewarded are told.
pub const KEEP_GOING: &'static str =
    "You are in the rewarded half. Keep the direction that worked and push it further.\n";

/// What the others are told.
pub const CHANGE_COURSE: &'static str =
    "You are in the unrewarded half. Change strategy: a different algorithmic idea, or crossover with a rival's approach.\n";

/// `t`, or a text in its place.
pub open spec fn text_or(t: Option<Seq<char>>, other: Seq<char>) -> Seq<char> {
    match t {
        Some(s) => s,
        None => other,
    }
}

/// What a round prompt says of the best rival.
pub open spec fn rival_text(fb: RoundFeedback) -> Seq<char> {
    match (fb.best_rival_agent, fb.best_rival_block) {
        (Some(agent), Some(block)) => "\nBEST RIVAL ("@ + agent@ + ", "@ + text_or(
            option_view(fb.best_rival_id),
            Seq::empty(),
        ) + "): "@ + text_or(option_view(fb.best_rival_metrics), "{}"@) + "\n```python\n"@
            + truncated(block@, SHOWN_CODE as nat) + "\n```\n"@,
        _ => Seq::empty(),
    }
}

/// What a round prompt says of the round before.
pub open spec fn feedback_text(fb: RoundFeedback, round: nat) -> Seq<char> {
    "\nREINFORCEMENT FEEDBACK: you finished round "@ + decimal((round - 1) as nat)
        + " at position "@ + decimal(fb.position as nat) + " of "@ + decimal(
        fb.standings@.len(),
    ) + " and earned reward "@ + decimal(fb.reward as nat) + ".\nLeaderboard:\n"@ + joined(
        line_texts(fb.standings@),
        "\n"@,
    ) + "\n"@ + (if fb.reward == 1 {
        KEEP_GOING@
    } else {
        CHANGE_COURSE@
    }) + rival_text(fb)
}

fn rival_section(fb: &RoundFeedback) -> (r: String)
    ensures
        r@ == rival_text(*fb),
{
    match (&fb.best_rival_agent, &fb.best_rival_block) {
        (Some(agent), Some(block)) => {
            let mut out = "\nBEST RIVAL (".to_owned();
            out.append(agent.as_str());
            out.append(", ");
            let ghost so_far = out@;
            if let Some(id) = &fb.best_rival_id {
                out.append(id.as_str());
            }
            assert(out@ =~= so_far + text_or(option_view(fb.best_rival_id), Seq::empty()));
            out.append("): ");
            match &fb.best_rival_metrics {
                Some(m) => {
                    out.append(m.as_str());
                },
                None => {
                    out.append("{}");
                },
            }
            out.append("\n```python\n");
            out.append(truncate(block.as_str(), SHOWN_CODE).as_str());
            out.append("\n```\n");
            out
        },
        _ => {
            let out = String::new();
            assert(out@ =~= Seq::<char>::empty());
            out
        },
    }
}

fn feedback_section(fb: &RoundFeedback, round: usize) -> (r: String)
    requires
        round >= 1,
    ensures
        r@ == feedback_text(*fb, round as nat),
{
    let mut table: Vec<String> = Vec::new();
    let ghost rows = line_texts(fb.standings@);
    let mut i: usize = 0;
    assert(string_views(table@) =~= rows.take(0));
    while i < fb.standings.len()
        invariant
            rows == line_texts(fb.standings@),
            i <= fb.standings@.len(),
            string_views(table@) == rows.take(i as int),
        decreases fb.standings.len() - i,
    {
        let ghost before = string_views(table@);
        table.push(fb.standings[i].line());
        assert(string_views(table@) =~= before.push(rows[i as int]));
        assert(rows.take(i + 1) =~= before.push(rows[i as int]));
        i += 1;
    }
    assert(rows.take(rows.len() as int) =~= rows);
    let mut out = "\nREINFORCEMENT FEEDBACK: you finished round ".to_owned();
    out.append(write_usize(round - 1).as_str());
    out.append(" at position ");
    out.append(write_usize(fb.position).as_str());
    out.append(" of ");
    out.append(write_usize(fb.standings.len()).as_str());
    out.append(" and earned reward ");
    out.append(write_usize(fb.reward as usize).as_str());
    out.append(".\nLeaderboard:\n");
    out.append(join(&table, "\n").as_str());
    out.append("\n");
    if fb.reward == 1 {
        out.append(KEEP_GOING);
    } else {
        out.append(CHANGE_COURSE);
    }
    out.append(rival_section(fb).as_str());
    out
}

/// What a round prompt passes on of the reference material, in the first round.
pub open spec fn context_text(context: Option<Seq<char>>, round: nat) -> Seq<char> {
    match context {
        Some(c) => if round == 1 {
            "\nREFERENCE MATERIAL (excerpt, may be truncated):\n"@ + c + "\n"@
        } else {
            Seq::empty()
        },
        None => Seq::empty(),
    }
}

fn context_section(context: Option<&str>, round: usize) -> (r: String)
    ensures
        r@ == context_text(option_str_view(context), round as nat),
{
    if round == 1 {
        if let Some(c) = context {
            let mut out = "\nREFERENCE MATERIAL (excerpt, may be truncated):\n".to_owned();
            out.append(c);
            out.append("\n");
            return out;
        }
    }
    let out = String::new();
    assert(out@ =~= Seq::<char>::empty());
    out
}

/// What an agent is told at the beginning of a round.
#[derive(Debug)]
pub struct RoundBrief<'a> {
    pub round: usize,
    pub rounds: usize,
    pub baselines: &'a Baselines,
    pub seed_block: &'a str,
    /// The summary, as text, and the code of the agent's best valid candidate.
    pub best: Option<(&'a str, &'a str)>,
    pub notes: &'a str,
    pub feedback: Option<&'a RoundFeedback>,
    pub context: Option<&'a str>,
    pub budget: usize,
}

/// What is said of the round before, where there was one.
pub open spec fn optional_feedback_text(fb: Option<&RoundFeedback>, round: nat) -> Seq<char> {
    match fb {
        Some(f) => feedback_text(*f, round),
        None => Seq::empty(),
    }
}

/// The prompt that a round begins with.
pub open spec fn round_text(b: RoundBrief) -> Seq<char> {
    "ROUND "@ + decimal(b.round as nat) + " of "@ + decimal(b.rounds as nat) + "."@
        + baselines_text(*b.baselines) + "\nSEED EVOLVE BLOCK (the original code):\n```python\n"@
        + b.seed_block@ + "\n```\n"@ + own_best_text(option_pair_view(b.best), b.round as nat)
        + notes_text(b.notes@) + optional_feedback_text(b.feedback, b.round as nat)
        + context_text(option_str_view(b.context), b.round as nat) + "\nYou have "@ + decimal(
        b.budget as nat,
    ) + " tool calls. Begin by calling a tool. Finish with your plain-text notes."@
}

/// Writes the prompt that a round begins with. There is feedback only on a
/// round that was finished.
pub fn round_prompt(b: &RoundBrief) -> (r: String)
    requires
        b.feedback is Some ==> b.round >= 1,
    ensures
        r@ == round_text(*b),
{
    let mut out = "ROUND ".to_owned();
    out.append(write_usize(b.round).as_str());
    out.append(" of ");
    out.append(write_usize(b.rounds).as_str());
    out.append(".");
    out.append(baselines_section(b.baselines).as_str());
    out.append("\nSEED EVOLVE BLOCK (the original code):\n```python\n");
    out.append(b.seed_block);
    out.append("\n```\n");
    out.append(own_best_section(b.best, b.round).as_str());
    out.append(notes_section(b.notes).as_str());
    let ghost so_far = out@;
    if let Some(fb) = b.feedback {
        out.append(feedback_section(fb, b.round).as_str());
    }
    assert(out@ =~= so_far + optional_feedback_text(b.feedback, b.round as nat));
    out.append(context_section(b.context, b.round).as_str());
    out.append("\nYou have ");
    out.append(write_usize(b.budget).as_str());
    out.append(" tool calls. Begin by calling a tool. Finish with your plain-text notes.");
    out
}

/// A line with the metrics of a candidate, which come as text.
pub open spec fn metrics_text(
    quality: Option<Seq<char>>,
    time: Option<Seq<char>>,
    performance: Seq<char>,
) -> Seq<char> {
    "quality "@ + text_or(quality, "-"@) + " time "@ + text_or(time, "-"@) + "s performance "@
        + performance
}

/// Writes a line with the metrics of a candidate: quality and performance
/// rounded to four digits, the time to five, as text.
pub fn metrics_line(quality: Option<&str>, time: Option<&str>, performance: &str) -> (r: String)
    ensures
        r@ == metrics_text(option_str_view(quality), option_str_view(time), performance@),
{
    let mut out = "quality ".to_owned();
    match quality {
        Some(q) => {
            out.append(q);
        },
        None => {
            out.append("-");
        },
    }
    out.append(" time ");
    match time {
        Some(t) => {
            out.append(t);
        },
        None => {
            out.append("-");
        },
    }
    out.append("s performance ");
    out.append(performance);
    out
}

/// A text that may be missing, or none.
pub open spec fn or_nothing(t: Option<Seq<char>>) -> Seq<char> {
    match t {
        Some(s) => s,
        None => Seq::empty(),
    }
}

/// What every prompt for a candidate shows of the task, in order.
pub open spec fn shown_of_task(brief: Brief) -> Seq<Seq<char>> {
    seq![
        brief.contract@,
        brief.least_quality@,
        brief.quality@,
        brief.tolerance@,
        brief.quality@,
        brief.quality_exponent@,
        brief.time@,
        brief.speed_exponent@,
    ]
}

/// The constraints name what a candidate must define, the least quality and what
/// it is made of, and what performance is computed with.
pub proof fn constraints_show_task(brief: Brief)
    ensures
        in_order(
            brief.constraints_text(),
            seq![
                brief.contract@,
                brief.least_quality@,
                brief.quality@,
                brief.tolerance@,
                brief.quality@,
                brief.quality_exponent@,
                brief.time@,
                brief.speed_exponent@,
            ],
        ),
{
    let mut t = "Constraints:\n- "@;
    let mut p = Seq::<Seq<char>>::empty();
    show_part(t, p, brief.contract@);
    t = t + brief.contract@;
    p = p.push(brief.contract@);
    show_gap(t, p, "\n- Only `numpy` (already imported as `np` above the block) and the Python standard library may be imported. scikit-learn, scipy and every other package are rejected.\n- Your output replaces everything between `# EVOLVE-BLOCK-START` and `# EVOLVE-BLOCK-END`, so it must be complete: helper functions plus the whole `class Model`.\n- Quality must stay at or above "@);
    t = t + "\n- Only `numpy` (already imported as `np` above the block) and the Python standard library may be imported. scikit-learn, scipy and every other package are rejected.\n- Your output replaces everything between `# EVOLVE-BLOCK-START` and `# EVOLVE-BLOCK-END`, so it must be complete: helper functions plus the whole `class Model`.\n- Quality must stay at or above "@;
    show_part(t, p, brief.least_quality@);
    t = t + brief.least_quality@;
    p = p.push(brief.least_quality@);
    show_gap(t, p, " (baseline "@);
    t = t + " (baseline "@;
    show_part(t, p, brief.quality@);
    t = t + brief.quality@;
    p = p.push(brief.quality@);
    show_gap(t, p, " minus tolerance "@);
    t = t + " minus tolerance "@;
    show_part(t, p, brief.tolerance@);
    t = t + brief.tolerance@;
    p = p.push(brief.tolerance@);
    show_gap(t, p, "); otherwise the candidate is invalid no matter how fast it is.\n- Lower wall time (fit + predict) is rewarded: performance = (quality/"@);
    t = t + "); otherwise the candidate is invalid no matter how fast it is.\n- Lower wall time (fit + predict) is rewarded: performance = (quality/"@;
    show_part(t, p, brief.quality@);
    t = t + brief.quality@;
    p = p.push(brief.quality@);
    show_gap(t, p, ")^"@);
    t = t + ")^"@;
    show_part(t, p, brief.quality_exponent@);
    t = t + brief.quality_exponent@;
    p = p.push(brief.quality_exponent@);
    show_gap(t, p, " x ("@);
    t = t + " x ("@;
    show_part(t, p, brief.time@);
    t = t + brief.time@;
    p = p.push(brief.time@);
    show_gap(t, p, "s/time)^"@);
    t = t + "s/time)^"@;
    show_part(t, p, brief.speed_exponent@);
    t = t + brief.speed_exponent@;
    p = p.push(brief.speed_exponent@);
    show_gap(t, p, "."@);
    t = t + "."@;
    assert(t == brief.constraints_text());
    assert(p =~= shown_of_task(brief));
}

proof fn lemma_guidance_shows(guidance: Option<Seq<char>>)
    ensures
        in_order(guidance_text(guidance), seq![or_nothing(guidance)]),
{
    match guidance {
        Some(g) => {
            let mut t = "Strategy from the supervising agent: "@;
            let mut p = Seq::<Seq<char>>::empty();
            show_part(t, p, g);
            t = t + g;
            p = p.push(g);
            show_gap(t, p, "\n"@);
            t = t + "\n"@;
            assert(p =~= seq![or_nothing(guidance)]);
        },
        None => {
            lemma_whole(Seq::empty());
        },
    }
}

proof fn lemma_opening_shows(brief: Brief, guidance: Option<Seq<char>>)
    ensures
        in_order(
            brief.opening_text(guidance),
            seq![brief.description@, brief.goal@] + shown_of_task(brief) + seq![
                or_nothing(guidance),
            ],
        ),
{
    constraints_show_task(brief);
    lemma_guidance_shows(guidance);
    let mut t = "Task: "@;
    let mut p = Seq::<Seq<char>>::empty();
    show_part(t, p, brief.description@);
    t = t + brief.description@;
    p = p.push(brief.description@);
    show_gap(t, p, "\nGoal: "@);
    t = t + "\nGoal: "@;
    show_part(t, p, brief.goal@);
    t = t + brief.goal@;
    p = p.push(brief.goal@);
    show_gap(t, p, "\n\n"@);
    t = t + "\n\n"@;
    lemma_orders_join(t, p, brief.constraints_text(), shown_of_task(brief));
    t = t + brief.constraints_text();
    p = p + shown_of_task(brief);
    show_gap(t, p, "\n\n"@);
    t = t + "\n\n"@;
    lemma_orders_join(t, p, guidance_text(guidance), seq![or_nothing(guidance)]);
    t = t + guidance_text(guidance);
    p = p + seq![or_nothing(guidance)];
    show_gap(t, p, "\n"@);
    t = t + "\n"@;
    assert(t == brief.opening_text(guidance));
    assert(p =~= seq![brief.description@, brief.goal@] + shown_of_task(brief) + seq![
        or_nothing(guidance),
    ]);
}

proof fn lemma_parent_shows(title: Seq<char>, p: ParentView, metrics: Seq<char>)
    ensures
        in_order(parent_text(title, p, metrics), seq![title, p.label, metrics, p.block]),
{
    let mut t = title;
    lemma_whole(title);
    let mut shown = seq![title];
    show_gap(t, shown, ": "@);
    t = t + ": "@;
    show_part(t, shown, p.label);
    t = t + p.label;
    shown = shown.push(p.label);
    show_gap(t, shown, "\nMetrics: "@);
    t = t + "\nMetrics: "@;
    show_part(t, shown, metrics);
    t = t + metrics;
    shown = shown.push(metrics);
    show_gap(t, shown, "\n```python\n"@);
    t = t + "\n```python\n"@;
    show_part(t, shown, p.block);
    t = t + p.block;
    shown = shown.push(p.block);
    show_gap(t, shown, "\n```\n"@);
    t = t + "\n```\n"@;
    assert(t == parent_text(title, p, metrics));
    assert(shown =~= seq![title, p.label, metrics, p.block]);
}

/// The prompt for a mutation shows the task, its constraints and the guidance, and
/// then the parent: its label, its metrics and its code.
pub proof fn mutation_prompt_shows_parent(
    brief: Brief,
    p: ParentView,
    metrics: Seq<char>,
    guidance: Option<Seq<char>>,
)
    ensures
        in_order(
            mutate_text(brief, p, metrics, guidance),
            seq![
                brief.description@,
                brief.goal@,
                brief.contract@,
                brief.least_quality@,
                brief.quality@,
                brief.tolerance@,
                brief.quality@,
                brief.quality_exponent@,
                brief.time@,
                brief.speed_exponent@,
                or_nothing(guidance),
                "Parent"@,
                p.label,
                metrics,
                p.block,
                MUTATE_REQUEST@,
            ],
        ),
        contains_text(mutate_text(brief, p, metrics, guidance), p.label),
        contains_text(mutate_text(brief, p, metrics, guidance), metrics),
        contains_text(mutate_text(brief, p, metrics, guidance), p.block),
{
    let text = mutate_text(brief, p, metrics, guidance);
    let first = seq![brief.description@, brief.goal@] + shown_of_task(brief) + seq![
        or_nothing(guidance),
    ];
    let second = seq!["Parent"@, p.label, metrics, p.block];
    let opening = brief.opening_text(guidance);
    let parent = parent_text("Parent"@, p, metrics);
    lemma_opening_shows(brief, guidance);
    lemma_parent_shows("Parent"@, p, metrics);
    lemma_orders_join(opening, first, parent, second);
    lemma_whole(MUTATE_REQUEST@);
    lemma_orders_join(opening + parent, first + second, MUTATE_REQUEST@, seq![MUTATE_REQUEST@]);
    let parts = first + second + seq![MUTATE_REQUEST@];
    assert(parts =~= seq![
        brief.description@,
        brief.goal@,
        brief.contract@,
        brief.least_quality@,
        brief.quality@,
        brief.tolerance@,
        brief.quality@,
        brief.quality_exponent@,
        brief.time@,
        brief.speed_exponent@,
        or_nothing(guidance),
        "Parent"@,
        p.label,
        metrics,
        p.block,
        MUTATE_REQUEST@,
    ]);
    order_is_containment(text, parts, 12);
    order_is_containment(text, parts, 13);
    order_is_containment(text, parts, 14);
}

/// The prompt for a crossover shows the task, its constraints and the guidance,
/// then the first parent, and behind it the second: of each its label, its metrics
/// and its own code.
pub proof fn crossover_prompt_shows_both_parents(
    brief: Brief,
    a: ParentView,
    a_metrics: Seq<char>,
    b: ParentView,
    b_metrics: Seq<char>,
    guidance: Option<Seq<char>>,
)
    ensures
        in_order(
            crossover_text(brief, a, a_metrics, b, b_metrics, guidance),
            seq![
                brief.description@,
                brief.goal@,
                brief.contract@,
                brief.least_quality@,
                brief.quality@,
                brief.tolerance@,
                brief.quality@,
                brief.quality_exponent@,
                brief.time@,
                brief.speed_exponent@,
                or_nothing(guidance),
                "Parent A"@,
                a.label,
                a_metrics,
                a.block,
                "Parent B"@,
                b.label,
                b_metrics,
                b.block,
                CROSSOVER_REQUEST@,
            ],
        ),
        ({
            let text = crossover_text(brief, a, a_metrics, b, b_metrics, guidance);
            &&& contains_text(text, a.label) && contains_text(text, a.block)
            &&& contains_text(text, b.label) && contains_text(text, b.block)
            &&& contains_text(text, a_metrics) && contains_text(text, b_metrics)
        }),
{
    let text = crossover_text(brief, a, a_metrics, b, b_metrics, guidance);
    let first = seq![brief.description@, brief.goal@] + shown_of_task(brief) + seq![
        or_nothing(guidance),
    ];
    let pa = seq!["Parent A"@, a.label, a_metrics, a.block];
    let pb = seq!["Parent B"@, b.label, b_metrics, b.block];
    let opening = brief.opening_text(guidance);
    let ta = parent_text("Parent A"@, a, a_metrics);
    let tb = parent_text("Parent B"@, b, b_metrics);
    lemma_opening_shows(brief, guidance);
    lemma_parent_shows("Parent A"@, a, a_metrics);
    lemma_parent_shows("Parent B"@, b, b_metrics);
    lemma_orders_join(opening, first, ta, pa);
    show_gap(opening + ta, first + pa, "\n"@);
    lemma_orders_join(opening + ta + "\n"@, first + pa, tb, pb);
    lemma_whole(CROSSOVER_REQUEST@);
    lemma_orders_join(
        opening + ta + "\n"@ + tb,
        first + pa + pb,
        CROSSOVER_REQUEST@,
        seq![CROSSOVER_REQUEST@],
    );
    let parts = first + pa + pb + seq![CROSSOVER_REQUEST@];
    assert(parts =~= seq![
        brief.description@,
        brief.goal@,
        brief.contract@,
        brief.least_quality@,
        brief.quality@,
        brief.tolerance@,
        brief.quality@,
        brief.quality_exponent@,
        brief.time@,
        brief.speed_exponent@,
        or_nothing(guidance),
        "Parent A"@,
        a.label,
        a_metrics,
        a.block,
        "Parent B"@,
        b.label,
        b_metrics,
        b.block,
        CROSSOVER_REQUEST@,
    ]);
    order_is_containment(text, parts, 12);
    order_is_containment(text, parts, 13);
    order_is_containment(text, parts, 14);
    order_is_containment(text, parts, 16);
    order_is_containment(text, parts, 17);
    order_is_containment(text, parts, 18);
}

proof fn lemma_padded_shows(s: Seq<char>, width: nat)
    ensures
        in_order(padded(s, width), seq![s]),
{
    lemma_whole(s);
    if s.len() < width {
        show_gap(s, seq![s], spaces((width - s.len()) as nat));
    }
}

/// A row of the leaderboard shows the position, the agent, its score and its
/// performance, its reward, and how many of its candidates are valid.
pub proof fn rows_show_standings(s: StandingLine)
    ensures
        in_order(
            s.line_text(),
            seq![
                decimal(s.rank_position as nat),
                s.agent@,
                s.best_score@,
                s.best_performance@,
                decimal(s.reward as nat),
                decimal(s.valid_candidates as nat),
                decimal(s.candidates as nat),
            ],
        ),
{
    lemma_padded_shows(s.agent@, 10);
    let mut t = "  #"@;
    let mut p = Seq::<Seq<char>>::empty();
    show_part(t, p, decimal(s.rank_position as nat));
    t = t + decimal(s.rank_position as nat);
    p = p.push(decimal(s.rank_position as nat));
    show_gap(t, p, " "@);
    t = t + " "@;
    lemma_orders_join(t, p, padded(s.agent@, 10), seq![s.agent@]);
    t = t + padded(s.agent@, 10);
    p = p + seq![s.agent@];
    show_gap(t, p, " score "@);
    t = t + " score "@;
    show_part(t, p, s.best_score@);
    t = t + s.best_score@;
    p = p.push(s.best_score@);
    show_gap(t, p, "  performance "@);
    t = t + "  performance "@;
    show_part(t, p, s.best_performance@);
    t = t + s.best_performance@;
    p = p.push(s.best_performance@);
    show_gap(t, p, "  reward "@);
    t = t + "  reward "@;
    show_part(t, p, decimal(s.reward as nat));
    t = t + decimal(s.reward as nat);
    p = p.push(decimal(s.reward as nat));
    show_gap(t, p, "  valid "@);
    t = t + "  valid "@;
    show_part(t, p, decimal(s.valid_candidates as nat));
    t = t + decimal(s.valid_candidates as nat);
    p = p.push(decimal(s.valid_candidates as nat));
    show_gap(t, p, "/"@);
    t = t + "/"@;
    show_part(t, p, decimal(s.candidates as nat));
    t = t + decimal(s.candidates as nat);
    p = p.push(decimal(s.candidates as nat));
    assert(t == s.line_text());
    assert(p =~= seq![
        decimal(s.rank_position as nat),
        s.agent@,
        s.best_score@,
        s.best_performance@,
        decimal(s.reward as nat),
        decimal(s.valid_candidates as nat),
        decimal(s.candidates as nat),
    ]);
}

/// What a round prompt says of the baselines: the quality of the seed with its
/// deviation, and both times; and, where it was measured, the quality and the time
/// of the reference.
pub proof fn baselines_are_shown(b: Baselines)
    ensures
        in_order(
            baselines_text(b),
            seq![b.quality@, b.quality_std@, b.fit_time@, b.predict_time@],
        ),
        b.reference matches Some((quality, time)) ==> in_order(
            baselines_text(b),
            seq![b.quality@, b.quality_std@, b.fit_time@, b.predict_time@, quality@, time@],
        ),
{
    let mut t = "\n\nBaseline (seed) measured by the harness: quality "@;
    let mut p = Seq::<Seq<char>>::empty();
    show_part(t, p, b.quality@);
    t = t + b.quality@;
    p = p.push(b.quality@);
    show_gap(t, p, " (std "@);
    t = t + " (std "@;
    show_part(t, p, b.quality_std@);
    t = t + b.quality_std@;
    p = p.push(b.quality_std@);
    show_gap(t, p, "), fit "@);
    t = t + "), fit "@;
    show_part(t, p, b.fit_time@);
    t = t + b.fit_time@;
    p = p.push(b.fit_time@);
    show_gap(t, p, "s, predict "@);
    t = t + "s, predict "@;
    show_part(t, p, b.predict_time@);
    t = t + b.predict_time@;
    p = p.push(b.predict_time@);
    show_gap(t, p, "s per fold.\n"@);
    t = t + "s per fold.\n"@;
    let first = seq![b.quality@, b.quality_std@, b.fit_time@, b.predict_time@];
    assert(p =~= first);
    if let Some((quality, time)) = b.reference {
        show_gap(t, p, "For reference, scikit-learn's own implementation scores quality "@);
        t = t + "For reference, scikit-learn's own implementation scores quality "@;
        show_gap(t, first, quality@);
        show_part(t, p, quality@);
        t = t + quality@;
        p = p.push(quality@);
        show_gap(t, first, " in "@);
        show_gap(t, p, " in "@);
        t = t + " in "@;
        show_gap(t, first, time@);
        show_part(t, p, time@);
        t = t + time@;
        p = p.push(time@);
        show_gap(t, first, "s per fold.\n"@);
        show_gap(t, p, "s per fold.\n"@);
        t = t + "s per fold.\n"@;
        assert(p =~= seq![
            b.quality@,
            b.quality_std@,
            b.fit_time@,
            b.predict_time@,
            quality@,
            time@,
        ]);
    }
    assert(t == baselines_text(b));
}

proof fn lemma_rival_shows(fb: RoundFeedback)
    ensures
        fb.best_rival_agent is Some && fb.best_rival_block is Some ==> in_order(
            rival_text(fb),
            seq![
                fb.best_rival_agent->0@,
                or_nothing(option_view(fb.best_rival_id)),
                text_or(option_view(fb.best_rival_metrics), "{}"@),
                truncated(fb.best_rival_block->0@, SHOWN_CODE as nat),
            ],
        ),
{
    if let (Some(agent), Some(block)) = (fb.best_rival_agent, fb.best_rival_block) {
        let id = or_nothing(option_view(fb.best_rival_id));
        let metrics = text_or(option_view(fb.best_rival_metrics), "{}"@);
        let code = truncated(block@, SHOWN_CODE as nat);
        let mut t = "\nBEST RIVAL ("@;
        let mut p = Seq::<Seq<char>>::empty();
        show_part(t, p, agent@);
        t = t + agent@;
        p = p.push(agent@);
        show_gap(t, p, ", "@);
        t = t + ", "@;
        show_part(t, p, id);
        t = t + id;
        p = p.push(id);
        show_gap(t, p, "): "@);
        t = t + "): "@;
        show_part(t, p, metrics);
        t = t + metrics;
        p = p.push(metrics);
        show_gap(t, p, "\n```python\n"@);
        t = t + "\n```python\n"@;
        show_part(t, p, code);
        t = t + code;
        p = p.push(code);
        show_gap(t, p, "\n```\n"@);
        t = t + "\n```\n"@;
        assert(id == text_or(option_view(fb.best_rival_id), Seq::empty()));
        assert(t == rival_text(fb));
        assert(p =~= seq![agent@, id, metrics, code]);
        assert(seq![agent@, id, metrics, code] =~= seq![
            fb.best_rival_agent->0@,
            or_nothing(option_view(fb.best_rival_id)),
            text_or(option_view(fb.best_rival_metrics), "{}"@),
            truncated(fb.best_rival_block->0@, SHOWN_CODE as nat),
        ]);
    }
}

/// What an agent is told of the round before: the round, its position out of how
/// many, its reward, the leaderboard row by row, whether to keep on or to change
/// course, and the best rival with the beginning of its code.
pub proof fn feedback_shows_round(fb: RoundFeedback, round: nat)
    requires
        round >= 1,
    ensures
        ({
            let told = seq![
                decimal((round - 1) as nat),
                decimal(fb.position as nat),
                decimal(fb.standings@.len()),
                decimal(fb.reward as nat),
            ] + line_texts(fb.standings@) + seq![
                if fb.reward == 1 {
                    KEEP_GOING@
                } else {
                    CHANGE_COURSE@
                },
            ];
            &&& in_order(feedback_text(fb, round), told)
            &&& fb.best_rival_agent is Some && fb.best_rival_block is Some ==> in_order(
                feedback_text(fb, round),
                told + seq![
                    fb.best_rival_agent->0@,
                    or_nothing(option_view(fb.best_rival_id)),
                    text_or(option_view(fb.best_rival_metrics), "{}"@),
                    truncated(fb.best_rival_block->0@, SHOWN_CODE as nat),
                ],
            )
        }),
{
    let rows = line_texts(fb.standings@);
    let table = joined(rows, "\n"@);
    let word = if fb.reward == 1 {
        KEEP_GOING@
    } else {
        CHANGE_COURSE@
    };
    joined_parts_are_in_order(rows, "\n"@);
    lemma_rival_shows(fb);
    let mut t = "\nREINFORCEMENT FEEDBACK: you finished round "@;
    let mut p = Seq::<Seq<char>>::empty();
    show_part(t, p, decimal((round - 1) as nat));
    t = t + decimal((round - 1) as nat);
    p = p.push(decimal((round - 1) as nat));
    show_gap(t, p, " at position "@);
    t = t + " at position "@;
    show_part(t, p, decimal(fb.position as nat));
    t = t + decimal(fb.position as nat);
    p = p.push(decimal(fb.position as nat));
    show_gap(t, p, " of "@);
    t = t + " of "@;
    show_part(t, p, decimal(fb.standings@.len()));
    t = t + decimal(fb.standings@.len());
    p = p.push(decimal(fb.standings@.len()));
    show_gap(t, p, " and earned reward "@);
    t = t + " and earned reward "@;
    show_part(t, p, decimal(fb.reward as nat));
    t = t + decimal(fb.reward as nat);
    p = p.push(decimal(fb.reward as nat));
    show_gap(t, p, ".\nLeaderboard:\n"@);
    t = t + ".\nLeaderboard:\n"@;
    lemma_orders_join(t, p, table, rows);
    t = t + table;
    p = p + rows;
    show_gap(t, p, "\n"@);
    t = t + "\n"@;
    show_part(t, p, word);
    t = t + word;
    p = p.push(word);
    let told = seq![
        decimal((round - 1) as nat),
        decimal(fb.position as nat),
        decimal(fb.standings@.len()),
        decimal(fb.reward as nat),
    ] + rows + seq![word];
    assert(p =~= told);
    assert(told =~= seq![
        decimal((round - 1) as nat),
        decimal(fb.position as nat),
        decimal(fb.standings@.len()),
        decimal(fb.reward as nat),
    ] + line_texts(fb.standings@) + seq![
        if fb.reward == 1 {
            KEEP_GOING@
        } else {
            CHANGE_COURSE@
        },
    ]);
    show_gap(t, told, rival_text(fb));
    if fb.best_rival_agent is Some && fb.best_rival_block is Some {
        lemma_orders_join(
            t,
            told,
            rival_text(fb),
            seq![
                fb.best_rival_agent->0@,
                or_nothing(option_view(fb.best_rival_id)),
                text_or(option_view(fb.best_rival_metrics), "{}"@),
                truncated(fb.best_rival_block->0@, SHOWN_CODE as nat),
            ],
        );
    }
    assert(t + rival_text(fb) == feedback_text(fb, round));
}

/// What a round prompt shows at its beginning: the round out of how many, what the
/// seed measured, and the code of the seed.
pub open spec fn shown_first(b: RoundBrief) -> Seq<Seq<char>> {
    seq![
        decimal(b.round as nat),
        decimal(b.rounds as nat),
        b.baselines.quality@,
        b.baselines.quality_std@,
        b.baselines.fit_time@,
        b.baselines.predict_time@,
        b.seed_block@,
    ]
}

/// What a round prompt shows of the agent's own best candidate, where it has one:
/// its summary and the beginning of its code.
pub open spec fn shown_best(best: Option<(&str, &str)>) -> Seq<Seq<char>> {
    match best {
        Some((summary, block)) => seq![summary@, truncated(block@, SHOWN_CODE as nat)],
        None => Seq::empty(),
    }
}

/// What a round prompt shows of the notes, unless they are blank.
pub open spec fn shown_notes(notes: Seq<char>) -> Seq<Seq<char>> {
    if forall|i: int| 0 <= i < notes.len() ==> white_space(#[trigger] notes[i]) {
        Seq::empty()
    } else {
        seq![truncated(notes, SHOWN_NOTES as nat)]
    }
}

/// What a round prompt shows of the feedback, where there is any: all of it.
pub open spec fn shown_feedback(fb: Option<&RoundFeedback>, round: nat) -> Seq<Seq<char>> {
    match fb {
        Some(f) => seq![feedback_text(*f, round)],
        None => Seq::empty(),
    }
}

/// What a round prompt shows of the reference material: all of it, in the first
/// round.
pub open spec fn shown_context(context: Option<Seq<char>>, round: nat) -> Seq<Seq<char>> {
    match context {
        Some(c) => if round == 1 {
            seq![c]
        } else {
            Seq::empty()
        },
        None => Seq::empty(),
    }
}

proof fn lemma_best_shows(best: Option<(&str, &str)>, round: nat)
    ensures
        in_order(own_best_text(option_pair_view(best), round), shown_best(best)),
{
    if let Some((summary, block)) = best {
        let code = truncated(block@, SHOWN_CODE as nat);
        let mut t = "\nYOUR BEST VALID CANDIDATE SO FAR: "@;
        let mut p = Seq::<Seq<char>>::empty();
        show_part(t, p, summary@);
        t = t + summary@;
        p = p.push(summary@);
        show_gap(t, p, "\n```python\n"@);
        t = t + "\n```python\n"@;
        show_part(t, p, code);
        t = t + code;
        p = p.push(code);
        show_gap(t, p, "\n```\n"@);
        t = t + "\n```\n"@;
        assert(t == own_best_text(option_pair_view(best), round));
        assert(p =~= shown_best(best));
    }
}

proof fn lemma_notes_show(notes: Seq<char>)
    ensures
        in_order(notes_text(notes), shown_notes(notes)),
{
    trimmed_texts_keep_the_rest(notes);
    if !is_blank_text(notes) {
        let code = truncated(notes, SHOWN_NOTES as nat);
        let mut t = "\nYOUR NOTES FROM LAST ROUND:\n"@;
        let mut p = Seq::<Seq<char>>::empty();
        show_part(t, p, code);
        t = t + code;
        p = p.push(code);
        show_gap(t, p, "\n"@);
        t = t + "\n"@;
        assert(t == notes_text(notes));
        assert(p =~= shown_notes(notes));
    }
}

proof fn lemma_context_shows(context: Option<Seq<char>>, round: nat)
    ensures
        in_order(context_text(context, round), shown_context(context, round)),
{
    if let Some(c) = context {
        if round == 1 {
            let mut t = "\nREFERENCE MATERIAL (excerpt, may be truncated):\n"@;
            let mut p = Seq::<Seq<char>>::empty();
            show_part(t, p, c);
            t = t + c;
            p = p.push(c);
            show_gap(t, p, "\n"@);
            t = t + "\n"@;
            assert(t == context_text(context, round));
            assert(p =~= shown_context(context, round));
        }
    }
}

/// A round prompt shows, in order: the round, the baselines and the code of the
/// seed; the agent's own best candidate where it has one; its notes unless they
/// are blank; the feedback on the round before where there is any; the reference
/// material in the first round; and how many tool calls there are.
pub proof fn round_prompt_shows_everything(b: RoundBrief)
    requires
        b.feedback is Some ==> b.round >= 1,
    ensures
        in_order(
            round_text(b),
            shown_first(b) + shown_best(b.best) + shown_notes(b.notes@) + shown_feedback(
                b.feedback,
                b.round as nat,
            ) + shown_context(option_str_view(b.context), b.round as nat) + seq![
                decimal(b.budget as nat),
            ],
        ),
{
    baselines_are_shown(*b.baselines);
    lemma_best_shows(b.best, b.round as nat);
    lemma_notes_show(b.notes@);
    lemma_context_shows(option_str_view(b.context), b.round as nat);
    if let Some(f) = b.feedback {
        lemma_whole(feedback_text(*f, b.round as nat));
    }
    let measured = seq![
        b.baselines.quality@,
        b.baselines.quality_std@,
        b.baselines.fit_time@,
        b.baselines.predict_time@,
    ];
    let mut t = "ROUND "@;
    let mut p = Seq::<Seq<char>>::empty();
    show_part(t, p, decimal(b.round as nat));
    t = t + decimal(b.round as nat);
    p = p.push(decimal(b.round as nat));
    show_gap(t, p, " of "@);
    t = t + " of "@;
    show_part(t, p, decimal(b.rounds as nat));
    t = t + decimal(b.rounds as nat);
    p = p.push(decimal(b.rounds as nat));
    show_gap(t, p, "."@);
    t = t + "."@;
    lemma_orders_join(t, p, baselines_text(*b.baselines), measured);
    t = t + baselines_text(*b.baselines);
    p = p + measured;
    show_gap(t, p, "\nSEED EVOLVE BLOCK (the original code):\n```python\n"@);
    t = t + "\nSEED EVOLVE BLOCK (the original code):\n```python\n"@;
    show_part(t, p, b.seed_block@);
    t = t + b.seed_block@;
    p = p.push(b.seed_block@);
    show_gap(t, p, "\n```\n"@);
    t = t + "\n```\n"@;
    assert(p =~= shown_first(b));
    lemma_orders_join(t, p, own_best_text(option_pair_view(b.best), b.round as nat), shown_best(b.best));
    t = t + own_best_text(option_pair_view(b.best), b.round as nat);
    p = p + shown_best(b.best);
    lemma_orders_join(t, p, notes_text(b.notes@), shown_notes(b.notes@));
    t = t + notes_text(b.notes@);
    p = p + shown_notes(b.notes@);
    lemma_orders_join(t, p, optional_feedback_text(b.feedback, b.round as nat), shown_feedback(b.feedback, b.round as nat));
    t = t + optional_feedback_text(b.feedback, b.round as nat);
    p = p + shown_feedback(b.feedback, b.round as nat);
    lemma_orders_join(t, p, context_text(option_str_view(b.context), b.round as nat), shown_context(option_str_view(b.context), b.round as nat));
    t = t + context_text(option_str_view(b.context), b.round as nat);
    p = p + shown_context(option_str_view(b.context), b.round as nat);
    show_gap(t, p, "\nYou have "@);
    t = t + "\nYou have "@;
    show_part(t, p, decimal(b.budget as nat));
    t = t + decimal(b.budget as nat);
    let last = p.push(decimal(b.budget as nat));
    show_gap(
        t,
        last,
        " tool calls. Begin by calling a tool. Finish with your plain-text notes."@,
    );
    assert(last =~= p + seq![decimal(b.budget as nat)]);
    assert(t + " tool calls. Begin by calling a tool. Finish with your plain-text notes."@
        == round_text(b));
}

/// From the second round on the reference material makes no difference, and blank
/// notes never do.
pub proof fn round_prompt_leaves_out(b: RoundBrief, other: RoundBrief)
    requires
        other.round == b.round,
        other.rounds == b.rounds,
        other.baselines == b.baselines,
        other.seed_block@ == b.seed_block@,
        other.best == b.best,
        other.feedback == b.feedback,
        other.budget == b.budget,
        other.notes@ == b.notes@ || (is_blank_text(b.notes@) && is_blank_text(other.notes@)),
        b.round > 1 || other.context == b.context,
    ensures
        round_text(other) == round_text(b),
{
}

/// What an agent is told of the competition: its name, how many compete, the task
/// and its constraints, the datasets, what performance is computed with, the
/// tolerance, the weight of novelty, the threshold, and how many tool calls it
/// has.
pub proof fn agents_are_told_the_rules(brief: Brief, rules: Rules, name: Seq<char>)
    ensures
        in_order(
            agent_system_text(brief, rules, name),
            seq![name, decimal(rules.agents as nat), brief.description@, brief.goal@]
                + shown_of_task(brief) + seq![
                joined(string_views(rules.datasets@), ", "@),
                brief.quality_exponent@,
                brief.speed_exponent@,
                brief.tolerance@,
                rules.novelty_weight@,
                rules.novelty_weight@,
                rules.mu_threshold@,
                decimal(rules.budget as nat),
            ],
        ),
{
    constraints_show_task(brief);
    let mut t = "You are "@;
    let mut p = Seq::<Seq<char>>::empty();
    show_part(t, p, name);
    t = t + name;
    p = p.push(name);
    show_gap(t, p, ", one of "@);
    t = t + ", one of "@;
    show_part(t, p, decimal(rules.agents as nat));
    t = t + decimal(rules.agents as nat);
    p = p.push(decimal(rules.agents as nat));
    show_gap(t, p, " agents competing in CompeteEvolve, a system that improves machine-learning algorithm implementations through LLM-guided evolutionary search.\n\nTASK: "@);
    t = t + " agents competing in CompeteEvolve, a system that improves machine-learning algorithm implementations through LLM-guided evolutionary search.\n\nTASK: "@;
    show_part(t, p, brief.description@);
    t = t + brief.description@;
    p = p.push(brief.description@);
    show_gap(t, p, "\nGOAL: "@);
    t = t + "\nGOAL: "@;
    show_part(t, p, brief.goal@);
    t = t + brief.goal@;
    p = p.push(brief.goal@);
    show_gap(t, p, "\n\n"@);
    t = t + "\n\n"@;
    lemma_orders_join(t, p, brief.constraints_text(), shown_of_task(brief));
    t = t + brief.constraints_text();
    p = p + shown_of_task(brief);
    show_gap(t, p, "\n\nHOW YOU ARE SCORED\n- Every candidate is executed for real by a Python harness on "@);
    t = t + "\n\nHOW YOU ARE SCORED\n- Every candidate is executed for real by a Python harness on "@;
    show_part(t, p, joined(string_views(rules.datasets@), ", "@));
    t = t + joined(string_views(rules.datasets@), ", "@);
    p = p.push(joined(string_views(rules.datasets@), ", "@));
    show_gap(t, p, ". Nothing is estimated.\n- performance = 2^-(errors) x reliability x (quality/baseline)^"@);
    t = t + ". Nothing is estimated.\n- performance = 2^-(errors) x reliability x (quality/baseline)^"@;
    show_part(t, p, brief.quality_exponent@);
    t = t + brief.quality_exponent@;
    p = p.push(brief.quality_exponent@);
    show_gap(t, p, " x (baseline_time/time)^"@);
    t = t + " x (baseline_time/time)^"@;
    show_part(t, p, brief.speed_exponent@);
    t = t + brief.speed_exponent@;
    p = p.push(brief.speed_exponent@);
    show_gap(t, p, ". 1.0 means 'as good as the seed'.\n- A candidate is VALID only if every fold ran without error and quality >= baseline - "@);
    t = t + ". 1.0 means 'as good as the seed'.\n- A candidate is VALID only if every fold ran without error and quality >= baseline - "@;
    show_part(t, p, brief.tolerance@);
    t = t + brief.tolerance@;
    p = p.push(brief.tolerance@);
    show_gap(t, p, ".\n- novelty = 1 - mean similarity to the seed, your previous candidate and the rivals' best. Near-duplicates of anything already archived are rejected before evaluation.\n- rank score = squash(performance) x (1 - "@);
    t = t + ".\n- novelty = 1 - mean similarity to the seed, your previous candidate and the rivals' best. Near-duplicates of anything already archived are rejected before evaluation.\n- rank score = squash(performance) x (1 - "@;
    show_part(t, p, rules.novelty_weight@);
    t = t + rules.novelty_weight@;
    p = p.push(rules.novelty_weight@);
    show_gap(t, p, " + "@);
    t = t + " + "@;
    show_part(t, p, rules.novelty_weight@);
    t = t + rules.novelty_weight@;
    p = p.push(rules.novelty_weight@);
    show_gap(t, p, " x novelty), squash(x) = x/(1+x).\n- Agents are ranked by their best VALID candidate's rank score. The top half earn reward 1, the rest 0. The run stops once squash(best performance) >= "@);
    t = t + " x novelty), squash(x) = x/(1+x).\n- Agents are ranked by their best VALID candidate's rank score. The top half earn reward 1, the rest 0. The run stops once squash(best performance) >= "@;
    show_part(t, p, rules.mu_threshold@);
    t = t + rules.mu_threshold@;
    p = p.push(rules.mu_threshold@);
    show_gap(t, p, ".\n\nTOOLS\n- evolve(operator, n_samples, guidance): a generator model writes n_samples candidates from parents sampled out of the shared archive ('mutate' = one parent, 'crossover' = two parents, one preferably from a rival). Your guidance steers what it changes. Each candidate is evaluated and archived; you get the metrics and errors back.\n- submit_code(code): evaluate a block you wrote yourself. Best for precise algorithmic changes or for fixing an error you saw.\n- archive(top_n, agent, include_code): inspect the best archived candidates.\n- leaderboard(): current standings, your reward, and the best rival's code.\n\nRULES\n- You have at most "@);
    t = t + ".\n\nTOOLS\n- evolve(operator, n_samples, guidance): a generator model writes n_samples candidates from parents sampled out of the shared archive ('mutate' = one parent, 'crossover' = two parents, one preferably from a rival). Your guidance steers what it changes. Each candidate is evaluated and archived; you get the metrics and errors back.\n- submit_code(code): evaluate a block you wrote yourself. Best for precise algorithmic changes or for fixing an error you saw.\n- archive(top_n, agent, include_code): inspect the best archived candidates.\n- leaderboard(): current standings, your reward, and the best rival's code.\n\nRULES\n- You have at most "@;
    show_part(t, p, decimal(rules.budget as nat));
    t = t + decimal(rules.budget as nat);
    p = p.push(decimal(rules.budget as nat));
    show_gap(t, p, " tool calls this round. Use them; prose alone scores nothing.\n- When you are done (or the budget is spent) reply with plain text: what worked, what failed, and the concrete strategy for your next round. That text is the only memory you keep.\n- Copying a rival's code earns nothing: it is rejected as a duplicate or scored with zero novelty."@);
    t = t + " tool calls this round. Use them; prose alone scores nothing.\n- When you are done (or the budget is spent) reply with plain text: what worked, what failed, and the concrete strategy for your next round. That text is the only memory you keep.\n- Copying a rival's code earns nothing: it is rejected as a duplicate or scored with zero novelty."@;
    assert(t == agent_system_text(brief, rules, name));
    assert(p =~= seq![name, decimal(rules.agents as nat), brief.description@, brief.goal@]
        + shown_of_task(brief) + seq![
        joined(string_views(rules.datasets@), ", "@),
        brief.quality_exponent@,
        brief.speed_exponent@,
        brief.tolerance@,
        rules.novelty_weight@,
        rules.novelty_weight@,
        rules.mu_threshold@,
        decimal(rules.budget as nat),
    ]);
}

/// A line of metrics shows the quality, the time and the performance, and a dash
/// for what was not measured.
pub proof fn metrics_are_shown(
    quality: Option<Seq<char>>,
    time: Option<Seq<char>>,
    performance: Seq<char>,
)
    ensures
        in_order(
            metrics_text(quality, time, performance),
            seq![
                "quality "@,
                if quality is Some {
                    quality->0
                } else {
                    "-"@
                },
                " time "@,
                if time is Some {
                    time->0
                } else {
                    "-"@
                },
                "s performance "@,
                performance,
            ],
        ),
{
    let q = text_or(quality, "-"@);
    let s = text_or(time, "-"@);
    let mut t = "quality "@;
    lemma_whole("quality "@);
    let mut p = seq!["quality "@];
    show_part(t, p, q);
    t = t + q;
    p = p.push(q);
    show_part(t, p, " time "@);
    t = t + " time "@;
    p = p.push(" time "@);
    show_part(t, p, s);
    t = t + s;
    p = p.push(s);
    show_part(t, p, "s performance "@);
    t = t + "s performance "@;
    p = p.push("s performance "@);
    show_part(t, p, performance);
    t = t + performance;
    p = p.push(performance);
    assert(t == metrics_text(quality, time, performance));
    assert(p =~= seq![
        "quality "@,
        if quality is Some {
            quality->0
        } else {
            "-"@
        },
        " time "@,
        if time is Some {
            time->0
        } else {
            "-"@
        },
        "s performance "@,
        performance,
    ]);
}

/// The figures of a row stand behind their names.
pub proof fn rows_name_their_figures(s: StandingLine)
    ensures
        in_order(
            s.line_text(),
            seq![
                "  #"@,
                decimal(s.rank_position as nat),
                s.agent@,
                " score "@,
                s.best_score@,
                "  performance "@,
                s.best_performance@,
                "  reward "@,
                decimal(s.reward as nat),
                "  valid "@,
                decimal(s.valid_candidates as nat),
                "/"@,
                decimal(s.candidates as nat),
            ],
        ),
{
    lemma_padded_shows(s.agent@, 10);
    let mut t = "  #"@;
    lemma_whole("  #"@);
    let mut p = seq!["  #"@];
    show_part(t, p, decimal(s.rank_position as nat));
    t = t + decimal(s.rank_position as nat);
    p = p.push(decimal(s.rank_position as nat));
    show_gap(t, p, " "@);
    t = t + " "@;
    lemma_orders_join(t, p, padded(s.agent@, 10), seq![s.agent@]);
    t = t + padded(s.agent@, 10);
    p = p + seq![s.agent@];
    show_part(t, p, " score "@);
    t = t + " score "@;
    p = p.push(" score "@);
    show_part(t, p, s.best_score@);
    t = t + s.best_score@;
    p = p.push(s.best_score@);
    show_part(t, p, "  performance "@);
    t = t + "  performance "@;
    p = p.push("  performance "@);
    show_part(t, p, s.best_performance@);
    t = t + s.best_performance@;
    p = p.push(s.best_performance@);
    show_part(t, p, "  reward "@);
    t = t + "  reward "@;
    p = p.push("  reward "@);
    show_part(t, p, decimal(s.reward as nat));
    t = t + decimal(s.reward as nat);
    p = p.push(decimal(s.reward as nat));
    show_part(t, p, "  valid "@);
    t = t + "  valid "@;
    p = p.push("  valid "@);
    show_part(t, p, decimal(s.valid_candidates as nat));
    t = t + decimal(s.valid_candidates as nat);
    p = p.push(decimal(s.valid_candidates as nat));
    show_part(t, p, "/"@);
    t = t + "/"@;
    p = p.push("/"@);
    show_part(t, p, decimal(s.candidates as nat));
    t = t + decimal(s.candidates as nat);
    p = p.push(decimal(s.candidates as nat));
    assert(t == s.line_text());
    assert(p =~= seq![
        "  #"@,
        decimal(s.rank_position as nat),
        s.agent@,
        " score "@,
        s.best_score@,
        "  performance "@,
        s.best_performance@,
        "  reward "@,
        decimal(s.reward as nat),
        "  valid "@,
        decimal(s.valid_candidates as nat),
        "/"@,
        decimal(s.candidates as nat),
    ]);
}

/// There is a line for every row of the leaderboard, in order.
pub proof fn every_row_has_its_line(rows: Seq<StandingLine>, i: int)
    requires
        0 <= i < rows.len(),
    ensures
        line_texts(rows).len() == rows.len(),
        line_texts(rows)[i] == rows[i].line_text(),
{
}

/// The measurements of the seed stand behind their names.
pub proof fn baselines_name_their_figures(b: Baselines)
    ensures
        in_order(
            baselines_text(b),
            seq![
                "\n\nBaseline (seed) measured by the harness: quality "@,
                b.quality@,
                " (std "@,
                b.quality_std@,
                "), fit "@,
                b.fit_time@,
                "s, predict "@,
                b.predict_time@,
            ],
        ),
        b.reference is None ==> in_order(
            baselines_text(b),
            seq![b.quality@, b.quality_std@, b.fit_time@, b.predict_time@, "s per fold.\n"@],
        ),
{
    let named = seq![
        "\n\nBaseline (seed) measured by the harness: quality "@,
        b.quality@,
        " (std "@,
        b.quality_std@,
        "), fit "@,
        b.fit_time@,
        "s, predict "@,
        b.predict_time@,
    ];
    let mut t = "\n\nBaseline (seed) measured by the harness: quality "@;
    lemma_whole("\n\nBaseline (seed) measured by the harness: quality "@);
    let mut p = seq!["\n\nBaseline (seed) measured by the harness: quality "@];
    show_part(t, p, b.quality@);
    t = t + b.quality@;
    p = p.push(b.quality@);
    show_part(t, p, " (std "@);
    t = t + " (std "@;
    p = p.push(" (std "@);
    show_part(t, p, b.quality_std@);
    t = t + b.quality_std@;
    p = p.push(b.quality_std@);
    show_part(t, p, "), fit "@);
    t = t + "), fit "@;
    p = p.push("), fit "@);
    show_part(t, p, b.fit_time@);
    t = t + b.fit_time@;
    p = p.push(b.fit_time@);
    show_part(t, p, "s, predict "@);
    t = t + "s, predict "@;
    p = p.push("s, predict "@);
    show_part(t, p, b.predict_time@);
    t = t + b.predict_time@;
    p = p.push(b.predict_time@);
    assert(p =~= named);
    show_gap(t, named, "s per fold.\n"@);
    t = t + "s per fold.\n"@;
    if let Some((quality, time)) = b.reference {
        show_gap(t, named, "For reference, scikit-learn's own implementation scores quality "@);
        t = t + "For reference, scikit-learn's own implementation scores quality "@;
        show_gap(t, named, quality@);
        t = t + quality@;
        show_gap(t, named, " in "@);
        t = t + " in "@;
        show_gap(t, named, time@);
        t = t + time@;
        show_gap(t, named, "s per fold.\n"@);
        t = t + "s per fold.\n"@;
    } else {
        lemma_seed_figures(b);
    }
    assert(t == baselines_text(b));
}

proof fn lemma_seed_figures(b: Baselines)
    requires
        b.reference is None,
    ensures
        in_order(
            baselines_text(b),
            seq![b.quality@, b.quality_std@, b.fit_time@, b.predict_time@, "s per fold.\n"@],
        ),
{
    let mut t = "\n\nBaseline (seed) measured by the harness: quality "@;
    let mut p = Seq::<Seq<char>>::empty();
    show_part(t, p, b.quality@);
    t = t + b.quality@;
    p = p.push(b.quality@);
    show_gap(t, p, " (std "@);
    t = t + " (std "@;
    show_part(t, p, b.quality_std@);
    t = t + b.quality_std@;
    p = p.push(b.quality_std@);
    show_gap(t, p, "), fit "@);
    t = t + "), fit "@;
    show_part(t, p, b.fit_time@);
    t = t + b.fit_time@;
    p = p.push(b.fit_time@);
    show_gap(t, p, "s, predict "@);
    t = t + "s, predict "@;
    show_part(t, p, b.predict_time@);
    t = t + b.predict_time@;
    p = p.push(b.predict_time@);
    show_part(t, p, "s per fold.\n"@);
    t = t + "s per fold.\n"@;
    p = p.push("s per fold.\n"@);
    assert(t == baselines_text(b));
    assert(p =~= seq![b.quality@, b.quality_std@, b.fit_time@, b.predict_time@, "s per fold.\n"@]);
}

/// Who is rewarded is told to go on, and who is not to change course.
pub proof fn feedback_goes_by_reward(fb: RoundFeedback, round: nat)
    requires
        round >= 1,
    ensures
        in_order(
            feedback_text(fb, round),
            seq![
                " at position "@,
                decimal(fb.position as nat),
                " of "@,
                decimal(fb.standings@.len()),
                " and earned reward "@,
                decimal(fb.reward as nat),
            ],
        ),
        fb.reward == 1 ==> contains_text(
            feedback_text(fb, round),
            "You are in the rewarded half. Keep the direction that worked and push it further.\n"@,
        ),
        fb.reward != 1 ==> contains_text(
            feedback_text(fb, round),
            "You are in the unrewarded half. Change strategy: a different algorithmic idea, or crossover with a rival's approach.\n"@,
        ),
{
    let named = seq![
        " at position "@,
        decimal(fb.position as nat),
        " of "@,
        decimal(fb.standings@.len()),
        " and earned reward "@,
        decimal(fb.reward as nat),
    ];
    let table = joined(line_texts(fb.standings@), "\n"@);
    let word = if fb.reward == 1 {
        KEEP_GOING@
    } else {
        CHANGE_COURSE@
    };
    let mut t = "\nREINFORCEMENT FEEDBACK: you finished round "@;
    let mut p = Seq::<Seq<char>>::empty();
    show_gap(t, p, decimal((round - 1) as nat));
    t = t + decimal((round - 1) as nat);
    show_part(t, p, " at position "@);
    t = t + " at position "@;
    p = p.push(" at position "@);
    show_part(t, p, decimal(fb.position as nat));
    t = t + decimal(fb.position as nat);
    p = p.push(decimal(fb.position as nat));
    show_part(t, p, " of "@);
    t = t + " of "@;
    p = p.push(" of "@);
    show_part(t, p, decimal(fb.standings@.len()));
    t = t + decimal(fb.standings@.len());
    p = p.push(decimal(fb.standings@.len()));
    show_part(t, p, " and earned reward "@);
    t = t + " and earned reward "@;
    p = p.push(" and earned reward "@);
    show_part(t, p, decimal(fb.reward as nat));
    t = t + decimal(fb.reward as nat);
    p = p.push(decimal(fb.reward as nat));
    assert(p =~= named);
    show_gap(t, named, ".\nLeaderboard:\n"@);
    t = t + ".\nLeaderboard:\n"@;
    show_gap(t, named, table);
    t = t + table;
    show_gap(t, named, "\n"@);
    t = t + "\n"@;
    let none = Seq::<Seq<char>>::empty();
    show_part(t, none, word);
    show_gap(t, named, word);
    t = t + word;
    show_gap(t, named, rival_text(fb));
    show_gap(t, none.push(word), rival_text(fb));
    t = t + rival_text(fb);
    assert(t == feedback_text(fb, round));
    order_is_containment(t, none.push(word), 0);
}

/// What there is nothing to say of is left out: without guidance, without reference
/// material, without feedback, without a rival and without notes nothing stands in
/// their place; and an agent without a valid candidate is told so from the second
/// round on.
pub proof fn missing_sections_are_left_out(fb: RoundFeedback, notes: Seq<char>, round: nat)
    ensures
        guidance_text(None).len() == 0,
        context_text(None, round).len() == 0,
        optional_feedback_text(None, round).len() == 0,
        fb.best_rival_agent is None || fb.best_rival_block is None ==> rival_text(fb).len() == 0,
        (forall|i: int| 0 <= i < notes.len() ==> white_space(#[trigger] notes[i])) ==> notes_text(
            notes,
        ).len() == 0,
        round <= 1 ==> own_best_text(None, round).len() == 0,
        round > 1 ==> own_best_text(None, round)
            == "\nYou have no valid candidate yet. Priority: produce one that runs on every fold.\n"@,
        round != 1 ==> context_text(Some(notes), round).len() == 0,
{
    trimmed_texts_keep_the_rest(notes);
}

/// Code is shown up to its six thousandth character and notes up to their two
/// thousand five hundredth, with an ellipsis where more follows.
pub proof fn long_texts_are_cut(summary: &str, block: &str, notes: Seq<char>)
    ensures
        shown_best(Some((summary, block)))[0] == summary@,
        block@.len() <= 6000 ==> shown_best(Some((summary, block)))[1] == block@,
        block@.len() > 6000 ==> shown_best(Some((summary, block)))[1] == block@.take(6000)
            + "..."@,
        !is_blank_text(notes) && notes.len() <= 2500 ==> shown_notes(notes) == seq![notes],
        !is_blank_text(notes) && notes.len() > 2500 ==> shown_notes(notes) == seq![
            notes.take(2500) + "..."@,
        ],
        SHOWN_CODE == 6000 && SHOWN_NOTES == 2500,
{
    trimmed_texts_keep_the_rest(notes);
}

/// A text that may be missing is itself where it is there, and the other one where it
/// is not.
pub proof fn missing_texts_have_a_substitute(
    s: Seq<char>,
    other: Seq<char>,
    a: &str,
    b: &str,
)
    ensures
        text_or(Some(s), other) == s,
        text_or(None, other) == other,
        option_pair_view(Some((a, b))) == Some((a@, b@)),
        option_pair_view(None) is None,
{
}

} // verus!
