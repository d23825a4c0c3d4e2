//! The report on what the agents achieved: every agent's metrics, the best
//! sample, and how it compares with the code that it started from.
//!
//! Numbers that are printed come as text, to three digits.

use vstd::prelude::*;
use vstd::string::*;

use crate::agent::database::Connection;
use crate::agent::evaluator::{
    baseline_code, best_entry, compute_rank_positions, no_baseline, no_baseline_message,
    place_views, positions_rank_agents, ranked_agents, AgentEvaluation, Evaluations, SandboxResult,
    NOBODY_EVALUATED,
};
use crate::agent::reinforcement::{reward_for, reward_of};
use crate::digits::{decimal, write_decimal, write_usize};
use crate::json::{option_str_view, option_view};
use crate::measure::Measure;
use crate::text::{
    in_order, join, joined, joined_parts_are_in_order, lemma_orders_join, lemma_whole, show_gap,
    show_part, string_views,
};

verus! {

/// The metrics of an agent's sample.
#[derive(Debug)]
pub struct AgentMetrics {
    pub agent: String,
    pub accuracy: Measure,
    pub training_time_seconds: Measure,
    pub syntax_errors: u32,
    pub runtime_errors: u32,
    pub performance: Measure,
    pub novelty: Measure,
    pub rank_position: usize,
    pub reward: u8,
}

/// The mathematical model of an agent's metrics.
pub struct AgentMetricsView {
    pub agent: Seq<char>,
    pub accuracy: Measure,
    pub training_time_seconds: Measure,
    pub syntax_errors: u32,
    pub runtime_errors: u32,
    pub performance: Measure,
    pub novelty: Measure,
    pub rank_position: nat,
    pub reward: nat,
}

impl View for AgentMetrics {
    type V = AgentMetricsView;

    open spec fn view(&self) -> AgentMetricsView {
        AgentMetricsView {
            agent: self.agent@,
            accuracy: self.accuracy,
            training_time_seconds: self.training_time_seconds,
            syntax_errors: self.syntax_errors,
            runtime_errors: self.runtime_errors,
            performance: self.performance,
            novelty: self.novelty,
            rank_position: self.rank_position as nat,
            reward: self.reward as nat,
        }
    }
}

/// The models of some metrics.
pub open spec fn metrics_views(v: Seq<AgentMetrics>) -> Seq<AgentMetricsView> {
    v.map_values(|m: AgentMetrics| m@)
}

/// The metrics of an agent at a rank position among `n`; zeros where it was not
/// evaluated.
pub open spec fn metrics_of(
    evaluation: Option<AgentEvaluation>,
    agent: Seq<char>,
    position: nat,
    n: nat,
) -> AgentMetricsView {
    let zero = Measure::spec_zero();
    AgentMetricsView {
        agent,
        accuracy: match evaluation {
            Some(e) => e.accuracy,
            None => zero,
        },
        training_time_seconds: match evaluation {
            Some(e) => e.training_time_seconds,
            None => zero,
        },
        syntax_errors: match evaluation {
            Some(e) => e.syntax_errors,
            None => 0,
        },
        runtime_errors: match evaluation {
            Some(e) => e.runtime_errors,
            None => 0,
        },
        performance: match evaluation {
            Some(e) => e.performance,
            None => zero,
        },
        novelty: match evaluation {
            Some(e) => e.novelty,
            None => zero,
        },
        rank_position: position,
        reward: reward_of(position, n),
    }
}

/// The metrics of every agent that was evaluated, best first.
pub open spec fn all_metrics(evaluations: Evaluations) -> Seq<AgentMetricsView> {
    let places = ranked_agents(evaluations.rows@);
    Seq::new(
        places.len(),
        |i: int|
            metrics_of(
                evaluations.of(places[i].0),
                places[i].0,
                places[i].1,
                places.len(),
            ),
    )
}

/// The metrics are sorted by rank position: the first has rank one.
pub proof fn metrics_are_sorted(evaluations: Evaluations)
    ensures
        all_metrics(evaluations).len() == evaluations.rows@.len(),
        forall|i: int|
            0 <= i < all_metrics(evaluations).len() ==> (#[trigger] all_metrics(
                evaluations,
            )[i]).rank_position == i + 1,
{
    positions_rank_agents(evaluations.rows@);
}

/// Collects the metrics of every agent that was evaluated, best first.
pub fn agent_metrics(evaluations: &Evaluations) -> (r: Result<Vec<AgentMetrics>, String>)
    ensures
        match r {
            Ok(v) => {
                &&& v@.len() > 0
                &&& metrics_views(v@) == all_metrics(*evaluations)
            },
            Err(e) => evaluations.rows@.len() == 0 && e@ == NOBODY_EVALUATED@,
        },
{
    proof {
        positions_rank_agents(evaluations.rows@);
    }
    let places = match compute_rank_positions(evaluations) {
        Ok(p) => p,
        Err(e) => {
            return Err(e);
        },
    };
    let ghost all = place_views(places@);
    let n: usize = places.len();
    assert(all.len() == n);
    let mut out: Vec<AgentMetrics> = Vec::new();
    let mut i: usize = 0;
    while i < places.len()
        invariant
            all == place_views(places@),
            all == ranked_agents(evaluations.rows@),
            n == places@.len(),
            all.len() == n,
            i <= n,
            out@.len() == i,
            forall|k: int|
                0 <= k < i ==> (#[trigger] out@[k])@ == all_metrics(*evaluations)[k],
        decreases places.len() - i,
    {
        assert(all[i as int] == (places@[i as int].0@, places@[i as int].1 as nat));
        let row = metrics_at(
            evaluations.get(places[i].0.as_str()),
            places[i].0.as_str(),
            places[i].1,
            n,
        );
        assert(row@ == all_metrics(*evaluations)[i as int]);
        out.push(row);
        i += 1;
    }
    assert(metrics_views(out@) =~= all_metrics(*evaluations));
    Ok(out)
}

fn metrics_at(evaluation: Option<&AgentEvaluation>, agent: &str, position: usize, n: usize) -> (r:
    AgentMetrics)
    ensures
        r@ == metrics_of(
            match evaluation {
                Some(e) => Some(*e),
                None => None,
            },
            agent@,
            position as nat,
            n as nat,
        ),
{
    let reward: u8 = reward_for(position, n);
    match evaluation {
        Some(e) => AgentMetrics {
            agent: agent.to_owned(),
            accuracy: e.accuracy,
            training_time_seconds: e.training_time_seconds,
            syntax_errors: e.syntax_errors,
            runtime_errors: e.runtime_errors,
            performance: e.performance,
            novelty: e.novelty,
            rank_position: position,
            reward,
        },
        None => AgentMetrics {
            agent: agent.to_owned(),
            accuracy: Measure::zero(),
            training_time_seconds: Measure::zero(),
            syntax_errors: 0,
            runtime_errors: 0,
            performance: Measure::zero(),
            novelty: Measure::zero(),
            rank_position: position,
            reward,
        },
    }
}

/// What was measured of the code that the agents started from.
#[derive(Debug)]
pub struct OriginalMetrics {
    pub accuracy: Measure,
    pub training_time_seconds: Measure,
    pub performance: Measure,
    /// Whether the numbers were measured at all.
    pub measurement_ok: bool,
    pub measurement_note: Option<String>,
}

/// Why the code that the agents started from was not measured.
pub open spec fn failure_note(result: SandboxResult) -> Seq<char> {
    "original code failed in the sandbox ("@ + decimal(result.syntax_errors as nat)
        + " syntax error(s), "@ + decimal(result.runtime_errors as nat)
        + " runtime error(s)); make sure it defines `def run(train_path, test_path) -> float`. Sandbox output: "@
        + result.stderr@
}

impl OriginalMetrics {
    /// What running the code showed. An error is noted and does not stop
    /// anything.
    pub fn from_result(result: &SandboxResult, performance: Measure) -> (r: OriginalMetrics)
        ensures
            r.accuracy == result.accuracy,
            r.training_time_seconds == result.training_time_seconds,
            r.performance == performance,
            r.measurement_ok == result.clean(),
            option_view(r.measurement_note) == if result.clean() {
                None
            } else {
                Some(failure_note(*result))
            },
    {
        let ok = result.is_clean();
        let measurement_note = if ok {
            None
        } else {
            let mut out = "original code failed in the sandbox (".to_owned();
            out.append(write_decimal(result.syntax_errors as u64).as_str());
            out.append(" syntax error(s), ");
            out.append(write_decimal(result.runtime_errors as u64).as_str());
            out.append(
                " runtime error(s)); make sure it defines `def run(train_path, test_path) -> float`. Sandbox output: ",
            );
            out.append(result.stderr.as_str());
            Some(out)
        };
        OriginalMetrics {
            accuracy: result.accuracy,
            training_time_seconds: result.training_time_seconds,
            performance,
            measurement_ok: ok,
            measurement_note,
        }
    }
}

/// The code that the agents started from, and the data that it is measured on.
#[derive(Debug)]
pub struct Fixture {
    pub original_code: String,
    pub training_data: String,
    pub test_data: String,
}

/// Why there is no entry of a category.
pub open spec fn missing_entry(category: Seq<char>, algorithm: Seq<char>) -> Seq<char> {
    "no '"@ + category + "' entry found for algorithm '"@ + algorithm + "'"@
}

fn missing_entry_message(category: &str, algorithm: &str) -> (r: String)
    ensures
        r@ == missing_entry(category@, algorithm@),
{
    let mut out = "no '".to_owned();
    out.append(category);
    out.append("' entry found for algorithm '");
    out.append(algorithm);
    out.append("'");
    out
}

/// Why there is no code to compare with.
pub open spec fn missing_baseline(algorithm: Seq<char>) -> Seq<char> {
    no_baseline(algorithm) + ", or pass it directly to benchmark::run"@
}

/// What is missing for the comparison, where anything is: the code, unless it
/// is given, the training data or the test data.
pub open spec fn fixture_fault(
    store: Connection,
    algorithm: Seq<char>,
    given: Option<Seq<char>>,
) -> Option<Seq<char>> {
    let entries = store.entries@;
    if given is None && baseline_code(entries, algorithm) is None {
        Some(missing_baseline(algorithm))
    } else if best_entry(entries, "training_data"@, algorithm) is None {
        Some(missing_entry("training_data"@, algorithm))
    } else if best_entry(entries, "test_data"@, algorithm) is None {
        Some(missing_entry("test_data"@, algorithm))
    } else {
        None
    }
}

/// Collects the code that the agents started from, and the data that it is
/// measured on.
pub fn gather_fixture(store: &Connection, algorithm: &str, given: Option<&str>) -> (r: Result<
    Fixture,
    String,
>)
    ensures
        match r {
            Ok(f) => {
                &&& fixture_fault(*store, algorithm@, option_str_view(given)) is None
                &&& Some(f.original_code@) == match option_str_view(given) {
                    Some(code) => Some(code),
                    None => baseline_code(store.entries@, algorithm@),
                }
                &&& Some(f.training_data@) == best_entry(
                    store.entries@,
                    "training_data"@,
                    algorithm@,
                )
                &&& Some(f.test_data@) == best_entry(store.entries@, "test_data"@, algorithm@)
            },
            Err(e) => fixture_fault(*store, algorithm@, option_str_view(given)) == Some(e@),
        },
{
    let original_code = match given {
        Some(code) => code.to_owned(),
        None => match store.baseline_code(algorithm) {
            Some(code) => code,
            None => {
                let mut out = no_baseline_message(algorithm);
                out.append(", or pass it directly to benchmark::run");
                return Err(out);
            },
        },
    };
    let training_data = match store.best_entry("training_data", algorithm) {
        Some(d) => d,
        None => {
            return Err(missing_entry_message("training_data", algorithm));
        },
    };
    let test_data = match store.best_entry("test_data", algorithm) {
        Some(d) => d,
        None => {
            return Err(missing_entry_message("test_data", algorithm));
        },
    };
    Ok(Fixture { original_code, training_data, test_data })
}

/// The cells of some rows.
pub open spec fn cells(rows: Seq<Vec<String>>) -> Seq<Seq<Seq<char>>> {
    rows.map_values(|row: Vec<String>| string_views(row@))
}

/// `n` times the rule below a header.
pub open spec fn rules(n: nat) -> Seq<char>
    decreases n,
{
    if n == 0 {
        Seq::empty()
    } else {
        rules((n - 1) as nat) + " --- |"@
    }
}

/// The lines of some rows.
pub open spec fn row_lines(rows: Seq<Seq<Seq<char>>>) -> Seq<char>
    decreases rows.len(),
{
    if rows.len() == 0 {
        Seq::empty()
    } else {
        row_lines(rows.drop_last()) + "| "@ + joined(rows.last(), " | "@) + " |\n"@
    }
}

/// A table with a header.
pub open spec fn table_text(headers: Seq<Seq<char>>, rows: Seq<Seq<Seq<char>>>) -> Seq<char> {
    "| "@ + joined(headers, " | "@) + " |\n|"@ + rules(headers.len()) + "\n"@ + row_lines(rows)
}

/// Writes a table with a header.
pub fn markdown_table(headers: &Vec<String>, rows: &Vec<Vec<String>>) -> (r: String)
    ensures
        r@ == table_text(string_views(headers@), cells(rows@)),
{
    let mut out = "| ".to_owned();
    out.append(join(headers, " | ").as_str());
    out.append(" |\n|");
    let ghost start = out@;
    let mut i: usize = 0;
    assert(out@ =~= start + rules(0));
    while i < headers.len()
        invariant
            i <= headers@.len(),
            out@ == start + rules(i as nat),
        decreases headers.len() - i,
    {
        out.append(" --- |");
        assert(out@ =~= start + rules((i + 1) as nat));
        i += 1;
    }
    assert(string_views(headers@).len() == headers@.len());
    out.append("\n");
    let ghost head = out@;
    let ghost all = cells(rows@);
    let mut j: usize = 0;
    assert(out@ =~= head + row_lines(all.take(0)));
    while j < rows.len()
        invariant
            all == cells(rows@),
            j <= rows@.len(),
            out@ == head + row_lines(all.take(j as int)),
        decreases rows.len() - j,
    {
        assert(all.take(j + 1).drop_last() =~= all.take(j as int));
        assert(all.take(j + 1).last() == string_views(rows@[j as int]@));
        out.append("| ");
        out.append(join(&rows[j], " | ").as_str());
        out.append(" |\n");
        assert(out@ =~= head + row_lines(all.take(j + 1)));
        j += 1;
    }
    assert(all.take(all.len() as int) =~= all);
    out
}

/// A row of the table of agents.
#[derive(Debug)]
pub struct MetricsLine {
    pub rank_position: usize,
    pub agent: String,
    pub accuracy: String,
    pub time: String,
    pub syntax_errors: u32,
    pub runtime_errors: u32,
    pub performance: String,
    pub novelty: String,
    pub reward: u8,
}

impl MetricsLine {
    /// The cells of this row.
    pub open spec fn cell_texts(self) -> Seq<Seq<char>> {
        seq![
            decimal(self.rank_position as nat),
            self.agent@,
            self.accuracy@,
            self.time@,
            decimal(self.syntax_errors as nat),
            decimal(self.runtime_errors as nat),
            self.performance@,
            self.novelty@,
            decimal(self.reward as nat),
        ]
    }

    /// The cells of this row.
    pub fn to_cells(&self) -> (r: Vec<String>)
        ensures
            string_views(r@) == self.cell_texts(),
    {
        let mut out: Vec<String> = Vec::new();
        out.push(write_usize(self.rank_position));
        out.push(self.agent.clone());
        out.push(self.accuracy.clone());
        out.push(self.time.clone());
        out.push(write_decimal(self.syntax_errors as u64));
        out.push(write_decimal(self.runtime_errors as u64));
        out.push(self.performance.clone());
        out.push(self.novelty.clone());
        out.push(write_decimal(self.reward as u64));
        assert(string_views(out@) =~= self.cell_texts());
        out
    }
}

/// The header of the table of agents.
pub open spec fn agent_headers() -> Seq<Seq<char>> {
    seq![
        "Rank"@,
        "Agent"@,
        "Accuracy"@,
        "Time (s)"@,
        "Syntax Err"@,
        "Runtime Err"@,
        "Performance"@,
        "Novelty"@,
        "Reward"@,
    ]
}

/// The cells of some rows of the table of agents.
pub open spec fn agent_rows(rows: Seq<MetricsLine>) -> Seq<Seq<Seq<char>>> {
    rows.map_values(|m: MetricsLine| m.cell_texts())
}

/// Writes the table of agents.
pub fn build_per_agent_table(lines: &Vec<MetricsLine>) -> (r: String)
    ensures
        r@ == table_text(agent_headers(), agent_rows(lines@)),
{
    let mut headers: Vec<String> = Vec::new();
    headers.push("Rank".to_owned());
    headers.push("Agent".to_owned());
    headers.push("Accuracy".to_owned());
    headers.push("Time (s)".to_owned());
    headers.push("Syntax Err".to_owned());
    headers.push("Runtime Err".to_owned());
    headers.push("Performance".to_owned());
    headers.push("Novelty".to_owned());
    headers.push("Reward".to_owned());
    assert(string_views(headers@) =~= agent_headers());
    let ghost all = agent_rows(lines@);
    let mut rows: Vec<Vec<String>> = Vec::new();
    let mut i: usize = 0;
    assert(cells(rows@) =~= all.take(0));
    while i < lines.len()
        invariant
            all == agent_rows(lines@),
            i <= lines@.len(),
            cells(rows@) == all.take(i as int),
        decreases lines.len() - i,
    {
        let ghost before = cells(rows@);
        rows.push(lines[i].to_cells());
        assert(cells(rows@) =~= before.push(all[i as int]));
        assert(all.take(i + 1) =~= before.push(all[i as int]));
        i += 1;
    }
    assert(all.take(all.len() as int) =~= all);
    markdown_table(&headers, &rows)
}

/// The accuracy below which no change is given: the key of a billionth.
pub const KEY_1E_9: i64 = 0x3e11_2e0b_e826_d695;

/// What is printed of a measurement.
#[derive(Debug)]
pub struct Printed {
    pub accuracy: String,
    pub time: String,
    pub performance: String,
}

/// Whether the change against the code that the agents started from is given.
pub open spec fn gives_change(original: OriginalMetrics) -> bool {
    original.measurement_ok && original.accuracy.key > KEY_1E_9
}

/// The cells of the comparison: what was measured of the code that the agents
/// started from, unless it failed, and of the best sample, with the change in
/// percent, which comes as text with its sign and one digit.
pub open spec fn comparison_rows(
    original: OriginalMetrics,
    printed: Printed,
    agent: Seq<char>,
    top: Printed,
    change: Seq<char>,
) -> Seq<Seq<Seq<char>>> {
    seq![
        if original.measurement_ok {
            seq!["Original"@, printed.accuracy@, printed.time@, printed.performance@]
        } else {
            seq!["Original"@, "N/A*"@, "N/A*"@, "N/A*"@]
        },
        seq![
            "Top evolved ("@ + agent + ")"@,
            if gives_change(original) {
                top.accuracy@ + " ("@ + change + "% vs original)"@
            } else {
                top.accuracy@
            },
            top.time@,
            top.performance@,
        ],
    ]
}

/// What stands below the comparison where the code failed.
pub const FAILED_NOTE: &'static str =
    "\n\\* the original code failed in the sandbox — see the note below.\n";

/// The comparison as a table.
pub open spec fn comparison_text(
    original: OriginalMetrics,
    printed: Printed,
    agent: Seq<char>,
    top: Printed,
    change: Seq<char>,
) -> Seq<char> {
    table_text(
        seq![""@, "Accuracy"@, "Time (s)"@, "Performance"@],
        comparison_rows(original, printed, agent, top, change),
    ) + (if original.measurement_ok {
        Seq::empty()
    } else {
        FAILED_NOTE@
    })
}

/// Writes the comparison of the best sample with the code that the agents
/// started from.
pub fn build_comparison_table(
    original: &OriginalMetrics,
    printed: &Printed,
    agent: &str,
    top: &Printed,
    change: &str,
) -> (r: String)
    ensures
        r@ == comparison_text(*original, *printed, agent@, *top, change@),
{
    let mut headers: Vec<String> = Vec::new();
    headers.push("".to_owned());
    headers.push("Accuracy".to_owned());
    headers.push("Time (s)".to_owned());
    headers.push("Performance".to_owned());
    assert(string_views(headers@) =~= seq![""@, "Accuracy"@, "Time (s)"@, "Performance"@]);
    let mut first: Vec<String> = Vec::new();
    first.push("Original".to_owned());
    if original.measurement_ok {
        first.push(printed.accuracy.clone());
        first.push(printed.time.clone());
        first.push(printed.performance.clone());
    } else {
        first.push("N/A*".to_owned());
        first.push("N/A*".to_owned());
        first.push("N/A*".to_owned());
    }
    let mut label = "Top evolved (".to_owned();
    label.append(agent);
    label.append(")");
    let mut accuracy = top.accuracy.clone();
    if original.measurement_ok && original.accuracy.key > KEY_1E_9 {
        accuracy.append(" (");
        accuracy.append(change);
        accuracy.append("% vs original)");
    }
    let mut second: Vec<String> = Vec::new();
    second.push(label);
    second.push(accuracy);
    second.push(top.time.clone());
    second.push(top.performance.clone());
    let ghost expected = comparison_rows(*original, *printed, agent@, *top, change@);
    assert(string_views(first@) =~= expected[0]);
    assert(string_views(second@) =~= expected[1]);
    let mut rows: Vec<Vec<String>> = Vec::new();
    rows.push(first);
    rows.push(second);
    assert(cells(rows@) =~= expected);
    let mut table = markdown_table(&headers, &rows);
    let ghost plain = table@;
    if !original.measurement_ok {
        table.append(FAILED_NOTE);
    }
    assert(original.measurement_ok ==> plain =~= comparison_text(
        *original,
        *printed,
        agent@,
        *top,
        change@,
    ));
    table
}

/// The report on an algorithm.
#[derive(Debug)]
pub struct BenchmarkReport {
    pub algorithm: String,
    /// Best first.
    pub per_agent: Vec<AgentMetrics>,
    pub original: OriginalMetrics,
    pub per_agent_table_md: String,
    pub top_vs_original_table_md: String,
    pub chart_path: String,
    pub report_path: String,
}

impl BenchmarkReport {
    /// The metrics of the best sample.
    pub fn top(&self) -> (r: &AgentMetrics)
        requires
            self.per_agent@.len() > 0,
        ensures
            *r == self.per_agent@[0],
    {
        &self.per_agent[0]
    }
}

/// The name of the chart of an algorithm.
pub fn chart_path(algorithm: &str) -> (r: String)
    ensures
        r@ == "benchmark_"@ + algorithm@ + ".png"@,
{
    let mut out = "benchmark_".to_owned();
    out.append(algorithm);
    out.append(".png");
    out
}

/// The name of the report on an algorithm.
pub fn report_path(algorithm: &str) -> (r: String)
    ensures
        r@ == "benchmark_"@ + algorithm@ + ".md"@,
{
    let mut out = "benchmark_".to_owned();
    out.append(algorithm);
    out.append(".md");
    out
}

/// What the report says of the best sample.
#[derive(Debug)]
pub struct TopSample {
    pub agent: String,
    pub printed: Printed,
    pub novelty: String,
    pub code: String,
}

/// The note on the code that the agents started from, where there is one.
pub open spec fn note_text(note: Option<Seq<char>>) -> Seq<char> {
    match note {
        Some(n) => "\n> **Note:** "@ + n + "\n"@,
        None => Seq::empty(),
    }
}

/// The text of a report, with the name of the file that its chart is in.
pub open spec fn report_text(report: BenchmarkReport, top: TopSample, chart: Seq<char>) -> Seq<
    char,
> {
    "# Benchmark report: "@ + report.algorithm@ + "\n\n## 1. Per-agent performance\n\n"@
        + report.per_agent_table_md@ + "\n## 2. Top ranking evolved code overall\n\nAgent **"@
        + top.agent@ + "** (rank 1 of "@ + decimal(report.per_agent@.len()) + ") — accuracy "@
        + top.printed.accuracy@ + ", "@ + top.printed.time@ + "s, performance "@
        + top.printed.performance@ + ", novelty "@ + top.novelty@ + ".\n\n```python\n"@
        + top.code@ + "\n```\n\n## 3. Top evolved vs original\n\n"@
        + report.top_vs_original_table_md@ + "\n"@ + note_text(
        option_view(report.original.measurement_note),
    ) + "\n![Benchmark chart]("@ + chart + ")\n"@
}

/// Writes the text of a report.
pub fn render_report(report: &BenchmarkReport, top: &TopSample, chart: &str) -> (r: String)
    ensures
        r@ == report_text(*report, *top, chart@),
{
    let mut out = "# Benchmark report: ".to_owned();
    out.append(report.algorithm.as_str());
    out.append("\n\n## 1. Per-agent performance\n\n");
    out.append(report.per_agent_table_md.as_str());
    out.append("\n## 2. Top ranking evolved code overall\n\nAgent **");
    out.append(top.agent.as_str());
    out.append("** (rank 1 of ");
    out.append(write_usize(report.per_agent.len()).as_str());
    out.append(") — accuracy ");
    out.append(top.printed.accuracy.as_str());
    out.append(", ");
    out.append(top.printed.time.as_str());
    out.append("s, performance ");
    out.append(top.printed.performance.as_str());
    out.append(", novelty ");
    out.append(top.novelty.as_str());
    out.append(".\n\n```python\n");
    out.append(top.code.as_str());
    out.append("\n```\n\n## 3. Top evolved vs original\n\n");
    out.append(report.top_vs_original_table_md.as_str());
    out.append("\n");
    let ghost so_far = out@;
    if let Some(n) = &report.original.measurement_note {
        out.append("\n> **Note:** ");
        out.append(n.as_str());
        out.append("\n");
    }
    assert(out@ =~= so_far + note_text(option_view(report.original.measurement_note)));
    out.append("\n![Benchmark chart](");
    out.append(chart);
    out.append(")\n");
    out
}

/// An agent's metrics are what its own evaluation measured, field by field, with its
/// position and the reward for it; of an agent that was not evaluated all numbers
/// are zero.
pub proof fn metrics_are_those_of_the_evaluation(
    e: AgentEvaluation,
    agent: Seq<char>,
    position: nat,
    n: nat,
)
    ensures
        ({
            let m = metrics_of(Some(e), agent, position, n);
            &&& m.agent == agent
            &&& m.accuracy == e.accuracy
            &&& m.training_time_seconds == e.training_time_seconds
            &&& m.syntax_errors == e.syntax_errors
            &&& m.runtime_errors == e.runtime_errors
            &&& m.performance == e.performance
            &&& m.novelty == e.novelty
            &&& m.rank_position == position
            &&& m.reward == reward_of(position, n)
        }),
        ({
            let m = metrics_of(None, agent, position, n);
            &&& m.agent == agent && m.rank_position == position
            &&& m.accuracy.key == 0 && m.training_time_seconds.key == 0
            &&& m.performance.key == 0 && m.novelty.key == 0
            &&& m.syntax_errors == 0 && m.runtime_errors == 0
        }),
{
}

/// Every ranked agent has its own metrics, in the order of the positions.
pub proof fn metrics_are_listed_by_position(evaluations: Evaluations, i: int)
    requires
        0 <= i < evaluations.rows@.len(),
    ensures
        ({
            let place = ranked_agents(evaluations.rows@)[i];
            let n = evaluations.rows@.len();
            let row = all_metrics(evaluations)[i];
            &&& all_metrics(evaluations).len() == n
            &&& row.agent == place.0
            &&& row.rank_position == i + 1
            &&& row.reward == reward_of((i + 1) as nat, n)
            &&& evaluations.of(place.0) matches Some(e) ==> {
                &&& row.accuracy == e.accuracy
                &&& row.training_time_seconds == e.training_time_seconds
                &&& row.performance == e.performance
                &&& row.novelty == e.novelty
                &&& row.syntax_errors == e.syntax_errors
                &&& row.runtime_errors == e.runtime_errors
            }
        }),
{
    positions_rank_agents(evaluations.rows@);
}

/// What is missing is named: the category and the algorithm, or the algorithm alone.
pub proof fn missing_fixtures_are_named(
    store: Connection,
    category: Seq<char>,
    algorithm: Seq<char>,
    given: Option<Seq<char>>,
)
    ensures
        in_order(missing_entry(category, algorithm), seq![category, algorithm]),
        missing_baseline(algorithm).take(no_baseline(algorithm).len() as int) == no_baseline(
            algorithm,
        ),
        ({
            let entries = store.entries@;
            let fault = fixture_fault(store, algorithm, given);
            let code = given is Some || baseline_code(entries, algorithm) is Some;
            let training = best_entry(entries, "training_data"@, algorithm) is Some;
            let test = best_entry(entries, "test_data"@, algorithm) is Some;
            &&& !code ==> fault == Some(missing_baseline(algorithm))
            &&& code && !training ==> fault == Some(missing_entry("training_data"@, algorithm))
            &&& code && training && !test ==> fault == Some(missing_entry("test_data"@, algorithm))
            &&& code && training && test ==> fault is None
        }),
{
    lemma_missing_entry(category, algorithm);
    assert(missing_baseline(algorithm).take(no_baseline(algorithm).len() as int) =~= no_baseline(
        algorithm,
    ));
}

proof fn lemma_missing_entry(category: Seq<char>, algorithm: Seq<char>)
    ensures
        in_order(missing_entry(category, algorithm), seq![category, algorithm]),
{
    let mut t = "no '"@;
    let mut p = Seq::<Seq<char>>::empty();
    show_part(t, p, category);
    t = t + category;
    p = p.push(category);
    show_gap(t, p, "' entry found for algorithm '"@);
    t = t + "' entry found for algorithm '"@;
    show_part(t, p, algorithm);
    t = t + algorithm;
    p = p.push(algorithm);
    show_gap(t, p, "'"@);
    t = t + "'"@;
    assert(t == missing_entry(category, algorithm));
    assert(p =~= seq![category, algorithm]);
}

/// Why code was not measured is told by the numbers of its errors and by what it
/// wrote.
pub proof fn failures_are_explained(result: SandboxResult)
    ensures
        in_order(
            failure_note(result),
            seq![
                decimal(result.syntax_errors as nat),
                " syntax error(s), "@,
                decimal(result.runtime_errors as nat),
                result.stderr@,
            ],
        ),
{
    let syntax = decimal(result.syntax_errors as nat);
    let runtime = decimal(result.runtime_errors as nat);
    let mut t = "original code failed in the sandbox ("@;
    let mut p = Seq::<Seq<char>>::empty();
    show_part(t, p, syntax);
    t = t + syntax;
    p = p.push(syntax);
    show_part(t, p, " syntax error(s), "@);
    t = t + " syntax error(s), "@;
    p = p.push(" syntax error(s), "@);
    show_part(t, p, runtime);
    t = t + runtime;
    p = p.push(runtime);
    show_gap(t, p, " runtime error(s)); make sure it defines `def run(train_path, test_path) -> float`. Sandbox output: "@);
    t = t + " runtime error(s)); make sure it defines `def run(train_path, test_path) -> float`. Sandbox output: "@;
    show_part(t, p, result.stderr@);
    t = t + result.stderr@;
    p = p.push(result.stderr@);
    assert(t == failure_note(result));
    assert(p =~= seq![syntax, " syntax error(s), "@, runtime, result.stderr@]);
}

/// There is a rule for every column, and a line for every row, in order: its cells
/// between bars.
pub proof fn tables_have_a_line_for_every_row(
    m: nat,
    n: nat,
    a: Seq<Seq<Seq<char>>>,
    b: Seq<Seq<Seq<char>>>,
    row: Seq<Seq<char>>,
)
    ensures
        rules(m + n) == rules(m) + rules(n),
        rules(1) == " --- |"@,
        row_lines(a + b) == row_lines(a) + row_lines(b),
        row_lines(seq![row]) == "| "@ + joined(row, " | "@) + " |\n"@,
{
    lemma_rules(m, n);
    lemma_row_lines(a, b);
    assert(rules(0) + " --- |"@ =~= " --- |"@);
    let none = Seq::<Seq<Seq<char>>>::empty();
    assert(seq![row].drop_last() =~= none);
    assert(row_lines(none) + "| "@ =~= "| "@);
}

proof fn lemma_rules(m: nat, n: nat)
    ensures
        rules(m + n) == rules(m) + rules(n),
    decreases n,
{
    if n == 0 {
        assert(rules(m) + rules(0) =~= rules(m));
    } else {
        lemma_rules(m, (n - 1) as nat);
        assert(rules(m + n) =~= rules(m) + rules(n));
    }
}

proof fn lemma_row_lines(a: Seq<Seq<Seq<char>>>, b: Seq<Seq<Seq<char>>>)
    ensures
        row_lines(a + b) == row_lines(a) + row_lines(b),
    decreases b.len(),
{
    if b.len() == 0 {
        assert(a + b =~= a);
        assert(row_lines(a) + row_lines(b) =~= row_lines(a));
    } else {
        assert((a + b).drop_last() =~= a + b.drop_last());
        lemma_row_lines(a, b.drop_last());
        assert(row_lines(a + b) =~= row_lines(a) + row_lines(b));
    }
}

/// A table is the header, the rule below it, and then all rows.
pub proof fn tables_are_header_rule_and_rows(
    headers: Seq<Seq<char>>,
    rows: Seq<Seq<Seq<char>>>,
)
    ensures
        in_order(
            table_text(headers, rows),
            seq![joined(headers, " | "@), rules(headers.len()), row_lines(rows)],
        ),
        in_order(table_text(headers, rows), headers + seq![row_lines(rows)]),
{
    let head = joined(headers, " | "@);
    lemma_table(head, rules(headers.len()), row_lines(rows));
    lemma_headers(headers, rules(headers.len()), row_lines(rows));
}

proof fn lemma_table(head: Seq<char>, rule: Seq<char>, body: Seq<char>)
    ensures
        in_order("| "@ + head + " |\n|"@ + rule + "\n"@ + body, seq![head, rule, body]),
{
    let mut t = "| "@;
    let mut p = Seq::<Seq<char>>::empty();
    show_part(t, p, head);
    t = t + head;
    p = p.push(head);
    show_gap(t, p, " |\n|"@);
    t = t + " |\n|"@;
    show_part(t, p, rule);
    t = t + rule;
    p = p.push(rule);
    show_gap(t, p, "\n"@);
    t = t + "\n"@;
    show_part(t, p, body);
    t = t + body;
    p = p.push(body);
    assert(p =~= seq![head, rule, body]);
}

proof fn lemma_headers(headers: Seq<Seq<char>>, rule: Seq<char>, body: Seq<char>)
    ensures
        in_order(
            "| "@ + joined(headers, " | "@) + " |\n|"@ + rule + "\n"@ + body,
            headers + seq![body],
        ),
{
    let head = joined(headers, " | "@);
    joined_parts_are_in_order(headers, " | "@);
    let mut t = "| "@;
    let mut p = Seq::<Seq<char>>::empty();
    lemma_orders_join(t, p, head, headers);
    t = t + head;
    p = p + headers;
    show_gap(t, p, " |\n|"@);
    t = t + " |\n|"@;
    show_gap(t, p, rule);
    t = t + rule;
    show_gap(t, p, "\n"@);
    t = t + "\n"@;
    show_part(t, p, body);
    t = t + body;
    p = p.push(body);
    assert(p =~= headers + seq![body]);
}

/// The cells of a row stand below their headers: every figure below its own name.
pub proof fn figures_stand_below_their_names(m: MetricsLine)
    ensures
        m.cell_texts().len() == agent_headers().len(),
        agent_headers()[0] == "Rank"@ && m.cell_texts()[0] == decimal(m.rank_position as nat),
        agent_headers()[1] == "Agent"@ && m.cell_texts()[1] == m.agent@,
        agent_headers()[2] == "Accuracy"@ && m.cell_texts()[2] == m.accuracy@,
        agent_headers()[3] == "Time (s)"@ && m.cell_texts()[3] == m.time@,
        agent_headers()[4] == "Syntax Err"@ && m.cell_texts()[4] == decimal(
            m.syntax_errors as nat,
        ),
        agent_headers()[5] == "Runtime Err"@ && m.cell_texts()[5] == decimal(
            m.runtime_errors as nat,
        ),
        agent_headers()[6] == "Performance"@ && m.cell_texts()[6] == m.performance@,
        agent_headers()[7] == "Novelty"@ && m.cell_texts()[7] == m.novelty@,
        agent_headers()[8] == "Reward"@ && m.cell_texts()[8] == decimal(m.reward as nat),
{
}

/// The table of agents has a row for each, in order.
pub proof fn agents_have_a_row_each(rows: Seq<MetricsLine>, i: int)
    requires
        0 <= i < rows.len(),
    ensures
        agent_rows(rows).len() == rows.len(),
        agent_rows(rows)[i] == rows[i].cell_texts(),
{
}

/// The comparison has the original in front and the best sample behind it. What was
/// not measured is not available, and the change is given only against an original
/// that was measured and whose accuracy is more than a billionth.
pub proof fn comparisons_show_original_and_best(
    original: OriginalMetrics,
    printed: Printed,
    agent: Seq<char>,
    top: Printed,
    change: Seq<char>,
)
    ensures
        ({
            let rows = comparison_rows(original, printed, agent, top, change);
            &&& rows.len() == 2
            &&& rows[0].len() == 4 && rows[1].len() == 4
            &&& rows[0][0] == "Original"@
            &&& original.measurement_ok ==> {
                &&& rows[0][1] == printed.accuracy@
                &&& rows[0][2] == printed.time@
                &&& rows[0][3] == printed.performance@
            }
            &&& !original.measurement_ok ==> {
                &&& rows[0][1] == "N/A*"@
                &&& rows[0][2] == "N/A*"@
                &&& rows[0][3] == "N/A*"@
            }
            &&& in_order(rows[1][0], seq!["Top evolved ("@, agent, ")"@])
            &&& original.measurement_ok && original.accuracy.key > 0x3e11_2e0b_e826_d695
                ==> in_order(
                rows[1][1],
                seq![top.accuracy@, " ("@, change, "% vs original)"@],
            )
            &&& !original.measurement_ok || original.accuracy.key <= 0x3e11_2e0b_e826_d695
                ==> rows[1][1] == top.accuracy@
            &&& rows[1][2] == top.time@
            &&& rows[1][3] == top.performance@
        }),
        original.measurement_ok ==> comparison_text(original, printed, agent, top, change)
            == table_text(
            seq![""@, "Accuracy"@, "Time (s)"@, "Performance"@],
            comparison_rows(original, printed, agent, top, change),
        ),
        !original.measurement_ok ==> comparison_text(original, printed, agent, top, change)
            == table_text(
            seq![""@, "Accuracy"@, "Time (s)"@, "Performance"@],
            comparison_rows(original, printed, agent, top, change),
        ) + FAILED_NOTE@,
{
    lemma_comparison_cells(agent, top.accuracy@, change);
    let table = table_text(
        seq![""@, "Accuracy"@, "Time (s)"@, "Performance"@],
        comparison_rows(original, printed, agent, top, change),
    );
    assert(table + Seq::<char>::empty() =~= table);
}

proof fn lemma_comparison_cells(agent: Seq<char>, accuracy: Seq<char>, change: Seq<char>)
    ensures
        in_order("Top evolved ("@ + agent + ")"@, seq!["Top evolved ("@, agent, ")"@]),
        in_order(
            accuracy + " ("@ + change + "% vs original)"@,
            seq![accuracy, " ("@, change, "% vs original)"@],
        ),
{
    lemma_label(agent);
    let mut t = accuracy;
    lemma_whole(accuracy);
    let mut p = seq![accuracy];
    show_part(t, p, " ("@);
    t = t + " ("@;
    p = p.push(" ("@);
    show_part(t, p, change);
    t = t + change;
    p = p.push(change);
    show_part(t, p, "% vs original)"@);
    t = t + "% vs original)"@;
    p = p.push("% vs original)"@);
    assert(p =~= seq![accuracy, " ("@, change, "% vs original)"@]);
}

proof fn lemma_label(agent: Seq<char>)
    ensures
        in_order("Top evolved ("@ + agent + ")"@, seq!["Top evolved ("@, agent, ")"@]),
{
    let mut t = "Top evolved ("@;
    lemma_whole("Top evolved ("@);
    let mut p = seq!["Top evolved ("@];
    show_part(t, p, agent);
    t = t + agent;
    p = p.push(agent);
    show_part(t, p, ")"@);
    t = t + ")"@;
    p = p.push(")"@);
    assert(p =~= seq!["Top evolved ("@, agent, ")"@]);
}

/// A note is shown where there is one.
pub proof fn notes_are_shown(note: Seq<char>)
    ensures
        in_order(note_text(Some(note)), seq!["\n> **Note:** "@, note]),
        note_text(None).len() == 0,
{
    let mut t = "\n> **Note:** "@;
    lemma_whole("\n> **Note:** "@);
    let mut p = seq!["\n> **Note:** "@];
    show_part(t, p, note);
    t = t + note;
    p = p.push(note);
    show_gap(t, p, "\n"@);
    t = t + "\n"@;
    assert(t == note_text(Some(note)));
    assert(p =~= seq!["\n> **Note:** "@, note]);
}

/// A report shows the algorithm, the table of agents, who is best of how many, what
/// was measured of the best sample and its code, the comparison, the note on the
/// original, and the chart, in this order.
pub proof fn reports_show_everything(report: BenchmarkReport, top: TopSample, chart: Seq<char>)
    ensures
        in_order(
            report_text(report, top, chart),
            seq![
                report.algorithm@,
                report.per_agent_table_md@,
                top.agent@,
                decimal(report.per_agent@.len()),
                top.printed.accuracy@,
                top.printed.time@,
                top.printed.performance@,
                top.novelty@,
                top.code@,
                report.top_vs_original_table_md@,
                note_text(option_view(report.original.measurement_note)),
                chart,
            ],
        ),
{
    let n = decimal(report.per_agent@.len());
    let note = note_text(option_view(report.original.measurement_note));
    let mut t = "# Benchmark report: "@;
    let mut p = Seq::<Seq<char>>::empty();
    show_part(t, p, report.algorithm@);
    t = t + report.algorithm@;
    p = p.push(report.algorithm@);
    show_gap(t, p, "\n\n## 1. Per-agent performance\n\n"@);
    t = t + "\n\n## 1. Per-agent performance\n\n"@;
    show_part(t, p, report.per_agent_table_md@);
    t = t + report.per_agent_table_md@;
    p = p.push(report.per_agent_table_md@);
    show_gap(t, p, "\n## 2. Top ranking evolved code overall\n\nAgent **"@);
    t = t + "\n## 2. Top ranking evolved code overall\n\nAgent **"@;
    show_part(t, p, top.agent@);
    t = t + top.agent@;
    p = p.push(top.agent@);
    show_gap(t, p, "** (rank 1 of "@);
    t = t + "** (rank 1 of "@;
    show_part(t, p, n);
    t = t + n;
    p = p.push(n);
    show_gap(t, p, ") — accuracy "@);
    t = t + ") — accuracy "@;
    show_part(t, p, top.printed.accuracy@);
    t = t + top.printed.accuracy@;
    p = p.push(top.printed.accuracy@);
    show_gap(t, p, ", "@);
    t = t + ", "@;
    show_part(t, p, top.printed.time@);
    t = t + top.printed.time@;
    p = p.push(top.printed.time@);
    show_gap(t, p, "s, performance "@);
    t = t + "s, performance "@;
    show_part(t, p, top.printed.performance@);
    t = t + top.printed.performance@;
    p = p.push(top.printed.performance@);
    show_gap(t, p, ", novelty "@);
    t = t + ", novelty "@;
    show_part(t, p, top.novelty@);
    t = t + top.novelty@;
    p = p.push(top.novelty@);
    show_gap(t, p, ".\n\n```python\n"@);
    t = t + ".\n\n```python\n"@;
    show_part(t, p, top.code@);
    t = t + top.code@;
    p = p.push(top.code@);
    show_gap(t, p, "\n```\n\n## 3. Top evolved vs original\n\n"@);
    t = t + "\n```\n\n## 3. Top evolved vs original\n\n"@;
    show_part(t, p, report.top_vs_original_table_md@);
    t = t + report.top_vs_original_table_md@;
    p = p.push(report.top_vs_original_table_md@);
    show_gap(t, p, "\n"@);
    t = t + "\n"@;
    show_part(t, p, note);
    t = t + note;
    p = p.push(note);
    show_gap(t, p, "\n![Benchmark chart]("@);
    t = t + "\n![Benchmark chart]("@;
    show_part(t, p, chart);
    t = t + chart;
    p = p.push(chart);
    show_gap(t, p, ")\n"@);
    t = t + ")\n"@;
    assert(t == report_text(report, top, chart));
    assert(p =~= seq![
        report.algorithm@,
        report.per_agent_table_md@,
        top.agent@,
        n,
        top.printed.accuracy@,
        top.printed.time@,
        top.printed.performance@,
        top.novelty@,
        top.code@,
        report.top_vs_original_table_md@,
        note,
        chart,
    ]);
}

/// The model of an agent's metrics is what they hold, field by field, and the cells
/// of a table are those of its rows.
pub proof fn metrics_are_what_they_hold(
    m: AgentMetrics,
    list: Seq<AgentMetrics>,
    rows: Seq<Vec<String>>,
    i: int,
)
    ensures
        m@.agent == m.agent@,
        m@.accuracy == m.accuracy,
        m@.training_time_seconds == m.training_time_seconds,
        m@.syntax_errors == m.syntax_errors,
        m@.runtime_errors == m.runtime_errors,
        m@.performance == m.performance,
        m@.novelty == m.novelty,
        m@.rank_position == m.rank_position,
        m@.reward == m.reward,
        metrics_views(list).len() == list.len(),
        0 <= i < list.len() ==> metrics_views(list)[i] == list[i]@,
        cells(rows).len() == rows.len(),
        0 <= i < rows.len() ==> cells(rows)[i] == string_views(rows[i]@),
{
}

} // verus!
