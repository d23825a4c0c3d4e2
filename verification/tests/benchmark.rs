use competeevolve::agent::database::{Connection, RelationalEntry};
use competeevolve::agent::evaluator::{AgentEvaluation, Evaluations, SandboxResult};
use competeevolve::benchmark::{
    agent_metrics, build_comparison_table, build_per_agent_table, chart_path, gather_fixture,
    markdown_table, render_report, report_path, BenchmarkReport, MetricsLine, OriginalMetrics,
    Printed, TopSample,
};
use competeevolve::context::{
    choose_file, is_yes, menu_line, no_files, read_agent_count, ChoiceError,
};
use competeevolve::measure::Measure;
use competeevolve::metaprompt::{full_prompt, metaprompt_url, refined, METAPROMPT_SYSTEM};

fn measure(x: f64) -> Measure {
    Measure::from_bits(x.to_bits()).unwrap()
}

fn evaluation(combined: f64) -> AgentEvaluation {
    AgentEvaluation {
        code: "c".to_string(),
        performance: measure(1.0),
        novelty: measure(2.0),
        accuracy: measure(3.0),
        training_time_seconds: measure(4.0),
        syntax_errors: 5,
        runtime_errors: 6,
        combined: measure(combined),
    }
}

#[test]
fn metrics_are_listed_by_rank() {
    let mut e = Evaluations::new();
    assert!(agent_metrics(&e).unwrap_err().starts_with("no agent has been evaluated yet"));
    e.record("a", evaluation(0.1));
    e.record("b", evaluation(0.3));
    e.record("c", evaluation(0.2));
    let rows = agent_metrics(&e).unwrap();
    let names: Vec<&str> = rows.iter().map(|r| r.agent.as_str()).collect();
    assert_eq!(names, vec!["b", "c", "a"]);
    assert_eq!((rows[0].rank_position, rows[0].reward), (1, 1));
    assert_eq!((rows[1].rank_position, rows[1].reward), (2, 0));
    assert_eq!(rows[0].performance, measure(1.0));
    assert_eq!(rows[0].novelty, measure(2.0));
    assert_eq!(rows[0].accuracy, measure(3.0));
    assert_eq!(rows[0].training_time_seconds, measure(4.0));
    assert_eq!((rows[0].syntax_errors, rows[0].runtime_errors), (5, 6));
}

fn sandbox(errors: u32, accuracy: f64) -> SandboxResult {
    SandboxResult {
        accuracy: measure(accuracy),
        training_time_seconds: measure(2.0),
        syntax_errors: 0,
        runtime_errors: errors,
        stderr: "boom".to_string(),
    }
}

fn printed(accuracy: &str) -> Printed {
    Printed {
        accuracy: accuracy.to_string(),
        time: "2.000".to_string(),
        performance: "0.250".to_string(),
    }
}

#[test]
fn tables_are_markdown() {
    assert_eq!(
        markdown_table(
            &vec!["a".to_string(), "b".to_string()],
            &vec![vec!["1".to_string(), "2".to_string()], vec!["3".to_string()]]
        ),
        "| a | b |\n| --- | --- |\n| 1 | 2 |\n| 3 |\n"
    );
    let line = MetricsLine {
        rank_position: 1,
        agent: "a".to_string(),
        accuracy: "0.500".to_string(),
        time: "2.000".to_string(),
        syntax_errors: 0,
        runtime_errors: 3,
        performance: "0.250".to_string(),
        novelty: "0.100".to_string(),
        reward: 1,
    };
    assert_eq!(
        build_per_agent_table(&vec![line]),
        "| Rank | Agent | Accuracy | Time (s) | Syntax Err | Runtime Err | Performance | Novelty | Reward |\n| --- | --- | --- | --- | --- | --- | --- | --- | --- |\n| 1 | a | 0.500 | 2.000 | 0 | 3 | 0.250 | 0.100 | 1 |\n"
    );
}

#[test]
fn comparison_says_what_was_measured() {
    let good = OriginalMetrics::from_result(&sandbox(0, 0.5), measure(0.25));
    assert!(good.measurement_ok);
    assert!(good.measurement_note.is_none());
    assert_eq!(
        build_comparison_table(&good, &printed("0.500"), "a", &printed("0.600"), "+20.0"),
        "|  | Accuracy | Time (s) | Performance |\n| --- | --- | --- | --- |\n| Original | 0.500 | 2.000 | 0.250 |\n| Top evolved (a) | 0.600 (+20.0% vs original) | 2.000 | 0.250 |\n"
    );
    // There is no change against nothing.
    let zero = OriginalMetrics::from_result(&sandbox(0, 1e-9), measure(0.0));
    assert!(build_comparison_table(&zero, &printed("0.000"), "a", &printed("0.600"), "").contains("| 0.600 | 2.000 |"));
    let bad = OriginalMetrics::from_result(&sandbox(2, 0.5), measure(0.0));
    assert_eq!(
        bad.measurement_note.as_deref(),
        Some("original code failed in the sandbox (0 syntax error(s), 2 runtime error(s)); make sure it defines `def run(train_path, test_path) -> float`. Sandbox output: boom")
    );
    let table = build_comparison_table(&bad, &printed("0.500"), "a", &printed("0.600"), "+20.0");
    assert!(table.contains("| Original | N/A* | N/A* | N/A* |\n| Top evolved (a) | 0.600 | 2.000 | 0.250 |\n"));
    assert!(table.ends_with("\n\\* the original code failed in the sandbox — see the note below.\n"));
}

#[test]
fn reports_are_put_together() {
    let mut e = Evaluations::new();
    e.record("a", evaluation(0.1));
    let report = BenchmarkReport {
        algorithm: "knn".to_string(),
        per_agent: agent_metrics(&e).unwrap(),
        original: OriginalMetrics::from_result(&sandbox(1, 0.5), measure(0.0)),
        per_agent_table_md: "T1\n".to_string(),
        top_vs_original_table_md: "T2\n".to_string(),
        chart_path: chart_path("knn"),
        report_path: report_path("knn"),
    };
    assert_eq!(report.top().agent, "a");
    assert_eq!((report.chart_path.as_str(), report.report_path.as_str()), ("benchmark_knn.png", "benchmark_knn.md"));
    let top = TopSample {
        agent: "a".to_string(),
        printed: printed("0.600"),
        novelty: "0.100".to_string(),
        code: "CODE".to_string(),
    };
    assert_eq!(
        render_report(&report, &top, "benchmark_knn.png"),
        "# Benchmark report: knn\n\n## 1. Per-agent performance\n\nT1\n\n## 2. Top ranking evolved code overall\n\nAgent **a** (rank 1 of 1) — accuracy 0.600, 2.000s, performance 0.250, novelty 0.100.\n\n```python\nCODE\n```\n\n## 3. Top evolved vs original\n\nT2\n\n\n> **Note:** original code failed in the sandbox (0 syntax error(s), 1 runtime error(s)); make sure it defines `def run(train_path, test_path) -> float`. Sandbox output: boom\n\n![Benchmark chart](benchmark_knn.png)\n"
    );
}

#[test]
fn fixtures_come_from_the_store() {
    let mut c = Connection::new();
    assert!(gather_fixture(&c, "knn", None).unwrap_err().ends_with("and no 'agent' field), or pass it directly to benchmark::run"));
    assert_eq!(
        gather_fixture(&c, "knn", Some("x")).unwrap_err(),
        "no 'training_data' entry found for algorithm 'knn'"
    );
    for (code, category, agent) in [
        ("evolved", "code", Some("a")),
        ("base", "code", None),
        ("train", "training_data", None),
    ] {
        c.entries.push(RelationalEntry {
            id: code.to_string(),
            code: code.to_string(),
            cosine_similarity: measure(0.0),
            functional_accuracy: measure(0.0),
            rank: None,
            category: category.to_string(),
            agent: agent.map(|a: &str| a.to_string()),
            algorithm: Some("knn".to_string()),
            rank_score: measure(if agent.is_some() { 1.0 } else { 0.0 }),
        });
    }
    assert_eq!(
        gather_fixture(&c, "knn", None).unwrap_err(),
        "no 'test_data' entry found for algorithm 'knn'"
    );
    c.entries[0].category = "test_data".to_string();
    let f = gather_fixture(&c, "knn", None).unwrap();
    assert_eq!((f.original_code.as_str(), f.training_data.as_str(), f.test_data.as_str()), ("base", "train", "evolved"));
}

#[test]
fn users_choose() {
    assert_eq!(menu_line(0, "svm.md"), "  1) svm.md");
    assert_eq!(no_files("context"), "no .md files found under context (including subfolders)");
    assert_eq!(choose_file(" 2\n", 2), Ok(1));
    assert_eq!(choose_file("0", 2), Ok(0));
    assert_eq!(choose_file("3", 2), Err(ChoiceError::OutOfRange));
    assert_eq!(choose_file("x", 2), Err(ChoiceError::Invalid));
    assert_eq!(ChoiceError::Invalid.message(), "invalid selection");
    assert_eq!(ChoiceError::OutOfRange.message(), "selection out of range");
    assert!(is_yes(" Y\n"));
    assert!(!is_yes("yes"));
    assert_eq!(read_agent_count("4\n"), 4);
    assert_eq!(read_agent_count("four"), 1);
}

#[test]
fn prompts_are_refined() {
    assert_eq!(full_prompt(" \n", "p"), "p");
    assert_eq!(
        full_prompt("ctx", "p"),
        "Reference material:\nctx\n\nUser prompt to refine:\np"
    );
    assert_eq!(refined(&vec![vec!["a".to_string(), "b".to_string()]]), Ok("a".to_string()));
    assert_eq!(refined(&vec![]).unwrap_err(), "Gemini returned no candidates");
    assert_eq!(refined(&vec![vec![]]).unwrap_err(), "Gemini returned no candidates");
    assert!(metaprompt_url("K").ends_with("/gemini-3.6-flash:generateContent?key=K"));
    assert!(METAPROMPT_SYSTEM.starts_with("You are a highly experienced prompt engineer. Use any"));
}
