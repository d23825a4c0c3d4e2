use competeevolve::archive::{Archive, Candidate};
use competeevolve::harness::HarnessResult;
use competeevolve::measure::Measure;
use competeevolve::orchestrator::{
    after_baseline, agent_names, default_goal, feedback, leaderboard_row, rng_seed, tally,
    usable_reference, Run, RunOptions, Start,
};
use competeevolve::prompts::StandingLine;

fn m(key: i64) -> Measure {
    Measure { key }
}

fn options(baseline_only: bool) -> RunOptions {
    RunOptions {
        task: "knn".to_string(),
        goal: None,
        context_file: None,
        run_id: None,
        baseline_only,
    }
}

#[test]
fn goals_and_names() {
    assert!(default_goal("clustering").starts_with("Reduce fit time and improve clustering quality"));
    assert!(default_goal("x").starts_with("Reduce training and prediction time"));
    let mut o = options(false);
    assert_eq!(o.goal("clustering"), default_goal("clustering"));
    assert_eq!(o.run_id("knn", 17), "knn-17");
    o.goal = Some("g".to_string());
    o.run_id = Some("r".to_string());
    assert_eq!(o.goal("clustering"), "g");
    assert_eq!(o.run_id("knn", 17), "r");
    assert_eq!(agent_names(3), vec!["agent-1", "agent-2", "agent-3"]);
    assert!(agent_names(0).is_empty());
    assert_eq!(rng_seed(0), 0x5eed_c0de);
    assert_eq!(rng_seed(0x5eed_c0de), 0);
}

#[test]
fn competition_needs_a_key() {
    assert!(matches!(after_baseline(&options(true), None), Start::Stop));
    assert!(matches!(after_baseline(&options(false), Some("k".to_string())), Start::Compete(k) if k == "k"));
    assert!(matches!(after_baseline(&options(false), None), Start::Refused(e) if e == "GEMINI_API_KEY is not set (copy .env.example to .env)"));
    assert!(usable_reference(Some(HarnessResult::failed("timeout", "x".to_string()))).is_none());
    assert!(usable_reference(Some(HarnessResult::failed("ok", "x".to_string()))).is_some());
    assert!(usable_reference(None).is_none());
}

#[test]
fn runs_end_with_their_rounds() {
    let mut run = Run::start(2);
    assert_eq!(run.next_round(), Some(1));
    run.end_round(m(1), m(7));
    assert_eq!(run.next_round(), Some(2));
    run.end_round(m(2), m(7));
    assert_eq!(run.next_round(), None);
    assert!(!run.reached);
    assert_eq!(run.completed, 2);
}

#[test]
fn runs_stop_at_the_threshold() {
    let mut run = Run::start(5);
    run.end_round(m(7), m(7));
    assert!(run.reached);
    assert_eq!(run.next_round(), None);
    assert_eq!(run.completed, 1);
}

fn candidate(id: &str, agent: &str, score: i64, valid: bool) -> Candidate {
    Candidate {
        id: id.to_string(),
        agent: agent.to_string(),
        round: 1,
        operator: "mutate".to_string(),
        parents: vec![],
        guidance: None,
        block: "b".to_string(),
        code_path: String::new(),
        result: HarnessResult::failed("ok", "e".to_string()),
        performance: m(score),
        novelty: m(0),
        score: m(score),
        valid,
        created_at: 0,
    }
}

#[test]
fn agents_learn_from_a_round() {
    let mut archive = Archive::open("s", vec![], agent_names(3));
    archive.insert(candidate("x", "agent-1", 5, true));
    archive.insert(candidate("y", "agent-2", 9, true));
    archive.insert(candidate("z", "agent-3", 10, false));
    archive.rejected_near_duplicates = 4;
    let rows = archive.standings();
    let f = feedback(&archive, &rows, "agent-2").unwrap();
    assert_eq!((f.position, f.reward), (1, 1));
    assert_eq!(f.rival.unwrap().id, "x");
    let f = feedback(&archive, &rows, "agent-3").unwrap();
    assert_eq!((f.position, f.reward), (3, 0));
    assert_eq!(f.rival.unwrap().id, "y");
    assert!(feedback(&archive, &rows, "nobody").is_none());
    let t = tally(&archive);
    assert_eq!((t.candidates, t.valid_candidates), (3, 2));
    assert_eq!((t.rejected_near_duplicates, t.rejected_invalid_shape), (4, 0));
    assert_eq!(t.best.unwrap().id, "y");
}

#[test]
fn leaderboard_rows_name_the_best() {
    let line = StandingLine {
        rank_position: 1,
        agent: "agent-1".to_string(),
        best_score: "0.5503".to_string(),
        best_performance: "14.6119".to_string(),
        reward: 1,
        valid_candidates: 4,
        candidates: 4,
    };
    assert_eq!(
        leaderboard_row(&line, Some("agent-1-r1-c005")),
        "  #1 agent-1    score 0.5503  performance 14.6119  reward 1  valid 4/4  best agent-1-r1-c005"
    );
    assert!(leaderboard_row(&line, None).ends_with("  best -"));
}
