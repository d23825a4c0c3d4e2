use competeevolve::agent::database::{Connection, RelationalEntry};
use competeevolve::agent::evaluator::{
    code_length, compute_rank_positions, gather_inputs, run, samples_of_others, AgentEvaluation,
    Evaluations, SandboxResult,
};
use competeevolve::agent::reinforcement;
use competeevolve::json::parse_json;
use competeevolve::measure::Measure;

fn m(key: i64) -> Measure {
    Measure { key }
}

fn entry(code: &str, category: &str, agent: Option<&str>, algorithm: &str, score: i64) -> RelationalEntry {
    RelationalEntry {
        id: code.to_string(),
        code: code.to_string(),
        cosine_similarity: m(0),
        functional_accuracy: m(0),
        rank: None,
        category: category.to_string(),
        agent: agent.map(|a| a.to_string()),
        algorithm: Some(algorithm.to_string()),
        rank_score: m(score),
    }
}

fn store() -> Connection {
    let mut c = Connection::new();
    c.entries.push(entry("base", "code", None, "knn", 1));
    c.entries.push(entry("train", "training_data", None, "knn", 1));
    c.entries.push(entry("better train", "training_data", None, "knn", 2));
    c.entries.push(entry("test", "test_data", None, "knn", 1));
    c.entries.push(entry("a old", "code", Some("a"), "knn", 9));
    c.entries.push(entry("b old", "code", Some("b"), "knn", 8));
    c.entries.push(entry("a new", "code", Some("a"), "knn", 2));
    c.entries.push(entry("b new", "code", Some("b"), "knn", 3));
    c.entries.push(entry("c svm", "code", Some("c"), "svm", 3));
    c
}

#[test]
fn inputs_come_from_the_store() {
    let none = parse_json("{}").unwrap();
    let i = gather_inputs(&none, &store(), "a", "knn").unwrap();
    // The latest sample of the agent, not its best; the baseline has no agent.
    assert_eq!(i.sample_code, "a new");
    assert_eq!(i.original_code, "base");
    assert_eq!(i.training_data, "better train");
    assert_eq!(i.test_data, "test");
    let given = parse_json("{\"candidate\": \"1\", \"original_code\": \"2\", \"training_data\": \"3\", \"test_data\": \"4\"}").unwrap();
    let i = gather_inputs(&given, &Connection::new(), "a", "knn").unwrap();
    assert_eq!((i.sample_code.as_str(), i.test_data.as_str()), ("1", "4"));
}

#[test]
fn missing_inputs_are_named_in_order() {
    let ask = |args: &str, agent: &str, algorithm: &str| {
        gather_inputs(&parse_json(args).unwrap(), &store(), agent, algorithm).unwrap_err()
    };
    assert_eq!(
        ask("{}", "z", "knn"),
        "no 'knn' sample found in the database for agent 'z'; run 'evolution' for this agent first, or pass 'candidate' explicitly"
    );
    assert!(ask("{}", "c", "svm").starts_with("no baseline (agent-less) 'code' entry found for algorithm 'svm'; write the original "));
    assert_eq!(
        ask("{\"original_code\": \"x\"}", "c", "svm"),
        "no 'training_data' entry found for algorithm 'svm' in the database; write one first (e.g. database write with category: 'training_data', algorithm: 'svm')"
    );
    assert!(ask("{\"original_code\": \"x\", \"training_data\": \"t\"}", "c", "svm").starts_with("no 'test_data' entry"));
}

#[test]
fn every_rival_is_compared_with_once() {
    let s = store();
    let codes: Vec<&str> = samples_of_others(&s, "z", "knn").iter().map(|e| e.code.as_str()).collect();
    assert_eq!(codes, vec!["a new", "b new"]);
    let codes: Vec<&str> = samples_of_others(&s, "a", "knn").iter().map(|e| e.code.as_str()).collect();
    assert_eq!(codes, vec!["b new"]);
    assert!(samples_of_others(&s, "c", "svm").is_empty());
}

fn evaluation(combined: i64) -> AgentEvaluation {
    AgentEvaluation {
        code: "c".to_string(),
        performance: m(1),
        novelty: m(2),
        accuracy: m(3),
        training_time_seconds: m(4),
        syntax_errors: 0,
        runtime_errors: 0,
        combined: m(combined),
    }
}

fn sandbox(syntax: u32, runtime: u32) -> SandboxResult {
    SandboxResult {
        accuracy: m(1),
        training_time_seconds: m(1),
        syntax_errors: syntax,
        runtime_errors: runtime,
        stderr: String::new(),
    }
}

#[test]
fn evaluations_are_recorded_and_ranked() {
    let mut e = Evaluations::new();
    assert_eq!(
        compute_rank_positions(&e).unwrap_err(),
        "no agent has been evaluated yet; run the 'evaluator' tool for at least one agent first"
    );
    let r = run(&mut e, "a", "knn", evaluation(5), &sandbox(0, 0), &sandbox(0, 0));
    assert!(r.baseline_ok);
    assert_eq!((r.rank_position, r.agent_count), (1, 1));
    assert!(r.notes.is_empty());
    run(&mut e, "b", "knn", evaluation(9), &sandbox(0, 0), &sandbox(0, 0));
    let r = run(&mut e, "c", "knn", evaluation(5), &sandbox(1, 2), &sandbox(0, 3));
    assert!(!r.baseline_ok);
    assert_eq!((r.rank_position, r.agent_count), (3, 3));
    assert_eq!(r.notes.len(), 2);
    assert_eq!(r.notes[0], "Your submitted code had 1 syntax error(s) and 2 runtime error(s), which reduced its performance score. Fix these and evolve a new sample.");
    assert!(r.notes[1].starts_with("The original 'knn' baseline code failed in the sandbox (0 syntax error(s), 3 runtime error(s)), so performance"));
    // A new evaluation takes the place of the old one.
    let r = run(&mut e, "a", "knn", evaluation(10), &sandbox(0, 0), &sandbox(0, 0));
    assert_eq!((r.rank_position, r.agent_count), (1, 3));
    assert_eq!(e.get("a").unwrap().combined, m(10));
    assert_eq!(e.get("b").unwrap().combined, m(9));
    assert!(e.get("z").is_none());
    let places = compute_rank_positions(&e).unwrap();
    assert_eq!(places, vec![("a".to_string(), 1), ("b".to_string(), 2), ("c".to_string(), 3)]);
}

#[test]
fn lengths_and_errors_are_counted() {
    assert_eq!(code_length(" a  b\nc "), 3);
    assert_eq!(code_length(" \n"), 1);
    assert_eq!(sandbox(2, 3).errors(), 5);
    assert!(!sandbox(0, 1).is_clean());
    assert_eq!(sandbox(u32::MAX, 1).errors(), 4_294_967_296);
}

#[test]
fn better_half_is_rewarded() {
    let mut e = Evaluations::new();
    for (name, value) in [("a", 4), ("b", 3), ("c", 2), ("d", 1)] {
        e.record(name, evaluation(value));
    }
    let none = parse_json("{}").unwrap();
    let r = reinforcement::run(&none, &e, "a").unwrap();
    assert_eq!((r.rank_position, r.reward, r.agent_count), (1, 1, 4));
    assert_eq!(r.feedback_prompt, "Reinforcement feedback: your last sample ranked position 1 of 4 agents and earned a reward of 1. Keep exploring in this direction.");
    let rewards: Vec<u8> = r.leaderboard.iter().map(|row| row.reward).collect();
    assert_eq!(rewards, vec![1, 0, 0, 0]);
    assert_eq!(r.leaderboard[1].agent, "b");
    let r = reinforcement::run(&none, &e, "b").unwrap();
    assert_eq!(r.reward, 0);
    assert!(r.feedback_prompt.ends_with("earned a reward of 0. Consider trying a different mutation strategy to improve your rank."));
    assert_eq!(reinforcement::reward_for(1, 3), 1);
    assert_eq!(reinforcement::reward_for(1, 2), 1);
    assert_eq!(reinforcement::reward_for(2, 2), 0);
    assert_eq!(reinforcement::reward_for(1, 1), 0);
    assert_eq!(reinforcement::reward_for(2, 4), 0);
    assert_eq!(reinforcement::reward_for(2, 5), 1);
    assert_eq!(reinforcement::reward_for(usize::MAX, usize::MAX), 0);
}

#[test]
fn rewards_are_refused() {
    let mut e = Evaluations::new();
    let none = parse_json("{}").unwrap();
    assert!(reinforcement::run(&none, &e, "a").unwrap_err().starts_with("no agent has been evaluated yet"));
    e.record("b", evaluation(1));
    assert_eq!(
        reinforcement::run(&none, &e, "a").unwrap_err(),
        "agent 'a' has not been evaluated yet"
    );
    let zero = parse_json("{\"episodes\": 0}").unwrap();
    assert_eq!(
        reinforcement::run(&zero, &e, "b").unwrap_err(),
        "'episodes' must be at least 1"
    );
}

#[test]
fn the_best_of_two_is_rewarded() {
    let mut e = Evaluations::new();
    e.record("a", evaluation(9));
    e.record("b", evaluation(1));
    let args = parse_json("{\"episodes\": 1}").unwrap();
    let r = reinforcement::run(&args, &e, "a").unwrap();
    assert_eq!((r.rank_position, r.reward, r.agent_count), (1, 1, 2));
    assert!(r.feedback_prompt.ends_with("earned a reward of 1. Keep exploring in this direction."));
    let r = reinforcement::run(&args, &e, "b").unwrap();
    assert_eq!((r.rank_position, r.reward), (2, 0));
}

#[test]
fn the_baseline_is_found_below_any_number_of_samples() {
    let mut c = store();
    for i in 0..150 {
        c.entries.push(entry("sample", "code", Some("b"), "knn", 100 + i));
    }
    c.entries.push(entry("second base", "code", None, "knn", 0));
    let none = parse_json("{}").unwrap();
    assert_eq!(gather_inputs(&none, &c, "a", "knn").unwrap().original_code, "base");
}
