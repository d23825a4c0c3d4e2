use competeevolve::agent::{
    read_turn, show_archive, show_leaderboard, Agent, Round, RoundAction, RoundEvent, ToolCall,
    BUDGET_NOTE, OVER_BUDGET,
};
use competeevolve::archive::{Archive, Candidate};
use competeevolve::evolution::Operator;
use competeevolve::harness::HarnessResult;
use competeevolve::json::parse_json;
use competeevolve::measure::Measure;

fn candidate(id: &str, agent: &str, score: i64, block: &str) -> Candidate {
    Candidate {
        id: id.to_string(),
        agent: agent.to_string(),
        round: 1,
        operator: "mutate".to_string(),
        parents: vec![],
        guidance: None,
        block: block.to_string(),
        code_path: String::new(),
        result: HarnessResult::failed("ok", "e".to_string()),
        performance: Measure { key: score },
        novelty: Measure { key: 0 },
        score: Measure { key: score },
        valid: true,
        created_at: 0,
    }
}

#[test]
fn turns_are_read_part_by_part() {
    let content = parse_json(
        "{\"parts\": [{\"text\": \"a\"}, {\"functionCall\": {\"name\": \"evolve\", \"args\": {\"n_samples\": 2}}, \"text\": \"no\"}, {\"text\": 5}, {\"functionCall\": {}}, {\"text\": \"b\"}]}",
    )
    .unwrap();
    let turn = read_turn(&content);
    assert_eq!(turn.text, "ab");
    assert_eq!(turn.uses.len(), 2);
    assert_eq!(turn.uses[0].name, "evolve");
    assert_eq!(turn.uses[0].args.unwrap().whole_field("n_samples"), Some(2));
    assert_eq!(turn.uses[1].name, "");
    assert!(turn.uses[1].args.is_none());
}

#[test]
fn rounds_end_with_the_budget() {
    let mut agent = Agent::new("a1".to_string());
    let mut round = Round::start(2);
    let first = agent.count_call(&mut round);
    assert_eq!(first.remaining, 1);
    assert_eq!(first.note, None);
    let next = agent.run_round(&mut round, RoundEvent::Turn { made: 1, text: "plan".to_string() });
    assert!(matches!(next, RoundAction::Ask));
    assert_eq!(agent.notes, "");

    let second = agent.count_call(&mut round);
    assert_eq!(second.remaining, 0);
    assert_eq!(second.note, Some(BUDGET_NOTE));
    let next = agent.run_round(&mut round, RoundEvent::Turn { made: 1, text: " \n".to_string() });
    assert!(matches!(next, RoundAction::AskForNotes));

    let notes = parse_json("{\"parts\": [{\"text\": \"it \"}, {\"text\": \"worked\"}]}").unwrap();
    let next = agent.run_round(&mut round, RoundEvent::Notes(Some(&notes)));
    assert!(matches!(next, RoundAction::Done(ref s) if s == "it worked"));
    assert_eq!(agent.notes, "it worked");
    assert_eq!(agent.tool_calls_total, 2);
}

#[test]
fn rounds_keep_what_was_said_last() {
    let mut agent = Agent::new("a1".to_string());
    let mut round = Round::start(1);
    agent.count_call(&mut round);
    agent.run_round(&mut round, RoundEvent::Turn { made: 1, text: "plan".to_string() });
    // The notes could not be had, or are blank.
    let next = agent.run_round(&mut round, RoundEvent::Notes(None));
    assert!(matches!(next, RoundAction::Done(ref s) if s == "plan"));

    let mut round = Round::start(5);
    let next = agent.run_round(&mut round, RoundEvent::Turn { made: 0, text: String::new() });
    assert!(matches!(next, RoundAction::Done(ref s) if s.is_empty()));
    assert_eq!(agent.notes, "");
}

#[test]
fn calls_beyond_the_budget_are_not_run() {
    let mut agent = Agent::new("a1".to_string());
    let mut round = Round::start(3);
    assert_eq!(round.take_calls(0), 0);
    assert_eq!(round.take_calls(2), 2);
    agent.count_call(&mut round);
    agent.count_call(&mut round);
    let next = agent.run_round(&mut round, RoundEvent::Turn { made: 2, text: String::new() });
    assert!(matches!(next, RoundAction::Ask));

    // Four calls are asked for, and one is left.
    let covered = round.take_calls(4);
    assert_eq!(covered, 1);
    for _ in 0..covered {
        agent.count_call(&mut round);
    }
    let refused = round.budget_note();
    assert_eq!((refused.remaining, refused.note), (0, Some(BUDGET_NOTE)));
    assert_eq!(round.take_calls(1), 0);
    let next = agent.run_round(&mut round, RoundEvent::Turn { made: 4, text: String::new() });
    assert!(matches!(next, RoundAction::AskForNotes));
    assert_eq!((agent.tool_calls_total, round.calls, round.budget), (3, 3, 3));
    assert!(OVER_BUDGET.contains("not run"));

    // Without a budget nothing is run.
    let mut none = Round::start(0);
    assert_eq!(none.take_calls(2), 0);
    let next = agent.run_round(&mut none, RoundEvent::Turn { made: 2, text: String::new() });
    assert!(matches!(next, RoundAction::AskForNotes));
    assert_eq!(agent.tool_calls_total, 3);
}

#[test]
fn evolve_calls_are_bounded() {
    let agent = Agent::new("a1".to_string());
    let args = parse_json("{\"operator\": \" CrossOver \", \"n_samples\": 99, \"guidance\": \" go \"}").unwrap();
    match agent.handle_tool(4, 3, "evolve", Some(&args)) {
        ToolCall::Evolve(req) => {
            assert_eq!(req.agent, "a1");
            assert_eq!(req.round, 4);
            assert_eq!(req.operator, Operator::Crossover);
            assert_eq!(req.n_samples, 6);
            assert_eq!(req.guidance.as_deref(), Some("go"));
        }
        _ => panic!("not evolve"),
    }
    let args = parse_json("{\"operator\": \"x\", \"n_samples\": 0, \"guidance\": \"  \"}").unwrap();
    match agent.handle_tool(1, 3, "evolve", Some(&args)) {
        ToolCall::Evolve(req) => {
            assert_eq!(req.operator, Operator::Mutate);
            assert_eq!(req.n_samples, 1);
            assert_eq!(req.guidance, None);
        }
        _ => panic!("not evolve"),
    }
    match agent.handle_tool(1, 3, "evolve", None) {
        ToolCall::Evolve(req) => assert_eq!((req.operator, req.n_samples), (Operator::Mutate, 3)),
        _ => panic!("not evolve"),
    }
}

#[test]
fn other_calls_are_read() {
    let agent = Agent::new("a1".to_string());
    let args = parse_json("{\"code\": \"```python\\nclass Model: pass\\n```\", \"note\": \"n\"}").unwrap();
    match agent.handle_tool(1, 3, "submit_code", Some(&args)) {
        ToolCall::Submit { block, note } => {
            assert_eq!(block, "class Model: pass");
            assert_eq!(note.as_deref(), Some("n"));
        }
        _ => panic!("not submit"),
    }
    assert!(matches!(agent.handle_tool(1, 3, "submit_code", None), ToolCall::Refused(e) if e == "submit_code requires a `code` string"));
    assert!(matches!(agent.handle_tool(1, 3, "dance", None), ToolCall::Refused(e) if e == "unknown tool `dance`"));
    assert!(matches!(agent.handle_tool(1, 3, "leaderboard", None), ToolCall::Leaderboard));
    let args = parse_json("{\"top_n\": 50, \"agent\": \"\", \"include_code\": true}").unwrap();
    assert!(matches!(agent.handle_tool(1, 3, "archive", Some(&args)), ToolCall::Archive { top_n: 20, agent: None, include_code: true }));
    let args = parse_json("{\"top_n\": -1, \"agent\": \"a2\"}").unwrap();
    assert!(matches!(agent.handle_tool(1, 3, "archive", Some(&args)), ToolCall::Archive { top_n: 5, agent: Some(ref a), include_code: false } if a == "a2"));
}

#[test]
fn archive_and_leaderboard_are_shown() {
    let mut archive = Archive::open("s", vec![], vec!["a1".to_string(), "a2".to_string()]);
    archive.insert(candidate("x", "a1", 5, &"x".repeat(8001)));
    archive.insert(candidate("y", "a2", 9, "short"));
    archive.rejected_near_duplicates = 3;
    let shown = show_archive(&archive, 1, Some("a1"), true);
    assert_eq!((shown.archive_size, shown.rejected_near_duplicates), (2, 3));
    assert_eq!(shown.top.len(), 1);
    let mut cut = "x".repeat(8000);
    cut.push_str("...");
    assert_eq!(shown.code, Some(cut));
    assert_eq!(show_archive(&archive, 5, None, false).code, None);
    assert_eq!(show_archive(&archive, 5, Some("a9"), true).code, None);

    let board = show_leaderboard(&archive, "a1");
    assert_eq!(board.standings[0].agent, "a2");
    assert_eq!((board.position, board.reward), (Some(2), Some(0)));
    assert_eq!(board.best_rival.unwrap().id, "y");
    assert_eq!(board.code.as_deref(), Some("short"));
    let stranger = show_leaderboard(&archive, "a9");
    assert_eq!((stranger.position, stranger.reward), (None, None));
    assert_eq!(stranger.best_rival.unwrap().id, "y");
}
