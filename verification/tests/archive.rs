use competeevolve::archive::{
    now_secs, take_line, timestamp, Archive, Candidate, Draw, LineKind, PairState, PairStep,
    ParentMetrics,
};
use competeevolve::harness::HarnessResult;
use competeevolve::json::Json;
use competeevolve::measure::Measure;

fn measure(x: f64) -> Measure {
    Measure::from_bits(x.to_bits()).unwrap()
}

fn ok_result() -> HarnessResult {
    HarnessResult {
        status: "ok".to_string(),
        syntax_error: None,
        runtime_errors: vec![],
        n_folds_total: 0,
        n_folds_ok: 0,
        fit_time: None,
        predict_time: None,
        quality: None,
        quality_std: None,
        per_dataset: Json::Null,
        code_length: 0,
    }
}

fn cand(id: &str, agent: &str, block: &str, score: f64, valid: bool) -> Candidate {
    Candidate {
        id: id.to_string(),
        agent: agent.to_string(),
        round: 1,
        operator: "mutate".to_string(),
        parents: vec!["seed".to_string()],
        guidance: None,
        block: block.to_string(),
        code_path: String::new(),
        result: ok_result(),
        performance: measure(score * 2.0),
        novelty: measure(0.3),
        score: measure(score),
        valid,
        created_at: 0,
    }
}

fn agents() -> Vec<String> {
    vec!["a1".to_string(), "a2".to_string(), "a3".to_string()]
}

fn example() -> Archive {
    let mut a = Archive::open("class Model: pass", vec![], agents());
    a.insert(cand("x", "a1", "class Model: v = 1", 0.4, true));
    a.insert(cand("y", "a2", "class Model: v = 2", 0.7, true));
    a.insert(cand("z", "a3", "class Model: v = 3", 0.9, false));
    a
}

/// Draws two parents, taking the candidate at position `k` of every pool.
fn pair(a: &Archive, agent: &str, k: usize) -> Option<(String, String)> {
    let mut state = PairState::First;
    loop {
        let pool = a.pair_pool(&state, agent);
        let drawn = a.sample_parent(&pool, Draw::Pick(k));
        match a.sample_pair(state, drawn) {
            PairStep::Next(s) => state = s,
            PairStep::Done(Some((p, q))) => return Some((p.id, q.id)),
            PairStep::Done(None) => return None,
        }
    }
}

#[test]
fn standings_rank_best_first_and_reward_top_half() {
    let a = example();
    let s = a.standings();
    assert_eq!(s[0].agent, "a2");
    assert_eq!(s[0].reward, 1);
    assert_eq!(s[1].agent, "a1");
    assert_eq!(s[1].reward, 1);
    assert_eq!(s[2].agent, "a3");
    assert_eq!(s[2].reward, 0);
    assert_eq!(a.best().unwrap().id, "y");

    let pool = a.parent_pool(None, None);
    for k in 0..4 {
        let p = a.sample_parent(&pool, Draw::Pick(k));
        assert!(p.id == "x" || p.id == "y", "invalid candidates are never parents");
        let (pa, pb) = pair(&a, "a1", k).unwrap();
        assert_ne!(pa, pb);
    }

    let b = Archive::open("class Model: pass", a.entries, agents());
    assert_eq!(b.len(), 3);
}

#[test]
fn standings_hold_the_numbers() {
    let mut a = example();
    a.insert(cand("w", "a3", "b", 0.1, false));
    let s = a.standings();
    assert_eq!(s[0].rank_position, 1);
    assert_eq!(s[0].best_id.as_deref(), Some("y"));
    assert_eq!(s[0].best_score, measure(0.7));
    assert_eq!(s[0].best_performance, measure(1.4));
    assert_eq!((s[0].candidates, s[0].valid_candidates), (1, 1));
    // Without a valid candidate the score is zero; the performance is that of
    // the best one that there is.
    assert_eq!(s[2].rank_position, 3);
    assert_eq!(s[2].best_id, None);
    assert_eq!(s[2].best_score, measure(0.0));
    assert_eq!(s[2].best_performance, measure(1.8));
    assert_eq!((s[2].candidates, s[2].valid_candidates), (2, 0));

    let empty = Archive::open("s", vec![], vec!["b".to_string(), "a".to_string()]);
    let s = empty.standings();
    assert_eq!(s[0].agent, "a");
    assert_eq!(s[1].agent, "b");
    assert_eq!(s[0].best_performance, measure(0.0));
    assert!(empty.best().is_none());
}

#[test]
fn best_is_the_first_among_equals() {
    let mut a = example();
    a.insert(cand("y2", "a1", "b", 0.7, true));
    assert_eq!(a.best().unwrap().id, "y");
    assert_eq!(a.best_for_agent("a1").unwrap().id, "y2");
    assert!(a.best_for_agent("a3").is_none());
    assert_eq!(a.latest_for_agent("a1").unwrap().id, "y2");
    assert_eq!(a.latest_for_agent("a3").unwrap().id, "z");
    assert!(a.latest_for_agent("a4").is_none());
    assert_eq!(a.valid_count(), 3);
}

#[test]
fn top_lists_the_best_first() {
    let mut a = example();
    a.insert(cand("y2", "a1", "b", 0.7, true));
    let ids: Vec<&str> = a.top(10, None).iter().map(|c| c.id.as_str()).collect();
    assert_eq!(ids, vec!["y", "y2", "x", "z"]);
    let ids: Vec<&str> = a.top(2, None).iter().map(|c| c.id.as_str()).collect();
    assert_eq!(ids, vec!["y", "y2"]);
    let ids: Vec<&str> = a.top(0, Some("a1")).iter().map(|c| c.id.as_str()).collect();
    assert_eq!(ids, vec!["y2"]);
    assert!(a.top(3, Some("nobody")).is_empty());
}

#[test]
fn ids_count_up() {
    let mut a = Archive::open("s", example().entries, agents());
    assert_eq!(a.next_id("agent-1", 2), "agent-1-r2-c004");
    assert_eq!(a.next_id("agent-2", 2), "agent-2-r2-c005");
    a.counter = 999;
    assert_eq!(a.next_id("a", 10), "a-r10-c1000");
}

#[test]
fn parents_are_drawn_from_the_pool() {
    let a = example();
    let pool = a.parent_pool(None, None);
    let seed = a.sample_parent(&pool, Draw::Seed);
    assert_eq!(seed.id, "seed");
    assert_eq!(seed.label, ["seed (original", "implementation)"].join(" "));
    assert_eq!(seed.block, "class Model: pass");
    assert_eq!(seed.metrics, ParentMetrics::Seed);
    let p = a.sample_parent(&pool, Draw::Pick(0));
    assert_eq!(p.id, "x");
    assert_eq!(p.label, "x by a1 (mutate)");
    assert_eq!(p.block, "class Model: v = 1");
    assert!(matches!(p.metrics, ParentMetrics::Measured { quality: None, times: None, score, .. } if score == measure(0.4)));
    assert_eq!(a.sample_parent(&pool, Draw::Pick(9)).id, "y");
    let none = a.parent_pool(Some("a1"), Some("y"));
    assert!(none.is_empty());
    assert_eq!(a.sample_parent(&none, Draw::Pick(0)).id, "seed");
}

#[test]
fn pairs_prefer_a_rival() {
    let a = example();
    // The second parent is not by the agent itself.
    assert_eq!(pair(&a, "a1", 0), Some(("x".to_string(), "y".to_string())));
    // No rival is left: anyone's will do.
    assert_eq!(pair(&a, "a2", 9), Some(("y".to_string(), "x".to_string())));
    let mut lone = Archive::open("s", vec![], agents());
    assert_eq!(pair(&lone, "a1", 0), None);
    lone.insert(cand("x", "a1", "b", 0.4, true));
    // One candidate is paired with the seed.
    assert_eq!(pair(&lone, "a1", 0), Some(("x".to_string(), "seed".to_string())));
    assert_eq!(pair(&lone, "a2", 0), Some(("x".to_string(), "seed".to_string())));
}

#[test]
fn novelty_is_measured_against_three_terms() {
    let a = example();
    let t = a.novelty_similarities("a1");
    assert_eq!(t.seed, "class Model: pass");
    assert_eq!(t.previous.unwrap().id, "x");
    let ids: Vec<&str> = t.rivals.iter().map(|c| c.id.as_str()).collect();
    assert_eq!(ids, vec!["y"]);
    let t = a.novelty_similarities("a9");
    assert!(t.previous.is_none());
    assert_eq!(t.rivals.len(), 2);
}

#[test]
fn best_rival_is_the_last_among_equals() {
    let mut a = example();
    a.insert(cand("v", "a3", "b", 0.7, true));
    let rows = a.standings();
    // The scores of a2 and a3 are equal, and a3 is listed last.
    assert_eq!(rows[0].agent, "a2");
    assert_eq!(rows[1].agent, "a3");
    assert_eq!(a.best_rival(&rows, "a1").unwrap().id, "v");
    assert_eq!(a.best_rival(&rows, "a3").unwrap().id, "y");
    assert!(Archive::open("s", vec![], agents()).best_rival(&vec![], "a1").is_none());
}

#[test]
fn clock_reads_seconds() {
    assert_eq!(timestamp(Some(5)), 5);
    assert_eq!(timestamp(None), 0);
    // Well after this was written, and not in milliseconds.
    assert!(now_secs() > 1_600_000_000);
    assert!(now_secs() < 100_000_000_000);
}

#[test]
fn standings_are_the_same_in_any_order_of_arrival() {
    let entries = vec![
        cand("p", "a1", "1", 0.4, true),
        cand("q", "a2", "2", 0.4, true),
        cand("r", "a3", "3", 0.9, false),
        cand("s", "a1", "4", 0.2, true),
    ];
    let a = Archive::open("seed", entries, agents());
    let reversed = vec![
        cand("s", "a1", "4", 0.2, true),
        cand("r", "a3", "3", 0.9, false),
        cand("q", "a2", "2", 0.4, true),
        cand("p", "a1", "1", 0.4, true),
    ];
    let mut turned = agents();
    turned.reverse();
    let b = Archive::open("seed", reversed, turned);
    let rows = |x: &Archive| -> Vec<(String, usize, u8, Measure, Measure, usize, usize)> {
        x.standings()
            .into_iter()
            .map(|s| {
                let best = (s.best_score, s.best_performance);
                let counts = (s.candidates, s.valid_candidates);
                (s.agent, s.rank_position, s.reward, best.0, best.1, counts.0, counts.1)
            })
            .collect()
    };
    assert_eq!(rows(&a), rows(&b));
    assert_eq!(rows(&a)[0].0, "a1");
}

#[test]
fn ids_are_new_after_candidates_are_loaded_again() {
    let mut a = Archive::open("seed", vec![], agents());
    let first = a.next_id("a1", 1);
    let second = a.next_id("a2", 1);
    a.insert(cand(&first, "a1", "1", 0.1, true));
    a.insert(cand(&second, "a2", "2", 0.2, true));
    let mut b = Archive::open("seed", a.entries, agents());
    let third = b.next_id("a1", 1);
    assert_eq!(third, "a1-r1-c003");
    assert!(b.find(&third).is_none());
    assert!(b.find(&first).is_some());
}

#[test]
fn ids_are_new_where_some_were_never_archived() {
    let mut a = Archive::open("seed", vec![], agents());
    let first = a.next_id("a1", 1);
    let second = a.next_id("a2", 1);
    let third = a.next_id("a1", 1);
    assert_eq!(third, "a1-r1-c003");
    // The second was given out, and its candidate was never archived.
    a.insert(cand(&third, "a1", "3", 0.3, true));
    a.insert(cand(&first, "a1", "1", 0.1, true));
    let mut b = Archive::open("seed", a.entries, agents());
    assert_eq!(b.counter, 3);
    let next = b.next_id("a1", 1);
    assert_eq!(next, "a1-r1-c004");
    assert!(b.find(&next).is_none());
    assert!(b.find(&second).is_none());
}

#[test]
fn ids_of_another_form_count_as_one_each() {
    let entries = vec![
        cand("x", "a1", "1", 0.1, true),
        cand("a-c7-r1", "a1", "2", 0.1, true),
        cand("a-r1-c99999999999999999999999", "a1", "3", 0.1, true),
        cand("a-r1-c", "a1", "4", 0.1, true),
    ];
    assert_eq!(Archive::open("seed", entries, agents()).counter, 4);
    let entries = vec![cand("a-c2-r1-c1007", "a1", "1", 0.1, true)];
    assert_eq!(Archive::open("seed", entries, agents()).counter, 1007);
}

#[test]
fn only_the_first_draw_may_give_the_seed() {
    let mut a = Archive::open("seed", vec![], agents());
    a.insert(cand("own", "a1", "1", 0.9, true));
    a.insert(cand("rival", "a2", "2", 0.1, true));
    assert!(PairState::First.may_draw_seed());
    let first = a.sample_parent(&a.pair_pool(&PairState::First, "a1"), Draw::Pick(0));
    assert_eq!(first.id, "own");
    let PairStep::Next(state) = a.sample_pair(PairState::First, first) else {
        panic!("one draw is not enough");
    };
    assert!(!state.may_draw_seed());
    let second = a.sample_parent(&a.pair_pool(&state, "a1"), Draw::Pick(7));
    match a.sample_pair(state, second) {
        PairStep::Done(Some((x, y))) => assert_eq!((x.id.as_str(), y.id.as_str()), ("own", "rival")),
        _ => panic!("no pair"),
    }
}

#[test]
fn blank_and_unreadable_lines_are_skipped() {
    let mut entries = Vec::new();
    assert_eq!(take_line(&mut entries, "1", Some(cand("x", "a1", "1", 0.1, true))), LineKind::Kept);
    assert_eq!(take_line(&mut entries, " \t", None), LineKind::Blank);
    assert_eq!(take_line(&mut entries, "{", None), LineKind::Unreadable);
    assert_eq!(take_line(&mut entries, "2", Some(cand("y", "a1", "1", 0.1, true))), LineKind::Kept);
    let a = Archive::open("seed", entries, agents());
    let ids: Vec<&str> = a.entries().iter().map(|c| c.id.as_str()).collect();
    assert_eq!(ids, vec!["x", "y"]);
    assert_eq!(a.seed_block(), "seed");
    assert_eq!((a.rejected_near_duplicates, a.rejected_invalid_shape), (0, 0));
}
