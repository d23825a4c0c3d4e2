use competeevolve::archive::{Archive, ParentMetrics, Parent};
use competeevolve::evolution::{
    check_shape, evaluate_block, evolve, file_name, generation_failure, let_in, Admission, Batch,
    BatchAction, BatchEvent, Draft, Drawn, EvolveRequest, Lineage, Operator, SampleReport, Scores,
    ServeAction, ServeEvent, Serving,
};
use competeevolve::harness::HarnessResult;
use competeevolve::json::Json;
use competeevolve::measure::{greatest, Measure};
use competeevolve::prompts::Brief;

fn m(key: i64) -> Measure {
    Measure { key }
}

fn parent(id: &str) -> Parent {
    Parent {
        id: id.to_string(),
        label: format!("label {}", id),
        block: format!("block {}", id),
        metrics: ParentMetrics::Seed,
    }
}

fn brief() -> Brief {
    Brief {
        description: "D".to_string(),
        goal: "G".to_string(),
        contract: "C".to_string(),
        least_quality: "0.8900".to_string(),
        quality: "0.9000".to_string(),
        tolerance: "0.01".to_string(),
        time: "1.00000".to_string(),
        quality_exponent: "4".to_string(),
        speed_exponent: "1".to_string(),
    }
}

fn archive() -> Archive {
    Archive::open("seed block", vec![], vec!["a1".to_string()])
}

#[test]
fn operators_are_named() {
    assert_eq!(Operator::parse(" CROSSOVER\n"), Operator::Crossover);
    assert_eq!(Operator::parse("cross over"), Operator::Mutate);
    assert_eq!(Operator::parse(""), Operator::Mutate);
    assert_eq!(Operator::parse(Operator::Crossover.name()), Operator::Crossover);
    assert_eq!(Operator::parse(Operator::Mutate.name()), Operator::Mutate);
}

#[test]
fn lineages_follow_the_draw() {
    let a = archive();
    let one = Lineage::of(Drawn::Single(parent("p")), &a);
    assert_eq!(one.operator(), Operator::Mutate);
    assert_eq!(one.ids(), vec!["p"]);
    let prompt = one.prompt(&brief(), "{}", "", Some("be quick"));
    assert!(prompt.starts_with("Task: D\nGoal: G\n\nConstraints:\n- C\n"));
    assert!(prompt.contains("\n\nStrategy from the supervising agent: be quick\n\nParent: label p\nMetrics: {}\n```python\nblock p\n```\n\nProduce ONE improved variant"));

    let two = Lineage::of(Drawn::Pair(Some((parent("p"), parent("q")))), &a);
    assert_eq!(two.operator(), Operator::Crossover);
    assert_eq!(two.ids(), vec!["p", "q"]);
    let prompt = two.prompt(&brief(), "m1", "m2", None);
    assert!(prompt.contains("Parent A: label p\nMetrics: m1\n"));
    assert!(prompt.contains("```\n\nParent B: label q\nMetrics: m2\n"));
    assert!(prompt.contains("\n\n\nParent A"));

    let none = Lineage::of(Drawn::Pair(None), &a);
    assert_eq!(none.operator(), Operator::Mutate);
    assert_eq!(none.ids(), vec!["seed"]);
}

#[test]
fn blocks_without_the_model_are_refused() {
    let mut a = archive();
    let refused = check_shape(&mut a, "def f():\n    return 1\n").unwrap();
    assert_eq!(refused.reason, "the generated block does not define `class Model`");
    assert_eq!(refused.preview.as_deref(), Some("def f():\n    return 1\n"));
    assert_eq!(a.rejected_invalid_shape, 1);
    assert!(check_shape(&mut a, "class Model:\n").is_none());
    assert_eq!(a.rejected_invalid_shape, 1);
    assert_eq!(a.rejected_near_duplicates, 0);
}

#[test]
fn near_duplicates_are_refused() {
    let mut a = archive();
    match let_in(&mut a, "a1", 1, m(98), m(98), "0.980") {
        Admission::Rejected(r) => {
            assert_eq!(r.reason, "near-duplicate of an archived candidate or the seed (similarity 0.980); make a substantive change");
            assert!(r.preview.is_none());
        }
        Admission::Admitted(_) => panic!("let in"),
    }
    assert_eq!((a.rejected_near_duplicates, a.counter), (1, 0));
    match let_in(&mut a, "a1", 1, m(97), m(98), "0.970") {
        Admission::Admitted(id) => assert_eq!(id, "a1-r1-c001"),
        Admission::Rejected(_) => panic!("refused"),
    }
    assert_eq!((a.rejected_near_duplicates, a.counter), (1, 1));
    assert_eq!(file_name("a1-r1-c001"), "a1-r1-c001.py");
}

fn draft(id: &str) -> Draft {
    Draft {
        id: id.to_string(),
        agent: "a1".to_string(),
        round: 2,
        operator: "manual".to_string(),
        parents: vec!["agent".to_string()],
        guidance: Some("g".to_string()),
        block: "class Model".to_string(),
        code_path: "p.py".to_string(),
    }
}

fn measured(quality: i64) -> HarnessResult {
    HarnessResult {
        status: "ok".to_string(),
        syntax_error: None,
        runtime_errors: vec![],
        n_folds_total: 2,
        n_folds_ok: 2,
        fit_time: Some(m(1)),
        predict_time: Some(m(1)),
        quality: Some(m(quality)),
        quality_std: None,
        per_dataset: Json::Null,
        code_length: 3,
    }
}

#[test]
fn invalid_candidates_score_zero() {
    let scores = Scores { performance: m(7), novelty: m(3), rank_score: m(5), quality_floor: m(10) };
    let good = evaluate_block(draft("x"), measured(10), scores, 99);
    assert!(good.valid);
    assert_eq!((good.score, good.performance, good.novelty), (m(5), m(7), m(3)));
    assert_eq!(good.created_at, 99);
    assert_eq!((good.id.as_str(), good.agent.as_str(), good.round), ("x", "a1", 2));
    assert_eq!((good.operator.as_str(), good.code_path.as_str()), ("manual", "p.py"));
    assert_eq!(good.parents, vec!["agent"]);
    assert_eq!(good.guidance.as_deref(), Some("g"));
    assert_eq!(good.result.code_length, 3);
    let bad = evaluate_block(draft("y"), measured(9), scores, 99);
    assert!(!bad.valid);
    assert_eq!((bad.score, bad.performance), (m(0), m(7)));
}

#[test]
fn requests_are_reported_on() {
    let mut a = archive();
    let scores = Scores { performance: m(7), novelty: m(3), rank_score: m(5), quality_floor: m(10) };
    a.insert(evaluate_block(draft("x"), measured(10), scores, 0));
    let samples = vec![
        SampleReport::GenerationFailed(generation_failure(&"e".repeat(301))),
        SampleReport::Archived(0),
    ];
    let report = evolve(&a, "a2", samples);
    assert!(report.your_best.is_none());
    assert_eq!(report.global_best.unwrap().id, "x");
    assert_eq!(report.archive_size, 1);
    assert_eq!(report.samples.len(), 2);
    assert!(matches!(&report.samples[0], SampleReport::GenerationFailed(e) if e.len() == 303));
    assert_eq!(evolve(&a, "a1", vec![]).your_best.unwrap().id, "x");
}

fn request(n_samples: usize) -> EvolveRequest {
    EvolveRequest {
        agent: "a1".to_string(),
        round: 1,
        operator: Operator::Mutate,
        n_samples,
        guidance: None,
    }
}

#[test]
fn every_sample_that_is_asked_for_is_reported() {
    let mut batch = Batch::start(&request(3));
    assert!(matches!(batch.step(BatchEvent::Begin), BatchAction::Generate));
    let text = "```python\nclass Model: pass\n```".to_string();
    match batch.step(BatchEvent::Generated(Ok(text))) {
        BatchAction::Serve(block) => assert_eq!(block, "class Model: pass"),
        _ => panic!("not served"),
    }
    assert_eq!(batch.samples.len(), 0);
    assert!(matches!(batch.step(BatchEvent::Served(SampleReport::Archived(4))), BatchAction::Generate));
    // A failed generation is reported and stops nothing.
    let failed = BatchEvent::Generated(Err("e".repeat(301)));
    assert!(matches!(batch.step(failed), BatchAction::Generate));
    assert!(matches!(&batch.samples[1], SampleReport::GenerationFailed(e) if e.len() == 303));
    assert!(matches!(batch.step(BatchEvent::Generated(Ok(String::new()))), BatchAction::Serve(_)));
    assert!(matches!(batch.step(BatchEvent::Served(SampleReport::Archived(5))), BatchAction::Done));
    assert_eq!(batch.samples.len(), batch.asked);
    assert!(matches!(batch.samples[0], SampleReport::Archived(4)));
    assert!(matches!(batch.samples[2], SampleReport::Archived(5)));

    let mut nothing = Batch::start(&request(0));
    assert!(matches!(nothing.step(BatchEvent::Begin), BatchAction::Done));
}

#[test]
fn one_similarity_is_enough_to_be_refused() {
    assert_eq!(greatest(m(3), &vec![]), m(3));
    assert_eq!(greatest(m(0), &vec![m(-4), m(-1)]), m(0));
    let most = greatest(m(3), &vec![m(5), m(9), m(9), m(2)]);
    assert_eq!(most, m(9));
    let mut a = archive();
    assert!(matches!(let_in(&mut a, "a1", 1, most, m(9), "0.990"), Admission::Rejected(_)));
    assert!(matches!(let_in(&mut a, "a1", 1, most, m(10), "0.990"), Admission::Admitted(_)));
}

fn compared(similarity: i64) -> ServeEvent {
    ServeEvent::Compared { similarity: m(similarity), threshold: m(9), text: "0.990".to_string() }
}

#[test]
fn blocks_are_checked_compared_measured_and_archived() {
    let mut a = archive();
    let mut shapeless = draft("");
    shapeless.block = "x = 1".to_string();
    let (state, action) = Serving::Shape(shapeless).step(&mut a, ServeEvent::Begin);
    assert!(matches!(state, Serving::Closed));
    assert!(matches!(action, ServeAction::Report(SampleReport::Rejected(_))));
    assert_eq!((a.rejected_invalid_shape, a.rejected_near_duplicates, a.counter), (1, 0, 0));

    let mut block = draft("");
    block.block = "class Model: pass".to_string();
    let (state, action) = Serving::Shape(block).step(&mut a, ServeEvent::Begin);
    assert!(matches!(action, ServeAction::Compare));
    let (state, action) = state.step(&mut a, compared(8));
    let ServeAction::Measure(id) = action else {
        panic!("not let in");
    };
    assert_eq!(id, "a1-r2-c001");
    assert_eq!(a.len(), 0);
    let scores = Scores { performance: m(7), novelty: m(3), rank_score: m(5), quality_floor: m(10) };
    let event = ServeEvent::Measured {
        code_path: "c.py".to_string(),
        result: measured(9),
        scores,
        now: 11,
    };
    let (state, action) = state.step(&mut a, event);
    assert!(matches!(action, ServeAction::Record));
    assert!(matches!(&state, Serving::Entry(c) if c.id == id && c.code_path == "c.py" && c.created_at == 11));
    assert_eq!(a.len(), 0);
    let (state, action) = state.step(&mut a, ServeEvent::Recorded);
    assert!(matches!(state, Serving::Closed));
    assert!(matches!(action, ServeAction::Report(SampleReport::Archived(0))));
    // A candidate that is not valid is archived too.
    assert_eq!((a.len(), a.entries()[0].valid, a.entries()[0].score), (1, false, m(0)));

    let mut again = draft("");
    again.block = "class Model: pass".to_string();
    let (state, _) = Serving::Shape(again).step(&mut a, ServeEvent::Begin);
    let (state, action) = state.step(&mut a, compared(9));
    assert!(matches!(state, Serving::Closed));
    assert!(matches!(action, ServeAction::Report(SampleReport::Rejected(_))));
    assert_eq!((a.len(), a.counter, a.rejected_near_duplicates), (1, 1, 1));
}
