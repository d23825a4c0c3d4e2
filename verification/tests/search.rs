use competeevolve::agent::database::{Connection, RelationalEntry, Source};
use competeevolve::agent::evolution::{
    gather_inputs, generate_samples, read_parameters, reply_text, sample_id, sample_prompt,
    store_winner, strip_code_fences, winner_figures, winner_plan, Parameters, Replies,
    RepliesAction, Sample, Search, SearchAction, SearchEvent,
};
use competeevolve::agent::session::{
    call_tool, send, session_url, step, system_instruction, SessionStep, StepVerdict, Tool,
};
use competeevolve::json::parse_json;
use competeevolve::measure::Measure;

fn m(key: i64) -> Measure {
    Measure { key }
}

#[test]
fn parameters_have_defaults() {
    let p = read_parameters(&parse_json("{\"generations\": 5}").unwrap()).unwrap();
    assert_eq!((p.generations, p.population_size, p.samples_per_population), (5, 3, 4));
    assert!(p.mu_threshold.is_none());
    let p = read_parameters(&parse_json("{\"generations\": 1, \"population_size\": 2, \"samples_per_population\": 1, \"mu_threshold\": 0.5}").unwrap()).unwrap();
    assert_eq!((p.generations, p.population_size, p.samples_per_population), (1, 2, 1));
    assert_eq!(p.mu_threshold.as_deref(), Some("0.5"));
    assert_eq!(
        read_parameters(&parse_json("{}").unwrap()).unwrap_err(),
        "evolution requires a 'generations' field"
    );
    assert_eq!(
        read_parameters(&parse_json("{\"generations\": 2, \"population_size\": 0}").unwrap()).unwrap_err(),
        "'generations', 'population_size', and 'samples_per_population' must all be greater than 0"
    );
}

#[test]
fn search_works_on_the_best_entries() {
    let mut c = Connection::new();
    let none = parse_json("{\"training_data\": \"t\", \"test_data\": \"u\"}").unwrap();
    assert!(gather_inputs(&none, &c, "knn").unwrap_err().starts_with("no 'code' entry found for algorithm 'knn' in the database;"));
    for (code, score) in [("worse", 1), ("better", 2)] {
        c.entries.push(RelationalEntry {
            id: code.to_string(),
            code: code.to_string(),
            cosine_similarity: m(0),
            functional_accuracy: m(0),
            rank: None,
            category: "code".to_string(),
            agent: None,
            algorithm: Some("knn".to_string()),
            rank_score: m(score),
        });
    }
    let i = gather_inputs(&none, &c, "knn").unwrap();
    assert_eq!((i.original_code.as_str(), i.training_data.as_str(), i.test_data.as_str()), ("better", "t", "u"));
}

fn sample(id: &str, rank: i64) -> Sample {
    Sample {
        id: id.to_string(),
        code: id.to_string(),
        novelty: m(0),
        time_seconds: m(0),
        accuracy: m(0),
        performance: m(0),
        rank: m(rank),
        syntax_errors: 0,
        runtime_errors: 0,
    }
}

fn parameters(generations: usize, population_size: usize) -> Parameters {
    Parameters { generations, population_size, samples_per_population: 4, mu_threshold: None }
}

fn asked(generation: usize, population: usize) -> SearchAction {
    SearchAction::Generate { generation, population, samples: 4 }
}

#[test]
fn search_keeps_the_first_best() {
    let mut s = Search::start(&parameters(2, 3), m(7));
    assert_eq!(s.step(SearchEvent::Begin), asked(1, 0));
    let first = vec![sample("a", 1), sample("b", 3), sample("c", 3)];
    assert_eq!(s.step(SearchEvent::Population(first)), asked(1, 1));
    assert_eq!(s.step(SearchEvent::Population(vec![])), asked(1, 2));
    let third = vec![sample("d", 3), sample("e", 2)];
    assert_eq!(s.step(SearchEvent::Population(third)), SearchAction::Rate);
    assert_eq!(s.best.as_ref().unwrap().id, "b");
    assert_eq!(s.step(SearchEvent::Rated(m(5))), asked(2, 0));
    assert_eq!(s.step(SearchEvent::Population(vec![sample("f", 4)])), asked(2, 1));
    assert_eq!(s.step(SearchEvent::Population(vec![sample("g", 4)])), asked(2, 2));
    assert_eq!(s.step(SearchEvent::Population(vec![])), SearchAction::Rate);
    // No generation is left.
    assert_eq!(s.step(SearchEvent::Rated(m(6))), SearchAction::Done);
    assert_eq!((s.iterations_run, s.mu), (2, m(6)));
    assert_eq!(s.finish().unwrap().id, "f");
}

#[test]
fn search_stops_at_the_threshold() {
    let mut s = Search::start(&parameters(9, 1), m(7));
    assert_eq!(s.step(SearchEvent::Begin), asked(1, 0));
    assert_eq!(s.step(SearchEvent::Population(vec![])), SearchAction::Rate);
    // Without a sample nothing is reached.
    assert_eq!(s.step(SearchEvent::Rated(m(8))), asked(2, 0));
    assert_eq!(s.mu, m(0));
    assert_eq!(s.step(SearchEvent::Population(vec![sample("a", 1)])), SearchAction::Rate);
    assert_eq!(s.step(SearchEvent::Rated(m(7))), SearchAction::Done);
    assert_eq!(s.iterations_run, 2);
    assert_eq!(s.finish().unwrap().id, "a");

    let mut reached = Search::start(&parameters(1, 1), m(0));
    assert_eq!(reached.step(SearchEvent::Begin), SearchAction::Done);
    assert_eq!(reached.finish().unwrap_err(), "evolution produced no viable samples");
}

#[test]
fn populations_are_asked_for_sample_by_sample() {
    let reply = |text: &str| {
        let mut raw = "{\"candidates\": [{\"content\": {\"parts\": [{\"text\": \"".to_string();
        raw.push_str(text);
        raw.push_str("\"}]}}]}");
        parse_json(&raw).unwrap()
    };
    let mut replies = Replies::start(3);
    assert!(matches!(replies.step(None), RepliesAction::Ask));
    assert!(matches!(replies.step(Some(&reply("a"))), RepliesAction::Ask));
    assert!(matches!(replies.step(Some(&parse_json("{}").unwrap())), RepliesAction::Ask));
    match replies.step(Some(&reply(" b "))) {
        RepliesAction::Samples(s) => assert_eq!(s, Ok(vec!["a".to_string(), "b".to_string()])),
        RepliesAction::Ask => panic!("asked again"),
    }
    let mut none = Replies::start(1);
    match none.step(Some(&reply(" "))) {
        RepliesAction::Samples(s) => assert_eq!(s.unwrap_err(), "Gemini returned no usable samples"),
        RepliesAction::Ask => panic!("asked again"),
    }
}

#[test]
fn winners_are_stored_with_their_rank_and_accuracy() {
    let mut c = Connection::new();
    let mut winner = sample("gen1_pop0_sample2", 9);
    winner.accuracy = m(4);
    store_winner(&mut c, &winner, "a", "knn", m(1), m(2));
    assert_eq!((c.entries.len(), c.vectors.len(), c.next_id), (1, 1, 0));
    let e = &c.entries[0];
    assert_eq!((e.rank, e.functional_accuracy), (Some(m(9)), m(4)));
    assert_eq!((e.cosine_similarity, e.rank_score), (m(1), m(2)));
    assert_eq!((e.id.as_str(), e.category.as_str()), ("gen1_pop0_sample2", "code"));
    assert_eq!((e.agent.as_deref(), e.algorithm.as_deref()), (Some("a"), Some("knn")));
    let f = winner_figures(&winner, m(5), m(6));
    assert_eq!((f.rank, f.functional_accuracy), (Some(m(9)), m(4)));
    assert_eq!((f.cosine_similarity, f.rank_score), (m(5), m(6)));
}

#[test]
fn samples_are_named_and_written() {
    assert_eq!(sample_id(2, 0, 13), "gen2_pop0_sample13");
    let plan = winner_plan(&sample("x", 1), "a", "knn");
    assert!(matches!(&plan.source, Source::Inline(c) if c == "x"));
    assert_eq!(plan.category, "code");
    assert_eq!((plan.agent.as_deref(), plan.algorithm.as_deref(), plan.id.as_deref()), (Some("a"), Some("knn"), Some("x")));
    let prompt = sample_prompt("CODE");
    assert!(prompt.contains("-> float:\n    # trains on the CSV at train_path, evaluates on the CSV at test_path,\n    # and returns test-set accuracy as a float in [0, 1]\n\nRespond with ONLY"));
    assert!(prompt.ends_with("\n\nOriginal code:\nCODE"));
}

#[test]
fn replies_are_taken_out_of_their_fence() {
    assert_eq!(strip_code_fences(" ```python\nx = 1\n``` trailing"), "x = 1");
    assert_eq!(strip_code_fences("```py-3\nx\n```"), "-3\nx");
    assert_eq!(strip_code_fences("```\nx"), "x");
    assert_eq!(strip_code_fences("  plain ``` code "), "plain ``` code");
    let replies = vec!["```\n\n```".to_string(), "a".to_string(), "  ".to_string()];
    assert_eq!(generate_samples(&replies), Ok(vec!["a".to_string()]));
    assert_eq!(
        generate_samples(&vec![" ".to_string()]).unwrap_err(),
        "Gemini returned no usable samples"
    );
    let reply = parse_json("{\"candidates\": [{\"content\": {\"parts\": [{\"text\": \"t\"}, {\"text\": \"u\"}]}}]}").unwrap();
    assert_eq!(reply_text(&reply), "t");
    assert_eq!(reply_text(&parse_json("{}").unwrap()), "");
}

#[test]
fn sessions_answer_until_nothing_is_called() {
    let call = parse_json("{\"content\": {\"parts\": [{\"functionCall\": {\"name\": \"database\"}}, {\"text\": \"x\"}]}}").unwrap();
    assert!(matches!(send(&call), SessionStep::Answer(ref u) if u.len() == 1 && u[0].name == "database"));
    let done = parse_json("{\"content\": {\"parts\": [{\"text\": \"all \"}, {\"text\": \"done\"}]}}").unwrap();
    assert!(matches!(send(&done), SessionStep::Reply(ref s) if s == "all done"));
    assert!(matches!(send(&parse_json("{}").unwrap()), SessionStep::Reply(ref s) if s.is_empty()));
    assert!(matches!(call_tool("evolution"), Tool::Evolution));
    assert!(matches!(call_tool("evaluator"), Tool::Evaluator));
    assert!(matches!(call_tool("reinforcement"), Tool::Reinforcement));
    assert!(matches!(call_tool("database"), Tool::Database));
    assert!(matches!(call_tool("x"), Tool::Unknown(ref s) if s == "no such tool: x"));
}

#[test]
fn sessions_retry_when_the_quota_is_spent() {
    let spent = parse_json("{\"error\": {\"status\": \"RESOURCE_EXHAUSTED\", \"details\": [{\"@type\": \"type.googleapis.com/google.rpc.RetryInfo\", \"retryDelay\": \"9s\"}]}}").unwrap();
    assert!(matches!(step(&spent, 4), StepVerdict::Retry { asked: Some(ref s) } if s == "9"));
    assert!(matches!(step(&spent, 5), StepVerdict::Failed));
    let other = parse_json("{\"error\": {\"status\": \"UNAVAILABLE\"}}").unwrap();
    assert!(matches!(step(&other, 0), StepVerdict::Failed));
    assert!(matches!(step(&parse_json("[]").unwrap(), 0), StepVerdict::Failed));
    let good = parse_json("{\"candidates\": [{\"content\": 1}]}").unwrap();
    assert!(matches!(step(&good, 9), StepVerdict::Candidate(_)));
    assert_eq!(
        session_url("K"),
        "https://generativelanguage.googleapis.com/v1beta/models/gemini-3.5-flash-lite:generateContent?key=K"
    );
    let text = system_instruction("agent-1", "knn");
    assert!(text.starts_with("You are agent-1, one of several competing agents"));
    assert!(text.contains("assigned to optimize the 'knn' algorithm. You must actually IMPROVE code"));
    assert!(text.contains("implementations of 'knn' seeded from the database"));
}
