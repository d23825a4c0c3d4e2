use competeevolve::agent::database::{
    route, Route,
    csv_shape, run, unreadable_file, upload_csv_file, validate_csv, word_counts, Connection,
    Figures, Outcome, ReadReply, Request, Source, WritePlan, WriteReply,
};
use competeevolve::json::parse_json;
use competeevolve::measure::Measure;

fn measure(x: f64) -> Measure {
    Measure::from_bits(x.to_bits()).unwrap()
}

fn double(m: Measure) -> f64 {
    f64::from_bits(m.to_bits())
}

fn embed(code: &str) -> Vec<f32> {
    let counts = word_counts(code);
    let norm = counts.iter().map(|c| (c * c) as f32).sum::<f32>().sqrt();
    counts.iter().map(|c| if norm > 0.0 { *c as f32 / norm } else { 0.0 }).collect()
}

fn similarity(conn: &Connection, code: &str) -> f32 {
    let e = embed(code);
    conn.entries
        .iter()
        .map(|o| embed(&o.code).iter().zip(&e).map(|(x, y)| x * y).sum::<f32>())
        .fold(0.0, f32::max)
}

fn number(text: &Option<String>) -> Option<f32> {
    text.as_ref().map(|t| t.parse::<f64>().unwrap() as f32)
}

fn write(conn: &mut Connection, plan: WritePlan) -> Result<WriteReply, String> {
    let code = match &plan.source {
        Source::Inline(c) => c.clone(),
        Source::File(_) => panic!("no file here"),
    };
    let similar = similarity(conn, &code);
    let accuracy = number(&plan.functional_accuracy).unwrap_or(0.0);
    let figures = Figures {
        cosine_similarity: measure(similar as f64),
        functional_accuracy: measure(accuracy as f64),
        rank: number(&plan.rank).map(|r| measure(r as f64)),
        rank_score: measure(((similar + accuracy) / 2.0) as f64),
    };
    conn.handle_write(plan, figures)
}

fn call_write(conn: &mut Connection, args: &str) -> Result<WriteReply, String> {
    match run(&parse_json(args).unwrap())? {
        Request::Write(plan) => write(conn, plan),
        Request::Read(_) => panic!("asked for a write"),
    }
}

fn call_read<'a>(conn: &'a Connection, args: &str) -> ReadReply<'a> {
    match run(&parse_json(args).unwrap()).unwrap() {
        Request::Write(_) => panic!("asked for a read"),
        Request::Read(plan) => conn.handle_read(&plan),
    }
}

#[test]
fn write_then_read_roundtrip() {
    let mut conn = Connection::new();
    let r1 = call_write(
        &mut conn,
        "{ \"action\": \"write\", \"code\": \"fn add(a: i32, b: i32) -> i32 { a + b }\", \"functional_accuracy\": 0.9 }",
    )
    .unwrap();
    assert_eq!(double(r1.cosine_similarity), 0.0); // nothing to compare against yet

    let r2 = call_write(
        &mut conn,
        "{ \"action\": \"write\", \"code\": \"fn add(a: i32, b: i32) -> i32 { a + b }\", \"functional_accuracy\": 0.95 }",
    )
    .unwrap();
    // Identical code should be maximally similar to the first entry.
    assert!(double(r2.cosine_similarity) > 0.99);

    let ReadReply::Results(results) = call_read(&conn, "{ \"action\": \"read\", \"top_n\": 1 }") else {
        panic!("empty");
    };
    assert_eq!(results.len(), 1);
    assert_eq!(results[0].id, "code_2");
}

#[test]
fn read_on_empty_db() {
    let conn = Connection::new();
    let reply = call_read(&conn, "{ \"action\": \"read\" }");
    assert!(matches!(reply, ReadReply::Empty(m) if m == "no 'code' entries stored yet"));
}

#[test]
fn query_string_fallback() {
    let mut conn = Connection::new();
    assert!(call_write(&mut conn, "{ \"query\": \"print('hello world')\" }").is_ok());
    let reply = call_read(&conn, "{ \"query\": \"read\" }");
    assert!(matches!(reply, ReadReply::Results(_)));
}

#[test]
fn category_and_agent_filtering() {
    let mut conn = Connection::new();
    call_write(&mut conn, "{ \"action\": \"write\", \"code\": \"x\\n1\\n2\", \"category\": \"training_data\" }").unwrap();
    call_write(&mut conn, "{ \"action\": \"write\", \"code\": \"fn a() {}\", \"category\": \"code\", \"agent\": \"agent_a\", \"functional_accuracy\": 0.9, \"rank\": 2.5 }").unwrap();
    call_write(&mut conn, "{ \"action\": \"write\", \"code\": \"fn b() {}\", \"category\": \"code\", \"agent\": \"agent_b\", \"functional_accuracy\": 0.4 }").unwrap();

    // default read (category "code") should not surface training data
    let ReadReply::Results(results) = call_read(&conn, "{ \"action\": \"read\", \"top_n\": 10 }") else {
        panic!("empty");
    };
    assert_eq!(results.len(), 2);
    assert!(results.iter().all(|r| r.category == "code"));

    // filtering by agent narrows to just that agent's entry, with rank preserved
    let ReadReply::Results(results_a) =
        call_read(&conn, "{ \"action\": \"read\", \"top_n\": 10, \"agent\": \"agent_a\" }")
    else {
        panic!("empty");
    };
    assert_eq!(results_a.len(), 1);
    assert_eq!(results_a[0].agent.as_deref(), Some("agent_a"));
    assert_eq!(results_a[0].rank, Some(measure(2.5)));

    // training_data category is retrievable on its own
    let ReadReply::Results(training) =
        call_read(&conn, "{ \"action\": \"read\", \"category\": \"training_data\" }")
    else {
        panic!("empty");
    };
    assert_eq!(training[0].category, "training_data");
}

#[test]
fn algorithm_filtering() {
    let mut conn = Connection::new();
    call_write(&mut conn, "{ \"action\": \"write\", \"code\": \"fn kmeans() {}\", \"category\": \"code\", \"algorithm\": \"kmeans\" }").unwrap();
    call_write(&mut conn, "{ \"action\": \"write\", \"code\": \"fn svm() {}\", \"category\": \"code\", \"algorithm\": \"svm\" }").unwrap();

    let ReadReply::Results(v) = call_read(&conn, "{ \"action\": \"read\", \"algorithm\": \"kmeans\" }") else {
        panic!("empty");
    };
    assert_eq!(v[0].algorithm.as_deref(), Some("kmeans"));
    assert!(v[0].code.contains("kmeans"));

    let ReadReply::Results(v2) = call_read(&conn, "{ \"action\": \"read\", \"algorithm\": \"svm\" }") else {
        panic!("empty");
    };
    assert_eq!(v2[0].algorithm.as_deref(), Some("svm"));
}

#[test]
fn csv_upload_validates_shape() {
    let mut conn = Connection::new();

    // well-formed CSV: accepted, shape reported back
    let good = call_write(
        &mut conn,
        "{ \"action\": \"write\", \"code\": \"x1,x2,label\\n1,2,0\\n3,4,1\\n5,6,1\", \"category\": \"training_data\", \"algorithm\": \"kmeans\" }",
    )
    .unwrap();
    assert_eq!(good.csv_shape, Some((3, 3)));

    // malformed CSV (ragged row): rejected with a clear error, not silently stored
    let bad = call_write(
        &mut conn,
        "{ \"action\": \"write\", \"code\": \"x1,x2,label\\n1,2,0\\n3,4\", \"category\": \"training_data\", \"algorithm\": \"kmeans\" }",
    );
    let error = bad.unwrap_err();
    assert!(error.starts_with("invalid CSV for category 'training_data': malformed CSV row 2: CSV error"));
    assert_eq!(conn.entries.len(), 1);

    // non-CSV categories are unaffected by CSV validation
    let code_write =
        call_write(&mut conn, "{ \"action\": \"write\", \"code\": \"not,csv,but,fine,here\" }").unwrap();
    assert!(code_write.csv_shape.is_none());
}

#[test]
fn upload_csv_file_reads_from_disk() {
    let mut conn = Connection::new();
    let plan = upload_csv_file("data.csv", "test_data", "kmeans");
    assert!(matches!(&plan.source, Source::File(p) if p == "data.csv"));
    let plan = plan.with_content("a,b\n1,2\n3,4".to_string());
    let reply = write(&mut conn, plan).unwrap();
    assert_eq!(reply.csv_shape, Some((2, 2)));

    let ReadReply::Results(v) = call_read(
        &conn,
        "{ \"action\": \"read\", \"category\": \"test_data\", \"algorithm\": \"kmeans\" }",
    ) else {
        panic!("empty");
    };
    assert!(v[0].code.contains("1,2"));
    assert_eq!(
        unreadable_file("data.csv", "gone"),
        "failed to read file 'data.csv': gone"
    );
}

#[test]
fn csv_is_read_by_its_rules() {
    // A quoted field may hold a comma and a line break.
    assert_eq!(validate_csv("a,b\n\"x,\ny\",2\n"), Ok((2, 1)));
    assert_eq!(validate_csv("").unwrap_err(), "CSV header row is empty");
    assert_eq!(
        validate_csv("a,b\n").unwrap_err(),
        "CSV has a header row but no data rows"
    );
    assert!(validate_csv("a,b\n1,2,3\n").unwrap_err().starts_with("malformed CSV row 1: "));
    assert_eq!(
        csv_shape(Err("e".to_string()), &vec![]).unwrap_err(),
        "couldn't read a CSV header row: e"
    );
    assert_eq!(
        csv_shape(Ok(2), &vec![Ok(2), Err("f".to_string()), Err("g".to_string())]).unwrap_err(),
        "malformed CSV row 2: f"
    );
}

#[test]
fn requests_are_told_apart() {
    let ask = |s: &str| run(&parse_json(s).unwrap());
    assert!(matches!(ask("{\"action\": \"READ\", \"top_n\": 3}"), Ok(Request::Read(p)) if p.top_n == 3));
    assert!(matches!(ask("{\"query\": \"  Read \", \"category\": \"x\"}"), Ok(Request::Read(p)) if p.category == "x" && p.top_n == 1));
    // A query that holds a call is that call, however deep.
    let nested = "{\"query\": \"{\\\"action\\\": 1, \\\"query\\\": \\\"{\\\\\\\"action\\\\\\\": \\\\\\\"read\\\\\\\", \\\\\\\"top_n\\\\\\\": 7}\\\"}\"}";
    assert!(matches!(ask(nested), Ok(Request::Read(p)) if p.top_n == 7));
    // JSON without an action is code like any other.
    assert!(matches!(ask("{\"query\": \" {\\\"a\\\": 1} \"}"), Ok(Request::Write(p)) if matches!(&p.source, Source::Inline(c) if c == "{\"a\": 1}")));
    assert_eq!(ask("{\"action\": \"Drop\"}").unwrap_err(), "unknown database action: drop");
    assert_eq!(
        ask("{\"action\": \"write\"}").unwrap_err(),
        "write requires either a 'code' field or a 'path' field"
    );
    assert_eq!(
        ask("{}").unwrap_err(),
        "database call requires an 'action' field or a 'query' field"
    );
}

#[test]
fn reads_rank_and_writes_number() {
    let mut conn = Connection::default();
    call_write(&mut conn, "{\"action\": \"write\", \"code\": \"a\", \"functional_accuracy\": 0.2}").unwrap();
    let named = call_write(&mut conn, "{\"action\": \"write\", \"code\": \"b\", \"functional_accuracy\": 0.8, \"id\": \"mine\"}").unwrap();
    assert_eq!(named.id, "mine");
    let next = call_write(&mut conn, "{\"action\": \"write\", \"code\": \"c\", \"functional_accuracy\": 0.8}").unwrap();
    assert_eq!(next.id, "code_2");
    let ReadReply::Results(v) = call_read(&conn, "{\"action\": \"read\", \"top_n\": 0}") else {
        panic!("empty");
    };
    assert_eq!(v.len(), 1);
    assert_eq!(v[0].id, "mine");
    let ReadReply::Results(v) = call_read(&conn, "{\"action\": \"read\", \"top_n\": 9}") else {
        panic!("empty");
    };
    let ids: Vec<&str> = v.iter().map(|e| e.id.as_str()).collect();
    assert_eq!(ids, vec!["mine", "code_2", "code_1"]);
}

#[test]
fn requests_are_looked_for_inside_the_query() {
    let asked = parse_json("{\"query\": \"anything\"}").unwrap();
    let call = parse_json("{\"action\": null}").unwrap();
    let other = parse_json("[1]").unwrap();
    assert!(matches!(route(&asked, Some(&call)), Ok(Route::Inside)));
    for inner in [Some(&other), None] {
        let Ok(Route::Here(Request::Write(p))) = route(&asked, inner) else {
            panic!("no write");
        };
        assert!(matches!(&p.source, Source::Inline(c) if c == "anything"));
        assert_eq!(p.category, "code");
    }
    let direct = parse_json("{\"action\": \"Read\", \"query\": \"x\"}").unwrap();
    assert!(matches!(route(&direct, Some(&call)), Ok(Route::Here(Request::Read(_)))));
}

fn figures() -> Figures {
    Figures {
        cosine_similarity: measure(0.25),
        functional_accuracy: measure(0.5),
        rank: None,
        rank_score: measure(0.375),
    }
}

fn state(conn: &Connection) -> (Vec<(String, String)>, usize) {
    let entries = conn.entries.iter().map(|e| (e.id.clone(), e.code.clone())).collect();
    (entries, conn.next_id)
}

#[test]
fn refused_calls_and_reads_leave_the_store_as_it_is() {
    let mut conn = Connection::new();
    let call = |conn: &mut Connection, args: &str, loaded: Result<String, String>| {
        conn.run(&parse_json(args).unwrap(), loaded, figures())
    };
    let nothing = || Ok(String::new());
    let first = call(&mut conn, "{\"query\": \"def f(): pass\"}", nothing());
    assert!(matches!(first, Ok(Outcome::Written(r)) if r.id == "code_1"));
    let before = state(&conn);

    let refused = [
        ("{\"action\": \"Delete\"}", nothing(), "unknown database action: delete"),
        ("{}", nothing(), "database call requires an 'action' field or a 'query' field"),
        ("{\"action\": 3}", nothing(), "database call requires an 'action' field or a 'query' field"),
        ("{\"action\": \"write\"}", nothing(), "write requires either a 'code' field or a 'path' field"),
        ("{\"action\": \"write\", \"path\": \"/x\"}", Err("gone".to_string()), "failed to read file '/x': gone"),
        ("{\"query\": \"{\\\"action\\\": \\\"drop\\\"}\"}", nothing(), "unknown database action: drop"),
    ];
    for (args, loaded, message) in refused {
        match call(&mut conn, args, loaded) {
            Err(e) => assert_eq!(e, message),
            Ok(_) => panic!("not refused: {args}"),
        }
        assert_eq!(state(&conn), before);
    }
    let bad = "{\"action\": \"WRITE\", \"category\": \"test_data\", \"code\": \"a,b\\n1\\n\"}";
    assert!(call(&mut conn, bad, nothing()).is_err());
    assert_eq!(state(&conn), before);

    let read = call(&mut conn, "{\"action\": \"Read\", \"top_n\": 3}", nothing());
    assert!(matches!(read, Ok(Outcome::Asked(plan)) if plan.top_n == 3 && plan.category == "code"));
    let read = call(&mut conn, "{\"query\": \" READ \"}", nothing());
    assert!(matches!(read, Ok(Outcome::Asked(_))));
    assert_eq!(state(&conn), before);

    // The next id is the second, and a file is stored by what it holds.
    let file = "{\"action\": \"write\", \"path\": \"/x\"}";
    let second = call(&mut conn, file, Ok("print(1)".to_string()));
    assert!(matches!(second, Ok(Outcome::Written(r)) if r.id == "code_2"));
    assert_eq!(conn.entries[1].code, "print(1)");
    assert_eq!(conn.entries[1].cosine_similarity, measure(0.25));
}

#[test]
fn vectors_keep_step_with_the_entries() {
    let mut conn = Connection::new();
    for args in [
        "{\"query\": \"a b a\"}",
        "{\"action\": \"write\", \"code\": \"x y\", \"id\": \"mine\"}",
        "{\"action\": \"nothing\"}",
        "{\"query\": \"read\"}",
        "{\"action\": \"write\", \"code\": \"a,b\\n1\\n\", \"category\": \"test_data\"}",
    ] {
        let _ = conn.run(&parse_json(args).unwrap(), Ok(String::new()), figures());
        assert_eq!(conn.entries.len(), conn.vectors.len());
        for (e, v) in conn.entries.iter().zip(&conn.vectors) {
            assert_eq!(e.id, v.id);
            assert_eq!(word_counts(&e.code), v.counts);
        }
    }
    assert_eq!(conn.vectors.len(), 2);
    assert_eq!(conn.vectors[0].counts.iter().sum::<u64>(), 3);
    assert_eq!(conn.vectors[1].id, "mine");
}

#[test]
fn only_writes_without_an_id_need_one() {
    let mut conn = Connection::new();
    conn.next_id = usize::MAX;
    let mut call = |args: &str| {
        conn.run_if_numbered(&parse_json(args).unwrap(), Ok(String::new()), figures())
    };
    assert!(call("{\"query\": \"def f(): pass\"}").is_none());
    assert!(matches!(call("{\"query\": \"read\"}"), Some(Ok(Outcome::Asked(_)))));
    assert!(matches!(call("{}"), Some(Err(_))));
    let named = call("{\"action\": \"write\", \"code\": \"x\", \"id\": \"mine\"}");
    assert!(matches!(named, Some(Ok(Outcome::Written(r))) if r.id == "mine"));
    assert_eq!((conn.entries.len(), conn.next_id), (1, usize::MAX));
    let mut fresh = Connection::new();
    let args = parse_json("{\"query\": \"x\"}").unwrap();
    let first = fresh.run_if_numbered(&args, Ok(String::new()), figures());
    assert!(matches!(first, Some(Ok(Outcome::Written(r))) if r.id == "code_1"));
}
