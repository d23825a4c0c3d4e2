use competeevolve::config::HarnessConfig;
use competeevolve::harness::{
    extract_block, find_json_line, locate_script, strip_code_fences, Harness, HarnessResult,
    HarnessRun, Place, ScriptSearch, Subject, TaskInfo, Template, TemplateError,
};
use competeevolve::json::Json;

const SEED: &str = "import numpy as np\n\n# EVOLVE-BLOCK-START\nclass Model:\n    pass\n# EVOLVE-BLOCK-END\n\nassert Model\n";

#[test]
fn template_roundtrip() {
    let t = Template::parse(SEED).unwrap();
    assert_eq!(t.block, "class Model:\n    pass");
    assert_eq!(t.assemble(&t.block), SEED);
}

#[test]
fn extract_handles_fences_and_markers() {
    let fenced = "```python\nclass Model:\n    x = 1\n```";
    assert_eq!(extract_block(fenced), "class Model:\n    x = 1");

    let echoed = "Here you go:\n```python\nimport numpy as np\n# EVOLVE-BLOCK-START\nclass Model:\n    y = 2\n# EVOLVE-BLOCK-END\n```\nDone.";
    assert_eq!(extract_block(echoed), "class Model:\n    y = 2");

    assert_eq!(
        extract_block("class Model:\n    z = 3\n"),
        "class Model:\n    z = 3"
    );
}

#[test]
fn template_errors_name_the_marker() {
    assert_eq!(Template::parse("x").unwrap_err(), TemplateError::NoStart);
    assert_eq!(
        Template::parse("# EVOLVE-BLOCK-START\n").unwrap_err(),
        TemplateError::NoEnd
    );
    assert_eq!(
        Template::parse("# EVOLVE-BLOCK-END\n# EVOLVE-BLOCK-START\n").unwrap_err(),
        TemplateError::EndBeforeStart
    );
    assert_eq!(
        TemplateError::NoStart.message(),
        "seed file has no # EVOLVE-BLOCK-START marker"
    );
    assert_eq!(
        TemplateError::NoEnd.message(),
        "seed file has no # EVOLVE-BLOCK-END marker"
    );
    assert_eq!(
        TemplateError::EndBeforeStart.message(),
        "# EVOLVE-BLOCK-END appears before # EVOLVE-BLOCK-START"
    );
}

#[test]
fn assembled_file_keeps_header_and_footer() {
    let t = Template::parse(SEED).unwrap();
    let file = t.assemble("\n\nclass Model:\n    y = 1\n\n");
    assert_eq!(
        file,
        "import numpy as np\n\n# EVOLVE-BLOCK-START\nclass Model:\n    y = 1\n# EVOLVE-BLOCK-END\n\nassert Model\n"
    );
    let again = Template::parse(&file).unwrap();
    assert_eq!(again.header, t.header);
    assert_eq!(again.block, "class Model:\n    y = 1");
    assert_eq!(again.footer, t.footer);
}

#[test]
fn largest_fenced_block_wins_in_prose() {
    let reply = "First:\n```\nab\n```\nthen\n```py-3_x\nlonger body\n```\nand ```\nab\n```";
    assert_eq!(strip_code_fences(reply), "longer body");
    // A tie is the first one's; an unclosed fence opens nothing.
    assert_eq!(strip_code_fences("x ```\naa\n``` y ```\nbb\n```"), "aa");
    assert_eq!(strip_code_fences("x ```\naa"), "x ```\naa");
    // The longest in bytes, not in characters.
    assert_eq!(strip_code_fences("x ```\nabc``` y ```\n\u{e9}\u{e9}``` z"), "\u{e9}\u{e9}");
    // A leading fence runs to the last one.
    assert_eq!(strip_code_fences("```\na\n```\nb\n```"), "a\n```\nb");
    assert_eq!(strip_code_fences("```python\nopen"), "open");
}

#[test]
fn contracts_depend_on_the_kind() {
    let mut task = TaskInfo {
        task: "kmeans".to_string(),
        kind: "clustering".to_string(),
        datasets: vec!["iris".to_string()],
        description: "d".to_string(),
        seed_file: "s".to_string(),
    };
    assert!(task.contract().contains("Model(n_clusters=k)"));
    task.kind = "classification".to_string();
    assert!(task.contract().contains("`Model()`, with `fit(X, y)` (returns self;"));
}

fn place(path: &str, exists: bool) -> Place {
    Place { path: path.to_string(), exists }
}

#[test]
fn script_is_looked_for_in_order() {
    let mut search = ScriptSearch {
        configured: place("e.py", true),
        below_working_dir: Some("/w/e.py".to_string()),
        below_project: place("/p/e.py", true),
        below_executable: vec![place("/x/e.py", true)],
    };
    assert_eq!(locate_script(&search), Some("/w/e.py".to_string()));
    search.below_working_dir = None;
    assert_eq!(locate_script(&search), Some("e.py".to_string()));
    search.configured.exists = false;
    assert_eq!(locate_script(&search), Some("/p/e.py".to_string()));
    search.below_project.exists = false;
    assert_eq!(locate_script(&search), Some("/x/e.py".to_string()));
    search.below_executable = vec![
        place("1", false),
        place("2", false),
        place("3", false),
        place("4", false),
        place("5", true),
    ];
    assert_eq!(locate_script(&search), None);
    let error = Harness::new(&HarnessConfig::default(), &search).unwrap_err();
    assert_eq!(
        error,
        "cannot find the harness script 'harness/evaluate.py'; run from the repository root or set harness.script in the config"
    );
}

fn harness() -> Harness {
    let search = ScriptSearch {
        configured: place("e.py", true),
        below_working_dir: None,
        below_project: place("", false),
        below_executable: vec![],
    };
    Harness::new(&HarnessConfig::default(), &search).unwrap()
}

#[test]
fn harness_is_called_with_its_settings() {
    let h = harness();
    assert_eq!(h.script_path(), "e.py");
    assert_eq!(h.python, "python");
    assert_eq!(
        h.evaluate_args("knn", &Subject::Candidate("c.py".to_string())),
        vec!["--task", "knn", "--folds", "3", "--repeats", "2", "--seed", "0", "--candidate", "c.py"]
    );
    assert_eq!(h.evaluate_args("knn", &Subject::Seed).last().unwrap(), "--seed-file");
    assert_eq!(
        h.evaluate_args("knn", &Subject::Reference).last().unwrap(),
        "--sklearn-reference"
    );
    assert_eq!(
        Harness::describe_args("knn"),
        vec!["--task", "knn", "--seed-file", "--describe"]
    );
    assert_eq!(h.timeout(), 180);
    let mut quick = harness();
    quick.cfg.timeout_seconds = 1;
    assert_eq!(quick.timeout(), 5);
}

#[test]
fn output_is_read_from_the_last_json_line() {
    let out = "noise\n{\"a\": 1}\r\n  [2]\ndone\n";
    assert_eq!(find_json_line(out), Some("  [2]"));
    let j = Harness::read_output("Some(0)", out, "").unwrap();
    assert!(matches!(j, Json::List(ref v) if v.len() == 1));
    // An unreadable last line is not made up for by an earlier one.
    let error = Harness::read_output("Some(1)", "{\"a\": 1}\n{oops\n", " bad \n").unwrap_err();
    assert_eq!(
        error,
        "harness produced no JSON (exit Some(1)).\nstdout: {\"a\": 1}\n{oops\nstderr: bad"
    );
}

#[test]
fn runs_without_a_reply_fail() {
    let h = harness();
    let late = h.without_reply(HarnessRun::TimedOut).unwrap();
    assert_eq!(late.status, "timeout");
    assert_eq!(
        late.runtime_errors,
        vec!["evaluation exceeded 180 seconds and was killed"]
    );
    let broken = h.without_reply(HarnessRun::Failed("boom".to_string())).unwrap();
    assert_eq!(broken.status, "harness_error");
    assert_eq!(broken.runtime_errors, vec!["boom"]);
    assert!(!broken.is_ok());
    assert!(h.without_reply(HarnessRun::Reply(Json::Bool(true))).is_err());
}

#[test]
fn summaries_quote_the_first_errors() {
    let mut r = HarnessResult::failed("ok", "a".to_string());
    r.syntax_error = Some("line 3".to_string());
    r.runtime_errors.push("b".repeat(401));
    r.runtime_errors.push("c".to_string());
    r.runtime_errors.push("d".to_string());
    r.n_folds_ok = 4;
    r.n_folds_total = 6;
    let mut cut = "b".repeat(400);
    cut.push_str("...");
    assert_eq!(
        r.error_lines(),
        vec!["syntax error: line 3".to_string(), "a".to_string(), cut, "c".to_string()]
    );
    assert_eq!(r.folds_text(), "4/6");
    assert_eq!(r.error_count(), 5);
    assert!(r.is_ok());
    assert_eq!(r.times(), None);
}

#[test]
fn replies_are_handed_on_or_explained() {
    let found = Harness::reply_or_error(Some(Json::Bool(false)), "Some(1)", "out", "err");
    assert!(matches!(found, Ok(Json::Bool(false))));
    let long = "x".repeat(501);
    let error = Harness::reply_or_error(None, "None", &long, "  ").unwrap_err();
    let mut cut = "x".repeat(500);
    cut.push_str("...");
    assert_eq!(error, format!("harness produced no JSON (exit None).\nstdout: {cut}\nstderr: "));
}

#[test]
fn fenced_code_and_echoed_files_give_the_code() {
    for tag in ["", "python", "py-3_x"] {
        let reply = format!("```{tag}\n  x = \"```\"\n\n```");
        assert_eq!(strip_code_fences(&reply), "  x = \"```\"");
    }
    let t = Template::parse(SEED).unwrap();
    let echoed = format!("```python\n{}\n```", t.assemble("\nclass Model: v = 9\n"));
    assert_eq!(extract_block(&echoed), "class Model: v = 9");
}
