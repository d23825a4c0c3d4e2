use competeevolve::config::{Cli, CliError, Config, ConfigError, USAGE};
use competeevolve::measure::Measure;

fn measure(x: f64) -> Measure {
    Measure::from_bits(x.to_bits()).unwrap()
}

fn args(list: &[&str]) -> Vec<String> {
    list.iter().map(|s| s.to_string()).collect()
}

#[test]
fn defaults_are_the_documented_ones() {
    let c = Config::default();
    assert_eq!((c.agents, c.rounds, c.samples_per_evolve), (3, 3, 3));
    assert_eq!(c.max_tool_calls_per_round, 5);
    assert_eq!(c.mu_threshold, measure(0.7));
    assert_eq!(c.seed_parent_probability, measure(0.2));
    assert_eq!(c.novelty_reject_threshold, measure(0.98));
    assert_eq!(c.context_max_chars, 12_000);
    assert_eq!(c.fitness.quality_exponent, measure(4.0));
    assert_eq!(c.fitness.speed_exponent, measure(1.0));
    assert_eq!(c.fitness.novelty_weight, measure(0.5));
    assert_eq!(c.fitness.quality_tolerance, measure(0.01));
    assert_eq!((c.harness.folds, c.harness.repeats), (3, 2));
    assert_eq!(c.harness.timeout_seconds, 180);
    assert_eq!(c.gemini.agent_model, "gemini-3.7-flash");
    assert_eq!(c.gemini.generation_model, "gemini-3.7-flash");
    assert_eq!(c.gemini.requests_per_minute, measure(5.0));
    assert_eq!(c.gemini.temperature, measure(0.9));
    assert_eq!(c.gemini.max_retries, 6);
    assert!(c.validate().is_ok());
}

#[test]
fn faulty_configurations_are_refused() {
    let mut c = Config::default();
    c.rounds = 0;
    assert_eq!(c.validate(), Err(ConfigError::Counts));
    assert_eq!(
        ConfigError::Counts.message(),
        "agents, rounds and samples_per_evolve must all be at least 1"
    );

    let mut c = Config::default();
    c.fitness.novelty_weight = measure(1.5);
    assert_eq!(c.validate(), Err(ConfigError::NoveltyWeight));
    c.fitness.novelty_weight = measure(-0.5);
    assert_eq!(c.validate(), Err(ConfigError::NoveltyWeight));
    c.fitness.novelty_weight = measure(1.0);
    assert!(c.validate().is_ok());
    assert_eq!(
        ConfigError::NoveltyWeight.message(),
        "fitness.novelty_weight must be in [0, 1]"
    );

    let mut c = Config::default();
    c.gemini.requests_per_minute = measure(-0.0);
    assert_eq!(c.validate(), Err(ConfigError::RequestRate));
    assert_eq!(
        ConfigError::RequestRate.message(),
        "gemini.requests_per_minute must be positive"
    );
}

#[test]
fn environment_overrides_the_file() {
    let mut file = Config::default();
    file.agents = 7;
    let c = Config::load(Some(file), Some("m"), Some("/py")).unwrap();
    assert_eq!(c.agents, 7);
    assert_eq!(c.gemini.agent_model, "m");
    assert_eq!(c.gemini.generation_model, "m");
    assert_eq!(c.harness.python, "/py");
    let c = Config::load(None, Some(" \t"), None).unwrap();
    assert_eq!(c.gemini.agent_model, "gemini-3.7-flash");
    assert_eq!(c.harness.python, "python");
    let mut bad = Config::default();
    bad.agents = 0;
    assert_eq!(Config::load(Some(bad), None, None).unwrap_err(), ConfigError::Counts);
}

#[test]
fn command_line_is_read() {
    let c = Cli::parse(&args(&[
        "--task", "knn", "--agents", "4", "--rounds", "+2", "--goal", "fast", "--context", "c.md",
        "--config", "f.json", "--run-id", "r1", "--list-tasks", "--baseline-only", "-h",
    ]))
    .unwrap();
    assert_eq!(c.task.as_deref(), Some("knn"));
    assert_eq!((c.agents, c.rounds), (Some(4), Some(2)));
    assert_eq!(c.goal.as_deref(), Some("fast"));
    assert_eq!(c.context_file.as_deref(), Some("c.md"));
    assert_eq!(c.config.as_deref(), Some("f.json"));
    assert_eq!(c.run_id.as_deref(), Some("r1"));
    assert!(c.list_tasks && c.baseline_only && c.help);

    // A bare integer is the number of agents.
    assert_eq!(Cli::parse(&args(&["9"])).unwrap().agents, Some(9));
    // The value of an option may look like an option.
    assert_eq!(
        Cli::parse(&args(&["--goal", "--task"])).unwrap().goal.as_deref(),
        Some("--task")
    );
}

#[test]
fn faulty_command_lines_are_refused() {
    let e = Cli::parse(&args(&["--task"])).unwrap_err();
    assert!(matches!(e, CliError::MissingValue(_)));
    assert_eq!(e.message(), "--task requires a value");

    let e = Cli::parse(&args(&["--agents", "x"])).unwrap_err();
    assert!(matches!(e, CliError::NotInteger(_)));
    assert_eq!(e.message(), "--agents must be an integer");
    let e = Cli::parse(&args(&["--rounds", "99999999999999999999999"])).unwrap_err();
    assert_eq!(e.message(), "--rounds must be an integer");

    let e = Cli::parse(&args(&["--nope"])).unwrap_err();
    assert!(matches!(e, CliError::Unknown(_)));
    assert_eq!(e.message(), format!("unknown argument '--nope'\n\n{}", USAGE));
}

#[test]
fn counts_from_the_command_line_are_at_least_one() {
    let mut c = Config::default();
    Cli::parse(&args(&["--agents", "0", "--rounds", "5"])).unwrap().apply(&mut c);
    assert_eq!((c.agents, c.rounds), (1, 5));
    Cli::parse(&args(&[])).unwrap().apply(&mut c);
    assert_eq!((c.agents, c.rounds), (1, 5));
    assert!(c.validate().is_ok());
}
