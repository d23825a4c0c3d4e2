//! Run configuration, every field with a default, and the command line.

use vstd::prelude::*;
use vstd::string::*;

use crate::digits::{parse_usize, parsed};
use crate::json::{option_str_view, option_view};
use crate::measure::Measure;
use crate::text::{
    in_order, is_blank, is_blank_text, lemma_whole, same, show_part, string_views,
    trimmed_texts_keep_the_rest, white_space,
};

verus! {

/// How a competition is run.
#[derive(Debug)]
pub struct Config {
    pub agents: usize,
    pub rounds: usize,
    pub samples_per_evolve: usize,
    pub max_tool_calls_per_round: usize,
    /// The run stops early once the squashed best performance reaches this.
    pub mu_threshold: Measure,
    /// The chance that a mutation starts from the seed.
    pub seed_parent_probability: Measure,
    /// Candidates at least this similar to the archive are rejected unmeasured.
    pub novelty_reject_threshold: Measure,
    pub context_max_chars: usize,
    pub fitness: FitnessConfig,
    pub harness: HarnessConfig,
    pub gemini: GeminiConfig,
}

/// How measurements are turned into scores.
#[derive(Clone, Copy, Debug, PartialEq, Eq, Structural)]
pub struct FitnessConfig {
    /// The exponent of the quality ratio.
    pub quality_exponent: Measure,
    /// The exponent of the speedup.
    pub speed_exponent: Measure,
    /// The weight of novelty in the rank score.
    pub novelty_weight: Measure,
    /// How far below the baseline a valid quality may be.
    pub quality_tolerance: Measure,
}

/// How the measuring harness is called.
#[derive(Debug)]
pub struct HarnessConfig {
    pub python: String,
    pub script: String,
    pub folds: usize,
    pub repeats: usize,
    pub seed: u64,
    pub timeout_seconds: u64,
}

/// How the model is called.
#[derive(Debug)]
pub struct GeminiConfig {
    pub agent_model: String,
    pub generation_model: String,
    /// Shared by every call of a run.
    pub requests_per_minute: Measure,
    pub max_retries: u32,
    pub temperature: Measure,
    pub request_timeout_seconds: u64,
}

/// The keys of the numbers that the defaults use.
pub const KEY_0_01: i64 = 0x3f84_7ae1_47ae_147b;

pub const KEY_0_2: i64 = 0x3fc9_9999_9999_999a;

pub const KEY_0_5: i64 = 0x3fe0_0000_0000_0000;

pub const KEY_0_7: i64 = 0x3fe6_6666_6666_6666;

pub const KEY_0_9: i64 = 0x3fec_cccc_cccc_cccd;

pub const KEY_0_98: i64 = 0x3fef_5c28_f5c2_8f5c;

pub const KEY_1: i64 = 0x3ff0_0000_0000_0000;

pub const KEY_4: i64 = 0x4010_0000_0000_0000;

pub const KEY_5: i64 = 0x4014_0000_0000_0000;

/// The model that is used where none is configured.
pub const DEFAULT_MODEL: &'static str = "gemini-3.7-flash";

/// Where the harness script is where nothing else is configured.
pub const DEFAULT_SCRIPT: &'static str = "harness/evaluate.py";

impl FitnessConfig {
    /// The defaults.
    pub open spec fn standard() -> FitnessConfig {
        FitnessConfig {
            quality_exponent: Measure { key: KEY_4 },
            speed_exponent: Measure { key: KEY_1 },
            novelty_weight: Measure { key: KEY_0_5 },
            quality_tolerance: Measure { key: KEY_0_01 },
        }
    }
}

impl Default for FitnessConfig {
    fn default() -> (r: FitnessConfig)
        ensures
            r == FitnessConfig::standard(),
    {
        FitnessConfig {
            quality_exponent: Measure { key: KEY_4 },
            speed_exponent: Measure { key: KEY_1 },
            novelty_weight: Measure { key: KEY_0_5 },
            quality_tolerance: Measure { key: KEY_0_01 },
        }
    }
}

impl HarnessConfig {
    /// Whether every field has its default.
    pub open spec fn is_standard(self) -> bool {
        &&& self.python@ == "python"@
        &&& self.script@ == DEFAULT_SCRIPT@
        &&& self.folds == 3
        &&& self.repeats == 2
        &&& self.seed == 0
        &&& self.timeout_seconds == 180
    }

    /// Another copy of this configuration.
    pub fn duplicate(&self) -> (r: HarnessConfig)
        ensures
            r == *self,
    {
        HarnessConfig {
            python: self.python.clone(),
            script: self.script.clone(),
            folds: self.folds,
            repeats: self.repeats,
            seed: self.seed,
            timeout_seconds: self.timeout_seconds,
        }
    }
}

impl Default for HarnessConfig {
    fn default() -> (r: HarnessConfig)
        ensures
            r.is_standard(),
    {
        HarnessConfig {
            python: "python".to_owned(),
            script: DEFAULT_SCRIPT.to_owned(),
            folds: 3,
            repeats: 2,
            seed: 0,
            timeout_seconds: 180,
        }
    }
}

impl GeminiConfig {
    /// Whether every field has its default.
    pub open spec fn is_standard(self) -> bool {
        &&& self.agent_model@ == DEFAULT_MODEL@
        &&& self.generation_model@ == DEFAULT_MODEL@
        &&& self.requests_per_minute == Measure { key: KEY_5 }
        &&& self.max_retries == 6
        &&& self.temperature == Measure { key: KEY_0_9 }
        &&& self.request_timeout_seconds == 120
    }
}

impl Default for GeminiConfig {
    fn default() -> (r: GeminiConfig)
        ensures
            r.is_standard(),
    {
        GeminiConfig {
            agent_model: DEFAULT_MODEL.to_owned(),
            generation_model: DEFAULT_MODEL.to_owned(),
            requests_per_minute: Measure { key: KEY_5 },
            max_retries: 6,
            temperature: Measure { key: KEY_0_9 },
            request_timeout_seconds: 120,
        }
    }
}

/// Why a configuration is refused.
#[derive(Clone, Copy, Debug, PartialEq, Eq, Structural)]
pub enum ConfigError {
    /// A count that must be at least one is zero.
    Counts,
    /// The weight of novelty is no fraction.
    NoveltyWeight,
    /// No request could ever be sent.
    RequestRate,
}

impl ConfigError {
    /// What is reported of the error.
    pub open spec fn text(self) -> Seq<char> {
        match self {
            ConfigError::Counts =>
                "agents, rounds and samples_per_evolve must all be at least 1"@,
            ConfigError::NoveltyWeight => "fitness.novelty_weight must be in [0, 1]"@,
            ConfigError::RequestRate => "gemini.requests_per_minute must be positive"@,
        }
    }

    /// What is reported of the error.
    pub fn message(self) -> (r: String)
        ensures
            r@ == self.text(),
    {
        match self {
            ConfigError::Counts => {
                "agents, rounds and samples_per_evolve must all be at least 1".to_owned()
            },
            ConfigError::NoveltyWeight => "fitness.novelty_weight must be in [0, 1]".to_owned(),
            ConfigError::RequestRate => "gemini.requests_per_minute must be positive".to_owned(),
        }
    }
}

impl Config {
    /// Whether every field has its default.
    pub open spec fn is_standard(self) -> bool {
        &&& self.agents == 3
        &&& self.rounds == 3
        &&& self.samples_per_evolve == 3
        &&& self.max_tool_calls_per_round == 5
        &&& self.mu_threshold == Measure { key: KEY_0_7 }
        &&& self.seed_parent_probability == Measure { key: KEY_0_2 }
        &&& self.novelty_reject_threshold == Measure { key: KEY_0_98 }
        &&& self.context_max_chars == 12_000
        &&& self.fitness == FitnessConfig::standard()
        &&& self.harness.is_standard()
        &&& self.gemini.is_standard()
    }

    /// The first reason to refuse this configuration.
    pub open spec fn fault(self) -> Option<ConfigError> {
        if self.agents == 0 || self.rounds == 0 || self.samples_per_evolve == 0 {
            Some(ConfigError::Counts)
        } else if !(0 <= self.fitness.novelty_weight.key <= KEY_1) {
            Some(ConfigError::NoveltyWeight)
        } else if self.gemini.requests_per_minute.key <= 0 {
            Some(ConfigError::RequestRate)
        } else {
            None
        }
    }

    /// Whether the run can be configured like this.
    pub fn validate(&self) -> (r: Result<(), ConfigError>)
        ensures
            match r {
                Ok(_) => self.fault() is None,
                Err(e) => self.fault() == Some(e),
            },
    {
        if self.agents == 0 || self.rounds == 0 || self.samples_per_evolve == 0 {
            return Err(ConfigError::Counts);
        }
        let weight = self.fitness.novelty_weight;
        if !(weight.at_least(Measure::zero()) && (Measure { key: KEY_1 }).at_least(weight)) {
            return Err(ConfigError::NoveltyWeight);
        }
        if Measure::zero().at_least(self.gemini.requests_per_minute) {
            return Err(ConfigError::RequestRate);
        }
        Ok(())
    }

    /// What is used where an environment variable has this value, or none.
    pub open spec fn chosen(value: Option<Seq<char>>, fallback: Seq<char>) -> Seq<char> {
        match value {
            Some(v) => if is_blank_text(v) {
                fallback
            } else {
                v
            },
            None => fallback,
        }
    }

    /// The configuration of a run: what the file says, or the defaults where
    /// there is no file, with the model and the interpreter replaced by those
    /// that the environment names. A blank value in the environment names
    /// nothing.
    pub fn load(file: Option<Config>, model: Option<&str>, python: Option<&str>) -> (r: Result<
        Config,
        ConfigError,
    >)
        ensures
            match r {
                Ok(c) => {
                    &&& c.fault() is None
                    &&& loaded_from(c, file, option_str_view(model), option_str_view(python))
                },
                Err(e) => exists|c: Config|
                    {
                        &&& #[trigger] c.fault() == Some(e)
                        &&& loaded_from(c, file, option_str_view(model), option_str_view(python))
                    },
            },
    {
        let ghost start = file;
        let mut cfg = match file {
            Some(c) => c,
            None => Config::default(),
        };
        if let Some(m) = model {
            if !is_blank(m) {
                cfg.gemini.agent_model = m.to_owned();
                cfg.gemini.generation_model = m.to_owned();
            }
        }
        if let Some(p) = python {
            if !is_blank(p) {
                cfg.harness.python = p.to_owned();
            }
        }
        assert(loaded_from(cfg, start, option_str_view(model), option_str_view(python)));
        match cfg.validate() {
            Ok(_) => Ok(cfg),
            Err(e) => {
                assert(cfg.fault() == Some(e));
                Err(e)
            },
        }
    }
}

/// Whether `c` is `base` but for the model and the interpreter, which are those
/// that the environment names.
pub open spec fn overridden(
    c: Config,
    base: Config,
    model: Option<Seq<char>>,
    python: Option<Seq<char>>,
) -> bool {
    &&& c.gemini.agent_model@ == Config::chosen(model, base.gemini.agent_model@)
    &&& c.gemini.generation_model@ == Config::chosen(model, base.gemini.generation_model@)
    &&& c.harness.python@ == Config::chosen(python, base.harness.python@)
    &&& c == (Config {
        gemini: GeminiConfig {
            agent_model: c.gemini.agent_model,
            generation_model: c.gemini.generation_model,
            ..base.gemini
        },
        harness: HarnessConfig { python: c.harness.python, ..base.harness },
        ..base
    })
}

/// Whether `c` comes from a configuration file, or from the defaults where there
/// is none, by what the environment names.
pub open spec fn loaded_from(
    c: Config,
    file: Option<Config>,
    model: Option<Seq<char>>,
    python: Option<Seq<char>>,
) -> bool {
    match file {
        Some(base) => overridden(c, base, model, python),
        None => exists|base: Config|
            #[trigger] base.is_standard() && overridden(c, base, model, python),
    }
}

impl Default for Config {
    fn default() -> (r: Config)
        ensures
            r.is_standard(),
    {
        Config {
            agents: 3,
            rounds: 3,
            samples_per_evolve: 3,
            max_tool_calls_per_round: 5,
            mu_threshold: Measure { key: KEY_0_7 },
            seed_parent_probability: Measure { key: KEY_0_2 },
            novelty_reject_threshold: Measure { key: KEY_0_98 },
            context_max_chars: 12_000,
            fitness: FitnessConfig::default(),
            harness: HarnessConfig::default(),
            gemini: GeminiConfig::default(),
        }
    }
}

/// The defaults can be run with.
pub proof fn standard_config_is_valid(c: Config)
    requires
        c.is_standard(),
    ensures
        c.fault() is None,
{
}

/// What the command line asks for.
#[derive(Debug)]
pub struct Cli {
    pub task: Option<String>,
    pub agents: Option<usize>,
    pub rounds: Option<usize>,
    pub config: Option<String>,
    pub goal: Option<String>,
    pub context_file: Option<String>,
    pub run_id: Option<String>,
    pub list_tasks: bool,
    pub baseline_only: bool,
    pub help: bool,
}

/// The mathematical model of a command line.
#[verifier::ext_equal]
pub struct CliView {
    pub task: Option<Seq<char>>,
    pub agents: Option<nat>,
    pub rounds: Option<nat>,
    pub config: Option<Seq<char>>,
    pub goal: Option<Seq<char>>,
    pub context_file: Option<Seq<char>>,
    pub run_id: Option<Seq<char>>,
    pub list_tasks: bool,
    pub baseline_only: bool,
    pub help: bool,
}

/// Why a command line is refused.
#[derive(Debug)]
pub enum CliError {
    /// This option has no value.
    MissingValue(String),
    /// The value of this option is no number.
    NotInteger(String),
    /// There is no such argument.
    Unknown(String),
}

/// The mathematical model of the reasons to refuse a command line.
#[verifier::ext_equal]
pub enum CliFault {
    MissingValue(Seq<char>),
    NotInteger(Seq<char>),
    Unknown(Seq<char>),
}

/// A number that may be missing.
pub open spec fn option_nat(n: Option<usize>) -> Option<nat> {
    match n {
        Some(k) => Some(k as nat),
        None => None,
    }
}

impl View for Cli {
    type V = CliView;

    open spec fn view(&self) -> CliView {
        CliView {
            task: option_view(self.task),
            agents: option_nat(self.agents),
            rounds: option_nat(self.rounds),
            config: option_view(self.config),
            goal: option_view(self.goal),
            context_file: option_view(self.context_file),
            run_id: option_view(self.run_id),
            list_tasks: self.list_tasks,
            baseline_only: self.baseline_only,
            help: self.help,
        }
    }
}

impl View for CliError {
    type V = CliFault;

    open spec fn view(&self) -> CliFault {
        match *self {
            CliError::MissingValue(s) => CliFault::MissingValue(s@),
            CliError::NotInteger(s) => CliFault::NotInteger(s@),
            CliError::Unknown(s) => CliFault::Unknown(s@),
        }
    }
}

/// What is shown to who asks for help.
pub const USAGE: &'static str =
    "CompeteEvolve - competing LLM agents evolving ML algorithm implementations

USAGE:
    competeevolve [--task NAME] [OPTIONS]

OPTIONS:
    --task NAME          Task to evolve (kmeans | logistic_regression | knn). Prompts if omitted.
    --agents N           Number of competing agents (default from config, 3).
    --rounds N           Number of rounds (default from config, 3).
    --goal TEXT          Optimisation goal shown to the agents.
    --context FILE       Reference file (e.g. context/kmeans.md) excerpted into the first prompt.
    --config FILE        JSON config (default: competeevolve.json if present).
    --run-id ID          Name of the run directory under runs/ (default: <task>-<timestamp>).
    --list-tasks         Print the available tasks and exit.
    --baseline-only      Evaluate the seed and scikit-learn reference, then exit.
    -h, --help           Show this help.

ENVIRONMENT:
    GEMINI_API_KEY       Required.
    GEMINI_MODEL         Overrides both model names in the config.
    PYTHON               Python interpreter used for the harness (default: python).
";

impl CliError {
    /// What is reported of the error.
    pub open spec fn text(self) -> Seq<char> {
        match self {
            CliError::MissingValue(name) => name@ + " requires a value"@,
            CliError::NotInteger(name) => name@ + " must be an integer"@,
            CliError::Unknown(arg) => "unknown argument '"@ + arg@ + "'\n\n"@ + USAGE@,
        }
    }

    /// What is reported of the error.
    pub fn message(&self) -> (r: String)
        ensures
            r@ == self.text(),
    {
        match self {
            CliError::MissingValue(name) => name.clone().concat(" requires a value"),
            CliError::NotInteger(name) => name.clone().concat(" must be an integer"),
            CliError::Unknown(arg) => {
                "unknown argument '".to_owned().concat(arg.as_str()).concat("'\n\n").concat(USAGE)
            },
        }
    }
}

impl CliView {
    /// A command line that asks for nothing.
    pub open spec fn nothing() -> CliView {
        CliView {
            task: None,
            agents: None,
            rounds: None,
            config: None,
            goal: None,
            context_file: None,
            run_id: None,
            list_tasks: false,
            baseline_only: false,
            help: false,
        }
    }

    /// This with the option `name` set to `value`, unless it must be a number
    /// and is none.
    pub open spec fn with_value(self, name: Seq<char>, value: Seq<char>) -> Option<CliView> {
        let number = parsed(value, usize::MAX as nat);
        if name == "--task"@ {
            Some(CliView { task: Some(value), ..self })
        } else if name == "--agents"@ {
            match number {
                Some(n) => Some(CliView { agents: Some(n), ..self }),
                None => None,
            }
        } else if name == "--rounds"@ {
            match number {
                Some(n) => Some(CliView { rounds: Some(n), ..self }),
                None => None,
            }
        } else if name == "--goal"@ {
            Some(CliView { goal: Some(value), ..self })
        } else if name == "--context"@ {
            Some(CliView { context_file: Some(value), ..self })
        } else if name == "--config"@ {
            Some(CliView { config: Some(value), ..self })
        } else {
            Some(CliView { run_id: Some(value), ..self })
        }
    }

    /// This with an argument that takes no value: a flag, or the bare number of
    /// agents.
    pub open spec fn with_flag(self, arg: Seq<char>) -> Option<CliView> {
        if arg == "--list-tasks"@ {
            Some(CliView { list_tasks: true, ..self })
        } else if arg == "--baseline-only"@ {
            Some(CliView { baseline_only: true, ..self })
        } else if arg == "-h"@ || arg == "--help"@ {
            Some(CliView { help: true, ..self })
        } else {
            match parsed(arg, usize::MAX as nat) {
                Some(n) => Some(CliView { agents: Some(n), ..self }),
                None => None,
            }
        }
    }
}

/// Whether an argument is an option whose value is the next argument.
pub open spec fn takes_value(arg: Seq<char>) -> bool {
    ||| arg == "--task"@
    ||| arg == "--agents"@
    ||| arg == "--rounds"@
    ||| arg == "--goal"@
    ||| arg == "--context"@
    ||| arg == "--config"@
    ||| arg == "--run-id"@
}

/// The command line `c` with the arguments from position `i` on read into it.
pub open spec fn read_from(args: Seq<Seq<char>>, i: int, c: CliView) -> Result<CliView, CliFault>
    decreases args.len() - i,
{
    if i < 0 || i >= args.len() {
        Ok(c)
    } else if takes_value(args[i]) {
        if i + 1 >= args.len() {
            Err(CliFault::MissingValue(args[i]))
        } else {
            match c.with_value(args[i], args[i + 1]) {
                Some(next) => read_from(args, i + 2, next),
                None => Err(CliFault::NotInteger(args[i])),
            }
        }
    } else {
        match c.with_flag(args[i]) {
            Some(next) => read_from(args, i + 1, next),
            None => Err(CliFault::Unknown(args[i])),
        }
    }
}

impl Default for Cli {
    fn default() -> (r: Cli)
        ensures
            r@ == CliView::nothing(),
    {
        Cli {
            task: None,
            agents: None,
            rounds: None,
            config: None,
            goal: None,
            context_file: None,
            run_id: None,
            list_tasks: false,
            baseline_only: false,
            help: false,
        }
    }
}

/// Whether an argument is an option whose value is the next argument.
fn needs_value(arg: &str) -> (r: bool)
    ensures
        r == takes_value(arg@),
{
    same(arg, "--task") || same(arg, "--agents") || same(arg, "--rounds") || same(arg, "--goal")
        || same(arg, "--context") || same(arg, "--config") || same(arg, "--run-id")
}

impl Cli {
    /// Sets the option `name`; false where its value must be a number and is
    /// none.
    fn set_value(&mut self, name: &str, value: &String) -> (r: bool)
        ensures
            match old(self)@.with_value(name@, value@) {
                Some(next) => r && final(self)@ == next,
                None => !r,
            },
    {
        if same(name, "--task") {
            self.task = Some(value.clone());
            true
        } else if same(name, "--agents") {
            match parse_usize(value.as_str()) {
                Some(n) => {
                    self.agents = Some(n);
                    true
                },
                None => false,
            }
        } else if same(name, "--rounds") {
            match parse_usize(value.as_str()) {
                Some(n) => {
                    self.rounds = Some(n);
                    true
                },
                None => false,
            }
        } else if same(name, "--goal") {
            self.goal = Some(value.clone());
            true
        } else if same(name, "--context") {
            self.context_file = Some(value.clone());
            true
        } else if same(name, "--config") {
            self.config = Some(value.clone());
            true
        } else {
            self.run_id = Some(value.clone());
            true
        }
    }

    /// Sets the flag `arg`; false where there is none.
    fn set_flag(&mut self, arg: &str) -> (r: bool)
        ensures
            match old(self)@.with_flag(arg@) {
                Some(next) => r && final(self)@ == next,
                None => !r,
            },
    {
        if same(arg, "--list-tasks") {
            self.list_tasks = true;
            true
        } else if same(arg, "--baseline-only") {
            self.baseline_only = true;
            true
        } else if same(arg, "-h") || same(arg, "--help") {
            self.help = true;
            true
        } else {
            match parse_usize(arg) {
                Some(n) => {
                    self.agents = Some(n);
                    true
                },
                None => false,
            }
        }
    }

    /// Reads a command line.
    pub fn parse(args: &Vec<String>) -> (r: Result<Cli, CliError>)
        ensures
            match r {
                Ok(c) => read_from(string_views(args@), 0, CliView::nothing()) == Ok::<
                    CliView,
                    CliFault,
                >(c@),
                Err(e) => read_from(string_views(args@), 0, CliView::nothing()) == Err::<
                    CliView,
                    CliFault,
                >(e@),
            },
    {
        let mut cli = Cli::default();
        let mut i: usize = 0;
        let ghost all = string_views(args@);
        while i < args.len()
            invariant
                all == string_views(args@),
                i <= args@.len(),
                read_from(all, 0, CliView::nothing()) == read_from(all, i as int, cli@),
            decreases args.len() - i,
        {
            assert(all[i as int] == args@[i as int]@);
            let arg = args[i].as_str();
            if needs_value(arg) {
                if i + 1 >= args.len() {
                    return Err(CliError::MissingValue(args[i].clone()));
                }
                assert(all[i + 1] == args@[i + 1]@);
                if !cli.set_value(arg, &args[i + 1]) {
                    return Err(CliError::NotInteger(args[i].clone()));
                }
                i += 2;
            } else {
                if !cli.set_flag(arg) {
                    return Err(CliError::Unknown(args[i].clone()));
                }
                i += 1;
            }
        }
        Ok(cli)
    }

    /// A count from the command line, at least one.
    pub open spec fn count(asked: Option<usize>, configured: usize) -> usize {
        match asked {
            Some(n) => if n == 0 {
                1
            } else {
                n
            },
            None => configured,
        }
    }

    /// Puts the counts of the command line into a configuration.
    pub fn apply(&self, cfg: &mut Config)
        ensures
            *final(cfg) == (Config {
                agents: Cli::count(self.agents, old(cfg).agents),
                rounds: Cli::count(self.rounds, old(cfg).rounds),
                ..*old(cfg)
            }),
    {
        if let Some(n) = self.agents {
            cfg.agents = if n == 0 {
                1
            } else {
                n
            };
        }
        if let Some(n) = self.rounds {
            cfg.rounds = if n == 0 {
                1
            } else {
                n
            };
        }
    }
}

/// A configuration that can be run with still can after the command line was
/// put into it.
pub proof fn apply_keeps_config_valid(cfg: Config, cli: Cli)
    requires
        cfg.fault() is None,
    ensures
        (Config {
            agents: Cli::count(cli.agents, cfg.agents),
            rounds: Cli::count(cli.rounds, cfg.rounds),
            ..cfg
        }).fault() is None,
{
}

/// What every field is where nothing is configured: three agents, three rounds,
/// three samples a request and five tool calls a round; and so on, the fractions by
/// the bits of their doubles.
pub proof fn defaults_are_as_documented(c: Config)
    requires
        c.is_standard(),
    ensures
        c.agents == 3 && c.rounds == 3 && c.samples_per_evolve == 3,
        c.max_tool_calls_per_round == 5 && c.context_max_chars == 12000,
        c.mu_threshold.key == 0x3fe6_6666_6666_6666,
        c.seed_parent_probability.key == 0x3fc9_9999_9999_999a,
        c.novelty_reject_threshold.key == 0x3fef_5c28_f5c2_8f5c,
        c.fitness.quality_exponent.key == 0x4010_0000_0000_0000,
        c.fitness.speed_exponent.key == 0x3ff0_0000_0000_0000,
        c.fitness.novelty_weight.key == 0x3fe0_0000_0000_0000,
        c.fitness.quality_tolerance.key == 0x3f84_7ae1_47ae_147b,
        c.harness.python@ == "python"@ && c.harness.script@ == "harness/evaluate.py"@,
        c.harness.folds == 3 && c.harness.repeats == 2 && c.harness.seed == 0,
        c.harness.timeout_seconds == 180,
        c.gemini.agent_model@ == c.gemini.generation_model@,
        c.gemini.requests_per_minute.key == 0x4014_0000_0000_0000,
        c.gemini.temperature.key == 0x3fec_cccc_cccc_cccd,
        c.gemini.max_retries == 6 && c.gemini.request_timeout_seconds == 120,
{
}

/// A configuration is refused where a count is zero, where the weight of novelty is
/// below zero or above one, and where no request could be sent, in this order; any
/// other is taken.
pub proof fn faults_come_in_order(c: Config)
    ensures
        c.agents == 0 ==> c.fault() == Some(ConfigError::Counts),
        c.rounds == 0 ==> c.fault() == Some(ConfigError::Counts),
        c.samples_per_evolve == 0 ==> c.fault() == Some(ConfigError::Counts),
        c.agents > 0 && c.rounds > 0 && c.samples_per_evolve > 0 ==> {
            &&& c.fitness.novelty_weight.key < 0 || c.fitness.novelty_weight.key
                > 0x3ff0_0000_0000_0000 ==> c.fault() == Some(ConfigError::NoveltyWeight)
            &&& 0 <= c.fitness.novelty_weight.key <= 0x3ff0_0000_0000_0000 ==> {
                &&& c.gemini.requests_per_minute.key <= 0 ==> c.fault() == Some(
                    ConfigError::RequestRate,
                )
                &&& c.gemini.requests_per_minute.key > 0 ==> c.fault() is None
            }
        },
{
}

/// A value of the environment is used unless it is missing or blank.
pub proof fn blank_values_name_nothing(value: Seq<char>, fallback: Seq<char>)
    ensures
        Config::chosen(None, fallback) == fallback,
        (forall|i: int| 0 <= i < value.len() ==> white_space(#[trigger] value[i]))
            ==> Config::chosen(Some(value), fallback) == fallback,
        !(forall|i: int| 0 <= i < value.len() ==> white_space(#[trigger] value[i]))
            ==> Config::chosen(Some(value), fallback) == value,
{
    trimmed_texts_keep_the_rest(value);
}

/// The environment names the models and the interpreter; everything else stays as
/// it is configured.
pub proof fn environment_names_model_and_interpreter(
    c: Config,
    base: Config,
    model: Option<Seq<char>>,
    python: Option<Seq<char>>,
)
    requires
        overridden(c, base, model, python),
    ensures
        model is None ==> c.gemini.agent_model@ == base.gemini.agent_model@
            && c.gemini.generation_model@ == base.gemini.generation_model@,
        model is Some && !is_blank_text(model->0) ==> c.gemini.agent_model@ == model->0
            && c.gemini.generation_model@ == model->0,
        python is None ==> c.harness.python@ == base.harness.python@,
        python is Some && !is_blank_text(python->0) ==> c.harness.python@ == python->0,
        c.agents == base.agents && c.rounds == base.rounds,
        c.samples_per_evolve == base.samples_per_evolve,
        c.max_tool_calls_per_round == base.max_tool_calls_per_round,
        c.mu_threshold == base.mu_threshold,
        c.seed_parent_probability == base.seed_parent_probability,
        c.novelty_reject_threshold == base.novelty_reject_threshold,
        c.context_max_chars == base.context_max_chars,
        c.fitness == base.fitness,
        c.harness.script == base.harness.script && c.harness.folds == base.harness.folds,
        c.harness.repeats == base.harness.repeats && c.harness.seed == base.harness.seed,
        c.harness.timeout_seconds == base.harness.timeout_seconds,
        c.gemini.requests_per_minute == base.gemini.requests_per_minute,
        c.gemini.max_retries == base.gemini.max_retries,
        c.gemini.temperature == base.gemini.temperature,
        c.gemini.request_timeout_seconds == base.gemini.request_timeout_seconds,
{
}

/// A count of the command line replaces the configured one, and is one at least;
/// without one the configured stays.
pub proof fn counts_replace_configured_ones(n: usize, configured: usize)
    ensures
        Cli::count(None, configured) == configured,
        n > 0 ==> Cli::count(Some(n), configured) == n,
        Cli::count(Some(0), configured) == 1,
{
}

/// Whether a command line is another but for what an argument sets.
pub open spec fn same_but(r: CliView, c: CliView, arg: Seq<char>) -> bool {
    &&& arg != "--task"@ ==> r.task == c.task
    &&& arg != "--agents"@ ==> r.agents == c.agents
    &&& arg != "--rounds"@ ==> r.rounds == c.rounds
    &&& arg != "--goal"@ ==> r.goal == c.goal
    &&& arg != "--context"@ ==> r.context_file == c.context_file
    &&& arg != "--config"@ ==> r.config == c.config
    &&& arg != "--run-id"@ ==> r.run_id == c.run_id
    &&& arg != "--list-tasks"@ ==> r.list_tasks == c.list_tasks
    &&& arg != "--baseline-only"@ ==> r.baseline_only == c.baseline_only
    &&& arg != "--help"@ ==> r.help == c.help
}

proof fn lemma_options_differ()
    ensures
        "--task"@ != "--agents"@,
        "--task"@ != "--rounds"@,
        "--task"@ != "--goal"@,
        "--task"@ != "--context"@,
        "--task"@ != "--config"@,
        "--task"@ != "--run-id"@,
        "--agents"@ != "--rounds"@,
        "--agents"@ != "--goal"@,
        "--agents"@ != "--context"@,
        "--agents"@ != "--config"@,
        "--agents"@ != "--run-id"@,
        "--rounds"@ != "--goal"@,
        "--rounds"@ != "--context"@,
        "--rounds"@ != "--config"@,
        "--rounds"@ != "--run-id"@,
        "--goal"@ != "--context"@,
        "--goal"@ != "--config"@,
        "--goal"@ != "--run-id"@,
        "--context"@ != "--config"@,
        "--context"@ != "--run-id"@,
        "--config"@ != "--run-id"@,
{
    reveal_strlit("--task");
    reveal_strlit("--agents");
    reveal_strlit("--rounds");
    reveal_strlit("--goal");
    reveal_strlit("--context");
    reveal_strlit("--config");
    reveal_strlit("--run-id");
    assert("--task"@.len() == 6 && "--goal"@.len() == 6 && "--context"@.len() == 9);
    assert("--agents"@.len() == 8 && "--rounds"@.len() == 8);
    assert("--config"@.len() == 8 && "--run-id"@.len() == 8);
    assert("--task"@[2] == 't' && "--goal"@[2] == 'g');
    assert("--agents"@[2] == 'a' && "--rounds"@[2] == 'r');
    assert("--config"@[2] == 'c' && "--run-id"@[2] == 'r');
    assert("--rounds"@[3] == 'o' && "--run-id"@[3] == 'u');
}

proof fn lemma_flags_differ()
    ensures
        "--list-tasks"@ != "--baseline-only"@,
        "--list-tasks"@ != "--help"@,
        "--list-tasks"@ != "-h"@,
        "--baseline-only"@ != "--help"@,
        "--baseline-only"@ != "-h"@,
        !takes_value("--list-tasks"@),
        !takes_value("--baseline-only"@),
        !takes_value("--help"@),
        !takes_value("-h"@),
{
    reveal_strlit("--list-tasks");
    reveal_strlit("--baseline-only");
    reveal_strlit("--help");
    reveal_strlit("-h");
    reveal_strlit("--task");
    reveal_strlit("--agents");
    reveal_strlit("--rounds");
    reveal_strlit("--goal");
    reveal_strlit("--context");
    reveal_strlit("--config");
    reveal_strlit("--run-id");
    assert("--task"@.len() == 6 && "--goal"@.len() == 6 && "--context"@.len() == 9);
    assert("--agents"@.len() == 8 && "--rounds"@.len() == 8);
    assert("--config"@.len() == 8 && "--run-id"@.len() == 8);
    assert("--list-tasks"@.len() == 12 && "--baseline-only"@.len() == 15);
    assert("--help"@.len() == 6 && "-h"@.len() == 2);
    assert("--help"@[2] == 'h' && "--task"@[2] == 't' && "--goal"@[2] == 'g');
}

/// An option sets what it is named after to its value, and nothing else; the numbers
/// of agents and rounds must be numbers.
pub proof fn options_set_what_they_name(c: CliView, value: Seq<char>)
    ensures
        ({
            let r = c.with_value("--task"@, value);
            &&& r is Some
            &&& r->0.task == Some(value)
            &&& same_but(r->0, c, "--task"@)
        }),
        ({
            let r = c.with_value("--goal"@, value);
            &&& r is Some
            &&& r->0.goal == Some(value)
            &&& same_but(r->0, c, "--goal"@)
        }),
        ({
            let r = c.with_value("--context"@, value);
            &&& r is Some
            &&& r->0.context_file == Some(value)
            &&& same_but(r->0, c, "--context"@)
        }),
        ({
            let r = c.with_value("--config"@, value);
            &&& r is Some
            &&& r->0.config == Some(value)
            &&& same_but(r->0, c, "--config"@)
        }),
        ({
            let r = c.with_value("--run-id"@, value);
            &&& r is Some
            &&& r->0.run_id == Some(value)
            &&& same_but(r->0, c, "--run-id"@)
        }),
        match parsed(value, usize::MAX as nat) {
            Some(n) => {
                let a = c.with_value("--agents"@, value);
                let r = c.with_value("--rounds"@, value);
                &&& a is Some && r is Some
                &&& a->0.agents == Some(n) && same_but(a->0, c, "--agents"@)
                &&& r->0.rounds == Some(n) && same_but(r->0, c, "--rounds"@)
            },
            None => {
                &&& c.with_value("--agents"@, value) is None
                &&& c.with_value("--rounds"@, value) is None
            },
        },
{
    lemma_options_differ();
}

/// A flag sets what it is named after, and nothing else; a bare number is the number
/// of agents, and anything else is unknown.
pub proof fn flags_set_what_they_name(c: CliView, arg: Seq<char>)
    ensures
        ({
            let tasks = c.with_flag("--list-tasks"@);
            let baseline = c.with_flag("--baseline-only"@);
            let help = c.with_flag("--help"@);
            &&& tasks is Some && tasks->0.list_tasks && same_but(tasks->0, c, "--list-tasks"@)
            &&& baseline is Some && baseline->0.baseline_only && same_but(
                baseline->0,
                c,
                "--baseline-only"@,
            )
            &&& help is Some && help->0.help && same_but(help->0, c, "--help"@)
            &&& c.with_flag("-h"@) == help
        }),
        arg != "--list-tasks"@ && arg != "--baseline-only"@ && arg != "-h"@ && arg != "--help"@
            ==> match parsed(arg, usize::MAX as nat) {
            Some(n) => {
                &&& c.with_flag(arg) is Some
                &&& c.with_flag(arg)->0.agents == Some(n)
                &&& same_but(c.with_flag(arg)->0, c, "--agents"@)
            },
            None => c.with_flag(arg) is None,
        },
{
    lemma_flags_differ();
}

proof fn lemma_read_shifted(a: Seq<Seq<char>>, b: Seq<Seq<char>>, j: int, c: CliView)
    requires
        0 <= j,
    ensures
        read_from(a + b, a.len() + j, c) == read_from(b, j, c),
    decreases b.len() - j,
{
    let all = a + b;
    let i = a.len() + j;
    if j < b.len() {
        assert(all[i] == b[j]);
        if takes_value(b[j]) {
            if j + 1 < b.len() {
                assert(all[i + 1] == b[j + 1]);
                if let Some(next) = c.with_value(b[j], b[j + 1]) {
                    lemma_read_shifted(a, b, j + 2, next);
                }
            }
        } else {
            if let Some(next) = c.with_flag(b[j]) {
                lemma_read_shifted(a, b, j + 1, next);
            }
        }
    }
}

proof fn lemma_read_prefix(a: Seq<Seq<char>>, b: Seq<Seq<char>>, i: int, c: CliView, d: CliView)
    requires
        0 <= i <= a.len(),
        read_from(a, i, c) == Ok::<CliView, CliFault>(d),
    ensures
        read_from(a + b, i, c) == read_from(b, 0, d),
    decreases a.len() - i,
{
    let all = a + b;
    if i == a.len() {
        lemma_read_shifted(a, b, 0, c);
    } else {
        assert(all[i] == a[i]);
        if takes_value(a[i]) {
            assert(i + 1 < a.len());
            assert(all[i + 1] == a[i + 1]);
            let next = c.with_value(a[i], a[i + 1])->0;
            lemma_read_prefix(a, b, i + 2, next, d);
        } else {
            let next = c.with_flag(a[i])->0;
            lemma_read_prefix(a, b, i + 1, next, d);
        }
    }
}

/// A command line is read from its beginning to its end: what follows is read into
/// what was read of the arguments in front.
pub proof fn arguments_are_read_in_order(
    a: Seq<Seq<char>>,
    b: Seq<Seq<char>>,
    c: CliView,
    d: CliView,
)
    requires
        read_from(a, 0, c) == Ok::<CliView, CliFault>(d),
    ensures
        read_from(a + b, 0, c) == read_from(b, 0, d),
        read_from(Seq::empty(), 0, c) == Ok::<CliView, CliFault>(c),
{
    lemma_read_prefix(a, b, 0, c, d);
}

/// An option is read with the argument behind it, and a flag alone. An option
/// without a value, one whose value must be a number and is none, and an argument
/// that is neither are refused by their name.
pub proof fn arguments_are_options_or_flags(
    option: Seq<char>,
    value: Seq<char>,
    flag: Seq<char>,
    rest: Seq<Seq<char>>,
    c: CliView,
)
    requires
        option == "--task"@ || option == "--agents"@ || option == "--rounds"@ || option
            == "--goal"@ || option == "--context"@ || option == "--config"@ || option
            == "--run-id"@,
        !takes_value(flag),
    ensures
        match c.with_value(option, value) {
            Some(next) => read_from(seq![option, value] + rest, 0, c) == read_from(rest, 0, next),
            None => read_from(seq![option, value] + rest, 0, c) == Err::<CliView, CliFault>(
                CliFault::NotInteger(option),
            ),
        },
        read_from(seq![option], 0, c) == Err::<CliView, CliFault>(CliFault::MissingValue(option)),
        match c.with_flag(flag) {
            Some(next) => read_from(seq![flag] + rest, 0, c) == read_from(rest, 0, next),
            None => read_from(seq![flag] + rest, 0, c) == Err::<CliView, CliFault>(
                CliFault::Unknown(flag),
            ),
        },
        takes_value(flag) <==> flag == "--task"@ || flag == "--agents"@ || flag == "--rounds"@
            || flag == "--goal"@ || flag == "--context"@ || flag == "--config"@ || flag
            == "--run-id"@,
{
    let pair = seq![option, value];
    let one = seq![flag];
    assert((pair + rest)[0] == option && (pair + rest)[1] == value);
    assert((one + rest)[0] == flag);
    if let Some(next) = c.with_value(option, value) {
        lemma_read_shifted(pair, rest, 0, next);
    }
    if let Some(next) = c.with_flag(flag) {
        lemma_read_shifted(one, rest, 0, next);
    }
}

/// What is reported of a refused argument names it.
pub proof fn refused_arguments_are_named(e: CliError)
    ensures
        match e {
            CliError::MissingValue(name) => in_order(e.text(), seq![name@, " requires a value"@]),
            CliError::NotInteger(name) => in_order(e.text(), seq![name@, " must be an integer"@]),
            CliError::Unknown(arg) => in_order(
                e.text(),
                seq!["unknown argument '"@, arg@, "'\n\n"@, USAGE@],
            ),
        },
{
    match e {
        CliError::MissingValue(name) => {
            let mut t = name@;
            lemma_whole(name@);
            let mut p = seq![name@];
            show_part(t, p, " requires a value"@);
            t = t + " requires a value"@;
            p = p.push(" requires a value"@);
            assert(p =~= seq![name@, " requires a value"@]);
        },
        CliError::NotInteger(name) => {
            let mut t = name@;
            lemma_whole(name@);
            let mut p = seq![name@];
            show_part(t, p, " must be an integer"@);
            t = t + " must be an integer"@;
            p = p.push(" must be an integer"@);
            assert(p =~= seq![name@, " must be an integer"@]);
        },
        CliError::Unknown(arg) => {
            let mut t = "unknown argument '"@;
            lemma_whole("unknown argument '"@);
            let mut p = seq!["unknown argument '"@];
            show_part(t, p, arg@);
            t = t + arg@;
            p = p.push(arg@);
            show_part(t, p, "'\n\n"@);
            t = t + "'\n\n"@;
            p = p.push("'\n\n"@);
            show_part(t, p, USAGE@);
            t = t + USAGE@;
            p = p.push(USAGE@);
            assert(p =~= seq!["unknown argument '"@, arg@, "'\n\n"@, USAGE@]);
        },
    }
}

/// The model of a command line and of an error is what it holds, and a command line
/// that asks for nothing has nothing set.
pub proof fn command_lines_are_what_they_hold(c: Cli, name: String)
    ensures
        c@.task == option_view(c.task),
        c.agents is Some ==> c@.agents == Some(c.agents->0 as nat),
        c.agents is None ==> c@.agents is None,
        c.rounds is Some ==> c@.rounds == Some(c.rounds->0 as nat),
        c.rounds is None ==> c@.rounds is None,
        c@.config == option_view(c.config),
        c@.goal == option_view(c.goal),
        c@.context_file == option_view(c.context_file),
        c@.run_id == option_view(c.run_id),
        c@.list_tasks == c.list_tasks,
        c@.baseline_only == c.baseline_only,
        c@.help == c.help,
        CliError::MissingValue(name)@ == CliFault::MissingValue(name@),
        CliError::NotInteger(name)@ == CliFault::NotInteger(name@),
        CliError::Unknown(name)@ == CliFault::Unknown(name@),
        ({
            let none = CliView::nothing();
            &&& none.task is None && none.agents is None && none.rounds is None
            &&& none.config is None && none.goal is None && none.context_file is None
            &&& none.run_id is None && !none.list_tasks && !none.baseline_only && !none.help
        }),
{
}

/// A configuration that is loaded is the one in the file, or the defaults where there
/// is no file, but for what the environment names.
pub proof fn loaded_configurations_have_a_base(
    c: Config,
    file: Option<Config>,
    model: Option<Seq<char>>,
    python: Option<Seq<char>>,
)
    requires
        loaded_from(c, file, model, python),
    ensures
        file is Some ==> overridden(c, file->0, model, python),
        file is None ==> c.agents == 3 && c.rounds == 3 && c.samples_per_evolve == 3
            && c.max_tool_calls_per_round == 5 && c.harness.folds == 3 && c.harness.repeats == 2
            && c.harness.seed == 0 && c.harness.timeout_seconds == 180 && c.gemini.max_retries == 6,
{
}

} // verus!
