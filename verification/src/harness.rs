//! What the measuring harness is told and what it answers, and the file
//! template that candidates are put into.

use vstd::prelude::*;
use vstd::string::*;
use vstd::utf8::encode_utf8;

use crate::config::HarnessConfig;
use crate::digits::{decimal, write_decimal, write_usize};
use crate::gemini::{truncate, truncated};
use crate::json::{option_str_view, option_view, parse_json, text_tree, Json, Tree};
use crate::measure::Measure;
use crate::text::{
    after_prefix, contains_text, drop_class, drop_trailing, find, find_text, in_order,
    lemma_find_from, lemma_orders_join, lemma_rfind_to, lemma_skip_shrinks, lemma_whole, lines,
    lines_of, occurs_at, order_is_containment, rfind, rfind_text, same, show_gap, show_part,
    skip_class, skip_leading, string_views, strip, strip_class, strip_prefix, trim, trimmed,
    trimmed_texts_keep_the_rest, trimming_takes_the_edges, views, CharClass,
};

verus! {

/// What the harness measured of one file.
#[derive(Debug)]
pub struct HarnessResult {
    pub status: String,
    pub syntax_error: Option<String>,
    pub runtime_errors: Vec<String>,
    pub n_folds_total: usize,
    pub n_folds_ok: usize,
    pub fit_time: Option<Measure>,
    pub predict_time: Option<Measure>,
    pub quality: Option<Measure>,
    pub quality_std: Option<Measure>,
    pub per_dataset: Json,
    pub code_length: usize,
}

/// How many of the runtime errors a summary quotes.
pub const QUOTED_ERRORS: usize = 3;

/// How many characters of an error a summary quotes.
pub const QUOTED_CHARS: usize = 400;

/// The errors that a summary lists: the syntax error, then the first runtime
/// errors, cut short.
pub open spec fn quoted_errors(syntax_error: Option<Seq<char>>, runtime: Seq<Seq<char>>) -> Seq<
    Seq<char>,
> {
    let first = match syntax_error {
        Some(e) => seq!["syntax error: "@ + e],
        None => Seq::empty(),
    };
    let n = if runtime.len() < QUOTED_ERRORS {
        runtime.len() as int
    } else {
        QUOTED_ERRORS as int
    };
    first + runtime.take(n).map_values(|e: Seq<char>| truncated(e, QUOTED_CHARS as nat))
}

impl HarnessResult {
    /// The number of errors, syntax and runtime.
    pub open spec fn errors(self) -> nat {
        self.runtime_errors@.len() + if self.syntax_error is Some {
            1nat
        } else {
            0nat
        }
    }

    /// Whether the harness ran the file to the end.
    pub fn is_ok(&self) -> (r: bool)
        ensures
            r == (self.status@ == "ok"@),
    {
        same(self.status.as_str(), "ok")
    }

    /// The number of errors, syntax and runtime.
    pub fn error_count(&self) -> (r: usize)
        requires
            self.errors() <= usize::MAX,
        ensures
            r == self.errors(),
    {
        if self.syntax_error.is_some() {
            1 + self.runtime_errors.len()
        } else {
            self.runtime_errors.len()
        }
    }

    /// The result of a run that measured nothing.
    pub fn failed(status: &str, message: String) -> (r: HarnessResult)
        ensures
            r.status@ == status@,
            r.syntax_error is None,
            r.runtime_errors@ == seq![message],
            r.n_folds_total == 0,
            r.n_folds_ok == 0,
            r.fit_time is None,
            r.predict_time is None,
            r.quality is None,
            r.quality_std is None,
            r.per_dataset == Json::Null,
            r.code_length == 0,
    {
        let mut runtime_errors: Vec<String> = Vec::new();
        runtime_errors.push(message);
        HarnessResult {
            status: status.to_owned(),
            syntax_error: None,
            runtime_errors,
            n_folds_total: 0,
            n_folds_ok: 0,
            fit_time: None,
            predict_time: None,
            quality: None,
            quality_std: None,
            per_dataset: Json::Null,
            code_length: 0,
        }
    }

    /// The fit and the predict time, where both were measured.
    pub fn times(&self) -> (r: Option<(Measure, Measure)>)
        ensures
            r == match (self.fit_time, self.predict_time) {
                (Some(fit), Some(predict)) => Some((fit, predict)),
                _ => None,
            },
    {
        match (self.fit_time, self.predict_time) {
            (Some(fit), Some(predict)) => Some((fit, predict)),
            _ => None,
        }
    }

    /// The errors that a summary lists.
    pub fn error_lines(&self) -> (r: Vec<String>)
        ensures
            string_views(r@) == quoted_errors(
                option_view(self.syntax_error),
                string_views(self.runtime_errors@),
            ),
    {
        let mut out: Vec<String> = Vec::new();
        if let Some(e) = &self.syntax_error {
            let mut line = "syntax error: ".to_owned();
            line.append(e.as_str());
            out.push(line);
        }
        let ghost first = string_views(out@);
        assert(first =~= match self.syntax_error {
            Some(e) => seq!["syntax error: "@ + e@],
            None => Seq::empty(),
        });
        let ghost runtime = string_views(self.runtime_errors@);
        let ghost cut = |e: Seq<char>| truncated(e, QUOTED_CHARS as nat);
        let mut i: usize = 0;
        assert(runtime.take(0).map_values(cut) =~= Seq::<Seq<char>>::empty());
        while i < self.runtime_errors.len() && i < QUOTED_ERRORS
            invariant
                i <= self.runtime_errors@.len(),
                i <= QUOTED_ERRORS,
                runtime == string_views(self.runtime_errors@),
                cut == (|e: Seq<char>| truncated(e, QUOTED_CHARS as nat)),
                string_views(out@) =~= first + runtime.take(i as int).map_values(cut),
            decreases self.runtime_errors.len() - i,
        {
            let line = truncate(self.runtime_errors[i].as_str(), QUOTED_CHARS);
            assert(runtime.take(i + 1).map_values(cut) =~= runtime.take(i as int).map_values(
                cut,
            ).push(cut(runtime[i as int])));
            let ghost before = string_views(out@);
            out.push(line);
            assert(string_views(out@) =~= before.push(cut(runtime[i as int])));
            i += 1;
        }
        out
    }

    /// How many of the folds ran, out of how many.
    pub fn folds_text(&self) -> (r: String)
        ensures
            r@ == decimal(self.n_folds_ok as nat) + "/"@ + decimal(self.n_folds_total as nat),
    {
        let mut out = write_usize(self.n_folds_ok);
        out.append("/");
        out.append(write_usize(self.n_folds_total).as_str());
        out
    }
}

/// A task that algorithms compete on.
#[derive(Debug)]
pub struct TaskInfo {
    pub task: String,
    pub kind: String,
    pub datasets: Vec<String>,
    pub description: String,
    pub seed_file: String,
}

/// What a file for a clustering task must define.
pub const CLUSTERING_CONTRACT: &'static str =
    "The file must define `class Model` constructed as `Model(n_clusters=k)`, with `fit(X)` (returns self) and `predict(X)` returning a 1-D integer array of cluster labels in [0, k).";

/// What a file for any other task must define.
pub const CLASSIFICATION_CONTRACT: &'static str =
    "The file must define `class Model` constructed as `Model()`, with `fit(X, y)` (returns self; y holds integer class labels) and `predict(X)` returning a 1-D array of predicted class labels.";

/// What a file for a task of this kind must define.
pub open spec fn contract_for(kind: Seq<char>) -> Seq<char> {
    if kind == "clustering"@ {
        CLUSTERING_CONTRACT@
    } else {
        CLASSIFICATION_CONTRACT@
    }
}

impl TaskInfo {
    /// What a file for it must define.
    pub fn contract(&self) -> (r: String)
        ensures
            r@ == contract_for(self.kind@),
    {
        if same(self.kind.as_str(), "clustering") {
            CLUSTERING_CONTRACT.to_owned()
        } else {
            CLASSIFICATION_CONTRACT.to_owned()
        }
    }
}

/// A place where the harness script may be, and whether it is there.
#[derive(Debug)]
pub struct Place {
    pub path: String,
    pub exists: bool,
}

/// What was found when looking for the harness script.
#[derive(Debug)]
pub struct ScriptSearch {
    /// The path as configured.
    pub configured: Place,
    /// The configured path below the working directory, where that is known.
    pub below_working_dir: Option<String>,
    /// The configured path below the project's directory.
    pub below_project: Place,
    /// The configured path below the executable and each directory above it,
    /// from the inside out.
    pub below_executable: Vec<Place>,
}

/// How many directories, from the executable up, are searched.
pub const SEARCHED_ANCESTORS: usize = 4;

/// The first of the places from `i` on, below `end`, where the script is.
pub open spec fn first_place(places: Seq<Place>, i: int, end: int) -> Option<Seq<char>>
    decreases end - i,
{
    if i < 0 || i >= end || i >= places.len() {
        None
    } else if places[i].exists {
        Some(places[i].path@)
    } else {
        first_place(places, i + 1, end)
    }
}

impl ScriptSearch {
    /// The path of the script: as configured, below the project, or below one
    /// of the directories near the executable, in this order.
    pub open spec fn found(self) -> Option<Seq<char>> {
        if self.configured.exists {
            match self.below_working_dir {
                Some(p) => Some(p@),
                None => Some(self.configured.path@),
            }
        } else if self.below_project.exists {
            Some(self.below_project.path@)
        } else {
            first_place(self.below_executable@, 0, SEARCHED_ANCESTORS as int)
        }
    }
}

/// Picks the harness script out of the places that were looked at.
pub fn locate_script(search: &ScriptSearch) -> (r: Option<String>)
    ensures
        option_view(r) == search.found(),
{
    if search.configured.exists {
        return match &search.below_working_dir {
            Some(p) => Some(p.clone()),
            None => Some(search.configured.path.clone()),
        };
    }
    if search.below_project.exists {
        return Some(search.below_project.path.clone());
    }
    let mut i: usize = 0;
    while i < search.below_executable.len() && i < SEARCHED_ANCESTORS
        invariant
            !search.configured.exists,
            !search.below_project.exists,
            i <= search.below_executable@.len(),
            i <= SEARCHED_ANCESTORS,
            search.found() == first_place(
                search.below_executable@,
                i as int,
                SEARCHED_ANCESTORS as int,
            ),
        decreases search.below_executable.len() - i,
    {
        if search.below_executable[i].exists {
            return Some(search.below_executable[i].path.clone());
        }
        i += 1;
    }
    None
}

/// The harness: an interpreter, a script and how it is called.
#[derive(Debug)]
pub struct Harness {
    pub python: String,
    pub script: String,
    pub cfg: HarnessConfig,
}

/// What to measure.
#[derive(Debug)]
pub enum Subject {
    /// The candidate in this file.
    Candidate(String),
    /// The seed of the task.
    Seed,
    /// The reference implementation of scikit-learn.
    Reference,
}

/// How a run of the harness ended.
#[derive(Debug)]
pub enum HarnessRun {
    /// It wrote a result.
    Reply(Json),
    /// It took too long and was killed.
    TimedOut,
    /// It could not be run, or wrote no result.
    Failed(String),
}

/// The shortest time a measurement is given, in seconds.
pub const MIN_TIMEOUT: u64 = 5;

/// Whether a line of output may hold a result.
pub open spec fn looks_like_json(line: Seq<char>) -> bool {
    let t = skip_class(line, CharClass::Blank);
    t.len() > 0 && (t[0] == '{' || t[0] == '[')
}

/// The last of the lines that may hold a result.
pub open spec fn last_json_line(lines: Seq<Seq<char>>) -> Option<Seq<char>>
    decreases lines.len(),
{
    if lines.len() == 0 {
        None
    } else if looks_like_json(lines.last()) {
        Some(lines.last())
    } else {
        last_json_line(lines.drop_last())
    }
}

/// The result in the output of the harness.
pub open spec fn reply_in(stdout: Seq<char>) -> Option<Tree> {
    match last_json_line(lines_of(stdout)) {
        Some(line) => text_tree(line),
        None => None,
    }
}

/// What is reported of a harness that wrote no result.
pub open spec fn no_reply_message(
    exit: Seq<char>,
    stdout: Seq<char>,
    stderr: Seq<char>,
) -> Seq<char> {
    "harness produced no JSON (exit "@ + exit + ").\nstdout: "@ + truncated(trimmed(stdout), 500)
        + "\nstderr: "@ + truncated(trimmed(stderr), 1500)
}

/// Whether a line of output may hold a result.
fn may_hold_json(line: &str) -> (r: bool)
    ensures
        r == looks_like_json(line@),
{
    let t = skip_leading(line, CharClass::Blank);
    if t.is_empty() {
        return false;
    }
    let c: char = t.get_char(0);
    c == '{' || c == '['
}

/// Finds the last line of `stdout` that may hold a result.
pub fn find_json_line<'a>(stdout: &'a str) -> (r: Option<&'a str>)
    ensures
        option_str_view(r) == last_json_line(lines_of(stdout@)),
{
    let all = lines(stdout);
    let ghost texts = views(all@);
    let mut n: usize = all.len();
    assert(texts.take(n as int) =~= texts);
    while n > 0
        invariant
            n <= all@.len(),
            texts == views(all@),
            texts == lines_of(stdout@),
            last_json_line(texts) == last_json_line(texts.take(n as int)),
        decreases n,
    {
        assert(texts.take(n as int).last() == all@[n - 1]@);
        assert(texts.take(n as int).drop_last() =~= texts.take(n - 1));
        if may_hold_json(all[n - 1]) {
            return Some(all[n - 1]);
        }
        n -= 1;
    }
    None
}

impl Harness {
    /// A harness for a script that was found, or what is reported where none
    /// was.
    pub fn new(cfg: &HarnessConfig, search: &ScriptSearch) -> (r: Result<Harness, String>)
        ensures
            match r {
                Ok(h) => {
                    &&& search.found() == Some(h.script@)
                    &&& h.python == cfg.python
                    &&& h.cfg == *cfg
                },
                Err(message) => {
                    &&& search.found() is None
                    &&& message@ == "cannot find the harness script '"@ + cfg.script@
                        + "'; run from the repository root or set harness.script in the config"@
                },
            },
    {
        match locate_script(search) {
            Some(script) => Ok(
                Harness { python: cfg.python.clone(), script, cfg: cfg.duplicate() },
            ),
            None => {
                let mut message = "cannot find the harness script '".to_owned();
                message.append(cfg.script.as_str());
                message.append(
                    "'; run from the repository root or set harness.script in the config",
                );
                Err(message)
            },
        }
    }

    /// Where the script is.
    pub fn script_path(&self) -> (r: &str)
        ensures
            r@ == self.script@,
    {
        self.script.as_str()
    }

    /// The arguments that every measurement of `task` begins with.
    pub open spec fn common(self, task: Seq<char>) -> Seq<Seq<char>> {
        seq![
            "--task"@,
            task,
            "--folds"@,
            decimal(self.cfg.folds as nat),
            "--repeats"@,
            decimal(self.cfg.repeats as nat),
            "--seed"@,
            decimal(self.cfg.seed as nat),
        ]
    }

    /// The arguments that say what is measured.
    pub open spec fn subject_args(subject: Subject) -> Seq<Seq<char>> {
        match subject {
            Subject::Candidate(path) => seq!["--candidate"@, path@],
            Subject::Seed => seq!["--seed-file"@],
            Subject::Reference => seq!["--sklearn-reference"@],
        }
    }

    /// The arguments that every measurement of `task` begins with.
    pub fn common_args(&self, task: &str) -> (r: Vec<String>)
        ensures
            string_views(r@) == self.common(task@),
    {
        let mut out: Vec<String> = Vec::new();
        out.push("--task".to_owned());
        out.push(task.to_owned());
        out.push("--folds".to_owned());
        out.push(write_usize(self.cfg.folds));
        out.push("--repeats".to_owned());
        out.push(write_usize(self.cfg.repeats));
        out.push("--seed".to_owned());
        out.push(write_decimal(self.cfg.seed));
        assert(string_views(out@) =~= self.common(task@));
        out
    }

    /// The arguments of a measurement.
    pub fn evaluate_args(&self, task: &str, subject: &Subject) -> (r: Vec<String>)
        ensures
            string_views(r@) == self.common(task@) + Harness::subject_args(*subject),
    {
        let mut out = self.common_args(task);
        let ghost before = string_views(out@);
        match subject {
            Subject::Candidate(path) => {
                out.push("--candidate".to_owned());
                out.push(path.clone());
            },
            Subject::Seed => {
                out.push("--seed-file".to_owned());
            },
            Subject::Reference => {
                out.push("--sklearn-reference".to_owned());
            },
        }
        assert(string_views(out@) =~= before + Harness::subject_args(*subject));
        out
    }

    /// The arguments that ask for the description of a task.
    pub fn describe_args(task: &str) -> (r: Vec<String>)
        ensures
            string_views(r@) == seq!["--task"@, task@, "--seed-file"@, "--describe"@],
    {
        let mut out: Vec<String> = Vec::new();
        out.push("--task".to_owned());
        out.push(task.to_owned());
        out.push("--seed-file".to_owned());
        out.push("--describe".to_owned());
        assert(string_views(out@) =~= seq!["--task"@, task@, "--seed-file"@, "--describe"@]);
        out
    }

    /// How long a measurement may take, in seconds.
    pub fn timeout(&self) -> (r: u64)
        ensures
            r == if self.cfg.timeout_seconds < MIN_TIMEOUT {
                MIN_TIMEOUT
            } else {
                self.cfg.timeout_seconds
            },
            r >= 5,
            self.cfg.timeout_seconds >= 5 ==> r == self.cfg.timeout_seconds,
            self.cfg.timeout_seconds < 5 ==> r == 5,
    {
        if self.cfg.timeout_seconds < MIN_TIMEOUT {
            MIN_TIMEOUT
        } else {
            self.cfg.timeout_seconds
        }
    }

    /// Reads the result out of what the harness wrote. `exit` is how its exit
    /// code is reported.
    pub fn read_output(exit: &str, stdout: &str, stderr: &str) -> (r: Result<Json, String>)
        ensures
            match r {
                Ok(j) => reply_in(stdout@) == Some(j@),
                Err(message) => {
                    &&& reply_in(stdout@) is None
                    &&& message@ == no_reply_message(exit@, stdout@, stderr@)
                },
            },
    {
        let parsed = match find_json_line(stdout) {
            Some(line) => parse_json(line),
            None => None,
        };
        Harness::reply_or_error(parsed, exit, stdout, stderr)
    }

    /// The result that was read out of what the harness wrote, or what is
    /// reported where there is none.
    pub fn reply_or_error(parsed: Option<Json>, exit: &str, stdout: &str, stderr: &str) -> (r:
        Result<Json, String>)
        ensures
            match r {
                Ok(j) => parsed == Some(j),
                Err(message) => {
                    &&& parsed is None
                    &&& message@ == no_reply_message(exit@, stdout@, stderr@)
                },
            },
    {
        if let Some(j) = parsed {
            return Ok(j);
        }
        let mut message = "harness produced no JSON (exit ".to_owned();
        message.append(exit);
        message.append(").\nstdout: ");
        message.append(truncate(trim(stdout), 500).as_str());
        message.append("\nstderr: ");
        message.append(truncate(trim(stderr), 1500).as_str());
        Err(message)
    }

    /// The result that stands for a run without a reply; nothing where there is
    /// a reply to read.
    pub fn without_reply(&self, run: HarnessRun) -> (r: Result<HarnessResult, Json>)
        ensures
            match run {
                HarnessRun::Reply(j) => r == Err::<HarnessResult, Json>(j),
                HarnessRun::TimedOut => {
                    &&& r is Ok
                    &&& is_failure(
                        r->Ok_0,
                        "timeout"@,
                        "evaluation exceeded "@ + decimal(self.cfg.timeout_seconds as nat)
                            + " seconds and was killed"@,
                    )
                },
                HarnessRun::Failed(e) => r is Ok && is_failure(r->Ok_0, "harness_error"@, e@),
            },
    {
        match run {
            HarnessRun::Reply(j) => Err(j),
            HarnessRun::TimedOut => {
                let mut message = "evaluation exceeded ".to_owned();
                message.append(write_decimal(self.cfg.timeout_seconds).as_str());
                message.append(" seconds and was killed");
                Ok(HarnessResult::failed("timeout", message))
            },
            HarnessRun::Failed(e) => Ok(HarnessResult::failed("harness_error", e)),
        }
    }
}

/// Whether `r` measured nothing, and says why.
pub open spec fn is_failure(r: HarnessResult, status: Seq<char>, message: Seq<char>) -> bool {
    &&& r.status@ == status
    &&& r.syntax_error is None
    &&& r.runtime_errors@.len() == 1
    &&& r.runtime_errors@[0]@ == message
    &&& r.n_folds_total == 0
    &&& r.n_folds_ok == 0
    &&& r.fit_time is None
    &&& r.predict_time is None
    &&& r.quality is None
    &&& r.quality_std is None
    &&& r.per_dataset == Json::Null
    &&& r.code_length == 0
}

/// The line behind which the part of a file that evolves begins.
pub const BLOCK_START: &'static str = "# EVOLVE-BLOCK-START";

/// The line at which the part of a file that evolves ends.
pub const BLOCK_END: &'static str = "# EVOLVE-BLOCK-END";

/// A seed file split at its markers. Only `block` is ever generated anew.
#[derive(Debug)]
pub struct Template {
    pub header: String,
    pub block: String,
    pub footer: String,
}

/// Why a seed file is no template.
#[derive(Clone, Copy, Debug, PartialEq, Eq, Structural)]
pub enum TemplateError {
    /// There is no start marker.
    NoStart,
    /// There is no end marker.
    NoEnd,
    /// The end marker comes before the start marker.
    EndBeforeStart,
}

impl TemplateError {
    /// What is reported of the error.
    pub open spec fn text(self) -> Seq<char> {
        match self {
            TemplateError::NoStart => "seed file has no "@ + BLOCK_START@ + " marker"@,
            TemplateError::NoEnd => "seed file has no "@ + BLOCK_END@ + " marker"@,
            TemplateError::EndBeforeStart => BLOCK_END@ + " appears before "@ + BLOCK_START@,
        }
    }

    /// What is reported of the error.
    pub fn message(self) -> (r: String)
        ensures
            r@ == self.text(),
    {
        match self {
            TemplateError::NoStart => {
                "seed file has no ".to_owned().concat(BLOCK_START).concat(" marker")
            },
            TemplateError::NoEnd => {
                "seed file has no ".to_owned().concat(BLOCK_END).concat(" marker")
            },
            TemplateError::EndBeforeStart => {
                BLOCK_END.to_owned().concat(" appears before ").concat(BLOCK_START)
            },
        }
    }
}

/// `s` without the line feeds around it.
pub open spec fn without_outer_lines(s: Seq<char>) -> Seq<char> {
    strip_class(s, CharClass::NewLine)
}

/// What stands between a start marker at `start` and an end marker at `end`.
pub open spec fn between_markers(s: Seq<char>, start: int, end: int) -> Seq<char> {
    s.subrange(start + BLOCK_START@.len(), end)
}

/// A file made of `header` and `footer`, with `block` between the markers.
pub open spec fn assembled(header: Seq<char>, block: Seq<char>, footer: Seq<char>) -> Seq<char> {
    header + BLOCK_START@ + "\n"@ + without_outer_lines(block) + "\n"@ + BLOCK_END@ + footer
}

/// An end marker that stands behind the place of a start marker stands behind
/// the whole of it.
proof fn lemma_markers_apart(s: Seq<char>, start: int, end: int)
    requires
        occurs_at(s, BLOCK_START@, start),
        occurs_at(s, BLOCK_END@, end),
        start <= end,
    ensures
        start + BLOCK_START@.len() <= end,
{
    reveal_strlit("# EVOLVE-BLOCK-START");
    reveal_strlit("# EVOLVE-BLOCK-END");
    if end < start + BLOCK_START@.len() {
        let a = s.subrange(start, start + BLOCK_START@.len());
        let b = s.subrange(end, end + BLOCK_END@.len());
        assert(b[0] == '#');
        assert(a[end - start] == s[end]);
        assert(b[0] == s[end]);
        assert(BLOCK_START@[end - start] == '#');
        if start == end {
            assert(a[15] == s[start + 15]);
            assert(b[15] == s[start + 15]);
        }
    }
}

impl Template {
    /// Splits a seed file at its markers.
    pub fn parse(source: &str) -> (r: Result<Template, TemplateError>)
        ensures
            match (find_text(source@, BLOCK_START@), find_text(source@, BLOCK_END@)) {
                (None, _) => r == Err::<Template, _>(TemplateError::NoStart),
                (Some(_), None) => r == Err::<Template, _>(TemplateError::NoEnd),
                (Some(start), Some(end)) => if end < start {
                    r == Err::<Template, _>(TemplateError::EndBeforeStart)
                } else {
                    &&& r is Ok
                    &&& r->Ok_0.header@ == source@.take(start)
                    &&& r->Ok_0.block@ == without_outer_lines(between_markers(source@, start, end))
                    &&& r->Ok_0.footer@ == source@.skip(end + BLOCK_END@.len())
                },
            },
    {
        let start = match find(source, BLOCK_START) {
            Some(i) => i,
            None => {
                return Err(TemplateError::NoStart);
            },
        };
        let end = match find(source, BLOCK_END) {
            Some(i) => i,
            None => {
                return Err(TemplateError::NoEnd);
            },
        };
        if end < start {
            return Err(TemplateError::EndBeforeStart);
        }
        proof {
            lemma_find_from(source@, BLOCK_START@, 0);
            lemma_find_from(source@, BLOCK_END@, 0);
            lemma_markers_apart(source@, start as int, end as int);
        }
        let total = source.unicode_len();
        let after_start = start + BLOCK_START.unicode_len();
        let after_end = end + BLOCK_END.unicode_len();
        let header = source.substring_char(0, start).to_owned();
        let block = strip(source.substring_char(after_start, end), CharClass::NewLine).to_owned();
        let footer = source.substring_char(after_end, total).to_owned();
        Ok(Template { header, block, footer })
    }

    /// The file with `block` in the place of the block it came with.
    pub fn assemble(&self, block: &str) -> (r: String)
        ensures
            r@ == assembled(self.header@, block@, self.footer@),
    {
        let mut out = self.header.clone();
        out.append(BLOCK_START);
        out.append("\n");
        out.append(strip(block, CharClass::NewLine));
        out.append("\n");
        out.append(BLOCK_END);
        out.append(self.footer.as_str());
        out
    }
}

/// The mark that opens and closes a fenced block of code.
pub const FENCE: &'static str = "```";

/// What follows the language name behind an opening fence, and the line feed
/// that ends its line.
pub open spec fn fence_body(s: Seq<char>) -> Seq<char> {
    let rest = skip_class(s, CharClass::FenceTag);
    match after_prefix(rest, "\n"@) {
        Some(t) => t,
        None => rest,
    }
}

/// What follows an opening fence is no longer than what it opens.
pub proof fn lemma_fence_body_shrinks(s: Seq<char>)
    ensures
        fence_body(s).len() <= s.len(),
{
    lemma_skip_shrinks(s, CharClass::FenceTag);
}

/// The bodies of the fenced blocks in `s`, in order. A fence that is never
/// closed opens none.
pub open spec fn fenced_blocks(s: Seq<char>) -> Seq<Seq<char>>
    decreases s.len(),
{
    match find_text(s, FENCE@) {
        None => Seq::empty(),
        Some(open) => {
            let after = fence_body(s.skip(open + FENCE@.len()));
            match find_text(after, FENCE@) {
                None => Seq::empty(),
                Some(close) => {
                    proof {
                        reveal_strlit("```");
                        lemma_find_from(s, FENCE@, 0);
                        lemma_find_from(after, FENCE@, 0);
                        lemma_fence_body_shrinks(s.skip(open + FENCE@.len()));
                    }
                    seq![after.take(close)] + fenced_blocks(after.skip(close + FENCE@.len()))
                },
            }
        },
    }
}

/// The number of bytes that a text takes in UTF-8.
pub open spec fn byte_length(s: Seq<char>) -> nat {
    encode_utf8(s).len()
}

/// The block that takes the most bytes; the first of those where several do.
pub open spec fn largest(blocks: Seq<Seq<char>>) -> Option<Seq<char>>
    decreases blocks.len(),
{
    if blocks.len() == 0 {
        None
    } else {
        match largest(blocks.drop_last()) {
            Some(b) => if byte_length(blocks.last()) > byte_length(b) {
                Some(blocks.last())
            } else {
                Some(b)
            },
            None => Some(blocks.last()),
        }
    }
}

/// `largest` picks one of the blocks: none is larger, and none before it is as
/// large.
pub proof fn largest_is_first_maximum(blocks: Seq<Seq<char>>)
    requires
        blocks.len() > 0,
    ensures
        exists|k: int|
            {
                &&& 0 <= k < blocks.len()
                &&& largest(blocks) == Some(#[trigger] blocks[k])
                &&& forall|j: int|
                    0 <= j < blocks.len() ==> byte_length(#[trigger] blocks[j]) <= byte_length(
                        blocks[k],
                    )
                &&& forall|j: int|
                    0 <= j < k ==> byte_length(#[trigger] blocks[j]) < byte_length(blocks[k])
            },
    decreases blocks.len(),
{
    let n = blocks.len() - 1;
    let rest = blocks.drop_last();
    if rest.len() == 0 {
        assert(largest(blocks) == Some(blocks[0]));
    } else {
        largest_is_first_maximum(rest);
        let k = choose|k: int|
            {
                &&& 0 <= k < rest.len()
                &&& largest(rest) == Some(#[trigger] rest[k])
                &&& forall|j: int|
                    0 <= j < rest.len() ==> byte_length(#[trigger] rest[j]) <= byte_length(rest[k])
                &&& forall|j: int|
                    0 <= j < k ==> byte_length(#[trigger] rest[j]) < byte_length(rest[k])
            };
        let m = if byte_length(blocks.last()) > byte_length(rest[k]) {
            n
        } else {
            k
        };
        assert(largest(blocks) == Some(blocks[m]));
        assert forall|j: int| 0 <= j < blocks.len() implies byte_length(#[trigger] blocks[j])
            <= byte_length(blocks[m]) by {
            if j < n {
                assert(rest[j] == blocks[j]);
            }
        }
        assert forall|j: int| 0 <= j < m implies byte_length(#[trigger] blocks[j]) < byte_length(
            blocks[m],
        ) by {
            assert(rest[j] == blocks[j]);
        }
    }
}

/// The code in a reply. Where the reply opens with a fence, what stands up to
/// the last fence; else the largest fenced block; else all of it.
pub open spec fn unfenced(text: Seq<char>) -> Seq<char> {
    let t = trimmed(text);
    match after_prefix(t, FENCE@) {
        Some(rest) => {
            let body = fence_body(rest);
            match rfind_text(body, FENCE@) {
                Some(end) => drop_class(body.take(end), CharClass::Blank),
                None => drop_class(body, CharClass::Blank),
            }
        },
        None => match largest(fenced_blocks(t)) {
            Some(b) => drop_class(b, CharClass::Blank),
            None => t,
        },
    }
}

/// Skips the language name behind an opening fence, and the line feed.
pub(crate) fn skip_fence_line(s: &str) -> (r: &str)
    ensures
        r@ == fence_body(s@),
{
    let rest = skip_leading(s, CharClass::FenceTag);
    match strip_prefix(rest, "\n") {
        Some(t) => t,
        None => rest,
    }
}

/// Finds the largest fenced block of `s`.
fn largest_block<'a>(s: &'a str) -> (r: Option<&'a str>)
    ensures
        match r {
            Some(b) => largest(fenced_blocks(s@)) == Some(b@),
            None => largest(fenced_blocks(s@)) is None,
        },
{
    let mut best: Option<&'a str> = None;
    let mut rest: &'a str = s;
    let ghost mut seen: Seq<Seq<char>> = Seq::empty();
    loop
        invariant
            fenced_blocks(s@) == seen + fenced_blocks(rest@),
            match best {
                Some(b) => largest(seen) == Some(b@),
                None => largest(seen) is None,
            },
        decreases rest@.len(),
    {
        let open = match find(rest, FENCE) {
            Some(i) => i,
            None => {
                assert(seen + fenced_blocks(rest@) =~= seen);
                return best;
            },
        };
        proof {
            reveal_strlit("```");
            lemma_find_from(rest@, FENCE@, 0);
        }
        let total = rest.unicode_len();
        let opened = rest.substring_char(open + FENCE.unicode_len(), total);
        assert(opened@ =~= rest@.skip(open + FENCE@.len()));
        let after = skip_fence_line(opened);
        let close = match find(after, FENCE) {
            Some(i) => i,
            None => {
                assert(seen + fenced_blocks(rest@) =~= seen);
                return best;
            },
        };
        proof {
            lemma_find_from(after@, FENCE@, 0);
            lemma_fence_body_shrinks(opened@);
        }
        let body = after.substring_char(0, close);
        let larger = match best {
            Some(b) => body.as_bytes().len() > b.as_bytes().len(),
            None => true,
        };
        if larger {
            best = Some(body);
        }
        let next = after.substring_char(close + FENCE.unicode_len(), after.unicode_len());
        proof {
            assert(body@ =~= after@.take(close as int));
            assert(next@ =~= after@.skip(close + FENCE@.len()));
            assert(seen.push(body@).drop_last() =~= seen);
            assert(seen + (seq![body@] + fenced_blocks(next@)) =~= seen.push(body@)
                + fenced_blocks(next@));
            seen = seen.push(body@);
        }
        rest = next;
    }
}

/// Takes the code out of a reply.
pub fn strip_code_fences(text: &str) -> (r: String)
    ensures
        r@ == unfenced(text@),
{
    let t = trim(text);
    match strip_prefix(t, FENCE) {
        Some(rest) => {
            let body = skip_fence_line(rest);
            match rfind(body, FENCE) {
                Some(end) => {
                    proof {
                        lemma_rfind_to(body@, FENCE@, body@.len() - FENCE@.len());
                    }
                    let inner = body.substring_char(0, end);
                    assert(inner@ =~= body@.take(end as int));
                    drop_trailing(inner, CharClass::Blank).to_owned()
                },
                None => drop_trailing(body, CharClass::Blank).to_owned(),
            }
        },
        None => {
            match largest_block(t) {
                Some(b) => drop_trailing(b, CharClass::Blank).to_owned(),
                None => t.to_owned(),
            }
        },
    }
}

/// The block in a reply: what stands between the markers where the reply
/// echoes the whole file, else all of its code.
pub open spec fn extracted(text: Seq<char>) -> Seq<char> {
    let code = unfenced(text);
    match (find_text(code, BLOCK_START@), find_text(code, BLOCK_END@)) {
        (Some(start), Some(end)) => if end > start {
            without_outer_lines(between_markers(code, start, end))
        } else {
            without_outer_lines(code)
        },
        _ => without_outer_lines(code),
    }
}

/// Strips fences; where the reply echoes the whole file, keeps only the block.
pub fn extract_block(text: &str) -> (r: String)
    ensures
        r@ == extracted(text@),
{
    let code = strip_code_fences(text);
    let cleaned = code.as_str();
    if let (Some(start), Some(end)) = (find(cleaned, BLOCK_START), find(cleaned, BLOCK_END)) {
        if end > start {
            proof {
                lemma_find_from(cleaned@, BLOCK_START@, 0);
                lemma_find_from(cleaned@, BLOCK_END@, 0);
                lemma_markers_apart(cleaned@, start as int, end as int);
            }
            let inner = cleaned.substring_char(start + BLOCK_START.unicode_len(), end);
            return strip(inner, CharClass::NewLine).to_owned();
        }
    }
    strip(cleaned, CharClass::NewLine).to_owned()
}

/// What is left after trimming does not begin or end with a trimmed character.
proof fn lemma_strip_edges(s: Seq<char>, class: CharClass)
    ensures
        strip_class(s, class).len() > 0 ==> {
            &&& !class.has(strip_class(s, class)[0])
            &&& !class.has(strip_class(s, class).last())
        },
{
    lemma_skip_edge(s, class);
    lemma_drop_edge(skip_class(s, class), class);
}

proof fn lemma_skip_edge(s: Seq<char>, class: CharClass)
    ensures
        skip_class(s, class).len() > 0 ==> !class.has(skip_class(s, class)[0]),
    decreases s.len(),
{
    if s.len() > 0 && class.has(s[0]) {
        lemma_skip_edge(s.drop_first(), class);
    }
}

proof fn lemma_drop_edge(s: Seq<char>, class: CharClass)
    ensures
        drop_class(s, class).len() > 0 ==> {
            &&& !class.has(drop_class(s, class).last())
            &&& drop_class(s, class)[0] == s[0]
        },
    decreases s.len(),
{
    if s.len() > 0 && class.has(s.last()) {
        lemma_drop_edge(s.drop_last(), class);
    }
}

/// Trimming takes line feeds off again that were put around a trimmed text.
proof fn lemma_strip_wrapped(b: Seq<char>)
    requires
        b == without_outer_lines(b),
    ensures
        without_outer_lines(seq!['\n'] + b + seq!['\n']) == b,
{
    let class = CharClass::NewLine;
    let n = seq!['\n'];
    lemma_strip_edges(b, class);
    let whole = n + b + n;
    assert(whole.drop_first() =~= b + n);
    if b.len() == 0 {
        assert(b + n =~= n);
        assert(n.drop_first() =~= b);
        assert(skip_class(n, class) == skip_class(b, class));
        assert(drop_class(b, class) == b);
    } else {
        assert((b + n)[0] == b[0]);
        assert(skip_class(b + n, class) == b + n);
        assert((b + n).drop_last() =~= b);
        assert(drop_class(b, class) == b);
    }
}

/// Trimming twice is trimming once.
proof fn lemma_strip_twice(s: Seq<char>)
    ensures
        without_outer_lines(without_outer_lines(s)) == without_outer_lines(s),
{
    lemma_strip_edges(s, CharClass::NewLine);
}

/// No end marker begins in what stands before the one that `assembled` puts.
proof fn lemma_no_earlier_end(header: Seq<char>, b: Seq<char>, footer: Seq<char>, i: int)
    requires
        !contains_text(header, BLOCK_END@),
        !contains_text(b, BLOCK_END@),
        0 <= i < header.len() + BLOCK_START@.len() + 1 + b.len() + 1,
    ensures
        !occurs_at(
            header + BLOCK_START@ + "\n"@ + b + "\n"@ + BLOCK_END@ + footer,
            BLOCK_END@,
            i,
        ),
{
    reveal_strlit("# EVOLVE-BLOCK-START");
    reveal_strlit("# EVOLVE-BLOCK-END");
    reveal_strlit("\n");
    let s = header + BLOCK_START@ + "\n"@ + b + "\n"@ + BLOCK_END@ + footer;
    let h = header.len() as int;
    let m = BLOCK_END@.len() as int;
    let body = h + BLOCK_START@.len() + 1;
    if occurs_at(s, BLOCK_END@, i) {
        let w = s.subrange(i, i + m);
        assert forall|k: int| 0 <= k < m implies s[i + k] == #[trigger] BLOCK_END@[k] by {
            assert(w[k] == s[i + k]);
        }
        if i + m <= h {
            assert(header.subrange(i, i + m) =~= w);
            assert(occurs_at(header, BLOCK_END@, i));
        } else if i < h {
            assert(s[h] == BLOCK_START@[0]);
            assert(s[i + (h - i)] == BLOCK_END@[h - i]);
        } else if i < body - 1 {
            assert(s[i] == BLOCK_START@[i - h]);
            assert(s[i] == BLOCK_END@[0]);
            if i == h {
                assert(s[h + 15] == BLOCK_START@[15]);
                assert(s[i + 15] == BLOCK_END@[15]);
            }
        } else if i == body - 1 {
            assert(s[i] == '\n');
            assert(s[i] == BLOCK_END@[0]);
        } else if i + m <= body + b.len() {
            assert(b.subrange(i - body, i - body + m) =~= w);
            assert(occurs_at(b, BLOCK_END@, i - body));
        } else {
            let line = body + b.len();
            assert(s[line] == '\n');
            assert(s[i + (line - i)] == BLOCK_END@[line - i]);
        }
    }
}

/// No start marker begins in what stands before the one that `assembled` puts.
proof fn lemma_no_earlier_start(header: Seq<char>, rest: Seq<char>, i: int)
    requires
        !contains_text(header, BLOCK_START@),
        0 <= i < header.len(),
    ensures
        !occurs_at(header + BLOCK_START@ + rest, BLOCK_START@, i),
{
    reveal_strlit("# EVOLVE-BLOCK-START");
    let s = header + BLOCK_START@ + rest;
    let h = header.len() as int;
    let m = BLOCK_START@.len() as int;
    if occurs_at(s, BLOCK_START@, i) {
        let w = s.subrange(i, i + m);
        if i + m <= h {
            assert(header.subrange(i, i + m) =~= w);
            assert(occurs_at(header, BLOCK_START@, i));
        } else {
            assert(w[h - i] == s[h]);
            assert(s[h] == BLOCK_START@[0]);
        }
    }
}

/// Splitting an assembled file gives back the header, the block and the footer
/// it was made of, the block without the line feeds around it. The header must
/// hold no marker of its own, and the block no end marker.
pub proof fn assembled_file_splits_back(header: Seq<char>, block: Seq<char>, footer: Seq<char>)
    requires
        !contains_text(header, BLOCK_START@),
        !contains_text(header, BLOCK_END@),
        !contains_text(without_outer_lines(block), BLOCK_END@),
    ensures
        ({
            let s = assembled(header, block, footer);
            let start = find_text(s, BLOCK_START@);
            let end = find_text(s, BLOCK_END@);
            &&& start is Some && end is Some && start->0 <= end->0
            &&& s.take(start->0) == header
            &&& without_outer_lines(between_markers(s, start->0, end->0)) == without_outer_lines(
                block,
            )
            &&& s.skip(end->0 + BLOCK_END@.len()) == footer
        }),
{
    let b = without_outer_lines(block);
    let s = assembled(header, block, footer);
    let h = header.len() as int;
    let n = BLOCK_START@.len() as int;
    let e = h + n + 1 + b.len() + 1;
    reveal_strlit("\n");
    assert("\n"@ =~= seq!['\n']);
    let rest = "\n"@ + b + "\n"@ + BLOCK_END@ + footer;
    assert(s =~= header + BLOCK_START@ + rest);
    assert(s.subrange(h, h + n) =~= BLOCK_START@);
    assert(s.subrange(e, e + BLOCK_END@.len()) =~= BLOCK_END@);
    lemma_find_from(s, BLOCK_START@, 0);
    lemma_find_from(s, BLOCK_END@, 0);
    let start = find_text(s, BLOCK_START@)->0;
    let end = find_text(s, BLOCK_END@)->0;
    assert(occurs_at(s, BLOCK_START@, h));
    assert(occurs_at(s, BLOCK_END@, e));
    if start < h {
        lemma_no_earlier_start(header, rest, start);
    }
    if end < e {
        lemma_no_earlier_end(header, b, footer, end);
    }
    assert(start == h && end == e);
    assert(s.take(h) =~= header);
    assert(s.skip(e + BLOCK_END@.len()) =~= footer);
    assert(between_markers(s, h, e) =~= seq!['\n'] + b + seq!['\n']);
    lemma_strip_twice(block);
    lemma_strip_wrapped(b);
}

/// Putting the block of a file back into it gives the file, where one line feed
/// stands between the block and each marker.
pub proof fn split_file_assembles_back(source: Seq<char>, start: int, end: int)
    requires
        occurs_at(source, BLOCK_START@, start),
        occurs_at(source, BLOCK_END@, end),
        start <= end,
        between_markers(source, start, end) == "\n"@ + without_outer_lines(
            between_markers(source, start, end),
        ) + "\n"@,
    ensures
        assembled(
            source.take(start),
            without_outer_lines(between_markers(source, start, end)),
            source.skip(end + BLOCK_END@.len()),
        ) == source,
{
    lemma_markers_apart(source, start, end);
    let inner = between_markers(source, start, end);
    lemma_strip_twice(inner);
    let n = BLOCK_START@.len() as int;
    let m = BLOCK_END@.len() as int;
    assert(source =~= source.take(start) + source.subrange(start, start + n) + inner
        + source.subrange(end, end + m) + source.skip(end + m));
    assert(source =~= assembled(
        source.take(start),
        without_outer_lines(inner),
        source.skip(end + m),
    ));
}

/// An assembled file keeps the header and the footer, whatever the block is.
pub proof fn assembled_file_keeps_surroundings(
    header: Seq<char>,
    block: Seq<char>,
    footer: Seq<char>,
)
    ensures
        ({
            let s = assembled(header, block, footer);
            &&& s.take(header.len() as int) == header
            &&& s.skip(s.len() - footer.len()) == footer
        }),
{
    let s = assembled(header, block, footer);
    assert(s.take(header.len() as int) =~= header);
    assert(s.skip(s.len() - footer.len()) =~= footer);
}

/// Code in a fence, with a language name or without one, is taken out of it, but
/// for the white space at its end.
pub proof fn fenced_code_is_taken_out(tag: Seq<char>, code: Seq<char>)
    requires
        forall|i: int| 0 <= i < tag.len() ==> CharClass::FenceTag.has(#[trigger] tag[i]),
    ensures
        unfenced(FENCE@ + tag + "\n"@ + code + "\n"@ + FENCE@) == drop_class(
            code,
            CharClass::Blank,
        ),
{
    reveal_strlit("```");
    reveal_strlit("\n");
    let text = FENCE@ + tag + "\n"@ + code + "\n"@ + FENCE@;
    let body = code + "\n"@ + FENCE@;
    assert(text[0] == '`');
    assert(text.last() == '`');
    assert(trimmed(text) == text);
    assert(text.subrange(0, 3) =~= FENCE@);
    let rest = text.skip(3);
    assert(rest =~= tag + ("\n"@ + body));
    lemma_skip_all(tag, "\n"@ + body, CharClass::FenceTag);
    assert(("\n"@ + body).subrange(0, 1) =~= "\n"@);
    assert(("\n"@ + body).skip(1) =~= body);
    assert(fence_body(rest) == body);
    let end = body.len() - 3;
    assert(body.subrange(end, end + 3) =~= FENCE@);
    assert(rfind_text(body, FENCE@) == Some(end));
    assert(body.take(end) =~= code + "\n"@);
    assert((code + "\n"@).drop_last() =~= code);
}

proof fn lemma_skip_all(front: Seq<char>, rest: Seq<char>, class: CharClass)
    requires
        forall|i: int| 0 <= i < front.len() ==> class.has(#[trigger] front[i]),
        rest.len() > 0 ==> !class.has(rest[0]),
    ensures
        skip_class(front + rest, class) == rest,
    decreases front.len(),
{
    if front.len() == 0 {
        assert(front + rest =~= rest);
    } else {
        assert((front + rest)[0] == front[0]);
        assert((front + rest).drop_first() =~= front.drop_first() + rest);
        lemma_skip_all(front.drop_first(), rest, class);
    }
}

/// Where a reply echoes the whole file, only the block is kept.
pub proof fn echoed_file_gives_block(
    text: Seq<char>,
    header: Seq<char>,
    block: Seq<char>,
    footer: Seq<char>,
)
    requires
        unfenced(text) == assembled(header, block, footer),
        !contains_text(header, BLOCK_START@),
        !contains_text(header, BLOCK_END@),
        !contains_text(without_outer_lines(block), BLOCK_END@),
    ensures
        extracted(text) == without_outer_lines(block),
{
    assembled_file_splits_back(header, block, footer);
    let s = assembled(header, block, footer);
    lemma_find_from(s, BLOCK_START@, 0);
    lemma_find_from(s, BLOCK_END@, 0);
    lemma_markers_apart(s, find_text(s, BLOCK_START@)->0, find_text(s, BLOCK_END@)->0);
    reveal_strlit("# EVOLVE-BLOCK-START");
}

/// Every runtime error counts as one, and so does a syntax error.
pub proof fn errors_are_counted(r: HarnessResult)
    ensures
        r.syntax_error is None ==> r.errors() == r.runtime_errors@.len(),
        r.syntax_error is Some ==> r.errors() == r.runtime_errors@.len() + 1,
{
}

/// A summary quotes the syntax error in full, where there is one, and behind it
/// the first three runtime errors, in order, each up to its four hundredth
/// character.
pub proof fn summaries_quote_errors(syntax_error: Option<Seq<char>>, runtime: Seq<Seq<char>>)
    ensures
        ({
            let quoted = quoted_errors(syntax_error, runtime);
            let front: int = if syntax_error is Some {
                1
            } else {
                0
            };
            let n = if runtime.len() < 3 {
                runtime.len() as int
            } else {
                3
            };
            &&& quoted.len() == front + n
            &&& syntax_error is Some ==> quoted[0] == "syntax error: "@ + syntax_error->0
            &&& forall|i: int|
                0 <= i < n ==> {
                    &&& (#[trigger] runtime[i]).len() <= 400 ==> quoted[front + i] == runtime[i]
                    &&& runtime[i].len() > 400 ==> quoted[front + i] == runtime[i].take(400)
                        + "..."@
                }
        }),
{
}

proof fn lemma_first_place(places: Seq<Place>, i: int, end: int, k: int)
    requires
        0 <= i <= k,
        k <= end && k <= places.len(),
        forall|j: int| i <= j < k ==> !(#[trigger] places[j]).exists,
    ensures
        k < end && k < places.len() && places[k].exists ==> first_place(places, i, end) == Some(
            places[k].path@,
        ),
        k == end || k == places.len() ==> first_place(places, i, end) is None,
    decreases k - i,
{
    if i < k {
        lemma_first_place(places, i + 1, end, k);
    }
}

/// The script is taken from where it is configured to be, below the working
/// directory where that is known; where it is not there, from below the project;
/// and else from the innermost of the four directories from the executable up
/// that has it.
pub proof fn scripts_are_found_in_order(search: ScriptSearch, k: int)
    requires
        0 <= k <= search.below_executable@.len(),
        k <= 4,
        forall|j: int| 0 <= j < k ==> !(#[trigger] search.below_executable@[j]).exists,
    ensures
        search.configured.exists && search.below_working_dir is Some ==> search.found() == Some(
            search.below_working_dir->0@,
        ),
        search.configured.exists && search.below_working_dir is None ==> search.found() == Some(
            search.configured.path@,
        ),
        !search.configured.exists && search.below_project.exists ==> search.found() == Some(
            search.below_project.path@,
        ),
        !search.configured.exists && !search.below_project.exists ==> {
            &&& k < 4 && k < search.below_executable@.len() && search.below_executable@[k].exists
                ==> search.found() == Some(search.below_executable@[k].path@)
            &&& k == 4 || k == search.below_executable@.len() ==> search.found() is None
        },
{
    lemma_first_place(search.below_executable@, 0, 4, k);
}

/// A line may hold a result where the first character that is not blank opens an
/// object or an array.
pub proof fn results_open_with_a_bracket(blank: Seq<char>, c: char, rest: Seq<char>)
    requires
        forall|i: int| 0 <= i < blank.len() ==> CharClass::Blank.has(#[trigger] blank[i]),
        !CharClass::Blank.has(c),
    ensures
        looks_like_json(blank + seq![c] + rest) <==> c == '{' || c == '[',
        !looks_like_json(blank),
{
    assert(blank + seq![c] + rest =~= blank + (seq![c] + rest));
    lemma_skip_all(blank, seq![c] + rest, CharClass::Blank);
    let none = Seq::<char>::empty();
    assert(blank + none =~= blank);
    lemma_skip_all(blank, none, CharClass::Blank);
}

/// The result is on the last line that may hold one, and nowhere where none may.
pub proof fn result_is_on_the_last_line(lines: Seq<Seq<char>>, k: int)
    requires
        0 <= k <= lines.len(),
        forall|j: int| k <= j < lines.len() ==> !looks_like_json(#[trigger] lines[j]),
    ensures
        k > 0 && looks_like_json(lines[k - 1]) ==> last_json_line(lines) == Some(lines[k - 1]),
        k == 0 ==> last_json_line(lines) is None,
    decreases lines.len() - k,
{
    if k < lines.len() {
        let shorter = lines.drop_last();
        assert(!looks_like_json(lines[lines.len() - 1]));
        assert forall|j: int| k <= j < shorter.len() implies !looks_like_json(
            #[trigger] shorter[j],
        ) by {
            assert(shorter[j] == lines[j]);
        }
        result_is_on_the_last_line(shorter, k);
    }
}

/// The reply is what the last line that may hold a result says; where that line is
/// no JSON, or no line may hold a result, there is none.
pub proof fn reply_is_the_last_result(stdout: Seq<char>, k: int)
    requires
        0 <= k <= lines_of(stdout).len(),
        forall|j: int|
            k <= j < lines_of(stdout).len() ==> !looks_like_json(#[trigger] lines_of(stdout)[j]),
    ensures
        k > 0 && looks_like_json(lines_of(stdout)[k - 1]) ==> reply_in(stdout) == text_tree(
            lines_of(stdout)[k - 1],
        ),
        k == 0 ==> reply_in(stdout) is None,
{
    result_is_on_the_last_line(lines_of(stdout), k);
}

/// What is reported of a run without a result shows how it ended and the
/// beginnings of both of its outputs.
pub proof fn missing_results_are_explained(exit: Seq<char>, stdout: Seq<char>, stderr: Seq<char>)
    ensures
        in_order(
            no_reply_message(exit, stdout, stderr),
            seq![
                "harness produced no JSON (exit "@,
                exit,
                "stdout: "@,
                truncated(trimmed(stdout), 500),
                "stderr: "@,
                truncated(trimmed(stderr), 1500),
            ],
        ),
        trimmed(stdout).len() <= 500 ==> contains_text(
            no_reply_message(exit, stdout, stderr),
            trimmed(stdout),
        ),
        trimmed(stderr).len() <= 1500 ==> contains_text(
            no_reply_message(exit, stdout, stderr),
            trimmed(stderr),
        ),
{
    let out = truncated(trimmed(stdout), 500);
    let err = truncated(trimmed(stderr), 1500);
    let a = ").\nstdout: "@;
    let b = "\nstderr: "@;
    lemma_ends_with_label();
    let mut t = "harness produced no JSON (exit "@;
    lemma_whole("harness produced no JSON (exit "@);
    let mut p = seq!["harness produced no JSON (exit "@];
    show_part(t, p, exit);
    t = t + exit;
    p = p.push(exit);
    lemma_orders_join(t, p, a, seq!["stdout: "@]);
    t = t + a;
    p = p + seq!["stdout: "@];
    show_part(t, p, out);
    t = t + out;
    p = p.push(out);
    lemma_orders_join(t, p, b, seq!["stderr: "@]);
    t = t + b;
    p = p + seq!["stderr: "@];
    show_part(t, p, err);
    t = t + err;
    p = p.push(err);
    let shown = seq![
        "harness produced no JSON (exit "@,
        exit,
        "stdout: "@,
        truncated(trimmed(stdout), 500),
        "stderr: "@,
        truncated(trimmed(stderr), 1500),
    ];
    assert(t == no_reply_message(exit, stdout, stderr));
    assert(p =~= shown);
    order_is_containment(t, shown, 3);
    order_is_containment(t, shown, 5);
}

proof fn lemma_ends_with_label()
    ensures
        in_order(").\nstdout: "@, seq!["stdout: "@]),
        in_order("\nstderr: "@, seq!["stderr: "@]),
{
    reveal_strlit(").\nstdout: ");
    reveal_strlit("stdout: ");
    reveal_strlit("\nstderr: ");
    reveal_strlit("stderr: ");
    assert(").\nstdout: "@ =~= seq![')', '.', '\n'] + "stdout: "@);
    assert("\nstderr: "@ =~= seq!['\n'] + "stderr: "@);
    let none = Seq::<Seq<char>>::empty();
    show_part(seq![')', '.', '\n'], none, "stdout: "@);
    show_part(seq!['\n'], none, "stderr: "@);
    assert(none.push("stdout: "@) =~= seq!["stdout: "@]);
    assert(none.push("stderr: "@) =~= seq!["stderr: "@]);
}

/// A run that measured nothing has one error, which says why, and no measurement.
pub proof fn failures_measure_nothing(r: HarnessResult, status: Seq<char>, message: Seq<char>)
    requires
        is_failure(r, status, message),
    ensures
        r.status@ == status,
        string_views(r.runtime_errors@) == seq![message],
        r.errors() == 1,
        r.quality is None && r.quality_std is None,
        r.fit_time is None && r.predict_time is None,
        r.n_folds_ok == 0 && r.n_folds_total == 0,
        r.code_length == 0,
        r.per_dataset == Json::Null,
{
    assert(string_views(r.runtime_errors@) =~= seq![message]);
}

/// Of a clustering task the file must cluster, of every other it must classify.
pub proof fn contracts_go_by_kind(kind: Seq<char>)
    ensures
        contract_for("clustering"@) == CLUSTERING_CONTRACT@,
        kind != "clustering"@ ==> contract_for(kind) == CLASSIFICATION_CONTRACT@,
{
}

/// Every flag is followed by its own value: the task that is asked for, and the
/// folds, the repeats and the seed that are configured.
pub proof fn flags_stand_before_their_values(h: Harness, task: Seq<char>, subject: Subject)
    ensures
        ({
            let args = h.common(task) + Harness::subject_args(subject);
            &&& args[0] == "--task"@ && args[1] == task
            &&& args[2] == "--folds"@ && args[3] == decimal(h.cfg.folds as nat)
            &&& args[4] == "--repeats"@ && args[5] == decimal(h.cfg.repeats as nat)
            &&& args[6] == "--seed"@ && args[7] == decimal(h.cfg.seed as nat)
            &&& subject is Candidate ==> args.len() == 10 && args[8] == "--candidate"@ && args[9]
                == subject->Candidate_0@
            &&& subject is Seed ==> args.len() == 9 && args[8] == "--seed-file"@
            &&& subject is Reference ==> args.len() == 9 && args[8] == "--sklearn-reference"@
        }),
{
}

/// Where a marker is missing, or out of order, the report names it.
pub proof fn template_errors_name_the_marker()
    ensures
        contains_text(TemplateError::NoStart.text(), BLOCK_START@),
        contains_text(TemplateError::NoEnd.text(), BLOCK_END@),
        in_order(TemplateError::EndBeforeStart.text(), seq![BLOCK_END@, BLOCK_START@]),
{
    let none = Seq::<Seq<char>>::empty();
    let front = "seed file has no "@;
    let start = none.push(BLOCK_START@);
    let end = none.push(BLOCK_END@);
    show_part(front, none, BLOCK_START@);
    show_gap(front + BLOCK_START@, start, " marker"@);
    order_is_containment(TemplateError::NoStart.text(), start, 0);
    show_part(front, none, BLOCK_END@);
    show_gap(front + BLOCK_END@, end, " marker"@);
    order_is_containment(TemplateError::NoEnd.text(), end, 0);
    lemma_whole(BLOCK_END@);
    show_gap(BLOCK_END@, seq![BLOCK_END@], " appears before "@);
    show_part(BLOCK_END@ + " appears before "@, seq![BLOCK_END@], BLOCK_START@);
    assert(seq![BLOCK_END@].push(BLOCK_START@) =~= seq![BLOCK_END@, BLOCK_START@]);
}

/// A block keeps everything but the line feeds around it.
pub proof fn blocks_lose_outer_lines_only(s: Seq<char>)
    ensures
        exists|a: int, b: int|
            {
                &&& 0 <= a <= b <= s.len()
                &&& without_outer_lines(s) == #[trigger] s.subrange(a, b)
                &&& forall|i: int| 0 <= i < a || b <= i < s.len() ==> #[trigger] s[i] == '\n'
                &&& a < b ==> s[a] != '\n' && s[b - 1] != '\n'
            },
{
    trimming_takes_the_edges(s, CharClass::NewLine);
    let (a, b) = choose|a: int, b: int|
        {
            &&& 0 <= a <= b <= s.len()
            &&& strip_class(s, CharClass::NewLine) == #[trigger] s.subrange(a, b)
            &&& forall|i: int|
                0 <= i < a || b <= i < s.len() ==> CharClass::NewLine.has(#[trigger] s[i])
            &&& a < b ==> !CharClass::NewLine.has(s[a]) && !CharClass::NewLine.has(s[b - 1])
        };
    assert(without_outer_lines(s) == s.subrange(a, b));
}

/// What stands between the markers is all that does.
pub proof fn markers_enclose(before: Seq<char>, inside: Seq<char>, behind: Seq<char>)
    ensures
        between_markers(
            before + BLOCK_START@ + inside + BLOCK_END@ + behind,
            before.len() as int,
            (before.len() + BLOCK_START@.len() + inside.len()) as int,
        ) == inside,
{
    assert(between_markers(
        before + BLOCK_START@ + inside + BLOCK_END@ + behind,
        before.len() as int,
        (before.len() + BLOCK_START@.len() + inside.len()) as int,
    ) =~= inside);
}

/// An assembled file is the header, the block between its markers, each of them on
/// its own line, and the footer.
pub proof fn assembled_file_is_in_order(header: Seq<char>, block: Seq<char>, footer: Seq<char>)
    ensures
        in_order(
            assembled(header, block, footer),
            seq![
                header,
                BLOCK_START@,
                "\n"@,
                without_outer_lines(block),
                "\n"@,
                BLOCK_END@,
                footer,
            ],
        ),
        assembled(header, block, footer).len() == header.len() + BLOCK_START@.len()
            + without_outer_lines(block).len() + BLOCK_END@.len() + footer.len() + 2,
{
    reveal_strlit("\n");
    let inner = without_outer_lines(block);
    let mut t = header;
    lemma_whole(header);
    let mut p = seq![header];
    show_part(t, p, BLOCK_START@);
    t = t + BLOCK_START@;
    p = p.push(BLOCK_START@);
    show_part(t, p, "\n"@);
    t = t + "\n"@;
    p = p.push("\n"@);
    show_part(t, p, inner);
    t = t + inner;
    p = p.push(inner);
    show_part(t, p, "\n"@);
    t = t + "\n"@;
    p = p.push("\n"@);
    show_part(t, p, BLOCK_END@);
    t = t + BLOCK_END@;
    p = p.push(BLOCK_END@);
    show_part(t, p, footer);
    t = t + footer;
    p = p.push(footer);
    assert(t == assembled(header, block, footer));
    assert(p =~= seq![
        header,
        BLOCK_START@,
        "\n"@,
        without_outer_lines(block),
        "\n"@,
        BLOCK_END@,
        footer,
    ]);
}

/// The language name behind a fence is no code, nor is the line feed that ends it;
/// what follows is.
pub proof fn languages_are_no_code(tag: Seq<char>, body: Seq<char>)
    requires
        forall|i: int| 0 <= i < tag.len() ==> CharClass::FenceTag.has(#[trigger] tag[i]),
    ensures
        fence_body(tag + "\n"@ + body) == body,
        body.len() > 0 && body[0] != '\n' && !CharClass::FenceTag.has(body[0]) ==> fence_body(
            tag + body,
        ) == body,
{
    reveal_strlit("\n");
    let rest = "\n"@ + body;
    assert(tag + "\n"@ + body =~= tag + rest);
    lemma_skip_all(tag, rest, CharClass::FenceTag);
    assert(rest.subrange(0, 1) =~= "\n"@);
    assert(rest.skip(1) =~= body);
    if body.len() > 0 && body[0] != '\n' && !CharClass::FenceTag.has(body[0]) {
        lemma_skip_all(tag, body, CharClass::FenceTag);
        assert(body.subrange(0, 1)[0] == body[0]);
    }
}

proof fn lemma_first_fence(a: Seq<char>, b: Seq<char>)
    requires
        forall|i: int| 0 <= i < a.len() ==> #[trigger] a[i] != '`',
    ensures
        find_text(a + FENCE@ + b, FENCE@) == Some(a.len() as int),
        find_text(a, FENCE@) is None,
{
    reveal_strlit("```");
    let s = a + FENCE@ + b;
    let n = a.len() as int;
    assert(s.subrange(n, n + 3) =~= FENCE@);
    assert(occurs_at(s, FENCE@, n));
    lemma_find_from(s, FENCE@, 0);
    lemma_find_from(a, FENCE@, 0);
    if let Some(k) = find_text(s, FENCE@) {
        if k < n {
            assert(s.subrange(k, k + 3)[0] == a[k]);
        }
    }
    if let Some(k) = find_text(a, FENCE@) {
        assert(a.subrange(k, k + 3)[0] == a[k]);
    }
}

/// Every fenced block of a text is found, in order, and its code is all that
/// stands behind the language name and in front of the closing fence.
pub proof fn fenced_blocks_are_found(
    before: Seq<char>,
    tag: Seq<char>,
    code: Seq<char>,
    rest: Seq<char>,
)
    requires
        forall|i: int| 0 <= i < before.len() ==> #[trigger] before[i] != '`',
        forall|i: int| 0 <= i < tag.len() ==> CharClass::FenceTag.has(#[trigger] tag[i]),
        forall|i: int| 0 <= i < code.len() ==> #[trigger] code[i] != '`',
    ensures
        fenced_blocks(before + FENCE@ + (tag + "\n"@ + (code + FENCE@ + rest))) == seq![code]
            + fenced_blocks(rest),
        fenced_blocks(before).len() == 0,
{
    reveal_strlit("```");
    let inner = code + FENCE@ + rest;
    let opened = tag + "\n"@ + inner;
    let s = before + FENCE@ + opened;
    lemma_first_fence(before, opened);
    lemma_first_fence(code, rest);
    languages_are_no_code(tag, inner);
    assert(s.skip(before.len() as int + 3) =~= opened);
    assert(inner.take(code.len() as int) =~= code);
    assert(inner.skip(code.len() as int + 3) =~= rest);
}

/// A reply without a fence is all code, but for the white space around it.
pub proof fn plain_replies_are_code(text: Seq<char>)
    requires
        forall|i: int| 0 <= i < text.len() ==> #[trigger] text[i] != '`',
    ensures
        unfenced(text) == trimmed(text),
        !contains_text(trimmed(text), BLOCK_START@) ==> extracted(text) == without_outer_lines(
            trimmed(text),
        ),
{
    reveal_strlit("```");
    let t = trimmed(text);
    trimmed_texts_keep_the_rest(text);
    let (a, b) = choose|a: int, b: int| 0 <= a <= b <= text.len() && t == text.subrange(a, b);
    assert forall|i: int| 0 <= i < t.len() implies #[trigger] t[i] != '`' by {
        assert(t[i] == text[a + i]);
    }
    lemma_first_fence(t, Seq::empty());
    lemma_find_from(t, FENCE@, 0);
    assert(!occurs_at(t, FENCE@, 0));
    lemma_find_from(t, BLOCK_START@, 0);
}

/// Of a reply that talks about its code, the longest of the fenced blocks is the
/// code, and the first of those where several are as long.
pub proof fn longest_block_is_the_code(text: Seq<char>)
    requires
        !occurs_at(trimmed(text), FENCE@, 0),
        fenced_blocks(trimmed(text)).len() > 0,
    ensures
        ({
            let blocks = fenced_blocks(trimmed(text));
            exists|k: int|
                {
                    &&& 0 <= k < blocks.len()
                    &&& unfenced(text) == drop_class(#[trigger] blocks[k], CharClass::Blank)
                    &&& forall|j: int|
                        0 <= j < blocks.len() ==> byte_length(#[trigger] blocks[j])
                            <= byte_length(blocks[k])
                    &&& forall|j: int|
                        0 <= j < k ==> byte_length(#[trigger] blocks[j]) < byte_length(blocks[k])
                }
        }),
{
    largest_is_first_maximum(fenced_blocks(trimmed(text)));
}

/// A reply that holds both markers in order is what stands between the first of
/// each; any other is its code. In both cases the line feeds around it are no part
/// of it.
pub proof fn markers_decide_what_is_extracted(text: Seq<char>, start: int, end: int)
    ensures
        find_text(unfenced(text), BLOCK_START@) == Some(start) && find_text(
            unfenced(text),
            BLOCK_END@,
        ) == Some(end) ==> {
            &&& start < end ==> extracted(text) == without_outer_lines(
                unfenced(text).subrange(start + BLOCK_START@.len(), end),
            )
            &&& end < start ==> extracted(text) == without_outer_lines(unfenced(text))
        },
        find_text(unfenced(text), BLOCK_START@) is None || find_text(
            unfenced(text),
            BLOCK_END@,
        ) is None ==> extracted(text) == without_outer_lines(unfenced(text)),
{
}

/// The markers are comments of their own, and a fence is three backticks.
pub proof fn markers_are_as_written()
    ensures
        BLOCK_START@ == "# EVOLVE-BLOCK-START"@,
        BLOCK_END@ == "# EVOLVE-BLOCK-END"@,
        FENCE@ == seq!['`', '`', '`'],
        MIN_TIMEOUT == 5,
{
    reveal_strlit("```");
    assert(FENCE@ =~= seq!['`', '`', '`']);
}

} // verus!
