//! A conversation with one agent: what it is told it is, which of its calls go
//! where, and when it is over.

use vstd::prelude::*;
use vstd::string::*;

use crate::agent::{read_turn, said_in, use_views, uses_in, ToolUse};
use crate::gemini::{
    delay_asked, error_status, first_candidate_of, model_url, request_url, retry_delay,
};
use crate::json::{elements_of, field, member_of, nth, option_view, text, Json, Tree};
use crate::text::{in_order, same, show_gap, show_part};

verus! {

/// The model that agents talk to.
pub const MODEL: &'static str = "gemini-3.5-flash-lite";

/// Where the model is called, with a key.
pub fn session_url(api_key: &str) -> (r: String)
    ensures
        r@ == model_url(MODEL@) + "?key="@ + api_key@,
{
    let mut out = request_url(MODEL);
    out.append("?key=");
    out.append(api_key);
    out
}

/// What the agent called `name` is told it is.
pub open spec fn instruction_text(name: Seq<char>, algorithm: Seq<char>) -> Seq<char> {
    "You are "@ + name
        + ", one of several competing agents in an evolutionary code-improvement system, currently assigned to optimize the '"@
        + algorithm
        + "' algorithm. You must actually IMPROVE code by calling your tools — do not just describe what you would do; call the functions.\n\nYour tools and the order they're normally used in:\n1. database — read existing code, training data, or test data (action: 'read'), or write new code/data (action: 'write'). Use this first to check what already exists, and to seed training/test data or a baseline implementation for '"@
        + algorithm
        + "' if none exists yet.\n2. evolution — generates and scores candidate implementations of '"@
        + algorithm
        + "' seeded from the database, and writes the best one back. Call this to produce an improved candidate.\n3. evaluator — actually runs your evolved candidate against real training/test data and scores its performance and novelty against the baseline and other agents' candidates.\n4. reinforcement — fetches your reward and rank position after evaluation, as feedback on how you're doing relative to the other agents.\n\nCall these tools whenever the task calls for producing, testing, or comparing code — do not simply answer in prose when a tool call would make real progress on the task."@
}

/// Writes what the agent called `name` is told it is.
pub fn system_instruction(name: &str, algorithm: &str) -> (r: String)
    ensures
        r@ == instruction_text(name@, algorithm@),
{
    let mut out = "You are ".to_owned();
    out.append(name);
    out.append(
        ", one of several competing agents in an evolutionary code-improvement system, currently assigned to optimize the '",
    );
    out.append(algorithm);
    out.append(
        "' algorithm. You must actually IMPROVE code by calling your tools — do not just describe what you would do; call the functions.\n\nYour tools and the order they're normally used in:\n1. database — read existing code, training data, or test data (action: 'read'), or write new code/data (action: 'write'). Use this first to check what already exists, and to seed training/test data or a baseline implementation for '",
    );
    out.append(algorithm);
    out.append(
        "' if none exists yet.\n2. evolution — generates and scores candidate implementations of '",
    );
    out.append(algorithm);
    out.append(
        "' seeded from the database, and writes the best one back. Call this to produce an improved candidate.\n3. evaluator — actually runs your evolved candidate against real training/test data and scores its performance and novelty against the baseline and other agents' candidates.\n4. reinforcement — fetches your reward and rank position after evaluation, as feedback on how you're doing relative to the other agents.\n\nCall these tools whenever the task calls for producing, testing, or comparing code — do not simply answer in prose when a tool call would make real progress on the task.",
    );
    out
}

/// How often a request is repeated.
pub const MAX_RETRIES: u32 = 5;

/// What to do about a reply.
#[derive(Debug)]
pub enum StepVerdict<'a> {
    /// It holds a candidate.
    Candidate(&'a Json),
    /// The quota is exhausted: try again, after the delay that it asks for,
    /// where it asks for one.
    Retry { asked: Option<String> },
    /// Give up.
    Failed,
}

/// The mathematical model of a verdict.
pub enum StepVerdictView {
    Candidate(Tree),
    Retry { asked: Option<Seq<char>> },
    Failed,
}

impl<'a> View for StepVerdict<'a> {
    type V = StepVerdictView;

    open spec fn view(&self) -> StepVerdictView {
        match self {
            StepVerdict::Candidate(j) => StepVerdictView::Candidate(j@),
            StepVerdict::Retry { asked } => StepVerdictView::Retry { asked: option_view(*asked) },
            StepVerdict::Failed => StepVerdictView::Failed,
        }
    }
}

/// What to do about the reply to attempt number `attempt`, counted from zero.
pub open spec fn step_verdict(reply: Tree, attempt: u32) -> StepVerdictView {
    match first_candidate_of(reply) {
        Some(Tree::Object(fields)) => StepVerdictView::Candidate(Tree::Object(fields)),
        _ => if error_status(reply) == "RESOURCE_EXHAUSTED"@ && attempt < MAX_RETRIES {
            StepVerdictView::Retry { asked: delay_asked(reply) }
        } else {
            StepVerdictView::Failed
        },
    }
}

/// The attempt that is not repeated, where `attempt` is made and these are the
/// replies to the attempts.
pub open spec fn last_step(replies: Seq<Tree>, attempt: u32) -> u32
    decreases MAX_RETRIES - attempt,
{
    if attempt < MAX_RETRIES && step_verdict(replies[attempt as int], attempt) is Retry {
        last_step(replies, (attempt + 1) as u32)
    } else {
        attempt
    }
}

/// Whatever the replies are, a request is repeated only where the quota is
/// exhausted, and no more often than is allowed; and where it is exhausted, the
/// request is given up only once no retry is left.
pub proof fn steps_are_bounded(replies: Seq<Tree>, attempt: u32)
    requires
        replies.len() > MAX_RETRIES,
        attempt <= MAX_RETRIES,
    ensures
        ({
            let last = last_step(replies, attempt);
            let end = replies[last as int];
            &&& attempt <= last <= MAX_RETRIES
            &&& step_verdict(end, last) !is Retry
            &&& step_verdict(end, last) is Failed && error_status(end) == "RESOURCE_EXHAUSTED"@
                ==> last == MAX_RETRIES
            &&& forall|k: int|
                attempt <= k < last ==> step_verdict(#[trigger] replies[k], k as u32) is Retry
                    && error_status(replies[k]) == "RESOURCE_EXHAUSTED"@
        }),
    decreases MAX_RETRIES - attempt,
{
    if attempt < MAX_RETRIES && step_verdict(replies[attempt as int], attempt) is Retry {
        steps_are_bounded(replies, (attempt + 1) as u32);
    }
}

/// Decides what to do about the reply to attempt number `attempt`, counted from
/// zero.
pub fn step<'a>(reply: &'a Json, attempt: u32) -> (r: StepVerdict<'a>)
    ensures
        r@ == step_verdict(reply@, attempt),
{
    let candidate = nth(reply.get("candidates"), 0);
    if let Some(c) = candidate {
        if let Json::Object(_) = c {
            return StepVerdict::Candidate(c);
        }
    }
    let exhausted = match text(field(reply.get("error"), "status")) {
        Some(s) => same(s, "RESOURCE_EXHAUSTED"),
        None => {
            proof {
                reveal_strlit("RESOURCE_EXHAUSTED");
                assert(error_status(reply@).len() != "RESOURCE_EXHAUSTED"@.len());
            }
            false
        },
    };
    if exhausted && attempt < MAX_RETRIES {
        return StepVerdict::Retry { asked: retry_delay(reply) };
    }
    StepVerdict::Failed
}

/// Where a tool call goes.
#[derive(Debug)]
pub enum Tool {
    Evolution,
    Evaluator,
    Reinforcement,
    Database,
    /// Nowhere, with this answer.
    Unknown(String),
}

/// Finds where a call of the tool called `name` goes.
pub fn call_tool(name: &str) -> (r: Tool)
    ensures
        r is Evolution <==> name@ == "evolution"@,
        r is Evaluator <==> name@ == "evaluator"@,
        r is Reinforcement <==> name@ == "reinforcement"@,
        r is Database <==> name@ == "database"@,
        r matches Tool::Unknown(answer) ==> answer@ == "no such tool: "@ + name@,
{
    proof {
        reveal_strlit("evolution");
        reveal_strlit("evaluator");
        reveal_strlit("reinforcement");
        reveal_strlit("database");
        assert("evolution"@[2] != "evaluator"@[2]);
        assert("evolution"@.len() != "reinforcement"@.len());
        assert("evolution"@.len() != "database"@.len());
    }
    if same(name, "evolution") {
        Tool::Evolution
    } else if same(name, "evaluator") {
        Tool::Evaluator
    } else if same(name, "reinforcement") {
        Tool::Reinforcement
    } else if same(name, "database") {
        Tool::Database
    } else {
        let mut out = "no such tool: ".to_owned();
        out.append(name);
        Tool::Unknown(out)
    }
}

/// What follows a turn of the model.
#[derive(Debug)]
pub enum SessionStep<'a> {
    /// Its calls are answered, and it is asked again.
    Answer(Vec<ToolUse<'a>>),
    /// The conversation is over, with this reply.
    Reply(String),
}

/// What follows a turn of the model: its calls are answered as long as it makes
/// any, and what it says when it makes none is its reply.
pub fn send<'a>(candidate: &'a Json) -> (r: SessionStep<'a>)
    ensures
        ({
            let parts = elements_of(member_of(candidate@.member("content"@), "parts"@));
            match r {
                SessionStep::Answer(uses) => {
                    &&& uses@.len() > 0
                    &&& use_views(uses@) == uses_in(parts)
                },
                SessionStep::Reply(s) => uses_in(parts).len() == 0 && s@ == said_in(parts),
            }
        }),
{
    match candidate.get("content") {
        Some(content) => {
            let turn = read_turn(content);
            assert(use_views(turn.uses@).len() == turn.uses@.len());
            if turn.uses.len() > 0 {
                SessionStep::Answer(turn.uses)
            } else {
                SessionStep::Reply(turn.text)
            }
        },
        None => {
            let out = String::new();
            assert(out@ =~= Seq::<char>::empty());
            SessionStep::Reply(out)
        },
    }
}

/// An agent is told its name, and the algorithm wherever it is told what to do
/// with it.
pub proof fn instructions_name_agent_and_algorithm(name: Seq<char>, algorithm: Seq<char>)
    ensures
        in_order(
            instruction_text(name, algorithm),
            seq![name, algorithm, algorithm, algorithm],
        ),
{
    let mut t = "You are "@;
    let mut p = Seq::<Seq<char>>::empty();
    show_part(t, p, name);
    t = t + name;
    p = p.push(name);
    show_gap(t, p, ", one of several competing agents in an evolutionary code-improvement system, currently assigned to optimize the '"@);
    t = t + ", one of several competing agents in an evolutionary code-improvement system, currently assigned to optimize the '"@;
    show_part(t, p, algorithm);
    t = t + algorithm;
    p = p.push(algorithm);
    show_gap(t, p, "' algorithm. You must actually IMPROVE code by calling your tools — do not just describe what you would do; call the functions.\n\nYour tools and the order they're normally used in:\n1. database — read existing code, training data, or test data (action: 'read'), or write new code/data (action: 'write'). Use this first to check what already exists, and to seed training/test data or a baseline implementation for '"@);
    t = t + "' algorithm. You must actually IMPROVE code by calling your tools — do not just describe what you would do; call the functions.\n\nYour tools and the order they're normally used in:\n1. database — read existing code, training data, or test data (action: 'read'), or write new code/data (action: 'write'). Use this first to check what already exists, and to seed training/test data or a baseline implementation for '"@;
    show_part(t, p, algorithm);
    t = t + algorithm;
    p = p.push(algorithm);
    show_gap(t, p, "' if none exists yet.\n2. evolution — generates and scores candidate implementations of '"@);
    t = t + "' if none exists yet.\n2. evolution — generates and scores candidate implementations of '"@;
    show_part(t, p, algorithm);
    t = t + algorithm;
    p = p.push(algorithm);
    show_gap(t, p, "' seeded from the database, and writes the best one back. Call this to produce an improved candidate.\n3. evaluator — actually runs your evolved candidate against real training/test data and scores its performance and novelty against the baseline and other agents' candidates.\n4. reinforcement — fetches your reward and rank position after evaluation, as feedback on how you're doing relative to the other agents.\n\nCall these tools whenever the task calls for producing, testing, or comparing code — do not simply answer in prose when a tool call would make real progress on the task."@);
    t = t + "' seeded from the database, and writes the best one back. Call this to produce an improved candidate.\n3. evaluator — actually runs your evolved candidate against real training/test data and scores its performance and novelty against the baseline and other agents' candidates.\n4. reinforcement — fetches your reward and rank position after evaluation, as feedback on how you're doing relative to the other agents.\n\nCall these tools whenever the task calls for producing, testing, or comparing code — do not simply answer in prose when a tool call would make real progress on the task."@;
    assert(t == instruction_text(name, algorithm));
    assert(p =~= seq![name, algorithm, algorithm, algorithm]);
}

/// A reply with a candidate is taken. Without one the request is repeated where the
/// quota is exhausted and fewer than five retries were made, after the delay that
/// the reply asks for; it is given up in all other cases.
pub proof fn steps_follow_candidate_and_quota(reply: Tree, candidates: Seq<Tree>, attempt: u32)
    ensures
        reply.member("candidates"@) == Some(Tree::List(candidates)) && candidates.len() > 0
            && candidates[0] is Object ==> step_verdict(reply, attempt)
            == StepVerdictView::Candidate(candidates[0]),
        reply.member("candidates"@) is None || (reply.member("candidates"@) == Some(
            Tree::List(candidates),
        ) && (candidates.len() == 0 || candidates[0] !is Object)) ==> {
            &&& error_status(reply) == "RESOURCE_EXHAUSTED"@ && attempt < 5 ==> step_verdict(
                reply,
                attempt,
            ) == StepVerdictView::Retry { asked: delay_asked(reply) }
            &&& error_status(reply) != "RESOURCE_EXHAUSTED"@ || attempt >= 5 ==> step_verdict(
                reply,
                attempt,
            ) is Failed
        },
{
}

/// The model of a verdict is what it holds.
pub proof fn verdicts_are_what_they_hold(j: &Json, asked: Option<String>)
    ensures
        StepVerdict::Candidate(j)@ == StepVerdictView::Candidate(j@),
        (StepVerdict::Retry { asked })@ == (StepVerdictView::Retry { asked: option_view(asked) }),
        StepVerdict::Failed@ is Failed,
{
}

} // verus!
