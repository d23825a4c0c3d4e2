//! Talking to the model: what to retry, when to ask again, what a reply says.

use vstd::arithmetic::power2::{
    lemma2_to64, lemma_pow2_strictly_increases, lemma_pow2_unfold, pow2,
};
use vstd::prelude::*;
use vstd::string::*;

use crate::config::GeminiConfig;
use crate::digits::{decimal, write_decimal};
use crate::json::{
    element_of, elements_of, field, items, member_of, nth, option_tree, option_view, parse_json,
    text, text_of, text_tree, trees, Json, Tree,
};
use crate::text::{
    drop_class, drop_trailing, in_order, is_blank, is_blank_text, lemma_whole, same, show_gap,
    show_part, CharClass,
};

verus! {

/// `s`, or its first `max` characters and an ellipsis where it is longer.
pub open spec fn truncated(s: Seq<char>, max: nat) -> Seq<char> {
    if s.len() <= max {
        s
    } else {
        s.take(max as int) + "..."@
    }
}

/// A truncated text is what it was, where that is short enough; else it begins as
/// it did and is three characters longer than allowed, which are an ellipsis.
pub proof fn truncation_keeps_beginning(s: Seq<char>, max: nat)
    ensures
        s.len() <= max ==> truncated(s, max) == s,
        s.len() > max ==> {
            &&& truncated(s, max).len() == max + 3
            &&& truncated(s, max).take(max as int) == s.take(max as int)
            &&& truncated(s, max).skip(max as int) == seq!['.', '.', '.']
        },
{
    reveal_strlit("...");
    if s.len() > max {
        assert(truncated(s, max).take(max as int) =~= s.take(max as int));
        assert(truncated(s, max).skip(max as int) =~= seq!['.', '.', '.']);
    }
}

/// Cuts `s` down to its first `max_chars` characters, marked by an ellipsis.
pub fn truncate(s: &str, max_chars: usize) -> (r: String)
    ensures
        r@ == truncated(s@, max_chars as nat),
{
    if s.unicode_len() <= max_chars {
        s.to_owned()
    } else {
        let mut out = s.substring_char(0, max_chars).to_owned();
        out.append("...");
        out
    }
}

/// Where the models are called.
pub const API_URL: &'static str = "https://generativelanguage.googleapis.com/v1beta/models";

/// Where a model is called.
pub open spec fn model_url(model: Seq<char>) -> Seq<char> {
    API_URL@ + "/"@ + model + ":generateContent"@
}

/// Where a model is called.
pub fn request_url(model: &str) -> (r: String)
    ensures
        r@ == model_url(model@),
{
    let mut out = API_URL.to_owned();
    out.append("/");
    out.append(model);
    out.append(":generateContent");
    out
}

/// What every call waits at: when the next one may start, in nanoseconds
/// from some fixed moment on.
#[derive(Clone, Copy, Debug, PartialEq, Eq, Structural)]
pub struct Gate {
    pub next: u64,
}

impl Gate {
    /// When a call that arrives at `now` starts: at once, or when its turn has
    /// come.
    pub open spec fn start(self, now: u64) -> u64 {
        if self.next > now {
            self.next
        } else {
            now
        }
    }

    /// Takes a turn. The next call starts an interval later at the earliest.
    pub fn wait_turn(&mut self, now: u64, interval: u64) -> (r: u64)
        requires
            old(self).start(now) + interval <= u64::MAX,
        ensures
            r == old(self).start(now),
            final(self).next == r + interval,
    {
        let at: u64 = if self.next > now {
            self.next
        } else {
            now
        };
        self.next = at + interval;
        at
    }
}

/// What `gate` is once calls that arrive at these moments took their turns, one
/// after the other.
pub open spec fn gate_after(gate: Gate, arrivals: Seq<u64>, interval: u64) -> Gate
    decreases arrivals.len(),
{
    if arrivals.len() == 0 {
        gate
    } else {
        let at = gate_after(gate, arrivals.drop_last(), interval).start(arrivals.last());
        Gate { next: (at + interval) as u64 }
    }
}

/// When the call at position `i` starts.
pub open spec fn start_time(gate: Gate, arrivals: Seq<u64>, interval: u64, i: int) -> u64 {
    gate_after(gate, arrivals.take(i), interval).start(arrivals[i])
}

/// Requests start at least an interval apart, in the order that they take their
/// turns in, and never before they arrive.
pub proof fn starts_are_an_interval_apart(
    gate: Gate,
    arrivals: Seq<u64>,
    interval: u64,
    i: int,
    j: int,
)
    requires
        0 <= i < j < arrivals.len(),
        forall|k: int|
            0 <= k < arrivals.len() ==> #[trigger] start_time(gate, arrivals, interval, k)
                + interval <= u64::MAX,
    ensures
        start_time(gate, arrivals, interval, i) + interval <= start_time(
            gate,
            arrivals,
            interval,
            j,
        ),
        start_time(gate, arrivals, interval, j) >= arrivals[j],
    decreases j,
{
    assert(arrivals.take(j).drop_last() =~= arrivals.take(j - 1));
    assert(arrivals.take(j).last() == arrivals[j - 1]);
    assert(start_time(gate, arrivals, interval, j - 1) + interval <= u64::MAX);
    if i < j - 1 {
        starts_are_an_interval_apart(gate, arrivals, interval, i, j - 1);
    }
}

/// The first candidate that a reply holds.
pub open spec fn first_candidate_of(reply: Tree) -> Option<Tree> {
    element_of(reply.member("candidates"@), 0)
}

/// What the first candidate of a reply says, where it says anything.
pub open spec fn content_of(reply: Tree) -> Option<Tree> {
    match member_of(first_candidate_of(reply), "content"@) {
        Some(t) => if t is Object {
            Some(t)
        } else {
            None
        },
        None => None,
    }
}

/// The status of the error that a reply reports; empty where it reports none.
pub open spec fn error_status(reply: Tree) -> Seq<char> {
    match text_of(member_of(reply.member("error"@), "status"@)) {
        Some(s) => s,
        None => Seq::empty(),
    }
}

/// Whether a request is worth repeating: it did not get through, there were too
/// many, the server failed, or it says that it is exhausted or unavailable.
pub open spec fn worth_retrying(http_code: u16, status: Seq<char>) -> bool {
    http_code == 0 || http_code == 429 || http_code >= 500 || status == "RESOURCE_EXHAUSTED"@
        || status == "UNAVAILABLE"@
}

/// The type of the detail that says when to try again.
pub const RETRY_INFO: &'static str = "type.googleapis.com/google.rpc.RetryInfo";

/// The first detail that says when to try again.
pub open spec fn retry_info(details: Seq<Tree>, i: int) -> Option<Tree>
    decreases details.len() - i,
{
    if i < 0 || i >= details.len() {
        None
    } else if details[i].text_member("@type"@) == Some(RETRY_INFO@) {
        Some(details[i])
    } else {
        retry_info(details, i + 1)
    }
}

/// The delay that a reply asks for, in seconds, as it is written.
pub open spec fn delay_asked(reply: Tree) -> Option<Seq<char>> {
    let details = elements_of(member_of(reply.member("error"@), "details"@));
    match text_of(member_of(retry_info(details, 0), "retryDelay"@)) {
        Some(s) => Some(drop_class(s, CharClass::SecondsUnit)),
        None => None,
    }
}

/// What went wrong, in short.
pub open spec fn reason_text(http_code: u16, reply: Tree, raw: Seq<char>) -> Seq<char> {
    match text_of(member_of(reply.member("error"@), "message"@)) {
        Some(message) => "HTTP "@ + decimal(http_code as nat) + " "@ + error_status(reply) + ": "@
            + truncated(message, 200),
        None => "HTTP "@ + decimal(http_code as nat) + ": "@ + truncated(raw, 200),
    }
}

/// The error that a request that is not repeated ends with.
pub open spec fn failure_text(http_code: u16, reply: Tree, raw: Seq<char>) -> Seq<char> {
    match text_of(member_of(reply.member("promptFeedback"@), "blockReason"@)) {
        Some(reason) => "prompt blocked by Gemini: "@ + reason,
        None => match text_of(member_of(first_candidate_of(reply), "finishReason"@)) {
            Some(reason) => "Gemini returned an empty candidate (finishReason="@ + reason + ")"@,
            None => "Gemini request failed: "@ + reason_text(http_code, reply, raw),
        },
    }
}

/// How long to wait after a failed attempt where the reply asks for no delay,
/// in seconds: twice as long after every attempt, a minute at most.
pub open spec fn backoff(attempt: nat) -> nat {
    if 2 * pow2(attempt) < 60 {
        2 * pow2(attempt)
    } else {
        60
    }
}

/// How long to wait after a failed attempt, in seconds.
pub fn backoff_seconds(attempt: u32) -> (r: u64)
    ensures
        r == backoff(attempt as nat),
{
    proof {
        lemma2_to64();
        if attempt > 5 {
            lemma_pow2_strictly_increases(5, attempt as nat);
        }
    }
    if attempt == 0 {
        2
    } else if attempt == 1 {
        4
    } else if attempt == 2 {
        8
    } else if attempt == 3 {
        16
    } else if attempt == 4 {
        32
    } else {
        60
    }
}

/// What to do about a reply.
#[derive(Debug)]
pub enum Verdict<'a> {
    /// It has content.
    Content(&'a Json),
    /// Try again, after the delay that it asks for, or after the seconds given
    /// where it asks for none.
    Retry { asked: Option<String>, otherwise: u64, reason: String },
    /// Give up with this error.
    Failed(String),
}

/// The mathematical model of a verdict.
pub enum VerdictView {
    Content(Tree),
    Retry { asked: Option<Seq<char>>, otherwise: nat, reason: Seq<char> },
    Failed(Seq<char>),
}

impl<'a> View for Verdict<'a> {
    type V = VerdictView;

    open spec fn view(&self) -> VerdictView {
        match self {
            Verdict::Content(j) => VerdictView::Content(j@),
            Verdict::Retry { asked, otherwise, reason } => VerdictView::Retry {
                asked: option_view(*asked),
                otherwise: *otherwise as nat,
                reason: reason@,
            },
            Verdict::Failed(e) => VerdictView::Failed(e@),
        }
    }
}

/// What to do about the reply to attempt number `attempt`, counted from zero.
pub open spec fn verdict(
    http_code: u16,
    reply: Tree,
    raw: Seq<char>,
    attempt: u32,
    max_retries: u32,
) -> VerdictView {
    match content_of(reply) {
        Some(content) => VerdictView::Content(content),
        None => if worth_retrying(http_code, error_status(reply)) && attempt < max_retries {
            VerdictView::Retry {
                asked: delay_asked(reply),
                otherwise: backoff(attempt as nat),
                reason: reason_text(http_code, reply, raw),
            }
        } else {
            VerdictView::Failed(failure_text(http_code, reply, raw))
        },
    }
}

/// A request is repeated as long as retries are left, where there were too many
/// requests; and where none are left, no request is.
pub proof fn rate_limits_are_retried(reply: Tree, raw: Seq<char>, attempt: u32, max_retries: u32)
    requires
        content_of(reply) is None,
    ensures
        verdict(429, reply, raw, attempt, max_retries) is Retry <==> attempt < max_retries,
        forall|code: u16|
            attempt >= max_retries ==> #[trigger] verdict(
                code,
                reply,
                raw,
                attempt,
                max_retries,
            ) is Failed,
{
}

/// A reply as it came: the code, what the text holds, and the text.
pub struct Reply {
    pub http_code: u16,
    pub tree: Tree,
    pub raw: Seq<char>,
}

/// What to do about the reply to attempt number `attempt`, where these are the
/// replies to the attempts.
pub open spec fn verdict_at(replies: Seq<Reply>, attempt: u32, max_retries: u32) -> VerdictView {
    let reply = replies[attempt as int];
    verdict(reply.http_code, reply.tree, reply.raw, attempt, max_retries)
}

/// The attempt that is not repeated, where `attempt` is made and these are the
/// replies to the attempts.
pub open spec fn last_attempt(replies: Seq<Reply>, attempt: u32, max_retries: u32) -> u32
    decreases max_retries - attempt,
{
    if attempt < max_retries && verdict_at(replies, attempt, max_retries) is Retry {
        last_attempt(replies, (attempt + 1) as u32, max_retries)
    } else {
        attempt
    }
}

proof fn lemma_last_attempt(replies: Seq<Reply>, attempt: u32, max_retries: u32)
    requires
        attempt <= max_retries,
    ensures
        ({
            let last = last_attempt(replies, attempt, max_retries);
            &&& attempt <= last <= max_retries
            &&& verdict_at(replies, last, max_retries) !is Retry
            &&& forall|k: u32|
                attempt <= k < last ==> #[trigger] verdict_at(replies, k, max_retries) is Retry
        }),
    decreases max_retries - attempt,
{
    if attempt < max_retries && verdict_at(replies, attempt, max_retries) is Retry {
        lemma_last_attempt(replies, (attempt + 1) as u32, max_retries);
    }
}

/// Whatever the replies are, a request is repeated `max_retries` times at most,
/// and no further than its first reply that has content or is not worth a retry.
/// It is given up on a reply that is worth one only where no retry is left.
pub proof fn retries_are_bounded(replies: Seq<Reply>, max_retries: u32)
    requires
        replies.len() > max_retries,
    ensures
        ({
            let last = last_attempt(replies, 0, max_retries);
            let end = replies[last as int];
            &&& last <= max_retries
            &&& forall|k: int|
                0 <= k < last ==> content_of((#[trigger] replies[k]).tree) is None
                    && worth_retrying(replies[k].http_code, error_status(replies[k].tree))
            &&& verdict_at(replies, last, max_retries) is Content <==> content_of(end.tree) is Some
            &&& verdict_at(replies, last, max_retries) is Failed <==> content_of(end.tree) is None
            &&& content_of(end.tree) is None && worth_retrying(
                end.http_code,
                error_status(end.tree),
            ) ==> last == max_retries
        }),
{
    lemma_last_attempt(replies, 0, max_retries);
    let last = last_attempt(replies, 0, max_retries);
    assert forall|k: int| 0 <= k < last implies content_of((#[trigger] replies[k]).tree) is None
        && worth_retrying(replies[k].http_code, error_status(replies[k].tree)) by {
        assert(verdict_at(replies, k as u32, max_retries) is Retry);
    }
}

/// What the text of a reply holds; nothing where it is no JSON.
pub open spec fn reply_tree(raw: Seq<char>) -> Tree {
    match text_tree(raw) {
        Some(t) => t,
        None => Tree::Null,
    }
}

/// Reads the text of a reply.
pub fn read_reply(raw: &str) -> (r: Json)
    ensures
        r@ == reply_tree(raw@),
{
    match parse_json(raw) {
        Some(j) => j,
        None => Json::Null,
    }
}

fn first_candidate<'a>(reply: &'a Json) -> (r: Option<&'a Json>)
    ensures
        option_tree(r) == first_candidate_of(reply@),
{
    nth(reply.get("candidates"), 0)
}

fn status_of<'a>(reply: &'a Json) -> (r: &'a str)
    ensures
        r@ == error_status(reply@),
{
    match text(field(reply.get("error"), "status")) {
        Some(s) => s,
        None => {
            let r = "";
            proof {
                reveal_strlit("");
            }
            assert(r@ =~= Seq::<char>::empty());
            r
        },
    }
}

/// The delay that a reply asks for, in seconds, as it is written.
pub fn retry_delay(reply: &Json) -> (r: Option<String>)
    ensures
        option_view(r) == delay_asked(reply@),
{
    let details = items(field(reply.get("error"), "details"));
    let ghost all = trees(details@);
    let mut i: usize = 0;
    while i < details.len()
        invariant
            all == trees(details@),
            i <= details@.len(),
            delay_asked(reply@) == (match text_of(member_of(retry_info(all, i as int), "retryDelay"@)) {
                Some(s) => Some(drop_class(s, CharClass::SecondsUnit)),
                None => None,
            }),
        decreases details.len() - i,
    {
        assert(all[i as int] == details@[i as int]@);
        if let Some(kind) = details[i].text_field("@type") {
            if same(kind, RETRY_INFO) {
                return match details[i].text_field("retryDelay") {
                    Some(s) => Some(drop_trailing(s, CharClass::SecondsUnit).to_owned()),
                    None => None,
                };
            }
        }
        i += 1;
    }
    None
}

/// What went wrong, in short.
pub fn short_reason(http_code: u16, reply: &Json, raw: &str) -> (r: String)
    ensures
        r@ == reason_text(http_code, reply@, raw@),
{
    let mut out = "HTTP ".to_owned();
    out.append(write_decimal(http_code as u64).as_str());
    match text(field(reply.get("error"), "message")) {
        Some(message) => {
            out.append(" ");
            out.append(status_of(reply));
            out.append(": ");
            out.append(truncate(message, 200).as_str());
        },
        None => {
            out.append(": ");
            out.append(truncate(raw, 200).as_str());
        },
    }
    out
}

fn failure(http_code: u16, reply: &Json, raw: &str) -> (r: String)
    ensures
        r@ == failure_text(http_code, reply@, raw@),
{
    if let Some(reason) = text(field(reply.get("promptFeedback"), "blockReason")) {
        let mut out = "prompt blocked by Gemini: ".to_owned();
        out.append(reason);
        return out;
    }
    if let Some(reason) = text(field(first_candidate(reply), "finishReason")) {
        let mut out = "Gemini returned an empty candidate (finishReason=".to_owned();
        out.append(reason);
        out.append(")");
        return out;
    }
    let mut out = "Gemini request failed: ".to_owned();
    out.append(short_reason(http_code, reply, raw).as_str());
    out
}

/// Decides what to do about the reply to attempt number `attempt`, counted from
/// zero. A request that did not get through has the code zero.
fn judge<'a>(
    http_code: u16,
    reply: &'a Json,
    raw: &str,
    attempt: u32,
    max_retries: u32,
) -> (r: Verdict<'a>)
    ensures
        r@ == verdict(http_code, reply@, raw@, attempt, max_retries),
{
    let content = field(first_candidate(reply), "content");
    if let Some(c) = content {
        if let Json::Object(_) = c {
            return Verdict::Content(c);
        }
    }
    assert(content_of(reply@) is None);
    let status = status_of(reply);
    let retryable = http_code == 0 || http_code == 429 || http_code >= 500 || same(
        status,
        "RESOURCE_EXHAUSTED",
    ) || same(status, "UNAVAILABLE");
    if retryable && attempt < max_retries {
        return Verdict::Retry {
            asked: retry_delay(reply),
            otherwise: backoff_seconds(attempt),
            reason: short_reason(http_code, reply, raw),
        };
    }
    Verdict::Failed(failure(http_code, reply, raw))
}

/// The texts in some parts, one behind the other. Parts without a text are
/// passed over.
pub open spec fn texts_in(parts: Seq<Tree>) -> Seq<char>
    decreases parts.len(),
{
    if parts.len() == 0 {
        Seq::empty()
    } else {
        texts_in(parts.drop_last()) + match parts.last().text_member("text"@) {
            Some(s) => s,
            None => Seq::empty(),
        }
    }
}

/// Collects the text that a content says.
pub fn collect_text(content: &Json) -> (r: String)
    ensures
        r@ == texts_in(elements_of(content@.member("parts"@))),
{
    let parts = items(content.get("parts"));
    let ghost all = trees(parts@);
    let mut out = String::new();
    let mut i: usize = 0;
    assert(out@ =~= texts_in(all.take(0)));
    while i < parts.len()
        invariant
            all == trees(parts@),
            i <= parts@.len(),
            out@ == texts_in(all.take(i as int)),
        decreases parts.len() - i,
    {
        assert(all.take(i + 1).drop_last() =~= all.take(i as int));
        assert(all.take(i + 1).last() == parts@[i as int]@);
        let ghost before = out@;
        if let Some(s) = parts[i].text_field("text") {
            out.append(s);
        }
        assert(out@ =~= before + match all[i as int].text_member("text"@) {
            Some(s) => s,
            None => Seq::empty(),
        });
        i += 1;
    }
    assert(all.take(all.len() as int) =~= all);
    out
}

/// The state of a client: whose turn it is, and how many calls it made. One
/// client is shared by everything that calls a model.
#[derive(Debug)]
pub struct GeminiClient {
    pub max_retries: u32,
    pub gate: Gate,
    pub calls: usize,
}

impl GeminiClient {
    /// A client that has made no call yet.
    pub fn new(cfg: &GeminiConfig) -> (r: GeminiClient)
        ensures
            r.max_retries == cfg.max_retries,
            r.gate.next == 0,
            r.calls == 0,
    {
        GeminiClient { max_retries: cfg.max_retries, gate: Gate { next: 0 }, calls: 0 }
    }

    /// How many calls were made, retries among them.
    pub fn calls(&self) -> (r: usize)
        ensures
            r == self.calls,
    {
        self.calls
    }

    /// Counts a call.
    pub fn count_call(&mut self)
        requires
            old(self).calls < usize::MAX,
        ensures
            final(self).calls == old(self).calls + 1,
            final(self).gate == old(self).gate,
            final(self).max_retries == old(self).max_retries,
    {
        self.calls = self.calls + 1;
    }

    /// Takes a turn for a call that arrives at `now`: when it starts.
    pub fn wait_turn(&mut self, now: u64, interval: u64) -> (r: u64)
        requires
            old(self).gate.start(now) + interval <= u64::MAX,
        ensures
            r == old(self).gate.start(now),
            final(self).gate.next == r + interval,
            final(self).calls == old(self).calls,
            final(self).max_retries == old(self).max_retries,
    {
        self.gate.wait_turn(now, interval)
    }

    /// Decides what to do about the reply to attempt number `attempt`, counted
    /// from zero.
    pub fn generate<'a>(&self, http_code: u16, reply: &'a Json, raw: &str, attempt: u32) -> (r:
        Verdict<'a>)
        ensures
            r@ == verdict(http_code, reply@, raw@, attempt, self.max_retries),
    {
        judge(http_code, reply, raw, attempt, self.max_retries)
    }

    /// The text that a content says, which may not be blank.
    pub fn generate_text(content: &Json) -> (r: Result<String, &'static str>)
        ensures
            ({
                let t = texts_in(elements_of(content@.member("parts"@)));
                match r {
                    Ok(s) => s@ == t && !is_blank_text(t),
                    Err(e) => is_blank_text(t) && e@ == "Gemini returned no text"@,
                }
            }),
    {
        let s = collect_text(content);
        if is_blank(s.as_str()) {
            Err("Gemini returned no text")
        } else {
            Ok(s)
        }
    }
}

/// A model is called at the common address, by its name.
pub proof fn models_are_called_by_name(model: Seq<char>)
    ensures
        in_order(model_url(model), seq![API_URL@, "/"@, model, ":generateContent"@]),
        model_url(model).len() == API_URL@.len() + 1 + model.len() + 16,
{
    reveal_strlit("/");
    reveal_strlit(":generateContent");
    let mut t = API_URL@;
    lemma_whole(API_URL@);
    let mut p = seq![API_URL@];
    show_part(t, p, "/"@);
    t = t + "/"@;
    p = p.push("/"@);
    show_part(t, p, model);
    t = t + model;
    p = p.push(model);
    show_part(t, p, ":generateContent"@);
    t = t + ":generateContent"@;
    p = p.push(":generateContent"@);
    assert(t == model_url(model));
    assert(p =~= seq![API_URL@, "/"@, model, ":generateContent"@]);
}

/// A call starts when it arrives or when its turn has come, whichever is later.
pub proof fn calls_wait_for_their_turn(gate: Gate, now: u64)
    ensures
        gate.start(now) >= now,
        gate.start(now) >= gate.next,
        gate.start(now) == now || gate.start(now) == gate.next,
{
}

/// A request is worth repeating where it did not get through, where there were too
/// many, where the server failed, and where the server says that it is exhausted
/// or unavailable; a request that was refused is not.
pub proof fn passing_failures_are_worth_retrying(http_code: u16, status: Seq<char>)
    ensures
        worth_retrying(0, status),
        worth_retrying(429, status),
        http_code >= 500 ==> worth_retrying(http_code, status),
        worth_retrying(http_code, "RESOURCE_EXHAUSTED"@),
        worth_retrying(http_code, "UNAVAILABLE"@),
        1 <= http_code < 500 && http_code != 429 && status != "RESOURCE_EXHAUSTED"@ && status
            != "UNAVAILABLE"@ ==> !worth_retrying(http_code, status),
{
}

/// The content of a reply is that of its first candidate, where it is an object;
/// a reply without a candidate has none.
pub proof fn content_is_of_the_first_candidate(reply: Tree, candidates: Seq<Tree>)
    ensures
        reply.member("candidates"@) == Some(Tree::List(candidates)) && candidates.len() > 0 ==> {
            match candidates[0].member("content"@) {
                Some(Tree::Object(fields)) => content_of(reply) == Some(Tree::Object(fields)),
                _ => content_of(reply) is None,
            }
        },
        reply.member("candidates"@) == Some(Tree::List(candidates)) && candidates.len() == 0
            ==> content_of(reply) is None,
        reply.member("candidates"@) is None ==> content_of(reply) is None,
{
}

/// The status of a reply is the text that its error gives; a reply that reports
/// no error, or no status, has an empty one.
pub proof fn status_is_that_of_the_error(reply: Tree)
    ensures
        match reply.member("error"@) {
            Some(e) => match e.member("status"@) {
                Some(Tree::Text(s)) => error_status(reply) == s,
                _ => error_status(reply).len() == 0,
            },
            None => error_status(reply).len() == 0,
        },
{
}

proof fn lemma_retry_info(details: Seq<Tree>, i: int, k: int)
    requires
        0 <= i <= k <= details.len(),
        forall|j: int|
            i <= j < k ==> (#[trigger] details[j]).text_member("@type"@) != Some(RETRY_INFO@),
    ensures
        k < details.len() && details[k].text_member("@type"@) == Some(RETRY_INFO@) ==> retry_info(
            details,
            i,
        ) == Some(details[k]),
        k == details.len() ==> retry_info(details, i) is None,
    decreases k - i,
{
    if i < k {
        lemma_retry_info(details, i + 1, k);
    }
}

/// The delay that a reply asks for is what the first of the details on retries
/// says, without the unit; where no detail is on retries, it asks for none.
pub proof fn delay_is_that_of_the_retry_detail(
    reply: Tree,
    error: Tree,
    details: Seq<Tree>,
    k: int,
    number: Seq<char>,
)
    requires
        reply.member("error"@) == Some(error),
        error.member("details"@) == Some(Tree::List(details)),
        0 <= k <= details.len(),
        forall|j: int|
            0 <= j < k ==> (#[trigger] details[j]).text_member("@type"@) != Some(RETRY_INFO@),
        number.len() > 0 ==> number.last() != 's',
    ensures
        k < details.len() && details[k].text_member("@type"@) == Some(RETRY_INFO@) ==> {
            &&& details[k].member("retryDelay"@) == Some(Tree::Text(number + seq!['s']))
                ==> delay_asked(reply) == Some(number)
            &&& details[k].member("retryDelay"@) == Some(Tree::Text(number)) ==> delay_asked(reply)
                == Some(number)
            &&& details[k].member("retryDelay"@) is None ==> delay_asked(reply) is None
        },
        k == details.len() ==> delay_asked(reply) is None,
{
    lemma_retry_info(details, 0, k);
    assert((number + seq!['s']).drop_last() =~= number);
    assert(drop_class(number, CharClass::SecondsUnit) == number);
    assert(drop_class(number + seq!['s'], CharClass::SecondsUnit) == number);
}

/// What went wrong is told by the code, and then by the status and the message of
/// the reply where it has a message, or else by the reply as it came.
pub proof fn reasons_tell_code_and_message(http_code: u16, reply: Tree, raw: Seq<char>)
    ensures
        match text_of(member_of(reply.member("error"@), "message"@)) {
            Some(message) => in_order(
                reason_text(http_code, reply, raw),
                seq![
                    "HTTP "@,
                    decimal(http_code as nat),
                    error_status(reply),
                    truncated(message, 200),
                ],
            ),
            None => in_order(
                reason_text(http_code, reply, raw),
                seq!["HTTP "@, decimal(http_code as nat), truncated(raw, 200)],
            ),
        },
{
    let code = decimal(http_code as nat);
    match text_of(member_of(reply.member("error"@), "message"@)) {
        Some(message) => {
            let status = error_status(reply);
            let short = truncated(message, 200);
            let mut t = "HTTP "@;
            lemma_whole("HTTP "@);
            let mut p = seq!["HTTP "@];
            show_part(t, p, code);
            t = t + code;
            p = p.push(code);
            show_gap(t, p, " "@);
            t = t + " "@;
            show_part(t, p, status);
            t = t + status;
            p = p.push(status);
            show_gap(t, p, ": "@);
            t = t + ": "@;
            show_part(t, p, short);
            t = t + short;
            p = p.push(short);
            assert(t == reason_text(http_code, reply, raw));
            assert(p =~= seq!["HTTP "@, code, status, short]);
        },
        None => {
            let short = truncated(raw, 200);
            let mut t = "HTTP "@;
            lemma_whole("HTTP "@);
            let mut p = seq!["HTTP "@];
            show_part(t, p, code);
            t = t + code;
            p = p.push(code);
            show_gap(t, p, ": "@);
            t = t + ": "@;
            show_part(t, p, short);
            t = t + short;
            p = p.push(short);
            assert(t == reason_text(http_code, reply, raw));
            assert(p =~= seq!["HTTP "@, code, short]);
        },
    }
}

/// A request that is given up tells why the prompt was blocked where it was, else
/// why the candidate is empty where there is one, and else what went wrong.
pub proof fn failures_tell_the_reason(http_code: u16, reply: Tree, raw: Seq<char>)
    ensures
        match (
            text_of(member_of(reply.member("promptFeedback"@), "blockReason"@)),
            text_of(member_of(first_candidate_of(reply), "finishReason"@)),
        ) {
            (Some(blocked), _) => in_order(
                failure_text(http_code, reply, raw),
                seq!["prompt blocked by Gemini: "@, blocked],
            ),
            (None, Some(finish)) => in_order(
                failure_text(http_code, reply, raw),
                seq!["Gemini returned an empty candidate (finishReason="@, finish, ")"@],
            ),
            (None, None) => in_order(
                failure_text(http_code, reply, raw),
                seq!["Gemini request failed: "@, reason_text(http_code, reply, raw)],
            ),
        },
{
    match (
        text_of(member_of(reply.member("promptFeedback"@), "blockReason"@)),
        text_of(member_of(first_candidate_of(reply), "finishReason"@)),
    ) {
        (Some(blocked), _) => {
            let mut t = "prompt blocked by Gemini: "@;
            lemma_whole("prompt blocked by Gemini: "@);
            let mut p = seq!["prompt blocked by Gemini: "@];
            show_part(t, p, blocked);
            t = t + blocked;
            p = p.push(blocked);
            assert(p =~= seq!["prompt blocked by Gemini: "@, blocked]);
        },
        (None, Some(finish)) => {
            let mut t = "Gemini returned an empty candidate (finishReason="@;
            lemma_whole("Gemini returned an empty candidate (finishReason="@);
            let mut p = seq!["Gemini returned an empty candidate (finishReason="@];
            show_part(t, p, finish);
            t = t + finish;
            p = p.push(finish);
            show_part(t, p, ")"@);
            t = t + ")"@;
            p = p.push(")"@);
            assert(p =~= seq!["Gemini returned an empty candidate (finishReason="@, finish, ")"@]);
        },
        (None, None) => {
            let reason = reason_text(http_code, reply, raw);
            let mut t = "Gemini request failed: "@;
            lemma_whole("Gemini request failed: "@);
            let mut p = seq!["Gemini request failed: "@];
            show_part(t, p, reason);
            t = t + reason;
            p = p.push(reason);
            assert(p =~= seq!["Gemini request failed: "@, reason]);
        },
    }
}

/// The first wait is two seconds, every further one is twice as long, and none is
/// longer than a minute.
pub proof fn waits_double_up_to_a_minute(attempt: nat)
    ensures
        backoff(0) == 2,
        backoff(attempt) <= 60,
        backoff(attempt) <= 30 ==> backoff(attempt + 1) == 2 * backoff(attempt),
        backoff(attempt) > 30 ==> backoff(attempt + 1) == 60,
{
    lemma2_to64();
    lemma_pow2_unfold(attempt + 1);
}

/// A reply with content is taken. Without one a request is repeated where it is
/// worth that and a retry is left, after the delay that the reply asks for; it is
/// given up in all other cases.
pub proof fn verdicts_follow_content_and_retries(
    http_code: u16,
    reply: Tree,
    raw: Seq<char>,
    attempt: u32,
    max_retries: u32,
)
    ensures
        ({
            let v = verdict(http_code, reply, raw, attempt, max_retries);
            let again = worth_retrying(http_code, error_status(reply)) && attempt < max_retries;
            &&& content_of(reply) is Some ==> v == VerdictView::Content(content_of(reply)->0)
            &&& content_of(reply) is None && again ==> {
                &&& v is Retry
                &&& v->asked == delay_asked(reply)
                &&& v->otherwise == backoff(attempt as nat)
                &&& v->reason == reason_text(http_code, reply, raw)
            }
            &&& content_of(reply) is None && !again ==> v == VerdictView::Failed(
                failure_text(http_code, reply, raw),
            )
        }),
{
}

/// The texts of some parts stand one behind the other, in the order of the parts;
/// a part without a text adds nothing.
pub proof fn texts_stand_in_order(a: Seq<Tree>, b: Seq<Tree>, part: Tree)
    ensures
        texts_in(a + b) == texts_in(a) + texts_in(b),
        match part.member("text"@) {
            Some(Tree::Text(s)) => texts_in(seq![part]) == s,
            _ => texts_in(seq![part]).len() == 0,
        },
    decreases b.len(),
{
    if b.len() == 0 {
        assert(a + b =~= a);
        assert(texts_in(a) + texts_in(b) =~= texts_in(a));
    } else {
        assert((a + b).drop_last() =~= a + b.drop_last());
        texts_stand_in_order(a, b.drop_last(), part);
        assert(texts_in(a + b) =~= texts_in(a) + texts_in(b));
    }
    assert(seq![part].drop_last() =~= Seq::<Tree>::empty());
    assert(texts_in(seq![part].drop_last()) =~= Seq::<char>::empty());
    if let Some(Tree::Text(s)) = part.member("text"@) {
        assert(texts_in(seq![part]) =~= s);
    }
}

/// The model of a verdict is what it holds.
pub proof fn verdicts_are_what_they_hold(
    j: &Json,
    asked: Option<String>,
    otherwise: u64,
    reason: String,
)
    ensures
        Verdict::Content(j)@ == VerdictView::Content(j@),
        ({
            let v = Verdict::Retry { asked, otherwise, reason }@;
            &&& v is Retry
            &&& v->asked == option_view(asked)
            &&& v->otherwise == otherwise
            &&& v->reason == reason@
        }),
        Verdict::Failed(reason)@ == VerdictView::Failed(reason@),
{
}

/// A reply is what its text holds, and nothing where it is no JSON.
pub proof fn replies_are_read_as_json(raw: Seq<char>)
    ensures
        text_tree(raw) is Some ==> reply_tree(raw) == text_tree(raw)->0,
        text_tree(raw) is None ==> reply_tree(raw) == Tree::Null,
{
}

/// Models are called at the public address of the service, and what it says of
/// retries goes by the type that it gives.
pub proof fn service_is_called_by_its_names()
    ensures
        API_URL@ == "https://generativelanguage.googleapis.com/v1beta/models"@,
        RETRY_INFO@ == "type.googleapis.com/google.rpc.RetryInfo"@,
{
}

} // verus!
