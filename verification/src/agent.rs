//! One competing agent: what its model asks for in a round, what it is
//! answered, and when the round is over.

pub mod database;
pub mod evaluator;
pub mod evolution;
pub mod reinforcement;
pub mod session;

use vstd::prelude::*;
use vstd::string::*;

use crate::archive::{
    best_rival_of, first_of, owned, owned_option, ranked, selected, standing_views, standings_of,
    Archive, Candidate, FilterView, Standing, StandingView,
};
use crate::evolution::{operators_go_by_their_word, EvolveRequest, Operator};
use crate::gemini::{collect_text, texts_in, truncate, truncated};
use crate::harness::{extract_block, extracted};
use crate::json::{elements_of, items, option_str_view, option_tree, option_view, trees, Json, Tree};
use crate::text::{
    in_order, is_blank, is_blank_text, lemma_whole, same, show_part, string_views, trim, trimmed,
    trimmed_texts_keep_the_rest, white_space,
};

verus! {

/// A competing agent.
#[derive(Debug)]
pub struct Agent {
    pub name: String,
    /// Its notes from the previous round, the only memory it has.
    pub notes: String,
    pub tool_calls_total: usize,
}

/// What the model asks for in a turn.
#[derive(Debug)]
pub struct ToolUse<'a> {
    pub name: String,
    /// The arguments, where there are any.
    pub args: Option<&'a Json>,
}

/// The mathematical model of a tool use.
pub struct ToolUseView {
    pub name: Seq<char>,
    pub args: Option<Tree>,
}

impl<'a> View for ToolUse<'a> {
    type V = ToolUseView;

    open spec fn view(&self) -> ToolUseView {
        ToolUseView { name: self.name@, args: option_tree(self.args) }
    }
}

/// The models of some tool uses.
pub open spec fn use_views(v: Seq<ToolUse>) -> Seq<ToolUseView> {
    v.map_values(|u: ToolUse| u@)
}

/// What a turn of the model asks for and what it says.
#[derive(Debug)]
pub struct Turn<'a> {
    pub uses: Vec<ToolUse<'a>>,
    pub text: String,
}

/// What a call in a part asks for. A call without a name asks for nothing that
/// there is.
pub open spec fn use_in(call: Tree) -> ToolUseView {
    ToolUseView {
        name: match call.text_member("name"@) {
            Some(s) => s,
            None => Seq::empty(),
        },
        args: call.member("args"@),
    }
}

/// What some parts ask for, in order.
pub open spec fn uses_in(parts: Seq<Tree>) -> Seq<ToolUseView>
    decreases parts.len(),
{
    if parts.len() == 0 {
        Seq::empty()
    } else {
        let rest = uses_in(parts.drop_last());
        match parts.last().member("functionCall"@) {
            Some(call) => rest.push(use_in(call)),
            None => rest,
        }
    }
}

/// What some parts say besides asking for something.
pub open spec fn said_in(parts: Seq<Tree>) -> Seq<char>
    decreases parts.len(),
{
    if parts.len() == 0 {
        Seq::empty()
    } else {
        let rest = said_in(parts.drop_last());
        match parts.last().member("functionCall"@) {
            Some(_) => rest,
            None => match parts.last().text_member("text"@) {
                Some(s) => rest + s,
                None => rest,
            },
        }
    }
}

/// Reads a turn of the model.
pub fn read_turn<'a>(content: &'a Json) -> (r: Turn<'a>)
    ensures
        use_views(r.uses@) == uses_in(elements_of(content@.member("parts"@))),
        r.text@ == said_in(elements_of(content@.member("parts"@))),
{
    let parts = items(content.get("parts"));
    let ghost all = trees(parts@);
    let mut uses: Vec<ToolUse<'a>> = Vec::new();
    let mut text = String::new();
    let mut i: usize = 0;
    assert(use_views(uses@) =~= uses_in(all.take(0)));
    assert(text@ =~= said_in(all.take(0)));
    while i < parts.len()
        invariant
            all == trees(parts@),
            i <= parts@.len(),
            use_views(uses@) == uses_in(all.take(i as int)),
            text@ == said_in(all.take(i as int)),
        decreases parts.len() - i,
    {
        assert(all.take(i + 1).drop_last() =~= all.take(i as int));
        assert(all.take(i + 1).last() == parts@[i as int]@);
        let part: &'a Json = parts[i];
        match part.get("functionCall") {
            Some(call) => {
                let name = match call.owned_field("name") {
                    Some(s) => s,
                    None => String::new(),
                };
                assert(name@ =~= use_in(call@).name);
                let ghost before = use_views(uses@);
                uses.push(ToolUse { name, args: call.get("args") });
                assert(use_views(uses@) =~= before.push(use_in(call@)));
            },
            None => {
                if let Some(s) = part.text_field("text") {
                    text.append(s);
                }
            },
        }
        i += 1;
    }
    assert(all.take(all.len() as int) =~= all);
    Turn { uses, text }
}

/// How far an agent has come in a round.
#[derive(Debug)]
pub struct Round {
    /// How many tool calls it has.
    pub budget: usize,
    /// How many have been run.
    pub calls: usize,
    /// What it said last.
    pub last_text: String,
}

/// What follows a turn.
#[derive(Clone, Copy, Debug, PartialEq, Eq, Structural)]
pub enum TurnEnd {
    /// The model asked for nothing: the round is over.
    Finish,
    /// The model goes on, with the answers to its calls.
    Continue,
    /// The budget is spent: the model is asked for its notes, without tools.
    CollectNotes,
}

/// What is said in the answers from the last call of the budget on.
pub const BUDGET_NOTE: &'static str =
    "Budget spent. Reply now with your plain-text notes for the next round.";

/// What the answer to a call says of the budget.
#[derive(Debug)]
pub struct BudgetNote {
    pub remaining: usize,
    pub note: Option<&'static str>,
}

/// How many calls of a budget are left.
pub open spec fn calls_left(budget: usize, calls: usize) -> nat {
    if calls < budget {
        (budget - calls) as nat
    } else {
        0
    }
}

/// What follows a turn that asked for `made` calls, where `calls` were run in all.
pub open spec fn turn_end(budget: usize, calls: usize, made: nat) -> TurnEnd {
    if made == 0 {
        TurnEnd::Finish
    } else if calls >= budget {
        TurnEnd::CollectNotes
    } else {
        TurnEnd::Continue
    }
}

/// What was said last: the new text, unless it is blank.
pub open spec fn said_last(before: Seq<char>, text: Seq<char>) -> Seq<char> {
    if is_blank_text(text) {
        before
    } else {
        text
    }
}

/// How many of the calls that a turn asks for are run: as many as are left.
pub open spec fn taken(budget: usize, calls: usize, asked: nat) -> nat {
    if asked <= calls_left(budget, calls) {
        asked
    } else {
        calls_left(budget, calls)
    }
}

/// How many calls have been run in a round after turns that asked for this many
/// each.
pub open spec fn calls_after(budget: usize, asked: Seq<nat>) -> nat
    decreases asked.len(),
{
    if asked.len() == 0 {
        0
    } else {
        let before = calls_after(budget, asked.drop_last());
        before + taken(budget, before as usize, asked.last())
    }
}

/// No round runs more calls than its budget has, however many its turns ask for.
pub proof fn budget_bounds_calls(budget: usize, asked: Seq<nat>)
    ensures
        calls_after(budget, asked) <= budget,
    decreases asked.len(),
{
    if asked.len() > 0 {
        budget_bounds_calls(budget, asked.drop_last());
    }
}

/// A round goes on only after a turn that asked for a call and left some of the
/// budget: with every such turn less of it is left, and none is left over for
/// ever.
pub proof fn budget_bounds_round(budget: usize, before: usize, after: usize, asked: nat)
    requires
        after == before + taken(budget, before, asked),
        turn_end(budget, after, asked) == TurnEnd::Continue,
    ensures
        calls_left(budget, after) < calls_left(budget, before),
        calls_left(budget, after) > 0,
{
}

/// A round goes on after fewer turns than its budget has calls.
pub proof fn budget_bounds_turns(budget: usize, asked: Seq<nat>)
    requires
        asked.len() > 0,
        forall|i: int|
            0 <= i < asked.len() ==> turn_end(
                budget,
                calls_after(budget, #[trigger] asked.take(i + 1)) as usize,
                asked[i],
            ) == TurnEnd::Continue,
    ensures
        asked.len() <= calls_after(budget, asked) < budget,
    decreases asked.len(),
{
    let rest = asked.drop_last();
    budget_bounds_calls(budget, asked);
    budget_bounds_calls(budget, rest);
    assert(asked.take(asked.len() - 1 + 1) =~= asked);
    if rest.len() > 0 {
        assert forall|i: int| 0 <= i < rest.len() implies turn_end(
            budget,
            calls_after(budget, #[trigger] rest.take(i + 1)) as usize,
            rest[i],
        ) == TurnEnd::Continue by {
            assert(rest.take(i + 1) =~= asked.take(i + 1));
        }
        budget_bounds_turns(budget, rest);
    }
}

/// What is answered to a call that the budget does not cover.
pub const OVER_BUDGET: &'static str = "the tool call budget is spent; this call was not run";

impl Round {
    /// Whether no more calls have been made than there are.
    pub open spec fn wf(self) -> bool {
        self.calls <= self.budget
    }

    /// A round that begins.
    pub fn start(budget: usize) -> (r: Round)
        ensures
            r.wf(),
            r.budget == budget,
            r.calls == 0,
            r.last_text@ == Seq::<char>::empty(),
    {
        let last_text = String::new();
        assert(last_text@ =~= Seq::<char>::empty());
        Round { budget, calls: 0, last_text }
    }

    /// How many of the calls that a turn asks for are to be run. The others are
    /// answered with an error.
    pub fn take_calls(&self, asked: usize) -> (r: usize)
        ensures
            r == taken(self.budget, self.calls, asked as nat),
            self.wf() ==> self.calls + r <= self.budget,
    {
        let left: usize = if self.calls < self.budget {
            self.budget - self.calls
        } else {
            0
        };
        if asked <= left {
            asked
        } else {
            left
        }
    }

    /// What an answer tells of the budget.
    pub fn budget_note(&self) -> (r: BudgetNote)
        ensures
            r.remaining == calls_left(self.budget, self.calls),
            option_str_view(r.note) == if r.remaining == 0 {
                Some(BUDGET_NOTE@)
            } else {
                None
            },
    {
        let remaining: usize = if self.calls < self.budget {
            self.budget - self.calls
        } else {
            0
        };
        let note = if remaining == 0 {
            Some(BUDGET_NOTE)
        } else {
            None
        };
        BudgetNote { remaining, note }
    }

    /// What follows a turn that asked for `made` calls and said `text`.
    pub fn end_turn(&mut self, made: usize, text: String) -> (r: TurnEnd)
        ensures
            r == turn_end(old(self).budget, old(self).calls, made as nat),
            final(self).budget == old(self).budget,
            final(self).calls == old(self).calls,
            final(self).last_text@ == said_last(old(self).last_text@, text@),
    {
        if !is_blank(text.as_str()) {
            self.last_text = text;
        }
        if made == 0 {
            TurnEnd::Finish
        } else if self.calls >= self.budget {
            TurnEnd::CollectNotes
        } else {
            TurnEnd::Continue
        }
    }

    /// Takes the notes that the model was asked for.
    pub fn take_notes(&mut self, content: &Json)
        ensures
            final(self).budget == old(self).budget,
            final(self).calls == old(self).calls,
            final(self).last_text@ == said_last(
                old(self).last_text@,
                texts_in(elements_of(content@.member("parts"@))),
            ),
    {
        let t = collect_text(content);
        if !is_blank(t.as_str()) {
            self.last_text = t;
        }
    }
}

/// What happens in a round.
#[derive(Debug)]
pub enum RoundEvent<'a> {
    /// The model took a turn: how many calls it asked for, all of them answered,
    /// and what it said.
    Turn { made: usize, text: String },
    /// The model was asked for its notes: what it replied, where it did.
    Notes(Option<&'a Json>),
}

/// What is done next in a round.
#[derive(Debug)]
pub enum RoundAction {
    /// The model is asked again, with tools.
    Ask,
    /// The model is asked for its notes, without tools.
    AskForNotes,
    /// The round is over, with these notes.
    Done(String),
}

/// The mathematical model of an action.
pub enum RoundActionView {
    Ask,
    AskForNotes,
    Done(Seq<char>),
}

impl View for RoundAction {
    type V = RoundActionView;

    open spec fn view(&self) -> RoundActionView {
        match self {
            RoundAction::Ask => RoundActionView::Ask,
            RoundAction::AskForNotes => RoundActionView::AskForNotes,
            RoundAction::Done(s) => RoundActionView::Done(s@),
        }
    }
}

impl<'a> RoundEvent<'a> {
    /// What the model said.
    pub open spec fn said(self) -> Seq<char> {
        match self {
            RoundEvent::Turn { made, text } => text@,
            RoundEvent::Notes(Some(content)) => texts_in(elements_of(content@.member("parts"@))),
            RoundEvent::Notes(None) => Seq::empty(),
        }
    }
}

/// What follows an event, where `last` was said last.
pub open spec fn next_action(budget: usize, calls: usize, event: RoundEvent, last: Seq<char>) -> RoundActionView {
    match event {
        RoundEvent::Turn { made, text } => match turn_end(budget, calls, made as nat) {
            TurnEnd::Finish => RoundActionView::Done(last),
            TurnEnd::Continue => RoundActionView::Ask,
            TurnEnd::CollectNotes => RoundActionView::AskForNotes,
        },
        RoundEvent::Notes(_) => RoundActionView::Done(last),
    }
}

proof fn lemma_empty_is_blank()
    ensures
        is_blank_text(Seq::<char>::empty()),
{
}

impl Agent {
    /// An agent that has played no round yet.
    pub fn new(name: String) -> (r: Agent)
        ensures
            r.name == name,
            r.notes@ == Seq::<char>::empty(),
            r.tool_calls_total == 0,
    {
        let notes = String::new();
        assert(notes@ =~= Seq::<char>::empty());
        Agent { name, notes, tool_calls_total: 0 }
    }

    /// Whether this is the agent `before` in a round that it has come this far in:
    /// all that it has called since are the calls of the round, and these keep to
    /// the budget.
    pub open spec fn within(self, before: Agent, round: Round) -> bool {
        &&& self.name == before.name
        &&& self.tool_calls_total == before.tool_calls_total + round.calls
        &&& round.wf()
    }

    /// Counts a tool call that the budget covers, and says what its answer tells of
    /// the budget.
    pub fn count_call(&mut self, round: &mut Round) -> (r: BudgetNote)
        requires
            old(self).tool_calls_total < usize::MAX,
            old(round).calls < old(round).budget,
        ensures
            final(self).tool_calls_total == old(self).tool_calls_total + 1,
            final(self).name == old(self).name,
            final(self).notes == old(self).notes,
            final(round).wf(),
            final(round).calls == old(round).calls + 1,
            final(round).budget == old(round).budget,
            final(round).last_text == old(round).last_text,
            forall|before: Agent| #[trigger]
                old(self).within(before, *old(round)) ==> final(self).within(
                    before,
                    *final(round),
                ),
            r.remaining == calls_left(final(round).budget, final(round).calls),
            option_str_view(r.note) == if r.remaining == 0 {
                Some(BUDGET_NOTE@)
            } else {
                None
            },
    {
        self.tool_calls_total = self.tool_calls_total + 1;
        round.calls = round.calls + 1;
        round.budget_note()
    }

    /// What follows an event in a round. Once the round is done, what was said
    /// last are the notes for the next.
    pub fn run_round(&mut self, round: &mut Round, event: RoundEvent) -> (r: RoundAction)
        ensures
            final(round).budget == old(round).budget,
            final(round).calls == old(round).calls,
            final(round).last_text@ == said_last(old(round).last_text@, event.said()),
            r@ == next_action(old(round).budget, old(round).calls, event, final(round).last_text@),
            final(self).name == old(self).name,
            final(self).tool_calls_total == old(self).tool_calls_total,
            forall|before: Agent| #[trigger]
                old(self).within(before, *old(round)) ==> {
                    &&& final(self).within(before, *final(round))
                    &&& final(self).tool_calls_total <= before.tool_calls_total + old(round).budget
                },
            final(self).notes@ == if r is Done {
                final(round).last_text@
            } else {
                old(self).notes@
            },
    {
        match event {
            RoundEvent::Turn { made, text } => {
                match round.end_turn(made, text) {
                    TurnEnd::Continue => {
                        return RoundAction::Ask;
                    },
                    TurnEnd::CollectNotes => {
                        return RoundAction::AskForNotes;
                    },
                    TurnEnd::Finish => {},
                }
            },
            RoundEvent::Notes(Some(content)) => {
                round.take_notes(content);
            },
            RoundEvent::Notes(None) => {
                proof {
                    lemma_empty_is_blank();
                }
            },
        }
        self.notes = round.last_text.clone();
        RoundAction::Done(round.last_text.clone())
    }

    /// What this agent asks for when its model calls the tool called `tool`.
    pub fn handle_tool(&self, round: usize, samples: usize, tool: &str, args: Option<&Json>) -> (r:
        ToolCall)
        requires
            1 <= samples,
            2 * samples <= usize::MAX,
        ensures
            r@ == tool_call(self.name@, round, samples, tool@, option_tree(args)),
    {
        let empty = Json::Null;
        let args: &Json = match args {
            Some(a) => a,
            None => &empty,
        };
        if same(tool, "evolve") {
            read_evolve(self.name.as_str(), round, samples, args)
        } else if same(tool, "submit_code") {
            read_submission(args)
        } else if same(tool, "archive") {
            read_archive_query(args)
        } else if same(tool, "leaderboard") {
            ToolCall::Leaderboard
        } else {
            let mut error = "unknown tool `".to_owned();
            error.append(tool);
            error.append("`");
            ToolCall::Refused(error)
        }
    }
}

/// Over a round an agent calls no more tools than the budget has. It is within
/// its budget when the round begins, and every step of the round keeps it there.
pub proof fn round_keeps_to_budget(before: Agent, start: Round, after: Agent, round: Round)
    requires
        start.calls == 0,
        after.within(before, round),
    ensures
        before.within(before, start),
        after.name == before.name,
        after.tool_calls_total == before.tool_calls_total + round.calls,
        before.tool_calls_total <= after.tool_calls_total,
        after.tool_calls_total <= before.tool_calls_total + round.budget,
{
}

/// What a tool call asks for.
#[derive(Debug)]
pub enum ToolCall {
    /// New candidates from the generator.
    Evolve(EvolveRequest),
    /// The measurement of a block that the agent wrote.
    Submit { block: String, note: Option<String> },
    /// The best candidates.
    Archive { top_n: usize, agent: Option<String>, include_code: bool },
    /// The standings.
    Leaderboard,
    /// Nothing that there is, with this error.
    Refused(String),
}

/// The mathematical model of a tool call.
pub enum ToolCallView {
    Evolve {
        name: Seq<char>,
        round: usize,
        operator: Operator,
        n_samples: nat,
        guidance: Option<Seq<char>>,
    },
    Submit { block: Seq<char>, note: Option<Seq<char>> },
    Archive { top_n: nat, agent: Option<Seq<char>>, include_code: bool },
    Leaderboard,
    Refused(Seq<char>),
}

impl View for ToolCall {
    type V = ToolCallView;

    open spec fn view(&self) -> ToolCallView {
        match self {
            ToolCall::Evolve(req) => ToolCallView::Evolve {
                name: req.agent@,
                round: req.round,
                operator: req.operator,
                n_samples: req.n_samples as nat,
                guidance: option_view(req.guidance),
            },
            ToolCall::Submit { block, note } => ToolCallView::Submit {
                block: block@,
                note: option_view(*note),
            },
            ToolCall::Archive { top_n, agent, include_code } => ToolCallView::Archive {
                top_n: *top_n as nat,
                agent: option_view(*agent),
                include_code: *include_code,
            },
            ToolCall::Leaderboard => ToolCallView::Leaderboard,
            ToolCall::Refused(e) => ToolCallView::Refused(e@),
        }
    }
}

/// `n`, or the nearest number from `low` to `high`.
pub open spec fn clamped(n: nat, low: nat, high: nat) -> nat {
    if n < low {
        low
    } else if n > high {
        high
    } else {
        n
    }
}

/// How many candidates the archive lists unless it is asked otherwise.
pub const LISTED: u64 = 5;

/// How many candidates the archive lists at most.
pub const LISTED_AT_MOST: u64 = 20;

/// How many characters of a candidate's code a tool shows.
pub const SHOWN_BY_TOOL: usize = 8000;

/// A request for new candidates: by mutation unless crossover is named; as many
/// as asked for, at least one and at most twice the configured number, which is
/// also the default; with the guidance, unless it is blank.
pub open spec fn evolve_call(agent: Seq<char>, round: usize, samples: usize, args: Tree) -> ToolCallView {
    ToolCallView::Evolve {
        name: agent,
        round,
        operator: Operator::named(
            match args.text_member("operator"@) {
                Some(s) => s,
                None => "mutate"@,
            },
        ),
        n_samples: clamped(
            match args.whole_member("n_samples"@) {
                Some(n) => n as nat,
                None => samples as nat,
            },
            1,
            2 * samples as nat,
        ),
        guidance: match args.text_member("guidance"@) {
            Some(s) => if trimmed(s).len() == 0 {
                None
            } else {
                Some(trimmed(s))
            },
            None => None,
        },
    }
}

/// A block to measure.
pub open spec fn submit_call(args: Tree) -> ToolCallView {
    match args.text_member("code"@) {
        Some(code) => ToolCallView::Submit {
            block: extracted(code),
            note: args.text_member("note"@),
        },
        None => ToolCallView::Refused("submit_code requires a `code` string"@),
    }
}

/// A look at the archive.
pub open spec fn archive_call(args: Tree) -> ToolCallView {
    ToolCallView::Archive {
        top_n: clamped(
            match args.whole_member("top_n"@) {
                Some(n) => n as nat,
                None => LISTED as nat,
            },
            1,
            LISTED_AT_MOST as nat,
        ),
        agent: match args.text_member("agent"@) {
            Some(a) => if a.len() == 0 {
                None
            } else {
                Some(a)
            },
            None => None,
        },
        include_code: args.truth_member("include_code"@) == Some(true),
    }
}

/// What an agent asks for when its model calls a tool. Missing arguments are
/// all left out.
pub open spec fn tool_call(
    agent: Seq<char>,
    round: usize,
    samples: usize,
    tool: Seq<char>,
    args: Option<Tree>,
) -> ToolCallView {
    let given = match args {
        Some(t) => t,
        None => Tree::Null,
    };
    if tool == "evolve"@ {
        evolve_call(agent, round, samples, given)
    } else if tool == "submit_code"@ {
        submit_call(given)
    } else if tool == "archive"@ {
        archive_call(given)
    } else if tool == "leaderboard"@ {
        ToolCallView::Leaderboard
    } else {
        ToolCallView::Refused("unknown tool `"@ + tool + "`"@)
    }
}

fn read_evolve(agent: &str, round: usize, samples: usize, args: &Json) -> (r: ToolCall)
    requires
        1 <= samples,
        2 * samples <= usize::MAX,
    ensures
        r@ == evolve_call(agent@, round, samples, args@),
{
    let operator = match args.text_field("operator") {
        Some(s) => Operator::parse(s),
        None => Operator::parse("mutate"),
    };
    let most: usize = samples * 2;
    let n_samples: usize = match args.whole_field("n_samples") {
        Some(n) => {
            if n < 1 {
                1
            } else if n > most as u64 {
                most
            } else {
                n as usize
            }
        },
        None => samples,
    };
    let guidance = match args.text_field("guidance") {
        Some(s) => {
            let t = trim(s);
            if t.is_empty() {
                None
            } else {
                Some(t.to_owned())
            }
        },
        None => None,
    };
    ToolCall::Evolve(
        EvolveRequest { agent: agent.to_owned(), round, operator, n_samples, guidance },
    )
}

fn read_submission(args: &Json) -> (r: ToolCall)
    ensures
        r@ == submit_call(args@),
{
    match args.text_field("code") {
        Some(code) => ToolCall::Submit {
            block: extract_block(code),
            note: args.owned_field("note"),
        },
        None => ToolCall::Refused("submit_code requires a `code` string".to_owned()),
    }
}

fn read_archive_query(args: &Json) -> (r: ToolCall)
    ensures
        r@ == archive_call(args@),
{
    let asked: u64 = match args.whole_field("top_n") {
        Some(n) => n,
        None => LISTED,
    };
    let top_n: usize = if asked < 1 {
        1
    } else if asked > LISTED_AT_MOST {
        LISTED_AT_MOST as usize
    } else {
        asked as usize
    };
    let agent = match args.owned_field("agent") {
        Some(a) => {
            if a.as_str().is_empty() {
                None
            } else {
                Some(a)
            }
        },
        None => None,
    };
    let include_code = match args.truth_field("include_code") {
        Some(b) => b,
        None => false,
    };
    ToolCall::Archive { top_n, agent, include_code }
}

/// What a look at the archive shows.
#[derive(Debug)]
pub struct ArchiveReply<'a> {
    pub archive_size: usize,
    pub rejected_near_duplicates: usize,
    pub top: Vec<&'a Candidate>,
    /// The code of the first of them, cut short, where it was asked for.
    pub code: Option<String>,
}

/// Looks at the archive.
pub fn show_archive<'a>(
    archive: &'a Archive,
    top_n: usize,
    agent: Option<&str>,
    include_code: bool,
) -> (r: ArchiveReply<'a>)
    ensures
        r.archive_size == archive.entries@.len(),
        r.rejected_near_duplicates == archive.rejected_near_duplicates,
        owned(r.top@) == first_of(
            ranked(selected(archive.entries@, FilterView::of_agent(option_str_view(agent)))),
            if top_n == 0 {
                1
            } else {
                top_n as nat
            },
        ),
        option_view(r.code) == if include_code && r.top@.len() > 0 {
            Some(truncated(owned(r.top@)[0].block@, SHOWN_BY_TOOL as nat))
        } else {
            None
        },
        include_code && r.top@.len() > 0 && r.top@[0].block@.len() <= 8000 ==> option_view(r.code)
            == Some(r.top@[0].block@),
        include_code && r.top@.len() > 0 && r.top@[0].block@.len() > 8000 ==> option_view(r.code)
            == Some(r.top@[0].block@.take(8000) + "..."@),
{
    let top = archive.top(top_n, agent);
    let code = if include_code && top.len() > 0 {
        Some(truncate(top[0].block.as_str(), SHOWN_BY_TOOL))
    } else {
        None
    };
    ArchiveReply {
        archive_size: archive.len(),
        rejected_near_duplicates: archive.rejected_near_duplicates,
        top,
        code,
    }
}

/// The row of an agent in the standings, from position `i` on.
pub open spec fn row_of(rows: Seq<StandingView>, agent: Seq<char>, i: int) -> Option<StandingView>
    decreases rows.len() - i,
{
    if i < 0 || i >= rows.len() {
        None
    } else if rows[i].agent == agent {
        Some(rows[i])
    } else {
        row_of(rows, agent, i + 1)
    }
}

/// The row of an agent in the standings.
pub fn find_row<'a>(rows: &'a Vec<Standing>, agent: &str) -> (r: Option<&'a Standing>)
    ensures
        match r {
            Some(s) => row_of(standing_views(rows@), agent@, 0) == Some(s@),
            None => row_of(standing_views(rows@), agent@, 0) is None,
        },
{
    let ghost all = standing_views(rows@);
    let mut i: usize = 0;
    while i < rows.len()
        invariant
            all == standing_views(rows@),
            i <= rows@.len(),
            row_of(all, agent@, 0) == row_of(all, agent@, i as int),
        decreases rows.len() - i,
    {
        assert(all[i as int] == rows@[i as int]@);
        if same(rows[i].agent.as_str(), agent) {
            return Some(&rows[i]);
        }
        i += 1;
    }
    None
}

/// What the leaderboard shows an agent: the standings, its own place and reward
/// if the round ended now, and the best rival with its code, cut short.
#[derive(Debug)]
pub struct LeaderboardReply<'a> {
    pub standings: Vec<Standing>,
    pub position: Option<usize>,
    pub reward: Option<u8>,
    pub best_rival: Option<&'a Candidate>,
    pub code: Option<String>,
}

/// Shows the leaderboard to the agent called `me`.
pub fn show_leaderboard<'a>(archive: &'a Archive, me: &str) -> (r: LeaderboardReply<'a>)
    ensures
        ({
            let rows = standings_of(archive.entries@, string_views(archive.agents@));
            &&& standing_views(r.standings@) == rows
            &&& match row_of(rows, me@, 0) {
                Some(s) => r.position == Some(s.rank_position as usize) && r.reward == Some(
                    s.reward as u8,
                ),
                None => r.position is None && r.reward is None,
            }
            &&& owned_option(r.best_rival) == best_rival_of(archive.entries@, rows, me@)
            &&& option_view(r.code) == match best_rival_of(archive.entries@, rows, me@) {
                Some(c) => Some(truncated(c.block@, SHOWN_BY_TOOL as nat)),
                None => None,
            }
        }),
        r.best_rival matches Some(c) ==> {
            &&& c.block@.len() <= 8000 ==> option_view(r.code) == Some(c.block@)
            &&& c.block@.len() > 8000 ==> option_view(r.code) == Some(
                c.block@.take(8000) + "..."@,
            )
        },
        r.best_rival is None ==> r.code is None,
{
    let standings = archive.standings();
    let best_rival = archive.best_rival(&standings, me);
    let (position, reward) = match find_row(&standings, me) {
        Some(s) => (Some(s.rank_position), Some(s.reward)),
        None => (None, None),
    };
    let code = match best_rival {
        Some(c) => Some(truncate(c.block.as_str(), SHOWN_BY_TOOL)),
        None => None,
    };
    LeaderboardReply { standings, position, reward, best_rival, code }
}

/// Every call that some parts make is read, in order, by its name and its
/// arguments; what they say besides is kept in order too. A part that makes a call
/// says nothing, and a part with neither adds nothing.
pub proof fn turns_are_read_in_order(a: Seq<Tree>, b: Seq<Tree>, part: Tree)
    ensures
        uses_in(a + b) == uses_in(a) + uses_in(b),
        said_in(a + b) == said_in(a) + said_in(b),
        match part.member("functionCall"@) {
            Some(call) => {
                &&& uses_in(seq![part]).len() == 1
                &&& uses_in(seq![part])[0].args == call.member("args"@)
                &&& match call.member("name"@) {
                    Some(Tree::Text(name)) => uses_in(seq![part])[0].name == name,
                    _ => uses_in(seq![part])[0].name.len() == 0,
                }
                &&& said_in(seq![part]).len() == 0
            },
            None => {
                &&& uses_in(seq![part]).len() == 0
                &&& match part.member("text"@) {
                    Some(Tree::Text(s)) => said_in(seq![part]) == s,
                    _ => said_in(seq![part]).len() == 0,
                }
            },
        },
    decreases b.len(),
{
    if b.len() == 0 {
        assert(a + b =~= a);
        assert(uses_in(a) + uses_in(b) =~= uses_in(a));
        assert(said_in(a) + said_in(b) =~= said_in(a));
    } else {
        assert((a + b).drop_last() =~= a + b.drop_last());
        turns_are_read_in_order(a, b.drop_last(), part);
        assert(uses_in(a + b) =~= uses_in(a) + uses_in(b));
        assert(said_in(a + b) =~= said_in(a) + said_in(b));
    }
    let none = Seq::<Tree>::empty();
    assert(seq![part].drop_last() =~= none);
    assert(uses_in(none) =~= Seq::<ToolUseView>::empty());
    assert(said_in(none) =~= Seq::<char>::empty());
    if let Some(Tree::Text(s)) = part.member("text"@) {
        assert(Seq::<char>::empty() + s =~= s);
    }
}

/// What is left of a budget are the calls that were not run; a turn is given what
/// it asks for or what is left, whichever is less.
pub proof fn budgets_are_used_up(budget: usize, calls: usize, asked: nat)
    ensures
        calls <= budget ==> calls + calls_left(budget, calls) == budget,
        calls > budget ==> calls_left(budget, calls) == 0,
        taken(budget, calls, asked) <= asked,
        taken(budget, calls, asked) <= calls_left(budget, calls),
        taken(budget, calls, asked) == asked || taken(budget, calls, asked) == calls_left(
            budget,
            calls,
        ),
{
}

/// A turn that asks for nothing ends the round; any other goes on as long as some
/// of the budget is left, and asks for the notes once none is.
pub proof fn turns_end_with_the_budget(budget: usize, calls: usize, made: nat)
    ensures
        made == 0 ==> turn_end(budget, calls, made) == TurnEnd::Finish,
        made > 0 && calls < budget ==> turn_end(budget, calls, made) == TurnEnd::Continue,
        made > 0 && calls >= budget ==> turn_end(budget, calls, made) == TurnEnd::CollectNotes,
{
}

/// What was said last is kept until something else is said; white space is not
/// something.
pub proof fn words_are_kept_until_others_are_said(before: Seq<char>, text: Seq<char>)
    ensures
        (forall|i: int| 0 <= i < text.len() ==> white_space(#[trigger] text[i])) ==> said_last(
            before,
            text,
        ) == before,
        !(forall|i: int| 0 <= i < text.len() ==> white_space(#[trigger] text[i])) ==> said_last(
            before,
            text,
        ) == text,
{
    trimmed_texts_keep_the_rest(text);
}

/// A round is over, with what was said last, after a turn that asks for nothing and
/// once the notes were asked for. Otherwise the model is asked again, with tools
/// while some of the budget is left.
pub proof fn rounds_end_with_what_was_said(
    budget: usize,
    calls: usize,
    event: RoundEvent,
    last: Seq<char>,
)
    ensures
        match event {
            RoundEvent::Notes(_) => next_action(budget, calls, event, last)
                == RoundActionView::Done(last),
            RoundEvent::Turn { made, text } => {
                &&& made == 0 ==> next_action(budget, calls, event, last) == RoundActionView::Done(
                    last,
                )
                &&& made > 0 && calls < budget ==> next_action(budget, calls, event, last) is Ask
                &&& made > 0 && calls >= budget ==> next_action(
                    budget,
                    calls,
                    event,
                    last,
                ) is AskForNotes
            },
        },
        match event {
            RoundEvent::Turn { made, text } => event.said() == text@,
            RoundEvent::Notes(Some(content)) => event.said() == texts_in(
                elements_of(content@.member("parts"@)),
            ),
            RoundEvent::Notes(None) => event.said().len() == 0,
        },
{
}

/// A number is kept where it is between the bounds, and else the bound that it is
/// beyond is taken.
pub proof fn clamping_keeps_to_bounds(n: nat, low: nat, high: nat)
    requires
        low <= high,
    ensures
        low <= clamped(n, low, high) <= high,
        low <= n <= high ==> clamped(n, low, high) == n,
        n < low ==> clamped(n, low, high) == low,
        n > high ==> clamped(n, low, high) == high,
{
}

/// A request for candidates is one of the agent that makes it, in its round; by
/// crossover only where that is named; for as many as asked, one at least and twice
/// the configured number at most, and the configured number where none is asked
/// for; and with the guidance, without the white space around it.
pub proof fn requests_ask_for_what_is_given(
    agent: Seq<char>,
    round: usize,
    samples: usize,
    args: Tree,
)
    requires
        1 <= samples,
    ensures
        ({
            let c = evolve_call(agent, round, samples, args);
            &&& c is Evolve
            &&& c->name == agent
            &&& c->round == round
            &&& 1 <= c->n_samples <= 2 * samples
            &&& match args.member("n_samples"@) {
                Some(Tree::Number(_, Some(n))) => {
                    &&& 1 <= n <= 2 * samples ==> c->n_samples == n
                    &&& n < 1 ==> c->n_samples == 1
                    &&& n > 2 * samples ==> c->n_samples == 2 * samples
                },
                _ => c->n_samples == samples,
            }
            &&& match args.member("operator"@) {
                Some(Tree::Text(s)) => c->operator == Operator::named(s),
                _ => c->operator == Operator::Mutate,
            }
            &&& match args.member("guidance"@) {
                Some(Tree::Text(s)) => {
                    &&& c->guidance is None <==> forall|i: int|
                        0 <= i < s.len() ==> white_space(#[trigger] s[i])
                    &&& c->guidance is Some ==> c->guidance->0 == trimmed(s)
                },
                _ => c->guidance is None,
            }
        }),
{
    operators_go_by_their_word("mutate"@);
    if let Some(Tree::Text(s)) = args.member("guidance"@) {
        trimmed_texts_keep_the_rest(s);
    }
}

/// A submission is the block in the code that is given, with the note where there
/// is one; without code it is refused.
pub proof fn submissions_hold_their_code(args: Tree)
    ensures
        match args.member("code"@) {
            Some(Tree::Text(code)) => {
                &&& submit_call(args) is Submit
                &&& submit_call(args)->block == extracted(code)
                &&& match args.member("note"@) {
                    Some(Tree::Text(note)) => submit_call(args)->note == Some(note),
                    _ => submit_call(args)->note is None,
                }
            },
            _ => submit_call(args) == ToolCallView::Refused(
                "submit_code requires a `code` string"@,
            ),
        },
{
}

/// A look at the archive is at as many candidates as asked for, one at least and
/// twenty at most, and at five where no number is given; at those of one agent
/// where one is named; and at the code only where that is asked for.
pub proof fn looks_show_what_is_asked_for(args: Tree)
    ensures
        ({
            let c = archive_call(args);
            &&& c is Archive
            &&& match args.member("top_n"@) {
                Some(Tree::Number(_, Some(n))) => {
                    &&& 1 <= n <= 20 ==> c->top_n == n
                    &&& n == 0 ==> c->top_n == 1
                    &&& n > 20 ==> c->top_n == 20
                },
                _ => c->top_n == 5,
            }
            &&& match args.member("agent"@) {
                Some(Tree::Text(a)) => {
                    &&& a.len() > 0 ==> c->Archive_agent == Some(a)
                    &&& a.len() == 0 ==> c->Archive_agent is None
                },
                _ => c->Archive_agent is None,
            }
            &&& match args.member("include_code"@) {
                Some(Tree::Bool(b)) => c->include_code == b,
                _ => !c->include_code,
            }
        }),
{
}

/// A call goes to the tool of its name, with the arguments that it brings; a name
/// that no tool has is refused, and the answer tells it.
pub proof fn calls_go_by_their_name(
    agent: Seq<char>,
    round: usize,
    samples: usize,
    tool: Seq<char>,
    args: Tree,
)
    ensures
        tool_call(agent, round, samples, "evolve"@, Some(args)) == evolve_call(
            agent,
            round,
            samples,
            args,
        ),
        tool_call(agent, round, samples, "submit_code"@, Some(args)) == submit_call(args),
        tool_call(agent, round, samples, "archive"@, Some(args)) == archive_call(args),
        tool_call(agent, round, samples, "leaderboard"@, Some(args)) is Leaderboard,
        tool != "evolve"@ && tool != "submit_code"@ && tool != "archive"@ && tool != "leaderboard"@
            ==> {
            let c = tool_call(agent, round, samples, tool, Some(args));
            c is Refused && in_order(c->Refused_0, seq!["unknown tool `"@, tool, "`"@])
        },
        tool_call(agent, round, samples, tool, None) == tool_call(
            agent,
            round,
            samples,
            tool,
            Some(Tree::Null),
        ),
{
    reveal_strlit("evolve");
    reveal_strlit("submit_code");
    reveal_strlit("archive");
    reveal_strlit("leaderboard");
    assert("evolve"@.len() != "submit_code"@.len());
    assert("evolve"@.len() != "archive"@.len());
    assert("evolve"@.len() != "leaderboard"@.len());
    assert("archive"@.len() != "submit_code"@.len());
    assert("archive"@.len() != "leaderboard"@.len());
    assert("submit_code"@[0] != "leaderboard"@[0]);
    let mut t = "unknown tool `"@;
    lemma_whole("unknown tool `"@);
    let mut p = seq!["unknown tool `"@];
    show_part(t, p, tool);
    t = t + tool;
    p = p.push(tool);
    show_part(t, p, "`"@);
    t = t + "`"@;
    p = p.push("`"@);
    assert(p =~= seq!["unknown tool `"@, tool, "`"@]);
}

proof fn lemma_row_of(rows: Seq<StandingView>, agent: Seq<char>, i: int, k: int)
    requires
        0 <= i <= k <= rows.len(),
        forall|j: int| i <= j < k ==> (#[trigger] rows[j]).agent != agent,
    ensures
        k < rows.len() && rows[k].agent == agent ==> row_of(rows, agent, i) == Some(rows[k]),
        k == rows.len() ==> row_of(rows, agent, i) is None,
    decreases k - i,
{
    if i < k {
        lemma_row_of(rows, agent, i + 1, k);
    }
}

/// An agent's row is the first that bears its name; an agent without one has none.
pub proof fn rows_go_by_agent(rows: Seq<StandingView>, agent: Seq<char>, k: int)
    requires
        0 <= k <= rows.len(),
        forall|j: int| 0 <= j < k ==> (#[trigger] rows[j]).agent != agent,
    ensures
        k < rows.len() && rows[k].agent == agent ==> row_of(rows, agent, 0) == Some(rows[k]),
        k == rows.len() ==> row_of(rows, agent, 0) is None,
{
    lemma_row_of(rows, agent, 0, k);
}

/// The model of a tool use, of an action and of a tool call is what it holds.
pub proof fn calls_are_what_they_hold(
    u: ToolUse,
    uses: Seq<ToolUse>,
    i: int,
    req: EvolveRequest,
    text: String,
    note: Option<String>,
    n: usize,
    b: bool,
)
    ensures
        u@.name == u.name@ && u@.args == option_tree(u.args),
        use_views(uses).len() == uses.len(),
        0 <= i < uses.len() ==> use_views(uses)[i] == uses[i]@,
        RoundAction::Ask@ is Ask,
        RoundAction::AskForNotes@ is AskForNotes,
        RoundAction::Done(text)@ == RoundActionView::Done(text@),
        ({
            let c = ToolCall::Evolve(req)@;
            &&& c is Evolve
            &&& c->name == req.agent@
            &&& c->round == req.round
            &&& c->operator == req.operator
            &&& c->n_samples == req.n_samples
            &&& c->guidance == option_view(req.guidance)
        }),
        ({
            let c = ToolCall::Submit { block: text, note }@;
            c is Submit && c->block == text@ && c->note == option_view(note)
        }),
        ({
            let c = ToolCall::Archive { top_n: n, agent: note, include_code: b }@;
            &&& c is Archive
            &&& c->top_n == n
            &&& c->Archive_agent == option_view(note)
            &&& c->include_code == b
        }),
        ToolCall::Leaderboard@ is Leaderboard,
        ToolCall::Refused(text)@ == ToolCallView::Refused(text@),
{
}

} // verus!
