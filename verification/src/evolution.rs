//! Evolutionary operators: what a new candidate is derived from, which are
//! refused, and what is archived of the others.

use vstd::prelude::*;
use vstd::string::*;

use crate::archive::{
    best_of, candidate_id, id_number, id_number_reads_back, ids_counted,
    ids_name_agent_round_and_number, owned_option, seed_as_parent, selected, Archive, Candidate,
    FilterView, Parent, ParentView, SEED_ID,
};
use crate::digits::{decimal, zero_padded};
use crate::fitness::{
    is_valid, valid_result, validity_is_decided_by_errors_folds_and_quality,
};
use crate::gemini::{truncate, truncated, truncation_keeps_beginning};
use crate::harness::{extract_block, extracted, HarnessResult};
use crate::json::{option_str_view, option_view};
use crate::measure::Measure;
use crate::prompts::{
    crossover_prompt, crossover_prompt_shows_both_parents, crossover_text, mutate_prompt,
    mutate_text, mutation_prompt_shows_parent, Brief,
};
use crate::text::{
    all_ascii, ascii_lower, contains, contains_text, drop_class, eq_ignore_ascii_case, in_order,
    lemma_whole, lower_case_is_letter_by_letter, lowercase, same_ignoring_case, show_part,
    skip_class, string_views, trim, trimmed, CharClass,
};

verus! {

/// How a candidate is derived from its parents.
#[derive(Clone, Copy, Debug, PartialEq, Eq, Structural)]
pub enum Operator {
    Mutate,
    Crossover,
}

impl Operator {
    /// The operator that a word names. Every word but one names mutation.
    pub open spec fn named(s: Seq<char>) -> Operator {
        if same_ignoring_case(trimmed(s), "crossover"@) {
            Operator::Crossover
        } else {
            Operator::Mutate
        }
    }

    /// The operator that a word names.
    pub fn parse(s: &str) -> (r: Operator)
        ensures
            r == Operator::named(s@),
    {
        if eq_ignore_ascii_case(trim(s), "crossover") {
            Operator::Crossover
        } else {
            Operator::Mutate
        }
    }

    /// The name of an operator.
    pub open spec fn name_text(self) -> Seq<char> {
        match self {
            Operator::Mutate => "mutate"@,
            Operator::Crossover => "crossover"@,
        }
    }

    /// The name of this operator.
    pub fn name(self) -> (r: &'static str)
        ensures
            r@ == self.name_text(),
    {
        match self {
            Operator::Mutate => "mutate",
            Operator::Crossover => "crossover",
        }
    }
}

/// The name of an operator names it.
pub proof fn operator_names_read_back(o: Operator)
    ensures
        Operator::named(o.name_text()) == o,
{
    reveal_strlit("mutate");
    reveal_strlit("crossover");
    let s = o.name_text();
    assert(skip_class(s, CharClass::Blank) == s);
    assert(drop_class(s, CharClass::Blank) == s);
    assert(s.len() != "crossover"@.len() || s == "crossover"@);
}

/// What an agent asks the generator for.
#[derive(Debug)]
pub struct EvolveRequest {
    pub agent: String,
    pub round: usize,
    pub operator: Operator,
    pub n_samples: usize,
    pub guidance: Option<String>,
}

/// What was drawn from the archive for a request.
#[derive(Debug)]
pub enum Drawn {
    /// The parent of a mutation.
    Single(Parent),
    /// The parents of a crossover; none where there is only the seed.
    Pair(Option<(Parent, Parent)>),
}

/// What a new candidate is derived from.
#[derive(Debug)]
pub enum Lineage {
    One(Parent),
    Two(Parent, Parent),
}

/// The mathematical model of a lineage.
pub enum LineageView {
    One(ParentView),
    Two(ParentView, ParentView),
}

impl View for Lineage {
    type V = LineageView;

    open spec fn view(&self) -> LineageView {
        match self {
            Lineage::One(p) => LineageView::One(p@),
            Lineage::Two(a, b) => LineageView::Two(a@, b@),
        }
    }
}

impl LineageView {
    /// The operator that derives a candidate from this.
    pub open spec fn operator(self) -> Operator {
        match self {
            LineageView::One(_) => Operator::Mutate,
            LineageView::Two(_, _) => Operator::Crossover,
        }
    }

    /// The ids of the parents.
    pub open spec fn ids(self) -> Seq<Seq<char>> {
        match self {
            LineageView::One(p) => seq![p.id],
            LineageView::Two(a, b) => seq![a.id, b.id],
        }
    }

    /// The prompt for a candidate derived from this. The metrics of the parents
    /// come as text; there is a second one only for two parents.
    pub open spec fn prompt_text(
        self,
        brief: Brief,
        first: Seq<char>,
        second: Seq<char>,
        guidance: Option<Seq<char>>,
    ) -> Seq<char> {
        match self {
            LineageView::One(p) => mutate_text(brief, p, first, guidance),
            LineageView::Two(a, b) => crossover_text(brief, a, first, b, second, guidance),
        }
    }
}

/// What a new candidate is derived from, given what was drawn: a crossover
/// without a pair is a mutation of the seed.
pub open spec fn lineage_of(drawn: Drawn, seed_block: Seq<char>) -> LineageView {
    match drawn {
        Drawn::Single(p) => LineageView::One(p@),
        Drawn::Pair(Some((a, b))) => LineageView::Two(a@, b@),
        Drawn::Pair(None) => LineageView::One(seed_as_parent(seed_block)),
    }
}

impl Lineage {
    /// What a new candidate is derived from, given what was drawn.
    pub fn of(drawn: Drawn, archive: &Archive) -> (r: Lineage)
        ensures
            r@ == lineage_of(drawn, archive.seed_block@),
    {
        match drawn {
            Drawn::Single(p) => Lineage::One(p),
            Drawn::Pair(Some((a, b))) => Lineage::Two(a, b),
            Drawn::Pair(None) => Lineage::One(archive.seed_parent()),
        }
    }

    /// The operator that derives a candidate from this.
    pub fn operator(&self) -> (r: Operator)
        ensures
            r == self@.operator(),
    {
        match self {
            Lineage::One(_) => Operator::Mutate,
            Lineage::Two(_, _) => Operator::Crossover,
        }
    }

    /// The ids of the parents.
    pub fn ids(&self) -> (r: Vec<String>)
        ensures
            string_views(r@) == self@.ids(),
    {
        let mut out: Vec<String> = Vec::new();
        match self {
            Lineage::One(p) => {
                out.push(p.id.clone());
                assert(string_views(out@) =~= seq![p.id@]);
            },
            Lineage::Two(a, b) => {
                out.push(a.id.clone());
                out.push(b.id.clone());
                assert(string_views(out@) =~= seq![a.id@, b.id@]);
            },
        }
        out
    }

    /// The prompt for a candidate derived from this.
    pub fn prompt(&self, brief: &Brief, first: &str, second: &str, guidance: Option<&str>) -> (r:
        String)
        ensures
            r@ == self@.prompt_text(*brief, first@, second@, option_str_view(guidance)),
    {
        match self {
            Lineage::One(p) => mutate_prompt(brief, p, first, guidance),
            Lineage::Two(a, b) => crossover_prompt(brief, a, first, b, second, guidance),
        }
    }
}

/// How many characters of an error or of refused code are reported.
pub const REPORTED_CHARS: usize = 300;

/// What is reported of a sample that could not be generated.
pub fn generation_failure(error: &str) -> (r: String)
    ensures
        r@ == truncated(error@, REPORTED_CHARS as nat),
{
    truncate(error, REPORTED_CHARS)
}

/// What became of a sample.
#[derive(Debug)]
pub enum SampleReport {
    /// The model wrote nothing, with this error.
    GenerationFailed(String),
    Rejected(Rejection),
    /// It is the candidate at this position of the archive.
    Archived(usize),
}

/// The samples that are made for a request, one after the other.
#[derive(Debug)]
pub struct Batch {
    /// How many were asked for.
    pub asked: usize,
    /// What became of those that were made.
    pub samples: Vec<SampleReport>,
}

/// What happens while samples are made.
#[derive(Debug)]
pub enum BatchEvent {
    /// Nothing yet.
    Begin,
    /// The model was asked for a sample: what it wrote, or the error.
    Generated(Result<String, String>),
    /// A sample was served: what became of it.
    Served(SampleReport),
}

/// What is done next while samples are made.
#[derive(Debug)]
pub enum BatchAction {
    /// The model is asked for another sample.
    Generate,
    /// This block, which the model wrote, is served.
    Serve(String),
    /// All samples are made.
    Done,
}

/// What a report says of a sample that could not be generated.
pub open spec fn reports_failure(report: SampleReport, error: Seq<char>) -> bool {
    report matches SampleReport::GenerationFailed(s) && s@ == truncated(
        error,
        REPORTED_CHARS as nat,
    )
}

impl Batch {
    /// Whether no more samples were made than were asked for.
    pub open spec fn wf(self) -> bool {
        self.samples@.len() <= self.asked
    }

    /// Whether samples are still to be made.
    pub open spec fn unfinished(self) -> bool {
        self.samples@.len() < self.asked
    }

    /// The samples for a request, none of them made yet.
    pub fn start(request: &EvolveRequest) -> (r: Batch)
        ensures
            r.wf(),
            r.asked == request.n_samples,
            r.samples@ == Seq::<SampleReport>::empty(),
    {
        Batch { asked: request.n_samples, samples: Vec::new() }
    }

    /// What follows an event. A text that the model wrote is served by its block;
    /// one that it failed to write, and one that was served, is reported, and the
    /// next is asked for until every sample that was asked for has its report.
    pub fn step(&mut self, event: BatchEvent) -> (r: BatchAction)
        requires
            event is Begin ==> old(self).wf(),
            event !is Begin ==> old(self).unfinished(),
        ensures
            final(self).wf(),
            final(self).asked == old(self).asked,
            match event {
                BatchEvent::Begin => *final(self) == *old(self),
                BatchEvent::Generated(Ok(_)) => *final(self) == *old(self),
                BatchEvent::Generated(Err(e)) => {
                    &&& final(self).samples@.len() == old(self).samples@.len() + 1
                    &&& final(self).samples@.drop_last() == old(self).samples@
                    &&& reports_failure(final(self).samples@.last(), e@)
                },
                BatchEvent::Served(report) => final(self).samples@ == old(self).samples@.push(
                    report,
                ),
            },
            match event {
                BatchEvent::Generated(Ok(text)) => {
                    r matches BatchAction::Serve(block) && block@ == extracted(text@)
                },
                _ => if final(self).unfinished() {
                    r is Generate
                } else {
                    r is Done
                },
            },
            r is Done ==> final(self).samples@.len() == final(self).asked,
    {
        let ghost before = self.samples@;
        match event {
            BatchEvent::Begin => {},
            BatchEvent::Generated(Ok(text)) => {
                return BatchAction::Serve(extract_block(text.as_str()));
            },
            BatchEvent::Generated(Err(e)) => {
                self.samples.push(SampleReport::GenerationFailed(generation_failure(e.as_str())));
                assert(self.samples@.drop_last() =~= before);
            },
            BatchEvent::Served(report) => {
                self.samples.push(report);
            },
        }
        if self.samples.len() < self.asked {
            BatchAction::Generate
        } else {
            BatchAction::Done
        }
    }
}

/// What an agent is told once its request is served: what became of every
/// sample, its best candidate, the best of all, and how many there are.
#[derive(Debug)]
pub struct EvolveReport<'a> {
    pub samples: Vec<SampleReport>,
    pub your_best: Option<&'a Candidate>,
    pub global_best: Option<&'a Candidate>,
    pub archive_size: usize,
}

/// What an agent is told once its request is served.
pub fn evolve<'a>(archive: &'a Archive, agent: &str, samples: Vec<SampleReport>) -> (r:
    EvolveReport<'a>)
    ensures
        r.samples == samples,
        owned_option(r.your_best) == best_of(
            selected(archive.entries@, FilterView::valid_of_agent(Some(agent@))),
        ),
        owned_option(r.global_best) == best_of(
            selected(archive.entries@, FilterView::valid_of_agent(None)),
        ),
        r.archive_size == archive.entries@.len(),
{
    EvolveReport {
        samples,
        your_best: archive.best_for_agent(agent),
        global_best: archive.best(),
        archive_size: archive.len(),
    }
}

/// Why a block is refused, and what is shown of it.
#[derive(Debug)]
pub struct Rejection {
    pub reason: String,
    pub preview: Option<String>,
}

/// What every block must define.
pub const MODEL_CLASS: &'static str = "class Model";

/// Whether `j` says that a block does not define the model, and `after` is the
/// archive with that counted.
pub open spec fn shape_refused(before: Archive, block: Seq<char>, after: Archive, j: Rejection) -> bool {
    &&& j.reason@ == "the generated block does not define `class Model`"@
    &&& option_view(j.preview) == Some(truncated(block, REPORTED_CHARS as nat))
    &&& after.rejected_invalid_shape == before.rejected_invalid_shape + 1
    &&& after.rejected_near_duplicates == before.rejected_near_duplicates
    &&& after.entries == before.entries
    &&& after.agents == before.agents
    &&& after.seed_block == before.seed_block
    &&& after.counter == before.counter
}

/// Refuses a block that does not define the model, and counts it. Of any other
/// block nothing is said and nothing changes.
pub fn check_shape(archive: &mut Archive, block: &str) -> (r: Option<Rejection>)
    requires
        old(archive).rejected_invalid_shape < usize::MAX,
    ensures
        r is None <==> contains_text(block@, MODEL_CLASS@),
        r is None <==> contains_text(block@, "class Model"@),
        r is None ==> *final(archive) == *old(archive),
        r matches Some(j) ==> shape_refused(*old(archive), block@, *final(archive), j),
{
    if contains(block, MODEL_CLASS) {
        return None;
    }
    archive.rejected_invalid_shape = archive.rejected_invalid_shape + 1;
    Some(
        Rejection {
            reason: "the generated block does not define `class Model`".to_owned(),
            preview: Some(truncate(block, REPORTED_CHARS)),
        },
    )
}

/// Whether a block is let into the archive.
#[derive(Debug)]
pub enum Admission {
    Rejected(Rejection),
    /// It is, under this id.
    Admitted(String),
}

/// Why a block that is too similar to what is archived is refused. The
/// similarity comes as text, to three digits.
pub open spec fn duplicate_text(similarity: Seq<char>) -> Seq<char> {
    "near-duplicate of an archived candidate or the seed (similarity "@ + similarity
        + "); make a substantive change"@
}

/// Whether `j` says that a block is too similar, and `after` is the archive with
/// that counted.
pub open spec fn duplicate_refused(
    before: Archive,
    similarity: Seq<char>,
    after: Archive,
    j: Rejection,
) -> bool {
    &&& j.reason@ == duplicate_text(similarity)
    &&& j.preview is None
    &&& after.rejected_near_duplicates == before.rejected_near_duplicates + 1
    &&& after.rejected_invalid_shape == before.rejected_invalid_shape
    &&& after.entries == before.entries
    &&& after.agents == before.agents
    &&& after.seed_block == before.seed_block
    &&& after.counter == before.counter
}

/// Whether `id` is the next id for a candidate, which no candidate has, and
/// `after` is the archive with that id given out.
pub open spec fn let_in_as(
    before: Archive,
    agent: Seq<char>,
    round: nat,
    after: Archive,
    id: Seq<char>,
) -> bool {
    &&& id == candidate_id(agent, round, after.counter as nat)
    &&& before.counted() ==> forall|i: int|
        0 <= i < after.entries@.len() ==> (#[trigger] after.entries@[i]).id@ != id
    &&& after.counter == before.counter + 1
    &&& after.rejected_near_duplicates == before.rejected_near_duplicates
    &&& after.rejected_invalid_shape == before.rejected_invalid_shape
    &&& after.entries == before.entries
    &&& after.agents == before.agents
    &&& after.seed_block == before.seed_block
}

/// Refuses a block whose greatest similarity to the seed and the archive
/// reaches the threshold, and counts it; gives any other the next id.
pub fn let_in(
    archive: &mut Archive,
    agent: &str,
    round: usize,
    similarity: Measure,
    threshold: Measure,
    similarity_text: &str,
) -> (r: Admission)
    requires
        old(archive).rejected_near_duplicates < usize::MAX,
        old(archive).counter < usize::MAX,
    ensures
        r is Rejected <==> similarity.key >= threshold.key,
        r matches Admission::Rejected(j) ==> duplicate_refused(
            *old(archive),
            similarity_text@,
            *final(archive),
            j,
        ),
        r matches Admission::Admitted(id) ==> let_in_as(
            *old(archive),
            agent@,
            round as nat,
            *final(archive),
            id@,
        ),
        old(archive).counted() ==> final(archive).counted(),
{
    if similarity.at_least(threshold) {
        archive.rejected_near_duplicates = archive.rejected_near_duplicates + 1;
        let mut reason =
            "near-duplicate of an archived candidate or the seed (similarity ".to_owned();
        reason.append(similarity_text);
        reason.append("); make a substantive change");
        return Admission::Rejected(Rejection { reason, preview: None });
    }
    Admission::Admitted(archive.next_id(agent, round))
}

/// The name of the file that a candidate is written to.
pub fn file_name(id: &str) -> (r: String)
    ensures
        r@ == id@ + ".py"@,
{
    let mut out = id.to_owned();
    out.append(".py");
    out
}

/// A candidate that was let in and is to be measured.
#[derive(Debug)]
pub struct Draft {
    pub id: String,
    pub agent: String,
    pub round: usize,
    pub operator: String,
    pub parents: Vec<String>,
    pub guidance: Option<String>,
    pub block: String,
    pub code_path: String,
}

/// What the measurement of a draft is worth.
#[derive(Clone, Copy, Debug, PartialEq, Eq, Structural)]
pub struct Scores {
    pub performance: Measure,
    pub novelty: Measure,
    /// What a valid candidate is ranked by.
    pub rank_score: Measure,
    /// The least quality of a valid candidate: that of the baseline, less the
    /// tolerance.
    pub quality_floor: Measure,
}

/// Whether `c` is what a draft becomes once it is measured. A candidate that is
/// not valid scores zero.
pub open spec fn is_measured(
    draft: Draft,
    result: HarnessResult,
    scores: Scores,
    now: u64,
    c: Candidate,
) -> bool {
    &&& c.valid == valid_result(result, scores.quality_floor)
    &&& c.score == if c.valid {
        scores.rank_score
    } else {
        Measure::spec_zero()
    }
    &&& c.performance == scores.performance
    &&& c.novelty == scores.novelty
    &&& c.result == result
    &&& c.created_at == now
    &&& c.id == draft.id
    &&& c.agent == draft.agent
    &&& c.round == draft.round
    &&& c.operator == draft.operator
    &&& c.parents == draft.parents
    &&& c.guidance == draft.guidance
    &&& c.block == draft.block
    &&& c.code_path == draft.code_path
}

/// The candidate that a draft becomes once it is measured.
pub fn evaluate_block(draft: Draft, result: HarnessResult, scores: Scores, now: u64) -> (r: Candidate)
    ensures
        is_measured(draft, result, scores, now, r),
{
    let valid = is_valid(&result, scores.quality_floor);
    let score = if valid {
        scores.rank_score
    } else {
        Measure::zero()
    };
    Candidate {
        id: draft.id,
        agent: draft.agent,
        round: draft.round,
        operator: draft.operator,
        parents: draft.parents,
        guidance: draft.guidance,
        block: draft.block,
        code_path: draft.code_path,
        result,
        performance: scores.performance,
        novelty: scores.novelty,
        score,
        valid,
        created_at: now,
    }
}

/// How far a block has come on its way into the archive: its shape is checked,
/// then its similarity, then it is measured, and then it is one more entry.
#[derive(Debug)]
pub enum Serving {
    /// It has come in.
    Shape(Draft),
    /// It defines the model.
    Similarity(Draft),
    /// It is let in, under the id of the draft.
    Measurement(Draft),
    /// It is measured.
    Entry(Candidate),
    /// It was reported on.
    Closed,
}

/// What happens to a block on its way into the archive.
#[derive(Debug)]
pub enum ServeEvent {
    /// Nothing yet.
    Begin,
    /// It was compared with the seed and the archive: its greatest similarity, also
    /// as text, and the threshold for it.
    Compared { similarity: Measure, threshold: Measure, text: String },
    /// It was written to a file and measured.
    Measured { code_path: String, result: HarnessResult, scores: Scores, now: u64 },
    /// The candidate was recorded on disk.
    Recorded,
}

/// What is done next with a block.
#[derive(Debug)]
pub enum ServeAction {
    /// It is compared with the seed and the archive.
    Compare,
    /// It is measured, under this id.
    Measure(String),
    /// The candidate is recorded on disk.
    Record,
    /// This is what became of it.
    Report(SampleReport),
}

impl Serving {
    /// Whether an event is one that this state waits for.
    pub open spec fn awaits(self, event: ServeEvent) -> bool {
        match event {
            ServeEvent::Begin => self is Shape,
            ServeEvent::Compared { .. } => self is Similarity,
            ServeEvent::Measured { .. } => self is Measurement,
            ServeEvent::Recorded => self is Entry,
        }
    }

    /// Whether the id that this goes by, where it has one, is not beyond `counter`.
    pub open spec fn numbered(self, counter: nat) -> bool {
        match self {
            Serving::Measurement(d) => id_number(d.id@) matches Some(n) ==> n <= counter,
            Serving::Entry(c) => id_number(c.id@) matches Some(n) ==> n <= counter,
            _ => true,
        }
    }

    /// What follows an event. A block is refused for its shape before it is
    /// compared with anything, and for its similarity before it gets an id and is
    /// measured; one that is measured becomes one entry at the end of the archive,
    /// valid or not.
    pub fn step(self, archive: &mut Archive, event: ServeEvent) -> (r: (Serving, ServeAction))
        requires
            self.awaits(event),
            event is Begin ==> old(archive).rejected_invalid_shape < usize::MAX,
            event is Compared ==> old(archive).rejected_near_duplicates < usize::MAX && old(
                archive,
            ).counter < usize::MAX,
        ensures
            match (self, event) {
                (Serving::Shape(d), ServeEvent::Begin) => match r.1 {
                    ServeAction::Compare => {
                        &&& contains_text(d.block@, MODEL_CLASS@)
                        &&& r.0 == Serving::Similarity(d)
                        &&& *final(archive) == *old(archive)
                    },
                    ServeAction::Report(SampleReport::Rejected(j)) => {
                        &&& !contains_text(d.block@, MODEL_CLASS@)
                        &&& r.0 is Closed
                        &&& shape_refused(*old(archive), d.block@, *final(archive), j)
                    },
                    _ => false,
                },
                (
                    Serving::Similarity(d),
                    ServeEvent::Compared { similarity, threshold, text },
                ) => match r.1 {
                    ServeAction::Report(SampleReport::Rejected(j)) => {
                        &&& similarity.key >= threshold.key
                        &&& r.0 is Closed
                        &&& duplicate_refused(*old(archive), text@, *final(archive), j)
                    },
                    ServeAction::Measure(id) => {
                        &&& similarity.key < threshold.key
                        &&& let_in_as(
                            *old(archive),
                            d.agent@,
                            d.round as nat,
                            *final(archive),
                            id@,
                        )
                        &&& r.0 matches Serving::Measurement(e)
                        &&& e.id@ == id@
                        &&& e == (Draft { id: e.id, ..d })
                    },
                    _ => false,
                },
                (
                    Serving::Measurement(d),
                    ServeEvent::Measured { code_path, result, scores, now },
                ) => {
                    &&& r.1 is Record
                    &&& *final(archive) == *old(archive)
                    &&& r.0 matches Serving::Entry(c)
                    &&& is_measured(Draft { code_path, ..d }, result, scores, now, c)
                },
                (Serving::Entry(c), ServeEvent::Recorded) => {
                    &&& r.0 is Closed
                    &&& r.1 == ServeAction::Report(
                        SampleReport::Archived(old(archive).entries@.len() as usize),
                    )
                    &&& old(archive).entries@.len() <= usize::MAX
                    &&& final(archive).entries@ == old(archive).entries@.push(c)
                    &&& final(archive).seed_block == old(archive).seed_block
                    &&& final(archive).agents == old(archive).agents
                    &&& final(archive).counter == old(archive).counter
                    &&& final(archive).rejected_near_duplicates == old(
                        archive,
                    ).rejected_near_duplicates
                    &&& final(archive).rejected_invalid_shape == old(
                        archive,
                    ).rejected_invalid_shape
                },
                _ => true,
            },
            event !is Recorded ==> final(archive).entries == old(archive).entries,
            old(archive).counter <= final(archive).counter,
            old(archive).counted() && self.numbered(old(archive).counter as nat) ==> {
                &&& final(archive).counted()
                &&& r.0.numbered(final(archive).counter as nat)
            },
    {
        match (self, event) {
            (Serving::Shape(d), ServeEvent::Begin) => match check_shape(
                archive,
                d.block.as_str(),
            ) {
                Some(j) => (Serving::Closed, ServeAction::Report(SampleReport::Rejected(j))),
                None => (Serving::Similarity(d), ServeAction::Compare),
            },
            (
                Serving::Similarity(mut d),
                ServeEvent::Compared { similarity, threshold, text },
            ) => {
                match let_in(
                    archive,
                    d.agent.as_str(),
                    d.round,
                    similarity,
                    threshold,
                    text.as_str(),
                ) {
                    Admission::Rejected(j) => (
                        Serving::Closed,
                        ServeAction::Report(SampleReport::Rejected(j)),
                    ),
                    Admission::Admitted(id) => {
                        proof {
                            id_number_reads_back(
                                d.agent@,
                                d.round as nat,
                                archive.counter as nat,
                            );
                        }
                        d.id = id.clone();
                        (Serving::Measurement(d), ServeAction::Measure(id))
                    },
                }
            },
            (
                Serving::Measurement(mut d),
                ServeEvent::Measured { code_path, result, scores, now },
            ) => {
                d.code_path = code_path;
                (Serving::Entry(evaluate_block(d, result, scores, now)), ServeAction::Record)
            },
            (Serving::Entry(c), ServeEvent::Recorded) => {
                let position = archive.len();
                archive.insert(c);
                (Serving::Closed, ServeAction::Report(SampleReport::Archived(position)))
            },
            // No other event is awaited.
            (state, _) => (state, ServeAction::Compare),
        }
    }
}

/// A word names crossover where it is that word in any case, with white space
/// around it or not; every other word names mutation.
pub proof fn operators_go_by_their_word(s: Seq<char>)
    ensures
        lowercase(trimmed(s)) == "crossover"@ && all_ascii(trimmed(s)) ==> Operator::named(s)
            == Operator::Crossover,
        Operator::named(s) == Operator::Crossover ==> trimmed(s).len() == 9 && forall|i: int|
            0 <= i < 9 ==> ascii_lower(#[trigger] trimmed(s)[i]) == "crossover"@[i] as int,
        Operator::named("crossover"@) == Operator::Crossover,
        Operator::named("mutate"@) == Operator::Mutate,
        Operator::Crossover.name_text() == "crossover"@,
        Operator::Mutate.name_text() == "mutate"@,
{
    reveal_strlit("crossover");
    reveal_strlit("mutate");
    operator_names_read_back(Operator::Crossover);
    operator_names_read_back(Operator::Mutate);
    let t = trimmed(s);
    let w = "crossover"@;
    if lowercase(t) == w && all_ascii(t) {
        lower_case_is_letter_by_letter(t);
        assert forall|i: int| 0 <= i < t.len() implies ascii_lower(t[i]) == #[trigger] ascii_lower(
            w[i],
        ) by {
            assert(lowercase(t)[i] == w[i]);
        }
    }
    if Operator::named(s) == Operator::Crossover {
        assert forall|i: int| 0 <= i < 9 implies ascii_lower(#[trigger] t[i]) == w[i] as int by {
            assert(ascii_lower(t[i]) == ascii_lower(w[i]));
        }
    }
}

/// A candidate that is derived from one parent is a mutation of it, and names that
/// parent; one that is derived from two is a crossover, and names both in the
/// order that they were drawn in. A pair that could not be drawn stands for the
/// seed.
pub proof fn lineage_is_what_was_drawn(drawn: Drawn, seed_block: Seq<char>)
    ensures
        ({
            let l = lineage_of(drawn, seed_block);
            match drawn {
                Drawn::Single(p) => {
                    &&& l.operator() == Operator::Mutate
                    &&& l.ids() == seq![p.id@]
                    &&& l == LineageView::One(p@)
                },
                Drawn::Pair(Some((a, b))) => {
                    &&& l.operator() == Operator::Crossover
                    &&& l.ids().len() == 2
                    &&& l.ids()[0] == a.id@ && l.ids()[1] == b.id@
                    &&& l == LineageView::Two(a@, b@)
                },
                Drawn::Pair(None) => {
                    &&& l.operator() == Operator::Mutate
                    &&& l.ids() == seq![SEED_ID@]
                    &&& l matches LineageView::One(p) && p.block == seed_block
                },
            }
        }),
{
}

/// The prompt for a candidate shows the code, the label and the metrics of every
/// parent it is derived from, the first in front of the second.
pub proof fn prompts_show_every_parent(
    lineage: LineageView,
    brief: Brief,
    first: Seq<char>,
    second: Seq<char>,
    guidance: Option<Seq<char>>,
)
    ensures
        ({
            let text = lineage.prompt_text(brief, first, second, guidance);
            match lineage {
                LineageView::One(p) => {
                    &&& contains_text(text, p.label)
                    &&& contains_text(text, p.block)
                    &&& contains_text(text, first)
                },
                LineageView::Two(a, b) => {
                    &&& contains_text(text, a.label) && contains_text(text, b.label)
                    &&& contains_text(text, a.block) && contains_text(text, b.block)
                    &&& contains_text(text, first) && contains_text(text, second)
                },
            }
        }),
{
    match lineage {
        LineageView::One(p) => mutation_prompt_shows_parent(brief, p, first, guidance),
        LineageView::Two(a, b) => {
            crossover_prompt_shows_both_parents(brief, a, first, b, second, guidance)
        },
    }
}

/// A block that is refused for its shape is counted once, leaves no entry and
/// takes no id, and its beginning is reported.
pub proof fn shapeless_blocks_leave_no_entry(
    before: Archive,
    block: Seq<char>,
    after: Archive,
    j: Rejection,
)
    requires
        shape_refused(before, block, after, j),
    ensures
        after.entries@ == before.entries@,
        after.counter == before.counter,
        after.rejected_invalid_shape == before.rejected_invalid_shape + 1,
        after.rejected_near_duplicates == before.rejected_near_duplicates,
        after.seed_block == before.seed_block && after.agents == before.agents,
        j.preview is Some,
        block.len() <= 300 ==> j.preview->0@ == block,
        block.len() > 300 ==> j.preview->0@.take(300) == block.take(300),
        j.reason@ == "the generated block does not define `class Model`"@,
{
    truncation_keeps_beginning(block, 300);
}

/// A block that is refused as a duplicate is counted once, leaves no entry and
/// takes no id, and the similarity is reported.
pub proof fn duplicates_leave_no_entry(
    before: Archive,
    similarity: Seq<char>,
    after: Archive,
    j: Rejection,
)
    requires
        duplicate_refused(before, similarity, after, j),
    ensures
        after.entries@ == before.entries@,
        after.counter == before.counter,
        after.rejected_near_duplicates == before.rejected_near_duplicates + 1,
        after.rejected_invalid_shape == before.rejected_invalid_shape,
        after.seed_block == before.seed_block && after.agents == before.agents,
        j.preview is None,
        in_order(
            j.reason@,
            seq![
                "near-duplicate of an archived candidate or the seed (similarity "@,
                similarity,
                "); make a substantive change"@,
            ],
        ),
{
    let a = "near-duplicate of an archived candidate or the seed (similarity "@;
    let b = "); make a substantive change"@;
    lemma_whole(a);
    show_part(a, seq![a], similarity);
    show_part(a + similarity, seq![a].push(similarity), b);
    assert(seq![a].push(similarity).push(b) =~= seq![a, similarity, b]);
}

/// A block that is let in gets an id of its agent and round, numbered one beyond
/// the last; nothing else changes until it is measured.
pub proof fn admitted_blocks_get_the_next_id(
    before: Archive,
    agent: Seq<char>,
    round: nat,
    after: Archive,
    id: Seq<char>,
)
    requires
        let_in_as(before, agent, round, after, id),
    ensures
        after.counter == before.counter + 1,
        id_number(id) == Some(after.counter as nat),
        id.take(agent.len() as int) == agent,
        id == agent + "-r"@ + decimal(round) + "-c"@ + zero_padded(after.counter as nat, 3),
        after.entries@ == before.entries@,
        after.rejected_near_duplicates == before.rejected_near_duplicates,
        after.rejected_invalid_shape == before.rejected_invalid_shape,
        after.seed_block == before.seed_block && after.agents == before.agents,
        ids_counted(before.entries@, before.counter as nat) ==> forall|i: int|
            0 <= i < before.entries@.len() ==> (#[trigger] before.entries@[i]).id@ != id,
{
    ids_name_agent_round_and_number(agent, round, after.counter as nat);
}

/// A measured candidate is its draft and its measurement, field by field. It
/// scores what it is ranked by where the harness ran it without an error on all
/// folds and with the quality asked for, and zero where it did not.
pub proof fn measured_candidates_keep_their_draft(
    draft: Draft,
    result: HarnessResult,
    scores: Scores,
    now: u64,
    c: Candidate,
)
    requires
        is_measured(draft, result, scores, now, c),
    ensures
        c.id@ == draft.id@ && c.agent@ == draft.agent@ && c.round == draft.round,
        c.operator@ == draft.operator@ && c.parents@ == draft.parents@,
        c.guidance == draft.guidance,
        c.block@ == draft.block@ && c.code_path@ == draft.code_path@,
        c.result == result,
        c.performance == scores.performance,
        c.novelty == scores.novelty,
        c.created_at == now,
        c.valid ==> c.score == scores.rank_score,
        !c.valid ==> c.score.key == 0,
        c.valid <==> {
            &&& result.status@ == "ok"@
            &&& result.syntax_error is None
            &&& result.runtime_errors@.len() == 0
            &&& result.n_folds_ok == result.n_folds_total
            &&& result.n_folds_total > 0
            &&& result.quality is Some
            &&& scores.quality_floor.key <= result.quality->0.key
        },
{
    validity_is_decided_by_errors_folds_and_quality(result, scores.quality_floor);
}

/// What is reported of a sample that could not be generated is the error, or its
/// beginning.
pub proof fn failures_report_the_error(report: SampleReport, error: Seq<char>)
    requires
        reports_failure(report, error),
    ensures
        report is GenerationFailed,
        error.len() <= 300 ==> report->GenerationFailed_0@ == error,
        error.len() > 300 ==> report->GenerationFailed_0@.take(300) == error.take(300),
{
    truncation_keeps_beginning(error, 300);
}

/// A state waits for one kind of event, and a block that was reported on for none.
pub proof fn servings_await_one_event(s: Serving, e: ServeEvent)
    ensures
        s is Shape ==> (s.awaits(e) <==> e is Begin),
        s is Similarity ==> (s.awaits(e) <==> e is Compared),
        s is Measurement ==> (s.awaits(e) <==> e is Measured),
        s is Entry ==> (s.awaits(e) <==> e is Recorded),
        s is Closed ==> !s.awaits(e),
{
}

/// The model of a lineage is that of its parents, in order.
pub proof fn lineages_are_their_parents(a: Parent, b: Parent)
    ensures
        Lineage::One(a)@ == LineageView::One(a@),
        Lineage::Two(a, b)@ == LineageView::Two(a@, b@),
{
}

/// Samples are made until there are as many as were asked for, and never more.
pub proof fn batches_end_with_what_was_asked_for(b: Batch)
    ensures
        b.unfinished() <==> b.samples@.len() + 1 <= b.asked,
        b.wf() <==> b.samples@.len() <= b.asked,
        b.wf() && !b.unfinished() ==> b.samples@.len() == b.asked,
{
}

} // verus!
