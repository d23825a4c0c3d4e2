//! The search for a better sample: populations of samples, generation after
//! generation, of which the best is kept.

use vstd::prelude::*;
use vstd::string::*;

use crate::agent::database::{
    Connection, Figures, RelationalEntry, Source, SourceView, WritePlan, WriteView, CODE, TEST_DATA,
    TRAINING_DATA,
};
use crate::agent::evaluator::{best_entry, given_or_stored, no_entry, no_entry_message};
use crate::digits::{decimal, write_usize};
use crate::gemini::first_candidate_of;
use crate::json::{element_of, field, member_of, nth, option_view, text, text_of, Json, Tree};
use crate::measure::Measure;
use crate::text::{
    after_prefix, in_order, is_blank, is_blank_text, lemma_whole, occurs_at, rfind, rfind_text,
    show_part, skip_class, skip_leading, string_views, strip_prefix, trim, trimmed,
    trimmed_texts_keep_the_rest, white_space, CharClass,
};

verus! {

/// How large a search is.
#[derive(Debug)]
pub struct Parameters {
    /// How many generations there are at most.
    pub generations: usize,
    /// How many populations a generation has.
    pub population_size: usize,
    /// How many samples a population has.
    pub samples_per_population: usize,
    /// The threshold that ends the search, as it is written.
    pub mu_threshold: Option<String>,
}

/// How many populations a generation has unless it is said otherwise.
pub const POPULATIONS: usize = 3;

/// How many samples a population has unless it is said otherwise.
pub const SAMPLES: usize = 4;

/// Why a search is refused that is not said to last.
pub const NO_GENERATIONS: &'static str = "evolution requires a 'generations' field";

/// Why an empty search is refused.
pub const EMPTY_SEARCH: &'static str =
    "'generations', 'population_size', and 'samples_per_population' must all be greater than 0";

/// A size, or the default.
pub open spec fn size_or(n: Option<u64>, default: usize) -> usize {
    match n {
        Some(n) => n as usize,
        None => default,
    }
}

/// Why the search that some arguments ask for is refused, where it is.
pub open spec fn search_fault(args: Tree) -> Option<Seq<char>> {
    match args.whole_member("generations"@) {
        None => Some(NO_GENERATIONS@),
        Some(n) => if n as usize == 0 || size_or(
            args.whole_member("population_size"@),
            POPULATIONS,
        ) == 0 || size_or(args.whole_member("samples_per_population"@), SAMPLES) == 0 {
            Some(EMPTY_SEARCH@)
        } else {
            None
        },
    }
}

fn size(n: Option<u64>, default: usize) -> (r: usize)
    ensures
        r == size_or(n, default),
{
    match n {
        Some(n) => {
            #[verifier::truncate]
            (n as usize)
        },
        None => default,
    }
}

/// Reads how large a search is to be.
pub fn read_parameters(args: &Json) -> (r: Result<Parameters, String>)
    ensures
        match r {
            Ok(p) => {
                &&& search_fault(args@) is None
                &&& Some(p.generations) == match args@.whole_member("generations"@) {
                    Some(n) => Some(n as usize),
                    None => None,
                }
                &&& p.population_size == size_or(
                    args@.whole_member("population_size"@),
                    POPULATIONS,
                )
                &&& p.samples_per_population == size_or(
                    args@.whole_member("samples_per_population"@),
                    SAMPLES,
                )
                &&& option_view(p.mu_threshold) == args@.number_member("mu_threshold"@)
                &&& p.generations > 0
                &&& p.population_size > 0
                &&& p.samples_per_population > 0
            },
            Err(e) => search_fault(args@) == Some(e@),
        },
{
    let generations: usize = match args.whole_field("generations") {
        Some(n) => size(Some(n), 0),
        None => {
            return Err(NO_GENERATIONS.to_owned());
        },
    };
    let population_size: usize = size(args.whole_field("population_size"), POPULATIONS);
    let samples_per_population: usize = size(args.whole_field("samples_per_population"), SAMPLES);
    if generations == 0 || population_size == 0 || samples_per_population == 0 {
        return Err(EMPTY_SEARCH.to_owned());
    }
    Ok(
        Parameters {
            generations,
            population_size,
            samples_per_population,
            mu_threshold: args.number_field("mu_threshold"),
        },
    )
}

/// What a search works on.
#[derive(Debug)]
pub struct Inputs {
    pub original_code: String,
    pub training_data: String,
    pub test_data: String,
}

/// The mathematical model of what a search works on.
pub struct InputsView {
    pub original_code: Seq<char>,
    pub training_data: Seq<char>,
    pub test_data: Seq<char>,
}

impl View for Inputs {
    type V = InputsView;

    open spec fn view(&self) -> InputsView {
        InputsView {
            original_code: self.original_code@,
            training_data: self.training_data@,
            test_data: self.test_data@,
        }
    }
}

/// What a search works on: what the arguments give, and the best that is stored
/// of the rest. The first thing that is missing is the error.
pub open spec fn inputs_of(
    args: Tree,
    entries: Seq<RelationalEntry>,
    algorithm: Seq<char>,
) -> Result<InputsView, Seq<char>> {
    let original = given_or_stored(
        args.text_member("original_code"@),
        best_entry(entries, CODE@, algorithm),
        no_entry(CODE@, algorithm),
    );
    let training = given_or_stored(
        args.text_member("training_data"@),
        best_entry(entries, TRAINING_DATA@, algorithm),
        no_entry(TRAINING_DATA@, algorithm),
    );
    let test = given_or_stored(
        args.text_member("test_data"@),
        best_entry(entries, TEST_DATA@, algorithm),
        no_entry(TEST_DATA@, algorithm),
    );
    match (original, training, test) {
        (Err(e), _, _) => Err(e),
        (_, Err(e), _) => Err(e),
        (_, _, Err(e)) => Err(e),
        (Ok(original_code), Ok(training_data), Ok(test_data)) => Ok(
            InputsView { original_code, training_data, test_data },
        ),
    }
}

/// Inputs or an error, without their memory.
pub open spec fn inputs_view(r: Result<Inputs, String>) -> Result<InputsView, Seq<char>> {
    match r {
        Ok(i) => Ok(i@),
        Err(e) => Err(e@),
    }
}

/// Gathers what a search works on.
pub fn gather_inputs(args: &Json, store: &Connection, algorithm: &str) -> (r: Result<
    Inputs,
    String,
>)
    ensures
        inputs_view(r) == inputs_of(args@, store.entries@, algorithm@),
{
    let original_code = match args.owned_field("original_code") {
        Some(s) => s,
        None => match store.best_entry(CODE, algorithm) {
            Some(s) => s,
            None => {
                return Err(no_entry_message(CODE, algorithm));
            },
        },
    };
    let training_data = match args.owned_field("training_data") {
        Some(s) => s,
        None => match store.best_entry(TRAINING_DATA, algorithm) {
            Some(s) => s,
            None => {
                return Err(no_entry_message(TRAINING_DATA, algorithm));
            },
        },
    };
    let test_data = match args.owned_field("test_data") {
        Some(s) => s,
        None => match store.best_entry(TEST_DATA, algorithm) {
            Some(s) => s,
            None => {
                return Err(no_entry_message(TEST_DATA, algorithm));
            },
        },
    };
    Ok(Inputs { original_code, training_data, test_data })
}

/// A sample that was scored.
#[derive(Debug)]
pub struct Sample {
    pub id: String,
    pub code: String,
    pub novelty: Measure,
    pub time_seconds: Measure,
    pub accuracy: Measure,
    pub performance: Measure,
    pub rank: Measure,
    pub syntax_errors: u32,
    pub runtime_errors: u32,
}

/// The id of a sample. Generations count from one, the rest from zero.
pub open spec fn sample_id_text(generation: nat, population: nat, sample: nat) -> Seq<char> {
    "gen"@ + decimal(generation) + "_pop"@ + decimal(population) + "_sample"@ + decimal(sample)
}

/// Writes the id of a sample.
pub fn sample_id(generation: usize, population: usize, sample: usize) -> (r: String)
    ensures
        r@ == sample_id_text(generation as nat, population as nat, sample as nat),
{
    let mut out = "gen".to_owned();
    out.append(write_usize(generation).as_str());
    out.append("_pop");
    out.append(write_usize(population).as_str());
    out.append("_sample");
    out.append(write_usize(sample).as_str());
    out
}

/// The sample of a population with the greatest rank, the first among equals.
pub open spec fn top_of(population: Seq<Sample>) -> Option<Sample>
    decreases population.len(),
{
    if population.len() == 0 {
        None
    } else {
        better_sample(top_of(population.drop_last()), population.last())
    }
}

/// The second sample where it ranks higher than the first, or there is no
/// first; else the first.
pub open spec fn better_sample(best: Option<Sample>, s: Sample) -> Option<Sample> {
    match best {
        None => Some(s),
        Some(b) => if s.rank.key > b.rank.key {
            Some(s)
        } else {
            Some(b)
        },
    }
}

/// The best sample once a population is in.
pub open spec fn best_with(best: Option<Sample>, population: Seq<Sample>) -> Option<Sample> {
    match top_of(population) {
        None => best,
        Some(top) => better_sample(best, top),
    }
}

/// The best sample of some populations.
pub open spec fn best_of_all(populations: Seq<Seq<Sample>>) -> Option<Sample>
    decreases populations.len(),
{
    if populations.len() == 0 {
        None
    } else {
        best_with(best_of_all(populations.drop_last()), populations.last())
    }
}

proof fn lemma_top_of(population: Seq<Sample>)
    ensures
        top_of(population) is None <==> population.len() == 0,
        top_of(population) matches Some(t) ==> {
            &&& population.contains(t)
            &&& forall|i: int|
                0 <= i < population.len() ==> (#[trigger] population[i]).rank.key <= t.rank.key
        },
    decreases population.len(),
{
    if population.len() > 0 {
        let rest = population.drop_last();
        lemma_top_of(rest);
        let t = top_of(population)->0;
        if top_of(rest) is Some && rest.contains(t) {
            let k = choose|k: int| 0 <= k < rest.len() && rest[k] == t;
            assert(population[k] == t);
        }
        assert(population[population.len() - 1] == population.last());
        assert forall|i: int| 0 <= i < population.len() implies (#[trigger] population[i]).rank.key
            <= t.rank.key by {
            if i < rest.len() {
                assert(rest[i] == population[i]);
            }
        }
    }
}

/// The best sample is one of those that were seen, and none of them ranks
/// higher.
pub proof fn best_ranks_highest(populations: Seq<Seq<Sample>>)
    ensures
        best_of_all(populations) matches Some(b) ==> {
            &&& exists|p: int|
                0 <= p < populations.len() && (#[trigger] populations[p]).contains(b)
            &&& forall|p: int, i: int|
                0 <= p < populations.len() && 0 <= i < populations[p].len()
                    ==> (#[trigger] populations[p][i]).rank.key <= b.rank.key
        },
        best_of_all(populations) is None ==> forall|p: int|
            0 <= p < populations.len() ==> (#[trigger] populations[p]).len() == 0,
    decreases populations.len(),
{
    if populations.len() > 0 {
        let rest = populations.drop_last();
        let last = populations.last();
        best_ranks_highest(rest);
        lemma_top_of(last);
        if let Some(b) = best_of_all(populations) {
            if top_of(last) == Some(b) {
                assert(populations[populations.len() - 1].contains(b));
            } else {
                let p = choose|p: int| 0 <= p < rest.len() && (#[trigger] rest[p]).contains(b);
                assert(populations[p].contains(b));
            }
            assert forall|p: int, i: int|
                0 <= p < populations.len() && 0 <= i < populations[p].len() implies (
            #[trigger] populations[p][i]).rank.key <= b.rank.key by {
                if p < rest.len() {
                    assert(rest[p] == populations[p]);
                    assert(rest[p][i] == populations[p][i]);
                } else {
                    assert(populations[p] == last);
                }
            }
        } else {
            assert forall|p: int| 0 <= p < populations.len() implies (#[trigger]
            populations[p]).len() == 0 by {
                if p < rest.len() {
                    assert(rest[p] == populations[p]);
                }
            }
        }
    }
}

/// How far a search has come.
#[derive(Debug)]
pub struct Search {
    /// How many generations there are at most.
    pub generations: usize,
    /// How many populations a generation has.
    pub population_size: usize,
    /// How many samples a population is asked for.
    pub samples_per_population: usize,
    /// How many generations were begun.
    pub iterations_run: usize,
    /// How many populations of this generation are in.
    pub populations_run: usize,
    /// The squashed rank of the best sample; zero before there is one.
    pub mu: Measure,
    pub threshold: Measure,
    pub best: Option<Sample>,
}

/// What happens in a search.
#[derive(Debug)]
pub enum SearchEvent {
    /// Nothing yet.
    Begin,
    /// A population was generated and scored.
    Population(Vec<Sample>),
    /// A generation was rated: this is the squashed rank of the best sample.
    Rated(Measure),
}

/// What is done next in a search.
#[derive(Clone, Copy, Debug, PartialEq, Eq, Structural)]
pub enum SearchAction {
    /// A population of this many samples is generated and scored. Generations
    /// count from one, populations from zero.
    Generate { generation: usize, population: usize, samples: usize },
    /// All populations of a generation are in: the best sample is rated.
    Rate,
    /// The search is over.
    Done,
}

impl Search {
    /// Whether this is a state that a search can be in. There is a best sample only
    /// where a generation was run.
    pub open spec fn wf(self) -> bool {
        &&& self.population_size > 0
        &&& self.samples_per_population > 0
        &&& self.iterations_run <= self.generations
        &&& self.populations_run <= self.population_size
        &&& self.iterations_run == 0 ==> self.populations_run == 0
        &&& self.best is Some ==> self.iterations_run > 0
    }

    /// Whether another generation follows.
    pub open spec fn goes_on(self) -> bool {
        self.mu.key < self.threshold.key && self.iterations_run < self.generations
    }

    /// Whether a population is waited for.
    pub open spec fn gathers(self) -> bool {
        self.iterations_run > 0 && self.populations_run < self.population_size
    }

    /// Whether all populations of a generation are in.
    pub open spec fn rates(self) -> bool {
        self.iterations_run > 0 && self.populations_run == self.population_size
    }

    /// Whether this is a state of the same search as the other.
    pub open spec fn same_search(self, other: Search) -> bool {
        &&& self.generations == other.generations
        &&& self.population_size == other.population_size
        &&& self.samples_per_population == other.samples_per_population
        &&& self.threshold == other.threshold
    }

    /// The request for the next population.
    pub open spec fn asks(self) -> SearchAction {
        SearchAction::Generate {
            generation: self.iterations_run,
            population: self.populations_run,
            samples: self.samples_per_population,
        }
    }

    /// How many populations were generated so far.
    pub open spec fn made(self) -> int {
        if self.iterations_run == 0 {
            0
        } else {
            (self.iterations_run - 1) * self.population_size + self.populations_run
        }
    }

    /// A search that begins.
    pub fn start(parameters: &Parameters, threshold: Measure) -> (r: Search)
        requires
            parameters.population_size > 0,
            parameters.samples_per_population > 0,
        ensures
            r.wf(),
            r.generations == parameters.generations,
            r.population_size == parameters.population_size,
            r.samples_per_population == parameters.samples_per_population,
            r.iterations_run == 0,
            r.populations_run == 0,
            r.mu == Measure::spec_zero(),
            r.threshold == threshold,
            r.best is None,
    {
        Search {
            generations: parameters.generations,
            population_size: parameters.population_size,
            samples_per_population: parameters.samples_per_population,
            iterations_run: 0,
            populations_run: 0,
            mu: Measure::zero(),
            threshold,
            best: None,
        }
    }

    /// Begins another generation, unless the threshold is reached or none is
    /// left.
    fn begin_generation(&mut self) -> (r: SearchAction)
        requires
            old(self).wf(),
            !old(self).gathers(),
        ensures
            final(self).wf(),
            final(self).same_search(*old(self)),
            final(self).mu == old(self).mu,
            final(self).best == old(self).best,
            if old(self).goes_on() {
                &&& final(self).iterations_run == old(self).iterations_run + 1
                &&& final(self).populations_run == 0
                &&& r == final(self).asks()
            } else {
                &&& *final(self) == *old(self)
                &&& r is Done
            },
    {
        if self.mu.less(self.threshold) && self.iterations_run < self.generations {
            self.iterations_run = self.iterations_run + 1;
            self.populations_run = 0;
            SearchAction::Generate {
                generation: self.iterations_run,
                population: 0,
                samples: self.samples_per_population,
            }
        } else {
            SearchAction::Done
        }
    }

    /// Takes in a population: its top sample is the best one where it ranks
    /// higher than the best so far.
    fn add_population(&mut self, population: Vec<Sample>)
        requires
            old(self).wf(),
            old(self).gathers(),
        ensures
            final(self).wf(),
            final(self).same_search(*old(self)),
            final(self).best == best_with(old(self).best, population@),
            final(self).iterations_run == old(self).iterations_run,
            final(self).populations_run == old(self).populations_run + 1,
            final(self).mu == old(self).mu,
    {
        self.populations_run = self.populations_run + 1;
        let ghost all = population@;
        let mut population = population;
        if population.len() == 0 {
            return;
        }
        let mut k: usize = 0;
        let mut i: usize = 1;
        assert(all.take(1).drop_last() =~= all.take(0));
        assert(top_of(all.take(0)) is None);
        assert(all.take(1).last() == all[0]);
        while i < population.len()
            invariant
                population@ == all,
                k < i <= all.len(),
                top_of(all.take(i as int)) == Some(all[k as int]),
            decreases population.len() - i,
        {
            assert(all.take(i + 1).drop_last() =~= all.take(i as int));
            assert(all.take(i + 1).last() == all[i as int]);
            if population[k].rank.less(population[i].rank) {
                k = i;
            }
            i += 1;
        }
        assert(all.take(all.len() as int) =~= all);
        let top = population.remove(k);
        let higher = match &self.best {
            None => true,
            Some(b) => b.rank.less(top.rank),
        };
        if higher {
            self.best = Some(top);
        }
    }

    /// What follows an event. A generation asks for one population after the other
    /// until it has all of them; it is rated, and the next one begins unless the
    /// threshold is reached or none is left.
    pub fn step(&mut self, event: SearchEvent) -> (r: SearchAction)
        requires
            old(self).wf(),
            match event {
                SearchEvent::Begin => old(self).iterations_run == 0,
                SearchEvent::Population(_) => old(self).gathers(),
                SearchEvent::Rated(_) => old(self).rates(),
            },
        ensures
            final(self).wf(),
            final(self).same_search(*old(self)),
            final(self).best == match event {
                SearchEvent::Population(p) => best_with(old(self).best, p@),
                _ => old(self).best,
            },
            final(self).mu == match event {
                SearchEvent::Rated(mu) => if old(self).best is Some {
                    mu
                } else {
                    old(self).mu
                },
                _ => old(self).mu,
            },
            match event {
                SearchEvent::Population(_) => {
                    &&& final(self).iterations_run == old(self).iterations_run
                    &&& final(self).populations_run == old(self).populations_run + 1
                    &&& r == if final(self).gathers() {
                        final(self).asks()
                    } else {
                        SearchAction::Rate
                    }
                },
                _ => if final(self).mu.key < old(self).threshold.key && old(self).iterations_run
                    < old(self).generations {
                    &&& final(self).iterations_run == old(self).iterations_run + 1
                    &&& final(self).populations_run == 0
                    &&& r == final(self).asks()
                } else {
                    &&& final(self).iterations_run == old(self).iterations_run
                    &&& final(self).populations_run == old(self).populations_run
                    &&& r is Done
                },
            },
            r is Generate ==> final(self).gathers(),
            r is Rate ==> final(self).rates(),
            r is Done ==> !final(self).goes_on(),
            forall|seen: Seq<Seq<Sample>>|
                old(self).best == #[trigger] best_of_all(seen) ==> final(self).best
                    == best_of_all(seen_after(seen, event)),
    {
        let ghost given = event;
        let ghost before = self.best;
        let r = match event {
            SearchEvent::Begin => self.begin_generation(),
            SearchEvent::Population(population) => {
                self.add_population(population);
                if self.populations_run < self.population_size {
                    SearchAction::Generate {
                        generation: self.iterations_run,
                        population: self.populations_run,
                        samples: self.samples_per_population,
                    }
                } else {
                    SearchAction::Rate
                }
            },
            SearchEvent::Rated(mu) => {
                if self.best.is_some() {
                    self.mu = mu;
                }
                self.begin_generation()
            },
        };
        proof {
            assert forall|seen: Seq<Seq<Sample>>|
                before == #[trigger] best_of_all(seen) implies self.best == best_of_all(
                seen_after(seen, given),
            ) by {
                if let SearchEvent::Population(p) = given {
                    assert(seen.push(p@).drop_last() =~= seen);
                }
            }
        }
        r
    }

    /// The sample that a search ends with. Where there is one, a generation was
    /// run.
    pub fn finish(self) -> (r: Result<Sample, String>)
        requires
            self.wf(),
        ensures
            match r {
                Ok(s) => self.best == Some(s) && 1 <= self.iterations_run <= self.generations,
                Err(e) => self.best is None && e@ == "evolution produced no viable samples"@,
            },
    {
        match self.best {
            Some(s) => Ok(s),
            None => Err("evolution produced no viable samples".to_owned()),
        }
    }
}

/// The populations that were seen once an event is over.
pub open spec fn seen_after(seen: Seq<Seq<Sample>>, event: SearchEvent) -> Seq<Seq<Sample>> {
    match event {
        SearchEvent::Population(p) => seen.push(p@),
        _ => seen,
    }
}

/// A search that has stopped before its last generation has reached the
/// threshold; and the sample that it ends with ranks highest of all that were
/// seen.
pub proof fn search_ends_with_the_best(search: Search, seen: Seq<Seq<Sample>>)
    requires
        search.wf(),
        !search.goes_on(),
        search.best == best_of_all(seen),
    ensures
        search.iterations_run < search.generations ==> search.mu.key >= search.threshold.key,
        search.best matches Some(b) ==> {
            &&& 1 <= search.iterations_run <= search.generations
            &&& exists|p: int| 0 <= p < seen.len() && (#[trigger] seen[p]).contains(b)
            &&& forall|p: int, i: int|
                0 <= p < seen.len() && 0 <= i < seen[p].len() ==> (
                #[trigger] seen[p][i]).rank.key <= b.rank.key
        },
{
    best_ranks_highest(seen);
}

/// A search makes no more populations than its generations have in all, and every
/// generation that is rated has had all of its own.
pub proof fn search_is_bounded(search: Search)
    requires
        search.wf(),
    ensures
        0 <= search.made() <= search.generations * search.population_size,
        search.rates() ==> search.made() == search.iterations_run * search.population_size,
{
    let g = search.generations as int;
    let n = search.iterations_run as int;
    let size = search.population_size as int;
    assert(n > 0 ==> (n - 1) * size + size == n * size) by (nonlinear_arith);
    assert(n > 0 ==> (n - 1) * size >= 0) by (nonlinear_arith)
        requires
            size > 0,
    ;
    assert(n * size <= g * size) by (nonlinear_arith)
        requires
            n <= g,
            size > 0,
    ;
    assert(g * size >= 0) by (nonlinear_arith)
        requires
            g >= 0,
            size > 0,
    ;
}

/// The replies that the samples of a population are taken from, one after the
/// other.
#[derive(Debug)]
pub struct Replies {
    /// How many are asked for.
    pub asked: usize,
    pub texts: Vec<String>,
}

/// What is done next while replies come in.
#[derive(Debug)]
pub enum RepliesAction {
    /// The model is asked for another sample.
    Ask,
    /// All replies are in: these are the samples, or why there are none.
    Samples(Result<Vec<String>, String>),
}

/// Whether `r` is what some replies come to: the code in those that hold any, or
/// an error where none does.
pub open spec fn samples_taken(replies: Seq<Seq<char>>, r: Result<Vec<String>, String>) -> bool {
    match r {
        Ok(v) => v@.len() > 0 && string_views(v@) == samples_in(replies),
        Err(e) => samples_in(replies).len() == 0 && e@ == "Gemini returned no usable samples"@,
    }
}

/// A population has no more samples than it was asked for.
pub proof fn samples_are_bounded(replies: Seq<Seq<char>>)
    ensures
        samples_in(replies).len() <= replies.len(),
    decreases replies.len(),
{
    if replies.len() > 0 {
        samples_are_bounded(replies.drop_last());
    }
}

impl Replies {
    /// The replies for a population of this many samples, none of them in yet.
    pub fn start(samples: usize) -> (r: Replies)
        ensures
            r.asked == samples,
            r.texts@ == Seq::<String>::empty(),
    {
        Replies { asked: samples, texts: Vec::new() }
    }

    /// What follows a reply, or nothing yet: the model is asked until there are as
    /// many replies as samples were asked for.
    pub fn step(&mut self, reply: Option<&Json>) -> (r: RepliesAction)
        requires
            reply is Some ==> old(self).texts@.len() < old(self).asked,
        ensures
            final(self).asked == old(self).asked,
            string_views(final(self).texts@) == match reply {
                Some(j) => string_views(old(self).texts@).push(first_text(j@)),
                None => string_views(old(self).texts@),
            },
            match r {
                RepliesAction::Ask => final(self).texts@.len() < final(self).asked,
                RepliesAction::Samples(samples) => {
                    &&& final(self).texts@.len() >= final(self).asked
                    &&& samples_taken(string_views(final(self).texts@), samples)
                },
            },
    {
        let ghost before = string_views(self.texts@);
        if let Some(j) = reply {
            self.texts.push(reply_text(j));
            assert(string_views(self.texts@) =~= before.push(first_text(j@)));
        }
        if self.texts.len() < self.asked {
            RepliesAction::Ask
        } else {
            RepliesAction::Samples(generate_samples(&self.texts))
        }
    }
}

/// The write of the sample that a search ended with.
pub fn winner_plan(sample: &Sample, agent: &str, algorithm: &str) -> (r: WritePlan)
    ensures
        r@ == (WriteView {
            source: SourceView::Inline(sample.code@),
            category: CODE@,
            functional_accuracy: None,
            rank: None,
            agent: Some(agent@),
            algorithm: Some(algorithm@),
            id: Some(sample.id@),
        }),
        r.source is Inline,
{
    WritePlan {
        source: Source::Inline(sample.code.clone()),
        category: CODE.to_owned(),
        functional_accuracy: None,
        rank: None,
        agent: Some(agent.to_owned()),
        algorithm: Some(algorithm.to_owned()),
        id: Some(sample.id.clone()),
    }
}

/// The numbers that the sample a search ended with is stored with: its own
/// accuracy and rank. The similarity to what is stored, and the mean that entries
/// are ranked by, come from outside.
pub fn winner_figures(sample: &Sample, cosine_similarity: Measure, rank_score: Measure) -> (r:
    Figures)
    ensures
        r.rank == Some(sample.rank),
        r.functional_accuracy == sample.accuracy,
        r.cosine_similarity == cosine_similarity,
        r.rank_score == rank_score,
{
    Figures {
        cosine_similarity,
        functional_accuracy: sample.accuracy,
        rank: Some(sample.rank),
        rank_score,
    }
}

/// Stores the sample that a search ended with: one entry of code, tagged with the
/// agent and the algorithm, with the accuracy and the rank of the sample.
pub fn store_winner(
    store: &mut Connection,
    sample: &Sample,
    agent: &str,
    algorithm: &str,
    cosine_similarity: Measure,
    rank_score: Measure,
)
    ensures
        ({
            let e = final(store).entries@.last();
            &&& final(store).entries@.len() == old(store).entries@.len() + 1
            &&& final(store).entries@.drop_last() == old(store).entries@
            &&& e.id@ == sample.id@
            &&& e.code@ == sample.code@
            &&& e.category@ == CODE@
            &&& option_view(e.agent) == Some(agent@)
            &&& option_view(e.algorithm) == Some(algorithm@)
            &&& e.rank == Some(sample.rank)
            &&& e.functional_accuracy == sample.accuracy
            &&& e.cosine_similarity == cosine_similarity
            &&& e.rank_score == rank_score
            &&& final(store).next_id == old(store).next_id
            &&& old(store).in_step() ==> final(store).in_step()
        }),
{
    proof {
        reveal_strlit("code");
        reveal_strlit("training_data");
        reveal_strlit("test_data");
        assert(CODE@.len() != TRAINING_DATA@.len());
        assert(CODE@.len() != TEST_DATA@.len());
    }
    let plan = winner_plan(sample, agent, algorithm);
    let figures = winner_figures(sample, cosine_similarity, rank_score);
    let written = store.handle_write(plan, figures);
    assert(written is Ok);
}

/// What a sample is asked for with, before the code.
pub const SAMPLE_REQUEST: &'static str =
    "You are assisting an evolutionary code search. Given the Python code below, propose a single alternative implementation that preserves its behavior but may differ in approach, structure, or efficiency.\n\nThe code MUST define a function with exactly this signature, since it will be executed by an automated harness:\ndef run(train_path: str, test_path: str) -> float:\n    # trains on the CSV at train_path, evaluates on the CSV at test_path,\n    # and returns test-set accuracy as a float in [0, 1]\n\nRespond with ONLY the Python code — no explanation, no markdown fences.\n\nOriginal code:\n";

/// The prompt for a sample.
pub fn sample_prompt(code: &str) -> (r: String)
    ensures
        r@ == SAMPLE_REQUEST@ + code@,
{
    let mut out = SAMPLE_REQUEST.to_owned();
    out.append(code);
    out
}

/// The text of the first part of the first candidate of a reply; empty where
/// there is none.
pub open spec fn first_text(reply: Tree) -> Seq<char> {
    let parts = member_of(member_of(first_candidate_of(reply), "content"@), "parts"@);
    match text_of(member_of(element_of(parts, 0), "text"@)) {
        Some(s) => s,
        None => Seq::empty(),
    }
}

/// The text of the first part of the first candidate of a reply.
pub fn reply_text(reply: &Json) -> (r: String)
    ensures
        r@ == first_text(reply@),
{
    let candidate = nth(reply.get("candidates"), 0);
    let parts = field(field(candidate, "content"), "parts");
    match text(field(nth(parts, 0), "text")) {
        Some(s) => s.to_owned(),
        None => {
            let out = String::new();
            assert(out@ =~= Seq::<char>::empty());
            out
        },
    }
}

/// The code fence.
pub const FENCE: &'static str = "```";

/// The text behind an opening fence, without the language and the line break
/// that follow it.
pub open spec fn behind_fence(s: Seq<char>) -> Seq<char> {
    let t = skip_class(s, CharClass::Alphanumeric);
    match after_prefix(t, "\n"@) {
        Some(rest) => rest,
        None => t,
    }
}

/// A reply without the code fence that it may be wrapped in.
pub open spec fn unwrapped(s: Seq<char>) -> Seq<char> {
    let t = trimmed(s);
    match after_prefix(t, FENCE@) {
        Some(rest) => {
            let body = behind_fence(rest);
            match rfind_text(body, FENCE@) {
                Some(end) => trimmed(body.take(end)),
                None => trimmed(body),
            }
        },
        None => t,
    }
}

/// Takes the code out of the fence that a reply may be wrapped in.
pub fn strip_code_fences(s: &str) -> (r: String)
    ensures
        r@ == unwrapped(s@),
{
    let t = trim(s);
    match strip_prefix(t, FENCE) {
        Some(rest) => {
            let without_language = skip_leading(rest, CharClass::Alphanumeric);
            let body = match strip_prefix(without_language, "\n") {
                Some(b) => b,
                None => without_language,
            };
            match rfind(body, FENCE) {
                Some(end) => {
                    proof {
                        crate::text::lemma_rfind_to(
                            body@,
                            FENCE@,
                            body@.len() - FENCE@.len(),
                        );
                    }
                    let code = body.substring_char(0, end);
                    assert(code@ =~= body@.take(end as int));
                    trim(code).to_owned()
                },
                None => trim(body).to_owned(),
            }
        },
        None => t.to_owned(),
    }
}

/// The samples in some replies: their code, where there is any.
pub open spec fn samples_in(replies: Seq<Seq<char>>) -> Seq<Seq<char>>
    decreases replies.len(),
{
    if replies.len() == 0 {
        Seq::empty()
    } else {
        let rest = samples_in(replies.drop_last());
        let code = unwrapped(replies.last());
        if is_blank_text(code) {
            rest
        } else {
            rest.push(code)
        }
    }
}

/// Collects the samples in some replies.
pub fn generate_samples(replies: &Vec<String>) -> (r: Result<Vec<String>, String>)
    ensures
        samples_taken(string_views(replies@), r),
{
    let ghost all = string_views(replies@);
    let mut out: Vec<String> = Vec::new();
    let mut i: usize = 0;
    assert(string_views(out@) =~= samples_in(all.take(0)));
    while i < replies.len()
        invariant
            all == string_views(replies@),
            i <= replies@.len(),
            string_views(out@) == samples_in(all.take(i as int)),
        decreases replies.len() - i,
    {
        assert(all.take(i + 1).drop_last() =~= all.take(i as int));
        assert(all.take(i + 1).last() == replies@[i as int]@);
        let code = strip_code_fences(replies[i].as_str());
        let ghost before = string_views(out@);
        if !is_blank(code.as_str()) {
            out.push(code);
            assert(string_views(out@) =~= before.push(code@));
        }
        i += 1;
    }
    assert(all.take(all.len() as int) =~= all);
    assert(string_views(out@).len() == out@.len());
    if out.len() == 0 {
        return Err("Gemini returned no usable samples".to_owned());
    }
    Ok(out)
}

/// A search must say how many generations it lasts, and have a generation, a
/// population and a sample at least. A generation has three populations, and a
/// population four samples, unless it is said otherwise.
pub proof fn searches_need_a_size(args: Tree)
    ensures
        args.whole_member("generations"@) is None ==> search_fault(args) == Some(
            "evolution requires a 'generations' field"@,
        ),
        args.whole_member("generations"@) == Some(0u64) ==> search_fault(args) == Some(
            EMPTY_SEARCH@,
        ),
        args.whole_member("generations"@) is Some && (args.whole_member("population_size"@) == Some(
            0u64,
        ) || args.whole_member("samples_per_population"@) == Some(0u64)) ==> search_fault(args)
            == Some(EMPTY_SEARCH@),
        args.whole_member("generations"@) is Some && 0 < args.whole_member("generations"@)->0
            <= usize::MAX && (args.whole_member("population_size"@) is None || 0
            < args.whole_member("population_size"@)->0 <= usize::MAX) && (args.whole_member(
            "samples_per_population"@,
        ) is None || 0 < args.whole_member("samples_per_population"@)->0 <= usize::MAX)
            ==> search_fault(args) is None,
        forall|n: u64, default: usize|
            n <= usize::MAX ==> #[trigger] size_or(Some(n), default) == n,
        forall|default: usize| #[trigger] size_or(None, default) == default,
        POPULATIONS == 3 && SAMPLES == 4,
{
}

/// A search works on what is given where it is given, and else on the best that is
/// stored for its algorithm: code, training data and test data. Where one of these
/// is neither, the first such one is the error.
pub proof fn inputs_are_given_or_best(
    args: Tree,
    entries: Seq<RelationalEntry>,
    algorithm: Seq<char>,
)
    ensures
        ({
            let original = args.text_member("original_code"@);
            let training = args.text_member("training_data"@);
            let test = args.text_member("test_data"@);
            match inputs_of(args, entries, algorithm) {
                Ok(i) => {
                    &&& original is Some ==> i.original_code == original->0
                    &&& original is None ==> best_entry(entries, "code"@, algorithm) == Some(
                        i.original_code,
                    )
                    &&& training is Some ==> i.training_data == training->0
                    &&& training is None ==> best_entry(entries, "training_data"@, algorithm)
                        == Some(i.training_data)
                    &&& test is Some ==> i.test_data == test->0
                    &&& test is None ==> best_entry(entries, "test_data"@, algorithm) == Some(
                        i.test_data,
                    )
                },
                Err(e) => if original is None && best_entry(entries, "code"@, algorithm) is None {
                    e == no_entry("code"@, algorithm)
                } else if training is None && best_entry(
                    entries,
                    "training_data"@,
                    algorithm,
                ) is None {
                    e == no_entry("training_data"@, algorithm)
                } else {
                    &&& test is None && best_entry(entries, "test_data"@, algorithm) is None
                    &&& e == no_entry("test_data"@, algorithm)
                },
            }
        }),
{
}

/// The id of a sample names its generation, its population and its number.
pub proof fn sample_ids_name_their_place(generation: nat, population: nat, sample: nat)
    ensures
        in_order(
            sample_id_text(generation, population, sample),
            seq![
                "gen"@,
                decimal(generation),
                "_pop"@,
                decimal(population),
                "_sample"@,
                decimal(sample),
            ],
        ),
{
    let mut t = "gen"@;
    lemma_whole("gen"@);
    let mut p = seq!["gen"@];
    show_part(t, p, decimal(generation));
    t = t + decimal(generation);
    p = p.push(decimal(generation));
    show_part(t, p, "_pop"@);
    t = t + "_pop"@;
    p = p.push("_pop"@);
    show_part(t, p, decimal(population));
    t = t + decimal(population);
    p = p.push(decimal(population));
    show_part(t, p, "_sample"@);
    t = t + "_sample"@;
    p = p.push("_sample"@);
    show_part(t, p, decimal(sample));
    t = t + decimal(sample);
    p = p.push(decimal(sample));
    assert(t == sample_id_text(generation, population, sample));
    assert(p =~= seq![
        "gen"@,
        decimal(generation),
        "_pop"@,
        decimal(population),
        "_sample"@,
        decimal(sample),
    ]);
}

/// The top sample of a population ranks highest in it, and is the first that does.
pub proof fn top_sample_is_the_first_of_the_highest(population: Seq<Sample>)
    ensures
        population.len() == 0 ==> top_of(population) is None,
        population.len() > 0 ==> exists|k: int|
            {
                &&& 0 <= k < population.len()
                &&& top_of(population) == Some(#[trigger] population[k])
                &&& forall|j: int|
                    0 <= j < population.len() ==> (#[trigger] population[j]).rank.key
                        <= population[k].rank.key
                &&& forall|j: int|
                    0 <= j < k ==> (#[trigger] population[j]).rank.key < population[k].rank.key
            },
    decreases population.len(),
{
    if population.len() > 0 {
        let n = population.len() - 1;
        let rest = population.drop_last();
        top_sample_is_the_first_of_the_highest(rest);
        if rest.len() == 0 {
            assert(top_of(population) == Some(population[0]));
        } else {
            let k = choose|k: int|
                {
                    &&& 0 <= k < rest.len()
                    &&& top_of(rest) == Some(#[trigger] rest[k])
                    &&& forall|j: int|
                        0 <= j < rest.len() ==> (#[trigger] rest[j]).rank.key <= rest[k].rank.key
                    &&& forall|j: int|
                        0 <= j < k ==> (#[trigger] rest[j]).rank.key < rest[k].rank.key
                };
            let m = if population[n].rank.key > rest[k].rank.key {
                n
            } else {
                k
            };
            assert(top_of(population) == Some(population[m]));
            assert forall|j: int| 0 <= j < population.len() implies (#[trigger]
            population[j]).rank.key <= population[m].rank.key by {
                if j < n {
                    assert(rest[j] == population[j]);
                }
            }
            assert forall|j: int| 0 <= j < m implies (#[trigger] population[j]).rank.key
                < population[m].rank.key by {
                assert(rest[j] == population[j]);
            }
        }
    }
}

/// The best sample gives way only to one of a later population that ranks higher,
/// and then to the top of that population.
pub proof fn best_sample_gives_way_to_higher_ones(best: Option<Sample>, population: Seq<Sample>)
    ensures
        best is None ==> best_with(best, population) == top_of(population),
        best is Some && (forall|i: int|
            0 <= i < population.len() ==> (#[trigger] population[i]).rank.key
                <= best->0.rank.key) ==> best_with(best, population) == best,
        best is Some && (exists|i: int|
            0 <= i < population.len() && (#[trigger] population[i]).rank.key
                > best->0.rank.key) ==> best_with(best, population) == top_of(population),
{
    lemma_top_of(population);
    if let Some(t) = top_of(population) {
        let k = choose|k: int| 0 <= k < population.len() && population[k] == t;
        assert(population[k].rank.key == t.rank.key);
    }
}

/// A search goes on as long as the threshold is above its value and a generation is
/// left; it waits for populations until a generation has all of its own, which it
/// asks for by their generation and number.
pub proof fn searches_go_generation_by_generation(s: Search)
    requires
        s.wf(),
    ensures
        s.mu.key >= s.threshold.key || s.iterations_run == s.generations ==> !s.goes_on(),
        s.mu.key < s.threshold.key && s.iterations_run < s.generations ==> s.goes_on(),
        s.iterations_run > 0 && s.populations_run < s.population_size ==> s.gathers() && !s.rates(),
        s.iterations_run > 0 && s.populations_run == s.population_size ==> s.rates()
            && !s.gathers(),
        s.iterations_run == 0 ==> !s.rates() && !s.gathers(),
        s.asks() is Generate,
        s.asks()->generation == s.iterations_run,
        s.asks()->population == s.populations_run,
        s.asks()->samples == s.samples_per_population,
{
}

/// The text of a reply is that of the first part of its first candidate.
pub proof fn reply_text_is_the_first_part(
    reply: Tree,
    candidates: Seq<Tree>,
    content: Tree,
    parts: Seq<Tree>,
)
    requires
        reply.member("candidates"@) == Some(Tree::List(candidates)),
        candidates.len() > 0,
        candidates[0].member("content"@) == Some(content),
        content.member("parts"@) == Some(Tree::List(parts)),
    ensures
        parts.len() == 0 ==> first_text(reply).len() == 0,
        parts.len() > 0 ==> match parts[0].member("text"@) {
            Some(Tree::Text(s)) => first_text(reply) == s,
            _ => first_text(reply).len() == 0,
        },
{
}

/// A reply that opens with a fence is what stands behind the language name and in
/// front of the last fence; any other is all of it. The white space around it is no
/// part of it.
pub proof fn replies_lose_their_fence(tag: Seq<char>, code: Seq<char>, plain: Seq<char>)
    requires
        forall|i: int| 0 <= i < tag.len() ==> CharClass::Alphanumeric.has(#[trigger] tag[i]),
    ensures
        unwrapped(FENCE@ + tag + "\n"@ + code + "\n"@ + FENCE@) == trimmed(code + "\n"@),
        !occurs_at(trimmed(plain), FENCE@, 0) ==> unwrapped(plain) == trimmed(plain),
{
    reveal_strlit("```");
    reveal_strlit("\n");
    let text = FENCE@ + tag + "\n"@ + code + "\n"@ + FENCE@;
    let body = code + "\n"@ + FENCE@;
    assert(text[0] == '`');
    assert(text.last() == '`');
    assert(trimmed(text) == text);
    assert(text.subrange(0, 3) =~= FENCE@);
    let rest = text.skip(3);
    assert(rest =~= tag + ("\n"@ + body));
    lemma_skip_tag(tag, "\n"@ + body);
    assert(("\n"@ + body).subrange(0, 1) =~= "\n"@);
    assert(("\n"@ + body).skip(1) =~= body);
    assert(behind_fence(rest) == body);
    let end = body.len() - 3;
    assert(body.subrange(end, end + 3) =~= FENCE@);
    assert(rfind_text(body, FENCE@) == Some(end));
    assert(body.take(end) =~= code + "\n"@);
}

proof fn lemma_skip_tag(tag: Seq<char>, rest: Seq<char>)
    requires
        forall|i: int| 0 <= i < tag.len() ==> CharClass::Alphanumeric.has(#[trigger] tag[i]),
        rest.len() > 0,
        rest[0] == '\n',
    ensures
        skip_class(tag + rest, CharClass::Alphanumeric) == rest,
    decreases tag.len(),
{
    if tag.len() == 0 {
        assert(tag + rest =~= rest);
    } else {
        assert((tag + rest)[0] == tag[0]);
        assert((tag + rest).drop_first() =~= tag.drop_first() + rest);
        lemma_skip_tag(tag.drop_first(), rest);
    }
}

/// Every reply that holds code is one sample, in order; a blank one is none.
pub proof fn every_reply_is_a_sample(a: Seq<Seq<char>>, b: Seq<Seq<char>>, reply: Seq<char>)
    ensures
        samples_in(a + b) == samples_in(a) + samples_in(b),
        (forall|i: int|
            0 <= i < unwrapped(reply).len() ==> white_space(#[trigger] unwrapped(reply)[i]))
            ==> samples_in(seq![reply]).len() == 0,
        !(forall|i: int|
            0 <= i < unwrapped(reply).len() ==> white_space(#[trigger] unwrapped(reply)[i]))
            ==> samples_in(seq![reply]) == seq![unwrapped(reply)],
    decreases b.len(),
{
    if b.len() == 0 {
        assert(a + b =~= a);
        assert(samples_in(a) + samples_in(b) =~= samples_in(a));
    } else {
        assert((a + b).drop_last() =~= a + b.drop_last());
        every_reply_is_a_sample(a, b.drop_last(), reply);
        assert(samples_in(a + b) =~= samples_in(a) + samples_in(b));
    }
    let none = Seq::<Seq<char>>::empty();
    assert(seq![reply].drop_last() =~= none);
    assert(samples_in(none) =~= none);
    trimmed_texts_keep_the_rest(unwrapped(reply));
    assert(none.push(unwrapped(reply)) =~= seq![unwrapped(reply)]);
}

/// Some replies come to their samples where there is one, and to an error where
/// there is none.
pub proof fn populations_need_a_sample(replies: Seq<Seq<char>>, r: Result<Vec<String>, String>)
    requires
        samples_taken(replies, r),
    ensures
        r is Ok <==> samples_in(replies).len() > 0,
        r is Ok ==> string_views(r->Ok_0@) == samples_in(replies),
        r is Err ==> r->Err_0@ == "Gemini returned no usable samples"@,
{
}

/// The model of what a search works on is what it holds.
pub proof fn inputs_are_what_they_hold(x: Inputs, e: String)
    ensures
        x@.original_code == x.original_code@,
        x@.training_data == x.training_data@,
        x@.test_data == x.test_data@,
        inputs_view(Ok(x)) == Ok::<InputsView, Seq<char>>(x@),
        inputs_view(Err(e)) == Err::<InputsView, Seq<char>>(e@),
{
}

/// Two states are of the same search where it has the same sizes and the same
/// threshold; and the populations that were seen grow by those that come in, and by
/// nothing else.
pub proof fn searches_keep_their_sizes(
    s: Search,
    t: Search,
    seen: Seq<Seq<Sample>>,
    event: SearchEvent,
)
    ensures
        s.same_search(t) ==> s.generations == t.generations && s.population_size
            == t.population_size && s.samples_per_population == t.samples_per_population
            && s.threshold == t.threshold,
        event is Population ==> seen_after(seen, event) == seen.push(event->Population_0@),
        event !is Population ==> seen_after(seen, event) == seen,
{
}

} // verus!
