//! Validity, reward, and the parts of fitness and novelty that are not
//! arithmetic on measured numbers.

use std::collections::hash_map::DefaultHasher;
use vstd::prelude::*;
use vstd::std_specs::hash::*;
use vstd::string::*;

use crate::embedding::{
    bucket_counts, buckets_count_hashes, hash_writes, length_is_positive, some_bucket_is_filled,
    squared_length, terms_in_bucket,
};
use crate::harness::{is_failure, HarnessResult};
use crate::measure::Measure;
use crate::text::{
    alphanumeric, lowercase, runs, runs_of, runs_on_both_sides, string_views, to_lowercase, views,
    words_are_runs, CharClass,
};

verus! {

/// The measured quality and time of the seed.
#[derive(Clone, Copy, Debug, PartialEq, Eq, Structural)]
pub struct Baseline {
    pub quality: Measure,
    pub time: Measure,
}

/// What the performance of a file is computed from.
#[derive(Clone, Copy, Debug, PartialEq, Eq, Structural)]
pub struct PerformanceTerms {
    pub quality: Measure,
    pub fit_time: Measure,
    pub predict_time: Measure,
    pub folds_ok: usize,
    pub folds_total: usize,
    pub errors: usize,
}

/// What the performance of `r` is computed from. Where something was not
/// measured, or no fold ran, there is nothing to compute it from, and it is
/// zero.
pub open spec fn terms_of(r: HarnessResult) -> Option<PerformanceTerms> {
    match (r.quality, r.fit_time, r.predict_time) {
        (Some(quality), Some(fit_time), Some(predict_time)) => if r.n_folds_total == 0
            || r.n_folds_ok == 0 {
            None
        } else {
            Some(
                PerformanceTerms {
                    quality,
                    fit_time,
                    predict_time,
                    folds_ok: r.n_folds_ok,
                    folds_total: r.n_folds_total,
                    errors: r.errors() as usize,
                },
            )
        },
        _ => None,
    }
}

/// What the performance of `r` is computed from.
pub fn performance_terms(r: &HarnessResult) -> (t: Option<PerformanceTerms>)
    requires
        r.errors() <= usize::MAX,
    ensures
        t == terms_of(*r),
        t is Some <==> r.quality is Some && r.fit_time is Some && r.predict_time is Some
            && r.n_folds_total > 0 && r.n_folds_ok > 0,
        t matches Some(x) ==> {
            &&& Some(x.quality) == r.quality
            &&& Some(x.fit_time) == r.fit_time
            &&& Some(x.predict_time) == r.predict_time
            &&& x.folds_ok == r.n_folds_ok
            &&& x.folds_total == r.n_folds_total
            &&& x.errors == r.runtime_errors@.len() + (if r.syntax_error is Some {
                1int
            } else {
                0int
            })
        },
{
    match (r.quality, r.fit_time, r.predict_time) {
        (Some(quality), Some(fit_time), Some(predict_time)) => {
            if r.n_folds_total == 0 || r.n_folds_ok == 0 {
                return None;
            }
            Some(
                PerformanceTerms {
                    quality,
                    fit_time,
                    predict_time,
                    folds_ok: r.n_folds_ok,
                    folds_total: r.n_folds_total,
                    errors: r.error_count(),
                },
            )
        },
        _ => None,
    }
}

/// The performance of a file is computed from what the harness measured of it,
/// number for number: the quality, both times, the folds and all errors. It is
/// computed wherever all of it was measured and a fold ran.
pub proof fn terms_are_what_was_measured(r: HarnessResult)
    requires
        r.runtime_errors@.len() < usize::MAX,
    ensures
        terms_of(r) is Some <==> r.quality is Some && r.fit_time is Some && r.predict_time is Some
            && r.n_folds_total > 0 && r.n_folds_ok > 0,
        terms_of(r) matches Some(x) ==> {
            &&& Some(x.quality) == r.quality
            &&& Some(x.fit_time) == r.fit_time
            &&& Some(x.predict_time) == r.predict_time
            &&& x.folds_ok == r.n_folds_ok
            &&& x.folds_total == r.n_folds_total
            &&& x.errors == r.runtime_errors@.len() + (if r.syntax_error is Some {
                1int
            } else {
                0int
            })
        },
{
}

/// Whether every fold ran without an error and the quality is at least `floor`.
pub open spec fn valid_result(r: HarnessResult, floor: Measure) -> bool {
    &&& r.status@ == "ok"@
    &&& r.syntax_error is None
    &&& r.runtime_errors@.len() == 0
    &&& r.n_folds_total > 0
    &&& r.n_folds_ok == r.n_folds_total
    &&& r.quality matches Some(q) && q.key >= floor.key
}

/// Whether a measured file counts. `floor` is the quality of the baseline less
/// the tolerance.
pub fn is_valid(r: &HarnessResult, floor: Measure) -> (v: bool)
    ensures
        v == valid_result(*r, floor),
        v <==> r.status@ == "ok"@ && r.syntax_error is None && r.runtime_errors@.len() == 0
            && r.n_folds_total > 0 && r.n_folds_ok == r.n_folds_total && r.quality is Some
            && r.quality->0.key >= floor.key,
{
    let good_enough = match r.quality {
        Some(q) => q.at_least(floor),
        None => false,
    };
    r.is_ok() && r.syntax_error.is_none() && r.runtime_errors.len() == 0 && r.n_folds_total > 0
        && r.n_folds_ok == r.n_folds_total && good_enough
}

/// A file is valid where the harness ran it to the end, without an error, on
/// every fold, and it is as good as asked; time does not matter, and nothing else
/// does.
pub proof fn validity_is_decided_by_errors_folds_and_quality(r: HarnessResult, floor: Measure)
    ensures
        valid_result(r, floor) ==> {
            &&& r.status@ == "ok"@
            &&& r.syntax_error is None
            &&& r.runtime_errors@.len() == 0
            &&& r.n_folds_ok == r.n_folds_total
            &&& r.n_folds_total > 0
            &&& r.quality is Some
            &&& floor.key <= r.quality->0.key
        },
        !valid_result(r, floor) ==> {
            ||| r.status@ != "ok"@
            ||| r.syntax_error is Some
            ||| r.runtime_errors@.len() > 0
            ||| r.n_folds_ok != r.n_folds_total
            ||| r.n_folds_total == 0
            ||| r.quality is None
            ||| r.quality->0.key < floor.key
        },
        forall|other: HarnessResult| #[trigger]
            valid_result(other, floor) != valid_result(r, floor) ==> other.status@ != r.status@
                || other.syntax_error != r.syntax_error || other.runtime_errors@.len()
                != r.runtime_errors@.len() || other.n_folds_ok != r.n_folds_ok
                || other.n_folds_total != r.n_folds_total || other.quality != r.quality,
{
}

/// A file with an error is not valid, however good it is.
pub proof fn errors_invalidate(r: HarnessResult, floor: Measure)
    requires
        r.errors() > 0,
    ensures
        !valid_result(r, floor),
{
}

/// A run that took too long or broke down counts for nothing: its file is not
/// valid, and there is nothing to compute its performance from.
pub proof fn failed_runs_do_not_count(
    r: HarnessResult,
    status: Seq<char>,
    message: Seq<char>,
    floor: Measure,
)
    requires
        is_failure(r, status, message),
    ensures
        !valid_result(r, floor),
        terms_of(r) is None,
{
}

/// A file that is valid stays so where less quality is asked for.
pub proof fn validity_is_monotone(r: HarnessResult, floor: Measure, lower: Measure)
    requires
        valid_result(r, floor),
        lower.key <= floor.key,
    ensures
        valid_result(r, lower),
{
}

/// How many of `n` agents are rewarded: half of them, rounded up, at least one.
pub open spec fn rewarded(n: nat) -> nat {
    if n == 0 {
        1
    } else {
        (n + 1) / 2
    }
}

/// Rewards the better half of `n` agents. The best is at position one.
pub fn reward_for_position(position: usize, n: usize) -> (r: u8)
    ensures
        r == if 1 <= position <= rewarded(n as nat) {
            1u8
        } else {
            0u8
        },
        r == 1 || r == 0,
        r == 1 <==> position == 1 || (position > 1 && 2 * position <= n + 1),
{
    let half: usize = n / 2 + n % 2;
    let cutoff: usize = if half == 0 {
        1
    } else {
        half
    };
    if position >= 1 && position <= cutoff {
        1
    } else {
        0
    }
}

/// The best agent is rewarded; where there are two or more, the last is not;
/// and at least half of the agents are.
pub proof fn reward_goes_to_better_half(n: nat)
    requires
        n > 0,
    ensures
        1 <= rewarded(n) <= n,
        n >= 2 ==> rewarded(n) < n,
        n <= 2 * rewarded(n) <= n + 1,
{
}

/// The number of buckets that terms are counted into.
pub const EMBEDDING_DIM: usize = 512;

/// The identifiers and numbers in a piece of code, in lower case, in order.
pub open spec fn tokens_of(code: Seq<char>) -> Seq<Seq<char>> {
    runs_of(code, CharClass::Identifier).map_values(|t: Seq<char>| lowercase(t))
}

/// The terms that stand for a piece of code: each token, and each token with
/// the one that follows it.
pub open spec fn terms_from(tokens: Seq<Seq<char>>) -> Seq<Seq<char>>
    decreases tokens.len(),
{
    if tokens.len() == 0 {
        Seq::empty()
    } else if tokens.len() == 1 {
        seq![tokens[0]]
    } else {
        seq![tokens[0], tokens[0] + " "@ + tokens[1]] + terms_from(tokens.drop_first())
    }
}

/// Splits code into its identifiers and numbers, in lower case.
pub fn tokens(code: &str) -> (r: Vec<String>)
    ensures
        string_views(r@) == tokens_of(code@),
{
    let parts = runs(code, CharClass::Identifier);
    let ghost texts = views(parts@);
    let ghost lower = |t: Seq<char>| lowercase(t);
    let mut out: Vec<String> = Vec::new();
    let mut i: usize = 0;
    assert(string_views(out@) =~= texts.take(0).map_values(lower));
    while i < parts.len()
        invariant
            texts == views(parts@),
            lower == (|t: Seq<char>| lowercase(t)),
            i <= parts@.len(),
            string_views(out@) == texts.take(i as int).map_values(lower),
        decreases parts.len() - i,
    {
        let ghost before = string_views(out@);
        out.push(to_lowercase(parts[i]));
        assert(string_views(out@) =~= before.push(lower(texts[i as int])));
        assert(texts.take(i + 1).map_values(lower) =~= before.push(lower(texts[i as int])));
        i += 1;
    }
    assert(texts.take(texts.len() as int) =~= texts);
    out
}

/// Every identifier of a piece of code is a token, wherever it stands: the tokens
/// of two pieces with something between them that belongs to no identifier are
/// those of the first and then those of the second.
pub proof fn tokens_on_both_sides(a: Seq<char>, sep: char, b: Seq<char>)
    requires
        !alphanumeric(sep),
        sep != '_',
    ensures
        tokens_of(a + seq![sep] + b) == tokens_of(a) + tokens_of(b),
{
    runs_on_both_sides(a, sep, b, CharClass::Identifier);
    assert(tokens_of(a + seq![sep] + b) =~= tokens_of(a) + tokens_of(b));
}

/// An identifier is one token: itself, in lower case. Code without an identifier
/// has none. And there are as many tokens as there are maximal runs of letters,
/// digits and underscores, each the lower case of its run.
pub proof fn identifiers_are_tokens(code: Seq<char>)
    ensures
        code.len() > 0 && (forall|i: int|
            0 <= i < code.len() ==> alphanumeric(#[trigger] code[i]) || code[i] == '_')
            ==> tokens_of(code) == seq![lowercase(code)],
        (forall|i: int|
            0 <= i < code.len() ==> !alphanumeric(#[trigger] code[i]) && code[i] != '_')
            ==> tokens_of(code).len() == 0,
        tokens_of(code).len() == runs_of(code, CharClass::Identifier).len(),
        forall|i: int|
            0 <= i < runs_of(code, CharClass::Identifier).len() ==> #[trigger] tokens_of(code)[i]
                == lowercase(runs_of(code, CharClass::Identifier)[i]),
{
    let class = CharClass::Identifier;
    words_are_runs(code, class);
    if code.len() > 0 && (forall|i: int|
        0 <= i < code.len() ==> alphanumeric(#[trigger] code[i]) || code[i] == '_') {
        assert forall|i: int| 0 <= i < code.len() implies class.has(#[trigger] code[i]) by {}
        assert(tokens_of(code) =~= seq![lowercase(code)]);
    }
    if forall|i: int| 0 <= i < code.len() ==> !alphanumeric(#[trigger] code[i]) && code[i] != '_' {
        assert forall|i: int| 0 <= i < code.len() implies !class.has(#[trigger] code[i]) by {}
    }
}

/// The terms are every token and every pair of neighbours, and no more: behind
/// each token but the last stands the pair that it begins.
pub proof fn terms_are_tokens_and_neighbours(tokens: Seq<Seq<char>>)
    requires
        tokens.len() > 0,
    ensures
        terms_from(tokens).len() == 2 * tokens.len() - 1,
        forall|i: int|
            0 <= i < tokens.len() ==> #[trigger] tokens[i] == terms_from(tokens)[2 * i],
        forall|i: int|
            0 <= i < tokens.len() - 1 ==> (#[trigger] tokens[i]) + seq![' '] + tokens[i + 1]
                == terms_from(tokens)[2 * i + 1],
    decreases tokens.len(),
{
    reveal_strlit(" ");
    assert(" "@ =~= seq![' ']);
    if tokens.len() > 1 {
        let rest = tokens.drop_first();
        terms_are_tokens_and_neighbours(rest);
        let two = seq![tokens[0], tokens[0] + " "@ + tokens[1]];
        let all = terms_from(tokens);
        assert(all == two + terms_from(rest));
        assert forall|i: int| 0 <= i < tokens.len() implies #[trigger] tokens[i] == all[2 * i] by {
            if i > 0 {
                assert(rest[i - 1] == tokens[i]);
                assert(all[2 * i] == terms_from(rest)[2 * (i - 1)]);
            }
        }
        assert forall|i: int| 0 <= i < tokens.len() - 1 implies (#[trigger] tokens[i]) + seq![' ']
            + tokens[i + 1] == all[2 * i + 1] by {
            if i > 0 {
                assert(rest[i - 1] == tokens[i]);
                assert(rest[i] == tokens[i + 1]);
                assert(all[2 * i + 1] == terms_from(rest)[2 * (i - 1) + 1]);
            }
        }
    }
}

/// Code without a token has no terms.
pub proof fn no_tokens_no_terms(tokens: Seq<Seq<char>>)
    ensures
        terms_from(tokens).len() == 0 <==> tokens.len() == 0,
{
}

/// Collects the terms that stand for a piece of code.
pub fn terms(code: &str) -> (r: Vec<String>)
    ensures
        string_views(r@) == terms_from(tokens_of(code@)),
{
    let toks = tokens(code);
    let ghost all = string_views(toks@);
    let mut out: Vec<String> = Vec::new();
    let mut i: usize = 0;
    assert(all.skip(0) =~= all);
    assert(string_views(out@) =~= Seq::<Seq<char>>::empty());
    while i < toks.len()
        invariant
            all == string_views(toks@),
            i <= toks@.len(),
            terms_from(all) =~= string_views(out@) + terms_from(all.skip(i as int)),
        decreases toks.len() - i,
    {
        let ghost rest = all.skip(i as int);
        let ghost before = string_views(out@);
        assert(rest[0] == toks@[i as int]@);
        assert(rest.drop_first() =~= all.skip(i + 1));
        out.push(toks[i].clone());
        assert(string_views(out@) =~= before.push(rest[0]));
        if i + 1 < toks.len() {
            assert(rest[1] == toks@[i + 1]@);
            let pair = toks[i].clone().concat(" ").concat(toks[i + 1].as_str());
            let ghost half = string_views(out@);
            out.push(pair);
            assert(string_views(out@) =~= half.push(rest[0] + " "@ + rest[1]));
        } else {
            assert(all.skip(i + 1) =~= Seq::<Seq<char>>::empty());
        }
        i += 1;
    }
    assert(all.skip(all.len() as int) =~= Seq::<Seq<char>>::empty());
    out
}

/// Whether these are the numbers of the terms of a piece of code in each bucket.
pub open spec fn are_term_counts(counts: Seq<u64>, code: Seq<char>) -> bool {
    &&& counts.len() == EMBEDDING_DIM
    &&& forall|k: int|
        0 <= k < EMBEDDING_DIM ==> #[trigger] counts[k] == terms_in_bucket(
            terms_from(tokens_of(code)),
            EMBEDDING_DIM as nat,
            k as nat,
        )
}

/// The counts of a piece of code depend on its tokens alone, and not on layout,
/// punctuation or case.
pub proof fn counts_depend_on_tokens(
    code: Seq<char>,
    counts: Seq<u64>,
    other: Seq<char>,
    other_counts: Seq<u64>,
)
    requires
        are_term_counts(counts, code),
        are_term_counts(other_counts, other),
        tokens_of(code) == tokens_of(other),
    ensures
        counts == other_counts,
{
    assert forall|k: int| 0 <= k < counts.len() implies counts[k] == other_counts[k] by {
        assert(counts[k] == terms_in_bucket(
            terms_from(tokens_of(code)),
            EMBEDDING_DIM as nat,
            k as nat,
        ));
    }
    assert(counts =~= other_counts);
}

/// The counts of a piece of code say in which of the buckets its terms fall: every
/// term is counted once, in the bucket of its hash, out of five hundred and
/// twelve.
pub proof fn counts_count_every_term(code: Seq<char>, counts: Seq<u64>, k: int)
    requires
        are_term_counts(counts, code),
        0 <= k < counts.len(),
    ensures
        counts.len() == 512,
        counts[k] == terms_from(tokens_of(code)).filter(
            |t: Seq<char>| DefaultHasher::spec_finish(hash_writes(t)) as int % 512 == k,
        ).len(),
{
    let terms = terms_from(tokens_of(code));
    buckets_count_hashes(terms, 512, k as nat);
    assert(counts[k] == terms_in_bucket(terms, EMBEDDING_DIM as nat, k as nat));
    assert(terms.filter(
        |t: Seq<char>| DefaultHasher::spec_finish(hash_writes(t)) as nat % 512 == k as nat,
    ) =~= terms.filter(
        |t: Seq<char>| DefaultHasher::spec_finish(hash_writes(t)) as int % 512 == k,
    )) by {
        assert((|t: Seq<char>| DefaultHasher::spec_finish(hash_writes(t)) as nat % 512 == k as nat)
            =~= (|t: Seq<char>| DefaultHasher::spec_finish(hash_writes(t)) as int % 512 == k));
    }
}

/// Code with a token has counts that can be scaled to unit length: their length is
/// not zero. Code without a token has no count but zero.
pub proof fn counts_can_be_scaled(code: Seq<char>, counts: Seq<u64>)
    requires
        are_term_counts(counts, code),
    ensures
        squared_length(counts) > 0 <==> tokens_of(code).len() > 0,
        tokens_of(code).len() == 0 ==> forall|k: int|
            0 <= k < counts.len() ==> #[trigger] counts[k] == 0,
{
    let terms = terms_from(tokens_of(code));
    let dim = EMBEDDING_DIM as nat;
    some_bucket_is_filled(terms, dim);
    length_is_positive(counts);
    if terms.len() > 0 {
        let k = choose|k: nat| k < dim && #[trigger] terms_in_bucket(terms, dim, k) > 0;
        assert(counts[k as int] > 0);
    }
}

/// Counts the terms that stand for a piece of code. Scaled to unit length, the
/// counts are its embedding.
pub fn term_counts(code: &str) -> (r: Vec<u64>)
    ensures
        are_term_counts(r@, code@),
{
    let list = terms(code);
    bucket_counts(&list, EMBEDDING_DIM)
}

} // verus!
