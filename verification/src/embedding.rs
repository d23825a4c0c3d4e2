//! Counting the terms of a text into buckets, by hash.

use std::collections::hash_map::DefaultHasher;
use std::hash::{Hash, Hasher};
use vstd::prelude::*;
use vstd::std_specs::hash::*;

use crate::text::string_views;

verus! {

/// What `str::hash` writes into a hasher for a text with these characters.
pub uninterp spec fn hash_writes(s: Seq<char>) -> Seq<Seq<u8>>;

/// Calls `<str as Hash>::hash`: what it writes into the hasher depends on the
/// text alone.
#[verifier::external_body]
fn feed(s: &str, hasher: &mut DefaultHasher)
    ensures
        final(hasher)@ == old(hasher)@ + hash_writes(s@),
{
    s.hash(hasher);
}

/// The hash of a text, by a hasher without a key.
pub open spec fn text_hash(s: Seq<char>) -> u64 {
    DefaultHasher::spec_finish(Seq::empty() + hash_writes(s))
}

/// The bucket of a text, out of `dim`.
pub open spec fn bucket_of(s: Seq<char>, dim: nat) -> nat {
    text_hash(s) as nat % dim
}

/// How many of the terms fall into bucket `k`, out of `dim`.
pub open spec fn terms_in_bucket(terms: Seq<Seq<char>>, dim: nat, k: nat) -> nat
    decreases terms.len(),
{
    if terms.len() == 0 {
        0
    } else {
        terms_in_bucket(terms.drop_last(), dim, k) + if bucket_of(terms.last(), dim) == k {
            1nat
        } else {
            0nat
        }
    }
}

/// The number of terms in the first `n` buckets.
pub open spec fn terms_in_first(terms: Seq<Seq<char>>, dim: nat, n: nat) -> nat
    decreases n,
{
    if n == 0 {
        0
    } else {
        terms_in_first(terms, dim, (n - 1) as nat) + terms_in_bucket(terms, dim, (n - 1) as nat)
    }
}

/// Adding a term adds one to the buckets that include its own.
proof fn lemma_terms_in_first_push(terms: Seq<Seq<char>>, dim: nat, n: nat)
    requires
        terms.len() > 0,
    ensures
        terms_in_first(terms, dim, n) == terms_in_first(terms.drop_last(), dim, n) + if bucket_of(
            terms.last(),
            dim,
        ) < n {
            1nat
        } else {
            0nat
        },
    decreases n,
{
    if n > 0 {
        lemma_terms_in_first_push(terms, dim, (n - 1) as nat);
    }
}

/// Every term falls into exactly one bucket: the counts add up to the number of
/// terms.
pub proof fn counts_add_up(terms: Seq<Seq<char>>, dim: nat)
    requires
        dim > 0,
    ensures
        terms_in_first(terms, dim, dim) == terms.len(),
    decreases terms.len(),
{
    if terms.len() > 0 {
        counts_add_up(terms.drop_last(), dim);
        lemma_terms_in_first_push(terms, dim, dim);
    } else {
        lemma_nothing_in_first(terms, dim, dim);
    }
}

proof fn lemma_nothing_in_first(terms: Seq<Seq<char>>, dim: nat, n: nat)
    requires
        terms.len() == 0,
    ensures
        terms_in_first(terms, dim, n) == 0,
    decreases n,
{
    if n > 0 {
        lemma_nothing_in_first(terms, dim, (n - 1) as nat);
    }
}

/// The count of a bucket is the number of terms whose hash, modulo the number of
/// buckets, is that of the bucket.
pub proof fn buckets_count_hashes(terms: Seq<Seq<char>>, dim: nat, k: nat)
    ensures
        terms_in_bucket(terms, dim, k) == terms.filter(
            |t: Seq<char>| DefaultHasher::spec_finish(hash_writes(t)) as nat % dim == k,
        ).len(),
    decreases terms.len(),
{
    reveal(Seq::filter);
    let here = |t: Seq<char>| DefaultHasher::spec_finish(hash_writes(t)) as nat % dim == k;
    if terms.len() > 0 {
        buckets_count_hashes(terms.drop_last(), dim, k);
        let last = terms.last();
        assert(Seq::<Seq<u8>>::empty() + hash_writes(last) =~= hash_writes(last));
        assert(here(last) <==> bucket_of(last, dim) == k);
    }
}

/// Where there is a term, some bucket holds one; where there is none, none does.
pub proof fn some_bucket_is_filled(terms: Seq<Seq<char>>, dim: nat)
    requires
        dim > 0,
    ensures
        terms.len() > 0 ==> exists|k: nat| k < dim && #[trigger] terms_in_bucket(terms, dim, k) > 0,
        terms.len() == 0 ==> forall|k: nat| #[trigger] terms_in_bucket(terms, dim, k) == 0,
{
    if terms.len() > 0 {
        let k = bucket_of(terms.last(), dim);
        assert(terms_in_bucket(terms, dim, k) > 0);
    }
}

/// The square of the length of a vector of counts.
pub open spec fn squared_length(counts: Seq<u64>) -> nat
    decreases counts.len(),
{
    if counts.len() == 0 {
        0
    } else {
        squared_length(counts.drop_last()) + counts.last() as nat * counts.last() as nat
    }
}

/// A vector of counts has no length only where every count is zero.
pub proof fn length_is_positive(counts: Seq<u64>)
    ensures
        squared_length(counts) > 0 <==> exists|k: int|
            0 <= k < counts.len() && #[trigger] counts[k] > 0,
    decreases counts.len(),
{
    if counts.len() > 0 {
        let rest = counts.drop_last();
        let n = counts.last() as int;
        length_is_positive(rest);
        assert(n * n >= 0 && (n > 0 ==> n * n > 0) && (n == 0 ==> n * n == 0)) by (nonlinear_arith)
            requires
                n >= 0,
        ;
        if squared_length(counts) > 0 {
            if n > 0 {
                assert(counts[counts.len() - 1] > 0);
            } else {
                let k = choose|k: int| 0 <= k < rest.len() && #[trigger] rest[k] > 0;
                assert(counts[k] > 0);
            }
        }
        if exists|k: int| 0 <= k < counts.len() && #[trigger] counts[k] > 0 {
            let k = choose|k: int| 0 <= k < counts.len() && #[trigger] counts[k] > 0;
            if k < rest.len() {
                assert(rest[k] > 0);
            }
        }
    }
}

/// The hash of a text, by a hasher without a key.
pub fn hash_text(s: &str) -> (r: u64)
    ensures
        r == text_hash(s@),
{
    let mut hasher = DefaultHasher::new();
    feed(s, &mut hasher);
    hasher.finish()
}

/// The bucket of a hash, out of `dim`.
pub fn bucket_of_hash(h: u64, dim: usize) -> (r: usize)
    requires
        dim > 0,
    ensures
        r == h as nat % dim as nat,
        r < dim,
{
    (h % (dim as u64)) as usize
}

/// The bucket of a text, out of `dim`.
pub fn bucket(s: &str, dim: usize) -> (r: usize)
    requires
        dim > 0,
    ensures
        r == bucket_of(s@, dim as nat),
        r < dim,
{
    bucket_of_hash(hash_text(s), dim)
}

/// How often `k` stands in a list.
pub open spec fn occurrences(list: Seq<usize>, k: int) -> nat
    decreases list.len(),
{
    if list.len() == 0 {
        0
    } else {
        occurrences(list.drop_last(), k) + if list.last() == k {
            1nat
        } else {
            0nat
        }
    }
}

proof fn lemma_occurrences_bound(list: Seq<usize>, k: int)
    ensures
        occurrences(list, k) <= list.len(),
    decreases list.len(),
{
    if list.len() > 0 {
        lemma_occurrences_bound(list.drop_last(), k);
    }
}

/// Counts how often each of `dim` buckets stands in a list.
pub fn count_buckets(list: &Vec<usize>, dim: usize) -> (r: Vec<u64>)
    requires
        forall|i: int| 0 <= i < list@.len() ==> #[trigger] list@[i] < dim,
    ensures
        r@.len() == dim,
        forall|k: int| 0 <= k < dim ==> #[trigger] r@[k] == occurrences(list@, k),
{
    let mut counts: Vec<u64> = Vec::new();
    let mut k: usize = 0;
    while k < dim
        invariant
            k <= dim,
            counts@.len() == k,
            forall|j: int| 0 <= j < k ==> counts@[j] == 0,
        decreases dim - k,
    {
        counts.push(0);
        k += 1;
    }
    let mut i: usize = 0;
    assert(list@.take(0) =~= Seq::<usize>::empty());
    while i < list.len()
        invariant
            i <= list@.len(),
            forall|j: int| 0 <= j < list@.len() ==> #[trigger] list@[j] < dim,
            counts@.len() == dim,
            forall|j: int|
                0 <= j < dim ==> #[trigger] counts@[j] == occurrences(list@.take(i as int), j),
        decreases list.len() - i,
    {
        let b: usize = list[i];
        proof {
            assert(list@.take(i + 1).drop_last() =~= list@.take(i as int));
            assert(list@.take(i + 1).last() == b);
            lemma_occurrences_bound(list@.take(i as int), b as int);
        }
        let n: u64 = counts[b];
        counts.set(b, n + 1);
        i += 1;
    }
    assert(list@.take(list@.len() as int) =~= list@);
    counts
}

/// Counting the buckets of terms counts the terms in each bucket.
proof fn lemma_counts_terms(list: Seq<usize>, terms: Seq<Seq<char>>, dim: nat, k: nat)
    requires
        list.len() == terms.len(),
        forall|i: int| 0 <= i < list.len() ==> #[trigger] list[i] == bucket_of(terms[i], dim),
    ensures
        occurrences(list, k as int) == terms_in_bucket(terms, dim, k),
    decreases list.len(),
{
    if list.len() > 0 {
        assert forall|i: int| 0 <= i < list.drop_last().len() implies #[trigger] list.drop_last()[i]
            == bucket_of(terms.drop_last()[i], dim) by {
            assert(list.drop_last()[i] == list[i]);
        }
        lemma_counts_terms(list.drop_last(), terms.drop_last(), dim, k);
        assert(list[list.len() - 1] == bucket_of(terms[terms.len() - 1], dim));
    }
}

/// Counts the terms into `dim` buckets.
pub fn bucket_counts(terms: &Vec<String>, dim: usize) -> (r: Vec<u64>)
    requires
        dim > 0,
    ensures
        r@.len() == dim,
        forall|k: int|
            0 <= k < dim ==> #[trigger] r@[k] == terms_in_bucket(
                string_views(terms@),
                dim as nat,
                k as nat,
            ),
{
    let ghost all = string_views(terms@);
    let mut list: Vec<usize> = Vec::new();
    let mut i: usize = 0;
    while i < terms.len()
        invariant
            dim > 0,
            all == string_views(terms@),
            i <= terms@.len(),
            list@.len() == i,
            forall|j: int|
                0 <= j < i ==> #[trigger] list@[j] == bucket_of(all[j], dim as nat) && list@[j]
                    < dim,
        decreases terms.len() - i,
    {
        list.push(bucket(terms[i].as_str(), dim));
        i += 1;
    }
    let counts = count_buckets(&list, dim);
    proof {
        assert forall|k: int| 0 <= k < dim implies #[trigger] counts@[k] == terms_in_bucket(
            all,
            dim as nat,
            k as nat,
        ) by {
            lemma_counts_terms(list@, all, dim as nat, k as nat);
        }
    }
    counts
}

} // verus!
