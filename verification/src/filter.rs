//! The membership filter: a counting probabilistic set of identifier
//! strings, used to answer "might this identifier be in use" without a
//! storage round-trip.
//!
//! The filter is an optimization, not an authority, and it is deliberately
//! left unverified: a counting Bloom filter's counters are shared between
//! elements and saturate, so no exact multiset of the added strings can be
//! read off its state, and its probabilistic guarantee (no false negative
//! for an element added and not removed, barring counter saturation and
//! removals of false positives) cannot be stated as a trusted contract
//! without overclaiming. The wrappers therefore promise nothing; wherever
//! correctness depends on a verdict, the engine confirms it against the
//! record map or the storage backend, whose contracts are exact.
//!
//! What the probabilistic-set contract itself guarantees is stated and
//! proved of an explicit mathematical model below
//! ([`lemma_filter_no_false_negative`]), so the property the filter is
//! trusted for in deployments is pinned down even though the implementation
//! only approximates it.

use vstd::multiset::Multiset;
use vstd::prelude::*;

verus! {

#[verifier::external_type_specification]
#[verifier::external_body]
pub struct ExCountingBloomFilter(fastbloom_rs::CountingBloomFilter);

/// Relies on `FilterBuilder::from_size_and_hashes` (with repeat insertion
/// kept enabled) and `FilterBuilder::build_counting_bloom_filter`: a fresh
/// filter. Nothing is promised of it. The size must be a whole number of
/// counter words: the crate packs sixteen 4-bit counters per word but
/// indexes counters up to `size - 1`, so any other size can read out of
/// bounds. The upper bound keeps the crate's double-hash index arithmetic
/// well inside its word size.
#[verifier::external_body]
fn new_counting_filter(size: u64, hashes: u32) -> (r: fastbloom_rs::CountingBloomFilter)
    requires
        size >= 16,
        size % 16 == 0,
        size <= 4294967296,
        hashes >= 1,
        hashes <= 64,
{
    let mut builder = fastbloom_rs::FilterBuilder::from_size_and_hashes(size, hashes);
    builder.build_counting_bloom_filter()
}

/// Relies on `fastbloom_rs::Membership::add` for `CountingBloomFilter`.
/// Nothing is promised: counters are shared and saturate.
#[verifier::external_body]
fn counting_filter_add(f: &mut fastbloom_rs::CountingBloomFilter, id: &str) {
    fastbloom_rs::Membership::add(f, id.as_bytes());
}

/// Relies on `fastbloom_rs::Deletable::remove` for `CountingBloomFilter`.
/// Nothing is promised: a removal may also decrement counters shared with
/// other elements when the string was never added but looks contained.
#[verifier::external_body]
fn counting_filter_remove(f: &mut fastbloom_rs::CountingBloomFilter, id: &str) {
    fastbloom_rs::Deletable::remove(f, id.as_bytes());
}

/// Relies on `fastbloom_rs::Membership::contains` for `CountingBloomFilter`.
/// Nothing is promised of the verdict; the engine treats it as a hint and
/// confirms against the record map or the backend where correctness needs
/// it.
#[verifier::external_body]
fn counting_filter_contains(f: &fastbloom_rs::CountingBloomFilter, id: &str) -> bool {
    fastbloom_rs::Membership::contains(f, id.as_bytes())
}

pub const FILTER_BITS: u64 = 1048576;

pub const FILTER_HASHES: u32 = 7;

/// The membership filter used by the session store. Its verdicts carry no
/// contract (see the module documentation); the idealized behaviour it
/// approximates is the model below.
pub struct MemberFilter {
    inner: fastbloom_rs::CountingBloomFilter,
}

impl MemberFilter {
    /// An empty filter of the store's configured size.
    pub fn new() -> (r: MemberFilter) {
        MemberFilter { inner: new_counting_filter(FILTER_BITS, FILTER_HASHES) }
    }

    /// Counts an identifier in.
    pub fn add(&mut self, id: &str) {
        counting_filter_add(&mut self.inner, id);
    }

    /// Counts an identifier out.
    pub fn remove(&mut self, id: &str) {
        counting_filter_remove(&mut self.inner, id);
    }

    /// Whether the identifier might be in use.
    pub fn contains(&self, id: &str) -> bool {
        counting_filter_contains(&self.inner, id)
    }
}

/// One step of a filter history: an identifier counted in or out.
pub enum FilterOp {
    Add(Seq<char>),
    Remove(Seq<char>),
}

/// The idealized probabilistic-set model: the state after a history of
/// operations on a fresh filter is the multiset of the added strings, with
/// a removal taking one occurrence out and a removal of an absent string
/// changing nothing.
pub open spec fn apply_filter_ops(ops: Seq<FilterOp>) -> Multiset<Seq<char>>
    decreases ops.len(),
{
    if ops.len() == 0 {
        Multiset::empty()
    } else {
        let prev = apply_filter_ops(ops.drop_last());
        match ops.last() {
            FilterOp::Add(x) => prev.insert(x),
            FilterOp::Remove(x) => if prev.count(x) >= 1 {
                prev.remove(x)
            } else {
                prev
            },
        }
    }
}

/// How many times the history has counted `x` in, net: adds of `x` minus
/// the removes of `x` that found it present.
pub open spec fn net_adds(ops: Seq<FilterOp>, x: Seq<char>) -> int
    decreases ops.len(),
{
    if ops.len() == 0 {
        0
    } else {
        let prev = net_adds(ops.drop_last(), x);
        match ops.last() {
            FilterOp::Add(y) => if y == x {
                prev + 1
            } else {
                prev
            },
            FilterOp::Remove(y) => if y == x && apply_filter_ops(ops.drop_last()).count(x) >= 1 {
                prev - 1
            } else {
                prev
            },
        }
    }
}

/// After any history of adds and removes, the model holds `x` exactly as
/// often as the history counted it in.
pub proof fn lemma_filter_history_count(ops: Seq<FilterOp>, x: Seq<char>)
    ensures
        apply_filter_ops(ops).count(x) == net_adds(ops, x),
    decreases ops.len(),
{
    if ops.len() == 0 {
        assert(Multiset::<Seq<char>>::empty().count(x) == 0);
    } else {
        lemma_filter_history_count(ops.drop_last(), x);
    }
}

/// No false negatives, of the model: for any history of adds and removes on
/// a fresh filter, an identifier that was added and not removed afterwards
/// is still counted. This is the guarantee the probabilistic implementation
/// approximates and that deployments of the filter assume.
pub proof fn lemma_filter_no_false_negative(ops: Seq<FilterOp>, i: int, x: Seq<char>)
    requires
        0 <= i < ops.len(),
        ops[i] == FilterOp::Add(x),
        forall|j: int| i < j < ops.len() ==> ops[j] != FilterOp::Remove(x),
    ensures
        apply_filter_ops(ops).count(x) >= 1,
    decreases ops.len(),
{
    if i == ops.len() - 1 {
        lemma_filter_history_count(ops.drop_last(), x);
        lemma_net_adds_nonneg(ops.drop_last(), x);
    } else {
        assert(ops.drop_last()[i] == ops[i]);
        lemma_filter_no_false_negative(ops.drop_last(), i, x);
    }
}

proof fn lemma_net_adds_nonneg(ops: Seq<FilterOp>, x: Seq<char>)
    ensures
        net_adds(ops, x) >= 0,
    decreases ops.len(),
{
    if ops.len() > 0 {
        lemma_net_adds_nonneg(ops.drop_last(), x);
        lemma_filter_history_count(ops.drop_last(), x);
    }
}

} // verus!
