//! Per-operation timing statistics: how often each named operation ran and how
//! long it took in total. The table is a `rustc_hash::FxHashMap` keyed by the
//! operation's name.

use rustc_hash::FxHashMap;
use std::time::{Duration, Instant};
use vstd::prelude::*;

verus! {

#[verifier::external_type_specification]
#[verifier::external_body]
pub struct ExInstant(Instant);

/// How often an operation ran, and its total time in nanoseconds.
pub type Sample = (u64, u128);

/// The table of samples, by operation name.
pub type Samples = FxHashMap<&'static str, Sample>;

/// The samples a table holds, by the text of the operation's name.
pub uninterp spec fn sample_contents(m: Samples) -> Map<Seq<char>, Sample>;

/// An empty table (`FxHashMap::default`). Trusted: a new map has no entries.
#[verifier::external_body]
fn samples_new() -> (table: Samples)
    ensures
        sample_contents(table).dom() == Set::<Seq<char>>::empty(),
{
    FxHashMap::default()
}

/// The sample of one operation (`HashMap::get`). Trusted: std documents that
/// it returns the value stored under the key; keys of type `&str` are found by
/// their text.
#[verifier::external_body]
fn samples_get(m: &Samples, name: &'static str) -> (r: Option<Sample>)
    ensures
        match r {
            Some(s) => sample_contents(*m).contains_key(name@) && sample_contents(*m)[name@] == s,
            None => !sample_contents(*m).contains_key(name@),
        },
{
    m.get(name).copied()
}

/// Stores the sample of one operation (`HashMap::insert`). Trusted: std
/// documents that the key then maps to the value, and no other key changes.
#[verifier::external_body]
fn samples_insert(m: &mut Samples, name: &'static str, s: Sample)
    ensures
        sample_contents(*final(m)) == sample_contents(*old(m)).insert(name@, s),
{
    m.insert(name, s);
}

/// Every entry of the table (`HashMap::iter`, collected). Trusted: the
/// iteration yields each entry once; its order depends on the hashes and is
/// left unsaid.
#[verifier::external_body]
fn samples_entries(m: &Samples) -> (entries: Vec<(&'static str, Sample)>)
    ensures
        forall|i: int| 0 <= i < entries@.len() ==> sample_contents(*m).contains_key(#[trigger] entries@[i].0@)
            && sample_contents(*m)[entries@[i].0@] == entries@[i].1,
        forall|k: Seq<char>| sample_contents(*m).contains_key(k) ==> exists|i: int| 0 <= i < entries@.len() && #[trigger] entries@[i].0@ == k,
        forall|i: int, j: int| 0 <= i < j < entries@.len() ==> entries@[i].0@ != entries@[j].0@,
{
    m.iter().map(|(k, v)| (*k, *v)).collect()
}

/// The current time (`Instant::now`). Nothing is promised of it.
#[verifier::external_body]
fn clock_now() -> (t: Instant) {
    Instant::now()
}

/// The time since `started` (`Instant::elapsed`). Nothing is promised of it.
#[verifier::external_body]
fn clock_elapsed(started: &Instant) -> (d: Duration) {
    started.elapsed()
}

/// A duration in nanoseconds (`Duration::as_nanos`). Nothing is stated of the
/// value: a `Duration` is opaque here.
#[verifier::external_body]
fn duration_nanos(d: &Duration) -> (n: u128) {
    d.as_nanos()
}

/// The sample of `name` after one more run that took `nanos` nanoseconds; an
/// operation not seen before starts from no runs. The sums saturate.
pub open spec fn spec_add_run(samples: Map<Seq<char>, Sample>, name: Seq<char>, nanos: u128) -> Map<Seq<char>, Sample> {
    let prev: Sample = if samples.contains_key(name) { samples[name] } else { (0u64, 0u128) };
    let count: u64 = if prev.0 == u64::MAX { u64::MAX } else { (prev.0 + 1) as u64 };
    let total: u128 = if prev.1 + nanos > u128::MAX { u128::MAX } else { (prev.1 + nanos) as u128 };
    samples.insert(name, (count, total))
}

/// Timing statistics of named operations.
pub struct Perf {
    samples: Samples,
}

impl View for Perf {
    type V = Map<Seq<char>, Sample>;

    closed spec fn view(&self) -> Map<Seq<char>, Sample> {
        sample_contents(self.samples)
    }
}

impl Perf {
    /// No operation timed yet.
    pub fn new() -> (p: Self)
        ensures
            p@ == Map::<Seq<char>, Sample>::empty(),
    {
        let p = Perf { samples: samples_new() };
        assert(p@ =~= Map::<Seq<char>, Sample>::empty());
        p
    }

    /// Counts one run of `name` that took `nanos` nanoseconds.
    pub fn record(&mut self, name: &'static str, nanos: u128)
        ensures
            final(self)@ == spec_add_run(old(self)@, name@, nanos),
    {
        let prev = match samples_get(&self.samples, name) {
            Some(s) => s,
            None => (0u64, 0u128),
        };
        let count = prev.0.saturating_add(1);
        let total = prev.1.saturating_add(nanos);
        samples_insert(&mut self.samples, name, (count, total));
    }

    /// Counts one run of `tag` that started at `started` and ends now.
    pub fn prof(&mut self, tag: &'static str, started: &Instant)
        ensures
            exists|nanos: u128| final(self)@ == spec_add_run(old(self)@, tag@, nanos),
    {
        let d = clock_elapsed(started);
        let nanos = duration_nanos(&d);
        self.record(tag, nanos);
    }

    /// Runs `f` and counts it as one run of `name`, timed.
    pub fn measure<F: FnOnce()>(&mut self, name: &'static str, f: F)
        requires
            f.requires(()),
        ensures
            f.ensures((), ()),
            exists|nanos: u128| final(self)@ == spec_add_run(old(self)@, name@, nanos),
    {
        let t0 = clock_now();
        f();
        self.prof(name, &t0);
    }

    /// Every operation timed so far, with how often it ran and its total time
    /// in nanoseconds, in no particular order.
    pub fn stats(&self) -> (entries: Vec<(&'static str, Sample)>)
        ensures
            forall|i: int| 0 <= i < entries@.len() ==> self@.contains_key(#[trigger] entries@[i].0@)
                && self@[entries@[i].0@] == entries@[i].1,
            forall|k: Seq<char>| self@.contains_key(k) ==> exists|i: int| 0 <= i < entries@.len() && #[trigger] entries@[i].0@ == k,
            forall|i: int, j: int| 0 <= i < j < entries@.len() ==> entries@[i].0@ != entries@[j].0@,
    {
        samples_entries(&self.samples)
    }
}

/// The profiler used when timing is switched off: it runs what it is given
/// and keeps nothing.
pub struct PerformanceProfiler;

impl PerformanceProfiler {
    /// Runs `f`, untimed.
    pub fn measure<F: FnOnce()>(_name: &'static str, f: F)
        requires
            f.requires(()),
        ensures
            f.ensures((), ()),
    {
        f()
    }

    /// Keeps nothing.
    pub fn prof(_tag: &'static str, _started: &Instant) {
    }

    /// There are no statistics.
    pub fn stats() -> (entries: Vec<(&'static str, Sample)>)
        ensures
            entries@.len() == 0,
    {
        Vec::new()
    }
}

/// One run of `name` that took `nanos` adds one to its count and `nanos` to
/// its total (both stopping at their maximum), starting from zero for a new
/// name; no other operation changes.
pub proof fn lemma_add_run(samples: Map<Seq<char>, Sample>, name: Seq<char>, nanos: u128, other: Seq<char>)
    ensures
        spec_add_run(samples, name, nanos).contains_key(name),
        !samples.contains_key(name) ==> spec_add_run(samples, name, nanos)[name] == (1u64, nanos),
        samples.contains_key(name) && samples[name].0 < u64::MAX ==> spec_add_run(samples, name, nanos)[name].0
            == samples[name].0 + 1,
        samples.contains_key(name) && samples[name].1 + nanos <= u128::MAX ==> spec_add_run(samples, name, nanos)[name].1
            == samples[name].1 + nanos,
        other != name ==> (spec_add_run(samples, name, nanos).contains_key(other) == samples.contains_key(other)),
        other != name && samples.contains_key(other) ==> spec_add_run(samples, name, nanos)[other] == samples[other],
{
}

} // verus!
