//! The results of one run of an adapter: the metrics of each benchmark.

use crate::metric::Metric;
use crate::metrics::AdapterMetrics;
use crate::names::{is_valid_name, latency_text, BenchmarkName, MetricKind};
use crate::string_map::{keys_after, StringMap};
use vstd::prelude::*;

verus! {

/// A set of metrics that holds one latency and nothing else.
pub open spec fn latency_only(metric: Metric) -> Map<Seq<char>, Metric> {
    Map::<Seq<char>, Metric>::empty().insert(latency_text(), metric)
}

/// The results that a sequence of named latencies gives: each name with its
/// latency; of two entries with one name the later one stands.
pub open spec fn latency_results(entries: Seq<(Seq<char>, Metric)>) -> Map<
    Seq<char>,
    Map<Seq<char>, Metric>,
>
    decreases entries.len(),
{
    if entries.len() == 0 {
        Map::empty()
    } else {
        latency_results(entries.drop_last()).insert(
            entries.last().0,
            latency_only(entries.last().1),
        )
    }
}

/// The names of a sequence of named latencies, each once, in the order in
/// which they first come.
pub open spec fn first_seen(entries: Seq<(Seq<char>, Metric)>) -> Seq<Seq<char>>
    decreases entries.len(),
{
    if entries.len() == 0 {
        Seq::empty()
    } else {
        keys_after(first_seen(entries.drop_last()), entries.last().0)
    }
}

/// Whether a name is that of one of the entries.
pub open spec fn is_named(entries: Seq<(Seq<char>, Metric)>, name: Seq<char>) -> bool {
    exists|i: int| 0 <= i < entries.len() && (#[trigger] entries[i]).0 == name
}

/// Whether no entry after entry `i` has its name.
pub open spec fn is_last_of_name(entries: Seq<(Seq<char>, Metric)>, i: int) -> bool {
    forall|j: int| i < j < entries.len() ==> (#[trigger] entries[j]).0 != entries[i].0
}

/// The results hold exactly the names of the entries.
pub proof fn lemma_latency_names(entries: Seq<(Seq<char>, Metric)>, name: Seq<char>)
    ensures
        latency_results(entries).contains_key(name) <==> is_named(entries, name),
    decreases entries.len(),
{
    if entries.len() > 0 {
        let rest = entries.drop_last();
        lemma_latency_names(rest, name);
        if is_named(rest, name) {
            let i = choose|i: int| 0 <= i < rest.len() && (#[trigger] rest[i]).0 == name;
            assert(entries[i] == rest[i]);
        }
        if entries.last().0 == name {
            assert(entries[entries.len() - 1].0 == name);
        }
        if is_named(entries, name) && entries.last().0 != name {
            let i = choose|i: int| 0 <= i < entries.len() && (#[trigger] entries[i]).0 == name;
            assert(rest[i] == entries[i]);
        }
    }
}

/// Under each name the results hold the latency of the last entry that has
/// the name.
pub proof fn lemma_latency_results(entries: Seq<(Seq<char>, Metric)>, i: int)
    requires
        0 <= i < entries.len(),
        is_last_of_name(entries, i),
    ensures
        latency_results(entries).contains_key(entries[i].0),
        latency_results(entries)[entries[i].0] == latency_only(entries[i].1),
    decreases entries.len(),
{
    if i < entries.len() - 1 {
        let rest = entries.drop_last();
        assert(rest[i] == entries[i]);
        assert(entries[entries.len() - 1].0 != entries[i].0);
        assert forall|j: int| i < j < rest.len() implies (#[trigger] rest[j]).0 != rest[i].0 by {
            assert(rest[j] == entries[j]);
        }
        lemma_latency_results(rest, i);
    }
}

/// The names and latencies of a vector of them, as the specifications see
/// them.
pub open spec fn named_latencies(pairs: Seq<(BenchmarkName, Metric)>) -> Seq<(Seq<char>, Metric)> {
    Seq::new(pairs.len(), |i: int| (pairs[i].0@, pairs[i].1))
}

/// The results of one run: for each benchmark, by name, its metrics.
#[derive(Debug)]
pub struct AdapterResults {
    inner: StringMap<AdapterMetrics>,
}

impl View for AdapterResults {
    type V = Map<Seq<char>, Map<Seq<char>, Metric>>;

    closed spec fn view(&self) -> Map<Seq<char>, Map<Seq<char>, Metric>> {
        Map::new(|k: Seq<char>| self.inner@.contains_key(k), |k: Seq<char>| self.inner@[k]@)
    }
}

impl AdapterResults {
    /// Every key is the text of a benchmark's name.
    #[verifier::type_invariant]
    pub open spec fn well_formed(self) -> bool {
        forall|k: Seq<char>| self@.contains_key(k) ==> is_valid_name(k)
    }

    /// The names in the order in which they first came.
    pub closed spec fn names(self) -> Seq<Seq<char>> {
        self.inner.keys()
    }

    /// The results of a run without benchmarks.
    pub fn new() -> (results: AdapterResults)
        ensures
            results@ == Map::<Seq<char>, Map<Seq<char>, Metric>>::empty(),
            results.names() == Seq::<Seq<char>>::empty(),
    {
        let results = AdapterResults { inner: StringMap::new() };
        assert(results@ =~= Map::<Seq<char>, Map<Seq<char>, Metric>>::empty());
        results
    }

    /// The results with `metrics` as the metrics of the benchmark `name`,
    /// in place of any that it had.
    pub fn insert(self, name: BenchmarkName, metrics: AdapterMetrics) -> (results: AdapterResults)
        ensures
            results@ == self@.insert(name@, metrics@),
            results.names() == keys_after(self.names(), name@),
    {
        proof {
            use_type_invariant(&self);
            use_type_invariant(&name);
        }
        let results = AdapterResults { inner: self.inner.insert(name.to_string(), metrics) };
        assert(results@ =~= self@.insert(name@, metrics@));
        results
    }

    /// The number of benchmarks: each is in `names` once.
    pub fn len(&self) -> (n: usize)
        ensures
            n == self@.dom().len(),
            n == self.names().len(),
            self@.dom().finite(),
            self.names().no_duplicates(),
            self.names().to_set() == self@.dom(),
    {
        assert(self@.dom() =~= self.inner@.dom());
        self.inner.len()
    }

    /// The metrics of the benchmark that `key` names, where the run had
    /// one. A key that is no valid name of a benchmark names none.
    pub fn get(&self, key: &str) -> (r: Option<&AdapterMetrics>)
        ensures
            match r {
                Some(metrics) => self@.contains_key(key@) && metrics@ == self@[key@],
                None => !self@.contains_key(key@),
            },
            r is Some ==> is_valid_name(key@),
            !is_valid_name(key@) ==> r is None,
    {
        proof {
            use_type_invariant(self);
        }
        self.inner.get(key)
    }

    /// The name at place `i`, in the order in which the names first came,
    /// with its metrics; nothing from the number of benchmarks on.
    pub fn entry_at(&self, i: usize) -> (r: Option<(BenchmarkName, &AdapterMetrics)>)
        ensures
            match r {
                Some((name, metrics)) => i < self.names().len() && name@ == self.names()[i as int]
                    && self@.contains_key(name@) && self@[name@] == metrics@,
                None => i >= self.names().len(),
            },
    {
        proof {
            use_type_invariant(self);
        }
        if i < self.inner.len() {
            let key = self.inner.key_at(i);
            let metrics = self.inner.value_at(i);
            match BenchmarkName::from_str(key.as_str()) {
                Ok(name) => Some((name, metrics)),
                Err(_) => None,
            }
        } else {
            None
        }
    }

    /// The results of a run that measured the given latencies, in this
    /// order: each benchmark has its latency as its one metric, and of two
    /// entries with one name the later one stands.
    pub fn from_latencies(pairs: Vec<(BenchmarkName, Metric)>) -> (results: AdapterResults)
        ensures
            results@ == latency_results(named_latencies(pairs@)),
            results.names() == first_seen(named_latencies(pairs@)),
    {
        let ghost all = named_latencies(pairs@);
        let mut results = AdapterResults::new();
        let mut i: usize = 0;
        while i < pairs.len()
            invariant
                i <= pairs.len(),
                all == named_latencies(pairs@),
                results@ == latency_results(all.take(i as int)),
                results.names() == first_seen(all.take(i as int)),
            decreases pairs.len() - i,
        {
            let name = pairs[i].0.clone();
            let metrics = AdapterMetrics::new().insert(MetricKind::latency(), pairs[i].1);
            proof {
                assert(all.take(i + 1).drop_last() =~= all.take(i as int));
                assert(all.take(i + 1).last() == all[i as int]);
            }
            results = results.insert(name, metrics);
            i = i + 1;
        }
        assert(all.take(pairs.len() as int) =~= all);
        results
    }
}

} // verus!
