//! The adapter for the results of the Java microbenchmark harness: a list
//! of records, each with the name of a benchmark and its primary metric, a
//! score with its error in a unit of the form `ops/` and a unit of time.

use crate::decimal::{lemma_plus_respects_same, lemma_same_is_equivalence, Decimal};
use crate::error::{adapted, AdapterError, ErrorView};
use crate::metric::Metric;
use crate::names::{is_valid_name, latency_text, BenchmarkName};
use crate::results::{
    first_seen, latency_only, latency_results, lemma_latency_results, named_latencies,
    AdapterResults,
};
use crate::text::{chars_between, chars_of};
use crate::units::{unit_named, Units};
use vstd::prelude::*;

verus! {

/// The adapter for the Java microbenchmark harness.
#[derive(Clone, Copy, Debug, PartialEq, Eq)]
pub struct AdapterJavaJmh;

/// A part of a record that is read and not used.
#[derive(Clone, Copy, Debug, PartialEq, Eq)]
pub struct JsonEmpty {}

/// The document that the harness writes: its records in their order.
#[derive(Debug, PartialEq, Eq)]
pub struct Jmh(pub Vec<Benchmark>);

/// One record of the document.
#[derive(Debug, PartialEq, Eq)]
pub struct Benchmark {
    /// The name of the benchmark, as the harness gave it.
    pub benchmark: String,
    pub jvm_args: Vec<String>,
    pub primary_metric: PrimaryMetric,
    pub secondary_metrics: JsonEmpty,
}

/// The primary metric of a record.
#[derive(Debug, PartialEq, Eq)]
pub struct PrimaryMetric {
    pub score: Decimal,
    pub score_error: Decimal,
    pub score_confidence: [Decimal; 2],
    pub score_percentiles: JsonEmpty,
    pub score_unit: String,
    pub raw_data: Vec<Vec<Decimal>>,
}

/// Whether the text begins with `ops/`.
pub open spec fn begins_with_ops(unit: Seq<char>) -> bool {
    unit.len() >= 4 && unit[0] == 'o' && unit[1] == 'p' && unit[2] == 's' && unit[3] == '/'
}

/// The unit of time of a score's unit. A score's unit is `ops/` and the
/// name of a unit of time; a text of another form names none.
pub open spec fn score_unit(unit: Seq<char>) -> Option<Units> {
    if begins_with_ops(unit) {
        unit_named(unit.skip(4))
    } else {
        None
    }
}

/// The metric of a score with its error, both in `unit`: the score in
/// nanoseconds as the value, and the error in nanoseconds taken from it and
/// added to it as the bounds. Nothing where one of the four is out of range.
pub open spec fn jmh_metric(score: Decimal, error: Decimal, unit: Units) -> Option<Metric> {
    match (
        Decimal::of(score@.times(unit.factor())),
        Decimal::of(error@.times(unit.factor())),
    ) {
        (Some(value), Some(variance)) => match (
            Decimal::of(value@.minus(variance@)),
            Decimal::of(value@.plus(variance@)),
        ) {
            (Some(lower), Some(upper)) => Some(
                Metric { value, lower_bound: Some(lower), upper_bound: Some(upper) },
            ),
            _ => None,
        },
        _ => None,
    }
}

/// The metric of a record, or why it has none.
pub open spec fn record_metric(record: Benchmark) -> Result<Metric, ErrorView> {
    match score_unit(record.primary_metric.score_unit@) {
        None => Err(ErrorView::InvalidUnit(record.primary_metric.score_unit@)),
        Some(unit) => match jmh_metric(
            record.primary_metric.score,
            record.primary_metric.score_error,
            unit,
        ) {
            Some(metric) => Ok(metric),
            None => Err(ErrorView::InvalidNumber(record.benchmark@)),
        },
    }
}

/// The first name from `from` on that is not valid.
pub open spec fn first_invalid_name(records: Seq<Benchmark>, from: int) -> Option<Seq<char>>
    decreases records.len() - from,
{
    if from < 0 || from >= records.len() {
        None
    } else if !is_valid_name(records[from].benchmark@) {
        Some(records[from].benchmark@)
    } else {
        first_invalid_name(records, from + 1)
    }
}

/// The names and metrics of the first `n` records, or the error of the
/// first of them that has no metric.
pub open spec fn converted(records: Seq<Benchmark>, n: int) -> Result<
    Seq<(Seq<char>, Metric)>,
    ErrorView,
>
    decreases n,
{
    if n <= 0 || n > records.len() {
        Ok(Seq::empty())
    } else {
        match converted(records, n - 1) {
            Err(error) => Err(error),
            Ok(done) => match record_metric(records[n - 1]) {
                Ok(metric) => Ok(done.push((records[n - 1].benchmark@, metric))),
                Err(error) => Err(error),
            },
        }
    }
}

/// What the adapter makes of a document: `InvalidName` with the first name
/// that is not valid; else the error of the first record without a metric;
/// else each benchmark with its metric as its latency, the later record
/// standing where two have one name.
pub open spec fn jmh_results(records: Seq<Benchmark>) -> Result<
    Map<Seq<char>, Map<Seq<char>, Metric>>,
    ErrorView,
> {
    match first_invalid_name(records, 0) {
        Some(name) => Err(ErrorView::InvalidName(name)),
        None => match converted(records, records.len() as int) {
            Ok(entries) => Ok(latency_results(entries)),
            Err(error) => Err(error),
        },
    }
}

/// What the adapter makes of a document that was read, or of the message
/// with which reading it failed.
pub open spec fn jmh_parsed(document: Result<Jmh, String>) -> Result<
    Map<Seq<char>, Map<Seq<char>, Metric>>,
    ErrorView,
> {
    match document {
        Ok(jmh) => jmh_results(jmh.0@),
        Err(message) => Err(ErrorView::Deserialization(message@)),
    }
}

/// The unit of time of a score's unit, or `InvalidUnit` with the text where
/// it is not `ops/` and the name of a unit of time.
pub fn parse_score_unit(unit: &str) -> (r: Result<Units, AdapterError>)
    ensures
        match r {
            Ok(found) => score_unit(unit@) == Some(found),
            Err(error) => score_unit(unit@) is None && error@ == ErrorView::InvalidUnit(unit@),
        },
{
    let chars = chars_of(unit);
    if chars.len() >= 4 && chars[0] == 'o' && chars[1] == 'p' && chars[2] == 's' && chars[3]
        == '/' {
        let rest = chars_between(&chars, 4, chars.len());
        proof {
            assert(rest@ =~= chars@.skip(4));
        }
        match Units::from_chars(&rest) {
            Some(found) => {
                return Ok(found);
            },
            None => {},
        }
    }
    Err(AdapterError::InvalidUnit(unit.to_owned()))
}

/// The metric of a score with its error, both in `unit`.
pub fn score_metric(score: &Decimal, error: &Decimal, unit: Units) -> (r: Option<Metric>)
    ensures
        r == jmh_metric(*score, *error, unit),
{
    let value = match unit.to_nanos(score) {
        Some(value) => value,
        None => {
            return None;
        },
    };
    let variance = match unit.to_nanos(error) {
        Some(variance) => variance,
        None => {
            return None;
        },
    };
    let lower = match value.minus(&variance) {
        Some(lower) => lower,
        None => {
            return None;
        },
    };
    let upper = match value.plus(&variance) {
        Some(upper) => upper,
        None => {
            return None;
        },
    };
    Some(Metric { value, lower_bound: Some(lower), upper_bound: Some(upper) })
}

impl AdapterResults {
    /// The results that a document of the harness gives: for each record
    /// its score in nanoseconds, with the error taken from it and added to
    /// it as the bounds.
    pub fn try_from(jmh: Jmh) -> (r: Result<AdapterResults, AdapterError>)
        ensures
            adapted(r, jmh_results(jmh.0@)),
            r matches Ok(results) ==> results.names() == first_seen(
                converted(jmh.0@, jmh.0@.len() as int)->Ok_0,
            ),
    {
        let records = jmh.0;
        let mut names: Vec<BenchmarkName> = Vec::new();
        let mut i: usize = 0;
        while i < records.len()
            invariant
                i <= records.len(),
                records@ == jmh.0@,
                names.len() == i,
                first_invalid_name(records@, 0) == first_invalid_name(records@, i as int),
                forall|j: int| 0 <= j < i ==> (#[trigger] names@[j])@ == records@[j].benchmark@,
            decreases records.len() - i,
        {
            match BenchmarkName::from_str(records[i].benchmark.as_str()) {
                Ok(name) => {
                    names.push(name);
                },
                Err(error) => {
                    return Err(error);
                },
            }
            i = i + 1;
        }
        let mut pairs: Vec<(BenchmarkName, Metric)> = Vec::new();
        let mut k: usize = 0;
        assert(named_latencies(pairs@) =~= Seq::<(Seq<char>, Metric)>::empty());
        while k < records.len()
            invariant
                k <= records.len(),
                records@ == jmh.0@,
                names.len() == records.len(),
                first_invalid_name(records@, 0) is None,
                forall|j: int|
                    0 <= j < names.len() ==> (#[trigger] names@[j])@ == records@[j].benchmark@,
                converted(records@, k as int) == Ok::<Seq<(Seq<char>, Metric)>, ErrorView>(
                    named_latencies(pairs@),
                ),
            decreases records.len() - k,
        {
            let record = &records[k];
            let unit = match parse_score_unit(record.primary_metric.score_unit.as_str()) {
                Ok(unit) => unit,
                Err(error) => {
                    proof {
                        lemma_converted_fails(records@, k + 1, records.len() as int);
                    }
                    return Err(error);
                },
            };
            let metric = match score_metric(
                &record.primary_metric.score,
                &record.primary_metric.score_error,
                unit,
            ) {
                Some(metric) => metric,
                None => {
                    proof {
                        lemma_converted_fails(records@, k + 1, records.len() as int);
                    }
                    return Err(AdapterError::InvalidNumber(record.benchmark.clone()));
                },
            };
            let ghost before = named_latencies(pairs@);
            pairs.push((names[k].clone(), metric));
            proof {
                assert(named_latencies(pairs@) =~= before.push(
                    (records@[k as int].benchmark@, metric),
                ));
            }
            k = k + 1;
        }
        Ok(AdapterResults::from_latencies(pairs))
    }
}

/// Once the conversion of the first records has failed, that of more of
/// them fails in the same way.
proof fn lemma_converted_fails(records: Seq<Benchmark>, n: int, m: int)
    requires
        0 <= n <= m <= records.len(),
        converted(records, n) is Err,
    ensures
        converted(records, m) == converted(records, n),
    decreases m - n,
{
    if n < m {
        lemma_converted_fails(records, n, m - 1);
    }
}

/// The conversion of the first records, where it succeeds, gives one entry
/// for each of them, and that of fewer of them succeeds with the first of
/// these entries.
proof fn lemma_converted_entries(records: Seq<Benchmark>, n: int, i: int)
    requires
        0 <= i < n <= records.len(),
        converted(records, n) is Ok,
    ensures
        converted(records, n)->Ok_0.len() == n,
        record_metric(records[i]) is Ok,
        converted(records, n)->Ok_0[i] == (
            records[i].benchmark@,
            record_metric(records[i])->Ok_0,
        ),
    decreases n,
{
    if i < n - 1 {
        lemma_converted_entries(records, n - 1, i);
    } else if n > 1 {
        lemma_converted_entries(records, n - 1, n - 2);
    }
}

/// Of a document that the adapter takes, every record gives an entry with
/// its name and the metric of its score: the value is the score times the
/// nanoseconds of its unit, and the bounds are the value less, and the value
/// plus, the error times the nanoseconds of its unit.
pub proof fn lemma_record_metrics(records: Seq<Benchmark>, i: int)
    requires
        jmh_results(records) is Ok,
        0 <= i < records.len(),
    ensures
        score_unit(records[i].primary_metric.score_unit@) is Some,
        converted(records, records.len() as int) is Ok,
        ({
            let entries = converted(records, records.len() as int)->Ok_0;
            let factor = score_unit(records[i].primary_metric.score_unit@).unwrap().factor();
            let value = records[i].primary_metric.score@.times(factor);
            let variance = records[i].primary_metric.score_error@.times(factor);
            &&& entries.len() == records.len()
            &&& entries[i].0 == records[i].benchmark@
            &&& entries[i].1.value@.same(value)
            &&& entries[i].1.lower_bound matches Some(lower) && lower@.same(value.minus(variance))
            &&& entries[i].1.upper_bound matches Some(upper) && upper@.same(value.plus(variance))
        }),
{
    lemma_converted_entries(records, records.len() as int, i);
    let unit = score_unit(records[i].primary_metric.score_unit@).unwrap();
    let factor = unit.factor();
    let value = records[i].primary_metric.score@.times(factor);
    let variance = records[i].primary_metric.score_error@.times(factor);
    let metric = record_metric(records[i])->Ok_0;
    let held = Decimal::of(variance).unwrap();
    Decimal::lemma_of_is_same(value);
    Decimal::lemma_of_is_same(variance);
    Decimal::lemma_of_is_same(metric.value@.minus(held@));
    Decimal::lemma_of_is_same(metric.value@.plus(held@));
    lemma_plus_respects_same(metric.value@, value, held@, variance);
    let lower = metric.lower_bound.unwrap();
    let upper = metric.upper_bound.unwrap();
    lemma_same_is_equivalence(lower@, metric.value@.minus(held@), value.minus(variance));
    lemma_same_is_equivalence(upper@, metric.value@.plus(held@), value.plus(variance));
}

/// Whether the adapter can take a record: its name is valid, its unit is
/// `ops/` and a unit of time, and its score and error, in nanoseconds, and
/// the bounds made of them are in range.
pub open spec fn is_convertible(record: Benchmark) -> bool {
    is_valid_name(record.benchmark@) && record_metric(record) is Ok
}

/// Where every one of the first records can be taken, none of them has a
/// name that is not valid, and their conversion succeeds.
proof fn lemma_convertible(records: Seq<Benchmark>, n: int)
    requires
        0 <= n <= records.len(),
        forall|j: int| 0 <= j < records.len() ==> is_convertible(#[trigger] records[j]),
    ensures
        first_invalid_name(records, records.len() - n) is None,
        converted(records, n) is Ok,
    decreases n,
{
    if n > 0 {
        lemma_convertible(records, n - 1);
        assert(is_convertible(records[n - 1]));
        assert(is_convertible(records[records.len() - n]));
    }
}

/// The adapter succeeds on a document of which it can take every record,
/// and the results hold, under the name of each record that is the last of
/// its name, the metric of that record alone: the value is the score times
/// the nanoseconds of its unit, and the bounds are the value less, and the
/// value plus, the error times the nanoseconds of its unit.
pub proof fn lemma_document_results(records: Seq<Benchmark>, i: int)
    requires
        forall|j: int| 0 <= j < records.len() ==> is_convertible(#[trigger] records[j]),
        0 <= i < records.len(),
        forall|j: int|
            i < j < records.len() ==> (#[trigger] records[j]).benchmark@ != records[i].benchmark@,
    ensures
        jmh_results(records) is Ok,
        score_unit(records[i].primary_metric.score_unit@) is Some,
        ({
            let results = jmh_results(records)->Ok_0;
            let name = records[i].benchmark@;
            let factor = score_unit(records[i].primary_metric.score_unit@).unwrap().factor();
            let value = records[i].primary_metric.score@.times(factor);
            let variance = records[i].primary_metric.score_error@.times(factor);
            &&& results.contains_key(name)
            &&& results[name].dom() == set![latency_text()]
            &&& results[name][latency_text()].value@.same(value)
            &&& results[name][latency_text()].lower_bound matches Some(lower) && lower@.same(
                value.minus(variance),
            )
            &&& results[name][latency_text()].upper_bound matches Some(upper) && upper@.same(
                value.plus(variance),
            )
        }),
{
    let n = records.len() as int;
    lemma_convertible(records, n);
    lemma_record_metrics(records, i);
    let entries = converted(records, n)->Ok_0;
    assert forall|j: int| i < j < entries.len() implies (#[trigger] entries[j]).0 != entries[i].0 by {
        lemma_converted_entries(records, n, j);
        assert(records[j].benchmark@ != records[i].benchmark@);
    }
    lemma_latency_results(entries, i);
    assert(latency_only(entries[i].1).dom() =~= set![latency_text()]);
}

impl AdapterJavaJmh {
    /// The results that the harness's document gives, where it was read,
    /// and `Deserialization` with the reader's message where it was not.
    pub fn parse(document: Result<Jmh, String>) -> (r: Result<AdapterResults, AdapterError>)
        ensures
            adapted(r, jmh_parsed(document)),
            r matches Ok(results) ==> document matches Ok(jmh) && results.names() == first_seen(
                converted(jmh.0@, jmh.0@.len() as int)->Ok_0,
            ),
    {
        match document {
            Ok(jmh) => AdapterResults::try_from(jmh),
            Err(message) => Err(AdapterError::Deserialization(message)),
        }
    }
}

} // verus!
