//! The metrics of one benchmark, by kind, and how two such sets are folded
//! into one.

use crate::metric::{ArithmeticError, Metric};
use crate::names::{is_valid_name, MetricKind};
use crate::string_map::{among_first, keys_after, keys_not_in, lemma_next_key, StringMap};
use vstd::prelude::*;

verus! {

/// Which of two metrics is kept.
#[derive(Clone, Copy, Debug, PartialEq, Eq, Structural)]
pub enum OrdKind {
    Min,
    Max,
}

/// How the metrics that two sets hold under one kind become one metric.
#[derive(Clone, Copy, Debug, PartialEq, Eq, Structural)]
pub enum CombinedKind {
    Ord(OrdKind),
    Add,
}

/// The one metric that two metrics of one kind become, where it can be given.
pub open spec fn combine(kind: CombinedKind, a: Metric, b: Metric) -> Option<Metric> {
    match kind {
        CombinedKind::Ord(OrdKind::Min) => Some(a.spec_min(b)),
        CombinedKind::Ord(OrdKind::Max) => Some(a.spec_max(b)),
        CombinedKind::Add => a.spec_plus(b),
    }
}

/// Whether every kind that both sets hold can be combined.
pub open spec fn can_combine(
    a: Map<Seq<char>, Metric>,
    b: Map<Seq<char>, Metric>,
    kind: CombinedKind,
) -> bool {
    forall|k: Seq<char>|
        a.contains_key(k) && b.contains_key(k) ==> (#[trigger] combine(kind, a[k], b[k])) is Some
}

/// The two sets folded into one: the kinds of either, with the combined
/// metric where both hold the kind and the one metric where one does.
pub open spec fn combined_map(
    a: Map<Seq<char>, Metric>,
    b: Map<Seq<char>, Metric>,
    kind: CombinedKind,
) -> Map<Seq<char>, Metric> {
    Map::new(
        |k: Seq<char>| a.contains_key(k) || b.contains_key(k),
        |k: Seq<char>|
            if a.contains_key(k) && b.contains_key(k) {
                combine(kind, a[k], b[k]).unwrap()
            } else if a.contains_key(k) {
                a[k]
            } else {
                b[k]
            },
    )
}

/// Two sets of one and the same kind fold into a set of that kind alone,
/// with the two metrics combined; two sets without a common kind fold into
/// a set that holds what either holds.
pub proof fn lemma_combined_kinds(
    a: Map<Seq<char>, Metric>,
    b: Map<Seq<char>, Metric>,
    kind: CombinedKind,
    k: Seq<char>,
    x: Metric,
    y: Metric,
)
    ensures
        combined_map(a, b, kind).dom() == a.dom().union(b.dom()),
        combine(kind, x, y) is Some ==> combined_map(
            Map::<Seq<char>, Metric>::empty().insert(k, x),
            Map::<Seq<char>, Metric>::empty().insert(k, y),
            kind,
        ) == Map::<Seq<char>, Metric>::empty().insert(k, combine(kind, x, y).unwrap()),
        a.dom().disjoint(b.dom()) ==> combined_map(a, b, kind) == b.union_prefer_right(a),
{
    assert(combined_map(a, b, kind).dom() =~= a.dom().union(b.dom()));
    assert(combined_map(
        Map::<Seq<char>, Metric>::empty().insert(k, x),
        Map::<Seq<char>, Metric>::empty().insert(k, y),
        kind,
    ) =~= Map::<Seq<char>, Metric>::empty().insert(k, combine(kind, x, y).unwrap()));
    if a.dom().disjoint(b.dom()) {
        assert(combined_map(a, b, kind) =~= b.union_prefer_right(a));
    }
}

/// Whether every metric of the set can be divided by `count`.
pub open spec fn can_divide(a: Map<Seq<char>, Metric>, count: usize) -> bool {
    forall|k: Seq<char>| a.contains_key(k) ==> (#[trigger] a[k].spec_divided_by(count)) is Some
}

/// The set with every metric divided by `count`.
pub open spec fn divided_map(a: Map<Seq<char>, Metric>, count: usize) -> Map<Seq<char>, Metric> {
    Map::new(|k: Seq<char>| a.contains_key(k), |k: Seq<char>| a[k].spec_divided_by(count).unwrap())
}

/// The set that a sequence of kinds with their metrics gives: of two metrics
/// of one kind the later one stands.
pub open spec fn metrics_of(entries: Seq<(Seq<char>, Metric)>) -> Map<Seq<char>, Metric>
    decreases entries.len(),
{
    if entries.len() == 0 {
        Map::empty()
    } else {
        metrics_of(entries.drop_last()).insert(entries.last().0, entries.last().1)
    }
}

/// The kinds and metrics of a vector of them, as the specifications see
/// them.
pub open spec fn kinds_and_metrics(pairs: Seq<(MetricKind, Metric)>) -> Seq<(Seq<char>, Metric)> {
    Seq::new(pairs.len(), |i: int| (pairs[i].0@, pairs[i].1))
}

/// The metrics of one benchmark: at most one metric of each kind.
#[derive(Debug)]
pub struct AdapterMetrics {
    inner: StringMap<Metric>,
}

impl View for AdapterMetrics {
    type V = Map<Seq<char>, Metric>;

    closed spec fn view(&self) -> Map<Seq<char>, Metric> {
        self.inner@
    }
}

impl Default for AdapterMetrics {
    fn default() -> (metrics: AdapterMetrics)
        ensures
            metrics@ == Map::<Seq<char>, Metric>::empty(),
    {
        AdapterMetrics::new()
    }
}

impl AdapterMetrics {
    /// Every key is the text of a kind of metric.
    #[verifier::type_invariant]
    pub open spec fn well_formed(self) -> bool {
        forall|k: Seq<char>| self@.contains_key(k) ==> is_valid_name(k)
    }

    /// The kinds in the order in which they first came.
    pub closed spec fn kinds(self) -> Seq<Seq<char>> {
        self.inner.keys()
    }

    /// The set without any metric.
    pub fn new() -> (metrics: AdapterMetrics)
        ensures
            metrics@ == Map::<Seq<char>, Metric>::empty(),
            metrics.kinds() == Seq::<Seq<char>>::empty(),
    {
        AdapterMetrics { inner: StringMap::new() }
    }

    /// The set of the given metrics, each under its kind; of two metrics of
    /// one kind the later one stands.
    pub fn from(pairs: Vec<(MetricKind, Metric)>) -> (metrics: AdapterMetrics)
        ensures
            metrics@ == metrics_of(kinds_and_metrics(pairs@)),
    {
        let ghost all = kinds_and_metrics(pairs@);
        let mut metrics = AdapterMetrics::new();
        let mut i: usize = 0;
        while i < pairs.len()
            invariant
                i <= pairs.len(),
                all == kinds_and_metrics(pairs@),
                metrics@ == metrics_of(all.take(i as int)),
            decreases pairs.len() - i,
        {
            proof {
                assert(all.take(i + 1).drop_last() =~= all.take(i as int));
                assert(all.take(i + 1).last() == all[i as int]);
            }
            metrics = metrics.insert(pairs[i].0.clone(), pairs[i].1);
            i = i + 1;
        }
        assert(all.take(pairs.len() as int) =~= all);
        metrics
    }

    /// The set with `metric` as its metric of the given kind.
    pub fn insert(self, kind: MetricKind, metric: Metric) -> (metrics: AdapterMetrics)
        ensures
            metrics@ == self@.insert(kind@, metric),
            metrics.kinds() == keys_after(self.kinds(), kind@),
    {
        proof {
            use_type_invariant(&self);
            use_type_invariant(&kind);
        }
        AdapterMetrics { inner: self.inner.insert(kind.to_string(), metric) }
    }

    /// The number of kinds: each is in `kinds` once.
    pub fn len(&self) -> (n: usize)
        ensures
            n == self@.dom().len(),
            n == self.kinds().len(),
            self@.dom().finite(),
            self.kinds().no_duplicates(),
            self.kinds().to_set() == self@.dom(),
    {
        self.inner.len()
    }

    /// The metric of the kind that `key` names, where the set has one. A
    /// key that is no valid name of a kind names none.
    pub fn get(&self, key: &str) -> (r: Option<&Metric>)
        ensures
            match r {
                Some(metric) => self@.contains_key(key@) && *metric == self@[key@],
                None => !self@.contains_key(key@),
            },
            r is Some ==> is_valid_name(key@),
            !is_valid_name(key@) ==> r is None,
    {
        proof {
            use_type_invariant(self);
        }
        self.inner.get(key)
    }

    /// The kind at place `i`, in the order in which the kinds first came,
    /// with its metric; nothing from the number of kinds on.
    pub fn entry_at(&self, i: usize) -> (r: Option<(MetricKind, Metric)>)
        ensures
            match r {
                Some((kind, metric)) => i < self.kinds().len() && kind@ == self.kinds()[i as int]
                    && self@.contains_key(kind@) && self@[kind@] == metric,
                None => i >= self.kinds().len(),
            },
    {
        proof {
            use_type_invariant(self);
        }
        if i < self.inner.len() {
            let key = self.inner.key_at(i);
            let metric = *self.inner.value_at(i);
            match MetricKind::from_str(key.as_str()) {
                Some(kind) => Some((kind, metric)),
                None => None,
            }
        } else {
            None
        }
    }

    /// The two sets folded into one under `kind`. Where both sets hold a
    /// kind, its metrics are combined: the smaller or the larger is kept
    /// whole, or the two are added. A kind that only one set holds keeps its
    /// metric. `OutOfRange` where a sum cannot be given.
    pub fn combined(self, other: AdapterMetrics, kind: CombinedKind) -> (r: Result<
        AdapterMetrics,
        ArithmeticError,
    >)
        ensures
            match r {
                Ok(metrics) => can_combine(self@, other@, kind) && metrics@ == combined_map(
                    self@,
                    other@,
                    kind,
                ) && metrics.kinds() == self.kinds() + keys_not_in(other.kinds(), self@),
                Err(e) => e == ArithmeticError::OutOfRange && !can_combine(self@, other@, kind),
            },
    {
        proof {
            use_type_invariant(&self);
            use_type_invariant(&other);
        }
        let ghost goal = combined_map(self@, other@, kind);
        let mut result: StringMap<Metric> = StringMap::new();
        let count = self.inner.len();
        let mut i: usize = 0;
        while i < count
            invariant
                i <= count,
                count == self.inner.keys().len(),
                self.inner.keys().no_duplicates(),
                goal == combined_map(self.inner@, other.inner@, kind),
                result.keys() == self.inner.keys().take(i as int),
                forall|k: Seq<char>|
                    #![trigger result@.contains_key(k)]
                    result@.contains_key(k) <==> among_first(self.inner.keys(), i as int, k),
                forall|k: Seq<char>|
                    #![trigger result@.contains_key(k)]
                    result@.contains_key(k) ==> result@[k] == goal[k],
                forall|j: int|
                    0 <= j < i && other.inner@.contains_key(self.inner.keys()[j]) ==> (
                    #[trigger] combine(
                        kind,
                        self.inner@[self.inner.keys()[j]],
                        other.inner@[self.inner.keys()[j]],
                    )) is Some,
            decreases count - i,
        {
            let key = self.inner.key_at(i);
            let metric = *self.inner.value_at(i);
            let merged = match other.inner.get(key.as_str()) {
                Some(theirs) => {
                    let folded = match kind {
                        CombinedKind::Ord(OrdKind::Min) => Some(metric.min(*theirs)),
                        CombinedKind::Ord(OrdKind::Max) => Some(metric.max(*theirs)),
                        CombinedKind::Add => metric.plus(*theirs),
                    };
                    match folded {
                        Some(folded) => folded,
                        None => {
                            assert(combine(kind, self@[key@], other@[key@]) is None);
                            return Err(ArithmeticError::OutOfRange);
                        },
                    }
                },
                None => metric,
            };
            proof {
                lemma_next_key(self.inner.keys(), i as int);
            }
            result = result.insert(key.clone(), merged);
            i = i + 1;
        }
        proof {
            let keys = self.inner.keys();
            assert(keys.take(count as int) =~= keys);
            self.inner.lemma_entries();
            assert forall|k: Seq<char>| self@.contains_key(k) && other@.contains_key(k) implies (
            #[trigger] combine(kind, self@[k], other@[k])) is Some by {
                let j = keys.index_of(k);
                assert(keys.contains(k));
                assert(keys[j] == k);
            }
        }
        let others = other.inner.len();
        let mut j: usize = 0;
        proof {
            assert(other.inner.keys().take(0) =~= Seq::<Seq<char>>::empty());
            assert(result.keys() =~= self.inner.keys() + Seq::<Seq<char>>::empty());
        }
        while j < others
            invariant
                j <= others,
                others == other.inner.keys().len(),
                other.inner.keys().no_duplicates(),
                goal == combined_map(self.inner@, other.inner@, kind),
                result.keys() == self.inner.keys() + keys_not_in(
                    other.inner.keys().take(j as int),
                    self.inner@,
                ),
                forall|k: Seq<char>|
                    #![trigger result@.contains_key(k)]
                    result@.contains_key(k) <==> (self.inner@.contains_key(k) || among_first(
                        other.inner.keys(),
                        j as int,
                        k,
                    )),
                forall|k: Seq<char>|
                    #![trigger result@.contains_key(k)]
                    result@.contains_key(k) ==> result@[k] == goal[k],
            decreases others - j,
        {
            let key = other.inner.key_at(j);
            let metric = *other.inner.value_at(j);
            proof {
                lemma_next_key(other.inner.keys(), j as int);
            }
            if !self.inner.contains_key(key.as_str()) {
                result = result.insert(key.clone(), metric);
                proof {
                    let kept = keys_not_in(other.inner.keys().take(j as int), self.inner@);
                    assert(result.keys() =~= self.inner.keys() + kept.push(key@));
                }
            }
            j = j + 1;
        }
        proof {
            let keys = other.inner.keys();
            assert(keys.take(others as int) =~= keys);
            other.inner.lemma_entries();
            assert forall|k: Seq<char>| goal.contains_key(k) implies result@.contains_key(k) by {
                if other@.contains_key(k) {
                    assert(keys.to_set().contains(k));
                    assert(keys.contains(k));
                }
            }
            assert forall|k: Seq<char>| result@.contains_key(k) implies goal.contains_key(k) by {
                if keys.contains(k) {
                    assert(keys.to_set().contains(k));
                }
            }
            assert(result@ =~= goal);
        }
        Ok(AdapterMetrics { inner: result })
    }

    /// The set with every metric divided by `rhs`: `DivisionByZero` for a
    /// count of zero, `OutOfRange` where a quotient cannot be given.
    pub fn div(self, rhs: usize) -> (r: Result<AdapterMetrics, ArithmeticError>)
        ensures
            match r {
                Ok(metrics) => rhs > 0 && can_divide(self@, rhs) && metrics@ == divided_map(
                    self@,
                    rhs,
                ) && metrics.kinds() == self.kinds(),
                Err(ArithmeticError::DivisionByZero) => rhs == 0,
                Err(ArithmeticError::OutOfRange) => rhs > 0 && !can_divide(self@, rhs),
            },
    {
        if rhs == 0 {
            return Err(ArithmeticError::DivisionByZero);
        }
        proof {
            use_type_invariant(&self);
        }
        let ghost goal = divided_map(self@, rhs);
        let mut result: StringMap<Metric> = StringMap::new();
        let count = self.inner.len();
        let mut i: usize = 0;
        while i < count
            invariant
                i <= count,
                rhs > 0,
                count == self.inner.keys().len(),
                self.inner.keys().no_duplicates(),
                goal == divided_map(self.inner@, rhs),
                result.keys() == self.inner.keys().take(i as int),
                forall|k: Seq<char>|
                    #![trigger result@.contains_key(k)]
                    result@.contains_key(k) <==> among_first(self.inner.keys(), i as int, k),
                forall|k: Seq<char>|
                    #![trigger result@.contains_key(k)]
                    result@.contains_key(k) ==> result@[k] == goal[k],
                forall|j: int|
                    0 <= j < i ==> (#[trigger] self.inner@[self.inner.keys()[j]].spec_divided_by(
                        rhs,
                    )) is Some,
            decreases count - i,
        {
            let key = self.inner.key_at(i);
            let metric = *self.inner.value_at(i);
            let quotient = match metric.divided_by(rhs) {
                Some(quotient) => quotient,
                None => {
                    assert(self@[key@].spec_divided_by(rhs) is None);
                    return Err(ArithmeticError::OutOfRange);
                },
            };
            proof {
                lemma_next_key(self.inner.keys(), i as int);
            }
            result = result.insert(key.clone(), quotient);
            i = i + 1;
        }
        proof {
            let keys = self.inner.keys();
            assert(keys.take(count as int) =~= keys);
            self.inner.lemma_entries();
            assert forall|k: Seq<char>| self@.contains_key(k) implies (
            #[trigger] self@[k].spec_divided_by(rhs)) is Some by {
                let j = keys.index_of(k);
                assert(keys.contains(k));
                assert(keys[j] == k);
            }
            assert forall|k: Seq<char>| goal.contains_key(k) implies result@.contains_key(k) by {
                assert(keys.to_set().contains(k));
                assert(keys.contains(k));
            }
            assert forall|k: Seq<char>| result@.contains_key(k) implies goal.contains_key(k) by {
                if keys.contains(k) {
                    assert(keys.to_set().contains(k));
                }
            }
            assert(result@ =~= goal);
        }
        Ok(AdapterMetrics { inner: result })
    }
}

} // verus!
