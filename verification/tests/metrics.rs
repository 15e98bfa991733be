use bencher_adapter::decimal::{Decimal, MAX_MANTISSA};
use bencher_adapter::metric::{ArithmeticError, Metric};
use bencher_adapter::metrics::{AdapterMetrics, CombinedKind, OrdKind};
use bencher_adapter::names::MetricKind;

fn dec(mantissa: i128, scale: u32) -> Decimal {
    Decimal::new(mantissa, scale).unwrap()
}

fn whole(value: i64) -> Decimal {
    Decimal::from_integer(value)
}

fn point(value: i64) -> Metric {
    Metric::new(whole(value), None, None)
}

fn bounded(value: i64, lower: i64, upper: i64) -> Metric {
    Metric::new(whole(value), Some(whole(lower)), Some(whole(upper)))
}

fn kind(text: &str) -> MetricKind {
    MetricKind::from_str(text).unwrap()
}

fn set(entries: &[(&str, Metric)]) -> AdapterMetrics {
    let mut metrics = AdapterMetrics::new();
    for (name, metric) in entries {
        metrics = metrics.insert(kind(name), *metric);
    }
    metrics
}

fn entries(metrics: &AdapterMetrics) -> Vec<(String, Metric)> {
    let mut all = Vec::new();
    let mut i = 0;
    while let Some((kind, metric)) = metrics.entry_at(i) {
        all.push((kind.to_string(), metric));
        i += 1;
    }
    all.sort_by(|a, b| a.0.cmp(&b.0));
    all
}

#[test]
fn metric_min_and_max_compare_on_value() {
    let low = bounded(5, 1, 100);
    let high = bounded(10, 9, 11);
    assert_eq!(low.min(high), low);
    assert_eq!(high.min(low), low);
    assert_eq!(low.max(high), high);
    assert_eq!(high.max(low), high);
}

#[test]
fn metric_min_and_max_of_equal_values() {
    let first = Metric::new(dec(50, 1), Some(whole(1)), None);
    let second = Metric::new(whole(5), None, Some(whole(9)));
    assert_eq!(first.min(second), first);
    assert_eq!(second.min(first), second);
    assert_eq!(first.max(second), second);
    assert_eq!(second.max(first), first);
}

#[test]
fn metric_plus_adds_bounds_only_where_both_have_them() {
    assert_eq!(bounded(10, 4, 16).plus(bounded(5, 2, 8)), Some(bounded(15, 6, 24)));
    assert_eq!(bounded(10, 4, 16).plus(point(5)), Some(point(15)));
    assert_eq!(point(10).plus(bounded(5, 2, 8)), Some(point(15)));
    assert_eq!(
        Metric::new(whole(10), Some(whole(4)), None).plus(bounded(5, 2, 8)),
        Some(Metric::new(whole(15), Some(whole(6)), None))
    );
    assert_eq!(
        Metric::new(whole(10), None, Some(whole(16))).plus(bounded(5, 2, 8)),
        Some(Metric::new(whole(15), None, Some(whole(24))))
    );
}

#[test]
fn metric_plus_refuses_what_is_out_of_range() {
    let largest = dec(MAX_MANTISSA, 0);
    assert_eq!(Metric::new(largest, None, None).plus(point(1)), None);
    assert_eq!(
        Metric::new(whole(1), Some(largest), None).plus(Metric::new(whole(1), Some(whole(1)), None)),
        None
    );
    assert_eq!(
        Metric::new(whole(1), None, Some(largest)).plus(Metric::new(whole(1), None, Some(whole(1)))),
        None
    );
    assert_eq!(
        Metric::new(whole(1), Some(largest), None).plus(point(1)),
        Some(point(2))
    );
}

#[test]
fn metric_divided_by_two() {
    assert_eq!(bounded(10, 4, 16).divided_by(2), Some(bounded(5, 2, 8)));
    assert_eq!(point(10).divided_by(4), Some(Metric::new(dec(25, 1), None, None)));
    assert_eq!(bounded(10, 4, 16).divided_by(0), None);
}

#[test]
fn metrics_combined_min_max_add_of_one_kind() {
    let combined = set(&[("k", point(10))])
        .combined(set(&[("k", point(5))]), CombinedKind::Ord(OrdKind::Min))
        .unwrap();
    assert_eq!(entries(&combined), vec![("k".to_string(), point(5))]);

    let combined = set(&[("k", point(10))])
        .combined(set(&[("k", point(5))]), CombinedKind::Ord(OrdKind::Max))
        .unwrap();
    assert_eq!(entries(&combined), vec![("k".to_string(), point(10))]);

    let combined =
        set(&[("k", point(10))]).combined(set(&[("k", point(5))]), CombinedKind::Add).unwrap();
    assert_eq!(entries(&combined), vec![("k".to_string(), point(15))]);
}

#[test]
fn metrics_combined_bounds_travel_with_the_winner() {
    let ours = set(&[("k", bounded(10, 9, 11))]);
    let theirs = set(&[("k", bounded(5, 1, 100))]);
    let combined = ours.combined(theirs, CombinedKind::Ord(OrdKind::Min)).unwrap();
    assert_eq!(combined.get("k"), Some(&bounded(5, 1, 100)));

    let ours = set(&[("k", bounded(10, 9, 11))]);
    let theirs = set(&[("k", bounded(5, 1, 100))]);
    let combined = ours.combined(theirs, CombinedKind::Ord(OrdKind::Max)).unwrap();
    assert_eq!(combined.get("k"), Some(&bounded(10, 9, 11)));
}

#[test]
fn metrics_combined_add_sums_bounds_of_both_only() {
    let combined = set(&[("k", bounded(10, 4, 16))])
        .combined(set(&[("k", bounded(5, 2, 8))]), CombinedKind::Add)
        .unwrap();
    assert_eq!(combined.get("k"), Some(&bounded(15, 6, 24)));

    let combined = set(&[("k", bounded(10, 4, 16))])
        .combined(set(&[("k", point(5))]), CombinedKind::Add)
        .unwrap();
    assert_eq!(combined.get("k"), Some(&point(15)));
}

#[test]
fn metrics_combined_is_the_union_of_the_kinds() {
    for how in [CombinedKind::Ord(OrdKind::Min), CombinedKind::Ord(OrdKind::Max), CombinedKind::Add]
    {
        let ours = set(&[("latency", bounded(10, 4, 16)), ("ours", point(1))]);
        let theirs = set(&[("theirs", bounded(7, 6, 8)), ("latency", bounded(10, 4, 16))]);
        let combined = ours.combined(theirs, how).unwrap();
        assert_eq!(combined.len(), 3);
        assert_eq!(combined.get("ours"), Some(&point(1)));
        assert_eq!(combined.get("theirs"), Some(&bounded(7, 6, 8)));
        assert!(combined.get("latency").is_some());
        assert!(combined.get("other").is_none());
    }
}

#[test]
fn metrics_combined_with_the_empty_set() {
    let combined = set(&[("k", point(10))]).combined(AdapterMetrics::new(), CombinedKind::Add);
    assert_eq!(entries(&combined.unwrap()), vec![("k".to_string(), point(10))]);
    let combined = AdapterMetrics::new().combined(set(&[("k", point(10))]), CombinedKind::Add);
    assert_eq!(entries(&combined.unwrap()), vec![("k".to_string(), point(10))]);
    let combined = AdapterMetrics::default().combined(AdapterMetrics::new(), CombinedKind::Add);
    assert_eq!(combined.unwrap().len(), 0);
}

#[test]
fn metrics_combined_add_out_of_range() {
    let largest = Metric::new(dec(MAX_MANTISSA, 0), None, None);
    let combined = set(&[("k", largest)]).combined(set(&[("k", point(1))]), CombinedKind::Add);
    assert_eq!(combined.unwrap_err(), ArithmeticError::OutOfRange);
    let combined = set(&[("k", largest)])
        .combined(set(&[("k", point(1))]), CombinedKind::Ord(OrdKind::Max))
        .unwrap();
    assert_eq!(combined.get("k"), Some(&largest));
    let combined =
        set(&[("k", largest)]).combined(set(&[("j", point(1))]), CombinedKind::Add).unwrap();
    assert_eq!(combined.len(), 2);
}

#[test]
fn metrics_div_divides_every_metric() {
    let divided = set(&[("a", bounded(10, 4, 16)), ("b", point(3))]).div(2).unwrap();
    assert_eq!(
        entries(&divided),
        vec![
            ("a".to_string(), bounded(5, 2, 8)),
            ("b".to_string(), Metric::new(dec(15, 1), None, None)),
        ]
    );
}

#[test]
fn metrics_div_by_zero_is_refused() {
    assert_eq!(
        set(&[("a", point(10))]).div(0).unwrap_err(),
        ArithmeticError::DivisionByZero
    );
    assert_eq!(AdapterMetrics::new().div(0).unwrap_err(), ArithmeticError::DivisionByZero);
    assert_eq!(AdapterMetrics::new().div(3).unwrap().len(), 0);
}

#[test]
fn metrics_div_out_of_range() {
    let large = Metric::new(Decimal::new(10i128.pow(37), 0).unwrap(), None, None);
    assert_eq!(set(&[("a", large)]).div(7).unwrap_err(), ArithmeticError::OutOfRange);
    assert_eq!(set(&[("a", large)]).div(1).unwrap().get("a"), Some(&large));
}

#[test]
fn metrics_insert_replaces_the_metric_of_a_kind() {
    let metrics = set(&[("a", point(1)), ("b", point(2)), ("a", point(3))]);
    assert_eq!(metrics.len(), 2);
    assert_eq!(metrics.get("a"), Some(&point(3)));
    assert_eq!(metrics.get("b"), Some(&point(2)));
    assert_eq!(metrics.get(""), None);
    assert!(metrics.entry_at(2).is_none());
}

fn in_order(metrics: &AdapterMetrics) -> Vec<String> {
    let mut kinds = Vec::new();
    let mut i = 0;
    while let Some((kind, _)) = metrics.entry_at(i) {
        kinds.push(kind.to_string());
        i += 1;
    }
    kinds
}

#[test]
fn metrics_keep_the_order_in_which_kinds_came() {
    let ours = set(&[("b", point(1)), ("a", point(2)), ("b", point(3)), ("c", point(4))]);
    assert_eq!(in_order(&ours), vec!["b", "a", "c"]);
    let theirs = set(&[("d", point(5)), ("a", point(6)), ("e", point(7))]);
    let combined = ours.combined(theirs, CombinedKind::Add).unwrap();
    assert_eq!(in_order(&combined), vec!["b", "a", "c", "d", "e"]);
    assert_eq!(in_order(&combined.div(2).unwrap()), vec!["b", "a", "c", "d", "e"]);
}

#[test]
fn metrics_from_pairs() {
    let metrics = AdapterMetrics::from(vec![
        (kind("latency"), point(1)),
        (kind("throughput"), point(2)),
        (kind("latency"), point(3)),
    ]);
    assert_eq!(metrics.len(), 2);
    assert_eq!(metrics.get("latency"), Some(&point(3)));
    assert_eq!(metrics.get("throughput"), Some(&point(2)));
    assert_eq!(AdapterMetrics::from(Vec::new()).len(), 0);
}
