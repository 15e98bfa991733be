use bencher_adapter::decimal::Decimal;
use bencher_adapter::error::AdapterError;
use bencher_adapter::jmh::{
    parse_score_unit, score_metric, AdapterJavaJmh, Benchmark, Jmh, JsonEmpty, PrimaryMetric,
};
use bencher_adapter::metric::Metric;
use bencher_adapter::metrics::AdapterMetrics;
use bencher_adapter::number::parse_number;
use bencher_adapter::results::AdapterResults;
use bencher_adapter::units::Units;

fn dec(text: &str) -> Decimal {
    parse_number(text).unwrap()
}

fn to_f64(value: &Decimal) -> f64 {
    value.mantissa() as f64 / 10f64.powi(value.scale() as i32)
}

fn record(name: &str, score: &str, error: &str, unit: &str) -> Benchmark {
    Benchmark {
        benchmark: name.to_string(),
        jvm_args: vec!["-Dfile.encoding=UTF-8".to_string()],
        primary_metric: PrimaryMetric {
            score: dec(score),
            score_error: dec(error),
            score_confidence: [dec("0"), dec("0")],
            score_percentiles: JsonEmpty {},
            score_unit: unit.to_string(),
            raw_data: vec![vec![dec(score)]],
        },
        secondary_metrics: JsonEmpty {},
    }
}

fn convert_java_jmh(records: Vec<Benchmark>) -> AdapterResults {
    AdapterJavaJmh::parse(Ok(Jmh(records))).unwrap()
}

fn close(value: Option<&Decimal>, float: Option<f64>) -> bool {
    match (value, float) {
        (Some(value), Some(float)) => (to_f64(value) - float).abs() <= float.abs() * 1e-15,
        (None, None) => true,
        _ => false,
    }
}

fn validate_metrics(
    metrics: &AdapterMetrics,
    value: (&str, f64),
    lower_bound: Option<(&str, f64)>,
    upper_bound: Option<(&str, f64)>,
) {
    assert_eq!(metrics.len(), 1);
    let metric = metrics.get("latency").unwrap();
    assert_eq!(metric.value, dec(value.0));
    assert_eq!(metric.lower_bound, lower_bound.map(|bound| dec(bound.0)));
    assert_eq!(metric.upper_bound, upper_bound.map(|bound| dec(bound.0)));
    assert!(close(Some(&metric.value), Some(value.1)));
    assert!(close(metric.lower_bound.as_ref(), lower_bound.map(|bound| bound.1)));
    assert!(close(metric.upper_bound.as_ref(), upper_bound.map(|bound| bound.1)));
}

#[test]
fn test_adapter_java_jmh_one() {
    let results = convert_java_jmh(vec![record(
        "org.openjdk.jmh.samples.JMHSample_01_HelloWorld.wellHelloThere",
        "3376238873.1228185",
        "14287985.743935993",
        "ops/s",
    )]);
    assert_eq!(results.len(), 1);

    let metrics =
        results.get("org.openjdk.jmh.samples.JMHSample_01_HelloWorld.wellHelloThere").unwrap();
    validate_metrics(
        metrics,
        ("3376238873122818500", 3.3762388731228186e18),
        Some(("3361950887378882507", 3.3619508873788826e18)),
        Some(("3390526858866754493", 3.3905268588667546e18)),
    );
}

#[test]
fn test_adapter_java_jmh() {
    let results = convert_java_jmh(vec![
        record("BenchmarkFib10-8", "325", "0", "ops/ns"),
        record("BenchmarkFib20", "40537.123", "0", "ops/ns"),
        record("BenchmarkFib/my_tabled_benchmark_-_10-8", "325", "0", "ops/ns"),
        record("BenchmarkFib/my_tabled_benchmark_-_20", "40537.123", "0", "ops/ns"),
        record("BenchmarkFib/my/tabled/benchmark_-_10-8", "325", "0", "ops/ns"),
        record("BenchmarkFib/my/tabled/benchmark_-_20", "40537.456", "0", "ops/ns"),
    ]);
    assert_eq!(results.len(), 6);

    let metrics = results.get("BenchmarkFib10-8").unwrap();
    validate_metrics(metrics, ("325", 325.0), Some(("325", 325.0)), Some(("325", 325.0)));

    let metrics = results.get("BenchmarkFib20").unwrap();
    validate_metrics(
        metrics,
        ("40537.123", 40_537.123),
        Some(("40537.123", 40_537.123)),
        Some(("40537.123", 40_537.123)),
    );

    let metrics = results.get("BenchmarkFib/my_tabled_benchmark_-_10-8").unwrap();
    validate_metrics(metrics, ("325", 325.0), Some(("325", 325.0)), Some(("325", 325.0)));

    let metrics = results.get("BenchmarkFib/my_tabled_benchmark_-_20").unwrap();
    validate_metrics(
        metrics,
        ("40537.123", 40_537.123),
        Some(("40537.123", 40_537.123)),
        Some(("40537.123", 40_537.123)),
    );

    let metrics = results.get("BenchmarkFib/my/tabled/benchmark_-_20").unwrap();
    validate_metrics(
        metrics,
        ("40537.456", 40_537.456),
        Some(("40537.456", 40_537.456)),
        Some(("40537.456", 40_537.456)),
    );
}

#[test]
fn jmh_bounds_are_the_value_less_and_plus_the_error() {
    for (unit, value, lower, upper) in [
        ("ops/ps", "0.0125", "0.01225", "0.01275"),
        ("ops/ns", "12.5", "12.25", "12.75"),
        ("ops/\u{3bc}s", "12500", "12250", "12750"),
        ("ops/\u{b5}s", "12500", "12250", "12750"),
        ("ops/ms", "12500000", "12250000", "12750000"),
        ("ops/s", "12500000000", "12250000000", "12750000000"),
    ] {
        let results = convert_java_jmh(vec![record("bench", "12.5", "0.25", unit)]);
        assert_eq!(
            results.get("bench").unwrap().get("latency"),
            Some(&Metric::new(dec(value), Some(dec(lower)), Some(dec(upper)))),
            "{unit}"
        );
    }
}

#[test]
fn jmh_error_larger_than_score_gives_a_negative_lower_bound() {
    let results = convert_java_jmh(vec![record("bench", "1.5", "2", "ops/ns")]);
    let metric = *results.get("bench").unwrap().get("latency").unwrap();
    assert_eq!(metric.lower_bound, Decimal::new(-5, 1));
    assert_eq!(metric.upper_bound, Decimal::new(35, 1));
}

#[test]
fn jmh_unit_is_the_prefix_and_a_unit_of_time() {
    assert_eq!(parse_score_unit("ops/ps"), Ok(Units::Pico));
    assert_eq!(parse_score_unit("ops/ns"), Ok(Units::Nano));
    assert_eq!(parse_score_unit("ops/\u{3bc}s"), Ok(Units::Micro));
    assert_eq!(parse_score_unit("ops/\u{b5}s"), Ok(Units::Micro));
    assert_eq!(parse_score_unit("ops/ms"), Ok(Units::Milli));
    assert_eq!(parse_score_unit("ops/s"), Ok(Units::Sec));
}

#[test]
fn jmh_unit_of_another_form_is_invalid() {
    for unit in [
        "ns",
        "s",
        "ops/ops/ns",
        "ops/ops/s",
        "ops/",
        "ops",
        "ops/min",
        "ops/fortnight",
        "ops/ns ",
        " ops/ns",
        "Ops/ns",
        "ops/NS",
        "ns/ops/",
        "op/s",
        "",
    ] {
        assert_eq!(
            parse_score_unit(unit),
            Err(AdapterError::InvalidUnit(unit.to_string())),
            "{unit:?}"
        );
    }
}

#[test]
fn jmh_unit_without_or_with_repeated_prefix_is_an_error() {
    for unit in ["ns", "ops/ops/ns"] {
        let error = AdapterJavaJmh::parse(Ok(Jmh(vec![
            record("first", "1", "0", "ops/ns"),
            record("second", "1", "0", unit),
        ])))
        .unwrap_err();
        assert_eq!(error, AdapterError::InvalidUnit(unit.to_string()), "{unit:?}");
    }
}

#[test]
fn jmh_unknown_unit_is_an_error() {
    let error = AdapterJavaJmh::parse(Ok(Jmh(vec![
        record("first", "1", "0", "ops/s"),
        record("second", "1", "0", "ops/fortnight"),
        record("third", "1", "0", "ops/year"),
    ])))
    .unwrap_err();
    assert_eq!(error, AdapterError::InvalidUnit("ops/fortnight".to_string()));
}

#[test]
fn jmh_invalid_name_is_an_error_before_any_unit() {
    let error = AdapterJavaJmh::parse(Ok(Jmh(vec![
        record("first", "1", "0", "ops/fortnight"),
        record("", "1", "0", "ops/s"),
    ])))
    .unwrap_err();
    assert_eq!(error, AdapterError::InvalidName(String::new()));
}

#[test]
fn jmh_number_out_of_range_is_an_error() {
    let results = AdapterJavaJmh::parse(Ok(Jmh(vec![record(
        "huge",
        "79228162514264337593543950335",
        "1",
        "ops/s",
    )])))
    .unwrap();
    assert_eq!(results.len(), 1);
    let error = AdapterJavaJmh::parse(Ok(Jmh(vec![record(
        "huge",
        "79228162514264337593543950335",
        "0.0000000000000000000000000001",
        "ops/s",
    )])))
    .unwrap_err();
    assert_eq!(error, AdapterError::InvalidNumber("huge".to_string()));
}

#[test]
fn jmh_unreadable_document_is_a_deserialization_error() {
    let error =
        AdapterJavaJmh::parse(Err("expected value at line 1 column 1".to_string())).unwrap_err();
    assert_eq!(
        error,
        AdapterError::Deserialization("expected value at line 1 column 1".to_string())
    );
}

#[test]
fn jmh_later_record_of_a_name_stands() {
    let results = convert_java_jmh(vec![
        record("twice", "1", "0", "ops/ns"),
        record("once", "2", "0", "ops/ns"),
        record("twice", "3", "0", "ops/ns"),
    ]);
    assert_eq!(results.len(), 2);
    assert_eq!(results.get("twice").unwrap().get("latency").unwrap().value, dec("3"));
    assert_eq!(results.get("once").unwrap().get("latency").unwrap().value, dec("2"));
    assert_eq!(results.entry_at(0).unwrap().0.as_str(), "twice");
    assert_eq!(results.entry_at(1).unwrap().0.as_str(), "once");
    assert!(results.entry_at(2).is_none());
}

#[test]
fn jmh_empty_document_gives_no_results() {
    assert_eq!(convert_java_jmh(Vec::new()).len(), 0);
    assert_eq!(AdapterResults::try_from(Jmh(Vec::new())).unwrap().len(), 0);
}

#[test]
fn jmh_score_metric_of_each_unit() {
    assert_eq!(
        score_metric(&dec("2"), &dec("1"), Units::Pico),
        Some(Metric::new(dec("0.002"), Some(dec("0.001")), Some(dec("0.003"))))
    );
    assert_eq!(
        score_metric(&dec("2"), &dec("1"), Units::Milli),
        Some(Metric::new(dec("2000000"), Some(dec("1000000")), Some(dec("3000000"))))
    );
}

#[test]
fn results_have_nothing_under_a_key_that_is_no_name() {
    let results = convert_java_jmh(vec![record("bench", "1", "0", "ops/ns")]);
    assert!(results.get("").is_none());
    assert!(results.get("bench").unwrap().get("").is_none());
    assert!(results.get("bench").unwrap().get("latency").is_some());
    assert!(results.get("other").is_none());
}
