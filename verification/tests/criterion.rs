use bencher_adapter::criterion::{parse_criterion, parse_panic, AdapterRustCriterion};
use bencher_adapter::decimal::Decimal;
use bencher_adapter::error::AdapterError;
use bencher_adapter::metric::Metric;
use bencher_adapter::metrics::AdapterMetrics;
use bencher_adapter::number::parse_number;
use bencher_adapter::results::AdapterResults;
use bencher_adapter::Settings;

const MANY: &str = "\
   Compiling playground v0.0.1 (/playground)
    Finished bench [optimized] target(s) in 1.07s
     Running unittests (target/release/deps/bench-2b2f9c8d4e8f5c9b)
Gnuplot not found, using plotters backend
file                    time:   [320.62 ps 323.90 ps 327.55 ps]
Found 5 outliers among 100 measurements (5.00%)
  3 (3.00%) high mild
  2 (2.00%) high severe

rolling_file            time:   [381.79 ps 429.66 ps 483.28 ps]
Found 20 outliers among 100 measurements (20.00%)
  9 (9.00%) high mild
  11 (11.00%) high severe

tracing_file            time:   [16.652 \u{b5}s 18.019 \u{b5}s 19.562 \u{b5}s]
Found 12 outliers among 100 measurements (12.00%)
  2 (2.00%) high mild
  10 (10.00%) high severe

tracing_rolling_file    time:   [18.195 \u{3bc}s 20.930 \u{3bc}s 24.240 \u{3bc}s]
Found 14 outliers among 100 measurements (14.00%)
  6 (6.00%) high mild
  8 (8.00%) high severe

benchmark: name with spaces
                        time:   [18.195 ns 20.930 ns 24.240 ns]
";

const FAILED: &str = "\
   Compiling playground v0.0.1 (/playground)
file                    time:   [320.62 ps 323.90 ps 327.55 ps]
rolling_file            time:   [381.79 ps 429.66 ps 483.28 ps]
thread 'main' panicked at 'explicit panic', trace4rs/benches/trace4rs_bench.rs:42:5
note: run with `RUST_BACKTRACE=1` environment variable to display a backtrace
tracing_file            time:   [16.652 \u{b5}s 18.019 \u{b5}s 19.562 \u{b5}s]
tracing_rolling_file    time:   [18.195 \u{b5}s 20.930 \u{b5}s 24.240 \u{b5}s]
";

const DOGFOOD: &str = "\
JsonAdapter::Magic (JSON)
                        time:   [3.4623 \u{b5}s 3.4632 \u{b5}s 3.4641 \u{b5}s]
Found 4 outliers among 100 measurements (4.00%)
  1 (1.00%) low mild
  3 (3.00%) high severe

JsonAdapter::Json       time:   [3.4793 \u{b5}s 3.4796 \u{b5}s 3.4800 \u{b5}s]
Found 7 outliers among 100 measurements (7.00%)
  2 (2.00%) high mild
  5 (5.00%) high severe

JsonAdapter::Magic (Rust)
                        time:   [14.721 \u{b5}s 14.726 \u{b5}s 14.730 \u{b5}s]
JsonAdapter::Rust       time:   [14.881 \u{b5}s 14.884 \u{b5}s 14.887 \u{b5}s]
";

fn dec(text: &str) -> Decimal {
    parse_number(text).unwrap()
}

fn to_f64(value: &Decimal) -> f64 {
    value.mantissa() as f64 / 10f64.powi(value.scale() as i32)
}

fn metric(value: &str, lower: &str, upper: &str) -> Metric {
    Metric::new(dec(value), Some(dec(lower)), Some(dec(upper)))
}

fn close(value: Option<&Decimal>, float: Option<f64>) -> bool {
    match (value, float) {
        (Some(value), Some(float)) => (to_f64(value) - float).abs() <= float.abs() * 1e-15,
        (None, None) => true,
        _ => false,
    }
}

fn validate_metrics(
    metrics: &AdapterMetrics,
    value: (&str, f64),
    lower_bound: Option<(&str, f64)>,
    upper_bound: Option<(&str, f64)>,
) {
    assert_eq!(metrics.len(), 1);
    let metric = metrics.get("latency").unwrap();
    assert_eq!(metric.value, dec(value.0));
    assert_eq!(metric.lower_bound, lower_bound.map(|bound| dec(bound.0)));
    assert_eq!(metric.upper_bound, upper_bound.map(|bound| dec(bound.0)));
    assert!(close(Some(&metric.value), Some(value.1)));
    assert!(close(metric.lower_bound.as_ref(), lower_bound.map(|bound| bound.1)));
    assert!(close(metric.upper_bound.as_ref(), upper_bound.map(|bound| bound.1)));
}

fn convert_rust_criterion(input: &str) -> AdapterResults {
    AdapterRustCriterion::parse(input, Settings::default()).unwrap()
}

#[test]
fn test_parse_criterion() {
    for (index, (expected, input)) in [
        (
            Some(("criterion_benchmark".to_string(), (280.0, Some(222.2), Some(333.33)))),
            "criterion_benchmark                    time:   [222.2 ns 280.0 ns 333.33 ns]",
        ),
        (
            Some(("criterion_benchmark".to_string(), (5.280, Some(0.222), Some(0.33333)))),
            "criterion_benchmark                    time:   [222.0 ps 5,280.0 ps 333.33 ps]",
        ),
        (
            Some(("criterion_benchmark".to_string(), (18_019.0, Some(16_652.0), Some(19_562.0)))),
            "criterion_benchmark                    time:   [16.652 \u{b5}s 18.019 \u{b5}s 19.562 \u{b5}s]",
        ),
    ]
    .into_iter()
    .enumerate()
    {
        let found = parse_criterion(None, input).map(|(name, metric)| {
            (
                name,
                (
                    to_f64(&metric.value),
                    metric.lower_bound.as_ref().map(to_f64),
                    metric.upper_bound.as_ref().map(to_f64),
                ),
            )
        });
        assert_eq!(expected, found, "#{index}: {input}")
    }
}

#[test]
fn test_parse_panic() {
    for (index, (expected, input)) in [(
        Some((
            "main".to_string(),
            "explicit panic".to_string(),
            "trace4rs/benches/trace4rs_bench.rs:42:5".to_string(),
        )),
        "thread 'main' panicked at 'explicit panic', trace4rs/benches/trace4rs_bench.rs:42:5",
    )]
    .into_iter()
    .enumerate()
    {
        assert_eq!(expected, parse_panic(input), "#{index}: {input}")
    }
}

#[test]
fn test_adapter_rust_criterion() {
    let results = convert_rust_criterion(MANY);
    assert_eq!(results.len(), 5);

    let metrics = results.get("file").unwrap();
    validate_metrics(
        metrics,
        ("0.3239", 0.32389999999999997),
        Some(("0.32062", 0.32062)),
        Some(("0.32755", 0.32755)),
    );

    let metrics = results.get("rolling_file").unwrap();
    validate_metrics(
        metrics,
        ("0.42966", 0.42966000000000004),
        Some(("0.38179", 0.38179)),
        Some(("0.48328", 0.48328)),
    );

    let metrics = results.get("tracing_file").unwrap();
    validate_metrics(
        metrics,
        ("18019", 18019.0),
        Some(("16652", 16652.0)),
        Some(("19562", 19562.0)),
    );

    let metrics = results.get("tracing_rolling_file").unwrap();
    validate_metrics(
        metrics,
        ("20930", 20930.0),
        Some(("18195", 18195.0)),
        Some(("24240", 24240.0)),
    );

    let metrics = results.get("benchmark: name with spaces").unwrap();
    validate_metrics(
        metrics,
        ("20.930", 20.930),
        Some(("18.195", 18.195)),
        Some(("24.240", 24.240)),
    );
}

#[test]
fn test_adapter_rust_criterion_failed() {
    assert!(AdapterRustCriterion::parse(FAILED, Settings::default()).is_err());
}

#[test]
fn test_adapter_rust_criterion_failed_allow_failure() {
    let results = AdapterRustCriterion::parse(
        FAILED,
        Settings {
            allow_failure: true,
        },
    )
    .unwrap();
    assert_eq!(results.len(), 4);
}

#[test]
fn test_adapter_rust_criterion_dogfood() {
    let results = convert_rust_criterion(DOGFOOD);
    assert_eq!(results.len(), 4);

    let metrics = results.get("JsonAdapter::Magic (JSON)").unwrap();
    validate_metrics(
        metrics,
        ("3463.2", 3463.2000000000003),
        Some(("3462.3", 3462.2999999999997)),
        Some(("3464.1", 3464.1000000000003)),
    );

    let metrics = results.get("JsonAdapter::Json").unwrap();
    validate_metrics(
        metrics,
        ("3479.6", 3479.6),
        Some(("3479.3", 3479.2999999999997)),
        Some(("3480.0", 3480.0)),
    );

    let metrics = results.get("JsonAdapter::Magic (Rust)").unwrap();
    validate_metrics(
        metrics,
        ("14726", 14726.0),
        Some(("14721", 14721.0)),
        Some(("14730", 14730.0)),
    );

    let metrics = results.get("JsonAdapter::Rust").unwrap();
    validate_metrics(
        metrics,
        ("14884", 14884.0),
        Some(("14881", 14881.0)),
        Some(("14887", 14887.0)),
    );
}

#[test]
fn criterion_panic_is_reported_with_its_parts() {
    let error = AdapterRustCriterion::parse(FAILED, Settings::default()).unwrap_err();
    assert_eq!(
        error,
        AdapterError::Panic {
            thread: "main".to_string(),
            context: "explicit panic".to_string(),
            location: "trace4rs/benches/trace4rs_bench.rs:42:5".to_string(),
        }
    );
}

#[test]
fn criterion_allowed_failure_keeps_the_other_benchmarks() {
    let results = AdapterRustCriterion::parse(
        FAILED,
        Settings {
            allow_failure: true,
        },
    )
    .unwrap();
    for name in ["file", "rolling_file", "tracing_file", "tracing_rolling_file"] {
        assert!(results.get(name).is_some(), "{name}");
    }
    assert_eq!(
        results.get("tracing_file").unwrap().get("latency"),
        Some(&metric("18019", "16652", "19562"))
    );
}

#[test]
fn criterion_panic_line_parts() {
    assert_eq!(
        parse_panic("thread 'main' panicked at 'explicit panic', path:42:5"),
        Some(("main".to_string(), "explicit panic".to_string(), "path:42:5".to_string()))
    );
    assert_eq!(
        parse_panic("thread '' panicked at '', "),
        Some((String::new(), String::new(), String::new()))
    );
    assert_eq!(
        parse_panic("thread 'a b' panicked at 'it''s', x"),
        None
    );
    assert_eq!(parse_panic("thread 'main' panicked at 'explicit panic' path:42:5"), None);
    assert_eq!(parse_panic(" thread 'main' panicked at 'explicit panic', path:42:5"), None);
    assert_eq!(parse_panic("thread 'main panicked at 'explicit panic', path:42:5"), None);
    assert_eq!(parse_panic(""), None);
}

#[test]
fn criterion_name_comes_from_the_line_before() {
    let input = "                        time:   [1.0 ns 2.0 ns 3.0 ns]";
    assert_eq!(
        parse_criterion(Some("a rather long benchmark name"), input),
        Some(("a rather long benchmark name".to_string(), metric("2", "1", "3")))
    );
    assert_eq!(parse_criterion(None, input), Some((String::new(), metric("2", "1", "3"))));
    assert_eq!(
        parse_criterion(Some("ignored"), "name time: [1.0 ns 2.0 ns 3.0 ns]"),
        Some(("name".to_string(), metric("2", "1", "3")))
    );
}

#[test]
fn criterion_name_is_what_stands_before_the_time() {
    assert_eq!(
        parse_criterion(None, "a time: b\ttime:\t[1 s 2 s 3 s]"),
        Some(("a time: b".to_string(), metric("2000000000", "1000000000", "3000000000")))
    );
    assert_eq!(
        parse_criterion(None, " x  time: [1 ms 2 ms 3 ms]"),
        Some((" x".to_string(), metric("2000000", "1000000", "3000000")))
    );
}

#[test]
fn criterion_lines_that_are_no_match() {
    for input in [
        "",
        "name time: [1 ns 2 ns 3 ns] ",
        "name time: [1 ns 2 ns 3 ns",
        "name time: [1 ns 2 ns]",
        "name time: 1 ns 2 ns 3 ns]",
        "name time:[1 ns 2 ns 3 ns]",
        "nametime: [1 ns 2 ns 3 ns]",
        "name Time: [1 ns 2 ns 3 ns]",
        "name time: [1ns 2 ns 3 ns]",
        "name time: [1 ns 2 ns  3 NS]",
        "name time: [1 ns 2 us 3 ns]",
        "name time: [1 ns 2 min 3 ns]",
        "name time: [1.2.3 ns 2 ns 3 ns]",
        "name time: [. ns 2 ns 3 ns]",
        "name time: [-1 ns 2 ns 3 ns]",
        "name time: [1e3 ns 2 ns 3 ns]",
        "name time: [ 1 ns 2 ns 3 ns]",
        "name time: [1 ns 2 ns 3 ns ]",
        "name time: [1 ns 2 ns 100000000000000000000000000000000000000 ns]",
        "name time: [1 ns 2 ns 100000000000000000000000000000 s]",
        "                   change: [-2.6674% +0.2269% +3.6914%] (p = 0.89 > 0.05)",
    ] {
        assert_eq!(parse_criterion(Some("before"), input), None, "{input:?}");
    }
}

#[test]
fn criterion_invalid_names_are_dropped() {
    let results = convert_rust_criterion("  time: [1 ns 2 ns 3 ns]\nnamed time: [1 ns 2 ns 3 ns]");
    assert_eq!(results.len(), 1);
    assert!(results.get("named").is_some());
}

#[test]
fn criterion_later_line_of_a_name_stands() {
    let results = convert_rust_criterion(
        "twice time: [1 ns 2 ns 3 ns]\nonce time: [4 ns 5 ns 6 ns]\ntwice time: [7 ns 8 ns 9 ns]\n",
    );
    assert_eq!(results.len(), 2);
    assert_eq!(results.get("twice").unwrap().get("latency"), Some(&metric("8", "7", "9")));
    assert_eq!(results.get("once").unwrap().get("latency"), Some(&metric("5", "4", "6")));
}

#[test]
fn criterion_name_line_is_the_nearest_line_that_is_no_panic() {
    let input = "\
long name
thread 'main' panicked at 'boom', src/lib.rs:1:1
  time: [1 ns 2 ns 3 ns]
  time: [4 ns 5 ns 6 ns]
";
    let results =
        AdapterRustCriterion::parse(input, Settings { allow_failure: true }).unwrap();
    assert_eq!(results.len(), 2);
    assert_eq!(results.get("long name").unwrap().get("latency"), Some(&metric("2", "1", "3")));
    assert_eq!(
        results.get("  time: [1 ns 2 ns 3 ns]").unwrap().get("latency"),
        Some(&metric("5", "4", "6"))
    );
}

#[test]
fn criterion_panic_line_that_holds_a_time_contributes_nothing() {
    let input = "\
first time: [1 ns 2 ns 3 ns]
thread 'main' panicked at 'boom', src/lib.rs:1:1 time: [4 ns 5 ns 6 ns]
last time: [7 ns 8 ns 9 ns]
";
    let results =
        AdapterRustCriterion::parse(input, Settings { allow_failure: true }).unwrap();
    assert_eq!(results.len(), 2);
    assert!(results.get("first").is_some());
    assert!(results.get("last").is_some());
    assert_eq!(
        AdapterRustCriterion::parse(input, Settings::default()).unwrap_err(),
        AdapterError::Panic {
            thread: "main".to_string(),
            context: "boom".to_string(),
            location: "src/lib.rs:1:1 time: [4 ns 5 ns 6 ns]".to_string(),
        }
    );
}

#[test]
fn criterion_first_of_two_panics_is_reported() {
    let input = "\
thread 'one' panicked at 'first', a.rs:1:1
thread 'two' panicked at 'second', b.rs:2:2
";
    assert_eq!(
        AdapterRustCriterion::parse(input, Settings::default()).unwrap_err(),
        AdapterError::Panic {
            thread: "one".to_string(),
            context: "first".to_string(),
            location: "a.rs:1:1".to_string(),
        }
    );
    assert_eq!(
        AdapterRustCriterion::parse(input, Settings { allow_failure: true }).unwrap().len(),
        0
    );
}

#[test]
fn criterion_lines_may_end_in_carriage_returns() {
    let results = convert_rust_criterion("one time: [1 ns 2 ns 3 ns]\r\ntwo time: [4 ns 5 ns 6 ns]\r\n");
    assert_eq!(results.len(), 2);
    assert_eq!(results.get("two").unwrap().get("latency"), Some(&metric("5", "4", "6")));
}

#[test]
fn criterion_input_without_benchmarks() {
    assert_eq!(convert_rust_criterion("").len(), 0);
    assert_eq!(convert_rust_criterion("nothing\nto see\n").len(), 0);
}

#[test]
fn settings_default_allows_no_failure() {
    assert!(!Settings::default().allow_failure);
}
