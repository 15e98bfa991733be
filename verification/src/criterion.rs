//! The adapter for the output of the Rust statistical benchmarking tool:
//! free text in which a benchmark stands on a line of the form
//! `name   time:   [lower value upper]`, each of the three a number and a
//! unit, and in which a failed benchmark leaves the line of its panic.

use crate::decimal::Decimal;
use crate::error::{adapted, AdapterError, ErrorView};
use crate::metric::Metric;
use crate::names::{is_valid_name, BenchmarkName};
use crate::number::{float_at, number_of, parse_float, to_decimal};
use crate::results::{first_seen, latency_results, named_latencies, AdapterResults};
use crate::text::{
    chars_of, found, has_tag, line_views, lines_of, matches_at, scan, scan_while, split_lines,
    string_of, CharClass,
};
use crate::units::{parse_units, units_at};
use crate::Settings;
use vstd::prelude::*;

verus! {

/// The adapter for the Rust statistical benchmarking tool.
#[derive(Clone, Copy, Debug, PartialEq, Eq)]
pub struct AdapterRustCriterion;

/// The duration that stands in `s` at `at`, in nanoseconds, and where it
/// ends: a number, blanks, and a unit. Nothing where the number, or the
/// duration in nanoseconds, is out of range.
pub open spec fn duration_at(s: Seq<char>, at: int) -> Option<(Decimal, int)> {
    match float_at(s, at) {
        Some(number_end) => {
            let unit_start = scan(s, number_end, CharClass::Space);
            if unit_start > number_end {
                match (number_of(s.subrange(at, number_end)), units_at(s, unit_start)) {
                    (Some(amount), Some((unit, end))) => match Decimal::of(
                        amount@.times(unit.factor()),
                    ) {
                        Some(nanos) => Some((nanos, end)),
                        None => None,
                    },
                    _ => None,
                }
            } else {
                None
            }
        },
        None => None,
    }
}

/// The duration that stands after the blanks that begin at `at`, where there
/// is at least one blank.
pub open spec fn spaced_duration_at(s: Seq<char>, at: int) -> Option<(Decimal, int)> {
    if scan(s, at, CharClass::Space) > at {
        duration_at(s, scan(s, at, CharClass::Space))
    } else {
        None
    }
}

/// The metric that stands in `s` at `at`, and where it ends: in square
/// brackets the lower bound, the value and the upper bound, with blanks
/// between them.
pub open spec fn metric_at(s: Seq<char>, at: int) -> Option<(Metric, int)> {
    if 0 <= at < s.len() && s[at] == '[' {
        match duration_at(s, at + 1) {
            Some((lower, after_lower)) => match spaced_duration_at(s, after_lower) {
                Some((value, after_value)) => match spaced_duration_at(s, after_value) {
                    Some((upper, end)) => if 0 <= end < s.len() && s[end] == ']' {
                        Some(
                            (
                                Metric {
                                    value,
                                    lower_bound: Some(lower),
                                    upper_bound: Some(upper),
                                },
                                end + 1,
                            ),
                        )
                    } else {
                        None
                    },
                    None => None,
                },
                None => None,
            },
            None => None,
        }
    } else {
        None
    }
}

/// The metric of a line whose rest, from `at` on, is blanks, the word
/// `time:`, blanks, and a metric that ends the line.
pub open spec fn time_at(s: Seq<char>, at: int) -> Option<Metric> {
    let word = scan(s, at, CharClass::Space);
    if word > at && has_tag(s, word, "time:"@) {
        let blanks = word + "time:"@.len();
        let metric = scan(s, blanks, CharClass::Space);
        if metric > blanks {
            match metric_at(s, metric) {
                Some((found, end)) => if end == s.len() {
                    Some(found)
                } else {
                    None
                },
                None => None,
            }
        } else {
            None
        }
    } else {
        None
    }
}

/// The first place from `from` on at which the rest of the line is the
/// time of a benchmark, with the metric found there.
pub open spec fn first_time(s: Seq<char>, from: int) -> Option<(int, Metric)>
    decreases s.len() - from,
{
    if from < 0 || from >= s.len() {
        None
    } else {
        match time_at(s, from) {
            Some(metric) => Some((from, metric)),
            None => first_time(s, from + 1),
        }
    }
}

/// What a line says of a benchmark: its name and its metric. The name is
/// what stands before the time; where nothing stands there, it is the line
/// before, and the empty name where there is none.
pub open spec fn criterion_line(prior: Option<Seq<char>>, s: Seq<char>) -> Option<
    (Seq<char>, Metric),
> {
    match first_time(s, 0) {
        Some((at, metric)) => Some(
            (
                if at == 0 {
                    match prior {
                        Some(line) => line,
                        None => Seq::empty(),
                    }
                } else {
                    s.take(at)
                },
                metric,
            ),
        ),
        None => None,
    }
}

/// What a line says of a panic: the thread, the message and the place, from
/// a line of the form `thread 'T' panicked at 'M', P`, where neither T nor M
/// holds a single quote.
pub open spec fn panic_line(s: Seq<char>) -> Option<(Seq<char>, Seq<char>, Seq<char>)> {
    if has_tag(s, 0, "thread '"@) {
        let thread = "thread '"@.len() as int;
        let thread_end = scan(s, thread, CharClass::Unquoted);
        if has_tag(s, thread_end, "' panicked at '"@) {
            let context = thread_end + "' panicked at '"@.len();
            let context_end = scan(s, context, CharClass::Unquoted);
            if has_tag(s, context_end, "', "@) {
                let location = context_end + "', "@.len();
                Some(
                    (
                        s.subrange(thread, thread_end),
                        s.subrange(context, context_end),
                        s.subrange(location, s.len() as int),
                    ),
                )
            } else {
                None
            }
        } else {
            None
        }
    } else {
        None
    }
}

/// The duration that stands in `chars` at `at`, in nanoseconds, and where
/// it ends.
pub fn parse_criterion_duration(chars: &Vec<char>, at: usize) -> (r: Option<(Decimal, usize)>)
    ensures
        found(r, duration_at(chars@, at as int)),
        r matches Some((_, end)) ==> at < end <= chars.len(),
{
    let number_end = match parse_float(chars, at) {
        Some(end) => end,
        None => {
            return None;
        },
    };
    let unit_start = scan_while(chars, number_end, CharClass::Space);
    if unit_start == number_end {
        return None;
    }
    let (unit, end) = match parse_units(chars, unit_start) {
        Some(found) => found,
        None => {
            return None;
        },
    };
    let amount = match to_decimal(chars, at, number_end) {
        Some(amount) => amount,
        None => {
            return None;
        },
    };
    match unit.to_nanos(&amount) {
        Some(nanos) => Some((nanos, end)),
        None => None,
    }
}

/// The duration that stands after at least one blank at `at`.
fn parse_spaced_duration(chars: &Vec<char>, at: usize) -> (r: Option<(Decimal, usize)>)
    ensures
        found(r, spaced_duration_at(chars@, at as int)),
        r matches Some((_, end)) ==> at < end <= chars.len(),
{
    let start = scan_while(chars, at, CharClass::Space);
    if start == at {
        return None;
    }
    parse_criterion_duration(chars, start)
}

/// The metric that stands in `chars` at `at`, and where it ends.
pub fn parse_criterion_metric(chars: &Vec<char>, at: usize) -> (r: Option<(Metric, usize)>)
    ensures
        found(r, metric_at(chars@, at as int)),
        r matches Some((_, end)) ==> at < end <= chars.len(),
{
    if at >= chars.len() || chars[at] != '[' {
        return None;
    }
    let (lower, after_lower) = match parse_criterion_duration(chars, at + 1) {
        Some(found) => found,
        None => {
            return None;
        },
    };
    let (value, after_value) = match parse_spaced_duration(chars, after_lower) {
        Some(found) => found,
        None => {
            return None;
        },
    };
    let (upper, end) = match parse_spaced_duration(chars, after_value) {
        Some(found) => found,
        None => {
            return None;
        },
    };
    if end >= chars.len() || chars[end] != ']' {
        return None;
    }
    Some((Metric { value, lower_bound: Some(lower), upper_bound: Some(upper) }, end + 1))
}

/// The metric of a line whose rest, from `at` on, is the time of a
/// benchmark.
pub fn parse_criterion_time(chars: &Vec<char>, at: usize) -> (r: Option<Metric>)
    ensures
        r == time_at(chars@, at as int),
{
    let word = scan_while(chars, at, CharClass::Space);
    if word == at || !matches_at(chars, word, "time:") {
        return None;
    }
    let blanks = word + "time:".unicode_len();
    let metric = scan_while(chars, blanks, CharClass::Space);
    if metric == blanks {
        return None;
    }
    match parse_criterion_metric(chars, metric) {
        Some((found, end)) => if end == chars.len() {
            Some(found)
        } else {
            None
        },
        None => None,
    }
}

/// The name and the metric that the line gives, `prior` being the line
/// before it.
fn parse_criterion_chars(prior: Option<&Vec<char>>, chars: &Vec<char>) -> (r: Option<
    (String, Metric),
>)
    ensures
        match (
            r,
            criterion_line(
                match prior {
                    Some(line) => Some(line@),
                    None => None,
                },
                chars@,
            ),
        ) {
            (Some((name, metric)), Some((wanted_name, wanted_metric))) => name@ == wanted_name
                && metric == wanted_metric,
            (None, None) => true,
            _ => false,
        },
{
    let mut at: usize = 0;
    while at < chars.len()
        invariant
            at <= chars.len(),
            first_time(chars@, 0) == first_time(chars@, at as int),
        decreases chars.len() - at,
    {
        match parse_criterion_time(chars, at) {
            Some(metric) => {
                let name = if at == 0 {
                    match prior {
                        Some(line) => string_of(line, 0, line.len()),
                        None => String::new(),
                    }
                } else {
                    string_of(chars, 0, at)
                };
                proof {
                    match prior {
                        Some(line) => {
                            assert(line@.subrange(0, line.len() as int) =~= line@);
                        },
                        None => {},
                    }
                }
                return Some((name, metric));
            },
            None => {},
        }
        at = at + 1;
    }
    None
}

/// The name and the metric that the line `input` gives, `prior_line` being
/// the line before it.
pub fn parse_criterion(prior_line: Option<&str>, input: &str) -> (r: Option<(String, Metric)>)
    ensures
        match (
            r,
            criterion_line(
                match prior_line {
                    Some(line) => Some(line@),
                    None => None,
                },
                input@,
            ),
        ) {
            (Some((name, metric)), Some((wanted_name, wanted_metric))) => name@ == wanted_name
                && metric == wanted_metric,
            (None, None) => true,
            _ => false,
        },
{
    let chars = chars_of(input);
    match prior_line {
        Some(line) => {
            let prior = chars_of(line);
            parse_criterion_chars(Some(&prior), &chars)
        },
        None => parse_criterion_chars(None, &chars),
    }
}

/// Whether what a parser of panics returned is what the specification
/// gives.
pub open spec fn found_panic(
    r: Option<(String, String, String)>,
    wanted: Option<(Seq<char>, Seq<char>, Seq<char>)>,
) -> bool {
    match (r, wanted) {
        (Some((thread, context, location)), Some((t, c, l))) => thread@ == t && context@ == c
            && location@ == l,
        (None, None) => true,
        _ => false,
    }
}

/// The thread, the message and the place of the panic that the line
/// reports.
fn parse_panic_chars(chars: &Vec<char>) -> (r: Option<(String, String, String)>)
    ensures
        found_panic(r, panic_line(chars@)),
{
    if !matches_at(chars, 0, "thread '") {
        return None;
    }
    let thread = "thread '".unicode_len();
    let thread_end = scan_while(chars, thread, CharClass::Unquoted);
    if !matches_at(chars, thread_end, "' panicked at '") {
        return None;
    }
    let context = thread_end + "' panicked at '".unicode_len();
    let context_end = scan_while(chars, context, CharClass::Unquoted);
    if !matches_at(chars, context_end, "', ") {
        return None;
    }
    let location = context_end + "', ".unicode_len();
    Some(
        (
            string_of(chars, thread, thread_end),
            string_of(chars, context, context_end),
            string_of(chars, location, chars.len()),
        ),
    )
}

/// The thread, the message and the place of the panic that the line `input`
/// reports.
pub fn parse_panic(input: &str) -> (r: Option<(String, String, String)>)
    ensures
        found_panic(r, panic_line(input@)),
{
    let chars = chars_of(input);
    parse_panic_chars(&chars)
}

/// The line that counts as the one before line `i`: the nearest line
/// before it that reports no panic.
pub open spec fn prior_of(lines: Seq<Seq<char>>, i: int) -> Option<Seq<char>>
    decreases i,
{
    if i <= 0 || i > lines.len() {
        None
    } else if panic_line(lines[i - 1]) is Some {
        prior_of(lines, i - 1)
    } else {
        Some(lines[i - 1])
    }
}

/// The benchmarks that the first `n` lines give, in their order, each with
/// its name and its metric. A line that reports a panic gives none, and
/// none is given under a name that is not valid.
pub open spec fn measured(lines: Seq<Seq<char>>, n: int) -> Seq<(Seq<char>, Metric)>
    decreases n,
{
    if n <= 0 || n > lines.len() {
        Seq::empty()
    } else if panic_line(lines[n - 1]) is Some {
        measured(lines, n - 1)
    } else {
        match criterion_line(prior_of(lines, n - 1), lines[n - 1]) {
            Some((name, metric)) => if is_valid_name(name) {
                measured(lines, n - 1).push((name, metric))
            } else {
                measured(lines, n - 1)
            },
            None => measured(lines, n - 1),
        }
    }
}

/// The panic that the first line from `from` on that reports one reports.
pub open spec fn first_panic(lines: Seq<Seq<char>>, from: int) -> Option<
    (Seq<char>, Seq<char>, Seq<char>),
>
    decreases lines.len() - from,
{
    if from < 0 || from >= lines.len() {
        None
    } else {
        match panic_line(lines[from]) {
            Some(panic) => Some(panic),
            None => first_panic(lines, from + 1),
        }
    }
}

/// What the adapter makes of the lines of an input. Where failures are not
/// allowed and a line reports a panic, the first such panic; else the
/// latencies of the benchmarks that the lines give, the later one standing
/// where two have one name.
pub open spec fn lines_results(lines: Seq<Seq<char>>, allow_failure: bool) -> Result<
    Map<Seq<char>, Map<Seq<char>, Metric>>,
    ErrorView,
> {
    if !allow_failure && first_panic(lines, 0) is Some {
        Err(
            ErrorView::Panic {
                thread: first_panic(lines, 0).unwrap().0,
                context: first_panic(lines, 0).unwrap().1,
                location: first_panic(lines, 0).unwrap().2,
            },
        )
    } else {
        Ok(latency_results(measured(lines, lines.len() as int)))
    }
}

/// What the adapter makes of an input: what it makes of its lines.
pub open spec fn criterion_results(input: Seq<char>, allow_failure: bool) -> Result<
    Map<Seq<char>, Map<Seq<char>, Metric>>,
    ErrorView,
> {
    lines_results(lines_of(input), allow_failure)
}

/// The lines without those that report a panic.
pub open spec fn without_panics(lines: Seq<Seq<char>>) -> Seq<Seq<char>>
    decreases lines.len(),
{
    if lines.len() == 0 {
        lines
    } else if panic_line(lines.last()) is Some {
        without_panics(lines.drop_last())
    } else {
        without_panics(lines.drop_last()).push(lines.last())
    }
}

/// What the first `k` lines give depends on these lines alone.
proof fn lemma_measured_of_prefix(s: Seq<Seq<char>>, t: Seq<Seq<char>>, k: int)
    requires
        0 <= k <= s.len(),
        k <= t.len(),
        forall|j: int| 0 <= j < k ==> s[j] == t[j],
    ensures
        measured(s, k) == measured(t, k),
        prior_of(s, k) == prior_of(t, k),
    decreases k,
{
    if k > 0 {
        lemma_measured_of_prefix(s, t, k - 1);
    }
}

/// A panic is found from `from` on exactly where a line from there on
/// reports one.
proof fn lemma_first_panic(lines: Seq<Seq<char>>, from: int)
    requires
        0 <= from <= lines.len(),
    ensures
        first_panic(lines, from) is Some <==> exists|i: int|
            from <= i < lines.len() && panic_line(#[trigger] lines[i]) is Some,
    decreases lines.len() - from,
{
    if from < lines.len() {
        lemma_first_panic(lines, from + 1);
        if first_panic(lines, from) is Some {
            if panic_line(lines[from]) is Some {
            } else {
                let i = choose|i: int|
                    from + 1 <= i < lines.len() && panic_line(#[trigger] lines[i]) is Some;
                assert(from <= i < lines.len() && panic_line(lines[i]) is Some);
            }
        }
    }
}

/// The first `n` lines give what they give without their lines that report
/// a panic, none of which is left.
proof fn lemma_without_panics(lines: Seq<Seq<char>>, n: int)
    requires
        0 <= n <= lines.len(),
    ensures
        ({
            let kept = without_panics(lines.take(n));
            &&& measured(lines, n) == measured(kept, kept.len() as int)
            &&& prior_of(lines, n) == prior_of(kept, kept.len() as int)
            &&& forall|j: int| 0 <= j < kept.len() ==> panic_line(#[trigger] kept[j]) is None
        }),
    decreases n,
{
    if n > 0 {
        lemma_without_panics(lines, n - 1);
        assert(lines.take(n).drop_last() =~= lines.take(n - 1));
        assert(lines.take(n).last() == lines[n - 1]);
        let before = without_panics(lines.take(n - 1));
        let kept = without_panics(lines.take(n));
        if panic_line(lines[n - 1]) is None {
            assert(kept == before.push(lines[n - 1]));
            lemma_measured_of_prefix(kept, before, before.len() as int);
            assert(kept[kept.len() - 1] == lines[n - 1]);
        }
    }
}

/// How the adapter deals with failures. Where they are not allowed, it
/// fails exactly where a line reports a panic. Where they are allowed, it
/// gives what it gives of the input without the lines that report a panic.
pub proof fn lemma_failure_policy(lines: Seq<Seq<char>>)
    ensures
        lines_results(lines, false) is Err <==> exists|i: int|
            0 <= i < lines.len() && panic_line(#[trigger] lines[i]) is Some,
        lines_results(lines, true) is Ok,
        lines_results(lines, true) == lines_results(without_panics(lines), false),
{
    lemma_first_panic(lines, 0);
    lemma_without_panics(lines, lines.len() as int);
    assert(lines.take(lines.len() as int) =~= lines);
    lemma_first_panic(without_panics(lines), 0);
}

impl AdapterRustCriterion {
    /// The results that the output of the tool gives, line by line. A line
    /// that reports a panic is passed over where `settings` allow failures,
    /// and ends the run with that panic where they do not.
    pub fn parse(input: &str, settings: Settings) -> (r: Result<AdapterResults, AdapterError>)
        ensures
            adapted(r, criterion_results(input@, settings.allow_failure)),
            r matches Ok(results) ==> results.names() == first_seen(
                measured(lines_of(input@), lines_of(input@).len() as int),
            ),
    {
        let chars = chars_of(input);
        let lines = split_lines(&chars);
        let ghost all = line_views(lines@);
        let mut pairs: Vec<(BenchmarkName, Metric)> = Vec::new();
        let mut prior: Option<usize> = None;
        let mut i: usize = 0;
        assert(named_latencies(pairs@) =~= measured(all, 0));
        while i < lines.len()
            invariant
                i <= lines.len(),
                all == line_views(lines@),
                all == lines_of(input@),
                named_latencies(pairs@) == measured(all, i as int),
                match prior {
                    Some(j) => j < i && prior_of(all, i as int) == Some(all[j as int]),
                    None => prior_of(all, i as int) is None,
                },
                !settings.allow_failure ==> first_panic(all, 0) == first_panic(all, i as int),
            decreases lines.len() - i,
        {
            match parse_panic_chars(&lines[i]) {
                Some((thread, context, location)) => {
                    if !settings.allow_failure {
                        return Err(AdapterError::Panic { thread, context, location });
                    }
                },
                None => {
                    let prior_line = match prior {
                        Some(j) => Some(&lines[j]),
                        None => None,
                    };
                    match parse_criterion_chars(prior_line, &lines[i]) {
                        Some((name, metric)) => {
                            match BenchmarkName::from_str(name.as_str()) {
                                Ok(valid) => {
                                    let ghost before = named_latencies(pairs@);
                                    pairs.push((valid, metric));
                                    assert(named_latencies(pairs@) =~= before.push(
                                        (name@, metric),
                                    ));
                                },
                                Err(_) => {},
                            }
                        },
                        None => {},
                    }
                    prior = Some(i);
                },
            }
            i = i + 1;
        }
        Ok(AdapterResults::from_latencies(pairs))
    }
}

} // verus!
