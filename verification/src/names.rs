//! Validated identifiers: the names of benchmarks and the kinds of metric.

use crate::error::{AdapterError, ErrorView};
use vstd::prelude::*;

verus! {

/// Whether `text` can name a benchmark or a kind of metric: it is not empty.
pub open spec fn is_valid_name(text: Seq<char>) -> bool {
    text.len() > 0
}

/// The text of the kind of metric under which latencies are filed.
pub open spec fn latency_text() -> Seq<char> {
    "latency"@
}

/// The name of one benchmark, as its harness gave it. Never empty.
#[derive(Debug, PartialEq, Eq, Hash)]
pub struct BenchmarkName {
    text: String,
}

impl View for BenchmarkName {
    type V = Seq<char>;

    closed spec fn view(&self) -> Seq<char> {
        self.text@
    }
}

impl Clone for BenchmarkName {
    fn clone(&self) -> (copy: BenchmarkName)
        ensures
            copy@ == self@,
    {
        proof {
            use_type_invariant(self);
        }
        BenchmarkName { text: self.text.clone() }
    }
}

impl BenchmarkName {
    /// Every name is valid.
    #[verifier::type_invariant]
    pub open spec fn well_formed(self) -> bool {
        is_valid_name(self@)
    }

    /// The name with the given text, or `InvalidName` with that text where
    /// it is no valid name.
    pub fn from_str(text: &str) -> (r: Result<BenchmarkName, AdapterError>)
        ensures
            match r {
                Ok(name) => is_valid_name(text@) && name@ == text@,
                Err(error) => !is_valid_name(text@) && error@ == ErrorView::InvalidName(text@),
            },
    {
        if text.is_empty() {
            Err(AdapterError::InvalidName(text.to_owned()))
        } else {
            Ok(BenchmarkName { text: text.to_owned() })
        }
    }

    /// The text of the name.
    pub fn as_str(&self) -> (text: &str)
        ensures
            text@ == self@,
            is_valid_name(text@),
    {
        proof {
            use_type_invariant(self);
        }
        self.text.as_str()
    }

    /// The text of the name, as a string of its own.
    pub fn to_string(&self) -> (text: String)
        ensures
            text@ == self@,
            is_valid_name(text@),
    {
        proof {
            use_type_invariant(self);
        }
        self.text.clone()
    }
}

/// The name of one measured dimension, such as latency. Never empty.
#[derive(Debug, PartialEq, Eq, Hash)]
pub struct MetricKind {
    text: String,
}

impl View for MetricKind {
    type V = Seq<char>;

    closed spec fn view(&self) -> Seq<char> {
        self.text@
    }
}

impl Clone for MetricKind {
    fn clone(&self) -> (copy: MetricKind)
        ensures
            copy@ == self@,
    {
        proof {
            use_type_invariant(self);
        }
        MetricKind { text: self.text.clone() }
    }
}

impl MetricKind {
    /// Every kind is valid.
    #[verifier::type_invariant]
    pub open spec fn well_formed(self) -> bool {
        is_valid_name(self@)
    }

    /// The kind with the given text, where that is a valid one.
    pub fn from_str(text: &str) -> (r: Option<MetricKind>)
        ensures
            match r {
                Some(kind) => is_valid_name(text@) && kind@ == text@,
                None => !is_valid_name(text@),
            },
    {
        if text.is_empty() {
            None
        } else {
            Some(MetricKind { text: text.to_owned() })
        }
    }

    /// The kind under which latencies are filed.
    pub fn latency() -> (kind: MetricKind)
        ensures
            kind@ == latency_text(),
    {
        proof {
            reveal_strlit("latency");
        }
        MetricKind { text: "latency".to_owned() }
    }

    /// The text of the kind.
    pub fn as_str(&self) -> (text: &str)
        ensures
            text@ == self@,
            is_valid_name(text@),
    {
        proof {
            use_type_invariant(self);
        }
        self.text.as_str()
    }

    /// The text of the kind, as a string of its own; `from_str` of it gives
    /// the kind back.
    pub fn to_string(&self) -> (text: String)
        ensures
            text@ == self@,
            is_valid_name(text@),
    {
        proof {
            use_type_invariant(self);
        }
        self.text.clone()
    }
}

} // verus!
