//! Configuration for the metrics service and its exporters.
//!
//! The service itself — the runtime it spawns and the exporters it runs —
//! is outside work; what is decided here and proved is the validation of
//! exporter names and the defaulting of the receiver's timing parameters.

use vstd::prelude::*;
use vstd::string::StringExecFns;

verus! {

/// Whether `c` may appear in an exporter name: an ASCII digit or letter,
/// underscore or hyphen.
pub open spec fn is_name_char(c: char) -> bool {
    ('0' <= c && c <= '9') || ('a' <= c && c <= 'z') || ('A' <= c && c <= 'Z') || c == '_' || c
        == '-'
}

/// A well-formed exporter name: nonempty, made only of ASCII digits,
/// letters, underscore and hyphen.
pub open spec fn is_valid_exporter_name(s: Seq<char>) -> bool {
    s.len() > 0 && forall|i: int| 0 <= i < s.len() ==> is_name_char(#[trigger] s[i])
}

/// Relies on regex::Regex::new and regex::Regex::is_match: the anchored
/// pattern matches a haystack exactly when the whole haystack is a
/// nonempty run of characters from the class `[0-9a-zA-Z_-]`.
#[verifier::external_body]
fn name_matches_pattern(name: &str) -> (matched: bool)
    ensures
        matched == is_valid_exporter_name(name@),
{
    match regex::Regex::new("^[0-9a-zA-Z_-]+$") {
        Ok(re) => re.is_match(name),
        Err(_) => false,
    }
}

/// How a metrics exporter publishes its observations.
#[derive(Clone, Debug, PartialEq, Eq)]
pub enum Target {
    /// Write a snapshot to the log at a fixed interval.
    Log {
        /// Severity the snapshots are logged at.
        level: LogLevel,
        /// Seconds between snapshots.
        interval: u64,
    },
    /// Serve snapshots over HTTP.
    Http {
        /// The socket address to listen on, as text.
        listen_address: String,
    },
}

/// The format a metrics exporter renders observations in.
#[derive(Clone, Debug, PartialEq, Eq)]
pub enum Format {
    /// JSON, optionally pretty-printed.
    Json {
        /// Whether to pretty-print.
        pretty: bool,
    },
    /// YAML.
    Yaml,
    /// The Prometheus text exposition format.
    Prometheus,
}

/// Log severity an exporter may write snapshots at.
#[derive(Clone, Copy, PartialEq, Eq, Structural, Debug)]
pub enum LogLevel {
    /// Errors only.
    Error,
    /// Warnings.
    Warn,
    /// Informational.
    Info,
    /// Debugging.
    Debug,
    /// Tracing.
    Trace,
}

/// One configured exporter: where it publishes and in what format.
#[derive(Clone, Debug, PartialEq, Eq)]
pub struct Exporter {
    /// Where observations are published.
    pub target: Target,
    /// How they are rendered.
    pub format: Format,
}

/// The receiver's timing parameters after defaulting, ready to build with.
#[derive(Clone, Copy, PartialEq, Eq, Structural, Debug)]
pub struct ReceiverTiming {
    /// Width of the histogram window, in seconds.
    pub histogram_window_secs: u64,
    /// Granularity of the histogram window, in seconds.
    pub histogram_granularity_secs: u64,
    /// Interval between upkeep runs, in milliseconds.
    pub upkeep_interval_millis: u64,
}

/// Configuration of the metrics service: receiver sizing and the exporters
/// to run. The exporter table is keyed by name — no two entries share one
/// (see [`Config::wf`]).
#[derive(Clone, Debug)]
pub struct Config {
    /// Worker threads for the service's runtime; zero means the default.
    pub threads: usize,
    /// Histogram window in seconds; zero means the default.
    pub histogram_window: u64,
    /// Histogram granularity in seconds; zero means the default.
    pub histogram_granularity: u64,
    /// Upkeep interval in milliseconds; zero means the default.
    pub upkeep_interval: u64,
    /// The exporters to run, as (name, exporter) pairs.
    pub exporter: Vec<(String, Exporter)>,
}

impl Default for Config {
    /// An empty configuration: all sizes defaulted, no exporters, so the
    /// service stays off.
    fn default() -> (c: Config)
        ensures
            c.wf(),
            c.threads == 0,
            c.histogram_window == 0,
            c.histogram_granularity == 0,
            c.upkeep_interval == 0,
            c.exporter@ == Seq::<(String, Exporter)>::empty(),
    {
        Config {
            threads: 0,
            histogram_window: 0,
            histogram_granularity: 0,
            upkeep_interval: 0,
            exporter: Vec::new(),
        }
    }
}

impl Config {
    /// Well-formedness of the exporter table: it stands for a map keyed
    /// by exporter name, so no two entries carry the same name.
    pub open spec fn wf(self) -> bool {
        forall|i: int, j: int|
            0 <= i < self.exporter@.len() && 0 <= j < self.exporter@.len() && i != j
                ==> self.exporter@[i].0@ != self.exporter@[j].0@
    }

    /// Checks one exporter name: accepted exactly when nonempty and made
    /// only of ASCII digits, letters, underscore and hyphen. The rejection
    /// message is fixed for each input, empty or ill-formed.
    pub fn check_exporter_name(name: &str) -> (result: Result<(), String>)
        ensures
            result is Ok <==> is_valid_exporter_name(name@),
            name@.len() == 0 ==> (result matches Err(m) && m@
                == "the name of exporter shouldn't be empty"@),
            name@.len() > 0 && !is_valid_exporter_name(name@) ==> (result matches Err(m) && m@
                == "invalid exporter name \""@ + name@
                + "\", only \"0-9a-zA-Z_-\" are allowed"@),
    {
        if name.is_empty() {
            return Err("the name of exporter shouldn't be empty".to_owned());
        }
        if name_matches_pattern(name) {
            Ok(())
        } else {
            let mut message = String::from_str("invalid exporter name \"");
            message.append(name);
            message.append("\", only \"0-9a-zA-Z_-\" are allowed");
            Err(message)
        }
    }

    /// Checks every configured exporter name, reporting the first bad one:
    /// accepted exactly when all names are well-formed.
    pub fn check_exporter_names(&self) -> (result: Result<(), String>)
        ensures
            result is Ok <==> forall|i: int|
                0 <= i < self.exporter@.len() ==> is_valid_exporter_name(
                    #[trigger] self.exporter@[i].0@,
                ),
    {
        let mut i: usize = 0;
        while i < self.exporter.len()
            invariant
                i <= self.exporter@.len(),
                forall|j: int|
                    0 <= j < i ==> is_valid_exporter_name(#[trigger] self.exporter@[j].0@),
            decreases self.exporter@.len() - i,
        {
            match Self::check_exporter_name(self.exporter[i].0.as_str()) {
                Ok(_) => {},
                Err(message) => {
                    return Err(message);
                },
            }
            i += 1;
        }
        Ok(())
    }

    /// Whether any exporter is configured: with none, the metrics service
    /// stays off.
    pub fn has_exporters(&self) -> (enabled: bool)
        ensures
            enabled == (self.exporter@.len() > 0),
    {
        self.exporter.len() > 0
    }

    /// The number of worker threads the service's runtime should use:
    /// as configured, or two when left at zero.
    pub fn runtime_threads(&self) -> (threads: usize)
        ensures
            threads == if self.threads != 0 {
                self.threads
            } else {
                2usize
            },
    {
        if self.threads != 0 {
            self.threads
        } else {
            2
        }
    }

    /// The receiver's timing parameters, with each value left at zero
    /// replaced by its default: a ten-second histogram window at
    /// one-second granularity, upkeep every fifty milliseconds.
    pub fn receiver_timing(&self) -> (timing: ReceiverTiming)
        ensures
            timing.histogram_window_secs == if self.histogram_window > 0 {
                self.histogram_window
            } else {
                10u64
            },
            timing.histogram_granularity_secs == if self.histogram_granularity > 0 {
                self.histogram_granularity
            } else {
                1u64
            },
            timing.upkeep_interval_millis == if self.upkeep_interval > 0 {
                self.upkeep_interval
            } else {
                50u64
            },
    {
        ReceiverTiming {
            histogram_window_secs: if self.histogram_window > 0 {
                self.histogram_window
            } else {
                10
            },
            histogram_granularity_secs: if self.histogram_granularity > 0 {
                self.histogram_granularity
            } else {
                1
            },
            upkeep_interval_millis: if self.upkeep_interval > 0 {
                self.upkeep_interval
            } else {
                50
            },
        }
    }
}

} // verus!
