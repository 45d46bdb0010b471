//! From what was observed of one invocation to a metric sample or an error.

use vstd::prelude::*;
use crate::bench::{Benchmark, BenchmarkView};
use crate::metrics::{bind_all, Metric, MetricSample};
use crate::text::{signed_decimal, signed_decimal_text};
use crate::timer::{Timings, TimingsView};

verus! {

/// What was observed of one invocation of a benchmark.
pub enum RunReport {
    /// The process could not be started or waited for.
    SpawnFailed { os_error: String },
    /// A timed command ended. `status` is its exit code, or `None` when a
    /// signal ended it.
    Timed { status: Option<i32>, timings: Timings },
    /// A reporting program ended. `decoded` holds the metrics read from its
    /// standard output, or why that output is no JSON object of numbers.
    Reported {
        status: Option<i32>,
        stdout: String,
        stderr: String,
        decoded: Result<Vec<Metric>, String>,
    },
}

/// What a `RunReport` holds, as texts.
pub enum ReportView {
    SpawnFailed { os_error: Seq<char> },
    Timed { status: Option<i32>, timings: TimingsView },
    Reported {
        status: Option<i32>,
        stdout: Seq<char>,
        stderr: Seq<char>,
        decoded: Result<Map<Seq<char>, Seq<char>>, Seq<char>>,
    },
}

/// The metrics read from standard output, as a mapping.
pub open spec fn decoded_view(decoded: Result<Vec<Metric>, String>) -> Result<
    Map<Seq<char>, Seq<char>>,
    Seq<char>,
> {
    match decoded {
        Ok(metrics) => Ok(bind_all(Map::empty(), metrics@)),
        Err(reason) => Err(reason@),
    }
}

impl View for RunReport {
    type V = ReportView;

    open spec fn view(&self) -> ReportView {
        match *self {
            RunReport::SpawnFailed { os_error } => ReportView::SpawnFailed { os_error: os_error@ },
            RunReport::Timed { status, timings } => ReportView::Timed {
                status,
                timings: timings@,
            },
            RunReport::Reported { status, stdout, stderr, decoded } => ReportView::Reported {
                status,
                stdout: stdout@,
                stderr: stderr@,
                decoded: decoded_view(decoded),
            },
        }
    }
}

/// Why an invocation gave no sample.
pub enum BenchError {
    /// The operating system could not start the process.
    SpawnFailed { label: String, os_error: String },
    /// The process did not exit with status zero.
    BenchmarkFailed { label: String, invocation: String, status: Option<i32>, stderr: String },
    /// The standard output is no JSON object of numbers.
    DecodeFailed { label: String, reason: String, stdout: String, stderr: String },
}

/// What a `BenchError` holds, as texts.
pub enum ErrorView {
    SpawnFailed { label: Seq<char>, os_error: Seq<char> },
    BenchmarkFailed {
        label: Seq<char>,
        invocation: Seq<char>,
        status: Option<i32>,
        stderr: Seq<char>,
    },
    DecodeFailed { label: Seq<char>, reason: Seq<char>, stdout: Seq<char>, stderr: Seq<char> },
}

impl View for BenchError {
    type V = ErrorView;

    open spec fn view(&self) -> ErrorView {
        match *self {
            BenchError::SpawnFailed { label, os_error } => ErrorView::SpawnFailed {
                label: label@,
                os_error: os_error@,
            },
            BenchError::BenchmarkFailed {
                label,
                invocation,
                status,
                stderr,
            } => ErrorView::BenchmarkFailed {
                label: label@,
                invocation: invocation@,
                status,
                stderr: stderr@,
            },
            BenchError::DecodeFailed { label, reason, stdout, stderr } => ErrorView::DecodeFailed {
                label: label@,
                reason: reason@,
                stdout: stdout@,
                stderr: stderr@,
            },
        }
    }
}

/// How the process ended, in words.
pub open spec fn status_note(status: Option<i32>) -> Seq<char> {
    match status {
        Some(code) => ", exit status "@ + signed_decimal(code as int),
        None => ", ended by a signal"@,
    }
}

/// What the process wrote to standard error, on a line of its own, or
/// nothing when it wrote nothing.
pub open spec fn stderr_note(stderr: Seq<char>) -> Seq<char> {
    if stderr.len() == 0 {
        stderr
    } else {
        "\n"@ + stderr
    }
}

impl ErrorView {
    /// The benchmark that the error is about.
    pub open spec fn label(self) -> Seq<char> {
        match self {
            ErrorView::SpawnFailed { label, .. } => label,
            ErrorView::BenchmarkFailed { label, .. } => label,
            ErrorView::DecodeFailed { label, .. } => label,
        }
    }

    /// What the message says after the label.
    pub open spec fn detail(self) -> Seq<char> {
        match self {
            ErrorView::SpawnFailed { os_error, .. } => ": Benchmark could not be run: "@
                + os_error,
            ErrorView::BenchmarkFailed {
                invocation,
                status,
                stderr,
                ..
            } => ": Benchmark exited non-zero ("@ + invocation + ")"@ + status_note(status)
                + stderr_note(stderr),
            ErrorView::DecodeFailed {
                reason,
                stdout,
                stderr,
                ..
            } => ": Benchmark output is not a JSON object of numbers: "@ + reason
                + "\nstdout: "@ + stdout + "\nstderr: "@ + stderr,
        }
    }

    /// The message for the diagnostic channel: the label of the benchmark,
    /// then what went wrong.
    pub open spec fn message(self) -> Seq<char> {
        self.label() + self.detail()
    }
}

/// What one invocation yields: for a process that could not be run, or
/// did not exit with status zero, the error that names the benchmark; for
/// a timed command that succeeded, its three times; for a reporting
/// program that succeeded, the metrics it printed, or the decode error.
pub open spec fn outcome(bench: BenchmarkView, report: ReportView) -> Result<
    Map<Seq<char>, Seq<char>>,
    ErrorView,
> {
    match report {
        ReportView::SpawnFailed { os_error } => Err(
            ErrorView::SpawnFailed { label: bench.label(), os_error },
        ),
        ReportView::Timed { status, timings } => if status == Some(0i32) {
            Ok(timings.metrics())
        } else {
            Err(
                ErrorView::BenchmarkFailed {
                    label: bench.label(),
                    invocation: bench.runner.invocation(),
                    status,
                    stderr: Seq::empty(),
                },
            )
        },
        ReportView::Reported { status, stdout, stderr, decoded } => if status != Some(0i32) {
            Err(
                ErrorView::BenchmarkFailed {
                    label: bench.label(),
                    invocation: bench.runner.invocation(),
                    status,
                    stderr,
                },
            )
        } else {
            match decoded {
                Ok(metrics) => Ok(metrics),
                Err(reason) => Err(
                    ErrorView::DecodeFailed { label: bench.label(), reason, stdout, stderr },
                ),
            }
        },
    }
}

/// The view of a result of `run_bench`.
pub open spec fn result_view(result: Result<MetricSample, BenchError>) -> Result<
    Map<Seq<char>, Seq<char>>,
    ErrorView,
> {
    match result {
        Ok(sample) => Ok(sample@),
        Err(error) => Err(error@),
    }
}

/// Whether the process exited with status zero.
pub fn succeeded(status: Option<i32>) -> (ok: bool)
    ensures
        ok == (status == Some(0i32)),
{
    match status {
        Some(code) => code == 0,
        None => false,
    }
}

/// Turns what was observed of one invocation of `bench` into its sample,
/// or into the error that ends the run.
pub fn run_bench(bench: &Benchmark, report: RunReport) -> (result: Result<
    MetricSample,
    BenchError,
>)
    ensures
        result_view(result) == outcome(bench@, report@),
        result matches Ok(sample) ==> sample.wf() && sample@.dom().finite(),
{
    match report {
        RunReport::SpawnFailed { os_error } => Err(
            BenchError::SpawnFailed { label: bench.label(), os_error },
        ),
        RunReport::Timed { status, timings } => {
            if succeeded(status) {
                let sample = timings.sample();
                proof {
                    sample.lemma_finite();
                }
                Ok(sample)
            } else {
                let stderr = String::new();
                Err(
                    BenchError::BenchmarkFailed {
                        label: bench.label(),
                        invocation: bench.runner.invocation(),
                        status,
                        stderr,
                    },
                )
            }
        },
        RunReport::Reported { status, stdout, stderr, decoded } => {
            if !succeeded(status) {
                Err(
                    BenchError::BenchmarkFailed {
                        label: bench.label(),
                        invocation: bench.runner.invocation(),
                        status,
                        stderr,
                    },
                )
            } else {
                match decoded {
                    Ok(metrics) => {
                        let sample = MetricSample::from_metrics(metrics);
                        proof {
                            sample.lemma_finite();
                        }
                        Ok(sample)
                    },
                    Err(reason) => Err(
                        BenchError::DecodeFailed { label: bench.label(), reason, stdout, stderr },
                    ),
                }
            }
        },
    }
}

impl BenchError {
    /// The message for the diagnostic channel.
    pub fn message(&self) -> (out: String)
        ensures
            out@ == self@.message(),
            self@.label().is_prefix_of(out@),
    {
        match self {
            BenchError::SpawnFailed { label, os_error } => {
                let mut out = label.clone();
                out.append(": Benchmark could not be run: ");
                out.append(os_error.as_str());
                out
            },
            BenchError::BenchmarkFailed { label, invocation, status, stderr } => {
                let mut out = label.clone();
                out.append(": Benchmark exited non-zero (");
                out.append(invocation.as_str());
                out.append(")");
                match status {
                    Some(code) => {
                        out.append(", exit status ");
                        let digits = signed_decimal_text(*code);
                        out.append(digits.as_str());
                    },
                    None => {
                        out.append(", ended by a signal");
                    },
                }
                if !stderr.as_str().is_empty() {
                    out.append("\n");
                    out.append(stderr.as_str());
                }
                out
            },
            BenchError::DecodeFailed { label, reason, stdout, stderr } => {
                let mut out = label.clone();
                out.append(": Benchmark output is not a JSON object of numbers: ");
                out.append(reason.as_str());
                out.append("\nstdout: ");
                out.append(stdout.as_str());
                out.append("\nstderr: ");
                out.append(stderr.as_str());
                out
            },
        }
    }
}

} // verus!
