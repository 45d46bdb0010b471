use bench_sampler::bench::{bracket, script_invocation, BenchRunner, Benchmark, Options};
use bench_sampler::metrics::Metric;
use bench_sampler::run::{run_bench, succeeded, BenchError, RunReport};
use bench_sampler::timer::{ChildTicks, Timings};

fn strings(items: &[&str]) -> Vec<String> {
    items.iter().map(|s| s.to_string()).collect()
}

fn prog(command: &str) -> Benchmark {
    Benchmark { name: None, runner: BenchRunner::Prog(command.to_string()) }
}

fn script(program: &str, args: &[&str]) -> Benchmark {
    Benchmark { name: None, runner: BenchRunner::Script(program.to_string(), strings(args)) }
}

fn timings() -> Timings {
    Timings {
        wall_time: "1.5".to_string(),
        user_time: "0.25".to_string(),
        sys_time: "0.01".to_string(),
    }
}

#[test]
fn label_is_the_name_if_there_is_one() {
    let mut bench = prog("sleep 1");
    bench.name = Some("nap".to_string());
    assert_eq!(bench.label(), "nap");
    let driven = Benchmark::driven("./bench.sh", "A");
    assert_eq!(driven.label(), "A");
    assert_eq!(driven.runner.invocation(), "./bench.sh [\"A\"]");
}

#[test]
fn label_of_a_command_is_the_command() {
    assert_eq!(prog("sleep 1").label(), "sleep 1");
    assert_eq!(prog("sleep 1").runner.invocation(), "sleep 1");
}

#[test]
fn label_of_a_script_shows_program_and_arguments() {
    assert_eq!(script("./bench.sh", &[]).label(), "<./bench.sh []>");
    assert_eq!(script("./bench.sh", &["A"]).label(), "<./bench.sh [\"A\"]>");
    assert_eq!(script("p", &["a b", "c\"d"]).label(), "<p [\"a b\", \"c\\\"d\"]>");
    assert_eq!(script_invocation("p", "[]"), "p []");
    assert_eq!(bracket("p []"), "<p []>");
}

#[test]
fn benchmarks_with_a_driver() {
    let options = Options {
        bench: Some("./bench.sh".to_string()),
        scripts: strings(&["./one.sh", "./two.sh"]),
        targets: strings(&["A", "B"]),
    };
    let labels: Vec<String> = options.benchmarks().iter().map(|b| b.label()).collect();
    assert_eq!(
        labels,
        vec!["<./one.sh []>", "<./two.sh []>", "<./bench.sh [\"A\"]>", "<./bench.sh [\"B\"]>"]
    );
}

#[test]
fn benchmarks_without_a_driver() {
    let options =
        Options { bench: None, scripts: strings(&["./one.sh"]), targets: strings(&["ls", "true"]) };
    let benches = options.benchmarks();
    assert_eq!(benches.len(), 3);
    assert!(matches!(&benches[0].runner, BenchRunner::Script(p, a) if p == "./one.sh" && a.is_empty()));
    assert!(matches!(&benches[1].runner, BenchRunner::Prog(c) if c == "ls"));
    assert!(matches!(&benches[2].runner, BenchRunner::Prog(c) if c == "true"));
    assert!(benches.iter().all(|b| b.name.is_none()));
    let none = Options { bench: None, scripts: Vec::new(), targets: Vec::new() };
    assert!(none.benchmarks().is_empty());
}

#[test]
fn timed_command_yields_three_metrics() {
    let report = RunReport::Timed { status: Some(0), timings: timings() };
    let sample = match run_bench(&prog("true"), report) {
        Ok(sample) => sample,
        Err(error) => panic!("{}", error.message()),
    };
    assert_eq!(sample.len(), 3);
    assert_eq!(sample.get("wall time"), Some("1.5"));
    assert_eq!(sample.get("user time"), Some("0.25"));
    assert_eq!(sample.get("sys time"), Some("0.01"));
}

#[test]
fn timed_command_that_fails() {
    let report = RunReport::Timed { status: Some(3), timings: timings() };
    match run_bench(&prog("false"), report) {
        Err(BenchError::BenchmarkFailed { label, invocation, status, stderr }) => {
            assert_eq!(label, "false");
            assert_eq!(invocation, "false");
            assert_eq!(status, Some(3));
            assert_eq!(stderr, "");
        }
        _ => panic!("expected a failed benchmark"),
    }
    let report = RunReport::Timed { status: Some(3), timings: timings() };
    let message = run_bench(&prog("false"), report).err().map(|e| e.message());
    assert_eq!(
        message,
        Some("false: Benchmark exited non-zero (false), exit status 3".to_string())
    );
    let report = RunReport::Timed { status: None, timings: timings() };
    let message = run_bench(&prog("false"), report).err().map(|e| e.message());
    assert_eq!(
        message,
        Some("false: Benchmark exited non-zero (false), ended by a signal".to_string())
    );
}

#[test]
fn script_that_reports_metrics() {
    let report = RunReport::Reported {
        status: Some(0),
        stdout: "{\"time\":2.0,\"mem\":5}".to_string(),
        stderr: "noise".to_string(),
        decoded: Ok(vec![
            Metric { name: "mem".to_string(), value: "5".to_string() },
            Metric { name: "time".to_string(), value: "2".to_string() },
        ]),
    };
    let sample = run_bench(&script("./bench.sh", &["B"]), report).ok().expect("a sample");
    assert_eq!(sample.len(), 2);
    assert_eq!(sample.get("mem"), Some("5"));
    assert_eq!(sample.get("time"), Some("2"));
}

#[test]
fn script_that_fails_reports_its_stderr() {
    let report = RunReport::Reported {
        status: Some(1),
        stdout: "{\"time\":2.0}".to_string(),
        stderr: "boom\n".to_string(),
        decoded: Ok(vec![Metric { name: "time".to_string(), value: "2".to_string() }]),
    };
    let error = run_bench(&script("./bench.sh", &["B"]), report).err().expect("an error");
    assert!(matches!(&error, BenchError::BenchmarkFailed { status: Some(1), .. }));
    assert_eq!(
        error.message(),
        "<./bench.sh [\"B\"]>: Benchmark exited non-zero (./bench.sh [\"B\"]), exit status 1\nboom\n"
    );
}

#[test]
fn script_with_malformed_output() {
    let report = RunReport::Reported {
        status: Some(0),
        stdout: "[1]".to_string(),
        stderr: "warn".to_string(),
        decoded: Err("invalid type: sequence, expected a map".to_string()),
    };
    let bench = Benchmark::driven("./bench.sh", "A");
    let error = run_bench(&bench, report).err().expect("an error");
    match &error {
        BenchError::DecodeFailed { label, reason, stdout, stderr } => {
            assert_eq!(label, "A");
            assert_eq!(reason, "invalid type: sequence, expected a map");
            assert_eq!(stdout, "[1]");
            assert_eq!(stderr, "warn");
        }
        _ => panic!("expected a decode error"),
    }
    assert_eq!(
        error.message(),
        "A: Benchmark output is not a JSON object of numbers: invalid type: sequence, expected a map\nstdout: [1]\nstderr: warn"
    );
}

#[test]
fn process_that_cannot_be_started() {
    let report = RunReport::SpawnFailed { os_error: "No such file or directory (os error 2)".to_string() };
    let error = run_bench(&script("./missing", &[]), report).err().expect("an error");
    assert!(matches!(&error, BenchError::SpawnFailed { .. }));
    assert_eq!(
        error.message(),
        "<./missing []>: Benchmark could not be run: No such file or directory (os error 2)"
    );
}

#[test]
fn only_status_zero_is_success() {
    assert!(succeeded(Some(0)));
    assert!(!succeeded(Some(1)));
    assert!(!succeeded(Some(-1)));
    assert!(!succeeded(None));
}

#[test]
fn ticks_between_two_snapshots() {
    let before = ChildTicks { user: 100, sys: 7 };
    let after = ChildTicks { user: 142, sys: 9 };
    assert_eq!(after.since(before), Some(ChildTicks { user: 42, sys: 2 }));
    assert_eq!(before.since(before), Some(ChildTicks { user: 0, sys: 0 }));
    assert_eq!(before.since(after), Some(ChildTicks { user: -42, sys: -2 }));
    let low = ChildTicks { user: i64::MIN, sys: 0 };
    let high = ChildTicks { user: 1, sys: 0 };
    assert_eq!(high.since(low), None);
    let zero = ChildTicks { user: 0, sys: 0 };
    let top = ChildTicks { user: 0, sys: i64::MAX };
    assert_eq!(top.since(zero), Some(top));
    assert_eq!(ChildTicks { user: 0, sys: -2 }.since(top), None);
}

#[test]
fn wall_only_marks_cpu_times_as_missing() {
    let timings = Timings::wall_only("0.75".to_string());
    assert_eq!(timings.wall_time, "0.75");
    assert_eq!(timings.user_time, "NaN");
    assert_eq!(timings.sys_time, "NaN");
    let sample = timings.sample();
    assert_eq!(sample.get("wall time"), Some("0.75"));
    assert_eq!(sample.get("user time"), Some("NaN"));
    assert_eq!(sample.get("sys time"), Some("NaN"));
}

#[test]
fn plan_of_a_command_goes_through_the_shell() {
    let plan = prog("sleep 1 && true").runner.plan();
    assert_eq!(plan.program, "/bin/sh");
    assert_eq!(plan.args, vec!["-c", "sleep 1 && true"]);
    assert!(plan.timed);
}

#[test]
fn plan_of_a_script_is_the_program_with_its_arguments() {
    let plan = script("./bench.sh", &["A", "B C"]).runner.plan();
    assert_eq!(plan.program, "./bench.sh");
    assert_eq!(plan.args, vec!["A", "B C"]);
    assert!(!plan.timed);
    let plan = script("./bench.sh", &[]).runner.plan();
    assert!(plan.args.is_empty());
    assert!(!plan.timed);
}
