use bench_sampler::bench::{BenchRunner, Benchmark, Options};
use bench_sampler::metrics::Metric;
use bench_sampler::run::RunReport;
use bench_sampler::sampler::{sample, warm_up_notice, Action, Event, Halt, Sampler, Stage};
use bench_sampler::timer::Timings;
use std::collections::BTreeMap;

fn decode(stdout: &str) -> Result<Vec<Metric>, String> {
    match serde_json::from_slice::<BTreeMap<String, f64>>(stdout.as_bytes()) {
        Ok(map) => Ok(map
            .into_iter()
            .map(|(name, value)| Metric { name, value: format!("{}", value) })
            .collect()),
        Err(error) => Err(error.to_string()),
    }
}

fn reported(stdout: &str) -> Event {
    Event::Ran(RunReport::Reported {
        status: Some(0),
        stdout: stdout.to_string(),
        stderr: String::new(),
        decoded: decode(stdout),
    })
}

fn failed(stderr: &str) -> Event {
    Event::Ran(RunReport::Reported {
        status: Some(2),
        stdout: String::new(),
        stderr: stderr.to_string(),
        decoded: Err("EOF while parsing a value at line 1 column 0".to_string()),
    })
}

fn timed() -> Event {
    Event::Ran(RunReport::Timed {
        status: Some(0),
        timings: Timings {
            wall_time: "1".to_string(),
            user_time: "0.5".to_string(),
            sys_time: "0.25".to_string(),
        },
    })
}

fn two_benchmarks() -> Sampler {
    Sampler::new(vec![Benchmark::driven("./bench.sh", "A"), Benchmark::driven("./bench.sh", "B")])
}

fn run_index(action: &Action) -> usize {
    match action {
        Action::Run { index, .. } => *index,
        _ => panic!("expected a benchmark to run"),
    }
}

#[test]
fn two_benchmarks_with_different_metrics() {
    let mut sampler = two_benchmarks();
    assert_eq!(sampler.len(), 2);
    assert_eq!(sampler.stage(), Stage::Start);
    let a = "{\"time\":1.0}";
    let b = "{\"time\":2.0,\"mem\":5}";

    assert!(matches!(sampler.step(Event::Begin), Action::Run { index: 0, warm_up: true }));
    assert!(matches!(sampler.step(reported(a)), Action::Run { index: 1, warm_up: true }));
    match sampler.step(reported(b)) {
        Action::WriteHeader(header) => assert_eq!(header, "benchmark,mem,time\n"),
        _ => panic!("expected the header"),
    }
    assert_eq!(sampler.stats().len(), 2);
    assert_eq!(sampler.stats().get(0), "mem");
    assert_eq!(sampler.stats().get(1), "time");

    assert!(matches!(sampler.step(Event::Written), Action::Run { index: 0, warm_up: false }));
    match sampler.step(reported(a)) {
        Action::WriteRow { index, line } => {
            assert_eq!(index, 0);
            assert_eq!(line, "A,NaN,1\n");
        }
        _ => panic!("expected a row"),
    }
    assert!(matches!(sampler.step(Event::Written), Action::Run { index: 1, warm_up: false }));
    match sampler.step(reported(b)) {
        Action::WriteRow { index, line } => {
            assert_eq!(index, 1);
            assert_eq!(line, "B,5,2\n");
        }
        _ => panic!("expected a row"),
    }
}

#[test]
fn random_pass_draws_from_the_list() {
    let mut sampler = Sampler::new(vec![
        Benchmark::driven("d", "A"),
        Benchmark::driven("d", "B"),
        Benchmark::driven("d", "C"),
    ]);
    let labels = ["A", "B", "C"];
    let sample = "{\"time\":1.5}";
    sampler.step(Event::Begin);
    sampler.step(reported(sample));
    sampler.step(reported(sample));
    assert!(matches!(sampler.step(reported(sample)), Action::WriteHeader(_)));
    let mut action = sampler.step(Event::Written);
    for expected in 0..3 {
        assert_eq!(run_index(&action), expected);
        assert!(matches!(sampler.step(reported(sample)), Action::WriteRow { .. }));
        action = sampler.step(Event::Written);
    }
    let mut seen = [false; 3];
    for _ in 0..300 {
        let index = run_index(&action);
        assert!(index < 3);
        assert_eq!(sampler.stage(), Stage::Running { ordered: false, index });
        seen[index] = true;
        match sampler.step(reported(sample)) {
            Action::WriteRow { index: row, line } => {
                assert_eq!(row, index);
                assert_eq!(line, format!("{},1.5\n", labels[index]));
            }
            _ => panic!("expected a row"),
        }
        action = sampler.step(Event::Written);
    }
    assert!(seen.iter().all(|s| *s));
}

#[test]
fn advance_uses_the_given_draw() {
    let mut sampler = two_benchmarks();
    let sample = "{\"x\":0}";
    sampler.advance(Event::Begin, 1);
    sampler.advance(reported(sample), 1);
    sampler.advance(reported(sample), 1);
    assert!(matches!(sampler.advance(Event::Written, 1), Action::Run { index: 0, warm_up: false }));
    sampler.advance(reported(sample), 1);
    assert!(matches!(sampler.advance(Event::Written, 1), Action::Run { index: 1, warm_up: false }));
    sampler.advance(reported(sample), 0);
    assert!(matches!(sampler.advance(Event::Written, 0), Action::Run { index: 0, warm_up: false }));
    assert_eq!(sampler.stage(), Stage::Running { ordered: false, index: 0 });
    sampler.advance(reported(sample), 0);
    assert!(matches!(sampler.advance(Event::Written, 1), Action::Run { index: 1, warm_up: false }));
    assert_eq!(sampler.stage(), Stage::Running { ordered: false, index: 1 });
}

#[test]
fn columns_are_frozen_after_the_warm_up() {
    let mut sampler = Sampler::new(vec![Benchmark::driven("d", "A")]);
    sampler.step(Event::Begin);
    match sampler.step(reported("{\"time\":1}")) {
        Action::WriteHeader(header) => assert_eq!(header, "benchmark,time\n"),
        _ => panic!("expected the header"),
    }
    sampler.step(Event::Written);
    match sampler.step(reported("{\"late\":3,\"time\":4}")) {
        Action::WriteRow { line, .. } => assert_eq!(line, "A,4\n"),
        _ => panic!("expected a row"),
    }
    assert_eq!(sampler.stats().len(), 1);
    sampler.step(Event::Written);
    match sampler.step(reported("{}")) {
        Action::WriteRow { line, .. } => assert_eq!(line, "A,NaN\n"),
        _ => panic!("expected a row"),
    }
}

#[test]
fn timed_commands_give_three_columns() {
    let bench = Benchmark { name: None, runner: BenchRunner::Prog("sleep 0".to_string()) };
    let mut sampler = Sampler::new(vec![bench]);
    sampler.step(Event::Begin);
    match sampler.step(timed()) {
        Action::WriteHeader(header) => {
            assert_eq!(header, "benchmark,sys time,user time,wall time\n")
        }
        _ => panic!("expected the header"),
    }
    sampler.step(Event::Written);
    match sampler.step(timed()) {
        Action::WriteRow { line, .. } => assert_eq!(line, "sleep 0,0.25,0.5,1\n"),
        _ => panic!("expected a row"),
    }
}

#[test]
fn failure_in_the_warm_up_ends_the_run() {
    let mut sampler = two_benchmarks();
    sampler.step(Event::Begin);
    sampler.step(reported("{\"time\":1}"));
    match sampler.step(failed("boom")) {
        Action::Stop(halt) => {
            assert_eq!(halt.exit_code(), 1);
            let message = halt.message().expect("a message");
            assert!(message.starts_with("B: "));
            assert!(message.contains("boom"));
            assert!(matches!(halt, Halt::Failed(_)));
        }
        _ => panic!("expected the run to stop"),
    }
    assert_eq!(sampler.stage(), Stage::Stopped);
    assert!(matches!(sampler.step(Event::Written), Action::Stop(Halt::OutOfTurn)));
    assert!(matches!(sampler.step(reported("{}")), Action::Stop(Halt::OutOfTurn)));
}

#[test]
fn failure_after_the_header_gives_no_row() {
    let mut sampler = two_benchmarks();
    sampler.step(Event::Begin);
    sampler.step(reported("{\"time\":1}"));
    sampler.step(reported("{\"time\":1}"));
    sampler.step(Event::Written);
    match sampler.step(failed("")) {
        Action::Stop(halt) => {
            assert_eq!(halt.exit_code(), 1);
            assert_eq!(
                halt.message(),
                Some("A: Benchmark exited non-zero (./bench.sh [\"A\"]), exit status 2".to_string())
            );
        }
        _ => panic!("expected the run to stop"),
    }
    assert_eq!(sampler.stage(), Stage::Stopped);
}

#[test]
fn malformed_output_ends_the_run() {
    let mut sampler = two_benchmarks();
    sampler.step(Event::Begin);
    match sampler.step(reported("{\"time\":\"fast\"}")) {
        Action::Stop(Halt::Failed(error)) => {
            let message = error.message();
            assert!(message.starts_with("A: Benchmark output is not a JSON object of numbers: "));
            assert!(message.ends_with("\nstdout: {\"time\":\"fast\"}\nstderr: "));
        }
        _ => panic!("expected the run to stop"),
    }
}

#[test]
fn closed_output_is_a_clean_end() {
    let mut sampler = two_benchmarks();
    sampler.step(Event::Begin);
    sampler.step(reported("{\"time\":1}"));
    sampler.step(reported("{\"time\":1}"));
    sampler.step(Event::Written);
    sampler.step(reported("{\"time\":1}"));
    match sampler.step(Event::OutputClosed) {
        Action::Stop(halt) => {
            assert!(matches!(halt, Halt::OutputClosed));
            assert_eq!(halt.exit_code(), 0);
            assert_eq!(halt.message(), None);
        }
        _ => panic!("expected the run to stop"),
    }
    assert_eq!(sampler.stage(), Stage::Stopped);
}

#[test]
fn closed_output_while_the_header_is_written() {
    let mut sampler = Sampler::new(vec![Benchmark::driven("d", "A")]);
    sampler.step(Event::Begin);
    sampler.step(reported("{}"));
    assert_eq!(sampler.stage(), Stage::Header);
    assert!(matches!(sampler.step(Event::OutputClosed), Action::Stop(Halt::OutputClosed)));
}

#[test]
fn other_output_errors_are_fatal() {
    let mut sampler = Sampler::new(vec![Benchmark::driven("d", "A")]);
    sampler.step(Event::Begin);
    sampler.step(reported("{}"));
    match sampler.step(Event::OutputFailed("No space left on device".to_string())) {
        Action::Stop(halt) => {
            assert_eq!(halt.exit_code(), 1);
            assert_eq!(halt.message(), Some("No space left on device".to_string()));
        }
        _ => panic!("expected the run to stop"),
    }
}

#[test]
fn without_benchmarks_only_the_header_is_written() {
    let mut sampler = Sampler::new(Vec::new());
    match sampler.step(Event::Begin) {
        Action::WriteHeader(header) => assert_eq!(header, "benchmark\n"),
        _ => panic!("expected the header"),
    }
    match sampler.step(Event::Written) {
        Action::Stop(halt) => {
            assert!(matches!(halt, Halt::NoBenchmarks));
            assert_eq!(halt.exit_code(), 101);
            assert_eq!(halt.message(), Some("there is no benchmark to draw from".to_string()));
        }
        _ => panic!("expected the run to stop"),
    }
}

#[test]
fn events_out_of_turn_end_the_run() {
    let mut sampler = two_benchmarks();
    match sampler.step(Event::Written) {
        Action::Stop(halt) => {
            assert!(matches!(halt, Halt::OutOfTurn));
            assert_eq!(halt.exit_code(), 1);
            assert_eq!(
                halt.message(),
                Some("an event came that the run did not wait for".to_string())
            );
        }
        _ => panic!("expected the run to stop"),
    }
    let mut sampler = two_benchmarks();
    sampler.step(Event::Begin);
    assert!(matches!(sampler.step(Event::OutputClosed), Action::Stop(Halt::OutOfTurn)));
}

#[test]
fn benchmark_of_an_index() {
    let sampler = two_benchmarks();
    assert_eq!(sampler.benchmark(0).label(), "A");
    assert_eq!(sampler.benchmark(1).label(), "B");
}

#[test]
fn warm_up_notice_names_the_benchmark() {
    assert_eq!(warm_up_notice("A"), "Warming up A...");
    assert_eq!(warm_up_notice(""), "Warming up ...");
}

#[test]
fn sample_starts_with_the_configured_benchmarks() {
    let options = Options {
        bench: Some("./bench.sh".to_string()),
        scripts: vec!["./one.sh".to_string()],
        targets: vec!["A".to_string(), "B".to_string()],
    };
    let mut sampler = sample(options);
    assert_eq!(sampler.stage(), Stage::Start);
    assert_eq!(sampler.len(), 3);
    assert_eq!(sampler.benchmark(0).label(), "<./one.sh []>");
    assert_eq!(sampler.benchmark(1).label(), "<./bench.sh [\"A\"]>");
    assert_eq!(sampler.benchmark(2).label(), "<./bench.sh [\"B\"]>");
    assert!(matches!(sampler.step(Event::Begin), Action::Run { index: 0, warm_up: true }));
}
