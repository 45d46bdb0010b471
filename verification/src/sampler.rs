//! The sampling loop as a state machine: a warm-up pass that discovers the
//! columns, one pass in the configured order, then random draws without end.

use vstd::prelude::*;
use crate::bench::{benchmark_views, Benchmark, BenchmarkView, Options};
use crate::csv::{header_fields, line, row_fields, CsvWriter};
use crate::run::{outcome, run_bench, BenchError, ErrorView, ReportView, RunReport};
use crate::stats::{ascending, columns_of, StatSet};

verus! {

/// Where a run stands. Each stage but the first and the last waits for the
/// event that ends the action handed out last.
#[derive(Debug, Clone, Copy, PartialEq, Eq, Structural)]
pub enum Stage {
    /// Nothing was handed out yet.
    Start,
    /// Benchmark `index` runs in the warm-up pass.
    WarmUp { index: usize },
    /// The header is being written.
    Header,
    /// Benchmark `index` runs, in the ordered pass or after a random draw.
    Running { ordered: bool, index: usize },
    /// The row of benchmark `index` is being written.
    Writing { ordered: bool, index: usize },
    /// The run is over.
    Stopped,
}

/// What the caller observed while performing the last action.
pub enum Event {
    /// The run begins.
    Begin,
    /// The benchmark was invoked.
    Ran(RunReport),
    /// The line was written and flushed.
    Written,
    /// The reader of the result stream has gone.
    OutputClosed,
    /// Writing failed for another reason.
    OutputFailed(String),
}

/// Why a run ends.
pub enum Halt {
    /// The reader of the result stream has gone: a clean shutdown.
    OutputClosed,
    /// The result stream could not be written.
    OutputFailed(String),
    /// An invocation failed.
    Failed(BenchError),
    /// There is no benchmark to draw from.
    NoBenchmarks,
    /// An event came that the stage does not wait for.
    OutOfTurn,
}

/// What the caller is to do next.
pub enum Action {
    /// Invoke benchmark `index` and report what was observed; in the
    /// warm-up pass, announce it on the diagnostic channel first.
    Run { index: usize, warm_up: bool },
    /// Write the header line to the result stream and flush it.
    WriteHeader(String),
    /// Write the row of benchmark `index` to the result stream and flush it.
    WriteRow { index: usize, line: String },
    /// End the run.
    Stop(Halt),
}

/// What an `Event` holds, as texts.
pub enum EventView {
    Begin,
    Ran(ReportView),
    Written,
    OutputClosed,
    OutputFailed(Seq<char>),
}

/// What a `Halt` holds, as texts.
pub enum HaltView {
    OutputClosed,
    OutputFailed(Seq<char>),
    Failed(ErrorView),
    NoBenchmarks,
    OutOfTurn,
}

/// What an `Action` holds, as texts.
pub enum ActionView {
    Run { index: usize, warm_up: bool },
    WriteHeader(Seq<char>),
    WriteRow { index: usize, line: Seq<char> },
    Stop(HaltView),
}

impl View for Event {
    type V = EventView;

    open spec fn view(&self) -> EventView {
        match *self {
            Event::Begin => EventView::Begin,
            Event::Ran(report) => EventView::Ran(report@),
            Event::Written => EventView::Written,
            Event::OutputClosed => EventView::OutputClosed,
            Event::OutputFailed(reason) => EventView::OutputFailed(reason@),
        }
    }
}

impl View for Halt {
    type V = HaltView;

    open spec fn view(&self) -> HaltView {
        match *self {
            Halt::OutputClosed => HaltView::OutputClosed,
            Halt::OutputFailed(reason) => HaltView::OutputFailed(reason@),
            Halt::Failed(error) => HaltView::Failed(error@),
            Halt::NoBenchmarks => HaltView::NoBenchmarks,
            Halt::OutOfTurn => HaltView::OutOfTurn,
        }
    }
}

impl View for Action {
    type V = ActionView;

    open spec fn view(&self) -> ActionView {
        match *self {
            Action::Run { index, warm_up } => ActionView::Run { index, warm_up },
            Action::WriteHeader(text) => ActionView::WriteHeader(text@),
            Action::WriteRow { index, line } => ActionView::WriteRow { index, line: line@ },
            Action::Stop(halt) => ActionView::Stop(halt@),
        }
    }
}

impl HaltView {
    /// The exit code of the process: zero for a clean shutdown, the code
    /// of a panic where there is nothing to draw from, else one.
    pub open spec fn exit_code(self) -> i32 {
        match self {
            HaltView::OutputClosed => 0,
            HaltView::NoBenchmarks => 101,
            _ => 1,
        }
    }

    /// The message for the diagnostic channel; none for a clean shutdown.
    pub open spec fn message(self) -> Option<Seq<char>> {
        match self {
            HaltView::OutputClosed => None,
            HaltView::OutputFailed(reason) => Some(reason),
            HaltView::Failed(error) => Some(error.message()),
            HaltView::NoBenchmarks => Some("there is no benchmark to draw from"@),
            HaltView::OutOfTurn => Some("an event came that the run did not wait for"@),
        }
    }
}

impl Halt {
    /// The exit code of the process.
    pub fn exit_code(&self) -> (code: i32)
        ensures
            code == self@.exit_code(),
    {
        match self {
            Halt::OutputClosed => 0,
            Halt::NoBenchmarks => 101,
            _ => 1,
        }
    }

    /// The message for the diagnostic channel, if there is one.
    pub fn message(&self) -> (out: Option<String>)
        ensures
            out.is_some() == self@.message().is_some(),
            out matches Some(text) ==> text@ == self@.message().unwrap(),
    {
        match self {
            Halt::OutputClosed => None,
            Halt::OutputFailed(reason) => Some(reason.clone()),
            Halt::Failed(error) => Some(error.message()),
            Halt::NoBenchmarks => Some("there is no benchmark to draw from".to_owned()),
            Halt::OutOfTurn => Some("an event came that the run did not wait for".to_owned()),
        }
    }
}

/// The line that announces a benchmark on the diagnostic channel during
/// the warm-up pass.
pub open spec fn warm_up_text(label: Seq<char>) -> Seq<char> {
    "Warming up "@ + label + "..."@
}

/// The line that announces the benchmark labelled `label` during the
/// warm-up pass.
pub fn warm_up_notice(label: &str) -> (out: String)
    ensures
        out@ == warm_up_text(label@),
{
    let mut out = "Warming up ".to_owned();
    out.append(label);
    out.append("...");
    out
}

/// The state of a run: the benchmarks, the columns found so far, and the
/// stage.
pub struct SamplerView {
    pub benches: Seq<BenchmarkView>,
    pub columns: Seq<Seq<char>>,
    pub stage: Stage,
}

impl SamplerView {
    /// The state before anything has run.
    pub open spec fn initial(benches: Seq<BenchmarkView>) -> SamplerView {
        SamplerView { benches, columns: Seq::empty(), stage: Stage::Start }
    }

    /// The stage names a benchmark of the list, and the columns are in order.
    pub open spec fn wf(self) -> bool {
        &&& ascending(self.columns)
        &&& match self.stage {
            Stage::WarmUp { index } => index < self.benches.len(),
            Stage::Running { index, .. } => index < self.benches.len(),
            Stage::Writing { index, .. } => index < self.benches.len(),
            _ => true,
        }
    }

    /// `draw` can serve as the next random index.
    pub open spec fn admits(self, draw: usize) -> bool {
        self.benches.len() > 0 ==> draw < self.benches.len()
    }

    /// The next benchmark is chosen at random once `event` is taken: a row
    /// was written that was the last of the ordered pass, or one of the
    /// random pass.
    pub open spec fn draws(self, event: EventView) -> bool {
        &&& event is Written
        &&& self.stage matches Stage::Writing { ordered, index }
        &&& !(ordered && index + 1 < self.benches.len())
    }

    /// `self` with another stage.
    pub open spec fn at(self, stage: Stage) -> SamplerView {
        SamplerView { stage, ..self }
    }

    /// The end of the run for the reason `halt`.
    pub open spec fn stop(self, halt: HaltView) -> (SamplerView, ActionView) {
        (self.at(Stage::Stopped), ActionView::Stop(halt))
    }

    /// The state after `event`, and what to do next. `draw` is the index
    /// used when the next benchmark is chosen at random.
    pub open spec fn transition(self, event: EventView, draw: usize) -> (SamplerView, ActionView) {
        let n = self.benches.len();
        match (self.stage, event) {
            (Stage::Start, EventView::Begin) => if n == 0 {
                (self.at(Stage::Header), ActionView::WriteHeader(line(header_fields(self.columns))))
            } else {
                (self.at(Stage::WarmUp { index: 0 }), ActionView::Run { index: 0, warm_up: true })
            },
            (Stage::WarmUp { index }, EventView::Ran(report)) => match outcome(
                self.benches[index as int],
                report,
            ) {
                Err(error) => self.stop(HaltView::Failed(error)),
                Ok(sample) => {
                    let columns = columns_of(self.columns.to_set().union(sample.dom()));
                    if index + 1 < n {
                        (
                            SamplerView {
                                columns,
                                stage: Stage::WarmUp { index: (index + 1) as usize },
                                ..self
                            },
                            ActionView::Run { index: (index + 1) as usize, warm_up: true },
                        )
                    } else {
                        (
                            SamplerView { columns, stage: Stage::Header, ..self },
                            ActionView::WriteHeader(line(header_fields(columns))),
                        )
                    }
                },
            },
            (Stage::Header, EventView::Written) => if n == 0 {
                self.stop(HaltView::NoBenchmarks)
            } else {
                (
                    self.at(Stage::Running { ordered: true, index: 0 }),
                    ActionView::Run { index: 0, warm_up: false },
                )
            },
            (Stage::Running { ordered, index }, EventView::Ran(report)) => match outcome(
                self.benches[index as int],
                report,
            ) {
                Err(error) => self.stop(HaltView::Failed(error)),
                Ok(sample) => (
                    self.at(Stage::Writing { ordered, index }),
                    ActionView::WriteRow {
                        index,
                        line: line(
                            row_fields(self.benches[index as int].label(), sample, self.columns),
                        ),
                    },
                ),
            },
            (Stage::Writing { ordered, index }, EventView::Written) => if ordered && index + 1
                < n {
                (
                    self.at(Stage::Running { ordered: true, index: (index + 1) as usize }),
                    ActionView::Run { index: (index + 1) as usize, warm_up: false },
                )
            } else {
                (
                    self.at(Stage::Running { ordered: false, index: draw }),
                    ActionView::Run { index: draw, warm_up: false },
                )
            },
            (Stage::Header, EventView::OutputClosed) => self.stop(HaltView::OutputClosed),
            (Stage::Writing { .. }, EventView::OutputClosed) => self.stop(HaltView::OutputClosed),
            (Stage::Header, EventView::OutputFailed(reason)) => self.stop(
                HaltView::OutputFailed(reason),
            ),
            (Stage::Writing { .. }, EventView::OutputFailed(reason)) => self.stop(
                HaltView::OutputFailed(reason),
            ),
            _ => self.stop(HaltView::OutOfTurn),
        }
    }
}

/// Draws an index below `n` with `rand::Rng::gen_range` on the generator
/// of `rand::thread_rng`. The call panics on an empty range, so `n` must
/// be positive; of the index nothing is known but that it lies in the
/// range. The generator itself panics on its first use in a thread if the
/// system provides no seed.
#[verifier::external_body]
fn random_index(n: usize) -> (index: usize)
    requires
        n > 0,
    ensures
        index < n,
{
    rand::Rng::gen_range(&mut rand::thread_rng(), 0..n)
}

/// The sampling loop of one run. The caller performs each action that
/// `step` hands out and reports what it observed with the next call.
pub struct Sampler {
    benches: Vec<Benchmark>,
    stats: StatSet,
    writer: CsvWriter,
    stage: Stage,
}

impl View for Sampler {
    type V = SamplerView;

    closed spec fn view(&self) -> SamplerView {
        SamplerView {
            benches: benchmark_views(self.benches@),
            columns: self.stats@,
            stage: self.stage,
        }
    }
}

impl Sampler {
    /// The state is well formed, and once the header is made the writer
    /// holds the columns of the run.
    pub closed spec fn wf(&self) -> bool {
        &&& self@.wf()
        &&& match self.stage {
            Stage::Header | Stage::Running { .. } | Stage::Writing { .. } => self.writer@
                == self.stats@,
            _ => true,
        }
    }

    /// A sampler for `benches`, before anything has run.
    pub fn new(benches: Vec<Benchmark>) -> (sampler: Sampler)
        ensures
            sampler.wf(),
            sampler@.wf(),
            sampler@ == SamplerView::initial(benchmark_views(benches@)),
    {
        let stats = StatSet::new();
        let (writer, _) = CsvWriter::new(&stats);
        Sampler { benches, stats, writer, stage: Stage::Start }
    }

    /// The number of benchmarks.
    pub fn len(&self) -> (n: usize)
        ensures
            n == self@.benches.len(),
    {
        self.benches.len()
    }

    /// Benchmark `index` of the list.
    pub fn benchmark(&self, index: usize) -> (bench: &Benchmark)
        requires
            index < self@.benches.len(),
        ensures
            bench@ == self@.benches[index as int],
    {
        &self.benches[index]
    }

    /// The stage of the run.
    pub fn stage(&self) -> (stage: Stage)
        ensures
            stage == self@.stage,
    {
        self.stage
    }

    /// The columns found so far; after the warm-up pass, the columns of
    /// the run.
    pub fn stats(&self) -> (stats: &StatSet)
        ensures
            stats@ == self@.columns,
    {
        &self.stats
    }

    fn halt(&mut self, halt: Halt) -> (action: Action)
        requires
            old(self)@.wf(),
        ensures
            final(self).wf(),
            (final(self)@, action@) == old(self)@.stop(halt@),
    {
        self.stage = Stage::Stopped;
        Action::Stop(halt)
    }

    fn header(&mut self) -> (action: Action)
        requires
            old(self)@.wf(),
        ensures
            final(self).wf(),
            final(self)@ == old(self)@.at(Stage::Header),
            action@ == ActionView::WriteHeader(line(header_fields(old(self)@.columns))),
    {
        let (writer, text) = CsvWriter::new(&self.stats);
        self.writer = writer;
        self.stage = Stage::Header;
        Action::WriteHeader(text)
    }

    /// Takes the event that ended the last action and hands out the next
    /// one, with `draw` as the index to use if the next benchmark is to be
    /// chosen at random.
    pub fn advance(&mut self, event: Event, draw: usize) -> (action: Action)
        requires
            old(self).wf(),
            old(self)@.admits(draw),
        ensures
            final(self).wf(),
            final(self)@.wf(),
            (final(self)@, action@) == old(self)@.transition(event@, draw),
    {
        let n = self.benches.len();
        match (self.stage, event) {
            (Stage::Start, Event::Begin) => {
                if n == 0 {
                    self.header()
                } else {
                    self.stage = Stage::WarmUp { index: 0 };
                    Action::Run { index: 0, warm_up: true }
                }
            },
            (Stage::WarmUp { index }, Event::Ran(report)) => {
                match run_bench(&self.benches[index], report) {
                    Err(error) => self.halt(Halt::Failed(error)),
                    Ok(sample) => {
                        self.stats.extend(&sample);
                        if index + 1 < n {
                            self.stage = Stage::WarmUp { index: index + 1 };
                            Action::Run { index: index + 1, warm_up: true }
                        } else {
                            self.header()
                        }
                    },
                }
            },
            (Stage::Header, Event::Written) => {
                if n == 0 {
                    self.halt(Halt::NoBenchmarks)
                } else {
                    self.stage = Stage::Running { ordered: true, index: 0 };
                    Action::Run { index: 0, warm_up: false }
                }
            },
            (Stage::Running { ordered, index }, Event::Ran(report)) => {
                match run_bench(&self.benches[index], report) {
                    Err(error) => self.halt(Halt::Failed(error)),
                    Ok(sample) => {
                        let label = self.benches[index].label();
                        let text = self.writer.write_csv(label.as_str(), &sample);
                        self.stage = Stage::Writing { ordered, index };
                        Action::WriteRow { index, line: text }
                    },
                }
            },
            (Stage::Writing { ordered, index }, Event::Written) => {
                if ordered && index + 1 < n {
                    self.stage = Stage::Running { ordered: true, index: index + 1 };
                    Action::Run { index: index + 1, warm_up: false }
                } else {
                    self.stage = Stage::Running { ordered: false, index: draw };
                    Action::Run { index: draw, warm_up: false }
                }
            },
            (Stage::Header, Event::OutputClosed) => self.halt(Halt::OutputClosed),
            (Stage::Writing { .. }, Event::OutputClosed) => self.halt(Halt::OutputClosed),
            (Stage::Header, Event::OutputFailed(reason)) => self.halt(Halt::OutputFailed(reason)),
            (Stage::Writing { .. }, Event::OutputFailed(reason)) => self.halt(
                Halt::OutputFailed(reason),
            ),
            _ => self.halt(Halt::OutOfTurn),
        }
    }

    /// Takes the event that ended the last action and hands out the next
    /// one. Where the next benchmark is to be chosen at random, the index
    /// is drawn uniformly from the list.
    pub fn step(&mut self, event: Event) -> (action: Action)
        requires
            old(self).wf(),
        ensures
            final(self).wf(),
            final(self)@.wf(),
            exists|draw: usize|
                old(self)@.admits(draw) && (final(self)@, action@) == #[trigger] old(
                    self,
                )@.transition(event@, draw),
            !old(self)@.draws(event@) ==> (final(self)@, action@) == old(self)@.transition(
                event@,
                0,
            ),
    {
        let n = self.benches.len();
        let draw: usize = match (self.stage, &event) {
            (Stage::Writing { ordered, index }, Event::Written) => {
                if ordered && index + 1 < n {
                    0
                } else {
                    random_index(n)
                }
            },
            _ => 0,
        };
        self.advance(event, draw)
    }
}

/// The sampling loop for the benchmarks that `opts` asks for, before
/// anything has run. The caller begins with `Event::Begin` and goes on
/// until an action tells it to stop.
pub fn sample(opts: Options) -> (sampler: Sampler)
    ensures
        sampler.wf(),
        sampler@.wf(),
        sampler@ == SamplerView::initial(opts@.benchmarks()),
{
    Sampler::new(opts.benchmarks())
}

} // verus!
