//! Benchmarks: the variants under comparison and how each is invoked.

use vstd::prelude::*;

verus! {

/// How a benchmark is run.
pub enum BenchRunner {
    /// A command line, run through a shell and measured by the process timer.
    Prog(String),
    /// A program, run with the given arguments, that reports its own metrics.
    Script(String, Vec<String>),
}

/// One variant under comparison.
pub struct Benchmark {
    pub name: Option<String>,
    pub runner: BenchRunner,
}

/// The configuration from which the list of benchmarks is made.
pub struct Options {
    /// A program that reports metrics; each target is passed to it as its
    /// only argument.
    pub bench: Option<String>,
    /// Programs that report metrics and take no argument.
    pub scripts: Vec<String>,
    /// The arguments for `bench`; without `bench`, command lines to time.
    pub targets: Vec<String>,
}

/// What a `BenchRunner` holds, as texts.
pub enum RunnerView {
    Prog(Seq<char>),
    Script(Seq<char>, Seq<Seq<char>>),
}

/// The process to start for one invocation of a benchmark.
pub struct Invocation {
    /// The program to start.
    pub program: String,
    /// Its arguments.
    pub args: Vec<String>,
    /// Whether the process timer measures the process, with what it prints
    /// discarded. Otherwise what it prints is captured: its standard output
    /// holds the metrics, its standard error serves diagnostics.
    pub timed: bool,
}

/// What an `Invocation` holds, as texts.
pub struct InvocationView {
    pub program: Seq<char>,
    pub args: Seq<Seq<char>>,
    pub timed: bool,
}

impl View for Invocation {
    type V = InvocationView;

    open spec fn view(&self) -> InvocationView {
        InvocationView {
            program: self.program@,
            args: self.args.deep_view(),
            timed: self.timed,
        }
    }
}

/// What a `Benchmark` holds, as texts.
pub struct BenchmarkView {
    pub name: Option<Seq<char>>,
    pub runner: RunnerView,
}

/// What `Options` holds, as texts.
pub struct OptionsView {
    pub bench: Option<Seq<char>>,
    pub scripts: Seq<Seq<char>>,
    pub targets: Seq<Seq<char>>,
}

/// The text that `{:?}` writes for a list of strings.
pub uninterp spec fn debug_list_text(items: Seq<Seq<char>>) -> Seq<char>;

/// Formats `items` with the `Debug` implementation of `Vec<String>`, as
/// `format!("{:?}", ..)` does. The text depends on the strings alone; the
/// contract gives it a name and states nothing else about it.
#[verifier::external_body]
fn debug_list(items: &Vec<String>) -> (out: String)
    ensures
        out@ == debug_list_text(items.deep_view()),
{
    format!("{:?}", items)
}

/// The text of an optional string.
pub open spec fn option_text(text: Option<String>) -> Option<Seq<char>> {
    match text {
        Some(t) => Some(t@),
        None => None,
    }
}

impl View for BenchRunner {
    type V = RunnerView;

    open spec fn view(&self) -> RunnerView {
        match *self {
            BenchRunner::Prog(command) => RunnerView::Prog(command@),
            BenchRunner::Script(program, args) => RunnerView::Script(program@, args.deep_view()),
        }
    }
}

impl View for Benchmark {
    type V = BenchmarkView;

    open spec fn view(&self) -> BenchmarkView {
        BenchmarkView { name: option_text(self.name), runner: self.runner@ }
    }
}

impl View for Options {
    type V = OptionsView;

    open spec fn view(&self) -> OptionsView {
        OptionsView {
            bench: option_text(self.bench),
            scripts: self.scripts.deep_view(),
            targets: self.targets.deep_view(),
        }
    }
}

/// A program and the list of its arguments, in one line.
pub open spec fn script_line(program: Seq<char>, args_text: Seq<char>) -> Seq<char> {
    program + seq![' '] + args_text
}

/// `line` between angle brackets.
pub open spec fn bracketed(line: Seq<char>) -> Seq<char> {
    seq!['<'] + line + seq!['>']
}

impl RunnerView {
    /// The process to start: for a command line the shell, told to run the
    /// command and timed; for a reporting program the program itself with
    /// its arguments, its output captured.
    pub open spec fn plan(self) -> InvocationView {
        match self {
            RunnerView::Prog(command) => InvocationView {
                program: "/bin/sh"@,
                args: seq!["-c"@, command],
                timed: true,
            },
            RunnerView::Script(program, args) => InvocationView { program, args, timed: false },
        }
    }

    /// How the runner is invoked, in one line: the command line itself, or
    /// the program followed by the list of its arguments.
    pub open spec fn invocation(self) -> Seq<char> {
        match self {
            RunnerView::Prog(command) => command,
            RunnerView::Script(program, args) => script_line(program, debug_list_text(args)),
        }
    }
}

impl BenchmarkView {
    /// The display label: the name if there is one, else the command line,
    /// or the bracketed invocation of a reporting program.
    pub open spec fn label(self) -> Seq<char> {
        match self.name {
            Some(name) => name,
            None => match self.runner {
                RunnerView::Prog(command) => command,
                RunnerView::Script(_, _) => bracketed(self.runner.invocation()),
            },
        }
    }
}

/// The views of a list of benchmarks.
pub open spec fn benchmark_views(benches: Seq<Benchmark>) -> Seq<BenchmarkView> {
    Seq::new(benches.len(), |i: int| benches[i]@)
}

impl OptionsView {
    /// The benchmark of target `i`: an argument for `bench`, or without
    /// `bench` a command line of its own.
    pub open spec fn target(self, i: int) -> BenchmarkView {
        BenchmarkView {
            name: None,
            runner: match self.bench {
                Some(program) => RunnerView::Script(program, seq![self.targets[i]]),
                None => RunnerView::Prog(self.targets[i]),
            },
        }
    }

    /// The benchmark of script `i`: the program without arguments.
    pub open spec fn script(self, i: int) -> BenchmarkView {
        BenchmarkView { name: None, runner: RunnerView::Script(self.scripts[i], Seq::empty()) }
    }

    /// The configured benchmarks: the scripts in their order, then the
    /// targets in theirs.
    pub open spec fn benchmarks(self) -> Seq<BenchmarkView> {
        Seq::new(self.scripts.len(), |i: int| self.script(i)) + Seq::new(
            self.targets.len(),
            |i: int| self.target(i),
        )
    }
}

/// The line for a reporting program: the program, a space and the list of
/// its arguments as already formatted.
pub fn script_invocation(program: &str, args_text: &str) -> (out: String)
    ensures
        out@ == script_line(program@, args_text@),
{
    let mut out = program.to_owned();
    proof {
        reveal_strlit(" ");
    }
    out.append(" ");
    out.append(args_text);
    assert(" "@ =~= seq![' ']);
    out
}

/// `line` between angle brackets.
pub fn bracket(line: &str) -> (out: String)
    ensures
        out@ == bracketed(line@),
{
    proof {
        reveal_strlit("<");
        reveal_strlit(">");
    }
    let mut out = "<".to_owned();
    out.append(line);
    out.append(">");
    assert("<"@ =~= seq!['<']);
    assert(">"@ =~= seq!['>']);
    out
}

impl BenchRunner {
    /// The process to start for one invocation.
    pub fn plan(&self) -> (out: Invocation)
        ensures
            out@ == self@.plan(),
    {
        match self {
            BenchRunner::Prog(command) => {
                let mut args: Vec<String> = Vec::new();
                args.push("-c".to_owned());
                args.push(command.clone());
                assert(args.deep_view() =~= seq!["-c"@, command@]);
                Invocation { program: "/bin/sh".to_owned(), args, timed: true }
            },
            BenchRunner::Script(program, args) => {
                let mut copied: Vec<String> = Vec::new();
                let mut i: usize = 0;
                while i < args.len()
                    invariant
                        i <= args@.len(),
                        copied.deep_view() == args.deep_view().take(i as int),
                    decreases args@.len() - i,
                {
                    let ghost before = copied.deep_view();
                    copied.push(args[i].clone());
                    assert(copied.deep_view() =~= before.push(args@[i as int]@));
                    assert(args.deep_view().take(i + 1) =~= args.deep_view().take(i as int).push(
                        args@[i as int]@,
                    ));
                    i += 1;
                }
                assert(args.deep_view().take(args@.len() as int) =~= args.deep_view());
                Invocation { program: program.clone(), args: copied, timed: false }
            },
        }
    }

    /// How the runner is invoked, in one line.
    pub fn invocation(&self) -> (out: String)
        ensures
            out@ == self@.invocation(),
    {
        match self {
            BenchRunner::Prog(command) => command.clone(),
            BenchRunner::Script(program, args) => {
                let args_text = debug_list(args);
                script_invocation(program.as_str(), args_text.as_str())
            },
        }
    }
}

impl Benchmark {
    /// A benchmark that goes by `label` and is run as `driver label`.
    pub fn driven(driver: &str, label: &str) -> (bench: Benchmark)
        ensures
            bench@ == (BenchmarkView {
                name: Some(label@),
                runner: RunnerView::Script(driver@, seq![label@]),
            }),
    {
        let mut args: Vec<String> = Vec::new();
        args.push(label.to_owned());
        assert(args.deep_view() =~= seq![label@]);
        Benchmark {
            name: Some(label.to_owned()),
            runner: BenchRunner::Script(driver.to_owned(), args),
        }
    }

    /// The display label of the benchmark.
    pub fn label(&self) -> (out: String)
        ensures
            out@ == self@.label(),
    {
        match &self.name {
            Some(name) => name.clone(),
            None => match &self.runner {
                BenchRunner::Prog(command) => command.clone(),
                BenchRunner::Script(_, _) => {
                    let line = self.runner.invocation();
                    bracket(line.as_str())
                },
            },
        }
    }
}

impl Options {
    /// The benchmarks that the configuration asks for.
    pub fn benchmarks(self) -> (benches: Vec<Benchmark>)
        ensures
            benchmark_views(benches@) == self@.benchmarks(),
    {
        let mut benches: Vec<Benchmark> = Vec::new();
        let mut i: usize = 0;
        while i < self.scripts.len()
            invariant
                i <= self.scripts@.len(),
                benchmark_views(benches@) == Seq::new(i as nat, |k: int| self@.script(k)),
            decreases self.scripts@.len() - i,
        {
            let program = self.scripts[i].clone();
            let args: Vec<String> = Vec::new();
            assert(args.deep_view() =~= Seq::<Seq<char>>::empty());
            let bench = Benchmark { name: None, runner: BenchRunner::Script(program, args) };
            assert(bench@ == self@.script(i as int));
            let ghost before = benchmark_views(benches@);
            benches.push(bench);
            assert(benchmark_views(benches@) =~= before.push(bench@));
            assert(before.push(bench@) =~= Seq::new((i + 1) as nat, |k: int| self@.script(k)));
            i += 1;
        }
        let ghost scripted = benchmark_views(benches@);
        let mut j: usize = 0;
        while j < self.targets.len()
            invariant
                j <= self.targets@.len(),
                benchmark_views(benches@) == scripted + Seq::new(
                    j as nat,
                    |k: int| self@.target(k),
                ),
            decreases self.targets@.len() - j,
        {
            let target = self.targets[j].clone();
            let runner = match &self.bench {
                Some(program) => {
                    let mut args: Vec<String> = Vec::new();
                    args.push(target);
                    assert(args.deep_view() =~= seq![self.targets@[j as int]@]);
                    BenchRunner::Script(program.clone(), args)
                },
                None => BenchRunner::Prog(target),
            };
            let bench = Benchmark { name: None, runner };
            assert(bench@ == self@.target(j as int));
            let ghost before = benchmark_views(benches@);
            benches.push(bench);
            assert(benchmark_views(benches@) =~= before.push(bench@));
            assert(before.push(bench@) =~= scripted + Seq::new(
                (j + 1) as nat,
                |k: int| self@.target(k),
            ));
            j += 1;
        }
        benches
    }
}

} // verus!
