//! What holds of whole runs of the sampling loop, whatever the events and
//! the random draws.

use vstd::prelude::*;
use crate::bench::BenchmarkView;
use crate::csv::{line, row_fields};
use crate::run::{outcome, ReportView};
use crate::sampler::{ActionView, EventView, HaltView, SamplerView, Stage};
use crate::stats::{ascending, columns_of, lemma_columns_exist, lemma_columns_of};

verus! {

/// One exchange with the caller: the event it reports, and the index that
/// a random draw would give at that moment.
pub struct Input {
    pub event: EventView,
    pub draw: usize,
}

/// The state after the exchanges `inputs`.
pub open spec fn after(state: SamplerView, inputs: Seq<Input>) -> SamplerView
    decreases inputs.len(),
{
    if inputs.len() == 0 {
        state
    } else {
        after(state.transition(inputs[0].event, inputs[0].draw).0, inputs.drop_first())
    }
}

/// The benchmarks whose rows are handed out during the exchanges `inputs`,
/// in the order of the rows.
pub open spec fn rows(state: SamplerView, inputs: Seq<Input>) -> Seq<usize>
    decreases inputs.len(),
{
    if inputs.len() == 0 {
        Seq::empty()
    } else {
        let (next, action) = state.transition(inputs[0].event, inputs[0].draw);
        let rest = rows(next, inputs.drop_first());
        match action {
            ActionView::WriteRow { index, .. } => seq![index] + rest,
            _ => rest,
        }
    }
}

/// The benchmark whose row comes next in the ordered pass; the number of
/// benchmarks once that pass is over.
pub open spec fn next_ordered(state: SamplerView) -> int {
    match state.stage {
        Stage::Start | Stage::WarmUp { .. } | Stage::Header => 0,
        Stage::Running { ordered: true, index } => index as int,
        Stage::Writing { ordered: true, index } => index + 1,
        _ => state.benches.len() as int,
    }
}

/// From any state, the rows that are still owed by the ordered pass come
/// first and in the order of the list.
pub proof fn lemma_rows_in_order(state: SamplerView, inputs: Seq<Input>, k: int)
    requires
        state.benches.len() <= usize::MAX,
        0 <= k < rows(state, inputs).len(),
        next_ordered(state) + k < state.benches.len(),
    ensures
        rows(state, inputs)[k] == next_ordered(state) + k,
    decreases inputs.len(),
{
    let (next, action) = state.transition(inputs[0].event, inputs[0].draw);
    let rest = rows(next, inputs.drop_first());
    assert(next.benches == state.benches);
    match action {
        ActionView::WriteRow { index, .. } => {
            assert(rows(state, inputs) == seq![index] + rest);
            assert(index == next_ordered(state));
            assert(next_ordered(next) == next_ordered(state) + 1);
            if k > 0 {
                lemma_rows_in_order(next, inputs.drop_first(), k - 1);
                assert((seq![index] + rest)[k] == rest[k - 1]);
            }
        },
        _ => {
            assert(rows(state, inputs) == rest);
            if next.stage is Stopped {
                lemma_stopped_is_final(next, inputs.drop_first());
            } else {
                assert(next_ordered(next) == next_ordered(state));
                lemma_rows_in_order(next, inputs.drop_first(), k);
            }
        },
    }
}

/// The first rows of a run list the benchmarks in the configured order:
/// row `k` is the row of benchmark `k`, for every `k` below the number of
/// benchmarks, whatever is drawn afterwards.
pub proof fn lemma_ordered_pass(benches: Seq<BenchmarkView>, inputs: Seq<Input>, k: int)
    requires
        benches.len() <= usize::MAX,
        0 <= k < rows(SamplerView::initial(benches), inputs).len(),
        k < benches.len(),
    ensures
        rows(SamplerView::initial(benches), inputs)[k] == k,
{
    lemma_rows_in_order(SamplerView::initial(benches), inputs, k);
}

/// Once a run has stopped it stays stopped and hands out no row.
pub proof fn lemma_stopped_is_final(state: SamplerView, inputs: Seq<Input>)
    requires
        state.stage is Stopped,
    ensures
        after(state, inputs) == state,
        rows(state, inputs) == Seq::<usize>::empty(),
    decreases inputs.len(),
{
    if inputs.len() > 0 {
        let next = state.transition(inputs[0].event, inputs[0].draw).0;
        assert(next == state);
        lemma_stopped_is_final(state, inputs.drop_first());
    }
}

/// The benchmark that the stage names; zero where it names none.
pub open spec fn running(state: SamplerView) -> usize {
    match state.stage {
        Stage::WarmUp { index } => index,
        Stage::Running { index, .. } => index,
        Stage::Writing { index, .. } => index,
        _ => 0,
    }
}

/// An invocation that fails ends the run: the action is a stop with exit
/// code one whose message begins with the label of the failed benchmark,
/// no row is handed out for it, and none ever after.
pub proof fn lemma_failure_ends_run(
    state: SamplerView,
    report: ReportView,
    draw: usize,
    inputs: Seq<Input>,
)
    requires
        state.stage is WarmUp || state.stage is Running,
        outcome(state.benches[running(state) as int], report) is Err,
    ensures
        ({
            let (next, action) = state.transition(EventView::Ran(report), draw);
            &&& next.stage is Stopped
            &&& action matches ActionView::Stop(HaltView::Failed(error))
            &&& error.label() == state.benches[running(state) as int].label()
            &&& action->Stop_0.exit_code() == 1
            &&& action->Stop_0.message() == Some(error.message())
            &&& error.label().is_prefix_of(error.message())
            &&& rows(next, inputs) == Seq::<usize>::empty()
            &&& rows(state, seq![Input { event: EventView::Ran(report), draw }] + inputs)
                == Seq::<usize>::empty()
        }),
{
    let first = Input { event: EventView::Ran(report), draw };
    let all = seq![first] + inputs;
    let (next, action) = state.transition(EventView::Ran(report), draw);
    lemma_stopped_is_final(next, inputs);
    assert(all[0] == first);
    assert(all.drop_first() =~= inputs);
}

/// When the reader of the result stream goes away while a line is being
/// written, the run ends with exit code zero and without a message, and
/// hands out nothing more.
pub proof fn lemma_disconnect_is_clean(state: SamplerView, draw: usize, inputs: Seq<Input>)
    requires
        state.stage is Header || state.stage is Writing,
    ensures
        ({
            let (next, action) = state.transition(EventView::OutputClosed, draw);
            &&& next.stage is Stopped
            &&& action == ActionView::Stop(HaltView::OutputClosed)
            &&& HaltView::OutputClosed.exit_code() == 0
            &&& HaltView::OutputClosed.message() is None
            &&& rows(next, inputs) == Seq::<usize>::empty()
        }),
{
    let next = state.transition(EventView::OutputClosed, draw).0;
    lemma_stopped_is_final(next, inputs);
}

/// The columns change in the warm-up pass only, and the benchmarks never:
/// from the header on, every state of the run has the columns of the
/// header.
pub proof fn lemma_columns_frozen(state: SamplerView, inputs: Seq<Input>)
    requires
        !(state.stage is Start),
        !(state.stage is WarmUp),
    ensures
        after(state, inputs).columns == state.columns,
        after(state, inputs).benches == state.benches,
        !(after(state, inputs).stage is Start),
        !(after(state, inputs).stage is WarmUp),
    decreases inputs.len(),
{
    if inputs.len() > 0 {
        let next = state.transition(inputs[0].event, inputs[0].draw).0;
        lemma_columns_frozen(next, inputs.drop_first());
    }
}

/// A row is handed out for a successful invocation outside the warm-up
/// pass, and only then. It is rendered against the columns of the state,
/// so it has one field for the label and one for each column.
pub proof fn lemma_row_shape(state: SamplerView, event: EventView, draw: usize)
    ensures
        ({
            let (next, action) = state.transition(event, draw);
            action matches ActionView::WriteRow { index, line: text } ==> {
                &&& state.stage matches Stage::Running { index: at, .. }
                &&& at == index
                &&& event matches EventView::Ran(report)
                &&& outcome(state.benches[index as int], report) matches Ok(sample)
                &&& text == line(
                    row_fields(state.benches[index as int].label(), sample, state.columns),
                )
                &&& row_fields(state.benches[index as int].label(), sample, state.columns).len()
                    == 1 + state.columns.len()
                &&& next.columns == state.columns
            }
        }),
{
}

/// From the header on, every row is rendered against the columns of the
/// header: whatever happens in between, exchange `at` hands out a row only
/// as the line of a label and one cell for each of those columns.
pub proof fn lemma_rows_after_header(state: SamplerView, inputs: Seq<Input>, at: int)
    requires
        !(state.stage is Start),
        !(state.stage is WarmUp),
        0 <= at < inputs.len(),
    ensures
        ({
            let before = after(state, inputs.take(at));
            let action = before.transition(inputs[at].event, inputs[at].draw).1;
            action matches ActionView::WriteRow { index, line: text } ==> {
                &&& inputs[at].event matches EventView::Ran(report)
                &&& outcome(state.benches[index as int], report) matches Ok(sample)
                &&& text == line(
                    row_fields(state.benches[index as int].label(), sample, state.columns),
                )
                &&& row_fields(state.benches[index as int].label(), sample, state.columns).len()
                    == 1 + state.columns.len()
            }
        }),
{
    let before = after(state, inputs.take(at));
    lemma_columns_frozen(state, inputs.take(at));
    lemma_row_shape(before, inputs[at].event, inputs[at].draw);
}

/// The names that occur in at least one of `samples`.
pub open spec fn observed(samples: Seq<Map<Seq<char>, Seq<char>>>) -> Set<Seq<char>> {
    Set::new(
        |name: Seq<char>| exists|i: int| 0 <= i < samples.len() && samples[i].contains_key(name),
    )
}

/// The union of the observed names does not depend on the order of the
/// samples: two sequences that hold the same samples, each as often as the
/// other, give the same names and so the same columns.
pub proof fn lemma_observed_any_order(
    a: Seq<Map<Seq<char>, Seq<char>>>,
    b: Seq<Map<Seq<char>, Seq<char>>>,
)
    requires
        a.to_multiset() == b.to_multiset(),
    ensures
        observed(a) == observed(b),
        columns_of(observed(a)) == columns_of(observed(b)),
{
    a.to_multiset_ensures();
    b.to_multiset_ensures();
    assert forall|name: Seq<char>| observed(a).contains(name) <==> observed(b).contains(name) by {
        if observed(a).contains(name) {
            let i = choose|i: int| 0 <= i < a.len() && a[i].contains_key(name);
            assert(a.contains(a[i]));
            assert(b.to_multiset().count(a[i]) > 0);
            assert(b.contains(a[i]));
            let j = choose|j: int| 0 <= j < b.len() && b[j] == a[i];
            assert(b[j].contains_key(name));
        }
        if observed(b).contains(name) {
            let i = choose|i: int| 0 <= i < b.len() && b[i].contains_key(name);
            assert(b.contains(b[i]));
            assert(a.to_multiset().count(b[i]) > 0);
            assert(a.contains(b[i]));
            let j = choose|j: int| 0 <= j < a.len() && a[j] == b[i];
            assert(a[j].contains_key(name));
        }
    }
    assert(observed(a) =~= observed(b));
}

/// The names of a finite number of finite samples are finitely many.
pub proof fn lemma_observed_finite(samples: Seq<Map<Seq<char>, Seq<char>>>)
    requires
        forall|i: int| 0 <= i < samples.len() ==> (#[trigger] samples[i]).dom().finite(),
    ensures
        observed(samples).finite(),
        samples.len() > 0 ==> observed(samples) == observed(samples.drop_last()).union(
            samples.last().dom(),
        ),
    decreases samples.len(),
{
    if samples.len() == 0 {
        assert(observed(samples) =~= Set::<Seq<char>>::empty());
    } else {
        let front = samples.drop_last();
        lemma_observed_finite(front);
        assert forall|name: Seq<char>| observed(samples).contains(name) <==> observed(
            front,
        ).union(samples.last().dom()).contains(name) by {
            if observed(samples).contains(name) {
                let i = choose|i: int| 0 <= i < samples.len() && samples[i].contains_key(name);
                if i < front.len() {
                    assert(front[i].contains_key(name));
                }
            }
            if observed(front).contains(name) {
                let i = choose|i: int| 0 <= i < front.len() && front[i].contains_key(name);
                assert(samples[i].contains_key(name));
            }
            if samples.last().dom().contains(name) {
                assert(samples[samples.len() - 1].contains_key(name));
            }
        }
        assert(observed(samples) =~= observed(front).union(samples.last().dom()));
    }
}

/// The exchanges of a warm-up pass in which the invocations, in the order
/// of the list, are observed as `reports`.
pub open spec fn warm_up_inputs(reports: Seq<ReportView>) -> Seq<Input> {
    seq![Input { event: EventView::Begin, draw: 0 }] + Seq::new(
        reports.len(),
        |i: int| Input { event: EventView::Ran(reports[i]), draw: 0 },
    )
}

/// The invocation observed as `report` succeeds, with a sample of finitely
/// many metrics.
pub open spec fn yields_sample(bench: BenchmarkView, report: ReportView) -> bool {
    match outcome(bench, report) {
        Ok(sample) => sample.dom().finite(),
        Err(_) => false,
    }
}

/// The samples of a warm-up pass in which every invocation succeeds.
pub open spec fn warm_up_samples(benches: Seq<BenchmarkView>, reports: Seq<ReportView>) -> Seq<
    Map<Seq<char>, Seq<char>>,
> {
    Seq::new(benches.len(), |i: int| outcome(benches[i], reports[i])->Ok_0)
}

/// The state in the warm-up pass after the first `done` invocations.
spec fn warmed(benches: Seq<BenchmarkView>, reports: Seq<ReportView>, done: int) -> SamplerView {
    SamplerView {
        benches,
        columns: columns_of(observed(warm_up_samples(benches, reports).take(done))),
        stage: if done < benches.len() {
            Stage::WarmUp { index: done as usize }
        } else {
            Stage::Header
        },
    }
}

/// The reports of the warm-up pass from invocation `done` on.
spec fn remaining(reports: Seq<ReportView>, done: int) -> Seq<Input> {
    Seq::new(
        (reports.len() - done) as nat,
        |i: int| Input { event: EventView::Ran(reports[done + i]), draw: 0 },
    )
}

proof fn lemma_warm_up_from(benches: Seq<BenchmarkView>, reports: Seq<ReportView>, done: int)
    requires
        0 < benches.len() <= usize::MAX,
        reports.len() == benches.len(),
        0 <= done <= benches.len(),
        forall|i: int| 0 <= i < benches.len() ==> #[trigger] yields_sample(benches[i], reports[i]),
    ensures
        after(warmed(benches, reports, done), remaining(reports, done)) == warmed(
            benches,
            reports,
            benches.len() as int,
        ),
    decreases benches.len() - done,
{
    let samples = warm_up_samples(benches, reports);
    let state = warmed(benches, reports, done);
    let inputs = remaining(reports, done);
    if done < benches.len() {
        let sample = outcome(benches[done], reports[done])->Ok_0;
        assert(yields_sample(benches[done], reports[done]));
        assert(samples[done] == sample);
        assert forall|i: int| 0 <= i < samples.len() implies (#[trigger] samples[i]).dom().finite() by {
            assert(yields_sample(benches[i], reports[i]));
        }
        let seen = samples.take(done);
        let more = samples.take(done + 1);
        assert(more.drop_last() =~= seen);
        assert(more.last() == sample);
        lemma_observed_finite(seen);
        lemma_observed_finite(more);
        lemma_columns_exist(observed(seen));
        assert(state.columns.to_set().union(sample.dom()) == observed(more));
        let next = state.transition(inputs[0].event, inputs[0].draw).0;
        assert(next == warmed(benches, reports, done + 1));
        assert(inputs.drop_first() =~= remaining(reports, done + 1));
        lemma_warm_up_from(benches, reports, done + 1);
    } else {
        assert(inputs =~= Seq::<Input>::empty());
    }
}

/// After a warm-up pass in which each benchmark ran once and succeeded,
/// the header is due, and the columns are the names observed in the
/// samples of that pass, in ascending order.
pub proof fn lemma_warm_up(benches: Seq<BenchmarkView>, reports: Seq<ReportView>)
    requires
        benches.len() <= usize::MAX,
        reports.len() == benches.len(),
        forall|i: int| 0 <= i < benches.len() ==> #[trigger] yields_sample(benches[i], reports[i]),
    ensures
        ({
            let end = after(SamplerView::initial(benches), warm_up_inputs(reports));
            let names = observed(warm_up_samples(benches, reports));
            &&& end.stage is Header
            &&& end.benches == benches
            &&& end.columns == columns_of(names)
            &&& end.columns.to_set() == names
            &&& ascending(end.columns)
        }),
{
    let start = SamplerView::initial(benches);
    let inputs = warm_up_inputs(reports);
    let samples = warm_up_samples(benches, reports);
    let none = Seq::<Seq<char>>::empty();
    assert(none.to_set() =~= Set::<Seq<char>>::empty());
    lemma_columns_of(none);
    assert(observed(samples.take(0)) =~= Set::<Seq<char>>::empty());
    assert forall|i: int| 0 <= i < samples.len() implies (#[trigger] samples[i]).dom().finite() by {
        assert(yields_sample(benches[i], reports[i]));
    }
    lemma_observed_finite(samples);
    lemma_columns_exist(observed(samples));
    assert(inputs.drop_first() =~= remaining(reports, 0));
    let next = start.transition(inputs[0].event, inputs[0].draw).0;
    if benches.len() == 0 {
        assert(samples =~= samples.take(0));
        assert(inputs.drop_first() =~= Seq::<Input>::empty());
        assert(after(next, inputs.drop_first()) == next);
    } else {
        assert(next == warmed(benches, reports, 0));
        lemma_warm_up_from(benches, reports, 0);
        assert(samples.take(benches.len() as int) =~= samples);
    }
}

/// The columns do not depend on the order in which the benchmarks ran in
/// the warm-up pass: two passes that gave the same samples, each as often
/// as the other, end with the same columns.
pub proof fn lemma_warm_up_any_order(
    benches: Seq<BenchmarkView>,
    reports: Seq<ReportView>,
    others: Seq<BenchmarkView>,
    other_reports: Seq<ReportView>,
)
    requires
        benches.len() <= usize::MAX,
        reports.len() == benches.len(),
        forall|i: int| 0 <= i < benches.len() ==> #[trigger] yields_sample(benches[i], reports[i]),
        others.len() <= usize::MAX,
        other_reports.len() == others.len(),
        forall|i: int|
            0 <= i < others.len() ==> #[trigger] yields_sample(others[i], other_reports[i]),
        warm_up_samples(benches, reports).to_multiset() == warm_up_samples(
            others,
            other_reports,
        ).to_multiset(),
    ensures
        after(SamplerView::initial(benches), warm_up_inputs(reports)).columns == after(
            SamplerView::initial(others),
            warm_up_inputs(other_reports),
        ).columns,
{
    lemma_warm_up(benches, reports);
    lemma_warm_up(others, other_reports);
    lemma_observed_any_order(
        warm_up_samples(benches, reports),
        warm_up_samples(others, other_reports),
    );
}

} // verus!
