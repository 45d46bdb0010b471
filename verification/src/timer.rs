//! The process timer's arithmetic and its result.

use vstd::prelude::*;
use crate::metrics::MetricSample;

verus! {

/// The processor time that the waited-for children of a process have used
/// so far, in clock ticks: a snapshot of the cumulative counters.
#[derive(Debug, Clone, Copy, PartialEq, Eq, Structural)]
pub struct ChildTicks {
    pub user: i64,
    pub sys: i64,
}

impl ChildTicks {
    /// The ticks that `self` counts beyond `before`.
    pub open spec fn spec_since(self, before: ChildTicks) -> (int, int) {
        (self.user - before.user, self.sys - before.sys)
    }

    /// The ticks used between the snapshot `before` and this one. The
    /// counters sum over all children, so the result is the time of one
    /// child only if no other child ran between the two snapshots. `None`
    /// when a difference does not fit the counter's type.
    pub fn since(self, before: ChildTicks) -> (used: Option<ChildTicks>)
        ensures
            used is Some <==> (i64::MIN <= self.user - before.user <= i64::MAX && i64::MIN
                <= self.sys - before.sys <= i64::MAX),
            used matches Some(ticks) ==> (ticks.user as int, ticks.sys as int) == self.spec_since(
                before,
            ),
    {
        let user: i128 = self.user as i128 - before.user as i128;
        let sys: i128 = self.sys as i128 - before.sys as i128;
        if user < i64::MIN as i128 || user > i64::MAX as i128 || sys < i64::MIN as i128 || sys
            > i64::MAX as i128 {
            None
        } else {
            Some(ChildTicks { user: user as i64, sys: sys as i64 })
        }
    }
}

/// The times that the process timer measured for one child process, in
/// seconds, each as it will be printed.
pub struct Timings {
    pub wall_time: String,
    pub user_time: String,
    pub sys_time: String,
}

/// What `Timings` holds, as texts.
pub struct TimingsView {
    pub wall_time: Seq<char>,
    pub user_time: Seq<char>,
    pub sys_time: Seq<char>,
}

impl View for Timings {
    type V = TimingsView;

    open spec fn view(&self) -> TimingsView {
        TimingsView {
            wall_time: self.wall_time@,
            user_time: self.user_time@,
            sys_time: self.sys_time@,
        }
    }
}

impl TimingsView {
    /// The three metrics of a timed command.
    pub open spec fn metrics(self) -> Map<Seq<char>, Seq<char>> {
        Map::<Seq<char>, Seq<char>>::empty().insert("wall time"@, self.wall_time).insert(
            "user time"@,
            self.user_time,
        ).insert("sys time"@, self.sys_time)
    }
}

/// A timed command has exactly three metrics, wall, user and sys time,
/// each with the time measured for it.
pub proof fn lemma_three_metrics(timings: TimingsView)
    ensures
        timings.metrics().dom() == set!["wall time"@, "user time"@, "sys time"@],
        timings.metrics().dom().len() == 3,
        timings.metrics()["wall time"@] == timings.wall_time,
        timings.metrics()["user time"@] == timings.user_time,
        timings.metrics()["sys time"@] == timings.sys_time,
{
    reveal_strlit("wall time");
    reveal_strlit("user time");
    reveal_strlit("sys time");
    assert("wall time"@[0] == 'w' && "user time"@[0] == 'u' && "sys time"@[0] == 's');
    let names = set!["wall time"@, "user time"@, "sys time"@];
    assert(timings.metrics().dom() =~= names);
    assert(names =~= Set::<Seq<char>>::empty().insert("wall time"@).insert("user time"@).insert(
        "sys time"@,
    ));
}

impl Timings {
    /// The sample of a timed command: wall, user and sys time.
    pub fn sample(self) -> (sample: MetricSample)
        ensures
            sample.wf(),
            sample@ == self@.metrics(),
    {
        let mut sample = MetricSample::new();
        sample.insert("wall time".to_owned(), self.wall_time);
        sample.insert("user time".to_owned(), self.user_time);
        sample.insert("sys time".to_owned(), self.sys_time);
        sample
    }
}

impl Timings {
    /// The timings of a platform without process accounting: the wall
    /// time, with user and sys time marked as not available. Their columns
    /// stay in the table and show the not-a-number marker.
    pub fn wall_only(wall_time: String) -> (timings: Timings)
        ensures
            timings@ == (TimingsView {
                wall_time: wall_time@,
                user_time: "NaN"@,
                sys_time: "NaN"@,
            }),
    {
        Timings { wall_time, user_time: "NaN".to_owned(), sys_time: "NaN".to_owned() }
    }
}

} // verus!
