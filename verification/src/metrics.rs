//! Metric samples: what one invocation of a benchmark reported.

use vstd::prelude::*;
use crate::text::same_text;

verus! {

/// One reported metric: its name and its value as it will be printed.
pub struct Metric {
    pub name: String,
    pub value: String,
}

/// The metrics of one invocation: a mapping from metric name to value text,
/// with each name held once.
pub struct MetricSample {
    entries: Vec<Metric>,
}

/// No name occurs twice among `entries`.
pub open spec fn distinct_names(entries: Seq<Metric>) -> bool {
    forall|i: int, j: int| 0 <= i < j < entries.len() ==> entries[i].name@ != entries[j].name@
}

/// `entries` holds a metric called `name`.
pub open spec fn has_name(entries: Seq<Metric>, name: Seq<char>) -> bool {
    exists|i: int| 0 <= i < entries.len() && entries[i].name@ == name
}

/// A position at which `entries` holds the metric called `name`.
pub open spec fn slot_of(entries: Seq<Metric>, name: Seq<char>) -> int {
    choose|i: int| 0 <= i < entries.len() && entries[i].name@ == name
}

/// The mapping that `entries` stands for.
pub open spec fn entries_map(entries: Seq<Metric>) -> Map<Seq<char>, Seq<char>> {
    Map::new(
        |name: Seq<char>| has_name(entries, name),
        |name: Seq<char>| entries[slot_of(entries, name)].value@,
    )
}

/// The names of `entries`, in their order.
pub open spec fn entry_names(entries: Seq<Metric>) -> Seq<Seq<char>> {
    Seq::new(entries.len(), |i: int| entries[i].name@)
}

/// Putting `metric` in place of the entry of the same name gives the
/// mapping with that name rebound.
proof fn lemma_replace(entries: Seq<Metric>, at: int, metric: Metric)
    requires
        distinct_names(entries),
        0 <= at < entries.len(),
        entries[at].name@ == metric.name@,
    ensures
        distinct_names(entries.update(at, metric)),
        entries_map(entries.update(at, metric)) == entries_map(entries).insert(
            metric.name@,
            metric.value@,
        ),
        entry_names(entries.update(at, metric)) == entry_names(entries),
{
    let after = entries.update(at, metric);
    assert forall|name: Seq<char>| has_name(after, name) == (has_name(entries, name) || name
        == metric.name@) by {
        if has_name(after, name) {
            let i = slot_of(after, name);
            assert(entries[i].name@ == name);
        }
        if has_name(entries, name) {
            let i = slot_of(entries, name);
            assert(after[i].name@ == name);
        }
        if name == metric.name@ {
            assert(after[at].name@ == name);
        }
    }
    assert forall|name: Seq<char>| has_name(after, name) implies entries_map(after)[name]
        == entries_map(entries).insert(metric.name@, metric.value@)[name] by {
        let i = slot_of(after, name);
        if name != metric.name@ {
            let j = slot_of(entries, name);
            assert(i == j);
        } else {
            assert(i == at);
        }
    }
    assert(entries_map(after) =~= entries_map(entries).insert(metric.name@, metric.value@));
    assert(entry_names(after) =~= entry_names(entries));
}

/// Appending a metric with a new name binds that name and leaves the rest.
proof fn lemma_append(entries: Seq<Metric>, metric: Metric)
    requires
        distinct_names(entries),
        !has_name(entries, metric.name@),
    ensures
        distinct_names(entries.push(metric)),
        entries_map(entries.push(metric)) == entries_map(entries).insert(
            metric.name@,
            metric.value@,
        ),
        entry_names(entries.push(metric)) == entry_names(entries).push(metric.name@),
{
    let after = entries.push(metric);
    assert forall|i: int, j: int| 0 <= i < j < after.len() implies after[i].name@
        != after[j].name@ by {
        if j == entries.len() {
            assert(entries[i].name@ != metric.name@);
        }
    }
    assert forall|name: Seq<char>| has_name(after, name) == (has_name(entries, name) || name
        == metric.name@) by {
        if has_name(after, name) {
            let i = slot_of(after, name);
            if i < entries.len() {
                assert(entries[i].name@ == name);
            }
        }
        if has_name(entries, name) {
            let i = slot_of(entries, name);
            assert(after[i].name@ == name);
        }
        if name == metric.name@ {
            assert(after[entries.len() as int].name@ == name);
        }
    }
    assert forall|name: Seq<char>| has_name(after, name) implies entries_map(after)[name]
        == entries_map(entries).insert(metric.name@, metric.value@)[name] by {
        let i = slot_of(after, name);
        if name != metric.name@ {
            let j = slot_of(entries, name);
            assert(after[j].name@ == name);
            assert(i == j);
        } else {
            assert(i == entries.len());
        }
    }
    assert(entries_map(after) =~= entries_map(entries).insert(metric.name@, metric.value@));
    assert(entry_names(after) =~= entry_names(entries).push(metric.name@));
}

impl View for MetricSample {
    type V = Map<Seq<char>, Seq<char>>;

    closed spec fn view(&self) -> Map<Seq<char>, Seq<char>> {
        entries_map(self.entries@)
    }
}

impl MetricSample {
    /// Each name is held once.
    pub closed spec fn wf(&self) -> bool {
        distinct_names(self.entries@)
    }

    /// The names of the sample, in the order in which they were first
    /// inserted.
    pub closed spec fn names(&self) -> Seq<Seq<char>> {
        entry_names(self.entries@)
    }

    /// The names are exactly the names that the sample maps.
    pub proof fn lemma_names(&self)
        requires
            self.wf(),
        ensures
            forall|name: Seq<char>| self.names().contains(name) <==> self@.contains_key(name),
    {
        let entries = self.entries@;
        assert forall|name: Seq<char>| self.names().contains(name) <==> self@.contains_key(
            name,
        ) by {
            if self.names().contains(name) {
                let i = choose|i: int| 0 <= i < self.names().len() && self.names()[i] == name;
                assert(entries[i].name@ == name);
            }
            if has_name(entries, name) {
                let i = slot_of(entries, name);
                assert(self.names()[i] == name);
            }
        }
    }

    /// A sample maps finitely many names.
    pub proof fn lemma_finite(&self)
        requires
            self.wf(),
        ensures
            self@.dom().finite(),
    {
        self.lemma_names();
        assert(self.names().to_set() =~= self@.dom());
        vstd::seq_lib::seq_to_set_is_finite(self.names());
    }

    /// The sample without any metric.
    pub fn new() -> (sample: MetricSample)
        ensures
            sample.wf(),
            sample@ == Map::<Seq<char>, Seq<char>>::empty(),
            sample.names() == Seq::<Seq<char>>::empty(),
    {
        let sample = MetricSample { entries: Vec::new() };
        assert(sample@ =~= Map::<Seq<char>, Seq<char>>::empty());
        assert(sample.names() =~= Seq::<Seq<char>>::empty());
        sample
    }

    /// The number of metrics.
    pub fn len(&self) -> (n: usize)
        ensures
            n == self.names().len(),
    {
        self.entries.len()
    }

    /// The name of the metric at position `i`.
    pub fn name(&self, i: usize) -> (name: &str)
        requires
            i < self.names().len(),
        ensures
            name@ == self.names()[i as int],
    {
        self.entries[i].name.as_str()
    }

    /// Binds `name` to `value`; a value bound to `name` before is replaced.
    pub fn insert(&mut self, name: String, value: String)
        requires
            old(self).wf(),
        ensures
            final(self).wf(),
            final(self)@ == old(self)@.insert(name@, value@),
            old(self)@.contains_key(name@) ==> final(self).names() == old(self).names(),
            !old(self)@.contains_key(name@) ==> final(self).names() == old(self).names().push(
                name@,
            ),
    {
        let mut i: usize = 0;
        while i < self.entries.len()
            invariant
                i <= self.entries@.len(),
                *self == *old(self),
                self.wf(),
                forall|k: int| 0 <= k < i ==> self.entries@[k].name@ != name@,
            decreases self.entries@.len() - i,
        {
            if same_text(self.entries[i].name.as_str(), name.as_str()) {
                let metric = Metric { name, value };
                proof {
                    lemma_replace(self.entries@, i as int, metric);
                }
                self.entries.set(i, metric);
                return ;
            }
            i += 1;
        }
        let metric = Metric { name, value };
        proof {
            lemma_append(self.entries@, metric);
        }
        self.entries.push(metric);
    }

    /// The value bound to `name`, if there is one.
    pub fn get(&self, name: &str) -> (value: Option<&str>)
        requires
            self.wf(),
        ensures
            match value {
                Some(text) => self@.contains_key(name@) && text@ == self@[name@],
                None => !self@.contains_key(name@),
            },
    {
        let mut i: usize = 0;
        while i < self.entries.len()
            invariant
                i <= self.entries@.len(),
                self.wf(),
                forall|k: int| 0 <= k < i ==> self.entries@[k].name@ != name@,
            decreases self.entries@.len() - i,
        {
            if same_text(self.entries[i].name.as_str(), name) {
                proof {
                    let j = slot_of(self.entries@, name@);
                    assert(distinct_names(self.entries@));
                    assert(j == i);
                }
                return Some(self.entries[i].value.as_str());
            }
            i += 1;
        }
        None
    }

    /// The sample that binds each of `metrics` in turn, a later one
    /// replacing an earlier one of the same name.
    pub fn from_metrics(metrics: Vec<Metric>) -> (sample: MetricSample)
        ensures
            sample.wf(),
            sample@ == bind_all(Map::empty(), metrics@),
    {
        let mut sample = MetricSample::new();
        let mut metrics = metrics;
        let ghost all = metrics@;
        let mut i: usize = 0;
        let n = metrics.len();
        while i < n
            invariant
                0 <= i <= n,
                n == all.len(),
                metrics@.len() == n - i,
                metrics@ == all.subrange(i as int, n as int),
                sample.wf(),
                sample@ == bind_all(Map::empty(), all.subrange(0, i as int)),
            decreases n - i,
        {
            let metric = metrics.remove(0);
            proof {
                assert(metric == all[i as int]);
                assert(all.subrange(0, i + 1).drop_last() =~= all.subrange(0, i as int));
                assert(metrics@ =~= all.subrange(i + 1, n as int));
            }
            sample.insert(metric.name, metric.value);
            i += 1;
        }
        assert(all.subrange(0, n as int) =~= all);
        sample
    }
}

/// `map` after binding each of `metrics` in turn.
pub open spec fn bind_all(map: Map<Seq<char>, Seq<char>>, metrics: Seq<Metric>) -> Map<
    Seq<char>,
    Seq<char>,
>
    decreases metrics.len(),
{
    if metrics.len() == 0 {
        map
    } else {
        bind_all(map, metrics.drop_last()).insert(metrics.last().name@, metrics.last().value@)
    }
}

} // verus!
