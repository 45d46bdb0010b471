//! The set of metric names that forms the columns of a run.

use vstd::prelude::*;
use crate::metrics::MetricSample;
use crate::text::{lemma_text_order, same_text, text_before, text_lt};

verus! {

/// `columns` is strictly ascending in the order of texts.
pub open spec fn ascending(columns: Seq<Seq<char>>) -> bool {
    forall|i: int, j: int| 0 <= i < j < columns.len() ==> text_lt(columns[i], columns[j])
}

/// The columns for a set of names: the names in ascending order.
pub open spec fn columns_of(names: Set<Seq<char>>) -> Seq<Seq<char>> {
    choose|columns: Seq<Seq<char>>| ascending(columns) && columns.to_set() == names
}

/// An ascending sequence holds no name twice.
pub proof fn lemma_ascending_distinct(columns: Seq<Seq<char>>)
    requires
        ascending(columns),
    ensures
        columns.no_duplicates(),
{
    assert forall|i: int, j: int|
        0 <= i < columns.len() && 0 <= j < columns.len() && i != j implies columns[i]
        != columns[j] by {
        lemma_text_order(columns[i], columns[j], columns[i]);
    }
}

/// The rest of an ascending sequence is ascending.
proof fn lemma_ascending_rest(columns: Seq<Seq<char>>)
    requires
        ascending(columns),
        columns.len() > 0,
    ensures
        ascending(columns.drop_first()),
        ascending(columns.drop_last()),
{
    let rest = columns.drop_first();
    assert forall|p: int, q: int| 0 <= p < q < rest.len() implies text_lt(rest[p], rest[q]) by {
        assert(text_lt(columns[p + 1], columns[q + 1]));
    }
}

/// A name of `b` other than its first is a name of the rest of `b`.
proof fn lemma_in_rest(a: Seq<Seq<char>>, b: Seq<Seq<char>>, x: Seq<char>)
    requires
        a.len() > 0,
        b.len() > 0,
        a[0] == b[0],
        a.no_duplicates(),
        a.to_set() == b.to_set(),
        a.drop_first().contains(x),
    ensures
        b.drop_first().contains(x),
{
    let k = choose|k: int| 0 <= k < a.drop_first().len() && a.drop_first()[k] == x;
    assert(a[k + 1] == x);
    assert(a.to_set().contains(x));
    let m = choose|m: int| 0 <= m < b.len() && b[m] == x;
    assert(b.drop_first()[m - 1] == x);
}

/// Two ascending sequences with the same names are the same sequence: the
/// order of the columns is fixed by the set of names alone.
pub proof fn lemma_columns_unique(a: Seq<Seq<char>>, b: Seq<Seq<char>>)
    requires
        ascending(a),
        ascending(b),
        a.to_set() == b.to_set(),
    ensures
        a == b,
    decreases a.len(),
{
    if a.len() == 0 || b.len() == 0 {
        if a.len() > 0 {
            assert(a.to_set().contains(a[0]));
        }
        if b.len() > 0 {
            assert(b.to_set().contains(b[0]));
        }
        assert(a =~= b);
    } else {
        // Each first name occurs in the other sequence, and nothing there
        // comes before its first name: the first names are the same.
        assert(a.to_set().contains(a[0]));
        assert(b.to_set().contains(b[0]));
        let j = choose|j: int| 0 <= j < b.len() && b[j] == a[0];
        let i = choose|i: int| 0 <= i < a.len() && a[i] == b[0];
        lemma_text_order(a[0], b[0], a[0]);
        assert(a[0] == b[0]);
        lemma_ascending_distinct(a);
        lemma_ascending_distinct(b);
        assert forall|x: Seq<char>| a.drop_first().contains(x) <==> b.drop_first().contains(
            x,
        ) by {
            if a.drop_first().contains(x) {
                lemma_in_rest(a, b, x);
            }
            if b.drop_first().contains(x) {
                lemma_in_rest(b, a, x);
            }
        }
        assert(a.drop_first().to_set() =~= b.drop_first().to_set());
        lemma_ascending_rest(a);
        lemma_ascending_rest(b);
        lemma_columns_unique(a.drop_first(), b.drop_first());
        assert(a =~= seq![a[0]] + a.drop_first());
        assert(b =~= seq![b[0]] + b.drop_first());
    }
}

/// An ascending sequence is the columns of its own set of names.
pub proof fn lemma_columns_of(columns: Seq<Seq<char>>)
    requires
        ascending(columns),
    ensures
        columns_of(columns.to_set()) == columns,
{
    lemma_columns_unique(columns_of(columns.to_set()), columns);
}

/// Putting a new name at the place that keeps the order gives an ascending
/// sequence that holds the old names and the new one.
proof fn lemma_insert_column(columns: Seq<Seq<char>>, at: int, name: Seq<char>)
    requires
        ascending(columns),
        0 <= at <= columns.len(),
        forall|i: int| 0 <= i < at ==> text_lt(columns[i], name),
        at < columns.len() ==> text_lt(name, columns[at]),
    ensures
        ascending(columns.insert(at, name)),
        columns.insert(at, name).to_set() == columns.to_set().insert(name),
{
    let after = columns.insert(at, name);
    assert(after[at] == name);
    assert forall|i: int| 0 <= i < at implies after[i] == columns[i] by {}
    assert forall|i: int| at < i < after.len() implies after[i] == columns[i - 1] by {}
    assert forall|i: int| at <= i < columns.len() implies text_lt(name, #[trigger] columns[i]) by {
        if i > at {
            lemma_text_order(name, columns[at], columns[i]);
        }
    }
    assert(ascending(after));
    assert forall|x: Seq<char>| after.to_set().contains(x) <==> columns.to_set().insert(
        name,
    ).contains(x) by {
        if after.contains(x) {
            let k = choose|k: int| 0 <= k < after.len() && after[k] == x;
            assert(k == at || columns.contains(x));
        }
        if columns.contains(x) {
            let k = choose|k: int| 0 <= k < columns.len() && columns[k] == x;
            assert(after[if k < at { k } else { k + 1 }] == x);
        }
    }
    assert(after.to_set() =~= columns.to_set().insert(name));
}

/// The number of leading names of `columns` that come before `name`.
pub open spec fn rank(columns: Seq<Seq<char>>, name: Seq<char>) -> int
    decreases columns.len(),
{
    if columns.len() == 0 {
        0
    } else if text_lt(columns.last(), name) {
        columns.len() as int
    } else {
        rank(columns.drop_last(), name)
    }
}

/// In an ascending sequence the names before the rank of `name` precede
/// it, and no name from the rank on does.
proof fn lemma_rank(columns: Seq<Seq<char>>, name: Seq<char>)
    requires
        ascending(columns),
    ensures
        0 <= rank(columns, name) <= columns.len(),
        forall|i: int| 0 <= i < rank(columns, name) ==> text_lt(columns[i], name),
        forall|i: int| rank(columns, name) <= i < columns.len() ==> !text_lt(columns[i], name),
    decreases columns.len(),
{
    if columns.len() == 0 {
    } else if text_lt(columns.last(), name) {
        assert forall|i: int| 0 <= i < columns.len() implies text_lt(columns[i], name) by {
            if i < columns.len() - 1 {
                lemma_text_order(columns[i], columns.last(), name);
            }
        }
    } else {
        let front = columns.drop_last();
        lemma_ascending_rest(columns);
        lemma_rank(front, name);
        assert forall|i: int| 0 <= i < front.len() implies front[i] == columns[i] by {}
    }
}

/// Every finite set of names has its columns: an ascending sequence that
/// holds exactly the names of the set.
pub proof fn lemma_columns_exist(names: Set<Seq<char>>)
    requires
        names.finite(),
    ensures
        ascending(columns_of(names)),
        columns_of(names).to_set() == names,
    decreases names.len(),
{
    if names.len() == 0 {
        let none = Seq::<Seq<char>>::empty();
        assert(none.to_set() =~= names);
        assert(ascending(none) && none.to_set() == names);
    } else {
        let name = names.choose();
        let others = names.remove(name);
        lemma_columns_exist(others);
        let columns = columns_of(others);
        let at = rank(columns, name);
        lemma_rank(columns, name);
        if at < columns.len() {
            // The name at the rank is not before `name` and, being one of
            // the others, is not `name`: so `name` is before it.
            assert(others.contains(columns[at])) by {
                assert(columns.contains(columns[at]));
            }
            lemma_text_order(columns[at], name, name);
        }
        lemma_insert_column(columns, at, name);
        let all = columns.insert(at, name);
        assert(others.insert(name) =~= names);
        assert(ascending(all) && all.to_set() == names);
    }
}

/// The ordered, duplicate-free set of metric names of a run.
pub struct StatSet {
    names: Vec<String>,
}

impl View for StatSet {
    type V = Seq<Seq<char>>;

    closed spec fn view(&self) -> Seq<Seq<char>> {
        Seq::new(self.names@.len(), |i: int| self.names@[i]@)
    }
}

impl StatSet {
    /// The columns are in ascending order, so that none occurs twice.
    pub open spec fn wf(&self) -> bool {
        ascending(self@)
    }

    /// The names as a set.
    pub open spec fn names(&self) -> Set<Seq<char>> {
        self@.to_set()
    }

    /// The set without any name.
    pub fn new() -> (stats: StatSet)
        ensures
            stats.wf(),
            stats@ == Seq::<Seq<char>>::empty(),
    {
        StatSet { names: Vec::new() }
    }

    /// The number of columns.
    pub fn len(&self) -> (n: usize)
        ensures
            n == self@.len(),
    {
        self.names.len()
    }

    /// The name of column `i`.
    pub fn get(&self, i: usize) -> (name: &str)
        requires
            i < self@.len(),
        ensures
            name@ == self@[i as int],
    {
        self.names[i].as_str()
    }

    /// Whether `name` is one of the columns.
    pub fn contains(&self, name: &str) -> (found: bool)
        ensures
            found == self.names().contains(name@),
    {
        let mut i: usize = 0;
        while i < self.names.len()
            invariant
                i <= self.names@.len(),
                forall|k: int| 0 <= k < i ==> self@[k] != name@,
            decreases self.names@.len() - i,
        {
            if same_text(self.names[i].as_str(), name) {
                assert(self@[i as int] == name@);
                return true;
            }
            i += 1;
        }
        false
    }

    /// Adds `name` to the set, at the place that keeps the columns in
    /// order. Returns whether the name was new.
    pub fn insert(&mut self, name: &str) -> (added: bool)
        requires
            old(self).wf(),
        ensures
            final(self).wf(),
            added == !old(self).names().contains(name@),
            final(self).names() == old(self).names().insert(name@),
            final(self)@ == columns_of(old(self).names().insert(name@)),
            !added ==> final(self)@ == old(self)@,
    {
        let mut i: usize = 0;
        while i < self.names.len() && text_before(self.names[i].as_str(), name)
            invariant
                i <= self.names@.len(),
                *self == *old(self),
                forall|k: int| 0 <= k < i ==> text_lt(self@[k], name@),
            decreases self.names@.len() - i,
        {
            i += 1;
        }
        if i < self.names.len() && same_text(self.names[i].as_str(), name) {
            proof {
                assert(self@[i as int] == name@);
                lemma_columns_of(self@);
            }
            return false;
        }
        proof {
            if i < self.names@.len() {
                lemma_text_order(self@[i as int], name@, name@);
            }
            lemma_insert_column(self@, i as int, name@);
            assert forall|k: int| 0 <= k < self@.len() implies self@[k] != name@ by {
                lemma_text_order(self@[k], name@, self@[k]);
                if k > i {
                    lemma_text_order(name@, self@[i as int], self@[k]);
                }
            }
        }
        self.names.insert(i, name.to_owned());
        proof {
            assert(self@ =~= old(self)@.insert(i as int, name@));
            lemma_columns_of(self@);
        }
        true
    }

    /// Adds every name of `sample` to the set.
    pub fn extend(&mut self, sample: &MetricSample)
        requires
            old(self).wf(),
            sample.wf(),
        ensures
            final(self).wf(),
            final(self).names() == old(self).names().union(sample@.dom()),
            final(self)@ == columns_of(old(self).names().union(sample@.dom())),
    {
        let n = sample.len();
        let mut i: usize = 0;
        while i < n
            invariant
                i <= n,
                n == sample.names().len(),
                sample.wf(),
                self.wf(),
                self.names() == old(self).names().union(sample.names().subrange(0, i as int).to_set()),
            decreases n - i,
        {
            self.insert(sample.name(i));
            proof {
                let done = sample.names().subrange(0, i as int);
                let next = sample.names().subrange(0, i + 1);
                assert(next =~= done.push(sample.names()[i as int]));
                done.lemma_push_to_set_commute(sample.names()[i as int]);
            }
            i += 1;
        }
        proof {
            assert(sample.names().subrange(0, n as int) =~= sample.names());
            sample.lemma_names();
            lemma_columns_of(self@);
        }
    }
}

} // verus!
