//! The result stream: one header line, then one line per sample.

use vstd::prelude::*;
use crate::metrics::MetricSample;
use crate::stats::StatSet;

verus! {

/// `fields` with a comma between each two of them.
pub open spec fn joined(fields: Seq<Seq<char>>) -> Seq<char>
    decreases fields.len(),
{
    if fields.len() == 0 {
        Seq::empty()
    } else if fields.len() == 1 {
        fields[0]
    } else {
        joined(fields.drop_last()) + seq![','] + fields.last()
    }
}

/// The line for `fields`: the fields with commas between them, and a newline.
pub open spec fn line(fields: Seq<Seq<char>>) -> Seq<char> {
    joined(fields) + seq!['\n']
}

/// The fields of the header: the column of labels, then every column of
/// metrics.
pub open spec fn header_fields(columns: Seq<Seq<char>>) -> Seq<Seq<char>> {
    seq!["benchmark"@] + columns
}

/// What a row shows in the column `column`: the value that the sample has
/// for it, or the not-a-number marker when it has none.
pub open spec fn cell(sample: Map<Seq<char>, Seq<char>>, column: Seq<char>) -> Seq<char> {
    if sample.contains_key(column) {
        sample[column]
    } else {
        "NaN"@
    }
}

/// The fields of a row: the label, then one cell for every column.
pub open spec fn row_fields(
    label: Seq<char>,
    sample: Map<Seq<char>, Seq<char>>,
    columns: Seq<Seq<char>>,
) -> Seq<Seq<char>> {
    seq![label] + Seq::new(columns.len(), |i: int| cell(sample, columns[i]))
}

/// Every row has one field for the label and one for each column, whatever
/// the sample holds.
pub proof fn lemma_row_width(
    label: Seq<char>,
    sample: Map<Seq<char>, Seq<char>>,
    columns: Seq<Seq<char>>,
)
    ensures
        row_fields(label, sample, columns).len() == 1 + columns.len(),
        header_fields(columns).len() == 1 + columns.len(),
        row_fields(label, sample, columns)[0] == label,
{
}

/// A column that the sample has no value for shows the not-a-number
/// marker; a column that it has a value for shows that value.
pub proof fn lemma_row_cells(
    label: Seq<char>,
    sample: Map<Seq<char>, Seq<char>>,
    columns: Seq<Seq<char>>,
    i: int,
)
    requires
        0 <= i < columns.len(),
    ensures
        !sample.contains_key(columns[i]) ==> row_fields(label, sample, columns)[1 + i] == "NaN"@,
        sample.contains_key(columns[i]) ==> row_fields(label, sample, columns)[1 + i]
            == sample[columns[i]],
{
}

/// A row shows nothing of a metric that is no column: two samples that
/// agree on the columns give the same row.
pub proof fn lemma_row_ignores_other_metrics(
    label: Seq<char>,
    sample: Map<Seq<char>, Seq<char>>,
    other: Map<Seq<char>, Seq<char>>,
    columns: Seq<Seq<char>>,
)
    requires
        forall|i: int|
            0 <= i < columns.len() ==> sample.contains_key(#[trigger] columns[i])
                == other.contains_key(columns[i]),
        forall|i: int|
            0 <= i < columns.len() && sample.contains_key(#[trigger] columns[i]) ==> sample[columns[i]]
                == other[columns[i]],
    ensures
        row_fields(label, sample, columns) == row_fields(label, other, columns),
{
    assert(row_fields(label, sample, columns) =~= row_fields(label, other, columns));
}

/// The fields that a reader finds in `text`: the stretches between commas.
pub open spec fn fields_of(text: Seq<char>) -> Seq<Seq<char>>
    decreases text.len(),
{
    if text.len() == 0 {
        seq![Seq::empty()]
    } else {
        let front = fields_of(text.drop_last());
        if text.last() == ',' {
            front.push(Seq::empty())
        } else {
            front.drop_last().push(front.last().push(text.last()))
        }
    }
}

/// `field` holds no comma.
pub open spec fn comma_free(field: Seq<char>) -> bool {
    forall|i: int| 0 <= i < field.len() ==> field[i] != ','
}

/// A text always has at least one field, and text without a comma only
/// lengthens the last one.
proof fn lemma_fields_of_append(text: Seq<char>, more: Seq<char>)
    requires
        comma_free(more),
    ensures
        fields_of(text).len() >= 1,
        fields_of(text + more) == fields_of(text).drop_last().push(fields_of(text).last() + more),
    decreases more.len(),
{
    lemma_fields_of_nonempty(text);
    if more.len() == 0 {
        assert(text + more =~= text);
        assert(fields_of(text).last() + more =~= fields_of(text).last());
        assert(fields_of(text).drop_last().push(fields_of(text).last()) =~= fields_of(text));
    } else {
        let shorter = more.drop_last();
        lemma_fields_of_append(text, shorter);
        assert((text + more).drop_last() =~= text + shorter);
        assert((text + more).last() == more.last());
        let front = fields_of(text + shorter);
        assert(front.last() == fields_of(text).last() + shorter);
        assert(front.drop_last() =~= fields_of(text).drop_last());
        assert((fields_of(text).last() + shorter).push(more.last()) =~= fields_of(text).last()
            + more);
    }
}

proof fn lemma_fields_of_nonempty(text: Seq<char>)
    ensures
        fields_of(text).len() >= 1,
    decreases text.len(),
{
    if text.len() > 0 {
        lemma_fields_of_nonempty(text.drop_last());
    }
}

/// Reading a joined line gives back the fields that were joined, as long
/// as there is at least one field and no field holds a comma: a reader
/// finds exactly as many fields as were written.
pub proof fn lemma_joined_parses(fields: Seq<Seq<char>>)
    requires
        fields.len() >= 1,
        forall|i: int| 0 <= i < fields.len() ==> comma_free(#[trigger] fields[i]),
    ensures
        fields_of(joined(fields)) == fields,
    decreases fields.len(),
{
    let none = Seq::<char>::empty();
    if fields.len() == 1 {
        lemma_fields_of_append(none, fields[0]);
        assert(none + fields[0] =~= fields[0]);
        assert(fields_of(none) =~= seq![none]);
        assert(seq![none].drop_last().push(none + fields[0]) =~= fields);
    } else {
        let front = fields.drop_last();
        assert forall|i: int| 0 <= i < front.len() implies comma_free(#[trigger] front[i]) by {
            assert(front[i] == fields[i]);
        }
        lemma_joined_parses(front);
        let opened = joined(front) + seq![','];
        assert(opened.drop_last() =~= joined(front));
        assert(fields_of(opened) == front.push(none));
        lemma_fields_of_append(opened, fields.last());
        assert(joined(fields) =~= opened + fields.last());
        assert(front.push(none).drop_last().push(none + fields.last()) =~= fields);
    }
}

/// A reader of a row finds one field for the label and one for each
/// column, and in them the label and the cells, provided that neither the
/// label nor a value of the sample holds a comma.
pub proof fn lemma_row_parses(
    label: Seq<char>,
    sample: Map<Seq<char>, Seq<char>>,
    columns: Seq<Seq<char>>,
)
    requires
        comma_free(label),
        forall|name: Seq<char>| sample.contains_key(name) ==> comma_free(#[trigger] sample[name]),
    ensures
        fields_of(line(row_fields(label, sample, columns)).drop_last()) == row_fields(
            label,
            sample,
            columns,
        ),
        fields_of(line(row_fields(label, sample, columns)).drop_last()).len() == 1
            + columns.len(),
{
    let fields = row_fields(label, sample, columns);
    reveal_strlit("NaN");
    assert(comma_free("NaN"@));
    assert forall|i: int| 0 <= i < fields.len() implies comma_free(#[trigger] fields[i]) by {
        if i > 0 {
            assert(fields[i] == cell(sample, columns[i - 1]));
        }
    }
    lemma_joined_parses(fields);
    assert(line(fields).drop_last() =~= joined(fields));
}

/// Renders samples against a fixed list of columns.
pub struct CsvWriter {
    stats: Vec<String>,
}

impl View for CsvWriter {
    type V = Seq<Seq<char>>;

    closed spec fn view(&self) -> Seq<Seq<char>> {
        self.stats.deep_view()
    }
}

impl CsvWriter {
    /// Fixes the columns to those of `stats` and renders the header line.
    pub fn new(stats: &StatSet) -> (made: (CsvWriter, String))
        ensures
            made.0@ == stats@,
            made.1@ == line(header_fields(stats@)),
    {
        let mut columns: Vec<String> = Vec::new();
        let mut header = "benchmark".to_owned();
        let mut i: usize = 0;
        let n = stats.len();
        assert(header_fields(stats@).take(1) =~= seq!["benchmark"@]);
        while i < n
            invariant
                i <= n,
                n == stats@.len(),
                columns.deep_view() == stats@.take(i as int),
                header@ == joined(header_fields(stats@).take(i + 1)),
            decreases n - i,
        {
            let name = stats.get(i);
            proof {
                reveal_strlit(",");
                let done = header_fields(stats@).take(i + 1);
                let next = header_fields(stats@).take(i + 2);
                assert(next.drop_last() =~= done);
                assert(next.last() == name@);
            }
            header.append(",");
            header.append(name);
            assert(","@ =~= seq![',']);
            let ghost before = columns.deep_view();
            columns.push(name.to_owned());
            assert(columns.deep_view() =~= before.push(name@));
            assert(stats@.take(i + 1) =~= stats@.take(i as int).push(name@));
            i += 1;
        }
        proof {
            reveal_strlit("\n");
            assert(header_fields(stats@).take(n + 1) =~= header_fields(stats@));
            assert(stats@.take(n as int) =~= stats@);
        }
        header.append("\n");
        assert("\n"@ =~= seq!['\n']);
        (CsvWriter { stats: columns }, header)
    }

    /// The number of metric columns.
    pub fn width(&self) -> (n: usize)
        ensures
            n == self@.len(),
    {
        self.stats.len()
    }

    /// Renders the line for one sample of the benchmark labelled `bench`:
    /// the label, then for each column the value of the sample or the
    /// not-a-number marker. A metric of the sample that is no column is
    /// dropped without notice.
    pub fn write_csv(&self, bench: &str, values: &MetricSample) -> (out: String)
        requires
            values.wf(),
        ensures
            out@ == line(row_fields(bench@, values@, self@)),
    {
        let mut out = bench.to_owned();
        let mut i: usize = 0;
        let n = self.stats.len();
        let ghost fields = row_fields(bench@, values@, self@);
        assert(fields.take(1) =~= seq![bench@]);
        while i < n
            invariant
                i <= n,
                n == self.stats@.len(),
                n == self@.len(),
                values.wf(),
                fields == row_fields(bench@, values@, self@),
                out@ == joined(fields.take(i + 1)),
            decreases n - i,
        {
            let value = values.get(self.stats[i].as_str());
            proof {
                reveal_strlit(",");
                let done = fields.take(i + 1);
                let next = fields.take(i + 2);
                assert(next.drop_last() =~= done);
                assert(self@[i as int] == self.stats@[i as int]@);
                assert(next.last() == cell(values@, self@[i as int]));
            }
            out.append(",");
            match value {
                Some(text) => out.append(text),
                None => out.append("NaN"),
            }
            assert(","@ =~= seq![',']);
            i += 1;
        }
        proof {
            reveal_strlit("\n");
            assert(fields.take(n + 1) =~= fields);
        }
        out.append("\n");
        assert("\n"@ =~= seq!['\n']);
        out
    }
}

} // verus!
