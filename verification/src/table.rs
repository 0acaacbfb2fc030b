//! Tabular serialization: one header line and one line per record, values
//! joined by a tab, each cell looked up by column name with a sentinel for a
//! column the record lacks.
//!
//! No escaping is performed here; values must be normalized upstream (the
//! extractor's whitespace normalization keeps every value single-line).

use vstd::prelude::*;
use vstd::string::*;

verus! {

use crate::record::{Record, get_value, views_of};

/// The members of `vals` joined by `sep`.
pub open spec fn join_spec(vals: Seq<Seq<char>>, sep: char) -> Seq<char>
    decreases vals.len(),
{
    if vals.len() == 0 {
        Seq::empty()
    } else if vals.len() == 1 {
        vals[0]
    } else {
        vals[0] + seq![sep] + join_spec(vals.drop_first(), sep)
    }
}

proof fn lemma_join_push(vals: Seq<Seq<char>>, x: Seq<char>, sep: char)
    ensures
        join_spec(vals.push(x), sep) == if vals.len() == 0 {
            x
        } else {
            join_spec(vals, sep) + seq![sep] + x
        },
    decreases vals.len(),
{
    let vp = vals.push(x);
    if vals.len() == 0 {
        assert(vp.len() == 1);
        assert(vp[0] == x);
    } else {
        assert(vp[0] == vals[0]);
        assert(vp.drop_first() =~= vals.drop_first().push(x));
        lemma_join_push(vals.drop_first(), x, sep);
        if vals.len() == 1 {
            assert(vals.drop_first().len() == 0);
            assert(join_spec(vp, sep) == vals[0] + seq![sep] + x);
            assert(join_spec(vals, sep) == vals[0]);
        } else {
            assert(join_spec(vp, sep) == vp[0] + seq![sep] + join_spec(vp.drop_first(), sep));
            assert(join_spec(vp.drop_first(), sep) == join_spec(vals.drop_first(), sep)
                + seq![sep] + x);
            assert(vals[0] + seq![sep] + (join_spec(vals.drop_first(), sep) + seq![sep] + x)
                =~= (vals[0] + seq![sep] + join_spec(vals.drop_first(), sep)) + seq![sep] + x);
        }
    }
}

/// The cell a record shows under a column: its value there, or the sentinel
/// when the record lacks the column.
pub open spec fn cell_value(
    m: Seq<(Seq<char>, Seq<char>)>,
    k: Seq<char>,
    sentinel: Seq<char>,
) -> Seq<char> {
    match get_value(m, k) {
        Option::Some(v) => v,
        Option::None => sentinel,
    }
}

/// The cells of one record's line, in column order.
pub open spec fn row_cells(
    columns: Seq<String>,
    m: Seq<(Seq<char>, Seq<char>)>,
    sentinel: Seq<char>,
) -> Seq<Seq<char>> {
    Seq::new(columns.len(), |i: int| cell_value(m, columns[i]@, sentinel))
}

/// The header: the column names joined by a tab.
pub open spec fn header_line(columns: Seq<String>) -> Seq<char> {
    join_spec(views_of(columns), '\t')
}

/// One record's line: its cells in column order, joined by a tab.
pub open spec fn record_line(
    columns: Seq<String>,
    m: Seq<(Seq<char>, Seq<char>)>,
    sentinel: Seq<char>,
) -> Seq<char> {
    join_spec(row_cells(columns, m, sentinel), '\t')
}

/// Renders the header line.
pub fn header_row(columns: &Vec<String>) -> (line: String)
    ensures
        line@ == header_line(columns@),
{
    let mut line = String::new();
    let n = columns.len();
    let mut i: usize = 0;
    proof {
        assert(views_of(columns@).take(0) =~= Seq::<Seq<char>>::empty());
    }
    while i < n
        invariant
            0 <= i <= n,
            n == columns@.len(),
            line@ == join_spec(views_of(columns@).take(i as int), '\t'),
        decreases n - i,
    {
        let ghost pre = line@;
        if i > 0 {
            line.append("\t");
        }
        line.append(columns[i].as_str());
        proof {
            reveal_strlit("\t");
            let taken = views_of(columns@).take(i as int);
            lemma_join_push(taken, columns@[i as int]@, '\t');
            assert(taken.push(columns@[i as int]@) =~= views_of(columns@).take(i as int + 1));
            if i == 0 {
                assert(line@ =~= columns@[i as int]@);
            } else {
                assert(line@ =~= pre + seq!['\t'] + columns@[i as int]@);
            }
        }
        i = i + 1;
    }
    proof {
        assert(views_of(columns@).take(n as int) =~= views_of(columns@));
    }
    line
}

/// Renders one record's line: each column's value, the sentinel where the
/// record lacks the column, joined by a tab.
pub fn record_row(columns: &Vec<String>, rec: &Record, sentinel: &str) -> (line: String)
    requires
        rec.wf(),
    ensures
        line@ == record_line(columns@, rec@, sentinel@),
{
    let mut line = String::new();
    let n = columns.len();
    let mut i: usize = 0;
    proof {
        assert(row_cells(columns@, rec@, sentinel@).take(0) =~= Seq::<Seq<char>>::empty());
    }
    while i < n
        invariant
            0 <= i <= n,
            n == columns@.len(),
            rec.wf(),
            line@ == join_spec(row_cells(columns@, rec@, sentinel@).take(i as int), '\t'),
        decreases n - i,
    {
        let ghost pre = line@;
        if i > 0 {
            line.append("\t");
        }
        match rec.get(columns[i].as_str()) {
            Option::Some(v) => {
                let cell = v.clone();
                line.append(cell.as_str());
            },
            Option::None => {
                line.append(sentinel);
            },
        }
        proof {
            reveal_strlit("\t");
            let cells = row_cells(columns@, rec@, sentinel@);
            let taken = cells.take(i as int);
            lemma_join_push(taken, cells[i as int], '\t');
            assert(taken.push(cells[i as int]) =~= cells.take(i as int + 1));
            if i == 0 {
                assert(line@ =~= cells[i as int]);
            } else {
                assert(line@ =~= pre + seq!['\t'] + cells[i as int]);
            }
        }
        i = i + 1;
    }
    proof {
        assert(row_cells(columns@, rec@, sentinel@).take(n as int) =~= row_cells(
            columns@,
            rec@,
            sentinel@,
        ));
    }
    line
}

/// Renders the whole table: the header line, then one line per record in
/// collection order.
pub fn render_table(columns: &Vec<String>, records: &Vec<Record>, sentinel: &str) -> (lines: Vec<
    String,
>)
    requires
        forall|r: int| 0 <= r < records@.len() ==> (#[trigger] records@[r]).wf(),
    ensures
        lines@.len() == records@.len() + 1,
        lines@[0]@ == header_line(columns@),
        forall|r: int|
            0 <= r < records@.len() ==> (#[trigger] lines@[r + 1])@ == record_line(
                columns@,
                records@[r]@,
                sentinel@,
            ),
{
    let mut lines: Vec<String> = Vec::new();
    lines.push(header_row(columns));
    let n = records.len();
    let mut i: usize = 0;
    while i < n
        invariant
            0 <= i <= n,
            n == records@.len(),
            forall|r: int| 0 <= r < records@.len() ==> (#[trigger] records@[r]).wf(),
            lines@.len() == i + 1,
            lines@[0]@ == header_line(columns@),
            forall|r: int|
                0 <= r < i ==> (#[trigger] lines@[r + 1])@ == record_line(
                    columns@,
                    records@[r]@,
                    sentinel@,
                ),
        decreases n - i,
    {
        lines.push(record_row(columns, &records[i], sentinel));
        i = i + 1;
    }
    lines
}

} // verus!
