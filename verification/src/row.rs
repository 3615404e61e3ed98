//! The row model: one scanned row as an ordered mapping from column
//! name to a shown value, and the collected result of one table scan.

use vstd::prelude::*;

verus! {

/// One value of a row, as it is shown: SQL NULL, a value the driver
/// gave as text, or a value without a text form, carried as the
/// database's own name of its column type.
pub enum Cell {
    Null,
    Text(String),
    Unrepresented(String),
}

/// The text a cell is shown as. Every cell has one: `NULL` for SQL
/// NULL, the value's own text, or the type name in angle brackets.
pub open spec fn spec_cell_text(c: Cell) -> Seq<char> {
    match c {
        Cell::Null => "NULL"@,
        Cell::Text(s) => s@,
        Cell::Unrepresented(t) => "<"@ + t@ + ">"@,
    }
}

impl Cell {
    /// Render the cell's text form.
    pub fn rendered(&self) -> (r: String)
        ensures
            r@ == spec_cell_text(*self),
    {
        match self {
            Cell::Null => String::from_str("NULL"),
            Cell::Text(s) => s.clone(),
            Cell::Unrepresented(t) => {
                let mut r = String::from_str("<");
                r.append(t.as_str());
                r.append(">");
                r
            },
        }
    }
}

/// One row as read from the driver: the column names of its result set
/// and the cell under each, in column order.
pub struct Record {
    pub columns: Vec<String>,
    pub values: Vec<Cell>,
}

impl Record {
    /// A record is well formed when it holds one value under each column.
    pub open spec fn wf(&self) -> bool {
        self.columns@.len() == self.values@.len()
    }
}

/// Rows of one scan are symmetric when each is well formed and carries
/// the column names of the first row, in the same order.
pub open spec fn spec_symmetric(rs: Seq<Record>) -> bool {
    forall|i: int|
        0 <= i < rs.len() ==> (#[trigger] rs[i]).wf() && rs[i].columns.deep_view()
            == rs[0].columns.deep_view()
}

/// The collected result of one table scan: the column names captured
/// once, and one parallel value list per row.
pub struct TableData {
    pub columns: Vec<String>,
    pub rows: Vec<Vec<Cell>>,
}

impl TableData {
    /// Every row holds exactly one cell per column.
    pub open spec fn wf(&self) -> bool {
        forall|i: int| 0 <= i < self.rows@.len() ==> (#[trigger] self.rows@[i])@.len()
            == self.columns@.len()
    }

    /// The rows as plain sequences of cells.
    pub open spec fn rows_view(&self) -> Seq<Seq<Cell>> {
        self.rows@.map(|i: int, v: Vec<Cell>| v@)
    }
}

/// The rendering failure: a scanned row did not carry the column names
/// of the first row.
pub enum RenderError {
    Asymmetric,
}

/// Decide whether two column lists are the same names in the same order.
pub fn same_columns(a: &Vec<String>, b: &Vec<String>) -> (r: bool)
    ensures
        r == (a.deep_view() == b.deep_view()),
{
    if a.len() != b.len() {
        proof {
            assert(a.deep_view().len() == a@.len());
            assert(b.deep_view().len() == b@.len());
        }
        return false;
    }
    let mut i: usize = 0;
    while i < a.len()
        invariant
            a@.len() == b@.len(),
            i <= a@.len(),
            forall|k: int| 0 <= k < i ==> a.deep_view()[k] == b.deep_view()[k],
        decreases a@.len() - i,
    {
        if !a[i].eq(&b[i]) {
            proof {
                assert(a.deep_view()[i as int] != b.deep_view()[i as int]);
            }
            return false;
        }
        i = i + 1;
    }
    proof {
        assert(a.deep_view() =~= b.deep_view());
    }
    true
}

/// Decide whether the rows of a scan are symmetric.
fn records_symmetric(records: &Vec<Record>) -> (r: bool)
    ensures
        r == spec_symmetric(records@),
{
    let mut i: usize = 0;
    while i < records.len()
        invariant
            i <= records@.len(),
            forall|k: int|
                0 <= k < i ==> (#[trigger] records@[k]).wf() && records@[k].columns.deep_view()
                    == records@[0].columns.deep_view(),
        decreases records@.len() - i,
    {
        let rec = &records[i];
        if rec.columns.len() != rec.values.len() {
            return false;
        }
        if !same_columns(&rec.columns, &records[0].columns) {
            return false;
        }
        i = i + 1;
    }
    true
}

/// Collect the rows of one scan, capturing the column names once.
///
/// Succeeds exactly when every row is well formed and carries the column
/// names of the first row; an empty scan succeeds with no columns.
pub fn build_table(records: Vec<Record>) -> (r: Result<TableData, RenderError>)
    ensures
        match r {
            Ok(t) => {
                &&& spec_symmetric(records@)
                &&& t.wf()
                &&& t.columns.deep_view() == (if records@.len() == 0 {
                    Seq::<Seq<char>>::empty()
                } else {
                    records@[0].columns.deep_view()
                })
                &&& t.rows@.len() == records@.len()
                &&& forall|i: int|
                    0 <= i < records@.len() ==> (#[trigger] t.rows@[i])@ == records@[i].values@
            },
            Err(e) => !spec_symmetric(records@) && e == RenderError::Asymmetric,
        },
{
    if !records_symmetric(&records) {
        return Err(RenderError::Asymmetric);
    }
    let ghost orig = records@;
    let mut rest = records;
    let mut columns: Vec<String> = Vec::new();
    let mut rows: Vec<Vec<Cell>> = Vec::new();
    proof {
        assert(columns.deep_view() =~= Seq::<Seq<char>>::empty());
        assert(rest@ =~= orig.subrange(0, orig.len() as int));
    }
    while rest.len() > 0
        invariant
            spec_symmetric(orig),
            rows@.len() + rest@.len() == orig.len(),
            rest@ == orig.subrange(rows@.len() as int, orig.len() as int),
            forall|i: int| 0 <= i < rows@.len() ==> (#[trigger] rows@[i])@ == orig[i].values@,
            columns.deep_view() == (if rows@.len() == 0 && orig.len() > 0 {
                Seq::<Seq<char>>::empty()
            } else if orig.len() == 0 {
                Seq::<Seq<char>>::empty()
            } else {
                orig[0].columns.deep_view()
            }),
        decreases rest@.len(),
    {
        let ghost k = rows@.len() as int;
        let rec = rest.remove(0);
        proof {
            assert(rec == orig[k]);
            assert(rest@ =~= orig.subrange(k + 1, orig.len() as int));
            assert(orig[k].wf());
        }
        let Record { columns: c, values: v } = rec;
        if rows.len() == 0 {
            columns = c;
            proof {
                assert(orig[k].columns.deep_view() == orig[0].columns.deep_view());
            }
        }
        rows.push(v);
    }
    let t = TableData { columns, rows };
    proof {
        assert(forall|i: int|
            0 <= i < t.rows@.len() ==> (#[trigger] t.rows@[i])@.len() == t.columns@.len());
    }
    Ok(t)
}

} // verus!
