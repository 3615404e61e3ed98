//! Rendering of catalog listings and scanned rows as the body of an
//! HTML table, and the document shell around it.

use crate::escape::{esc_html, esc_seq};
use crate::row::{spec_cell_text, Cell, TableData};
use crate::text::{spec_decimal, usize_decimal};
use vstd::prelude::*;

verus! {

/// One line of the schema listing: the row's index, and the schema name
/// as a link to its table listing. The link text is escaped; the href is
/// the catalog-constrained name itself.
pub open spec fn spec_schema_row(i: nat, name: Seq<char>) -> Seq<char> {
    "<tr><td>"@ + spec_decimal(i) + "</td><td><a href='/"@ + name + "'>"@ + esc_seq(name)
        + "</a></td></tr>"@
}

/// The lines of the schema listing, one per name, indexed in order.
pub open spec fn spec_schema_rows(names: Seq<Seq<char>>) -> Seq<char>
    decreases names.len(),
{
    if names.len() == 0 {
        Seq::empty()
    } else {
        spec_schema_rows(names.drop_last()) + spec_schema_row(
            (names.len() - 1) as nat,
            names.last(),
        )
    }
}

/// The schema listing: its caption and heading, then one line per name.
pub open spec fn spec_schema_list(names: Seq<Seq<char>>) -> Seq<char> {
    "<caption>schemas</caption><tr><th>#</th><th>name</th></tr>"@ + spec_schema_rows(names)
}

/// Render one line of the schema listing.
fn schema_row(i: usize, name: &String) -> (r: String)
    ensures
        r@ == spec_schema_row(i as nat, name@),
{
    let mut r = String::from_str("<tr><td>");
    let num = usize_decimal(i);
    r.append(num.as_str());
    r.append("</td><td><a href='/");
    r.append(name.as_str());
    r.append("'>");
    let esc = esc_html(name.as_str());
    r.append(esc.as_str());
    r.append("</a></td></tr>");
    r
}

/// Render the schema listing.
pub fn render_schema_list(names: &Vec<String>) -> (r: String)
    ensures
        r@ == spec_schema_list(names.deep_view()),
{
    let mut r = String::from_str("<caption>schemas</caption><tr><th>#</th><th>name</th></tr>");
    let mut i: usize = 0;
    while i < names.len()
        invariant
            i <= names@.len(),
            r@ == "<caption>schemas</caption><tr><th>#</th><th>name</th></tr>"@
                + spec_schema_rows(names.deep_view().take(i as int)),
        decreases names@.len() - i,
    {
        let line = schema_row(i, &names[i]);
        r.append(line.as_str());
        proof {
            let pref = names.deep_view().take(i + 1);
            assert(pref.drop_last() =~= names.deep_view().take(i as int));
            assert(pref.last() == names.deep_view()[i as int]);
        }
        i = i + 1;
    }
    proof {
        assert(names.deep_view().take(names@.len() as int) =~= names.deep_view());
    }
    r
}

/// One line of the table listing of a schema: the row's index, and the
/// table name as a link to its row view. The schema came from the
/// request path, so its echo into the href is escaped; the table name
/// is catalog-constrained and stands as itself there.
pub open spec fn spec_table_row(i: nat, schema: Seq<char>, name: Seq<char>) -> Seq<char> {
    "<tr><td>"@ + spec_decimal(i) + "</td><td><a href='/"@ + esc_seq(schema) + "/"@ + name + "'>"@
        + esc_seq(name) + "</a></td></tr>"@
}

/// The lines of the table listing, one per name, indexed in order.
pub open spec fn spec_table_rows(schema: Seq<char>, names: Seq<Seq<char>>) -> Seq<char>
    decreases names.len(),
{
    if names.len() == 0 {
        Seq::empty()
    } else {
        spec_table_rows(schema, names.drop_last()) + spec_table_row(
            (names.len() - 1) as nat,
            schema,
            names.last(),
        )
    }
}

/// The table listing: its caption and heading, then one line per name.
pub open spec fn spec_table_list(schema: Seq<char>, names: Seq<Seq<char>>) -> Seq<char> {
    "<caption>tables</caption><tr><th>#</th><th>name</th><th>count</th></tr>"@ + spec_table_rows(
        schema,
        names,
    )
}

/// Render one line of the table listing.
fn table_row(i: usize, schema: &String, name: &String) -> (r: String)
    ensures
        r@ == spec_table_row(i as nat, schema@, name@),
{
    let mut r = String::from_str("<tr><td>");
    let num = usize_decimal(i);
    r.append(num.as_str());
    r.append("</td><td><a href='/");
    let esc_schema = esc_html(schema.as_str());
    r.append(esc_schema.as_str());
    r.append("/");
    r.append(name.as_str());
    r.append("'>");
    let esc = esc_html(name.as_str());
    r.append(esc.as_str());
    r.append("</a></td></tr>");
    r
}

/// Render the table listing of one schema.
pub fn render_table_list(schema: &String, names: &Vec<String>) -> (r: String)
    ensures
        r@ == spec_table_list(schema@, names.deep_view()),
{
    let mut r = String::from_str(
        "<caption>tables</caption><tr><th>#</th><th>name</th><th>count</th></tr>",
    );
    let mut i: usize = 0;
    while i < names.len()
        invariant
            i <= names@.len(),
            r@ == "<caption>tables</caption><tr><th>#</th><th>name</th><th>count</th></tr>"@
                + spec_table_rows(schema@, names.deep_view().take(i as int)),
        decreases names@.len() - i,
    {
        let line = table_row(i, schema, &names[i]);
        r.append(line.as_str());
        proof {
            let pref = names.deep_view().take(i + 1);
            assert(pref.drop_last() =~= names.deep_view().take(i as int));
            assert(pref.last() == names.deep_view()[i as int]);
        }
        i = i + 1;
    }
    proof {
        assert(names.deep_view().take(names@.len() as int) =~= names.deep_view());
    }
    r
}

/// The heading cells of the row view, one per column name, escaped.
pub open spec fn spec_header_cells(names: Seq<Seq<char>>) -> Seq<char>
    decreases names.len(),
{
    if names.len() == 0 {
        Seq::empty()
    } else {
        spec_header_cells(names.drop_last()) + "<th>"@ + esc_seq(names.last()) + "</th>"@
    }
}

/// The data cells of one row, one per cell value, escaped.
pub open spec fn spec_data_cells(cells: Seq<Cell>) -> Seq<char>
    decreases cells.len(),
{
    if cells.len() == 0 {
        Seq::empty()
    } else {
        spec_data_cells(cells.drop_last()) + "<td>"@ + esc_seq(spec_cell_text(cells.last()))
            + "</td>"@
    }
}

/// The data lines of the row view, one per scanned row.
pub open spec fn spec_data_rows(rows: Seq<Seq<Cell>>) -> Seq<char>
    decreases rows.len(),
{
    if rows.len() == 0 {
        Seq::empty()
    } else {
        spec_data_rows(rows.drop_last()) + "<tr>"@ + spec_data_cells(rows.last()) + "</tr>"@
    }
}

/// The row view of one table: its caption, then either a single
/// informational line for an empty scan, or the heading line followed by
/// one line per row.
pub open spec fn spec_row_view(caption: Seq<char>, columns: Seq<Seq<char>>, rows: Seq<Seq<Cell>>) -> Seq<char> {
    "<caption>"@ + esc_seq(caption) + "</caption>"@ + (if rows.len() == 0 {
        "<tr>no data</tr>"@
    } else {
        "<tr>"@ + spec_header_cells(columns) + "</tr>"@ + spec_data_rows(rows)
    })
}

/// Render the heading line of the row view.
fn header_line(names: &Vec<String>) -> (r: String)
    ensures
        r@ == "<tr>"@ + spec_header_cells(names.deep_view()) + "</tr>"@,
{
    let mut r = String::from_str("<tr>");
    let mut i: usize = 0;
    while i < names.len()
        invariant
            i <= names@.len(),
            r@ == "<tr>"@ + spec_header_cells(names.deep_view().take(i as int)),
        decreases names@.len() - i,
    {
        r.append("<th>");
        let esc = esc_html(names[i].as_str());
        r.append(esc.as_str());
        r.append("</th>");
        proof {
            let pref = names.deep_view().take(i + 1);
            assert(pref.drop_last() =~= names.deep_view().take(i as int));
            assert(pref.last() == names.deep_view()[i as int]);
        }
        i = i + 1;
    }
    proof {
        assert(names.deep_view().take(names@.len() as int) =~= names.deep_view());
    }
    r.append("</tr>");
    r
}

/// Render one data line of the row view.
fn data_line(cells: &Vec<Cell>) -> (r: String)
    ensures
        r@ == "<tr>"@ + spec_data_cells(cells@) + "</tr>"@,
{
    let mut r = String::from_str("<tr>");
    let mut i: usize = 0;
    while i < cells.len()
        invariant
            i <= cells@.len(),
            r@ == "<tr>"@ + spec_data_cells(cells@.take(i as int)),
        decreases cells@.len() - i,
    {
        r.append("<td>");
        let text = cells[i].rendered();
        let esc = esc_html(text.as_str());
        r.append(esc.as_str());
        r.append("</td>");
        proof {
            let pref = cells@.take(i + 1);
            assert(pref.drop_last() =~= cells@.take(i as int));
            assert(pref.last() == cells@[i as int]);
        }
        i = i + 1;
    }
    proof {
        assert(cells@.take(cells@.len() as int) =~= cells@);
    }
    r.append("</tr>");
    r
}

/// Render the row view of one table.
pub fn render_row_view(caption: &String, t: &TableData) -> (r: String)
    ensures
        r@ == spec_row_view(caption@, t.columns.deep_view(), t.rows_view()),
{
    let mut r = String::from_str("<caption>");
    let esc = esc_html(caption.as_str());
    r.append(esc.as_str());
    r.append("</caption>");
    if t.rows.len() == 0 {
        r.append("<tr>no data</tr>");
        return r;
    }
    let line = header_line(&t.columns);
    r.append(line.as_str());
    let ghost head = "<caption>"@ + esc_seq(caption@) + "</caption>"@ + "<tr>"@
        + spec_header_cells(t.columns.deep_view()) + "</tr>"@;
    let mut i: usize = 0;
    while i < t.rows.len()
        invariant
            i <= t.rows@.len(),
            r@ == head + spec_data_rows(t.rows_view().take(i as int)),
            head == "<caption>"@ + esc_seq(caption@) + "</caption>"@ + "<tr>"@
                + spec_header_cells(t.columns.deep_view()) + "</tr>"@,
        decreases t.rows@.len() - i,
    {
        let line = data_line(&t.rows[i]);
        r.append(line.as_str());
        proof {
            let pref = t.rows_view().take(i + 1);
            assert(pref.drop_last() =~= t.rows_view().take(i as int));
            assert(pref.last() == t.rows_view()[i as int]);
            assert(t.rows_view()[i as int] == t.rows@[i as int]@);
        }
        i = i + 1;
    }
    proof {
        assert(t.rows_view().take(t.rows@.len() as int) =~= t.rows_view());
    }
    r
}

/// The document shell: one HTML page whose single table holds the
/// level's fragment as its body.
pub open spec fn spec_page(content: Seq<char>) -> Seq<char> {
    "<!doctype html><meta charset=utf-8><table>"@ + content + "</table>"@
}

/// Wrap a fragment in the document shell.
pub fn page(content: &str) -> (r: String)
    ensures
        r@ == spec_page(content@),
{
    let mut r = String::from_str("<!doctype html><meta charset=utf-8><table>");
    r.append(content);
    r.append("</table>");
    r
}

} // verus!
