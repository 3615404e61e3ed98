//! Per-request responses: each navigation level's introspection outcome
//! turned into one HTML document with its status code.

use crate::catalog::{list_schemas, spec_listing};
use crate::render::{
    page, render_row_view, render_schema_list, render_table_list, spec_page, spec_row_view,
    spec_schema_list, spec_table_list,
};
use crate::row::{build_table, spec_symmetric, Cell, Record, RenderError};
use vstd::prelude::*;

verus! {

/// A failure of an introspection call: the pool produced no connection
/// in time, or the database rejected the statement.
pub enum DbError {
    Connection,
    Query,
}

/// One HTTP response: a status code and an HTML body.
pub struct HtmlResponse {
    pub status: u16,
    pub body: String,
}

/// The error line shown, inside the document shell, for a request whose
/// introspection call failed.
pub open spec fn spec_error_row(e: DbError) -> Seq<char> {
    match e {
        DbError::Connection => "<tr><td>connection error</td></tr>"@,
        DbError::Query => "<tr><td>query error</td></tr>"@,
    }
}

/// The error line shown when a scan's rows were not symmetric.
pub open spec fn spec_render_error_row() -> Seq<char> {
    "<tr><td>render error</td></tr>"@
}

/// Render the error line of a failed introspection call.
fn error_row(e: &DbError) -> (r: String)
    ensures
        r@ == spec_error_row(*e),
{
    match e {
        DbError::Connection => String::from_str("<tr><td>connection error</td></tr>"),
        DbError::Query => String::from_str("<tr><td>query error</td></tr>"),
    }
}

/// The response of the schema-list level: the catalog's namespace
/// listing, reserved names removed and the rest ordered, rendered as
/// the schema listing; a failed listing becomes a server-error response.
pub fn respond_schemas(res: Result<Vec<String>, DbError>) -> (r: HtmlResponse)
    ensures
        match res {
            Ok(names) => r.status == 200 && r.body@ == spec_page(
                spec_schema_list(spec_listing(names.deep_view())),
            ),
            Err(e) => r.status == 500 && r.body@ == spec_page(spec_error_row(e)),
        },
{
    match res {
        Ok(names) => {
            let shown = list_schemas(&names);
            let body = render_schema_list(&shown);
            HtmlResponse { status: 200, body: page(body.as_str()) }
        },
        Err(e) => HtmlResponse { status: 500, body: page(error_row(&e).as_str()) },
    }
}

/// The response of the table-list level: the base tables of one schema
/// rendered as the table listing; a failed listing becomes a
/// server-error response.
pub fn respond_tables(schema: &String, res: Result<Vec<String>, DbError>) -> (r: HtmlResponse)
    ensures
        match res {
            Ok(names) => r.status == 200 && r.body@ == spec_page(
                spec_table_list(schema@, names.deep_view()),
            ),
            Err(e) => r.status == 500 && r.body@ == spec_page(spec_error_row(e)),
        },
{
    match res {
        Ok(names) => {
            let body = render_table_list(schema, &names);
            HtmlResponse { status: 200, body: page(body.as_str()) }
        },
        Err(e) => HtmlResponse { status: 500, body: page(error_row(&e).as_str()) },
    }
}

/// The column names one scan's rows share: those of the first row.
pub open spec fn spec_scan_columns(records: Seq<Record>) -> Seq<Seq<char>> {
    if records.len() == 0 {
        Seq::empty()
    } else {
        records[0].columns.deep_view()
    }
}

/// The value lists of one scan's rows, in scan order.
pub open spec fn spec_scan_rows(records: Seq<Record>) -> Seq<Seq<Cell>> {
    records.map(|i: int, rec: Record| rec.values@)
}

/// The response of the row-data level: a successful, symmetric scan
/// rendered as the row view under the table's name; a failed scan, or
/// one whose rows did not share the first row's columns, becomes a
/// server-error response.
pub fn respond_rows(table: &String, res: Result<Vec<Record>, DbError>) -> (r: HtmlResponse)
    ensures
        match res {
            Ok(records) => if spec_symmetric(records@) {
                r.status == 200 && r.body@ == spec_page(
                    spec_row_view(table@, spec_scan_columns(records@), spec_scan_rows(records@)),
                )
            } else {
                r.status == 500 && r.body@ == spec_page(spec_render_error_row())
            },
            Err(e) => r.status == 500 && r.body@ == spec_page(spec_error_row(e)),
        },
{
    match res {
        Ok(records) => {
            let ghost recs = records@;
            match build_table(records) {
                Ok(t) => {
                    let body = render_row_view(table, &t);
                    proof {
                        assert(t.rows_view() =~= spec_scan_rows(recs));
                        assert(t.columns.deep_view() == spec_scan_columns(recs));
                        assert(t.rows@.len() == 0 <==> spec_scan_rows(recs).len() == 0);
                    }
                    HtmlResponse { status: 200, body: page(body.as_str()) }
                },
                Err(RenderError::Asymmetric) => HtmlResponse {
                    status: 500,
                    body: page(String::from_str("<tr><td>render error</td></tr>").as_str()),
                },
            }
        },
        Err(e) => HtmlResponse { status: 500, body: page(error_row(&e).as_str()) },
    }
}

/// The response of the not-found level: the fixed error marker in the
/// document shell, under a genuine not-found status.
pub fn respond_not_found() -> (r: HtmlResponse)
    ensures
        r.status == 404 && r.body@ == spec_page("ERROR!"@),
{
    HtmlResponse { status: 404, body: page("ERROR!") }
}

} // verus!
