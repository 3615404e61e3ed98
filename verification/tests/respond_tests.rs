use dbview::respond::{
    respond_not_found, respond_rows, respond_schemas, respond_tables, DbError,
};
use dbview::row::{build_table, Cell, Record};

fn strings(names: &[&str]) -> Vec<String> {
    names.iter().map(|n| n.to_string()).collect()
}

const SHELL_OPEN: &str = "<!doctype html><meta charset=utf-8><table>";

#[test]
fn cell_text_forms() {
    assert_eq!(Cell::Null.rendered(), "NULL");
    assert_eq!(Cell::Text("1".to_string()).rendered(), "1");
    assert_eq!(Cell::Unrepresented("bytea".to_string()).rendered(), "<bytea>");
}

#[test]
fn build_table_captures_columns_once() {
    let records = vec![
        Record { columns: strings(&["id", "name"]), values: vec![Cell::Text("1".to_string()), Cell::Null] },
        Record { columns: strings(&["id", "name"]), values: vec![Cell::Text("2".to_string()), Cell::Text("x".to_string())] },
    ];
    let t = build_table(records).ok().expect("symmetric rows must build");
    assert_eq!(t.columns, strings(&["id", "name"]));
    assert_eq!(t.rows.len(), 2);
}

#[test]
fn build_table_rejects_asymmetric_rows() {
    let records = vec![
        Record { columns: strings(&["id", "name"]), values: vec![Cell::Text("1".to_string()), Cell::Null] },
        Record { columns: strings(&["id", "title"]), values: vec![Cell::Text("2".to_string()), Cell::Null] },
    ];
    assert!(build_table(records).is_err());
}

#[test]
fn build_table_rejects_short_rows() {
    let records = vec![
        Record { columns: strings(&["id", "name"]), values: vec![Cell::Text("1".to_string())] },
    ];
    assert!(build_table(records).is_err());
}

#[test]
fn empty_database_renders_header_and_no_data_rows() {
    let r = respond_schemas(Ok(Vec::new()));
    assert_eq!(r.status, 200);
    assert_eq!(
        r.body,
        format!("{SHELL_OPEN}<caption>schemas</caption><tr><th>#</th><th>name</th></tr></table>")
    );
}

#[test]
fn schema_list_filters_reserved_names_and_links_the_rest() {
    let raw = strings(&["information_schema", "pg_catalog", "public"]);
    let r = respond_schemas(Ok(raw));
    assert_eq!(r.status, 200);
    assert_eq!(
        r.body,
        format!(
            "{SHELL_OPEN}<caption>schemas</caption><tr><th>#</th><th>name</th></tr>\
             <tr><td>0</td><td><a href='/public'>public</a></td></tr></table>"
        )
    );
}

#[test]
fn schema_list_is_rendered_in_lexicographic_order() {
    let raw = strings(&["zoo", "alpha"]);
    let r = respond_schemas(Ok(raw));
    assert_eq!(r.status, 200);
    assert_eq!(
        r.body,
        format!(
            "{SHELL_OPEN}<caption>schemas</caption><tr><th>#</th><th>name</th></tr>\
             <tr><td>0</td><td><a href='/alpha'>alpha</a></td></tr>\
             <tr><td>1</td><td><a href='/zoo'>zoo</a></td></tr></table>"
        )
    );
}

#[test]
fn failed_schema_listing_is_a_server_error() {
    let r = respond_schemas(Err(DbError::Connection));
    assert_eq!(r.status, 500);
    assert_eq!(r.body, format!("{SHELL_OPEN}<tr><td>connection error</td></tr></table>"));
}

#[test]
fn table_list_renders_links_under_the_schema() {
    let r = respond_tables(&"public".to_string(), Ok(strings(&["Game"])));
    assert_eq!(r.status, 200);
    assert_eq!(
        r.body,
        format!(
            "{SHELL_OPEN}<caption>tables</caption><tr><th>#</th><th>name</th><th>count</th></tr>\
             <tr><td>0</td><td><a href='/public/Game'>Game</a></td></tr></table>"
        )
    );
}

#[test]
fn path_derived_schema_is_escaped_in_table_links() {
    let r = respond_tables(&"a'b".to_string(), Ok(strings(&["t"])));
    assert_eq!(r.status, 200);
    assert!(r.body.contains("<a href='/a&#39;b/t'>t</a>"));
    assert!(!r.body.contains("href='/a'b"));
}

#[test]
fn failed_table_listing_is_a_server_error() {
    let r = respond_tables(&"public".to_string(), Err(DbError::Query));
    assert_eq!(r.status, 500);
    assert_eq!(r.body, format!("{SHELL_OPEN}<tr><td>query error</td></tr></table>"));
}

#[test]
fn one_row_scan_renders_header_then_values() {
    let records = vec![Record {
        columns: strings(&["id", "name"]),
        values: vec![Cell::Text("1".to_string()), Cell::Null],
    }];
    let r = respond_rows(&"Game".to_string(), Ok(records));
    assert_eq!(r.status, 200);
    assert_eq!(
        r.body,
        format!(
            "{SHELL_OPEN}<caption>Game</caption><tr><th>id</th><th>name</th></tr>\
             <tr><td>1</td><td>NULL</td></tr></table>"
        )
    );
}

#[test]
fn dropped_table_scan_is_a_server_error_not_a_success() {
    let r = respond_rows(&"Game".to_string(), Err(DbError::Query));
    assert_ne!(r.status, 200);
    assert_eq!(r.status, 500);
    assert_eq!(r.body, format!("{SHELL_OPEN}<tr><td>query error</td></tr></table>"));
}

#[test]
fn empty_scan_renders_the_informational_row() {
    let r = respond_rows(&"Game".to_string(), Ok(Vec::new()));
    assert_eq!(r.status, 200);
    assert_eq!(r.body, format!("{SHELL_OPEN}<caption>Game</caption><tr>no data</tr></table>"));
}

#[test]
fn asymmetric_scan_is_a_server_error() {
    let records = vec![
        Record { columns: strings(&["id"]), values: vec![Cell::Text("1".to_string())] },
        Record { columns: strings(&["nid"]), values: vec![Cell::Text("2".to_string())] },
    ];
    let r = respond_rows(&"Game".to_string(), Ok(records));
    assert_eq!(r.status, 500);
    assert_eq!(r.body, format!("{SHELL_OPEN}<tr><td>render error</td></tr></table>"));
}

#[test]
fn cell_values_are_escaped_in_the_row_view() {
    let records = vec![Record {
        columns: strings(&["owner"]),
        values: vec![Cell::Text("O'Brien & Co <x>".to_string())],
    }];
    let r = respond_rows(&"Game".to_string(), Ok(records));
    assert_eq!(r.status, 200);
    assert!(r.body.contains("O&#39;Brien &amp; Co &lt;x&gt;"));
    assert!(!r.body.contains("O'Brien"));
}

#[test]
fn column_names_and_caption_are_escaped() {
    let records = vec![Record {
        columns: strings(&["a<b"]),
        values: vec![Cell::Null],
    }];
    let r = respond_rows(&"Ga<me".to_string(), Ok(records));
    assert_eq!(
        r.body,
        format!(
            "{SHELL_OPEN}<caption>Ga&lt;me</caption><tr><th>a&lt;b</th></tr>\
             <tr><td>NULL</td></tr></table>"
        )
    );
}

#[test]
fn unknown_paths_get_a_not_found_response() {
    let r = respond_not_found();
    assert_eq!(r.status, 404);
    assert_eq!(r.body, format!("{SHELL_OPEN}ERROR!</table>"));
}
