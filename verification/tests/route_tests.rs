use dbview::route::{route, split_segments, Level};

#[test]
fn root_paths_select_the_schema_list() {
    assert!(matches!(route("/"), Level::SchemaList));
    assert!(matches!(route(""), Level::SchemaList));
    assert!(matches!(route("///"), Level::SchemaList));
}

#[test]
fn one_segment_selects_the_table_list() {
    match route("/public") {
        Level::TableList(schema) => assert_eq!(schema, "public"),
        _ => panic!("expected the table-list level"),
    }
    match route("/public/") {
        Level::TableList(schema) => assert_eq!(schema, "public"),
        _ => panic!("expected the table-list level"),
    }
}

#[test]
fn two_segments_select_the_row_view() {
    match route("/public/Game") {
        Level::RowData(schema, table) => {
            assert_eq!(schema, "public");
            assert_eq!(table, "Game");
        }
        _ => panic!("expected the row-data level"),
    }
}

#[test]
fn empty_segments_are_discarded() {
    match route("//a//b//") {
        Level::RowData(schema, table) => {
            assert_eq!(schema, "a");
            assert_eq!(table, "b");
        }
        _ => panic!("expected the row-data level"),
    }
}

#[test]
fn three_segments_select_not_found() {
    assert!(matches!(route("/a/b/c"), Level::NotFound));
    assert!(matches!(route("/x/y/z/"), Level::NotFound));
    assert!(matches!(route("/public/Game/extra"), Level::NotFound));
    assert!(matches!(route("/a/b/c/d/e"), Level::NotFound));
}

#[test]
fn split_keeps_segment_text_exactly() {
    assert_eq!(split_segments("/a b/c%20d"), vec!["a b".to_string(), "c%20d".to_string()]);
    assert_eq!(split_segments(""), Vec::<String>::new());
}
