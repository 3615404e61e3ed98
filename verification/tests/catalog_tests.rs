use dbview::catalog::{
    contains_name, is_reserved, list_schemas, quote_ident, row_query, schemas_query, tables_query,
    user_schemas,
};
use dbview::order::{sort_names, str_lex_leq};

fn strings(names: &[&str]) -> Vec<String> {
    names.iter().map(|n| n.to_string()).collect()
}

#[test]
fn reserved_names_are_recognized() {
    assert!(is_reserved(&"pg_catalog".to_string()));
    assert!(is_reserved(&"pg_toast".to_string()));
    assert!(is_reserved(&"pg_".to_string()));
    assert!(is_reserved(&"information_schema".to_string()));
    assert!(!is_reserved(&"public".to_string()));
    assert!(!is_reserved(&"pg".to_string()));
    assert!(!is_reserved(&"pgx".to_string()));
    assert!(!is_reserved(&"sales".to_string()));
}

#[test]
fn user_schemas_drops_reserved_and_keeps_order() {
    let raw = strings(&["information_schema", "pg_catalog", "public", "app", "pg_toast"]);
    assert_eq!(user_schemas(&raw), strings(&["public", "app"]));
}

#[test]
fn listing_filters_and_sorts() {
    let raw = strings(&["zoo", "pg_catalog", "alpha", "information_schema", "Beta"]);
    assert_eq!(list_schemas(&raw), strings(&["Beta", "alpha", "zoo"]));
}

#[test]
fn listing_is_idempotent() {
    let raw = strings(&["pg_catalog", "zoo", "information_schema", "alpha"]);
    let once = list_schemas(&raw);
    let twice = list_schemas(&once);
    assert_eq!(once, strings(&["alpha", "zoo"]));
    assert_eq!(once, twice);
}

#[test]
fn lexicographic_compare_is_by_code_point() {
    assert!(str_lex_leq(&"a".to_string(), &"b".to_string()));
    assert!(!str_lex_leq(&"b".to_string(), &"a".to_string()));
    assert!(str_lex_leq(&"a".to_string(), &"ab".to_string()));
    assert!(!str_lex_leq(&"ab".to_string(), &"a".to_string()));
    assert!(str_lex_leq(&"".to_string(), &"".to_string()));
    assert!(str_lex_leq(&"Z".to_string(), &"a".to_string()));
    assert!(str_lex_leq(&"same".to_string(), &"same".to_string()));
}

#[test]
fn sort_names_orders_and_keeps_duplicates() {
    let raw = strings(&["b", "a", "ab", ""]);
    assert_eq!(sort_names(raw), strings(&["", "a", "ab", "b"]));
    let dup = strings(&["b", "a", "b"]);
    assert_eq!(sort_names(dup), strings(&["a", "b", "b"]));
}

#[test]
fn schemas_query_is_the_catalog_listing() {
    assert_eq!(
        schemas_query(),
        "SELECT nspname::text FROM pg_namespace WHERE nspname NOT LIKE 'pg_%' AND nspname <> 'information_schema' ORDER BY nspname"
    );
}

#[test]
fn tables_query_interpolates_the_schema() {
    assert_eq!(
        tables_query("public"),
        "SELECT table_name::text FROM information_schema.tables WHERE table_schema = 'public' AND table_type = 'BASE TABLE'"
    );
}

#[test]
fn quote_ident_wraps_and_doubles_quotes() {
    assert_eq!(quote_ident("Game"), "\"Game\"");
    assert_eq!(quote_ident(""), "\"\"");
    assert_eq!(quote_ident("we\"ird"), "\"we\"\"ird\"");
}

#[test]
fn row_query_quotes_both_identifiers() {
    assert_eq!(row_query("public", "Game"), "SELECT * FROM \"public\".\"Game\"");
    assert_eq!(
        row_query("pub\"lic", "Ga\"me"),
        "SELECT * FROM \"pub\"\"lic\".\"Ga\"\"me\""
    );
}

#[test]
fn contains_name_finds_only_listed_names() {
    let listing = strings(&["public", "app"]);
    assert!(contains_name(&listing, &"public".to_string()));
    assert!(contains_name(&listing, &"app".to_string()));
    assert!(!contains_name(&listing, &"Game".to_string()));
    assert!(!contains_name(&Vec::new(), &"public".to_string()));
}
