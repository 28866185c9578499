use crsql_core::changes::{changes_query_for_table, changes_union_query, row_patch_data_query};
use crsql_core::errors::CrsqlError;
use crsql_core::ident::{
    as_identifier_list, binding_list, escape_ident, escape_ident_as_value, where_list,
};
use crsql_core::state::{ColDef, TableInfo};
use crsql_core::values::{compare_values, values_equal, SqlValue};

fn info(name: &str, pks: &[&str], non_pks: &[&str]) -> TableInfo {
    TableInfo {
        name: name.to_string(),
        pk_cols: pks.iter().map(|s| s.to_string()).collect(),
        non_pk_cols: non_pks
            .iter()
            .map(|s| ColDef { name: s.to_string(), dflt: None })
            .collect(),
    }
}

#[test]
fn escape_doubles_quotes() {
    assert_eq!(escape_ident("plain"), "plain");
    assert_eq!(escape_ident("we\"ird"), "we\"\"ird");
    assert_eq!(escape_ident("\"\""), "\"\"\"\"");
    assert_eq!(escape_ident_as_value("it's"), "it''s");
    assert_eq!(escape_ident_as_value("no quotes"), "no quotes");
}

#[test]
fn identifier_list_forms() {
    let cols = vec!["a".to_string(), "b\"b".to_string()];
    assert_eq!(as_identifier_list(&cols, None).unwrap(), "\"a\", \"b\"\"b\"");
    assert_eq!(as_identifier_list(&cols, Some("t1.")).unwrap(), "t1.\"a\", t1.\"b\"\"b\"");
    let none: Vec<String> = vec![];
    assert_eq!(as_identifier_list(&none, None), Err(CrsqlError::InvalidSchema));
}

#[test]
fn where_list_forms() {
    let cols = vec!["id".to_string(), "k".to_string()];
    assert_eq!(where_list(&cols).unwrap(), "\"id\" = ? AND \"k\" = ?");
    let none: Vec<String> = vec![];
    assert_eq!(where_list(&none), Err(CrsqlError::InvalidSchema));
}

#[test]
fn binding_list_forms() {
    assert_eq!(binding_list(0), "");
    assert_eq!(binding_list(1), "?");
    assert_eq!(binding_list(3), "?, ?, ?");
}

#[test]
fn changes_query_for_one_table() {
    let q = changes_query_for_table(&info("todo", &["id"], &["v"])).unwrap();
    assert_eq!(
        q,
        "SELECT 'todo' as tbl, crsql_pack_columns(\"id\") as pks, \
         __crsql_col_name as cid, __crsql_col_version as col_vrsn, \
         __crsql_db_version as db_vrsn, __crsql_site_id as site_id, \
         _rowid_, __crsql_seq as seq FROM \"todo__crsql_clock\""
    );
}

#[test]
fn changes_query_escapes_names() {
    let q = changes_query_for_table(&info("o'd\"d", &["id"], &[])).unwrap();
    assert!(q.starts_with("SELECT 'o''d\"d' as tbl"));
    assert!(q.ends_with("FROM \"o'd\"\"d__crsql_clock\""));
}

#[test]
fn changes_union_query_joins_tables() {
    let infos = vec![info("a", &["id"], &[]), info("b", &["x", "y"], &[])];
    let q = changes_union_query(&infos, "ORDER BY db_vrsn, seq").unwrap();
    let sub_a = changes_query_for_table(&infos[0]).unwrap();
    let sub_b = changes_query_for_table(&infos[1]).unwrap();
    assert_eq!(
        q,
        format!(
            "SELECT tbl, pks, cid, col_vrsn, db_vrsn, site_id, _rowid_, seq FROM ({} UNION ALL {}) ORDER BY db_vrsn, seq",
            sub_a, sub_b
        )
    );
}

#[test]
fn changes_union_query_requires_primary_keys() {
    let infos = vec![info("a", &["id"], &[]), info("nopk", &[], &["v"])];
    assert_eq!(changes_union_query(&infos, ""), Err(CrsqlError::NoPrimaryKey));
}

#[test]
fn row_patch_query_forms() {
    let q = row_patch_data_query(&info("t", &["id"], &["v"]), "v").unwrap();
    assert_eq!(q, "SELECT \"v\" FROM \"t\" WHERE \"id\" = ?");
    assert!(row_patch_data_query(&info("t", &[], &["v"]), "v").is_none());
}

#[test]
fn value_order_is_total_and_typed() {
    let null = SqlValue::Null;
    let int_small = SqlValue::Integer(-4);
    let int_big = SqlValue::Integer(100);
    let text_a = SqlValue::Text(b"a".to_vec());
    let text_b = SqlValue::Text(b"ab".to_vec());
    let blob = SqlValue::Blob(b"\x00".to_vec());
    // Type classes: null < integer < text < blob.
    assert_eq!(compare_values(&null, &int_small), -1);
    assert_eq!(compare_values(&int_big, &text_a), -1);
    assert_eq!(compare_values(&text_b, &blob), -1);
    assert_eq!(compare_values(&blob, &null), 1);
    // Within a class: magnitude, then byte-wise prefix order.
    assert_eq!(compare_values(&int_small, &int_big), -1);
    assert_eq!(compare_values(&text_a, &text_b), -1);
    assert_eq!(compare_values(&text_b, &text_a), 1);
    assert_eq!(compare_values(&text_a, &SqlValue::Text(b"a".to_vec())), 0);
    assert!(values_equal(&text_a, &SqlValue::Text(b"a".to_vec())));
    assert!(!values_equal(&text_a, &text_b));
}

#[test]
fn error_messages_name_their_cause() {
    assert_eq!(CrsqlError::UnknownTable.message(), "table is not tracked by this replica");
    assert_eq!(CrsqlError::NoPrimaryKey.message(), "table has no primary key");
}
