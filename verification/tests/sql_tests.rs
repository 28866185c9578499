use crsql_core::errors::CrsqlError;
use crsql_core::sql::{
    backfill_insert_sql, backfill_select_sql, col_version_sql, fill_column_select_sql,
    local_delete_check_sql, merge_delete_sql, merge_upsert_sql, pk_only_insert_sql,
    winner_clock_sql,
};
use crsql_core::stmt_cache::{get_cache_key, CachedStmtType, StmtCache};

fn pks(names: &[&str]) -> Vec<String> {
    names.iter().map(|s| s.to_string()).collect()
}

#[test]
fn col_version_statement() {
    let q = col_version_sql("t", &pks(&["id"])).unwrap();
    assert_eq!(
        q,
        "SELECT __crsql_col_version FROM \"t__crsql_clock\" WHERE \"id\" = ? \
         AND ? = __crsql_col_name"
    );
    assert_eq!(col_version_sql("t", &pks(&[])), Err(CrsqlError::InvalidSchema));
}

#[test]
fn local_delete_check_statement() {
    let q = local_delete_check_sql("t", &pks(&["a", "b"])).unwrap();
    assert_eq!(
        q,
        "SELECT 1 FROM \"t__crsql_clock\" WHERE \"a\" = ? AND \"b\" = ? \
         AND __crsql_col_name = '__crsql_del' LIMIT 1"
    );
}

#[test]
fn winner_clock_statement() {
    let q = winner_clock_sql("t", &pks(&["id"])).unwrap();
    assert_eq!(
        q,
        "INSERT OR REPLACE INTO \"t__crsql_clock\" (\"id\", __crsql_col_name, \
         __crsql_col_version, __crsql_db_version, __crsql_seq, __crsql_site_id) \
         VALUES (?, ?, ?, MAX(crsql_nextdbversion(), ?), \
         crsql_increment_and_get_seq(), ?) RETURNING _rowid_"
    );
}

#[test]
fn pk_only_insert_statement() {
    let q = pk_only_insert_sql("t", &pks(&["a", "b"])).unwrap();
    assert_eq!(q, "INSERT OR IGNORE INTO \"t\" (\"a\", \"b\") VALUES (?, ?)");
}

#[test]
fn merge_delete_statement() {
    let q = merge_delete_sql("t", &pks(&["id"])).unwrap();
    assert_eq!(q, "DELETE FROM \"t\" WHERE \"id\" = ?");
}

#[test]
fn merge_upsert_statement() {
    let q = merge_upsert_sql("t", &pks(&["id"]), "v").unwrap();
    assert_eq!(
        q,
        "INSERT INTO \"t\" (\"id\", \"v\") VALUES (?, ?) \
         ON CONFLICT DO UPDATE SET \"v\" = ?"
    );
}

#[test]
fn merge_upsert_escapes_hostile_names() {
    let q = merge_upsert_sql("t\"x", &pks(&["id"]), "v\"y").unwrap();
    assert_eq!(
        q,
        "INSERT INTO \"t\"\"x\" (\"id\", \"v\"\"y\") VALUES (?, ?) \
         ON CONFLICT DO UPDATE SET \"v\"\"y\" = ?"
    );
}

#[test]
fn backfill_select_statement() {
    let q = backfill_select_sql("t", &pks(&["a", "b"])).unwrap();
    assert_eq!(
        q,
        "SELECT t1.\"a\", t1.\"b\" FROM \"t\" AS t1 WHERE NOT EXISTS \
         (SELECT 1 FROM \"t__crsql_clock\" AS t2 WHERE \
         t1.\"a\" IS t2.\"a\" AND t1.\"b\" IS t2.\"b\")"
    );
}

#[test]
fn backfill_insert_statement_version_getter() {
    let q = backfill_insert_sql("t", &pks(&["id"]), false).unwrap();
    assert_eq!(
        q,
        "INSERT INTO \"t__crsql_clock\" (\"id\", __crsql_col_name, __crsql_col_version, \
         __crsql_db_version, __crsql_seq) VALUES (?, ?, 1, crsql_nextdbversion(), \
         crsql_increment_and_get_seq())"
    );
    let q2 = backfill_insert_sql("t", &pks(&["id"]), true).unwrap();
    assert!(q2.contains("crsql_dbversion()"));
    assert!(!q2.contains("crsql_nextdbversion()"));
}

#[test]
fn fill_column_select_statement() {
    let q = fill_column_select_sql("t", &pks(&["id"]), "v", None).unwrap();
    assert_eq!(
        q,
        "SELECT t1.\"id\" FROM \"t\" AS t1 LEFT JOIN \"t__crsql_clock\" AS t2 \
         ON t1.\"id\" = t2.\"id\" AND t2.__crsql_col_name = ? \
         WHERE t2.\"id\" IS NULL"
    );
    let q2 = fill_column_select_sql("t", &pks(&["id"]), "v", Some("'x'")).unwrap();
    assert!(q2.ends_with("WHERE t2.\"id\" IS NULL AND t1.\"v\" IS NOT 'x'"));
}

#[test]
fn cache_keys_distinguish_kind_table_and_column() {
    let a = get_cache_key(CachedStmtType::GetColVersion, "t", None);
    let b = get_cache_key(CachedStmtType::GetCurrValue, "t", Some("v"));
    let c = get_cache_key(CachedStmtType::GetCurrValue, "t", Some("w"));
    assert_eq!(a, "get_col_version_t");
    assert_eq!(b, "get_curr_value_t_v");
    assert_ne!(b, c);
}

#[test]
fn statement_cache_compiles_once() {
    let mut cache = StmtCache::new();
    let key = get_cache_key(CachedStmtType::MergeDelete, "t", None);
    let sql = merge_delete_sql("t", &pks(&["id"])).unwrap();
    let first = cache.get_cached_stmt_rt_wt(key.clone(), sql.clone());
    assert_eq!(first, sql);
    // A second request for the same key returns the cached text, even if a
    // different fresh text is offered.
    let second = cache.get_cached_stmt_rt_wt(key.clone(), "SELECT 0".to_string());
    assert_eq!(second, sql);
    assert_eq!(cache.entries.len(), 1);
    assert_eq!(cache.get(&key), Some(sql));
}
