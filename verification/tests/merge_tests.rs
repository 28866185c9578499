use crsql_core::errors::CrsqlError;
use crsql_core::merge::{merge_insert, MergeOutcome};
use crsql_core::state::{
    ChangeRecord, ClockEntry, ColDef, ColId, Counters, Db, Row, TableInfo, TableState,
};
use crsql_core::values::SqlValue;

fn text(s: &str) -> SqlValue {
    SqlValue::Text(s.as_bytes().to_vec())
}

fn one_col_table() -> Db {
    Db {
        tables: vec![TableState {
            info: TableInfo {
                name: "t".to_string(),
                pk_cols: vec!["id".to_string()],
                non_pk_cols: vec![ColDef { name: "v".to_string(), dflt: None }],
            },
            rows: vec![],
            clock: vec![],
            next_rowid: 1,
        }],
        counters: Counters { db_version: 0, seq: 0, rows_impacted: 0 },
    }
}

fn change(col: &str, ver: i64, val: SqlValue) -> ChangeRecord {
    ChangeRecord {
        table: "t".to_string(),
        pk: vec![SqlValue::Integer(1)],
        col_name: col.to_string(),
        col_version: ver,
        db_version: 1,
        site_id: vec![7u8; 16],
        value: val,
    }
}

fn local_value(db: &Db) -> Option<SqlValue> {
    let t = &db.tables[0];
    for r in &t.rows {
        if matches!(r.pk[0], SqlValue::Integer(1)) {
            return Some(r.vals[0].clone());
        }
    }
    None
}

fn clock_version(db: &Db, col: &str) -> Option<i64> {
    let t = &db.tables[0];
    for e in &t.clock {
        if let ColId::Col(name) = &e.col {
            if name == col && matches!(e.pk[0], SqlValue::Integer(1)) {
                return Some(e.col_version);
            }
        }
    }
    None
}

#[test]
fn remote_higher_version_wins() {
    // Local row (1, 'a') at col_version 1; remote 'b' at col_version 2 wins.
    let mut db = one_col_table();
    db.tables[0].rows.push(Row { pk: vec![SqlValue::Integer(1)], vals: vec![text("a")] });
    db.tables[0].clock.push(ClockEntry {
        pk: vec![SqlValue::Integer(1)],
        col: ColId::Col("v".to_string()),
        col_version: 1,
        db_version: 1,
        site_id: vec![],
        seq: 1,
        rowid: 1,
    });
    db.tables[0].next_rowid = 2;
    db.counters.seq = 1;
    let r = merge_insert(&mut db, &change("v", 2, text("b")));
    assert!(matches!(r, Ok(MergeOutcome::Applied { .. })));
    assert_eq!(local_value(&db), Some(text("b")));
    assert_eq!(clock_version(&db, "v"), Some(2));
    assert_eq!(db.counters.rows_impacted, 1);
}

#[test]
fn remote_lower_version_loses() {
    let mut db = one_col_table();
    db.tables[0].rows.push(Row { pk: vec![SqlValue::Integer(1)], vals: vec![text("a")] });
    db.tables[0].clock.push(ClockEntry {
        pk: vec![SqlValue::Integer(1)],
        col: ColId::Col("v".to_string()),
        col_version: 5,
        db_version: 1,
        site_id: vec![],
        seq: 1,
        rowid: 1,
    });
    db.tables[0].next_rowid = 2;
    db.counters.seq = 1;
    let r = merge_insert(&mut db, &change("v", 2, text("b")));
    assert!(matches!(r, Ok(MergeOutcome::NoOp)));
    assert_eq!(local_value(&db), Some(text("a")));
    assert_eq!(clock_version(&db, "v"), Some(5));
    assert_eq!(db.counters.rows_impacted, 0);
}

#[test]
fn equal_version_value_tiebreak() {
    // Both at col_version 3: remote 'z' beats local 'a'; remote 'a' loses to
    // local 'z'.
    let mut db = one_col_table();
    db.tables[0].rows.push(Row { pk: vec![SqlValue::Integer(1)], vals: vec![text("a")] });
    db.tables[0].clock.push(ClockEntry {
        pk: vec![SqlValue::Integer(1)],
        col: ColId::Col("v".to_string()),
        col_version: 3,
        db_version: 1,
        site_id: vec![],
        seq: 1,
        rowid: 1,
    });
    db.tables[0].next_rowid = 2;
    db.counters.seq = 1;
    let r = merge_insert(&mut db, &change("v", 3, text("z")));
    assert!(matches!(r, Ok(MergeOutcome::Applied { .. })));
    assert_eq!(local_value(&db), Some(text("z")));
    assert_eq!(clock_version(&db, "v"), Some(3));

    // Reverse: incoming 'a' against current 'z' at the same version loses.
    let r2 = merge_insert(&mut db, &change("v", 3, text("a")));
    assert!(matches!(r2, Ok(MergeOutcome::NoOp)));
    assert_eq!(local_value(&db), Some(text("z")));
}

#[test]
fn delete_then_insert_dropped() {
    // Remote delete for a pk with no clock rows: row deleted (no-op if
    // absent), tombstone recorded; a later remote insert is dropped.
    let mut db = one_col_table();
    let del = ChangeRecord { col_name: "__crsql_del".to_string(), ..change("v", 1, SqlValue::Null) };
    let r = merge_insert(&mut db, &del);
    assert!(matches!(r, Ok(MergeOutcome::Applied { .. })));
    assert!(db.tables[0].rows.is_empty());
    assert!(db.tables[0]
        .clock
        .iter()
        .any(|e| matches!(e.col, ColId::Tombstone) && matches!(e.pk[0], SqlValue::Integer(1))));

    let ins = ChangeRecord {
        col_name: "__crsql_pko".to_string(),
        ..change("v", 2, SqlValue::Null)
    };
    let r2 = merge_insert(&mut db, &ins);
    assert!(matches!(r2, Ok(MergeOutcome::NoOp)));
    assert!(db.tables[0].rows.is_empty());

    // A repeated delete is idempotent: dominated by the tombstone.
    let r3 = merge_insert(&mut db, &del);
    assert!(matches!(r3, Ok(MergeOutcome::NoOp)));
}

#[test]
fn delete_removes_existing_row() {
    let mut db = one_col_table();
    db.tables[0].rows.push(Row { pk: vec![SqlValue::Integer(1)], vals: vec![text("a")] });
    let del = ChangeRecord { col_name: "__crsql_del".to_string(), ..change("v", 1, SqlValue::Null) };
    let r = merge_insert(&mut db, &del);
    assert!(matches!(r, Ok(MergeOutcome::Applied { .. })));
    assert!(db.tables[0].rows.is_empty());
    // The old clock entries are never physically deleted; only the row goes.
    assert!(db.tables[0].clock.iter().any(|e| matches!(e.col, ColId::Tombstone)));
}

#[test]
fn no_local_entry_remote_wins_and_creates_row() {
    let mut db = one_col_table();
    let r = merge_insert(&mut db, &change("v", 1, text("b")));
    assert!(matches!(r, Ok(MergeOutcome::Applied { .. })));
    assert_eq!(local_value(&db), Some(text("b")));
    assert_eq!(clock_version(&db, "v"), Some(1));
}

#[test]
fn pk_only_marker_inserts_row_with_defaults() {
    let mut db = one_col_table();
    db.tables[0].info.non_pk_cols[0].dflt = Some(text("d"));
    let ins = ChangeRecord {
        col_name: "__crsql_pko".to_string(),
        ..change("v", 1, SqlValue::Null)
    };
    let r = merge_insert(&mut db, &ins);
    assert!(matches!(r, Ok(MergeOutcome::Applied { .. })));
    assert_eq!(local_value(&db), Some(text("d")));
    assert!(db.tables[0].clock.iter().any(|e| matches!(e.col, ColId::Exists)));
}

#[test]
fn unknown_column_treated_as_existence_marker() {
    // Schema drift tolerance: a change for a column this replica does not
    // know is accepted as an existence marker, not rejected.
    let mut db = one_col_table();
    let r = merge_insert(&mut db, &change("w", 4, text("b")));
    assert!(matches!(r, Ok(MergeOutcome::Applied { .. })));
    assert!(db.tables[0].clock.iter().any(|e| matches!(e.col, ColId::Exists)));
    assert!(clock_version(&db, "w").is_none());
}

#[test]
fn unknown_table_rejected() {
    let mut db = one_col_table();
    let ch = ChangeRecord { table: "nope".to_string(), ..change("v", 1, text("b")) };
    assert_eq!(merge_insert(&mut db, &ch), Err(CrsqlError::UnknownTable));
}

#[test]
fn oversized_names_rejected() {
    let mut db = one_col_table();
    let long = "x".repeat(1025);
    let ch = ChangeRecord { table: long.clone(), ..change("v", 1, text("b")) };
    assert_eq!(merge_insert(&mut db, &ch), Err(CrsqlError::PayloadTooLarge));
    let ch2 = ChangeRecord { col_name: long, ..change("v", 1, text("b")) };
    assert_eq!(merge_insert(&mut db, &ch2), Err(CrsqlError::PayloadTooLarge));
    let ch3 = ChangeRecord { site_id: vec![0u8; 17], ..change("v", 1, text("b")) };
    assert_eq!(merge_insert(&mut db, &ch3), Err(CrsqlError::PayloadTooLarge));
    // Nothing was mutated by the rejected records.
    assert!(db.tables[0].clock.is_empty());
}

#[test]
fn desync_tiebreak_is_hard_error() {
    // A clock entry exists for the column but the base row is missing: the
    // equal-version tie-break cannot read the current value.
    let mut db = one_col_table();
    db.tables[0].clock.push(ClockEntry {
        pk: vec![SqlValue::Integer(1)],
        col: ColId::Col("v".to_string()),
        col_version: 3,
        db_version: 1,
        site_id: vec![],
        seq: 1,
        rowid: 1,
    });
    db.tables[0].next_rowid = 2;
    db.counters.seq = 1;
    let r = merge_insert(&mut db, &change("v", 3, text("z")));
    assert_eq!(r, Err(CrsqlError::MergeConflictLookupFailed));
}

#[test]
fn winner_clock_db_version_is_max_of_next_and_remote() {
    // Local next db_version is 1; a remote change carrying db_version 9 is
    // recorded at 9, and one carrying 0 is recorded at the local next.
    let mut db = one_col_table();
    let mut ch = change("v", 1, text("b"));
    ch.db_version = 9;
    merge_insert(&mut db, &ch).unwrap();
    let e = &db.tables[0].clock[0];
    assert_eq!(e.db_version, 9);

    let mut db2 = one_col_table();
    let mut ch2 = change("v", 1, text("b"));
    ch2.db_version = 0;
    merge_insert(&mut db2, &ch2).unwrap();
    assert_eq!(db2.tables[0].clock[0].db_version, 1);
}

#[test]
fn seq_and_rowid_advance_per_applied_change() {
    let mut db = one_col_table();
    merge_insert(&mut db, &change("v", 1, text("a"))).unwrap();
    let seq1 = db.tables[0].clock[0].seq;
    merge_insert(&mut db, &change("v", 2, text("b"))).unwrap();
    let seq2 = db.tables[0].clock[0].seq;
    assert!(seq2 > seq1);
    assert_eq!(db.counters.seq, 2);
    assert_eq!(db.tables[0].next_rowid, 3);
}

#[test]
fn winner_clock_records_incoming_site_and_version() {
    let mut db = one_col_table();
    merge_insert(&mut db, &change("v", 1, text("b"))).unwrap();
    let e = &db.tables[0].clock[0];
    assert_eq!(e.site_id, vec![7u8; 16]);
    assert_eq!(e.col_version, 1);
    assert_eq!(e.seq, 1);
    assert_eq!(e.rowid, 1);
    assert!(matches!(&e.col, ColId::Col(n) if n == "v"));
}

#[test]
fn convergence_on_concrete_pair() {
    // The same two concurrent writes merge to the same value and version in
    // either order.
    let c1 = change("v", 4, text("mm"));
    let c2 = change("v", 4, text("zz"));
    let mut a = one_col_table();
    merge_insert(&mut a, &c1).unwrap();
    merge_insert(&mut a, &c2).unwrap();
    let mut b = one_col_table();
    merge_insert(&mut b, &c2).unwrap();
    merge_insert(&mut b, &c1).unwrap();
    assert_eq!(local_value(&a), local_value(&b));
    assert_eq!(clock_version(&a, "v"), clock_version(&b, "v"));
    assert_eq!(local_value(&a), Some(text("zz")));
}
