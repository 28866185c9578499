use crsql_core::backfill::backfill_table;
use crsql_core::errors::CrsqlError;
use crsql_core::state::{ClockEntry, ColDef, ColId, Counters, Db, Row, TableInfo, TableState};
use crsql_core::values::SqlValue;

fn text(s: &str) -> SqlValue {
    SqlValue::Text(s.as_bytes().to_vec())
}

fn db_with(rows: Vec<Row>, non_pk: Vec<ColDef>) -> Db {
    Db {
        tables: vec![TableState {
            info: TableInfo {
                name: "t".to_string(),
                pk_cols: vec!["id".to_string()],
                non_pk_cols: non_pk,
            },
            rows,
            clock: vec![],
            next_rowid: 1,
        }],
        counters: Counters { db_version: 0, seq: 0, rows_impacted: 0 },
    }
}

#[test]
fn backfill_single_row_single_column() {
    // Table t(id PK, v) with one existing row (1, 'x') and no clock rows:
    // backfill produces exactly one clock row (pk=1, col=v, col_version=1).
    let mut db = db_with(
        vec![Row { pk: vec![SqlValue::Integer(1)], vals: vec![text("x")] }],
        vec![ColDef { name: "v".to_string(), dflt: None }],
    );
    backfill_table(&mut db, "t", false).unwrap();
    let clock = &db.tables[0].clock;
    assert_eq!(clock.len(), 1);
    let e = &clock[0];
    assert!(matches!(e.pk[0], SqlValue::Integer(1)));
    assert!(matches!(&e.col, ColId::Col(n) if n == "v"));
    assert_eq!(e.col_version, 1);
    assert!(e.site_id.is_empty());
}

#[test]
fn backfill_twice_adds_nothing() {
    let mut db = db_with(
        vec![
            Row { pk: vec![SqlValue::Integer(1)], vals: vec![text("x"), text("y")] },
            Row { pk: vec![SqlValue::Integer(2)], vals: vec![text("p"), text("q")] },
        ],
        vec![
            ColDef { name: "a".to_string(), dflt: None },
            ColDef { name: "b".to_string(), dflt: None },
        ],
    );
    backfill_table(&mut db, "t", false).unwrap();
    let after_first = db.tables[0].clock.len();
    assert_eq!(after_first, 4);
    let seq_after_first = db.counters.seq;
    backfill_table(&mut db, "t", false).unwrap();
    assert_eq!(db.tables[0].clock.len(), after_first);
    assert_eq!(db.counters.seq, seq_after_first);
}

#[test]
fn backfill_pk_only_table_gets_existence_sentinel() {
    let mut db = db_with(vec![Row { pk: vec![SqlValue::Integer(7)], vals: vec![] }], vec![]);
    backfill_table(&mut db, "t", false).unwrap();
    let clock = &db.tables[0].clock;
    assert_eq!(clock.len(), 1);
    assert!(matches!(clock[0].col, ColId::Exists));
    assert_eq!(clock[0].col_version, 1);
}

#[test]
fn backfill_skips_rows_at_declared_default() {
    // Rows already covered by some entry go through the default-divergence
    // phase: a column value equal to its declared default needs no clock
    // row, a diverged one does.
    let mut db = db_with(
        vec![
            Row { pk: vec![SqlValue::Integer(1)], vals: vec![text("d"), text("u")] },
            Row { pk: vec![SqlValue::Integer(2)], vals: vec![text("z"), text("u")] },
        ],
        vec![
            ColDef { name: "a".to_string(), dflt: Some(text("d")) },
            ColDef { name: "b".to_string(), dflt: None },
        ],
    );
    // Both rows already have an entry for column b, so the row-existence
    // phase leaves them alone and only column a is examined.
    for (i, pk) in [1i64, 2].iter().enumerate() {
        db.tables[0].clock.push(ClockEntry {
            pk: vec![SqlValue::Integer(*pk)],
            col: ColId::Col("b".to_string()),
            col_version: 1,
            db_version: 1,
            site_id: vec![],
            seq: i as i64 + 1,
            rowid: i as i64 + 1,
        });
    }
    db.tables[0].next_rowid = 3;
    db.counters.seq = 2;
    backfill_table(&mut db, "t", false).unwrap();
    let clock = &db.tables[0].clock;
    // Row 1 sits at the default of a: no new entry. Row 2 diverges: one.
    assert_eq!(clock.len(), 3);
    let e = &clock[2];
    assert!(matches!(e.pk[0], SqlValue::Integer(2)));
    assert!(matches!(&e.col, ColId::Col(n) if n == "a"));
    assert_eq!(e.col_version, 1);
}

#[test]
fn backfill_db_version_mode() {
    // A migration-only backfill records the next version; an alter-commit
    // backfill records the current one.
    let mut db = db_with(
        vec![Row { pk: vec![SqlValue::Integer(1)], vals: vec![text("x")] }],
        vec![ColDef { name: "v".to_string(), dflt: None }],
    );
    db.counters.db_version = 5;
    backfill_table(&mut db, "t", false).unwrap();
    assert_eq!(db.tables[0].clock[0].db_version, 6);

    let mut db2 = db_with(
        vec![Row { pk: vec![SqlValue::Integer(1)], vals: vec![text("x")] }],
        vec![ColDef { name: "v".to_string(), dflt: None }],
    );
    db2.counters.db_version = 5;
    backfill_table(&mut db2, "t", true).unwrap();
    assert_eq!(db2.tables[0].clock[0].db_version, 5);
}

#[test]
fn missing_rows_and_columns_report_candidates() {
    let mut db = db_with(
        vec![
            Row { pk: vec![SqlValue::Integer(1)], vals: vec![text("d")] },
            Row { pk: vec![SqlValue::Integer(2)], vals: vec![text("z")] },
        ],
        vec![ColDef { name: "a".to_string(), dflt: Some(text("d")) }],
    );
    // Row 1 already has an entry; row 2 has none at all.
    db.tables[0].clock.push(ClockEntry {
        pk: vec![SqlValue::Integer(1)],
        col: ColId::Col("a".to_string()),
        col_version: 1,
        db_version: 1,
        site_id: vec![],
        seq: 1,
        rowid: 1,
    });
    let t = &db.tables[0];
    let rows = crsql_core::backfill::missing_rows(t);
    assert_eq!(rows, vec![vec![SqlValue::Integer(2)]]);
    // For column a: row 1 is covered, row 2 lacks an entry and diverges
    // from the default.
    let cols = crsql_core::backfill::missing_column(t, 0);
    assert_eq!(cols, vec![vec![SqlValue::Integer(2)]]);
}

#[test]
fn backfill_unknown_table_fails() {
    let mut db = db_with(vec![], vec![]);
    assert_eq!(backfill_table(&mut db, "nope", false), Err(CrsqlError::UnknownTable));
}

#[test]
fn backfill_without_primary_key_fails() {
    let mut db = Db {
        tables: vec![TableState {
            info: TableInfo {
                name: "t".to_string(),
                pk_cols: vec![],
                non_pk_cols: vec![ColDef { name: "v".to_string(), dflt: None }],
            },
            rows: vec![],
            clock: vec![],
            next_rowid: 1,
        }],
        counters: Counters { db_version: 0, seq: 0, rows_impacted: 0 },
    };
    assert_eq!(backfill_table(&mut db, "t", false), Err(CrsqlError::InvalidSchema));
}
