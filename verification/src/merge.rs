use crate::errors::CrsqlError;
use crate::state::{
    can_allocate, clock_index_of, clone_col_id, clone_string, clone_values, col_index_of,
    find_clock_index, find_row_index, find_table_index, lemma_clock_index_of, lemma_col_index_of,
    row_index_of, spec_col_version, spec_has_tombstone, string_equal, table_index_of, wf_db,
    wf_table, ChangeM, ChangeRecord, ClockEntry, ColId, ColM, Counters, CountersM, Db, DbM,
    EntryM, Row, RowM, TableInfo, TableInfoM, TableM, TableState, DELETE_SENTINEL, INSERT_SENTINEL,
    MAX_NAME_LEN, MAX_SITE_ID_LEN,
};
use crate::values::{clone_bytes, clone_value, compare_values, val_cmp, SqlValue, Val};
use vstd::pervasive::VecAdditionalExecFns;
use vstd::prelude::*;

verus! {

/// What one merge returned: either nothing was mutated (the incoming
/// change lost, or was already dominated), or the change was applied and
/// the winner clock entry written.
#[derive(Clone, Copy, Debug, PartialEq, Eq, Structural)]
pub enum MergeOutcome {
    /// The change lost the conflict or was dominated by a tombstone: a
    /// successful no-op.
    NoOp,
    /// The change won and was committed.
    Applied {
        /// Index of the table the change landed in.
        table_index: usize,
        /// Rowid of the winner clock entry within that table's clock
        /// relation.
        clock_rowid: i64,
    },
}

/// Mathematical form of a merge outcome.
pub ghost enum OutcomeM {
    NoOp,
    Applied { table_index: int, clock_rowid: int },
}

impl DeepView for MergeOutcome {
    type V = OutcomeM;

    open spec fn deep_view(&self) -> OutcomeM {
        match self {
            MergeOutcome::NoOp => OutcomeM::NoOp,
            MergeOutcome::Applied { table_index, clock_rowid } => OutcomeM::Applied {
                table_index: *table_index as int,
                clock_rowid: *clock_rowid as int,
            },
        }
    }
}

/// The boundary limits hold: table name and column name are each within
/// the enforced maximum length (counted in characters), and the site id
/// within its maximum byte length.
pub open spec fn bounds_ok(ch: ChangeM) -> bool {
    &&& ch.table.len() <= MAX_NAME_LEN
    &&& ch.col_name.len() <= MAX_NAME_LEN
    &&& ch.site_id.len() <= MAX_SITE_ID_LEN
}

/// The values a freshly inserted row carries for its non-key columns:
/// each column's declared default, or null where none is declared.
pub open spec fn default_row_vals(info: TableInfoM) -> Seq<Val> {
    Seq::new(
        info.non_pk_cols.len(),
        |i: int|
            match info.non_pk_cols[i].dflt {
                Option::Some(v) => v,
                Option::None => Val::Null,
            },
    )
}

/// The clock entry the winner-clock write records: the incoming column
/// version and site id, a `db_version` resolved to the maximum of the next
/// local version and the remote version (so a remote write is never
/// recorded with a more conservative version than a concurrent local one,
/// which would starve the change feed), the next global sequence number
/// and a fresh rowid.
pub open spec fn winner_entry(
    t: TableM,
    cn: CountersM,
    pk: Seq<Val>,
    col: ColM,
    col_version: int,
    db_version: int,
    site_id: Seq<u8>,
) -> EntryM {
    EntryM {
        pk: pk,
        col: col,
        col_version: col_version,
        db_version: if cn.db_version + 1 >= db_version {
            cn.db_version + 1
        } else {
            db_version
        },
        site_id: site_id,
        seq: cn.seq + 1,
        rowid: t.next_rowid,
    }
}

/// Effect of the winner-clock write on the table and the counters: the
/// entry for `(pk, col)` is replaced (or created), the sequence counter
/// and the rowid allocator advance, and the fresh entry's rowid is
/// reported.
pub open spec fn spec_set_winner_clock(
    t: TableM,
    cn: CountersM,
    pk: Seq<Val>,
    col: ColM,
    col_version: int,
    db_version: int,
    site_id: Seq<u8>,
) -> (TableM, CountersM, int) {
    let e = winner_entry(t, cn, pk, col, col_version, db_version, site_id);
    let clock2 = match clock_index_of(t.clock, pk, col) {
        Option::Some(i) => t.clock.remove(i).push(e),
        Option::None => t.clock.push(e),
    };
    (
        TableM { info: t.info, rows: t.rows, clock: clock2, next_rowid: t.next_rowid + 1 },
        CountersM { db_version: cn.db_version, seq: cn.seq + 1, rows_impacted: cn.rows_impacted },
        t.next_rowid,
    )
}

/// Effect of deleting the physical row: a no-op when no row carries the
/// key. Clock entries are never physically deleted.
pub open spec fn spec_delete_row(t: TableM, pk: Seq<Val>) -> TableM {
    match row_index_of(t.rows, pk) {
        Option::Some(i) => TableM {
            info: t.info,
            rows: t.rows.remove(i),
            clock: t.clock,
            next_rowid: t.next_rowid,
        },
        Option::None => t,
    }
}

/// Effect of inserting the primary key idempotently: a no-op when the row
/// already exists, else a fresh row at the declared defaults.
pub open spec fn spec_insert_ignore(t: TableM, pk: Seq<Val>) -> TableM {
    match row_index_of(t.rows, pk) {
        Option::Some(_) => t,
        Option::None => TableM {
            info: t.info,
            rows: t.rows.push(RowM { pk: pk, vals: default_row_vals(t.info) }),
            clock: t.clock,
            next_rowid: t.next_rowid,
        },
    }
}

/// Effect of writing one column value so that it works whether the row
/// exists or not: update in place, or insert a fresh row carrying the
/// value (and defaults elsewhere).
pub open spec fn spec_upsert_col_value(t: TableM, pk: Seq<Val>, ci: int, v: Val) -> TableM {
    match row_index_of(t.rows, pk) {
        Option::Some(i) => TableM {
            info: t.info,
            rows: t.rows.update(i, RowM { pk: t.rows[i].pk, vals: t.rows[i].vals.update(ci, v) }),
            clock: t.clock,
            next_rowid: t.next_rowid,
        },
        Option::None => TableM {
            info: t.info,
            rows: t.rows.push(RowM { pk: pk, vals: default_row_vals(t.info).update(ci, v) }),
            clock: t.clock,
            next_rowid: t.next_rowid,
        },
    }
}

/// The current value of the column at schema index `ci` for the row
/// carrying `pk`, absent when no row does.
pub open spec fn spec_col_value(t: TableM, pk: Seq<Val>, ci: int) -> Option<Val> {
    match row_index_of(t.rows, pk) {
        Option::Some(ri) => Option::Some(t.rows[ri].vals[ci]),
        Option::None => Option::None,
    }
}

/// The last-writer-wins decision for a tracked column, `ci` being the
/// column's index in schema order. The incoming change wins when nothing
/// is recorded locally, or its version is strictly greater, or the
/// versions tie and the incoming value sorts strictly above the current
/// local value in the total order. A missing base row during the
/// tie-break is a hard error: clock and data have desynchronized.
pub open spec fn spec_did_cid_win(t: TableM, ch: ChangeM, ci: int) -> Result<bool, CrsqlError> {
    match spec_col_version(t, ch.pk, ColM::Col(ch.col_name)) {
        Option::None => Result::Ok(true),
        Option::Some(lv) => if ch.col_version > lv {
            Result::Ok(true)
        } else if ch.col_version < lv {
            Result::Ok(false)
        } else {
            match row_index_of(t.rows, ch.pk) {
                Option::None => Result::Err(CrsqlError::MergeConflictLookupFailed),
                Option::Some(ri) => Result::Ok(val_cmp(ch.value, t.rows[ri].vals[ci]) > 0),
            }
        },
    }
}

/// Effect of merging an incoming delete: the physical row goes, and a
/// tombstone is recorded with the incoming clock. Deletes always apply;
/// they carry their own independent clock lineage.
pub open spec fn spec_merge_delete(t: TableM, cn: CountersM, ch: ChangeM) -> (
    TableM,
    CountersM,
    int,
) {
    spec_set_winner_clock(
        spec_delete_row(t, ch.pk),
        cn,
        ch.pk,
        ColM::Tombstone,
        ch.col_version,
        ch.db_version,
        ch.site_id,
    )
}

/// Effect of merging a pk-only marker (or a change for a column unknown
/// locally, tolerated as an existence marker): the key is inserted
/// idempotently and an existence sentinel clock entry is recorded.
pub open spec fn spec_merge_pk_only(t: TableM, cn: CountersM, ch: ChangeM) -> (
    TableM,
    CountersM,
    int,
) {
    spec_set_winner_clock(
        spec_insert_ignore(t, ch.pk),
        cn,
        ch.pk,
        ColM::Exists,
        ch.col_version,
        ch.db_version,
        ch.site_id,
    )
}

/// The impacted-row counter advances once per applied change.
pub open spec fn bump_impacted(cn: CountersM) -> CountersM {
    CountersM {
        db_version: cn.db_version,
        seq: cn.seq,
        rows_impacted: cn.rows_impacted + 1,
    }
}

/// The whole table-level merge decision, in the enforced order: tombstone
/// short-circuit, then incoming delete, then pk-only marker or unknown
/// column, then the general last-writer-wins column case. The reported
/// rowid is that of the winner clock entry, or nothing for a no-op.
pub open spec fn spec_merge_table(t: TableM, cn: CountersM, ch: ChangeM) -> (
    TableM,
    CountersM,
    Result<Option<int>, CrsqlError>,
) {
    if spec_has_tombstone(t, ch.pk) {
        (t, cn, Result::Ok(Option::None))
    } else if ch.col_name == DELETE_SENTINEL@ {
        let (t2, cn2, rid) = spec_merge_delete(t, cn, ch);
        (t2, bump_impacted(cn2), Result::Ok(Option::Some(rid)))
    } else if ch.col_name == INSERT_SENTINEL@ || col_index_of(t.info.non_pk_cols, ch.col_name)
        is None {
        let (t2, cn2, rid) = spec_merge_pk_only(t, cn, ch);
        (t2, bump_impacted(cn2), Result::Ok(Option::Some(rid)))
    } else {
        match col_index_of(t.info.non_pk_cols, ch.col_name) {
            Option::None => (t, cn, Result::Ok(Option::None)),
            Option::Some(ci) => match spec_did_cid_win(t, ch, ci) {
                Result::Err(e) => (t, cn, Result::Err(e)),
                Result::Ok(false) => (t, cn, Result::Ok(Option::None)),
                Result::Ok(true) => {
                    let (t2, cn2, rid) = spec_set_winner_clock(
                        spec_upsert_col_value(t, ch.pk, ci, ch.value),
                        cn,
                        ch.pk,
                        ColM::Col(ch.col_name),
                        ch.col_version,
                        ch.db_version,
                        ch.site_id,
                    );
                    (t2, bump_impacted(cn2), Result::Ok(Option::Some(rid)))
                },
            },
        }
    }
}

/// The whole replica-level merge: boundary limits, then schema
/// resolution, then the table-level decision.
pub open spec fn spec_merge_db(db: DbM, ch: ChangeM) -> (DbM, Result<OutcomeM, CrsqlError>) {
    if !bounds_ok(ch) {
        (db, Result::Err(CrsqlError::PayloadTooLarge))
    } else {
        match table_index_of(db.tables, ch.table) {
            Option::None => (db, Result::Err(CrsqlError::UnknownTable)),
            Option::Some(ti) => {
                let (t2, cn2, r) = spec_merge_table(db.tables[ti], db.counters, ch);
                let db2 = DbM { tables: db.tables.update(ti, t2), counters: cn2 };
                match r {
                    Result::Ok(Option::None) => (db2, Result::Ok(OutcomeM::NoOp)),
                    Result::Ok(Option::Some(rid)) => (
                        db2,
                        Result::Ok(OutcomeM::Applied { table_index: ti, clock_rowid: rid }),
                    ),
                    Result::Err(e) => (db2, Result::Err(e)),
                }
            },
        }
    }
}

/// Room for the one clock write a merge makes, in whichever table the
/// change resolves to.
pub open spec fn merge_can_allocate(db: DbM, ch: ChangeM) -> bool {
    match table_index_of(db.tables, ch.table) {
        Option::Some(ti) => can_allocate(db.tables[ti], db.counters, 1),
        Option::None => true,
    }
}

/// The table- and row-level results agree.
pub open spec fn rid_result_matches(
    r: Result<Option<i64>, CrsqlError>,
    rm: Result<Option<int>, CrsqlError>,
) -> bool {
    match (r, rm) {
        (Result::Ok(Option::Some(a)), Result::Ok(Option::Some(b))) => a as int == b,
        (Result::Ok(Option::None), Result::Ok(Option::None)) => true,
        (Result::Err(e), Result::Err(f)) => e == f,
        _ => false,
    }
}

/// The replica-level results agree.
pub open spec fn outcome_result_matches(
    r: Result<MergeOutcome, CrsqlError>,
    rm: Result<OutcomeM, CrsqlError>,
) -> bool {
    match (r, rm) {
        (Result::Ok(o), Result::Ok(om)) => o.deep_view() == om,
        (Result::Err(e), Result::Err(f)) => e == f,
        _ => false,
    }
}

/// The winner-clock write preserves clock-key uniqueness: the entry it
/// replaces was the only one for `(pk, col)`, and the fresh entry takes
/// its place.
pub(crate) proof fn lemma_wf_set_winner_clock(
    t: TableM,
    cn: CountersM,
    pk: Seq<Val>,
    col: ColM,
    col_version: int,
    db_version: int,
    site_id: Seq<u8>,
)
    requires
        wf_table(t),
    ensures
        wf_table(spec_set_winner_clock(t, cn, pk, col, col_version, db_version, site_id).0),
{
    let e = winner_entry(t, cn, pk, col, col_version, db_version, site_id);
    lemma_clock_index_of(t.clock, pk, col);
    match clock_index_of(t.clock, pk, col) {
        Option::Some(i) => {
            let c2 = t.clock.remove(i).push(e);
            assert forall|a: int, b: int| 0 <= a < b < c2.len() implies !(c2[a].pk == c2[b].pk
                && c2[a].col == c2[b].col) by {
                if b < c2.len() - 1 {
                    let a0 = if a < i {
                        a
                    } else {
                        a + 1
                    };
                    let b0 = if b < i {
                        b
                    } else {
                        b + 1
                    };
                    assert(c2[a] == t.clock[a0]);
                    assert(c2[b] == t.clock[b0]);
                } else {
                    let a0 = if a < i {
                        a
                    } else {
                        a + 1
                    };
                    assert(c2[a] == t.clock[a0]);
                    assert(c2[b] == e);
                    if t.clock[a0].pk == pk && t.clock[a0].col == col {
                        if a0 < i {
                            assert(false);
                        } else {
                            assert(a0 > i);
                            assert(t.clock[i].pk == pk && t.clock[i].col == col);
                            assert(false);
                        }
                    }
                }
            }
        },
        Option::None => {
            let c2 = t.clock.push(e);
            assert forall|a: int, b: int| 0 <= a < b < c2.len() implies !(c2[a].pk == c2[b].pk
                && c2[a].col == c2[b].col) by {
                if b < c2.len() - 1 {
                    assert(c2[a] == t.clock[a]);
                    assert(c2[b] == t.clock[b]);
                } else {
                    assert(c2[a] == t.clock[a]);
                    assert(c2[b] == e);
                }
            }
        },
    }
}

/// Every row-level effect of a merge preserves well-formedness of the
/// table state.
pub(crate) proof fn lemma_wf_row_ops(t: TableM, pk: Seq<Val>, ci: int, v: Val)
    requires
        wf_table(t),
    ensures
        wf_table(spec_delete_row(t, pk)),
        wf_table(spec_insert_ignore(t, pk)),
        0 <= ci < t.info.non_pk_cols.len() ==> wf_table(spec_upsert_col_value(t, pk, ci, v)),
{
    crate::state::lemma_row_index_of(t.rows, pk);
    match row_index_of(t.rows, pk) {
        Option::Some(i) => {
            let r2 = t.rows.remove(i);
            assert forall|a: int, b: int| 0 <= a < b < r2.len() implies r2[a].pk != r2[b].pk by {
                let a0 = if a < i {
                    a
                } else {
                    a + 1
                };
                let b0 = if b < i {
                    b
                } else {
                    b + 1
                };
                assert(r2[a] == t.rows[a0]);
                assert(r2[b] == t.rows[b0]);
            }
            assert forall|k: int| 0 <= k < r2.len() implies r2[k].vals.len()
                == t.info.non_pk_cols.len() by {
                let k0 = if k < i {
                    k
                } else {
                    k + 1
                };
                assert(r2[k] == t.rows[k0]);
            }
            if 0 <= ci < t.info.non_pk_cols.len() {
                let t3 = spec_upsert_col_value(t, pk, ci, v);
                assert forall|a: int, b: int| 0 <= a < b < t3.rows.len() implies t3.rows[a].pk
                    != t3.rows[b].pk by {}
                assert forall|k: int| 0 <= k < t3.rows.len() implies t3.rows[k].vals.len()
                    == t.info.non_pk_cols.len() by {}
            }
        },
        Option::None => {
            let r2 = t.rows.push(RowM { pk: pk, vals: default_row_vals(t.info) });
            assert forall|a: int, b: int| 0 <= a < b < r2.len() implies r2[a].pk != r2[b].pk by {
                if b == r2.len() - 1 {
                    assert(r2[a] == t.rows[a]);
                    assert(r2[b].pk == pk);
                } else {
                    assert(r2[a] == t.rows[a]);
                    assert(r2[b] == t.rows[b]);
                }
            }
            if 0 <= ci < t.info.non_pk_cols.len() {
                let r3 = t.rows.push(RowM { pk: pk, vals: default_row_vals(t.info).update(ci, v) });
                assert forall|a: int, b: int| 0 <= a < b < r3.len() implies r3[a].pk != r3[b].pk by {
                    if b == r3.len() - 1 {
                        assert(r3[a] == t.rows[a]);
                        assert(r3[b].pk == pk);
                    } else {
                        assert(r3[a] == t.rows[a]);
                        assert(r3[b] == t.rows[b]);
                    }
                }
            }
        },
    }
}

/// The whole table-level merge preserves well-formedness.
pub proof fn lemma_wf_merge_table(t: TableM, cn: CountersM, ch: ChangeM)
    requires
        wf_table(t),
    ensures
        wf_table(spec_merge_table(t, cn, ch).0),
{
    lemma_col_index_of(t.info.non_pk_cols, ch.col_name);
    let ci_opt = col_index_of(t.info.non_pk_cols, ch.col_name);
    let ci = match ci_opt {
        Option::Some(ci) => ci,
        Option::None => 0,
    };
    lemma_wf_row_ops(t, ch.pk, ci, ch.value);
    if !spec_has_tombstone(t, ch.pk) {
        if ch.col_name == DELETE_SENTINEL@ {
            lemma_wf_set_winner_clock(
                spec_delete_row(t, ch.pk),
                cn,
                ch.pk,
                ColM::Tombstone,
                ch.col_version,
                ch.db_version,
                ch.site_id,
            );
        } else if ch.col_name == INSERT_SENTINEL@ || ci_opt is None {
            lemma_wf_set_winner_clock(
                spec_insert_ignore(t, ch.pk),
                cn,
                ch.pk,
                ColM::Exists,
                ch.col_version,
                ch.db_version,
                ch.site_id,
            );
        } else {
            match spec_did_cid_win(t, ch, ci) {
                Result::Ok(true) => {
                    lemma_wf_set_winner_clock(
                        spec_upsert_col_value(t, ch.pk, ci, ch.value),
                        cn,
                        ch.pk,
                        ColM::Col(ch.col_name),
                        ch.col_version,
                        ch.db_version,
                        ch.site_id,
                    );
                },
                _ => {},
            }
        }
    }
}

/// Upserts the winner's clock entry for `(pk, col)` and reports the fresh
/// entry's rowid. The recorded `db_version` is the maximum of the next
/// local version and the remote one; the sequence number comes from the
/// shared monotonic counter.
pub fn set_winner_clock(
    t: &mut TableState,
    cn: &mut Counters,
    pk: &Vec<SqlValue>,
    col: &ColId,
    col_version: i64,
    db_version: i64,
    site_id: &Vec<u8>,
) -> (r: i64)
    requires
        can_allocate(old(t).deep_view(), old(cn).deep_view(), 1),
    ensures
        ({
            let (tm, cm, rid) = spec_set_winner_clock(
                old(t).deep_view(),
                old(cn).deep_view(),
                pk.deep_view(),
                col.deep_view(),
                col_version as int,
                db_version as int,
                site_id.deep_view(),
            );
            final(t).deep_view() == tm && final(cn).deep_view() == cm && r as int == rid
        }),
{
    let nd = cn.db_version + 1;
    let resolved = if nd >= db_version {
        nd
    } else {
        db_version
    };
    cn.seq = cn.seq + 1;
    let rid = t.next_rowid;
    let entry = ClockEntry {
        pk: clone_values(pk),
        col: clone_col_id(col),
        col_version: col_version,
        db_version: resolved,
        site_id: clone_bytes(site_id),
        seq: cn.seq,
        rowid: rid,
    };
    let ghost em = winner_entry(
        old(t).deep_view(),
        old(cn).deep_view(),
        pk.deep_view(),
        col.deep_view(),
        col_version as int,
        db_version as int,
        site_id.deep_view(),
    );
    proof {
        assert(entry.deep_view() == em);
    }
    match find_clock_index(&t.clock, pk, col) {
        Option::Some(i) => {
            t.clock.remove(i);
            t.clock.push(entry);
            proof {
                assert(t.clock.deep_view() =~= old(t).clock.deep_view().remove(i as int).push(em));
            }
        },
        Option::None => {
            t.clock.push(entry);
            proof {
                assert(t.clock.deep_view() =~= old(t).clock.deep_view().push(em));
            }
        },
    }
    t.next_rowid = t.next_rowid + 1;
    rid
}

/// Deletes the physical row carrying `pk`, if present. Clock entries are
/// left alone: they are never physically deleted.
pub fn delete_row(t: &mut TableState, pk: &Vec<SqlValue>)
    ensures
        final(t).deep_view() == spec_delete_row(old(t).deep_view(), pk.deep_view()),
{
    match find_row_index(&t.rows, pk) {
        Option::Some(i) => {
            t.rows.remove(i);
            proof {
                assert(t.rows.deep_view() =~= old(t).rows.deep_view().remove(i as int));
            }
        },
        Option::None => {},
    }
}

/// A fresh row's non-key values: each column's declared default, or null.
fn default_row(info: &TableInfo) -> (r: Vec<SqlValue>)
    ensures
        r.deep_view() == default_row_vals(info.deep_view()),
{
    let mut vals: Vec<SqlValue> = Vec::new();
    let mut i: usize = 0;
    while i < info.non_pk_cols.len()
        invariant
            i <= info.non_pk_cols@.len(),
            vals@.len() == i,
            forall|k: int| 0 <= k < i ==> vals@[k].deep_view() == default_row_vals(
                info.deep_view(),
            )[k],
        decreases info.non_pk_cols@.len() - i,
    {
        proof {
            assert(info.deep_view().non_pk_cols[i as int] == info.non_pk_cols@[
                i as int].deep_view());
        }
        match &info.non_pk_cols[i].dflt {
            Option::Some(v) => vals.push(clone_value(v)),
            Option::None => vals.push(SqlValue::Null),
        }
        i = i + 1;
    }
    proof {
        assert(vals.deep_view() =~= default_row_vals(info.deep_view()));
    }
    vals
}

/// Inserts the primary key idempotently: a no-op when a row already
/// carries it, else a fresh row at the declared defaults.
pub fn insert_ignore_row(t: &mut TableState, pk: &Vec<SqlValue>)
    ensures
        final(t).deep_view() == spec_insert_ignore(old(t).deep_view(), pk.deep_view()),
{
    match find_row_index(&t.rows, pk) {
        Option::Some(_) => {},
        Option::None => {
            let vals = default_row(&t.info);
            t.rows.push(Row { pk: clone_values(pk), vals: vals });
            proof {
                assert(t.rows.deep_view() =~= spec_insert_ignore(
                    old(t).deep_view(),
                    pk.deep_view(),
                ).rows);
            }
        },
    }
}

/// Writes one column value so that it works whether the row exists or
/// not: update in place, or insert a fresh row carrying the value.
pub fn upsert_col_value(t: &mut TableState, pk: &Vec<SqlValue>, ci: usize, value: &SqlValue)
    requires
        wf_table(old(t).deep_view()),
        ci < old(t).info.non_pk_cols@.len(),
    ensures
        final(t).deep_view() == spec_upsert_col_value(
            old(t).deep_view(),
            pk.deep_view(),
            ci as int,
            value.deep_view(),
        ),
{
    match find_row_index(&t.rows, pk) {
        Option::Some(i) => {
            proof {
                assert(old(t).deep_view().rows[i as int].vals.len() == old(
                    t,
                ).deep_view().info.non_pk_cols.len());
                assert(old(t).rows@[i as int].deep_view() == old(t).deep_view().rows[i as int]);
            }
            let mut row = t.rows.remove(i);
            proof {
                assert(row.vals@.len() == old(t).deep_view().info.non_pk_cols.len());
            }
            row.vals.set(ci, clone_value(value));
            proof {
                assert(row.deep_view().vals =~= old(t).deep_view().rows[i as int].vals.update(
                    ci as int,
                    value.deep_view(),
                ));
            }
            t.rows.insert(i, row);
            proof {
                assert(t.rows.deep_view() =~= spec_upsert_col_value(
                    old(t).deep_view(),
                    pk.deep_view(),
                    ci as int,
                    value.deep_view(),
                ).rows);
            }
        },
        Option::None => {
            let mut vals = default_row(&t.info);
            proof {
                assert(vals.deep_view() == default_row_vals(old(t).deep_view().info));
                assert(vals@.len() == vals.deep_view().len());
            }
            vals.set(ci, clone_value(value));
            proof {
                assert(vals.deep_view() =~= default_row_vals(old(t).deep_view().info).update(
                    ci as int,
                    value.deep_view(),
                ));
            }
            t.rows.push(Row { pk: clone_values(pk), vals: vals });
            proof {
                assert(t.rows.deep_view() =~= spec_upsert_col_value(
                    old(t).deep_view(),
                    pk.deep_view(),
                    ci as int,
                    value.deep_view(),
                ).rows);
            }
        },
    }
}

/// Decides whether the incoming change for a tracked column beats the
/// local state, without mutating anything. `col_idx` is the column's
/// index in schema order.
pub fn did_cid_win(t: &TableState, change: &ChangeRecord, col_idx: usize) -> (r: Result<
    bool,
    CrsqlError,
>)
    requires
        wf_table(t.deep_view()),
        col_idx < t.info.non_pk_cols@.len(),
    ensures
        r == spec_did_cid_win(t.deep_view(), change.deep_view(), col_idx as int),
{
    let col = ColId::Col(clone_string(&change.col_name));
    match t.local_col_version(&change.pk, &col) {
        Option::None => Result::Ok(true),
        Option::Some(lv) => {
            if change.col_version > lv {
                Result::Ok(true)
            } else if change.col_version < lv {
                Result::Ok(false)
            } else {
                match find_row_index(&t.rows, &change.pk) {
                    Option::None => Result::Err(CrsqlError::MergeConflictLookupFailed),
                    Option::Some(ri) => {
                        proof {
                            crate::state::lemma_row_index_of(
                                t.rows.deep_view(),
                                change.pk.deep_view(),
                            );
                        }
                        let cmp = compare_values(&change.value, &t.rows[ri].vals[col_idx]);
                        Result::Ok(cmp > 0)
                    },
                }
            }
        },
    }
}

/// Merges an incoming delete: removes the physical row, records the
/// tombstone through the winner-clock write, and reports the tombstone
/// entry's rowid.
pub fn merge_delete(t: &mut TableState, cn: &mut Counters, change: &ChangeRecord) -> (r: i64)
    requires
        can_allocate(old(t).deep_view(), old(cn).deep_view(), 1),
    ensures
        ({
            let (tm, cm, rid) = spec_merge_delete(
                old(t).deep_view(),
                old(cn).deep_view(),
                change.deep_view(),
            );
            final(t).deep_view() == tm && final(cn).deep_view() == cm && r as int == rid
        }),
{
    delete_row(t, &change.pk);
    set_winner_clock(
        t,
        cn,
        &change.pk,
        &ColId::Tombstone,
        change.col_version,
        change.db_version,
        &change.site_id,
    )
}

/// Merges a pk-only marker, or a change for a column unknown locally
/// (tolerated as an existence marker under schema drift): inserts the key
/// idempotently and records the existence sentinel clock entry.
pub fn merge_pk_only_insert(t: &mut TableState, cn: &mut Counters, change: &ChangeRecord) -> (r:
    i64)
    requires
        can_allocate(old(t).deep_view(), old(cn).deep_view(), 1),
    ensures
        ({
            let (tm, cm, rid) = spec_merge_pk_only(
                old(t).deep_view(),
                old(cn).deep_view(),
                change.deep_view(),
            );
            final(t).deep_view() == tm && final(cn).deep_view() == cm && r as int == rid
        }),
{
    insert_ignore_row(t, &change.pk);
    set_winner_clock(
        t,
        cn,
        &change.pk,
        &ColId::Exists,
        change.col_version,
        change.db_version,
        &change.site_id,
    )
}

/// The table-level merge: resolves the incoming change against this
/// table's state in the enforced order and commits the winner, reporting
/// the winner clock entry's rowid (or nothing for a no-op).
pub fn merge_into_table(t: &mut TableState, cn: &mut Counters, change: &ChangeRecord) -> (r:
    Result<Option<i64>, CrsqlError>)
    requires
        wf_table(old(t).deep_view()),
        can_allocate(old(t).deep_view(), old(cn).deep_view(), 1),
    ensures
        ({
            let (tm, cm, rm) = spec_merge_table(
                old(t).deep_view(),
                old(cn).deep_view(),
                change.deep_view(),
            );
            final(t).deep_view() == tm && final(cn).deep_view() == cm && rid_result_matches(r, rm)
        }),
        wf_table(final(t).deep_view()),
{
    proof {
        lemma_wf_merge_table(old(t).deep_view(), old(cn).deep_view(), change.deep_view());
    }
    if t.has_delete_tombstone(&change.pk) {
        return Result::Ok(Option::None);
    }
    let del = String::from_str(DELETE_SENTINEL);
    if string_equal(&change.col_name, &del) {
        let rid = merge_delete(t, cn, change);
        cn.rows_impacted = cn.rows_impacted + 1;
        return Result::Ok(Option::Some(rid));
    }
    let ins = String::from_str(INSERT_SENTINEL);
    let col_idx_opt = crate::state::find_col_index(&t.info.non_pk_cols, &change.col_name);
    if string_equal(&change.col_name, &ins) || col_idx_opt.is_none() {
        let rid = merge_pk_only_insert(t, cn, change);
        cn.rows_impacted = cn.rows_impacted + 1;
        return Result::Ok(Option::Some(rid));
    }
    let ci = col_idx_opt.unwrap();
    proof {
        lemma_col_index_of(t.info.non_pk_cols.deep_view(), change.col_name@);
    }
    match did_cid_win(t, change, ci) {
        Result::Err(e) => Result::Err(e),
        Result::Ok(false) => Result::Ok(Option::None),
        Result::Ok(true) => {
            upsert_col_value(t, &change.pk, ci, &change.value);
            let col = ColId::Col(clone_string(&change.col_name));
            let rid = set_winner_clock(
                t,
                cn,
                &change.pk,
                &col,
                change.col_version,
                change.db_version,
                &change.site_id,
            );
            cn.rows_impacted = cn.rows_impacted + 1;
            Result::Ok(Option::Some(rid))
        },
    }
}

/// Merges one incoming remote change record against the replica state.
///
/// The processing order is fixed: boundary limits (`PayloadTooLarge`),
/// schema resolution (`UnknownTable`), tombstone short-circuit (deletion
/// dominates unconditionally), the delete case, the pk-only/unknown-column
/// case, and last the general column case decided by last-writer-wins with
/// the deterministic value tie-break. Losing the conflict is a successful
/// no-op, not an error; winning commits the value and the winner clock
/// entry and advances the impacted-row counter.
pub fn merge_insert(db: &mut Db, change: &ChangeRecord) -> (r: Result<MergeOutcome, CrsqlError>)
    requires
        wf_db(old(db).deep_view()),
        merge_can_allocate(old(db).deep_view(), change.deep_view()),
    ensures
        ({
            let (dm, rm) = spec_merge_db(old(db).deep_view(), change.deep_view());
            final(db).deep_view() == dm && outcome_result_matches(r, rm)
        }),
        wf_db(final(db).deep_view()),
{
    if change.table.as_str().unicode_len() > MAX_NAME_LEN || change.col_name.as_str().unicode_len()
        > MAX_NAME_LEN || change.site_id.len() > MAX_SITE_ID_LEN {
        return Result::Err(CrsqlError::PayloadTooLarge);
    }
    let ti = match find_table_index(&db.tables, &change.table) {
        Option::Some(ti) => ti,
        Option::None => {
            return Result::Err(CrsqlError::UnknownTable);
        },
    };
    let mut t = db.tables.remove(ti);
    proof {
        assert(t.deep_view() == old(db).deep_view().tables[ti as int]);
    }
    let res = merge_into_table(&mut t, &mut db.counters, change);
    db.tables.insert(ti, t);
    proof {
        let (tm, cm, rm) = spec_merge_table(
            old(db).deep_view().tables[ti as int],
            old(db).deep_view().counters,
            change.deep_view(),
        );
        assert(db.tables.deep_view() =~= old(db).deep_view().tables.update(ti as int, tm));
        assert forall|k: int| 0 <= k < db.tables.deep_view().len() implies wf_table(
            db.tables.deep_view()[k],
        ) by {
            if k != ti as int {
                assert(db.tables.deep_view()[k] == old(db).deep_view().tables[k]);
            }
        }
    }
    match res {
        Result::Ok(Option::None) => Result::Ok(MergeOutcome::NoOp),
        Result::Ok(Option::Some(rid)) => Result::Ok(
            MergeOutcome::Applied { table_index: ti, clock_rowid: rid },
        ),
        Result::Err(e) => Result::Err(e),
    }
}

} // verus!
