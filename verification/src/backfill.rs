use crate::errors::CrsqlError;
use crate::state::{
    can_allocate, clock_index_of, clone_col_id, clone_string, clone_values, find_clock_index,
    find_table_index, lemma_clock_index_of, pk_equal, table_index_of, wf_db, wf_table, ClockEntry,
    ColId, ColM, Counters, CountersM, Db, DbM, EntryM, TableInfoM, TableM, TableState,
};
use crate::values::{values_equal, SqlValue, Val};
use vstd::prelude::*;

verus! {

/// Distinct non-key column names: what a relational schema guarantees of
/// any real table, and what keeps backfilled clock entries unique.
pub open spec fn wf_info(info: TableInfoM) -> bool {
    forall|a: int, b: int|
        0 <= a < b < info.non_pk_cols.len() ==> info.non_pk_cols[a].name != info.non_pk_cols[b].name
}

/// Some clock entry (for any column) exists for the primary key.
pub open spec fn has_pk_entry(clock: Seq<EntryM>, pk: Seq<Val>) -> bool {
    exists|k: int| 0 <= k < clock.len() && clock[k].pk == pk
}

/// How many clock entries the row-existence backfill synthesizes per
/// uncovered row: one per non-key column, or a single existence sentinel
/// for a table of key columns only.
pub open spec fn row_backfill_count(info: TableInfoM) -> int {
    if info.non_pk_cols.len() == 0 {
        1
    } else {
        info.non_pk_cols.len() as int
    }
}

/// The batch of clock entries synthesized for one uncovered row: every
/// entry at `col_version` 1, the backfill's `db_version`, the local (empty)
/// site id, and consecutive sequence numbers and rowids.
pub open spec fn row_backfill_cols(
    info: TableInfoM,
    pk: Seq<Val>,
    dv: int,
    seq0: int,
    rid0: int,
) -> Seq<EntryM> {
    if info.non_pk_cols.len() == 0 {
        seq![
            EntryM {
                pk: pk,
                col: ColM::Exists,
                col_version: 1,
                db_version: dv,
                site_id: Seq::empty(),
                seq: seq0 + 1,
                rowid: rid0,
            },
        ]
    } else {
        Seq::new(
            info.non_pk_cols.len(),
            |j: int|
                EntryM {
                    pk: pk,
                    col: ColM::Col(info.non_pk_cols[j].name),
                    col_version: 1,
                    db_version: dv,
                    site_id: Seq::empty(),
                    seq: seq0 + 1 + j,
                    rowid: rid0 + j,
                },
        )
    }
}

/// Effect of the row-existence backfill on one candidate row: rows that
/// already have any clock entry are left alone, the rest get one entry
/// per non-key column (or the existence sentinel).
pub open spec fn spec_backfill_row(t: TableM, cn: CountersM, pk: Seq<Val>, dv: int) -> (
    TableM,
    CountersM,
) {
    if has_pk_entry(t.clock, pk) {
        (t, cn)
    } else {
        let n = row_backfill_count(t.info);
        (
            TableM {
                info: t.info,
                rows: t.rows,
                clock: t.clock + row_backfill_cols(t.info, pk, dv, cn.seq, t.next_rowid),
                next_rowid: t.next_rowid + n,
            },
            CountersM { db_version: cn.db_version, seq: cn.seq + n, rows_impacted: cn.rows_impacted },
        )
    }
}

/// The row-existence backfill applied to the first `i` rows, in order.
pub open spec fn spec_backfill_rows_upto(t0: TableM, cn0: CountersM, dv: int, i: int) -> (
    TableM,
    CountersM,
)
    decreases i,
{
    if i <= 0 {
        (t0, cn0)
    } else {
        let (t1, cn1) = spec_backfill_rows_upto(t0, cn0, dv, i - 1);
        spec_backfill_row(t1, cn1, t0.rows[i - 1].pk, dv)
    }
}

/// The default-divergence condition: row `i` lacks a clock entry for
/// column `j`, and its current value is distinguishable from the column's
/// declared default (or no default is declared).
pub open spec fn needs_col_backfill(t: TableM, j: int, i: int) -> bool {
    &&& clock_index_of(t.clock, t.rows[i].pk, ColM::Col(t.info.non_pk_cols[j].name)) is None
    &&& match t.info.non_pk_cols[j].dflt {
        Option::None => true,
        Option::Some(d) => t.rows[i].vals[j] != d,
    }
}

/// Effect of the default-divergence backfill on one (column, row) pair.
pub open spec fn spec_fill_col_row(t: TableM, cn: CountersM, dv: int, j: int, i: int) -> (
    TableM,
    CountersM,
) {
    if needs_col_backfill(t, j, i) {
        (
            TableM {
                info: t.info,
                rows: t.rows,
                clock: t.clock.push(
                    EntryM {
                        pk: t.rows[i].pk,
                        col: ColM::Col(t.info.non_pk_cols[j].name),
                        col_version: 1,
                        db_version: dv,
                        site_id: Seq::empty(),
                        seq: cn.seq + 1,
                        rowid: t.next_rowid,
                    },
                ),
                next_rowid: t.next_rowid + 1,
            },
            CountersM { db_version: cn.db_version, seq: cn.seq + 1, rows_impacted: cn.rows_impacted },
        )
    } else {
        (t, cn)
    }
}

/// The default-divergence backfill for column `j` applied to the first
/// `i` rows, in order.
pub open spec fn spec_fill_col_upto(t0: TableM, cn0: CountersM, dv: int, j: int, i: int) -> (
    TableM,
    CountersM,
)
    decreases i,
{
    if i <= 0 {
        (t0, cn0)
    } else {
        let (t1, cn1) = spec_fill_col_upto(t0, cn0, dv, j, i - 1);
        spec_fill_col_row(t1, cn1, dv, j, i - 1)
    }
}

/// The default-divergence backfill applied to the first `j` columns, in
/// schema order, each over every row.
pub open spec fn spec_backfill_cols_upto(t0: TableM, cn0: CountersM, dv: int, j: int) -> (
    TableM,
    CountersM,
)
    decreases j,
{
    if j <= 0 {
        (t0, cn0)
    } else {
        let (t1, cn1) = spec_backfill_cols_upto(t0, cn0, dv, j - 1);
        spec_fill_col_upto(t1, cn1, dv, j - 1, t1.rows.len() as int)
    }
}

/// The `db_version` recorded by backfilled entries: the current version
/// when the backfill is part of a schema-alter commit (the alter itself
/// owns the version), the next version otherwise — a pure migration must
/// not manufacture a new causally visible version, since peers re-derive
/// the same state by applying the same migration.
pub open spec fn backfill_db_version(cn: CountersM, is_commit_alter: bool) -> int {
    if is_commit_alter {
        cn.db_version
    } else {
        cn.db_version + 1
    }
}

/// The whole backfill of one table: the row-existence phase over every
/// row, then the default-divergence phase over every column.
pub open spec fn spec_backfill_table(t: TableM, cn: CountersM, is_commit_alter: bool) -> (
    TableM,
    CountersM,
) {
    let dv = backfill_db_version(cn, is_commit_alter);
    let (t1, cn1) = spec_backfill_rows_upto(t, cn, dv, t.rows.len() as int);
    spec_backfill_cols_upto(t1, cn1, dv, t1.info.non_pk_cols.len() as int)
}

/// The replica-level backfill: resolves the table, rejects a schema
/// without primary keys, and otherwise runs the two phases atomically.
pub open spec fn spec_backfill_db(db: DbM, name: Seq<char>, is_commit_alter: bool) -> (
    DbM,
    Result<(), CrsqlError>,
) {
    match table_index_of(db.tables, name) {
        Option::None => (db, Result::Err(CrsqlError::UnknownTable)),
        Option::Some(ti) => if db.tables[ti].info.pk_cols.len() == 0 {
            (db, Result::Err(CrsqlError::InvalidSchema))
        } else {
            let (t2, cn2) = spec_backfill_table(db.tables[ti], db.counters, is_commit_alter);
            (DbM { tables: db.tables.update(ti, t2), counters: cn2 }, Result::Ok(()))
        },
    }
}

/// An upper bound on how many clock entries one backfill can synthesize.
pub open spec fn backfill_alloc_bound(t: TableM) -> int {
    t.rows.len() * row_backfill_count(t.info) + t.info.non_pk_cols.len() * t.rows.len()
}

/// Room for every clock write the backfill of the named table can make.
pub open spec fn backfill_can_allocate(db: DbM, name: Seq<char>) -> bool {
    match table_index_of(db.tables, name) {
        Option::Some(ti) => can_allocate(
            db.tables[ti],
            db.counters,
            backfill_alloc_bound(db.tables[ti]),
        ),
        Option::None => true,
    }
}

/// The named table's schema has distinct non-key column names.
pub open spec fn backfill_schema_ok(db: DbM, name: Seq<char>) -> bool {
    match table_index_of(db.tables, name) {
        Option::Some(ti) => wf_info(db.tables[ti].info),
        Option::None => true,
    }
}

/// One row-existence step: preserves well-formedness, schema, rows and
/// the version counter, and consumes between zero and `row_backfill_count`
/// allocations.
pub(crate) proof fn lemma_backfill_row(t: TableM, cn: CountersM, pk: Seq<Val>, dv: int)
    requires
        wf_table(t),
        wf_info(t.info),
    ensures
        ({
            let (t2, cn2) = spec_backfill_row(t, cn, pk, dv);
            &&& wf_table(t2)
            &&& t2.info == t.info
            &&& t2.rows == t.rows
            &&& cn2.db_version == cn.db_version
            &&& cn2.rows_impacted == cn.rows_impacted
            &&& cn2.seq - cn.seq == t2.next_rowid - t.next_rowid
            &&& 0 <= cn2.seq - cn.seq <= row_backfill_count(t.info)
            &&& forall|k: int|
                0 <= k < t.clock.len() ==> t2.clock[k] == t.clock[k]
            &&& t.clock.len() <= t2.clock.len()
        }),
{
    if !has_pk_entry(t.clock, pk) {
        let batch = row_backfill_cols(t.info, pk, dv, cn.seq, t.next_rowid);
        let c2 = t.clock + batch;
        assert forall|a: int, b: int| 0 <= a < b < c2.len() implies !(c2[a].pk == c2[b].pk
            && c2[a].col == c2[b].col) by {
            if b < t.clock.len() {
                assert(c2[a] == t.clock[a]);
                assert(c2[b] == t.clock[b]);
            } else if a < t.clock.len() {
                assert(c2[a] == t.clock[a]);
                assert(c2[b] == batch[b - t.clock.len()]);
                assert(c2[b].pk == pk);
                if c2[a].pk == pk {
                    assert(has_pk_entry(t.clock, pk));
                }
            } else {
                assert(c2[a] == batch[a - t.clock.len()]);
                assert(c2[b] == batch[b - t.clock.len()]);
            }
        }
    }
}

/// The row-existence phase up to `i`: preservation and allocation bounds,
/// by induction over the rows.
pub(crate) proof fn lemma_backfill_rows_upto(t0: TableM, cn0: CountersM, dv: int, i: int)
    requires
        wf_table(t0),
        wf_info(t0.info),
        0 <= i <= t0.rows.len(),
    ensures
        ({
            let (t2, cn2) = spec_backfill_rows_upto(t0, cn0, dv, i);
            &&& wf_table(t2)
            &&& t2.info == t0.info
            &&& t2.rows == t0.rows
            &&& cn2.db_version == cn0.db_version
            &&& cn2.rows_impacted == cn0.rows_impacted
            &&& cn2.seq - cn0.seq == t2.next_rowid - t0.next_rowid
            &&& 0 <= cn2.seq - cn0.seq <= i * row_backfill_count(t0.info)
            &&& forall|k: int|
                0 <= k < t0.clock.len() ==> t2.clock[k] == t0.clock[k]
            &&& t0.clock.len() <= t2.clock.len()
        }),
    decreases i,
{
    if i > 0 {
        lemma_backfill_rows_upto(t0, cn0, dv, i - 1);
        let (t1, cn1) = spec_backfill_rows_upto(t0, cn0, dv, i - 1);
        lemma_backfill_row(t1, cn1, t0.rows[i - 1].pk, dv);
        assert((i - 1) * row_backfill_count(t0.info) + row_backfill_count(t0.info) == i
            * row_backfill_count(t0.info)) by (nonlinear_arith);
    }
}

/// One default-divergence step: preservation and a single allocation at
/// most.
pub(crate) proof fn lemma_fill_col_row(t: TableM, cn: CountersM, dv: int, j: int, i: int)
    requires
        wf_table(t),
    ensures
        ({
            let (t2, cn2) = spec_fill_col_row(t, cn, dv, j, i);
            &&& wf_table(t2)
            &&& t2.info == t.info
            &&& t2.rows == t.rows
            &&& cn2.db_version == cn.db_version
            &&& cn2.rows_impacted == cn.rows_impacted
            &&& cn2.seq - cn.seq == t2.next_rowid - t.next_rowid
            &&& 0 <= cn2.seq - cn.seq <= 1
            &&& forall|k: int|
                0 <= k < t.clock.len() ==> t2.clock[k] == t.clock[k]
            &&& t.clock.len() <= t2.clock.len()
        }),
{
    if needs_col_backfill(t, j, i) {
        let e = EntryM {
            pk: t.rows[i].pk,
            col: ColM::Col(t.info.non_pk_cols[j].name),
            col_version: 1,
            db_version: dv,
            site_id: Seq::empty(),
            seq: cn.seq + 1,
            rowid: t.next_rowid,
        };
        let c2 = t.clock.push(e);
        lemma_clock_index_of(t.clock, t.rows[i].pk, ColM::Col(t.info.non_pk_cols[j].name));
        assert forall|a: int, b: int| 0 <= a < b < c2.len() implies !(c2[a].pk == c2[b].pk
            && c2[a].col == c2[b].col) by {
            if b < t.clock.len() {
                assert(c2[a] == t.clock[a]);
                assert(c2[b] == t.clock[b]);
            } else {
                assert(c2[a] == t.clock[a]);
                assert(c2[b] == e);
            }
        }
    }
}

/// The default-divergence phase for one column up to row `i`.
pub(crate) proof fn lemma_fill_col_upto(t0: TableM, cn0: CountersM, dv: int, j: int, i: int)
    requires
        wf_table(t0),
        0 <= i <= t0.rows.len(),
    ensures
        ({
            let (t2, cn2) = spec_fill_col_upto(t0, cn0, dv, j, i);
            &&& wf_table(t2)
            &&& t2.info == t0.info
            &&& t2.rows == t0.rows
            &&& cn2.db_version == cn0.db_version
            &&& cn2.rows_impacted == cn0.rows_impacted
            &&& cn2.seq - cn0.seq == t2.next_rowid - t0.next_rowid
            &&& 0 <= cn2.seq - cn0.seq <= i
            &&& forall|k: int|
                0 <= k < t0.clock.len() ==> t2.clock[k] == t0.clock[k]
            &&& t0.clock.len() <= t2.clock.len()
        }),
    decreases i,
{
    if i > 0 {
        lemma_fill_col_upto(t0, cn0, dv, j, i - 1);
        let (t1, cn1) = spec_fill_col_upto(t0, cn0, dv, j, i - 1);
        lemma_fill_col_row(t1, cn1, dv, j, i - 1);
    }
}

/// The default-divergence phase over the first `j` columns.
pub(crate) proof fn lemma_backfill_cols_upto(t0: TableM, cn0: CountersM, dv: int, j: int)
    requires
        wf_table(t0),
        0 <= j <= t0.info.non_pk_cols.len(),
    ensures
        ({
            let (t2, cn2) = spec_backfill_cols_upto(t0, cn0, dv, j);
            &&& wf_table(t2)
            &&& t2.info == t0.info
            &&& t2.rows == t0.rows
            &&& cn2.db_version == cn0.db_version
            &&& cn2.rows_impacted == cn0.rows_impacted
            &&& cn2.seq - cn0.seq == t2.next_rowid - t0.next_rowid
            &&& 0 <= cn2.seq - cn0.seq <= j * t0.rows.len()
            &&& forall|k: int|
                0 <= k < t0.clock.len() ==> t2.clock[k] == t0.clock[k]
            &&& t0.clock.len() <= t2.clock.len()
        }),
    decreases j,
{
    if j > 0 {
        lemma_backfill_cols_upto(t0, cn0, dv, j - 1);
        let (t1, cn1) = spec_backfill_cols_upto(t0, cn0, dv, j - 1);
        lemma_fill_col_upto(t1, cn1, dv, j - 1, t1.rows.len() as int);
        assert((j - 1) * t0.rows.len() + t0.rows.len() == j * t0.rows.len()) by (nonlinear_arith);
    }
}

/// Whether any clock entry (for any column) exists for the primary key.
fn has_any_pk_entry(clock: &Vec<ClockEntry>, pk: &Vec<SqlValue>) -> (r: bool)
    ensures
        r == has_pk_entry(clock.deep_view(), pk.deep_view()),
{
    let mut i: usize = 0;
    while i < clock.len()
        invariant
            i <= clock@.len(),
            clock.deep_view().len() == clock@.len(),
            forall|k: int| 0 <= k < i ==> clock.deep_view()[k].pk != pk.deep_view(),
        decreases clock@.len() - i,
    {
        if pk_equal(&clock[i].pk, pk) {
            proof {
                assert(clock.deep_view()[i as int].pk == pk.deep_view());
            }
            return true;
        }
        i = i + 1;
    }
    false
}

/// The primary keys the row-existence backfill will cover, in row order:
/// every key present in the base table with no clock entry at all.
pub open spec fn spec_missing_rows(t: TableM, i: int) -> Seq<Seq<Val>>
    decreases i,
{
    if i <= 0 {
        Seq::empty()
    } else {
        let p = spec_missing_rows(t, i - 1);
        if has_pk_entry(t.clock, t.rows[i - 1].pk) {
            p
        } else {
            p.push(t.rows[i - 1].pk)
        }
    }
}

/// The primary keys the default-divergence backfill will cover for column
/// `j`, in row order: rows lacking a clock entry for the column whose
/// current value diverges from its declared default.
pub open spec fn spec_missing_column(t: TableM, j: int, i: int) -> Seq<Seq<Val>>
    decreases i,
{
    if i <= 0 {
        Seq::empty()
    } else {
        let p = spec_missing_column(t, j, i - 1);
        if needs_col_backfill(t, j, i - 1) {
            p.push(t.rows[i - 1].pk)
        } else {
            p
        }
    }
}

/// Rows present in the base table but absent from the clock relation: the
/// candidates of the row-existence backfill, in row order.
pub fn missing_rows(t: &TableState) -> (r: Vec<Vec<SqlValue>>)
    ensures
        r.deep_view() == spec_missing_rows(t.deep_view(), t.deep_view().rows.len() as int),
{
    let ghost tm = t.deep_view();
    let mut out: Vec<Vec<SqlValue>> = Vec::new();
    let mut i: usize = 0;
    proof {
        assert(out.deep_view() =~= spec_missing_rows(tm, 0));
    }
    while i < t.rows.len()
        invariant
            i <= t.rows@.len(),
            tm == t.deep_view(),
            tm.rows.len() == t.rows@.len(),
            out.deep_view() == spec_missing_rows(tm, i as int),
        decreases t.rows@.len() - i,
    {
        proof {
            assert(t.rows@[i as int].deep_view() == tm.rows[i as int]);
        }
        if !has_any_pk_entry(&t.clock, &t.rows[i].pk) {
            out.push(clone_values(&t.rows[i].pk));
            proof {
                assert(out.deep_view() =~= spec_missing_rows(tm, i as int + 1));
            }
        }
        i = i + 1;
    }
    out
}

/// Rows whose clock relation lacks an entry for the column at schema
/// index `col_idx` and whose current value diverges from the column's
/// declared default (rows left at the default are indistinguishable from
/// never-set and need no entry until they diverge).
pub fn missing_column(t: &TableState, col_idx: usize) -> (r: Vec<Vec<SqlValue>>)
    requires
        wf_table(t.deep_view()),
        col_idx < t.info.non_pk_cols@.len(),
    ensures
        r.deep_view() == spec_missing_column(
            t.deep_view(),
            col_idx as int,
            t.deep_view().rows.len() as int,
        ),
{
    let ghost tm = t.deep_view();
    let col = ColId::Col(clone_string(&t.info.non_pk_cols[col_idx].name));
    proof {
        assert(col.deep_view() == ColM::Col(tm.info.non_pk_cols[col_idx as int].name));
    }
    let mut out: Vec<Vec<SqlValue>> = Vec::new();
    let mut i: usize = 0;
    proof {
        assert(out.deep_view() =~= spec_missing_column(tm, col_idx as int, 0));
    }
    while i < t.rows.len()
        invariant
            i <= t.rows@.len(),
            tm == t.deep_view(),
            wf_table(tm),
            tm.rows.len() == t.rows@.len(),
            col_idx < tm.info.non_pk_cols.len(),
            col.deep_view() == ColM::Col(tm.info.non_pk_cols[col_idx as int].name),
            out.deep_view() == spec_missing_column(tm, col_idx as int, i as int),
        decreases t.rows@.len() - i,
    {
        proof {
            assert(t.rows@[i as int].deep_view() == tm.rows[i as int]);
            assert(t.rows@[i as int].vals@.len() == tm.info.non_pk_cols.len());
            assert(t.info.non_pk_cols@[col_idx as int].deep_view() == tm.info.non_pk_cols[
                col_idx as int]);
        }
        let absent = find_clock_index(&t.clock, &t.rows[i].pk, &col).is_none();
        let diverges: bool = match &t.info.non_pk_cols[col_idx].dflt {
            Option::None => true,
            Option::Some(d) => !values_equal(&t.rows[i].vals[col_idx], d),
        };
        if absent && diverges {
            proof {
                assert(needs_col_backfill(tm, col_idx as int, i as int));
            }
            out.push(clone_values(&t.rows[i].pk));
            proof {
                assert(out.deep_view() =~= spec_missing_column(tm, col_idx as int, i as int + 1));
            }
        } else {
            proof {
                assert(!needs_col_backfill(tm, col_idx as int, i as int));
            }
        }
        i = i + 1;
    }
    out
}

/// Synthesizes the row-existence batch for one uncovered row: one clock
/// entry per non-key column at `col_version` 1, or a single existence
/// sentinel for a table of key columns only.
fn backfill_row_entries(t: &mut TableState, cn: &mut Counters, pk: &Vec<SqlValue>, dv: i64)
    requires
        can_allocate(old(t).deep_view(), old(cn).deep_view(), row_backfill_count(
            old(t).deep_view().info,
        )),
    ensures
        final(t).deep_view().clock == old(t).deep_view().clock + row_backfill_cols(
            old(t).deep_view().info,
            pk.deep_view(),
            dv as int,
            old(cn).deep_view().seq,
            old(t).deep_view().next_rowid,
        ),
        final(t).deep_view().info == old(t).deep_view().info,
        final(t).deep_view().rows == old(t).deep_view().rows,
        final(t).deep_view().next_rowid == old(t).deep_view().next_rowid + row_backfill_count(
            old(t).deep_view().info,
        ),
        final(cn).deep_view() == (CountersM {
            seq: old(cn).deep_view().seq + row_backfill_count(old(t).deep_view().info),
            db_version: old(cn).deep_view().db_version,
            rows_impacted: old(cn).deep_view().rows_impacted,
        }),
{
    let ghost batch = row_backfill_cols(
        old(t).deep_view().info,
        pk.deep_view(),
        dv as int,
        old(cn).deep_view().seq,
        old(t).deep_view().next_rowid,
    );
    let ncols = t.info.non_pk_cols.len();
    if ncols == 0 {
        cn.seq = cn.seq + 1;
        let entry = ClockEntry {
            pk: clone_values(pk),
            col: ColId::Exists,
            col_version: 1,
            db_version: dv,
            site_id: Vec::new(),
            seq: cn.seq,
            rowid: t.next_rowid,
        };
        proof {
            assert(entry.deep_view().site_id =~= Seq::<u8>::empty());
            assert(entry.deep_view() == batch[0]);
        }
        t.clock.push(entry);
        t.next_rowid = t.next_rowid + 1;
        proof {
            assert(t.clock.deep_view() =~= old(t).deep_view().clock + batch);
        }
    } else {
        let mut j: usize = 0;
        while j < ncols
            invariant
                j <= ncols,
                ncols == t.info.non_pk_cols@.len(),
                ncols == old(t).info.non_pk_cols@.len(),
                t.info == old(t).info,
                t.rows == old(t).rows,
                batch == row_backfill_cols(
                    old(t).deep_view().info,
                    pk.deep_view(),
                    dv as int,
                    old(cn).deep_view().seq,
                    old(t).deep_view().next_rowid,
                ),
                batch.len() == ncols,
                cn.seq == old(cn).seq + j,
                cn.db_version == old(cn).db_version,
                cn.rows_impacted == old(cn).rows_impacted,
                t.next_rowid == old(t).next_rowid + j,
                old(cn).seq + ncols <= i64::MAX,
                old(t).next_rowid + ncols <= i64::MAX,
                t.clock@.len() == old(t).clock@.len() + j,
                forall|k: int|
                    0 <= k < old(t).clock@.len() ==> t.clock.deep_view()[k] == old(
                        t,
                    ).clock.deep_view()[k],
                forall|k: int|
                    0 <= k < j ==> t.clock.deep_view()[old(t).clock@.len() + k] == batch[k],
            decreases ncols - j,
        {
            cn.seq = cn.seq + 1;
            let entry = ClockEntry {
                pk: clone_values(pk),
                col: ColId::Col(clone_string(&t.info.non_pk_cols[j].name)),
                col_version: 1,
                db_version: dv,
                site_id: Vec::new(),
                seq: cn.seq,
                rowid: t.next_rowid,
            };
            proof {
                assert(old(t).deep_view().info.non_pk_cols[j as int] == old(t).info.non_pk_cols@[
                    j as int].deep_view());
                assert(entry.deep_view().site_id =~= Seq::<u8>::empty());
                assert(entry.deep_view() == batch[j as int]);
            }
            t.clock.push(entry);
            t.next_rowid = t.next_rowid + 1;
            proof {
                assert(t.clock.deep_view()[old(t).clock@.len() + j as int] == batch[j as int]);
            }
            j = j + 1;
        }
        proof {
            assert(t.clock.deep_view() =~= old(t).deep_view().clock + batch);
        }
    }
}

/// The row-existence phase: walks every row of the base table and
/// synthesizes the batch for each row that has no clock entry at all.
fn create_clock_rows(t: &mut TableState, cn: &mut Counters, dv: i64)
    requires
        wf_table(old(t).deep_view()),
        wf_info(old(t).deep_view().info),
        can_allocate(
            old(t).deep_view(),
            old(cn).deep_view(),
            old(t).deep_view().rows.len() * row_backfill_count(old(t).deep_view().info),
        ),
    ensures
        ({
            let (t2, cn2) = spec_backfill_rows_upto(
                old(t).deep_view(),
                old(cn).deep_view(),
                dv as int,
                old(t).deep_view().rows.len() as int,
            );
            final(t).deep_view() == t2 && final(cn).deep_view() == cn2
        }),
{
    let nrows = t.rows.len();
    let ghost t0 = old(t).deep_view();
    let ghost cn0 = old(cn).deep_view();
    let ghost count = row_backfill_count(t0.info);
    let mut i: usize = 0;
    while i < nrows
        invariant
            i <= nrows,
            nrows == t.rows@.len(),
            wf_table(t0),
            wf_info(t0.info),
            t0 == old(t).deep_view(),
            cn0 == old(cn).deep_view(),
            count == row_backfill_count(t0.info),
            nrows == t0.rows.len(),
            cn0.seq + nrows * count <= i64::MAX,
            t0.next_rowid + nrows * count <= i64::MAX,
            cn0.db_version < i64::MAX,
            cn0.rows_impacted < i64::MAX,
            ({
                let (ti_, cni_) = spec_backfill_rows_upto(t0, cn0, dv as int, i as int);
                t.deep_view() == ti_ && cn.deep_view() == cni_
            }),
        decreases nrows - i,
    {
        proof {
            lemma_backfill_rows_upto(t0, cn0, dv as int, i as int);
            assert(t.deep_view().rows == t0.rows);
            assert(t.rows@[i as int].deep_view() == t0.rows[i as int]);
        }
        let pk = clone_values(&t.rows[i].pk);
        if !has_any_pk_entry(&t.clock, &pk) {
            proof {
                let (ti_, cni_) = spec_backfill_rows_upto(t0, cn0, dv as int, i as int);
                assert(cni_.seq - cn0.seq <= i as int * count);
                assert(i as int * count + count <= nrows * count) by (nonlinear_arith)
                    requires
                        0 <= count,
                        i as int + 1 <= nrows as int,
                ;
                assert(can_allocate(t.deep_view(), cn.deep_view(), count));
            }
            backfill_row_entries(t, cn, &pk, dv);
            proof {
                let (ti_, cni_) = spec_backfill_rows_upto(t0, cn0, dv as int, i as int + 1);
                assert(t.deep_view().clock =~= ti_.clock);
                assert(t.deep_view() == ti_);
                assert(cn.deep_view() == cni_);
            }
        } else {
            proof {
                let (ti_, cni_) = spec_backfill_rows_upto(t0, cn0, dv as int, i as int + 1);
                assert(t.deep_view() == ti_);
                assert(cn.deep_view() == cni_);
            }
        }
        i = i + 1;
    }
}

/// The default-divergence phase for one column: synthesizes an entry for
/// every row that lacks one for this column and whose current value
/// differs from the column's declared default (or for every uncovered row
/// when no default is declared).
fn fill_column(t: &mut TableState, cn: &mut Counters, col_idx: usize, dv: i64)
    requires
        wf_table(old(t).deep_view()),
        col_idx < old(t).info.non_pk_cols@.len(),
        can_allocate(old(t).deep_view(), old(cn).deep_view(), old(t).deep_view().rows.len() as int),
    ensures
        ({
            let (t2, cn2) = spec_fill_col_upto(
                old(t).deep_view(),
                old(cn).deep_view(),
                dv as int,
                col_idx as int,
                old(t).deep_view().rows.len() as int,
            );
            final(t).deep_view() == t2 && final(cn).deep_view() == cn2
        }),
{
    let nrows = t.rows.len();
    let ghost t0 = old(t).deep_view();
    let ghost cn0 = old(cn).deep_view();
    let col = ColId::Col(clone_string(&t.info.non_pk_cols[col_idx].name));
    proof {
        assert(col.deep_view() == ColM::Col(t0.info.non_pk_cols[col_idx as int].name));
    }
    let mut i: usize = 0;
    while i < nrows
        invariant
            i <= nrows,
            wf_table(t0),
            t0 == old(t).deep_view(),
            cn0 == old(cn).deep_view(),
            nrows == t0.rows.len(),
            col_idx < t0.info.non_pk_cols.len(),
            col.deep_view() == ColM::Col(t0.info.non_pk_cols[col_idx as int].name),
            cn0.seq + nrows <= i64::MAX,
            t0.next_rowid + nrows <= i64::MAX,
            cn0.db_version < i64::MAX,
            cn0.rows_impacted < i64::MAX,
            ({
                let (ti_, cni_) = spec_fill_col_upto(t0, cn0, dv as int, col_idx as int, i as int);
                t.deep_view() == ti_ && cn.deep_view() == cni_
            }),
        decreases nrows - i,
    {
        proof {
            lemma_fill_col_upto(t0, cn0, dv as int, col_idx as int, i as int);
            assert(t.deep_view().rows == t0.rows);
            assert(t.deep_view().info == t0.info);
            assert(t.rows@[i as int].deep_view() == t0.rows[i as int]);
            assert(t.rows@[i as int].vals@.len() == t0.info.non_pk_cols.len());
            assert(t.info.non_pk_cols@[col_idx as int].deep_view() == t0.info.non_pk_cols[
                col_idx as int]);
        }
        let pk = clone_values(&t.rows[i].pk);
        let missing = find_clock_index(&t.clock, &pk, &col).is_none();
        let diverges: bool = match &t.info.non_pk_cols[col_idx].dflt {
            Option::None => true,
            Option::Some(d) => !values_equal(&t.rows[i].vals[col_idx], d),
        };
        if missing && diverges {
            proof {
                assert(needs_col_backfill(t.deep_view(), col_idx as int, i as int));
            }
            cn.seq = cn.seq + 1;
            let entry = ClockEntry {
                pk: pk,
                col: clone_col_id(&col),
                col_version: 1,
                db_version: dv,
                site_id: Vec::new(),
                seq: cn.seq,
                rowid: t.next_rowid,
            };
            proof {
                let (ti_, _) = spec_fill_col_upto(t0, cn0, dv as int, col_idx as int, i as int);
                assert(entry.deep_view().site_id =~= Seq::<u8>::empty());
                assert(entry.deep_view() == EntryM {
                    pk: ti_.rows[i as int].pk,
                    col: ColM::Col(ti_.info.non_pk_cols[col_idx as int].name),
                    col_version: 1,
                    db_version: dv as int,
                    site_id: Seq::empty(),
                    seq: cn.deep_view().seq,
                    rowid: ti_.next_rowid,
                });
            }
            t.clock.push(entry);
            t.next_rowid = t.next_rowid + 1;
            proof {
                let (ti_, cni_) = spec_fill_col_upto(
                    t0,
                    cn0,
                    dv as int,
                    col_idx as int,
                    i as int + 1,
                );
                assert(t.deep_view().clock =~= ti_.clock);
                assert(t.deep_view() == ti_);
                assert(cn.deep_view() == cni_);
            }
        } else {
            proof {
                assert(!needs_col_backfill(
                    spec_fill_col_upto(t0, cn0, dv as int, col_idx as int, i as int).0,
                    col_idx as int,
                    i as int,
                ));
                let (ti_, cni_) = spec_fill_col_upto(
                    t0,
                    cn0,
                    dv as int,
                    col_idx as int,
                    i as int + 1,
                );
                assert(t.deep_view() == ti_);
                assert(cn.deep_view() == cni_);
            }
        }
        i = i + 1;
    }
}

/// The default-divergence phase: runs `fill_column` over every non-key
/// column in schema order.
fn backfill_missing_columns(t: &mut TableState, cn: &mut Counters, dv: i64)
    requires
        wf_table(old(t).deep_view()),
        can_allocate(
            old(t).deep_view(),
            old(cn).deep_view(),
            old(t).deep_view().info.non_pk_cols.len() * old(t).deep_view().rows.len() as int,
        ),
    ensures
        ({
            let (t2, cn2) = spec_backfill_cols_upto(
                old(t).deep_view(),
                old(cn).deep_view(),
                dv as int,
                old(t).deep_view().info.non_pk_cols.len() as int,
            );
            final(t).deep_view() == t2 && final(cn).deep_view() == cn2
        }),
{
    let ncols = t.info.non_pk_cols.len();
    let nrows = t.rows.len();
    let ghost t0 = old(t).deep_view();
    let ghost cn0 = old(cn).deep_view();
    let mut j: usize = 0;
    while j < ncols
        invariant
            j <= ncols,
            wf_table(t0),
            t0 == old(t).deep_view(),
            cn0 == old(cn).deep_view(),
            ncols == t0.info.non_pk_cols.len(),
            nrows == t0.rows.len(),
            cn0.seq + ncols * nrows <= i64::MAX,
            t0.next_rowid + ncols * nrows <= i64::MAX,
            cn0.db_version < i64::MAX,
            cn0.rows_impacted < i64::MAX,
            ({
                let (tj_, cnj_) = spec_backfill_cols_upto(t0, cn0, dv as int, j as int);
                t.deep_view() == tj_ && cn.deep_view() == cnj_
            }),
        decreases ncols - j,
    {
        proof {
            lemma_backfill_cols_upto(t0, cn0, dv as int, j as int);
            let (tj_, cnj_) = spec_backfill_cols_upto(t0, cn0, dv as int, j as int);
            assert(cnj_.seq - cn0.seq <= j as int * nrows);
            assert(j as int * nrows + nrows <= ncols * nrows) by (nonlinear_arith)
                requires
                    0 <= nrows,
                    j as int + 1 <= ncols as int,
            ;
            assert(can_allocate(t.deep_view(), cn.deep_view(), nrows as int));
            assert(t.deep_view().rows.len() == nrows);
        }
        fill_column(t, cn, j, dv);
        j = j + 1;
    }
}

/// Backfills one table's clock relation after replication tracking is
/// (re)enabled on existing data: first the row-existence phase (one entry
/// per non-key column for every row with no clock entry at all, or a
/// single existence sentinel for a table of key columns only), then the
/// default-divergence phase (an entry for every remaining uncovered
/// column value that differs from the column's declared default).
///
/// Backfilled entries carry `col_version` 1 and no site id; their
/// `db_version` is the current version for an alter-commit backfill and
/// the next version otherwise. Fails with `UnknownTable` when the named
/// table is not tracked, and with `InvalidSchema` when its schema has no
/// primary-key columns; nothing is mutated on failure, and the host wraps
/// the run in a savepoint so a storage failure rolls back atomically.
pub fn backfill_table(db: &mut Db, table: &str, is_commit_alter: bool) -> (r: Result<
    (),
    CrsqlError,
>)
    requires
        wf_db(old(db).deep_view()),
        backfill_schema_ok(old(db).deep_view(), table@),
        backfill_can_allocate(old(db).deep_view(), table@),
    ensures
        ({
            let (dm, rm) = spec_backfill_db(old(db).deep_view(), table@, is_commit_alter);
            final(db).deep_view() == dm && r == rm
        }),
        wf_db(final(db).deep_view()),
{
    let name = String::from_str(table);
    let ti = match find_table_index(&db.tables, &name) {
        Option::Some(ti) => ti,
        Option::None => {
            return Result::Err(CrsqlError::UnknownTable);
        },
    };
    if db.tables[ti].info.pk_cols.len() == 0 {
        return Result::Err(CrsqlError::InvalidSchema);
    }
    let mut t = db.tables.remove(ti);
    proof {
        assert(t.deep_view() == old(db).deep_view().tables[ti as int]);
    }
    let ghost t0 = t.deep_view();
    let ghost cn0 = db.counters.deep_view();
    let dv = if is_commit_alter {
        db.counters.db_version
    } else {
        db.counters.db_version + 1
    };
    proof {
        assert(0 <= t0.info.non_pk_cols.len() * t0.rows.len()) by (nonlinear_arith);
        assert(0 <= t0.rows.len() * row_backfill_count(t0.info)) by (nonlinear_arith)
            requires
                row_backfill_count(t0.info) >= 0,
        ;
        assert(can_allocate(t0, cn0, t0.rows.len() * row_backfill_count(t0.info) as int));
    }
    create_clock_rows(&mut t, &mut db.counters, dv);
    proof {
        lemma_backfill_rows_upto(t0, cn0, dv as int, t0.rows.len() as int);
        let (t1, cn1) = spec_backfill_rows_upto(t0, cn0, dv as int, t0.rows.len() as int);
        assert(cn1.seq - cn0.seq <= t0.rows.len() * row_backfill_count(t0.info));
        assert(can_allocate(t1, cn1, t1.info.non_pk_cols.len() * t1.rows.len() as int));
    }
    backfill_missing_columns(&mut t, &mut db.counters, dv);
    db.tables.insert(ti, t);
    proof {
        let (tm, cm) = spec_backfill_table(t0, cn0, is_commit_alter);
        lemma_backfill_cols_upto(
            spec_backfill_rows_upto(t0, cn0, dv as int, t0.rows.len() as int).0,
            spec_backfill_rows_upto(t0, cn0, dv as int, t0.rows.len() as int).1,
            dv as int,
            t0.info.non_pk_cols.len() as int,
        );
        assert(db.tables.deep_view() =~= old(db).deep_view().tables.update(ti as int, tm));
        assert forall|k: int| 0 <= k < db.tables.deep_view().len() implies wf_table(
            db.tables.deep_view()[k],
        ) by {
            if k != ti as int {
                assert(db.tables.deep_view()[k] == old(db).deep_view().tables[k]);
            }
        }
    }
    Result::Ok(())
}

} // verus!
