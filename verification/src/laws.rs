use crate::errors::CrsqlError;
use crate::merge::{
    lemma_wf_merge_table, lemma_wf_row_ops, spec_col_value,
    spec_did_cid_win, spec_merge_table, spec_set_winner_clock, spec_upsert_col_value, winner_entry,
};
use crate::state::{
    clock_index_of, col_index_of, lemma_clock_index_of, lemma_row_index_of, row_index_of,
    spec_col_version, spec_has_tombstone, wf_table, ChangeM, ColM, CountersM, EntryM, TableM,
    DELETE_SENTINEL, INSERT_SENTINEL,
};
use crate::values::{
    lemma_val_cmp_antisym, lemma_val_cmp_eq, lemma_val_cmp_refl, lemma_val_cmp_trans, val_cmp, Val,
};
use crate::backfill::{
    has_pk_entry, lemma_backfill_cols_upto, lemma_backfill_row, lemma_backfill_rows_upto,
    lemma_fill_col_row, lemma_fill_col_upto, needs_col_backfill, spec_backfill_cols_upto,
    spec_backfill_row, spec_backfill_rows_upto, spec_backfill_table, spec_fill_col_row,
    spec_fill_col_upto, wf_info,
};
use vstd::prelude::*;

verus! {

/// After the winner-clock write, looking a key up in the clock relation
/// sees exactly the written entry for the written key, and the old
/// recording for every other key.
proof fn lemma_winner_clock_lookup(
    t: TableM,
    cn: CountersM,
    pk: Seq<Val>,
    col: ColM,
    cv: int,
    dv: int,
    sid: Seq<u8>,
    pk2: Seq<Val>,
    col2: ColM,
)
    requires
        wf_table(t),
    ensures
        ({
            let (t2, cn2, rid) = spec_set_winner_clock(t, cn, pk, col, cv, dv, sid);
            if pk2 == pk && col2 == col {
                spec_col_version(t2, pk2, col2) == Option::Some(cv)
            } else {
                spec_col_version(t2, pk2, col2) == spec_col_version(t, pk2, col2)
            }
        }),
{
    let e = winner_entry(t, cn, pk, col, cv, dv, sid);
    let (t2, _, _) = spec_set_winner_clock(t, cn, pk, col, cv, dv, sid);
    let c2 = t2.clock;
    lemma_clock_index_of(t.clock, pk, col);
    lemma_clock_index_of(t.clock, pk2, col2);
    lemma_clock_index_of(c2, pk2, col2);
    match clock_index_of(t.clock, pk, col) {
        Option::Some(i) => {
            assert(forall|k: int|
                0 <= k < c2.len() - 1 ==> #[trigger] c2[k] == (if k < i {
                    t.clock[k]
                } else {
                    t.clock[k + 1]
                }));
            assert(c2[c2.len() - 1] == e);
            if pk2 == pk && col2 == col {
                match clock_index_of(c2, pk2, col2) {
                    Option::Some(j) => {
                        if j < c2.len() - 1 {
                            let j0 = if j < i {
                                j
                            } else {
                                j + 1
                            };
                            assert(c2[j] == t.clock[j0]);
                            assert(j0 != i);
                            assert(false);
                        }
                        assert(c2[j] == e);
                    },
                    Option::None => {
                        assert(!(c2[c2.len() - 1].pk == pk2 && c2[c2.len() - 1].col == col2));
                        assert(false);
                    },
                }
            } else {
                match clock_index_of(t.clock, pk2, col2) {
                    Option::Some(m) => {
                        assert(m != i);
                        let m2 = if m < i {
                            m
                        } else {
                            m - 1
                        };
                        assert(c2[m2] == t.clock[m]);
                        match clock_index_of(c2, pk2, col2) {
                            Option::Some(j) => {
                                if j == c2.len() - 1 {
                                    assert(c2[j] == e);
                                    assert(false);
                                }
                                let j0 = if j < i {
                                    j
                                } else {
                                    j + 1
                                };
                                assert(c2[j] == t.clock[j0]);
                                assert(t.clock[j0].pk == pk2 && t.clock[j0].col == col2);
                                assert(j0 == m);
                                assert(c2[j].col_version == t.clock[m].col_version);
                            },
                            Option::None => {
                                assert(!(c2[m2].pk == pk2 && c2[m2].col == col2));
                                assert(false);
                            },
                        }
                    },
                    Option::None => {
                        match clock_index_of(c2, pk2, col2) {
                            Option::Some(j) => {
                                if j == c2.len() - 1 {
                                    assert(c2[j] == e);
                                    assert(false);
                                }
                                let j0 = if j < i {
                                    j
                                } else {
                                    j + 1
                                };
                                assert(c2[j] == t.clock[j0]);
                                assert(false);
                            },
                            Option::None => {},
                        }
                    },
                }
            }
        },
        Option::None => {
            assert(forall|k: int|
                0 <= k < c2.len() - 1 ==> #[trigger] c2[k] == t.clock[k]);
            assert(c2[c2.len() - 1] == e);
            if pk2 == pk && col2 == col {
                match clock_index_of(c2, pk2, col2) {
                    Option::Some(j) => {
                        if j < c2.len() - 1 {
                            assert(c2[j] == t.clock[j]);
                            assert(false);
                        }
                        assert(c2[j] == e);
                    },
                    Option::None => {
                        assert(!(c2[c2.len() - 1].pk == pk2 && c2[c2.len() - 1].col == col2));
                        assert(false);
                    },
                }
            } else {
                match clock_index_of(t.clock, pk2, col2) {
                    Option::Some(m) => {
                        match clock_index_of(c2, pk2, col2) {
                            Option::Some(j) => {
                                if j == c2.len() - 1 {
                                    assert(c2[j] == e);
                                    assert(false);
                                }
                                assert(c2[j] == t.clock[j]);
                                assert(j == m);
                            },
                            Option::None => {
                                assert(!(c2[m].pk == pk2 && c2[m].col == col2));
                                assert(false);
                            },
                        }
                    },
                    Option::None => {
                        match clock_index_of(c2, pk2, col2) {
                            Option::Some(j) => {
                                if j == c2.len() - 1 {
                                    assert(c2[j] == e);
                                    assert(false);
                                }
                                assert(c2[j] == t.clock[j]);
                                assert(false);
                            },
                            Option::None => {},
                        }
                    },
                }
            }
        },
    }
}

/// Tombstone dominance: once a delete tombstone is recorded for a primary
/// key, merging any later change for that key — delete or not — is a
/// successful no-op that mutates nothing. In particular a repeated remote
/// delete is idempotent.
pub proof fn lemma_tombstone_dominates(t: TableM, cn: CountersM, ch: ChangeM)
    requires
        spec_has_tombstone(t, ch.pk),
    ensures
        spec_merge_table(t, cn, ch) == (t, cn, Result::<Option<int>, CrsqlError>::Ok(
            Option::<int>::None,
        )),
{
}

/// Merging a delete for a primary key with no tombstone records one: the
/// tombstone exists afterwards, so every later merge for the key is
/// dominated.
pub proof fn lemma_delete_records_tombstone(t: TableM, cn: CountersM, ch: ChangeM)
    requires
        wf_table(t),
        !spec_has_tombstone(t, ch.pk),
        ch.col_name == DELETE_SENTINEL@,
    ensures
        spec_has_tombstone(spec_merge_table(t, cn, ch).0, ch.pk),
{
    let t1 = crate::merge::spec_delete_row(t, ch.pk);
    lemma_wf_row_ops(t, ch.pk, 0, ch.value);
    assert(t1.clock == t.clock);
    lemma_winner_clock_lookup(
        t1,
        cn,
        ch.pk,
        ColM::Tombstone,
        ch.col_version,
        ch.db_version,
        ch.site_id,
        ch.pk,
        ColM::Tombstone,
    );
    let (t2, _, _) = spec_set_winner_clock(
        t1,
        cn,
        ch.pk,
        ColM::Tombstone,
        ch.col_version,
        ch.db_version,
        ch.site_id,
    );
    assert(spec_col_version(t2, ch.pk, ColM::Tombstone) == Option::Some(ch.col_version));
    assert(clock_index_of(t2.clock, ch.pk, ColM::Tombstone) is Some);
}

/// The incoming change beats the local recording: nothing is recorded,
/// or its version is strictly greater, or the versions tie and its value
/// sorts strictly above the current local value.
pub open spec fn spec_change_wins(t: TableM, ch: ChangeM, ci: int) -> bool {
    match spec_col_version(t, ch.pk, ColM::Col(ch.col_name)) {
        Option::None => true,
        Option::Some(v) => ch.col_version > v || (ch.col_version == v && val_cmp(
            ch.value,
            spec_col_value(t, ch.pk, ci).unwrap(),
        ) > 0),
    }
}

/// What one tracked-column merge does, under the conditions that route it
/// to the last-writer-wins case: it succeeds, and either commits exactly
/// the incoming version and value (when the change wins) or leaves the
/// state untouched (when it loses). The routing conditions themselves are
/// preserved, so a second merge for the same column sees them again.
proof fn lemma_merge_col_case(t: TableM, cn: CountersM, ch: ChangeM, ci: int)
    requires
        wf_table(t),
        !spec_has_tombstone(t, ch.pk),
        ch.col_name != DELETE_SENTINEL@,
        ch.col_name != INSERT_SENTINEL@,
        col_index_of(t.info.non_pk_cols, ch.col_name) == Option::Some(ci),
        spec_col_version(t, ch.pk, ColM::Col(ch.col_name)) is Some ==> row_index_of(t.rows, ch.pk)
            is Some,
    ensures
        ({
            let (t2, cn2, r) = spec_merge_table(t, cn, ch);
            &&& r is Ok
            &&& wf_table(t2)
            &&& t2.info == t.info
            &&& !spec_has_tombstone(t2, ch.pk)
            &&& (spec_col_version(t2, ch.pk, ColM::Col(ch.col_name)) is Some ==> row_index_of(
                t2.rows,
                ch.pk,
            ) is Some)
            &&& if spec_change_wins(t, ch, ci) {
                spec_col_version(t2, ch.pk, ColM::Col(ch.col_name)) == Option::Some(ch.col_version)
                    && spec_col_value(t2, ch.pk, ci) == Option::Some(ch.value)
            } else {
                t2 == t && cn2 == cn
            }
        }),
{
    let (t2, cn2, r) = spec_merge_table(t, cn, ch);
    lemma_wf_merge_table(t, cn, ch);
    crate::state::lemma_col_index_of(t.info.non_pk_cols, ch.col_name);
    lemma_row_index_of(t.rows, ch.pk);
    match spec_did_cid_win(t, ch, ci) {
        Result::Ok(true) => {
            let t1 = spec_upsert_col_value(t, ch.pk, ci, ch.value);
            lemma_wf_row_ops(t, ch.pk, ci, ch.value);
            assert(t1.clock == t.clock);
            lemma_winner_clock_lookup(
                t1,
                cn,
                ch.pk,
                ColM::Col(ch.col_name),
                ch.col_version,
                ch.db_version,
                ch.site_id,
                ch.pk,
                ColM::Col(ch.col_name),
            );
            lemma_winner_clock_lookup(
                t1,
                cn,
                ch.pk,
                ColM::Col(ch.col_name),
                ch.col_version,
                ch.db_version,
                ch.site_id,
                ch.pk,
                ColM::Tombstone,
            );
            assert(t2.rows == t1.rows);
            lemma_row_index_of(t1.rows, ch.pk);
            match row_index_of(t.rows, ch.pk) {
                Option::Some(ri) => {
                    assert(t1.rows[ri].pk == ch.pk);
                    assert(forall|k: int|
                        0 <= k < t1.rows.len() && k != ri ==> #[trigger] t1.rows[k] == t.rows[k]);
                    match row_index_of(t1.rows, ch.pk) {
                        Option::Some(j) => {
                            if j < ri {
                                assert(t1.rows[j] == t.rows[j]);
                                assert(false);
                            }
                            if j > ri {
                                assert(false);
                            }
                            assert(t1.rows[ri].vals[ci] == ch.value);
                        },
                        Option::None => {
                            assert(false);
                        },
                    }
                },
                Option::None => {
                    assert(t1.rows[t1.rows.len() - 1].pk == ch.pk);
                    assert(forall|k: int|
                        0 <= k < t1.rows.len() - 1 ==> #[trigger] t1.rows[k] == t.rows[k]);
                    match row_index_of(t1.rows, ch.pk) {
                        Option::Some(j) => {
                            if j < t1.rows.len() - 1 {
                                assert(t1.rows[j] == t.rows[j]);
                                assert(false);
                            }
                            assert(t1.rows[j].vals[ci] == ch.value);
                        },
                        Option::None => {
                            assert(false);
                        },
                    }
                },
            }
        },
        Result::Ok(false) => {
        },
        Result::Err(_) => {
            assert(false);
        },
    }
}

/// Convergence: two changes for the same primary key and the same
/// tracked column merge to the same recorded `col_version` and the same
/// committed column value in either order. Replicas that have seen the
/// same pair of concurrent writes pick the same winner without
/// coordination. (The bookkeeping fields of the clock entry — `seq`,
/// `db_version`, `rowid` — reflect local allocation order and are not
/// part of the converged state; the recorded site id follows the winner
/// and so converges too, except when the two changes carry the same
/// version and the same value, where the merge is a no-op for whichever
/// arrives second and either site id may remain.)
pub proof fn lemma_merge_convergence(t: TableM, cn: CountersM, c1: ChangeM, c2: ChangeM, ci: int)
    requires
        wf_table(t),
        !spec_has_tombstone(t, c1.pk),
        c2.pk == c1.pk,
        c2.col_name == c1.col_name,
        c1.col_name != DELETE_SENTINEL@,
        c1.col_name != INSERT_SENTINEL@,
        col_index_of(t.info.non_pk_cols, c1.col_name) == Option::Some(ci),
        spec_col_version(t, c1.pk, ColM::Col(c1.col_name)) is Some ==> row_index_of(t.rows, c1.pk)
            is Some,
    ensures
        ({
            let (ta1, cna1, ra1) = spec_merge_table(t, cn, c1);
            let (ta2, cna2, ra2) = spec_merge_table(ta1, cna1, c2);
            let (tb1, cnb1, rb1) = spec_merge_table(t, cn, c2);
            let (tb2, cnb2, rb2) = spec_merge_table(tb1, cnb1, c1);
            &&& ra1 is Ok && ra2 is Ok && rb1 is Ok && rb2 is Ok
            &&& spec_col_version(ta2, c1.pk, ColM::Col(c1.col_name)) == spec_col_version(
                tb2,
                c1.pk,
                ColM::Col(c1.col_name),
            )
            &&& spec_col_value(ta2, c1.pk, ci) == spec_col_value(tb2, c1.pk, ci)
        }),
{
    let (ta1, cna1, ra1) = spec_merge_table(t, cn, c1);
    let (tb1, cnb1, rb1) = spec_merge_table(t, cn, c2);
    lemma_merge_col_case(t, cn, c1, ci);
    lemma_merge_col_case(t, cn, c2, ci);
    lemma_merge_col_case(ta1, cna1, c2, ci);
    lemma_merge_col_case(tb1, cnb1, c1, ci);
    lemma_val_cmp_antisym(c1.value, c2.value);
    if val_cmp(c1.value, c2.value) == 0 {
        lemma_val_cmp_eq(c1.value, c2.value);
    }
    lemma_val_cmp_refl(c1.value);
    lemma_val_cmp_refl(c2.value);
    if spec_col_version(t, c1.pk, ColM::Col(c1.col_name)) is Some {
        let x0 = spec_col_value(t, c1.pk, ci).unwrap();
        lemma_val_cmp_antisym(c1.value, x0);
        lemma_val_cmp_antisym(c2.value, x0);
        if val_cmp(c1.value, x0) == 0 {
            lemma_val_cmp_eq(c1.value, x0);
        }
        if val_cmp(c2.value, x0) == 0 {
            lemma_val_cmp_eq(c2.value, x0);
        }
        if val_cmp(c1.value, x0) <= 0 && val_cmp(x0, c2.value) <= 0 {
            lemma_val_cmp_trans(c1.value, x0, c2.value);
        }
        if val_cmp(c2.value, x0) <= 0 && val_cmp(x0, c1.value) <= 0 {
            lemma_val_cmp_trans(c2.value, x0, c1.value);
        }
    }
}

/// Monotonic column version: for a tracked column, a merge never
/// decreases the recorded `col_version` of any `(pk, column)` pair, and
/// never removes a recording.
pub proof fn lemma_merge_monotonic_col_version(
    t: TableM,
    cn: CountersM,
    ch: ChangeM,
    pk2: Seq<Val>,
    name: Seq<char>,
)
    requires
        wf_table(t),
    ensures
        ({
            let (t2, cn2, r) = spec_merge_table(t, cn, ch);
            match spec_col_version(t, pk2, ColM::Col(name)) {
                Option::Some(v1) => spec_col_version(t2, pk2, ColM::Col(name)) is Some
                    && spec_col_version(t2, pk2, ColM::Col(name)).unwrap() >= v1,
                Option::None => true,
            }
        }),
{
    let (t2, cn2, r) = spec_merge_table(t, cn, ch);
    if !spec_has_tombstone(t, ch.pk) {
        if ch.col_name == DELETE_SENTINEL@ {
            let t1 = crate::merge::spec_delete_row(t, ch.pk);
            lemma_wf_row_ops(t, ch.pk, 0, ch.value);
            lemma_winner_clock_lookup(
                t1,
                cn,
                ch.pk,
                ColM::Tombstone,
                ch.col_version,
                ch.db_version,
                ch.site_id,
                pk2,
                ColM::Col(name),
            );
        } else if ch.col_name == INSERT_SENTINEL@ || col_index_of(t.info.non_pk_cols, ch.col_name)
            is None {
            let t1 = crate::merge::spec_insert_ignore(t, ch.pk);
            lemma_wf_row_ops(t, ch.pk, 0, ch.value);
            lemma_winner_clock_lookup(
                t1,
                cn,
                ch.pk,
                ColM::Exists,
                ch.col_version,
                ch.db_version,
                ch.site_id,
                pk2,
                ColM::Col(name),
            );
        } else {
            let ci = col_index_of(t.info.non_pk_cols, ch.col_name).unwrap();
            match spec_did_cid_win(t, ch, ci) {
                Result::Ok(true) => {
                    let t1 = spec_upsert_col_value(t, ch.pk, ci, ch.value);
                    crate::state::lemma_col_index_of(t.info.non_pk_cols, ch.col_name);
                    lemma_wf_row_ops(t, ch.pk, ci, ch.value);
                    assert(t1.clock == t.clock);
                    lemma_winner_clock_lookup(
                        t1,
                        cn,
                        ch.pk,
                        ColM::Col(ch.col_name),
                        ch.col_version,
                        ch.db_version,
                        ch.site_id,
                        pk2,
                        ColM::Col(name),
                    );
                },
                _ => {},
            }
        }
    }
}

/// A clock entry persists under any growth of the clock relation that
/// keeps the existing entries in place. Backfill only appends.
proof fn lemma_entry_persists(c1: Seq<EntryM>, c2: Seq<EntryM>, pk: Seq<Val>, col: ColM)
    requires
        c1.len() <= c2.len(),
        forall|k: int| 0 <= k < c1.len() ==> c2[k] == c1[k],
        clock_index_of(c1, pk, col) is Some,
    ensures
        clock_index_of(c2, pk, col) is Some,
{
    lemma_clock_index_of(c1, pk, col);
    lemma_clock_index_of(c2, pk, col);
    let m = clock_index_of(c1, pk, col).unwrap();
    assert(c2[m] == c1[m]);
    if clock_index_of(c2, pk, col) is None {
        assert(!(c2[m].pk == pk && c2[m].col == col));
        assert(false);
    }
}

/// After the row-existence phase has walked the first `i` rows, each of
/// them has at least one clock entry.
proof fn lemma_phase1_covers(t0: TableM, cn0: CountersM, dv: int, i: int)
    requires
        wf_table(t0),
        wf_info(t0.info),
        0 <= i <= t0.rows.len(),
    ensures
        ({
            let (t1, cn1) = spec_backfill_rows_upto(t0, cn0, dv, i);
            forall|r: int| 0 <= r < i ==> has_pk_entry(t1.clock, t0.rows[r].pk)
        }),
    decreases i,
{
    if i > 0 {
        lemma_phase1_covers(t0, cn0, dv, i - 1);
        lemma_backfill_rows_upto(t0, cn0, dv, i - 1);
        let (ta, cna) = spec_backfill_rows_upto(t0, cn0, dv, i - 1);
        let (tb, cnb) = spec_backfill_row(ta, cna, t0.rows[i - 1].pk, dv);
        lemma_backfill_row(ta, cna, t0.rows[i - 1].pk, dv);
        assert forall|r: int| 0 <= r < i implies has_pk_entry(tb.clock, t0.rows[r].pk) by {
            if r < i - 1 {
                let w = choose|k: int|
                    0 <= k < ta.clock.len() && ta.clock[k].pk == t0.rows[r].pk;
                assert(tb.clock[w] == ta.clock[w]);
            } else {
                if has_pk_entry(ta.clock, t0.rows[r].pk) {
                    let w = choose|k: int|
                        0 <= k < ta.clock.len() && ta.clock[k].pk == t0.rows[r].pk;
                    assert(tb.clock[w] == ta.clock[w]);
                } else {
                    let batch = crate::backfill::row_backfill_cols(
                        ta.info,
                        t0.rows[r].pk,
                        dv,
                        cna.seq,
                        ta.next_rowid,
                    );
                    assert(batch.len() > 0);
                    assert(tb.clock[ta.clock.len() as int] == batch[0]);
                    assert(batch[0].pk == t0.rows[r].pk);
                }
            }
        }
    }
}

/// Every row of the base table has at least one clock entry.
pub open spec fn all_rows_covered(t: TableM) -> bool {
    forall|r: int| 0 <= r < t.rows.len() ==> #[trigger] has_pk_entry(t.clock, t.rows[r].pk)
}

/// Row `r` is covered for column `c`: a clock entry for the column
/// exists, or the row sits exactly at the column's declared default.
pub open spec fn col_pair_covered(t: TableM, r: int, c: int) -> bool {
    clock_index_of(t.clock, t.rows[r].pk, ColM::Col(t.info.non_pk_cols[c].name)) is Some || (
    t.info.non_pk_cols[c].dflt is Some && t.rows[r].vals[c] == t.info.non_pk_cols[c].dflt.unwrap())
}

/// Every (row, non-key column) pair is covered.
pub open spec fn all_cols_covered(t: TableM) -> bool {
    forall|r: int, c: int|
        0 <= r < t.rows.len() && 0 <= c < t.info.non_pk_cols.len() ==> #[trigger] col_pair_covered(
            t,
            r,
            c,
        )
}

/// After the default-divergence pass for one column, every row walked so
/// far is covered for that column.
proof fn lemma_fill_col_covers(t0: TableM, cn0: CountersM, dv: int, j: int, i: int)
    requires
        wf_table(t0),
        0 <= j < t0.info.non_pk_cols.len(),
        0 <= i <= t0.rows.len(),
    ensures
        ({
            let (t1, cn1) = spec_fill_col_upto(t0, cn0, dv, j, i);
            forall|r: int| 0 <= r < i ==> #[trigger] col_pair_covered(t1, r, j)
        }),
    decreases i,
{
    let col = ColM::Col(t0.info.non_pk_cols[j].name);
    if i > 0 {
        lemma_fill_col_covers(t0, cn0, dv, j, i - 1);
        lemma_fill_col_upto(t0, cn0, dv, j, i - 1);
        lemma_fill_col_upto(t0, cn0, dv, j, i);
        let (ta, cna) = spec_fill_col_upto(t0, cn0, dv, j, i - 1);
        let (tb, cnb) = spec_fill_col_row(ta, cna, dv, j, i - 1);
        lemma_fill_col_row(ta, cna, dv, j, i - 1);
        assert(ta.rows == t0.rows && ta.info == t0.info);
        assert(tb.rows == t0.rows && tb.info == t0.info);
        assert forall|r: int| 0 <= r < i implies #[trigger] col_pair_covered(tb, r, j) by {
            if r < i - 1 {
                assert(col_pair_covered(ta, r, j));
                if clock_index_of(ta.clock, t0.rows[r].pk, col) is Some {
                    lemma_entry_persists(ta.clock, tb.clock, t0.rows[r].pk, col);
                }
            } else {
                if clock_index_of(ta.clock, t0.rows[r].pk, col) is Some {
                    lemma_entry_persists(ta.clock, tb.clock, t0.rows[r].pk, col);
                } else if needs_col_backfill(ta, j, i - 1) {
                    lemma_clock_index_of(tb.clock, t0.rows[r].pk, col);
                    assert(tb.clock[tb.clock.len() - 1].pk == t0.rows[r].pk);
                    assert(tb.clock[tb.clock.len() - 1].col == col);
                    if clock_index_of(tb.clock, t0.rows[r].pk, col) is None {
                        assert(false);
                    }
                } else {
                    assert(t0.info.non_pk_cols[j].dflt is Some && t0.rows[r].vals[j]
                        == t0.info.non_pk_cols[j].dflt.unwrap());
                }
            }
        }
    }
}

/// After the default-divergence phase has walked the first `j` columns,
/// every (row, column) pair among them is covered.
proof fn lemma_phase2_covers(t0: TableM, cn0: CountersM, dv: int, j: int)
    requires
        wf_table(t0),
        0 <= j <= t0.info.non_pk_cols.len(),
    ensures
        ({
            let (t1, cn1) = spec_backfill_cols_upto(t0, cn0, dv, j);
            forall|r: int, c: int|
                0 <= r < t0.rows.len() && 0 <= c < j ==> #[trigger] col_pair_covered(t1, r, c)
        }),
    decreases j,
{
    if j > 0 {
        lemma_phase2_covers(t0, cn0, dv, j - 1);
        lemma_backfill_cols_upto(t0, cn0, dv, j - 1);
        let (ta, cna) = spec_backfill_cols_upto(t0, cn0, dv, j - 1);
        lemma_fill_col_upto(ta, cna, dv, j - 1, ta.rows.len() as int);
        lemma_fill_col_covers(ta, cna, dv, j - 1, ta.rows.len() as int);
        let (tb, cnb) = spec_fill_col_upto(ta, cna, dv, j - 1, ta.rows.len() as int);
        assert(ta.rows == t0.rows && ta.info == t0.info);
        assert(tb.rows == t0.rows && tb.info == t0.info);
        assert forall|r: int, c: int|
            0 <= r < t0.rows.len() && 0 <= c < j implies #[trigger] col_pair_covered(
            tb,
            r,
            c,
        ) by {
            if c < j - 1 {
                assert(col_pair_covered(ta, r, c));
                let col = ColM::Col(t0.info.non_pk_cols[c].name);
                if clock_index_of(ta.clock, t0.rows[r].pk, col) is Some {
                    lemma_entry_persists(ta.clock, tb.clock, t0.rows[r].pk, col);
                }
            } else {
                assert(col_pair_covered(tb, r, j - 1));
            }
        }
    }
}

/// Backfill completeness: after backfill, every primary key present in
/// the base table has at least one clock entry, and every non-key column
/// value that differs from its declared default (or whose column declares
/// none) has a clock entry for its column.
pub proof fn lemma_backfill_completeness(t: TableM, cn: CountersM, is_commit_alter: bool)
    requires
        wf_table(t),
        wf_info(t.info),
    ensures
        ({
            let (t2, cn2) = spec_backfill_table(t, cn, is_commit_alter);
            all_rows_covered(t2) && all_cols_covered(t2)
        }),
{
    let dv = crate::backfill::backfill_db_version(cn, is_commit_alter);
    let (t1, cn1) = spec_backfill_rows_upto(t, cn, dv, t.rows.len() as int);
    let (t2, cn2) = spec_backfill_cols_upto(t1, cn1, dv, t1.info.non_pk_cols.len() as int);
    lemma_backfill_rows_upto(t, cn, dv, t.rows.len() as int);
    lemma_phase1_covers(t, cn, dv, t.rows.len() as int);
    lemma_backfill_cols_upto(t1, cn1, dv, t1.info.non_pk_cols.len() as int);
    lemma_phase2_covers(t1, cn1, dv, t1.info.non_pk_cols.len() as int);
    assert(t1.rows == t.rows && t1.info == t.info);
    assert(t2.rows == t.rows && t2.info == t.info);
    assert forall|r: int| 0 <= r < t2.rows.len() implies #[trigger] has_pk_entry(
        t2.clock,
        t2.rows[r].pk,
    ) by {
        assert(has_pk_entry(t1.clock, t.rows[r].pk));
        let w = choose|k: int| 0 <= k < t1.clock.len() && t1.clock[k].pk == t.rows[r].pk;
        assert(t2.clock[w] == t1.clock[w]);
    }
    assert forall|r: int, c: int|
        0 <= r < t2.rows.len() && 0 <= c < t2.info.non_pk_cols.len() implies
        #[trigger] col_pair_covered(t2, r, c) by {
        assert(col_pair_covered(t2, r, c));
    }
}

/// The row-existence phase of a table whose every row already has a
/// clock entry is the identity.
proof fn lemma_phase1_noop(t: TableM, cn: CountersM, dv: int, i: int)
    requires
        0 <= i <= t.rows.len(),
        all_rows_covered(t),
    ensures
        spec_backfill_rows_upto(t, cn, dv, i) == (t, cn),
    decreases i,
{
    if i > 0 {
        lemma_phase1_noop(t, cn, dv, i - 1);
        assert(has_pk_entry(t.clock, t.rows[i - 1].pk));
    }
}

/// One column's default-divergence pass over a fully covered table is
/// the identity.
proof fn lemma_fill_col_noop(t: TableM, cn: CountersM, dv: int, j: int, i: int)
    requires
        0 <= j < t.info.non_pk_cols.len(),
        0 <= i <= t.rows.len(),
        all_cols_covered(t),
    ensures
        spec_fill_col_upto(t, cn, dv, j, i) == (t, cn),
    decreases i,
{
    if i > 0 {
        lemma_fill_col_noop(t, cn, dv, j, i - 1);
        assert(col_pair_covered(t, i - 1, j));
        assert(!needs_col_backfill(t, j, i - 1));
    }
}

/// The default-divergence phase of a fully covered table is the identity.
proof fn lemma_phase2_noop(t: TableM, cn: CountersM, dv: int, j: int)
    requires
        0 <= j <= t.info.non_pk_cols.len(),
        all_cols_covered(t),
    ensures
        spec_backfill_cols_upto(t, cn, dv, j) == (t, cn),
    decreases j,
{
    if j > 0 {
        lemma_phase2_noop(t, cn, dv, j - 1);
        lemma_fill_col_noop(t, cn, dv, j - 1, t.rows.len() as int);
    }
}

/// Idempotent backfill: a second backfill of an already backfilled table
/// synthesizes nothing — the state is a fixed point, whichever mode
/// either run used.
pub proof fn lemma_backfill_idempotent(
    t: TableM,
    cn: CountersM,
    first_alter: bool,
    second_alter: bool,
)
    requires
        wf_table(t),
        wf_info(t.info),
    ensures
        ({
            let (t2, cn2) = spec_backfill_table(t, cn, first_alter);
            spec_backfill_table(t2, cn2, second_alter) == (t2, cn2)
        }),
{
    let (t2, cn2) = spec_backfill_table(t, cn, first_alter);
    let dv2 = crate::backfill::backfill_db_version(cn2, second_alter);
    lemma_backfill_completeness(t, cn, first_alter);
    lemma_phase1_noop(t2, cn2, dv2, t2.rows.len() as int);
    lemma_phase2_noop(t2, cn2, dv2, t2.info.non_pk_cols.len() as int);
}

} // verus!
