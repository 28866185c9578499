use crate::errors::CrsqlError;
use crate::ident::{
    as_identifier_list, binding_list, escape_ident, escaped, joined, lemma_joined_push,
    prefix_view, quoted_ident, where_list, where_part,
};
use crate::state::DELETE_SENTINEL;
use vstd::prelude::*;

verus! {

/// The conjunctive primary-key WHERE list as the merge statements embed
/// it.
pub open spec fn where_join(cols: Seq<Seq<char>>) -> Seq<char> {
    joined(cols.map_values(|c: Seq<char>| where_part(c)), " AND "@)
}

/// The plain quoted identifier list as the insert statements embed it.
pub open spec fn ident_join(cols: Seq<Seq<char>>) -> Seq<char> {
    joined(cols.map_values(|c: Seq<char>| quoted_ident(c)), ", "@)
}

/// A positional bind list of the given arity.
pub open spec fn bind_join(n: nat) -> Seq<char> {
    joined(Seq::new(n, |i: int| "?"@), ", "@)
}

/// One column of the per-key pairing between the base table (`t1`) and
/// its clock relation (`t2`), with the given comparator between them.
pub open spec fn pair_part(c: Seq<char>, mid: Seq<char>) -> Seq<char> {
    "t1."@ + quoted_ident(c) + mid + quoted_ident(c)
}

/// The conjunction of per-key pairings.
pub open spec fn pair_join(cols: Seq<Seq<char>>, mid: Seq<char>) -> Seq<char> {
    joined(cols.map_values(|c: Seq<char>| pair_part(c, mid)), " AND "@)
}

/// Builds the `t1`/`t2` per-key pairing list: one `t1."k"<mid>t2."k"`
/// conjunct per primary-key column.
fn pair_join_list(cols: &Vec<String>, mid: &str) -> (r: Result<String, CrsqlError>)
    ensures
        match r {
            Result::Ok(s) => cols@.len() > 0 && s@ == pair_join(cols.deep_view(), mid@),
            Result::Err(e) => cols@.len() == 0 && e == CrsqlError::InvalidSchema,
        },
{
    if cols.len() == 0 {
        return Result::Err(CrsqlError::InvalidSchema);
    }
    let ghost parts = cols.deep_view().map_values(|c: Seq<char>| pair_part(c, mid@));
    let mut out = String::new();
    let mut i: usize = 0;
    proof {
        assert(parts.take(0) =~= Seq::<Seq<char>>::empty());
        assert(cols.deep_view().len() == cols@.len());
    }
    while i < cols.len()
        invariant
            i <= cols@.len(),
            parts == cols.deep_view().map_values(|c: Seq<char>| pair_part(c, mid@)),
            parts.len() == cols@.len(),
            cols.deep_view().len() == cols@.len(),
            out@ == joined(parts.take(i as int), " AND "@),
        decreases cols@.len() - i,
    {
        let esc = escape_ident(cols[i].as_str());
        let mut part = String::new();
        proof {
            reveal_strlit("\"");
            assert("\""@ =~= seq!['"']);
        }
        part.append("t1.");
        part.append("\"");
        part.append(esc.as_str());
        part.append("\"");
        part.append(mid);
        part.append("\"");
        part.append(esc.as_str());
        part.append("\"");
        proof {
            assert(cols.deep_view()[i as int] == cols@[i as int]@);
            assert(part@ =~= parts[i as int]);
        }
        if i > 0 {
            out.append(" AND ");
        }
        out.append(part.as_str());
        proof {
            if i > 0 {
                lemma_joined_push(parts.take(i as int), parts[i as int], " AND "@);
                assert(out@ =~= joined(parts.take(i as int), " AND "@) + " AND "@
                    + parts[i as int]);
            } else {
                assert(parts.take(1).len() == 1);
                assert(joined(parts.take(1), " AND "@) == parts.take(1)[0]);
                assert(out@ =~= parts[0]);
            }
            assert(parts.take(i as int + 1) =~= parts.take(i as int).push(parts[i as int]));
        }
        i = i + 1;
    }
    proof {
        assert(parts.take(cols@.len() as int) =~= parts);
    }
    Result::Ok(out)
}

/// The statement that reads the locally recorded `col_version` for one
/// `(pk, column)` pair from the clock relation.
pub open spec fn spec_col_version_sql(table: Seq<char>, pk_cols: Seq<Seq<char>>) -> Seq<char> {
    "SELECT __crsql_col_version FROM \""@ + escaped(table, '"') + "__crsql_clock\" WHERE "@
        + where_join(pk_cols) + " AND ? = __crsql_col_name"@
}

/// Builds [`spec_col_version_sql`]. Fails with `InvalidSchema` exactly
/// when the key column list is empty.
pub fn col_version_sql(table: &str, pk_cols: &Vec<String>) -> (r: Result<String, CrsqlError>)
    ensures
        match r {
            Result::Ok(s) => pk_cols@.len() > 0 && s@ == spec_col_version_sql(
                table@,
                pk_cols.deep_view(),
            ),
            Result::Err(e) => pk_cols@.len() == 0 && e == CrsqlError::InvalidSchema,
        },
{
    let wl = where_list(pk_cols)?;
    let esc = escape_ident(table);
    let mut q = String::new();
    q.append("SELECT __crsql_col_version FROM \"");
    q.append(esc.as_str());
    q.append("__crsql_clock\" WHERE ");
    q.append(wl.as_str());
    q.append(" AND ? = __crsql_col_name");
    proof {
        assert(q@ =~= spec_col_version_sql(table@, pk_cols.deep_view()));
    }
    Result::Ok(q)
}

/// The statement that probes the clock relation for a delete tombstone.
pub open spec fn spec_local_delete_check_sql(table: Seq<char>, pk_cols: Seq<Seq<char>>) -> Seq<
    char,
> {
    "SELECT 1 FROM \""@ + escaped(table, '"') + "__crsql_clock\" WHERE "@ + where_join(pk_cols)
        + " AND __crsql_col_name = '"@ + DELETE_SENTINEL@ + "' LIMIT 1"@
}

/// Builds [`spec_local_delete_check_sql`].
pub fn local_delete_check_sql(table: &str, pk_cols: &Vec<String>) -> (r: Result<
    String,
    CrsqlError,
>)
    ensures
        match r {
            Result::Ok(s) => pk_cols@.len() > 0 && s@ == spec_local_delete_check_sql(
                table@,
                pk_cols.deep_view(),
            ),
            Result::Err(e) => pk_cols@.len() == 0 && e == CrsqlError::InvalidSchema,
        },
{
    let wl = where_list(pk_cols)?;
    let esc = escape_ident(table);
    let mut q = String::new();
    q.append("SELECT 1 FROM \"");
    q.append(esc.as_str());
    q.append("__crsql_clock\" WHERE ");
    q.append(wl.as_str());
    q.append(" AND __crsql_col_name = '");
    q.append(DELETE_SENTINEL);
    q.append("' LIMIT 1");
    proof {
        assert(q@ =~= spec_local_delete_check_sql(table@, pk_cols.deep_view()));
    }
    Result::Ok(q)
}

/// The winner-clock upsert: insert-or-replace of one clock entry, with
/// `db_version` resolved in SQL to the maximum of the next local version
/// and the bound remote version, and `seq` drawn from the shared counter.
pub open spec fn spec_winner_clock_sql(table: Seq<char>, pk_cols: Seq<Seq<char>>) -> Seq<char> {
    "INSERT OR REPLACE INTO \""@ + escaped(table, '"') + "__crsql_clock\" ("@ + ident_join(pk_cols)
        + ", __crsql_col_name, __crsql_col_version, __crsql_db_version, __crsql_seq, __crsql_site_id) VALUES ("@
        + bind_join(pk_cols.len())
        + ", ?, ?, MAX(crsql_nextdbversion(), ?), crsql_increment_and_get_seq(), ?) RETURNING _rowid_"@
}

/// Builds [`spec_winner_clock_sql`].
pub fn winner_clock_sql(table: &str, pk_cols: &Vec<String>) -> (r: Result<String, CrsqlError>)
    ensures
        match r {
            Result::Ok(s) => pk_cols@.len() > 0 && s@ == spec_winner_clock_sql(
                table@,
                pk_cols.deep_view(),
            ),
            Result::Err(e) => pk_cols@.len() == 0 && e == CrsqlError::InvalidSchema,
        },
{
    let idents = as_identifier_list(pk_cols, Option::None)?;
    proof {
        lemma_no_prefix_ident_join(pk_cols.deep_view());
    }
    let binds = binding_list(pk_cols.len());
    let esc = escape_ident(table);
    let mut q = String::new();
    q.append("INSERT OR REPLACE INTO \"");
    q.append(esc.as_str());
    q.append("__crsql_clock\" (");
    q.append(idents.as_str());
    q.append(
        ", __crsql_col_name, __crsql_col_version, __crsql_db_version, __crsql_seq, __crsql_site_id) VALUES (",
    );
    q.append(binds.as_str());
    q.append(", ?, ?, MAX(crsql_nextdbversion(), ?), crsql_increment_and_get_seq(), ?) RETURNING _rowid_");
    proof {
        assert(q@ =~= spec_winner_clock_sql(table@, pk_cols.deep_view()));
    }
    Result::Ok(q)
}

/// An identifier list without a prefix is the plain quoted list.
proof fn lemma_no_prefix_ident_join(cols: Seq<Seq<char>>)
    ensures
        cols.map_values(|c: Seq<char>| prefix_view(Option::None) + quoted_ident(c))
            == cols.map_values(|c: Seq<char>| quoted_ident(c)),
{
    let a = cols.map_values(|c: Seq<char>| prefix_view(Option::None) + quoted_ident(c));
    let b = cols.map_values(|c: Seq<char>| quoted_ident(c));
    assert forall|k: int| 0 <= k < cols.len() implies a[k] == b[k] by {
        assert(prefix_view(Option::None) + quoted_ident(cols[k]) =~= quoted_ident(cols[k]));
    }
    assert(a =~= b);
}

/// The idempotent primary-key insert used for pk-only markers and
/// unknown columns.
pub open spec fn spec_pk_only_insert_sql(table: Seq<char>, pk_cols: Seq<Seq<char>>) -> Seq<char> {
    "INSERT OR IGNORE INTO \""@ + escaped(table, '"') + "\" ("@ + ident_join(pk_cols) + ") VALUES ("@
        + bind_join(pk_cols.len()) + ")"@
}

/// Builds [`spec_pk_only_insert_sql`].
pub fn pk_only_insert_sql(table: &str, pk_cols: &Vec<String>) -> (r: Result<String, CrsqlError>)
    ensures
        match r {
            Result::Ok(s) => pk_cols@.len() > 0 && s@ == spec_pk_only_insert_sql(
                table@,
                pk_cols.deep_view(),
            ),
            Result::Err(e) => pk_cols@.len() == 0 && e == CrsqlError::InvalidSchema,
        },
{
    let idents = as_identifier_list(pk_cols, Option::None)?;
    proof {
        lemma_no_prefix_ident_join(pk_cols.deep_view());
    }
    let binds = binding_list(pk_cols.len());
    let esc = escape_ident(table);
    let mut q = String::new();
    q.append("INSERT OR IGNORE INTO \"");
    q.append(esc.as_str());
    q.append("\" (");
    q.append(idents.as_str());
    q.append(") VALUES (");
    q.append(binds.as_str());
    q.append(")");
    proof {
        assert(q@ =~= spec_pk_only_insert_sql(table@, pk_cols.deep_view()));
    }
    Result::Ok(q)
}

/// The physical row delete bound by the primary-key WHERE list.
pub open spec fn spec_merge_delete_sql(table: Seq<char>, pk_cols: Seq<Seq<char>>) -> Seq<char> {
    "DELETE FROM \""@ + escaped(table, '"') + "\" WHERE "@ + where_join(pk_cols)
}

/// Builds [`spec_merge_delete_sql`].
pub fn merge_delete_sql(table: &str, pk_cols: &Vec<String>) -> (r: Result<String, CrsqlError>)
    ensures
        match r {
            Result::Ok(s) => pk_cols@.len() > 0 && s@ == spec_merge_delete_sql(
                table@,
                pk_cols.deep_view(),
            ),
            Result::Err(e) => pk_cols@.len() == 0 && e == CrsqlError::InvalidSchema,
        },
{
    let wl = where_list(pk_cols)?;
    let esc = escape_ident(table);
    let mut q = String::new();
    q.append("DELETE FROM \"");
    q.append(esc.as_str());
    q.append("\" WHERE ");
    q.append(wl.as_str());
    proof {
        assert(q@ =~= spec_merge_delete_sql(table@, pk_cols.deep_view()));
    }
    Result::Ok(q)
}

/// The column upsert committed when a change wins: an insert carrying the
/// key and the value that falls back to a single-column update on
/// conflict, so it works whether the row exists or not.
pub open spec fn spec_merge_upsert_sql(
    table: Seq<char>,
    pk_cols: Seq<Seq<char>>,
    col: Seq<char>,
) -> Seq<char> {
    "INSERT INTO \""@ + escaped(table, '"') + "\" ("@ + ident_join(pk_cols) + ", "@ + quoted_ident(
        col,
    ) + ") VALUES ("@ + bind_join(pk_cols.len()) + ", ?) ON CONFLICT DO UPDATE SET "@
        + quoted_ident(col) + " = ?"@
}

/// Builds [`spec_merge_upsert_sql`].
pub fn merge_upsert_sql(table: &str, pk_cols: &Vec<String>, col: &str) -> (r: Result<
    String,
    CrsqlError,
>)
    ensures
        match r {
            Result::Ok(s) => pk_cols@.len() > 0 && s@ == spec_merge_upsert_sql(
                table@,
                pk_cols.deep_view(),
                col@,
            ),
            Result::Err(e) => pk_cols@.len() == 0 && e == CrsqlError::InvalidSchema,
        },
{
    let idents = as_identifier_list(pk_cols, Option::None)?;
    proof {
        lemma_no_prefix_ident_join(pk_cols.deep_view());
        reveal_strlit("\"");
        assert("\""@ =~= seq!['"']);
    }
    let binds = binding_list(pk_cols.len());
    let esc = escape_ident(table);
    let col_esc = escape_ident(col);
    let mut q = String::new();
    q.append("INSERT INTO \"");
    q.append(esc.as_str());
    q.append("\" (");
    q.append(idents.as_str());
    q.append(", ");
    q.append("\"");
    q.append(col_esc.as_str());
    q.append("\"");
    q.append(") VALUES (");
    q.append(binds.as_str());
    q.append(", ?) ON CONFLICT DO UPDATE SET ");
    q.append("\"");
    q.append(col_esc.as_str());
    q.append("\"");
    q.append(" = ?");
    proof {
        assert(q@ =~= spec_merge_upsert_sql(table@, pk_cols.deep_view(), col@));
    }
    Result::Ok(q)
}

/// The row-existence candidate scan: every primary key of the base table
/// with no clock entry at all, keys paired with `IS` so null-valued key
/// components still match.
pub open spec fn spec_backfill_select_sql(table: Seq<char>, pk_cols: Seq<Seq<char>>) -> Seq<char> {
    "SELECT "@ + joined(
        pk_cols.map_values(|c: Seq<char>| "t1."@ + quoted_ident(c)),
        ", "@,
    ) + " FROM \""@ + escaped(table, '"')
        + "\" AS t1 WHERE NOT EXISTS (SELECT 1 FROM \""@ + escaped(table, '"')
        + "__crsql_clock\" AS t2 WHERE "@ + pair_join(pk_cols, " IS t2."@) + ")"@
}

/// Builds [`spec_backfill_select_sql`].
pub fn backfill_select_sql(table: &str, pk_cols: &Vec<String>) -> (r: Result<String, CrsqlError>)
    ensures
        match r {
            Result::Ok(s) => pk_cols@.len() > 0 && s@ == spec_backfill_select_sql(
                table@,
                pk_cols.deep_view(),
            ),
            Result::Err(e) => pk_cols@.len() == 0 && e == CrsqlError::InvalidSchema,
        },
{
    let sel = as_identifier_list(pk_cols, Option::Some("t1."))?;
    proof {
        lemma_prefixed_ident_join(pk_cols.deep_view());
    }
    let pairs = pair_join_list(pk_cols, " IS t2.")?;
    let esc = escape_ident(table);
    let mut q = String::new();
    q.append("SELECT ");
    q.append(sel.as_str());
    q.append(" FROM \"");
    q.append(esc.as_str());
    q.append("\" AS t1 WHERE NOT EXISTS (SELECT 1 FROM \"");
    q.append(esc.as_str());
    q.append("__crsql_clock\" AS t2 WHERE ");
    q.append(pairs.as_str());
    q.append(")");
    proof {
        assert(q@ =~= spec_backfill_select_sql(table@, pk_cols.deep_view()));
    }
    Result::Ok(q)
}

/// The `t1.`-prefixed identifier list coincides with the prefixed form
/// the generic list builder produces.
proof fn lemma_prefixed_ident_join(cols: Seq<Seq<char>>)
    ensures
        cols.map_values(|c: Seq<char>| prefix_view(Option::Some("t1.")) + quoted_ident(c))
            == cols.map_values(|c: Seq<char>| "t1."@ + quoted_ident(c)),
{
    let a = cols.map_values(|c: Seq<char>| prefix_view(Option::Some("t1.")) + quoted_ident(c));
    let b = cols.map_values(|c: Seq<char>| "t1."@ + quoted_ident(c));
    assert forall|k: int| 0 <= k < cols.len() implies a[k] == b[k] by {}
    assert(a =~= b);
}

/// The clock-row insert the backfill steps for each candidate key: one
/// row per target column at `col_version` 1, with the version getter
/// chosen by the backfill mode — the current version for an alter-commit
/// backfill, the next version for a pure migration.
pub open spec fn spec_backfill_insert_sql(
    table: Seq<char>,
    pk_cols: Seq<Seq<char>>,
    is_commit_alter: bool,
) -> Seq<char> {
    "INSERT INTO \""@ + escaped(table, '"') + "__crsql_clock\" ("@ + ident_join(pk_cols)
        + ", __crsql_col_name, __crsql_col_version, __crsql_db_version, __crsql_seq) VALUES ("@
        + bind_join(pk_cols.len()) + ", ?, 1, "@ + (if is_commit_alter {
        "crsql_dbversion()"@
    } else {
        "crsql_nextdbversion()"@
    }) + ", crsql_increment_and_get_seq())"@
}

/// Builds [`spec_backfill_insert_sql`].
pub fn backfill_insert_sql(table: &str, pk_cols: &Vec<String>, is_commit_alter: bool) -> (r:
    Result<String, CrsqlError>)
    ensures
        match r {
            Result::Ok(s) => pk_cols@.len() > 0 && s@ == spec_backfill_insert_sql(
                table@,
                pk_cols.deep_view(),
                is_commit_alter,
            ),
            Result::Err(e) => pk_cols@.len() == 0 && e == CrsqlError::InvalidSchema,
        },
{
    let idents = as_identifier_list(pk_cols, Option::None)?;
    proof {
        lemma_no_prefix_ident_join(pk_cols.deep_view());
    }
    let binds = binding_list(pk_cols.len());
    let esc = escape_ident(table);
    let mut q = String::new();
    q.append("INSERT INTO \"");
    q.append(esc.as_str());
    q.append("__crsql_clock\" (");
    q.append(idents.as_str());
    q.append(", __crsql_col_name, __crsql_col_version, __crsql_db_version, __crsql_seq) VALUES (");
    q.append(binds.as_str());
    q.append(", ?, 1, ");
    if is_commit_alter {
        q.append("crsql_dbversion()");
    } else {
        q.append("crsql_nextdbversion()");
    }
    q.append(", crsql_increment_and_get_seq())");
    proof {
        assert(q@ =~= spec_backfill_insert_sql(table@, pk_cols.deep_view(), is_commit_alter));
    }
    Result::Ok(q)
}

/// The default-divergence candidate scan for one column: keys whose clock
/// relation lacks an entry for the column, filtered — when the column
/// declares a default, rendered by the host as SQL text — to rows whose
/// current value diverges from it.
pub open spec fn spec_fill_column_select_sql(
    table: Seq<char>,
    pk_cols: Seq<Seq<char>>,
    col: Seq<char>,
    dflt_sql: Option<Seq<char>>,
) -> Seq<char> {
    "SELECT "@ + joined(pk_cols.map_values(|c: Seq<char>| "t1."@ + quoted_ident(c)), ", "@)
        + " FROM \""@ + escaped(table, '"') + "\" AS t1 LEFT JOIN \""@ + escaped(table, '"')
        + "__crsql_clock\" AS t2 ON "@ + pair_join(pk_cols, " = t2."@)
        + " AND t2.__crsql_col_name = ? WHERE t2."@ + quoted_ident(pk_cols[0]) + " IS NULL"@ + (
    match dflt_sql {
        Option::Some(d) => " AND t1."@ + quoted_ident(col) + " IS NOT "@ + d,
        Option::None => Seq::<char>::empty(),
    })
}

/// Builds [`spec_fill_column_select_sql`]. `dflt_sql` is the column's
/// declared default as SQL text, supplied by the host's schema reader.
pub fn fill_column_select_sql(
    table: &str,
    pk_cols: &Vec<String>,
    col: &str,
    dflt_sql: Option<&str>,
) -> (r: Result<String, CrsqlError>)
    ensures
        match r {
            Result::Ok(s) => pk_cols@.len() > 0 && s@ == spec_fill_column_select_sql(
                table@,
                pk_cols.deep_view(),
                col@,
                match dflt_sql {
                    Option::Some(d) => Option::Some(d@),
                    Option::None => Option::None,
                },
            ),
            Result::Err(e) => pk_cols@.len() == 0 && e == CrsqlError::InvalidSchema,
        },
{
    let sel = as_identifier_list(pk_cols, Option::Some("t1."))?;
    proof {
        lemma_prefixed_ident_join(pk_cols.deep_view());
        reveal_strlit("\"");
        assert("\""@ =~= seq!['"']);
    }
    let pairs = pair_join_list(pk_cols, " = t2.")?;
    let esc = escape_ident(table);
    let first_pk = escape_ident(pk_cols[0].as_str());
    let mut q = String::new();
    q.append("SELECT ");
    q.append(sel.as_str());
    q.append(" FROM \"");
    q.append(esc.as_str());
    q.append("\" AS t1 LEFT JOIN \"");
    q.append(esc.as_str());
    q.append("__crsql_clock\" AS t2 ON ");
    q.append(pairs.as_str());
    q.append(" AND t2.__crsql_col_name = ? WHERE t2.");
    q.append("\"");
    q.append(first_pk.as_str());
    q.append("\"");
    q.append(" IS NULL");
    proof {
        assert(pk_cols.deep_view()[0] == pk_cols@[0]@);
    }
    if let Option::Some(d) = dflt_sql {
        let col_esc = escape_ident(col);
        q.append(" AND t1.");
        q.append("\"");
        q.append(col_esc.as_str());
        q.append("\"");
        q.append(" IS NOT ");
        q.append(d);
    }
    proof {
        assert(q@ =~= spec_fill_column_select_sql(
            table@,
            pk_cols.deep_view(),
            col@,
            match dflt_sql {
                Option::Some(d) => Option::Some(d@),
                Option::None => Option::None,
            },
        ));
    }
    Result::Ok(q)
}

} // verus!
