use crate::errors::CrsqlError;
use crate::ident::{
    as_identifier_list, escape_ident, escape_ident_as_value, escaped, joined, lemma_joined_push,
    prefix_view, quoted_ident, where_list, where_part,
};
use crate::state::{TableInfo, TableInfoM};
use vstd::prelude::*;

verus! {

/// The comma-joined, quoted primary-key identifier list as it stands in
/// the change-feed projection.
pub open spec fn pk_ident_list(cols: Seq<Seq<char>>) -> Seq<char> {
    joined(cols.map_values(|c: Seq<char>| quoted_ident(c)), ", "@)
}

/// The projection of one table's clock relation into the canonical
/// 8-field change shape.
pub open spec fn spec_changes_query_for_table(info: TableInfoM) -> Seq<char> {
    "SELECT '"@ + escaped(info.name, '\'') + "' as tbl, crsql_pack_columns("@ + pk_ident_list(
        info.pk_cols,
    )
        + ") as pks, __crsql_col_name as cid, __crsql_col_version as col_vrsn, __crsql_db_version as db_vrsn, __crsql_site_id as site_id, _rowid_, __crsql_seq as seq FROM \""@
        + escaped(info.name, '"') + "__crsql_clock\""@
}

/// Every listed table carries at least one primary-key column: a
/// replicated identity requires a stable key.
pub open spec fn all_have_pks(infos: Seq<TableInfoM>) -> bool {
    forall|k: int| 0 <= k < infos.len() ==> infos[k].pk_cols.len() > 0
}

/// The single unioned change feed over every listed table, with the
/// externally supplied ordering/pagination clause appended.
pub open spec fn spec_changes_union_query(infos: Seq<TableInfoM>, idx: Seq<char>) -> Seq<char> {
    "SELECT tbl, pks, cid, col_vrsn, db_vrsn, site_id, _rowid_, seq FROM ("@ + joined(
        infos.map_values(|im: TableInfoM| spec_changes_query_for_table(im)),
        " UNION ALL "@,
    ) + ") "@ + idx
}

/// The single-row, single-column read used to fetch the current value a
/// change record patches.
pub open spec fn spec_row_patch_data_query(info: TableInfoM, col: Seq<char>) -> Seq<char> {
    "SELECT \""@ + escaped(col, '"') + "\" FROM \""@ + escaped(info.name, '"') + "\" WHERE "@
        + joined(info.pk_cols.map_values(|c: Seq<char>| where_part(c)), " AND "@)
}

/// An identifier list without a prefix is the plain quoted list.
proof fn lemma_no_prefix_idents(cols: Seq<Seq<char>>)
    ensures
        cols.map_values(|c: Seq<char>| prefix_view(Option::None) + quoted_ident(c))
            == cols.map_values(|c: Seq<char>| quoted_ident(c)),
{
    let a = cols.map_values(|c: Seq<char>| prefix_view(Option::None) + quoted_ident(c));
    let b = cols.map_values(|c: Seq<char>| quoted_ident(c));
    assert forall|k: int| 0 <= k < cols.len() implies a[k] == b[k] by {
        assert(prefix_view(Option::None) + quoted_ident(cols[k]) =~= quoted_ident(cols[k]));
    }
    assert(a =~= b);
}

/// Builds the projection of one table's clock relation into the canonical
/// 8-field change record shape, ready to stand in the union feed. Fails
/// with `NoPrimaryKey` exactly when the table has no primary-key columns.
pub fn changes_query_for_table(info: &TableInfo) -> (r: Result<String, CrsqlError>)
    ensures
        match r {
            Result::Ok(q) => info.pk_cols@.len() > 0 && q@ == spec_changes_query_for_table(
                info.deep_view(),
            ),
            Result::Err(e) => info.pk_cols@.len() == 0 && e == CrsqlError::NoPrimaryKey,
        },
{
    if info.pk_cols.len() == 0 {
        return Result::Err(CrsqlError::NoPrimaryKey);
    }
    let pk_list = match as_identifier_list(&info.pk_cols, Option::None) {
        Result::Ok(s) => s,
        Result::Err(_) => {
            return Result::Err(CrsqlError::NoPrimaryKey);
        },
    };
    proof {
        lemma_no_prefix_idents(info.pk_cols.deep_view());
    }
    let tbl_val = escape_ident_as_value(info.name.as_str());
    let tbl_ident = escape_ident(info.name.as_str());
    let mut q = String::new();
    q.append("SELECT '");
    q.append(tbl_val.as_str());
    q.append("' as tbl, crsql_pack_columns(");
    q.append(pk_list.as_str());
    q.append(
        ") as pks, __crsql_col_name as cid, __crsql_col_version as col_vrsn, __crsql_db_version as db_vrsn, __crsql_site_id as site_id, _rowid_, __crsql_seq as seq FROM \"",
    );
    q.append(tbl_ident.as_str());
    q.append("__crsql_clock\"");
    proof {
        assert(q@ =~= spec_changes_query_for_table(info.deep_view()));
    }
    Result::Ok(q)
}

/// Builds the single query that unions every table's change projection
/// and appends the externally supplied ordering/pagination clause, so a
/// consumer can page through the global feed in causal order. Fails fast
/// with `NoPrimaryKey` — never a partial union — exactly when some listed
/// table has no primary-key columns.
pub fn changes_union_query(table_infos: &Vec<TableInfo>, idx_str: &str) -> (r: Result<
    String,
    CrsqlError,
>)
    ensures
        match r {
            Result::Ok(q) => all_have_pks(table_infos.deep_view()) && q@
                == spec_changes_union_query(table_infos.deep_view(), idx_str@),
            Result::Err(e) => !all_have_pks(table_infos.deep_view()) && e
                == CrsqlError::NoPrimaryKey,
        },
{
    let ghost infos = table_infos.deep_view();
    let ghost parts = infos.map_values(|im: TableInfoM| spec_changes_query_for_table(im));
    let mut unions = String::new();
    let mut i: usize = 0;
    proof {
        assert(parts.take(0) =~= Seq::<Seq<char>>::empty());
    }
    while i < table_infos.len()
        invariant
            i <= table_infos@.len(),
            infos == table_infos.deep_view(),
            parts == infos.map_values(|im: TableInfoM| spec_changes_query_for_table(im)),
            parts.len() == table_infos@.len(),
            infos.len() == table_infos@.len(),
            forall|k: int| 0 <= k < i ==> infos[k].pk_cols.len() > 0,
            unions@ == joined(parts.take(i as int), " UNION ALL "@),
        decreases table_infos@.len() - i,
    {
        let part = match changes_query_for_table(&table_infos[i]) {
            Result::Ok(p) => p,
            Result::Err(e) => {
                proof {
                    assert(infos[i as int].pk_cols.len() == 0);
                }
                return Result::Err(e);
            },
        };
        proof {
            assert(table_infos@[i as int].deep_view() == infos[i as int]);
            assert(part@ == parts[i as int]);
        }
        if i > 0 {
            unions.append(" UNION ALL ");
        }
        unions.append(part.as_str());
        proof {
            if i > 0 {
                lemma_joined_push(parts.take(i as int), parts[i as int], " UNION ALL "@);
                assert(unions@ =~= joined(parts.take(i as int), " UNION ALL "@) + " UNION ALL "@
                    + parts[i as int]);
            } else {
                assert(parts.take(1).len() == 1);
                assert(joined(parts.take(1), " UNION ALL "@) == parts.take(1)[0]);
                assert(unions@ =~= parts[0]);
            }
            assert(parts.take(i as int + 1) =~= parts.take(i as int).push(parts[i as int]));
        }
        i = i + 1;
    }
    proof {
        assert(parts.take(table_infos@.len() as int) =~= parts);
    }
    let mut q = String::new();
    q.append("SELECT tbl, pks, cid, col_vrsn, db_vrsn, site_id, _rowid_, seq FROM (");
    q.append(unions.as_str());
    q.append(") ");
    q.append(idx_str);
    proof {
        assert(q@ =~= spec_changes_union_query(infos, idx_str@));
    }
    Result::Ok(q)
}

/// Builds the query that reads the current value of one column for the
/// row a change record identifies, bound by the primary-key WHERE list.
/// Yields nothing exactly when the table has no primary-key columns.
pub fn row_patch_data_query(table_info: &TableInfo, col_name: &str) -> (r: Option<String>)
    ensures
        match r {
            Option::Some(q) => table_info.pk_cols@.len() > 0 && q@ == spec_row_patch_data_query(
                table_info.deep_view(),
                col_name@,
            ),
            Option::None => table_info.pk_cols@.len() == 0,
        },
{
    let wl = match where_list(&table_info.pk_cols) {
        Result::Ok(s) => s,
        Result::Err(_) => {
            return Option::None;
        },
    };
    let col_ident = escape_ident(col_name);
    let tbl_ident = escape_ident(table_info.name.as_str());
    let mut q = String::new();
    q.append("SELECT \"");
    q.append(col_ident.as_str());
    q.append("\" FROM \"");
    q.append(tbl_ident.as_str());
    q.append("\" WHERE ");
    q.append(wl.as_str());
    proof {
        assert(q@ =~= spec_row_patch_data_query(table_info.deep_view(), col_name@));
    }
    Option::Some(q)
}

} // verus!
