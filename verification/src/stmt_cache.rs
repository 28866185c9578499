use crate::state::string_equal;
use vstd::prelude::*;

verus! {

/// The kinds of prepared statements the merge engine caches, one per
/// operation. Table and column identifiers cannot be bound as parameters,
/// so each distinct (kind, table, optional column) needs its own compiled
/// statement; caching avoids re-parsing hot merge queries.
#[derive(Clone, Copy, Debug, PartialEq, Eq, Structural)]
pub enum CachedStmtType {
    GetColVersion,
    GetCurrValue,
    CheckForLocalDelete,
    SetWinnerClock,
    MergePkOnlyInsert,
    MergeDelete,
    MergeInsert,
}

/// The fixed label of each statement kind within a cache key.
pub open spec fn kind_label(k: CachedStmtType) -> Seq<char> {
    match k {
        CachedStmtType::GetColVersion => "get_col_version"@,
        CachedStmtType::GetCurrValue => "get_curr_value"@,
        CachedStmtType::CheckForLocalDelete => "check_for_local_delete"@,
        CachedStmtType::SetWinnerClock => "set_winner_clock"@,
        CachedStmtType::MergePkOnlyInsert => "merge_pk_only_insert"@,
        CachedStmtType::MergeDelete => "merge_delete"@,
        CachedStmtType::MergeInsert => "merge_insert"@,
    }
}

/// A cache key: the statement kind, the table, and the column for the
/// statements that embed one.
pub open spec fn spec_cache_key(
    k: CachedStmtType,
    table: Seq<char>,
    col: Option<Seq<char>>,
) -> Seq<char> {
    kind_label(k) + "_"@ + table + (match col {
        Option::Some(c) => "_"@ + c,
        Option::None => Seq::<char>::empty(),
    })
}

/// Builds the cache key for one (kind, table, optional column).
pub fn get_cache_key(kind: CachedStmtType, table: &str, col: Option<&str>) -> (r: String)
    ensures
        r@ == spec_cache_key(
            kind,
            table@,
            match col {
                Option::Some(c) => Option::Some(c@),
                Option::None => Option::None,
            },
        ),
{
    let mut key = String::new();
    match kind {
        CachedStmtType::GetColVersion => key.append("get_col_version"),
        CachedStmtType::GetCurrValue => key.append("get_curr_value"),
        CachedStmtType::CheckForLocalDelete => key.append("check_for_local_delete"),
        CachedStmtType::SetWinnerClock => key.append("set_winner_clock"),
        CachedStmtType::MergePkOnlyInsert => key.append("merge_pk_only_insert"),
        CachedStmtType::MergeDelete => key.append("merge_delete"),
        CachedStmtType::MergeInsert => key.append("merge_insert"),
    }
    key.append("_");
    key.append(table);
    if let Option::Some(c) = col {
        key.append("_");
        key.append(c);
    }
    proof {
        assert(key@ =~= spec_cache_key(
            kind,
            table@,
            match col {
                Option::Some(c) => Option::Some(c@),
                Option::None => Option::None,
            },
        ));
    }
    key
}

/// Mathematical form of one cache slot.
pub ghost struct CachedStmtM {
    pub key: Seq<char>,
    pub sql: Seq<char>,
}

/// One cache slot: the key and the compiled statement's text. The text
/// stands for the host's prepared-statement handle, which the host keeps
/// beside it; statements are reset and rebound rather than re-prepared.
#[derive(Clone, Debug)]
pub struct CachedStmt {
    pub key: String,
    pub sql: String,
}

impl DeepView for CachedStmt {
    type V = CachedStmtM;

    open spec fn deep_view(&self) -> CachedStmtM {
        CachedStmtM { key: self.key@, sql: self.sql@ }
    }
}

/// The text cached under the first slot with the given key, if any.
/// Under [`StmtCache::wf`] it is the only one.
pub open spec fn cache_lookup(entries: Seq<CachedStmtM>, key: Seq<char>) -> Option<Seq<char>>
    decreases entries.len(),
{
    if entries.len() == 0 {
        Option::None
    } else if entries[0].key == key {
        Option::Some(entries[0].sql)
    } else {
        cache_lookup(entries.drop_first(), key)
    }
}

/// What `cache_lookup` returns.
pub proof fn lemma_cache_lookup(entries: Seq<CachedStmtM>, key: Seq<char>)
    ensures
        match cache_lookup(entries, key) {
            Option::Some(sql) => exists|i: int|
                0 <= i < entries.len() && entries[i].key == key && entries[i].sql == sql,
            Option::None => forall|i: int| 0 <= i < entries.len() ==> entries[i].key != key,
        },
    decreases entries.len(),
{
    if entries.len() != 0 && entries[0].key != key {
        lemma_cache_lookup(entries.drop_first(), key);
        assert(forall|i: int|
            1 <= i < entries.len() ==> #[trigger] entries[i] == entries.drop_first()[i - 1]);
    }
}

/// The connection-scoped statement cache. The host engine serializes all
/// access on one connection, so no synchronization guards it.
#[derive(Clone, Debug)]
pub struct StmtCache {
    pub entries: Vec<CachedStmt>,
}

impl StmtCache {
    /// Unique keys: at most one slot per key.
    pub open spec fn wf(&self) -> bool {
        forall|i: int, j: int|
            0 <= i < j < self.entries.deep_view().len() ==> self.entries.deep_view()[i].key
                != self.entries.deep_view()[j].key
    }

    /// An empty cache.
    pub fn new() -> (r: StmtCache)
        ensures
            r.entries.deep_view() == Seq::<CachedStmtM>::empty(),
            r.wf(),
    {
        let r = StmtCache { entries: Vec::new() };
        proof {
            assert(r.entries.deep_view() =~= Seq::<CachedStmtM>::empty());
        }
        r
    }

    /// The cached statement text for the key, if one is cached.
    pub fn get(&self, key: &String) -> (r: Option<String>)
        ensures
            match r {
                Option::Some(sql) => cache_lookup(self.entries.deep_view(), key@) == Option::Some(
                    sql@,
                ),
                Option::None => cache_lookup(self.entries.deep_view(), key@) is None,
            },
    {
        let ghost em = self.entries.deep_view();
        let mut i: usize = 0;
        while i < self.entries.len()
            invariant
                i <= self.entries@.len(),
                em == self.entries.deep_view(),
                em.len() == self.entries@.len(),
                forall|k: int| 0 <= k < i ==> em[k].key != key@,
            decreases self.entries@.len() - i,
        {
            if string_equal(&self.entries[i].key, key) {
                proof {
                    lemma_cache_lookup(em, key@);
                    lemma_cache_lookup_first(em, key@, i as int);
                }
                return Option::Some(crate::state::clone_string(&self.entries[i].sql));
            }
            i = i + 1;
        }
        proof {
            lemma_cache_lookup(em, key@);
            if cache_lookup(em, key@) is Some {
                assert(false);
            }
        }
        Option::None
    }

    /// Returns the cached statement for the key, or caches and returns
    /// the freshly built one: the compile-once path of every hot merge
    /// query.
    pub fn get_cached_stmt_rt_wt(&mut self, key: String, fresh_sql: String) -> (r: String)
        requires
            old(self).wf(),
        ensures
            final(self).wf(),
            match cache_lookup(old(self).entries.deep_view(), key@) {
                Option::Some(sql) => r@ == sql && final(self).entries.deep_view() == old(
                    self,
                ).entries.deep_view(),
                Option::None => r@ == fresh_sql@ && final(self).entries.deep_view() == old(
                    self,
                ).entries.deep_view().push(CachedStmtM { key: key@, sql: fresh_sql@ }),
            },
            cache_lookup(final(self).entries.deep_view(), key@) == Option::Some(r@),
    {
        let ghost em = self.entries.deep_view();
        match self.get(&key) {
            Option::Some(sql) => sql,
            Option::None => {
                proof {
                    lemma_cache_lookup(em, key@);
                }
                let r = crate::state::clone_string(&fresh_sql);
                self.entries.push(CachedStmt { key: key, sql: fresh_sql });
                proof {
                    assert(self.entries.deep_view() =~= em.push(
                        CachedStmtM { key: key@, sql: r@ },
                    ));
                    lemma_cache_lookup_first(self.entries.deep_view(), key@, em.len() as int);
                }
                r
            },
        }
    }
}

/// With no match before `i` and a match at `i`, the lookup returns slot
/// `i`'s text.
proof fn lemma_cache_lookup_first(entries: Seq<CachedStmtM>, key: Seq<char>, i: int)
    requires
        0 <= i < entries.len(),
        entries[i].key == key,
        forall|k: int| 0 <= k < i ==> entries[k].key != key,
    ensures
        cache_lookup(entries, key) == Option::Some(entries[i].sql),
    decreases i,
{
    if i > 0 {
        lemma_cache_lookup_first(entries.drop_first(), key, i - 1);
    }
}

} // verus!
