use crate::values::{values_equal, SqlValue, Val};
use vstd::prelude::*;

verus! {

/// Maximum byte length accepted for a table or column name carried by an
/// incoming change record.
pub const MAX_NAME_LEN: usize = 1024;

/// Maximum byte length accepted for a site id carried by an incoming change
/// record.
pub const MAX_SITE_ID_LEN: usize = 16;

/// The column-name sentinel marking bare row existence: a row created with
/// no tracked non-key columns, or whose only change is its creation.
pub const INSERT_SENTINEL: &'static str = "__crsql_pko";

/// The column-name sentinel marking a tombstone: the row was deleted, and
/// the tombstone dominates every later non-delete merge for its key.
pub const DELETE_SENTINEL: &'static str = "__crsql_del";

/// Mathematical form of a clock entry's column identity.
pub ghost enum ColM {
    Exists,
    Tombstone,
    Col(Seq<char>),
}

/// Column identity of a clock entry: a tracked column by name, or one of
/// the two sentinels. The sentinels overload the column-identifier domain
/// on the wire; holding them as a tagged variant keeps the merge state
/// machine exhaustive.
#[derive(Clone, Debug, PartialEq, Eq)]
pub enum ColId {
    /// Row-existence marker (`INSERT_SENTINEL` on the wire).
    Exists,
    /// Delete tombstone (`DELETE_SENTINEL` on the wire).
    Tombstone,
    /// A tracked non-primary-key column.
    Col(String),
}

impl DeepView for ColId {
    type V = ColM;

    open spec fn deep_view(&self) -> ColM {
        match self {
            ColId::Exists => ColM::Exists,
            ColId::Tombstone => ColM::Tombstone,
            ColId::Col(name) => ColM::Col(name@),
        }
    }
}

/// Mathematical form of one clock entry.
pub ghost struct EntryM {
    pub pk: Seq<Val>,
    pub col: ColM,
    pub col_version: int,
    pub db_version: int,
    pub site_id: Seq<u8>,
    pub seq: int,
    pub rowid: int,
}

/// One logical-clock record: the table's shadow relation holds one per
/// (primary-key tuple, column identity).
#[derive(Clone, Debug)]
pub struct ClockEntry {
    /// Ordered tuple of primary-key values of the owning row.
    pub pk: Vec<SqlValue>,
    /// The tracked column, or a sentinel.
    pub col: ColId,
    /// Per-column logical counter; starts at 1 on first write or backfill
    /// and never decreases for a tracked column.
    pub col_version: i64,
    /// Transaction-scoped logical version shared by entries committed
    /// together.
    pub db_version: i64,
    /// Originating replica; empty means the local site.
    pub site_id: Vec<u8>,
    /// Globally monotonic sequence number ordering entries that share a
    /// `db_version`.
    pub seq: i64,
    /// Surrogate row identity of the clock entry itself.
    pub rowid: i64,
}

impl DeepView for ClockEntry {
    type V = EntryM;

    open spec fn deep_view(&self) -> EntryM {
        EntryM {
            pk: self.pk.deep_view(),
            col: self.col.deep_view(),
            col_version: self.col_version as int,
            db_version: self.db_version as int,
            site_id: self.site_id.deep_view(),
            seq: self.seq as int,
            rowid: self.rowid as int,
        }
    }
}

/// Mathematical form of one base-table row.
pub ghost struct RowM {
    pub pk: Seq<Val>,
    pub vals: Seq<Val>,
}

/// One base-table row: its primary-key tuple and one value per tracked
/// non-primary-key column, in schema order.
#[derive(Clone, Debug)]
pub struct Row {
    pub pk: Vec<SqlValue>,
    pub vals: Vec<SqlValue>,
}

impl DeepView for Row {
    type V = RowM;

    open spec fn deep_view(&self) -> RowM {
        RowM { pk: self.pk.deep_view(), vals: self.vals.deep_view() }
    }
}

/// Mathematical form of a column definition.
pub ghost struct ColDefM {
    pub name: Seq<char>,
    pub dflt: Option<Val>,
}

/// A non-primary-key column: its name and its declared default value, if
/// the schema declares one.
#[derive(Clone, Debug)]
pub struct ColDef {
    pub name: String,
    pub dflt: Option<SqlValue>,
}

impl DeepView for ColDef {
    type V = ColDefM;

    open spec fn deep_view(&self) -> ColDefM {
        ColDefM { name: self.name@, dflt: self.dflt.deep_view() }
    }
}

/// Mathematical form of a table's schema description.
pub ghost struct TableInfoM {
    pub name: Seq<char>,
    pub pk_cols: Seq<Seq<char>>,
    pub non_pk_cols: Seq<ColDefM>,
}

/// Collaborator-supplied schema description of one tracked table,
/// read-only to the core: its name, primary-key column names and
/// non-primary-key columns.
#[derive(Clone, Debug)]
pub struct TableInfo {
    pub name: String,
    pub pk_cols: Vec<String>,
    pub non_pk_cols: Vec<ColDef>,
}

impl DeepView for TableInfo {
    type V = TableInfoM;

    open spec fn deep_view(&self) -> TableInfoM {
        TableInfoM {
            name: self.name@,
            pk_cols: self.pk_cols.deep_view(),
            non_pk_cols: self.non_pk_cols.deep_view(),
        }
    }
}

/// Mathematical form of one tracked table's state.
pub ghost struct TableM {
    pub info: TableInfoM,
    pub rows: Seq<RowM>,
    pub clock: Seq<EntryM>,
    pub next_rowid: int,
}

/// One tracked table: its schema, its base rows and its clock relation,
/// plus the surrogate rowid allocator of the clock relation.
#[derive(Clone, Debug)]
pub struct TableState {
    pub info: TableInfo,
    pub rows: Vec<Row>,
    pub clock: Vec<ClockEntry>,
    pub next_rowid: i64,
}

impl DeepView for TableState {
    type V = TableM;

    open spec fn deep_view(&self) -> TableM {
        TableM {
            info: self.info.deep_view(),
            rows: self.rows.deep_view(),
            clock: self.clock.deep_view(),
            next_rowid: self.next_rowid as int,
        }
    }
}

/// Mathematical form of the connection-wide counters.
pub ghost struct CountersM {
    pub db_version: int,
    pub seq: int,
    pub rows_impacted: int,
}

/// Connection-wide counters: the current transaction version, the global
/// sequence counter shared by all tables, and the impacted-row counter
/// exposed for observability.
#[derive(Clone, Debug)]
pub struct Counters {
    pub db_version: i64,
    pub seq: i64,
    pub rows_impacted: i64,
}

impl DeepView for Counters {
    type V = CountersM;

    open spec fn deep_view(&self) -> CountersM {
        CountersM {
            db_version: self.db_version as int,
            seq: self.seq as int,
            rows_impacted: self.rows_impacted as int,
        }
    }
}

/// Mathematical form of the replica state.
pub ghost struct DbM {
    pub tables: Seq<TableM>,
    pub counters: CountersM,
}

/// The tracked state of one replica connection: every tracked table and
/// the shared counters.
#[derive(Clone, Debug)]
pub struct Db {
    pub tables: Vec<TableState>,
    pub counters: Counters,
}

impl DeepView for Db {
    type V = DbM;

    open spec fn deep_view(&self) -> DbM {
        DbM { tables: self.tables.deep_view(), counters: self.counters.deep_view() }
    }
}

/// Mathematical form of an incoming change record.
pub ghost struct ChangeM {
    pub table: Seq<char>,
    pub pk: Seq<Val>,
    pub col_name: Seq<char>,
    pub col_version: int,
    pub db_version: int,
    pub site_id: Seq<u8>,
    pub value: Val,
}

/// One incoming remote change record, as handed over by the replication
/// transport: the canonical change shape minus rowid and seq, plus the
/// carried value.
#[derive(Clone, Debug)]
pub struct ChangeRecord {
    pub table: String,
    pub pk: Vec<SqlValue>,
    pub col_name: String,
    pub col_version: i64,
    pub db_version: i64,
    pub site_id: Vec<u8>,
    pub value: SqlValue,
}

impl DeepView for ChangeRecord {
    type V = ChangeM;

    open spec fn deep_view(&self) -> ChangeM {
        ChangeM {
            table: self.table@,
            pk: self.pk.deep_view(),
            col_name: self.col_name@,
            col_version: self.col_version as int,
            db_version: self.db_version as int,
            site_id: self.site_id.deep_view(),
            value: self.value.deep_view(),
        }
    }
}

/// Index of the first clock entry for `(pk, col)`, if any. Under
/// [`wf_table`] it is the only one.
pub open spec fn clock_index_of(clock: Seq<EntryM>, pk: Seq<Val>, col: ColM) -> Option<int>
    decreases clock.len(),
{
    if clock.len() == 0 {
        Option::None
    } else if clock[0].pk == pk && clock[0].col == col {
        Option::Some(0)
    } else {
        match clock_index_of(clock.drop_first(), pk, col) {
            Option::Some(i) => Option::Some(i + 1),
            Option::None => Option::None,
        }
    }
}

/// What `clock_index_of` returns: the first match, or nothing when no
/// entry matches.
pub proof fn lemma_clock_index_of(clock: Seq<EntryM>, pk: Seq<Val>, col: ColM)
    ensures
        match clock_index_of(clock, pk, col) {
            Option::Some(i) => 0 <= i < clock.len() && clock[i].pk == pk && clock[i].col == col
                && (forall|k: int|
                0 <= k < i ==> !(clock[k].pk == pk && clock[k].col == col)),
            Option::None => forall|k: int|
                0 <= k < clock.len() ==> !(clock[k].pk == pk && clock[k].col == col),
        },
    decreases clock.len(),
{
    if clock.len() != 0 && !(clock[0].pk == pk && clock[0].col == col) {
        lemma_clock_index_of(clock.drop_first(), pk, col);
        assert(forall|k: int|
            1 <= k < clock.len() ==> #[trigger] clock[k] == clock.drop_first()[k - 1]);
    }
}

/// Index of the first row with the given primary key, if any. Under
/// [`wf_table`] it is the only one.
pub open spec fn row_index_of(rows: Seq<RowM>, pk: Seq<Val>) -> Option<int>
    decreases rows.len(),
{
    if rows.len() == 0 {
        Option::None
    } else if rows[0].pk == pk {
        Option::Some(0)
    } else {
        match row_index_of(rows.drop_first(), pk) {
            Option::Some(i) => Option::Some(i + 1),
            Option::None => Option::None,
        }
    }
}

/// What `row_index_of` returns.
pub proof fn lemma_row_index_of(rows: Seq<RowM>, pk: Seq<Val>)
    ensures
        match row_index_of(rows, pk) {
            Option::Some(i) => 0 <= i < rows.len() && rows[i].pk == pk && (forall|k: int|
                0 <= k < i ==> rows[k].pk != pk),
            Option::None => forall|k: int| 0 <= k < rows.len() ==> rows[k].pk != pk,
        },
    decreases rows.len(),
{
    if rows.len() != 0 && rows[0].pk != pk {
        lemma_row_index_of(rows.drop_first(), pk);
        assert(forall|k: int|
            1 <= k < rows.len() ==> #[trigger] rows[k] == rows.drop_first()[k - 1]);
    }
}

/// Index of the first tracked table with the given name, if any.
pub open spec fn table_index_of(tables: Seq<TableM>, name: Seq<char>) -> Option<int>
    decreases tables.len(),
{
    if tables.len() == 0 {
        Option::None
    } else if tables[0].info.name == name {
        Option::Some(0)
    } else {
        match table_index_of(tables.drop_first(), name) {
            Option::Some(i) => Option::Some(i + 1),
            Option::None => Option::None,
        }
    }
}

/// What `table_index_of` returns.
pub proof fn lemma_table_index_of(tables: Seq<TableM>, name: Seq<char>)
    ensures
        match table_index_of(tables, name) {
            Option::Some(i) => 0 <= i < tables.len() && tables[i].info.name == name && (
            forall|k: int| 0 <= k < i ==> tables[k].info.name != name),
            Option::None => forall|k: int| 0 <= k < tables.len() ==> tables[k].info.name != name,
        },
    decreases tables.len(),
{
    if tables.len() != 0 && tables[0].info.name != name {
        lemma_table_index_of(tables.drop_first(), name);
        assert(forall|k: int|
            1 <= k < tables.len() ==> #[trigger] tables[k] == tables.drop_first()[k - 1]);
    }
}

/// Index of the first non-primary-key column with the given name, if any.
pub open spec fn col_index_of(cols: Seq<ColDefM>, name: Seq<char>) -> Option<int>
    decreases cols.len(),
{
    if cols.len() == 0 {
        Option::None
    } else if cols[0].name == name {
        Option::Some(0)
    } else {
        match col_index_of(cols.drop_first(), name) {
            Option::Some(i) => Option::Some(i + 1),
            Option::None => Option::None,
        }
    }
}

/// What `col_index_of` returns.
pub proof fn lemma_col_index_of(cols: Seq<ColDefM>, name: Seq<char>)
    ensures
        match col_index_of(cols, name) {
            Option::Some(i) => 0 <= i < cols.len() && cols[i].name == name && (forall|k: int|
                0 <= k < i ==> cols[k].name != name),
            Option::None => forall|k: int| 0 <= k < cols.len() ==> cols[k].name != name,
        },
    decreases cols.len(),
{
    if cols.len() != 0 && cols[0].name != name {
        lemma_col_index_of(cols.drop_first(), name);
        assert(forall|k: int|
            1 <= k < cols.len() ==> #[trigger] cols[k] == cols.drop_first()[k - 1]);
    }
}

/// A delete tombstone exists for the primary key: the row is locally
/// deleted, and deletion dominates all column-level merges for it.
pub open spec fn spec_has_tombstone(t: TableM, pk: Seq<Val>) -> bool {
    clock_index_of(t.clock, pk, ColM::Tombstone) is Some
}

/// The locally recorded `col_version` for `(pk, col)`, absent if none was
/// ever recorded.
pub open spec fn spec_col_version(t: TableM, pk: Seq<Val>, col: ColM) -> Option<int> {
    match clock_index_of(t.clock, pk, col) {
        Option::Some(i) => Option::Some(t.clock[i].col_version),
        Option::None => Option::None,
    }
}

/// Well-formedness of one table's state: primary keys are unique among
/// rows, `(pk, col)` is unique within the clock relation, and every row
/// carries one value per tracked non-key column.
pub open spec fn wf_table(t: TableM) -> bool {
    &&& forall|i: int, j: int|
        0 <= i < j < t.rows.len() ==> t.rows[i].pk != t.rows[j].pk
    &&& forall|i: int, j: int|
        0 <= i < j < t.clock.len() ==> !(t.clock[i].pk == t.clock[j].pk && t.clock[i].col
            == t.clock[j].col)
    &&& forall|i: int| 0 <= i < t.rows.len() ==> t.rows[i].vals.len() == t.info.non_pk_cols.len()
}

/// Well-formedness of the whole replica state.
pub open spec fn wf_db(db: DbM) -> bool {
    forall|i: int| 0 <= i < db.tables.len() ==> wf_table(db.tables[i])
}

/// The counters and the table's rowid allocator can absorb `n` more clock
/// writes without overflowing the host's 64-bit counters.
pub open spec fn can_allocate(t: TableM, c: CountersM, n: int) -> bool {
    &&& c.seq + n <= i64::MAX
    &&& c.db_version < i64::MAX
    &&& c.rows_impacted < i64::MAX
    &&& t.next_rowid + n <= i64::MAX
}

/// Equality of two primary-key tuples, decided value by value.
pub fn pk_equal(a: &Vec<SqlValue>, b: &Vec<SqlValue>) -> (r: bool)
    ensures
        r == (a.deep_view() == b.deep_view()),
{
    if a.len() != b.len() {
        proof {
            assert(a.deep_view().len() != b.deep_view().len());
        }
        return false;
    }
    let mut i: usize = 0;
    while i < a.len()
        invariant
            i <= a@.len(),
            a@.len() == b@.len(),
            forall|k: int| 0 <= k < i ==> a.deep_view()[k] == b.deep_view()[k],
        decreases a@.len() - i,
    {
        if !values_equal(&a[i], &b[i]) {
            proof {
                assert(a.deep_view()[i as int] != b.deep_view()[i as int]);
            }
            return false;
        }
        i = i + 1;
    }
    proof {
        assert(a.deep_view() =~= b.deep_view());
    }
    true
}

/// A copy of a value tuple, with its mathematical form pinned.
pub fn clone_values(v: &Vec<SqlValue>) -> (r: Vec<SqlValue>)
    ensures
        r.deep_view() == v.deep_view(),
{
    let mut r: Vec<SqlValue> = Vec::new();
    let mut i: usize = 0;
    while i < v.len()
        invariant
            i <= v@.len(),
            r@.len() == i,
            forall|k: int| 0 <= k < i ==> r@[k].deep_view() == v@[k].deep_view(),
        decreases v@.len() - i,
    {
        r.push(crate::values::clone_value(&v[i]));
        i = i + 1;
    }
    proof {
        assert(r.deep_view() =~= v.deep_view());
    }
    r
}

/// A copy of a string, with its characters pinned.
pub fn clone_string(s: &String) -> (r: String)
    ensures
        r@ == s@,
{
    String::from_str(s.as_str())
}

/// A copy of a column identity, with its mathematical form pinned.
pub fn clone_col_id(c: &ColId) -> (r: ColId)
    ensures
        r.deep_view() == c.deep_view(),
{
    match c {
        ColId::Exists => ColId::Exists,
        ColId::Tombstone => ColId::Tombstone,
        ColId::Col(name) => ColId::Col(clone_string(name)),
    }
}

/// Equality of two strings.
pub fn string_equal(a: &String, b: &String) -> (r: bool)
    ensures
        r == (a@ == b@),
{
    a.eq(b)
}

/// Equality of two column identities.
pub fn col_id_equal(a: &ColId, b: &ColId) -> (r: bool)
    ensures
        r == (a.deep_view() == b.deep_view()),
{
    match (a, b) {
        (ColId::Exists, ColId::Exists) => true,
        (ColId::Tombstone, ColId::Tombstone) => true,
        (ColId::Col(x), ColId::Col(y)) => string_equal(x, y),
        _ => false,
    }
}

/// Finds the clock entry for `(pk, col)`, reporting its index.
pub fn find_clock_index(clock: &Vec<ClockEntry>, pk: &Vec<SqlValue>, col: &ColId) -> (r: Option<
    usize,
>)
    ensures
        match r {
            Option::Some(i) => clock_index_of(clock.deep_view(), pk.deep_view(), col.deep_view())
                == Option::Some(i as int) && i < clock@.len(),
            Option::None => clock_index_of(clock.deep_view(), pk.deep_view(), col.deep_view())
                is None,
        },
{
    let ghost cm = clock.deep_view();
    let ghost pkm = pk.deep_view();
    let ghost colm = col.deep_view();
    let mut i: usize = 0;
    while i < clock.len()
        invariant
            i <= clock@.len(),
            cm == clock.deep_view(),
            pkm == pk.deep_view(),
            colm == col.deep_view(),
            cm.len() == clock@.len(),
            forall|k: int| 0 <= k < i ==> !(cm[k].pk == pkm && cm[k].col == colm),
        decreases clock@.len() - i,
    {
        let e = &clock[i];
        if pk_equal(&e.pk, pk) && col_id_equal(&e.col, col) {
            proof {
                assert(cm[i as int].pk == pkm && cm[i as int].col == colm);
                lemma_clock_index_of(cm, pkm, colm);
            }
            return Option::Some(i);
        }
        proof {
            assert(!(cm[i as int].pk == pkm && cm[i as int].col == colm));
        }
        i = i + 1;
    }
    proof {
        lemma_clock_index_of(cm, pkm, colm);
    }
    Option::None
}

/// Finds the base-table row with the given primary key, reporting its
/// index.
pub fn find_row_index(rows: &Vec<Row>, pk: &Vec<SqlValue>) -> (r: Option<usize>)
    ensures
        match r {
            Option::Some(i) => row_index_of(rows.deep_view(), pk.deep_view()) == Option::Some(
                i as int,
            ) && i < rows@.len(),
            Option::None => row_index_of(rows.deep_view(), pk.deep_view()) is None,
        },
{
    let ghost rm = rows.deep_view();
    let ghost pkm = pk.deep_view();
    let mut i: usize = 0;
    while i < rows.len()
        invariant
            i <= rows@.len(),
            rm == rows.deep_view(),
            pkm == pk.deep_view(),
            rm.len() == rows@.len(),
            forall|k: int| 0 <= k < i ==> rm[k].pk != pkm,
        decreases rows@.len() - i,
    {
        if pk_equal(&rows[i].pk, pk) {
            proof {
                assert(rm[i as int].pk == pkm);
                lemma_row_index_of(rm, pkm);
            }
            return Option::Some(i);
        }
        proof {
            assert(rm[i as int].pk != pkm);
        }
        i = i + 1;
    }
    proof {
        lemma_row_index_of(rm, pkm);
    }
    Option::None
}

/// Finds the tracked table with the given name, reporting its index.
pub fn find_table_index(tables: &Vec<TableState>, name: &String) -> (r: Option<usize>)
    ensures
        match r {
            Option::Some(i) => table_index_of(tables.deep_view(), name@) == Option::Some(i as int)
                && i < tables@.len(),
            Option::None => table_index_of(tables.deep_view(), name@) is None,
        },
{
    let ghost tm = tables.deep_view();
    let mut i: usize = 0;
    while i < tables.len()
        invariant
            i <= tables@.len(),
            tm == tables.deep_view(),
            tm.len() == tables@.len(),
            forall|k: int| 0 <= k < i ==> tm[k].info.name != name@,
        decreases tables@.len() - i,
    {
        if string_equal(&tables[i].info.name, name) {
            proof {
                assert(tm[i as int].info.name == name@);
                lemma_table_index_of(tm, name@);
            }
            return Option::Some(i);
        }
        proof {
            assert(tm[i as int].info.name != name@);
        }
        i = i + 1;
    }
    proof {
        lemma_table_index_of(tm, name@);
    }
    Option::None
}

/// Finds the non-primary-key column with the given name, reporting its
/// index in schema order.
pub fn find_col_index(cols: &Vec<ColDef>, name: &String) -> (r: Option<usize>)
    ensures
        match r {
            Option::Some(i) => col_index_of(cols.deep_view(), name@) == Option::Some(i as int) && i
                < cols@.len(),
            Option::None => col_index_of(cols.deep_view(), name@) is None,
        },
{
    let ghost cm = cols.deep_view();
    let mut i: usize = 0;
    while i < cols.len()
        invariant
            i <= cols@.len(),
            cm == cols.deep_view(),
            cm.len() == cols@.len(),
            forall|k: int| 0 <= k < i ==> cm[k].name != name@,
        decreases cols@.len() - i,
    {
        if string_equal(&cols[i].name, name) {
            proof {
                assert(cm[i as int].name == name@);
                lemma_col_index_of(cm, name@);
            }
            return Option::Some(i);
        }
        proof {
            assert(cm[i as int].name != name@);
        }
        i = i + 1;
    }
    proof {
        lemma_col_index_of(cm, name@);
    }
    Option::None
}

impl TableState {
    /// Whether a delete tombstone is recorded for the primary key.
    pub fn has_delete_tombstone(&self, pk: &Vec<SqlValue>) -> (r: bool)
        ensures
            r == spec_has_tombstone(self.deep_view(), pk.deep_view()),
    {
        find_clock_index(&self.clock, pk, &ColId::Tombstone).is_some()
    }

    /// The current local clock value for `(pk, col)`, absent if none is
    /// recorded.
    pub fn local_col_version(&self, pk: &Vec<SqlValue>, col: &ColId) -> (r: Option<i64>)
        ensures
            match r {
                Option::Some(v) => spec_col_version(
                    self.deep_view(),
                    pk.deep_view(),
                    col.deep_view(),
                ) == Option::Some(v as int),
                Option::None => spec_col_version(self.deep_view(), pk.deep_view(), col.deep_view())
                    is None,
            },
    {
        match find_clock_index(&self.clock, pk, col) {
            Option::Some(i) => Option::Some(self.clock[i].col_version),
            Option::None => Option::None,
        }
    }
}

} // verus!
