use vstd::prelude::*;

verus! {

/// Mathematical form of a stored value.
pub ghost enum Val {
    Null,
    Integer(int),
    Text(Seq<u8>),
    Blob(Seq<u8>),
}

/// One atomic value of the host engine, as the core sees it: either a
/// primary-key component or a column value carried by a change record.
/// Text is held as its byte encoding; the tie-break order over text is
/// byte-wise either way.
#[derive(Clone, Debug, PartialEq, Eq)]
pub enum SqlValue {
    Null,
    Integer(i64),
    Text(Vec<u8>),
    Blob(Vec<u8>),
}

impl DeepView for SqlValue {
    type V = Val;

    open spec fn deep_view(&self) -> Val {
        match self {
            SqlValue::Null => Val::Null,
            SqlValue::Integer(i) => Val::Integer(*i as int),
            SqlValue::Text(t) => Val::Text(t@),
            SqlValue::Blob(b) => Val::Blob(b@),
        }
    }
}

/// Rank of a value's type class in the total order: null sorts before
/// integers, integers before text, text before blobs.
pub open spec fn type_rank(v: Val) -> int {
    match v {
        Val::Null => 0,
        Val::Integer(_) => 1,
        Val::Text(_) => 2,
        Val::Blob(_) => 3,
    }
}

/// Byte-wise lexicographic comparison, returning -1, 0 or 1.
pub open spec fn bytes_cmp(a: Seq<u8>, b: Seq<u8>) -> int
    decreases a.len(),
{
    if a.len() == 0 && b.len() == 0 {
        0
    } else if a.len() == 0 {
        -1
    } else if b.len() == 0 {
        1
    } else if a[0] < b[0] {
        -1
    } else if a[0] > b[0] {
        1
    } else {
        bytes_cmp(a.drop_first(), b.drop_first())
    }
}

/// The total order over values used by the merge tie-break: type class
/// first, then magnitude or byte-wise order within a class. Every replica
/// computes the identical winner from the identical inputs because this
/// order is deterministic and total.
pub open spec fn val_cmp(a: Val, b: Val) -> int {
    if type_rank(a) < type_rank(b) {
        -1
    } else if type_rank(a) > type_rank(b) {
        1
    } else {
        match (a, b) {
            (Val::Integer(x), Val::Integer(y)) => if x < y {
                -1
            } else if x > y {
                1
            } else {
                0
            },
            (Val::Text(x), Val::Text(y)) => bytes_cmp(x, y),
            (Val::Blob(x), Val::Blob(y)) => bytes_cmp(x, y),
            _ => 0,
        }
    }
}

pub proof fn lemma_bytes_cmp_antisym(a: Seq<u8>, b: Seq<u8>)
    ensures
        bytes_cmp(a, b) == -bytes_cmp(b, a),
    decreases a.len(),
{
    if a.len() != 0 && b.len() != 0 && a[0] == b[0] {
        lemma_bytes_cmp_antisym(a.drop_first(), b.drop_first());
    }
}

pub proof fn lemma_bytes_cmp_eq(a: Seq<u8>, b: Seq<u8>)
    requires
        bytes_cmp(a, b) == 0,
    ensures
        a == b,
    decreases a.len(),
{
    if a.len() == 0 {
        assert(a =~= b);
    } else {
        assert(b.len() != 0) by {
            if b.len() == 0 {
                assert(bytes_cmp(a, b) == 1);
            }
        };
        lemma_bytes_cmp_eq(a.drop_first(), b.drop_first());
        assert(a.drop_first() == b.drop_first());
        assert(a.drop_first().len() == a.len() - 1);
        assert(b.drop_first().len() == b.len() - 1);
        assert(a.len() == b.len());
        assert forall|i: int| 0 <= i < a.len() implies a[i] == b[i] by {
            if i > 0 {
                assert(a.drop_first()[i - 1] == a[i]);
                assert(b.drop_first()[i - 1] == b[i]);
            }
        }
        assert(a =~= b);
    }
}

pub proof fn lemma_bytes_cmp_refl(a: Seq<u8>)
    ensures
        bytes_cmp(a, a) == 0,
    decreases a.len(),
{
    if a.len() != 0 {
        lemma_bytes_cmp_refl(a.drop_first());
    }
}

/// Equal values compare as equal.
pub proof fn lemma_val_cmp_refl(a: Val)
    ensures
        val_cmp(a, a) == 0,
{
    match a {
        Val::Text(x) => lemma_bytes_cmp_refl(x),
        Val::Blob(x) => lemma_bytes_cmp_refl(x),
        _ => {},
    }
}

/// Swapping the arguments negates the comparison.
pub proof fn lemma_val_cmp_antisym(a: Val, b: Val)
    ensures
        val_cmp(a, b) == -val_cmp(b, a),
{
    match (a, b) {
        (Val::Text(x), Val::Text(y)) => lemma_bytes_cmp_antisym(x, y),
        (Val::Blob(x), Val::Blob(y)) => lemma_bytes_cmp_antisym(x, y),
        _ => {},
    }
}

/// Only equal values compare as equal: the order is total.
pub proof fn lemma_val_cmp_eq(a: Val, b: Val)
    requires
        val_cmp(a, b) == 0,
    ensures
        a == b,
{
    match (a, b) {
        (Val::Text(x), Val::Text(y)) => lemma_bytes_cmp_eq(x, y),
        (Val::Blob(x), Val::Blob(y)) => lemma_bytes_cmp_eq(x, y),
        _ => {},
    }
}

pub proof fn lemma_bytes_cmp_trans(a: Seq<u8>, b: Seq<u8>, c: Seq<u8>)
    requires
        bytes_cmp(a, b) <= 0,
        bytes_cmp(b, c) <= 0,
    ensures
        bytes_cmp(a, c) <= 0,
        bytes_cmp(a, b) < 0 || bytes_cmp(b, c) < 0 ==> bytes_cmp(a, c) < 0,
    decreases a.len() + b.len() + c.len(),
{
    if a.len() == 0 {
        if c.len() == 0 {
            assert(b.len() == 0);
        }
    } else {
        assert(b.len() != 0);
        assert(c.len() != 0);
        if a[0] == c[0] {
            assert(a[0] == b[0] && b[0] == c[0]);
            lemma_bytes_cmp_trans(a.drop_first(), b.drop_first(), c.drop_first());
        }
    }
}

/// The order is transitive, strictly where either step is strict.
pub proof fn lemma_val_cmp_trans(a: Val, b: Val, c: Val)
    requires
        val_cmp(a, b) <= 0,
        val_cmp(b, c) <= 0,
    ensures
        val_cmp(a, c) <= 0,
        val_cmp(a, b) < 0 || val_cmp(b, c) < 0 ==> val_cmp(a, c) < 0,
{
    if type_rank(a) == type_rank(b) && type_rank(b) == type_rank(c) {
        match (a, b, c) {
            (Val::Text(x), Val::Text(y), Val::Text(z)) => lemma_bytes_cmp_trans(x, y, z),
            (Val::Blob(x), Val::Blob(y), Val::Blob(z)) => lemma_bytes_cmp_trans(x, y, z),
            _ => {},
        }
    }
}

/// Byte-wise comparison of two byte vectors.
fn cmp_bytes(a: &Vec<u8>, b: &Vec<u8>) -> (r: i32)
    ensures
        r as int == bytes_cmp(a@, b@),
{
    let mut i: usize = 0;
    let alen = a.len();
    let blen = b.len();
    proof {
        assert(a@.skip(0) =~= a@);
        assert(b@.skip(0) =~= b@);
    }
    while i < alen && i < blen
        invariant
            i <= alen,
            i <= blen,
            alen == a@.len(),
            blen == b@.len(),
            bytes_cmp(a@, b@) == bytes_cmp(a@.skip(i as int), b@.skip(i as int)),
        decreases alen - i,
    {
        let x = a[i];
        let y = b[i];
        if x < y {
            assert(a@.skip(i as int)[0] == x && b@.skip(i as int)[0] == y);
            return -1;
        }
        if x > y {
            assert(a@.skip(i as int)[0] == x && b@.skip(i as int)[0] == y);
            return 1;
        }
        proof {
            assert(a@.skip(i as int)[0] == x && b@.skip(i as int)[0] == y);
            assert(a@.skip(i as int).drop_first() =~= a@.skip(i as int + 1));
            assert(b@.skip(i as int).drop_first() =~= b@.skip(i as int + 1));
        }
        i = i + 1;
    }
    if alen == blen {
        assert(a@.skip(i as int).len() == 0 && b@.skip(i as int).len() == 0);
        0
    } else if alen < blen {
        assert(a@.skip(i as int).len() == 0 && b@.skip(i as int).len() != 0);
        -1
    } else {
        assert(b@.skip(i as int).len() == 0 && a@.skip(i as int).len() != 0);
        1
    }
}

/// Compares two values in the deterministic total order used for the
/// last-writer-wins tie-break. Returns -1, 0 or 1 as `a` sorts below,
/// equal to, or above `b`.
pub fn compare_values(a: &SqlValue, b: &SqlValue) -> (r: i32)
    ensures
        r as int == val_cmp(a.deep_view(), b.deep_view()),
{
    match (a, b) {
        (SqlValue::Null, SqlValue::Null) => 0,
        (SqlValue::Null, _) => -1,
        (_, SqlValue::Null) => 1,
        (SqlValue::Integer(x), SqlValue::Integer(y)) => {
            if x < y {
                -1
            } else if x > y {
                1
            } else {
                0
            }
        },
        (SqlValue::Integer(_), _) => -1,
        (_, SqlValue::Integer(_)) => 1,
        (SqlValue::Text(x), SqlValue::Text(y)) => cmp_bytes(x, y),
        (SqlValue::Text(_), _) => -1,
        (_, SqlValue::Text(_)) => 1,
        (SqlValue::Blob(x), SqlValue::Blob(y)) => cmp_bytes(x, y),
    }
}

/// A copy of a byte vector, with its contents pinned.
pub fn clone_bytes(v: &Vec<u8>) -> (r: Vec<u8>)
    ensures
        r@ == v@,
{
    let mut r: Vec<u8> = Vec::new();
    let mut i: usize = 0;
    while i < v.len()
        invariant
            i <= v@.len(),
            r@ == v@.take(i as int),
        decreases v@.len() - i,
    {
        r.push(v[i]);
        proof {
            assert(v@.take(i as int + 1) =~= v@.take(i as int).push(v@[i as int]));
        }
        i = i + 1;
    }
    proof {
        assert(v@.take(v@.len() as int) =~= v@);
    }
    r
}

/// A copy of a value, with its mathematical form pinned.
pub fn clone_value(v: &SqlValue) -> (r: SqlValue)
    ensures
        r.deep_view() == v.deep_view(),
{
    match v {
        SqlValue::Null => SqlValue::Null,
        SqlValue::Integer(i) => SqlValue::Integer(*i),
        SqlValue::Text(t) => SqlValue::Text(clone_bytes(t)),
        SqlValue::Blob(b) => SqlValue::Blob(clone_bytes(b)),
    }
}

/// Equality of two values, decided through the total order.
pub fn values_equal(a: &SqlValue, b: &SqlValue) -> (r: bool)
    ensures
        r == (a.deep_view() == b.deep_view()),
{
    let c = compare_values(a, b);
    proof {
        if val_cmp(a.deep_view(), b.deep_view()) == 0 {
            lemma_val_cmp_eq(a.deep_view(), b.deep_view());
        }
        if a.deep_view() == b.deep_view() {
            lemma_val_cmp_refl(a.deep_view());
        }
    }
    c == 0
}

} // verus!
