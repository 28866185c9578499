use crate::errors::CrsqlError;
use vstd::prelude::*;

verus! {

/// `s` with every occurrence of the quote character `q` doubled. Doubling
/// the embedded quote character before wrapping a name in quotes is the sole
/// injection defense for identifiers interpolated into generated SQL, so it
/// must be applied to every table or column name, including names sourced
/// from untrusted replication payloads.
pub open spec fn escaped(s: Seq<char>, q: char) -> Seq<char>
    decreases s.len(),
{
    if s.len() == 0 {
        Seq::empty()
    } else {
        (if s[0] == q {
            seq![q, q]
        } else {
            seq![s[0]]
        }) + escaped(s.drop_first(), q)
    }
}

/// `name` escaped and wrapped in double quotes, as it stands in generated
/// SQL wherever an identifier is interpolated.
pub open spec fn quoted_ident(name: Seq<char>) -> Seq<char> {
    seq!['"'] + escaped(name, '"') + seq!['"']
}

/// The parts joined by the separator: empty for no parts, and no trailing
/// separator.
pub open spec fn joined(parts: Seq<Seq<char>>, sep: Seq<char>) -> Seq<char>
    decreases parts.len(),
{
    if parts.len() == 0 {
        Seq::empty()
    } else if parts.len() == 1 {
        parts[0]
    } else {
        parts[0] + sep + joined(parts.drop_first(), sep)
    }
}

proof fn lemma_escaped_push(s: Seq<char>, c: char, q: char)
    ensures
        escaped(s.push(c), q) == escaped(s, q) + (if c == q {
            seq![q, q]
        } else {
            seq![c]
        }),
    decreases s.len(),
{
    let piece: Seq<char> = if c == q {
        seq![q, q]
    } else {
        seq![c]
    };
    if s.len() == 0 {
        assert(escaped(s, q) == Seq::<char>::empty());
        assert(s.push(c).len() == 1);
        assert(s.push(c)[0] == c);
        assert(s.push(c).drop_first() =~= Seq::<char>::empty());
        assert(escaped(s.push(c).drop_first(), q) == Seq::<char>::empty());
        assert(escaped(s.push(c), q) =~= escaped(s, q) + piece);
    } else {
        assert(s.push(c).drop_first() =~= s.drop_first().push(c));
        lemma_escaped_push(s.drop_first(), c, q);
        assert(s.push(c)[0] == s[0]);
        assert(escaped(s.push(c), q) =~= escaped(s, q) + piece);
    }
}

pub proof fn lemma_joined_push(parts: Seq<Seq<char>>, p: Seq<char>, sep: Seq<char>)
    requires
        parts.len() > 0,
    ensures
        joined(parts.push(p), sep) == joined(parts, sep) + sep + p,
    decreases parts.len(),
{
    if parts.len() == 1 {
        assert(parts.push(p).len() == 2);
        assert(parts.push(p)[0] == parts[0]);
        assert(parts.push(p).drop_first() =~= seq![p]);
        assert(joined(seq![p], sep) == p);
        assert(joined(parts.push(p), sep) =~= joined(parts, sep) + sep + p);
    } else {
        assert(parts.push(p).drop_first() =~= parts.drop_first().push(p));
        lemma_joined_push(parts.drop_first(), p, sep);
        assert(parts.push(p)[0] == parts[0]);
        assert(joined(parts.push(p), sep) =~= joined(parts, sep) + sep + p);
    }
}

/// Escapes `s` by doubling the character `q`; `doubled` is the two-character
/// string `qq`.
fn double_char(s: &str, q: char, doubled: &str) -> (r: String)
    requires
        doubled@ =~= seq![q, q],
    ensures
        r@ == escaped(s@, q),
{
    let n = s.unicode_len();
    let mut r = String::new();
    let mut i: usize = 0;
    proof {
        assert(s@.take(0) =~= Seq::<char>::empty());
    }
    while i < n
        invariant
            i <= n,
            n == s@.len(),
            doubled@ =~= seq![q, q],
            r@ == escaped(s@.take(i as int), q),
        decreases n - i,
    {
        let c = s.get_char(i);
        if c == q {
            r.append(doubled);
        } else {
            let piece = s.substring_char(i, i + 1);
            proof {
                assert(piece@ =~= seq![c]);
            }
            r.append(piece);
        }
        proof {
            lemma_escaped_push(s@.take(i as int), c, q);
            assert(s@.take(i as int + 1) =~= s@.take(i as int).push(c));
        }
        i = i + 1;
    }
    proof {
        assert(s@.take(n as int) =~= s@);
    }
    r
}

/// Escapes an identifier for interpolation between double quotes: every
/// embedded `"` is doubled.
pub fn escape_ident(s: &str) -> (r: String)
    ensures
        r@ == escaped(s@, '"'),
{
    proof {
        reveal_strlit("\"\"");
    }
    double_char(s, '"', "\"\"")
}

/// Escapes a string for interpolation between single quotes as a SQL string
/// literal: every embedded `'` is doubled.
pub fn escape_ident_as_value(s: &str) -> (r: String)
    ensures
        r@ == escaped(s@, '\''),
{
    proof {
        reveal_strlit("''");
    }
    double_char(s, '\'', "''")
}

/// The view of an optional prefix: its characters, or empty for none.
pub open spec fn prefix_view(prefix: Option<&str>) -> Seq<char> {
    match prefix {
        Option::Some(p) => p@,
        Option::None => Seq::empty(),
    }
}

/// `prefix"name"`: one element of an identifier list.
fn prefixed_quoted(name: &str, prefix: Option<&str>) -> (r: String)
    ensures
        r@ == prefix_view(prefix) + quoted_ident(name@),
{
    let mut part = String::new();
    if let Option::Some(p) = prefix {
        part.append(p);
    }
    proof {
        reveal_strlit("\"");
        assert("\""@ =~= seq!['"']);
    }
    part.append("\"");
    let esc = escape_ident(name);
    part.append(esc.as_str());
    part.append("\"");
    proof {
        assert(part@ =~= prefix_view(prefix) + quoted_ident(name@));
    }
    part
}

/// A comma-joined, quote-escaped identifier list: each column as
/// `prefix"name"`. Fails with `InvalidSchema` exactly when the column list
/// is empty, since every caller requires at least one column.
pub fn as_identifier_list(cols: &Vec<String>, prefix: Option<&str>) -> (r: Result<
    String,
    CrsqlError,
>)
    ensures
        match r {
            Result::Ok(s) => cols@.len() > 0 && s@ == joined(
                cols.deep_view().map_values(|c: Seq<char>| prefix_view(prefix) + quoted_ident(c)),
                ", "@,
            ),
            Result::Err(e) => cols@.len() == 0 && e == CrsqlError::InvalidSchema,
        },
{
    if cols.len() == 0 {
        return Result::Err(CrsqlError::InvalidSchema);
    }
    let ghost parts = cols.deep_view().map_values(
        |c: Seq<char>| prefix_view(prefix) + quoted_ident(c),
    );
    let mut out = String::new();
    let mut i: usize = 0;
    proof {
        assert(parts.take(0) =~= Seq::<Seq<char>>::empty());
        assert(cols.deep_view().len() == cols@.len());
    }
    while i < cols.len()
        invariant
            i <= cols@.len(),
            parts == cols.deep_view().map_values(
                |c: Seq<char>| prefix_view(prefix) + quoted_ident(c),
            ),
            parts.len() == cols@.len(),
            cols.deep_view().len() == cols@.len(),
            out@ == joined(parts.take(i as int), ", "@),
        decreases cols@.len() - i,
    {
        let part = prefixed_quoted(cols[i].as_str(), prefix);
        proof {
            assert(cols.deep_view()[i as int] == cols@[i as int]@);
            assert(part@ == parts[i as int]);
        }
        if i > 0 {
            out.append(", ");
        }
        out.append(part.as_str());
        proof {
            if i > 0 {
                lemma_joined_push(parts.take(i as int), parts[i as int], ", "@);
                assert(out@ =~= joined(parts.take(i as int), ", "@) + ", "@ + parts[i as int]);
            } else {
                assert(parts.take(1).len() == 1);
                assert(joined(parts.take(1), ", "@) == parts.take(1)[0]);
                assert(out@ =~= parts[0]);
            }
            assert(parts.take(i as int + 1) =~= parts.take(i as int).push(parts[i as int]));
        }
        i = i + 1;
    }
    proof {
        assert(parts.take(cols@.len() as int) =~= parts);
    }
    Result::Ok(out)
}

/// One conjunct of a primary-key WHERE list: `"name" = ?`.
pub open spec fn where_part(name: Seq<char>) -> Seq<char> {
    quoted_ident(name) + " = ?"@
}

/// A conjunctive WHERE list over the given columns: `"a" = ? AND "b" = ?`.
/// Fails with `InvalidSchema` exactly when the column list is empty.
pub fn where_list(cols: &Vec<String>) -> (r: Result<String, CrsqlError>)
    ensures
        match r {
            Result::Ok(s) => cols@.len() > 0 && s@ == joined(
                cols.deep_view().map_values(|c: Seq<char>| where_part(c)),
                " AND "@,
            ),
            Result::Err(e) => cols@.len() == 0 && e == CrsqlError::InvalidSchema,
        },
{
    if cols.len() == 0 {
        return Result::Err(CrsqlError::InvalidSchema);
    }
    let ghost parts = cols.deep_view().map_values(|c: Seq<char>| where_part(c));
    let mut out = String::new();
    let mut i: usize = 0;
    proof {
        assert(parts.take(0) =~= Seq::<Seq<char>>::empty());
        assert(cols.deep_view().len() == cols@.len());
    }
    while i < cols.len()
        invariant
            i <= cols@.len(),
            parts == cols.deep_view().map_values(|c: Seq<char>| where_part(c)),
            parts.len() == cols@.len(),
            cols.deep_view().len() == cols@.len(),
            out@ == joined(parts.take(i as int), " AND "@),
        decreases cols@.len() - i,
    {
        let mut part = prefixed_quoted(cols[i].as_str(), Option::None);
        part.append(" = ?");
        proof {
            assert(cols.deep_view()[i as int] == cols@[i as int]@);
            assert(part@ =~= parts[i as int]);
        }
        if i > 0 {
            out.append(" AND ");
        }
        out.append(part.as_str());
        proof {
            if i > 0 {
                lemma_joined_push(parts.take(i as int), parts[i as int], " AND "@);
                assert(out@ =~= joined(parts.take(i as int), " AND "@) + " AND "@
                    + parts[i as int]);
            } else {
                assert(parts.take(1).len() == 1);
                assert(joined(parts.take(1), " AND "@) == parts.take(1)[0]);
                assert(out@ =~= parts[0]);
            }
            assert(parts.take(i as int + 1) =~= parts.take(i as int).push(parts[i as int]));
        }
        i = i + 1;
    }
    proof {
        assert(parts.take(cols@.len() as int) =~= parts);
    }
    Result::Ok(out)
}

/// A positional bind list of arity `n`: `?, ?, ?`.
pub fn binding_list(n: usize) -> (r: String)
    ensures
        r@ == joined(Seq::new(n as nat, |i: int| "?"@), ", "@),
{
    let ghost parts = Seq::new(n as nat, |i: int| "?"@);
    let mut out = String::new();
    let mut i: usize = 0;
    proof {
        assert(parts.take(0) =~= Seq::<Seq<char>>::empty());
    }
    while i < n
        invariant
            i <= n,
            parts == Seq::new(n as nat, |i: int| "?"@),
            out@ == joined(parts.take(i as int), ", "@),
        decreases n - i,
    {
        if i > 0 {
            out.append(", ");
        }
        out.append("?");
        proof {
            if i > 0 {
                lemma_joined_push(parts.take(i as int), parts[i as int], ", "@);
                assert(out@ =~= joined(parts.take(i as int), ", "@) + ", "@ + parts[i as int]);
            } else {
                assert(parts.take(1).len() == 1);
                assert(joined(parts.take(1), ", "@) == parts.take(1)[0]);
                assert(out@ =~= parts[0]);
            }
            assert(parts.take(i as int + 1) =~= parts.take(i as int).push(parts[i as int]));
        }
        i = i + 1;
    }
    proof {
        assert(parts.take(n as int) =~= parts);
    }
    out
}

} // verus!
