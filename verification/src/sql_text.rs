//! SQL text built by the migrations: quoted identifiers, parameter
//! placeholders and primary-key ordering.

use vstd::prelude::*;
use crate::sql::{DbError, SqlCell};
use crate::text::{concat, decimal, decimal_usize, join_seq, push_char, views};

verus! {

/// The text with every `"` doubled.
pub open spec fn double_quotes(s: Seq<char>) -> Seq<char>
    decreases s.len(),
{
    if s.len() == 0 {
        Seq::<char>::empty()
    } else if s.last() == '"' {
        double_quotes(s.drop_last()) + seq!['"', '"']
    } else {
        double_quotes(s.drop_last()).push(s.last())
    }
}

/// An SQL identifier in double quotes, inner quotes doubled.
pub open spec fn quoted_ident(s: Seq<char>) -> Seq<char> {
    seq!['"'] + double_quotes(s) + seq!['"']
}

/// A name in double quotes, as it is.
pub open spec fn quoted_plain(s: Seq<char>) -> Seq<char> {
    seq!['"'] + s + seq!['"']
}

/// Quotes an identifier: `"` around it, each inner `"` doubled.
pub fn quote_ident(name: &str) -> (r: String)
    ensures
        r@ == quoted_ident(name@),
{
    let mut out = String::new();
    push_char(&mut out, '"');
    let ghost mut idx: int = 0;
    for c in it: name.chars()
        invariant
            idx == it.index(),
            it.seq() == name@,
            out@ == seq!['"'] + double_quotes(name@.take(idx)),
    {
        proof {
            assert(name@.take(idx + 1).drop_last() =~= name@.take(idx));
            assert(name@.take(idx + 1).last() == c);
        }
        let ghost before = out@;
        push_char(&mut out, c);
        if c == '"' {
            push_char(&mut out, '"');
        }
        proof {
            assert(out@ =~= seq!['"'] + double_quotes(name@.take(idx + 1)));
            idx = idx + 1;
        }
    }
    proof {
        assert(name@.take(name@.len() as int) =~= name@);
    }
    push_char(&mut out, '"');
    assert(out@ =~= quoted_ident(name@));
    out
}

/// Puts a name in double quotes without escaping.
pub fn quote_plain(name: &str) -> (r: String)
    ensures
        r@ == quoted_plain(name@),
{
    let mut out = String::new();
    push_char(&mut out, '"');
    out.append(name);
    push_char(&mut out, '"');
    assert(out@ =~= quoted_plain(name@));
    out
}

/// `?1`, `?2`, ..., `?n`.
pub open spec fn placeholder_list(n: nat) -> Seq<Seq<char>> {
    Seq::new(n, |i: int| seq!['?'] + decimal((i + 1) as nat))
}

/// The numbered placeholders `?1` to `?n` joined with `sep`.
pub fn placeholders(n: usize, sep: &str) -> (r: String)
    requires
        n < usize::MAX,
    ensures
        r@ == join_seq(placeholder_list(n as nat), sep@),
{
    let mut parts: Vec<String> = Vec::new();
    let mut i: usize = 0;
    while i < n
        invariant
            i <= n,
            n < usize::MAX,
            views(parts@) == placeholder_list(i as nat),
        decreases n - i,
    {
        proof {
            reveal_strlit("?");
            assert("?"@ =~= seq!['?']);
        }
        let num = decimal_usize(i + 1);
        let p = concat("?", num.as_str());
        let ghost before = views(parts@);
        let ghost pv = p@;
        parts.push(p);
        proof {
            assert(views(parts@) =~= before.push(pv));
            assert(pv =~= seq!['?'] + decimal((i + 1) as nat));
            let target = placeholder_list((i + 1) as nat);
            assert(target[i as int] == seq!['?'] + decimal((i + 1) as nat));
            assert forall|q: int| 0 <= q < i implies #[trigger] target[q] == before[q] by {
                assert(before[q] == placeholder_list(i as nat)[q]);
            }
            assert(views(parts@) =~= target);
        }
        i += 1;
    }
    crate::text::join_str(&parts, sep)
}

// ---------------------------------------------------------------------
// Primary-key columns in key order
// ---------------------------------------------------------------------

/// Where a column with key position `k` goes in a list sorted by
/// position: after the last entry whose position is not greater.
pub open spec fn insert_pos(v: Seq<(i64, String)>, k: i64) -> int
    decreases v.len(),
{
    if v.len() == 0 {
        0
    } else if v.last().0 > k {
        insert_pos(v.drop_last(), k)
    } else {
        v.len() as int
    }
}

/// Stable sort by key position (`sort_by_key` on the position): each
/// entry in input order is placed after every earlier entry with a
/// position that is not greater.
pub open spec fn sort_by_position(s: Seq<(i64, String)>) -> Seq<(i64, String)>
    decreases s.len(),
{
    if s.len() == 0 {
        s
    } else {
        let v = sort_by_position(s.drop_last());
        v.insert(insert_pos(v, s.last().0), s.last())
    }
}

proof fn lemma_insert_pos_bounds(v: Seq<(i64, String)>, k: i64)
    ensures
        0 <= insert_pos(v, k) <= v.len(),
    decreases v.len(),
{
    if v.len() > 0 && v.last().0 > k {
        lemma_insert_pos_bounds(v.drop_last(), k);
    }
}

/// Sorts `(position, name)` pairs by position, keeping the input order of
/// equal positions.
pub fn sort_by_key_position(cols: &Vec<(i64, String)>) -> (r: Vec<(i64, String)>)
    ensures
        r@ == sort_by_position(cols@),
{
    let mut out: Vec<(i64, String)> = Vec::new();
    let mut i: usize = 0;
    while i < cols.len()
        invariant
            i <= cols.len(),
            out@ == sort_by_position(cols@.take(i as int)),
        decreases cols.len() - i,
    {
        let k = cols[i].0;
        let x = (k, cols[i].1.clone());
        assert(x == cols@[i as int]);
        let mut j: usize = out.len();
        assert(out@.take(j as int) =~= out@);
        while j > 0 && out[j - 1].0 > k
            invariant
                j <= out.len(),
                insert_pos(out@, k) == insert_pos(out@.take(j as int), k),
            decreases j,
        {
            assert(out@.take(j as int).drop_last() =~= out@.take(j - 1));
            j -= 1;
        }
        proof {
            assert(out@.take(out.len() as int) =~= out@);
            lemma_insert_pos_bounds(out@, k);
            if j > 0 {
                assert(out@.take(j as int).last() == out@[j - 1]);
            }
            assert(insert_pos(out@, k) == j);
            assert(cols@.take(i + 1).drop_last() =~= cols@.take(i as int));
            assert(cols@.take(i + 1).last() == cols@[i as int]);
        }
        out.insert(j, x);
        i += 1;
    }
    proof {
        assert(cols@.take(cols.len() as int) =~= cols@);
    }
    out
}

/// The keys do not decrease along the list.
pub open spec fn sorted_by_position(s: Seq<(i64, String)>) -> bool {
    forall|a: int, b: int| 0 <= a <= b < s.len() ==> (#[trigger] s[a]).0 <= (#[trigger] s[b]).0
}

proof fn lemma_insert_pos_splits(v: Seq<(i64, String)>, k: i64)
    requires
        sorted_by_position(v),
    ensures
        forall|a: int| 0 <= a < insert_pos(v, k) ==> (#[trigger] v[a]).0 <= k,
        forall|a: int| insert_pos(v, k) <= a < v.len() ==> (#[trigger] v[a]).0 > k,
    decreases v.len(),
{
    lemma_insert_pos_bounds(v, k);
    if v.len() > 0 {
        if v.last().0 > k {
            let w = v.drop_last();
            assert(sorted_by_position(w)) by {
                assert forall|a: int, b: int| 0 <= a <= b < w.len() implies (#[trigger] w[a]).0
                    <= (#[trigger] w[b]).0 by {
                    assert(w[a] == v[a] && w[b] == v[b]);
                }
            }
            lemma_insert_pos_splits(w, k);
            assert forall|a: int| insert_pos(v, k) <= a < v.len() implies (#[trigger] v[a]).0 > k by {
                if a < w.len() {
                    assert(v[a] == w[a]);
                }
            }
            assert forall|a: int| 0 <= a < insert_pos(v, k) implies (#[trigger] v[a]).0 <= k by {
                lemma_insert_pos_bounds(w, k);
                assert(v[a] == w[a]);
            }
        } else {
            assert forall|a: int| 0 <= a < insert_pos(v, k) implies (#[trigger] v[a]).0 <= k by {
                assert(v[a].0 <= v[v.len() - 1].0);
            }
        }
    }
}

/// Sorting by position yields a list whose positions never decrease.
pub proof fn law_sorted_columns_are_in_key_order(s: Seq<(i64, String)>)
    ensures
        sorted_by_position(sort_by_position(s)),
        sort_by_position(s).len() == s.len(),
    decreases s.len(),
{
    if s.len() > 0 {
        let v = sort_by_position(s.drop_last());
        law_sorted_columns_are_in_key_order(s.drop_last());
        let k = s.last().0;
        let p = insert_pos(v, k);
        lemma_insert_pos_bounds(v, k);
        lemma_insert_pos_splits(v, k);
        let r = v.insert(p, s.last());
        assert forall|a: int, b: int| 0 <= a <= b < r.len() implies (#[trigger] r[a]).0
            <= (#[trigger] r[b]).0 by {
            let ra = if a < p { v[a] } else if a == p { s.last() } else { v[a - 1] };
            let rb = if b < p { v[b] } else if b == p { s.last() } else { v[b - 1] };
            assert(r[a] == ra && r[b] == rb);
        }
    }
}

// ---------------------------------------------------------------------
// Reading `PRAGMA table_info`
// ---------------------------------------------------------------------

/// A key position that fits an `i32` (always true when not `narrow`).
pub open spec fn position_fits(pk: i64, narrow: bool) -> bool {
    !narrow || (-2147483648 <= pk <= 2147483647)
}

/// The primary-key columns `(position, name)` of `PRAGMA table_info` rows
/// `(cid, name, type, notnull, dflt_value, pk)`: the rows with a positive
/// `pk`, in row order. `None` when a row's `pk` is not an integer (or, when
/// `narrow`, does not fit an `i32`) or its name is not text.
pub open spec fn table_info_keys(rows: Seq<Vec<SqlCell>>, narrow: bool) -> Option<
    Seq<(i64, Seq<char>)>,
>
    decreases rows.len(),
{
    if rows.len() == 0 {
        Some(seq![])
    } else {
        match table_info_keys(rows.drop_last(), narrow) {
            None => None,
            Some(prev) => {
                let r = rows.last()@;
                if r.len() > 5 {
                    match (r[5], r[1]) {
                        (SqlCell::Integer(pk), SqlCell::Text(name)) => if !position_fits(pk, narrow) {
                            None
                        } else if pk > 0 {
                            Some(prev.push((pk, name@)))
                        } else {
                            Some(prev)
                        },
                        _ => None,
                    }
                } else {
                    None
                }
            },
        }
    }
}

/// The columns as `(position, name)` character pairs.
pub open spec fn key_views(cols: Seq<(i64, String)>) -> Seq<(i64, Seq<char>)> {
    cols.map_values(|c: (i64, String)| (c.0, c.1@))
}

/// Reads the primary-key columns of `PRAGMA table_info` rows.
pub fn pk_columns_from_table_info(rows: &Vec<Vec<SqlCell>>, narrow: bool) -> (r: Result<
    Vec<(i64, String)>,
    DbError,
>)
    ensures
        match r {
            Ok(cols) => table_info_keys(rows@, narrow) == Some(key_views(cols@)),
            Err(e) => table_info_keys(rows@, narrow) is None && e is InvalidColumnType,
        },
{
    let mut out: Vec<(i64, String)> = Vec::new();
    let mut i: usize = 0;
    while i < rows.len()
        invariant
            i <= rows.len(),
            table_info_keys(rows@.take(i as int), narrow) == Some(key_views(out@)),
        decreases rows.len() - i,
    {
        proof {
            assert(rows@.take(i + 1).drop_last() =~= rows@.take(i as int));
            assert(rows@.take(i + 1).last() == rows@[i as int]);
        }
        let row = &rows[i];
        if row.len() <= 5 {
            proof {
                lemma_keys_none_extends(rows@, (i + 1) as nat, narrow);
            }
            return Err(DbError::InvalidColumnType);
        }
        let pk = match &row[5] {
            SqlCell::Integer(v) => *v,
            _ => {
                proof {
                    lemma_keys_none_extends(rows@, (i + 1) as nat, narrow);
                }
                return Err(DbError::InvalidColumnType);
            },
        };
        let name = match &row[1] {
            SqlCell::Text(t) => t.clone(),
            _ => {
                proof {
                    lemma_keys_none_extends(rows@, (i + 1) as nat, narrow);
                }
                return Err(DbError::InvalidColumnType);
            },
        };
        if narrow && (pk < -2147483648 || pk > 2147483647) {
            proof {
                lemma_keys_none_extends(rows@, (i + 1) as nat, narrow);
            }
            return Err(DbError::InvalidColumnType);
        }
        if pk > 0 {
            let ghost before = key_views(out@);
            out.push((pk, name));
            assert(key_views(out@) =~= before.push((pk, row@[1]->Text_0@)));
        }
        i += 1;
    }
    assert(rows@.take(rows.len() as int) =~= rows@);
    Ok(out)
}

proof fn lemma_keys_none_extends(rows: Seq<Vec<SqlCell>>, n: nat, narrow: bool)
    requires
        n <= rows.len(),
        table_info_keys(rows.take(n as int), narrow) is None,
    ensures
        table_info_keys(rows, narrow) is None,
    decreases rows.len() - n,
{
    if n < rows.len() {
        assert(rows.take((n + 1) as int).drop_last() =~= rows.take(n as int));
        lemma_keys_none_extends(rows, n + 1, narrow);
    } else {
        assert(rows.take(n as int) =~= rows);
    }
}

} // verus!
