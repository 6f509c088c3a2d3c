//! Small text utilities over `String` / `&str`, each with an exact
//! specification over `Seq<char>`.

use vstd::prelude::*;

verus! {

/// Appends one character to a `String` (`String::push` from std).
#[verifier::external_body]
pub(crate) fn push_char(s: &mut String, c: char)
    ensures
        final(s)@ == old(s)@.push(c),
{
    s.push(c);
}

/// Equality of two string slices: true exactly when they hold the same
/// characters.
pub(crate) fn str_eq(a: &str, b: &str) -> (r: bool)
    ensures
        r == (a@ == b@),
{
    let x = chars_of(a);
    let y = chars_of(b);
    if x.len() != y.len() {
        return false;
    }
    let mut i: usize = 0;
    while i < x.len()
        invariant
            x@ == a@,
            y@ == b@,
            x.len() == y.len(),
            i <= x.len(),
            forall|j: int| 0 <= j < i ==> x@[j] == y@[j],
        decreases x.len() - i,
    {
        if x[i] != y[i] {
            assert(x@[i as int] != y@[i as int]);
            return false;
        }
        i += 1;
    }
    assert(x@ =~= y@);
    true
}

/// The characters of a string slice, in order.
pub fn chars_of(s: &str) -> (r: Vec<char>)
    ensures
        r@ == s@,
{
    let mut out: Vec<char> = Vec::new();
    for c in it: s.chars()
        invariant
            out@ == it.seq().take(it.index() as int),
    {
        out.push(c);
    }
    out
}

/// Concatenation of two string slices.
pub fn concat(a: &str, b: &str) -> (r: String)
    ensures
        r@ == a@ + b@,
{
    let mut out = a.to_owned();
    out.append(b);
    out
}

/// The character that a byte value denotes when read as Latin-1,
/// which is what `byte as char` computes.
pub open spec fn byte_char(b: u8) -> char {
    b as char
}

/// Each byte read as one character (`byte as char`).
pub open spec fn latin1(bs: Seq<u8>) -> Seq<char> {
    bs.map_values(|b: u8| byte_char(b))
}

/// The character of a decimal digit.
pub open spec fn digit_char(d: nat) -> char {
    if d == 0 { '0' }
    else if d == 1 { '1' }
    else if d == 2 { '2' }
    else if d == 3 { '3' }
    else if d == 4 { '4' }
    else if d == 5 { '5' }
    else if d == 6 { '6' }
    else if d == 7 { '7' }
    else if d == 8 { '8' }
    else { '9' }
}

/// The decimal notation of a natural number, without leading zeros
/// (`"0"` for zero), as `format!("{}", n)` writes it.
pub open spec fn decimal(n: nat) -> Seq<char>
    decreases n,
{
    if n < 10 {
        seq![digit_char(n)]
    } else {
        decimal(n / 10).push(digit_char(n % 10))
    }
}

/// The decimal notation of a signed integer: a `-` sign before the
/// magnitude for negative numbers.
pub open spec fn signed_decimal(n: int) -> Seq<char> {
    if n < 0 {
        seq!['-'] + decimal((-n) as nat)
    } else {
        decimal(n as nat)
    }
}

fn exec_digit_char(d: u64) -> (c: char)
    requires
        d < 10,
    ensures
        c == digit_char(d as nat),
{
    if d == 0 { '0' }
    else if d == 1 { '1' }
    else if d == 2 { '2' }
    else if d == 3 { '3' }
    else if d == 4 { '4' }
    else if d == 5 { '5' }
    else if d == 6 { '6' }
    else if d == 7 { '7' }
    else if d == 8 { '8' }
    else { '9' }
}

/// Decimal notation of an unsigned integer.
pub fn decimal_u64(n: u64) -> (r: String)
    ensures
        r@ == decimal(n as nat),
{
    // Digits, least significant first.
    let mut rev: Vec<char> = Vec::new();
    let mut m: u64 = n;
    loop
        invariant_except_break
            decimal(n as nat) == decimal(m as nat) + rev@.reverse(),
        ensures
            decimal(n as nat) == rev@.reverse(),
        decreases m,
    {
        let d = m % 10;
        let c = exec_digit_char(d);
        let ghost old_rev = rev@;
        rev.push(c);
        assert(rev@.reverse() == seq![c] + old_rev.reverse()) by {
            assert(rev@.reverse() =~= seq![c] + old_rev.reverse());
        }
        if m < 10 {
            assert(decimal(m as nat) == seq![c]);
            assert(decimal(n as nat) == rev@.reverse()) by {
                assert(seq![c] + old_rev.reverse() =~= decimal(m as nat) + old_rev.reverse());
            }
            break;
        }
        let ghost old_m = m;
        m = m / 10;
        assert(decimal(old_m as nat) == decimal(m as nat).push(c));
        assert(decimal(n as nat) == decimal(m as nat) + rev@.reverse()) by {
            assert(decimal(m as nat).push(c) + old_rev.reverse() =~= decimal(m as nat) + (seq![c]
                + old_rev.reverse()));
        }
    }
    let mut out = String::new();
    let mut i: usize = rev.len();
    while i > 0
        invariant
            i <= rev.len(),
            out@ == rev@.reverse().take((rev.len() - i) as int),
        decreases i,
    {
        i -= 1;
        push_char(&mut out, rev[i]);
        assert(out@ =~= rev@.reverse().take((rev.len() - i) as int));
    }
    assert(rev@.reverse().take(rev.len() as int) =~= rev@.reverse());
    out
}

/// Decimal notation of a `usize`.
pub fn decimal_usize(n: usize) -> (r: String)
    ensures
        r@ == decimal(n as nat),
{
    decimal_u64(n as u64)
}

/// Decimal notation of a signed integer.
pub fn decimal_i64(n: i64) -> (r: String)
    ensures
        r@ == signed_decimal(n as int),
{
    if n < 0 {
        let mag: u64 = ((-(n + 1)) as u64) + 1;
        let digits = decimal_u64(mag);
        proof {
            reveal_strlit("-");
        }
        concat("-", digits.as_str())
    } else {
        decimal_u64(n as u64)
    }
}

/// The pieces joined with one separator between neighbours.
pub open spec fn join_with(parts: Seq<Seq<char>>, sep: char) -> Seq<char>
    decreases parts.len(),
{
    if parts.len() == 0 {
        Seq::<char>::empty()
    } else if parts.len() == 1 {
        parts[0]
    } else {
        join_with(parts.drop_last(), sep).push(sep) + parts.last()
    }
}

/// The characters of each string.
pub open spec fn views(v: Seq<String>) -> Seq<Seq<char>> {
    v.map_values(|s: String| s@)
}

/// Joins strings with a separator character.
pub fn join_strings(parts: &Vec<String>, sep: char) -> (r: String)
    ensures
        r@ == join_with(views(parts@), sep),
{
    let mut out = String::new();
    let mut i: usize = 0;
    while i < parts.len()
        invariant
            i <= parts.len(),
            out@ == join_with(views(parts@.take(i as int)), sep),
        decreases parts.len() - i,
    {
        let ghost before = out@;
        if i > 0 {
            push_char(&mut out, sep);
        }
        out.append(parts[i].as_str());
        proof {
            let v = views(parts@.take(i + 1));
            assert(v.drop_last() =~= views(parts@.take(i as int)));
            assert(v.last() == parts@[i as int]@);
            if i > 0 {
                assert(out@ =~= before.push(sep) + parts@[i as int]@);
            } else {
                assert(v.len() == 1);
                assert(out@ =~= parts@[i as int]@);
            }
        }
        i += 1;
    }
    proof {
        assert(parts@.take(parts.len() as int) =~= parts@);
    }
    out
}

/// The pieces joined with `sep` between neighbours.
pub open spec fn join_seq(parts: Seq<Seq<char>>, sep: Seq<char>) -> Seq<char>
    decreases parts.len(),
{
    if parts.len() == 0 {
        Seq::<char>::empty()
    } else if parts.len() == 1 {
        parts[0]
    } else {
        join_seq(parts.drop_last(), sep) + sep + parts.last()
    }
}

/// Joins strings with a separator string (`[String]::join`).
pub fn join_str(parts: &Vec<String>, sep: &str) -> (r: String)
    ensures
        r@ == join_seq(views(parts@), sep@),
{
    let mut out = String::new();
    let mut i: usize = 0;
    while i < parts.len()
        invariant
            i <= parts.len(),
            out@ == join_seq(views(parts@.take(i as int)), sep@),
        decreases parts.len() - i,
    {
        let ghost before = out@;
        if i > 0 {
            out.append(sep);
        }
        out.append(parts[i].as_str());
        proof {
            let v = views(parts@.take(i + 1));
            assert(v.drop_last() =~= views(parts@.take(i as int)));
            assert(v.last() == parts@[i as int]@);
            if i > 0 {
                assert(out@ =~= before + sep@ + parts@[i as int]@);
            } else {
                assert(v.len() == 1);
                assert(out@ =~= parts@[i as int]@);
            }
        }
        i += 1;
    }
    proof {
        assert(parts@.take(parts.len() as int) =~= parts@);
    }
    out
}

} // verus!
