//! Normalising legacy SQLite DDL so a Doltlite prolly engine accepts it:
//! `COLLATE unicase` annotations and `-- line comments` are removed.
//!
//! The functions work on the characters of the input; every character
//! outside a removed part comes back as it was, non-ASCII text included.

use vstd::prelude::*;
use crate::text::{chars_of, latin1, push_char};

verus! {

// ---------------------------------------------------------------------
// Character classes
// ---------------------------------------------------------------------

/// `c` equals the lower-case ASCII letter `w` in either case.
pub open spec fn ci_eq(c: char, w: char) -> bool {
    c == w || (c as int) + 32 == (w as int)
}

/// ASCII whitespace (`u8::is_ascii_whitespace`): space, tab, line feed,
/// form feed and carriage return; the gap allowed between `COLLATE` and
/// the collation name.
pub open spec fn is_gap(c: char) -> bool {
    c == ' ' || c == '\t' || c == '\n' || c == '\x0C' || c == '\r'
}

/// A character that may continue an identifier: ASCII letter, digit or `_`.
pub open spec fn is_ident_char(c: char) -> bool {
    ('0' <= c <= '9') || ('A' <= c <= 'Z') || ('a' <= c <= 'z') || c == '_'
}

/// The keyword `collate`, lower case.
pub open spec fn keyword() -> Seq<char> {
    seq!['c', 'o', 'l', 'l', 'a', 't', 'e']
}

/// The collation name `unicase`, lower case.
pub open spec fn collation_name() -> Seq<char> {
    seq!['u', 'n', 'i', 'c', 'a', 's', 'e']
}

/// `s` holds `word` at offset `at`, ignoring ASCII case.
pub open spec fn matches_ci(s: Seq<char>, at: int, word: Seq<char>) -> bool {
    &&& 0 <= at
    &&& at + word.len() <= s.len()
    &&& forall|k: int| 0 <= k < word.len() ==> ci_eq(#[trigger] s[at + k], word[k])
}

/// The first offset at or after `j` that does not hold whitespace (or the
/// length of `s`).
pub open spec fn gap_end(s: Seq<char>, j: int) -> int
    decreases s.len() - j,
{
    if 0 <= j < s.len() && is_gap(s[j]) {
        gap_end(s, j + 1)
    } else {
        j
    }
}

/// If `s` starts with `COLLATE\s+unicase` (any ASCII case, at least one
/// whitespace character, and the name not followed by an identifier
/// character), the length of that match.
pub open spec fn collate_unicase_match(s: Seq<char>) -> Option<int> {
    let j = gap_end(s, 7);
    if matches_ci(s, 0, keyword()) && j > 7 && matches_ci(s, j, collation_name()) && (j + 7
        >= s.len() || !is_ident_char(s[j + 7])) {
        Some(j + 7)
    } else {
        None
    }
}

/// The characters of `b` from offset `i` on, with every `COLLATE unicase`
/// match removed, scanning left to right.
pub open spec fn strip_collate_from(b: Seq<char>, i: int) -> Seq<char>
    decreases b.len() - i,
{
    if i < 0 || i >= b.len() {
        seq![]
    } else {
        match collate_unicase_match(b.subrange(i, b.len() as int)) {
            Some(end) => strip_collate_from(b, i + end),
            None => seq![b[i]] + strip_collate_from(b, i + 1),
        }
    }
}

/// The first offset at or after `i` that holds a newline (or the length).
pub open spec fn line_end(b: Seq<char>, i: int) -> int
    decreases b.len() - i,
{
    if i < 0 || i >= b.len() {
        b.len() as int
    } else if b[i] == '\n' {
        i
    } else {
        line_end(b, i + 1)
    }
}

/// A `--` starts at offset `i`.
pub open spec fn comment_at(b: Seq<char>, i: int) -> bool {
    0 <= i && i + 1 < b.len() && b[i] == '-' && b[i + 1] == '-'
}

/// The characters of `b` from offset `i` on, with each `--` and the rest
/// of its line removed (the newline itself is kept).
pub open spec fn strip_comments_from(b: Seq<char>, i: int) -> Seq<char>
    decreases b.len() - i,
{
    if i < 0 || i >= b.len() {
        seq![]
    } else if comment_at(b, i) {
        proof {
            lemma_line_end_bounds(b, i + 1);
        }
        strip_comments_from(b, line_end(b, i + 1))
    } else {
        seq![b[i]] + strip_comments_from(b, i + 1)
    }
}

/// What `strip_collate_unicase` returns for a string with these characters.
pub open spec fn spec_strip_collate_unicase(s: Seq<char>) -> Seq<char> {
    strip_collate_from(s, 0)
}

/// What `strip_line_comments` returns for a string with these characters.
pub open spec fn spec_strip_line_comments(s: Seq<char>) -> Seq<char> {
    strip_comments_from(s, 0)
}

/// What `sanitize_ddl` returns for a string with these characters.
pub open spec fn spec_sanitize_ddl(s: Seq<char>) -> Seq<char> {
    spec_strip_line_comments(spec_strip_collate_unicase(s))
}

pub proof fn lemma_line_end_bounds(b: Seq<char>, i: int)
    requires
        0 <= i,
    ensures
        i <= line_end(b, i) <= b.len() || (i > b.len() && line_end(b, i) == b.len()),
        line_end(b, i) < b.len() ==> b[line_end(b, i)] == '\n',
    decreases b.len() - i,
{
    if i < b.len() && b[i] != '\n' {
        lemma_line_end_bounds(b, i + 1);
    }
}

// ---------------------------------------------------------------------
// Laws
// ---------------------------------------------------------------------

/// No two adjacent `-` characters.
pub open spec fn no_double_dash(s: Seq<char>) -> bool {
    forall|k: int| 0 <= k < s.len() - 1 ==> !(#[trigger] s[k] == '-' && s[k + 1] == '-')
}

/// No `COLLATE unicase` match starts at any offset.
pub open spec fn has_no_collate_unicase(b: Seq<char>) -> bool {
    forall|i: int| 0 <= i < b.len() ==> #[trigger] collate_unicase_match(b.subrange(i, b.len() as int))
        is None
}

/// No `--` starts at any offset.
pub open spec fn has_no_comment(b: Seq<char>) -> bool {
    forall|i: int| 0 <= i < b.len() ==> !#[trigger] comment_at(b, i)
}

proof fn lemma_strip_comments_no_double_dash(b: Seq<char>, i: int)
    requires
        0 <= i,
    ensures
        no_double_dash(strip_comments_from(b, i)),
        i < b.len() && !comment_at(b, i) ==> strip_comments_from(b, i).len() > 0
            && strip_comments_from(b, i)[0] == b[i],
        comment_at(b, i) && strip_comments_from(b, i).len() > 0 ==> strip_comments_from(b, i)[0]
            == '\n',
    decreases b.len() - i,
{
    if i >= b.len() {
    } else if comment_at(b, i) {
        let e = line_end(b, i + 1);
        lemma_line_end_bounds(b, i + 1);
        lemma_strip_comments_no_double_dash(b, e);
    } else {
        lemma_strip_comments_no_double_dash(b, i + 1);
        let t = strip_comments_from(b, i + 1);
        let r = strip_comments_from(b, i);
        assert(r == seq![b[i]] + t);
        assert forall|k: int| 0 <= k < r.len() - 1 implies !(#[trigger] r[k] == '-' && r[k + 1]
            == '-') by {
            if k > 0 {
                assert(r[k] == t[k - 1] && r[k + 1] == t[k]);
            } else if b[i] == '-' {
                assert(t.len() > 0);
                assert(i + 1 < b.len());
                assert(!comment_at(b, i + 1));
                assert(r[1] == t[0]);
            }
        }
    }
}

/// Once line comments are stripped, no `--` is left anywhere in the text.
pub proof fn law_no_line_comment_marker_remains(s: Seq<char>)
    ensures
        no_double_dash(spec_strip_line_comments(s)),
{
    lemma_strip_comments_no_double_dash(s, 0);
}

/// Every `DDL` is sanitised into text that holds no `--`.
pub proof fn law_sanitized_ddl_has_no_line_comment_marker(s: Seq<char>)
    ensures
        no_double_dash(spec_sanitize_ddl(s)),
{
    law_no_line_comment_marker_remains(spec_strip_collate_unicase(s));
}

proof fn lemma_strip_comments_identity(b: Seq<char>, i: int)
    requires
        0 <= i <= b.len(),
        has_no_comment(b),
    ensures
        strip_comments_from(b, i) == b.subrange(i, b.len() as int),
    decreases b.len() - i,
{
    if i < b.len() {
        assert(!comment_at(b, i));
        lemma_strip_comments_identity(b, i + 1);
        assert(b.subrange(i, b.len() as int) =~= seq![b[i]] + b.subrange(i + 1, b.len() as int));
    } else {
        assert(b.subrange(i, b.len() as int) =~= Seq::<char>::empty());
    }
}

proof fn lemma_strip_collate_identity(b: Seq<char>, i: int)
    requires
        0 <= i <= b.len(),
        has_no_collate_unicase(b),
    ensures
        strip_collate_from(b, i) == b.subrange(i, b.len() as int),
    decreases b.len() - i,
{
    if i < b.len() {
        assert(collate_unicase_match(b.subrange(i, b.len() as int)) is None);
        lemma_strip_collate_identity(b, i + 1);
        assert(b.subrange(i, b.len() as int) =~= seq![b[i]] + b.subrange(i + 1, b.len() as int));
    } else {
        assert(b.subrange(i, b.len() as int) =~= Seq::<char>::empty());
    }
}

/// Text without any `--` comes back from `strip_line_comments` unchanged.
pub proof fn law_strip_line_comments_keeps_comment_free_text(s: Seq<char>)
    requires
        has_no_comment(s),
    ensures
        spec_strip_line_comments(s) == s,
{
    lemma_strip_comments_identity(s, 0);
    assert(s.subrange(0, s.len() as int) =~= s);
}

/// Text in which `COLLATE unicase` occurs nowhere comes back from
/// `strip_collate_unicase` unchanged.
pub proof fn law_strip_collate_unicase_keeps_text_without_match(s: Seq<char>)
    requires
        has_no_collate_unicase(s),
    ensures
        spec_strip_collate_unicase(s) == s,
{
    lemma_strip_collate_identity(s, 0);
    assert(s.subrange(0, s.len() as int) =~= s);
}

proof fn lemma_strip_collate_len(b: Seq<char>, i: int)
    requires
        0 <= i <= b.len(),
    ensures
        strip_collate_from(b, i).len() <= b.len() - i,
    decreases b.len() - i,
{
    if i < b.len() {
        match collate_unicase_match(b.subrange(i, b.len() as int)) {
            Some(end) => {
                lemma_strip_collate_len(b, i + end);
            },
            None => {
                lemma_strip_collate_len(b, i + 1);
            },
        }
    }
}

proof fn lemma_strip_comments_len(b: Seq<char>, i: int)
    requires
        0 <= i <= b.len(),
    ensures
        strip_comments_from(b, i).len() <= b.len() - i,
    decreases b.len() - i,
{
    if i < b.len() {
        if comment_at(b, i) {
            lemma_line_end_bounds(b, i + 1);
            lemma_strip_comments_len(b, line_end(b, i + 1));
        } else {
            lemma_strip_comments_len(b, i + 1);
        }
    }
}

/// Sanitising removes text and never adds any: the result is no longer
/// than the input.
pub proof fn law_sanitize_ddl_never_grows(s: Seq<char>)
    ensures
        spec_sanitize_ddl(s).len() <= s.len(),
{
    lemma_strip_collate_len(s, 0);
    lemma_strip_comments_len(spec_strip_collate_unicase(s), 0);
}

// ---------------------------------------------------------------------
// Executable code
// ---------------------------------------------------------------------

fn ci_eq_exec(c: char, w: char) -> (r: bool)
    ensures
        r == ci_eq(c, w),
{
    c == w || (c as u32) + 32 == (w as u32)
}

fn keyword_chars() -> (r: [char; 7])
    ensures
        r@ == keyword(),
{
    let r: [char; 7] = ['c', 'o', 'l', 'l', 'a', 't', 'e'];
    assert(r@ =~= keyword());
    r
}

fn collation_name_chars() -> (r: [char; 7])
    ensures
        r@ == collation_name(),
{
    let r: [char; 7] = ['u', 'n', 'i', 'c', 'a', 's', 'e'];
    assert(r@ =~= collation_name());
    r
}

/// The length of the `COLLATE\s+unicase` match that starts at offset
/// `start` of `cs`, if one does.
fn collate_unicase_at(cs: &Vec<char>, start: usize) -> (r: Option<usize>)
    requires
        start <= cs.len(),
    ensures
        match r {
            Some(end) => collate_unicase_match(cs@.subrange(start as int, cs.len() as int)) == Some(
                end as int,
            ),
            None => collate_unicase_match(cs@.subrange(start as int, cs.len() as int)) is None,
        },
{
    let ghost s = cs@.subrange(start as int, cs.len() as int);
    let kw = keyword_chars();
    let name = collation_name_chars();
    let n = cs.len() - start;
    if n < 7 {
        return None;
    }
    let mut i: usize = 0;
    while i < 7
        invariant
            i <= 7,
            n == s.len(),
            7 <= n,
            start + n == cs.len(),
            s == cs@.subrange(start as int, cs.len() as int),
            kw@ == keyword(),
            forall|k: int| 0 <= k < i ==> ci_eq(#[trigger] s[0 + k], keyword()[k]),
        decreases 7 - i,
    {
        if !ci_eq_exec(cs[start + i], kw[i]) {
            assert(!matches_ci(s, 0, keyword())) by {
                assert(s[0 + i] == cs@[start + i]);
                assert(!ci_eq(s[0 + i], keyword()[i as int]));
            }
            return None;
        }
        assert(s[0 + i] == cs@[start + i]);
        i += 1;
    }
    assert(matches_ci(s, 0, keyword()));
    let mut j: usize = 7;
    let mut saw_ws = false;
    while j < n && (cs[start + j] == ' ' || cs[start + j] == '\t' || cs[start + j] == '\n'
        || cs[start + j] == '\x0C' || cs[start + j] == '\r')
        invariant
            7 <= j <= n,
            n == s.len(),
            start + n == cs.len(),
            s == cs@.subrange(start as int, cs.len() as int),
            gap_end(s, j as int) == gap_end(s, 7),
            saw_ws == (j > 7),
        decreases n - j,
    {
        assert(s[j as int] == cs@[start + j]);
        saw_ws = true;
        j += 1;
    }
    assert(j < n ==> s[j as int] == cs@[start + j]);
    assert(gap_end(s, j as int) == j);
    if !saw_ws || n - j < 7 {
        return None;
    }
    let mut k: usize = 0;
    while k < 7
        invariant
            k <= 7,
            n == s.len(),
            start + n == cs.len(),
            s == cs@.subrange(start as int, cs.len() as int),
            j + 7 <= n,
            j > 7,
            gap_end(s, 7) == j as int,
            matches_ci(s, 0, keyword()),
            name@ == collation_name(),
            forall|q: int| 0 <= q < k ==> ci_eq(#[trigger] s[j + q], collation_name()[q]),
        decreases 7 - k,
    {
        assert(s[j + k] == cs@[start + j + k]);
        if !ci_eq_exec(cs[start + j + k], name[k]) {
            assert(!matches_ci(s, j as int, collation_name())) by {
                assert(!ci_eq(s[j + k], collation_name()[k as int]));
            }
            return None;
        }
        k += 1;
    }
    assert(matches_ci(s, j as int, collation_name()));
    let end = j + 7;
    if end < n {
        let next = cs[start + end];
        assert(s[end as int] == next);
        if ('0' <= next && next <= '9') || ('A' <= next && next <= 'Z') || ('a' <= next && next
            <= 'z') || next == '_' {
            assert(is_ident_char(s[end as int]));
            return None;
        }
    }
    Some(end)
}

/// If `slice` starts with `COLLATE\s+unicase` (case-insensitive, followed
/// by a non-identifier byte or the end), the length consumed.
pub fn try_match_collate_unicase(slice: &[u8]) -> (r: Option<usize>)
    ensures
        match r {
            Some(end) => collate_unicase_match(latin1(slice@)) == Some(end as int),
            None => collate_unicase_match(latin1(slice@)) is None,
        },
{
    let mut cs: Vec<char> = Vec::new();
    let mut i: usize = 0;
    while i < slice.len()
        invariant
            i <= slice.len(),
            cs@ == latin1(slice@.take(i as int)),
        decreases slice.len() - i,
    {
        cs.push(slice[i] as char);
        i += 1;
        assert(cs@ =~= latin1(slice@.take(i as int)));
    }
    assert(slice@.take(slice.len() as int) =~= slice@);
    assert(cs@.subrange(0, cs.len() as int) =~= cs@);
    collate_unicase_at(&cs, 0)
}

/// Removes `COLLATE unicase` (any case, any run of ASCII whitespace
/// between the two words) wherever the name is not the start of a longer
/// identifier.
pub fn strip_collate_unicase(ddl: &str) -> (out: String)
    ensures
        out@ == spec_strip_collate_unicase(ddl@),
{
    let cs = chars_of(ddl);
    let n = cs.len();
    let mut out = String::new();
    let mut i: usize = 0;
    while i < n
        invariant
            i <= n,
            n == cs@.len(),
            out@ + strip_collate_from(cs@, i as int) == strip_collate_from(cs@, 0),
        decreases n - i,
    {
        if let Some(end) = collate_unicase_at(&cs, i) {
            i = i + end;
        } else {
            let c = cs[i];
            let ghost before = out@;
            push_char(&mut out, c);
            proof {
                assert(strip_collate_from(cs@, i as int) == seq![c] + strip_collate_from(
                    cs@,
                    i + 1,
                ));
                assert(before + strip_collate_from(cs@, i as int) =~= out@ + strip_collate_from(
                    cs@,
                    i + 1,
                ));
            }
            i = i + 1;
        }
    }
    assert(out@ =~= strip_collate_from(cs@, 0));
    out
}

/// Removes `-- ...` line comments (up to, not including, the newline).
/// Block comments are kept.
pub fn strip_line_comments(ddl: &str) -> (out: String)
    ensures
        out@ == spec_strip_line_comments(ddl@),
{
    let cs = chars_of(ddl);
    let n = cs.len();
    let mut out = String::new();
    let mut i: usize = 0;
    while i < n
        invariant
            i <= n,
            n == cs@.len(),
            out@ + strip_comments_from(cs@, i as int) == strip_comments_from(cs@, 0),
        decreases n - i,
    {
        if i + 1 < n && cs[i] == '-' && cs[i + 1] == '-' {
            let ghost start = i;
            while i < n && cs[i] != '\n'
                invariant
                    start <= i <= n,
                    n == cs@.len(),
                    comment_at(cs@, start as int),
                    line_end(cs@, i as int) == line_end(cs@, start + 1),
                decreases n - i,
            {
                i += 1;
            }
            proof {
                assert(line_end(cs@, i as int) == i);
                assert(strip_comments_from(cs@, start as int) == strip_comments_from(
                    cs@,
                    i as int,
                ));
            }
        } else {
            let c = cs[i];
            let ghost before = out@;
            push_char(&mut out, c);
            proof {
                assert(strip_comments_from(cs@, i as int) == seq![c] + strip_comments_from(
                    cs@,
                    i + 1,
                ));
                assert(before + strip_comments_from(cs@, i as int) =~= out@ + strip_comments_from(
                    cs@,
                    i + 1,
                ));
            }
            i = i + 1;
        }
    }
    assert(out@ =~= strip_comments_from(cs@, 0));
    out
}

/// Normalises one DDL statement read from a legacy SQLite file: strips
/// `COLLATE unicase`, then strips `-- line comments`.
pub fn sanitize_ddl(ddl: &str) -> (out: String)
    ensures
        out@ == spec_sanitize_ddl(ddl@),
{
    let no_collate = strip_collate_unicase(ddl);
    strip_line_comments(no_collate.as_str())
}

} // verus!
