//! Read side: the prior versions of one note from `dolt_history_notes`,
//! joined to `dolt_log` for the metadata stored in the commit message, and
//! a collection-wide listing of recent commits.

use vstd::prelude::*;
use crate::sql::{first_column_texts, first_text_is, integer_at, is_text, text_at, DbError, SqlArg, SqlCell};
use crate::text::{concat, decimal, decimal_usize, join_with, push_char, views};
use super::collection::{last_answer, sent_one, AnkiError, Collection};
use super::commit::commit_message;
use super::session::{NoteId, NotetypeId};

verus! {

// ---------------------------------------------------------------------
// Splitting and joining fields
// ---------------------------------------------------------------------

/// The field separator of `notes.flds`.
pub open spec fn field_separator() -> char {
    '\x1f'
}

/// `str::split` on one character: the pieces between separators, in
/// order; always at least one piece.
pub open spec fn split_on(s: Seq<char>, sep: char) -> Seq<Seq<char>>
    decreases s.len(),
{
    if s.len() == 0 {
        seq![Seq::<char>::empty()]
    } else {
        let rest = split_on(s.drop_last(), sep);
        if s.last() == sep {
            rest.push(Seq::<char>::empty())
        } else {
            rest.update(rest.len() - 1, rest.last().push(s.last()))
        }
    }
}

pub proof fn lemma_split_nonempty(s: Seq<char>, sep: char)
    ensures
        split_on(s, sep).len() >= 1,
    decreases s.len(),
{
    if s.len() > 0 {
        lemma_split_nonempty(s.drop_last(), sep);
    }
}

/// Joining the pieces of a split gives back the text.
pub proof fn law_join_split_roundtrip(s: Seq<char>, sep: char)
    ensures
        join_with(split_on(s, sep), sep) == s,
    decreases s.len(),
{
    if s.len() > 0 {
        let p = s.drop_last();
        let rest = split_on(p, sep);
        lemma_split_nonempty(p, sep);
        law_join_split_roundtrip(p, sep);
        if s.last() == sep {
            let r = rest.push(Seq::<char>::empty());
            assert(r.drop_last() =~= rest);
            assert(join_with(r, sep) =~= p.push(sep));
            assert(p.push(sep) =~= s);
        } else {
            let r = rest.update(rest.len() - 1, rest.last().push(s.last()));
            if rest.len() == 1 {
                assert(join_with(rest, sep) == rest[0]);
                assert(join_with(r, sep) == r[0]);
                assert(r[0] =~= p.push(s.last()));
            } else {
                assert(r.drop_last() =~= rest.drop_last());
                assert(join_with(r, sep) == join_with(rest.drop_last(), sep).push(sep) + r.last());
                assert(join_with(rest, sep) == join_with(rest.drop_last(), sep).push(sep)
                    + rest.last());
                assert(join_with(r, sep) =~= join_with(rest, sep).push(s.last()));
            }
            assert(p.push(s.last()) =~= s);
        }
    }
}

/// Splits on `sep` (`str::split` with one character).
pub fn split_on_char(s: &str, sep: char) -> (r: Vec<String>)
    ensures
        views(r@) == split_on(s@, sep),
{
    let mut out: Vec<String> = Vec::new();
    let mut current = String::new();
    let ghost mut idx: int = 0;
    for c in it: s.chars()
        invariant
            idx == it.index(),
            it.seq() == s@,
            views(out@).push(current@) == split_on(s@.take(idx), sep),
    {
        let ghost prefix = s@.take(idx);
        proof {
            assert(s@.take(idx + 1).drop_last() =~= prefix);
            assert(s@.take(idx + 1).last() == c);
        }
        if c == sep {
            let done = current;
            out.push(done);
            current = String::new();
            proof {
                assert(views(out@).push(current@) =~= split_on(prefix, sep).push(
                    Seq::<char>::empty(),
                ));
            }
        } else {
            let ghost before = views(out@).push(current@);
            push_char(&mut current, c);
            proof {
                assert(views(out@).push(current@) =~= before.update(
                    before.len() - 1,
                    before.last().push(c),
                ));
            }
        }
        proof {
            idx = idx + 1;
        }
    }
    let last = current;
    out.push(last);
    proof {
        assert(s@.take(s@.len() as int) =~= s@);
        assert(views(out@) =~= split_on(s@, sep));
    }
    out
}

/// The fields of a `notes.flds` value.
pub fn split_fields(fields: &str) -> (r: Vec<String>)
    ensures
        views(r@) == split_on(fields@, field_separator()),
{
    split_on_char(fields, '\x1f')
}

// ---------------------------------------------------------------------
// Field diffs
// ---------------------------------------------------------------------

/// `Field `
pub open spec fn field_prefix() -> Seq<char> {
    seq!['F', 'i', 'e', 'l', 'd', ' ']
}

/// The label of field `i`: its notetype name where known, else `Field i`.
pub open spec fn field_label(names: Option<Seq<Seq<char>>>, i: nat) -> Seq<char> {
    match names {
        Some(ns) if i < ns.len() => ns[i as int],
        _ => field_prefix() + decimal(i),
    }
}

/// Field `i` differs between the two field lists (present in one only, or
/// present in both with different text).
pub open spec fn field_differs(a: Seq<Seq<char>>, b: Seq<Seq<char>>, i: int) -> bool {
    if i < a.len() && i < b.len() {
        a[i] != b[i]
    } else {
        i < a.len() || i < b.len()
    }
}

/// Labels of the differing fields among the first `n`, in order.
pub open spec fn diff_labels(
    a: Seq<Seq<char>>,
    b: Seq<Seq<char>>,
    names: Option<Seq<Seq<char>>>,
    n: nat,
) -> Seq<Seq<char>>
    decreases n,
{
    if n == 0 {
        seq![]
    } else {
        let prev = diff_labels(a, b, names, (n - 1) as nat);
        if field_differs(a, b, n - 1) {
            prev.push(field_label(names, (n - 1) as nat))
        } else {
            prev
        }
    }
}

/// The larger of two lengths.
pub open spec fn max_len(x: nat, y: nat) -> nat {
    if x >= y { x } else { y }
}

/// The labels of the fields whose text differs between two `flds` values.
pub open spec fn spec_diff_field_names(
    a_flds: Seq<char>,
    b_flds: Seq<char>,
    names: Option<Seq<Seq<char>>>,
) -> Seq<Seq<char>> {
    let a = split_on(a_flds, field_separator());
    let b = split_on(b_flds, field_separator());
    diff_labels(a, b, names, max_len(a.len(), b.len()))
}

/// Optional names, as character sequences.
pub open spec fn names_view(names: Option<&Vec<String>>) -> Option<Seq<Seq<char>>> {
    match names {
        Some(v) => Some(views(v@)),
        None => None,
    }
}

fn field_label_exec(names: Option<&Vec<String>>, i: usize) -> (r: String)
    ensures
        r@ == field_label(names_view(names), i as nat),
{
    match names {
        Some(ns) => {
            if i < ns.len() {
                return ns[i].clone();
            }
        },
        None => {},
    }
    proof {
        reveal_strlit("Field ");
    }
    let digits = decimal_usize(i);
    concat("Field ", digits.as_str())
}

/// Names of the fields whose split-on-`\x1f` value differs between two
/// field blobs.
pub fn diff_field_names(a_flds: &str, b_flds: &str, field_names: Option<&Vec<String>>) -> (r: Vec<
    String,
>)
    ensures
        views(r@) == spec_diff_field_names(a_flds@, b_flds@, names_view(field_names)),
{
    let a = split_fields(a_flds);
    let b = split_fields(b_flds);
    let n = if a.len() >= b.len() { a.len() } else { b.len() };
    let mut changed: Vec<String> = Vec::new();
    let mut i: usize = 0;
    while i < n
        invariant
            i <= n,
            n == max_len(a@.len(), b@.len()),
            views(a@) == split_on(a_flds@, field_separator()),
            views(b@) == split_on(b_flds@, field_separator()),
            views(changed@) == diff_labels(views(a@), views(b@), names_view(field_names), i as nat),
        decreases n - i,
    {
        let differs = if i < a.len() && i < b.len() {
            !(a[i] == b[i])
        } else {
            true
        };
        proof {
            assert(views(a@).len() == a@.len() && views(b@).len() == b@.len());
            if i < a.len() && i < b.len() {
                assert(views(a@)[i as int] == a@[i as int]@);
                assert(views(b@)[i as int] == b@[i as int]@);
            }
            assert(differs == field_differs(views(a@), views(b@), i as int));
        }
        if differs {
            let label = field_label_exec(field_names, i);
            let ghost before = views(changed@);
            changed.push(label);
            assert(views(changed@) =~= before.push(label@));
        }
        i += 1;
    }
    proof {
        assert(views(a@).len() == a@.len() && views(b@).len() == b@.len());
    }
    changed
}

/// The changed fields of a version against the one before it; none for the
/// oldest version.
pub open spec fn spec_changed_field_names(
    current: Seq<char>,
    prior: Option<Seq<char>>,
    names: Option<Seq<Seq<char>>>,
) -> Seq<Seq<char>> {
    match prior {
        None => seq![],
        Some(p) => spec_diff_field_names(current, p, names),
    }
}

pub open spec fn opt_str_view(s: Option<&str>) -> Option<Seq<char>> {
    match s {
        Some(x) => Some(x@),
        None => None,
    }
}

/// Fields changed relative to the prior version; empty when there is none.
pub fn changed_field_names(
    current_flds: &str,
    prior_flds: Option<&str>,
    field_names: Option<&Vec<String>>,
) -> (r: Vec<String>)
    ensures
        views(r@) == spec_changed_field_names(
            current_flds@,
            opt_str_view(prior_flds),
            names_view(field_names),
        ),
{
    match prior_flds {
        None => {
            let r: Vec<String> = Vec::new();
            assert(views(r@) =~= Seq::<Seq<char>>::empty());
            r
        },
        Some(prior) => diff_field_names(current_flds, prior, field_names),
    }
}

/// A version that differs from its predecessor nowhere lists no changed
/// field, and identical texts never differ.
pub proof fn law_identical_fields_have_no_diff(flds: Seq<char>, names: Option<Seq<Seq<char>>>)
    ensures
        spec_diff_field_names(flds, flds, names) == Seq::<Seq<char>>::empty(),
{
    let a = split_on(flds, field_separator());
    lemma_no_diff_labels(a, names, a.len());
}

proof fn lemma_no_diff_labels(a: Seq<Seq<char>>, names: Option<Seq<Seq<char>>>, n: nat)
    requires
        n <= a.len(),
    ensures
        diff_labels(a, a, names, n) == Seq::<Seq<char>>::empty(),
    decreases n,
{
    if n > 0 {
        lemma_no_diff_labels(a, names, (n - 1) as nat);
    }
}

/// Every listed label belongs to a field that differs, and every differing
/// field is listed: field `i` is reported exactly when the texts differ.
pub proof fn law_diff_lists_exactly_the_differing_fields(
    a: Seq<Seq<char>>,
    b: Seq<Seq<char>>,
    n: nat,
)
    ensures
        diff_labels(a, b, None, n).len() == count_differing(a, b, n),
    decreases n,
{
    if n > 0 {
        law_diff_lists_exactly_the_differing_fields(a, b, (n - 1) as nat);
    }
}

proof fn lemma_diff_labels_len_symmetric(
    a: Seq<Seq<char>>,
    b: Seq<Seq<char>>,
    names: Option<Seq<Seq<char>>>,
    n: nat,
)
    ensures
        diff_labels(a, b, names, n).len() == diff_labels(b, a, names, n).len(),
        diff_labels(a, b, names, n).len() == count_differing(a, b, n),
    decreases n,
{
    if n > 0 {
        lemma_diff_labels_len_symmetric(a, b, names, (n - 1) as nat);
    }
}

proof fn lemma_no_differing_below(a: Seq<Seq<char>>, b: Seq<Seq<char>>, n: nat, i: int)
    requires
        count_differing(a, b, n) == 0,
        0 <= i < n,
    ensures
        !field_differs(a, b, i),
    decreases n,
{
    if i < n - 1 {
        lemma_no_differing_below(a, b, (n - 1) as nat, i);
    }
}

/// The diff does not depend on which version is the longer one: a field
/// present in only one of the two versions counts as changed, so both
/// directions list as many labels, one per field index below the larger
/// field count whose text differs or is missing on one side; and the diff
/// is empty exactly when the two versions hold the same fields.
pub proof fn law_diff_covers_fields_of_either_side(
    a_flds: Seq<char>,
    b_flds: Seq<char>,
    names: Option<Seq<Seq<char>>>,
)
    ensures
        spec_diff_field_names(a_flds, b_flds, names).len() == spec_diff_field_names(
            b_flds,
            a_flds,
            names,
        ).len(),
        ({
            let a = split_on(a_flds, field_separator());
            let b = split_on(b_flds, field_separator());
            &&& spec_diff_field_names(a_flds, b_flds, names).len() == count_differing(
                a,
                b,
                if a.len() >= b.len() {
                    a.len()
                } else {
                    b.len()
                },
            )
            &&& (spec_diff_field_names(a_flds, b_flds, names).len() == 0 <==> a == b)
        }),
{
    let a = split_on(a_flds, field_separator());
    let b = split_on(b_flds, field_separator());
    let n = max_len(a.len(), b.len());
    lemma_diff_labels_len_symmetric(a, b, names, n);
    assert(max_len(b.len(), a.len()) == n);
    if count_differing(a, b, n) == 0 {
        if a.len() != b.len() {
            let i = if a.len() < b.len() {
                a.len() as int
            } else {
                b.len() as int
            };
            lemma_no_differing_below(a, b, n, i);
        }
        assert forall|i: int| 0 <= i < a.len() implies a[i] == b[i] by {
            lemma_no_differing_below(a, b, n, i);
        }
        assert(a =~= b);
    }
    if a == b {
        lemma_no_diff_labels(a, names, a.len());
    }
}

/// How many of the first `n` fields differ.
pub open spec fn count_differing(a: Seq<Seq<char>>, b: Seq<Seq<char>>, n: nat) -> nat
    decreases n,
{
    if n == 0 {
        0
    } else {
        count_differing(a, b, (n - 1) as nat) + if field_differs(a, b, n - 1) {
            1nat
        } else {
            0nat
        }
    }
}

// ---------------------------------------------------------------------
// Commit metadata and dates
// ---------------------------------------------------------------------

/// What one member of a JSON document holds, as far as commit metadata
/// reads it.
pub enum JsonMember {
    /// The document is not a JSON object, or the member is not a string.
    Invalid,
    /// The object has no such member.
    Absent,
    /// The member is a string.
    Text(String),
}

/// Name for what `serde_json::from_str::<serde_json::Value>` followed by a
/// member lookup gives: `None` when `doc` is not a JSON object or the
/// member is not a string, `Some(None)` when the member is absent,
/// `Some(Some(text))` when it is a string.
pub uninterp spec fn json_text_member(doc: Seq<char>, key: Seq<char>) -> Option<Option<Seq<char>>>;

/// When `doc` is a commit message (`commit_message(a, b, c)`), its
/// `session` member is the text `a` and its `kind` member the text `b`.
pub open spec fn reads_commit_message(r: JsonMember, doc: Seq<char>, key: Seq<char>) -> bool {
    forall|a: Seq<char>, b: Seq<char>, c: Seq<char>|
        #[trigger] commit_message(a, b, c) == doc ==> (key == session_member() ==> (r matches JsonMember::Text(t) && t@ == a))
            && (key == kind_member() ==> (r matches JsonMember::Text(t) && t@ == b))
}

/// Parses `doc` as JSON (`serde_json::from_str`) and reads member `key`
/// of the object (`serde_json::Map::get`), telling the value's variants
/// apart. Its result is named by `json_text_member`. A document that is a
/// JSON object of three string members `session`, `kind` and `actor`, in
/// the form that `commit_message` writes, parses to those strings.
#[verifier::external_body]
fn json_member(doc: &str, key: &str) -> (r: JsonMember)
    ensures
        match r {
            JsonMember::Invalid => json_text_member(doc@, key@) is None,
            JsonMember::Absent => json_text_member(doc@, key@) == Some(None::<Seq<char>>),
            JsonMember::Text(t) => json_text_member(doc@, key@) == Some(Some(t@)),
        },
        reads_commit_message(r, doc@, key@),
{
    match serde_json::from_str::<serde_json::Value>(doc) {
        Ok(serde_json::Value::Object(map)) => match map.get(key) {
            None => JsonMember::Absent,
            Some(serde_json::Value::String(t)) => JsonMember::Text(t.clone()),
            Some(_) => JsonMember::Invalid,
        },
        _ => JsonMember::Invalid,
    }
}

/// `session`
pub open spec fn session_member() -> Seq<char> {
    seq!['s', 'e', 's', 's', 'i', 'o', 'n']
}

/// `kind`
pub open spec fn kind_member() -> Seq<char> {
    seq!['k', 'i', 'n', 'd']
}

/// An absent member reads as the empty string.
pub open spec fn member_or_empty(m: Option<Seq<char>>) -> Seq<char> {
    match m {
        Some(t) => t,
        None => Seq::<char>::empty(),
    }
}

/// The `(session, kind)` recorded in a commit message; both empty when the
/// message is not such metadata (e.g. the repository's initial commit).
pub open spec fn commit_meta(message: Seq<char>) -> (Seq<char>, Seq<char>) {
    match (
        json_text_member(message, session_member()),
        json_text_member(message, kind_member()),
    ) {
        (Some(s), Some(k)) => (member_or_empty(s), member_or_empty(k)),
        _ => (Seq::<char>::empty(), Seq::<char>::empty()),
    }
}

/// The session and kind stored in a commit message.
pub struct CommitMeta {
    pub session: String,
    pub kind: String,
}

/// Reads the metadata of a commit message; empty metadata when it is not
/// the JSON that `format_message` writes.
pub fn parse_meta(message: &str) -> (r: CommitMeta)
    ensures
        (r.session@, r.kind@) == commit_meta(message@),
        forall|a: Seq<char>, b: Seq<char>, c: Seq<char>|
            #[trigger] commit_message(a, b, c) == message@ ==> r.session@ == a && r.kind@ == b,
{
    proof {
        reveal_strlit("session");
        reveal_strlit("kind");
        assert("session"@ =~= session_member());
        assert("kind"@ =~= kind_member());
    }
    let session = json_member(message, "session");
    let kind = json_member(message, "kind");
    match (session, kind) {
        (JsonMember::Invalid, _) | (_, JsonMember::Invalid) => CommitMeta {
            session: String::new(),
            kind: String::new(),
        },
        (s, k) => {
            let session = match s {
                JsonMember::Text(t) => t,
                _ => String::new(),
            };
            let kind = match k {
                JsonMember::Text(t) => t,
                _ => String::new(),
            };
            CommitMeta { session, kind }
        },
    }
}

/// Name for what `chrono::NaiveDateTime::parse_from_str` followed by
/// `and_utc().timestamp()` gives: the Unix seconds of `text` read with
/// `format` as a UTC date and time, `None` when it does not parse.
pub uninterp spec fn naive_utc_timestamp(text: Seq<char>, format: Seq<char>) -> Option<i64>;

/// Parses a date and time with a `strftime`-style format as UTC
/// (`NaiveDateTime::parse_from_str`, `and_utc`, `timestamp`). Its result is
/// named by `naive_utc_timestamp`.
#[verifier::external_body]
fn parse_utc_timestamp(text: &str, format: &str) -> (r: Option<i64>)
    ensures
        r == naive_utc_timestamp(text@, format@),
{
    match chrono::NaiveDateTime::parse_from_str(text, format) {
        Ok(dt) => Some(dt.and_utc().timestamp()),
        Err(_) => None,
    }
}

/// `%Y-%m-%d %H:%M:%S`: the format of `dolt_log.date`.
pub open spec fn dolt_date_format() -> Seq<char> {
    seq!['%', 'Y', '-', '%', 'm', '-', '%', 'd', ' ', '%', 'H', ':', '%', 'M', ':', '%', 'S']
}

/// Unix seconds of a `dolt_log.date` value; zero when it does not parse.
pub open spec fn dolt_date_secs(date: Seq<char>) -> i64 {
    match naive_utc_timestamp(date, dolt_date_format()) {
        Some(t) => t,
        None => 0,
    }
}

/// Unix seconds of a `dolt_log.date` value (`YYYY-MM-DD HH:MM:SS`, UTC);
/// zero when it does not parse.
pub fn parse_dolt_date(s: &str) -> (r: i64)
    ensures
        r == dolt_date_secs(s@),
{
    proof {
        reveal_strlit("%Y-%m-%d %H:%M:%S");
        assert("%Y-%m-%d %H:%M:%S"@ =~= dolt_date_format());
    }
    match parse_utc_timestamp(s, "%Y-%m-%d %H:%M:%S") {
        Some(t) => t,
        None => 0,
    }
}

// ---------------------------------------------------------------------
// Versions of one note
// ---------------------------------------------------------------------

/// One row of a note's history, newest first.
pub struct HistoryRow {
    pub commit_hash: String,
    pub date: String,
    pub committer: String,
    pub message: String,
    pub mid: i64,
    pub flds: String,
}

/// One version of a note as listed to the user.
#[derive(Debug, Clone)]
pub struct NoteVersion {
    pub commit_hash: String,
    pub timestamp_secs: i64,
    pub author: String,
    pub session_id: String,
    pub session_kind: String,
    pub changed_fields: Vec<String>,
}

/// The `flds` of the row after `i` (the next older version), if any.
pub open spec fn prior_flds(rows: Seq<HistoryRow>, i: int) -> Option<Seq<char>> {
    if i + 1 < rows.len() {
        Some(rows[i + 1].flds@)
    } else {
        None
    }
}

/// `v` is the listing of history row `i`.
pub open spec fn version_of_row(
    v: NoteVersion,
    rows: Seq<HistoryRow>,
    i: int,
    names: Option<Seq<Seq<char>>>,
) -> bool {
    &&& v.commit_hash@ == rows[i].commit_hash@
    &&& v.timestamp_secs == dolt_date_secs(rows[i].date@)
    &&& v.author@ == rows[i].committer@
    &&& v.session_id@ == commit_meta(rows[i].message@).0
    &&& v.session_kind@ == commit_meta(rows[i].message@).1
    &&& views(v.changed_fields@) == spec_changed_field_names(
        rows[i].flds@,
        prior_flds(rows, i),
        names,
    )
}

/// `vs` lists the history rows one for one, in order.
pub open spec fn versions_of_rows(
    vs: Seq<NoteVersion>,
    rows: Seq<HistoryRow>,
    names: Option<Seq<Seq<char>>>,
) -> bool {
    &&& vs.len() == rows.len()
    &&& forall|i: int| 0 <= i < rows.len() ==> version_of_row(#[trigger] vs[i], rows, i, names)
}

/// `vs` is the listing of some history of rows.
pub open spec fn listed_from_history(vs: Seq<NoteVersion>) -> bool {
    exists|rows: Seq<HistoryRow>, names: Option<Seq<Seq<char>>>|
        #[trigger] versions_of_rows(vs, rows, names)
}

/// One version per history row, in the same order; each lists the fields
/// changed relative to the next older row.
pub fn build_versions(rows: &Vec<HistoryRow>, field_names: Option<&Vec<String>>) -> (out: Vec<
    NoteVersion,
>)
    ensures
        out.len() == rows.len(),
        forall|i: int|
            0 <= i < rows.len() ==> version_of_row(
                #[trigger] out@[i],
                rows@,
                i,
                names_view(field_names),
            ),
{
    let mut out: Vec<NoteVersion> = Vec::new();
    let mut i: usize = 0;
    while i < rows.len()
        invariant
            i <= rows.len(),
            out.len() == i,
            forall|j: int|
                0 <= j < i ==> version_of_row(#[trigger] out@[j], rows@, j, names_view(field_names)),
        decreases rows.len() - i,
    {
        let row = &rows[i];
        let prior: Option<&str> = if i + 1 < rows.len() {
            Some(rows[i + 1].flds.as_str())
        } else {
            None
        };
        assert(opt_str_view(prior) == prior_flds(rows@, i as int));
        let meta = parse_meta(row.message.as_str());
        let changed = changed_field_names(row.flds.as_str(), prior, field_names);
        let v = NoteVersion {
            commit_hash: row.commit_hash.clone(),
            timestamp_secs: parse_dolt_date(row.date.as_str()),
            author: row.committer.clone(),
            session_id: meta.session,
            session_kind: meta.kind,
            changed_fields: changed,
        };
        out.push(v);
        i += 1;
    }
    out
}

/// The oldest version of a note (the last one listed) has no predecessor
/// and so lists no changed field.
pub proof fn law_oldest_version_lists_no_changes(
    out: Seq<NoteVersion>,
    rows: Seq<HistoryRow>,
    names: Option<Seq<Seq<char>>>,
)
    requires
        out.len() == rows.len(),
        rows.len() > 0,
        forall|i: int| 0 <= i < rows.len() ==> version_of_row(#[trigger] out[i], rows, i, names),
    ensures
        out.last().changed_fields@.len() == 0,
{
    let k = rows.len() - 1;
    assert(version_of_row(out[k], rows, k, names));
    assert(views(out[k].changed_fields@).len() == out[k].changed_fields@.len());
}

// ---------------------------------------------------------------------
// Recent commits of the collection
// ---------------------------------------------------------------------

/// One row of the collection-wide commit log, newest first.
pub struct RecentRow {
    pub commit_hash: String,
    pub date: String,
    pub committer: String,
    pub message: String,
}

/// One commit of the collection-wide audit log.
#[derive(Debug, Clone)]
pub struct CollectionVersion {
    pub commit_hash: String,
    pub timestamp_secs: i64,
    pub author: String,
    pub session_id: String,
    pub session_kind: String,
}

/// The contents of a `CollectionVersion`.
pub struct CollectionVersionView {
    pub commit_hash: Seq<char>,
    pub timestamp_secs: i64,
    pub author: Seq<char>,
    pub session_id: Seq<char>,
    pub session_kind: Seq<char>,
}

impl View for CollectionVersion {
    type V = CollectionVersionView;

    open spec fn view(&self) -> CollectionVersionView {
        CollectionVersionView {
            commit_hash: self.commit_hash@,
            timestamp_secs: self.timestamp_secs,
            author: self.author@,
            session_id: self.session_id@,
            session_kind: self.session_kind@,
        }
    }
}

/// The listing of a commit row, or `None` when the session filter (empty:
/// no filter) excludes it.
pub open spec fn recent_version(row: RecentRow, filter: Seq<char>) -> Option<CollectionVersionView> {
    let meta = commit_meta(row.message@);
    if filter.len() != 0 && meta.0 != filter {
        None
    } else {
        Some(
            CollectionVersionView {
                commit_hash: row.commit_hash@,
                timestamp_secs: dolt_date_secs(row.date@),
                author: row.committer@,
                session_id: meta.0,
                session_kind: meta.1,
            },
        )
    }
}

/// The listings of the rows that pass the filter, in order.
pub open spec fn recent_versions(rows: Seq<RecentRow>, filter: Seq<char>) -> Seq<CollectionVersionView> {
    rows.filter_map(|r: RecentRow| recent_version(r, filter))
}

/// An absent filter is the empty filter.
pub open spec fn filter_view(f: Option<&str>) -> Seq<char> {
    match f {
        Some(s) => s@,
        None => Seq::<char>::empty(),
    }
}

/// The listings of the rows that pass the session filter, in order.
pub fn filter_and_build(rows: Vec<RecentRow>, session_filter: Option<&str>) -> (out: Vec<
    CollectionVersion,
>)
    ensures
        out@.map_values(|v: CollectionVersion| v@) == recent_versions(
            rows@,
            filter_view(session_filter),
        ),
{
    let filter: &str = match session_filter {
        Some(f) => f,
        None => "",
    };
    proof {
        reveal_strlit("");
    }
    let ghost fv = filter_view(session_filter);
    assert(filter@ == fv);
    let ghost f = |r: RecentRow| recent_version(r, fv);
    let mut out: Vec<CollectionVersion> = Vec::new();
    let mut i: usize = 0;
    while i < rows.len()
        invariant
            i <= rows.len(),
            filter@ == fv,
            f == (|r: RecentRow| recent_version(r, fv)),
            out@.map_values(|v: CollectionVersion| v@) == rows@.take(i as int).filter_map(f),
        decreases rows.len() - i,
    {
        let row = &rows[i];
        let meta = parse_meta(row.message.as_str());
        proof {
            assert(rows@.take(i + 1).drop_last() =~= rows@.take(i as int));
            assert(rows@.take(i + 1).last() == rows@[i as int]);
        }
        let skip = !filter.is_empty() && !crate::text::str_eq(meta.session.as_str(), filter);
        if !skip {
            let ghost before = out@.map_values(|v: CollectionVersion| v@);
            let v = CollectionVersion {
                commit_hash: row.commit_hash.clone(),
                timestamp_secs: parse_dolt_date(row.date.as_str()),
                author: row.committer.clone(),
                session_id: meta.session,
                session_kind: meta.kind,
            };
            out.push(v);
            proof {
                assert(out@.map_values(|v: CollectionVersion| v@) =~= before.push(v@));
            }
        }
        i += 1;
    }
    proof {
        assert(rows@.take(rows.len() as int) =~= rows@);
    }
    out
}

/// Every commit listed under a non-empty session filter carries that
/// session id.
pub proof fn law_session_filter_is_respected(rows: Seq<RecentRow>, filter: Seq<char>)
    ensures
        forall|k: int|
            0 <= k < recent_versions(rows, filter).len() && filter.len() != 0 ==> (
            #[trigger] recent_versions(rows, filter)[k]).session_id == filter,
    decreases rows.len(),
{
    let f = |r: RecentRow| recent_version(r, filter);
    if rows.len() > 0 {
        law_session_filter_is_respected(rows.drop_last(), filter);
        let prev = recent_versions(rows.drop_last(), filter);
        let all = recent_versions(rows, filter);
        assert forall|k: int| 0 <= k < all.len() && filter.len() != 0 implies (#[trigger] all[k]).session_id
            == filter by {
            if k < prev.len() {
                match f(rows.last()) {
                    Some(x) => {
                        assert(all == prev + seq![x]);
                        assert(all[k] == prev[k]);
                    },
                    None => {},
                }
            }
        }
    }
}

/// The number of commits to read: 50 when none is asked for, otherwise
/// the request capped at 1000.
pub open spec fn clamp_limit(limit: u32) -> u32 {
    if limit == 0 {
        50
    } else if limit > 1000 {
        1000
    } else {
        limit
    }
}

/// The commit count read by `list_recent_versions`.
pub fn clamped_limit(limit: u32) -> (r: u32)
    ensures
        r == clamp_limit(limit),
{
    if limit == 0 {
        50
    } else if limit > 1000 {
        1000
    } else {
        limit
    }
}

/// The clamped limit is always between 1 and 1000, and a request in that
/// range is kept as it is.
pub proof fn law_limit_is_clamped(limit: u32)
    ensures
        1 <= clamp_limit(limit) <= 1000,
        1 <= limit <= 1000 ==> clamp_limit(limit) == limit,
{
}

// ---------------------------------------------------------------------
// Reading the history tables
// ---------------------------------------------------------------------

/// The record `l`, from index `n` on, is the listing `vs` of a note's
/// versions: the history query, whose answer reads as the history rows
/// listed (`versions_of_rows`); when it answered rows, the reading of the
/// field names of the newest row's notetype (`names_read`), which label
/// the changed fields. Nothing else is sent.
pub open spec fn lists_history_with_names(
    vs: Seq<NoteVersion>,
    l: Seq<(Seq<char>, Seq<SqlArg>, Seq<Vec<SqlCell>>)>,
    n: int,
) -> bool {
    exists|rows: Seq<HistoryRow>, names: Option<Seq<Seq<char>>>|
        #![trigger versions_of_rows(vs, rows, names)]
        {
            &&& 0 <= n < l.len()
            &&& history_rows_are(rows, l[n].2)
            &&& versions_of_rows(vs, rows, names)
            &&& if rows.len() == 0 {
                l.len() == n + 1 && names is None
            } else {
                names_read(l, n + 1, rows[0].mid, names)
            }
        }
}

/// A history query row `(commit_hash, date, committer, message, mid, flds)`
/// reads as `h`.
pub open spec fn history_row_is(h: HistoryRow, cells: Vec<SqlCell>) -> bool {
    &&& cells@.len() >= 6
    &&& is_text(cells@[0], h.commit_hash@)
    &&& is_text(cells@[1], h.date@)
    &&& is_text(cells@[2], h.committer@)
    &&& is_text(cells@[3], h.message@)
    &&& cells@[4] == SqlCell::Integer(h.mid)
    &&& is_text(cells@[5], h.flds@)
}

/// A history query row has five texts and an integer where expected.
pub open spec fn history_shape(cells: Vec<SqlCell>) -> bool {
    &&& cells@.len() >= 6
    &&& cells@[0] is Text
    &&& cells@[1] is Text
    &&& cells@[2] is Text
    &&& cells@[3] is Text
    &&& cells@[4] is Integer
    &&& cells@[5] is Text
}

/// `v` reads the query rows `rows` one for one (`history_row_is`).
pub open spec fn history_rows_are(v: Seq<HistoryRow>, rows: Seq<Vec<SqlCell>>) -> bool {
    &&& v.len() == rows.len()
    &&& forall|k: int| 0 <= k < rows.len() ==> history_row_is(#[trigger] v[k], rows[k])
}

/// Reads the rows of the note-history query.
pub fn history_rows_from(rows: &Vec<Vec<SqlCell>>) -> (r: Result<Vec<HistoryRow>, DbError>)
    ensures
        r matches Ok(v) ==> history_rows_are(v@, rows@),
        r matches Err(e) ==> e is InvalidColumnType && exists|k: int|
            0 <= k < rows.len() && !history_shape(#[trigger] rows@[k]),
        (forall|k: int| 0 <= k < rows.len() ==> history_shape(#[trigger] rows@[k])) ==> r is Ok,
{
    let mut out: Vec<HistoryRow> = Vec::new();
    let mut i: usize = 0;
    while i < rows.len()
        invariant
            i <= rows.len(),
            out.len() == i,
            forall|k: int| 0 <= k < i ==> history_row_is(#[trigger] out@[k], rows@[k]),
        decreases rows.len() - i,
    {
        let r = &rows[i];
        let a = text_at(r, 0);
        let b = text_at(r, 1);
        let c = text_at(r, 2);
        let d = text_at(r, 3);
        let m = integer_at(r, 4);
        let f = text_at(r, 5);
        match (a, b, c, d, m, f) {
            (Ok(a), Ok(b), Ok(c), Ok(d), Ok(m), Ok(f)) => {
                out.push(HistoryRow { commit_hash: a, date: b, committer: c, message: d, mid: m, flds: f });
            },
            _ => {
                assert(!history_shape(rows@[i as int]));
                return Err(DbError::InvalidColumnType);
            },
        }
        i += 1;
    }
    Ok(out)
}

/// The query of a note's history: every ancestor of the default branch's
/// head with its shortest distance to the head, joined to the history of
/// one note, newest first.
pub open spec fn note_history_query() -> Seq<char> {
    "WITH RECURSIVE chain(commit_hash, depth) AS (
             SELECT hash, 0
             FROM dolt_branches
             WHERE name = (SELECT dolt_default_branch())
             UNION ALL
             SELECT a.parent_hash, c.depth + 1
             FROM chain c
             JOIN dolt_commit_ancestors a
               ON c.commit_hash = a.commit_hash
         )
         SELECT h.commit_hash, l.date, h.committer, l.message, h.mid, h.flds
         FROM dolt_history_notes h
         JOIN dolt_log l USING (commit_hash)
         JOIN (
             SELECT commit_hash, MIN(depth) AS depth
             FROM chain
             GROUP BY commit_hash
         ) c USING (commit_hash)
         WHERE h.id = ?
         ORDER BY c.depth ASC"@
}

/// Every ancestor of the default branch's head with its shortest distance
/// to the head, joined to the history of one note, newest first: sends
/// `note_history_query` with the note id and reads every row.
pub fn load_history(col: &mut Collection, nid: NoteId) -> (r: Result<Vec<HistoryRow>, AnkiError>)
    ensures
        sent_one(*old(col), *final(col), note_history_query(), seq![SqlArg::Integer(nid.0)]),
        r matches Ok(v) ==> history_rows_are(v@, last_answer(*final(col))),
        r matches Err(e) ==> e is Db,
{
    let mut args: Vec<SqlArg> = Vec::new();
    args.push(SqlArg::Integer(nid.0));
    assert(args@ =~= seq![SqlArg::Integer(nid.0)]);
    let rows = match col.query_db(
        "WITH RECURSIVE chain(commit_hash, depth) AS (
             SELECT hash, 0
             FROM dolt_branches
             WHERE name = (SELECT dolt_default_branch())
             UNION ALL
             SELECT a.parent_hash, c.depth + 1
             FROM chain c
             JOIN dolt_commit_ancestors a
               ON c.commit_hash = a.commit_hash
         )
         SELECT h.commit_hash, l.date, h.committer, l.message, h.mid, h.flds
         FROM dolt_history_notes h
         JOIN dolt_log l USING (commit_hash)
         JOIN (
             SELECT commit_hash, MIN(depth) AS depth
             FROM chain
             GROUP BY commit_hash
         ) c USING (commit_hash)
         WHERE h.id = ?
         ORDER BY c.depth ASC",
        &args,
    ) {
        Ok(rows) => rows,
        Err(e) => return Err(AnkiError::Db(e)),
    };
    match history_rows_from(&rows) {
        Ok(v) => Ok(v),
        Err(e) => Err(AnkiError::Db(e)),
    }
}

/// A recent-commits query row `(commit_hash, date, committer, message)`
/// reads as `r`.
pub open spec fn recent_row_is(r: RecentRow, cells: Vec<SqlCell>) -> bool {
    &&& cells@.len() >= 4
    &&& is_text(cells@[0], r.commit_hash@)
    &&& is_text(cells@[1], r.date@)
    &&& is_text(cells@[2], r.committer@)
    &&& is_text(cells@[3], r.message@)
}

/// `v` reads the query rows `rows` one for one (`recent_row_is`).
pub open spec fn recent_rows_are(v: Seq<RecentRow>, rows: Seq<Vec<SqlCell>>) -> bool {
    &&& v.len() == rows.len()
    &&& forall|k: int| 0 <= k < rows.len() ==> recent_row_is(#[trigger] v[k], rows[k])
}

/// Reads the rows of the recent-commits query.
pub fn recent_rows_from(rows: &Vec<Vec<SqlCell>>) -> (r: Result<Vec<RecentRow>, DbError>)
    ensures
        r matches Ok(v) ==> recent_rows_are(v@, rows@),
        r matches Err(e) ==> e is InvalidColumnType,
{
    let mut out: Vec<RecentRow> = Vec::new();
    let mut i: usize = 0;
    while i < rows.len()
        invariant
            i <= rows.len(),
            out.len() == i,
            forall|k: int| 0 <= k < i ==> recent_row_is(#[trigger] out@[k], rows@[k]),
        decreases rows.len() - i,
    {
        let r = &rows[i];
        let a = text_at(r, 0);
        let b = text_at(r, 1);
        let c = text_at(r, 2);
        let d = text_at(r, 3);
        match (a, b, c, d) {
            (Ok(a), Ok(b), Ok(c), Ok(d)) => {
                out.push(RecentRow { commit_hash: a, date: b, committer: c, message: d });
            },
            _ => {
                return Err(DbError::InvalidColumnType);
            },
        }
        i += 1;
    }
    Ok(out)
}

/// The query of the most recent commits reachable from the default
/// branch's head, newest first, with a committer filter (empty: none) and
/// a limit.
pub open spec fn recent_query() -> Seq<char> {
    "WITH RECURSIVE chain(commit_hash, depth) AS (
             SELECT hash, 0
             FROM dolt_branches
             WHERE name = (SELECT dolt_default_branch())
             UNION ALL
             SELECT a.parent_hash, c.depth + 1
             FROM chain c
             JOIN dolt_commit_ancestors a
               ON c.commit_hash = a.commit_hash
         )
         SELECT l.commit_hash, l.date, l.committer, l.message
         FROM dolt_log l
         JOIN (
             SELECT commit_hash, MIN(depth) AS depth
             FROM chain
             GROUP BY commit_hash
         ) c USING (commit_hash)
         WHERE (?1 = '' OR l.committer = ?1)
         ORDER BY c.depth ASC
         LIMIT ?2"@
}

/// `args` are the committer filter (empty for none) and the limit.
pub open spec fn recent_args(args: Seq<SqlArg>, author: Seq<char>, limit: u32) -> bool {
    &&& args.len() == 2
    &&& is_text_arg(args[0], author)
    &&& args[1] == SqlArg::Integer(limit as i64)
}

/// `a` binds the text `t`.
pub open spec fn is_text_arg(a: SqlArg, t: Seq<char>) -> bool {
    a matches SqlArg::Text(x) && x@ == t
}

/// The most recent commits reachable from the default branch's head,
/// newest first, optionally only those of one committer, at most `limit`:
/// sends `recent_query` and reads every row.
pub fn load_recent_commits(col: &mut Collection, author: Option<&str>, limit: u32) -> (r: Result<
    Vec<RecentRow>,
    AnkiError,
>)
    ensures
        final(col).state == old(col).state,
        final(col).storage.db == old(col).storage.db,
        final(col).storage.log@.len() == old(col).storage.log@.len() + 1,
        final(col).storage.log@.drop_last() == old(col).storage.log@,
        final(col).storage.log@.last().0 == recent_query(),
        recent_args(final(col).storage.log@.last().1, filter_view(author), limit),
        r matches Ok(v) ==> recent_rows_are(v@, last_answer(*final(col))),
        r matches Err(e) ==> e is Db,
{
    let author_filter: &str = match author {
        Some(a) => a,
        None => "",
    };
    proof {
        reveal_strlit("");
        assert(""@ =~= Seq::<char>::empty());
    }
    assert(author_filter@ == filter_view(author));
    let mut args: Vec<SqlArg> = Vec::new();
    args.push(SqlArg::Text(author_filter.to_owned()));
    args.push(SqlArg::Integer(limit as i64));
    assert(recent_args(args@, filter_view(author), limit));
    let rows = match col.query_db(
        "WITH RECURSIVE chain(commit_hash, depth) AS (
             SELECT hash, 0
             FROM dolt_branches
             WHERE name = (SELECT dolt_default_branch())
             UNION ALL
             SELECT a.parent_hash, c.depth + 1
             FROM chain c
             JOIN dolt_commit_ancestors a
               ON c.commit_hash = a.commit_hash
         )
         SELECT l.commit_hash, l.date, l.committer, l.message
         FROM dolt_log l
         JOIN (
             SELECT commit_hash, MIN(depth) AS depth
             FROM chain
             GROUP BY commit_hash
         ) c USING (commit_hash)
         WHERE (?1 = '' OR l.committer = ?1)
         ORDER BY c.depth ASC
         LIMIT ?2",
        &args,
    ) {
        Ok(rows) => rows,
        Err(e) => return Err(AnkiError::Db(e)),
    };
    match recent_rows_from(&rows) {
        Ok(v) => Ok(v),
        Err(e) => Err(AnkiError::Db(e)),
    }
}

/// The query that tells whether a notetype exists.
pub open spec fn notetype_query() -> Seq<char> {
    "SELECT id FROM notetypes WHERE id = ?"@
}

/// The query of a notetype's field names in field order.
pub open spec fn field_names_query() -> Seq<char> {
    "SELECT name FROM fields WHERE ntid = ? ORDER BY ord"@
}

/// The field names as character sequences.
pub open spec fn opt_names(o: Option<Vec<String>>) -> Option<Seq<Seq<char>>> {
    match o {
        Some(v) => Some(views(v@)),
        None => None,
    }
}

/// The record `l`, from index `n` on, reads the field names of notetype
/// `ntid`: the notetype query, and when it answered a row, the field-name
/// query, whose rows' first cells are `names`; `None` when the notetype
/// query answered no row. Nothing else is sent.
pub open spec fn names_read(
    l: Seq<(Seq<char>, Seq<SqlArg>, Seq<Vec<SqlCell>>)>,
    n: int,
    ntid: i64,
    names: Option<Seq<Seq<char>>>,
) -> bool {
    &&& 0 <= n < l.len()
    &&& l[n].0 == notetype_query()
    &&& l[n].1 == seq![SqlArg::Integer(ntid)]
    &&& match names {
        None => l.len() == n + 1 && l[n].2.len() == 0,
        Some(ns) => {
            &&& l.len() == n + 2
            &&& l[n].2.len() > 0
            &&& l[n + 1].0 == field_names_query()
            &&& l[n + 1].1 == seq![SqlArg::Integer(ntid)]
            &&& ns.len() == l[n + 1].2.len()
            &&& forall|k: int| 0 <= k < ns.len() ==> first_text_is(#[trigger] l[n + 1].2[k], ns[k])
        },
    }
}

/// The field names of a notetype in field order; `None` when the notetype
/// does not exist: `notetype_query` answered no row. Otherwise the first
/// column of each row of `field_names_query`, in order.
pub fn notetype_field_names(col: &mut Collection, ntid: NotetypeId) -> (r: Result<
    Option<Vec<String>>,
    AnkiError,
>)
    ensures
        final(col).state == old(col).state,
        final(col).storage.db == old(col).storage.db,
        final(col).storage.log@.len() > old(col).storage.log@.len(),
        final(col).storage.log@.subrange(0, old(col).storage.log@.len() as int)
            == old(col).storage.log@,
        final(col).storage.log@[old(col).storage.log@.len() as int].0 == notetype_query(),
        final(col).storage.log@[old(col).storage.log@.len() as int].1 == seq![
            SqlArg::Integer(ntid.0),
        ],
        r matches Ok(None) ==> final(col).storage.log@.len() == old(col).storage.log@.len() + 1
            && last_answer(*final(col)).len() == 0,
        r matches Ok(Some(ns)) ==> {
            &&& final(col).storage.log@.len() == old(col).storage.log@.len() + 2
            &&& final(col).storage.log@[old(col).storage.log@.len() as int].2.len() > 0
            &&& final(col).storage.log@.last().0 == field_names_query()
            &&& final(col).storage.log@.last().1 == seq![SqlArg::Integer(ntid.0)]
            &&& ns.len() == last_answer(*final(col)).len()
            &&& forall|k: int|
                0 <= k < ns.len() ==> first_text_is(#[trigger] last_answer(*final(col))[k], ns@[k]@)
        },
        r matches Ok(o) ==> names_read(final(col).storage.log@, old(col).storage.log@.len() as int, ntid.0, opt_names(o)),
        r matches Err(e) ==> e is Db,
{
    let ghost log0 = col.storage.log@;
    let mut args: Vec<SqlArg> = Vec::new();
    args.push(SqlArg::Integer(ntid.0));
    assert(args@ =~= seq![SqlArg::Integer(ntid.0)]);
    let found = col.query_db("SELECT id FROM notetypes WHERE id = ?", &args);
    let ghost log1 = col.storage.log@;
    assert(log1.subrange(0, log0.len() as int) =~= log0);
    assert(log1[log0.len() as int] == log1.last());
    let found = match found {
        Ok(rows) => rows,
        Err(e) => return Err(AnkiError::Db(e)),
    };
    if found.len() == 0 {
        return Ok(None);
    }
    let rows = col.query_db("SELECT name FROM fields WHERE ntid = ? ORDER BY ord", &args);
    proof {
        let l = col.storage.log@;
        assert(l.subrange(0, log0.len() as int) =~= log0);
        assert(l[log0.len() as int] == log1[log0.len() as int]);
    }
    let rows = match rows {
        Ok(rows) => rows,
        Err(e) => return Err(AnkiError::Db(e)),
    };
    assert(last_answer(*col) == rows@);
    match first_column_texts(&rows) {
        Ok(names) => Ok(Some(names)),
        Err(e) => Err(AnkiError::Db(e)),
    }
}

impl Collection {
    /// All versions of `nid`, newest first: the note's history rows
    /// (`load_history`) listed by `build_versions`. Empty when the note has
    /// no history.
    pub fn list_note_versions(&mut self, nid: NoteId) -> (r: Result<Vec<NoteVersion>, AnkiError>)
        ensures
            final(self).state == old(self).state,
            final(self).storage.db == old(self).storage.db,
            final(self).storage.log@.len() > old(self).storage.log@.len(),
            final(self).storage.log@[old(self).storage.log@.len() as int].0 == note_history_query(),
            final(self).storage.log@[old(self).storage.log@.len() as int].1 == seq![
                SqlArg::Integer(nid.0),
            ],
            r matches Ok(vs) ==> lists_history_with_names(
                vs@,
                final(self).storage.log@,
                old(self).storage.log@.len() as int,
            ),
            r matches Ok(vs) ==> (vs.len() > 0 ==> vs@.last().changed_fields@.len() == 0),
            r matches Err(e) ==> e is Db,
    {
        let ghost log0 = self.storage.log@;
        let rows = load_history(self, nid);
        let ghost log1 = self.storage.log@;
        assert(log1[log0.len() as int] == log1.last());
        let rows = rows?;
        let field_names = self.field_names_for_notetype_of_newest(&rows);
        proof {
            let l = self.storage.log@;
            assert(l.subrange(0, log1.len() as int)[log0.len() as int] == l[log0.len() as int]);
        }
        let field_names = field_names?;
        assert(history_rows_are(rows@, self.storage.log@[log0.len() as int].2));
        let names: Option<&Vec<String>> = match &field_names {
            Some(v) => Some(v),
            None => None,
        };
        let versions = build_versions(&rows, names);
        assert(versions_of_rows(versions@, rows@, names_view(names)));
        proof {
            if versions.len() > 0 {
                law_oldest_version_lists_no_changes(versions@, rows@, names_view(names));
            }
            assert(history_rows_are(rows@, self.storage.log@[old(self).storage.log@.len() as int].2)
                && versions_of_rows(versions@, rows@, names_view(names)));
        }
        proof {
            let l = self.storage.log@;
            let n = old(self).storage.log@.len() as int;
            assert(names_view(names) == opt_names(field_names));
            if rows.len() == 0 {
                assert(l =~= log1);
                assert(l.len() == n + 1);
            } else {
                assert(names_read(l, n + 1, rows@[0].mid, names_view(names)));
            }
            assert(history_rows_are(rows@, l[n].2) && versions_of_rows(versions@, rows@, names_view(names)));
        }
        assert(lists_history_with_names(versions@, self.storage.log@, old(self).storage.log@.len() as int));
        Ok(versions)
    }

    /// Recent commits across the collection, newest first. `author` and
    /// `session_id` are exact-match filters (absent or empty: no filter);
    /// `limit` is clamped to 1..=1000, 50 when zero. Sends `recent_query`
    /// with the author filter and the clamped limit, and lists its rows
    /// with `filter_and_build`.
    pub fn list_recent_versions(
        &mut self,
        author: Option<&str>,
        session_id: Option<&str>,
        limit: u32,
    ) -> (r: Result<Vec<CollectionVersion>, AnkiError>)
        ensures
            final(self).state == old(self).state,
            final(self).storage.db == old(self).storage.db,
            final(self).storage.log@.len() == old(self).storage.log@.len() + 1,
            final(self).storage.log@.drop_last() == old(self).storage.log@,
            final(self).storage.log@.last().0 == recent_query(),
            recent_args(final(self).storage.log@.last().1, filter_view(author), clamp_limit(limit)),
            r matches Ok(vs) ==> exists|rows: Seq<RecentRow>|
                recent_rows_are(rows, last_answer(*final(self)))
                    && vs@.map_values(|v: CollectionVersion| v@) == recent_versions(
                    rows,
                    filter_view(session_id),
                ),
            r matches Ok(vs) ==> forall|k: int|
                0 <= k < vs.len() && filter_view(session_id).len() != 0 ==> (#[trigger] vs@[k]).session_id@
                    == filter_view(session_id),
            r matches Err(e) ==> e is Db,
    {
        let clamped = clamped_limit(limit);
        let rows = load_recent_commits(self, author, clamped)?;
        let ghost rs = rows@;
        let out = filter_and_build(rows, session_id);
        proof {
            law_session_filter_is_respected(rs, filter_view(session_id));
            assert forall|k: int|
                0 <= k < out.len() && filter_view(session_id).len() != 0 implies (#[trigger] out@[k]).session_id@
                == filter_view(session_id) by {
                assert(out@.map_values(|v: CollectionVersion| v@)[k] == out@[k]@);
            }
        }
        Ok(out)
    }

    /// The field names of the notetype of the newest history row; none
    /// (and nothing sent) without history rows.
    pub fn field_names_for_notetype_of_newest(&mut self, rows: &Vec<HistoryRow>) -> (r: Result<
        Option<Vec<String>>,
        AnkiError,
    >)
        ensures
            final(self).state == old(self).state,
            final(self).storage.db == old(self).storage.db,
            final(self).storage.log@.len() >= old(self).storage.log@.len(),
            final(self).storage.log@.subrange(0, old(self).storage.log@.len() as int)
                == old(self).storage.log@,
            rows.len() == 0 ==> (r matches Ok(None) && final(self).storage.log@
                == old(self).storage.log@),
            rows.len() > 0 ==> final(self).storage.log@[old(self).storage.log@.len() as int].1
                == seq![SqlArg::Integer(rows@[0].mid)],
            rows.len() > 0 ==> (r matches Ok(o) ==> names_read(
                final(self).storage.log@,
                old(self).storage.log@.len() as int,
                rows@[0].mid,
                opt_names(o),
            )),
            r matches Err(e) ==> e is Db,
    {
        if rows.len() == 0 {
            assert(self.storage.log@.subrange(0, self.storage.log@.len() as int) =~= self.storage.log@);
            return Ok(None);
        }
        let ntid = NotetypeId(rows[0].mid);
        notetype_field_names(self, ntid)
    }
}

} // verus!
