//! Session identity and the in-memory snapshots used for change detection.

use vstd::prelude::*;
use rand::RngCore;
use crate::text::{push_char, str_eq};

verus! {

/// Identifier of a note (the `notes.id` column).
#[derive(Debug, Clone, Copy, PartialEq, Eq, Structural)]
pub struct NoteId(pub i64);

/// Identifier of a notetype (the `notetypes.id` column).
#[derive(Debug, Clone, Copy, PartialEq, Eq, Structural)]
pub struct NotetypeId(pub i64);

/// Who or what drives a versioning session.
#[derive(Debug, Clone, Copy, PartialEq, Eq, Structural)]
pub enum SessionKind {
    Editor,
    Agent,
    App,
}

/// The name a session kind is recorded under.
pub open spec fn kind_name(k: SessionKind) -> Seq<char> {
    match k {
        SessionKind::Editor => seq!['e', 'd', 'i', 't', 'o', 'r'],
        SessionKind::Agent => seq!['a', 'g', 'e', 'n', 't'],
        SessionKind::App => seq!['a', 'p', 'p'],
    }
}

impl SessionKind {
    pub fn as_str(self) -> (r: &'static str)
        ensures
            r@ == kind_name(self),
    {
        match self {
            SessionKind::Editor => {
                proof {
                    reveal_strlit("editor");
                }
                "editor"
            },
            SessionKind::Agent => {
                proof {
                    reveal_strlit("agent");
                }
                "agent"
            },
            SessionKind::App => {
                proof {
                    reveal_strlit("app");
                }
                "app"
            },
        }
    }
}

/// The identity a set of edits is committed under.
#[derive(Debug, Clone)]
pub struct SessionInfo {
    pub id: String,
    pub kind: SessionKind,
    pub author: String,
}

/// The author recorded for edits made by a person in the editor.
pub open spec fn human_author() -> Seq<char> {
    seq!['h', 'u', 'm', 'a', 'n']
}

impl SessionInfo {
    /// A fresh editor session for a human author, with a random id.
    pub fn editor_human() -> (r: Self)
        ensures
            r.kind == SessionKind::Editor,
            r.author@ == human_author(),
            is_session_id(r.id@),
    {
        proof {
            reveal_strlit("human");
        }
        Self { id: new_session_id(), kind: SessionKind::Editor, author: "human".to_string() }
    }
}

/// A session as handed back to the caller between begin and commit.
#[derive(Debug, Clone)]
pub struct SessionHandle {
    pub info: SessionInfo,
}

/// Lower-case hexadecimal digit.
pub open spec fn hex_char(d: nat) -> char {
    if d < 10 {
        crate::text::digit_char(d)
    } else if d == 10 {
        'a'
    } else if d == 11 {
        'b'
    } else if d == 12 {
        'c'
    } else if d == 13 {
        'd'
    } else if d == 14 {
        'e'
    } else {
        'f'
    }
}

/// Each byte as two lower-case hexadecimal digits (`{:02x}`).
pub open spec fn hex_of(bs: Seq<u8>) -> Seq<char>
    decreases bs.len(),
{
    if bs.len() == 0 {
        seq![]
    } else {
        hex_of(bs.drop_last()) + seq![
            hex_char((bs.last() / 16) as nat),
            hex_char((bs.last() % 16) as nat),
        ]
    }
}

/// A lower-case hexadecimal digit.
pub open spec fn is_hex_char(c: char) -> bool {
    ('0' <= c <= '9') || ('a' <= c <= 'f')
}

/// The shape of a generated session id: 32 lower-case hex digits.
pub open spec fn is_session_id(s: Seq<char>) -> bool {
    s.len() == 32 && forall|i: int| 0 <= i < s.len() ==> is_hex_char(#[trigger] s[i])
}

fn exec_hex_char(d: u8) -> (c: char)
    requires
        d < 16,
    ensures
        c == hex_char(d as nat),
{
    if d < 10 {
        if d == 0 { '0' }
        else if d == 1 { '1' }
        else if d == 2 { '2' }
        else if d == 3 { '3' }
        else if d == 4 { '4' }
        else if d == 5 { '5' }
        else if d == 6 { '6' }
        else if d == 7 { '7' }
        else if d == 8 { '8' }
        else { '9' }
    } else if d == 10 { 'a' }
    else if d == 11 { 'b' }
    else if d == 12 { 'c' }
    else if d == 13 { 'd' }
    else if d == 14 { 'e' }
    else { 'f' }
}

/// Lower-case hexadecimal text of a byte string, two digits per byte.
pub fn hex_lower(bytes: &[u8]) -> (s: String)
    ensures
        s@ == hex_of(bytes@),
{
    let mut s = String::new();
    let mut i: usize = 0;
    while i < bytes.len()
        invariant
            i <= bytes.len(),
            s@ == hex_of(bytes@.take(i as int)),
        decreases bytes.len() - i,
    {
        let b = bytes[i];
        push_char(&mut s, exec_hex_char(b / 16));
        push_char(&mut s, exec_hex_char(b % 16));
        assert(bytes@.take(i + 1).drop_last() == bytes@.take(i as int));
        i += 1;
    }
    assert(bytes@.take(bytes.len() as int) == bytes@);
    s
}

/// The hex text of `n` bytes is `2n` hex digits.
pub proof fn law_hex_is_two_digits_per_byte(bs: Seq<u8>)
    ensures
        hex_of(bs).len() == 2 * bs.len(),
        forall|i: int| 0 <= i < hex_of(bs).len() ==> is_hex_char(#[trigger] hex_of(bs)[i]),
    decreases bs.len(),
{
    if bs.len() > 0 {
        law_hex_is_two_digits_per_byte(bs.drop_last());
        let h = hex_of(bs);
        let p = hex_of(bs.drop_last());
        assert forall|i: int| 0 <= i < h.len() implies is_hex_char(#[trigger] h[i]) by {
            if i < p.len() {
                assert(h[i] == p[i]);
            }
        }
    }
}

/// Sixteen random bytes from the thread-local generator
/// (`rand::rng().fill_bytes`). Nothing is promised of their values.
#[verifier::external_body]
fn random_bytes() -> [u8; 16] {
    let mut bytes = [0u8; 16];
    rand::rng().fill_bytes(&mut bytes);
    bytes
}

/// The session id made of sixteen bytes: their lower-case hex text.
pub fn session_id_from_bytes(bytes: [u8; 16]) -> (s: String)
    ensures
        s@ == hex_of(bytes@),
        is_session_id(s@),
{
    let s = hex_lower(&bytes);
    proof {
        law_hex_is_two_digits_per_byte(bytes@);
    }
    s
}

/// A new random session id: 32 lower-case hex digits.
pub fn new_session_id() -> (s: String)
    ensures
        is_session_id(s@),
{
    session_id_from_bytes(random_bytes())
}

/// Snapshot of one note's editable content, taken at the start of a
/// session and compared with the stored row at the end.
#[derive(Debug, Clone, PartialEq, Eq)]
pub struct NoteSnapshot {
    pub nid: NoteId,
    pub flds: String,
    pub tags: String,
}

/// The snapshot recorded under each open session id. At most one entry
/// per session id.
#[derive(Debug)]
pub struct VersioningState {
    snapshots: Vec<(String, NoteSnapshot)>,
}

/// Two entries never share a session id.
pub open spec fn keys_unique(e: Seq<(String, NoteSnapshot)>) -> bool {
    forall|i: int, j: int|
        0 <= i < e.len() && 0 <= j < e.len() && i != j ==> #[trigger] e[i].0@ != #[trigger] e[j].0@
}

/// Some entry has this session id.
pub open spec fn has_key(e: Seq<(String, NoteSnapshot)>, k: Seq<char>) -> bool {
    exists|i: int| 0 <= i < e.len() && #[trigger] e[i].0@ == k
}

/// The snapshot of the entry with this session id.
pub open spec fn value_for(e: Seq<(String, NoteSnapshot)>, k: Seq<char>) -> NoteSnapshot {
    e[choose|i: int| 0 <= i < e.len() && #[trigger] e[i].0@ == k].1
}

/// The entries read as a map from session id to snapshot.
pub open spec fn entries_map(e: Seq<(String, NoteSnapshot)>) -> Map<Seq<char>, NoteSnapshot> {
    Map::new(|k: Seq<char>| has_key(e, k), |k: Seq<char>| value_for(e, k))
}

impl View for VersioningState {
    type V = Map<Seq<char>, NoteSnapshot>;

    closed spec fn view(&self) -> Map<Seq<char>, NoteSnapshot> {
        entries_map(self.snapshots@)
    }
}

impl VersioningState {
    #[verifier::type_invariant]
    spec fn wf(self) -> bool {
        keys_unique(self.snapshots@)
    }

    /// No snapshot recorded.
    pub fn new() -> (r: Self)
        ensures
            r@ == Map::<Seq<char>, NoteSnapshot>::empty(),
    {
        let r = VersioningState { snapshots: Vec::new() };
        assert(r@ =~= Map::<Seq<char>, NoteSnapshot>::empty());
        r
    }

    /// Index of the entry with this session id, if any.
    fn find(&self, session_id: &str) -> (r: Option<usize>)
        ensures
            match r {
                Some(i) => i < self.snapshots@.len() && self.snapshots@[i as int].0@ == session_id@,
                None => !has_key(self.snapshots@, session_id@),
            },
    {
        let mut i: usize = 0;
        while i < self.snapshots.len()
            invariant
                i <= self.snapshots@.len(),
                forall|j: int| 0 <= j < i ==> #[trigger] self.snapshots@[j].0@ != session_id@,
            decreases self.snapshots.len() - i,
        {
            if str_eq(self.snapshots[i].0.as_str(), session_id) {
                return Some(i);
            }
            i += 1;
        }
        None
    }

    /// Records `snapshot` under `session_id`, replacing an earlier one.
    pub fn store(&mut self, session_id: String, snapshot: NoteSnapshot)
        ensures
            final(self)@ == old(self)@.insert(session_id@, snapshot),
    {
        proof {
            use_type_invariant(&*self);
        }
        let ghost old_e = self.snapshots@;
        let ghost key = session_id@;
        match self.find(session_id.as_str()) {
            Some(i) => {
                let ghost new_e = old_e.update(i as int, (session_id, snapshot));
                proof {
                    assert forall|a: int, b: int|
                        0 <= a < new_e.len() && 0 <= b < new_e.len() && a != b implies #[trigger] new_e[a].0@
                        != #[trigger] new_e[b].0@ by {
                        if a != i && b != i {
                            assert(old_e[a].0@ != old_e[b].0@);
                        } else if a == i {
                            assert(old_e[i as int].0@ != old_e[b].0@);
                        } else {
                            assert(old_e[i as int].0@ != old_e[a].0@);
                        }
                    }
                    lemma_update_map(old_e, i as int, session_id, snapshot);
                }
                let mut entries: Vec<(String, NoteSnapshot)> = Vec::new();
                std::mem::swap(&mut entries, &mut self.snapshots);
                entries.set(i, (session_id, snapshot));
                self.snapshots = entries;
            },
            None => {
                let ghost new_e = old_e.push((session_id, snapshot));
                proof {
                    assert forall|a: int, b: int|
                        0 <= a < new_e.len() && 0 <= b < new_e.len() && a != b implies #[trigger] new_e[a].0@
                        != #[trigger] new_e[b].0@ by {
                        if a < old_e.len() && b < old_e.len() {
                            assert(old_e[a].0@ != old_e[b].0@);
                        } else if a < old_e.len() {
                            assert(new_e[a] == old_e[a]);
                        } else {
                            assert(new_e[b] == old_e[b]);
                        }
                    }
                    lemma_push_map(old_e, session_id, snapshot);
                }
                let mut entries: Vec<(String, NoteSnapshot)> = Vec::new();
                std::mem::swap(&mut entries, &mut self.snapshots);
                entries.push((session_id, snapshot));
                self.snapshots = entries;
            },
        }
    }

    /// Removes and returns the snapshot recorded under `session_id`.
    pub fn take(&mut self, session_id: &str) -> (r: Option<NoteSnapshot>)
        ensures
            r == (if old(self)@.contains_key(session_id@) {
                Some(old(self)@[session_id@])
            } else {
                None
            }),
            final(self)@ == old(self)@.remove(session_id@),
    {
        proof {
            use_type_invariant(&*self);
        }
        let ghost old_e = self.snapshots@;
        match self.find(session_id) {
            Some(i) => {
                proof {
                    lemma_remove_map(old_e, i as int);
                    assert(value_for(old_e, session_id@) == old_e[i as int].1);
                }
                let mut entries: Vec<(String, NoteSnapshot)> = Vec::new();
                std::mem::swap(&mut entries, &mut self.snapshots);
                let (_, snap) = entries.remove(i);
                self.snapshots = entries;
                Some(snap)
            },
            None => {
                assert(old(self)@ =~= old(self)@.remove(session_id@));
                None
            },
        }
    }
}

/// What `take` returns for a session id is what the last `store` for that
/// id recorded, and the other sessions' snapshots are untouched by either.
pub proof fn law_take_returns_what_store_recorded(
    m: Map<Seq<char>, NoteSnapshot>,
    id: Seq<char>,
    other: Seq<char>,
    snap: NoteSnapshot,
)
    requires
        other != id,
    ensures
        m.insert(id, snap).contains_key(id),
        m.insert(id, snap)[id] == snap,
        !m.insert(id, snap).remove(id).contains_key(id),
        m.insert(id, snap).remove(id).contains_key(other) == m.contains_key(other),
        m.contains_key(other) ==> m.insert(id, snap).remove(id)[other] == m[other],
{
}

proof fn lemma_update_map(e: Seq<(String, NoteSnapshot)>, i: int, k: String, v: NoteSnapshot)
    requires
        keys_unique(e),
        0 <= i < e.len(),
        e[i].0@ == k@,
    ensures
        keys_unique(e.update(i, (k, v))),
        entries_map(e.update(i, (k, v))) == entries_map(e).insert(k@, v),
{
    let f = e.update(i, (k, v));
    assert forall|a: int, b: int|
        0 <= a < f.len() && 0 <= b < f.len() && a != b implies #[trigger] f[a].0@ != #[trigger] f[b].0@ by {
        assert(e[a].0@ != e[b].0@);
    }
    assert forall|q: Seq<char>| #[trigger] has_key(f, q) == has_key(e, q) by {
        if has_key(e, q) {
            let w = choose|j: int| 0 <= j < e.len() && #[trigger] e[j].0@ == q;
            assert(f[w].0@ == q);
        }
        if has_key(f, q) {
            let w = choose|j: int| 0 <= j < f.len() && #[trigger] f[j].0@ == q;
            assert(e[w].0@ == q);
        }
    }
    assert forall|q: Seq<char>| has_key(f, q) implies #[trigger] value_for(f, q) == (if q == k@ {
        v
    } else {
        value_for(e, q)
    }) by {
        let w = choose|j: int| 0 <= j < f.len() && #[trigger] f[j].0@ == q;
        let w2 = choose|j: int| 0 <= j < e.len() && #[trigger] e[j].0@ == q;
        assert(e[w].0@ == q);
        if q == k@ {
            assert(w == i);
        } else {
            assert(w == w2);
        }
    }
    assert(entries_map(f) =~= entries_map(e).insert(k@, v));
}

proof fn lemma_push_map(e: Seq<(String, NoteSnapshot)>, k: String, v: NoteSnapshot)
    requires
        keys_unique(e),
        !has_key(e, k@),
    ensures
        entries_map(e.push((k, v))) == entries_map(e).insert(k@, v),
{
    let f = e.push((k, v));
    assert forall|q: Seq<char>| #[trigger] has_key(f, q) == (has_key(e, q) || q == k@) by {
        if has_key(e, q) {
            let w = choose|j: int| 0 <= j < e.len() && #[trigger] e[j].0@ == q;
            assert(f[w].0@ == q);
        }
        if q == k@ {
            assert(f[e.len() as int].0@ == q);
        }
        if has_key(f, q) && q != k@ {
            let w = choose|j: int| 0 <= j < f.len() && #[trigger] f[j].0@ == q;
            assert(w < e.len());
            assert(e[w].0@ == q);
        }
    }
    assert forall|q: Seq<char>| has_key(f, q) implies #[trigger] value_for(f, q) == (if q == k@ {
        v
    } else {
        value_for(e, q)
    }) by {
        let w = choose|j: int| 0 <= j < f.len() && #[trigger] f[j].0@ == q;
        if q == k@ {
            if w < e.len() {
                assert(e[w].0@ == q);
            }
            assert(w == e.len());
        } else {
            let w2 = choose|j: int| 0 <= j < e.len() && #[trigger] e[j].0@ == q;
            assert(w < e.len());
            assert(e[w].0@ == q);
            assert(w == w2);
        }
    }
    assert(entries_map(f) =~= entries_map(e).insert(k@, v));
}

proof fn lemma_remove_map(e: Seq<(String, NoteSnapshot)>, i: int)
    requires
        keys_unique(e),
        0 <= i < e.len(),
    ensures
        keys_unique(e.remove(i)),
        entries_map(e.remove(i)) == entries_map(e).remove(e[i].0@),
        has_key(e, e[i].0@),
        value_for(e, e[i].0@) == e[i].1,
{
    let f = e.remove(i);
    let k = e[i].0@;
    assert(e[i].0@ == k);
    assert forall|a: int| 0 <= a < f.len() implies #[trigger] f[a] == (if a < i {
        e[a]
    } else {
        e[a + 1]
    }) by {}
    assert forall|a: int, b: int|
        0 <= a < f.len() && 0 <= b < f.len() && a != b implies #[trigger] f[a].0@ != #[trigger] f[b].0@ by {
        let a2 = if a < i { a } else { a + 1 };
        let b2 = if b < i { b } else { b + 1 };
        assert(f[a] == e[a2] && f[b] == e[b2]);
        assert(e[a2].0@ != e[b2].0@);
    }
    assert forall|q: Seq<char>| #[trigger] has_key(f, q) == (has_key(e, q) && q != k) by {
        if has_key(f, q) {
            let w = choose|j: int| 0 <= j < f.len() && #[trigger] f[j].0@ == q;
            let w2 = if w < i { w } else { w + 1 };
            assert(f[w] == e[w2]);
            assert(e[w2].0@ == q);
            assert(w2 != i);
        }
        if has_key(e, q) && q != k {
            let w = choose|j: int| 0 <= j < e.len() && #[trigger] e[j].0@ == q;
            assert(w != i);
            let w2 = if w < i { w } else { w - 1 };
            assert(f[w2] == e[w]);
            assert(f[w2].0@ == q);
        }
    }
    assert forall|q: Seq<char>| has_key(f, q) implies #[trigger] value_for(f, q) == value_for(e, q) by {
        let w = choose|j: int| 0 <= j < f.len() && #[trigger] f[j].0@ == q;
        let w2 = if w < i { w } else { w + 1 };
        assert(f[w] == e[w2]);
        let w3 = choose|j: int| 0 <= j < e.len() && #[trigger] e[j].0@ == q;
        assert(e[w2].0@ == q);
        assert(w2 == w3);
    }
    assert(entries_map(f) =~= entries_map(e).remove(k));
    let w = choose|j: int| 0 <= j < e.len() && #[trigger] e[j].0@ == k;
    assert(w == i);
}

} // verus!
