//! The note store: an insertion-ordered mapping from decimal string keys to
//! note text, with the renumbering discipline that keeps keys dense.
//!
//! The ordered map itself is `indexmap::IndexMap`; the store's operations are
//! verified against contracts for the handful of map methods they call.

use vstd::prelude::*;
use crate::keys::{dec_rep, lemma_dec_rep_injective, key_for};
use crate::codec::{parse_doc, render_doc, parse_file_content, render_pairs, lemma_doc_round_trip};

verus! {

#[verifier::external_type_specification]
#[verifier::external_body]
#[verifier::reject_recursive_types(K)]
#[verifier::reject_recursive_types(V)]
#[verifier::reject_recursive_types(S)]
pub struct ExIndexMap<K, V, S>(indexmap::IndexMap<K, V, S>);

/// The entries a map holds: key and value character sequences, in the map's
/// iteration (insertion) order.
pub uninterp spec fn entries_of(m: indexmap::IndexMap<String, String>) -> Seq<(Seq<char>, Seq<char>)>;

/// The index of the first entry keyed `k`, or `-1` if no entry is.
pub open spec fn find_key(s: Seq<(Seq<char>, Seq<char>)>, k: Seq<char>) -> int
    decreases s.len(),
{
    if s.len() == 0 {
        -1
    } else if s[0].0 == k {
        0
    } else if find_key(s.drop_first(), k) < 0 {
        -1
    } else {
        find_key(s.drop_first(), k) + 1
    }
}

/// Whether some entry is keyed `k`.
pub open spec fn has_key(s: Seq<(Seq<char>, Seq<char>)>, k: Seq<char>) -> bool {
    find_key(s, k) >= 0
}

/// The value of the first entry keyed `k`.
pub open spec fn value_of(s: Seq<(Seq<char>, Seq<char>)>, k: Seq<char>) -> Seq<char> {
    s[find_key(s, k)].1
}

/// No two entries share a key.
pub open spec fn keys_distinct(s: Seq<(Seq<char>, Seq<char>)>) -> bool {
    forall|i: int, j: int| 0 <= i < j < s.len() ==> s[i].0 != s[j].0
}

/// What inserting under `k` does to the entries: an existing key keeps its
/// place and takes the new value, a new key goes last.
pub open spec fn insert_pair(
    s: Seq<(Seq<char>, Seq<char>)>,
    k: Seq<char>,
    v: Seq<char>,
) -> Seq<(Seq<char>, Seq<char>)> {
    if has_key(s, k) {
        s.update(find_key(s, k), (k, v))
    } else {
        s.push((k, v))
    }
}

/// The entries re-keyed to `"1" .. "N"` in their current order.
pub open spec fn renumbered(s: Seq<(Seq<char>, Seq<char>)>) -> Seq<(Seq<char>, Seq<char>)> {
    Seq::new(s.len(), |i: int| (dec_rep(i + 1), s[i].1))
}

/// The entries that inserting each pair in turn, starting from nothing,
/// leaves behind.
pub open spec fn from_pairs_seq(ps: Seq<(Seq<char>, Seq<char>)>) -> Seq<(Seq<char>, Seq<char>)>
    decreases ps.len(),
{
    if ps.len() == 0 {
        Seq::<(Seq<char>, Seq<char>)>::empty()
    } else {
        insert_pair(from_pairs_seq(ps.drop_last()), ps.last().0, ps.last().1)
    }
}

/// `find_key` finds the first entry keyed `k`, if one exists.
pub proof fn lemma_find_key(s: Seq<(Seq<char>, Seq<char>)>, k: Seq<char>)
    ensures
        has_key(s, k) ==> 0 <= find_key(s, k) < s.len() && s[find_key(s, k)].0 == k,
        !has_key(s, k) ==> forall|i: int| 0 <= i < s.len() ==> s[i].0 != k,
        forall|j: int| 0 <= j < find_key(s, k) ==> s[j].0 != k,
    decreases s.len(),
{
    if s.len() > 0 && s[0].0 != k {
        lemma_find_key(s.drop_first(), k);
        if !has_key(s, k) {
            assert forall|i: int| 0 <= i < s.len() implies s[i].0 != k by {
                if i >= 1 {
                    assert(s[i] == s.drop_first()[i - 1]);
                }
            }
        }
        assert forall|j: int| 0 <= j < find_key(s, k) implies s[j].0 != k by {
            if j >= 1 {
                assert(s[j] == s.drop_first()[j - 1]);
                assert(s.drop_first()[j - 1].0 != k);
            }
        }
    }
}

/// Two entry sequences with the same keys at the same places agree on
/// `find_key`.
pub proof fn lemma_find_key_same_keys(
    s: Seq<(Seq<char>, Seq<char>)>,
    t: Seq<(Seq<char>, Seq<char>)>,
    k: Seq<char>,
)
    requires
        s.len() == t.len(),
        forall|i: int| 0 <= i < s.len() ==> s[i].0 == t[i].0,
    ensures
        find_key(s, k) == find_key(t, k),
    decreases s.len(),
{
    if s.len() > 0 {
        assert(forall|i: int| 0 <= i < s.drop_first().len() ==> s.drop_first()[i] == s[i + 1]);
        assert(forall|i: int| 0 <= i < t.drop_first().len() ==> t.drop_first()[i] == t[i + 1]);
        lemma_find_key_same_keys(s.drop_first(), t.drop_first(), k);
    }
}

/// Inserting keeps the keys free of duplicates.
pub proof fn lemma_insert_pair_distinct(s: Seq<(Seq<char>, Seq<char>)>, k: Seq<char>, v: Seq<char>)
    requires
        keys_distinct(s),
    ensures
        keys_distinct(insert_pair(s, k, v)),
{
    lemma_find_key(s, k);
    let t = insert_pair(s, k, v);
    if has_key(s, k) {
        assert forall|i: int, j: int| 0 <= i < j < t.len() implies t[i].0 != t[j].0 by {
            assert(t[i].0 == s[i].0);
            assert(t[j].0 == s[j].0);
        }
    } else {
        assert forall|i: int, j: int| 0 <= i < j < t.len() implies t[i].0 != t[j].0 by {
            if j < s.len() {
                assert(t[i].0 == s[i].0);
                assert(t[j].0 == s[j].0);
            } else {
                assert(t[i].0 == s[i].0);
                assert(t[j].0 == k);
            }
        }
    }
}

/// Renumbered entries carry the keys `"1" .. "N"`, which are all distinct.
pub proof fn lemma_renumbered_distinct(s: Seq<(Seq<char>, Seq<char>)>)
    ensures
        keys_distinct(renumbered(s)),
{
    assert forall|i: int, j: int|
        0 <= i < j < renumbered(s).len() implies renumbered(s)[i].0 != renumbered(s)[j].0 by {
        if renumbered(s)[i].0 == renumbered(s)[j].0 {
            lemma_dec_rep_injective(i + 1, j + 1);
        }
    }
}

/// The key `"i+1"` is not among the first `i` renumbered entries.
proof fn lemma_renumbered_fresh(s: Seq<(Seq<char>, Seq<char>)>, i: int)
    requires
        0 <= i <= s.len(),
    ensures
        !has_key(renumbered(s).take(i), dec_rep(i + 1)),
{
    let t = renumbered(s).take(i);
    lemma_find_key(t, dec_rep(i + 1));
    if has_key(t, dec_rep(i + 1)) {
        let fk = find_key(t, dec_rep(i + 1));
        assert(t[fk].0 == dec_rep(fk + 1));
        lemma_dec_rep_injective(fk + 1, i + 1);
    }
}

/// Relies on `indexmap::IndexMap::new`: a new map is empty.
#[verifier::external_body]
fn map_new() -> (m: indexmap::IndexMap<String, String>)
    ensures
        entries_of(m) == Seq::<(Seq<char>, Seq<char>)>::empty(),
{
    indexmap::IndexMap::new()
}

/// Relies on `indexmap::IndexMap::len`: the number of entries.
#[verifier::external_body]
fn map_len(m: &indexmap::IndexMap<String, String>) -> (n: usize)
    ensures
        n == entries_of(*m).len(),
{
    m.len()
}

/// Relies on `indexmap::IndexMap::contains_key`: whether an entry with an
/// equivalent key is present.
#[verifier::external_body]
fn map_contains(m: &indexmap::IndexMap<String, String>, k: &String) -> (r: bool)
    ensures
        r == has_key(entries_of(*m), k@),
{
    m.contains_key(k)
}

/// Relies on `indexmap::IndexMap::get`: the value stored under an equivalent
/// key, if any.
#[verifier::external_body]
fn map_get(m: &indexmap::IndexMap<String, String>, k: &String) -> (r: Option<String>)
    ensures
        match r {
            Some(v) => has_key(entries_of(*m), k@) && v@ == value_of(entries_of(*m), k@),
            None => !has_key(entries_of(*m), k@),
        },
{
    m.get(k).cloned()
}

/// Relies on `indexmap::IndexMap::insert`: an existing key retains its place
/// in the order and its value is updated; a new key is inserted last.
#[verifier::external_body]
fn map_insert(m: &mut indexmap::IndexMap<String, String>, k: String, v: String)
    ensures
        entries_of(*final(m)) == insert_pair(entries_of(*old(m)), k@, v@),
{
    m.insert(k, v);
}

/// Relies on `indexmap::IndexMap::shift_remove`: removes the entry with an
/// equivalent key and shifts the entries after it down, preserving their
/// relative order; returns the removed value.
#[verifier::external_body]
fn map_remove(m: &mut indexmap::IndexMap<String, String>, k: &String) -> (r: Option<String>)
    ensures
        match r {
            Some(v) => has_key(entries_of(*old(m)), k@) && v@ == value_of(
                entries_of(*old(m)),
                k@,
            ) && entries_of(*final(m)) == entries_of(*old(m)).remove(
                find_key(entries_of(*old(m)), k@),
            ),
            None => !has_key(entries_of(*old(m)), k@) && entries_of(*final(m)) == entries_of(
                *old(m),
            ),
        },
{
    m.shift_remove(k)
}

/// Relies on `indexmap::IndexMap::clear`: removes all entries.
#[verifier::external_body]
fn map_clear(m: &mut indexmap::IndexMap<String, String>)
    ensures
        entries_of(*final(m)) == Seq::<(Seq<char>, Seq<char>)>::empty(),
{
    m.clear();
}

/// Relies on `indexmap::IndexMap::iter`: yields the entries in order.
#[verifier::external_body]
fn map_pairs(m: &indexmap::IndexMap<String, String>) -> (ps: Vec<(String, String)>)
    ensures
        ps.deep_view() == entries_of(*m),
{
    m.iter().map(|(k, v)| (k.clone(), v.clone())).collect()
}

/// An insertion-ordered store of notes. Keys are decimal strings handed out
/// by `add_note` and kept dense by renumbering after every deletion.
pub struct NoteStore {
    entries: indexmap::IndexMap<String, String>,
}

impl View for NoteStore {
    type V = Seq<(Seq<char>, Seq<char>)>;

    closed spec fn view(&self) -> Seq<(Seq<char>, Seq<char>)> {
        entries_of(self.entries)
    }
}

impl NoteStore {
    /// No two notes share a key.
    pub open spec fn wf(&self) -> bool {
        keys_distinct(self@)
    }

    /// An empty store.
    pub fn new() -> (s: Self)
        ensures
            s@ == Seq::<(Seq<char>, Seq<char>)>::empty(),
            s.wf(),
    {
        NoteStore { entries: map_new() }
    }

    /// The number of notes.
    pub fn len(&self) -> (n: usize)
        ensures
            n == self@.len(),
    {
        map_len(&self.entries)
    }

    /// Whether the store holds no notes.
    pub fn is_empty(&self) -> (b: bool)
        ensures
            b == (self@.len() == 0),
    {
        map_len(&self.entries) == 0
    }

    /// Whether a note is filed under `key`.
    pub fn contains(&self, key: &String) -> (r: bool)
        ensures
            r == has_key(self@, key@),
    {
        map_contains(&self.entries, key)
    }

    /// The text of the note filed under `key`, if any.
    pub fn note_text(&self, key: &String) -> (r: Option<String>)
        ensures
            match r {
                Some(v) => has_key(self@, key@) && v@ == value_of(self@, key@),
                None => !has_key(self@, key@),
            },
    {
        map_get(&self.entries, key)
    }

    /// All notes, as key/value pairs in the store's order.
    pub fn pairs(&self) -> (ps: Vec<(String, String)>)
        ensures
            ps.deep_view() == self@,
    {
        map_pairs(&self.entries)
    }

    /// Files `text` under the key `"count + 1"` and returns that key.
    pub fn add_note(&mut self, text: String) -> (key: String)
        requires
            old(self).wf(),
            old(self)@.len() < usize::MAX,
        ensures
            key@ == dec_rep(old(self)@.len() + 1 as int),
            final(self)@ == insert_pair(old(self)@, key@, text@),
            final(self).wf(),
    {
        let n = map_len(&self.entries);
        let key = key_for(n + 1);
        proof {
            lemma_insert_pair_distinct(self@, key@, text@);
        }
        map_insert(&mut self.entries, key.clone(), text);
        key
    }

    /// Re-keys all notes to `"1" .. "N"` in their current order.
    fn renumber(&mut self)
        ensures
            final(self)@ == renumbered(old(self)@),
            final(self).wf(),
    {
        let ps = map_pairs(&self.entries);
        map_clear(&mut self.entries);
        let n = ps.len();
        let mut i: usize = 0;
        while i < n
            invariant
                i <= n,
                n == ps.len(),
                ps.deep_view() == old(self)@,
                entries_of(self.entries) == renumbered(old(self)@).take(i as int),
            decreases n - i,
        {
            let key = key_for(i + 1);
            let text = ps[i].1.clone();
            proof {
                lemma_renumbered_fresh(old(self)@, i as int);
                assert(renumbered(old(self)@).take(i as int).push(
                    (dec_rep(i + 1), old(self)@[i as int].1),
                ) =~= renumbered(old(self)@).take(i + 1 as int));
                assert(text@ == old(self)@[i as int].1);
            }
            map_insert(&mut self.entries, key, text);
            i = i + 1;
        }
        proof {
            assert(renumbered(old(self)@).take(n as int) =~= renumbered(old(self)@));
            lemma_renumbered_distinct(old(self)@);
        }
    }

    /// Removes the note filed under `key`, if any, then re-keys the survivors
    /// to `"1" .. "N-1"` in their old relative order.
    pub fn delete_note(&mut self, key: &String) -> (removed: bool)
        requires
            old(self).wf(),
        ensures
            removed == has_key(old(self)@, key@),
            removed ==> final(self)@ == renumbered(
                old(self)@.remove(find_key(old(self)@, key@)),
            ),
            !removed ==> final(self)@ == old(self)@,
            final(self).wf(),
    {
        let hit = map_remove(&mut self.entries, key);
        if hit.is_some() {
            self.renumber();
            true
        } else {
            false
        }
    }

    /// Replaces the text of the note filed under `key`, leaving its key and
    /// place unchanged; a store without that key is left untouched.
    pub fn set_note(&mut self, key: &String, text: String) -> (updated: bool)
        requires
            old(self).wf(),
        ensures
            updated == has_key(old(self)@, key@),
            updated ==> final(self)@ == old(self)@.update(
                find_key(old(self)@, key@),
                (key@, text@),
            ),
            !updated ==> final(self)@ == old(self)@,
            final(self).wf(),
    {
        if map_contains(&self.entries, key) {
            proof {
                lemma_insert_pair_distinct(self@, key@, text@);
            }
            map_insert(&mut self.entries, key.clone(), text);
            true
        } else {
            false
        }
    }

    /// Exchanges the texts filed under two keys, leaving keys and order
    /// unchanged; if either key is missing, the store is left untouched.
    pub fn swap_notes(&mut self, key_a: &String, key_b: &String) -> (swapped: bool)
        requires
            old(self).wf(),
        ensures
            swapped == (has_key(old(self)@, key_a@) && has_key(old(self)@, key_b@)),
            !swapped ==> final(self)@ == old(self)@,
            swapped ==> final(self)@.len() == old(self)@.len(),
            swapped ==> forall|i: int|
                0 <= i < old(self)@.len() ==> final(self)@[i].0 == old(self)@[i].0,
            swapped ==> value_of(final(self)@, key_a@) == value_of(old(self)@, key_b@),
            swapped ==> value_of(final(self)@, key_b@) == value_of(old(self)@, key_a@),
            swapped ==> forall|i: int|
                0 <= i < old(self)@.len() && old(self)@[i].0 != key_a@ && old(self)@[i].0 != key_b@
                    ==> final(self)@[i] == old(self)@[i],
            final(self).wf(),
    {
        if map_contains(&self.entries, key_a) && map_contains(&self.entries, key_b) {
            let text_a = map_get(&self.entries, key_a).unwrap();
            let text_b = map_get(&self.entries, key_b).unwrap();
            proof {
                lemma_find_key(self@, key_a@);
                lemma_find_key(self@, key_b@);
                lemma_insert_pair_distinct(self@, key_a@, text_b@);
            }
            let ghost s0 = self@;
            map_insert(&mut self.entries, key_a.clone(), text_b);
            proof {
                let ghost s1 = entries_of(self.entries);
                lemma_find_key_same_keys(s0, s1, key_a@);
                lemma_find_key_same_keys(s0, s1, key_b@);
                lemma_find_key(s1, key_b@);
                lemma_insert_pair_distinct(s1, key_b@, text_a@);
            }
            map_insert(&mut self.entries, key_b.clone(), text_a);
            proof {
                let s0 = old(self)@;
                let s1 = s0.update(find_key(s0, key_a@), (key_a@, text_b@));
                let s2 = entries_of(self.entries);
                lemma_find_key_same_keys(s1, s2, key_a@);
                lemma_find_key_same_keys(s1, s2, key_b@);
                lemma_find_key(s0, key_a@);
                lemma_find_key(s0, key_b@);
            }
            true
        } else {
            false
        }
    }

    /// Removes every note.
    pub fn clear_notes(&mut self)
        ensures
            final(self)@ == Seq::<(Seq<char>, Seq<char>)>::empty(),
            final(self).wf(),
    {
        map_clear(&mut self.entries);
    }

    /// The store that inserting each pair in turn, starting from empty,
    /// builds up.
    pub fn from_pairs(ps: &Vec<(String, String)>) -> (s: Self)
        ensures
            s@ == from_pairs_seq(ps.deep_view()),
            s.wf(),
    {
        let mut st = NoteStore::new();
        let n = ps.len();
        let mut i: usize = 0;
        proof {
            assert(ps.deep_view().take(0) =~= Seq::<(Seq<char>, Seq<char>)>::empty());
        }
        while i < n
            invariant
                i <= n,
                n == ps@.len(),
                st@ == from_pairs_seq(ps.deep_view().take(i as int)),
                st.wf(),
            decreases n - i,
        {
            let k = ps[i].0.clone();
            let v = ps[i].1.clone();
            proof {
                lemma_insert_pair_distinct(st@, k@, v@);
                assert(ps.deep_view().take(i + 1 as int).drop_last() =~= ps.deep_view().take(
                    i as int,
                ));
                assert(ps.deep_view().take(i + 1 as int).last() == (k@, v@));
            }
            map_insert(&mut st.entries, k, v);
            i = i + 1;
        }
        proof {
            assert(ps.deep_view().take(n as int) =~= ps.deep_view());
        }
        st
    }
}

/// The entries a store loads from a note file: the parsed document's pairs,
/// inserted in order. An absent or unreadable file (`None`) and malformed
/// content both load as empty; no input fails.
pub open spec fn loaded_entries(content: Option<Seq<char>>) -> Seq<(Seq<char>, Seq<char>)> {
    match content {
        None => Seq::<(Seq<char>, Seq<char>)>::empty(),
        Some(t) => match parse_doc(t) {
            None => Seq::<(Seq<char>, Seq<char>)>::empty(),
            Some(ps) => from_pairs_seq(ps),
        },
    }
}

impl NoteStore {
    /// The note file's content for this store: the rendered document.
    pub fn to_file_content(&self) -> (out: String)
        ensures
            out@ == render_doc(self@),
    {
        let ps = self.pairs();
        render_pairs(&ps)
    }

    /// The store a note file's content loads to; `None` stands for a file
    /// that was absent or unreadable. Malformed content loads as an empty
    /// store; no input is an error.
    pub fn from_file_content(content: Option<&str>) -> (s: Self)
        ensures
            content is None ==> s@ == loaded_entries(None),
            content matches Some(t) ==> s@ == loaded_entries(Some(t@)),
            s.wf(),
    {
        match content {
            None => NoteStore::new(),
            Some(t) => match parse_file_content(t) {
                None => NoteStore::new(),
                Some(ps) => NoteStore::from_pairs(&ps),
            },
        }
    }
}

/// Inserting pairs whose keys are pairwise distinct appends each in turn:
/// the built store holds exactly those pairs, in order.
pub proof fn lemma_from_pairs_id(ps: Seq<(Seq<char>, Seq<char>)>)
    requires
        keys_distinct(ps),
    ensures
        from_pairs_seq(ps) == ps,
    decreases ps.len(),
{
    if ps.len() > 0 {
        let p = ps.drop_last();
        assert(keys_distinct(p));
        lemma_from_pairs_id(p);
        lemma_find_key(p, ps.last().0);
        if has_key(p, ps.last().0) {
            let fk = find_key(p, ps.last().0);
            assert(p[fk] == ps[fk]);
            assert(ps[fk].0 != ps[ps.len() - 1].0);
        }
        assert(p.push(ps.last()) =~= ps);
    }
}

/// Law: saving then loading reproduces the same ordered key→value mapping.
/// For any store with distinct keys, the content `to_file_content` renders
/// loads back to exactly the store's entries.
pub proof fn lemma_save_load_round_trip(s: Seq<(Seq<char>, Seq<char>)>)
    requires
        keys_distinct(s),
    ensures
        loaded_entries(Some(render_doc(s))) == s,
{
    lemma_doc_round_trip(s);
    lemma_from_pairs_id(s);
}

/// Keys are the dense sequence `"1" .. "N"`.
pub open spec fn dense_keys(s: Seq<(Seq<char>, Seq<char>)>) -> bool {
    forall|i: int| 0 <= i < s.len() ==> s[i].0 == dec_rep(i + 1)
}

/// Law: starting from a densely keyed store — in particular the empty one —
/// `add_note` hands out the key `"N + 1"`, appends the note last, and leaves
/// the store densely keyed. So a run of `add_note` calls starting from empty
/// returns exactly the keys `"1", "2", ..., "N"`, in call order.
pub proof fn lemma_add_keeps_dense(s: Seq<(Seq<char>, Seq<char>)>, text: Seq<char>)
    requires
        dense_keys(s),
    ensures
        insert_pair(s, dec_rep(s.len() + 1 as int), text) == s.push((dec_rep(s.len() + 1 as int), text)),
        dense_keys(insert_pair(s, dec_rep(s.len() + 1 as int), text)),
        dense_keys(Seq::<(Seq<char>, Seq<char>)>::empty()),
{
    let k = dec_rep(s.len() + 1 as int);
    lemma_find_key(s, k);
    if has_key(s, k) {
        let fk = find_key(s, k);
        assert(s[fk].0 == dec_rep(fk + 1));
        lemma_dec_rep_injective(fk + 1, s.len() + 1 as int);
    }
    let t = s.push((k, text));
    assert forall|i: int| 0 <= i < t.len() implies t[i].0 == dec_rep(i + 1) by {
        if i < s.len() {
            assert(t[i].0 == s[i].0);
        }
    }
}

/// Law: deleting the note keyed `k` from a densely keyed store leaves the
/// keys `"1" .. "N-1"` and the surviving values in their old relative order.
pub proof fn lemma_delete_renumbers(s: Seq<(Seq<char>, Seq<char>)>, k: Seq<char>)
    requires
        dense_keys(s),
        has_key(s, k),
    ensures
        ({
            let fk = find_key(s, k);
            let t = renumbered(s.remove(fk));
            &&& t.len() == s.len() - 1
            &&& dense_keys(t)
            &&& forall|i: int| 0 <= i < fk ==> t[i].1 == s[i].1
            &&& forall|i: int| fk <= i < t.len() ==> t[i].1 == s[i + 1].1
        }),
{
    lemma_find_key(s, k);
}

} // verus!
