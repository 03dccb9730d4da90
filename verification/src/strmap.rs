//! A string-keyed map that remembers insertion order.
//!
//! Its view is the sequence of `(key, value)` entries in insertion order;
//! keys are unique (`keys_unique`), and inserting an existing key replaces
//! its value in place, so generated files keep a stable order.
use vstd::prelude::*;
use crate::text::{lex_lt, str_eq, str_lt, lemma_lex_lt_total, lemma_lex_lt_transitive, lemma_lex_lt_asymmetric};

verus! {

/// Some entry of `s` has key `k`.
pub open spec fn has_key<V>(s: Seq<(Seq<char>, V)>, k: Seq<char>) -> bool {
    exists|i: int| 0 <= i < s.len() && #[trigger] s[i].0 == k
}

/// No two entries of `s` share a key.
pub open spec fn keys_unique<V>(s: Seq<(Seq<char>, V)>) -> bool {
    forall|i: int, j: int| 0 <= i < s.len() && 0 <= j < s.len() && i != j ==> #[trigger] s[i].0 != #[trigger] s[j].0
}

/// Position of the entry with key `k` (meaningful when `has_key(s, k)`).
pub open spec fn key_pos<V>(s: Seq<(Seq<char>, V)>, k: Seq<char>) -> int {
    choose|i: int| 0 <= i < s.len() && #[trigger] s[i].0 == k
}

/// The value stored under `k`, if any.
pub open spec fn lookup<V>(s: Seq<(Seq<char>, V)>, k: Seq<char>) -> Option<V> {
    if has_key(s, k) {
        Some(s[key_pos(s, k)].1)
    } else {
        None
    }
}

/// Entries after inserting `(k, v)`: an existing key keeps its position and
/// takes the new value; a new key is appended.
pub open spec fn insert_entry<V>(s: Seq<(Seq<char>, V)>, k: Seq<char>, v: V) -> Seq<(Seq<char>, V)> {
    if has_key(s, k) {
        s.update(key_pos(s, k), (k, v))
    } else {
        s.push((k, v))
    }
}

pub proof fn lemma_key_pos<V>(s: Seq<(Seq<char>, V)>, k: Seq<char>, i: int)
    requires
        keys_unique(s),
        0 <= i < s.len(),
        s[i].0 == k,
    ensures
        has_key(s, k),
        key_pos(s, k) == i,
        lookup(s, k) == Some(s[i].1),
{
    assert(has_key(s, k));
    let p = key_pos(s, k);
    assert(s[p].0 == k);
    if p != i {
        assert(s[p].0 != s[i].0);
    }
}

/// Law: after inserting `v` under `k`, keys stay unique, `k` reads back
/// `v`, every other key reads what it read before, and the map grows by
/// one entry exactly when `k` was new.
pub proof fn lemma_insert_entry<V>(s: Seq<(Seq<char>, V)>, k: Seq<char>, v: V)
    requires
        keys_unique(s),
    ensures
        keys_unique(insert_entry(s, k, v)),
        lookup(insert_entry(s, k, v), k) == Some(v),
        forall|k2: Seq<char>| k2 != k ==> lookup(insert_entry(s, k, v), k2) == lookup(s, k2),
        has_key(s, k) ==> insert_entry(s, k, v).len() == s.len(),
        !has_key(s, k) ==> insert_entry(s, k, v).len() == s.len() + 1,
{
    let t = insert_entry(s, k, v);
    if has_key(s, k) {
        let p = key_pos(s, k);
        assert forall|i: int, j: int| 0 <= i < t.len() && 0 <= j < t.len() && i != j implies #[trigger] t[i].0 != #[trigger] t[j].0 by {
            if i != p && j != p {
                assert(s[i].0 != s[j].0);
            } else if i == p {
                assert(s[j].0 != s[p].0);
            } else {
                assert(s[i].0 != s[p].0);
            }
        }
        lemma_key_pos(t, k, p);
        assert forall|k2: Seq<char>| k2 != k implies lookup(t, k2) == lookup(s, k2) by {
            if has_key(s, k2) {
                let q = key_pos(s, k2);
                assert(q != p);
                lemma_key_pos(t, k2, q);
            } else if has_key(t, k2) {
                let q = key_pos(t, k2);
                assert(t[q].0 == k2);
                assert(q != p);
                assert(s[q].0 == k2);
            }
        }
    } else {
        let n = s.len() as int;
        assert forall|i: int, j: int| 0 <= i < t.len() && 0 <= j < t.len() && i != j implies #[trigger] t[i].0 != #[trigger] t[j].0 by {
            if i != n && j != n {
                assert(s[i].0 != s[j].0);
            } else if i == n {
                assert(!(s[j].0 == k));
            } else {
                assert(!(s[i].0 == k));
            }
        }
        lemma_key_pos(t, k, n);
        assert forall|k2: Seq<char>| k2 != k implies lookup(t, k2) == lookup(s, k2) by {
            if has_key(s, k2) {
                let q = key_pos(s, k2);
                lemma_key_pos(t, k2, q);
            } else if has_key(t, k2) {
                let q = key_pos(t, k2);
                assert(t[q].0 == k2);
                assert(q != n);
                assert(s[q].0 == k2);
            }
        }
    }
}

/// The entries of `s` with `f` applied to each value.
pub open spec fn map_vals<V, W>(s: Seq<(Seq<char>, V)>, f: spec_fn(V) -> W) -> Seq<(Seq<char>, W)> {
    s.map_values(|e: (Seq<char>, V)| (e.0, f(e.1)))
}

pub proof fn lemma_map_vals_insert<V, W>(s: Seq<(Seq<char>, V)>, k: Seq<char>, v: V, f: spec_fn(V) -> W)
    requires
        keys_unique(s),
    ensures
        keys_unique(map_vals(s, f)),
        has_key(map_vals(s, f), k) == has_key(s, k),
        map_vals(insert_entry(s, k, v), f) == insert_entry(map_vals(s, f), k, f(v)),
{
    let m = map_vals(s, f);
    assert forall|i: int, j: int| 0 <= i < m.len() && 0 <= j < m.len() && i != j implies #[trigger] m[i].0 != #[trigger] m[j].0 by {
        assert(m[i].0 == s[i].0 && m[j].0 == s[j].0);
    }
    if has_key(s, k) {
        let p = key_pos(s, k);
        assert(m[p].0 == k);
        lemma_key_pos(m, k, p);
        assert(map_vals(insert_entry(s, k, v), f) =~= insert_entry(m, k, f(v)));
    } else {
        if has_key(m, k) {
            let p = key_pos(m, k);
            assert(s[p].0 == k);
        }
        assert(map_vals(insert_entry(s, k, v), f) =~= insert_entry(m, k, f(v)));
    }
}

pub proof fn lemma_map_vals_lookup<V, W>(s: Seq<(Seq<char>, V)>, k: Seq<char>, f: spec_fn(V) -> W)
    requires
        keys_unique(s),
    ensures
        has_key(map_vals(s, f), k) == has_key(s, k),
        has_key(s, k) ==> key_pos(map_vals(s, f), k) == key_pos(s, k),
{
    let m = map_vals(s, f);
    if has_key(s, k) {
        let p = key_pos(s, k);
        assert(m[p].0 == k);
        assert forall|i: int, j: int| 0 <= i < m.len() && 0 <= j < m.len() && i != j implies #[trigger] m[i].0 != #[trigger] m[j].0 by {
            assert(m[i].0 == s[i].0 && m[j].0 == s[j].0);
        }
        lemma_key_pos(m, k, p);
    } else if has_key(m, k) {
        let p = key_pos(m, k);
        assert(s[p].0 == k);
    }
}

pub proof fn lemma_map_vals_lookup_value<V, W>(s: Seq<(Seq<char>, V)>, k: Seq<char>, f: spec_fn(V) -> W)
    requires
        keys_unique(s),
    ensures
        lookup(map_vals(s, f), k) == match lookup(s, k) {
            Some(v) => Some(f(v)),
            None => None,
        },
{
    lemma_map_vals_lookup(s, k, f);
}

/// Keys are in strictly increasing `String` order.
pub open spec fn keys_sorted<V>(s: Seq<(Seq<char>, V)>) -> bool {
    forall|i: int, j: int| 0 <= i < j < s.len() ==> lex_lt(#[trigger] s[i].0, #[trigger] s[j].0)
}

/// `i` is where `k` belongs among the keys of `s`.
pub open spec fn is_slot<V>(s: Seq<(Seq<char>, V)>, k: Seq<char>, i: int) -> bool {
    &&& 0 <= i <= s.len()
    &&& forall|j: int| 0 <= j < i ==> lex_lt(#[trigger] s[j].0, k)
    &&& forall|j: int| i <= j < s.len() ==> lex_lt(k, #[trigger] s[j].0)
}

/// Entries after inserting `(k, v)` into a sorted map: an existing key takes
/// the new value, a new key goes to its sorted position.
pub open spec fn insert_sorted_entry<V>(s: Seq<(Seq<char>, V)>, k: Seq<char>, v: V) -> Seq<(Seq<char>, V)> {
    if has_key(s, k) {
        s.update(key_pos(s, k), (k, v))
    } else {
        let i = choose|i: int| #[trigger] is_slot(s, k, i);
        s.insert(i, (k, v))
    }
}

pub proof fn lemma_sorted_unique<V>(s: Seq<(Seq<char>, V)>)
    requires
        keys_sorted(s),
    ensures
        keys_unique(s),
{
    assert forall|i: int, j: int| 0 <= i < s.len() && 0 <= j < s.len() && i != j implies #[trigger] s[i].0 != #[trigger] s[j].0 by {
        if i < j {
            assert(lex_lt(s[i].0, s[j].0));
            crate::text::lemma_lex_lt_irreflexive(s[i].0);
        } else {
            assert(lex_lt(s[j].0, s[i].0));
            crate::text::lemma_lex_lt_irreflexive(s[j].0);
        }
    }
}

/// Values that can be copied exactly.
pub trait Duplicate: Sized {
    /// An exact copy.
    fn duplicate(&self) -> (r: Self)
        ensures
            r == *self,
    ;
}

impl Duplicate for String {
    fn duplicate(&self) -> (r: Self) {
        self.clone()
    }
}

impl<T: Duplicate> Duplicate for Option<T> {
    fn duplicate(&self) -> (r: Self) {
        match self {
            Some(t) => Some(t.duplicate()),
            None => None,
        }
    }
}

/// Ordered, string-keyed map.
pub struct StrMap<V> {
    entries: Vec<(String, V)>,
}

impl<V> View for StrMap<V> {
    type V = Seq<(Seq<char>, V)>;

    open spec fn view(&self) -> Seq<(Seq<char>, V)> {
        self.spec_entries().map_values(|e: (String, V)| (e.0@, e.1))
    }
}

impl<V> StrMap<V> {
    pub closed spec fn spec_entries(&self) -> Seq<(String, V)> {
        self.entries@
    }

    /// Keys are unique.
    pub open spec fn wf(&self) -> bool {
        keys_unique(self@)
    }

    /// The empty map.
    pub fn new() -> (m: Self)
        ensures
            m@ == Seq::<(Seq<char>, V)>::empty(),
            m.wf(),
    {
        let m = StrMap { entries: Vec::new() };
        assert(m@ =~= Seq::<(Seq<char>, V)>::empty());
        m
    }

    /// Number of entries.
    pub fn len(&self) -> (n: usize)
        ensures
            n == self@.len(),
    {
        self.entries.len()
    }

    /// Position of the entry with key `k`, if any.
    pub fn position(&self, k: &str) -> (r: Option<usize>)
        requires
            self.wf(),
        ensures
            match r {
                Some(i) => has_key(self@, k@) && i == key_pos(self@, k@) && i < self@.len() && self@[i as int].0 == k@,
                None => !has_key(self@, k@),
            },
    {
        let mut i: usize = 0;
        while i < self.entries.len()
            invariant
                0 <= i <= self@.len(),
                self@.len() == self.entries@.len(),
                self.wf(),
                forall|j: int| 0 <= j < i ==> self@[j].0 != k@,
            decreases self.entries.len() - i,
        {
            if str_eq(self.entries[i].0.as_str(), k) {
                proof {
                    assert(self@[i as int].0 == self.entries@[i as int].0@);
                    lemma_key_pos(self@, k@, i as int);
                }
                return Some(i);
            }
            assert(self@[i as int].0 == self.entries@[i as int].0@);
            i += 1;
        }
        None
    }

    /// An entry with key `k` exists.
    pub fn contains_key(&self, k: &str) -> (r: bool)
        requires
            self.wf(),
        ensures
            r == has_key(self@, k@),
    {
        self.position(k).is_some()
    }

    /// The value stored under `k`, if any.
    pub fn get(&self, k: &str) -> (r: Option<&V>)
        requires
            self.wf(),
        ensures
            match r {
                Some(v) => lookup(self@, k@) == Some(*v),
                None => lookup(self@, k@) == None::<V>,
            },
    {
        match self.position(k) {
            Some(i) => {
                proof {
                    lemma_key_pos(self@, k@, i as int);
                }
                Some(&self.entries[i].1)
            },
            None => None,
        }
    }

    /// Key of the entry at position `i`.
    pub fn key_at(&self, i: usize) -> (r: &String)
        requires
            i < self@.len(),
        ensures
            r@ == self@[i as int].0,
    {
        &self.entries[i].0
    }

    /// Value of the entry at position `i`.
    pub fn value_at(&self, i: usize) -> (r: &V)
        requires
            i < self@.len(),
        ensures
            *r == self@[i as int].1,
    {
        &self.entries[i].1
    }

    /// Inserts `v` under `k`: replaces the value in place when `k` is
    /// present, appends a new entry otherwise.
    pub fn insert(&mut self, k: String, v: V)
        requires
            old(self).wf(),
        ensures
            final(self)@ == insert_entry(old(self)@, k@, v),
            final(self).wf(),
    {
        proof {
            lemma_insert_entry(old(self)@, k@, v);
        }
        let pos = self.position(k.as_str());
        match pos {
            Some(i) => {
                self.entries.set(i, (k, v));
            },
            None => {
                self.entries.push((k, v));
            },
        }
        assert(self@ =~= insert_entry(old(self)@, k@, v));
    }

    /// Inserts `v` under `k` in a map kept in key order (a `BTreeMap`).
    pub fn insert_sorted(&mut self, k: String, v: V)
        requires
            keys_sorted(old(self)@),
        ensures
            keys_sorted(final(self)@),
            final(self)@ == insert_sorted_entry(old(self)@, k@, v),
            lookup(final(self)@, k@) == Some(v),
            forall|k2: Seq<char>| k2 != k@ ==> lookup(final(self)@, k2) == lookup(old(self)@, k2),
    {
        proof {
            lemma_sorted_unique(old(self)@);
        }
        let ghost s = old(self)@;
        let mut i: usize = 0;
        while i < self.entries.len() && str_lt(self.entries[i].0.as_str(), k.as_str())
            invariant
                0 <= i <= s.len(),
                self@ == s,
                self@.len() == self.entries@.len(),
                forall|j: int| 0 <= j < i ==> lex_lt(#[trigger] s[j].0, k@),
            decreases self.entries.len() - i,
        {
            assert(s[i as int].0 == self.entries@[i as int].0@);
            i += 1;
        }
        if i < self.entries.len() && str_eq(self.entries[i].0.as_str(), k.as_str()) {
            proof {
                assert(s[i as int].0 == k@);
                lemma_key_pos(s, k@, i as int);
            }
            self.entries.set(i, (k, v));
            proof {
                assert(self@ =~= s.update(i as int, (k@, v)));
                let t = self@;
                assert forall|a: int, b: int| 0 <= a < b < t.len() implies lex_lt(#[trigger] t[a].0, #[trigger] t[b].0) by {
                    assert(t[a].0 == s[a].0 && t[b].0 == s[b].0);
                }
                lemma_sorted_unique(t);
                lemma_key_pos(t, k@, i as int);
                assert forall|k2: Seq<char>| k2 != k@ implies lookup(t, k2) == lookup(s, k2) by {
                    if has_key(s, k2) {
                        let q = key_pos(s, k2);
                        assert(q != i);
                        lemma_key_pos(t, k2, q);
                    } else if has_key(t, k2) {
                        let q = key_pos(t, k2);
                        assert(q != i);
                        assert(s[q].0 == k2);
                    }
                }
            }
        } else {
            proof {
                if i < s.len() {
                    assert(!lex_lt(s[i as int].0, k@));
                    assert(s[i as int].0 != k@);
                    lemma_lex_lt_total(s[i as int].0, k@);
                }
                assert forall|j: int| i <= j < s.len() implies lex_lt(k@, #[trigger] s[j].0) by {
                    if j > i {
                        assert(lex_lt(s[i as int].0, s[j].0));
                        lemma_lex_lt_transitive(k@, s[i as int].0, s[j].0);
                    }
                }
                if has_key(s, k@) {
                    let q = key_pos(s, k@);
                    if q < i {
                        assert(lex_lt(s[q].0, k@));
                        crate::text::lemma_lex_lt_irreflexive(k@);
                    } else {
                        assert(lex_lt(k@, s[q].0));
                        crate::text::lemma_lex_lt_irreflexive(k@);
                    }
                }
            }
            self.entries.insert(i, (k, v));
            proof {
                let t = self@;
                assert(t =~= s.insert(i as int, (k@, v)));
                assert(is_slot(s, k@, i as int));
                let w = choose|w: int| #[trigger] is_slot(s, k@, w);
                if w < i {
                    assert(lex_lt(s[w].0, k@));
                    assert(lex_lt(k@, s[w].0));
                    lemma_lex_lt_asymmetric(s[w].0, k@);
                } else if w > i {
                    assert(lex_lt(s[i as int].0, k@));
                    assert(lex_lt(k@, s[i as int].0));
                    lemma_lex_lt_asymmetric(s[i as int].0, k@);
                }
                assert forall|a: int, b: int| 0 <= a < b < t.len() implies lex_lt(#[trigger] t[a].0, #[trigger] t[b].0) by {
                    if b < i {
                        assert(t[a] == s[a] && t[b] == s[b]);
                    } else if a > i {
                        assert(t[a] == s[a - 1] && t[b] == s[b - 1]);
                    } else if a == i {
                        assert(t[b] == s[b - 1]);
                    } else if b == i {
                        assert(t[a] == s[a]);
                    } else {
                        assert(t[a] == s[a] && t[b] == s[b - 1]);
                        assert(lex_lt(s[a].0, k@));
                        lemma_lex_lt_transitive(s[a].0, k@, s[b - 1].0);
                    }
                }
                lemma_sorted_unique(t);
                lemma_key_pos(t, k@, i as int);
                assert forall|k2: Seq<char>| k2 != k@ implies lookup(t, k2) == lookup(s, k2) by {
                    if has_key(s, k2) {
                        let q = key_pos(s, k2);
                        if q < i {
                            lemma_key_pos(t, k2, q);
                        } else {
                            assert(t[q + 1] == s[q]);
                            lemma_key_pos(t, k2, q + 1);
                        }
                    } else if has_key(t, k2) {
                        let q = key_pos(t, k2);
                        if q < i {
                            assert(s[q].0 == k2);
                        } else if q > i {
                            assert(s[q - 1].0 == k2);
                        }
                    }
                }
            }
        }
    }

    /// A copy of the map.
    pub fn duplicate(&self) -> (r: Self)
        where V: Duplicate,
        ensures
            r@ == self@,
    {
        let mut entries: Vec<(String, V)> = Vec::new();
        let mut i: usize = 0;
        while i < self.entries.len()
            invariant
                0 <= i <= self.entries@.len(),
                entries@.len() == i,
                forall|j: int| 0 <= j < i ==> #[trigger] entries@[j] == self.entries@[j],
            decreases self.entries@.len() - i,
        {
            let k = self.entries[i].0.clone();
            let v = self.entries[i].1.duplicate();
            entries.push((k, v));
            i += 1;
        }
        let r = StrMap { entries };
        assert(r.entries@ =~= self.entries@);
        r
    }

    /// Mutable access to the value at position `i`.
    pub fn value_mut(&mut self, i: usize) -> (r: &mut V)
        requires
            i < old(self)@.len(),
        ensures
            *r == old(self)@[i as int].1,
            final(self)@ == old(self)@.update(i as int, (old(self)@[i as int].0, *final(r))),
    {
        &mut self.entries[i].1
    }

    /// The entries, in order, as owned pairs.
    pub fn into_entries(self) -> (r: Vec<(String, V)>)
        ensures
            r@.map_values(|e: (String, V)| (e.0@, e.1)) == self@,
    {
        self.entries
    }

    /// Replaces the value at position `i`, keeping its key.
    pub fn set_value_at(&mut self, i: usize, v: V)
        requires
            i < old(self)@.len(),
        ensures
            final(self)@ == old(self)@.update(i as int, (old(self)@[i as int].0, v)),
    {
        let k = self.entries[i].0.clone();
        self.entries.set(i, (k, v));
        assert(self@ =~= old(self)@.update(i as int, (old(self)@[i as int].0, v)));
    }
}

} // verus!
