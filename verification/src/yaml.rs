//! YAML values as the configuration loader layers and converts them: the
//! generated configuration merged over the hand-written one, and any value
//! rendered as a Nix token.
use vstd::prelude::*;
use crate::text::{decimal_int, owned, str_eq};
use crate::token::{entries_text, item_text, items_text, key_text, value_text, NixAttrSet, NixItem, NixList, NixValue};

verus! {

/// A YAML number, as `serde_yaml` keeps it: a non-negative integer, a
/// negative one, or a float (by its `{}` text).
pub enum YamlNumber {
    PosInt(u64),
    NegInt(i64),
    Float(String),
}

/// A mapping key. Scalar keys are kept by value; a sequence, mapping or
/// tagged key by its YAML text.
pub enum YamlKey {
    Null,
    Bool(bool),
    Number(YamlNumber),
    Str(String),
    Other(String),
}

/// One `key: value` of a mapping; `key_text` is the key's debug rendering
/// (`Null`, `Number(1)`, …), used where a non-string key must become text.
pub struct YamlEntry {
    pub key: YamlKey,
    pub key_text: String,
    pub value: YamlValue,
}

/// A YAML value. A number also carries the `{}` text of its value as a
/// 64-bit float.
pub enum YamlValue {
    Null,
    Bool(bool),
    Number(YamlNumber, String),
    Str(String),
    Sequence(Vec<YamlValue>),
    Mapping(Vec<YamlEntry>),
    Tagged(String, Box<YamlValue>),
}

pub enum NumberV {
    PosInt(u64),
    NegInt(i64),
    Float(Seq<char>),
}

pub enum KeyV {
    Null,
    Bool(bool),
    Number(NumberV),
    Str(Seq<char>),
    Other(Seq<char>),
}

/// A mapping entry's view: key, key text, value.
pub type EntryV = (KeyV, Seq<char>, YamlV);

/// The mathematical value of a YAML value.
pub enum YamlV {
    Null,
    Bool(bool),
    Number(NumberV, Seq<char>),
    Str(Seq<char>),
    Sequence(Seq<YamlV>),
    Mapping(Seq<EntryV>),
    Tagged(Seq<char>, Box<YamlV>),
}

pub open spec fn number_view(n: YamlNumber) -> NumberV {
    match n {
        YamlNumber::PosInt(u) => NumberV::PosInt(u),
        YamlNumber::NegInt(i) => NumberV::NegInt(i),
        YamlNumber::Float(t) => NumberV::Float(t@),
    }
}

pub open spec fn key_view(k: YamlKey) -> KeyV {
    match k {
        YamlKey::Null => KeyV::Null,
        YamlKey::Bool(b) => KeyV::Bool(b),
        YamlKey::Number(n) => KeyV::Number(number_view(n)),
        YamlKey::Str(s) => KeyV::Str(s@),
        YamlKey::Other(t) => KeyV::Other(t@),
    }
}

pub open spec fn value_view(v: YamlValue) -> YamlV
    decreases v, 1nat,
{
    match v {
        YamlValue::Null => YamlV::Null,
        YamlValue::Bool(b) => YamlV::Bool(b),
        YamlValue::Number(n, f) => YamlV::Number(number_view(n), f@),
        YamlValue::Str(s) => YamlV::Str(s@),
        YamlValue::Sequence(xs) => {
            proof {
                assert(decreases_to!(v => xs));
                assert(decreases_to!(xs => xs@));
            }
            YamlV::Sequence(values_view(xs@))
        },
        YamlValue::Mapping(es) => {
            proof {
                assert(decreases_to!(v => es));
                assert(decreases_to!(es => es@));
            }
            YamlV::Mapping(entries_view(es@))
        },
        YamlValue::Tagged(t, b) => YamlV::Tagged(t@, Box::new(value_view(*b))),
    }
}

pub open spec fn values_view(xs: Seq<YamlValue>) -> Seq<YamlV>
    decreases xs, 0nat,
{
    if xs.len() == 0 {
        Seq::empty()
    } else {
        proof {
            assert(decreases_to!(xs => xs[xs.len() - 1]));
            assert(xs.drop_last() == xs.subrange(0, xs.len() - 1));
        }
        values_view(xs.drop_last()).push(value_view(xs.last()))
    }
}

pub open spec fn entry_view(e: YamlEntry) -> EntryV
    decreases e, 1nat,
{
    (key_view(e.key), e.key_text@, value_view(e.value))
}

pub open spec fn entries_view(es: Seq<YamlEntry>) -> Seq<EntryV>
    decreases es, 0nat,
{
    if es.len() == 0 {
        Seq::empty()
    } else {
        proof {
            assert(decreases_to!(es => es[es.len() - 1]));
            assert(es.drop_last() == es.subrange(0, es.len() - 1));
        }
        entries_view(es.drop_last()).push(entry_view(es.last()))
    }
}

pub proof fn lemma_entries_view(es: Seq<YamlEntry>)
    ensures
        entries_view(es).len() == es.len(),
        forall|i: int| 0 <= i < es.len() ==> #[trigger] entries_view(es)[i] == entry_view(es[i]),
    decreases es.len(),
{
    if es.len() > 0 {
        lemma_entries_view(es.drop_last());
    }
}

pub proof fn lemma_values_view(xs: Seq<YamlValue>)
    ensures
        values_view(xs).len() == xs.len(),
        forall|i: int| 0 <= i < xs.len() ==> #[trigger] values_view(xs)[i] == value_view(xs[i]),
    decreases xs.len(),
{
    if xs.len() > 0 {
        lemma_values_view(xs.drop_last());
    }
}

// ─── merging ────────────────────────────────────────────────────────────────

/// Position of the first entry of `b` with key `k`.
pub open spec fn key_index(b: Seq<EntryV>, k: KeyV) -> Option<int>
    decreases b.len(),
{
    if b.len() == 0 {
        None
    } else {
        match key_index(b.drop_last(), k) {
            Some(j) => Some(j),
            None => if b.last().0 == k {
                Some(b.len() - 1)
            } else {
                None
            },
        }
    }
}

/// `base` with `overlay` layered over it: two mappings merge key by key,
/// anything else is replaced by the overlay.
pub open spec fn merged(base: YamlV, overlay: YamlV) -> YamlV
    decreases overlay, 2nat,
{
    match overlay {
        YamlV::Mapping(o) => match base {
            YamlV::Mapping(b) => {
                proof {
                    assert(decreases_to!(overlay => o));
                }
                YamlV::Mapping(merge_all(b, o))
            },
            _ => overlay,
        },
        _ => overlay,
    }
}

/// The entries of `b` after the entries of `o`, in order: see `merge_one`.
pub open spec fn merge_all(b: Seq<EntryV>, o: Seq<EntryV>) -> Seq<EntryV>
    decreases o, 1nat,
{
    if o.len() == 0 {
        b
    } else {
        proof {
            assert(decreases_to!(o => o[o.len() - 1]));
            assert(o.drop_last() == o.subrange(0, o.len() - 1));
        }
        merge_one(merge_all(b, o.drop_last()), o.last())
    }
}

/// `b` after the overlay entry `e`: an entry of the same key is taken out
/// (the last entry moves into its place) and `e`'s key goes last with its
/// value merged over the old one; a new key goes last as it is.
pub open spec fn merge_one(b: Seq<EntryV>, e: EntryV) -> Seq<EntryV>
    decreases e, 0nat,
{
    match key_index(b, e.0) {
        Some(j) => {
            proof {
                assert(decreases_to!(e => e.2));
            }
            b.update(j, b.last()).drop_last().push((e.0, e.1, merged(b[j].2, e.2)))
        },
        None => b.push(e),
    }
}

pub proof fn lemma_key_index(b: Seq<EntryV>, k: KeyV)
    ensures
        key_index(b, k) matches Some(j) ==> 0 <= j < b.len() && b[j].0 == k && forall|i: int|
            0 <= i < j ==> (#[trigger] b[i]).0 != k,
        key_index(b, k) is None ==> forall|i: int| 0 <= i < b.len() ==> (#[trigger] b[i]).0 != k,
    decreases b.len(),
{
    if b.len() > 0 {
        lemma_key_index(b.drop_last(), k);
        assert forall|i: int| 0 <= i < b.len() - 1 implies #[trigger] b[i] == b.drop_last()[i] by {}
    }
}

fn number_eq(a: &YamlNumber, b: &YamlNumber) -> (r: bool)
    ensures
        r == (number_view(*a) == number_view(*b)),
{
    match (a, b) {
        (YamlNumber::PosInt(x), YamlNumber::PosInt(y)) => *x == *y,
        (YamlNumber::NegInt(x), YamlNumber::NegInt(y)) => *x == *y,
        (YamlNumber::Float(x), YamlNumber::Float(y)) => str_eq(x.as_str(), y.as_str()),
        _ => false,
    }
}

/// Two keys are the same key.
pub fn key_eq(a: &YamlKey, b: &YamlKey) -> (r: bool)
    ensures
        r == (key_view(*a) == key_view(*b)),
{
    match (a, b) {
        (YamlKey::Null, YamlKey::Null) => true,
        (YamlKey::Bool(x), YamlKey::Bool(y)) => *x == *y,
        (YamlKey::Number(x), YamlKey::Number(y)) => number_eq(x, y),
        (YamlKey::Str(x), YamlKey::Str(y)) => str_eq(x.as_str(), y.as_str()),
        (YamlKey::Other(x), YamlKey::Other(y)) => str_eq(x.as_str(), y.as_str()),
        _ => false,
    }
}

fn find_key(b: &Vec<YamlEntry>, k: &YamlKey) -> (r: Option<usize>)
    ensures
        match r {
            Some(j) => key_index(entries_view(b@), key_view(*k)) == Some(j as int),
            None => key_index(entries_view(b@), key_view(*k)) is None,
        },
{
    let ghost bv = entries_view(b@);
    proof {
        lemma_entries_view(b@);
        lemma_key_index(bv, key_view(*k));
    }
    let mut i: usize = 0;
    while i < b.len()
        invariant
            0 <= i <= b@.len(),
            bv == entries_view(b@),
            bv.len() == b@.len(),
            forall|j: int| 0 <= j < b@.len() ==> #[trigger] bv[j] == entry_view(b@[j]),
            forall|j: int| 0 <= j < i ==> (#[trigger] bv[j]).0 != key_view(*k),
            key_index(bv, key_view(*k)) matches Some(j) ==> 0 <= j < bv.len() && bv[j].0 == key_view(*k)
                && forall|m: int| 0 <= m < j ==> (#[trigger] bv[m]).0 != key_view(*k),
            key_index(bv, key_view(*k)) is None ==> forall|m: int| 0 <= m < bv.len() ==> (#[trigger] bv[m]).0 != key_view(*k),
        decreases b@.len() - i,
    {
        assert(bv[i as int] == entry_view(b@[i as int]));
        if key_eq(&b[i].key, k) {
            proof {
                match key_index(bv, key_view(*k)) {
                    Some(j) => {
                        if j < i {
                        } else if j > i {
                            assert(bv[i as int].0 == key_view(*k));
                        }
                    },
                    None => {
                        assert(bv[i as int].0 == key_view(*k));
                    },
                }
            }
            return Some(i);
        }
        i += 1;
    }
    proof {
        match key_index(bv, key_view(*k)) {
            Some(j) => {
                assert(bv[j].0 == key_view(*k));
            },
            None => {},
        }
    }
    None
}

/// Layers `overlay` over `base`: where both are mappings, each overlay key
/// replaces the base entry of the same key (merged in turn when both values
/// are mappings) and goes last; keys only in the base stay; any other
/// overlay replaces the base.
#[verifier::loop_isolation(false)]
pub fn deep_merge(base: YamlValue, overlay: YamlValue) -> (r: YamlValue)
    ensures
        value_view(r) == merged(value_view(base), value_view(overlay)),
    decreases overlay,
{
    let ghost ov = overlay;
    let ghost bvw = value_view(base);
    match overlay {
        YamlValue::Mapping(o) => {
            match base {
                YamlValue::Mapping(b) => {
                    let ghost oo = o@;
                    let ghost b0 = entries_view(b@);
                    proof {
                        lemma_entries_view(oo);
                        assert forall|j: int| 0 <= j < oo.len() implies decreases_to!(ov => #[trigger] oo[j].value) by {
                            assert(decreases_to!(ov => ov->Mapping_0));
                            assert(ov->Mapping_0 == o);
                            assert(decreases_to!(o => o@));
                            assert(decreases_to!(o@ => o@[j]));
                            assert(decreases_to!(o@[j] => o@[j].value));
                        }
                    }
                    let mut b = b;
                    let mut o = o;
                    let n = o.len();
                    // the overlay entries, last first
                    let mut rest: Vec<YamlEntry> = Vec::new();
                    while o.len() > 0
                        invariant
                            o@.len() + rest@.len() == oo.len(),
                            forall|j: int| 0 <= j < o@.len() ==> #[trigger] o@[j] == oo[j],
                            forall|j: int| 0 <= j < rest@.len() ==> #[trigger] rest@[j] == oo[oo.len() - 1 - j],
                        decreases o@.len(),
                    {
                        let e = o.pop().unwrap();
                        rest.push(e);
                    }
                    let mut i: usize = 0;
                    assert(oo.take(0) == Seq::<YamlEntry>::empty());
                    while rest.len() > 0
                        invariant
                            i + rest@.len() == oo.len(),
                            oo.len() == n,
                            forall|j: int| 0 <= j < rest@.len() ==> #[trigger] rest@[j] == oo[oo.len() - 1 - j],
                            forall|j: int| 0 <= j < oo.len() ==> decreases_to!(ov => #[trigger] oo[j].value),
                            entries_view(b@) == merge_all(b0, entries_view(oo.take(i as int))),
                        decreases rest@.len(),
                    {
                        let e = rest.pop().unwrap();
                        assert(e == oo[i as int]);
                        proof {
                            assert(oo.take(i + 1).drop_last() == oo.take(i as int));
                            assert(oo.take(i + 1).last() == e);
                            lemma_entries_view(oo.take(i + 1));
                        }
                        let ghost cur = entries_view(b@);
                        proof {
                            let t = entries_view(oo.take(i + 1));
                            assert(t.drop_last() == entries_view(oo.take(i as int)));
                            assert(t.last() == entry_view(e));
                            assert(merge_all(b0, t) == merge_one(cur, entry_view(e)));
                            lemma_entries_view(b@);
                            lemma_key_index(cur, key_view(e.key));
                        }
                        match find_key(&b, &e.key) {
                            Some(j) => {
                                let last = b.len() - 1;
                                let old = b.swap_remove(j);
                                assert(decreases_to!(ov => e.value));
                                let v = deep_merge(old.value, e.value);
                                let ne = YamlEntry { key: e.key, key_text: e.key_text, value: v };
                                let ghost sw = b@;
                                b.push(ne);
                                proof {
                                    assert(value_view(old.value) == cur[j as int].2);
                                    lemma_entries_view(b@);
                                    lemma_entries_view(sw);
                                    let want = cur.update(j as int, cur.last()).drop_last().push(
                                        (key_view(ne.key), ne.key_text@, value_view(ne.value)),
                                    );
                                    assert(entries_view(b@) =~= want);
                                }
                            },
                            None => {
                                b.push(e);
                                proof {
                                    lemma_entries_view(b@);
                                    assert(entries_view(b@) =~= cur.push(entry_view(e)));
                                }
                            },
                        }
                        i += 1;
                    }
                    assert(oo.take(oo.len() as int) == oo);
                    YamlValue::Mapping(b)
                },
                _ => YamlValue::Mapping(o),
            }
        },
        other => other,
    }
}

// ─── the merge law ──────────────────────────────────────────────────────────

/// No two entries of `b` share a key.
pub open spec fn keys_distinct(b: Seq<EntryV>) -> bool {
    forall|i: int, j: int| 0 <= i < b.len() && 0 <= j < b.len() && i != j ==> (#[trigger] b[i]).0 != (#[trigger] b[j]).0
}

/// The value under key `k`, if any.
pub open spec fn lookup_key(b: Seq<EntryV>, k: KeyV) -> Option<YamlV> {
    match key_index(b, k) {
        Some(j) => Some(b[j].2),
        None => None,
    }
}

proof fn lemma_lookup_at(b: Seq<EntryV>, p: int, k: KeyV)
    requires
        keys_distinct(b),
        0 <= p < b.len(),
        b[p].0 == k,
    ensures
        lookup_key(b, k) == Some(b[p].2),
{
    lemma_key_index(b, k);
    match key_index(b, k) {
        Some(j) => {
            if j != p {
                assert(b[j].0 == b[p].0);
            }
        },
        None => {
            assert(b[p].0 == k);
        },
    }
}

proof fn lemma_lookup_absent(b: Seq<EntryV>, k: KeyV)
    requires
        forall|i: int| 0 <= i < b.len() ==> (#[trigger] b[i]).0 != k,
    ensures
        lookup_key(b, k) is None,
{
    lemma_key_index(b, k);
    if key_index(b, k) is Some {
        let j = key_index(b, k)->0;
        assert(b[j].0 == k);
    }
}

/// Where `lookup_key(b, k)` is `Some`, the key is at some position of `b`.
proof fn lemma_lookup_some(b: Seq<EntryV>, k: KeyV)
    ensures
        lookup_key(b, k) is Some ==> exists|p: int| 0 <= p < b.len() && (#[trigger] b[p]).0 == k && lookup_key(b, k)
            == Some(b[p].2),
{
    lemma_key_index(b, k);
    if key_index(b, k) is Some {
        let j = key_index(b, k)->0;
        assert(b[j].0 == k);
    }
}

/// One overlay entry: keys stay distinct; its key now holds its value,
/// merged over the old one when there was one; every other key keeps its
/// value.
proof fn lemma_merge_one(b: Seq<EntryV>, e: EntryV)
    requires
        keys_distinct(b),
    ensures
        keys_distinct(merge_one(b, e)),
        lookup_key(merge_one(b, e), e.0) == Some(
            match lookup_key(b, e.0) {
                Some(v) => merged(v, e.2),
                None => e.2,
            },
        ),
        forall|k: KeyV| k != e.0 ==> lookup_key(#[trigger] merge_one(b, e), k) == lookup_key(b, k),
{
    lemma_key_index(b, e.0);
    let r = merge_one(b, e);
    match key_index(b, e.0) {
        Some(j) => {
            let n = b.len() - 1;
            let sw = b.update(j, b.last()).drop_last();
            let ne = (e.0, e.1, merged(b[j].2, e.2));
            assert(r == sw.push(ne));
            assert forall|p: int| 0 <= p < sw.len() implies #[trigger] sw[p] == (if p == j { b[n] } else { b[p] }) by {}
            assert forall|p: int, q: int| 0 <= p < r.len() && 0 <= q < r.len() && p != q implies (#[trigger] r[p]).0
                != (#[trigger] r[q]).0 by {
                if p == n {
                    if q == j {
                        assert(r[q] == b[n]);
                        assert(b[j].0 != b[n].0 || j == n);
                    } else {
                        assert(r[q] == b[q]);
                        assert(b[q].0 != b[j].0);
                    }
                } else if q == n {
                    if p == j {
                        assert(r[p] == b[n]);
                        assert(b[j].0 != b[n].0 || j == n);
                    } else {
                        assert(r[p] == b[p]);
                        assert(b[p].0 != b[j].0);
                    }
                } else {
                    let pp = if p == j { n } else { p };
                    let qq = if q == j { n } else { q };
                    assert(r[p] == b[pp]);
                    assert(r[q] == b[qq]);
                    assert(b[pp].0 != b[qq].0);
                }
            }
            lemma_lookup_at(r, n, e.0);
            lemma_lookup_at(b, j, e.0);
            assert forall|k: KeyV| k != e.0 implies lookup_key(#[trigger] merge_one(b, e), k) == lookup_key(b, k) by {
                lemma_lookup_some(b, k);
                lemma_lookup_some(r, k);
                if lookup_key(b, k) is Some {
                    let p = choose|p: int| 0 <= p < b.len() && (#[trigger] b[p]).0 == k && lookup_key(b, k) == Some(b[p].2);
                    assert(p != j);
                    if p == n {
                        assert(r[j] == b[n]);
                        lemma_lookup_at(r, j, k);
                    } else {
                        assert(r[p] == b[p]);
                        lemma_lookup_at(r, p, k);
                    }
                } else if lookup_key(r, k) is Some {
                    let q = choose|q: int| 0 <= q < r.len() && (#[trigger] r[q]).0 == k && lookup_key(r, k) == Some(r[q].2);
                    let qq = if q == j { n } else { q };
                    assert(q != n);
                    assert(r[q] == b[qq]);
                    lemma_lookup_at(b, qq, k);
                }
            }
        },
        None => {
            let n = b.len() as int;
            assert(r == b.push(e));
            assert forall|p: int, q: int| 0 <= p < r.len() && 0 <= q < r.len() && p != q implies (#[trigger] r[p]).0
                != (#[trigger] r[q]).0 by {
                if p == n {
                    assert(r[q] == b[q]);
                } else if q == n {
                    assert(r[p] == b[p]);
                } else {
                    assert(r[p] == b[p] && r[q] == b[q]);
                }
            }
            lemma_lookup_at(r, n, e.0);
            lemma_lookup_absent(b, e.0);
            assert forall|k: KeyV| k != e.0 implies lookup_key(#[trigger] merge_one(b, e), k) == lookup_key(b, k) by {
                assert(r.drop_last() == b);
                assert(key_index(r, k) == key_index(b, k));
                lemma_key_index(b, k);
                if key_index(b, k) is Some {
                    let j = key_index(b, k)->0;
                    assert(r[j] == b[j]);
                }
            }
        },
    }
}

/// Law: when two mappings merge (keys distinct in each), keys stay
/// distinct, and each key holds the overlay's value, merged over the
/// base's value when the base has the key too, or else the base's value.
pub proof fn law_overlay_wins(b: Seq<EntryV>, o: Seq<EntryV>, k: KeyV)
    requires
        keys_distinct(b),
        keys_distinct(o),
    ensures
        keys_distinct(merge_all(b, o)),
        lookup_key(merge_all(b, o), k) == match lookup_key(o, k) {
            Some(ov) => Some(
                match lookup_key(b, k) {
                    Some(bv) => merged(bv, ov),
                    None => ov,
                },
            ),
            None => lookup_key(b, k),
        },
    decreases o.len(),
{
    if o.len() > 0 {
        let od = o.drop_last();
        let e = o.last();
        assert(keys_distinct(od)) by {
            assert forall|p: int, q: int| 0 <= p < od.len() && 0 <= q < od.len() && p != q implies (#[trigger] od[p]).0
                != (#[trigger] od[q]).0 by {
                assert(od[p] == o[p] && od[q] == o[q]);
            }
        }
        law_overlay_wins(b, od, k);
        law_overlay_wins(b, od, e.0);
        lemma_merge_one(merge_all(b, od), e);
        lemma_lookup_at(o, o.len() - 1, e.0);
        if k == e.0 {
            assert forall|p: int| 0 <= p < od.len() implies (#[trigger] od[p]).0 != k by {
                assert(od[p] == o[p]);
                assert(o[p].0 != o[o.len() - 1].0);
            }
            lemma_lookup_absent(od, k);
        } else {
            assert(o == od.push(e));
            lemma_key_index(od, k);
            assert(lookup_key(o, k) == lookup_key(od, k));
        }
    }
}


/// The keys of the entries `b`.
pub open spec fn keys_of(b: Seq<EntryV>) -> Set<KeyV> {
    Set::new(|k: KeyV| exists|i: int| 0 <= i < b.len() && #[trigger] b[i].0 == k)
}

proof fn lemma_keys_lookup(b: Seq<EntryV>, k: KeyV)
    ensures
        keys_of(b).contains(k) <==> lookup_key(b, k) is Some,
{
    lemma_key_index(b, k);
    if let Some(j) = key_index(b, k) {
        assert(b[j].0 == k);
    }
}

/// Law: layering a mapping over a mapping (keys distinct in each) gives a
/// mapping with distinct keys, the keys of the base and of the overlay:
/// each holds the overlay's value, merged over the base's when the base has
/// the key too, else the base's value. Any other overlay, or a base that is no mapping, is
/// replaced by the overlay.
pub proof fn law_deep_merge(base: YamlV, overlay: YamlV, k: KeyV)
    requires
        base matches YamlV::Mapping(b) ==> keys_distinct(b),
        overlay matches YamlV::Mapping(o) ==> keys_distinct(o),
    ensures
        match (base, overlay) {
            (YamlV::Mapping(b), YamlV::Mapping(o)) => {
                &&& merged(base, overlay) == YamlV::Mapping(merge_all(b, o))
                &&& keys_distinct(merge_all(b, o))
                &&& keys_of(merge_all(b, o)) == keys_of(b).union(keys_of(o))
                &&& lookup_key(merge_all(b, o), k) == match lookup_key(o, k) {
                    Some(ov) => Some(
                        match lookup_key(b, k) {
                            Some(bv) => merged(bv, ov),
                            None => ov,
                        },
                    ),
                    None => lookup_key(b, k),
                }
            },
            _ => merged(base, overlay) == overlay,
        },
{
    if let (YamlV::Mapping(b), YamlV::Mapping(o)) = (base, overlay) {
        law_overlay_wins(b, o, k);
        let m = merge_all(b, o);
        assert forall|x: KeyV| #[trigger] keys_of(m).contains(x) <==> keys_of(b).union(keys_of(o)).contains(x) by {
            law_overlay_wins(b, o, x);
            lemma_keys_lookup(m, x);
            lemma_keys_lookup(b, x);
            lemma_keys_lookup(o, x);
        }
        assert(keys_of(m) =~= keys_of(b).union(keys_of(o)));
    }
}

// ─── conversion to Nix ──────────────────────────────────────────────────────

/// A key as an attribute name: a string key as it is, any other key by
/// its debug text.
pub open spec fn key_name(e: EntryV) -> Seq<char> {
    match e.0 {
        KeyV::Str(s) => s,
        _ => e.1,
    }
}

/// `p` with `(k, t)` set: in place when key `k` is there, else last.
pub open spec fn set_pair(p: Seq<(Seq<char>, Seq<char>)>, k: Seq<char>, t: Seq<char>) -> Seq<(Seq<char>, Seq<char>)> {
    if exists|i: int| 0 <= i < p.len() && (#[trigger] p[i]).0 == k {
        p.update(choose|i: int| 0 <= i < p.len() && (#[trigger] p[i]).0 == k, (k, t))
    } else {
        p.push((k, t))
    }
}

/// The attribute names and Nix texts a mapping's entries give, in order.
pub open spec fn nix_pairs(es: Seq<EntryV>) -> Seq<(Seq<char>, Seq<char>)>
    decreases es, 0nat,
{
    if es.len() == 0 {
        Seq::empty()
    } else {
        proof {
            assert(decreases_to!(es => es[es.len() - 1]));
            assert(decreases_to!(es[es.len() - 1] => es[es.len() - 1].2));
            assert(es.drop_last() == es.subrange(0, es.len() - 1));
        }
        set_pair(nix_pairs(es.drop_last()), key_name(es.last()), nix_text(es.last().2))
    }
}

/// Each pair as ` name = text;`.
pub open spec fn pairs_text(p: Seq<(Seq<char>, Seq<char>)>) -> Seq<char>
    decreases p.len(),
{
    if p.len() == 0 {
        Seq::empty()
    } else {
        pairs_text(p.drop_last()) + " "@ + key_text(p.last().0) + " = "@ + p.last().1 + ";"@
    }
}

/// Each element's text preceded by a space.
pub open spec fn list_text(xs: Seq<YamlV>) -> Seq<char>
    decreases xs, 0nat,
{
    if xs.len() == 0 {
        Seq::empty()
    } else {
        proof {
            assert(decreases_to!(xs => xs[xs.len() - 1]));
            assert(xs.drop_last() == xs.subrange(0, xs.len() - 1));
        }
        list_text(xs.drop_last()) + " "@ + nix_text(xs.last())
    }
}

/// Nix source of a YAML value: a mapping becomes an attribute set, a
/// sequence a list, a number an integer when it fits in 64 signed bits
/// (else its float text), null the empty attribute set, and a tagged value
/// its inner value.
pub open spec fn nix_text(v: YamlV) -> Seq<char>
    decreases v, 1nat,
{
    match v {
        YamlV::Mapping(es) => {
            proof {
                assert(decreases_to!(v => es));
            }
            "{"@ + pairs_text(nix_pairs(es)) + " }"@
        },
        YamlV::Sequence(xs) => {
            proof {
                assert(decreases_to!(v => xs));
            }
            "["@ + list_text(xs) + " ]"@
        },
        YamlV::Str(s) => "\""@ + crate::token::escape_nix(s) + "\""@,
        YamlV::Bool(b) => if b {
            "true"@
        } else {
            "false"@
        },
        YamlV::Number(n, f) => match n {
            NumberV::PosInt(u) => if u <= i64::MAX {
                decimal_int(u as int)
            } else {
                f
            },
            NumberV::NegInt(i) => decimal_int(i as int),
            NumberV::Float(_) => f,
        },
        YamlV::Null => "{ }"@,
        YamlV::Tagged(_, b) => nix_text(*b),
    }
}

/// The names and texts of a set's entries.
pub open spec fn attr_pairs(s: Seq<(String, NixItem)>) -> Seq<(Seq<char>, Seq<char>)> {
    s.map_values(|e: (String, NixItem)| (e.0@, item_text(e.1)))
}

pub proof fn lemma_entries_text(s: Seq<(String, NixItem)>)
    ensures
        entries_text(s) == pairs_text(attr_pairs(s)),
    decreases s.len(),
{
    if s.len() > 0 {
        lemma_entries_text(s.drop_last());
        assert(attr_pairs(s).drop_last() == attr_pairs(s.drop_last()));
    }
}

/// Converts a YAML value into a Nix token (see `nix_text`).
#[verifier::loop_isolation(false)]
pub fn array_to_nix(value: &YamlValue) -> (r: NixItem)
    ensures
        item_text(r) == nix_text(value_view(*value)),
    decreases value,
{
    proof {
        reveal_strlit("{ }");
        reveal_strlit("{");
        reveal_strlit(" }");
        reveal_strlit("true");
        reveal_strlit("false");
    }
    match value {
        YamlValue::Mapping(es) => {
            let mut set = NixAttrSet::new();
            let ghost ev = entries_view(es@);
            proof {
                lemma_entries_view(es@);
            }
            let mut i: usize = 0;
            assert(attr_pairs(set.entries@) == nix_pairs(ev.take(0)));
            while i < es.len()
                invariant
                    0 <= i <= es@.len(),
                    ev == entries_view(es@),
                    ev.len() == es@.len(),
                    forall|j: int| 0 <= j < es@.len() ==> #[trigger] ev[j] == entry_view(es@[j]),
                    set.wf(),
                    attr_pairs(set.entries@) == nix_pairs(ev.take(i as int)),
                decreases es@.len() - i,
            {
                let e = &es[i];
                let key = match &e.key {
                    YamlKey::Str(s) => s.clone(),
                    _ => e.key_text.clone(),
                };
                proof {
                    assert(ev[i as int] == entry_view(*e));
                    assert(key@ == key_name(ev[i as int]));
                    assert(*es == value->Mapping_0);
                    assert(decreases_to!(*value => value->Mapping_0));
                    assert(decreases_to!(es => es@));
                    assert(decreases_to!(es@ => es@[i as int]));
                    assert(decreases_to!(es@[i as int] => es@[i as int].value));
                }
                let item = array_to_nix(&e.value);
                let ghost before = set.entries@;
                set.set(key.as_str(), item);
                proof {
                    assert(ev.take(i + 1).drop_last() == ev.take(i as int));
                    assert(ev.take(i + 1).last() == ev[i as int]);
                    let p = attr_pairs(before);
                    let n = attr_pairs(set.entries@);
                    let want = set_pair(p, key@, item_text(item));
                    let s = crate::token::slot(before, key@);
                    if exists|m: int| 0 <= m < p.len() && (#[trigger] p[m]).0 == key@ {
                        let c = choose|m: int| 0 <= m < p.len() && (#[trigger] p[m]).0 == key@;
                        assert(before[c].0@ == key@);
                        assert(crate::token::entry_pos(before, key@) is Some);
                        let q = choose|m: int| 0 <= m < before.len() && (#[trigger] before[m]).0@ == key@;
                        assert(s == q);
                        if c != q {
                            assert(before[c].0@ == before[q].0@);
                        }
                    } else {
                        assert(crate::token::entry_pos(before, key@) is None) by {
                            if exists|m: int| 0 <= m < before.len() && (#[trigger] before[m]).0@ == key@ {
                                let q = choose|m: int| 0 <= m < before.len() && (#[trigger] before[m]).0@ == key@;
                                assert(p[q].0 == key@);
                            }
                        }
                    }
                    assert(n =~= want);
                }
                i += 1;
            }
            assert(ev.take(es@.len() as int) == ev);
            proof {
                lemma_entries_text(set.entries@);
            }
            NixItem::AttrSet(set)
        },
        YamlValue::Sequence(xs) => {
            let mut list = NixList::new();
            let ghost xv = values_view(xs@);
            proof {
                lemma_values_view(xs@);
            }
            let mut i: usize = 0;
            while i < xs.len()
                invariant
                    0 <= i <= xs@.len(),
                    xv == values_view(xs@),
                    xv.len() == xs@.len(),
                    forall|j: int| 0 <= j < xs@.len() ==> #[trigger] xv[j] == value_view(xs@[j]),
                    items_text(list.items@) == list_text(xv.take(i as int)),
                decreases xs@.len() - i,
            {
                proof {
                    assert(*xs == value->Sequence_0);
                    assert(decreases_to!(*value => value->Sequence_0));
                    assert(decreases_to!(xs => xs@));
                    assert(decreases_to!(xs@ => xs@[i as int]));
                }
                let item = array_to_nix(&xs[i]);
                let ghost before = list.items@;
                list.add(item);
                proof {
                    assert(xv.take(i + 1).drop_last() == xv.take(i as int));
                    assert(xv.take(i + 1).last() == xv[i as int]);
                    assert(list.items@.drop_last() == before);
                }
                i += 1;
            }
            assert(xv.take(xs@.len() as int) == xv);
            NixItem::List(list)
        },
        YamlValue::Str(s) => NixItem::Value(NixValue::string(s.as_str())),
        YamlValue::Bool(b) => NixItem::Value(NixValue::bool(*b)),
        YamlValue::Number(n, f) => match n {
            YamlNumber::PosInt(u) => {
                if *u <= 9223372036854775807u64 {
                    NixItem::Value(NixValue::integer(*u as i64))
                } else {
                    NixItem::Value(NixValue::Float(f.clone()))
                }
            },
            YamlNumber::NegInt(i) => NixItem::Value(NixValue::integer(*i)),
            YamlNumber::Float(_) => NixItem::Value(NixValue::Float(f.clone())),
        },
        YamlValue::Null => NixItem::AttrSet(NixAttrSet::new()),
        YamlValue::Tagged(_, b) => array_to_nix(b),
    }
}

} // verus!
