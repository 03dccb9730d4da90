//! Nix source tokens: scalar values, lists and ordered attribute sets, each
//! rendered as Nix source text.
use vstd::prelude::*;
use crate::text::{decimal_int, decimal_string, owned, push_str, replace, replace_seq};

verus! {

/// A Nix scalar. A float is kept as its decimal text.
pub enum NixValue {
    Str(String),
    Int(i64),
    Float(String),
    Bool(bool),
}

/// A Nix list, in insertion order.
pub struct NixList {
    pub items: Vec<NixItem>,
}

/// A Nix attribute set: keys unique, in insertion order (a key set again
/// keeps its first position).
pub struct NixAttrSet {
    pub entries: Vec<(String, NixItem)>,
}

/// Any Nix token.
pub enum NixItem {
    Value(NixValue),
    List(NixList),
    AttrSet(NixAttrSet),
}

/// What `char::is_alphanumeric` gives for `c` (the Unicode `Alphabetic` or
/// `Numeric` property).
pub uninterp spec fn char_alphanumeric(c: char) -> bool;

/// `char::is_alphanumeric`. The result is named `char_alphanumeric`; of an
/// ASCII character it is claimed, as the documentation gives, to hold
/// exactly for letters and digits.
#[verifier::external_body]
fn is_alphanumeric(c: char) -> (r: bool)
    ensures
        r == char_alphanumeric(c),
        (c as u32) < 128 ==> (r <==> (('a' <= c && c <= 'z') || ('A' <= c && c <= 'Z') || ('0' <= c && c <= '9'))),
{
    c.is_alphanumeric()
}

/// `item` is the string `s`.
pub open spec fn is_str_item(item: NixItem, s: Seq<char>) -> bool {
    item matches NixItem::Value(NixValue::Str(t)) && t@ == s
}

/// A string literal body: backslashes doubled first, then quotes escaped.
pub open spec fn escape_nix(s: Seq<char>) -> Seq<char> {
    replace_seq(replace_seq(s, "\\"@, "\\\\"@), "\""@, "\\\""@)
}

pub open spec fn value_text(v: NixValue) -> Seq<char> {
    match v {
        NixValue::Str(s) => "\""@ + escape_nix(s@) + "\""@,
        NixValue::Int(n) => decimal_int(n as int),
        NixValue::Float(t) => t@,
        NixValue::Bool(b) => if b {
            "true"@
        } else {
            "false"@
        },
    }
}

/// A character allowed in a bare attribute name.
pub open spec fn bare_key_char(c: char) -> bool {
    char_alphanumeric(c) || c == '_' || c == '-'
}

/// A key with a character outside letters, digits, `_` and `-` (an IP
/// address, say) is quoted.
pub open spec fn needs_quoting_spec(k: Seq<char>) -> bool {
    exists|i: int| 0 <= i < k.len() && !bare_key_char(#[trigger] k[i])
}

pub open spec fn key_text(k: Seq<char>) -> Seq<char> {
    if needs_quoting_spec(k) {
        "\""@ + k + "\""@
    } else {
        k
    }
}

/// Nix source of a token: `"…"`, `42`, `true`, `[ a b ]`, `{ k = v; }`.
pub open spec fn item_text(item: NixItem) -> Seq<char>
    decreases item,
{
    match item {
        NixItem::Value(v) => value_text(v),
        NixItem::List(l) => "["@ + items_text(l.items@) + " ]"@,
        NixItem::AttrSet(a) => "{"@ + entries_text(a.entries@) + " }"@,
    }
}

/// Each item preceded by a space.
pub open spec fn items_text(s: Seq<NixItem>) -> Seq<char>
    decreases s,
{
    if s.len() == 0 {
        Seq::empty()
    } else {
        items_text(s.drop_last()) + " "@ + item_text(s.last())
    }
}

/// Each entry as ` key = value;`.
pub open spec fn entries_text(s: Seq<(String, NixItem)>) -> Seq<char>
    decreases s,
{
    if s.len() == 0 {
        Seq::empty()
    } else {
        entries_text(s.drop_last()) + " "@ + key_text(s.last().0@) + " = "@ + item_text(s.last().1) + ";"@
    }
}

/// `new` is `old` with the entry of key `k` in its slot (see `slot`); every
/// other entry is unchanged.
pub open spec fn set_result(old: Seq<(String, NixItem)>, new: Seq<(String, NixItem)>, k: Seq<char>) -> bool {
    let p = slot(old, k);
    &&& new.len() == (if p < old.len() { old.len() } else { old.len() + 1 })
    &&& new[p].0@ == k
    &&& forall|j: int| 0 <= j < old.len() && j != p ==> #[trigger] new[j] == old[j]
}

/// Where key `k` goes: its position when present, else the end.
pub open spec fn slot(s: Seq<(String, NixItem)>, k: Seq<char>) -> int {
    match entry_pos(s, k) {
        Some(p) => p,
        None => s.len() as int,
    }
}

/// Position of key `k` among `s`.
pub open spec fn entry_pos(s: Seq<(String, NixItem)>, k: Seq<char>) -> Option<int> {
    if exists|i: int| 0 <= i < s.len() && (#[trigger] s[i]).0@ == k {
        Some(choose|i: int| 0 <= i < s.len() && (#[trigger] s[i]).0@ == k)
    } else {
        None
    }
}

impl NixValue {
    pub fn string(s: &str) -> (v: Self)
        ensures
            v matches NixValue::Str(t) && t@ == s@,
    {
        NixValue::Str(owned(s))
    }

    pub fn integer(n: i64) -> (v: Self)
        ensures
            v == NixValue::Int(n),
    {
        NixValue::Int(n)
    }

    pub fn bool(b: bool) -> (v: Self)
        ensures
            v == NixValue::Bool(b),
    {
        NixValue::Bool(b)
    }

    /// Nix source of the value.
    pub fn to_string(&self) -> (r: String)
        ensures
            r@ == value_text(*self),
    {
        match self {
            NixValue::Str(s) => {
                proof {
                    reveal_strlit("\\");
                    reveal_strlit("\"");
                }
                let once = replace(s.as_str(), "\\", "\\\\");
                let twice = replace(once.as_str(), "\"", "\\\"");
                let mut r = owned("\"");
                push_str(&mut r, twice.as_str());
                push_str(&mut r, "\"");
                r
            },
            NixValue::Int(n) => decimal_string(*n),
            NixValue::Float(t) => t.clone(),
            NixValue::Bool(b) => if *b {
                owned("true")
            } else {
                owned("false")
            },
        }
    }
}

/// Appends the Nix source of `item`.
#[verifier::loop_isolation(false)]
fn push_item(out: &mut String, item: &NixItem)
    ensures
        final(out)@ == old(out)@ + item_text(*item),
    decreases item, 0nat,
{
    match item {
        NixItem::Value(v) => {
            let t = v.to_string();
            push_str(out, t.as_str());
        },
        NixItem::List(l) => {
            push_str(out, "[");
            let ghost start = out@;
            let mut i: usize = 0;
            while i < l.items.len()
                invariant
                    0 <= i <= l.items@.len(),
                    out@ == start + items_text(l.items@.take(i as int)),
                decreases l.items@.len() - i,
            {
                proof {
                    let t = l.items@.take(i + 1);
                    assert(t.drop_last() == l.items@.take(i as int));
                    assert(t.last() == l.items@[i as int]);
                }
                push_str(out, " ");
                proof {
                    assert(*l == item->List_0);
                    assert(decreases_to!(*item => item->List_0));
                    assert(decreases_to!(*l => l.items));
                    assert(decreases_to!(l.items => l.items@));
                    assert(decreases_to!(l.items@ => l.items@[i as int]));
                }
                push_item(out, &l.items[i]);
                i += 1;
            }
            assert(l.items@.take(l.items@.len() as int) == l.items@);
            push_str(out, " ]");
        },
        NixItem::AttrSet(a) => {
            push_str(out, "{");
            let ghost start = out@;
            let mut i: usize = 0;
            while i < a.entries.len()
                invariant
                    0 <= i <= a.entries@.len(),
                    out@ == start + entries_text(a.entries@.take(i as int)),
                decreases a.entries@.len() - i,
            {
                proof {
                    let t = a.entries@.take(i + 1);
                    assert(t.drop_last() == a.entries@.take(i as int));
                    assert(t.last() == a.entries@[i as int]);
                }
                proof {
                    assert(*a == item->AttrSet_0);
                    assert(decreases_to!(*item => item->AttrSet_0));
                    assert(decreases_to!(*a => a.entries));
                    assert(decreases_to!(a.entries => a.entries@));
                    assert(decreases_to!(a.entries@ => a.entries@[i as int]));
                    assert(decreases_to!(a.entries@[i as int] => a.entries@[i as int].1));
                }
                push_entry(out, &a.entries[i].0, &a.entries[i].1);
                i += 1;
            }
            assert(a.entries@.take(a.entries@.len() as int) == a.entries@);
            push_str(out, " }");
        },
    }
}

/// Appends ` key = value;`.
fn push_entry(out: &mut String, key: &String, value: &NixItem)
    ensures
        final(out)@ == old(out)@ + " "@ + key_text(key@) + " = "@ + item_text(*value) + ";"@,
    decreases value, 1nat,
{
    push_str(out, " ");
    if NixAttrSet::needs_quoting(key.as_str()) {
        push_str(out, "\"");
        push_str(out, key.as_str());
        push_str(out, "\"");
    } else {
        push_str(out, key.as_str());
    }
    push_str(out, " = ");
    push_item(out, value);
    push_str(out, ";");
}

impl NixItem {
    /// Nix source of the token.
    pub fn to_string(&self) -> (r: String)
        ensures
            r@ == item_text(*self),
    {
        let mut r = String::new();
        push_item(&mut r, self);
        r
    }
}

impl NixList {
    /// The empty list.
    pub fn new() -> (l: Self)
        ensures
            l.items@.len() == 0,
    {
        NixList { items: Vec::new() }
    }

    /// A list of the given strings, in order.
    pub fn from_strings(items: &[&str]) -> (l: Self)
        ensures
            l.items@.len() == items@.len(),
            forall|i: int| 0 <= i < items@.len() ==> is_str_item(#[trigger] l.items@[i], items@[i]@),
    {
        let mut l = NixList::new();
        let mut i: usize = 0;
        while i < items.len()
            invariant
                0 <= i <= items@.len(),
                l.items@.len() == i,
                forall|j: int| 0 <= j < i ==> is_str_item(#[trigger] l.items@[j], items@[j]@),
            decreases items@.len() - i,
        {
            let ghost before = l.items@;
            l.add_string(items[i]);
            proof {
                assert forall|j: int| 0 <= j < i + 1 implies is_str_item(#[trigger] l.items@[j], items@[j]@) by {
                    if j < i {
                        assert(l.items@[j] == l.items@.drop_last()[j]);
                    }
                }
            }
            i += 1;
        }
        l
    }

    /// Appends `item`.
    pub fn add(&mut self, item: NixItem)
        ensures
            final(self).items@ == old(self).items@.push(item),
    {
        self.items.push(item);
    }

    /// Appends the string `s`.
    pub fn add_string(&mut self, s: &str)
        ensures
            final(self).items@.len() == old(self).items@.len() + 1,
            final(self).items@.drop_last() == old(self).items@,
            is_str_item(final(self).items@.last(), s@),
    {
        self.items.push(NixItem::Value(NixValue::string(s)));
    }

    /// Nix source of the list: `[ a b ]`.
    pub fn to_string(&self) -> (r: String)
        ensures
            r@ == "["@ + items_text(self.items@) + " ]"@,
    {
        let mut r = String::new();
        push_str(&mut r, "[");
        let mut i: usize = 0;
        while i < self.items.len()
            invariant
                0 <= i <= self.items@.len(),
                r@ == "["@ + items_text(self.items@.take(i as int)),
            decreases self.items@.len() - i,
        {
            proof {
                let t = self.items@.take(i + 1);
                assert(t.drop_last() == self.items@.take(i as int));
                assert(t.last() == self.items@[i as int]);
            }
            push_str(&mut r, " ");
            push_item(&mut r, &self.items[i]);
            i += 1;
        }
        assert(self.items@.take(self.items@.len() as int) == self.items@);
        push_str(&mut r, " ]");
        r
    }
}

impl NixAttrSet {
    /// Keys are unique.
    pub open spec fn wf(&self) -> bool {
        forall|i: int, j: int| 0 <= i < j < self.entries@.len() ==> (#[trigger] self.entries@[i]).0@
            != (#[trigger] self.entries@[j]).0@
    }

    /// The empty attribute set.
    pub fn new() -> (s: Self)
        ensures
            s.entries@.len() == 0,
            s.wf(),
    {
        NixAttrSet { entries: Vec::new() }
    }

    /// Sets `key` to `value`: a new key goes last, a known one keeps its
    /// place and takes the new value.
    pub fn set(&mut self, key: &str, value: NixItem)
        requires
            old(self).wf(),
        ensures
            final(self).wf(),
            set_result(old(self).entries@, final(self).entries@, key@),
            final(self).entries@[slot(old(self).entries@, key@)].1 == value,
    {
        let mut i: usize = 0;
        while i < self.entries.len()
            invariant
                0 <= i <= self.entries@.len(),
                *self == *old(self),
                old(self).wf(),
                forall|j: int| 0 <= j < i ==> (#[trigger] self.entries@[j]).0@ != key@,
            decreases self.entries@.len() - i,
        {
            if crate::text::str_eq(self.entries[i].0.as_str(), key) {
                let ghost p = i as int;
                proof {
                    assert(exists|j: int| 0 <= j < self.entries@.len() && (#[trigger] self.entries@[j]).0@ == key@);
                    let c = choose|j: int| 0 <= j < self.entries@.len() && (#[trigger] self.entries@[j]).0@ == key@;
                    if c != p {
                        assert(self.entries@[c].0@ == self.entries@[p].0@);
                    }
                }
                let k = self.entries[i].0.clone();
                self.entries.set(i, (k, value));
                proof {
                    let o = old(self).entries@;
                    let n = self.entries@;
                    assert(slot(o, key@) == p);
                    assert forall|a: int, b: int| 0 <= a < b < n.len() implies (#[trigger] n[a]).0@ != (#[trigger] n[b]).0@ by {
                        assert(n[a].0 == o[a].0);
                        assert(n[b].0 == o[b].0);
                        assert(o[a].0@ != o[b].0@);
                    }
                }
                return;
            }
            i += 1;
        }
        self.entries.push((owned(key), value));
        proof {
            let o = old(self).entries@;
            let n = self.entries@;
            assert(entry_pos(o, key@) is None);
            assert forall|a: int, b: int| 0 <= a < b < n.len() implies (#[trigger] n[a]).0@ != (#[trigger] n[b]).0@ by {
                if b < o.len() {
                    assert(n[a] == o[a]);
                    assert(n[b] == o[b]);
                } else {
                    assert(n[a] == o[a]);
                }
            }
        }
    }

    /// Sets `key` to the string `value`.
    pub fn set_string(&mut self, key: &str, value: &str)
        requires
            old(self).wf(),
        ensures
            final(self).wf(),
            set_result(old(self).entries@, final(self).entries@, key@),
            is_str_item(final(self).entries@[slot(old(self).entries@, key@)].1, value@),
    {
        self.set(key, NixItem::Value(NixValue::string(value)));
    }

    /// Sets `key` to the integer `value`.
    pub fn set_int(&mut self, key: &str, value: i64)
        requires
            old(self).wf(),
        ensures
            final(self).wf(),
            set_result(old(self).entries@, final(self).entries@, key@),
            final(self).entries@[slot(old(self).entries@, key@)].1 == NixItem::Value(NixValue::Int(value)),
    {
        self.set(key, NixItem::Value(NixValue::integer(value)));
    }

    /// Sets `key` to the boolean `value`.
    pub fn set_bool(&mut self, key: &str, value: bool)
        requires
            old(self).wf(),
        ensures
            final(self).wf(),
            set_result(old(self).entries@, final(self).entries@, key@),
            final(self).entries@[slot(old(self).entries@, key@)].1 == NixItem::Value(NixValue::Bool(value)),
    {
        self.set(key, NixItem::Value(NixValue::bool(value)));
    }

    /// Nix source of the set: `{ k = v; }`.
    pub fn to_string(&self) -> (r: String)
        ensures
            r@ == "{"@ + entries_text(self.entries@) + " }"@,
    {
        let mut r = String::new();
        push_str(&mut r, "{");
        let mut i: usize = 0;
        while i < self.entries.len()
            invariant
                0 <= i <= self.entries@.len(),
                r@ == "{"@ + entries_text(self.entries@.take(i as int)),
            decreases self.entries@.len() - i,
        {
            proof {
                let t = self.entries@.take(i + 1);
                assert(t.drop_last() == self.entries@.take(i as int));
                assert(t.last() == self.entries@[i as int]);
            }
            push_entry(&mut r, &self.entries[i].0, &self.entries[i].1);
            i += 1;
        }
        assert(self.entries@.take(self.entries@.len() as int) == self.entries@);
        push_str(&mut r, " }");
        r
    }

    /// Whether `key` must be quoted in Nix source.
    fn needs_quoting(key: &str) -> (r: bool)
        ensures
            r == needs_quoting_spec(key@),
    {
        let v = crate::text::chars_of(key);
        let mut i: usize = 0;
        while i < v.len()
            invariant
                0 <= i <= v@.len(),
                v@ == key@,
                forall|j: int| 0 <= j < i ==> bare_key_char(#[trigger] key@[j]),
            decreases v@.len() - i,
        {
            let c = v[i];
            if !(is_alphanumeric(c) || c == '_' || c == '-') {
                assert(!bare_key_char(key@[i as int]));
                return true;
            }
            i += 1;
        }
        false
    }
}

/// Law: setting a key an attribute set already holds keeps the set's size
/// and order: the key stays where it was and every other entry is
/// unchanged.
pub proof fn law_set_keeps_order(old: Seq<(String, NixItem)>, new: Seq<(String, NixItem)>, k: Seq<char>)
    requires
        entry_pos(old, k) is Some,
        set_result(old, new, k),
    ensures
        new.len() == old.len(),
        new[entry_pos(old, k)->0].0@ == k,
        forall|j: int| 0 <= j < old.len() && j != entry_pos(old, k)->0 ==> #[trigger] new[j] == old[j],
{
    let p = entry_pos(old, k)->0;
    assert(0 <= p < old.len());
    assert(slot(old, k) == p);
}

} // verus!
