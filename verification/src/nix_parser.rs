//! Documentation extracted from Nix module sources, walked on the module's
//! syntax tree: the first comment block, the module path and the declared
//! options (with the options of submodules right after their parent).
use vstd::prelude::*;
use crate::text::{
    chars_of, has_prefix, is_whitespace, join_with, lines, lines_of, owned, push_char, push_str, skip_leading,
    starts_with, trim, trim_start, trim_start_char, trim_start_str, trim_str, views_of,
};
use crate::mdx_parser::{count_char, count_of, join};
use crate::nix_syntax::{nix_tree, parse_nix};

verus! {

/// A node of a Nix syntax tree: its source text and what it is.
pub struct NixNode {
    pub text: String,
    pub expr: NixExpr,
}

/// The expressions the documentation reads; every other one is `Other`.
pub enum NixExpr {
    /// `args: body`
    Lambda(Option<Box<NixNode>>),
    /// `let … in body`
    LetIn(Option<Box<NixNode>>),
    /// `with …; body`
    With(Option<Box<NixNode>>),
    /// `assert …; body`
    Assert(Option<Box<NixNode>>),
    /// `( inner )`
    Paren(Option<Box<NixNode>>),
    /// `{ path = value; … }`
    AttrSet(Vec<NixBinding>),
    /// `function argument`
    Apply(Option<Box<NixNode>>, Option<Box<NixNode>>),
    /// an identifier
    Ident(Option<String>),
    /// `expr.path`
    Select(Option<Vec<NixAttr>>),
    /// a string, by its normalized parts
    Str(Vec<NixStrPart>),
    /// `[ item … ]`
    List(Vec<NixNode>),
    Other,
}

/// `path = value;` inside an attribute set.
pub struct NixBinding {
    pub path: Option<Vec<NixAttr>>,
    pub value: Option<NixNode>,
}

/// One attribute of a path.
pub enum NixAttr {
    Ident(Option<String>),
    Str(Vec<NixStrPart>),
    /// `${…}`, by its source text
    Dynamic(String),
}

/// A part of a string: literal text or an interpolation.
pub enum NixStrPart {
    Literal(String),
    Interpolation(Option<NixNode>),
}

/// One declared option within a module.
pub struct NixOption {
    /// Dotted name relative to the enclosing options block
    /// (`service`, `service.persist.dirs`, `domain`).
    pub name: String,
    /// 1 for a top-level option, 2 inside a submodule, 3 in a nested one…
    pub level: usize,
    /// Simplified type label (`bool`, `str`, `submodule`, `attrs`, `lines`, …).
    pub type_label: String,
    /// Source text of `default = …`, if present.
    pub default: Option<String>,
    /// Source text of `example = …`, if present.
    pub example: Option<String>,
    /// Plain (unquoted) description.
    pub description: Option<String>,
}

// ─── strings and attribute paths ────────────────────────────────────────────

/// A string's text: literal parts as they are, interpolations as
/// `${<source>}`.
pub open spec fn parts_text(parts: Seq<NixStrPart>) -> Seq<char>
    decreases parts.len(),
{
    if parts.len() == 0 {
        Seq::empty()
    } else {
        parts_text(parts.drop_last()) + match parts.last() {
            NixStrPart::Literal(l) => l@,
            NixStrPart::Interpolation(e) => "${"@ + (match e {
                Some(n) => n.text@,
                None => Seq::empty(),
            }) + "}"@,
        }
    }
}

pub fn str_parts_text(parts: &Vec<NixStrPart>) -> (r: String)
    ensures
        r@ == parts_text(parts@),
{
    let mut out = String::new();
    let mut i: usize = 0;
    while i < parts.len()
        invariant
            0 <= i <= parts@.len(),
            out@ == parts_text(parts@.take(i as int)),
        decreases parts@.len() - i,
    {
        assert(parts@.take(i + 1).drop_last() == parts@.take(i as int));
        assert(parts@.take(i + 1).last() == parts@[i as int]);
        match &parts[i] {
            NixStrPart::Literal(l) => push_str(&mut out, l.as_str()),
            NixStrPart::Interpolation(e) => {
                push_str(&mut out, "${");
                if let Some(n) = e {
                    push_str(&mut out, n.text.as_str());
                }
                push_str(&mut out, "}");
            },
        }
        i += 1;
    }
    assert(parts@.take(parts@.len() as int) == parts@);
    out
}

/// Text of an attribute: an identifier's name (empty when missing), a
/// string's text, a dynamic attribute's source.
pub open spec fn attr_string(a: NixAttr) -> Seq<char> {
    match a {
        NixAttr::Ident(Some(t)) => t@,
        NixAttr::Ident(None) => Seq::empty(),
        NixAttr::Str(parts) => parts_text(parts@),
        NixAttr::Dynamic(t) => t@,
    }
}

pub fn attr_to_string(a: &NixAttr) -> (r: String)
    ensures
        r@ == attr_string(*a),
{
    match a {
        NixAttr::Ident(Some(t)) => t.clone(),
        NixAttr::Ident(None) => String::new(),
        NixAttr::Str(parts) => str_parts_text(parts),
        NixAttr::Dynamic(t) => t.clone(),
    }
}

/// The texts of the attributes of a path.
pub open spec fn attr_strings(path: Seq<NixAttr>) -> Seq<Seq<char>> {
    path.map_values(|a: NixAttr| attr_string(a))
}

/// A path's attributes joined with dots.
pub open spec fn dotted(path: Seq<NixAttr>) -> Seq<char> {
    join_with(attr_strings(path), "."@)
}

fn attr_texts(path: &Vec<NixAttr>) -> (r: Vec<String>)
    ensures
        views_of(r@) == attr_strings(path@),
{
    let mut r: Vec<String> = Vec::new();
    let mut i: usize = 0;
    while i < path.len()
        invariant
            0 <= i <= path@.len(),
            views_of(r@) == attr_strings(path@).take(i as int),
        decreases path@.len() - i,
    {
        let ghost before = views_of(r@);
        r.push(attr_to_string(&path[i]));
        assert(views_of(r@) == before.push(attr_string(path@[i as int])));
        i += 1;
    }
    assert(attr_strings(path@).take(path@.len() as int) == attr_strings(path@));
    r
}

pub fn attrpath_to_dotted(path: &Vec<NixAttr>) -> (r: String)
    ensures
        r@ == dotted(path@),
{
    let texts = attr_texts(path);
    crate::mdx_parser::join(&texts, ".")
}

/// The value of a plain string (through parentheses).
pub open spec fn string_value(n: NixNode) -> Option<Seq<char>>
    decreases n,
{
    match n.expr {
        NixExpr::Str(parts) => Some(parts_text(parts@)),
        NixExpr::Paren(Some(b)) => string_value(*b),
        _ => None,
    }
}

pub fn expr_string_value(n: &NixNode) -> (r: Option<String>)
    ensures
        crate::text::opt_view(r) == string_value(*n),
    decreases n,
{
    match &n.expr {
        NixExpr::Str(parts) => Some(str_parts_text(parts)),
        NixExpr::Paren(Some(b)) => expr_string_value(b),
        _ => None,
    }
}

/// Name of the function called: `mkOption`, `lib.mkOption` and
/// `pkgs.lib.mkOption` all give `mkOption`.
pub open spec fn trailing_ident(n: NixNode) -> Option<Seq<char>>
    decreases n,
{
    match n.expr {
        NixExpr::Ident(Some(t)) => Some(t@),
        NixExpr::Select(Some(p)) => if p@.len() > 0 {
            Some(attr_string(p@.last()))
        } else {
            None
        },
        NixExpr::Paren(Some(b)) => trailing_ident(*b),
        _ => None,
    }
}

pub fn trailing_ident_name(n: &NixNode) -> (r: Option<String>)
    ensures
        crate::text::opt_view(r) == trailing_ident(*n),
    decreases n,
{
    match &n.expr {
        NixExpr::Ident(Some(t)) => Some(t.clone()),
        NixExpr::Select(Some(p)) => if p.len() > 0 {
            Some(attr_to_string(&p[p.len() - 1]))
        } else {
            None
        },
        NixExpr::Paren(Some(b)) => trailing_ident_name(b),
        _ => None,
    }
}

// ─── type labels ────────────────────────────────────────────────────────────

/// `s` with every `lib.types.` and `types.` removed, scanning left to
/// right.
pub open spec fn strip_types(s: Seq<char>) -> Seq<char>
    decreases s.len(),
{
    if s.len() == 0 {
        Seq::empty()
    } else if s.len() >= 10 && has_prefix(s, "lib.types."@) {
        strip_types(s.skip(10))
    } else if s.len() >= 6 && has_prefix(s, "types."@) {
        strip_types(s.skip(6))
    } else {
        seq![s[0]] + strip_types(s.drop_first())
    }
}

/// Words of `s` joined with single spaces (`split_whitespace` then
/// `join(" ")`), with whether a space is owed before the next word.
pub open spec fn collapse_state(s: Seq<char>) -> (Seq<char>, bool)
    decreases s.len(),
{
    if s.len() == 0 {
        (Seq::empty(), false)
    } else {
        let (out, pending) = collapse_state(s.drop_last());
        let c = s.last();
        if is_whitespace(c) {
            (out, out.len() > 0)
        } else {
            (out + (if pending {
                " "@
            } else {
                Seq::empty()
            }) + seq![c], false)
        }
    }
}

pub open spec fn collapsed(s: Seq<char>) -> Seq<char> {
    collapse_state(s).0
}

/// The characters of `s` other than white space, in order.
pub open spec fn visible_chars(s: Seq<char>) -> Seq<char>
    decreases s.len(),
{
    if s.len() == 0 {
        Seq::empty()
    } else {
        visible_chars(s.drop_last()) + if is_whitespace(s.last()) {
            Seq::<char>::empty()
        } else {
            seq![s.last()]
        }
    }
}

/// `s` is single-spaced: it neither starts nor ends with white space, and
/// its only white space are single spaces between two other characters.
pub open spec fn single_spaced(s: Seq<char>) -> bool {
    &&& s.len() > 0 ==> !is_whitespace(s[0]) && !is_whitespace(s[s.len() - 1])
    &&& forall|i: int| 0 <= i < s.len() && is_whitespace(#[trigger] s[i]) ==> s[i] == ' ' && 0 < i < s.len() - 1
        && !is_whitespace(s[i - 1]) && !is_whitespace(s[i + 1])
}

proof fn lemma_visible_concat(a: Seq<char>, b: Seq<char>)
    ensures
        visible_chars(a + b) == visible_chars(a) + visible_chars(b),
    decreases b.len(),
{
    if b.len() > 0 {
        lemma_visible_concat(a, b.drop_last());
        assert((a + b).drop_last() =~= a + b.drop_last());
        assert((a + b).last() == b.last());
    } else {
        assert(a + b =~= a);
    }
}

proof fn lemma_collapse_state(s: Seq<char>)
    ensures
        single_spaced(collapse_state(s).0),
        visible_chars(collapse_state(s).0) == visible_chars(s),
        collapse_state(s).1 ==> collapse_state(s).0.len() > 0,
    decreases s.len(),
{
    if s.len() > 0 {
        let d = s.drop_last();
        lemma_collapse_state(d);
        let (o, p) = collapse_state(d);
        let c = s.last();
        if !is_whitespace(c) {
            reveal_strlit(" ");
            let sp = if p {
                " "@
            } else {
                Seq::<char>::empty()
            };
            let n = o + sp + seq![c];
            assert(collapse_state(s).0 == n);
            lemma_visible_concat(o + sp, seq![c]);
            lemma_visible_concat(o, sp);
            assert(visible_chars(seq![c]) == seq![c]) by {
                assert(seq![c].drop_last() =~= Seq::<char>::empty());
                assert(seq![c].last() == c);
                assert(visible_chars(Seq::<char>::empty()) == Seq::<char>::empty());
                assert(Seq::<char>::empty() + seq![c] =~= seq![c]);
            }
            if p {
                assert(visible_chars(sp) =~= Seq::<char>::empty()) by {
                    assert(sp =~= seq![' ']);
                    assert(sp.drop_last() =~= Seq::<char>::empty());
                    assert(is_whitespace(sp.last()));
                    assert(visible_chars(Seq::<char>::empty()) == Seq::<char>::empty());
                }
            } else {
                assert(visible_chars(sp) =~= Seq::<char>::empty());
            }
            assert(visible_chars(n) =~= visible_chars(o) + seq![c]);
            assert forall|i: int| 0 <= i < n.len() && is_whitespace(#[trigger] n[i]) implies n[i] == ' ' && 0 < i < n.len() - 1
                && !is_whitespace(n[i - 1]) && !is_whitespace(n[i + 1]) by {
                if i < o.len() {
                    assert(n[i] == o[i]);
                    assert(n[i - 1] == o[i - 1]);
                    assert(n[i + 1] == o[i + 1]);
                } else if i == o.len() && p {
                    assert(n[i + 1] == c);
                    assert(n[i - 1] == o[o.len() - 1]);
                } else {
                    assert(n[i] == c);
                }
            }
            if o.len() > 0 {
                assert(n[0] == o[0]);
            }
        }
    }
}

/// Law: collapsing white space keeps every other character, in order, and
/// leaves the words single-spaced.
pub proof fn law_collapsed(s: Seq<char>)
    ensures
        single_spaced(collapsed(s)),
        visible_chars(collapsed(s)) == visible_chars(s),
{
    lemma_collapse_state(s);
}

/// Words of `s` joined with single spaces.
pub fn collapse_whitespace(s: &str) -> (r: String)
    ensures
        r@ == collapsed(s@),
{
    proof {
        reveal_strlit(" ");
    }
    let v = chars_of(s);
    let mut out = String::new();
    let mut pending = false;
    let mut i: usize = 0;
    while i < v.len()
        invariant
            0 <= i <= v@.len(),
            v@ == s@,
            (out@, pending) == collapse_state(v@.take(i as int)),
        decreases v@.len() - i,
    {
        let c = v[i];
        assert(v@.take(i + 1).drop_last() == v@.take(i as int));
        if crate::text::is_space(c) {
            pending = chars_of(out.as_str()).len() > 0;
        } else {
            if pending {
                push_str(&mut out, " ");
            }
            push_char(&mut out, c);
            pending = false;
        }
        i += 1;
    }
    assert(v@.take(v@.len() as int) == v@);
    out
}

/// Type text without `lib.types.` / `types.` prefixes, white space
/// collapsed (`listOf str`).
pub open spec fn types_prefix_stripped(raw: Seq<char>) -> Seq<char> {
    collapsed(strip_types(raw))
}

pub fn simplify_types_prefix(raw: &str) -> (r: String)
    ensures
        r@ == types_prefix_stripped(raw@),
{
    proof {
        reveal_strlit("lib.types.");
        reveal_strlit("types.");
    }
    let v = chars_of(raw);
    let n = v.len();
    let lt: Vec<char> = chars_of("lib.types.");
    let ty: Vec<char> = chars_of("types.");
    let mut s = String::new();
    let mut i: usize = 0;
    assert(v@.skip(0) == v@);
    while i < n
        invariant
            0 <= i <= n,
            n == v@.len(),
            v@ == raw@,
            lt@ == "lib.types."@,
            ty@ == "types."@,
            lt@.len() == 10,
            ty@.len() == 6,
            s@ + strip_types(v@.skip(i as int)) == strip_types(v@),
        decreases n - i,
    {
        let ghost rest = v@.skip(i as int);
        if crate::text::matches_at(v.as_slice(), lt.as_slice(), i) {
            assert(rest.skip(10) == v@.skip(i + 10));
            i += 10;
        } else if crate::text::matches_at(v.as_slice(), ty.as_slice(), i) {
            assert(rest.skip(6) == v@.skip(i + 6));
            i += 6;
        } else {
            assert(rest.drop_first() == v@.skip(i + 1));
            assert(rest[0] == v@[i as int]);
            push_char(&mut s, v[i]);
            assert(s@ + strip_types(v@.skip(i + 1)) =~= (s@.drop_last() + seq![v@[i as int]]) + strip_types(v@.skip(i + 1)));
            i += 1;
        }
    }
    assert(v@.skip(n as int) =~= Seq::<char>::empty());
    collapse_whitespace(s.as_str())
}

/// The short label of a type: `submodule`, `attrs`, `lines`, `listOf X`,
/// else the trimmed type itself; empty without a type.
pub open spec fn type_label(raw: Option<Seq<char>>) -> Seq<char> {
    match raw {
        Some(r) if trim(r).len() > 0 => {
            let t = trim(r);
            if has_prefix(t, "submodule"@) {
                "submodule"@
            } else if has_prefix(t, "attrs"@) {
                "attrs"@
            } else if has_prefix(t, "lines"@) {
                "lines"@
            } else if has_prefix(t, "listOf"@) {
                collapsed(t)
            } else {
                t
            }
        },
        _ => Seq::empty(),
    }
}

/// Law: a type whose trimmed text starts with `submodule`, `attrs` or
/// `lines` is labelled by that keyword; one that starts with anything else
/// but `listOf` keeps its trimmed text; no type gives no label.
pub proof fn law_type_label_keyword(raw: Seq<char>)
    ensures
        has_prefix(trim(raw), "submodule"@) ==> type_label(Some(raw)) == "submodule"@,
        has_prefix(trim(raw), "attrs"@) ==> type_label(Some(raw)) == "attrs"@,
        has_prefix(trim(raw), "lines"@) ==> type_label(Some(raw)) == "lines"@,
        !has_prefix(trim(raw), "submodule"@) && !has_prefix(trim(raw), "attrs"@) && !has_prefix(trim(raw), "lines"@)
            && !has_prefix(trim(raw), "listOf"@) ==> type_label(Some(raw)) == trim(raw),
        type_label(None) == Seq::<char>::empty(),
        has_prefix(trim(raw), "listOf"@) ==> single_spaced(type_label(Some(raw))) && visible_chars(type_label(Some(raw)))
            == visible_chars(trim(raw)),
{
    law_collapsed(trim(raw));
    reveal_strlit("submodule");
    reveal_strlit("attrs");
    reveal_strlit("lines");
    let t = trim(raw);
    if t.len() > 0 {
        if has_prefix(t, "submodule"@) {
            assert(t.take(9)[0] == t[0]);
        }
        if has_prefix(t, "attrs"@) {
            assert(t.take(5)[0] == t[0]);
        }
        if has_prefix(t, "lines"@) {
            assert(t.take(5)[0] == t[0]);
        }
        if has_prefix(t, "listOf"@) {
            reveal_strlit("listOf");
            assert(t.take(6)[0] == t[0]);
            assert(t.take(6)[2] == t[2]);
            if has_prefix(t, "lines"@) {
                assert(t.take(5)[2] == t[2]);
            }
        }
    }
}

pub fn simplify_type(raw: Option<&str>) -> (r: String)
    ensures
        r@ == type_label(crate::configuration::opt_str_view(raw)),
{
    let t = match raw {
        Some(r) => trim_str(r),
        None => return String::new(),
    };
    if chars_of(t.as_str()).len() == 0 {
        return String::new();
    }
    if starts_with(t.as_str(), "submodule") {
        owned("submodule")
    } else if starts_with(t.as_str(), "attrs") {
        owned("attrs")
    } else if starts_with(t.as_str(), "lines") {
        owned("lines")
    } else if starts_with(t.as_str(), "listOf") {
        collapse_whitespace(t.as_str())
    } else {
        t
    }
}

// ─── the module's options block ─────────────────────────────────────────────

/// The module's returned expression, without the wrapping functions, `let`,
/// `with`, `assert` and parentheses.
pub open spec fn innermost(n: NixNode) -> NixNode
    decreases n,
{
    match n.expr {
        NixExpr::Lambda(Some(b)) => innermost(*b),
        NixExpr::LetIn(Some(b)) => innermost(*b),
        NixExpr::With(Some(b)) => innermost(*b),
        NixExpr::Assert(Some(b)) => innermost(*b),
        NixExpr::Paren(Some(b)) => innermost(*b),
        _ => n,
    }
}

pub fn innermost_body<'a>(n: &'a NixNode) -> (r: &'a NixNode)
    ensures
        *r == innermost(*n),
    decreases n,
{
    match &n.expr {
        NixExpr::Lambda(Some(b)) => innermost_body(b),
        NixExpr::LetIn(Some(b)) => innermost_body(b),
        NixExpr::With(Some(b)) => innermost_body(b),
        NixExpr::Assert(Some(b)) => innermost_body(b),
        NixExpr::Paren(Some(b)) => innermost_body(b),
        _ => n,
    }
}

/// Dotted key of a binding (empty without a path).
pub open spec fn binding_key(b: NixBinding) -> Seq<char> {
    match b.path {
        Some(p) => dotted(p@),
        None => Seq::empty(),
    }
}

/// The bindings of an attribute-set value.
pub open spec fn set_value(v: Option<NixNode>) -> Option<Seq<NixBinding>> {
    match v {
        Some(n) => match n.expr {
            NixExpr::AttrSet(bs) => Some(bs@),
            _ => None,
        },
        None => None,
    }
}

fn set_value_of<'a>(v: &'a Option<NixNode>) -> (r: Option<&'a Vec<NixBinding>>)
    ensures
        match r {
            Some(bs) => set_value(*v) == Some(bs@),
            None => set_value(*v) is None,
        },
{
    match v {
        Some(n) => match &n.expr {
            NixExpr::AttrSet(bs) => Some(bs),
            _ => None,
        },
        None => None,
    }
}

/// The first `options = { … }` binding among `bs`.
pub open spec fn options_binding(bs: Seq<NixBinding>) -> Option<Seq<NixBinding>>
    decreases bs.len(),
{
    if bs.len() == 0 {
        None
    } else if binding_key(bs[0]) == "options"@ && set_value(bs[0].value) is Some {
        set_value(bs[0].value)
    } else {
        options_binding(bs.drop_first())
    }
}

/// The attribute set holding the module's `options = { … }`.
pub open spec fn options_attrset(root: NixNode) -> Option<Seq<NixBinding>> {
    match innermost(root).expr {
        NixExpr::AttrSet(bs) => options_binding(bs@),
        _ => None,
    }
}

pub fn find_options_attrset<'a>(root: &'a NixNode) -> (r: Option<&'a Vec<NixBinding>>)
    ensures
        match r {
            Some(bs) => options_attrset(*root) == Some(bs@),
            None => options_attrset(*root) is None,
        },
{
    proof {
        reveal_strlit("options");
    }
    let body = innermost_body(root);
    let bs = match &body.expr {
        NixExpr::AttrSet(bs) => bs,
        _ => return None,
    };
    let mut i: usize = 0;
    assert(bs@.skip(0) == bs@);
    while i < bs.len()
        invariant
            0 <= i <= bs@.len(),
            options_attrset(*root) == options_binding(bs@),
            options_binding(bs@) == options_binding(bs@.skip(i as int)),
        decreases bs@.len() - i,
    {
        let b = &bs[i];
        assert(bs@.skip(i as int)[0] == *b);
        assert(bs@.skip(i as int).drop_first() == bs@.skip(i + 1));
        let key = match &b.path {
            Some(p) => attrpath_to_dotted(p),
            None => String::new(),
        };
        if crate::text::str_eq(key.as_str(), "options") {
            if let Some(inner) = set_value_of(&b.value) {
                return Some(inner);
            }
        }
        i += 1;
    }
    None
}

/// A top-level option declaration: the attributes of its path (relative
/// to `options`), when it has one, and its value, when it has one.
pub type Decl = (Option<Seq<Seq<char>>>, Option<NixNode>);

/// An exec declaration: attributes and a reference to the value.
pub type DeclRef<'a> = (Option<Vec<String>>, Option<&'a NixNode>);

pub open spec fn decl_view(d: DeclRef) -> Decl {
    (
        match d.0 {
            Some(v) => Some(views_of(v@)),
            None => None,
        },
        match d.1 {
            Some(n) => Some(*n),
            None => None,
        },
    )
}

pub open spec fn decls_view(ds: Seq<DeclRef>) -> Seq<Decl> {
    ds.map_values(|d: DeclRef| decl_view(d))
}

/// A binding of an `options = { … }` block as a declaration.
pub open spec fn binding_decl(b: NixBinding) -> Decl {
    (
        match b.path {
            Some(p) => Some(attr_strings(p@)),
            None => None,
        },
        b.value,
    )
}

/// The `options.<path> = value;` bindings among `bs`, as declarations of
/// `<path>`.
pub open spec fn inline_decls(bs: Seq<NixBinding>) -> Seq<Decl>
    decreases bs.len(),
{
    if bs.len() == 0 {
        Seq::empty()
    } else {
        let b = bs.last();
        inline_decls(bs.drop_last()) + match b.path {
            Some(p) => {
                let a = attr_strings(p@);
                if a.len() >= 2 && a[0] == "options"@ {
                    seq![(Some(a.skip(1)), b.value)]
                } else {
                    Seq::<Decl>::empty()
                }
            },
            None => Seq::<Decl>::empty(),
        }
    }
}

/// The options a module declares at top level: the bindings of its
/// `options = { … }` block, or else its `options.<path> = …;` bindings.
pub open spec fn option_decls(root: NixNode) -> Seq<Decl> {
    match options_attrset(root) {
        Some(bs) => bs.map_values(|b: NixBinding| binding_decl(b)),
        None => match innermost(root).expr {
            NixExpr::AttrSet(bs) => inline_decls(bs@),
            _ => Seq::empty(),
        },
    }
}

fn binding_decl_of<'a>(b: &'a NixBinding) -> (d: DeclRef<'a>)
    ensures
        decl_view(d) == binding_decl(*b),
{
    let attrs = match &b.path {
        Some(p) => Some(attr_texts(p)),
        None => None,
    };
    let value = match &b.value {
        Some(v) => Some(v),
        None => None,
    };
    (attrs, value)
}

fn option_decls_of<'a>(root: &'a NixNode) -> (r: Vec<DeclRef<'a>>)
    ensures
        decls_view(r@) == option_decls(*root),
{
    proof {
        reveal_strlit("options");
    }
    let mut out: Vec<DeclRef<'a>> = Vec::new();
    if let Some(bs) = find_options_attrset(root) {
        let mut i: usize = 0;
        while i < bs.len()
            invariant
                0 <= i <= bs@.len(),
                options_attrset(*root) == Some(bs@),
                decls_view(out@) == bs@.take(i as int).map_values(|b: NixBinding| binding_decl(b)),
            decreases bs@.len() - i,
        {
            let d = binding_decl_of(&bs[i]);
            let ghost before = decls_view(out@);
            out.push(d);
            proof {
                assert(decls_view(out@) == before.push(decl_view(d)));
                assert(bs@.take(i + 1) == bs@.take(i as int).push(bs@[i as int]));
                assert(bs@.take(i + 1).map_values(|b: NixBinding| binding_decl(b)) == bs@.take(i as int).map_values(
                    |b: NixBinding| binding_decl(b),
                ).push(binding_decl(bs@[i as int])));
            }
            i += 1;
        }
        assert(bs@.take(bs@.len() as int) == bs@);
        return out;
    }
    let body = innermost_body(root);
    let bs = match &body.expr {
        NixExpr::AttrSet(bs) => bs,
        _ => {
            assert(decls_view(out@) == Seq::<Decl>::empty());
            return out;
        },
    };
    let mut i: usize = 0;
    assert(decls_view(out@) == inline_decls(bs@.take(0)));
    while i < bs.len()
        invariant
            0 <= i <= bs@.len(),
            innermost(*root).expr == NixExpr::AttrSet(*bs),
            decls_view(out@) == inline_decls(bs@.take(i as int)),
        decreases bs@.len() - i,
    {
        let b = &bs[i];
        assert(bs@.take(i + 1).drop_last() == bs@.take(i as int));
        assert(bs@.take(i + 1).last() == *b);
        let ghost before = decls_view(out@);
        if let Some(p) = &b.path {
            let a = attr_texts(p);
            if a.len() >= 2 && crate::text::str_eq(a[0].as_str(), "options") {
                let mut rest: Vec<String> = Vec::new();
                let mut k: usize = 1;
                while k < a.len()
                    invariant
                        1 <= k <= a@.len(),
                        views_of(rest@) == views_of(a@).subrange(1, k as int),
                    decreases a@.len() - k,
                {
                    let ghost rb = views_of(rest@);
                    rest.push(a[k].clone());
                    assert(views_of(rest@) == rb.push(a@[k as int]@));
                    assert(views_of(a@).subrange(1, k + 1) == views_of(a@).subrange(1, k as int).push(a@[k as int]@));
                    k += 1;
                }
                let value = match &b.value {
                    Some(v) => Some(v),
                    None => None,
                };
                let d: DeclRef<'a> = (Some(rest), value);
                out.push(d);
                proof {
                    assert(views_of(a@).subrange(1, a@.len() as int) == views_of(a@).skip(1));
                    assert(decls_view(out@) == before.push(decl_view(d)));
                    assert(views_of(a@)[0] == a@[0]@);
                }
            } else {
                proof {
                    if a@.len() >= 2 {
                        assert(views_of(a@)[0] == a@[0]@);
                    }
                }
            }
        }
        i += 1;
    }
    assert(bs@.take(bs@.len() as int) == bs@);
    out
}

/// Prefix shared by a module's options: all attributes but the last of
/// the first declaration that has a path (`darkone.host.gateway` from
/// `darkone.host.gateway.enable`); empty when that path is shorter.
pub open spec fn decl_prefix(ds: Seq<Decl>) -> Seq<char>
    decreases ds.len(),
{
    if ds.len() == 0 {
        Seq::empty()
    } else {
        match ds[0].0 {
            Some(a) => if a.len() < 2 {
                Seq::empty()
            } else {
                join_with(a.take(a.len() - 1), "."@)
            },
            None => decl_prefix(ds.drop_first()),
        }
    }
}

pub fn common_module_prefix(ds: &Vec<DeclRef>) -> (r: String)
    ensures
        r@ == decl_prefix(decls_view(ds@)),
{
    let ghost dv = decls_view(ds@);
    let mut i: usize = 0;
    assert(dv.skip(0) == dv);
    while i < ds.len()
        invariant
            0 <= i <= ds@.len(),
            dv == decls_view(ds@),
            decl_prefix(dv) == decl_prefix(dv.skip(i as int)),
        decreases ds@.len() - i,
    {
        assert(dv.skip(i as int)[0] == decl_view(ds@[i as int]));
        assert(dv.skip(i as int).drop_first() == dv.skip(i + 1));
        if let Some(attrs) = &ds[i].0 {
            if attrs.len() < 2 {
                return String::new();
            }
            let mut head: Vec<String> = Vec::new();
            let mut k: usize = 0;
            while k < attrs.len() - 1
                invariant
                    0 <= k <= attrs@.len() - 1,
                    views_of(head@) == views_of(attrs@).take(k as int),
                decreases attrs@.len() - 1 - k,
            {
                let ghost before = views_of(head@);
                head.push(attrs[k].clone());
                assert(views_of(head@) == before.push(attrs@[k as int]@));
                k += 1;
            }
            return crate::mdx_parser::join(&head, ".");
        }
        i += 1;
    }
    String::new()
}

/// `s` without leading dots.
pub open spec fn trim_dots_start(s: Seq<char>) -> Seq<char>
    decreases s.len(),
{
    if s.len() > 0 && s[0] == '.' {
        trim_dots_start(s.drop_first())
    } else {
        s
    }
}

/// An option's name: its dotted path without the module prefix.
pub open spec fn without_prefix(d: Seq<char>, prefix: Seq<char>) -> Seq<char> {
    if prefix.len() == 0 {
        d
    } else if has_prefix(d, prefix) {
        trim_dots_start(d.skip(prefix.len() as int))
    } else {
        d
    }
}

pub fn strip_prefix(d: &str, prefix: &str) -> (r: String)
    ensures
        r@ == without_prefix(d@, prefix@),
{
    let pv = chars_of(prefix);
    if pv.len() == 0 {
        return owned(d);
    }
    if !starts_with(d, prefix) {
        return owned(d);
    }
    let v = chars_of(d);
    let mut a: usize = pv.len();
    assert(v@.skip(a as int) == d@.skip(prefix@.len() as int));
    while a < v.len() && v[a] == '.'
        invariant
            pv@.len() <= a <= v@.len(),
            trim_dots_start(v@.skip(pv@.len() as int)) == trim_dots_start(v@.skip(a as int)),
        decreases v@.len() - a,
    {
        assert(v@.skip(a as int).drop_first() == v@.skip(a + 1));
        a += 1;
    }
    assert(trim_dots_start(v@.skip(a as int)) == v@.skip(a as int)) by {
        if a < v@.len() {
            assert(v@.skip(a as int)[0] == v@[a as int]);
        }
    }
    assert(v@.subrange(a as int, v@.len() as int) == v@.skip(a as int));
    crate::text::string_of_range(v.as_slice(), a, v.len())
}

// ─── option declarations ────────────────────────────────────────────────────

/// The bindings of an attribute set (through parentheses).
pub open spec fn unwrap_set(n: NixNode) -> Option<Seq<NixBinding>>
    decreases n,
{
    match n.expr {
        NixExpr::AttrSet(bs) => Some(bs@),
        NixExpr::Paren(Some(b)) => unwrap_set(*b),
        _ => None,
    }
}

pub fn unwrap_attrset<'a>(n: &'a NixNode) -> (r: Option<&'a Vec<NixBinding>>)
    ensures
        match r {
            Some(bs) => unwrap_set(*n) == Some(bs@),
            None => unwrap_set(*n) is None,
        },
    decreases n,
{
    match &n.expr {
        NixExpr::AttrSet(bs) => Some(bs),
        NixExpr::Paren(Some(b)) => unwrap_attrset(b),
        _ => None,
    }
}

/// What an option declaration calls: `mkEnableOption "…"` with its
/// description, or `mkOption { … }` with its type text, type expression,
/// default, example and description.
pub enum CallSpec {
    Enable(Seq<char>),
    MkOption(Option<Seq<char>>, Option<NixNode>, Option<Seq<char>>, Option<Seq<char>>, Option<Seq<char>>),
}

/// The fields of `mkOption { … }` read from its bindings, in order (a
/// later binding of the same key wins).
pub open spec fn mk_fields(bs: Seq<NixBinding>) -> CallSpec
    decreases bs.len(),
{
    if bs.len() == 0 {
        CallSpec::MkOption(None, None, None, None, None)
    } else {
        let prev = mk_fields(bs.drop_last());
        let b = bs.last();
        match (prev, b.path, b.value) {
            (CallSpec::MkOption(ot, te, d, e, desc), Some(p), Some(v)) => {
                let key = dotted(p@);
                if key == "type"@ {
                    CallSpec::MkOption(Some(types_prefix_stripped(v.text@)), Some(v), d, e, desc)
                } else if key == "default"@ {
                    CallSpec::MkOption(ot, te, Some(v.text@), e, desc)
                } else if key == "example"@ {
                    CallSpec::MkOption(ot, te, d, Some(v.text@), desc)
                } else if key == "description"@ {
                    CallSpec::MkOption(
                        ot,
                        te,
                        d,
                        e,
                        Some(
                            match string_value(v) {
                                Some(s) => s,
                                None => v.text@,
                            },
                        ),
                    )
                } else {
                    prev
                }
            },
            _ => prev,
        }
    }
}

/// The option declaration an expression makes, if any.
pub open spec fn option_call_spec(n: NixNode) -> Option<CallSpec>
    decreases n,
{
    match n.expr {
        NixExpr::Apply(Some(l), Some(a)) => match trailing_ident(*l) {
            Some(f) => if f == "mkEnableOption"@ {
                Some(
                    CallSpec::Enable(
                        match string_value(*a) {
                            Some(s) => s,
                            None => Seq::empty(),
                        },
                    ),
                )
            } else if f == "mkOption"@ {
                match unwrap_set(*a) {
                    Some(bs) => Some(mk_fields(bs)),
                    None => None,
                }
            } else {
                None
            },
            None => None,
        },
        NixExpr::Paren(Some(b)) => option_call_spec(*b),
        _ => None,
    }
}

/// The fields of an `mkOption { … }` call.
pub struct MkOptionFields<'a> {
    pub option_type: Option<String>,
    pub type_expr: Option<&'a NixNode>,
    pub default: Option<String>,
    pub example: Option<String>,
    pub description: Option<String>,
}

/// An option declaration.
pub enum OptionCall<'a> {
    Enable(String),
    MkOption(MkOptionFields<'a>),
}

pub open spec fn call_view(c: OptionCall) -> CallSpec {
    match c {
        OptionCall::Enable(d) => CallSpec::Enable(d@),
        OptionCall::MkOption(f) => CallSpec::MkOption(
            crate::text::opt_view(f.option_type),
            match f.type_expr {
                Some(t) => Some(*t),
                None => None,
            },
            crate::text::opt_view(f.default),
            crate::text::opt_view(f.example),
            crate::text::opt_view(f.description),
        ),
    }
}

fn read_mk_fields<'a>(bs: &'a Vec<NixBinding>) -> (r: MkOptionFields<'a>)
    ensures
        call_view(OptionCall::MkOption(r)) == mk_fields(bs@),
{
    proof {
        reveal_strlit("type");
        reveal_strlit("default");
        reveal_strlit("example");
        reveal_strlit("description");
    }
    let mut f = MkOptionFields { option_type: None, type_expr: None, default: None, example: None, description: None };
    let mut i: usize = 0;
    while i < bs.len()
        invariant
            0 <= i <= bs@.len(),
            call_view(OptionCall::MkOption(f)) == mk_fields(bs@.take(i as int)),
        decreases bs@.len() - i,
    {
        let b = &bs[i];
        assert(bs@.take(i + 1).drop_last() == bs@.take(i as int));
        assert(bs@.take(i + 1).last() == *b);
        if let (Some(p), Some(v)) = (&b.path, &b.value) {
            let key = attrpath_to_dotted(p);
            if crate::text::str_eq(key.as_str(), "type") {
                f.option_type = Some(simplify_types_prefix(v.text.as_str()));
                f.type_expr = Some(v);
            } else if crate::text::str_eq(key.as_str(), "default") {
                f.default = Some(v.text.clone());
            } else if crate::text::str_eq(key.as_str(), "example") {
                f.example = Some(v.text.clone());
            } else if crate::text::str_eq(key.as_str(), "description") {
                f.description = Some(
                    match expr_string_value(v) {
                        Some(s) => s,
                        None => v.text.clone(),
                    },
                );
            }
        }
        i += 1;
    }
    assert(bs@.take(bs@.len() as int) == bs@);
    f
}

pub fn option_call<'a>(n: &'a NixNode) -> (r: Option<OptionCall<'a>>)
    ensures
        match r {
            Some(c) => option_call_spec(*n) == Some(call_view(c)),
            None => option_call_spec(*n) is None,
        },
    decreases n,
{
    proof {
        reveal_strlit("mkEnableOption");
        reveal_strlit("mkOption");
    }
    match &n.expr {
        NixExpr::Apply(Some(l), Some(a)) => {
            let fname = trailing_ident_name(l)?;
            if crate::text::str_eq(fname.as_str(), "mkEnableOption") {
                let description = match expr_string_value(a) {
                    Some(s) => s,
                    None => String::new(),
                };
                Some(OptionCall::Enable(description))
            } else if crate::text::str_eq(fname.as_str(), "mkOption") {
                let attrs = unwrap_attrset(a)?;
                Some(OptionCall::MkOption(read_mk_fields(attrs)))
            } else {
                None
            }
        },
        NixExpr::Paren(Some(b)) => option_call(b),
        _ => None,
    }
}

// ─── submodules ─────────────────────────────────────────────────────────────

/// The `options = { … }` attribute set of a submodule body: the first
/// binding whose path starts with `options` and whose value is an
/// attribute set; a binding without a path ends the search.
pub open spec fn options_inside(bs: Seq<NixBinding>) -> Option<Seq<NixBinding>>
    decreases bs.len(),
{
    if bs.len() == 0 {
        None
    } else {
        match bs[0].path {
            None => None,
            Some(p) => {
                let attrs = attr_strings(p@);
                if attrs.len() > 0 && attrs[0] == "options"@ && set_value(bs[0].value) is Some {
                    set_value(bs[0].value)
                } else {
                    options_inside(bs.drop_first())
                }
            },
        }
    }
}

/// The options of the argument of `submodule`: an attribute set, or a
/// function returning one (through parentheses).
pub open spec fn submodule_arg_options(arg: NixNode) -> Option<Seq<NixBinding>>
    decreases arg,
{
    match arg.expr {
        NixExpr::AttrSet(bs) => options_inside(bs@),
        NixExpr::Paren(Some(b)) => submodule_arg_options(*b),
        NixExpr::Lambda(Some(b)) => submodule_arg_options(*b),
        _ => None,
    }
}

/// The options of the submodule in a type expression:
/// `types.submodule {…}`, `types.submodule (_: {…})`, possibly under
/// `attrsOf`, `nullOr` or `listOf`.
pub open spec fn submodule_options(t: NixNode) -> Option<Seq<NixBinding>>
    decreases t,
{
    match t.expr {
        NixExpr::Apply(l, Some(arg)) => {
            let fname = match l {
                Some(x) => trailing_ident(*x),
                None => None,
            };
            if fname == Some("submodule"@) {
                submodule_arg_options(*arg)
            } else if fname == Some("attrsOf"@) || fname == Some("nullOr"@) || fname == Some("listOf"@) {
                submodule_options(*arg)
            } else {
                None
            }
        },
        NixExpr::Paren(Some(b)) => submodule_options(*b),
        _ => None,
    }
}

/// The bindings found inside `bs` are part of it.
pub proof fn lemma_options_inside(bs: Seq<NixBinding>)
    ensures
        options_inside(bs) matches Some(inner) ==> decreases_to!(bs => inner),
    decreases bs.len(),
{
    if bs.len() > 0 {
        match bs[0].path {
            None => {},
            Some(p) => {
                let attrs = attr_strings(p@);
                if attrs.len() > 0 && attrs[0] == "options"@ && set_value(bs[0].value) is Some {
                    let v = bs[0].value->0;
                    assert(decreases_to!(bs => bs[0]));
                    assert(decreases_to!(bs[0] => bs[0].value));
                    assert(decreases_to!(bs[0].value => v));
                    assert(decreases_to!(v => v.expr));
                    let inner = v.expr->AttrSet_0;
                    assert(decreases_to!(v.expr => inner));
                    assert(decreases_to!(inner => inner@));
                } else {
                    lemma_options_inside(bs.drop_first());
                    assert(decreases_to!(bs => bs.subrange(1, bs.len() as int)));
                    assert(bs.drop_first() == bs.subrange(1, bs.len() as int));
                }
            },
        }
    }
}

pub proof fn lemma_submodule_arg(arg: NixNode)
    ensures
        submodule_arg_options(arg) matches Some(inner) ==> decreases_to!(arg => inner),
    decreases arg,
{
    match arg.expr {
        NixExpr::AttrSet(bs) => {
            lemma_options_inside(bs@);
            assert(decreases_to!(arg => arg.expr));
            assert(decreases_to!(arg.expr => bs));
            assert(decreases_to!(bs => bs@));
        },
        NixExpr::Paren(Some(b)) => {
            lemma_submodule_arg(*b);
        },
        NixExpr::Lambda(Some(b)) => {
            lemma_submodule_arg(*b);
        },
        _ => {},
    }
}

pub proof fn lemma_submodule(t: NixNode)
    ensures
        submodule_options(t) matches Some(inner) ==> decreases_to!(t => inner),
    decreases t,
{
    match t.expr {
        NixExpr::Apply(l, Some(arg)) => {
            lemma_submodule_arg(*arg);
            lemma_submodule(*arg);
        },
        NixExpr::Paren(Some(b)) => {
            lemma_submodule(*b);
        },
        _ => {},
    }
}

fn find_options_inside<'a>(bs: &'a Vec<NixBinding>) -> (r: Option<&'a Vec<NixBinding>>)
    ensures
        match r {
            Some(inner) => options_inside(bs@) == Some(inner@),
            None => options_inside(bs@) is None,
        },
{
    proof {
        reveal_strlit("options");
    }
    let mut i: usize = 0;
    assert(bs@.skip(0) == bs@);
    while i < bs.len()
        invariant
            0 <= i <= bs@.len(),
            options_inside(bs@) == options_inside(bs@.skip(i as int)),
        decreases bs@.len() - i,
    {
        let b = &bs[i];
        assert(bs@.skip(i as int)[0] == *b);
        assert(bs@.skip(i as int).drop_first() == bs@.skip(i + 1));
        let p = match &b.path {
            Some(p) => p,
            None => return None,
        };
        let attrs = attr_texts(p);
        if attrs.len() > 0 && crate::text::str_eq(attrs[0].as_str(), "options") {
            assert(views_of(attrs@)[0] == attrs@[0]@);
            if let Some(inner) = set_value_of(&b.value) {
                return Some(inner);
            }
        }
        i += 1;
    }
    None
}

fn options_in_submodule_arg<'a>(arg: &'a NixNode) -> (r: Option<&'a Vec<NixBinding>>)
    ensures
        match r {
            Some(inner) => submodule_arg_options(*arg) == Some(inner@),
            None => submodule_arg_options(*arg) is None,
        },
    decreases arg,
{
    match &arg.expr {
        NixExpr::AttrSet(bs) => find_options_inside(bs),
        NixExpr::Paren(Some(b)) => options_in_submodule_arg(b),
        NixExpr::Lambda(Some(b)) => options_in_submodule_arg(b),
        _ => None,
    }
}

/// Locates the `options = { … }` attribute set inside a `submodule (…)`
/// type expression.
pub fn find_submodule_options<'a>(t: &'a NixNode) -> (r: Option<&'a Vec<NixBinding>>)
    ensures
        match r {
            Some(inner) => submodule_options(*t) == Some(inner@),
            None => submodule_options(*t) is None,
        },
    decreases t,
{
    proof {
        reveal_strlit("submodule");
        reveal_strlit("attrsOf");
        reveal_strlit("nullOr");
        reveal_strlit("listOf");
    }
    match &t.expr {
        NixExpr::Apply(l, Some(arg)) => {
            let fname: Option<String> = match l {
                Some(x) => trailing_ident_name(x),
                None => None,
            };
            match fname {
                Some(f) => {
                    if crate::text::str_eq(f.as_str(), "submodule") {
                        options_in_submodule_arg(arg)
                    } else if crate::text::str_eq(f.as_str(), "attrsOf") || crate::text::str_eq(f.as_str(), "nullOr")
                        || crate::text::str_eq(f.as_str(), "listOf") {
                        find_submodule_options(arg)
                    } else {
                        None
                    }
                },
                None => None,
            }
        },
        NixExpr::Paren(Some(b)) => find_submodule_options(b),
        _ => None,
    }
}

// ─── the options list ───────────────────────────────────────────────────────

/// An option by its views: name, level, type label, default, example,
/// description.
pub type OptView = (Seq<char>, int, Seq<char>, Option<Seq<char>>, Option<Seq<char>>, Option<Seq<char>>);

pub open spec fn nix_option_view(o: NixOption) -> OptView {
    (
        o.name@,
        o.level as int,
        o.type_label@,
        crate::text::opt_view(o.default),
        crate::text::opt_view(o.example),
        crate::text::opt_view(o.description),
    )
}

/// The level of the options of a submodule (held at the largest `usize`).
pub open spec fn next_level(l: int) -> int {
    if l >= usize::MAX {
        usize::MAX as int
    } else {
        l + 1
    }
}

/// Default and example shown for a type label: a submodule or attribute
/// set defaults to `{ }`, lines to `""`, a list to `[ ]`, without example.
pub open spec fn forced(label: Seq<char>, d: Option<Seq<char>>, e: Option<Seq<char>>) -> (Option<Seq<char>>, Option<Seq<char>>) {
    if label == "submodule"@ || label == "attrs"@ {
        (Some("{ }"@), None)
    } else if label == "lines"@ {
        (Some("\"\""@), None)
    } else if has_prefix(label, "listOf"@) {
        (Some("[ ]"@), None)
    } else {
        (d, e)
    }
}

/// The type expression read by `mk_fields` is part of the bindings.
pub proof fn lemma_mk_fields(bs: Seq<NixBinding>)
    ensures
        mk_fields(bs) matches CallSpec::MkOption(_, Some(te), _, _, _) ==> decreases_to!(bs => te),
    decreases bs.len(),
{
    if bs.len() > 0 {
        lemma_mk_fields(bs.drop_last());
        assert(decreases_to!(bs => bs.subrange(0, bs.len() - 1)));
        assert(bs.drop_last() == bs.subrange(0, bs.len() - 1));
        let b = bs.last();
        assert(decreases_to!(bs => bs[bs.len() - 1]));
        if b.value is Some {
            assert(decreases_to!(b => b.value));
            assert(decreases_to!(b.value => b.value->0));
        }
    }
}

/// The type expression of a call is part of the call.
pub proof fn lemma_call(n: NixNode)
    ensures
        option_call_spec(n) matches Some(CallSpec::MkOption(_, Some(te), _, _, _)) ==> decreases_to!(n => te),
    decreases n,
{
    match n.expr {
        NixExpr::Apply(Some(l), Some(a)) => {
            lemma_unwrap_set(*a);
            match unwrap_set(*a) {
                Some(bs) => lemma_mk_fields(bs),
                None => {},
            }
        },
        NixExpr::Paren(Some(b)) => lemma_call(*b),
        _ => {},
    }
}

pub proof fn lemma_unwrap_set(n: NixNode)
    ensures
        unwrap_set(n) matches Some(bs) ==> decreases_to!(n => bs),
    decreases n,
{
    match n.expr {
        NixExpr::AttrSet(bs) => {
            assert(decreases_to!(n => n.expr));
            assert(decreases_to!(n.expr => bs));
            assert(decreases_to!(bs => bs@));
        },
        NixExpr::Paren(Some(b)) => lemma_unwrap_set(*b),
        _ => {},
    }
}

/// The options an expression declares under `name` at `level`: the
/// option itself, then the options of its submodule one level deeper.
pub open spec fn options_of(name: Seq<char>, level: int, value: NixNode) -> Seq<OptView>
    decreases value,
{
    match option_call_spec(value) {
        Some(CallSpec::Enable(d)) => seq![(name, level, "bool"@, Some("false"@), None, Some(d))],
        Some(CallSpec::MkOption(ot, te, d, e, desc)) => {
            let label = type_label(ot);
            let fe = forced(label, d, e);
            seq![(name, level, label, fe.0, fe.1, desc)] + match te {
                Some(t) => match submodule_options(t) {
                    Some(bs) => {
                        proof {
                            lemma_call(value);
                            lemma_submodule(t);
                        }
                        bindings_options(bs, next_level(level))
                    },
                    None => Seq::empty(),
                },
                None => Seq::empty(),
            }
        },
        None => Seq::empty(),
    }
}

/// The options declared by bindings, in order.
pub open spec fn bindings_options(bs: Seq<NixBinding>, level: int) -> Seq<OptView>
    decreases bs,
{
    if bs.len() == 0 {
        Seq::empty()
    } else {
        proof {
            assert(bs.drop_last() == bs.subrange(0, bs.len() - 1));
        }
        bindings_options(bs.drop_last(), level) + binding_options(bs[bs.len() - 1], level)
    }
}

/// The options one binding declares: under its dotted path, when it has
/// a non-empty one and a value.
pub open spec fn binding_options(b: NixBinding, level: int) -> Seq<OptView>
    decreases b,
{
    match b.value {
        Some(v) => match b.path {
            Some(p) => if dotted(p@).len() == 0 {
                Seq::empty()
            } else {
                options_of(dotted(p@), level, v)
            },
            None => Seq::empty(),
        },
        None => Seq::empty(),
    }
}

fn collect_bindings(out: &mut Vec<NixOption>, bs: &Vec<NixBinding>, level: usize)
    ensures
        final(out)@.map_values(|o: NixOption| nix_option_view(o)) == old(out)@.map_values(|o: NixOption| nix_option_view(o))
            + bindings_options(bs@, level as int),
    decreases bs@, 0nat,
{
    let ghost start = out@.map_values(|o: NixOption| nix_option_view(o));
    let mut i: usize = 0;
    while i < bs.len()
        invariant
            0 <= i <= bs@.len(),
            out@.map_values(|o: NixOption| nix_option_view(o)) == start + bindings_options(bs@.take(i as int), level as int),
        decreases bs@.len() - i,
    {
        let b = &bs[i];
        let ghost t = bs@.take(i + 1);
        proof {
            assert(t.drop_last() == bs@.take(i as int));
            assert(t[t.len() - 1] == *b);
            assert(bindings_options(t, level as int) == bindings_options(bs@.take(i as int), level as int)
                + binding_options(*b, level as int));
        }
        if let (Some(p), Some(v)) = (&b.path, &b.value) {
            let name = attrpath_to_dotted(p);
            if chars_of(name.as_str()).len() > 0 {
                proof {
                    assert(decreases_to!(bs@ => bs@[i as int]));
                    assert(decreases_to!(bs@[i as int] => b.value));
                    assert(decreases_to!(b.value => b.value->0));
                }
                collect_option(out, name, level, v);
            }
        }
        i += 1;
    }
    assert(bs@.take(bs@.len() as int) == bs@);
}

/// Appends the options `value` declares under `name` at `level`: the
/// option itself, then the options of its submodule one level deeper.
pub fn collect_option(out: &mut Vec<NixOption>, name: String, level: usize, value: &NixNode)
    ensures
        final(out)@.map_values(|o: NixOption| nix_option_view(o)) == old(out)@.map_values(|o: NixOption| nix_option_view(o))
            + options_of(name@, level as int, *value),
    decreases value, 1nat,
{
    proof {
        reveal_strlit("submodule");
        reveal_strlit("attrs");
        reveal_strlit("lines");
        reveal_strlit("listOf");
    }
    let ghost start = out@.map_values(|o: NixOption| nix_option_view(o));
    let call = match option_call(value) {
        Some(c) => c,
        None => return,
    };
    match call {
        OptionCall::Enable(description) => {
            out.push(
                NixOption {
                    name,
                    level,
                    type_label: owned("bool"),
                    default: Some(owned("false")),
                    example: None,
                    description: Some(description),
                },
            );
            assert(out@.map_values(|o: NixOption| nix_option_view(o)) == start.push(nix_option_view(out@.last())));
        },
        OptionCall::MkOption(fields) => {
            let ot: Option<&str> = match &fields.option_type {
                Some(t) => Some(t.as_str()),
                None => None,
            };
            let label = simplify_type(ot);
            let (default, example) = if crate::text::str_eq(label.as_str(), "submodule") || crate::text::str_eq(
                label.as_str(),
                "attrs",
            ) {
                (Some(owned("{ }")), None)
            } else if crate::text::str_eq(label.as_str(), "lines") {
                (Some(owned("\"\"")), None)
            } else if starts_with(label.as_str(), "listOf") {
                (Some(owned("[ ]")), None)
            } else {
                (fields.default, fields.example)
            };
            let type_expr = fields.type_expr;
            out.push(NixOption { name, level, type_label: label, default, example, description: fields.description });
            assert(out@.map_values(|o: NixOption| nix_option_view(o)) == start.push(nix_option_view(out@.last())));
            if let Some(ty) = type_expr {
                if let Some(bs) = find_submodule_options(ty) {
                    proof {
                        lemma_call(*value);
                        lemma_submodule(*ty);
                        assert(decreases_to!(bs => bs@));
                    }
                    let next: usize = if level == usize::MAX { level } else { level + 1 };
                    collect_bindings(out, bs, next);
                }
            }
        },
    }
}

/// The options of a module's top-level declarations: each one's dotted
/// path without the module prefix names an option at level 1.
pub open spec fn top_options(ds: Seq<Decl>, prefix: Seq<char>) -> Seq<OptView>
    decreases ds.len(),
{
    if ds.len() == 0 {
        Seq::empty()
    } else {
        let d = ds.last();
        top_options(ds.drop_last(), prefix) + match (d.0, d.1) {
            (Some(a), Some(v)) => {
                let nm = without_prefix(join_with(a, "."@), prefix);
                if nm.len() == 0 {
                    Seq::empty()
                } else {
                    options_of(nm, 1, v)
                }
            },
            _ => Seq::empty(),
        }
    }
}

/// The options declared by a module whose syntax tree is `root` (none
/// when the source has no expression).
pub open spec fn module_options(root: Option<&NixNode>) -> Seq<OptView> {
    match root {
        Some(r) => {
            let ds = option_decls(*r);
            top_options(ds, decl_prefix(ds))
        },
        None => Seq::empty(),
    }
}


/// Option `i` of `s` sits at most one level below option `i - 1`.
pub open spec fn level_step_ok(s: Seq<OptView>, i: int) -> bool {
    s[i].1 <= s[i - 1].1 + 1
}

/// The levels of `s` start at `level`, never drop below it, and go at
/// most one level deeper from one option to the next.
pub open spec fn levels_from(s: Seq<OptView>, level: int) -> bool {
    &&& (s.len() > 0 ==> s[0].1 == level)
    &&& forall|i: int| 0 <= i < s.len() ==> (#[trigger] s[i]).1 >= level
    &&& forall|i: int| 0 < i < s.len() ==> #[trigger] level_step_ok(s, i)
}

/// Two runs of options that both start at `level` make one.
pub proof fn lemma_levels_concat(a: Seq<OptView>, b: Seq<OptView>, level: int)
    requires
        levels_from(a, level),
        levels_from(b, level),
    ensures
        levels_from(a + b, level),
{
    let s = a + b;
    assert forall|i: int| 0 <= i < s.len() implies (#[trigger] s[i]).1 >= level by {
        if i < a.len() {
            assert(s[i] == a[i]);
        } else {
            assert(s[i] == b[i - a.len()]);
        }
    }
    assert forall|i: int| 0 < i < s.len() implies #[trigger] level_step_ok(s, i) by {
        if i < a.len() {
            assert(s[i] == a[i] && s[i - 1] == a[i - 1]);
            assert(level_step_ok(a, i));
        } else if i == a.len() {
            assert(s[i] == b[0] && s[i - 1] == a[i - 1]);
            assert(a[i - 1].1 >= level);
        } else {
            assert(s[i] == b[i - a.len()] && s[i - 1] == b[i - 1 - a.len()]);
            assert(level_step_ok(b, i - a.len()));
        }
    }
}

/// An option's default and example as its type dictates: a submodule or
/// attribute set defaults to `{ }`, lines to `""`, a list to `[ ]`, none
/// of them with an example.
pub open spec fn default_fits_type(o: OptView) -> bool {
    &&& (o.2 == "submodule"@ || o.2 == "attrs"@) ==> o.3 == Some("{ }"@) && o.4 is None
    &&& o.2 == "lines"@ ==> o.3 == Some("\"\""@) && o.4 is None
    &&& has_prefix(o.2, "listOf"@) ==> o.3 == Some("[ ]"@) && o.4 is None
}

/// Every option of `s` has the default its type dictates.
pub open spec fn defaults_fit(s: Seq<OptView>) -> bool {
    forall|i: int| 0 <= i < s.len() ==> default_fits_type(#[trigger] s[i])
}

pub proof fn lemma_defaults_concat(a: Seq<OptView>, b: Seq<OptView>)
    requires
        defaults_fit(a),
        defaults_fit(b),
    ensures
        defaults_fit(a + b),
{
    assert forall|i: int| 0 <= i < (a + b).len() implies default_fits_type(#[trigger] (a + b)[i]) by {
        if i < a.len() {
            assert((a + b)[i] == a[i]);
        } else {
            assert((a + b)[i] == b[i - a.len()]);
        }
    }
}

/// The option a call declares has the default its type dictates.
pub proof fn lemma_forced_fits(name: Seq<char>, level: int, label: Seq<char>, d: Option<Seq<char>>, e: Option<Seq<char>>, desc: Option<Seq<char>>)
    ensures
        default_fits_type((name, level, label, forced(label, d, e).0, forced(label, d, e).1, desc)),
        default_fits_type((name, level, "bool"@, Some("false"@), None, desc)),
{
    reveal_strlit("submodule");
    reveal_strlit("attrs");
    reveal_strlit("lines");
    reveal_strlit("listOf");
    reveal_strlit("bool");
    if label == "lines"@ {
        assert(label[2] != "listOf"@[2]);
    }
    if label == "submodule"@ {
        assert(label.len() != "lines"@.len());
        assert(label.take(6)[0] != "listOf"@[0]);
    }
    if label == "attrs"@ {
        assert(label[0] != "lines"@[0]);
        assert(label.len() < "listOf"@.len());
    }
    assert("bool"@.len() < "listOf"@.len());
}

/// The options `options_of` gives start at `level`, and those of a
/// submodule follow their parent one level deeper.
pub proof fn lemma_option_levels(name: Seq<char>, level: int, value: NixNode)
    requires
        1 <= level <= usize::MAX,
    ensures
        forall|i: int| 0 <= i < options_of(name, level, value).len() ==> (#[trigger] options_of(name, level, value)[i]).1 >= 1,
        levels_from(options_of(name, level, value), level),
        defaults_fit(options_of(name, level, value)),
    decreases value, 1nat,
{
    match option_call_spec(value) {
        Some(CallSpec::MkOption(ot, te, d, e, desc)) => {
            let label = type_label(ot);
            let fe = forced(label, d, e);
            let head = seq![(name, level, label, fe.0, fe.1, desc)];
            let rest = match te {
                Some(t) => match submodule_options(t) {
                    Some(bs) => {
                        lemma_call(value);
                        lemma_submodule(t);
                        lemma_binding_levels(bs, next_level(level));
                        bindings_options(bs, next_level(level))
                    },
                    None => Seq::empty(),
                },
                None => Seq::empty(),
            };
            assert(options_of(name, level, value) == head + rest);
            lemma_forced_fits(name, level, label, d, e, desc);
            lemma_defaults_concat(head, rest);
            let s = head + rest;
            assert(levels_from(rest, next_level(level)));
            assert forall|i: int| 0 <= i < s.len() implies (#[trigger] s[i]).1 >= level by {
                if i < 1 {
                    assert(s[i] == head[i]);
                } else {
                    assert(s[i] == rest[i - 1]);
                }
            }
            assert forall|i: int| 0 < i < s.len() implies #[trigger] level_step_ok(s, i) by {
                assert(s[i] == rest[i - 1]);
                if i == 1 {
                    assert(s[0] == head[0]);
                } else {
                    assert(s[i - 1] == rest[i - 2]);
                    assert(level_step_ok(rest, i - 1));
                }
            }
        },
        Some(CallSpec::Enable(d)) => {
            lemma_forced_fits(name, level, "bool"@, None, None, Some(d));
            let s = options_of(name, level, value);
            assert(s == seq![(name, level, "bool"@, Some("false"@), None::<Seq<char>>, Some(d))]);
            assert(default_fits_type(s[0]));
        },
        None => {},
    }
}

/// The options `bindings_options` gives start at `level`, and those of a
/// submodule follow their parent one level deeper.
pub proof fn lemma_binding_levels(bs: Seq<NixBinding>, level: int)
    requires
        1 <= level <= usize::MAX,
    ensures
        forall|i: int| 0 <= i < bindings_options(bs, level).len() ==> (#[trigger] bindings_options(bs, level)[i]).1 >= 1,
        levels_from(bindings_options(bs, level), level),
        defaults_fit(bindings_options(bs, level)),
    decreases bs, 0nat,
{
    if bs.len() > 0 {
        assert(bs.drop_last() == bs.subrange(0, bs.len() - 1));
        lemma_binding_levels(bs.drop_last(), level);
        let b = bs[bs.len() - 1];
        assert(decreases_to!(bs => b));
        match b.value {
            Some(v) => match b.path {
                Some(p) => if dotted(p@).len() > 0 {
                    assert(decreases_to!(b => b.value));
                    assert(decreases_to!(b.value => v));
                    lemma_option_levels(dotted(p@), level, v);
                    assert(binding_options(b, level) == options_of(dotted(p@), level, v));
                } else {
                    assert(binding_options(b, level) == Seq::<OptView>::empty());
                },
                None => {},
            },
            None => {},
        }
        let a = bindings_options(bs.drop_last(), level);
        let c = binding_options(b, level);
        assert(bindings_options(bs, level) == a + c);
        lemma_levels_concat(a, c, level);
        lemma_defaults_concat(a, c);
        assert forall|i: int| 0 <= i < (a + c).len() implies (#[trigger] (a + c)[i]).1 >= 1 by {
            if i < a.len() {
                assert((a + c)[i] == a[i]);
            } else {
                assert((a + c)[i] == c[i - a.len()]);
            }
        }
    }
}

/// The options of a module start at level one, and those of a submodule
/// follow their parent one level deeper.
pub proof fn lemma_top_levels(ds: Seq<Decl>, prefix: Seq<char>)
    ensures
        forall|i: int| 0 <= i < top_options(ds, prefix).len() ==> (#[trigger] top_options(ds, prefix)[i]).1 >= 1,
        levels_from(top_options(ds, prefix), 1),
        defaults_fit(top_options(ds, prefix)),
    decreases ds.len(),
{
    if ds.len() > 0 {
        lemma_top_levels(ds.drop_last(), prefix);
        let d = ds.last();
        let a = top_options(ds.drop_last(), prefix);
        let c = match (d.0, d.1) {
            (Some(at), Some(v)) => {
                let nm = without_prefix(join_with(at, "."@), prefix);
                if nm.len() == 0 {
                    Seq::empty()
                } else {
                    lemma_option_levels(nm, 1, v);
                    options_of(nm, 1, v)
                }
            },
            _ => Seq::empty(),
        };
        assert(top_options(ds, prefix) == a + c);
        lemma_levels_concat(a, c, 1);
        lemma_defaults_concat(a, c);
        assert forall|i: int| 0 <= i < (a + c).len() implies (#[trigger] (a + c)[i]).1 >= 1 by {
            if i < a.len() {
                assert((a + c)[i] == a[i]);
            } else {
                assert((a + c)[i] == c[i - a.len()]);
            }
        }
    }
}

/// Law: the options of a module start at level one, never drop below it,
/// and go at most one level deeper from one option to the next, so that the
/// options of a submodule follow their parent one level deeper; and each
/// option has the default its type dictates: a submodule or attribute set
/// `{ }`, lines `""`, a list `[ ]`, none of them with an example.
pub proof fn law_module_option_shape(root: Option<&NixNode>)
    ensures
        levels_from(module_options(root), 1),
        defaults_fit(module_options(root)),
{
    if let Some(r) = root {
        let ds = option_decls(*r);
        lemma_top_levels(ds, decl_prefix(ds));
    }
}

/// The options declared in the module `source`: those of the root
/// expression that `rnix` finds in it, none when it finds none.
pub open spec fn source_options(source: Seq<char>) -> Seq<OptView> {
    match nix_tree(source) {
        Some(n) => module_options(Some(&n)),
        None => module_options(None),
    }
}

/// Parses a module source and returns the flat, ordered list of the
/// options it declares; the options of a submodule come right after their
/// parent, one level deeper.
pub fn parse_module_options(source: &str) -> (r: Vec<NixOption>)
    ensures
        r@.map_values(|o: NixOption| nix_option_view(o)) == source_options(source@),
        forall|i: int| 0 <= i < r@.len() ==> (#[trigger] r@[i]).level >= 1,
{
    let root = parse_nix(source);
    module_options_of(root.as_ref())
}

/// The flat, ordered list of options declared in a module's syntax tree
/// (its root expression, if any); the options of a submodule come right
/// after their parent, one level deeper.
pub fn module_options_of(root: Option<&NixNode>) -> (r: Vec<NixOption>)
    ensures
        r@.map_values(|o: NixOption| nix_option_view(o)) == module_options(root),
        forall|i: int| 0 <= i < r@.len() ==> (#[trigger] r@[i]).level >= 1,
{
    let mut out: Vec<NixOption> = Vec::new();
    let root = match root {
        Some(r) => r,
        None => {
            assert(out@.map_values(|o: NixOption| nix_option_view(o)) =~= Seq::<OptView>::empty());
            return out;
        },
    };
    let ds = option_decls_of(root);
    let ghost dv = decls_view(ds@);
    let prefix = common_module_prefix(&ds);
    assert(out@.map_values(|o: NixOption| nix_option_view(o)) =~= top_options(dv.take(0), prefix@));
    let mut i: usize = 0;
    while i < ds.len()
        invariant
            0 <= i <= ds@.len(),
            dv == decls_view(ds@),
            out@.map_values(|o: NixOption| nix_option_view(o)) == top_options(dv.take(i as int), prefix@),
        decreases ds@.len() - i,
    {
        assert(dv.take(i + 1).drop_last() == dv.take(i as int));
        assert(dv.take(i + 1).last() == decl_view(ds@[i as int]));
        if let (Some(a), Some(v)) = (&ds[i].0, ds[i].1) {
            let d = join(a, ".");
            let name = strip_prefix(d.as_str(), prefix.as_str());
            if chars_of(name.as_str()).len() > 0 {
                collect_option(&mut out, name, 1, v);
            }
        }
        i += 1;
    }
    assert(dv.take(dv.len() as int) == dv);
    proof {
        lemma_top_levels(dv, prefix@);
        let m = out@.map_values(|o: NixOption| nix_option_view(o));
        assert forall|i: int| 0 <= i < out@.len() implies (#[trigger] out@[i]).level >= 1 by {
            assert(m[i] == nix_option_view(out@[i]));
        }
    }
    out
}

/// What a top-level element of a parsed Nix file is, as far as the
/// leading comment is concerned.
#[derive(Clone, Copy, PartialEq, Eq, Structural)]
pub enum TokenKind {
    Comment,
    Whitespace,
    Other,
}

/// A top-level element of a parsed Nix file: its kind and source text.
pub struct NixToken {
    pub kind: TokenKind,
    pub text: String,
}

pub open spec fn token_view(t: NixToken) -> (TokenKind, Seq<char>) {
    (t.kind, t.text@)
}

pub open spec fn tokens_view(ts: Seq<NixToken>) -> Seq<(TokenKind, Seq<char>)> {
    ts.map_values(|t: NixToken| token_view(t))
}

/// The top-level elements that `rnix::Root::parse` finds in `source`, in
/// order.
pub uninterp spec fn nix_top_tokens(source: Seq<char>) -> Seq<(TokenKind, Seq<char>)>;

/// `rnix::Root::parse`, then the children of the root with their tokens:
/// comments and white space by kind, every other token or node as
/// `Other`, each with its text. The result is named `nix_top_tokens` of
/// the source; nothing more is claimed of it.
#[verifier::external_body]
pub(crate) fn top_level_tokens(source: &str) -> (r: Vec<NixToken>)
    ensures
        tokens_view(r@) == nix_top_tokens(source@),
{
    let root = rnix::Root::parse(source).syntax();
    root.children_with_tokens().map(|e| match e {
        rnix::NodeOrToken::Token(t) => match t.kind() {
            rnix::SyntaxKind::TOKEN_COMMENT => NixToken { kind: TokenKind::Comment, text: t.text().to_string() },
            rnix::SyntaxKind::TOKEN_WHITESPACE => NixToken { kind: TokenKind::Whitespace, text: t.text().to_string() },
            _ => NixToken { kind: TokenKind::Other, text: t.text().to_string() },
        },
        rnix::NodeOrToken::Node(n) => NixToken { kind: TokenKind::Other, text: n.text().to_string() },
    }).collect()
}

/// One line of a comment without its marker: leading white space, then
/// the `#` characters, then one space.
pub open spec fn marker_line(l: Seq<char>) -> Seq<char> {
    let c = skip_leading(trim_start(l), '#');
    if c.len() > 0 && c[0] == ' ' {
        c.drop_first()
    } else {
        c
    }
}

/// A comment token's text without its markers, line by line.
pub open spec fn comment_text(raw: Seq<char>) -> Seq<char> {
    join_with(lines_of(raw).map_values(|l: Seq<char>| marker_line(l)), "\n"@)
}

/// The lines of the comment block that opens the file, from element `i`
/// on, after the lines in `buf`: comments are taken, white space is
/// skipped before the block and ends it when it holds a blank line, and
/// anything else ends it.
pub open spec fn comment_block(ts: Seq<(TokenKind, Seq<char>)>, i: int, buf: Seq<Seq<char>>) -> Seq<Seq<char>>
    decreases ts.len() - i,
{
    if i < 0 || i >= ts.len() {
        buf
    } else {
        match ts[i].0 {
            TokenKind::Comment => comment_block(ts, i + 1, buf.push(comment_text(ts[i].1))),
            TokenKind::Whitespace => if buf.len() > 0 && count_char(ts[i].1, '\n') >= 2 {
                buf
            } else {
                comment_block(ts, i + 1, buf)
            },
            TokenKind::Other => buf,
        }
    }
}

/// The first comment block of the file, its lines joined with newlines.
pub open spec fn first_comment_spec(ts: Seq<(TokenKind, Seq<char>)>) -> Option<Seq<char>> {
    let b = comment_block(ts, 0, Seq::empty());
    if b.len() == 0 {
        None
    } else {
        Some(join_with(b, "\n"@))
    }
}

/// A comment token's text without its markers: on each line, leading white
/// space, the `#` characters and one following space are removed.
pub fn strip_comment_marker(raw: &str) -> (r: String)
    ensures
        r@ == comment_text(raw@),
{
    proof {
        reveal_strlit("\n");
    }
    let ls = lines(raw);
    let ghost lv = lines_of(raw@);
    let mut out: Vec<String> = Vec::new();
    let mut i: usize = 0;
    while i < ls.len()
        invariant
            0 <= i <= ls@.len(),
            views_of(ls@) == lv,
            views_of(out@) == lv.take(i as int).map_values(|l: Seq<char>| marker_line(l)),
        decreases ls@.len() - i,
    {
        let t = trim_start_str(ls[i].as_str());
        let c = trim_start_char(t.as_str(), '#');
        let cv = chars_of(c.as_str());
        let line = if cv.len() > 0 && cv[0] == ' ' {
            crate::text::string_of_range(cv.as_slice(), 1, cv.len())
        } else {
            c
        };
        proof {
            assert(lv[i as int] == ls@[i as int]@);
            if cv@.len() > 0 {
                assert(cv@.subrange(1, cv@.len() as int) == cv@.drop_first());
            }
            assert(line@ == marker_line(lv[i as int]));
        }
        let ghost before = views_of(out@);
        out.push(line);
        proof {
            assert(views_of(out@) == before.push(line@));
            assert(lv.take(i + 1) == lv.take(i as int).push(lv[i as int]));
            assert(lv.take(i + 1).map_values(|l: Seq<char>| marker_line(l)) == lv.take(i as int).map_values(
                |l: Seq<char>| marker_line(l),
            ).push(marker_line(lv[i as int])));
        }
        i += 1;
    }
    assert(lv.take(ls@.len() as int) == lv);
    join(&out, "\n")
}

/// The comment block that opens a file, from its top-level elements: the
/// comment lines without their markers, joined with newlines, or `None`
/// when the file does not open with a comment.
pub fn first_comment_block(tokens: &Vec<NixToken>) -> (r: Option<String>)
    ensures
        crate::text::opt_view(r) == first_comment_spec(tokens_view(tokens@)),
{
    let ghost ts = tokens_view(tokens@);
    let mut buf: Vec<String> = Vec::new();
    assert(views_of(buf@) == Seq::<Seq<char>>::empty());
    let mut i: usize = 0;
    while i < tokens.len()
        invariant_except_break
            0 <= i <= tokens@.len(),
            ts == tokens_view(tokens@),
            comment_block(ts, i as int, views_of(buf@)) == comment_block(ts, 0, Seq::empty()),
        ensures
            views_of(buf@) == comment_block(ts, 0, Seq::empty()),
        decreases tokens@.len() - i,
    {
        let t = &tokens[i];
        assert(ts[i as int] == token_view(*t));
        match t.kind {
            TokenKind::Comment => {
                let line = strip_comment_marker(t.text.as_str());
                let ghost before = views_of(buf@);
                buf.push(line);
                assert(views_of(buf@) == before.push(line@));
            },
            TokenKind::Whitespace => {
                if buf.len() > 0 && count_of(t.text.as_str(), '\n') >= 2 {
                    break;
                }
            },
            TokenKind::Other => {
                break;
            },
        }
        i += 1;
    }
    if buf.len() == 0 {
        None
    } else {
        Some(join(&buf, "\n"))
    }
}

/// The first top-of-file `#` comment block of a Nix source, with the
/// leading `#` and one following space removed from each line.
pub fn extract_first_comment(source: &str) -> (r: Option<String>)
    ensures
        crate::text::opt_view(r) == first_comment_spec(nix_top_tokens(source@)),
{
    let tokens = top_level_tokens(source);
    first_comment_block(&tokens)
}

/// `s` without its trailing `c` characters (`str::trim_end_matches` with
/// a char).
pub open spec fn skip_trailing(s: Seq<char>, c: char) -> Seq<char>
    decreases s.len(),
{
    if s.len() > 0 && s.last() == c {
        skip_trailing(s.drop_last(), c)
    } else {
        s
    }
}

fn trim_end_char(s: &str, c: char) -> (r: String)
    ensures
        r@ == skip_trailing(s@, c),
{
    let v = chars_of(s);
    let mut b: usize = v.len();
    assert(v@.take(b as int) == v@);
    while b > 0 && v[b - 1] == c
        invariant
            0 <= b <= v@.len(),
            skip_trailing(v@, c) == skip_trailing(v@.take(b as int), c),
        decreases b,
    {
        assert(v@.take(b as int).drop_last() == v@.take(b - 1));
        b -= 1;
    }
    crate::text::string_of_range(v.as_slice(), 0, b)
}

/// Dotted module path of `file` under `base`: `prefix` followed by its
/// components joined with dots, or `prefix` without its trailing dots
/// when there are none.
pub open spec fn dotted_module_path(file: Seq<char>, base: Seq<char>, prefix: Seq<char>) -> Seq<char> {
    let parts = crate::mdx_parser::module_parts(file, base);
    if parts.len() == 0 {
        skip_trailing(prefix, '.')
    } else {
        prefix + join_with(parts, "."@)
    }
}

/// `dnf/modules/standard/service/foo.nix` under `dnf/modules` with prefix
/// `darkone.` gives `darkone.standard.service.foo`.
pub fn extract_module_path(file: &str, base: &str, prefix: &str) -> (r: String)
    ensures
        r@ == dotted_module_path(file@, base@, prefix@),
{
    let parts = crate::mdx_parser::relative_parts(file, base);
    if parts.len() == 0 {
        return trim_end_char(prefix, '.');
    }
    let mut r = owned(prefix);
    let j = join(&parts, ".");
    push_str(&mut r, j.as_str());
    r
}

/// The module sources among the files found under a directory, sorted by
/// path: the `.nix` files other than `default.nix`.
pub fn extract_nix_files(files: &Vec<String>) -> (r: Vec<String>)
    ensures
        crate::mdx_parser::paths_sorted(views_of(r@)),
        views_of(r@).to_multiset() == crate::mdx_parser::module_files(views_of(files@)).to_multiset(),
{
    crate::mdx_parser::extract_nix_files(files)
}

} // verus!
