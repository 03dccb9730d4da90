//! Modules reference pages: one index page listing the categories, plus one
//! page per non-empty category holding the documentation of its modules.
use vstd::prelude::*;
use crate::mdx_writer::{escape, escaped};
use crate::nix_parser::{NixNode, NixOption};
use crate::error::{NixError, Result};
use crate::strmap::{insert_entry, lookup, map_vals, StrMap};
use crate::text::{
    chars_of, decimal_nat, has_prefix, lines, lines_of, owned, push_char, push_str, repeat_seq, split_char, trim, trim_str,
    views_of,
};

verus! {

/// A module of a category: its dotted path, its leading comment and its
/// options.
pub struct ModuleEntry {
    pub path: String,
    pub comment: Option<String>,
    pub options: Vec<NixOption>,
}

// ─── description text ───────────────────────────────────────────────────────

/// `s` without leading `"` characters.
pub open spec fn trim_quotes_start(s: Seq<char>) -> Seq<char>
    decreases s.len(),
{
    if s.len() > 0 && s[0] == '"' {
        trim_quotes_start(s.drop_first())
    } else {
        s
    }
}

/// `s` without trailing `"` characters.
pub open spec fn trim_quotes_end(s: Seq<char>) -> Seq<char>
    decreases s.len(),
{
    if s.len() > 0 && s.last() == '"' {
        trim_quotes_end(s.drop_last())
    } else {
        s
    }
}

/// `str::trim_matches('"')`.
pub open spec fn trim_quotes(s: Seq<char>) -> Seq<char> {
    trim_quotes_end(trim_quotes_start(s))
}

/// `s` without surrounding `"` characters.
pub fn strip_quotes(s: &str) -> (r: String)
    ensures
        r@ == trim_quotes(s@),
{
    let v = chars_of(s);
    let n = v.len();
    let mut a: usize = 0;
    assert(v@.skip(0) == v@);
    while a < n && v[a] == '"'
        invariant
            0 <= a <= n,
            n == v@.len(),
            trim_quotes_start(v@) == trim_quotes_start(v@.skip(a as int)),
        decreases n - a,
    {
        assert(v@.skip(a as int).drop_first() == v@.skip(a + 1));
        a += 1;
    }
    assert(trim_quotes_start(v@) == v@.skip(a as int)) by {
        if a < n {
            assert(v@.skip(a as int)[0] == v@[a as int]);
        }
    }
    let ghost t = v@.skip(a as int);
    let mut b: usize = n;
    assert(t.take(b - a) == t);
    while b > a && v[b - 1] == '"'
        invariant
            a <= b <= n,
            n == v@.len(),
            t == v@.skip(a as int),
            trim_quotes_end(t) == trim_quotes_end(t.take(b - a)),
        decreases b - a,
    {
        assert(t.take(b - a).drop_last() == t.take(b - a - 1));
        assert(t.take(b - a).last() == v@[b - 1]);
        b -= 1;
    }
    assert(trim_quotes_end(t) == t.take(b - a)) by {
        if b > a {
            assert(t.take(b - a).last() == v@[b - 1]);
        }
    }
    assert(t.take(b - a) == v@.subrange(a as int, b as int));
    crate::text::string_of_range(v.as_slice(), a, b)
}

/// The lines after the first, each preceded by a line break and, when not
/// blank, indented under the bullet.
pub open spec fn cont_tail(ls: Seq<Seq<char>>, indent: Seq<char>) -> Seq<char>
    decreases ls.len(),
{
    if ls.len() == 0 {
        Seq::empty()
    } else {
        cont_tail(ls.drop_last(), indent) + "\n"@ + if trim(ls.last()).len() > 0 {
            indent + "  "@ + ls.last()
        } else {
            Seq::empty()
        }
    }
}

/// A multi-line description kept inside its bullet: the lines after the
/// first are indented; blank ones stay empty.
pub open spec fn indented(text: Seq<char>, indent: Seq<char>) -> Seq<char> {
    let ls = lines_of(text);
    if ls.len() == 0 {
        Seq::empty()
    } else {
        ls[0] + cont_tail(ls.drop_first(), indent)
    }
}

/// Indents the lines after the first one so that a multi-paragraph
/// description stays inside its bullet.
pub fn indent_continuation(text: &str, indent: &str) -> (r: String)
    ensures
        r@ == indented(text@, indent@),
{
    let ls = lines(text);
    let ghost lv = lines_of(text@);
    if ls.len() == 0 {
        return String::new();
    }
    let mut out = ls[0].clone();
    assert(lv[0] == ls@[0]@);
    let mut i: usize = 1;
    while i < ls.len()
        invariant
            1 <= i <= ls@.len(),
            views_of(ls@) == lv,
            out@ == lv[0] + cont_tail(lv.drop_first().take(i - 1), indent@),
        decreases ls@.len() - i,
    {
        let line = ls[i].as_str();
        assert(lv.drop_first().take(i as int).drop_last() == lv.drop_first().take(i - 1));
        assert(lv.drop_first().take(i as int).last() == line@);
        push_str(&mut out, "\n");
        if chars_of(trim_str(line).as_str()).len() > 0 {
            push_str(&mut out, indent);
            push_str(&mut out, "  ");
            push_str(&mut out, line);
        }
        i += 1;
    }
    assert(lv.drop_first().take(ls@.len() - 1) == lv.drop_first());
    out
}

/// Markdown-safe form of `c` outside code spans, given whether a code span
/// is open.
pub open spec fn angle_escaped(text: Seq<char>) -> (Seq<char>, bool)
    decreases text.len(),
{
    if text.len() == 0 {
        (Seq::empty(), false)
    } else {
        let (out, in_code) = angle_escaped(text.drop_last());
        let c = text.last();
        if c == '`' {
            (out.push(c), !in_code)
        } else if c == '<' && !in_code {
            (out + "&lt;"@, in_code)
        } else if c == '>' && !in_code {
            (out + "&gt;"@, in_code)
        } else {
            (out.push(c), in_code)
        }
    }
}

/// Law: text without code spans comes out with no `<` and no `>`.
pub proof fn law_no_angle_brackets_outside_code(text: Seq<char>)
    requires
        forall|i: int| 0 <= i < text.len() ==> #[trigger] text[i] != '`',
    ensures
        !angle_escaped(text).1,
        forall|i: int| 0 <= i < angle_escaped(text).0.len() ==> #[trigger] angle_escaped(text).0[i] != '<'
            && angle_escaped(text).0[i] != '>',
    decreases text.len(),
{
    reveal_strlit("&lt;");
    reveal_strlit("&gt;");
    if text.len() > 0 {
        let t = text.drop_last();
        assert forall|i: int| 0 <= i < t.len() implies #[trigger] t[i] != '`' by {
            assert(t[i] == text[i]);
        }
        law_no_angle_brackets_outside_code(t);
        let a = angle_escaped(t).0;
        let c = text.last();
        assert(c == text[text.len() - 1]);
        let b = if c == '<' {
            "&lt;"@
        } else if c == '>' {
            "&gt;"@
        } else {
            seq![c]
        };
        assert(angle_escaped(text).0 == a + b);
        assert forall|i: int| 0 <= i < (a + b).len() implies #[trigger] (a + b)[i] != '<' && (a + b)[i] != '>' by {
            if i < a.len() {
                assert((a + b)[i] == a[i]);
            } else {
                assert((a + b)[i] == b[i - a.len()]);
            }
        }
    }
}

/// Escapes `<` and `>` outside backtick-delimited code spans, so that bare
/// angle sequences like `<->` are not read as JSX tags.
pub fn escape_angle_brackets(text: &str) -> (r: String)
    ensures
        r@ == angle_escaped(text@).0,
{
    let v = chars_of(text);
    let mut out = String::new();
    let mut in_code = false;
    let mut i: usize = 0;
    while i < v.len()
        invariant
            0 <= i <= v@.len(),
            v@ == text@,
            (out@, in_code) == angle_escaped(v@.take(i as int)),
        decreases v@.len() - i,
    {
        let c = v[i];
        assert(v@.take(i + 1).drop_last() == v@.take(i as int));
        if c == '`' {
            in_code = !in_code;
            push_char(&mut out, c);
        } else if c == '<' && !in_code {
            push_str(&mut out, "&lt;");
        } else if c == '>' && !in_code {
            push_str(&mut out, "&gt;");
        } else {
            push_char(&mut out, c);
        }
        i += 1;
    }
    assert(v@.take(v@.len() as int) == v@);
    out
}

// ─── options ────────────────────────────────────────────────────────────────

/// Value shown for an option in the code sample: its example, else its
/// default, else `null`.
pub open spec fn code_value_spec(opt: NixOption) -> Seq<char> {
    if opt.example is Some && opt.example->0@.len() > 0 {
        opt.example->0@
    } else if opt.default is Some && opt.default->0@.len() > 0 {
        opt.default->0@
    } else {
        "null"@
    }
}

/// Law: the code sample shows an option's example whenever it has a
/// non-empty one, whatever its default; without one it shows the non-empty
/// default; with neither, `null`. So two options that differ in their
/// default alone show the same value when they have an example.
pub proof fn law_code_value_prefers_example(opt: NixOption, other_default: Option<String>)
    ensures
        opt.example is Some && opt.example->0@.len() > 0 ==> code_value_spec(opt) == opt.example->0@,
        opt.example is Some && opt.example->0@.len() > 0 ==> code_value_spec(
            NixOption { default: other_default, ..opt },
        ) == code_value_spec(opt),
        !(opt.example is Some && opt.example->0@.len() > 0) && opt.default is Some && opt.default->0@.len() > 0
            ==> code_value_spec(opt) == opt.default->0@,
        !(opt.example is Some && opt.example->0@.len() > 0) && !(opt.default is Some && opt.default->0@.len() > 0)
            ==> code_value_spec(opt) == "null"@,
{
}

pub fn code_value(opt: &NixOption) -> (r: String)
    ensures
        r@ == code_value_spec(*opt),
{
    if let Some(ex) = &opt.example {
        if chars_of(ex.as_str()).len() > 0 {
            return ex.clone();
        }
    }
    if let Some(d) = &opt.default {
        if chars_of(d.as_str()).len() > 0 {
            return d.clone();
        }
    }
    owned("null")
}

/// Indentation of an option of level `level`.
pub open spec fn level_indent(level: int) -> Seq<char> {
    repeat_seq("  "@, (level - 1) as nat)
}

/// The description part of a bullet: a space then the description, trimmed
/// of white space and quotes, escaped, continuation lines indented.
pub open spec fn desc_part(desc: Option<String>, indent: Seq<char>) -> Seq<char> {
    match desc {
        Some(d) => {
            let t = trim_quotes(trim(d@));
            if t.len() > 0 {
                " "@ + indented(escaped(t), indent)
            } else {
                Seq::empty()
            }
        },
        None => Seq::empty(),
    }
}

/// The bullet of an option: `* **name** `type` description`.
pub open spec fn bullet_line(opt: NixOption) -> Seq<char> {
    let indent = level_indent(opt.level as int);
    indent + "* **"@ + escaped(opt.name@) + "**"@ + (if opt.type_label@.len() > 0 {
        " `"@ + opt.type_label@ + "`"@
    } else {
        Seq::empty()
    }) + desc_part(opt.description, indent) + "\n"@
}

/// The name remembered at `level`, or nothing.
pub open spec fn name_at(names: Seq<Seq<char>>, level: int) -> Seq<char> {
    if 0 <= level < names.len() {
        names[level]
    } else {
        Seq::empty()
    }
}

/// The parents of an option of `level` after one of `last`: diving in, the
/// names remembered at the levels in between become parents; coming back
/// out, deeper parents are dropped.
pub open spec fn opened_for(opened: Seq<Seq<char>>, names: Seq<Seq<char>>, level: int, last: int) -> Seq<Seq<char>> {
    if level > last {
        if opened.len() < level - 1 {
            opened + Seq::new((level - 1 - opened.len()) as nat, |j: int| name_at(names, opened.len() + 1 + j))
        } else {
            opened
        }
    } else if opened.len() > level - 1 {
        opened.take(level - 1)
    } else {
        opened
    }
}

/// The names by level after remembering `name` at `level`.
pub open spec fn names_for(names: Seq<Seq<char>>, level: int, name: Seq<char>) -> Seq<Seq<char>> {
    let ext = if names.len() <= level {
        names + Seq::new((level + 1 - names.len()) as nat, |_j: int| Seq::<char>::empty())
    } else {
        names
    };
    ext.update(level, name)
}

/// Each parent followed by a dot.
pub open spec fn dotted_parents(opened: Seq<Seq<char>>) -> Seq<char>
    decreases opened.len(),
{
    if opened.len() == 0 {
        Seq::empty()
    } else {
        dotted_parents(opened.drop_last()) + opened.last() + "."@
    }
}

/// `(parents, last level, names by level, bullets, code)` while rendering.
pub type RenderState = (Seq<Seq<char>>, int, Seq<Seq<char>>, Seq<char>, Seq<char>);

/// An option that opens a submodule whose body follows gets no code line.
pub open spec fn skips_code(opts: Seq<NixOption>, i: int) -> bool {
    (opts[i].type_label@ == "submodule"@ || opts[i].type_label@ == "attrs"@) && i + 1 < opts.len() && opts[i + 1].level
        > opts[i].level
}

/// The rendering state after the first `k` options.
pub open spec fn render_fold(opts: Seq<NixOption>, k: int, prefix: Seq<char>) -> RenderState
    decreases k,
{
    if k <= 0 {
        (Seq::empty(), 1, seq![Seq::empty()], Seq::empty(), Seq::empty())
    } else {
        let (opened, last, names, bullets, code) = render_fold(opts, k - 1, prefix);
        let opt = opts[k - 1];
        let level = opt.level as int;
        let opened1 = opened_for(opened, names, level, last);
        let names1 = names_for(names, level, opt.name@);
        let bullets1 = bullets + bullet_line(opt);
        if skips_code(opts, k - 1) {
            (opened1, level, names1, bullets1, code)
        } else {
            (
                opened1,
                level,
                names1,
                bullets1,
                code + prefix + dotted_parents(opened1) + opt.name@ + " = "@ + code_value_spec(opt) + ";\n"@,
            )
        }
    }
}

/// The options of a module: one bullet each, then a Nix sample setting
/// every option (wrapped in `<path> = { … };` when there are several).
pub open spec fn options_text(path: Seq<char>, opts: Seq<NixOption>) -> Seq<char> {
    if opts.len() == 0 {
        Seq::empty()
    } else {
        let multi = opts.len() > 1;
        let prefix = if multi {
            "  "@
        } else {
            path + "."@
        };
        let st = render_fold(opts, opts.len() as int, prefix);
        st.3 + "\n```nix\n"@ + (if multi {
            path + " = {\n"@
        } else {
            Seq::empty()
        }) + st.4 + (if multi {
            "};\n"@
        } else {
            Seq::empty()
        }) + "```\n\n"@
    }
}

/// Every option has a level of at least one.
pub open spec fn levels_ok(opts: Seq<NixOption>) -> bool {
    forall|i: int| 0 <= i < opts.len() ==> (#[trigger] opts[i]).level >= 1
}

/// Appends `"  "` repeated `n` times.
fn push_indent(out: &mut String, n: usize)
    ensures
        final(out)@ == old(out)@ + repeat_seq("  "@, n as nat),
{
    let mut k: usize = 0;
    while k < n
        invariant
            0 <= k <= n,
            out@ == old(out)@ + repeat_seq("  "@, k as nat),
        decreases n - k,
    {
        push_str(out, "  ");
        k += 1;
    }
}

/// The description part of a bullet.
fn desc_text(desc: &Option<String>, indent: &str) -> (r: String)
    ensures
        r@ == desc_part(*desc, indent@),
{
    match desc {
        Some(d) => {
            let t = trim_str(d.as_str());
            let trimmed = strip_quotes(t.as_str());
            if chars_of(trimmed.as_str()).len() > 0 {
                let e = escape(trimmed.as_str());
                let c = indent_continuation(e.as_str(), indent);
                let mut r = owned(" ");
                push_str(&mut r, c.as_str());
                r
            } else {
                String::new()
            }
        },
        None => String::new(),
    }
}

/// The type part of a bullet.
fn type_text(label: &str) -> (r: String)
    ensures
        r@ == (if label@.len() > 0 {
            " `"@ + label@ + "`"@
        } else {
            Seq::empty()
        }),
{
    if chars_of(label).len() > 0 {
        let mut r = owned(" `");
        push_str(&mut r, label);
        push_str(&mut r, "`");
        r
    } else {
        String::new()
    }
}

/// Appends the bullet of `opt`.
fn push_bullet(out: &mut String, opt: &NixOption)
    requires
        opt.level >= 1,
    ensures
        final(out)@ == old(out)@ + bullet_line(*opt),
{
    let mut indent = String::new();
    push_indent(&mut indent, opt.level - 1);
    assert(indent@ == level_indent(opt.level as int));
    let name = escape(opt.name.as_str());
    let ty = type_text(opt.type_label.as_str());
    let desc = desc_text(&opt.description, indent.as_str());
    let ghost o = out@;
    push_str(out, indent.as_str());
    push_str(out, "* **");
    push_str(out, name.as_str());
    push_str(out, "**");
    push_str(out, ty.as_str());
    push_str(out, desc.as_str());
    push_str(out, "\n");
    assert(out@ =~= o + (indent@ + "* **"@ + name@ + "**"@ + ty@ + desc@ + "\n"@));
}

/// Appends each parent followed by a dot.
fn push_parents(out: &mut String, opened: &Vec<String>)
    ensures
        final(out)@ == old(out)@ + dotted_parents(views_of(opened@)),
{
    let ghost ov = views_of(opened@);
    let mut k: usize = 0;
    while k < opened.len()
        invariant
            0 <= k <= opened@.len(),
            ov == views_of(opened@),
            out@ == old(out)@ + dotted_parents(ov.take(k as int)),
        decreases opened@.len() - k,
    {
        assert(ov.take(k + 1).drop_last() == ov.take(k as int));
        assert(ov.take(k + 1).last() == opened@[k as int]@);
        push_str(out, opened[k].as_str());
        push_str(out, ".");
        k += 1;
    }
    assert(ov.take(opened@.len() as int) == ov);
}

/// Moves the parents from those of an option of level `last` to those of
/// one of level `level`.
fn advance_opened(opened: &mut Vec<String>, names: &Vec<String>, level: usize, last: usize)
    requires
        level >= 1,
    ensures
        views_of(final(opened)@) == opened_for(views_of(old(opened)@), views_of(names@), level as int, last as int),
{
    let ghost o0 = views_of(opened@);
    let ghost nv = views_of(names@);
    if level > last {
        while opened.len() < level - 1
            invariant
                o0.len() <= opened@.len() <= (if o0.len() < level - 1 { level - 1 } else { o0.len() as int }),
                views_of(opened@) == o0 + Seq::new((opened@.len() - o0.len()) as nat, |j: int| name_at(nv, o0.len() + 1 + j)),
                nv == views_of(names@),
                level >= 1,
            decreases level - 1 - opened@.len(),
        {
            let idx = opened.len() + 1;
            let parent = if idx < names.len() {
                names[idx].clone()
            } else {
                String::new()
            };
            let ghost before = views_of(opened@);
            opened.push(parent);
            proof {
                assert(parent@ == name_at(nv, idx as int));
                assert(views_of(opened@) == before.push(parent@));
                assert(views_of(opened@) =~= o0 + Seq::new((opened@.len() - o0.len()) as nat, |j: int| name_at(nv, o0.len() + 1 + j)));
            }
        }
        proof {
            if o0.len() >= level - 1 {
                assert(views_of(opened@) =~= o0);
            }
        }
    } else {
        let ghost before = views_of(opened@);
        opened.truncate(level - 1);
        proof {
            if before.len() > level - 1 {
                assert(views_of(opened@) =~= before.take(level - 1));
            } else {
                assert(views_of(opened@) =~= before);
            }
        }
    }
}

/// Remembers `name` as the name at `level`.
fn remember_name(names: &mut Vec<String>, level: usize, name: &String)
    ensures
        views_of(final(names)@) == names_for(views_of(old(names)@), level as int, name@),
{
    let ghost n0 = views_of(names@);
    while names.len() <= level
        invariant
            n0.len() <= names@.len() <= (if n0.len() <= level { level + 1 } else { n0.len() as int }),
            views_of(names@) == n0 + Seq::new((names@.len() - n0.len()) as nat, |_j: int| Seq::<char>::empty()),
        decreases level + 1 - names@.len(),
    {
        let ghost before = views_of(names@);
        names.push(String::new());
        assert(views_of(names@) == before.push(Seq::<char>::empty()));
        assert(views_of(names@) =~= n0 + Seq::new((names@.len() - n0.len()) as nat, |_j: int| Seq::<char>::empty()));
    }
    proof {
        if n0.len() > level {
            assert(views_of(names@) =~= n0);
        }
    }
    let ghost before = views_of(names@);
    names.set(level, name.clone());
    assert(views_of(names@) =~= before.update(level as int, name@));
}

/// The options of a module: one bullet each, then a Nix sample setting
/// every option; a submodule whose options follow gets no line of its own,
/// its options being written with their parents' dotted prefix.
pub fn render_options(entry: &ModuleEntry) -> (r: String)
    requires
        levels_ok(entry.options@),
    ensures
        r@ == options_text(entry.path@, entry.options@),
{
    let opts = &entry.options;
    let n = opts.len();
    if n == 0 {
        return String::new();
    }
    let multi = n > 1;
    let prefix: String = if multi {
        owned("  ")
    } else {
        let mut p = entry.path.clone();
        push_str(&mut p, ".");
        p
    };
    let mut bullets = String::new();
    let mut code = String::new();
    let mut opened: Vec<String> = Vec::new();
    let mut last: usize = 1;
    let mut names: Vec<String> = Vec::new();
    names.push(String::new());
    proof {
        assert(views_of(opened@) =~= Seq::<Seq<char>>::empty());
        assert(views_of(names@) =~= seq![Seq::<char>::empty()]);
    }
    let mut i: usize = 0;
    while i < n
        invariant
            0 <= i <= n,
            n == opts@.len(),
            levels_ok(opts@),
            render_fold(opts@, i as int, prefix@) == (views_of(opened@), last as int, views_of(names@), bullets@, code@),
        decreases n - i,
    {
        let opt = &opts[i];
        assert(opt.level >= 1);
        let level = opt.level;
        advance_opened(&mut opened, &names, level, last);
        remember_name(&mut names, level, &opt.name);
        push_bullet(&mut bullets, opt);
        let label = opt.type_label.as_str();
        let opens_submodule = crate::text::str_eq(label, "submodule") || crate::text::str_eq(label, "attrs");
        let next_is_deeper = i + 1 < n && opts[i + 1].level > level;
        if !(opens_submodule && next_is_deeper) {
            push_str(&mut code, prefix.as_str());
            push_parents(&mut code, &opened);
            push_str(&mut code, opt.name.as_str());
            push_str(&mut code, " = ");
            let value = code_value(opt);
            push_str(&mut code, value.as_str());
            push_str(&mut code, ";\n");
        }
        last = level;
        i += 1;
    }
    let mut out = bullets;
    push_str(&mut out, "\n```nix\n");
    if multi {
        push_str(&mut out, entry.path.as_str());
        push_str(&mut out, " = {\n");
    }
    push_str(&mut out, code.as_str());
    if multi {
        push_str(&mut out, "};\n");
    }
    push_str(&mut out, "```\n\n");
    out
}

// ─── categories ─────────────────────────────────────────────────────────────

/// Directory (relative to the project root) of the generated reference.
pub const DOC_DIR: &'static str = "doc/src/content/docs/en/ref";

pub const INDEX_FRONTMATTER: &'static str = "---\ntitle: Nixos DNF Modules\nsidebar:\n  order: 1\n  label: Overview\n---\n";

/// Language of the generated pages; internal links carry it.
pub const LANG: &'static str = "en";

pub const INTERNAL_LINK: &'static str = "\\]\\(/([^)]*)\\)";
pub const MODULES_ANCHOR_LINK: &'static str = "\\]\\(/ref/modules/#([^)]+)\\)";
pub const MD_LINK: &'static str = "\\[([^\\]]*)\\]\\([^)]*\\)";
pub const MD_EMPHASIS: &'static str = "[*_~`]";

/// Number of module categories.
pub const CATEGORY_COUNT: usize = 9;

/// A category of modules and where its pages go.
pub struct Category {
    pub title: &'static str,
    pub short: &'static str,
    pub description: &'static str,
    /// Source directory (relative to the project root) of its modules.
    pub relative_dir: &'static str,
    /// Dotted option prefix shared by its modules.
    pub prefix: &'static str,
    /// Page slug: `<slug>.mdx` and `/ref/modules/<slug>/`.
    pub slug: &'static str,
    pub icon: &'static str,
}

pub open spec fn category_spec(i: int) -> Category {
    if i == 0 {
        Category {
            title: "Mixin modules",
            short: "Mixins",
            description: "**A mixin module** defines a collection of standard modules with a consistent common configuration.",
            relative_dir: "dnf/modules/mixin",
            prefix: "darkone.",
            slug: "mixin",
            icon: "&#x1F4E6;",
        }
    } else if i == 1 {
        Category {
            title: "Service modules",
            short: "Services",
            description: "**A service module** provides a ready-to-use service (daemon).",
            relative_dir: "dnf/modules/service",
            prefix: "darkone.service.",
            slug: "service",
            icon: "&#x2728;",
        }
    } else if i == 2 {
        Category {
            title: "System modules",
            short: "System",
            description: "**A system module** manages common, important, and general configurations.",
            relative_dir: "dnf/modules/system",
            prefix: "darkone.system.",
            slug: "system",
            icon: "&#x2699;",
        }
    } else if i == 3 {
        Category {
            title: "Security modules",
            short: "Security",
            description: "**A security module** hardens the system, its programs and functionalities.",
            relative_dir: "dnf/modules/security",
            prefix: "darkone.security.",
            slug: "security",
            icon: "&#x1F511;",
        }
    } else if i == 4 {
        Category {
            title: "CLI applications",
            short: "CLI Apps",
            description: "**A CLI application module** installs terminal applications and their configuration optimized for DNF.",
            relative_dir: "dnf/modules/console",
            prefix: "darkone.console.",
            slug: "console",
            icon: "&#x1F4BB;",
        }
    } else if i == 5 {
        Category {
            title: "GUI applications",
            short: "GUI Apps",
            description: "**A GUI application module** installs graphical applications and their configuration optimized for DNF.",
            relative_dir: "dnf/modules/graphic",
            prefix: "darkone.graphic.",
            slug: "graphic",
            icon: "&#x1F5BC;",
        }
    } else if i == 6 {
        Category {
            title: "Administration modules",
            short: "Administration",
            description: "**A administration module** deals with system-specific functionalities for administrators.",
            relative_dir: "dnf/modules/admin",
            prefix: "darkone.admin.",
            slug: "admin",
            icon: "&#x1F451;",
        }
    } else if i == 7 {
        Category {
            title: "Users management modules",
            short: "Users Management",
            description: "**A users management module** manage user-related processing or special user settings.",
            relative_dir: "dnf/modules/user",
            prefix: "darkone.user.",
            slug: "user",
            icon: "&#x1F464;",
        }
    } else {
        Category {
            title: "Home Manager modules",
            short: "Home Manager",
            description: "**A home manager module** works with [home manager](https://github.com/nix-community/home-manager) profiles.",
            relative_dir: "dnf/home/modules",
            prefix: "darkone.home.",
            slug: "home",
            icon: "&#x1F3E0;",
        }
    }
}

/// Category `i` (in page order).
pub fn category(i: usize) -> (c: Category)
    requires
        i < CATEGORY_COUNT,
    ensures
        c == category_spec(i as int),
{
    if i == 0 {
        Category {
            title: "Mixin modules",
            short: "Mixins",
            description: "**A mixin module** defines a collection of standard modules with a consistent common configuration.",
            relative_dir: "dnf/modules/mixin",
            prefix: "darkone.",
            slug: "mixin",
            icon: "&#x1F4E6;",
        }
    } else if i == 1 {
        Category {
            title: "Service modules",
            short: "Services",
            description: "**A service module** provides a ready-to-use service (daemon).",
            relative_dir: "dnf/modules/service",
            prefix: "darkone.service.",
            slug: "service",
            icon: "&#x2728;",
        }
    } else if i == 2 {
        Category {
            title: "System modules",
            short: "System",
            description: "**A system module** manages common, important, and general configurations.",
            relative_dir: "dnf/modules/system",
            prefix: "darkone.system.",
            slug: "system",
            icon: "&#x2699;",
        }
    } else if i == 3 {
        Category {
            title: "Security modules",
            short: "Security",
            description: "**A security module** hardens the system, its programs and functionalities.",
            relative_dir: "dnf/modules/security",
            prefix: "darkone.security.",
            slug: "security",
            icon: "&#x1F511;",
        }
    } else if i == 4 {
        Category {
            title: "CLI applications",
            short: "CLI Apps",
            description: "**A CLI application module** installs terminal applications and their configuration optimized for DNF.",
            relative_dir: "dnf/modules/console",
            prefix: "darkone.console.",
            slug: "console",
            icon: "&#x1F4BB;",
        }
    } else if i == 5 {
        Category {
            title: "GUI applications",
            short: "GUI Apps",
            description: "**A GUI application module** installs graphical applications and their configuration optimized for DNF.",
            relative_dir: "dnf/modules/graphic",
            prefix: "darkone.graphic.",
            slug: "graphic",
            icon: "&#x1F5BC;",
        }
    } else if i == 6 {
        Category {
            title: "Administration modules",
            short: "Administration",
            description: "**A administration module** deals with system-specific functionalities for administrators.",
            relative_dir: "dnf/modules/admin",
            prefix: "darkone.admin.",
            slug: "admin",
            icon: "&#x1F451;",
        }
    } else if i == 7 {
        Category {
            title: "Users management modules",
            short: "Users Management",
            description: "**A users management module** manage user-related processing or special user settings.",
            relative_dir: "dnf/modules/user",
            prefix: "darkone.user.",
            slug: "user",
            icon: "&#x1F464;",
        }
    } else {
        Category {
            title: "Home Manager modules",
            short: "Home Manager",
            description: "**A home manager module** works with [home manager](https://github.com/nix-community/home-manager) profiles.",
            relative_dir: "dnf/home/modules",
            prefix: "darkone.home.",
            slug: "home",
            icon: "&#x1F3E0;",
        }
    }
}

// ─── slugs and entities ─────────────────────────────────────────────────────

/// What `str::to_lowercase` gives for `s`.
pub uninterp spec fn lowercase(s: Seq<char>) -> Seq<char>;

/// ASCII letters lowered, every other character kept.
pub open spec fn ascii_lower(s: Seq<char>) -> Seq<char> {
    s.map_values(|c: char| if 'A' <= c && c <= 'Z' { ((c as u32) + 32) as char } else { c })
}

/// `str::to_lowercase`. The result is named `lowercase`; of an all-ASCII
/// string it is claimed, as the documentation gives, to be the string with
/// its ASCII letters lowered.
#[verifier::external_body]
fn to_lowercase(s: &str) -> (r: String)
    ensures
        r@ == lowercase(s@),
        (forall|i: int| 0 <= i < s@.len() ==> (#[trigger] s@[i] as u32) < 128) ==> r@ == ascii_lower(s@),
{
    s.to_lowercase()
}

/// A character github-slugger drops.
pub open spec fn slug_stripped(c: char) -> bool {
    ||| c == '\\' || c == '\'' || c == '!' || c == '"' || c == '#' || c == '$' || c == '%' || c == '&'
    ||| c == '(' || c == ')' || c == '*' || c == '+' || c == ',' || c == '.' || c == '/' || c == ':'
    ||| c == ';' || c == '<' || c == '=' || c == '>' || c == '?' || c == '@' || c == '[' || c == ']'
    ||| c == '^' || c == '`' || c == '{' || c == '|' || c == '}' || c == '~'
    ||| ('\u{2000}' <= c && c <= '\u{206F}')
    ||| ('\u{2E00}' <= c && c <= '\u{2E7F}')
}

pub fn is_slug_stripped(c: char) -> (r: bool)
    ensures
        r == slug_stripped(c),
{
    c == '\\' || c == '\'' || c == '!' || c == '"' || c == '#' || c == '$' || c == '%' || c == '&' || c == '('
        || c == ')' || c == '*' || c == '+' || c == ',' || c == '.' || c == '/' || c == ':' || c == ';' || c == '<'
        || c == '=' || c == '>' || c == '?' || c == '@' || c == '[' || c == ']' || c == '^' || c == '`' || c == '{'
        || c == '|' || c == '}' || c == '~' || ('\u{2000}' <= c && c <= '\u{206F}') || ('\u{2E00}' <= c && c
        <= '\u{2E7F}')
}

/// Slug of already-lowered text: spaces become hyphens, stripped
/// punctuation goes.
pub open spec fn slug_of(s: Seq<char>) -> Seq<char>
    decreases s.len(),
{
    if s.len() == 0 {
        Seq::empty()
    } else {
        let c = s.last();
        slug_of(s.drop_last()) + if c == ' ' {
            seq!['-']
        } else if slug_stripped(c) {
            Seq::empty()
        } else {
            seq![c]
        }
    }
}

/// A character a slug keeps as it is: an ASCII letter or digit, `-` or `_`.
pub open spec fn slug_word_char(c: char) -> bool {
    ||| ('a' <= c && c <= 'z')
    ||| ('A' <= c && c <= 'Z')
    ||| ('0' <= c && c <= '9')
    ||| c == '-'
    ||| c == '_'
}

/// The slug of two texts one after the other is their slugs one after the
/// other.
pub proof fn lemma_slug_concat(a: Seq<char>, b: Seq<char>)
    ensures
        slug_of(a + b) == slug_of(a) + slug_of(b),
    decreases b.len(),
{
    if b.len() > 0 {
        lemma_slug_concat(a, b.drop_last());
        assert((a + b).drop_last() =~= a + b.drop_last());
        assert((a + b).last() == b.last());
    } else {
        assert(a + b =~= a);
    }
}

/// Law: a slug keeps every ASCII letter, digit, hyphen and underscore of
/// the text, in order, and turns each space into a hyphen; so a text made
/// of those alone gives itself with its spaces as hyphens.
pub proof fn law_slug_keeps_word_chars(s: Seq<char>)
    requires
        forall|i: int| 0 <= i < s.len() ==> slug_word_char(#[trigger] s[i]) || s[i] == ' ',
    ensures
        slug_of(s) == s.map_values(|c: char| if c == ' ' { '-' } else { c }),
    decreases s.len(),
{
    if s.len() > 0 {
        let d = s.drop_last();
        assert forall|i: int| 0 <= i < d.len() implies slug_word_char(#[trigger] d[i]) || d[i] == ' ' by {
            assert(d[i] == s[i]);
        }
        law_slug_keeps_word_chars(d);
        let c = s.last();
        assert(slug_word_char(s[s.len() - 1]) || s[s.len() - 1] == ' ');
        assert(!slug_stripped(c) || c == ' ');
        assert(s.map_values(|c: char| if c == ' ' { '-' } else { c }) =~= d.map_values(
            |c: char| if c == ' ' { '-' } else { c },
        ).push(if c == ' ' { '-' } else { c }));
    } else {
        assert(s.map_values(|c: char| if c == ' ' { '-' } else { c }) =~= Seq::<char>::empty());
    }
}

/// Law: a slug holds none of the punctuation github-slugger strips (the
/// ASCII marks other than `-` and `_`, and the general and supplemental
/// punctuation blocks), and no space.
pub proof fn law_slug_drops_punctuation(s: Seq<char>)
    ensures
        forall|i: int| 0 <= i < slug_of(s).len() ==> {
            let c = #[trigger] slug_of(s)[i];
            &&& c != ' '
            &&& !(c == '!' || c == '"' || c == '#' || c == '$' || c == '%' || c == '&' || c == '\'' || c == '('
                || c == ')' || c == '*' || c == '+' || c == ',' || c == '.' || c == '/')
            &&& !(c == ':' || c == ';' || c == '<' || c == '=' || c == '>' || c == '?' || c == '@')
            &&& !(c == '[' || c == '\\' || c == ']' || c == '^' || c == '`' || c == '{' || c == '|' || c == '}'
                || c == '~')
            &&& !('\u{2000}' <= c && c <= '\u{206F}') && !('\u{2E00}' <= c && c <= '\u{2E7F}')
        },
    decreases s.len(),
{
    if s.len() > 0 {
        law_slug_drops_punctuation(s.drop_last());
        let a = slug_of(s.drop_last());
        let c = s.last();
        let b = if c == ' ' {
            seq!['-']
        } else if slug_stripped(c) {
            Seq::<char>::empty()
        } else {
            seq![c]
        };
        assert(slug_of(s) == a + b);
        assert forall|i: int| 0 <= i < slug_of(s).len() implies #[trigger] slug_of(s)[i] == (if i < a.len() {
            a[i]
        } else {
            b[i - a.len()]
        }) by {}
    }
}

/// github-slugger over plain heading text: lowercase, drop the punctuation
/// it strips, spaces to hyphens.
pub fn gh_slug(text: &str) -> (r: String)
    ensures
        r@ == slug_of(lowercase(text@)),
        (forall|i: int| 0 <= i < text@.len() ==> (#[trigger] text@[i] as u32) < 128) ==> r@ == slug_of(ascii_lower(text@)),
{
    let lower = to_lowercase(text);
    let v = chars_of(lower.as_str());
    let mut out = String::new();
    let mut i: usize = 0;
    while i < v.len()
        invariant
            0 <= i <= v@.len(),
            v@ == lower@,
            out@ == slug_of(v@.take(i as int)),
        decreases v@.len() - i,
    {
        let c = v[i];
        assert(v@.take(i + 1).drop_last() == v@.take(i as int));
        if c == ' ' {
            push_char(&mut out, '-');
        } else if !is_slug_stripped(c) {
            push_char(&mut out, c);
        }
        i += 1;
    }
    assert(v@.take(v@.len() as int) == v@);
    out
}

/// Anchor of a `### <icon> <path>` heading: the emoji goes, its separating
/// space stays as a leading hyphen.
pub open spec fn module_anchor_spec(path: Seq<char>) -> Seq<char> {
    seq!['-'] + slug_of(lowercase(path))
}

pub fn module_anchor(path: &str) -> (r: String)
    ensures
        r@ == module_anchor_spec(path@),
        (forall|i: int| 0 <= i < path@.len() ==> (#[trigger] path@[i] as u32) < 128) ==> r@ == seq!['-'] + slug_of(
            ascii_lower(path@),
        ),
{
    proof {
        reveal_strlit("-");
    }
    let mut r = owned("-");
    assert(r@ =~= seq!['-']);
    let s = gh_slug(path);
    push_str(&mut r, s.as_str());
    r
}

pub open spec fn hex_digit(c: char) -> Option<nat> {
    if '0' <= c && c <= '9' {
        Some((c as u32 - 48) as nat)
    } else if 'a' <= c && c <= 'f' {
        Some((c as u32 - 87) as nat)
    } else if 'A' <= c && c <= 'F' {
        Some((c as u32 - 55) as nat)
    } else {
        None
    }
}

/// Value of a run of hexadecimal digits.
pub open spec fn hex_value(s: Seq<char>) -> nat
    decreases s.len(),
{
    if s.len() == 0 {
        0
    } else {
        hex_value(s.drop_last()) * 16 + match hex_digit(s.last()) {
            Some(d) => d,
            None => 0,
        }
    }
}

/// Every character of `s` is a hexadecimal digit.
pub open spec fn all_hex(s: Seq<char>) -> bool {
    forall|i: int| 0 <= i < s.len() ==> #[trigger] hex_digit(s[i]) is Some
}

/// What `u32::from_str_radix(s, 16)` accepts: an optional `+`, then one or
/// more hexadecimal digits whose value fits in a `u32`.
pub open spec fn parse_hex(s: Seq<char>) -> Option<u32> {
    let body = if s.len() > 0 && s[0] == '+' {
        s.drop_first()
    } else {
        s
    };
    if body.len() > 0 && all_hex(body) && hex_value(body) <= u32::MAX {
        Some(hex_value(body) as u32)
    } else {
        None
    }
}

/// `u32::from_str_radix(s, 16)`.
pub fn parse_hex_u32(v: &[char]) -> (r: Option<u32>)
    ensures
        r == parse_hex(v@),
{
    let start: usize = if v.len() > 0 && v[0] == '+' { 1 } else { 0 };
    let ghost body = if v@.len() > 0 && v@[0] == '+' { v@.drop_first() } else { v@ };
    assert(body == v@.skip(start as int));
    if start >= v.len() {
        return None;
    }
    let mut acc: u64 = 0;
    let mut i: usize = start;
    while i < v.len()
        invariant
            start <= i <= v@.len(),
            body == v@.skip(start as int),
            body == (if v@.len() > 0 && v@[0] == '+' { v@.drop_first() } else { v@ }),
            acc <= u32::MAX,
            forall|j: int| 0 <= j < i - start ==> #[trigger] hex_digit(body[j]) is Some,
            acc == hex_value(body.take(i - start)),
        decreases v.len() - i,
    {
        let c = v[i];
        assert(body[i - start] == c);
        let d: u64 = if '0' <= c && c <= '9' {
            (c as u32 - 48) as u64
        } else if 'a' <= c && c <= 'f' {
            (c as u32 - 87) as u64
        } else if 'A' <= c && c <= 'F' {
            (c as u32 - 55) as u64
        } else {
            assert(hex_digit(body[i - start]) is None);
            assert(!all_hex(body));
            return None;
        };
        proof {
            assert(body.take(i - start + 1).drop_last() == body.take(i - start));
            assert(body.take(i - start + 1).last() == c);
            assert(hex_digit(c) == Some(d as nat));
            assert(hex_value(body.take(i - start + 1)) == acc * 16 + d);
        }
        let next: u64 = acc * 16 + d;
        if next > 0xFFFF_FFFFu64 {
            proof {
                lemma_hex_monotone(body, i - start + 1);
                assert(body.take(body.len() as int) == body);
            }
            return None;
        }
        acc = next;
        i += 1;
    }
    assert(body.take(i - start) == body);
    Some(acc as u32)
}

/// A longer run of hexadecimal digits is worth at least as much.
proof fn lemma_hex_monotone(s: Seq<char>, k: int)
    requires
        0 <= k <= s.len(),
    ensures
        hex_value(s.take(k)) <= hex_value(s),
    decreases s.len() - k,
{
    if k < s.len() {
        lemma_hex_monotone(s, k + 1);
        assert(s.take(k + 1).drop_last() == s.take(k));
    } else {
        assert(s.take(k) == s);
    }
}

/// `char::from_u32`: the character of a Unicode scalar value.
#[verifier::external_body]
fn char_from_u32(v: u32) -> (r: Option<char>)
    ensures
        r == (if v <= 0xD7FF || (0xE000 <= v && v <= 0x10FFFF) {
            Some(v as char)
        } else {
            None
        }),
{
    char::from_u32(v)
}

/// The character of a numeric HTML entity (`&#x1F4E6;`); anything else is
/// kept as it is.
pub open spec fn entity_char(e: Seq<char>) -> Seq<char> {
    if e.len() >= 4 && e.take(3) == "&#x"@ && e.last() == ';' {
        match parse_hex(e.subrange(3, e.len() - 1)) {
            Some(v) => if v <= 0xD7FF || (0xE000 <= v && v <= 0x10FFFF) {
                seq![v as char]
            } else {
                e
            },
            None => e,
        }
    } else {
        e
    }
}

/// Turns a numeric HTML entity into its character, so that it renders in
/// a JSX attribute.
pub fn entity_to_char(entity: &str) -> (r: String)
    ensures
        r@ == entity_char(entity@),
{
    proof {
        reveal_strlit("&#x");
    }
    let v = chars_of(entity);
    let n = v.len();
    if n >= 4 && v[0] == '&' && v[1] == '#' && v[2] == 'x' && v[n - 1] == ';' {
        assert(v@.take(3) =~= "&#x"@);
        let hex: Vec<char> = slice_chars(v.as_slice(), 3, n - 1);
        if let Some(value) = parse_hex_u32(hex.as_slice()) {
            if let Some(c) = char_from_u32(value) {
                let mut r = String::new();
                push_char(&mut r, c);
                return r;
            }
        }
        return owned(entity);
    }
    proof {
        if n >= 4 && v@.take(3) == "&#x"@ {
            assert(v@.take(3)[0] == v@[0] && v@.take(3)[1] == v@[1] && v@.take(3)[2] == v@[2]);
        }
    }
    owned(entity)
}

/// The characters `v[from..to]`.
fn slice_chars(v: &[char], from: usize, to: usize) -> (r: Vec<char>)
    requires
        from <= to <= v@.len(),
    ensures
        r@ == v@.subrange(from as int, to as int),
{
    let mut r: Vec<char> = Vec::new();
    let mut i = from;
    while i < to
        invariant
            from <= i <= to,
            to <= v@.len(),
            r@ == v@.subrange(from as int, i as int),
        decreases to - i,
    {
        r.push(v[i]);
        i += 1;
    }
    r
}

// ─── links ──────────────────────────────────────────────────────────────────

/// What `regex::Regex::new(pattern)` followed by `replace_all(text, rep)`
/// gives: `None` when the pattern does not compile.
pub uninterp spec fn regex_replaced(pattern: Seq<char>, text: Seq<char>, rep: Seq<char>) -> Option<Seq<char>>;

/// Calls `regex::Regex::new(pattern)` and, when it compiles,
/// `Regex::replace_all(text, rep)`. The result is named `regex_replaced`
/// of the three strings.
#[verifier::external_body]
fn regex_replace_all(pattern: &str, text: &str, rep: &str) -> (r: Option<String>)
    ensures
        match r {
            Some(s) => regex_replaced(pattern@, text@, rep@) == Some(s@),
            None => regex_replaced(pattern@, text@, rep@) is None,
        },
{
    match regex::Regex::new(pattern) {
        Ok(re) => Some(re.replace_all(text, rep).into_owned()),
        Err(_) => None,
    }
}

/// Inline Markdown reduced to plain text for a JSX attribute: links keep
/// their text, emphasis and code markers go.
pub open spec fn attr_text_spec(s: Seq<char>) -> Option<Seq<char>> {
    match regex_replaced(MD_LINK@, s, "$1"@) {
        Some(t) => regex_replaced(MD_EMPHASIS@, t, ""@),
        None => None,
    }
}

pub fn attr_text(s: &str) -> (r: Option<String>)
    ensures
        opt_chars(r) == attr_text_spec(s@),
{
    let t = regex_replace_all(MD_LINK, s, "$1")?;
    regex_replace_all(MD_EMPHASIS, t.as_str(), "")
}

/// The characters of an optional string.
pub open spec fn opt_chars(o: Option<String>) -> Option<Seq<char>> {
    match o {
        Some(s) => Some(s@),
        None => None,
    }
}

/// A path whose first segment is a two-letter lowercase locale.
pub open spec fn has_locale(path: Seq<char>) -> bool {
    let first = split_char(path, '/')[0];
    first.len() == 2 && 'a' <= first[0] && first[0] <= 'z' && 'a' <= first[1] && first[1] <= 'z'
}

/// A root-absolute link target with the page locale added when it has
/// none.
pub open spec fn localized_link_spec(path: Seq<char>) -> Seq<char> {
    if has_locale(path) {
        "](/"@ + path + ")"@
    } else {
        "](/"@ + LANG@ + "/"@ + path + ")"@
    }
}

/// Replacement of one internal link `](/<path>)`.
pub fn localized_link(path: &str) -> (r: String)
    ensures
        r@ == localized_link_spec(path@),
{
    let parts = crate::text::split(path, '/');
    proof {
        crate::text::lemma_split_char_nonempty(path@, '/');
    }
    let first = chars_of(parts[0].as_str());
    assert(first@ == split_char(path@, '/')[0]);
    let is_locale = first.len() == 2 && 'a' <= first[0] && first[0] <= 'z' && 'a' <= first[1] && first[1] <= 'z';
    let mut r = owned("](/");
    if !is_locale {
        push_str(&mut r, LANG);
        push_str(&mut r, "/");
    }
    push_str(&mut r, path);
    push_str(&mut r, ")");
    r
}

/// What `regex::Regex::new(pattern)` followed by `replace_all` gives when
/// each match is replaced by `localized_link` of its first capture group:
/// `None` when the pattern does not compile.
pub uninterp spec fn regex_localized(pattern: Seq<char>, text: Seq<char>) -> Option<Seq<char>>;

/// Calls `regex::Regex::new(pattern)` and, when it compiles,
/// `Regex::replace_all` on `text`, each match replaced by `localized_link`
/// of its first capture group. The result is named `regex_localized`.
#[verifier::external_body]
fn regex_localize(pattern: &str, text: &str) -> (r: Option<String>)
    ensures
        match r {
            Some(s) => regex_localized(pattern@, text@) == Some(s@),
            None => regex_localized(pattern@, text@) is None,
        },
{
    match regex::Regex::new(pattern) {
        Ok(re) => Some(
            re.replace_all(text, |caps: &regex::Captures| localized_link(caps.get(1).map_or("", |m| m.as_str())))
                .into_owned(),
        ),
        Err(_) => None,
    }
}

/// Prepends the page locale to root-absolute internal Markdown links
/// written without one; links with a locale, anchors and external URLs are
/// left untouched.
pub fn localize_links(content: &str) -> (r: Option<String>)
    ensures
        opt_chars(r) == regex_localized(INTERNAL_LINK@, content@),
{
    regex_localize(INTERNAL_LINK, content)
}

/// Replacement of one `](/ref/modules/#<anchor>)` link: the anchor's new
/// target when known, else the link unchanged.
pub open spec fn anchor_link_spec(anchors: Seq<(Seq<char>, Seq<char>)>, anchor: Seq<char>, whole: Seq<char>) -> Seq<char> {
    match lookup(anchors, anchor) {
        Some(t) => "]("@ + t + ")"@,
        None => whole,
    }
}

/// The targets of an anchor map.
pub open spec fn anchors_view(anchors: StrMap<String>) -> Seq<(Seq<char>, Seq<char>)> {
    map_vals(anchors@, |s: String| s@)
}

pub fn anchor_link(anchors: &StrMap<String>, anchor: &str, whole: &str) -> (r: String)
    requires
        anchors.wf(),
    ensures
        r@ == anchor_link_spec(anchors_view(*anchors), anchor@, whole@),
{
    proof {
        crate::strmap::lemma_map_vals_lookup(anchors@, anchor@, |s: String| s@);
    }
    match anchors.get(anchor) {
        Some(target) => {
            let mut r = owned("](");
            push_str(&mut r, target.as_str());
            push_str(&mut r, ")");
            r
        },
        None => owned(whole),
    }
}

/// What `regex::Regex::new(pattern)` followed by `replace_all` gives when
/// each match is replaced by `anchor_link` of `anchors`, its first capture
/// group and the whole match: `None` when the pattern does not compile.
pub uninterp spec fn regex_anchored(pattern: Seq<char>, text: Seq<char>, anchors: Seq<(Seq<char>, Seq<char>)>) -> Option<Seq<char>>;

/// Calls `regex::Regex::new(pattern)` and, when it compiles,
/// `Regex::replace_all` on `text`, each match replaced by `anchor_link` of
/// `anchors`, its first capture group and the whole match. The result is
/// named `regex_anchored`.
#[verifier::external_body]
fn regex_rewrite_anchors(pattern: &str, text: &str, anchors: &StrMap<String>) -> (r: Option<String>)
    requires
        anchors.wf(),
    ensures
        match r {
            Some(s) => regex_anchored(pattern@, text@, anchors_view(*anchors)) == Some(s@),
            None => regex_anchored(pattern@, text@, anchors_view(*anchors)) is None,
        },
{
    match regex::Regex::new(pattern) {
        Ok(re) => Some(
            re.replace_all(text, |caps: &regex::Captures| {
                anchor_link(anchors, caps.get(1).map_or("", |m| m.as_str()), caps.get(0).map_or("", |m| m.as_str()))
            }).into_owned(),
        ),
        Err(_) => None,
    }
}

/// Rewrites links to anchors of the former single modules page to the
/// page that now holds them.
pub fn rewrite_cross_links(content: &str, anchors: &StrMap<String>) -> (r: Option<String>)
    requires
        anchors.wf(),
    ensures
        opt_chars(r) == regex_anchored(MODULES_ANCHOR_LINK@, content@, anchors_view(*anchors)),
{
    regex_rewrite_anchors(MODULES_ANCHOR_LINK, content, anchors)
}

/// The document-wide link transforms: anchors of the former single page
/// first, then locales.
pub open spec fn finalized(content: Seq<char>, anchors: Seq<(Seq<char>, Seq<char>)>) -> Option<Seq<char>> {
    match regex_anchored(MODULES_ANCHOR_LINK@, content, anchors) {
        Some(t) => regex_localized(INTERNAL_LINK@, t),
        None => None,
    }
}

pub fn finalize(content: &str, anchors: &StrMap<String>) -> (r: Option<String>)
    requires
        anchors.wf(),
    ensures
        opt_chars(r) == finalized(content@, anchors_view(*anchors)),
{
    let t = rewrite_cross_links(content, anchors)?;
    localize_links(t.as_str())
}

// ─── pages ──────────────────────────────────────────────────────────────────

/// A category together with the modules collected from its directory.
pub struct CollectedCategory {
    pub category: Category,
    pub entries: Vec<ModuleEntry>,
}

/// A generated page: its path relative to the project root and its
/// content.
pub struct Page {
    pub rel_path: String,
    pub content: String,
}

/// Every option of every module has a level of at least one.
pub open spec fn entries_ok(es: Seq<ModuleEntry>) -> bool {
    forall|i: int| 0 <= i < es.len() ==> levels_ok((#[trigger] es[i]).options@)
}

/// The documentation of one module: heading, leading comment (angle
/// brackets escaped outside code), options, rule.
pub open spec fn module_text(e: ModuleEntry, icon: Seq<char>) -> Seq<char> {
    "### "@ + icon + " "@ + e.path@ + "\n\n"@ + (match e.comment {
        Some(c) => angle_escaped(c@).0 + "\n\n"@,
        None => Seq::empty(),
    }) + options_text(e.path@, e.options@) + "<hr/>\n\n"@
}

pub fn render_module(entry: &ModuleEntry, icon: &str) -> (r: String)
    requires
        levels_ok(entry.options@),
    ensures
        r@ == module_text(*entry, icon@),
{
    let mut out = owned("### ");
    push_str(&mut out, icon);
    push_str(&mut out, " ");
    push_str(&mut out, entry.path.as_str());
    push_str(&mut out, "\n\n");
    let ghost head = out@;
    if let Some(c) = &entry.comment {
        let e = escape_angle_brackets(c.as_str());
        push_str(&mut out, e.as_str());
        push_str(&mut out, "\n\n");
    }
    let opts = render_options(entry);
    push_str(&mut out, opts.as_str());
    push_str(&mut out, "<hr/>\n\n");
    out
}

/// The documentation of the modules, one after the other.
pub open spec fn modules_text(es: Seq<ModuleEntry>, icon: Seq<char>) -> Seq<char>
    decreases es.len(),
{
    if es.len() == 0 {
        Seq::empty()
    } else {
        modules_text(es.drop_last(), icon) + module_text(es.last(), icon)
    }
}

/// The page of a category: frontmatter (title, sidebar order and label),
/// the category's description in a note, then its modules.
pub open spec fn category_page_text(c: Category, es: Seq<ModuleEntry>, order: nat) -> Seq<char> {
    "---\ntitle: "@ + c.title@ + "\nsidebar:\n  order: "@ + decimal_nat(order) + "\n  label: "@ + c.short@
        + "\n---\n\n"@ + ":::note\n"@ + c.description@ + "\n:::\n\n"@ + modules_text(es, c.icon@)
}

pub fn render_category_page(c: &CollectedCategory, order: usize) -> (r: String)
    requires
        entries_ok(c.entries@),
    ensures
        r@ == category_page_text(c.category, c.entries@, order as nat),
{
    let mut out = owned("---\ntitle: ");
    push_str(&mut out, c.category.title);
    push_str(&mut out, "\nsidebar:\n  order: ");
    crate::text::push_decimal_u64(&mut out, order as u64);
    push_str(&mut out, "\n  label: ");
    push_str(&mut out, c.category.short);
    push_str(&mut out, "\n---\n\n");
    push_str(&mut out, ":::note\n");
    push_str(&mut out, c.category.description);
    push_str(&mut out, "\n:::\n\n");
    let ghost head = out@;
    let mut i: usize = 0;
    while i < c.entries.len()
        invariant
            0 <= i <= c.entries@.len(),
            entries_ok(c.entries@),
            out@ == head + modules_text(c.entries@.take(i as int), c.category.icon@),
        decreases c.entries@.len() - i,
    {
        assert(c.entries@.take(i + 1).drop_last() == c.entries@.take(i as int));
        assert(c.entries@.take(i + 1).last() == c.entries@[i as int]);
        assert(levels_ok(c.entries@[i as int].options@));
        let m = render_module(&c.entries[i], c.category.icon);
        push_str(&mut out, m.as_str());
        i += 1;
    }
    assert(c.entries@.take(c.entries@.len() as int) == c.entries@);
    out
}

pub const INDEX_IMPORT: &'static str = "\nimport { CardGrid, LinkCard } from '@astrojs/starlight/components';\n\n";
pub const INDEX_INTRO: &'static str = "Darkone NixOS Framework modules are grouped by category. Pick a category below to browse its modules and their options.\n\n";

/// The card of a category on the index page.
pub open spec fn card_text(c: Category) -> Option<Seq<char>> {
    match attr_text_spec(c.description@) {
        Some(d) => Some(
            "  <LinkCard title=\""@ + entity_char(c.icon@) + " "@ + c.title@ + "\" description=\""@ + d
                + "\" href=\"/"@ + LANG@ + "/ref/modules/"@ + c.slug@ + "/\" />\n"@,
        ),
        None => None,
    }
}

/// The cards of the categories, one after the other.
pub open spec fn cards_text(cs: Seq<CollectedCategory>) -> Option<Seq<char>>
    decreases cs.len(),
{
    if cs.len() == 0 {
        Some(Seq::empty())
    } else {
        match (cards_text(cs.drop_last()), card_text(cs.last().category)) {
            (Some(a), Some(b)) => Some(a + b),
            _ => None,
        }
    }
}

/// The index page: frontmatter, import, introduction and a card per
/// category.
pub open spec fn index_text(cs: Seq<CollectedCategory>) -> Option<Seq<char>> {
    match cards_text(cs) {
        Some(t) => Some(INDEX_FRONTMATTER@ + INDEX_IMPORT@ + INDEX_INTRO@ + "<CardGrid>\n"@ + t + "</CardGrid>\n"@),
        None => None,
    }
}

/// Texts one after the other.
pub open spec fn joined(ts: Seq<Seq<char>>) -> Seq<char>
    decreases ts.len(),
{
    if ts.len() == 0 {
        Seq::empty()
    } else {
        joined(ts.drop_last()) + ts.last()
    }
}

/// The card of each collected category (meaningful where it can be
/// written).
pub open spec fn card_texts(cs: Seq<CollectedCategory>) -> Seq<Seq<char>> {
    Seq::new(cs.len(), |j: int| card_text(cs[j].category)->0)
}

/// The front matter of a category page: title, sidebar order and label.
pub open spec fn front_matter(c: Category, order: nat) -> Seq<char> {
    "---\ntitle: "@ + c.title@ + "\nsidebar:\n  order: "@ + decimal_nat(order) + "\n  label: "@ + c.short@ + "\n---\n"@
}

proof fn lemma_cards_joined(cs: Seq<CollectedCategory>)
    ensures
        cards_text(cs) is Some <==> forall|j: int| 0 <= j < cs.len() ==> (#[trigger] card_text(cs[j].category)) is Some,
        cards_text(cs) is Some ==> cards_text(cs)->0 == joined(card_texts(cs)),
    decreases cs.len(),
{
    if cs.len() > 0 {
        let d = cs.drop_last();
        lemma_cards_joined(d);
        assert(card_texts(cs).drop_last() =~= card_texts(d));
        assert forall|j: int| 0 <= j < d.len() implies #[trigger] d[j] == cs[j] by {}
        if cards_text(d) is Some && card_text(cs.last().category) is Some {
            assert forall|j: int| 0 <= j < cs.len() implies (#[trigger] card_text(cs[j].category)) is Some by {
                if j < d.len() {
                    assert(card_text(d[j].category) is Some);
                }
            }
        } else if card_text(cs.last().category) is None {
            assert(card_text(cs[cs.len() - 1].category) is None);
        } else {
            let j = choose|j: int| 0 <= j < d.len() && (#[trigger] card_text(d[j].category)) is None;
            assert(card_text(cs[j].category) is None);
        }
    }
}

/// Law: before its links are rewritten, the index page is its front
/// matter, the import and the introduction, then inside a `<CardGrid>`
/// one card per collected category, in order, each a `<LinkCard`; it can
/// be written exactly when every card can. The page of the `k`-th
/// collected category starts with its front matter, at sidebar order
/// `k + 2`.
pub proof fn law_page_texts(col: Seq<CollectedCategory>)
    ensures
        index_text(col) is Some <==> forall|j: int| 0 <= j < col.len() ==> (#[trigger] card_text(col[j].category)) is Some,
        index_text(col) is Some ==> index_text(col)->0 == INDEX_FRONTMATTER@ + INDEX_IMPORT@ + INDEX_INTRO@ + "<CardGrid>\n"@
            + joined(card_texts(col)) + "</CardGrid>\n"@,
        card_texts(col).len() == col.len(),
        forall|j: int| 0 <= j < col.len() && (#[trigger] card_text(col[j].category)) is Some ==> has_prefix(
            card_texts(col)[j],
            "  <LinkCard title=\""@,
        ),
        forall|k: int| 0 <= k < col.len() ==> has_prefix(
            #[trigger] category_page_text(col[k].category, col[k].entries@, (k + 2) as nat),
            front_matter(col[k].category, (k + 2) as nat),
        ),
{
    lemma_cards_joined(col);
    assert forall|j: int| 0 <= j < col.len() && (#[trigger] card_text(col[j].category)) is Some implies has_prefix(
        card_texts(col)[j],
        "  <LinkCard title=\""@,
    ) by {
        let c = col[j].category;
        let d = attr_text_spec(c.description@)->0;
        let p = "  <LinkCard title=\""@;
        let t = p + entity_char(c.icon@) + " "@ + c.title@ + "\" description=\""@ + d + "\" href=\"/"@ + LANG@
            + "/ref/modules/"@ + c.slug@ + "/\" />\n"@;
        assert(card_texts(col)[j] == t);
        assert(t.take(p.len() as int) =~= p);
    }
    assert forall|k: int| 0 <= k < col.len() implies has_prefix(
        #[trigger] category_page_text(col[k].category, col[k].entries@, (k + 2) as nat),
        front_matter(col[k].category, (k + 2) as nat),
    ) by {
        let c = col[k].category;
        let f = front_matter(c, (k + 2) as nat);
        let t = category_page_text(c, col[k].entries@, (k + 2) as nat);
        reveal_strlit("\n---\n\n");
        reveal_strlit("\n---\n");
        reveal_strlit("\n");
        assert("\n---\n\n"@ =~= "\n---\n"@ + "\n"@);
        assert(t =~= f + ("\n"@ + ":::note\n"@ + c.description@ + "\n:::\n\n"@ + modules_text(col[k].entries@, c.icon@)));
        assert(t.take(f.len() as int) =~= f);
    }
}

/// Once a card fails, the cards fail.
proof fn lemma_cards_none(cs: Seq<CollectedCategory>, k: int)
    requires
        0 <= k <= cs.len(),
        cards_text(cs.take(k)) is None,
    ensures
        cards_text(cs) is None,
    decreases cs.len() - k,
{
    if k < cs.len() {
        assert(cs.take(k + 1).drop_last() == cs.take(k));
        lemma_cards_none(cs, k + 1);
    } else {
        assert(cs.take(k) == cs);
    }
}

pub fn render_index(collected: &Vec<CollectedCategory>) -> (r: Option<String>)
    ensures
        opt_chars(r) == index_text(collected@),
{
    let mut out = owned(INDEX_FRONTMATTER);
    push_str(&mut out, INDEX_IMPORT);
    push_str(&mut out, INDEX_INTRO);
    push_str(&mut out, "<CardGrid>\n");
    let ghost head = out@;
    let mut i: usize = 0;
    while i < collected.len()
        invariant
            0 <= i <= collected@.len(),
            cards_text(collected@.take(i as int)) == Some(out@.skip(head.len() as int)),
            out@.len() >= head.len(),
            out@.take(head.len() as int) == head,
        decreases collected@.len() - i,
    {
        let c = &collected[i].category;
        assert(collected@.take(i + 1).drop_last() == collected@.take(i as int));
        assert(collected@.take(i + 1).last() == collected@[i as int]);
        let desc = match attr_text(c.description) {
            Some(d) => d,
            None => {
                proof {
                    assert(cards_text(collected@.take(i + 1)) is None);
                    lemma_cards_none(collected@, i + 1);
                }
                return None;
            },
        };
        let ghost before = out@;
        push_str(&mut out, "  <LinkCard title=\"");
        let icon = entity_to_char(c.icon);
        push_str(&mut out, icon.as_str());
        push_str(&mut out, " ");
        push_str(&mut out, c.title);
        push_str(&mut out, "\" description=\"");
        push_str(&mut out, desc.as_str());
        push_str(&mut out, "\" href=\"/");
        push_str(&mut out, LANG);
        push_str(&mut out, "/ref/modules/");
        push_str(&mut out, c.slug);
        push_str(&mut out, "/\" />\n");
        proof {
            let card = card_text(*c)->0;
            assert(out@ == before + card);
            assert(out@.skip(head.len() as int) == before.skip(head.len() as int) + card);
            assert(out@.take(head.len() as int) == before.take(head.len() as int));
        }
        i += 1;
    }
    assert(collected@.take(collected@.len() as int) == collected@);
    push_str(&mut out, "</CardGrid>\n");
    proof {
        let t = cards_text(collected@)->0;
        assert(out@ =~= head + t + "</CardGrid>\n"@);
    }
    Some(out)
}

/// Anchors of the modules of a category: each module's heading anchor now
/// lives on the category page.
pub open spec fn entry_anchors(acc: Seq<(Seq<char>, Seq<char>)>, es: Seq<ModuleEntry>, slug: Seq<char>) -> Seq<(Seq<char>, Seq<char>)>
    decreases es.len(),
{
    if es.len() == 0 {
        acc
    } else {
        let a = entry_anchors(acc, es.drop_last(), slug);
        let an = module_anchor_spec(es.last().path@);
        insert_entry(a, an, "/ref/modules/"@ + slug + "/#"@ + an)
    }
}

/// Where every anchor of the former single modules page now lives: a
/// category section becomes its page's root, a module heading moves to its
/// category page.
pub open spec fn anchor_fold(cs: Seq<CollectedCategory>) -> Seq<(Seq<char>, Seq<char>)>
    decreases cs.len(),
{
    if cs.len() == 0 {
        Seq::empty()
    } else {
        let c = cs.last().category;
        let a = insert_entry(anchor_fold(cs.drop_last()), slug_of(lowercase(c.title@)), "/ref/modules/"@ + c.slug@ + "/"@);
        entry_anchors(a, cs.last().entries@, c.slug@)
    }
}

pub fn build_anchor_map(collected: &Vec<CollectedCategory>) -> (r: StrMap<String>)
    ensures
        r.wf(),
        anchors_view(r) == anchor_fold(collected@),
{
    let mut map: StrMap<String> = StrMap::new();
    assert(anchors_view(map) =~= Seq::<(Seq<char>, Seq<char>)>::empty());
    let mut i: usize = 0;
    while i < collected.len()
        invariant
            0 <= i <= collected@.len(),
            map.wf(),
            anchors_view(map) == anchor_fold(collected@.take(i as int)),
        decreases collected@.len() - i,
    {
        let c = &collected[i];
        assert(collected@.take(i + 1).drop_last() == collected@.take(i as int));
        assert(collected@.take(i + 1).last() == c);
        let slug = c.category.slug;
        let key = gh_slug(c.category.title);
        let mut target = owned("/ref/modules/");
        push_str(&mut target, slug);
        push_str(&mut target, "/");
        proof {
            crate::strmap::lemma_map_vals_insert(map@, key@, target, |s: String| s@);
        }
        map.insert(key, target);
        let ghost base = anchors_view(map);
        let mut k: usize = 0;
        while k < c.entries.len()
            invariant
                0 <= k <= c.entries@.len(),
                map.wf(),
                anchors_view(map) == entry_anchors(base, c.entries@.take(k as int), slug@),
            decreases c.entries@.len() - k,
        {
            assert(c.entries@.take(k + 1).drop_last() == c.entries@.take(k as int));
            assert(c.entries@.take(k + 1).last() == c.entries@[k as int]);
            let anchor = module_anchor(c.entries[k].path.as_str());
            let mut t = owned("/ref/modules/");
            push_str(&mut t, slug);
            push_str(&mut t, "/#");
            push_str(&mut t, anchor.as_str());
            proof {
                crate::strmap::lemma_map_vals_insert(map@, anchor@, t, |s: String| s@);
            }
            map.insert(anchor, t);
            k += 1;
        }
        assert(c.entries@.take(c.entries@.len() as int) == c.entries@);
        i += 1;
    }
    assert(collected@.take(collected@.len() as int) == collected@);
    map
}

/// The indices of the non-empty categories among the first `k`.
pub open spec fn nonempty_indices(bc: Seq<Vec<ModuleEntry>>, k: int) -> Seq<int>
    decreases k,
{
    if k <= 0 {
        Seq::empty()
    } else if bc[k - 1]@.len() > 0 {
        nonempty_indices(bc, k - 1).push(k - 1)
    } else {
        nonempty_indices(bc, k - 1)
    }
}

proof fn lemma_nonempty_indices(bc: Seq<Vec<ModuleEntry>>, k: int)
    requires
        k <= bc.len(),
    ensures
        forall|j: int| 0 <= j < nonempty_indices(bc, k).len() ==> {
            let i = #[trigger] nonempty_indices(bc, k)[j];
            0 <= i < k && bc[i]@.len() > 0
        },
    decreases k,
{
    if k > 0 {
        lemma_nonempty_indices(bc, k - 1);
        let prev = nonempty_indices(bc, k - 1);
        let cur = nonempty_indices(bc, k);
        assert forall|j: int| 0 <= j < cur.len() implies {
            let i = #[trigger] cur[j];
            0 <= i < k && bc[i]@.len() > 0
        } by {
            if j < prev.len() {
                assert(cur[j] == prev[j]);
            }
        }
    }
}

/// Law: only categories that have modules get a page: each collected
/// category holds at least one module.
pub proof fn law_no_empty_category(col: Seq<CollectedCategory>, bc: Seq<Vec<ModuleEntry>>)
    requires
        collected_from(col, bc),
    ensures
        forall|j: int| 0 <= j < col.len() ==> (#[trigger] col[j]).entries@.len() > 0,
{
    lemma_nonempty_indices(bc, bc.len() as int);
    let idx = nonempty_indices(bc, bc.len() as int);
    assert forall|j: int| 0 <= j < col.len() implies (#[trigger] col[j]).entries@.len() > 0 by {
        assert(col[j].entries@ == bc[idx[j]]@);
        assert(bc[idx[j]]@.len() > 0);
    }
}

/// `col` holds, in order, each non-empty category with its modules.
pub open spec fn collected_from(col: Seq<CollectedCategory>, bc: Seq<Vec<ModuleEntry>>) -> bool {
    let idx = nonempty_indices(bc, bc.len() as int);
    &&& col.len() == idx.len()
    &&& forall|j: int| 0 <= j < col.len() ==> (#[trigger] col[j]).category == category_spec(idx[j])
        && col[j].entries@ == bc[idx[j]]@
}

/// Path of the page of category `c`.
pub open spec fn page_path(slug: Seq<char>) -> Seq<char> {
    DOC_DIR@ + "/modules/"@ + slug + ".mdx"@
}

/// Path of the index page.
pub open spec fn index_path() -> Seq<char> {
    DOC_DIR@ + "/modules/index.mdx"@
}

/// The finished index page.
pub open spec fn index_page(col: Seq<CollectedCategory>) -> Option<Seq<char>> {
    match index_text(col) {
        Some(t) => finalized(t, anchor_fold(col)),
        None => None,
    }
}

/// The finished page of the `k`-th collected category.
pub open spec fn category_page(col: Seq<CollectedCategory>, k: int) -> Option<Seq<char>> {
    finalized(category_page_text(col[k].category, col[k].entries@, (k + 2) as nat), anchor_fold(col))
}

/// `pages` are the reference pages of `col`: the index, then one page per
/// collected category, in order.
pub open spec fn pages_of(pages: Seq<Page>, col: Seq<CollectedCategory>) -> bool {
    &&& pages.len() == col.len() + 1
    &&& pages[0].rel_path@ == index_path()
    &&& Some(pages[0].content@) == index_page(col)
    &&& forall|k: int| 0 <= k < col.len() ==> (#[trigger] pages[k + 1]).rel_path@ == page_path(col[k].category.slug@)
        && Some(pages[k + 1].content@) == category_page(col, k)
}

/// Some page cannot be finished (a link pattern does not compile).
pub open spec fn pages_fail(col: Seq<CollectedCategory>) -> bool {
    index_page(col) is None || exists|k: int| 0 <= k < col.len() && #[trigger] category_page(col, k) is None
}

/// The non-empty categories, in order, each with its modules.
#[verifier::loop_isolation(false)]
pub fn collect_categories(by_category: Vec<Vec<ModuleEntry>>) -> (col: Vec<CollectedCategory>)
    requires
        by_category@.len() == CATEGORY_COUNT,
        forall|i: int| 0 <= i < by_category@.len() ==> entries_ok((#[trigger] by_category@[i])@),
    ensures
        collected_from(col@, by_category@),
        col@.len() <= CATEGORY_COUNT,
        forall|j: int| 0 <= j < col@.len() ==> entries_ok((#[trigger] col@[j]).entries@),
{
    let ghost bc = by_category@;
    let mut rest = by_category;
    let mut collected: Vec<CollectedCategory> = Vec::new();
    let mut i: usize = 0;
    while i < CATEGORY_COUNT
        invariant
            0 <= i <= CATEGORY_COUNT,
            bc.len() == CATEGORY_COUNT,
            rest@ == bc.skip(i as int),
            collected@.len() <= i,
            collected@.len() == nonempty_indices(bc, i as int).len(),
            forall|j: int| 0 <= j < collected@.len() ==> (#[trigger] collected@[j]).category == category_spec(
                nonempty_indices(bc, i as int)[j],
            ) && collected@[j].entries@ == bc[nonempty_indices(bc, i as int)[j]]@,
            forall|j: int| 0 <= j < collected@.len() ==> entries_ok((#[trigger] collected@[j]).entries@),
        decreases CATEGORY_COUNT - i,
    {
        assert(rest@[0] == bc[i as int]);
        let es = rest.remove(0);
        assert(rest@ == bc.skip(i + 1));
        if es.len() > 0 {
            let ghost before = collected@;
            collected.push(CollectedCategory { category: category(i), entries: es });
            proof {
                assert(nonempty_indices(bc, i + 1) == nonempty_indices(bc, i as int).push(i as int));
                assert forall|j: int| 0 <= j < collected@.len() implies (#[trigger] collected@[j]).category == category_spec(
                    nonempty_indices(bc, i + 1)[j],
                ) && collected@[j].entries@ == bc[nonempty_indices(bc, i + 1)[j]]@ by {
                    if j < before.len() {
                        assert(collected@[j] == before[j]);
                    }
                }
            }
        }
        i += 1;
    }
    collected
}

/// `r` is what generating the pages from the modules `bc` of each category
/// gives: the pages of the non-empty categories, or a generator error
/// where some page cannot be finished.
pub open spec fn pages_generated(r: Result<Vec<Page>>, bc: Seq<Vec<ModuleEntry>>) -> bool {
    exists|col: Seq<CollectedCategory>| #[trigger] collected_from(col, bc) && generated_from(r, col)
}

/// `r` is what generating the pages of the collected categories `col`
/// gives.
pub open spec fn generated_from(r: Result<Vec<Page>>, col: Seq<CollectedCategory>) -> bool {
    match r {
        Ok(pages) => pages_of(pages@, col),
        Err(e) => e is Generate && pages_fail(col),
    }
}

/// Pages that are all finished are no failure.
proof fn lemma_pages_not_fail(p: Seq<Page>, c: Seq<CollectedCategory>)
    requires
        pages_of(p, c),
    ensures
        !pages_fail(c),
{
    assert forall|k: int| 0 <= k < c.len() implies #[trigger] category_page(c, k) is Some by {
        assert(Some(p[k + 1].content@) == category_page(c, k));
    }
}

/// The path and content of each page.
pub open spec fn pages_view(ps: Seq<Page>) -> Seq<(Seq<char>, Seq<char>)> {
    ps.map_values(|p: Page| (p.rel_path@, p.content@))
}

/// Two collections of the same categories with the same modules.
pub open spec fn same_collected(c1: Seq<CollectedCategory>, c2: Seq<CollectedCategory>) -> bool {
    &&& c1.len() == c2.len()
    &&& forall|j: int| 0 <= j < c1.len() ==> (#[trigger] c1[j]).category == c2[j].category && c1[j].entries@ == c2[j].entries@
}

/// Cards and anchors depend on the categories and their modules alone.
proof fn lemma_same_collected(c1: Seq<CollectedCategory>, c2: Seq<CollectedCategory>)
    requires
        same_collected(c1, c2),
    ensures
        cards_text(c1) == cards_text(c2),
        anchor_fold(c1) == anchor_fold(c2),
    decreases c1.len(),
{
    if c1.len() > 0 {
        let d1 = c1.drop_last();
        let d2 = c2.drop_last();
        assert forall|j: int| 0 <= j < d1.len() implies (#[trigger] d1[j]).category == d2[j].category && d1[j].entries@ == d2[j].entries@ by {
            assert(d1[j] == c1[j] && d2[j] == c2[j]);
        }
        lemma_same_collected(d1, d2);
        assert(c1.last() == c1[c1.len() - 1] && c2.last() == c2[c2.len() - 1]);
    }
}

/// Collections taken from modules with the same contents are the same.
proof fn lemma_collected_unique(bc1: Seq<Vec<ModuleEntry>>, bc2: Seq<Vec<ModuleEntry>>, c1: Seq<CollectedCategory>, c2: Seq<CollectedCategory>)
    requires
        bc1.len() == bc2.len(),
        forall|i: int| 0 <= i < bc1.len() ==> (#[trigger] bc1[i])@ == bc2[i]@,
        collected_from(c1, bc1),
        collected_from(c2, bc2),
    ensures
        same_collected(c1, c2),
{
    lemma_indices_same(bc1, bc2, bc1.len() as int);
    let idx = nonempty_indices(bc1, bc1.len() as int);
    assert forall|j: int| 0 <= j < c1.len() implies (#[trigger] c1[j]).category == c2[j].category && c1[j].entries@ == c2[j].entries@ by {
        lemma_nonempty_indices(bc1, bc1.len() as int);
        assert(0 <= idx[j] < bc1.len());
        assert(bc1[idx[j]]@ == bc2[idx[j]]@);
    }
}

proof fn lemma_indices_same(bc1: Seq<Vec<ModuleEntry>>, bc2: Seq<Vec<ModuleEntry>>, k: int)
    requires
        k <= bc1.len(),
        bc1.len() == bc2.len(),
        forall|i: int| 0 <= i < bc1.len() ==> (#[trigger] bc1[i])@ == bc2[i]@,
    ensures
        nonempty_indices(bc1, k) == nonempty_indices(bc2, k),
    decreases k,
{
    if k > 0 {
        lemma_indices_same(bc1, bc2, k - 1);
        assert(bc1[k - 1]@ == bc2[k - 1]@);
    }
}

/// Law: the pages are a function of the modules handed in: two runs on
/// modules with the same contents both fail, or give the same pages, with
/// the same paths and contents, in the same order.
pub proof fn law_pages_deterministic(
    bc1: Seq<Vec<ModuleEntry>>,
    bc2: Seq<Vec<ModuleEntry>>,
    r1: Result<Vec<Page>>,
    r2: Result<Vec<Page>>,
)
    requires
        bc1.len() == bc2.len(),
        forall|i: int| 0 <= i < bc1.len() ==> (#[trigger] bc1[i])@ == bc2[i]@,
        pages_generated(r1, bc1),
        pages_generated(r2, bc2),
    ensures
        r1 is Ok <==> r2 is Ok,
        r1 is Ok ==> pages_view(r1->Ok_0@) == pages_view(r2->Ok_0@),
{
    let c1 = choose|col: Seq<CollectedCategory>| #[trigger] collected_from(col, bc1) && generated_from(r1, col);
    let c2 = choose|col: Seq<CollectedCategory>| #[trigger] collected_from(col, bc2) && generated_from(r2, col);
    lemma_collected_unique(bc1, bc2, c1, c2);
    lemma_same_pages(c1, c2);
    assert forall|k: int| 0 <= k < c1.len() implies (#[trigger] c1[k]).category.slug == c2[k].category.slug by {
        assert(c1[k].category == c2[k].category);
    }
    match (r1, r2) {
        (Ok(p1), Ok(p2)) => lemma_same_pages_view(c1, c2, p1@, p2@),
        (Ok(p1), Err(_)) => lemma_pages_not_fail(p1@, c1),
        (Err(_), Ok(p2)) => lemma_pages_not_fail(p2@, c2),
        _ => {},
    }
}

/// The same categories with the same modules give the same pages.
proof fn lemma_same_pages(c1: Seq<CollectedCategory>, c2: Seq<CollectedCategory>)
    requires
        same_collected(c1, c2),
    ensures
        index_page(c1) == index_page(c2),
        forall|k: int| 0 <= k < c1.len() ==> #[trigger] category_page(c1, k) == category_page(c2, k),
        pages_fail(c1) == pages_fail(c2),
{
    lemma_same_collected(c1, c2);
    assert forall|k: int| 0 <= k < c1.len() implies #[trigger] category_page(c1, k) == category_page(c2, k) by {
        assert(c1[k].category == c2[k].category && c1[k].entries@ == c2[k].entries@);
    }
    if pages_fail(c1) && index_page(c1) is Some {
        let k = choose|k: int| 0 <= k < c1.len() && #[trigger] category_page(c1, k) is None;
        assert(category_page(c2, k) is None);
    }
    if pages_fail(c2) && index_page(c2) is Some {
        let k = choose|k: int| 0 <= k < c2.len() && #[trigger] category_page(c2, k) is None;
        assert(category_page(c1, k) == category_page(c2, k));
    }
}

proof fn lemma_same_pages_view(c1: Seq<CollectedCategory>, c2: Seq<CollectedCategory>, p1: Seq<Page>, p2: Seq<Page>)
    requires
        c1.len() == c2.len(),
        index_page(c1) == index_page(c2),
        forall|k: int| 0 <= k < c1.len() ==> #[trigger] category_page(c1, k) == category_page(c2, k),
        forall|k: int| 0 <= k < c1.len() ==> (#[trigger] c1[k]).category.slug == c2[k].category.slug,
        pages_of(p1, c1),
        pages_of(p2, c2),
    ensures
        pages_view(p1) == pages_view(p2),
{
    let v1 = pages_view(p1);
    let v2 = pages_view(p2);
    assert forall|i: int| 0 <= i < v1.len() implies v1[i] == v2[i] by {
        if i > 0 {
            let k = i - 1;
            assert(p1[k + 1] == p1[i] && p2[k + 1] == p2[i]);
            assert(category_page(c1, k) == category_page(c2, k));
            assert(c1[k].category.slug == c2[k].category.slug);
        }
    }
    assert(v1 =~= v2);
}

/// Builds every reference page from the modules of each category (given in
/// category order): the index plus one page per non-empty category; an
/// empty category gets neither page nor card.
#[verifier::loop_isolation(false)]
pub fn generate_pages(by_category: Vec<Vec<ModuleEntry>>) -> (r: Result<Vec<Page>>)
    requires
        by_category@.len() == CATEGORY_COUNT,
        forall|i: int| 0 <= i < by_category@.len() ==> entries_ok((#[trigger] by_category@[i])@),
    ensures
        pages_generated(r, by_category@),
{
    let ghost bc = by_category@;
    let collected = collect_categories(by_category);
    let ghost col = collected@;
    assert(collected_from(col, bc));
    let anchors = build_anchor_map(&collected);
    let index = match render_index(&collected) {
        Some(t) => t,
        None => return Err(NixError::generate(owned("Bad link pattern"))),
    };
    let index_content = match finalize(index.as_str(), &anchors) {
        Some(t) => t,
        None => return Err(NixError::generate(owned("Bad link pattern"))),
    };
    let mut index_path_s = owned(DOC_DIR);
    push_str(&mut index_path_s, "/modules/index.mdx");
    let mut pages: Vec<Page> = Vec::new();
    pages.push(Page { rel_path: index_path_s, content: index_content });
    let mut k: usize = 0;
    while k < collected.len()
        invariant
            0 <= k <= collected@.len(),
            col == collected@,
            collected_from(col, bc),
            col.len() <= CATEGORY_COUNT,
            forall|j: int| 0 <= j < col.len() ==> entries_ok((#[trigger] col[j]).entries@),
            anchors.wf(),
            anchors_view(anchors) == anchor_fold(col),
            pages@.len() == k + 1,
            pages@[0].rel_path@ == index_path(),
            Some(pages@[0].content@) == index_page(col),
            forall|j: int| 0 <= j < k ==> (#[trigger] pages@[j + 1]).rel_path@ == page_path(col[j].category.slug@)
                && Some(pages@[j + 1].content@) == category_page(col, j),
        decreases col.len() - k,
    {
        let c = &collected[k];
        assert(entries_ok(col[k as int].entries@));
        let text = render_category_page(c, k + 2);
        let content = match finalize(text.as_str(), &anchors) {
            Some(t) => t,
            None => {
                assert(category_page(col, k as int) is None);
                return Err(NixError::generate(owned("Bad link pattern")));
            },
        };
        let mut path = owned(DOC_DIR);
        push_str(&mut path, "/modules/");
        push_str(&mut path, c.category.slug);
        push_str(&mut path, ".mdx");
        let ghost before = pages@;
        pages.push(Page { rel_path: path, content });
        proof {
            assert forall|j: int| 0 <= j < k + 1 implies (#[trigger] pages@[j + 1]).rel_path@ == page_path(col[j].category.slug@)
                && Some(pages@[j + 1].content@) == category_page(col, j) by {
                if j < k {
                    assert(pages@[j + 1] == before[j + 1]);
                }
            }
        }
        k += 1;
    }
    Ok(pages)
}

/// The documentation entry of one module source: its dotted path under
/// the category's directory and prefix, its leading comment block, and the
/// options it declares.
pub fn module_entry(file: &str, dir: &str, prefix: &str, source: &str) -> (e: ModuleEntry)
    ensures
        e.path@ == crate::nix_parser::dotted_module_path(file@, dir@, prefix@),
        crate::text::opt_view(e.comment) == crate::nix_parser::first_comment_spec(
            crate::nix_parser::nix_top_tokens(source@),
        ),
        e.options@.map_values(|o: NixOption| crate::nix_parser::nix_option_view(o))
            == crate::nix_parser::source_options(source@),
        levels_ok(e.options@),
{
    ModuleEntry {
        path: crate::nix_parser::extract_module_path(file, dir, prefix),
        comment: crate::nix_parser::extract_first_comment(source),
        options: crate::nix_parser::parse_module_options(source),
    }
}

/// One page as the generator shows it: `// <path>`, a newline, the content.
pub open spec fn page_listing(p: Page) -> Seq<char> {
    "// "@ + p.rel_path@ + "\n"@ + p.content@
}

/// The pages as the generator shows them, one after the other, separated
/// by newlines.
pub open spec fn pages_listing_spec(ps: Seq<Page>) -> Seq<char>
    decreases ps.len(),
{
    if ps.len() == 0 {
        Seq::empty()
    } else if ps.len() == 1 {
        page_listing(ps[0])
    } else {
        pages_listing_spec(ps.drop_last()) + "\n"@ + page_listing(ps.last())
    }
}

/// The pages as shown instead of written: each as `// <path>` then its
/// content, separated by newlines.
pub fn pages_listing(pages: &Vec<Page>) -> (r: String)
    ensures
        r@ == pages_listing_spec(pages@),
{
    let mut out = String::new();
    let mut i: usize = 0;
    while i < pages.len()
        invariant
            0 <= i <= pages@.len(),
            out@ == pages_listing_spec(pages@.take(i as int)),
        decreases pages@.len() - i,
    {
        assert(pages@.take(i + 1).drop_last() == pages@.take(i as int));
        assert(pages@.take(i + 1).last() == pages@[i as int]);
        if i > 0 {
            push_str(&mut out, "\n");
        } else {
            assert(pages@.take(1)[0] == pages@[0]);
        }
        push_str(&mut out, "// ");
        push_str(&mut out, pages[i].rel_path.as_str());
        push_str(&mut out, "\n");
        push_str(&mut out, pages[i].content.as_str());
        i += 1;
    }
    assert(pages@.take(pages@.len() as int) == pages@);
    out
}

} // verus!
