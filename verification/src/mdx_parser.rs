//! Line-based extraction of module options and module paths.
use vstd::prelude::*;
use crate::text::{
    chars_of, contains_seq, find_char, find_str, first_index_of, first_occurrence, has_prefix, lex_lt, lines,
    lines_of, opt_view, owned, push_str, skip_leading, starts_with, str_eq, str_lt, trim, trim_start_char,
    trim_str, views_of,
};
use crate::nix_parser::{NixToken, TokenKind, tokens_view, top_level_tokens, nix_top_tokens};
use crate::module::{strip_quotes, trim_quotes};

verus! {

/// An option declared in a module source.
pub struct ModuleOption {
    pub name: String,
    pub option_type: Option<String>,
    pub default: Option<String>,
    pub example: Option<String>,
    pub description: Option<String>,
    /// Declared with `mkEnableOption`.
    pub is_enable: bool,
}

/// An option by its views: name, type, default, example, description,
/// whether it is an enable option.
pub type OptionView = (Seq<char>, Option<Seq<char>>, Option<Seq<char>>, Option<Seq<char>>, Option<Seq<char>>, bool);

pub open spec fn opt_view_of(o: Option<String>) -> Option<Seq<char>> {
    crate::text::opt_view(o)
}

pub open spec fn module_option_view(o: ModuleOption) -> OptionView {
    (o.name@, opt_view_of(o.option_type), opt_view_of(o.default), opt_view_of(o.example), opt_view_of(o.description), o.is_enable)
}

/// Name of the option a line declares: what stands before its first `=`,
/// trimmed; the whole line when it has none.
pub open spec fn option_name(line: Seq<char>) -> Seq<char> {
    match first_index_of(line, '=') {
        Some(e) => trim(line.take(e)),
        None => line,
    }
}

pub fn extract_option_name(line: &str) -> (r: String)
    ensures
        r@ == option_name(line@),
{
    let v = chars_of(line);
    match find_char(v.as_slice(), '=') {
        Some(e) => {
            proof {
                crate::text::lemma_first_index_of(v@, '=');
            }
            let head = crate::text::string_of_range(v.as_slice(), 0, e);
            assert(v@.subrange(0, e as int) == v@.take(e as int));
            trim_str(head.as_str())
        },
        None => owned(line),
    }
}

/// `s` without trailing `;` characters.
pub open spec fn trim_semis_end(s: Seq<char>) -> Seq<char>
    decreases s.len(),
{
    if s.len() > 0 && s.last() == ';' {
        trim_semis_end(s.drop_last())
    } else {
        s
    }
}

/// Value of `<field> = <value>;` on a line: trimmed, without trailing `;`
/// and surrounding quotes.
pub open spec fn option_field(line: Seq<char>, field: Seq<char>) -> Option<Seq<char>> {
    let p = field + " ="@;
    if has_prefix(line, p) {
        Some(trim_quotes(trim_semis_end(trim(line.skip(p.len() as int)))))
    } else {
        None
    }
}

pub fn parse_option_field(line: &str, field: &str) -> (r: Option<String>)
    ensures
        opt_view_of(r) == option_field(line@, field@),
{
    let mut prefix = owned(field);
    push_str(&mut prefix, " =");
    if !starts_with(line, prefix.as_str()) {
        return None;
    }
    let v = chars_of(line);
    let n = prefix.as_str().len();
    let pl = chars_of(prefix.as_str()).len();
    let rest = crate::text::string_of_range(v.as_slice(), pl, v.len());
    assert(v@.subrange(pl as int, v@.len() as int) == line@.skip(prefix@.len() as int));
    let t = trim_str(rest.as_str());
    let tv = chars_of(t.as_str());
    let mut b: usize = tv.len();
    assert(tv@.take(b as int) == tv@);
    while b > 0 && tv[b - 1] == ';'
        invariant
            b <= tv@.len(),
            trim_semis_end(tv@) == trim_semis_end(tv@.take(b as int)),
        decreases b,
    {
        assert(tv@.take(b as int).drop_last() == tv@.take(b - 1));
        b -= 1;
    }
    assert(trim_semis_end(tv@) == tv@.take(b as int)) by {
        if b > 0 {
            assert(tv@.take(b as int).last() == tv@[b - 1]);
        }
    }
    let cut = crate::text::string_of_range(tv.as_slice(), 0, b);
    assert(tv@.subrange(0, b as int) == tv@.take(b as int));
    Some(strip_quotes(cut.as_str()))
}

/// Occurrences of `c` in `s`.
pub open spec fn count_char(s: Seq<char>, c: char) -> int
    decreases s.len(),
{
    if s.len() == 0 {
        0
    } else {
        count_char(s.drop_last(), c) + if s.last() == c {
            1int
        } else {
            0int
        }
    }
}

pub(crate) fn count_of(s: &str, c: char) -> (r: u64)
    ensures
        r == count_char(s@, c),
{
    let v = chars_of(s);
    let mut n: u64 = 0;
    let mut i: usize = 0;
    while i < v.len()
        invariant
            0 <= i <= v@.len(),
            v@ == s@,
            n == count_char(v@.take(i as int), c),
            n <= i,
        decreases v@.len() - i,
    {
        assert(v@.take(i + 1).drop_last() == v@.take(i as int));
        if v[i] == c {
            n = n + 1;
        }
        i += 1;
    }
    assert(v@.take(v@.len() as int) == v@);
    n
}

/// `x` held within the bounds of a 64-bit integer.
pub open spec fn sat(x: int) -> int {
    if x > i64::MAX {
        i64::MAX as int
    } else if x < i64::MIN {
        i64::MIN as int
    } else {
        x
    }
}

/// `(type, default, example, description)` of an option being read.
pub type OptFields = (Option<Seq<char>>, Option<Seq<char>>, Option<Seq<char>>, Option<Seq<char>>);

pub open spec fn keep_or(v: Option<Seq<char>>, old: Option<Seq<char>>) -> Option<Seq<char>> {
    if v is Some {
        v
    } else {
        old
    }
}

/// The fields after reading a line of an `mkOption` block.
pub open spec fn with_fields(f: OptFields, line: Seq<char>) -> OptFields {
    (
        keep_or(option_field(line, "type"@), f.0),
        keep_or(option_field(line, "default"@), f.1),
        keep_or(option_field(line, "example"@), f.2),
        keep_or(option_field(line, "description"@), f.3),
    )
}

/// Reading the lines of an `mkOption` block from line `j` at brace depth
/// `depth`: the fields read and the line after the block.
pub open spec fn block_fold(ls: Seq<Seq<char>>, j: int, depth: int, f: OptFields) -> (OptFields, int)
    decreases ls.len() - j,
{
    if depth <= 0 || j >= ls.len() || j < 0 {
        (f, j)
    } else {
        let it = trim(ls[j]);
        block_fold(ls, j + 1, sat(depth + count_char(it, '{') - count_char(it, '}')), with_fields(f, it))
    }
}

pub proof fn lemma_block_fold_ge(ls: Seq<Seq<char>>, j: int, depth: int, f: OptFields)
    ensures
        block_fold(ls, j, depth, f).1 >= j,
        0 <= j <= ls.len() ==> block_fold(ls, j, depth, f).1 <= ls.len(),
    decreases ls.len() - j,
{
    if !(depth <= 0 || j >= ls.len() || j < 0) {
        let it = trim(ls[j]);
        lemma_block_fold_ge(ls, j + 1, sat(depth + count_char(it, '{') - count_char(it, '}')), with_fields(f, it));
    }
}

/// What follows `mkEnableOption` on a line ending in `;`.
pub open spec fn enable_rest(t: Seq<char>) -> Option<Seq<char>> {
    if t.len() > 0 && t.last() == ';' {
        let l = t.drop_last();
        match first_occurrence(l, "mkEnableOption"@) {
            Some(i) => Some(l.skip(i + "mkEnableOption"@.len())),
            None => None,
        }
    } else {
        None
    }
}

/// An `mkOption` option named `name` with the fields read.
pub open spec fn mkoption_view(name: Seq<char>, f: OptFields) -> OptionView {
    (name, f.0, f.1, f.2, f.3, false)
}

/// A line opening an `mkOption { … }` block.
pub open spec fn opens_mkoption(t: Seq<char>) -> bool {
    contains_seq(t, "mkOption"@) && first_index_of(t, '{') is Some
}

/// The options declared from line `i` on.
pub open spec fn options_from(ls: Seq<Seq<char>>, i: int) -> Seq<OptionView>
    decreases ls.len() - i,
{
    if i >= ls.len() || i < 0 {
        Seq::empty()
    } else {
        let t = trim(ls[i]);
        match enable_rest(t) {
            Some(rest) => seq![
                (option_name(t), Some("bool"@), Some("false"@), None, Some(trim_quotes(trim(rest))), true),
            ] + options_from(ls, i + 1),
            None => if opens_mkoption(t) {
                let start = (None, None, None, None);
                let r = block_fold(ls, i + 1, sat(count_char(t, '{') - count_char(t, '}')), start);
                proof {
                    lemma_block_fold_ge(ls, i + 1, sat(count_char(t, '{') - count_char(t, '}')), start);
                }
                seq![mkoption_view(option_name(t), r.0)] + options_from(ls, r.1)
            } else {
                options_from(ls, i + 1)
            },
        }
    }
}

/// `x` held within the bounds of a 64-bit integer.
fn saturate(x: i128) -> (r: i64)
    ensures
        r == sat(x as int),
{
    if x > 0x7FFF_FFFF_FFFF_FFFFi128 {
        0x7FFF_FFFF_FFFF_FFFFi64
    } else if x < -0x8000_0000_0000_0000i128 {
        -0x8000_0000_0000_0000i64
    } else {
        x as i64
    }
}

/// What follows `mkEnableOption` on a line ending in `;`.
pub fn enable_option_rest(t: &str) -> (r: Option<String>)
    ensures
        opt_view_of(r) == enable_rest(t@),
{
    let tv = chars_of(t);
    let n = tv.len();
    if n > 0 && tv[n - 1] == ';' {
        let l = crate::text::string_of_range(tv.as_slice(), 0, n - 1);
        assert(tv@.subrange(0, n - 1) == t@.drop_last());
        proof {
            reveal_strlit("mkEnableOption");
        }
        if let Some(k) = find_str(l.as_str(), "mkEnableOption") {
            let lv2 = chars_of(l.as_str());
            assert(k + 14 <= lv2@.len());
            let rest = crate::text::string_of_range(lv2.as_slice(), k + 14, lv2.len());
            assert(lv2@.subrange(k + 14, lv2@.len() as int) == l@.skip(k + "mkEnableOption"@.len()));
            return Some(rest);
        }
    }
    None
}

/// The fields of an option being read, by their strings.
pub open spec fn fields_view(f: (Option<String>, Option<String>, Option<String>, Option<String>)) -> OptFields {
    (opt_view_of(f.0), opt_view_of(f.1), opt_view_of(f.2), opt_view_of(f.3))
}

/// Reads an `mkOption` block from line `start` at brace depth `depth`:
/// the fields read and the line after the block.
#[verifier::loop_isolation(false)]
fn read_block(ls: &Vec<String>, start: usize, depth: i64) -> (r: ((Option<String>, Option<String>, Option<String>, Option<String>), usize))
    requires
        start <= ls@.len(),
    ensures
        block_fold(views_of(ls@), start as int, depth as int, (None, None, None, None)) == (fields_view(r.0), r.1 as int),
        start <= r.1 <= ls@.len(),
{
    let ghost lv = views_of(ls@);
    let mut depth = depth;
    let ghost d0 = depth as int;
    let mut f: (Option<String>, Option<String>, Option<String>, Option<String>) = (None, None, None, None);
    let mut j: usize = start;
    while depth > 0 && j < ls.len()
        invariant
            start <= j <= ls@.len(),
            block_fold(lv, j as int, depth as int, fields_view(f)) == block_fold(lv, start as int, d0, (None, None, None, None)),
        decreases ls@.len() - j,
    {
        let it = trim_str(ls[j].as_str());
        assert(lv[j as int] == ls@[j as int]@);
        depth = saturate(depth as i128 + count_of(it.as_str(), '{') as i128 - count_of(it.as_str(), '}') as i128);
        if let Some(v) = parse_option_field(it.as_str(), "type") {
            f.0 = Some(v);
        }
        if let Some(v) = parse_option_field(it.as_str(), "default") {
            f.1 = Some(v);
        }
        if let Some(v) = parse_option_field(it.as_str(), "example") {
            f.2 = Some(v);
        }
        if let Some(v) = parse_option_field(it.as_str(), "description") {
            f.3 = Some(v);
        }
        j += 1;
    }
    (f, j)
}

/// Options declared in a module source, read line by line: a line ending
/// in `;` with `mkEnableOption "…"` declares a boolean option; a line with
/// `mkOption` and `{` opens a block whose `type`, `default`, `example` and
/// `description` lines are read until its braces balance.
#[verifier::loop_isolation(false)]
#[verifier::rlimit(40)]
pub fn extract_module_options(source: &str) -> (r: Vec<ModuleOption>)
    ensures
        r@.map_values(|o: ModuleOption| module_option_view(o)) == options_from(lines_of(source@), 0),
{
    let ls = lines(source);
    let ghost lv = lines_of(source@);
    let mut out: Vec<ModuleOption> = Vec::new();
    let mut i: usize = 0;
    while i < ls.len()
        invariant
            0 <= i <= ls@.len(),
            views_of(ls@) == lv,
            out@.map_values(|o: ModuleOption| module_option_view(o)) + options_from(lv, i as int) == options_from(lv, 0),
        decreases ls@.len() - i,
    {
        let ghost before = out@.map_values(|o: ModuleOption| module_option_view(o));
        let t = trim_str(ls[i].as_str());
        assert(lv[i as int] == ls@[i as int]@);
        if let Some(rest) = enable_option_rest(t.as_str()) {
            assert(options_from(lv, i as int) == seq![
                (option_name(t@), Some("bool"@), Some("false"@), None, Some(trim_quotes(trim(rest@))), true),
            ] + options_from(lv, i + 1));
            let d = trim_str(rest.as_str());
            let desc = strip_quotes(d.as_str());
            out.push(ModuleOption {
                name: extract_option_name(t.as_str()),
                option_type: Some(owned("bool")),
                default: Some(owned("false")),
                example: None,
                description: Some(desc),
                is_enable: true,
            });
            proof {
                assert(out@.map_values(|o: ModuleOption| module_option_view(o)) == before.push(module_option_view(out@.last())));
            }
            i += 1;
        } else {
            proof {
                reveal_strlit("mkOption");
            }
            let tv = chars_of(t.as_str());
            let has_mk = find_str(t.as_str(), "mkOption").is_some();
            let has_brace = find_char(tv.as_slice(), '{').is_some();
            assert(has_mk && has_brace <==> opens_mkoption(t@));
            if has_mk && has_brace {
                let name = extract_option_name(t.as_str());
                let depth = saturate(count_of(t.as_str(), '{') as i128 - count_of(t.as_str(), '}') as i128);
                let (f, j) = read_block(&ls, i + 1, depth);
                let (option_type, default, example, description) = f;
                out.push(ModuleOption { name, option_type, default, example, description, is_enable: false });
                proof {
                    assert(out@.map_values(|o: ModuleOption| module_option_view(o)) == before.push(module_option_view(out@.last())));
                }
                i = j;
            } else {
                assert(options_from(lv, i as int) == options_from(lv, i + 1));
                i += 1;
            }
        }
    }
    out
}

/// What `Path::strip_prefix(base)` gives for `file`, as text.
pub uninterp spec fn path_stripped(file: Seq<char>, base: Seq<char>) -> Option<Seq<char>>;

/// What `Path::with_extension("")` gives for `p`, as text.
pub uninterp spec fn path_without_extension(p: Seq<char>) -> Seq<char>;

/// The components of `p` (`Path::components`), each as text.
pub uninterp spec fn path_components(p: Seq<char>) -> Seq<Seq<char>>;

/// `Path::strip_prefix`. The result is named `path_stripped` of the two
/// paths; nothing more is claimed of it.
#[verifier::external_body]
fn strip_path_prefix(file: &str, base: &str) -> (r: Option<String>)
    ensures
        opt_view_of(r) == path_stripped(file@, base@),
{
    match std::path::Path::new(file).strip_prefix(base) {
        Ok(p) => Some(p.to_string_lossy().into_owned()),
        Err(_) => None,
    }
}

/// `Path::with_extension("")`. The result is named
/// `path_without_extension`; nothing more is claimed of it.
#[verifier::external_body]
fn without_extension(p: &str) -> (r: String)
    ensures
        r@ == path_without_extension(p@),
{
    std::path::Path::new(p).with_extension("").to_string_lossy().into_owned()
}

/// `Path::components`, each component as text. The result is named
/// `path_components`; nothing more is claimed of it.
#[verifier::external_body]
fn components(p: &str) -> (r: Vec<String>)
    ensures
        views_of(r@) == path_components(p@),
{
    std::path::Path::new(p).components().map(|c| c.as_os_str().to_string_lossy().into_owned()).collect()
}

/// The components of `file` relative to `base` (all of `file` when it is
/// not under `base`), extension dropped.
pub open spec fn module_parts(file: Seq<char>, base: Seq<char>) -> Seq<Seq<char>> {
    let rel = match path_stripped(file, base) {
        Some(r) => r,
        None => file,
    };
    path_components(path_without_extension(rel))
}

/// Dotted module path of `file` under `base`: `prefix` followed by its
/// components joined with dots, or `prefix` alone when there are none.
pub open spec fn module_path_spec(file: Seq<char>, base: Seq<char>, prefix: Seq<char>) -> Seq<char> {
    let parts = module_parts(file, base);
    if parts.len() == 0 {
        prefix
    } else {
        prefix + crate::text::join_with(parts, "."@)
    }
}

/// Joins `parts` with `sep`.
pub fn join(parts: &Vec<String>, sep: &str) -> (r: String)
    ensures
        r@ == crate::text::join_with(views_of(parts@), sep@),
{
    let ghost pv = views_of(parts@);
    let mut out = String::new();
    let mut i: usize = 0;
    while i < parts.len()
        invariant
            0 <= i <= parts@.len(),
            pv == views_of(parts@),
            out@ == crate::text::join_with(pv.take(i as int), sep@),
        decreases parts@.len() - i,
    {
        assert(pv.take(i + 1).drop_last() == pv.take(i as int));
        assert(pv.take(i + 1).last() == parts@[i as int]@);
        if i > 0 {
            push_str(&mut out, sep);
        } else {
            assert(pv.take(1) == seq![pv[0]]);
        }
        push_str(&mut out, parts[i].as_str());
        i += 1;
    }
    assert(pv.take(parts@.len() as int) == pv);
    out
}

/// The components of `file` relative to `base`, extension dropped.
pub(crate) fn relative_parts(file: &str, base: &str) -> (r: Vec<String>)
    ensures
        views_of(r@) == module_parts(file@, base@),
{
    let rel = match strip_path_prefix(file, base) {
        Some(r) => r,
        None => owned(file),
    };
    let without = without_extension(rel.as_str());
    components(without.as_str())
}

/// Converts a file path under a base directory into a dotted module path
/// (`dnf/modules/standard/service/adguardhome.nix` under `dnf/modules`
/// with prefix `darkone.` gives `darkone.standard.service.adguardhome`).
pub fn extract_module_path(file: &str, base: &str, prefix: &str) -> (r: String)
    ensures
        r@ == module_path_spec(file@, base@, prefix@),
{
    let parts = relative_parts(file, base);
    if parts.len() == 0 {
        return owned(prefix);
    }
    let mut r = owned(prefix);
    let j = join(&parts, ".");
    push_str(&mut r, j.as_str());
    r
}

/// A comment line without its leading `#` characters and surrounding
/// white space.
pub open spec fn cleaned_line(l: Seq<char>) -> Seq<char> {
    trim(skip_leading(l, '#'))
}

/// The non-empty cleaned lines of `ls`, in order.
pub open spec fn kept_lines(ls: Seq<Seq<char>>) -> Seq<Seq<char>>
    decreases ls.len(),
{
    if ls.len() == 0 {
        Seq::empty()
    } else {
        let c = cleaned_line(ls.last());
        kept_lines(ls.drop_last()) + if c.len() > 0 {
            seq![c]
        } else {
            Seq::<Seq<char>>::empty()
        }
    }
}

/// A comment token's text as one line: its non-empty cleaned lines
/// joined with spaces.
pub open spec fn cleaned_comment(raw: Seq<char>) -> Seq<char> {
    crate::text::join_with(kept_lines(lines_of(raw)), " "@)
}

/// The first comment, from element `i` on, whose cleaned text is not
/// empty; white space is skipped and anything else ends the search.
pub open spec fn first_comment_from(ts: Seq<(TokenKind, Seq<char>)>, i: int) -> Option<Seq<char>>
    decreases ts.len() - i,
{
    if i < 0 || i >= ts.len() {
        None
    } else {
        match ts[i].0 {
            TokenKind::Comment => {
                let c = cleaned_comment(ts[i].1);
                if c.len() > 0 {
                    Some(c)
                } else {
                    first_comment_from(ts, i + 1)
                }
            },
            TokenKind::Whitespace => first_comment_from(ts, i + 1),
            TokenKind::Other => None,
        }
    }
}

fn clean_comment(raw: &str) -> (r: String)
    ensures
        r@ == cleaned_comment(raw@),
{
    proof {
        reveal_strlit(" ");
    }
    let ls = lines(raw);
    let ghost lv = lines_of(raw@);
    let mut out: Vec<String> = Vec::new();
    let mut i: usize = 0;
    assert(views_of(out@) == kept_lines(lv.take(0)));
    while i < ls.len()
        invariant
            0 <= i <= ls@.len(),
            views_of(ls@) == lv,
            views_of(out@) == kept_lines(lv.take(i as int)),
        decreases ls@.len() - i,
    {
        let h = trim_start_char(ls[i].as_str(), '#');
        let c = trim_str(h.as_str());
        proof {
            assert(lv[i as int] == ls@[i as int]@);
            assert(lv.take(i + 1).drop_last() == lv.take(i as int));
            assert(lv.take(i + 1).last() == lv[i as int]);
        }
        if chars_of(c.as_str()).len() > 0 {
            let ghost before = views_of(out@);
            out.push(c);
            assert(views_of(out@) == before.push(c@));
            assert(before.push(c@) == before + seq![c@]);
        } else {
            assert(kept_lines(lv.take(i + 1)) == kept_lines(lv.take(i as int)) + Seq::<Seq<char>>::empty());
        }
        i += 1;
    }
    assert(lv.take(ls@.len() as int) == lv);
    join(&out, " ")
}

/// The first non-empty comment among the elements that open a file,
/// each comment made one line: `#` markers and blank lines dropped, the
/// rest joined with spaces.
pub fn first_comment(tokens: &Vec<NixToken>) -> (r: Option<String>)
    ensures
        opt_view(r) == first_comment_from(tokens_view(tokens@), 0),
{
    let ghost ts = tokens_view(tokens@);
    let mut i: usize = 0;
    while i < tokens.len()
        invariant
            0 <= i <= tokens@.len(),
            ts == tokens_view(tokens@),
            first_comment_from(ts, i as int) == first_comment_from(ts, 0),
        decreases tokens@.len() - i,
    {
        let t = &tokens[i];
        assert(ts[i as int] == crate::nix_parser::token_view(*t));
        match t.kind {
            TokenKind::Comment => {
                let c = clean_comment(t.text.as_str());
                if chars_of(c.as_str()).len() > 0 {
                    return Some(c);
                }
            },
            TokenKind::Whitespace => {},
            TokenKind::Other => {
                return None;
            },
        }
        i += 1;
    }
    None
}

/// The first comment of a Nix source file, made one line.
pub fn extract_first_comment(source: &str) -> (r: Option<String>)
    ensures
        opt_view(r) == first_comment_from(nix_top_tokens(source@), 0),
{
    let tokens = top_level_tokens(source);
    first_comment(&tokens)
}

/// What `Path::extension` gives for `p`, as text.
pub uninterp spec fn path_extension(p: Seq<char>) -> Option<Seq<char>>;

/// What `Path::file_name` gives for `p`, as text.
pub uninterp spec fn path_file_name(p: Seq<char>) -> Option<Seq<char>>;

/// `Path::extension`. The result is named `path_extension`; nothing more
/// is claimed of it.
#[verifier::external_body]
fn extension_of(p: &str) -> (r: Option<String>)
    ensures
        opt_view(r) == path_extension(p@),
{
    std::path::Path::new(p).extension().map(|e| e.to_string_lossy().into_owned())
}

/// `Path::file_name`. The result is named `path_file_name`; nothing more
/// is claimed of it.
#[verifier::external_body]
fn file_name_of(p: &str) -> (r: Option<String>)
    ensures
        opt_view(r) == path_file_name(p@),
{
    std::path::Path::new(p).file_name().map(|e| e.to_string_lossy().into_owned())
}

/// A module source: a `.nix` file other than `default.nix`.
pub open spec fn is_module_file(p: Seq<char>) -> bool {
    &&& path_extension(p) == Some("nix"@)
    &&& path_file_name(p) != Some("default.nix"@)
}

fn module_file(p: &str) -> (r: bool)
    ensures
        r == is_module_file(p@),
{
    proof {
        reveal_strlit("nix");
        reveal_strlit("default.nix");
    }
    let ext = match extension_of(p) {
        Some(e) => str_eq(e.as_str(), "nix"),
        None => false,
    };
    let name = match file_name_of(p) {
        Some(n) => str_eq(n.as_str(), "default.nix"),
        None => false,
    };
    ext && !name
}

/// Component-by-component order of two paths, each component in text
/// order (`Path`'s order on paths of plain components).
pub open spec fn comps_lt(a: Seq<Seq<char>>, b: Seq<Seq<char>>) -> bool
    decreases a.len(),
{
    if a.len() == 0 {
        b.len() > 0
    } else if b.len() == 0 {
        false
    } else if a[0] == b[0] {
        comps_lt(a.drop_first(), b.drop_first())
    } else {
        lex_lt(a[0], b[0])
    }
}

pub proof fn lemma_comps_lt_asymmetric(a: Seq<Seq<char>>, b: Seq<Seq<char>>)
    ensures
        !(comps_lt(a, b) && comps_lt(b, a)),
    decreases a.len(),
{
    if a.len() > 0 && b.len() > 0 {
        if a[0] == b[0] {
            lemma_comps_lt_asymmetric(a.drop_first(), b.drop_first());
        } else {
            crate::text::lemma_lex_lt_asymmetric(a[0], b[0]);
        }
    }
}

/// `a` comes before `b` among module files.
pub open spec fn path_lt(a: Seq<char>, b: Seq<char>) -> bool {
    comps_lt(path_components(a), path_components(b))
}

fn comps_less(a: &Vec<String>, b: &Vec<String>) -> (r: bool)
    ensures
        r == comps_lt(views_of(a@), views_of(b@)),
{
    let ghost av = views_of(a@);
    let ghost bv = views_of(b@);
    let mut i: usize = 0;
    assert(av.skip(0) == av);
    assert(bv.skip(0) == bv);
    while i < a.len() && i < b.len()
        invariant
            0 <= i <= a@.len(),
            i <= b@.len(),
            av == views_of(a@),
            bv == views_of(b@),
            comps_lt(av, bv) == comps_lt(av.skip(i as int), bv.skip(i as int)),
        decreases a@.len() - i,
    {
        proof {
            assert(av.skip(i as int)[0] == a@[i as int]@);
            assert(bv.skip(i as int)[0] == b@[i as int]@);
            assert(av.skip(i as int).drop_first() == av.skip(i + 1));
            assert(bv.skip(i as int).drop_first() == bv.skip(i + 1));
        }
        if !str_eq(a[i].as_str(), b[i].as_str()) {
            return str_lt(a[i].as_str(), b[i].as_str());
        }
        i += 1;
    }
    i < b.len()
}

fn path_less(a: &str, b: &str) -> (r: bool)
    ensures
        r == path_lt(a@, b@),
{
    let ca = components(a);
    let cb = components(b);
    comps_less(&ca, &cb)
}

/// No path comes before the one ahead of it.
pub open spec fn paths_sorted(s: Seq<Seq<char>>) -> bool {
    forall|i: int| 0 <= i < s.len() - 1 ==> !path_lt(#[trigger] s[i + 1], s[i])
}

/// The module files among `s`, in order.
pub open spec fn module_files(s: Seq<Seq<char>>) -> Seq<Seq<char>>
    decreases s.len(),
{
    if s.len() == 0 {
        Seq::empty()
    } else {
        module_files(s.drop_last()) + if is_module_file(s.last()) {
            seq![s.last()]
        } else {
            Seq::<Seq<char>>::empty()
        }
    }
}

/// Inserts `p` into the sorted `v` before the first path it comes before.
fn insert_sorted(v: &mut Vec<String>, p: String)
    requires
        paths_sorted(views_of(old(v)@)),
    ensures
        paths_sorted(views_of(final(v)@)),
        views_of(final(v)@).to_multiset() == views_of(old(v)@).to_multiset().insert(p@),
{
    let ghost vv = views_of(v@);
    let mut k: usize = 0;
    while k < v.len() && !path_less(p.as_str(), v[k].as_str())
        invariant
            0 <= k <= v@.len(),
            vv == views_of(v@),
            forall|j: int| 0 <= j < k ==> !path_lt(p@, #[trigger] vv[j]),
        decreases v@.len() - k,
    {
        assert(vv[k as int] == v@[k as int]@);
        k += 1;
    }
    let ghost pv = p@;
    v.insert(k, p);
    proof {
        let nv = views_of(v@);
        assert(nv == vv.insert(k as int, pv));
        vstd::seq_lib::to_multiset_insert(vv, k as int, pv);
        if k < vv.len() {
            assert(vv[k as int] == v@[k as int + 1]@);
            lemma_comps_lt_asymmetric(path_components(pv), path_components(vv[k as int]));
        }
        assert forall|i: int| 0 <= i < nv.len() - 1 implies !path_lt(#[trigger] nv[i + 1], nv[i]) by {
            if i + 1 < k {
                assert(nv[i + 1] == vv[i + 1] && nv[i] == vv[i]);
            } else if i + 1 == k {
                assert(nv[i + 1] == pv && nv[i] == vv[i]);
                assert(!path_lt(pv, vv[i]));
            } else if i == k {
                assert(nv[i] == pv && nv[i + 1] == vv[i]);
                assert(path_lt(pv, vv[k as int]));
            } else {
                assert(nv[i] == vv[i - 1] && nv[i + 1] == vv[i]);
                let j = i - 1;
                assert(!path_lt(vv[j + 1], vv[j]));
            }
        }
    }
}

/// The Nix module sources among the files found under a directory: the
/// `.nix` files other than `default.nix`, sorted by path.
pub fn extract_nix_files(files: &Vec<String>) -> (r: Vec<String>)
    ensures
        paths_sorted(views_of(r@)),
        views_of(r@).to_multiset() == module_files(views_of(files@)).to_multiset(),
{
    let ghost fv = views_of(files@);
    let mut out: Vec<String> = Vec::new();
    let mut i: usize = 0;
    proof {
        assert(views_of(out@) == Seq::<Seq<char>>::empty());
        assert(module_files(fv.take(0)) == Seq::<Seq<char>>::empty());
    }
    while i < files.len()
        invariant
            0 <= i <= files@.len(),
            fv == views_of(files@),
            paths_sorted(views_of(out@)),
            views_of(out@).to_multiset() == module_files(fv.take(i as int)).to_multiset(),
        decreases files@.len() - i,
    {
        proof {
            assert(fv.take(i + 1).drop_last() == fv.take(i as int));
            assert(fv.take(i + 1).last() == files@[i as int]@);
        }
        let keep = module_file(files[i].as_str());
        if keep {
            let p = owned(files[i].as_str());
            insert_sorted(&mut out, p);
            proof {
                let m = module_files(fv.take(i as int));
                assert(m + seq![files@[i as int]@] == m.push(files@[i as int]@));
                vstd::seq_lib::to_multiset_build(m, files@[i as int]@);
            }
        } else {
            assert(module_files(fv.take(i + 1)) == module_files(fv.take(i as int)) + Seq::<Seq<char>>::empty());
            assert(module_files(fv.take(i as int)) + Seq::<Seq<char>>::empty() == module_files(fv.take(i as int)));
        }
        i += 1;
    }
    assert(fv.take(files@.len() as int) == fv);
    out
}

/// The module files among `s` are paths of `s`, and are distinct when the
/// paths of `s` are.
pub proof fn lemma_module_files_within(s: Seq<Seq<char>>)
    ensures
        forall|x: Seq<char>| #[trigger] module_files(s).contains(x) ==> s.contains(x),
        s.no_duplicates() ==> module_files(s).no_duplicates(),
    decreases s.len(),
{
    if s.len() > 0 {
        let d = s.drop_last();
        lemma_module_files_within(d);
        let m = module_files(d);
        let t = if is_module_file(s.last()) {
            seq![s.last()]
        } else {
            Seq::<Seq<char>>::empty()
        };
        assert(module_files(s) == m + t);
        assert forall|x: Seq<char>| module_files(s).contains(x) implies s.contains(x) by {
            let i = choose|i: int| 0 <= i < (m + t).len() && (m + t)[i] == x;
            if i < m.len() {
                assert((m + t)[i] == m[i]);
                assert(module_files(d).contains(x));
                assert(d.contains(x));
                let j = choose|j: int| 0 <= j < d.len() && d[j] == x;
                assert(s[j] == x);
            } else {
                assert(x == s.last());
                assert(s[s.len() - 1] == x);
            }
        }
        if s.no_duplicates() {
            assert(d.no_duplicates()) by {
                assert forall|i: int, j: int| 0 <= i < d.len() && 0 <= j < d.len() && i != j implies d[i] != d[j] by {
                    assert(d[i] == s[i] && d[j] == s[j]);
                }
            }
            assert forall|i: int, j: int| 0 <= i < m.len() && 0 <= j < t.len() implies m[i] != t[j] by {
                assert(module_files(d).contains(m[i]));
                assert(d.contains(m[i]));
                let k = choose|k: int| 0 <= k < d.len() && d[k] == m[i];
                assert(s[k] == d[k]);
                assert(t[j] == s[s.len() - 1]);
            }
            vstd::seq_lib::lemma_no_dup_in_concat(m, t);
        }
    }
}

/// Law: from a listing that names no file twice, `extract_nix_files`
/// returns no file twice (and, by its contract, in path order).
pub proof fn law_extracted_files_distinct(files: Seq<Seq<char>>, r: Seq<Seq<char>>)
    requires
        files.no_duplicates(),
        r.to_multiset() == module_files(files).to_multiset(),
    ensures
        r.no_duplicates(),
{
    lemma_module_files_within(files);
    module_files(files).lemma_multiset_has_no_duplicates();
    r.lemma_multiset_has_no_duplicates_conv();
}

/// Law: every path `extract_nix_files` keeps is a module source (a `.nix`
/// file other than `default.nix`).
pub proof fn law_only_module_files(files: Seq<Seq<char>>, p: Seq<char>)
    requires
        module_files(files).to_multiset().count(p) > 0,
    ensures
        is_module_file(p),
    decreases files.len(),
{
    if files.len() > 0 {
        let m = module_files(files.drop_last());
        if is_module_file(files.last()) {
            vstd::seq_lib::to_multiset_build(m, files.last());
            assert(m + seq![files.last()] == m.push(files.last()));
            if p != files.last() {
                law_only_module_files(files.drop_last(), p);
            }
        } else {
            assert(m + Seq::<Seq<char>>::empty() == m);
            law_only_module_files(files.drop_last(), p);
        }
    } else {
        vstd::seq_lib::to_multiset_len(module_files(files));
        assert(module_files(files).len() == 0);
        assert(module_files(files).to_multiset().len() == 0);
        vstd::multiset::lemma_multiset_empty_len(module_files(files).to_multiset());
    }
}

} // verus!
