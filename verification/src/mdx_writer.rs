//! Small helpers producing MDX source.
use vstd::prelude::*;
use crate::text::{chars_of, owned, push_char, push_str};

verus! {

/// Markdown-safe form of one character.
pub open spec fn escaped_char(c: char) -> Seq<char> {
    if c == '&' {
        "&amp;"@
    } else if c == '<' {
        "&lt;"@
    } else if c == '>' {
        "&gt;"@
    } else {
        seq![c]
    }
}

/// `text` with `&`, `<` and `>` encoded as entities.
pub open spec fn escaped(text: Seq<char>) -> Seq<char>
    decreases text.len(),
{
    if text.len() == 0 {
        Seq::empty()
    } else {
        escaped(text.drop_last()) + escaped_char(text.last())
    }
}

/// Encodes `<`, `>` and `&` for safe inclusion in markdown text.
pub fn escape(text: &str) -> (r: String)
    ensures
        r@ == escaped(text@),
{
    let v = chars_of(text);
    let mut out = String::new();
    let mut i: usize = 0;
    while i < v.len()
        invariant
            0 <= i <= v@.len(),
            v@ == text@,
            out@ == escaped(v@.take(i as int)),
        decreases v@.len() - i,
    {
        let c = v[i];
        assert(v@.take(i + 1).drop_last() == v@.take(i as int));
        if c == '&' {
            push_str(&mut out, "&amp;");
        } else if c == '<' {
            push_str(&mut out, "&lt;");
        } else if c == '>' {
            push_str(&mut out, "&gt;");
        } else {
            push_char(&mut out, c);
        }
        i += 1;
    }
    assert(v@.take(v@.len() as int) == v@);
    out
}

/// The lines `key: value` of a frontmatter block.
pub open spec fn frontmatter_lines(lines: Seq<(&str, &str)>) -> Seq<char>
    decreases lines.len(),
{
    if lines.len() == 0 {
        Seq::empty()
    } else {
        frontmatter_lines(lines.drop_last()) + lines.last().0@ + ": "@ + lines.last().1@ + "\n"@
    }
}

/// A YAML frontmatter block: `---`, one `key: value` line each, `---`.
pub fn frontmatter(lines: &[(&str, &str)]) -> (r: String)
    ensures
        r@ == "---\n"@ + frontmatter_lines(lines@) + "---\n"@,
{
    let mut out = owned("---\n");
    let mut i: usize = 0;
    while i < lines.len()
        invariant
            0 <= i <= lines@.len(),
            out@ == "---\n"@ + frontmatter_lines(lines@.take(i as int)),
        decreases lines@.len() - i,
    {
        assert(lines@.take(i + 1).drop_last() == lines@.take(i as int));
        assert(lines@.take(i + 1).last() == lines@[i as int]);
        let (k, v) = lines[i];
        push_str(&mut out, k);
        push_str(&mut out, ": ");
        push_str(&mut out, v);
        push_str(&mut out, "\n");
        i += 1;
    }
    assert(lines@.take(lines@.len() as int) == lines@);
    push_str(&mut out, "---\n");
    out
}

/// A fenced Nix code block around `body`.
pub fn nix_code_block(body: &str) -> (r: String)
    ensures
        r@ == "```nix\n"@ + body@ + "```\n"@,
{
    let mut out = owned("```nix\n");
    push_str(&mut out, body);
    push_str(&mut out, "```\n");
    out
}

/// Law: escaped text holds no `<` and no `>`, so MDX never reads it as a
/// tag.
pub proof fn law_escaped_has_no_angle_brackets(text: Seq<char>)
    ensures
        forall|i: int| 0 <= i < escaped(text).len() ==> #[trigger] escaped(text)[i] != '<' && escaped(text)[i] != '>',
    decreases text.len(),
{
    reveal_strlit("&amp;");
    reveal_strlit("&lt;");
    reveal_strlit("&gt;");
    if text.len() > 0 {
        law_escaped_has_no_angle_brackets(text.drop_last());
        let a = escaped(text.drop_last());
        let b = escaped_char(text.last());
        assert(escaped(text) == a + b);
        assert forall|i: int| 0 <= i < (a + b).len() implies #[trigger] (a + b)[i] != '<' && (a + b)[i] != '>' by {
            if i < a.len() {
                assert((a + b)[i] == a[i]);
            } else {
                assert((a + b)[i] == b[i - a.len()]);
            }
        }
    }
}

} // verus!
