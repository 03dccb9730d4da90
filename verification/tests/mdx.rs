use dnf_generator::mdx_writer::{escape, frontmatter, nix_code_block};
use dnf_generator::module::{attr_text, entity_to_char, escape_angle_brackets, gh_slug, module_anchor};
use dnf_generator::strmap::StrMap;

#[test]
fn escape_encodes_entities() {
    assert_eq!(escape("a<b>&c"), "a&lt;b&gt;&amp;c");
    assert!(!escape("<<>>").contains('<'));
}

#[test]
fn frontmatter_block() {
    assert_eq!(frontmatter(&[("title", "Foo"), ("order", "2")]), "---\ntitle: Foo\norder: 2\n---\n");
    assert_eq!(frontmatter(&[]), "---\n---\n");
}

#[test]
fn nix_code_block_is_fenced() {
    assert_eq!(nix_code_block("x = 1;\n"), "```nix\nx = 1;\n```\n");
}

#[test]
fn angle_brackets_escaped_outside_code_only() {
    assert_eq!(escape_angle_brackets("a <-> b `x<y` c>"), "a &lt;-&gt; b `x<y` c&gt;");
}

#[test]
fn numeric_entity_becomes_its_character() {
    assert_eq!(entity_to_char("&#x1F511;"), "\u{1F511}");
    assert_eq!(entity_to_char("plain"), "plain");
}

#[test]
fn module_anchor_follows_heading_slug() {
    assert_eq!(gh_slug("Service modules"), "service-modules");
    assert_eq!(module_anchor("darkone.service.dnsmasq"), "-darkoneservicednsmasq");
}

#[test]
fn strmap_insert_reads_back_and_keeps_order() {
    let mut m = StrMap::new();
    m.insert("b".to_string(), 1);
    m.insert("a".to_string(), 2);
    m.insert("b".to_string(), 3);
    assert_eq!(m.len(), 2);
    assert_eq!(m.key_at(0), "b");
    assert_eq!(m.get("b"), Some(&3));
    assert_eq!(m.get("a"), Some(&2));
    assert_eq!(m.get("c"), None);
}

#[test]
fn attr_text_keeps_link_text_and_drops_emphasis() {
    assert_eq!(
        attr_text("**A home manager module** works with [home manager](https://x.org) `profiles`").as_deref(),
        Some("A home manager module works with home manager profiles")
    );
}
