use dnf_generator::mdx_parser;
use dnf_generator::module::{category, generate_pages, module_entry, pages_listing, ModuleEntry, Page, CATEGORY_COUNT};
use dnf_generator::nix_parser::{self, module_options_of, parse_module_options, NixOption};

fn options(source: &str) -> Vec<NixOption> {
    parse_module_options(source)
}

/// The pages generated for module sources placed at the given paths.
fn pages(files: &[(&str, &str)]) -> Vec<Page> {
    let mut by_category: Vec<Vec<ModuleEntry>> = Vec::new();
    for i in 0..CATEGORY_COUNT {
        let c = category(i);
        let dir_prefix = format!("{}/", c.relative_dir);
        let found: Vec<String> =
            files.iter().filter(|(p, _)| p.starts_with(&dir_prefix)).map(|(p, _)| p.to_string()).collect();
        let mut entries = Vec::new();
        for file in nix_parser::extract_nix_files(&found) {
            let source = files.iter().find(|(p, _)| *p == file.as_str()).map(|(_, s)| *s).unwrap();
            entries.push(module_entry(&file, c.relative_dir, c.prefix, source));
        }
        by_category.push(entries);
    }
    match generate_pages(by_category) {
        Ok(p) => p,
        Err(_) => panic!("page generation failed"),
    }
}

fn page<'a>(pages: &'a [Page], rel_path: &str) -> &'a Page {
    pages.iter().find(|p| p.rel_path == rel_path).unwrap_or_else(|| panic!("missing page {rel_path}"))
}

fn all_content(files: &[(&str, &str)]) -> String {
    pages(files).iter().map(|p| format!("{}\n{}", p.rel_path, p.content)).collect::<Vec<_>>().join("\n")
}

// ─── mdx_parser ─────────────────────────────────────────────────────────────

#[test]
fn extract_nix_files_excludes_default() {
    let found = vec!["dir/default.nix".to_string(), "dir/module.nix".to_string()];
    let files = mdx_parser::extract_nix_files(&found);
    assert_eq!(files.len(), 1);
    assert!(std::path::Path::new(&files[0]).file_name().unwrap() == "module.nix");
}

#[test]
fn extract_nix_files_recursive() {
    let found = vec!["dir/sub/foo.nix".to_string()];
    let files = mdx_parser::extract_nix_files(&found);
    assert_eq!(files.len(), 1);
}

#[test]
fn extract_first_comment_basic() {
    let src = "# My module description\n{ config, lib, ... }:";
    let comment = mdx_parser::extract_first_comment(src);
    assert!(comment.is_some());
    assert!(comment.unwrap().contains("My module description"));
}

#[test]
fn extract_first_comment_none() {
    let src = "{ config, lib, ... }: {}";
    assert!(mdx_parser::extract_first_comment(src).is_none());
}

#[test]
fn extract_module_options_enable() {
    let src = r#"
            darkone.services.adguardhome.enable = mkEnableOption "AdGuard Home DNS";
        "#;
    let opts = mdx_parser::extract_module_options(src);
    assert_eq!(opts.len(), 1);
    assert!(opts[0].is_enable);
    assert_eq!(opts[0].option_type.as_deref(), Some("bool"));
}

#[test]
fn extract_module_options_mkoption() {
    let src = r#"
            darkone.services.adguardhome.port = mkOption {
              type = types.int;
              default = 3000;
              description = "Listening port";
            };
        "#;
    let opts = mdx_parser::extract_module_options(src);
    assert_eq!(opts.len(), 1);
    assert_eq!(opts[0].option_type.as_deref(), Some("types.int"));
    assert_eq!(opts[0].default.as_deref(), Some("3000"));
}

#[test]
fn module_path_extraction() {
    let path = mdx_parser::extract_module_path("dnf/modules/standard/service/adguardhome.nix", "dnf/modules", "darkone.");
    assert_eq!(path, "darkone.standard.service.adguardhome");
}

#[test]
fn nix_files_sorted_by_component() {
    let found = vec![
        "m/b.nix".to_string(),
        "m/a-b/c.nix".to_string(),
        "m/a/z.nix".to_string(),
        "m/a/default.nix".to_string(),
        "m/readme.md".to_string(),
    ];
    let files = mdx_parser::extract_nix_files(&found);
    assert_eq!(files, vec!["m/a/z.nix", "m/a-b/c.nix", "m/b.nix"]);
}

#[test]
fn first_comment_takes_first_non_empty_comment() {
    let src = "\n#\n## First line\n# Second line\n{ }";
    assert_eq!(mdx_parser::extract_first_comment(src).as_deref(), Some("First line"));
}

// ─── nix_parser ─────────────────────────────────────────────────────────────

#[test]
fn first_comment_block() {
    let src = "# A nice module.\n#\n# :::note\n# Stuff\n# :::\n\n{ ... }: {}\n";
    let c = nix_parser::extract_first_comment(src).unwrap();
    assert!(c.starts_with("A nice module."));
    assert!(c.contains(":::note"));
}

#[test]
fn no_comment() {
    let src = "{ ... }: {}";
    assert!(nix_parser::extract_first_comment(src).is_none());
}

#[test]
fn first_comment_stops_at_blank_line() {
    let src = "# One\n# Two\n\n# Later\n{ }";
    assert_eq!(nix_parser::extract_first_comment(src).as_deref(), Some("One\nTwo"));
}

#[test]
fn module_path_dnf_layout() {
    let path = nix_parser::extract_module_path(
        "/repo/dnf/modules/standard/service/adguardhome.nix",
        "/repo/dnf/modules/standard",
        "darkone.",
    );
    assert_eq!(path, "darkone.service.adguardhome");
}

#[test]
fn module_path_of_base_itself_drops_trailing_dots() {
    assert_eq!(nix_parser::extract_module_path("dnf/modules", "dnf/modules", "darkone."), "darkone");
}

#[test]
fn flat_options() {
    let src = r#"
{ lib, ... }: {
  options = {
    darkone.foo.enable = lib.mkEnableOption "Enable foo";
    darkone.foo.bar = lib.mkOption {
      type = lib.types.str;
      default = "hello";
      description = "Bar value";
    };
  };
}
"#;
    let opts = options(src);
    assert_eq!(opts.len(), 2);
    assert_eq!(opts[0].name, "enable");
    assert_eq!(opts[0].type_label, "bool");
    assert_eq!(opts[1].name, "bar");
    assert_eq!(opts[1].type_label, "str");
    assert_eq!(opts[1].default.as_deref(), Some("\"hello\""));
    assert_eq!(opts[1].description.as_deref(), Some("Bar value"));
}

#[test]
fn submodule_options() {
    let src = r#"
{ lib, ... }: {
  options = {
    darkone.x.enable = lib.mkEnableOption "Enable";
    darkone.x.service = lib.mkOption {
      default = { };
      type = lib.types.attrsOf (lib.types.submodule (_: {
        options = {
          enable = lib.mkEnableOption "Inner";
          inner.deep = lib.mkOption {
            type = lib.types.str;
            default = "";
            description = "Deep";
          };
        };
      }));
      description = "Services";
    };
  };
}
"#;
    let opts = options(src);
    let names: Vec<(usize, String)> = opts.iter().map(|o| (o.level, o.name.clone())).collect();
    assert_eq!(
        names,
        vec![
            (1, "enable".to_string()),
            (1, "service".to_string()),
            (2, "enable".to_string()),
            (2, "inner.deep".to_string()),
        ]
    );
    assert_eq!(opts[1].type_label, "attrs");
    assert_eq!(opts[1].default.as_deref(), Some("{ }"));
}

#[test]
fn list_default_overridden() {
    let src = r#"
{ lib, ... }: {
  options = {
    darkone.x.things = lib.mkOption {
      type = lib.types.listOf lib.types.str;
      default = [ "a" ];
      description = "Things";
    };
  };
}
"#;
    let opts = options(src);
    assert_eq!(opts[0].type_label, "listOf str");
    assert_eq!(opts[0].default.as_deref(), Some("[ ]"));
}

#[test]
fn no_options_block_gives_nothing() {
    assert!(options("{ lib, ... }: { config = { }; }").is_empty());
    assert!(module_options_of(None).is_empty());
    assert!(parse_module_options("").is_empty());
}

// ─── pages ──────────────────────────────────────────────────────────────────

#[test]
fn renders_simple_module() {
    let pages = pages(&[(
        "dnf/modules/security/foo.nix",
        r#"# A foo service.
{ lib, ... }: {
  options = {
    darkone.security.foo.enable = lib.mkEnableOption "Enable foo";
  };
}
"#,
    )]);
    let mdx = &page(&pages, "doc/src/content/docs/en/ref/modules/security.mdx").content;
    assert!(mdx.contains("### &#x1F511; darkone.security.foo"));
    assert!(mdx.contains("A foo service."));
    assert!(mdx.contains("* **enable** `bool` Enable foo"));
    assert!(mdx.contains("darkone.security.foo.enable = false;"));
}

#[test]
fn renders_one_line_module() {
    let mdx = all_content(&[(
        "dnf/modules/security/foo.nix",
        r#"# A foo service.
{ lib, ... }: {
  options.darkone.security.foo.enable = lib.mkEnableOption "Enable foo";
}
"#,
    )]);
    assert!(mdx.contains("### &#x1F511; darkone.security.foo"));
    assert!(mdx.contains("A foo service."));
    assert!(mdx.contains("* **enable** `bool` Enable foo"));
    assert!(mdx.contains("darkone.security.foo.enable = false;"));
}

#[test]
fn index_lists_categories_and_links_to_pages() {
    let pages = pages(&[(
        "dnf/modules/service/foo.nix",
        r#"# A foo service.
{ lib, ... }: {
  options.darkone.service.foo.enable = lib.mkEnableOption "Enable foo";
}
"#,
    )]);
    let index = &page(&pages, "doc/src/content/docs/en/ref/modules/index.mdx").content;
    assert!(index.contains("import { CardGrid, LinkCard }"));
    assert!(index.contains("<LinkCard"));
    assert!(index.contains("href=\"/en/ref/modules/service/\""));
    assert!(!index.contains("### "));
    assert_eq!(pages.len(), 2);
}

#[test]
fn rewrites_cross_page_anchor_links() {
    let pages = pages(&[
        (
            "dnf/modules/service/dnsmasq.nix",
            r#"# DNS and DHCP.
{ lib, ... }: {
  options.darkone.service.dnsmasq.enable = lib.mkEnableOption "Enable";
}
"#,
        ),
        (
            "dnf/modules/service/adguardhome.nix",
            r#"# Uses the [dnsmasq module](/ref/modules/#-darkoneservicednsmasq) as upstream.
{ lib, ... }: {
  options.darkone.service.adguardhome.enable = lib.mkEnableOption "Enable";
}
"#,
        ),
    ]);
    let mdx = &page(&pages, "doc/src/content/docs/en/ref/modules/service.mdx").content;
    assert!(mdx.contains("](/en/ref/modules/service/#-darkoneservicednsmasq)"));
    assert!(!mdx.contains("](/ref/modules/#-darkoneservicednsmasq)"));
    assert!(!mdx.contains("](/en/ref/modules/#-darkoneservicednsmasq)"));
}

#[test]
fn rewrites_category_section_links_to_page_root() {
    let pages = pages(&[(
        "dnf/modules/service/foo.nix",
        r#"# See the [service modules](/ref/modules/#service-modules) overview.
{ lib, ... }: {
  options.darkone.service.foo.enable = lib.mkEnableOption "Enable";
}
"#,
    )]);
    let mdx = &page(&pages, "doc/src/content/docs/en/ref/modules/service.mdx").content;
    assert!(mdx.contains("](/en/ref/modules/service/)"));
    assert!(!mdx.contains("#service-modules"));
}

#[test]
fn localizes_unprefixed_internal_links() {
    let mdx = all_content(&[(
        "dnf/modules/service/adguardhome.nix",
        r#"# See [the fr page](/fr/ref/modules/#x) and [home](https://example.com).
{ lib, ... }: {
  options.darkone.service.adguardhome.enable = lib.mkEnableOption "Enable";
}
"#,
    )]);
    assert!(mdx.contains("](/fr/ref/modules/#x)"));
    assert!(mdx.contains("](https://example.com)"));
    assert!(!mdx.contains("](/ref/"));
}

#[test]
fn renders_submodule_block() {
    let mdx = all_content(&[(
        "dnf/modules/system/services.nix",
        r#"{ lib, ... }: {
  options = {
    darkone.system.services.enable = lib.mkEnableOption "Enable manager";
    darkone.system.services.service = lib.mkOption {
      default = { };
      type = lib.types.attrsOf (lib.types.submodule (_: {
        options = {
          enable = lib.mkEnableOption "Enable proxy";
          persist.dirs = lib.mkOption {
            type = lib.types.listOf lib.types.str;
            default = [ ];
            description = "Dirs";
          };
        };
      }));
      description = "Services";
    };
  };
}
"#,
    )]);
    assert!(mdx.contains("### &#x2699; darkone.system.services"));
    assert!(mdx.contains("* **service** `attrs` Services"));
    assert!(mdx.contains("  * **enable** `bool` Enable proxy"));
    assert!(mdx.contains("  * **persist.dirs** `listOf str` Dirs"));
    assert!(mdx.contains("service.enable = false;"));
    assert!(mdx.contains("service.persist.dirs = [ ];"));
}

#[test]
fn empty_project_gives_only_the_index() {
    let pages = pages(&[]);
    assert_eq!(pages.len(), 1);
    assert_eq!(pages[0].rel_path, "doc/src/content/docs/en/ref/modules/index.mdx");
}

#[test]
fn listing_shows_each_page_under_its_path() {
    let pages = vec![
        Page { rel_path: "a.mdx".to_string(), content: "A".to_string() },
        Page { rel_path: "b.mdx".to_string(), content: "B".to_string() },
    ];
    assert_eq!(pages_listing(&pages), "// a.mdx\nA\n// b.mdx\nB");
}

#[test]
fn lines_and_attrs_defaults_forced() {
    let src = r#"
{ lib, ... }: {
  options = {
    darkone.x.script = lib.mkOption {
      type = lib.types.lines;
      default = "echo hi";
      example = "echo bye";
    };
    darkone.x.extra = lib.mkOption {
      type = lib.types.attrs;
      default = { a = 1; };
    };
  };
}
"#;
    let opts = options(src);
    assert_eq!(opts.len(), 2);
    assert_eq!(opts[0].type_label, "lines");
    assert_eq!(opts[0].default.as_deref(), Some("\"\""));
    assert!(opts[0].example.is_none());
    assert_eq!(opts[1].type_label, "attrs");
    assert_eq!(opts[1].default.as_deref(), Some("{ }"));
    assert!(opts.iter().all(|o| o.level == 1));
}

#[test]
fn same_modules_give_same_pages() {
    let files = [
        ("dnf/modules/service/foo.nix", "# Foo.\n{ lib, ... }: {\n  options.darkone.service.foo.enable = lib.mkEnableOption \"Enable foo\";\n}\n"),
        ("dnf/modules/system/bar.nix", "# Bar.\n{ lib, ... }: {\n  options.darkone.system.bar.enable = lib.mkEnableOption \"Enable bar\";\n}\n"),
    ];
    let first = pages(&files);
    let second = pages(&files);
    assert_eq!(first.len(), second.len());
    for (a, b) in first.iter().zip(second.iter()) {
        assert_eq!(a.rel_path, b.rel_path);
        assert_eq!(a.content, b.content);
    }
}

#[test]
fn one_link_card_per_category_and_ordered_front_matter() {
    let files = [
        ("dnf/modules/service/foo.nix", "# Foo.\n{ lib, ... }: {\n  options.darkone.service.foo.enable = lib.mkEnableOption \"Enable foo\";\n}\n"),
        ("dnf/modules/system/bar.nix", "# Bar.\n{ lib, ... }: {\n  options.darkone.system.bar.enable = lib.mkEnableOption \"Enable bar\";\n}\n"),
    ];
    let pages = pages(&files);
    assert_eq!(pages.len(), 3);
    assert_eq!(pages[0].content.matches("<LinkCard").count(), 2);
    for (k, p) in pages.iter().skip(1).enumerate() {
        assert!(p.content.starts_with("---\ntitle: "));
        assert!(p.content.contains(&format!("\nsidebar:\n  order: {}\n", k + 2)));
    }
}

#[test]
fn distinct_listing_gives_distinct_sorted_files() {
    let found = vec!["m/b.nix".to_string(), "m/a.nix".to_string(), "m/c/d.nix".to_string(), "m/default.nix".to_string()];
    let files = nix_parser::extract_nix_files(&found);
    assert_eq!(files, vec!["m/a.nix", "m/b.nix", "m/c/d.nix"]);
    for w in files.windows(2) {
        assert_ne!(w[0], w[1]);
    }
}
