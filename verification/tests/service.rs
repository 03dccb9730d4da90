use dnf_generator::nix_parser::{NixAttr, NixBinding, NixExpr, NixNode};
use dnf_generator::service::{NixService, ServiceRegistry};
use dnf_generator::error::NixError;

fn ident(name: &str) -> NixNode {
    NixNode { text: name.to_string(), expr: NixExpr::Ident(Some(name.to_string())) }
}

fn path(names: &[&str]) -> Option<Vec<NixAttr>> {
    Some(names.iter().map(|n| NixAttr::Ident(Some(n.to_string()))).collect())
}

fn set(bindings: Vec<NixBinding>) -> NixNode {
    NixNode { text: String::new(), expr: NixExpr::AttrSet(bindings) }
}

fn bind(names: &[&str], value: NixNode) -> NixBinding {
    NixBinding { path: path(names), value: Some(value) }
}

#[test]
fn fqdn_local_service() {
    let svc = NixService::new("nextcloud", "nas", "lab");
    assert_eq!(svc.fqdn("lab.example.lan", "example.lan"), "nextcloud.lab.example.lan");
}

#[test]
fn fqdn_global_service() {
    let mut svc = NixService::new("headscale", "vpn", "lab");
    svc.global = true;
    assert_eq!(svc.fqdn("lab.example.lan", "example.lan"), "headscale.example.lan");
}

#[test]
fn fqdn_custom_domain() {
    let mut svc = NixService::new("auth", "server", "prod");
    svc.domain = Some("sso".to_string());
    assert_eq!(svc.fqdn("prod.example.lan", "example.lan"), "sso.prod.example.lan");
}

#[test]
fn registry_parses_nix_flags() {
    let nix = r#"{
          ncps = { reverseProxy = false; uniquePerZone = true; };
          headscale = { reverseProxy = false; externalAccess = true; };
          nextcloud = {};
          turn = { externalAccess = true; };
        }"#;
    let reg = match ServiceRegistry::from_nix(nix) {
        Ok(r) => r,
        Err(_) => panic!("registry refused"),
    };
    assert!(!reg.flags("ncps").reverse_proxy);
    assert!(reg.flags("ncps").unique_per_zone);
    assert!(!reg.flags("headscale").reverse_proxy);
    assert!(reg.flags("headscale").external_access);
    assert!(reg.flags("nextcloud").reverse_proxy);
    assert!(!reg.flags("nextcloud").unique_per_zone);
    assert!(reg.flags("turn").external_access);
    assert!(reg.flags("turn").reverse_proxy);
}

#[test]
fn registry_ignores_non_topology_keys() {
    let nix = r#"{
          ncps = {
            reverseProxy = false;
            description = "something";
            activation.profiles.minimal.triggers.keys.ncps = [ "enable" ];
          };
        }"#;
    let reg = match ServiceRegistry::from_nix(nix) {
        Ok(r) => r,
        Err(_) => panic!("registry refused"),
    };
    assert!(!reg.flags("ncps").reverse_proxy);
    assert!(!reg.flags("ncps").unique_per_zone);
}

#[test]
fn registry_from_tree_reads_flags() {
    let list = NixNode { text: "[ \"enable\" ]".to_string(), expr: NixExpr::Other };
    let root = set(vec![bind(
        &["ncps"],
        set(vec![bind(&["uniquePerZone"], ident("true")), bind(&["activation", "keys"], list)]),
    )]);
    let reg = match ServiceRegistry::from_tree(Some(&root)) {
        Ok(r) => r,
        Err(_) => panic!("registry refused"),
    };
    assert!(reg.flags("ncps").unique_per_zone);
    assert!(reg.flags("ncps").reverse_proxy);
}

#[test]
fn registry_unknown_service_defaults_reverse_proxy() {
    let reg = ServiceRegistry::default();
    let f = reg.flags("whatever");
    assert!(f.reverse_proxy);
    assert!(!f.unique_per_zone);
    assert!(!f.external_access);
}

#[test]
fn registry_refuses_non_attrset_root() {
    match ServiceRegistry::from_nix("true") {
        Err(NixError::Generate(m)) => assert_eq!(m, "modules.nix: expected attrset at root"),
        _ => panic!("expected a generator error"),
    }
    assert!(ServiceRegistry::from_nix("").is_err());
    assert!(ServiceRegistry::from_tree(None).is_err());
}

#[test]
fn registry_later_entry_wins_and_true_only_sets() {
    let nix = r#"{ a = { uniquePerZone = true; }; a = { externalAccess = "true"; }; }"#;
    let reg = match ServiceRegistry::from_nix(nix) {
        Ok(r) => r,
        Err(_) => panic!("registry refused"),
    };
    assert!(!reg.flags("a").unique_per_zone);
    assert!(!reg.flags("a").external_access);
    assert_eq!(reg.map.len(), 1);
}
