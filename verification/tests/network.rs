use dnf_generator::host::ServiceParams;
use dnf_generator::network::NixNetwork;
use dnf_generator::schema::{Coordination, NetworkCfg, NetworkDefault};
use dnf_generator::service::ServiceRegistry;
use dnf_generator::strmap::StrMap;
use dnf_generator::zone::{NixZone, EXTERNAL_ZONE_KEY};

fn params(global: bool) -> ServiceParams {
    ServiceParams { title: None, description: None, domain: None, icon: None, global }
}

fn services(list: &[(&str, bool)]) -> StrMap<ServiceParams> {
    let mut m = StrMap::new();
    for (name, global) in list {
        m.insert(name.to_string(), params(*global));
    }
    m
}

fn registry(nix: &str) -> ServiceRegistry {
    match ServiceRegistry::from_nix(nix) {
        Ok(r) => r,
        Err(_) => panic!("registry refused"),
    }
}

fn network_cfg(domain: &str, locale: &str) -> NetworkCfg {
    NetworkCfg {
        domain: Some(domain.to_string()),
        default: Some(NetworkDefault {
            locale: Some(locale.to_string()),
            timezone: Some("Europe/Paris".to_string()),
            password_hash: None,
        }),
        coordination: Some(Coordination {
            enable: Some(false),
            hostname: Some("hcs".to_string()),
            domain: Some("headscale".to_string()),
        }),
        smtp: None,
        matrix: None,
    }
}

#[test]
fn register_network_config_defaults() {
    let mut net = NixNetwork::new();
    let cfg = network_cfg("mynet.lan", "fr_FR.UTF-8");
    assert!(net.register_network_config(Some(&cfg)).is_ok());
    assert_eq!(net.config.domain, "mynet.lan");
}

#[test]
fn register_network_config_invalid_locale() {
    let mut net = NixNetwork::new();
    let mut cfg = network_cfg("x.lan", "bad");
    cfg.coordination = Some(Coordination {
        enable: Some(false),
        hostname: Some("h".to_string()),
        domain: Some("hcs".to_string()),
    });
    assert!(net.register_network_config(Some(&cfg)).is_err());
}

#[test]
fn register_network_config_without_settings_uses_defaults() {
    let mut net = NixNetwork::new();
    assert!(net.register_network_config(None).is_ok());
    assert_eq!(net.config.default_locale, "fr_FR.UTF-8");
    assert_eq!(net.config.default_timezone, "Europe/Paris");
    assert_eq!(net.config.coordination_domain, "headscale");
}

#[test]
fn register_service_conflict_in_zone() {
    let mut net = NixNetwork::new();
    assert!(net.register_services("nas1", "lab", &services(&[("nextcloud", false)])).is_ok());
    assert!(net.register_services("nas2", "lab", &services(&[("nextcloud", false)])).is_err());
}

#[test]
fn zones_without_harmonia_skips_served_and_external_zones() {
    let mut net = NixNetwork::new();
    for name in ["ag", "lg", EXTERNAL_ZONE_KEY] {
        let mut zone = NixZone::new(name);
        assert!(zone.register_host("h1", Some("10.0.0.1"), false).is_ok());
        net.add_zone(zone);
    }
    net.add_zone(NixZone::new("empty"));
    assert!(net.register_services("h1", "ag", &services(&[("harmonia", false)])).is_ok());
    assert_eq!(net.zones_without_harmonia(), vec!["lg".to_string()]);
}

#[test]
fn register_unique_service_per_zone() {
    let mut net = NixNetwork::new();
    net.registry = registry(r#"{ adguardhome = { uniquePerZone = true; }; }"#);
    assert!(net.register_services("dns1", "lab", &services(&[("adguardhome", false)])).is_ok());
    assert!(net.register_services("dns2", "lab", &services(&[("adguardhome", false)])).is_err());
}

#[test]
fn register_global_domain_conflict() {
    let mut net = NixNetwork::new();
    assert!(net.register_services("srv1", "lab", &services(&[("auth", true)])).is_ok());
    assert!(net.register_services("srv2", "prod", &services(&[("auth", true)])).is_err());
}

fn monitoring_registry() -> ServiceRegistry {
    registry(r#"{ monitoring = { require = [ "prometheus" ]; }; }"#)
}

#[test]
fn register_require_missing_dependency_fails() {
    let mut net = NixNetwork::new();
    net.registry = monitoring_registry();
    assert!(net.register_services("box", "lab", &services(&[("monitoring", false)])).is_err());
}

#[test]
fn register_require_satisfied_same_host_ok() {
    let mut net = NixNetwork::new();
    net.registry = monitoring_registry();
    assert!(net
        .register_services("box", "lab", &services(&[("monitoring", false), ("prometheus", false)]))
        .is_ok());
}

#[test]
fn external_service_implicit_global() {
    let mut net = NixNetwork::new();
    assert!(net.register_services("vpn", EXTERNAL_ZONE_KEY, &services(&[("headscale", false)])).is_ok());
    let svc = net.services().value_at(0);
    assert!(svc.global);
}

#[test]
fn refused_services_leave_network_unchanged() {
    let mut net = NixNetwork::new();
    net.registry = monitoring_registry();
    assert!(net.register_services("box", "lab", &services(&[("web", false), ("monitoring", false)])).is_err());
    assert_eq!(net.services().len(), 0);
    assert_eq!(net.registry.required_services("monitoring").len(), 1);
    assert_eq!(net.registry.required_services("web").len(), 0);
}
