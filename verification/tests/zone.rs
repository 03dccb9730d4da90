use dnf_generator::schema::{Gateway, GatewayLan, GatewayWan, ZoneCfg};
use dnf_generator::zone::{NixZone, EXTERNAL_ZONE_KEY};

fn configured(name: &str) -> NixZone {
    let mut z = NixZone::new(name);
    assert!(z.register_zone_config(None, "fr_FR.UTF-8", "Europe/Paris", "darkone.lan").is_ok());
    z
}

#[test]
fn register_host_basic() {
    let mut z = NixZone::new("lab");
    assert!(z.register_host("server1", Some("10.1.2.1"), false).is_ok());
    assert_eq!(z.hosts().get("server1").and_then(|o| o.as_deref()), Some("10.1.2.1"));
}

#[test]
fn register_host_duplicate_fails() {
    let mut z = NixZone::new("lab");
    assert!(z.register_host("server1", Some("10.1.2.1"), false).is_ok());
    assert!(z.register_host("server1", Some("10.1.2.2"), false).is_err());
}

#[test]
fn register_host_ip_conflict_fails() {
    let mut z = NixZone::new("lab");
    assert!(z.register_host("srv1", Some("10.1.2.1"), false).is_ok());
    assert!(z.register_host("srv2", Some("10.1.2.1"), false).is_err());
}

#[test]
fn register_mac_valid() {
    let mut z = NixZone::new("lab");
    assert!(z.register_mac_addresses("aa:bb:cc:dd:ee:ff", "10.1.2.1").is_ok());
    assert!(z.mac_addresses().contains_key("10.1.2.1"));
}

#[test]
fn register_mac_duplicate_fails() {
    let mut z = NixZone::new("lab");
    assert!(z.register_mac_addresses("aa:bb:cc:dd:ee:ff", "10.1.2.1").is_ok());
    assert!(z.register_mac_addresses("aa:bb:cc:dd:ee:ff", "10.1.2.2").is_err());
}

#[test]
fn register_aliases_valid() {
    let mut z = NixZone::new("lab");
    assert!(z.register_host("server1", Some("10.1.2.1"), false).is_ok());
    assert!(z.register_aliases("server1", &vec!["srv1".to_string(), "s1".to_string()]).is_ok());
}

#[test]
fn register_alias_duplicate_fails() {
    let mut z = NixZone::new("lab");
    assert!(z.register_host("a", Some("10.1.2.1"), false).is_ok());
    assert!(z.register_host("b", Some("10.1.2.2"), false).is_ok());
    assert!(z.register_aliases("a", &vec!["alias1".to_string()]).is_ok());
    assert!(z.register_aliases("b", &vec!["alias1".to_string()]).is_err());
}

#[test]
fn register_roaming_host_valid() {
    let mut z = NixZone::new("beta");
    assert!(z.register_roaming_host("laptop", "aa:bb:cc:dd:ee:ff", "10.8.6.3").is_ok());
    match z.roaming().get("laptop") {
        Some((mac, ip)) => {
            assert_eq!(mac, "aa:bb:cc:dd:ee:ff");
            assert_eq!(ip, "10.8.6.3");
        },
        None => panic!("roaming host missing"),
    }
}

#[test]
fn register_roaming_host_native_mac_fails() {
    let mut z = NixZone::new("beta");
    assert!(z.register_mac_addresses("aa:bb:cc:dd:ee:ff", "10.8.2.1").is_ok());
    assert!(z.register_roaming_host("laptop", "aa:bb:cc:dd:ee:ff", "10.8.6.3").is_err());
}

#[test]
fn roaming_block_free_by_default() {
    let mut z = configured("beta");
    assert!(z.register_host("server1", Some("10.1.2.1"), false).is_ok());
    assert!(z.assert_roaming_block_free().is_ok());
}

#[test]
fn roaming_block_used_by_native_host_fails() {
    let mut z = configured("beta");
    assert!(z.register_host("intruder", Some("10.1.6.1"), false).is_ok());
    assert!(z.assert_roaming_block_free().is_err());
}

#[test]
fn dhcp_range_default() {
    let z = configured("lab");
    assert_eq!(z.dhcp_range, vec!["10.1.3.200,10.1.3.249,24h".to_string()]);
}

#[test]
fn fixed_ip_outside_dhcp_range_ok() {
    let mut z = configured("lab");
    assert!(z.register_host("server1", Some("10.1.2.1"), false).is_ok());
    assert!(z.assert_hosts_outside_dhcp_range().is_ok());
}

#[test]
fn fixed_ip_inside_dhcp_range_fails() {
    let mut z = configured("lab");
    assert!(z.register_host("laptop", Some("10.1.3.238"), false).is_ok());
    let err = match z.assert_hosts_outside_dhcp_range() {
        Err(e) => e.message(),
        Ok(()) => panic!("expected a conflict"),
    };
    assert!(err.contains("laptop"), "{err}");
    assert!(err.contains("10.1.3.238"), "{err}");
}

#[test]
fn dhcp_range_bounds_are_inclusive() {
    let mut z = configured("lab");
    assert!(z.register_host("edge", Some("10.1.3.200"), false).is_ok());
    assert!(z.assert_hosts_outside_dhcp_range().is_err());
}

#[test]
fn host_without_ip_ignored() {
    let mut z = configured("lab");
    assert!(z.register_host("nomad", None, false).is_ok());
    assert!(z.assert_hosts_outside_dhcp_range().is_ok());
}

#[test]
fn several_dhcp_ranges_all_checked() {
    let mut z = NixZone::new("lab");
    let cfg = ZoneCfg {
        description: None,
        locale: None,
        timezone: None,
        ip_prefix: Some("10.4".to_string()),
        gateway: Some(Gateway {
            wan: Some(GatewayWan { interface: Some("eth0".to_string()) }),
            lan: Some(GatewayLan {
                interfaces: Some(vec!["eth1".to_string()]),
                dhcp_range: Some(vec!["10.4.3.10,10.4.3.20,24h".to_string(), "10.4.7.10,10.4.7.20,24h".to_string()]),
            }),
            vpn: None,
        }),
        extra_hosts: None,
    };
    assert!(z.register_zone_config(Some(&cfg), "fr_FR.UTF-8", "Europe/Paris", "darkone.lan").is_ok());
    assert!(z.register_host("second", Some("10.4.7.15"), false).is_ok());
    assert!(z.assert_hosts_outside_dhcp_range().is_err());
}

#[test]
fn external_zone_has_no_range_to_check() {
    let mut z = configured(EXTERNAL_ZONE_KEY);
    assert!(z.register_host("hcs", Some("10.1.3.210"), false).is_ok());
    assert!(z.assert_hosts_outside_dhcp_range().is_ok());
}

#[test]
fn external_zone_no_dhcp() {
    let z = configured(EXTERNAL_ZONE_KEY);
    assert!(z.dhcp_range.is_empty());
    assert_eq!(z.domain(), "darkone.lan");
}

#[test]
fn local_zone_domain() {
    let z = configured("prod");
    assert_eq!(z.domain(), "prod.darkone.lan");
}

#[test]
fn forced_registration_keeps_address() {
    let mut z = NixZone::new("lab");
    assert!(z.register_host("srv", Some("10.1.2.1"), false).is_ok());
    assert!(z.register_host("srv", None, true).is_ok());
    assert_eq!(z.hosts().get("srv").and_then(|o| o.as_deref()), Some("10.1.2.1"));
    assert!(z.register_host("", Some("10.1.2.1"), false).is_ok());
    assert_eq!(z.hosts().len(), 1);
}

#[test]
fn invalid_mac_refused() {
    let mut z = NixZone::new("lab");
    assert!(z.register_mac_addresses("AA:BB:CC:DD:EE:FF", "10.1.2.1").is_err());
    assert_eq!(z.mac_addresses().len(), 0);
}

fn bare_cfg() -> ZoneCfg {
    ZoneCfg { description: None, locale: None, timezone: None, ip_prefix: None, gateway: None, extra_hosts: None }
}

#[test]
fn common_block_fills_unset_settings() {
    let mut own = bare_cfg();
    own.timezone = Some("Europe/Berlin".to_string());
    let mut common = bare_cfg();
    common.locale = Some("en_US.UTF-8".to_string());
    common.timezone = Some("America/New_York".to_string());
    common.ip_prefix = Some("10.9".to_string());
    let mut z = NixZone::new("lab");
    assert!(z.register_zone_config_with(Some(&own), Some(&common), "fr_FR.UTF-8", "Europe/Paris", "darkone.lan").is_ok());
    assert_eq!(z.config.locale.as_deref(), Some("en_US.UTF-8"));
    assert_eq!(z.config.lang.as_deref(), Some("en"));
    assert_eq!(z.config.timezone.as_deref(), Some("Europe/Berlin"));
    assert_eq!(z.config.ip_prefix.as_deref(), Some("10.9"));
    assert_eq!(z.config.description.as_deref(), Some("lab network zone"));
}

#[test]
fn invalid_gateway_refused_and_zone_unchanged() {
    let mut cfg = bare_cfg();
    cfg.gateway = Some(Gateway { wan: None, lan: None, vpn: None });
    let mut z = NixZone::new("lab");
    match z.register_zone_config(Some(&cfg), "fr_FR.UTF-8", "Europe/Paris", "darkone.lan") {
        Err(dnf_generator::error::NixError::Validation(_)) => {},
        _ => panic!("expected a validation error"),
    }
    assert!(z.config.locale.is_none());
    assert!(z.dhcp_range.is_empty());
}
