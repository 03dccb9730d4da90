use dnf_generator::configuration::Configuration;
use dnf_generator::files::ProjectFiles;
use dnf_generator::schema::{ConfigFile, HostEntry, Ipv4Cfg, NetworkCfg, ServiceCfg, UserCfg, ZoneCfg};
use dnf_generator::service::ServiceRegistry;
use dnf_generator::strmap::StrMap;

fn entry() -> HostEntry {
    HostEntry {
        hostname: None,
        name: None,
        profile: None,
        zone: None,
        ipv4: None,
        arch: None,
        aliases: None,
        groups: None,
        users: None,
        tags: None,
        features: None,
        mac: None,
        services: None,
        disko: None,
        range: None,
        hosts: None,
    }
}

fn s(v: &str) -> Option<String> {
    Some(v.to_string())
}

fn strings(v: &[&str]) -> Option<Vec<String>> {
    Some(v.iter().map(|x| x.to_string()).collect())
}

fn services(names: &[&str]) -> Option<StrMap<Option<ServiceCfg>>> {
    let mut m = StrMap::new();
    for n in names {
        m.insert(n.to_string(), None);
    }
    Some(m)
}

fn config() -> ConfigFile {
    let mut zones = StrMap::new();
    zones.insert(
        "lab".to_string(),
        ZoneCfg { description: None, locale: None, timezone: None, ip_prefix: s("10.1"), gateway: None, extra_hosts: None },
    );
    let mut users = StrMap::new();
    users.insert(
        "alice".to_string(),
        UserCfg { uid: 1001, name: "Alice".to_string(), email: None, profile: None, groups: vec!["admin".to_string()], disabled: false },
    );
    let mut gw = entry();
    gw.hostname = s("gw");
    gw.name = s("Gateway");
    gw.profile = s("gateway");
    gw.zone = s("lab:1.1");
    gw.services = services(&["adguardhome"]);
    let mut ws = entry();
    ws.hostname = s("ws");
    ws.name = s("Workstation");
    ws.profile = s("desktop");
    ws.zone = s("lab:2.10");
    ws.groups = strings(&["admin"]);
    ws.users = strings(&["bob"]);
    ws.features = strings(&["vpn", "dns:prod"]);
    let mut vps = entry();
    vps.hostname = s("vps");
    vps.name = s("VPS");
    vps.profile = s("server");
    vps.ipv4 = Some(Ipv4Cfg { external: s("1.2.3.4"), internal: s("100.64.0.5") });
    vps.services = services(&["headscale"]);
    let mut range = entry();
    range.hostname = s("pc-%'02s");
    range.profile = s("desktop");
    range.zone = s("lab");
    range.range = Some(vec![1, 2]);
    let mut member = entry();
    member.name = s("Storage");
    member.zone = s("lab:2.20");
    let mut members = StrMap::new();
    members.insert("nas".to_string(), member);
    let mut list = entry();
    list.hostname = s("srv-%s");
    list.profile = s("server");
    list.hosts = Some(members);
    ConfigFile {
        network: Some(NetworkCfg { domain: s("example.lan"), default: None, coordination: None, smtp: None, matrix: None }),
        zones: Some(zones),
        users,
        hosts: vec![range, gw, list, ws, vps],
    }
}

fn files() -> ProjectFiles {
    ProjectFiles::new(vec!["dnf/home/profiles/minimal".to_string(), "usr/home/profiles/nix-admin".to_string()])
}

fn load(cfg: &ConfigFile) -> Configuration {
    match Configuration::load(cfg, ServiceRegistry::default(), &files()) {
        Ok(c) => c,
        Err(e) => panic!("configuration refused: {}", e.message()),
    }
}

#[test]
fn hosts_keep_flavour_order() {
    let c = load(&config());
    let keys: Vec<&str> = (0..c.hosts.len()).map(|i| c.hosts.key_at(i).as_str()).collect();
    assert_eq!(keys, vec!["gw", "ws", "vps", "pc-01", "pc-02", "srv-nas"]);
}

#[test]
fn users_end_with_the_maintenance_user() {
    let c = load(&config());
    assert_eq!(c.users.len(), 2);
    assert_eq!(c.users.key_at(0), "alice");
    assert_eq!(c.users.key_at(1), "nix");
    assert_eq!(c.users.get("nix").map(|u| u.profile.as_str()), Some("usr/home/profiles/nix-admin"));
    assert_eq!(c.users.get("nix").map(|u| u.uid), Some(65000));
}

#[test]
fn host_users_sorted_with_group_members() {
    let c = load(&config());
    let ws = c.hosts.get("ws").unwrap();
    assert_eq!(ws.users, vec!["alice".to_string(), "bob".to_string(), "nix".to_string()]);
    assert_eq!(ws.features.get("vpn").map(String::as_str), Some("lab"));
    assert_eq!(ws.features.get("dns").map(String::as_str), Some("prod"));
    let pc = c.hosts.get("pc-01").unwrap();
    assert_eq!(pc.users, vec!["nix".to_string()]);
}

#[test]
fn gateway_detected_and_records_written() {
    let c = load(&config());
    let lab = c.network.get_zone("lab").ok().unwrap();
    assert_eq!(lab.gateway_lan_ip(), Some("10.1.1.1"));
    assert_eq!(lab.domain(), "lab.example.lan");
    assert!(c.host_records.contains(&"gw,gw.lab.example.lan,10.1.1.1".to_string()));
    assert!(c.host_records.contains(&"srv-nas,srv-nas.lab.example.lan,10.1.2.20".to_string()));
    assert_eq!(c.hosts.get("srv-nas").map(|h| h.name.as_str()), Some("Storage"));
}

#[test]
fn external_host_replicated_in_local_zones() {
    let c = load(&config());
    let lab = c.network.get_zone("lab").ok().unwrap();
    assert_eq!(lab.hosts().get("vps").and_then(|o| o.as_deref()), Some("1.2.3.4"));
    let www = c.network.get_zone("www").ok().unwrap();
    assert_eq!(www.gateway_vpn_ipv4(), Some("100.64.0.5"));
    let svc_count = c.network.services().len();
    assert_eq!(svc_count, 2);
}

#[test]
fn duplicate_ip_refused() {
    let mut cfg = config();
    let mut dup = entry();
    dup.hostname = s("dup");
    dup.name = s("Dup");
    dup.profile = s("desktop");
    dup.zone = s("lab:2.10");
    cfg.hosts.push(dup);
    assert!(Configuration::load(&cfg, ServiceRegistry::default(), &files()).is_err());
}

#[test]
fn missing_user_profile_refused() {
    let cfg = config();
    let empty = ProjectFiles::new(vec![]);
    assert!(Configuration::load(&cfg, ServiceRegistry::default(), &empty).is_err());
}

#[test]
fn range_out_of_bound_refused() {
    let mut cfg = config();
    let mut big = entry();
    big.hostname = s("n%d");
    big.zone = s("lab");
    big.profile = s("desktop");
    big.range = Some(vec![0, 1001]);
    cfg.hosts.push(big);
    assert!(Configuration::load(&cfg, ServiceRegistry::default(), &files()).is_err());
}

#[test]
fn common_zone_block_gives_defaults() {
    let mut cfg = config();
    let mut zones = StrMap::new();
    zones.insert(
        "common".to_string(),
        ZoneCfg {
            description: None,
            locale: s("en_US.UTF-8"),
            timezone: s("America/New_York"),
            ip_prefix: None,
            gateway: None,
            extra_hosts: None,
        },
    );
    zones.insert(
        "lab".to_string(),
        ZoneCfg { description: None, locale: None, timezone: s("Europe/Berlin"), ip_prefix: s("10.1"), gateway: None, extra_hosts: None },
    );
    cfg.zones = Some(zones);
    let c = load(&cfg);
    assert!(c.network.zones.get("common").is_none());
    let lab = c.network.zones.get("lab").expect("lab zone");
    assert_eq!(lab.config.locale.as_deref(), Some("en_US.UTF-8"));
    assert_eq!(lab.config.lang.as_deref(), Some("en"));
    assert_eq!(lab.config.timezone.as_deref(), Some("Europe/Berlin"));
    let www = c.network.zones.get("www").expect("external zone");
    assert_eq!(www.config.locale.as_deref(), Some("fr_FR.UTF-8"));
}
