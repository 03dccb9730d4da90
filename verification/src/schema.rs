//! Typed shape of `config.yaml`.
//!
//! The configuration is first checked against a strict schema (unknown keys
//! and type mismatches are rejected, with the path of the violation); these
//! are the resulting values the loaders consume. Ordered mappings keep the
//! order of the YAML source.
use vstd::prelude::*;
use crate::strmap::{Duplicate, StrMap};
use crate::text::{clone_opt, clone_opt_strings};

verus! {

/// Root of `config.yaml`.
pub struct ConfigFile {
    pub network: Option<NetworkCfg>,
    pub zones: Option<StrMap<ZoneCfg>>,
    /// Required: the deployment always declares at least an (empty) users map.
    pub users: StrMap<UserCfg>,
    pub hosts: Vec<HostEntry>,
}

// ─── network ─────────────────────────────────────────────────────────────────

pub struct NetworkCfg {
    pub domain: Option<String>,
    pub default: Option<NetworkDefault>,
    pub coordination: Option<Coordination>,
    pub smtp: Option<Smtp>,
    pub matrix: Option<Matrix>,
}

pub struct NetworkDefault {
    pub locale: Option<String>,
    pub timezone: Option<String>,
    /// Injected by the framework into `var/generated/config.yaml`.
    pub password_hash: Option<String>,
}

pub struct Coordination {
    pub enable: Option<bool>,
    pub hostname: Option<String>,
    pub domain: Option<String>,
}

pub struct Smtp {
    pub protocol: Option<String>,
    pub server: Option<String>,
    pub port: Option<u16>,
    pub username: Option<String>,
    pub sender: Option<String>,
    pub tls: Option<bool>,
}

pub struct Matrix {
    pub admin: Option<String>,
}

// ─── zones ───────────────────────────────────────────────────────────────────

pub struct ZoneCfg {
    pub description: Option<String>,
    pub locale: Option<String>,
    pub timezone: Option<String>,
    pub ip_prefix: Option<String>,
    pub gateway: Option<Gateway>,
    pub extra_hosts: Option<StrMap<ExtraHost>>,
}

pub struct Gateway {
    pub wan: Option<GatewayWan>,
    pub lan: Option<GatewayLan>,
    pub vpn: Option<GatewayVpn>,
}

pub struct GatewayWan {
    pub interface: Option<String>,
}

pub struct GatewayLan {
    pub interfaces: Option<Vec<String>>,
    pub dhcp_range: Option<Vec<String>>,
}

pub struct GatewayVpn {
    pub ipv4: Option<String>,
}

pub struct ExtraHost {
    pub ip: String,
    pub name: Option<String>,
    pub mac: Option<String>,
    pub aliases: Option<Vec<String>>,
    pub services: Option<StrMap<Option<ServiceCfg>>>,
}

// ─── users ───────────────────────────────────────────────────────────────────

pub struct UserCfg {
    pub uid: u32,
    pub name: String,
    pub email: Option<String>,
    pub profile: Option<String>,
    pub groups: Vec<String>,
    /// When `true`, the account is emitted as disabled.
    pub disabled: bool,
}

// ─── hosts ───────────────────────────────────────────────────────────────────

/// A single entry of the top-level `hosts:` list: a static host, a `range:`
/// group or a `hosts:` list group, told apart by which of `range` / `hosts`
/// is present.
pub struct HostEntry {
    pub hostname: Option<String>,
    pub name: Option<String>,
    pub profile: Option<String>,
    pub zone: Option<String>,
    pub ipv4: Option<Ipv4Cfg>,
    pub arch: Option<String>,
    pub aliases: Option<Vec<String>>,
    pub groups: Option<Vec<String>>,
    pub users: Option<Vec<String>>,
    pub tags: Option<Vec<String>>,
    pub features: Option<Vec<String>>,
    pub mac: Option<Mac>,
    pub services: Option<StrMap<Option<ServiceCfg>>>,
    pub disko: Option<DiskoCfg>,
    /// `range:` flavour — `[from, to]`.
    pub range: Option<Vec<i64>>,
    /// `hosts:` list flavour — one named sub-host per entry.
    pub hosts: Option<StrMap<HostEntry>>,
}

pub struct Ipv4Cfg {
    pub external: Option<String>,
    pub internal: Option<String>,
}

/// `mac:` is either a single comma-separated string (static hosts) or, for
/// `range:` groups, per-index addresses (`{ 1: "..", 2: ".." }`), in source
/// order.
pub enum Mac {
    Single(String),
    Indexed(Vec<(i64, String)>),
}

pub struct ServiceCfg {
    pub title: Option<String>,
    pub description: Option<String>,
    pub domain: Option<String>,
    pub icon: Option<String>,
    pub global: bool,
}

pub struct DiskoCfg {
    pub profile: Option<String>,
    pub devices: Option<StrMap<String>>,
}


impl NetworkDefault {
    /// A copy of the block.
    pub fn duplicate(&self) -> (r: Self)
        ensures
            r == *self,
    {
        NetworkDefault {
            locale: clone_opt(&self.locale),
            timezone: clone_opt(&self.timezone),
            password_hash: clone_opt(&self.password_hash),
        }
    }
}

impl Coordination {
    /// A copy of the block.
    pub fn duplicate(&self) -> (r: Self)
        ensures
            r == *self,
    {
        Coordination {
            enable: self.enable,
            hostname: clone_opt(&self.hostname),
            domain: clone_opt(&self.domain),
        }
    }
}

impl Smtp {
    /// A copy of the block.
    pub fn duplicate(&self) -> (r: Self)
        ensures
            r == *self,
    {
        Smtp {
            protocol: clone_opt(&self.protocol),
            server: clone_opt(&self.server),
            port: self.port,
            username: clone_opt(&self.username),
            sender: clone_opt(&self.sender),
            tls: self.tls,
        }
    }
}

impl Matrix {
    /// A copy of the block.
    pub fn duplicate(&self) -> (r: Self)
        ensures
            r == *self,
    {
        Matrix { admin: clone_opt(&self.admin) }
    }
}


impl Duplicate for Ipv4Cfg {
    fn duplicate(&self) -> (r: Self) {
        Ipv4Cfg { external: clone_opt(&self.external), internal: clone_opt(&self.internal) }
    }
}

impl Duplicate for ServiceCfg {
    fn duplicate(&self) -> (r: Self) {
        ServiceCfg {
            title: clone_opt(&self.title),
            description: clone_opt(&self.description),
            domain: clone_opt(&self.domain),
            icon: clone_opt(&self.icon),
            global: self.global,
        }
    }
}

/// Two optional lists with the same elements.
pub open spec fn same_opt_vec<T>(a: Option<Vec<T>>, b: Option<Vec<T>>) -> bool {
    match (a, b) {
        (Some(x), Some(y)) => x@ == y@,
        (None, None) => true,
        _ => false,
    }
}

/// Two optional maps with the same entries.
pub open spec fn same_opt_map<V>(a: Option<StrMap<V>>, b: Option<StrMap<V>>) -> bool {
    match (a, b) {
        (Some(x), Some(y)) => x@ == y@,
        (None, None) => true,
        _ => false,
    }
}

/// Two `mac:` settings with the same content.
pub open spec fn same_mac(a: Option<Mac>, b: Option<Mac>) -> bool {
    match (a, b) {
        (Some(Mac::Single(x)), Some(Mac::Single(y))) => x == y,
        (Some(Mac::Indexed(x)), Some(Mac::Indexed(y))) => x@ == y@,
        (None, None) => true,
        _ => false,
    }
}

/// Two disko settings with the same content.
pub open spec fn same_disko(a: Option<DiskoCfg>, b: Option<DiskoCfg>) -> bool {
    match (a, b) {
        (Some(x), Some(y)) => x.profile == y.profile && same_opt_map(x.devices, y.devices),
        (None, None) => true,
        _ => false,
    }
}

/// A copy of an optional list of integers.
pub fn clone_opt_ints(o: &Option<Vec<i64>>) -> (r: Option<Vec<i64>>)
    ensures
        same_opt_vec(r, *o),
{
    match o {
        Some(v) => Some(v.clone()),
        None => None,
    }
}

/// A copy of a `mac:` setting.
pub fn clone_mac(m: &Option<Mac>) -> (r: Option<Mac>)
    ensures
        same_mac(r, *m),
{
    match m {
        Some(Mac::Single(s)) => Some(Mac::Single(s.clone())),
        Some(Mac::Indexed(v)) => {
            let mut out: Vec<(i64, String)> = Vec::new();
            let mut i: usize = 0;
            while i < v.len()
                invariant
                    0 <= i <= v@.len(),
                    out@ == v@.take(i as int),
                decreases v@.len() - i,
            {
                out.push((v[i].0, v[i].1.clone()));
                assert(v@.take(i + 1) == v@.take(i as int).push(v@[i as int]));
                i += 1;
            }
            assert(v@.take(v@.len() as int) == v@);
            Some(Mac::Indexed(out))
        },
        None => None,
    }
}

/// A copy of a disko setting.
pub fn clone_disko(d: &Option<DiskoCfg>) -> (r: Option<DiskoCfg>)
    ensures
        same_disko(r, *d),
{
    match d {
        Some(d) => Some(DiskoCfg {
            profile: clone_opt(&d.profile),
            devices: match &d.devices {
                Some(m) => Some(m.duplicate()),
                None => None,
            },
        }),
        None => None,
    }
}

/// A copy of optional services.
pub fn clone_services(s: &Option<StrMap<Option<ServiceCfg>>>) -> (r: Option<StrMap<Option<ServiceCfg>>>)
    ensures
        same_opt_map(r, *s),
{
    match s {
        Some(m) => Some(m.duplicate()),
        None => None,
    }
}

impl HostEntry {
    /// `a` and `b` agree on every setting but the `hosts:` list.
    pub open spec fn same_flat(a: HostEntry, b: HostEntry) -> bool {
        &&& a.hostname == b.hostname
        &&& a.name == b.name
        &&& a.profile == b.profile
        &&& a.zone == b.zone
        &&& a.ipv4 == b.ipv4
        &&& a.arch == b.arch
        &&& same_opt_vec(a.aliases, b.aliases)
        &&& same_opt_vec(a.groups, b.groups)
        &&& same_opt_vec(a.users, b.users)
        &&& same_opt_vec(a.tags, b.tags)
        &&& same_opt_vec(a.features, b.features)
        &&& same_mac(a.mac, b.mac)
        &&& same_opt_map(a.services, b.services)
        &&& same_disko(a.disko, b.disko)
        &&& same_opt_vec(a.range, b.range)
    }

    /// A copy of the entry without its `hosts:` list.
    pub fn duplicate_flat(&self) -> (r: Self)
        ensures
            HostEntry::same_flat(r, *self),
            r.hosts is None,
    {
        HostEntry {
            hostname: clone_opt(&self.hostname),
            name: clone_opt(&self.name),
            profile: clone_opt(&self.profile),
            zone: clone_opt(&self.zone),
            ipv4: self.ipv4.duplicate(),
            arch: clone_opt(&self.arch),
            aliases: clone_opt_strings(&self.aliases),
            groups: clone_opt_strings(&self.groups),
            users: clone_opt_strings(&self.users),
            tags: clone_opt_strings(&self.tags),
            features: clone_opt_strings(&self.features),
            mac: clone_mac(&self.mac),
            services: clone_services(&self.services),
            disko: clone_disko(&self.disko),
            range: clone_opt_ints(&self.range),
            hosts: None,
        }
    }
}

} // verus!
