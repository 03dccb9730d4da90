//! A network zone: its hosts, DHCP reservations, aliases, roaming
//! reservations and the settings emitted for it in `network.nix`.
use vstd::prelude::*;
use crate::error::{NixError, Result};
use crate::schema::{Gateway, ZoneCfg};
use crate::strmap::{
    has_key, insert_entry, insert_sorted_entry, keys_sorted, keys_unique, lookup, map_vals,
    lemma_map_vals_insert, lemma_map_vals_lookup, key_pos, StrMap,
};
use crate::text::{
    chars_of, clone_opt, clone_opt_strings, decimal_nat, has_prefix, lex_lt, opt_view, owned,
    push_char, push_str, split, split_char, starts_with, str_eq, str_lt, views_of,
};
use crate::validation::{
    assert_regex, assert_tailscale_ip, ipv4_to_u32, ipv4_value, is_tailnet_ip, pattern_accepts,
    RE_MAC_ADDRESS,
};

verus! {

pub const DEFAULT_LAN_IP_PREFIX: &'static str = "10.1";
pub const LAN_PREFIX_LENGTH: u8 = 16;
pub const EXTERNAL_ZONE_KEY: &'static str = "www";

/// Third octet reserved, in every zone, for hosts whose home is another zone
/// (`<ipPrefix>.6.<n>`).
pub const ROAMING_SUBNET: u8 = 6;


/// Gateway settings of a zone, emitted under `gateway` in `network.nix`
/// (`wan.interface`, `lan.interfaces`, `lan.ip`, `vpn.ipv4`, `hostname`);
/// an absent setting is not emitted.
pub struct GatewayConfig {
    pub wan_interface: Option<String>,
    pub lan_interfaces: Option<Vec<String>>,
    pub lan_ip: Option<String>,
    pub vpn_ipv4: Option<String>,
    pub hostname: Option<String>,
}

impl GatewayConfig {
    pub open spec fn is_empty(&self) -> bool {
        &&& self.wan_interface is None
        &&& self.lan_interfaces is None
        &&& self.lan_ip is None
        &&& self.vpn_ipv4 is None
        &&& self.hostname is None
    }

    /// A gateway with no setting.
    pub fn empty() -> (g: Self)
        ensures
            g.is_empty(),
    {
        GatewayConfig {
            wan_interface: None,
            lan_interfaces: None,
            lan_ip: None,
            vpn_ipv4: None,
            hostname: None,
        }
    }
}

/// Settings of a zone emitted in `network.nix`; an absent setting is not
/// emitted.
pub struct ZoneConfig {
    pub lang: Option<String>,
    pub locale: Option<String>,
    pub timezone: Option<String>,
    pub description: Option<String>,
    pub domain: Option<String>,
    pub network_ip: Option<String>,
    pub prefix_length: Option<u8>,
    pub ip_prefix: Option<String>,
    pub gateway: Option<GatewayConfig>,
}

impl ZoneConfig {
    pub open spec fn is_empty(&self) -> bool {
        &&& self.lang is None
        &&& self.locale is None
        &&& self.timezone is None
        &&& self.description is None
        &&& self.domain is None
        &&& self.network_ip is None
        &&& self.prefix_length is None
        &&& self.ip_prefix is None
        &&& self.gateway is None
    }

    /// A configuration with no setting.
    pub fn empty() -> (c: Self)
        ensures
            c.is_empty(),
    {
        ZoneConfig {
            lang: None,
            locale: None,
            timezone: None,
            description: None,
            domain: None,
            network_ip: None,
            prefix_length: None,
            ip_prefix: None,
            gateway: None,
        }
    }
}

/// The gateway of `g`, or one with no setting.
pub open spec fn gateway_or_empty(g: Option<GatewayConfig>) -> GatewayConfig {
    match g {
        Some(g) => g,
        None => GatewayConfig {
            wan_interface: None,
            lan_interfaces: None,
            lan_ip: None,
            vpn_ipv4: None,
            hostname: None,
        },
    }
}

/// Some host of `hosts` is declared with address `ip`.
pub open spec fn ip_in_use(hosts: Seq<(Seq<char>, Option<Seq<char>>)>, ip: Seq<char>) -> bool {
    exists|i: int| 0 <= i < hosts.len() && #[trigger] hosts[i].1 == Some(ip)
}

/// Hosts after declaring `host` with address `ip`: a new host is appended;
/// a known host takes the new address when one is given.
pub open spec fn host_registered(
    hosts: Seq<(Seq<char>, Option<Seq<char>>)>,
    host: Seq<char>,
    ip: Option<Seq<char>>,
) -> Seq<(Seq<char>, Option<Seq<char>>)> {
    if has_key(hosts, host) && ip is None {
        hosts
    } else {
        insert_entry(hosts, host, ip)
    }
}

/// Scan of the comma-separated MAC addresses of a host: each must be
/// well-formed and not yet known; known addresses accumulate as the scan
/// goes. Returns whether every part passed, and the known addresses after
/// the scan.
pub open spec fn mac_scan(parts: Seq<Seq<char>>, known: Seq<Seq<char>>) -> (bool, Seq<Seq<char>>)
    decreases parts.len(),
{
    if parts.len() == 0 {
        (true, known)
    } else {
        let p = parts[0];
        if !pattern_accepts(RE_MAC_ADDRESS@, p) || known.contains(p) {
            (false, known)
        } else {
            mac_scan(parts.drop_first(), known.push(p))
        }
    }
}

/// Scan of the aliases of a host: each must name neither a host with
/// aliases, nor a host, nor an alias already declared; declared aliases
/// accumulate as the scan goes.
pub open spec fn alias_scan(
    aliases: Seq<Seq<char>>,
    alias_owners: Seq<(Seq<char>, Seq<Seq<char>>)>,
    hosts: Seq<(Seq<char>, Option<Seq<char>>)>,
    known: Seq<Seq<char>>,
) -> (bool, Seq<Seq<char>>)
    decreases aliases.len(),
{
    if aliases.len() == 0 {
        (true, known)
    } else {
        let a = aliases[0];
        if has_key(alias_owners, a) || has_key(hosts, a) || known.contains(a) {
            (false, known)
        } else {
            alias_scan(aliases.drop_first(), alias_owners, hosts, known.push(a))
        }
    }
}

/// The aliases of `host` after adding `aliases` to those it already has.
pub open spec fn aliases_added(
    owners: Seq<(Seq<char>, Seq<Seq<char>>)>,
    host: Seq<char>,
    aliases: Seq<Seq<char>>,
) -> Seq<(Seq<char>, Seq<Seq<char>>)> {
    let before = match lookup(owners, host) {
        Some(a) => a,
        None => seq![],
    };
    insert_entry(owners, host, before + aliases)
}

/// Bounds `start,end[,...]` of a DHCP range, when both are addresses.
pub open spec fn range_bounds(range: Seq<char>) -> Option<(u32, u32)> {
    let parts = split_char(range, ',');
    if parts.len() >= 2 {
        match (ipv4_value(parts[0]), ipv4_value(parts[1])) {
            (Some(a), Some(b)) => Some((a, b)),
            _ => None,
        }
    } else {
        None
    }
}

/// Declared address `ip` falls inside the dynamic pool `range` (bounds
/// included).
pub open spec fn in_dhcp_range(range: Seq<char>, ip: Option<Seq<char>>) -> bool {
    match (range_bounds(range), ip) {
        (Some((a, b)), Some(ip)) => match ipv4_value(ip) {
            Some(n) => a <= n && n <= b,
            None => false,
        },
        _ => false,
    }
}

/// Host `hi` is the host reported for a fixed address inside a dynamic
/// pool: `ri` is the first range holding any host's address, and among the
/// hosts inside it `hi` has the smallest name.
pub open spec fn dhcp_offender(
    ranges: Seq<Seq<char>>,
    hosts: Seq<(Seq<char>, Option<Seq<char>>)>,
    ri: int,
    hi: int,
) -> bool {
    &&& 0 <= ri < ranges.len()
    &&& 0 <= hi < hosts.len()
    &&& in_dhcp_range(ranges[ri], hosts[hi].1)
    &&& forall|a: int, b: int| 0 <= a < ri && 0 <= b < hosts.len() ==> !#[trigger] in_dhcp_range(ranges[a], #[trigger] hosts[b].1)
    &&& forall|b: int| 0 <= b < hosts.len() && #[trigger] in_dhcp_range(ranges[ri], hosts[b].1) ==> !lex_lt(hosts[b].0, hosts[hi].0)
}

/// The error for host `host` with fixed address `ip` inside pool `range`.
pub open spec fn dhcp_conflict_message(host: Seq<char>, ip: Seq<char>, range: Seq<char>, zone: Seq<char>) -> Seq<char> {
    "Host \""@ + host + "\" has fixed ip "@ + ip + " inside the dhcp-range "@ + range + " of zone "@ + zone
        + ": pick an address outside the dynamic pool"@
}

/// Prefix of the addresses reserved for roaming hosts: `<ipPrefix>.6.`.
pub open spec fn roaming_block(ip_prefix: Seq<char>) -> Seq<char> {
    ip_prefix + seq!['.'] + decimal_nat(ROAMING_SUBNET as nat) + seq!['.']
}

/// The language of a locale: its first two bytes (`&locale[..2]`), defined
/// when they end on a character boundary.
pub open spec fn lang_of(locale: Seq<char>) -> Option<Seq<char>> {
    if locale.len() >= 1 && utf8_len(locale[0]) == 2 {
        Some(locale.take(1))
    } else if locale.len() >= 2 && utf8_len(locale[0]) == 1 && utf8_len(locale[1]) == 1 {
        Some(locale.take(2))
    } else {
        None
    }
}

/// Length of `c` in UTF-8.
pub open spec fn utf8_len(c: char) -> nat {
    if (c as u32) < 0x80 {
        1
    } else if (c as u32) < 0x800 {
        2
    } else if (c as u32) < 0x10000 {
        3
    } else {
        4
    }
}

/// `char::len_utf8`.
pub fn char_utf8_len(c: char) -> (n: usize)
    ensures
        n == utf8_len(c),
{
    let u = c as u32;
    if u < 0x80 {
        1
    } else if u < 0x800 {
        2
    } else if u < 0x10000 {
        3
    } else {
        4
    }
}

/// The two configurations agree on everything but the gateway.
pub open spec fn same_but_gateway(a: ZoneConfig, b: ZoneConfig) -> bool {
    &&& a.lang == b.lang
    &&& a.locale == b.locale
    &&& a.timezone == b.timezone
    &&& a.description == b.description
    &&& a.domain == b.domain
    &&& a.network_ip == b.network_ip
    &&& a.prefix_length == b.prefix_length
    &&& a.ip_prefix == b.ip_prefix
}

/// A gateway setting that is filled in after the zone is configured.
pub enum GatewayField {
    LanIp,
    VpnIpv4,
    Hostname,
}

/// The two gateways agree on every setting but `which`.
pub open spec fn same_gateway_but(a: GatewayConfig, b: GatewayConfig, which: GatewayField) -> bool {
    &&& a.wan_interface == b.wan_interface
    &&& a.lan_interfaces == b.lan_interfaces
    &&& (which !is LanIp ==> a.lan_ip == b.lan_ip)
    &&& (which !is VpnIpv4 ==> a.vpn_ipv4 == b.vpn_ipv4)
    &&& (which !is Hostname ==> a.hostname == b.hostname)
}

/// `own` when set, else `fallback`.
pub open spec fn or_else<T>(own: Option<T>, fallback: Option<T>) -> Option<T> {
    match own {
        Some(v) => Some(v),
        None => fallback,
    }
}

/// A zone block with each setting it leaves unset taken from `common`.
pub open spec fn overlaid(cfg: ZoneCfg, common: ZoneCfg) -> ZoneCfg {
    ZoneCfg {
        description: or_else(cfg.description, common.description),
        locale: or_else(cfg.locale, common.locale),
        timezone: or_else(cfg.timezone, common.timezone),
        ip_prefix: or_else(cfg.ip_prefix, common.ip_prefix),
        gateway: or_else(cfg.gateway, common.gateway),
        extra_hosts: or_else(cfg.extra_hosts, common.extra_hosts),
    }
}

/// The zone block `cfg` as configured with the shared block `common`.
pub open spec fn with_common<'a>(cfg: Option<&'a ZoneCfg>, common: Option<&'a ZoneCfg>) -> Option<&'a ZoneCfg> {
    match (cfg, common) {
        (Some(c), Some(m)) => Some(&overlaid(*c, *m)),
        _ => cfg,
    }
}

/// The locale a zone uses: its own, else the network's default.
pub open spec fn effective_locale(cfg: Option<&ZoneCfg>, default_locale: Seq<char>) -> Seq<char> {
    match cfg {
        Some(c) => match c.locale {
            Some(l) => l@,
            None => default_locale,
        },
        None => default_locale,
    }
}

/// The time zone a zone uses: its own, else the network's default.
pub open spec fn effective_timezone(cfg: Option<&ZoneCfg>, default_timezone: Seq<char>) -> Seq<char> {
    match cfg {
        Some(c) => match c.timezone {
            Some(t) => t@,
            None => default_timezone,
        },
        None => default_timezone,
    }
}

/// The description of a zone: its own, else `"<name> network zone"`.
pub open spec fn effective_description(cfg: Option<&ZoneCfg>, name: Seq<char>) -> Seq<char> {
    match cfg {
        Some(c) => match c.description {
            Some(d) => d@,
            None => name + " network zone"@,
        },
        None => name + " network zone"@,
    }
}

/// The address prefix of a local zone: its own, else `10.1`.
pub open spec fn effective_ip_prefix(cfg: Option<&ZoneCfg>) -> Seq<char> {
    match cfg {
        Some(c) => match c.ip_prefix {
            Some(p) => p@,
            None => DEFAULT_LAN_IP_PREFIX@,
        },
        None => DEFAULT_LAN_IP_PREFIX@,
    }
}

/// The default dynamic pool of a local zone: `<p>.3.200` to `<p>.3.249`,
/// 24 h leases.
pub open spec fn default_range_spec(p: Seq<char>) -> Seq<char> {
    p + ".3.200,"@ + p + ".3.249,24h"@
}

/// A gateway block is usable: a WAN interface, at least one LAN interface,
/// and a tailnet address when a VPN address is given.
pub open spec fn gateway_valid(gw: Gateway) -> bool {
    &&& gw.wan is Some && gw.wan->0.interface is Some
    &&& gw.lan is Some && gw.lan->0.interfaces is Some && gw.lan->0.interfaces->0@.len() > 0
    &&& (gw.vpn is Some && gw.vpn->0.ipv4 is Some) ==> is_tailnet_ip(gw.vpn->0.ipv4->0@)
}

/// The gateway settings emitted for a gateway block: WAN interface, LAN
/// interfaces and VPN address as given (DHCP ranges are not emitted).
pub open spec fn gateway_emitted(g: GatewayConfig, gw: Gateway) -> bool {
    &&& g.wan_interface == (match gw.wan {
        Some(w) => w.interface,
        None => None,
    })
    &&& match (g.lan_interfaces, gw.lan) {
        (Some(a), Some(l)) => l.interfaces is Some && a@ == l.interfaces->0@,
        (None, Some(l)) => l.interfaces is None,
        (None, None) => true,
        (Some(_), None) => false,
    }
    &&& g.vpn_ipv4 == (match gw.vpn {
        Some(v) => v.ipv4,
        None => None,
    })
    &&& g.lan_ip is None
    &&& g.hostname is None
}

/// `z` is `old` configured from `cfg` with the given network defaults.
pub open spec fn zone_configured(
    z: NixZone,
    old: NixZone,
    cfg: Option<&ZoneCfg>,
    default_locale: Seq<char>,
    default_timezone: Seq<char>,
    network_domain: Seq<char>,
) -> bool {
    let locale = effective_locale(cfg, default_locale);
    let c = z.config;
    &&& opt_view(c.lang) == lang_of(locale)
    &&& opt_view(c.locale) == Some(locale)
    &&& opt_view(c.timezone) == Some(effective_timezone(cfg, default_timezone))
    &&& opt_view(c.description) == Some(effective_description(cfg, old.name@))
    &&& if old.is_external_spec() {
        &&& opt_view(c.domain) == Some(network_domain)
        &&& c.network_ip is None && c.prefix_length is None && c.ip_prefix is None
        &&& c.gateway is None
        &&& z.dhcp_range == old.dhcp_range
    } else {
        let p = effective_ip_prefix(cfg);
        let gw = match cfg {
            Some(cf) => cf.gateway,
            None => None,
        };
        &&& opt_view(c.domain) == Some(old.name@ + seq!['.'] + network_domain)
        &&& opt_view(c.network_ip) == Some(p + ".0.0"@)
        &&& c.prefix_length == Some(LAN_PREFIX_LENGTH)
        &&& opt_view(c.ip_prefix) == Some(p)
        &&& match gw {
            Some(g) => {
                &&& c.gateway is Some && gateway_emitted(c.gateway->0, g)
                &&& if g.lan is Some && g.lan->0.dhcp_range is Some {
                    z.dhcp_range@ == g.lan->0.dhcp_range->0@
                } else {
                    views_of(z.dhcp_range@) == seq![default_range_spec(p)]
                }
            },
            None => {
                &&& c.gateway is None
                &&& views_of(z.dhcp_range@) == seq![default_range_spec(p)]
            },
        }
    }
}

/// The default dynamic pool of a zone whose address prefix is `p`.
pub fn default_dhcp_range(p: &str) -> (r: String)
    ensures
        r@ == default_range_spec(p@),
{
    let mut r = owned(p);
    push_str(&mut r, ".3.200,");
    push_str(&mut r, p);
    push_str(&mut r, ".3.249,24h");
    r
}

/// The language of `locale`: its first two bytes.
pub fn lang_prefix(locale: &str) -> (r: String)
    requires
        lang_of(locale@) is Some,
    ensures
        r@ == lang_of(locale@)->0,
{
    let v = chars_of(locale);
    if v.len() >= 1 && char_utf8_len(v[0]) == 2 {
        crate::text::string_of_range(v.as_slice(), 0, 1)
    } else {
        crate::text::string_of_range(v.as_slice(), 0, 2)
    }
}

/// Checks a gateway block: a WAN interface and at least one LAN interface
/// are mandatory; a VPN address, if given, must be in the tailnet range.
pub fn assert_gw_cfg(gw: &Gateway) -> (r: Result<()>)
    ensures
        r is Ok <==> gateway_valid(*gw),
        r is Err ==> r->Err_0 is Validation,
{
    let has_wan = match &gw.wan {
        Some(w) => w.interface.is_some(),
        None => false,
    };
    if !has_wan {
        return Err(NixError::validation(owned("A WAN interface is required")));
    }
    let has_lan = match &gw.lan {
        Some(l) => match &l.interfaces {
            Some(i) => i.len() > 0,
            None => false,
        },
        None => false,
    };
    if !has_lan {
        return Err(NixError::validation(owned("Valid LAN interfaces are required")));
    }
    match &gw.vpn {
        Some(v) => match &v.ipv4 {
            Some(ip) => assert_tailscale_ip(ip.as_str()),
            None => Ok(()),
        },
        None => Ok(()),
    }
}

/// The gateway settings emitted for `gw` (WAN interface, LAN interfaces,
/// VPN address; DHCP ranges are consumed elsewhere).
pub fn gateway_to_value(gw: &Gateway) -> (g: GatewayConfig)
    ensures
        gateway_emitted(g, *gw),
{
    let mut g = GatewayConfig::empty();
    if let Some(wan) = &gw.wan {
        g.wan_interface = clone_opt(&wan.interface);
    }
    if let Some(lan) = &gw.lan {
        g.lan_interfaces = clone_opt_strings(&lan.interfaces);
    }
    if let Some(vpn) = &gw.vpn {
        g.vpn_ipv4 = clone_opt(&vpn.ipv4);
    }
    g
}

/// Some part of `parts` is among `known`.
pub open spec fn any_known(parts: Seq<Seq<char>>, known: Seq<Seq<char>>) -> bool {
    exists|i: int| 0 <= i < parts.len() && known.contains(#[trigger] parts[i])
}

pub proof fn lemma_sorted_unique_zone<V>(s: Seq<(Seq<char>, V)>)
    requires
        keys_sorted(s),
    ensures
        keys_unique(s),
{
    crate::strmap::lemma_sorted_unique(s);
}

/// Bounds of the DHCP range `range` (`start,end[,lease]`), when both are
/// addresses.
pub fn dhcp_bounds(range: &str) -> (r: Option<(u32, u32)>)
    ensures
        r == range_bounds(range@),
{
    let parts = split(range, ',');
    if parts.len() < 2 {
        return None;
    }
    assert(parts.deep_view()[0] == parts@[0]@);
    assert(parts.deep_view()[1] == parts@[1]@);
    match (ipv4_to_u32(parts[0].as_str()), ipv4_to_u32(parts[1].as_str())) {
        (Some(a), Some(b)) => Some((a, b)),
        _ => None,
    }
}

/// A zone's hosts with their declared addresses, DHCP reservations, aliases
/// and roaming reservations, plus the settings emitted for it.
pub struct NixZone {
    pub name: String,
    /// ip -> `"mac,ip"` entry for the dnsmasq `dhcp-host` option.
    pub mac_addresses: StrMap<String>,
    /// Every MAC address declared in the zone (duplicate detection).
    pub all_macs: Vec<String>,
    /// host -> its aliases.
    pub aliases: StrMap<Vec<String>>,
    /// Every alias declared in the zone (duplicate detection).
    pub all_aliases: Vec<String>,
    /// host -> declared address.
    pub hosts: StrMap<Option<String>>,
    /// Hosts native to another zone, reserved here: host -> (macs, ip), in
    /// host order.
    pub roaming: StrMap<(String, String)>,
    pub dhcp_range: Vec<String>,
    pub config: ZoneConfig,
}

impl NixZone {
    pub open spec fn spec_hosts(&self) -> Seq<(Seq<char>, Option<String>)> {
        self.hosts@
    }

    pub open spec fn spec_mac_addresses(&self) -> Seq<(Seq<char>, String)> {
        self.mac_addresses@
    }

    pub open spec fn spec_all_macs(&self) -> Seq<String> {
        self.all_macs@
    }

    pub open spec fn spec_aliases(&self) -> Seq<(Seq<char>, Vec<String>)> {
        self.aliases@
    }

    pub open spec fn spec_all_aliases(&self) -> Seq<String> {
        self.all_aliases@
    }

    pub open spec fn spec_roaming(&self) -> Seq<(Seq<char>, (String, String))> {
        self.roaming@
    }

    /// host -> declared address.
    pub open spec fn hosts_view(&self) -> Seq<(Seq<char>, Option<Seq<char>>)> {
        map_vals(self.spec_hosts(), |o: Option<String>| opt_view(o))
    }

    /// ip -> `"mac,ip"`.
    pub open spec fn mac_entries_view(&self) -> Seq<(Seq<char>, Seq<char>)> {
        map_vals(self.spec_mac_addresses(), |s: String| s@)
    }

    /// Every MAC address declared in the zone.
    pub open spec fn macs_view(&self) -> Seq<Seq<char>> {
        views_of(self.spec_all_macs())
    }

    /// host -> aliases.
    pub open spec fn aliases_view(&self) -> Seq<(Seq<char>, Seq<Seq<char>>)> {
        map_vals(self.spec_aliases(), |v: Vec<String>| views_of(v@))
    }

    /// Every alias declared in the zone.
    pub open spec fn all_aliases_view(&self) -> Seq<Seq<char>> {
        views_of(self.spec_all_aliases())
    }

    /// host -> (macs, ip) of the roaming reservations.
    pub open spec fn roaming_view(&self) -> Seq<(Seq<char>, (Seq<char>, Seq<char>))> {
        map_vals(self.spec_roaming(), |p: (String, String)| (p.0@, p.1@))
    }

    /// Maps have unique keys, roaming reservations are in host order.
    pub open spec fn wf(&self) -> bool {
        &&& keys_unique(self.spec_hosts())
        &&& keys_unique(self.spec_mac_addresses())
        &&& keys_unique(self.spec_aliases())
        &&& keys_sorted(self.spec_roaming())
    }

    pub open spec fn is_external_spec(&self) -> bool {
        self.name@ == EXTERNAL_ZONE_KEY@
    }

    pub open spec fn domain_spec(&self) -> Seq<char> {
        match self.config.domain {
            Some(d) => d@,
            None => Seq::empty(),
        }
    }

    pub open spec fn ip_prefix_spec(&self) -> Seq<char> {
        match self.config.ip_prefix {
            Some(p) => p@,
            None => DEFAULT_LAN_IP_PREFIX@,
        }
    }

    /// An empty zone named `name`.
    pub fn new(name: &str) -> (z: Self)
        ensures
            z.name@ == name@,
            z.wf(),
            z.hosts_view().len() == 0,
            z.mac_entries_view().len() == 0,
            z.macs_view().len() == 0,
            z.aliases_view().len() == 0,
            z.all_aliases_view().len() == 0,
            z.roaming_view().len() == 0,
            z.dhcp_range@.len() == 0,
            z.config.is_empty(),
    {
        NixZone {
            name: owned(name),
            mac_addresses: StrMap::new(),
            all_macs: Vec::new(),
            aliases: StrMap::new(),
            all_aliases: Vec::new(),
            hosts: StrMap::new(),
            roaming: StrMap::new(),
            dhcp_range: Vec::new(),
            config: ZoneConfig::empty(),
        }
    }

    pub fn name(&self) -> (r: &str)
        ensures
            r@ == self.name@,
    {
        self.name.as_str()
    }

    /// This is the external (`www`) zone.
    pub fn is_external(&self) -> (r: bool)
        ensures
            r == self.is_external_spec(),
    {
        str_eq(self.name.as_str(), EXTERNAL_ZONE_KEY)
    }

    /// The zone's domain, empty until the zone is configured.
    pub fn domain(&self) -> (r: &str)
        ensures
            r@ == self.domain_spec(),
    {
        match &self.config.domain {
            Some(d) => d.as_str(),
            None => {
                proof {
                    reveal_strlit("");
                }
                ""
            },
        }
    }

    /// The zone's LAN address prefix (`10.1` by default).
    pub fn ip_prefix(&self) -> (r: &str)
        ensures
            r@ == self.ip_prefix_spec(),
    {
        match &self.config.ip_prefix {
            Some(p) => p.as_str(),
            None => DEFAULT_LAN_IP_PREFIX,
        }
    }

    /// LAN address of the zone's gateway, once known.
    pub fn gateway_lan_ip(&self) -> (r: Option<&str>)
        ensures
            match r {
                Some(s) => self.config.gateway is Some && opt_view(self.config.gateway->0.lan_ip)
                    == Some(s@),
                None => self.config.gateway is None || self.config.gateway->0.lan_ip is None,
            },
    {
        match &self.config.gateway {
            Some(g) => match &g.lan_ip {
                Some(s) => Some(s.as_str()),
                None => None,
            },
            None => None,
        }
    }

    /// Tailnet address of the zone's gateway, once known.
    pub fn gateway_vpn_ipv4(&self) -> (r: Option<&str>)
        ensures
            match r {
                Some(s) => self.config.gateway is Some && opt_view(
                    self.config.gateway->0.vpn_ipv4,
                ) == Some(s@),
                None => self.config.gateway is None || self.config.gateway->0.vpn_ipv4 is None,
            },
    {
        match &self.config.gateway {
            Some(g) => match &g.vpn_ipv4 {
                Some(s) => Some(s.as_str()),
                None => None,
            },
            None => None,
        }
    }

    /// host -> declared address.
    pub fn hosts(&self) -> (r: &StrMap<Option<String>>)
        ensures
            r@ == self.spec_hosts(),
    {
        &self.hosts
    }

    /// ip -> `"mac,ip"` DHCP reservations.
    pub fn mac_addresses(&self) -> (r: &StrMap<String>)
        ensures
            r@ == self.spec_mac_addresses(),
    {
        &self.mac_addresses
    }

    /// host -> aliases.
    pub fn aliases(&self) -> (r: &StrMap<Vec<String>>)
        ensures
            r@ == self.spec_aliases(),
    {
        &self.aliases
    }

    /// Declares `host` with address `ip`.
    ///
    /// An empty name is ignored. Without `force`, a host can be declared only
    /// once; an address can never be given to two hosts. A host declared
    /// again with `force` keeps its address unless a new one is given.
    pub fn register_host(&mut self, host: &str, ip: Option<&str>, force: bool) -> (r: Result<()>)
        requires
            old(self).wf(),
        ensures
            final(self).wf(),
            host@.len() == 0 ==> r is Ok && *final(self) == *old(self),
            host@.len() > 0 ==> (r is Ok <==> !((!force && has_key(old(self).hosts_view(), host@))
                || (ip is Some && ip_in_use(old(self).hosts_view(), ip->0@)))),
            r is Err ==> *final(self) == *old(self) && r->Err_0 is Validation,
            r matches Err(NixError::Validation(m)) ==> m@ == if !force && has_key(old(self).hosts_view(), host@) {
                "Hostname "@ + host@ + " already declared"@
            } else {
                "Ip address "@ + ip->0@ + " assigned to more than one host"@
            },
            r is Ok && host@.len() > 0 ==> final(self).hosts_view() == host_registered(
                old(self).hosts_view(),
                host@,
                match ip {
                    Some(s) => Some(s@),
                    None => None,
                },
            ),
            final(self).name == old(self).name,
            final(self).config == old(self).config,
            final(self).dhcp_range == old(self).dhcp_range,
            final(self).mac_addresses == old(self).mac_addresses,
            final(self).all_macs == old(self).all_macs,
            final(self).aliases == old(self).aliases,
            final(self).all_aliases == old(self).all_aliases,
            final(self).roaming == old(self).roaming,
    {
        if chars_of(host).len() == 0 {
            return Ok(());
        }
        proof {
            lemma_map_vals_lookup(self.spec_hosts(), host@, |o: Option<String>| opt_view(o));
            reveal_strlit("Hostname ");
            reveal_strlit(" already declared");
            reveal_strlit("Ip address ");
            reveal_strlit(" assigned to more than one host");
        }
        let pos = self.hosts.position(host);
        if !force && pos.is_some() {
            let mut msg = String::new();
            push_str(&mut msg, "Hostname ");
            push_str(&mut msg, host);
            push_str(&mut msg, " already declared");
            return Err(NixError::validation(msg));
        }
        let ghost hv = self.hosts_view();
        assert(!(!force && has_key(hv, host@)));
        if let Some(ip_str) = ip {
            let mut i: usize = 0;
            while i < self.hosts.len()
                invariant
                    0 <= i <= self.spec_hosts().len(),
                    !(!force && has_key(hv, host@)),
                    *self == *old(self),
                    old(self).wf(),
                    ip == Some(ip_str),
                    hv == self.hosts_view(),
                    host@.len() > 0,
                    forall|j: int| 0 <= j < i ==> hv[j].1 != Some(ip_str@),
                decreases self.spec_hosts().len() - i,
            {
                let taken = match self.hosts.value_at(i) {
                    Some(v) => str_eq(v.as_str(), ip_str),
                    None => false,
                };
                assert(hv[i as int].1 == opt_view(self.spec_hosts()[i as int].1));
                if taken {
                    assert(hv[i as int].1 == Some(ip_str@));
                    assert(ip_in_use(hv, ip_str@));
                    let mut msg = String::new();
                    push_str(&mut msg, "Ip address ");
                    push_str(&mut msg, ip_str);
                    push_str(&mut msg, " assigned to more than one host");
                    return Err(NixError::validation(msg));
                }
                i += 1;
            }
        }
        let ghost old_hosts = self.spec_hosts();
        proof {
            lemma_map_vals_lookup(old_hosts, host@, |o: Option<String>| opt_view(o));
        }
        match pos {
            Some(i) => {
                if let Some(ip_str) = ip {
                    let v = Some(owned(ip_str));
                    proof {
                        lemma_map_vals_insert(old_hosts, host@, v, |o: Option<String>| opt_view(o));
                    }
                    self.hosts.set_value_at(i, v);
                    assert(self.spec_hosts() == insert_entry(old_hosts, host@, v));
                }
            },
            None => {
                let v = match ip {
                    Some(ip_str) => Some(owned(ip_str)),
                    None => None,
                };
                proof {
                    lemma_map_vals_insert(old_hosts, host@, v, |o: Option<String>| opt_view(o));
                }
                self.hosts.insert(owned(host), v);
            },
        }
        Ok(())
    }

    /// Records the DHCP reservation of the comma-separated MAC list `mac`
    /// at address `ip`.
    ///
    /// Every MAC must be well-formed and new to the zone (addresses are
    /// recorded as they pass, as `mac_scan` describes), and `ip` must not
    /// be reserved yet; the reservation entry is `"<mac>,<ip>"`.
    #[verifier::loop_isolation(false)]
    pub fn register_mac_addresses(&mut self, mac: &str, ip: &str) -> (r: Result<()>)
        requires
            old(self).wf(),
        ensures
            final(self).wf(),
            final(self).macs_view() == mac_scan(split_char(mac@, ','), old(self).macs_view()).1,
            r is Ok <==> mac_scan(split_char(mac@, ','), old(self).macs_view()).0 && !has_key(
                old(self).mac_entries_view(),
                ip@,
            ),
            r is Ok ==> final(self).mac_entries_view() == insert_entry(
                old(self).mac_entries_view(),
                ip@,
                mac@ + seq![','] + ip@,
            ),
            r is Err ==> final(self).mac_addresses == old(self).mac_addresses && r->Err_0 is Validation,
            final(self).name == old(self).name,
            final(self).config == old(self).config,
            final(self).dhcp_range == old(self).dhcp_range,
            final(self).hosts == old(self).hosts,
            final(self).aliases == old(self).aliases,
            final(self).all_aliases == old(self).all_aliases,
            final(self).roaming == old(self).roaming,
    {
        let parts = split(mac, ',');
        let ghost all_parts = parts.deep_view();
        assert(all_parts.skip(0) == all_parts);
        let mut i: usize = 0;
        while i < parts.len()
            invariant
                0 <= i <= parts@.len(),
                self.wf(),
                self.mac_addresses == old(self).mac_addresses,
                self.hosts == old(self).hosts,
                self.aliases == old(self).aliases,
                self.all_aliases == old(self).all_aliases,
                self.roaming == old(self).roaming,
                self.name == old(self).name,
                self.config == old(self).config,
                self.dhcp_range == old(self).dhcp_range,
                all_parts == split_char(mac@, ','),
                mac_scan(all_parts, old(self).macs_view()) == mac_scan(
                    all_parts.skip(i as int),
                    self.macs_view(),
                ),
            decreases parts@.len() - i,
        {
            let part = parts[i].as_str();
            let ghost rest = all_parts.skip(i as int);
            assert(rest[0] == part@);
            assert(rest.drop_first() == all_parts.skip(i + 1));
            let mut msg_err = String::new();
            push_str(&mut msg_err, "Bad mac address syntax \"");
            push_str(&mut msg_err, mac);
            push_str(&mut msg_err, "\"");
            let checked = assert_regex(RE_MAC_ADDRESS, part, msg_err.as_str());
            if checked.is_err() {
                return checked;
            }
            let mut j: usize = 0;
            while j < self.all_macs.len()
                invariant
                    0 <= j <= self.all_macs@.len(),
                    forall|k: int| 0 <= k < j ==> self.macs_view()[k] != part@,
                decreases self.all_macs@.len() - j,
            {
                if str_eq(self.all_macs[j].as_str(), part) {
                    assert(self.macs_view()[j as int] == part@);
                    assert(self.macs_view().contains(part@));
                    let mut msg = String::new();
                    push_str(&mut msg, "Mac address ");
                    push_str(&mut msg, part);
                    push_str(&mut msg, " duplicated");
                    return Err(NixError::validation(msg));
                }
                j += 1;
            }
            assert(!self.macs_view().contains(part@));
            let ghost before = self.all_macs@;
            self.all_macs.push(owned(part));
            assert(self.macs_view() == views_of(before).push(part@));
            i += 1;
        }
        assert(all_parts.skip(parts@.len() as int).len() == 0);
        proof {
            lemma_map_vals_lookup(self.spec_mac_addresses(), ip@, |s: String| s@);
        }
        match self.mac_addresses.get(ip) {
            Some(existing) => {
                let mut msg = String::new();
                push_str(&mut msg, "Ip address ");
                push_str(&mut msg, ip);
                push_str(&mut msg, " conflict (mac: ");
                push_str(&mut msg, mac);
                push_str(&mut msg, " vs ");
                push_str(&mut msg, existing.as_str());
                push_str(&mut msg, ")");
                return Err(NixError::validation(msg));
            },
            None => {},
        }
        let mut entry = owned(mac);
        push_char(&mut entry, ',');
        push_str(&mut entry, ip);
        assert(entry@ =~= mac@ + seq![','] + ip@);
        proof {
            lemma_map_vals_insert(self.spec_mac_addresses(), ip@, entry, |s: String| s@);
        }
        self.mac_addresses.insert(owned(ip), entry);
        Ok(())
    }

    /// Declares `aliases` for `host`.
    ///
    /// An alias may name neither a host that has aliases, nor a host, nor
    /// an alias already declared (aliases are recorded as they pass, as
    /// `alias_scan` describes); on success they are appended to the aliases
    /// `host` already has.
    #[verifier::loop_isolation(false)]
    pub fn register_aliases(&mut self, host: &str, aliases: &Vec<String>) -> (r: Result<()>)
        requires
            old(self).wf(),
        ensures
            final(self).wf(),
            final(self).all_aliases_view() == alias_scan(
                views_of(aliases@),
                old(self).aliases_view(),
                old(self).hosts_view(),
                old(self).all_aliases_view(),
            ).1,
            r is Ok <==> alias_scan(
                views_of(aliases@),
                old(self).aliases_view(),
                old(self).hosts_view(),
                old(self).all_aliases_view(),
            ).0,
            r is Ok ==> final(self).aliases_view() == aliases_added(
                old(self).aliases_view(),
                host@,
                views_of(aliases@),
            ),
            r is Err ==> final(self).aliases == old(self).aliases && r->Err_0 is Validation,
            final(self).name == old(self).name,
            final(self).config == old(self).config,
            final(self).dhcp_range == old(self).dhcp_range,
            final(self).hosts == old(self).hosts,
            final(self).mac_addresses == old(self).mac_addresses,
            final(self).all_macs == old(self).all_macs,
            final(self).roaming == old(self).roaming,
    {
        let ghost av = views_of(aliases@);
        assert(av.skip(0) == av);
        let mut i: usize = 0;
        while i < aliases.len()
            invariant
                0 <= i <= aliases@.len(),
                self.wf(),
                self.aliases == old(self).aliases,
                self.hosts == old(self).hosts,
                self.mac_addresses == old(self).mac_addresses,
                self.all_macs == old(self).all_macs,
                self.roaming == old(self).roaming,
                self.name == old(self).name,
                self.config == old(self).config,
                self.dhcp_range == old(self).dhcp_range,
                alias_scan(av, old(self).aliases_view(), old(self).hosts_view(), old(self).all_aliases_view())
                    == alias_scan(av.skip(i as int), old(self).aliases_view(), old(self).hosts_view(), self.all_aliases_view()),
            decreases aliases@.len() - i,
        {
            let alias = aliases[i].as_str();
            let ghost rest = av.skip(i as int);
            assert(rest[0] == alias@);
            assert(rest.drop_first() == av.skip(i + 1));
            proof {
                lemma_map_vals_lookup(self.spec_aliases(), alias@, |v: Vec<String>| views_of(v@));
                lemma_map_vals_lookup(self.spec_hosts(), alias@, |o: Option<String>| opt_view(o));
            }
            if self.aliases.contains_key(alias) {
                let mut msg = String::new();
                push_str(&mut msg, "Alias name ");
                push_str(&mut msg, alias);
                push_str(&mut msg, " already declared in main hosts");
                return Err(NixError::validation(msg));
            }
            if self.hosts.contains_key(alias) {
                let mut msg = String::new();
                push_str(&mut msg, "Name ");
                push_str(&mut msg, alias);
                push_str(&mut msg, " cannot be alias and main host name");
                return Err(NixError::validation(msg));
            }
            let mut j: usize = 0;
            while j < self.all_aliases.len()
                invariant
                    0 <= j <= self.all_aliases@.len(),
                    forall|k: int| 0 <= k < j ==> self.all_aliases_view()[k] != alias@,
                decreases self.all_aliases@.len() - j,
            {
                if str_eq(self.all_aliases[j].as_str(), alias) {
                    assert(self.all_aliases_view()[j as int] == alias@);
                    assert(self.all_aliases_view().contains(alias@));
                    let mut msg = String::new();
                    push_str(&mut msg, "Duplicated alias ");
                    push_str(&mut msg, alias);
                    return Err(NixError::validation(msg));
                }
                j += 1;
            }
            assert(!self.all_aliases_view().contains(alias@));
            let ghost before = self.all_aliases@;
            self.all_aliases.push(aliases[i].clone());
            assert(self.all_aliases_view() == views_of(before).push(alias@));
            i += 1;
        }
        assert(av.skip(aliases@.len() as int).len() == 0);
        proof {
            lemma_map_vals_lookup(self.spec_aliases(), host@, |v: Vec<String>| views_of(v@));
        }
        let mut list: Vec<String> = match self.aliases.get(host) {
            Some(existing) => crate::text::clone_strings(existing),
            None => Vec::new(),
        };
        let ghost first = views_of(list@);
        let mut k: usize = 0;
        while k < aliases.len()
            invariant
                0 <= k <= aliases@.len(),
                views_of(list@) == first + av.take(k as int),
            decreases aliases@.len() - k,
        {
            let ghost before = list@;
            list.push(aliases[k].clone());
            assert(list@ == before.push(aliases@[k as int]));
            assert(views_of(list@) =~= views_of(before).push(av[k as int]));
            assert(av.take(k + 1) == av.take(k as int).push(av[k as int]));
            assert(views_of(list@) =~= first + av.take(k + 1));
            k += 1;
        }
        assert(av.take(aliases@.len() as int) == av);
        proof {
            if has_key(self.spec_aliases(), host@) {
                let p = key_pos(self.spec_aliases(), host@);
                assert(lookup(self.aliases_view(), host@) == Some(views_of(self.spec_aliases()[p].1@)));
            } else {
                assert(first =~= Seq::<Seq<char>>::empty());
            }
            lemma_map_vals_insert(self.spec_aliases(), host@, list, |v: Vec<String>| views_of(v@));
        }
        self.aliases.insert(owned(host), list);
        Ok(())
    }

    /// Reserves address `ip` in this zone for `host`, whose home is another
    /// zone. A host is either native or roaming: none of its MAC addresses
    /// may already be declared here.
    #[verifier::loop_isolation(false)]
    pub fn register_roaming_host(&mut self, host: &str, mac: &str, ip: &str) -> (r: Result<()>)
        requires
            old(self).wf(),
        ensures
            final(self).wf(),
            r is Ok <==> !any_known(split_char(mac@, ','), old(self).macs_view()),
            r is Err ==> *final(self) == *old(self) && r->Err_0 is Validation,
            r is Ok ==> lookup(final(self).roaming_view(), host@) == Some((mac@, ip@)),
            r is Ok ==> forall|k: Seq<char>| k != host@ ==> lookup(final(self).roaming_view(), k)
                == lookup(old(self).roaming_view(), k),
            final(self).name == old(self).name,
            final(self).config == old(self).config,
            final(self).dhcp_range == old(self).dhcp_range,
            final(self).hosts == old(self).hosts,
            final(self).mac_addresses == old(self).mac_addresses,
            final(self).all_macs == old(self).all_macs,
            final(self).aliases == old(self).aliases,
            final(self).all_aliases == old(self).all_aliases,
    {
        let parts = split(mac, ',');
        let ghost pv = parts.deep_view();
        let mut i: usize = 0;
        while i < parts.len()
            invariant
                0 <= i <= parts@.len(),
                *self == *old(self),
                pv == split_char(mac@, ','),
                forall|k: int| 0 <= k < i ==> !self.macs_view().contains(#[trigger] pv[k]),
            decreases parts@.len() - i,
        {
            let part = parts[i].as_str();
            assert(pv[i as int] == part@);
            let mut j: usize = 0;
            while j < self.all_macs.len()
                invariant
                    0 <= j <= self.all_macs@.len(),
                    forall|k: int| 0 <= k < j ==> self.macs_view()[k] != part@,
                decreases self.all_macs@.len() - j,
            {
                if str_eq(self.all_macs[j].as_str(), part) {
                    assert(self.macs_view()[j as int] == part@);
                    assert(self.macs_view().contains(pv[i as int]));
                    let mut msg = String::new();
                    push_str(&mut msg, "Mac address ");
                    push_str(&mut msg, part);
                    push_str(&mut msg, " of roaming host ");
                    push_str(&mut msg, host);
                    push_str(&mut msg, " is already declared in zone ");
                    push_str(&mut msg, self.name.as_str());
                    return Err(NixError::validation(msg));
                }
                j += 1;
            }
            assert(!self.macs_view().contains(part@));
            i += 1;
        }
        let v = (owned(mac), owned(ip));
        let ghost raw = self.spec_roaming();
        self.roaming.insert_sorted(owned(host), v);
        proof {
            let f = |p: (String, String)| (p.0@, p.1@);
            lemma_sorted_unique_zone(self.spec_roaming());
            lemma_sorted_unique_zone(raw);
            crate::strmap::lemma_map_vals_lookup_value(self.spec_roaming(), host@, f);
            assert forall|k: Seq<char>| k != host@ implies lookup(self.roaming_view(), k) == lookup(old(self).roaming_view(), k) by {
                crate::strmap::lemma_map_vals_lookup_value(self.spec_roaming(), k, f);
                crate::strmap::lemma_map_vals_lookup_value(raw, k, f);
            }
        }
        Ok(())
    }

    /// The roaming block `<ipPrefix>.6.0/24` holds no declared host address.
    #[verifier::loop_isolation(false)]
    pub fn assert_roaming_block_free(&self) -> (r: Result<()>)
        ensures
            r is Ok <==> forall|i: int| 0 <= i < self.hosts_view().len() ==> !(#[trigger] self.hosts_view()[i].1 is Some
                && has_prefix(self.hosts_view()[i].1->0, roaming_block(self.ip_prefix_spec()))),
            r is Err ==> r->Err_0 is Validation,
    {
        let mut block = owned(self.ip_prefix());
        push_char(&mut block, '.');
        crate::text::push_decimal_u64(&mut block, ROAMING_SUBNET as u64);
        push_char(&mut block, '.');
        assert(block@ =~= roaming_block(self.ip_prefix_spec()));
        let ghost hv = self.hosts_view();
        let mut i: usize = 0;
        while i < self.hosts.len()
            invariant
                0 <= i <= hv.len(),
                hv.len() == self.spec_hosts().len(),
                forall|j: int| 0 <= j < i ==> !(#[trigger] hv[j].1 is Some && has_prefix(hv[j].1->0, block@)),
            decreases hv.len() - i,
        {
            assert(hv[i as int].1 == opt_view(self.spec_hosts()[i as int].1));
            match self.hosts.value_at(i) {
                Some(ip) => {
                    if starts_with(ip.as_str(), block.as_str()) {
                        let mut msg = String::new();
                        push_str(&mut msg, "Host \"");
                        push_str(&mut msg, self.hosts.key_at(i).as_str());
                        push_str(&mut msg, "\" uses ");
                        push_str(&mut msg, block.as_str());
                        push_str(&mut msg, "0/24, reserved for roaming hosts in zone ");
                        push_str(&mut msg, self.name.as_str());
                        return Err(NixError::validation(msg));
                    }
                },
                None => {},
            }
            i += 1;
        }
        Ok(())
    }

    /// Every declared fixed address sits outside each DHCP dynamic pool
    /// (bounds included); pools whose bounds are not addresses are ignored.
    /// The error names the first pool hit and, in it, the offending host
    /// that comes first by name.
    #[verifier::loop_isolation(false)]
    pub fn assert_hosts_outside_dhcp_range(&self) -> (r: Result<()>)
        ensures
            r is Ok <==> !(exists|ri: int, hi: int| 0 <= ri < self.dhcp_range@.len() && 0 <= hi
                < self.hosts_view().len() && #[trigger] in_dhcp_range(
                self.dhcp_range@[ri]@,
                #[trigger] self.hosts_view()[hi].1,
            )),
            r is Err ==> exists|ri: int, hi: int|
                #![trigger self.dhcp_range@[ri], self.hosts_view()[hi]]
                dhcp_offender(self.dhcp_range@.map_values(|x: String| x@), self.hosts_view(), ri, hi)
                    && r->Err_0 == NixError::Validation(r->Err_0->Validation_0) && r->Err_0->Validation_0@
                    == dhcp_conflict_message(
                    self.hosts_view()[hi].0,
                    self.hosts_view()[hi].1->0,
                    self.dhcp_range@[ri]@,
                    self.name@,
                ),
    {
        let ghost hv = self.hosts_view();
        let mut ri: usize = 0;
        while ri < self.dhcp_range.len()
            invariant
                0 <= ri <= self.dhcp_range@.len(),
                hv.len() == self.spec_hosts().len(),
                forall|a: int, b: int| 0 <= a < ri && 0 <= b < hv.len() ==> !#[trigger] in_dhcp_range(
                    self.dhcp_range@[a]@,
                    #[trigger] hv[b].1,
                ),
            decreases self.dhcp_range@.len() - ri,
        {
            let range = self.dhcp_range[ri].as_str();
            match dhcp_bounds(range) {
                None => {
                    assert forall|b: int| 0 <= b < hv.len() implies !#[trigger] in_dhcp_range(
                        self.dhcp_range@[ri as int]@,
                        hv[b].1,
                    ) by {}
                },
                Some((start, end)) => {
                    let mut best: Option<usize> = None;
                    let mut hi: usize = 0;
                    while hi < self.hosts.len()
                        invariant
                            0 <= hi <= hv.len(),
                            range_bounds(range@) == Some((start, end)),
                            forall|b: int| 0 <= b < hi ==> (#[trigger] in_dhcp_range(range@, hv[b].1) ==> best is Some),
                            best matches Some(x) ==> x < hi && in_dhcp_range(range@, hv[x as int].1),
                            best matches Some(x) ==> forall|b: int| 0 <= b < hi && #[trigger] in_dhcp_range(range@, hv[b].1)
                                ==> !lex_lt(hv[b].0, hv[x as int].0),
                        decreases hv.len() - hi,
                    {
                        assert(hv[hi as int].1 == opt_view(self.spec_hosts()[hi as int].1));
                        let hit = match self.hosts.value_at(hi) {
                            Some(ip) => match ipv4_to_u32(ip.as_str()) {
                                Some(addr) => start <= addr && addr <= end,
                                None => false,
                            },
                            None => false,
                        };
                        if hit {
                            let better = match best {
                                None => true,
                                Some(x) => str_lt(self.hosts.key_at(hi).as_str(), self.hosts.key_at(x).as_str()),
                            };
                            proof {
                                assert(hv[hi as int].0 == self.spec_hosts()[hi as int].0);
                                if let Some(x) = best {
                                    assert(hv[x as int].0 == self.spec_hosts()[x as int].0);
                                    if better {
                                        assert forall|b: int| 0 <= b < hi && #[trigger] in_dhcp_range(range@, hv[b].1)
                                            implies !lex_lt(hv[b].0, hv[hi as int].0) by {
                                            if lex_lt(hv[b].0, hv[hi as int].0) {
                                                crate::text::lemma_lex_lt_transitive(hv[b].0, hv[hi as int].0, hv[x as int].0);
                                            }
                                        }
                                        crate::text::lemma_lex_lt_irreflexive(hv[hi as int].0);
                                    }
                                } else {
                                    crate::text::lemma_lex_lt_irreflexive(hv[hi as int].0);
                                }
                            }
                            if better {
                                best = Some(hi);
                            }
                        }
                        hi += 1;
                    }
                    match best {
                        Some(x) => {
                            proof {
                                reveal_strlit("Host \"");
                                reveal_strlit("\" has fixed ip ");
                                reveal_strlit(" inside the dhcp-range ");
                                reveal_strlit(" of zone ");
                                reveal_strlit(": pick an address outside the dynamic pool");
                                assert(hv[x as int] == (self.spec_hosts()[x as int].0, opt_view(self.spec_hosts()[x as int].1)));
                                let rv = self.dhcp_range@.map_values(|y: String| y@);
                                assert(rv[ri as int] == range@);
                                assert forall|a: int, b: int| 0 <= a < ri && 0 <= b < hv.len() implies !#[trigger] in_dhcp_range(rv[a], #[trigger] hv[b].1) by {
                                    assert(rv[a] == self.dhcp_range@[a]@);
                                }
                                assert(dhcp_offender(rv, hv, ri as int, x as int));
                            }
                            let ip_text = match self.hosts.value_at(x) {
                                Some(ip) => ip.as_str(),
                                None => "",
                            };
                            let mut msg = String::new();
                            push_str(&mut msg, "Host \"");
                            push_str(&mut msg, self.hosts.key_at(x).as_str());
                            push_str(&mut msg, "\" has fixed ip ");
                            push_str(&mut msg, ip_text);
                            push_str(&mut msg, " inside the dhcp-range ");
                            push_str(&mut msg, range);
                            push_str(&mut msg, " of zone ");
                            push_str(&mut msg, self.name.as_str());
                            push_str(&mut msg, ": pick an address outside the dynamic pool");
                            return Err(NixError::validation(msg));
                        },
                        None => {},
                    }
                },
            }
            ri += 1;
        }
        Ok(())
    }

    /// Takes the gateway out of the configuration, or an empty one.
    fn take_gateway(&mut self) -> (g: GatewayConfig)
        ensures
            g == gateway_or_empty(old(self).config.gateway),
            final(self).config.gateway is None,
            same_but_gateway(final(self).config, old(self).config),
            final(self).name == old(self).name,
            final(self).dhcp_range == old(self).dhcp_range,
            final(self).hosts == old(self).hosts,
            final(self).mac_addresses == old(self).mac_addresses,
            final(self).all_macs == old(self).all_macs,
            final(self).aliases == old(self).aliases,
            final(self).all_aliases == old(self).all_aliases,
            final(self).roaming == old(self).roaming,
    {
        let mut gw: Option<GatewayConfig> = None;
        std::mem::swap(&mut gw, &mut self.config.gateway);
        match gw {
            Some(g) => g,
            None => GatewayConfig::empty(),
        }
    }

    /// Records the gateway's LAN address.
    pub fn set_gateway_lan_ip(&mut self, ip: &str)
        ensures
            final(self).config.gateway is Some,
            opt_view(final(self).config.gateway->0.lan_ip) == Some(ip@),
            same_gateway_but(final(self).config.gateway->0, gateway_or_empty(old(self).config.gateway), GatewayField::LanIp),
            same_but_gateway(final(self).config, old(self).config),
            final(self).name == old(self).name,
            final(self).dhcp_range == old(self).dhcp_range,
            final(self).hosts == old(self).hosts,
            final(self).mac_addresses == old(self).mac_addresses,
            final(self).all_macs == old(self).all_macs,
            final(self).aliases == old(self).aliases,
            final(self).all_aliases == old(self).all_aliases,
            final(self).roaming == old(self).roaming,
    {
        let mut g = self.take_gateway();
        g.lan_ip = Some(owned(ip));
        self.config.gateway = Some(g);
    }

    /// Records the gateway's tailnet address.
    pub fn set_gateway_vpn_ipv4(&mut self, ip: &str)
        ensures
            final(self).config.gateway is Some,
            opt_view(final(self).config.gateway->0.vpn_ipv4) == Some(ip@),
            same_gateway_but(final(self).config.gateway->0, gateway_or_empty(old(self).config.gateway), GatewayField::VpnIpv4),
            same_but_gateway(final(self).config, old(self).config),
            final(self).name == old(self).name,
            final(self).dhcp_range == old(self).dhcp_range,
            final(self).hosts == old(self).hosts,
            final(self).mac_addresses == old(self).mac_addresses,
            final(self).all_macs == old(self).all_macs,
            final(self).aliases == old(self).aliases,
            final(self).all_aliases == old(self).all_aliases,
            final(self).roaming == old(self).roaming,
    {
        let mut g = self.take_gateway();
        g.vpn_ipv4 = Some(owned(ip));
        self.config.gateway = Some(g);
    }

    /// Names the zone's gateway host; a zone has at most one.
    pub fn set_gateway_hostname(&mut self, hostname: &str) -> (r: Result<()>)
        ensures
            r is Ok <==> gateway_or_empty(old(self).config.gateway).hostname is None,
            r is Err ==> *final(self) == *old(self) && r->Err_0 is Validation,
            r is Ok ==> final(self).config.gateway is Some
                && opt_view(final(self).config.gateway->0.hostname) == Some(hostname@)
                && same_gateway_but(final(self).config.gateway->0, gateway_or_empty(old(self).config.gateway), GatewayField::Hostname)
                && same_but_gateway(final(self).config, old(self).config)
                && final(self).name == old(self).name
                && final(self).dhcp_range == old(self).dhcp_range
                && final(self).hosts == old(self).hosts
                && final(self).mac_addresses == old(self).mac_addresses
                && final(self).all_macs == old(self).all_macs
                && final(self).aliases == old(self).aliases
                && final(self).all_aliases == old(self).all_aliases
                && final(self).roaming == old(self).roaming,
    {
        let existing = match &self.config.gateway {
            Some(g) => match &g.hostname {
                Some(h) => Some(h.as_str()),
                None => None,
            },
            None => None,
        };
        if let Some(existing) = existing {
            let mut msg = String::new();
            push_str(&mut msg, "Zone \"");
            push_str(&mut msg, self.name.as_str());
            push_str(&mut msg, "\" already has a gateway \"");
            push_str(&mut msg, existing);
            push_str(&mut msg, "\", cannot set \"");
            push_str(&mut msg, hostname);
            push_str(&mut msg, "\"");
            return Err(NixError::validation(msg));
        }
        let mut g = self.take_gateway();
        g.hostname = Some(owned(hostname));
        self.config.gateway = Some(g);
        Ok(())
    }

    /// Configures the zone from its (optional) `zones.<name>` block.
    ///
    /// Locale and time zone default to the network's; the description to
    /// `"<name> network zone"`; the language is the locale's first two
    /// bytes. The external zone takes the network domain and nothing else;
    /// a local zone takes `<name>.<network domain>`, its address prefix
    /// (`10.1` by default), the derived network address and prefix length,
    /// its DHCP ranges (a default one unless the gateway lists its own) and
    /// its checked gateway settings. The dynamic ranges of the external zone
    /// are left as they were.
    pub fn register_zone_config(
        &mut self,
        cfg: Option<&ZoneCfg>,
        default_locale: &str,
        default_timezone: &str,
        network_domain: &str,
    ) -> (r: Result<()>)
        requires
            lang_of(effective_locale(cfg, default_locale@)) is Some,
        ensures
            r is Ok <==> !(!old(self).is_external_spec() && cfg is Some && cfg->0.gateway is Some
                && !gateway_valid(cfg->0.gateway->0)),
            r is Err ==> *final(self) == *old(self) && r->Err_0 is Validation,
            r is Ok ==> zone_configured(*final(self), *old(self), cfg, default_locale@, default_timezone@, network_domain@),
            final(self).name == old(self).name,
            final(self).hosts == old(self).hosts,
            final(self).mac_addresses == old(self).mac_addresses,
            final(self).all_macs == old(self).all_macs,
            final(self).aliases == old(self).aliases,
            final(self).all_aliases == old(self).all_aliases,
            final(self).roaming == old(self).roaming,
    {
        self.register_zone_config_with(cfg, None, default_locale, default_timezone, network_domain)
    }

    /// Configures the zone as `register_zone_config` does, from its block
    /// with each setting it leaves unset taken from the shared `common`
    /// block, when there is one.
    pub fn register_zone_config_with(
        &mut self,
        cfg: Option<&ZoneCfg>,
        common: Option<&ZoneCfg>,
        default_locale: &str,
        default_timezone: &str,
        network_domain: &str,
    ) -> (r: Result<()>)
        requires
            lang_of(effective_locale(with_common(cfg, common), default_locale@)) is Some,
        ensures
            r is Ok <==> !(!old(self).is_external_spec() && with_common(cfg, common) is Some
                && with_common(cfg, common)->0.gateway is Some && !gateway_valid(with_common(cfg, common)->0.gateway->0)),
            r is Err ==> *final(self) == *old(self) && r->Err_0 is Validation,
            r is Ok ==> zone_configured(*final(self), *old(self), with_common(cfg, common), default_locale@, default_timezone@, network_domain@),
            final(self).name == old(self).name,
            final(self).hosts == old(self).hosts,
            final(self).mac_addresses == old(self).mac_addresses,
            final(self).all_macs == old(self).all_macs,
            final(self).aliases == old(self).aliases,
            final(self).all_aliases == old(self).all_aliases,
            final(self).roaming == old(self).roaming,
    {
        let locale: String = match cfg {
            Some(c) => match (&c.locale, common) {
                (Some(v), _) => v.clone(),
                (None, Some(m)) => match &m.locale {
                    Some(v) => v.clone(),
                    None => owned(default_locale),
                },
                (None, None) => owned(default_locale),
            },
            None => owned(default_locale),
        };
        let timezone: String = match cfg {
            Some(c) => match (&c.timezone, common) {
                (Some(v), _) => v.clone(),
                (None, Some(m)) => match &m.timezone {
                    Some(v) => v.clone(),
                    None => owned(default_timezone),
                },
                (None, None) => owned(default_timezone),
            },
            None => owned(default_timezone),
        };
        let description: String = match cfg {
            Some(c) => match (&c.description, common) {
                (Some(d), _) => d.clone(),
                (None, Some(m)) => match &m.description {
                    Some(d) => d.clone(),
                    None => {
                        let mut d = self.name.clone();
                        push_str(&mut d, " network zone");
                        d
                    },
                },
                (None, None) => {
                    let mut d = self.name.clone();
                    push_str(&mut d, " network zone");
                    d
                },
            },
            None => {
                let mut d = self.name.clone();
                push_str(&mut d, " network zone");
                d
            },
        };
        let lang = lang_prefix(locale.as_str());
        let external = self.is_external();
        let domain: String = if external {
            owned(network_domain)
        } else {
            let mut d = self.name.clone();
            push_char(&mut d, '.');
            push_str(&mut d, network_domain);
            d
        };
        let mut config = ZoneConfig::empty();
        config.lang = Some(lang);
        config.locale = Some(locale);
        config.timezone = Some(timezone);
        config.description = Some(description);
        config.domain = Some(domain);
        if !external {
            let ip_prefix: String = match cfg {
                Some(c) => match (&c.ip_prefix, common) {
                    (Some(p), _) => p.clone(),
                    (None, Some(m)) => match &m.ip_prefix {
                        Some(p) => p.clone(),
                        None => owned(DEFAULT_LAN_IP_PREFIX),
                    },
                    (None, None) => owned(DEFAULT_LAN_IP_PREFIX),
                },
                None => owned(DEFAULT_LAN_IP_PREFIX),
            };
            let mut network_ip = ip_prefix.clone();
            push_str(&mut network_ip, ".0.0");
            config.network_ip = Some(network_ip);
            config.prefix_length = Some(LAN_PREFIX_LENGTH);
            let default_range = default_dhcp_range(ip_prefix.as_str());
            let gw = match cfg {
                Some(c) => match (&c.gateway, common) {
                    (Some(g), _) => Some(g),
                    (None, Some(m)) => match &m.gateway {
                        Some(g) => Some(g),
                        None => None,
                    },
                    (None, None) => None,
                },
                None => None,
            };
            match gw {
                Some(g) => {
                    assert_gw_cfg(g)?;
                    let ranges = match &g.lan {
                        Some(l) => match &l.dhcp_range {
                            Some(rs) => crate::text::clone_strings(rs),
                            None => vec![default_range],
                        },
                        None => vec![default_range],
                    };
                    self.dhcp_range = ranges;
                    assert(views_of(self.dhcp_range@) =~= seq![default_range_spec(effective_ip_prefix(with_common(cfg, common)))] || (g.lan is Some && g.lan->0.dhcp_range is Some && self.dhcp_range@ == g.lan->0.dhcp_range->0@));
                    config.gateway = Some(gateway_to_value(g));
                },
                None => {
                    self.dhcp_range = vec![default_range];
                    assert(views_of(self.dhcp_range@) =~= seq![default_range_spec(effective_ip_prefix(with_common(cfg, common)))]);
                },
            }
            config.ip_prefix = Some(ip_prefix);
        }
        self.config = config;
        proof {
            let locale_s = effective_locale(with_common(cfg, common), default_locale@);
            assert(opt_view(self.config.lang) == lang_of(locale_s));
            assert(opt_view(self.config.locale) == Some(locale_s));
            assert(opt_view(self.config.timezone) == Some(effective_timezone(with_common(cfg, common), default_timezone@)));
            assert(opt_view(self.config.description) == Some(effective_description(with_common(cfg, common), old(self).name@)));
            if !old(self).is_external_spec() {
                let p = effective_ip_prefix(with_common(cfg, common));
                assert(opt_view(self.config.domain) == Some(old(self).name@ + seq!['.'] + network_domain@));
                assert(opt_view(self.config.network_ip) == Some(p + ".0.0"@));
                assert(opt_view(self.config.ip_prefix) == Some(p));
            }
        }
        Ok(())
    }

    /// host -> (macs, ip) roaming reservations, in host order.
    pub fn roaming(&self) -> (r: &StrMap<(String, String)>)
        ensures
            r@ == self.spec_roaming(),
    {
        &self.roaming
    }
}

/// Law: once `host` is registered it is known, so registering it again
/// without `force` is refused; and an address given to it is in use, so no
/// other host can take it.
pub proof fn law_registered_host_known(
    hosts: Seq<(Seq<char>, Option<Seq<char>>)>,
    host: Seq<char>,
    ip: Option<Seq<char>>,
)
    requires
        keys_unique(hosts),
    ensures
        has_key(host_registered(hosts, host, ip), host),
        ip matches Some(a) ==> ip_in_use(host_registered(hosts, host, ip), a),
{
    let r = host_registered(hosts, host, ip);
    if has_key(hosts, host) && ip is None {
    } else {
        crate::strmap::lemma_insert_entry(hosts, host, ip);
        assert(lookup(r, host) == Some(ip));
        let p = key_pos(r, host);
        assert(r[p].0 == host);
        if ip is Some {
            assert(r[p].1 == ip);
        }
    }
}

/// Law: both bounds of a DHCP range belong to its pool, and a host with no
/// declared address never falls in a pool.
pub proof fn law_dhcp_bounds_inclusive(range: Seq<char>, start: u32, end: u32, ip: Seq<char>)
    requires
        range_bounds(range) == Some((start, end)),
        start <= end,
        ipv4_value(ip) == Some(start) || ipv4_value(ip) == Some(end),
    ensures
        in_dhcp_range(range, Some(ip)),
        !in_dhcp_range(range, None),
{
}

} // verus!
