//! The network: global settings, zones and the services the hosts run.
use vstd::prelude::*;
use crate::error::{NixError, Result};
use crate::host::ServiceParams;
use crate::schema::{Coordination, Matrix, NetworkCfg, NetworkDefault, Smtp};
use crate::service::{NixService, ServiceRegistry};
use crate::strmap::{has_key, insert_entry, keys_unique, lookup, map_vals, StrMap};
use crate::text::{
    chars_of, clone_opt, opt_view, owned, push_char, push_str, sort_dedup, str_eq, strictly_sorted,
    views_of,
};
use crate::validation::{
    assert_email, assert_regex, pattern_accepts, RE_EMAIL, RE_FQDN, RE_HOSTNAME, RE_LOCALE,
    RE_SMTP_PROTOCOL, RE_TIMEZONE,
};
use crate::zone::{NixZone, EXTERNAL_ZONE_KEY};

verus! {

pub const DEFAULT_DOMAIN: &'static str = "darkone.lan";
pub const DEFAULT_LOCALE: &'static str = "fr_FR.UTF-8";
pub const DEFAULT_TIMEZONE: &'static str = "Europe/Paris";
pub const DEFAULT_COORDINATION_DOMAIN: &'static str = "headscale";

/// Network-wide settings, defaults applied.
pub struct NetworkConfig {
    pub domain: String,
    pub default_locale: String,
    pub default_timezone: String,
    pub coordination_domain: String,
    pub coordination_hostname: String,
    pub coordination_enable: bool,
    /// Typed blocks kept as given for `network.nix` emission.
    pub default: Option<NetworkDefault>,
    pub coordination: Option<Coordination>,
    pub smtp: Option<Smtp>,
    pub matrix: Option<Matrix>,
}

impl NetworkConfig {
    /// Empty strings, coordination off, no block.
    pub open spec fn is_empty(&self) -> bool {
        &&& self.domain@.len() == 0 && self.default_locale@.len() == 0 && self.default_timezone@.len() == 0
        &&& self.coordination_domain@.len() == 0 && self.coordination_hostname@.len() == 0
        &&& !self.coordination_enable
        &&& self.default is None && self.coordination is None && self.smtp is None && self.matrix is None
    }

    /// Settings before any configuration: empty strings, no block.
    pub fn empty() -> (c: Self)
        ensures
            c.is_empty(),
    {
        NetworkConfig {
            domain: String::new(),
            default_locale: String::new(),
            default_timezone: String::new(),
            coordination_domain: String::new(),
            coordination_hostname: String::new(),
            coordination_enable: false,
            default: None,
            coordination: None,
            smtp: None,
            matrix: None,
        }
    }
}

/// A registered service, by its views: name, host, zone, custom domain,
/// title, description, icon, global.
pub type ServiceSpec = (
    Seq<char>,
    Seq<char>,
    Seq<char>,
    Option<Seq<char>>,
    Option<Seq<char>>,
    Option<Seq<char>>,
    Option<Seq<char>>,
    bool,
);

pub open spec fn service_spec(s: NixService) -> ServiceSpec {
    (
        s.name@,
        s.host@,
        s.zone@,
        opt_view(s.domain),
        opt_view(s.title),
        opt_view(s.description),
        opt_view(s.icon),
        s.global,
    )
}

/// Domain label of service `name` declared with `p`: its custom domain,
/// else its name.
pub open spec fn service_domain(name: Seq<char>, p: ServiceParams) -> Seq<char> {
    match p.domain {
        Some(d) => d@,
        None => name,
    }
}

/// Every service that a declared service requires is declared on the same
/// host.
pub open spec fn requirements_met(entries: Seq<(Seq<char>, ServiceParams)>, registry: ServiceRegistry) -> bool {
    forall|i: int, j: int|
        0 <= i < entries.len() && 0 <= j < registry.requires_spec(#[trigger] entries[i].0).len()
            ==> has_key(entries, #[trigger] registry.requires_spec(entries[i].0)[j]@)
}

/// Registration of the services `entries` of `host` in `zone`, in order.
///
/// A service unique per zone may appear once per zone; a global service
/// (every service of the external zone is global) needs a domain label no
/// other global service uses; `<zone>:<label>` must be new. The unique and
/// global records are updated as each service passes; the scan stops at the
/// first failure. Returns whether all passed and the records
/// `(unique, global, services)` after the scan.
pub open spec fn register_scan(
    host: Seq<char>,
    zone: Seq<char>,
    entries: Seq<(Seq<char>, ServiceParams)>,
    registry: ServiceRegistry,
    uniq: Seq<(Seq<char>, Seq<char>)>,
    globals: Seq<Seq<char>>,
    services: Seq<(Seq<char>, ServiceSpec)>,
) -> (bool, Seq<(Seq<char>, Seq<char>)>, Seq<Seq<char>>, Seq<(Seq<char>, ServiceSpec)>)
    decreases entries.len(),
{
    if entries.len() == 0 {
        (true, uniq, globals, services)
    } else {
        let name = entries[0].0;
        let p = entries[0].1;
        let domain = service_domain(name, p);
        let unique = registry.flags_spec(name).unique_per_zone;
        if unique && uniq.contains((zone, name)) {
            (false, uniq, globals, services)
        } else {
            let uniq1 = if unique {
                uniq.push((zone, name))
            } else {
                uniq
            };
            let global = p.global || zone == EXTERNAL_ZONE_KEY@;
            if global && globals.contains(domain) {
                (false, uniq1, globals, services)
            } else {
                let globals1 = if global {
                    globals.push(domain)
                } else {
                    globals
                };
                let key = zone + seq![':'] + domain;
                if has_key(services, key) {
                    (false, uniq1, globals1, services)
                } else {
                    register_scan(
                        host,
                        zone,
                        entries.drop_first(),
                        registry,
                        uniq1,
                        globals1,
                        insert_entry(
                            services,
                            key,
                            (
                                name,
                                host,
                                zone,
                                opt_view(p.domain),
                                opt_view(p.title),
                                opt_view(p.description),
                                opt_view(p.icon),
                                global,
                            ),
                        ),
                    )
                }
            }
        }
    }
}

/// A local zone that holds hosts but runs no `harmonia` service.
pub open spec fn lacks_harmonia(z: NixZone, services: Seq<(Seq<char>, ServiceSpec)>) -> bool {
    &&& !z.is_external_spec()
    &&& z.spec_hosts().len() > 0
    &&& !exists|b: int| 0 <= b < services.len() && #[trigger] services[b].1.0 == "harmonia"@
        && services[b].1.2 == z.name@
}

/// `o`'s value, else `d`.
pub open spec fn chosen(o: Option<String>, d: Seq<char>) -> Seq<char> {
    match o {
        Some(s) => s@,
        None => d,
    }
}

pub open spec fn cfg_default(cfg: Option<&NetworkCfg>) -> Option<NetworkDefault> {
    match cfg {
        Some(c) => c.default,
        None => None,
    }
}

pub open spec fn cfg_coordination(cfg: Option<&NetworkCfg>) -> Option<Coordination> {
    match cfg {
        Some(c) => c.coordination,
        None => None,
    }
}

pub open spec fn cfg_smtp(cfg: Option<&NetworkCfg>) -> Option<Smtp> {
    match cfg {
        Some(c) => c.smtp,
        None => None,
    }
}

pub open spec fn eff_domain(cfg: Option<&NetworkCfg>) -> Seq<char> {
    match cfg {
        Some(c) => chosen(c.domain, DEFAULT_DOMAIN@),
        None => DEFAULT_DOMAIN@,
    }
}

pub open spec fn eff_locale(cfg: Option<&NetworkCfg>) -> Seq<char> {
    match cfg_default(cfg) {
        Some(d) => chosen(d.locale, DEFAULT_LOCALE@),
        None => DEFAULT_LOCALE@,
    }
}

pub open spec fn eff_timezone(cfg: Option<&NetworkCfg>) -> Seq<char> {
    match cfg_default(cfg) {
        Some(d) => chosen(d.timezone, DEFAULT_TIMEZONE@),
        None => DEFAULT_TIMEZONE@,
    }
}

pub open spec fn eff_coord_domain(cfg: Option<&NetworkCfg>) -> Seq<char> {
    match cfg_coordination(cfg) {
        Some(c) => chosen(c.domain, DEFAULT_COORDINATION_DOMAIN@),
        None => DEFAULT_COORDINATION_DOMAIN@,
    }
}

pub open spec fn eff_coord_hostname(cfg: Option<&NetworkCfg>) -> Seq<char> {
    match cfg_coordination(cfg) {
        Some(c) => chosen(c.hostname, Seq::empty()),
        None => Seq::empty(),
    }
}

pub open spec fn eff_coord_enable(cfg: Option<&NetworkCfg>) -> bool {
    match cfg_coordination(cfg) {
        Some(c) => match c.enable {
            Some(b) => b,
            None => false,
        },
        None => false,
    }
}

/// The `network:` block is acceptable: locale and time zone well-formed,
/// coordination host name (when given) and domain valid host names, and the
/// SMTP protocol, server and user (when given) well-formed.
pub open spec fn network_cfg_valid(cfg: Option<&NetworkCfg>) -> bool {
    &&& pattern_accepts(RE_LOCALE@, eff_locale(cfg))
    &&& pattern_accepts(RE_TIMEZONE@, eff_timezone(cfg))
    &&& (eff_coord_hostname(cfg).len() == 0 || pattern_accepts(RE_HOSTNAME@, eff_coord_hostname(cfg)))
    &&& pattern_accepts(RE_HOSTNAME@, eff_coord_domain(cfg))
    &&& match cfg_smtp(cfg) {
        Some(s) => {
            &&& (s.protocol matches Some(p) ==> pattern_accepts(RE_SMTP_PROTOCOL@, p@))
            &&& (s.server matches Some(v) ==> pattern_accepts(RE_FQDN@, v@))
            &&& (s.username matches Some(u) ==> (u@.len() == 0 || pattern_accepts(RE_EMAIL@, u@)))
        },
        None => true,
    }
}

/// The network: settings, zones (by name) and services (by
/// `<zone>:<label>`, in declaration order).
pub struct NixNetwork {
    pub config: NetworkConfig,
    pub zones: StrMap<NixZone>,
    pub services: StrMap<NixService>,
    /// (zone, service) pairs of the services unique per zone.
    pub uniq_services: Vec<(String, String)>,
    /// Domain labels of the global services.
    pub global_service_domains: Vec<String>,
    /// Per-service topology flags.
    pub registry: ServiceRegistry,
}

impl NixNetwork {
    pub open spec fn uniq_view(&self) -> Seq<(Seq<char>, Seq<char>)> {
        self.uniq_services@.map_values(|p: (String, String)| (p.0@, p.1@))
    }

    pub open spec fn globals_view(&self) -> Seq<Seq<char>> {
        views_of(self.global_service_domains@)
    }

    pub open spec fn services_view(&self) -> Seq<(Seq<char>, ServiceSpec)> {
        map_vals(self.services@, |s: NixService| service_spec(s))
    }

    /// Maps have unique keys, every zone is well formed and filed under its
    /// own name.
    pub open spec fn wf(&self) -> bool {
        &&& self.zones.wf()
        &&& self.services.wf()
        &&& self.registry.wf()
        &&& forall|i: int| 0 <= i < self.zones@.len() ==> (#[trigger] self.zones@[i]).1.wf()
            && self.zones@[i].1.name@ == self.zones@[i].0
    }

    /// A network with no zone, no service, empty settings and an empty
    /// registry.
    pub fn new() -> (n: Self)
        ensures
            n.wf(),
            n.config.is_empty(),
            n.zones@.len() == 0,
            n.services@.len() == 0,
            n.uniq_services@.len() == 0,
            n.global_service_domains@.len() == 0,
            n.registry.map@.len() == 0 && n.registry.requires@.len() == 0,
    {
        NixNetwork {
            config: NetworkConfig::empty(),
            zones: StrMap::new(),
            services: StrMap::new(),
            uniq_services: Vec::new(),
            global_service_domains: Vec::new(),
            registry: ServiceRegistry::empty(),
        }
    }

    /// Files `zone` under its name, replacing a zone of the same name.
    pub fn add_zone(&mut self, zone: NixZone)
        requires
            old(self).wf(),
            zone.wf(),
        ensures
            final(self).wf(),
            final(self).zones@ == insert_entry(old(self).zones@, zone.name@, zone),
            final(self).services == old(self).services,
            final(self).config == old(self).config,
            final(self).registry == old(self).registry,
            final(self).uniq_services == old(self).uniq_services,
            final(self).global_service_domains == old(self).global_service_domains,
    {
        let ghost z = zone;
        proof {
            crate::strmap::lemma_insert_entry(self.zones@, zone.name@, zone);
        }
        self.zones.insert(zone.name.clone(), zone);
        proof {
            let s = self.zones@;
            let o = old(self).zones@;
            assert forall|i: int| 0 <= i < s.len() implies (#[trigger] s[i]).1.wf() && s[i].1.name@ == s[i].0 by {
                if has_key(o, z.name@) {
                    let p = crate::strmap::key_pos(o, z.name@);
                    if i != p {
                        assert(s[i] == o[i]);
                    }
                } else if i < o.len() {
                    assert(s[i] == o[i]);
                }
            }
        }
    }

    /// The zone named `name`.
    pub fn get_zone(&self, name: &str) -> (r: Result<&NixZone>)
        requires
            self.wf(),
        ensures
            match r {
                Ok(z) => lookup(self.zones@, name@) == Some(*z),
                Err(e) => !has_key(self.zones@, name@) && e is Validation,
            },
    {
        match self.zones.get(name) {
            Some(z) => Ok(z),
            None => {
                let mut msg = owned("Undefined zone \"");
                push_str(&mut msg, name);
                push_str(&mut msg, "\"");
                Err(NixError::validation(msg))
            },
        }
    }

    /// Position of the zone named `name`.
    pub fn zone_position(&self, name: &str) -> (r: Result<usize>)
        requires
            self.wf(),
        ensures
            match r {
                Ok(i) => has_key(self.zones@, name@) && i == crate::strmap::key_pos(self.zones@, name@)
                    && i < self.zones@.len() && self.zones@[i as int].0 == name@,
                Err(e) => !has_key(self.zones@, name@) && e is Validation,
            },
    {
        match self.zones.position(name) {
            Some(i) => Ok(i),
            None => {
                let mut msg = owned("Undefined zone \"");
                push_str(&mut msg, name);
                push_str(&mut msg, "\"");
                Err(NixError::validation(msg))
            },
        }
    }

    /// Mutable access to the zone named `name`.
    pub fn get_zone_mut(&mut self, name: &str) -> (r: Result<&mut NixZone>)
        requires
            old(self).wf(),
        ensures
            match r {
                Ok(z) => has_key(old(self).zones@, name@) && {
                    let i = crate::strmap::key_pos(old(self).zones@, name@);
                    &&& *z == old(self).zones@[i].1
                    &&& final(self).zones@ == old(self).zones@.update(i, (name@, *final(z)))
                },
                Err(e) => !has_key(old(self).zones@, name@) && e is Validation && *final(self) == *old(self),
            },
            final(self).services == old(self).services,
            final(self).config == old(self).config,
            final(self).registry == old(self).registry,
            final(self).uniq_services == old(self).uniq_services,
            final(self).global_service_domains == old(self).global_service_domains,
    {
        match self.zone_position(name) {
            Ok(i) => Ok(self.zones.value_mut(i)),
            Err(e) => Err(e),
        }
    }

    /// Registers the services `services` that `hostname` runs in `zone`.
    ///
    /// Every service a declared service requires (per `modules.nix`) must be
    /// declared on the same host, else nothing changes; then the services
    /// are registered in order as `register_scan` describes.
    #[verifier::loop_isolation(false)]
    pub fn register_services(
        &mut self,
        hostname: &str,
        zone: &str,
        services: &StrMap<ServiceParams>,
    ) -> (r: Result<()>)
        requires
            old(self).wf(),
            services.wf(),
        ensures
            final(self).wf(),
            !requirements_met(services@, old(self).registry) ==> r is Err && *final(self) == *old(self),
            requirements_met(services@, old(self).registry) ==> {
                let scan = register_scan(
                    hostname@,
                    zone@,
                    services@,
                    old(self).registry,
                    old(self).uniq_view(),
                    old(self).globals_view(),
                    old(self).services_view(),
                );
                &&& (r is Ok <==> scan.0)
                &&& final(self).uniq_view() == scan.1
                &&& final(self).globals_view() == scan.2
                &&& final(self).services_view() == scan.3
            },
            r is Err ==> r->Err_0 is Validation,
            final(self).zones == old(self).zones,
            final(self).config == old(self).config,
            final(self).registry == old(self).registry,
    {
        // Same-host dependencies.
        let mut i: usize = 0;
        while i < services.len()
            invariant
                0 <= i <= services@.len(),
                forall|a: int, j: int|
                    0 <= a < i && 0 <= j < self.registry.requires_spec(#[trigger] services@[a].0).len()
                        ==> has_key(services@, #[trigger] self.registry.requires_spec(services@[a].0)[j]@),
            decreases services@.len() - i,
        {
            let name = services.key_at(i).as_str();
            let reqs = self.registry.required_services(name);
            let mut j: usize = 0;
            while j < reqs.len()
                invariant
                    0 <= j <= reqs@.len(),
                    reqs@ == self.registry.requires_spec(services@[i as int].0),
                    forall|k: int| 0 <= k < j ==> has_key(services@, #[trigger] reqs@[k]@),
                decreases reqs@.len() - j,
            {
                if !services.contains_key(reqs[j].as_str()) {
                    assert(!has_key(services@, self.registry.requires_spec(services@[i as int].0)[j as int]@));
                    let mut msg = owned("Service '");
                    push_str(&mut msg, name);
                    push_str(&mut msg, "' on '");
                    push_str(&mut msg, hostname);
                    push_str(&mut msg, "' requires '");
                    push_str(&mut msg, reqs[j].as_str());
                    push_str(&mut msg, "' enabled on the same host");
                    return Err(NixError::validation(msg));
                }
                j += 1;
            }
            i += 1;
        }
        let ghost entries = services@;
        let ghost reg = self.registry;
        assert(entries.skip(0) == entries);
        let external = str_eq(zone, EXTERNAL_ZONE_KEY);
        let mut i: usize = 0;
        while i < services.len()
            invariant
                0 <= i <= services@.len(),
                entries == services@,
                self.wf(),
                self.registry == reg,
                self.zones == old(self).zones,
                self.config == old(self).config,
                external == (zone@ == EXTERNAL_ZONE_KEY@),
                register_scan(hostname@, zone@, entries, reg, old(self).uniq_view(), old(self).globals_view(), old(self).services_view())
                    == register_scan(hostname@, zone@, entries.skip(i as int), reg, self.uniq_view(), self.globals_view(), self.services_view()),
            decreases services@.len() - i,
        {
            let ghost rest = entries.skip(i as int);
            assert(rest[0] == entries[i as int]);
            assert(rest.drop_first() == entries.skip(i + 1));
            let name = services.key_at(i).as_str();
            let params = services.value_at(i);
            let domain: &str = match &params.domain {
                Some(d) => d.as_str(),
                None => name,
            };
            let unique = self.registry.flags(name).unique_per_zone;
            if unique {
                let mut k: usize = 0;
                while k < self.uniq_services.len()
                    invariant
                        0 <= k <= self.uniq_services@.len(),
                        forall|a: int| 0 <= a < k ==> self.uniq_view()[a] != (zone@, name@),
                    decreases self.uniq_services@.len() - k,
                {
                    if str_eq(self.uniq_services[k].0.as_str(), zone) && str_eq(self.uniq_services[k].1.as_str(), name) {
                        assert(self.uniq_view()[k as int] == (zone@, name@));
                        assert(self.uniq_view().contains((zone@, name@)));
                        let mut msg = owned("Service ");
                        push_str(&mut msg, name);
                        push_str(&mut msg, " must be unique in zone ");
                        push_str(&mut msg, zone);
                        return Err(NixError::validation(msg));
                    }
                    assert(self.uniq_view()[k as int] == (self.uniq_services@[k as int].0@, self.uniq_services@[k as int].1@));
                    k += 1;
                }
                assert(!self.uniq_view().contains((zone@, name@)));
                let ghost before = self.uniq_services@;
                self.uniq_services.push((owned(zone), owned(name)));
                assert(self.uniq_view() =~= before.map_values(|p: (String, String)| (p.0@, p.1@)).push((zone@, name@)));
            }
            let global = params.global || external;
            if global {
                let mut k: usize = 0;
                while k < self.global_service_domains.len()
                    invariant
                        0 <= k <= self.global_service_domains@.len(),
                        forall|a: int| 0 <= a < k ==> self.globals_view()[a] != domain@,
                    decreases self.global_service_domains@.len() - k,
                {
                    if str_eq(self.global_service_domains[k].as_str(), domain) {
                        assert(self.globals_view()[k as int] == domain@);
                        assert(self.globals_view().contains(domain@));
                        let mut msg = owned("Global services domain name conflict: ");
                        push_str(&mut msg, name);
                        return Err(NixError::validation(msg));
                    }
                    k += 1;
                }
                assert(!self.globals_view().contains(domain@));
                let ghost before = self.global_service_domains@;
                self.global_service_domains.push(owned(domain));
                assert(self.globals_view() =~= views_of(before).push(domain@));
            }
            let mut key = owned(zone);
            push_char(&mut key, ':');
            push_str(&mut key, domain);
            assert(key@ =~= zone@ + seq![':'] + domain@);
            assert(domain@ == service_domain(name@, *params));
            proof {
                crate::strmap::lemma_map_vals_lookup(self.services@, key@, |s: NixService| service_spec(s));
            }
            if self.services.contains_key(key.as_str()) {
                let mut msg = owned("Service name conflict: ");
                push_str(&mut msg, key.as_str());
                return Err(NixError::validation(msg));
            }
            let mut svc = NixService::new(name, hostname, zone);
            svc.domain = clone_opt(&params.domain);
            svc.title = clone_opt(&params.title);
            svc.description = clone_opt(&params.description);
            svc.icon = clone_opt(&params.icon);
            svc.global = global;
            proof {
                crate::strmap::lemma_map_vals_insert(self.services@, key@, svc, |s: NixService| service_spec(s));
            }
            self.services.insert(key, svc);
            i += 1;
        }
        assert(entries.skip(services@.len() as int).len() == 0);
        Ok(())
    }

    /// Validates the `network:` block and stores it, defaults applied.
    ///
    /// The domain defaults to `darkone.lan`, locale and time zone to
    /// `fr_FR.UTF-8` and `Europe/Paris`, the coordination domain to
    /// `headscale`; the rules checked are those of `network_cfg_valid`.
    pub fn register_network_config(&mut self, cfg: Option<&NetworkCfg>) -> (r: Result<()>)
        ensures
            r is Ok <==> network_cfg_valid(cfg),
            r is Err ==> *final(self) == *old(self) && r->Err_0 is Validation,
            r is Ok ==> {
                let c = final(self).config;
                &&& c.domain@ == eff_domain(cfg)
                &&& c.default_locale@ == eff_locale(cfg)
                &&& c.default_timezone@ == eff_timezone(cfg)
                &&& c.coordination_domain@ == eff_coord_domain(cfg)
                &&& c.coordination_hostname@ == eff_coord_hostname(cfg)
                &&& c.coordination_enable == eff_coord_enable(cfg)
                &&& c.default == cfg_default(cfg)
                &&& c.coordination == cfg_coordination(cfg)
                &&& c.smtp == cfg_smtp(cfg)
                &&& c.matrix == (match cfg {
                    Some(n) => n.matrix,
                    None => None,
                })
            },
            final(self).zones == old(self).zones,
            final(self).services == old(self).services,
            final(self).registry == old(self).registry,
            final(self).uniq_services == old(self).uniq_services,
            final(self).global_service_domains == old(self).global_service_domains,
    {
        let default: Option<&NetworkDefault> = match cfg {
            Some(c) => c.default.as_ref(),
            None => None,
        };
        let coord: Option<&Coordination> = match cfg {
            Some(c) => c.coordination.as_ref(),
            None => None,
        };
        let smtp: Option<&Smtp> = match cfg {
            Some(c) => c.smtp.as_ref(),
            None => None,
        };
        let domain: String = match cfg {
            Some(c) => match &c.domain {
                Some(d) => d.clone(),
                None => owned(DEFAULT_DOMAIN),
            },
            None => owned(DEFAULT_DOMAIN),
        };
        let locale: String = match default {
            Some(d) => match &d.locale {
                Some(l) => l.clone(),
                None => owned(DEFAULT_LOCALE),
            },
            None => owned(DEFAULT_LOCALE),
        };
        let timezone: String = match default {
            Some(d) => match &d.timezone {
                Some(t) => t.clone(),
                None => owned(DEFAULT_TIMEZONE),
            },
            None => owned(DEFAULT_TIMEZONE),
        };
        let coord_domain: String = match coord {
            Some(c) => match &c.domain {
                Some(d) => d.clone(),
                None => owned(DEFAULT_COORDINATION_DOMAIN),
            },
            None => owned(DEFAULT_COORDINATION_DOMAIN),
        };
        let coord_hostname: String = match coord {
            Some(c) => match &c.hostname {
                Some(h) => h.clone(),
                None => String::new(),
            },
            None => String::new(),
        };
        let coord_enable: bool = match coord {
            Some(c) => match c.enable {
                Some(b) => b,
                None => false,
            },
            None => false,
        };
        assert_regex(RE_LOCALE, locale.as_str(), "Bad default network locale syntax")?;
        assert_regex(RE_TIMEZONE, timezone.as_str(), "Bad default network timezone syntax")?;
        if chars_of(coord_hostname.as_str()).len() > 0 {
            assert_regex(RE_HOSTNAME, coord_hostname.as_str(), "Bad coordination hostname type")?;
        }
        assert_regex(RE_HOSTNAME, coord_domain.as_str(), "Bad Headscale domain name")?;
        if let Some(smtp) = smtp {
            if let Some(proto) = &smtp.protocol {
                assert_regex(RE_SMTP_PROTOCOL, proto.as_str(), "Bad SMTP protocol")?;
            }
            if let Some(server) = &smtp.server {
                assert_regex(RE_FQDN, server.as_str(), "Bad SMTP Server")?;
            }
            if let Some(user) = &smtp.username {
                assert_email(user.as_str(), "Bad SMTP Email")?;
            }
        }
        self.config = NetworkConfig {
            domain,
            default_locale: locale,
            default_timezone: timezone,
            coordination_domain: coord_domain,
            coordination_hostname: coord_hostname,
            coordination_enable: coord_enable,
            default: match default {
                Some(d) => Some(d.duplicate()),
                None => None,
            },
            coordination: match coord {
                Some(c) => Some(c.duplicate()),
                None => None,
            },
            smtp: match smtp {
                Some(s) => Some(s.duplicate()),
                None => None,
            },
            matrix: match cfg {
                Some(c) => match &c.matrix {
                    Some(m) => Some(m.duplicate()),
                    None => None,
                },
                None => None,
            },
        };
        Ok(())
    }

    /// Zones that hold hosts but no `harmonia` service, by name in
    /// increasing order; the external zone is skipped.
    #[verifier::loop_isolation(false)]
    pub fn zones_without_harmonia(&self) -> (r: Vec<String>)
        requires
            self.wf(),
        ensures
            strictly_sorted(views_of(r@)),
            forall|n: Seq<char>| #[trigger] views_of(r@).contains(n) <==> exists|i: int| 0 <= i < self.zones@.len()
                && self.zones@[i].0 == n && lacks_harmonia(#[trigger] self.zones@[i].1, self.services_view()),
    {
        let mut missing: Vec<String> = Vec::new();
        let mut i: usize = 0;
        while i < self.zones.len()
            invariant
                0 <= i <= self.zones@.len(),
                forall|n: Seq<char>| #[trigger] views_of(missing@).contains(n) <==> exists|a: int| 0 <= a < i
                    && self.zones@[a].0 == n && lacks_harmonia(#[trigger] self.zones@[a].1, self.services_view()),
            decreases self.zones@.len() - i,
        {
            let zone = self.zones.value_at(i);
            let mut lacks = !zone.is_external() && zone.hosts().len() > 0;
            if lacks {
                let mut k: usize = 0;
                while k < self.services.len()
                    invariant
                        0 <= k <= self.services@.len(),
                        lacks ==> forall|b: int| 0 <= b < k ==> !(#[trigger] self.services_view()[b].1.0 == "harmonia"@
                            && self.services_view()[b].1.2 == zone.name@),
                        !lacks ==> zone.is_external_spec() || zone.spec_hosts().len() == 0 || exists|b: int| 0 <= b < k && #[trigger] self.services_view()[b].1.0 == "harmonia"@
                            && self.services_view()[b].1.2 == zone.name@,
                    decreases self.services@.len() - k,
                {
                    let svc = self.services.value_at(k);
                    assert(self.services_view()[k as int].1 == service_spec(self.services@[k as int].1));
                    if str_eq(svc.name.as_str(), "harmonia") && str_eq(svc.zone.as_str(), zone.name.as_str()) {
                        lacks = false;
                        assert(self.services_view()[k as int].1.0 == "harmonia"@ && self.services_view()[k as int].1.2 == zone.name@);
                    }
                    k += 1;
                }
            }
            let ghost before = missing@;
            if lacks {
                missing.push(zone.name.clone());
            }
            proof {
                assert(self.zones@[i as int].1 == *zone);
                assert(lacks == lacks_harmonia(*zone, self.services_view()));
                if lacks {
                    assert(views_of(missing@) == views_of(before).push(zone.name@));
                    crate::text::lemma_push_to_set(views_of(before), zone.name@);
                    assert forall|n: Seq<char>| #[trigger] views_of(missing@).contains(n) <==> exists|a: int| 0 <= a < i + 1
                        && self.zones@[a].0 == n && lacks_harmonia(#[trigger] self.zones@[a].1, self.services_view()) by {
                        if views_of(missing@).contains(n) && n != zone.name@ {
                            let j = choose|j: int| 0 <= j < views_of(missing@).len() && views_of(missing@)[j] == n;
                            assert(views_of(before)[j] == n);
                            assert(views_of(before).contains(n));
                        }
                        if n == zone.name@ {
                            assert(views_of(missing@)[before.len() as int] == n);
                        }
                        if exists|a: int| 0 <= a < i + 1 && self.zones@[a].0 == n && lacks_harmonia(#[trigger] self.zones@[a].1, self.services_view()) {
                            if !(exists|a: int| 0 <= a < i && self.zones@[a].0 == n && lacks_harmonia(#[trigger] self.zones@[a].1, self.services_view())) {
                                assert(self.zones@[i as int].0 == n);
                            } else {
                                assert(views_of(before).contains(n));
                                let j = choose|j: int| 0 <= j < views_of(before).len() && views_of(before)[j] == n;
                                assert(views_of(missing@)[j] == n);
                            }
                        }
                    }
                } else {
                    assert(missing@ == before);
                }
            }
            i += 1;
        }
        let r = sort_dedup(&missing);
        proof {
            assert forall|n: Seq<char>| #[trigger] views_of(r@).contains(n) <==> views_of(missing@).contains(n) by {
                assert(views_of(r@).to_set().contains(n) == views_of(r@).contains(n));
                assert(views_of(missing@).to_set().contains(n) == views_of(missing@).contains(n));
            }
        }
        r
    }

    /// The services, by `<zone>:<label>`, in declaration order.
    pub fn services(&self) -> (r: &StrMap<NixService>)
        ensures
            r == &self.services,
    {
        &self.services
    }

    /// The services in declaration order.
    pub fn services_as_vec(&self) -> (r: Vec<&NixService>)
        ensures
            r@.len() == self.services@.len(),
            forall|i: int| 0 <= i < r@.len() ==> *r@[i] == self.services@[i].1,
    {
        let mut r: Vec<&NixService> = Vec::new();
        let mut i: usize = 0;
        while i < self.services.len()
            invariant
                0 <= i <= self.services@.len(),
                r@.len() == i,
                forall|j: int| 0 <= j < i ==> *r@[j] == self.services@[j].1,
            decreases self.services@.len() - i,
        {
            r.push(self.services.value_at(i));
            i += 1;
        }
        r
    }
}

} // verus!
