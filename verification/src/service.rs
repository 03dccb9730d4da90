//! Services declared on hosts, and the per-service topology flags read from
//! the framework's `modules.nix`.
use vstd::prelude::*;
use crate::strmap::{insert_entry, lookup, StrMap};
use crate::text::{owned, push_char, push_str, str_eq, views_of};
use crate::nix_parser::{NixAttr, NixBinding, NixExpr, NixNode};
use crate::error::{NixError, Result};
use crate::nix_syntax::{nix_tree, parse_nix};

verus! {

/// Topology flags of a service.
#[derive(Clone, Copy, Debug)]
pub struct ServiceFlags {
    /// Reached through the zone gateway reverse proxy (DNS points to the
    /// gateway LAN address).
    pub reverse_proxy: bool,
    /// At most one instance allowed per zone.
    pub unique_per_zone: bool,
    /// External-zone service reachable from the LAN through a fixed host
    /// address.
    pub external_access: bool,
}

/// Flags of a service that `modules.nix` does not mention: behind the
/// reverse proxy, nothing else.
pub open spec fn default_flags() -> ServiceFlags {
    ServiceFlags { reverse_proxy: true, unique_per_zone: false, external_access: false }
}

impl Default for ServiceFlags {
    fn default() -> (f: Self)
        ensures
            f == default_flags(),
    {
        ServiceFlags { reverse_proxy: true, unique_per_zone: false, external_access: false }
    }
}

/// Service name -> flags, and service name -> services it requires on the
/// same host, as declared in `modules.nix`.
pub struct ServiceRegistry {
    pub map: StrMap<ServiceFlags>,
    pub requires: StrMap<Vec<String>>,
}

impl ServiceRegistry {
    pub open spec fn wf(&self) -> bool {
        self.map.wf() && self.requires.wf()
    }

    /// Flags of service `name`, as `modules.nix` declares them.
    pub open spec fn flags_spec(&self, name: Seq<char>) -> ServiceFlags {
        match lookup(self.map@, name) {
            Some(f) => f,
            None => default_flags(),
        }
    }

    /// Services that `name` requires on the same host.
    pub open spec fn requires_spec(&self, name: Seq<char>) -> Seq<String> {
        match lookup(self.requires@, name) {
            Some(v) => v@,
            None => Seq::empty(),
        }
    }

    /// The registry that knows no service: every service has the default
    /// flags and requires nothing.
    pub fn empty() -> (r: Self)
        ensures
            r.wf(),
            r.map@.len() == 0,
            r.requires@.len() == 0,
    {
        ServiceRegistry { map: StrMap::new(), requires: StrMap::new() }
    }

    /// Flags of service `name`, or the defaults for an unknown service.
    pub fn flags(&self, name: &str) -> (f: ServiceFlags)
        requires
            self.wf(),
        ensures
            f == self.flags_spec(name@),
    {
        match self.map.get(name) {
            Some(f) => *f,
            None => ServiceFlags::default(),
        }
    }

    /// Services that `name` requires on the same host (none for an unknown
    /// service).
    pub fn required_services(&self, name: &str) -> (r: &[String])
        requires
            self.wf(),
        ensures
            r@ == self.requires_spec(name@),
    {
        match self.requires.get(name) {
            Some(v) => v.as_slice(),
            None => &[],
        }
    }
}

impl Default for ServiceRegistry {
    fn default() -> (r: Self)
        ensures
            r.wf(),
            r.map@.len() == 0,
            r.requires@.len() == 0,
    {
        ServiceRegistry::empty()
    }
}

/// A service instance, registered by the host that runs it.
pub struct NixService {
    pub name: String,
    pub host: String,
    pub zone: String,
    pub domain: Option<String>,
    pub title: Option<String>,
    pub description: Option<String>,
    pub icon: Option<String>,
    pub global: bool,
}

impl NixService {
    /// The service `name` run by `host` in `zone`, local, with no custom
    /// domain, title, description or icon.
    pub fn new(name: &str, host: &str, zone: &str) -> (s: Self)
        ensures
            s.name@ == name@,
            s.host@ == host@,
            s.zone@ == zone@,
            s.domain is None,
            s.title is None,
            s.description is None,
            s.icon is None,
            !s.global,
    {
        NixService {
            name: owned(name),
            host: owned(host),
            zone: owned(zone),
            domain: None,
            title: None,
            description: None,
            icon: None,
            global: false,
        }
    }

    /// The domain label: the custom domain, else the service name.
    pub open spec fn label_spec(&self) -> Seq<char> {
        match self.domain {
            Some(d) => d@,
            None => self.name@,
        }
    }

    /// The domain label: the custom domain, else the service name.
    pub fn domain_label(&self) -> (r: &str)
        ensures
            r@ == self.label_spec(),
    {
        match &self.domain {
            Some(d) => d.as_str(),
            None => self.name.as_str(),
        }
    }

    /// Fully-qualified name: the label under the network domain for a
    /// global service, under the zone domain otherwise.
    pub open spec fn fqdn_spec(&self, zone_domain: Seq<char>, network_domain: Seq<char>) -> Seq<char> {
        self.label_spec() + seq!['.'] + if self.global {
            network_domain
        } else {
            zone_domain
        }
    }

    /// Fully-qualified name of the service.
    pub fn fqdn(&self, zone_domain: &str, network_domain: &str) -> (r: String)
        ensures
            r@ == self.fqdn_spec(zone_domain@, network_domain@),
    {
        let mut r = owned(self.domain_label());
        push_char(&mut r, '.');
        if self.global {
            push_str(&mut r, network_domain);
        } else {
            push_str(&mut r, zone_domain);
        }
        r
    }
}

/// The name an attribute path starts with: its first attribute when that
/// is a plain identifier, else nothing.
pub open spec fn first_ident(p: Seq<NixAttr>) -> Seq<char> {
    if p.len() > 0 {
        match p[0] {
            NixAttr::Ident(Some(t)) => t@,
            _ => Seq::empty(),
        }
    } else {
        Seq::empty()
    }
}

/// The value is the identifier `true`.
pub open spec fn is_true(v: NixNode) -> bool {
    v.expr matches NixExpr::Ident(Some(t)) && t@ == "true"@
}

/// `f` after the entry `key = value` of a service's attribute set.
pub open spec fn apply_flag(f: ServiceFlags, key: Seq<char>, value: bool) -> ServiceFlags {
    if key == "reverseProxy"@ {
        ServiceFlags { reverse_proxy: value, ..f }
    } else if key == "uniquePerZone"@ {
        ServiceFlags { unique_per_zone: value, ..f }
    } else if key == "externalAccess"@ {
        ServiceFlags { external_access: value, ..f }
    } else {
        f
    }
}

/// The flags a service's attribute set declares, over the defaults; a
/// later entry wins, and a flag is set only by the identifier `true`.
pub open spec fn flags_from(bs: Seq<NixBinding>) -> ServiceFlags
    decreases bs.len(),
{
    if bs.len() == 0 {
        default_flags()
    } else {
        let f = flags_from(bs.drop_last());
        let b = bs.last();
        match (b.path, b.value) {
            (Some(p), Some(v)) => apply_flag(f, first_ident(p@), is_true(v)),
            _ => f,
        }
    }
}

/// The strings among the items of a list, in order.
pub open spec fn list_strings(items: Seq<NixNode>) -> Seq<Seq<char>>
    decreases items.len(),
{
    if items.len() == 0 {
        Seq::empty()
    } else {
        list_strings(items.drop_last()) + match crate::nix_parser::string_value(items.last()) {
            Some(t) => seq![t],
            None => Seq::<Seq<char>>::empty(),
        }
    }
}

/// The services a service's attribute set requires: the strings of its
/// last `require = [ … ];` entry, or none.
pub open spec fn requires_from(bs: Seq<NixBinding>) -> Seq<Seq<char>>
    decreases bs.len(),
{
    if bs.len() == 0 {
        Seq::empty()
    } else {
        let b = bs.last();
        match (b.path, b.value) {
            (Some(p), Some(v)) => match v.expr {
                NixExpr::List(items) => if first_ident(p@) == "require"@ {
                    list_strings(items@)
                } else {
                    requires_from(bs.drop_last())
                },
                _ => requires_from(bs.drop_last()),
            },
            _ => requires_from(bs.drop_last()),
        }
    }
}

/// The requirement entries for the bindings of `modules.nix`: each service
/// entry gives its list (possibly empty), a later one winning.
pub open spec fn requirement_entries(bs: Seq<NixBinding>) -> Seq<(Seq<char>, Seq<Seq<char>>)>
    decreases bs.len(),
{
    if bs.len() == 0 {
        Seq::empty()
    } else {
        let m = requirement_entries(bs.drop_last());
        let b = bs.last();
        match (b.path, b.value) {
            (Some(p), Some(v)) => match v.expr {
                NixExpr::AttrSet(sb) => if first_ident(p@).len() == 0 {
                    m
                } else {
                    insert_entry(m, first_ident(p@), requires_from(sb@))
                },
                _ => m,
            },
            _ => m,
        }
    }
}

/// The registry's entries for the bindings of `modules.nix`: each
/// `name = { … };` whose name is a plain identifier, a later one winning.
pub open spec fn registry_entries(bs: Seq<NixBinding>) -> Seq<(Seq<char>, ServiceFlags)>
    decreases bs.len(),
{
    if bs.len() == 0 {
        Seq::empty()
    } else {
        let m = registry_entries(bs.drop_last());
        let b = bs.last();
        match (b.path, b.value) {
            (Some(p), Some(v)) => match v.expr {
                NixExpr::AttrSet(sb) => if first_ident(p@).len() == 0 {
                    m
                } else {
                    insert_entry(m, first_ident(p@), flags_from(sb@))
                },
                _ => m,
            },
            _ => m,
        }
    }
}

/// The entries of the registry that `modules.nix` declares, when its root
/// expression is an attribute set.
pub open spec fn registry_from(root: Option<&NixNode>) -> Option<Seq<(Seq<char>, ServiceFlags)>> {
    match root {
        Some(r) => match r.expr {
            NixExpr::AttrSet(bs) => Some(registry_entries(bs@)),
            _ => None,
        },
        None => None,
    }
}

fn first_ident_of(p: &Vec<NixAttr>) -> (r: String)
    ensures
        r@ == first_ident(p@),
{
    if p.len() > 0 {
        match &p[0] {
            NixAttr::Ident(Some(t)) => t.clone(),
            _ => String::new(),
        }
    } else {
        String::new()
    }
}

fn read_list_strings(items: &Vec<NixNode>) -> (r: Vec<String>)
    ensures
        views_of(r@) == list_strings(items@),
{
    let mut out: Vec<String> = Vec::new();
    let mut i: usize = 0;
    assert(views_of(out@) == list_strings(items@.take(0)));
    while i < items.len()
        invariant
            0 <= i <= items@.len(),
            views_of(out@) == list_strings(items@.take(i as int)),
        decreases items@.len() - i,
    {
        assert(items@.take(i + 1).drop_last() == items@.take(i as int));
        assert(items@.take(i + 1).last() == items@[i as int]);
        match crate::nix_parser::expr_string_value(&items[i]) {
            Some(t) => {
                let ghost before = views_of(out@);
                out.push(t);
                assert(views_of(out@) == before.push(t@));
                assert(before.push(t@) == before + seq![t@]);
            },
            None => {
                assert(list_strings(items@.take(i + 1)) == list_strings(items@.take(i as int)) + Seq::<Seq<char>>::empty());
            },
        }
        i += 1;
    }
    assert(items@.take(items@.len() as int) == items@);
    out
}

fn read_requires(bs: &Vec<NixBinding>) -> (r: Vec<String>)
    ensures
        views_of(r@) == requires_from(bs@),
{
    proof {
        reveal_strlit("require");
    }
    let mut cur: Vec<String> = Vec::new();
    let mut i: usize = 0;
    assert(views_of(cur@) == requires_from(bs@.take(0)));
    while i < bs.len()
        invariant
            0 <= i <= bs@.len(),
            views_of(cur@) == requires_from(bs@.take(i as int)),
        decreases bs@.len() - i,
    {
        assert(bs@.take(i + 1).drop_last() == bs@.take(i as int));
        assert(bs@.take(i + 1).last() == bs@[i as int]);
        if let (Some(p), Some(v)) = (&bs[i].path, &bs[i].value) {
            if let NixExpr::List(items) = &v.expr {
                let key = first_ident_of(p);
                if str_eq(key.as_str(), "require") {
                    cur = read_list_strings(items);
                }
            }
        }
        i += 1;
    }
    assert(bs@.take(bs@.len() as int) == bs@);
    cur
}

fn read_flags(bs: &Vec<NixBinding>) -> (f: ServiceFlags)
    ensures
        f == flags_from(bs@),
{
    proof {
        reveal_strlit("true");
        reveal_strlit("reverseProxy");
        reveal_strlit("uniquePerZone");
        reveal_strlit("externalAccess");
    }
    let mut f = ServiceFlags::default();
    let mut i: usize = 0;
    while i < bs.len()
        invariant
            0 <= i <= bs@.len(),
            f == flags_from(bs@.take(i as int)),
        decreases bs@.len() - i,
    {
        assert(bs@.take(i + 1).drop_last() == bs@.take(i as int));
        assert(bs@.take(i + 1).last() == bs@[i as int]);
        if let (Some(p), Some(v)) = (&bs[i].path, &bs[i].value) {
            let key = first_ident_of(p);
            let b = match &v.expr {
                NixExpr::Ident(Some(t)) => str_eq(t.as_str(), "true"),
                _ => false,
            };
            assert(b == is_true(*v));
            if str_eq(key.as_str(), "reverseProxy") {
                f.reverse_proxy = b;
            } else if str_eq(key.as_str(), "uniquePerZone") {
                f.unique_per_zone = b;
            } else if str_eq(key.as_str(), "externalAccess") {
                f.external_access = b;
            }
        }
        i += 1;
    }
    assert(bs@.take(bs@.len() as int) == bs@);
    f
}

/// What reading the registry from the syntax tree `root` gives: a
/// well-formed registry holding the flags and the requirements of the
/// entries of a root attribute set, else the root error.
pub open spec fn registry_read(r: Result<ServiceRegistry>, root: Option<&NixNode>) -> bool {
    match r {
        Ok(reg) => {
            &&& reg.wf()
            &&& registry_from(root) == Some(reg.map@)
            &&& root->0.expr matches NixExpr::AttrSet(bs) && crate::strmap::map_vals(
                reg.requires@,
                |v: Vec<String>| views_of(v@),
            ) == requirement_entries(bs@)
        },
        Err(e) => {
            &&& registry_from(root) is None
            &&& e matches NixError::Generate(m) && m@ == "modules.nix: expected attrset at root"@
        },
    }
}

impl ServiceRegistry {
    /// Reads the registry from the content of `modules.nix`: each
    /// `service = { reverseProxy = …; … };` entry gives that service's
    /// flags, over the defaults, and the services it requires
    /// (`require = [ "…" ];`). A root that is not an attribute set is
    /// refused.
    pub fn from_nix(content: &str) -> (r: Result<ServiceRegistry>)
        ensures
            match nix_tree(content@) {
                Some(n) => registry_read(r, Some(&n)),
                None => registry_read(r, None),
            },
    {
        let root = parse_nix(content);
        ServiceRegistry::from_tree(root.as_ref())
    }

    /// Reads the registry from the syntax tree of `modules.nix` (its root
    /// expression, if any), as `from_nix` does.
    pub fn from_tree(root: Option<&NixNode>) -> (r: Result<ServiceRegistry>)
        ensures
            registry_read(r, root),
    {
        let bs = match root {
            Some(n) => match &n.expr {
                NixExpr::AttrSet(bs) => bs,
                _ => {
                    return Err(NixError::generate(owned("modules.nix: expected attrset at root")));
                },
            },
            None => {
                return Err(NixError::generate(owned("modules.nix: expected attrset at root")));
            },
        };
        let mut reg = ServiceRegistry::empty();
        let mut i: usize = 0;
        assert(reg.map@ == registry_entries(bs@.take(0)));
        assert(crate::strmap::map_vals(reg.requires@, |v: Vec<String>| views_of(v@)) == requirement_entries(bs@.take(0)));
        while i < bs.len()
            invariant
                0 <= i <= bs@.len(),
                reg.wf(),
                reg.map@ == registry_entries(bs@.take(i as int)),
                crate::strmap::map_vals(reg.requires@, |v: Vec<String>| views_of(v@)) == requirement_entries(
                    bs@.take(i as int),
                ),
            decreases bs@.len() - i,
        {
            assert(bs@.take(i + 1).drop_last() == bs@.take(i as int));
            assert(bs@.take(i + 1).last() == bs@[i as int]);
            if let (Some(p), Some(v)) = (&bs[i].path, &bs[i].value) {
                if let NixExpr::AttrSet(sb) = &v.expr {
                    let name = first_ident_of(p);
                    if crate::text::chars_of(name.as_str()).len() > 0 {
                        let f = read_flags(sb);
                        let req = read_requires(sb);
                        proof {
                            crate::strmap::lemma_map_vals_insert(
                                reg.requires@,
                                name@,
                                req,
                                |v: Vec<String>| views_of(v@),
                            );
                        }
                        reg.requires.insert(name.clone(), req);
                        reg.map.insert(name, f);
                    } else {
                        assert(name@.len() == 0);
                    }
                }
            }
            i += 1;
        }
        assert(bs@.take(bs@.len() as int) == bs@);
        Ok(reg)
    }
}

/// Law: a service that the registry does not know has the default flags:
/// behind the reverse proxy, not unique per zone, no external access.
pub proof fn law_unknown_service_defaults(reg: ServiceRegistry, name: Seq<char>)
    requires
        !crate::strmap::has_key(reg.map@, name),
    ensures
        reg.flags_spec(name) == default_flags(),
        reg.flags_spec(name).reverse_proxy,
        !reg.flags_spec(name).unique_per_zone,
        !reg.flags_spec(name).external_access,
{
}

} // verus!
