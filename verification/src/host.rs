//! A host of the fleet, as emitted in `hosts.nix`.
use vstd::prelude::*;
use crate::error::{NixError, Result};
use crate::files::ProjectFiles;
use crate::strmap::{insert_entry, keys_unique, map_vals, lemma_map_vals_insert, StrMap};
use crate::text::{first_index_of, owned, push_str, views_of};
use crate::validation::{assert_regex, pattern_accepts, RE_DEVICE, RE_IDENTIFIER, RE_LOGIN};

verus! {

/// Settings of a service declared on a host.
pub struct ServiceParams {
    pub title: Option<String>,
    pub description: Option<String>,
    pub domain: Option<String>,
    pub icon: Option<String>,
    pub global: bool,
}

impl Default for ServiceParams {
    fn default() -> (p: Self)
        ensures
            p.title is None && p.description is None && p.domain is None && p.icon is None && !p.global,
    {
        ServiceParams { title: None, description: None, domain: None, icon: None, global: false }
    }
}

/// Disk layout of a host: the disko profile (path relative to the project
/// root) and the named devices it uses.
pub struct DiskoConfig {
    pub profile: Option<String>,
    pub devices: StrMap<String>,
}

impl Default for DiskoConfig {
    fn default() -> (d: Self)
        ensures
            d.profile is None && d.devices@.len() == 0 && d.devices.wf(),
    {
        DiskoConfig { profile: None, devices: StrMap::new() }
    }
}

pub struct Host {
    pub hostname: String,
    pub name: String,
    pub zone: String,
    pub profile: String,
    pub ip: Option<String>,
    pub vpn_ip: Option<String>,
    /// Comma-separated MAC list of the LAN interfaces, when known.
    pub mac: Option<String>,
    pub arch: Option<String>,
    pub zone_domain: String,
    pub network_domain: String,
    pub users: Vec<String>,
    pub groups: Vec<String>,
    pub features: StrMap<String>,
    pub tags: Vec<String>,
    pub services: StrMap<ServiceParams>,
    pub disko: DiskoConfig,
}

/// `(key, value)` of a feature `key[:value]`: the value defaults to the
/// host's zone.
pub open spec fn feature_pair(feature: Seq<char>, zone: Seq<char>) -> (Seq<char>, Seq<char>) {
    match first_index_of(feature, ':') {
        Some(i) => (feature.take(i), feature.skip(i + 1)),
        None => (feature, zone),
    }
}

/// Features after declaring each of `features` in order (a feature
/// declared again takes the later value, at its first position).
pub open spec fn features_map(features: Seq<Seq<char>>, zone: Seq<char>) -> Seq<(Seq<char>, Seq<char>)>
    decreases features.len(),
{
    if features.len() == 0 {
        seq![]
    } else {
        let p = feature_pair(features.last(), zone);
        insert_entry(features_map(features.drop_last(), zone), p.0, p.1)
    }
}

/// Path of disko profile `p` in tree `side` (`usr` or `dnf`).
pub open spec fn disko_path(side: Seq<char>, p: Seq<char>) -> Seq<char> {
    side + "/hosts/disko/"@ + p + ".nix"@
}

impl Host {
    /// `a` and `b` agree on every field but users, features and disko.
    pub open spec fn same_identity(a: Host, b: Host) -> bool {
        &&& a.hostname == b.hostname
        &&& a.name == b.name
        &&& a.zone == b.zone
        &&& a.profile == b.profile
        &&& a.ip == b.ip
        &&& a.vpn_ip == b.vpn_ip
        &&& a.mac == b.mac
        &&& a.arch == b.arch
        &&& a.zone_domain == b.zone_domain
        &&& a.network_domain == b.network_domain
        &&& a.groups == b.groups
        &&& a.tags == b.tags
        &&& a.services == b.services
    }

    pub open spec fn features_view(&self) -> Seq<(Seq<char>, Seq<char>)> {
        map_vals(self.features@, |s: String| s@)
    }

    /// A host named `hostname` with every other setting empty.
    pub fn new(hostname: &str) -> (h: Self)
        ensures
            h.hostname@ == hostname@,
            h.name@.len() == 0 && h.zone@.len() == 0 && h.profile@.len() == 0,
            h.zone_domain@.len() == 0 && h.network_domain@.len() == 0,
            h.ip is None && h.vpn_ip is None && h.mac is None && h.arch is None,
            h.users@.len() == 0 && h.groups@.len() == 0 && h.tags@.len() == 0,
            h.features@.len() == 0 && h.features.wf(),
            h.services@.len() == 0 && h.services.wf(),
            h.disko.profile is None && h.disko.devices@.len() == 0,
    {
        Host {
            hostname: owned(hostname),
            name: String::new(),
            zone: String::new(),
            profile: String::new(),
            ip: None,
            vpn_ip: None,
            mac: None,
            arch: None,
            zone_domain: String::new(),
            network_domain: String::new(),
            users: Vec::new(),
            groups: Vec::new(),
            features: StrMap::new(),
            tags: Vec::new(),
            services: StrMap::new(),
            disko: DiskoConfig::default(),
        }
    }

    /// Sets the host's users; every login must be well-formed.
    #[verifier::loop_isolation(false)]
    pub fn set_users(&mut self, users: Vec<String>) -> (r: Result<()>)
        ensures
            r is Ok <==> forall|i: int| 0 <= i < users@.len() ==> pattern_accepts(RE_LOGIN@, #[trigger] users@[i]@),
            r is Ok ==> final(self).users == users,
            r is Err ==> *final(self) == *old(self) && r->Err_0 is Validation,
            Host::same_identity(*final(self), *old(self)),
            final(self).features == old(self).features,
            final(self).disko == old(self).disko,
    {
        let mut i: usize = 0;
        while i < users.len()
            invariant
                0 <= i <= users@.len(),
                forall|j: int| 0 <= j < i ==> pattern_accepts(RE_LOGIN@, #[trigger] users@[j]@),
            decreases users@.len() - i,
        {
            let login = users[i].as_str();
            let mut msg = owned("Bad login '");
            push_str(&mut msg, login);
            push_str(&mut msg, "'");
            let checked = assert_regex(RE_LOGIN, login, msg.as_str());
            if checked.is_err() {
                return checked;
            }
            i += 1;
        }
        self.users = users;
        Ok(())
    }

    /// Sets the features from `key[:value]` declarations, in order; a
    /// feature without value takes the host's zone.
    pub fn set_features(&mut self, features: &Vec<String>)
        ensures
            final(self).features.wf(),
            final(self).features_view() == features_map(views_of(features@), old(self).zone@),
            Host::same_identity(*final(self), *old(self)),
            final(self).users == old(self).users,
            final(self).disko == old(self).disko,
    {
        let ghost fv = views_of(features@);
        let mut map: StrMap<String> = StrMap::new();
        let mut i: usize = 0;
        assert(map_vals(map@, |s: String| s@) =~= features_map(fv.take(0), self.zone@));
        while i < features.len()
            invariant
                0 <= i <= features@.len(),
                fv == views_of(features@),
                map.wf(),
                map_vals(map@, |s: String| s@) == features_map(fv.take(i as int), self.zone@),
            decreases features@.len() - i,
        {
            let f = features[i].as_str();
            let v = crate::text::chars_of(f);
            let n = v.len();
            let (key, value) = match crate::text::find_char(v.as_slice(), ':') {
                Some(k) => {
                    proof {
                        crate::text::lemma_first_index_of(v@, ':');
                    }
                    assert(k < n);
                    (crate::text::string_of_range(v.as_slice(), 0, k), crate::text::string_of_range(v.as_slice(), k + 1, v.len()))
                },
                None => (owned(f), self.zone.clone()),
            };
            proof {
                assert(fv.take(i + 1).drop_last() == fv.take(i as int));
                assert(fv.take(i + 1).last() == f@);
                let p = feature_pair(f@, self.zone@);
                assert(key@ == p.0 && value@ == p.1) by {
                    match first_index_of(v@, ':') {
                        Some(k) => {
                            assert(v@.subrange(0, k) == v@.take(k));
                            assert(v@.subrange(k + 1, v@.len() as int) == v@.skip(k + 1));
                        },
                        None => {},
                    }
                }
                lemma_map_vals_insert(map@, key@, value, |s: String| s@);
            }
            map.insert(key, value);
            i += 1;
        }
        assert(fv.take(features@.len() as int) == fv);
        self.features = map;
    }

    /// Resolves and checks the disko layout. A profile in the project's own
    /// `usr/hosts/disko/` shadows the framework's `dnf/hosts/disko/` one;
    /// profile and device names must be identifiers, devices `/dev` paths.
    /// No profile: nothing to do.
    #[verifier::loop_isolation(false)]
    pub fn set_disko(&mut self, profile_name: Option<&str>, devices: StrMap<String>, files: &ProjectFiles) -> (r: Result<()>)
        requires
            devices.wf(),
        ensures
            profile_name is None ==> r is Ok && *final(self) == *old(self),
            profile_name is Some ==> (r is Ok <==> {
                let p = profile_name->0@;
                &&& pattern_accepts(RE_IDENTIFIER@, p)
                &&& (files.has(disko_path("usr"@, p)) || files.has(disko_path("dnf"@, p)))
                &&& forall|i: int| 0 <= i < devices@.len() ==> pattern_accepts(RE_IDENTIFIER@, #[trigger] devices@[i].0)
                    && pattern_accepts(RE_DEVICE@, devices@[i].1@)
            }),
            r is Err ==> *final(self) == *old(self) && r->Err_0 is Validation,
            r is Ok && profile_name is Some ==> {
                let p = profile_name->0@;
                &&& final(self).disko.profile is Some
                &&& final(self).disko.profile->0@ == (if files.has(disko_path("usr"@, p)) {
                    disko_path("usr"@, p)
                } else {
                    disko_path("dnf"@, p)
                })
                &&& final(self).disko.devices == devices
            },
            Host::same_identity(*final(self), *old(self)),
            final(self).users == old(self).users,
            final(self).features == old(self).features,
    {
        let profile = match profile_name {
            Some(p) => p,
            None => return Ok(()),
        };
        let checked = assert_regex(RE_IDENTIFIER, profile, "Bad disko profile name");
        if checked.is_err() {
            return checked;
        }
        let mut usr_path = owned("usr");
        push_str(&mut usr_path, "/hosts/disko/");
        push_str(&mut usr_path, profile);
        push_str(&mut usr_path, ".nix");
        let mut dnf_path = owned("dnf");
        push_str(&mut dnf_path, "/hosts/disko/");
        push_str(&mut dnf_path, profile);
        push_str(&mut dnf_path, ".nix");
        let resolved = if files.contains(usr_path.as_str()) {
            usr_path
        } else if files.contains(dnf_path.as_str()) {
            dnf_path
        } else {
            let mut msg = owned("Unknown disko profile \"");
            push_str(&mut msg, profile);
            push_str(&mut msg, ".nix\" (not in dnf/hosts/disko or usr/hosts/disko)");
            return Err(NixError::validation(msg));
        };
        let mut i: usize = 0;
        while i < devices.len()
            invariant
                0 <= i <= devices@.len(),
                forall|j: int| #![trigger devices@[j]] 0 <= j < i ==> pattern_accepts(RE_IDENTIFIER@, devices@[j].0)
                    && pattern_accepts(RE_DEVICE@, devices@[j].1@),
            decreases devices@.len() - i,
        {
            let name = devices.key_at(i).as_str();
            let device = devices.value_at(i).as_str();
            let checked = assert_regex(RE_IDENTIFIER, name, "bad disko device identifier");
            if checked.is_err() {
                return checked;
            }
            let checked = assert_regex(RE_DEVICE, device, "bad disko device path");
            if checked.is_err() {
                return checked;
            }
            assert(pattern_accepts(RE_IDENTIFIER@, devices@[i as int].0));
            assert(pattern_accepts(RE_DEVICE@, devices@[i as int].1@));
            i += 1;
        }
        self.disko = DiskoConfig { profile: Some(resolved), devices };
        Ok(())
    }
}

} // verus!
