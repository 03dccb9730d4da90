//! The loader: turns the checked configuration into users, hosts, zones,
//! services and DNS records.
//!
//! Loading proceeds in order: network settings; zones (and their extra
//! hosts); users (the regular ones, then the `nix` maintenance user); hosts
//! in three flavours (static, `range:` groups, `hosts:` list groups); and
//! finally the cross-zone state (gateways, external hosts seen from every
//! local zone).
use vstd::prelude::*;
use crate::error::{NixError, Result};
use crate::files::ProjectFiles;
use crate::host::{disko_path, features_map, Host, ServiceParams};
use crate::network::{eff_locale, network_cfg_valid, register_scan, requirements_met, NetworkConfig, NixNetwork};
use crate::service::ServiceRegistry;
use crate::schema::{HostEntry, Mac, ServiceCfg};
use crate::strmap::{has_key, insert_entry, keys_unique, lookup, map_vals, StrMap};
use crate::text::{
    chars_of, clone_opt, decimal_int, decimal_string, first_index_of, opt_view, owned, parse_usize,
    parse_usize_chars, push_char, push_str, replace, replace_seq, sort_dedup, split_char, str_eq,
    strictly_sorted, views_of,
};
use crate::user::{filter_profile, login_taken, resolved_profile, unchecked_profile, User, UserBuildConfig, MAX_UID, MIN_UID};
use crate::schema::{ConfigFile, ExtraHost, NetworkCfg, UserCfg, ZoneCfg};
use std::collections::HashMap;
use crate::validation::{pattern_accepts, RE_DEVICE, RE_IDENTIFIER, RE_LOGIN};
use crate::zone::{
    gateway_valid, lang_of, overlaid, with_common, zone_configured, alias_scan, aliases_added, gateway_or_empty, host_registered, ip_in_use, mac_scan, same_but_gateway,
    utf8_len, NixZone, EXTERNAL_ZONE_KEY,
};

verus! {

/// Largest `to - from` of a `range:` group.
pub const MAX_RANGE_BOUND: i64 = 1000;
/// Profile of a user that names none.
pub const DEFAULT_PROFILE: &'static str = "minimal";
/// The maintenance account present on every host.
pub const NIX_USER_NAME: &'static str = "nix";
pub const NIX_USER_UID: u32 = 65000;
pub const NIX_USER_DISPLAY: &'static str = "Nix Maintenance User";
pub const NIX_USER_PROFILE: &'static str = "nix-admin";
/// The padded placeholder of a name template: `%'<pad><width>s`.
pub const PAD_PLACEHOLDER: &'static str = "%'([^%])(\\d+)s";

// ─── range bounds ───────────────────────────────────────────────────────────

/// `range: [from, to]` is acceptable: two bounds, `0 <= to - from <= 1000`.
pub open spec fn range_valid(range: Seq<i64>) -> bool {
    range.len() == 2 && 0 <= range[1] - range[0] <= MAX_RANGE_BOUND
}

/// Checks a `range: [from, to]` pair and returns its bounds.
pub fn parse_range(range: &Vec<i64>) -> (r: Result<(i64, i64)>)
    ensures
        r is Ok <==> range_valid(range@),
        r matches Ok(b) ==> b == (range@[0], range@[1]),
        r is Err ==> r->Err_0 is Validation,
{
    if range.len() != 2 {
        return Err(NixError::validation(owned("Bad range type")));
    }
    let start = range[0];
    let end = range[1];
    let count: i128 = end as i128 - start as i128;
    if count < 0 || count > MAX_RANGE_BOUND as i128 {
        let mut msg = owned("Range [");
        crate::text::push_decimal_i64(&mut msg, start);
        push_str(&mut msg, ", ");
        crate::text::push_decimal_i64(&mut msg, end);
        push_str(&mut msg, "] out of bound");
        return Err(NixError::validation(msg));
    }
    Ok((start, end))
}

// ─── services ───────────────────────────────────────────────────────────────

/// The settings of a declared service; a bare name takes the defaults.
pub open spec fn params_of(cfg: Option<ServiceCfg>) -> ServiceParams {
    match cfg {
        Some(c) => ServiceParams {
            title: c.title,
            description: c.description,
            domain: c.domain,
            icon: c.icon,
            global: c.global,
        },
        None => ServiceParams { title: None, description: None, domain: None, icon: None, global: false },
    }
}

/// The declared services with their settings, in declaration order.
pub open spec fn services_params(services: Option<&StrMap<Option<ServiceCfg>>>) -> Seq<(Seq<char>, ServiceParams)> {
    match services {
        Some(m) => map_vals(m@, |c: Option<ServiceCfg>| params_of(c)),
        None => Seq::empty(),
    }
}

/// The services a host entry declares, with their settings.
pub open spec fn entry_services(h: HostEntry) -> Seq<(Seq<char>, ServiceParams)> {
    match h.services {
        Some(m) => map_vals(m@, |c: Option<ServiceCfg>| params_of(c)),
        None => Seq::empty(),
    }
}

#[verifier::loop_isolation(false)]
/// Converts a `services:` mapping into service settings; a service
/// declared twice is refused.
pub fn parse_services(services: Option<&StrMap<Option<ServiceCfg>>>, hostname: &str) -> (r: Result<StrMap<ServiceParams>>)
    ensures
        r is Ok <==> match services {
            Some(m) => keys_unique(m@),
            None => true,
        },
        r matches Ok(m) ==> m.wf() && m@ == services_params(services),
        r is Err ==> r->Err_0 is Validation,
{
    let mut result: StrMap<ServiceParams> = StrMap::new();
    let services = match services {
        Some(s) => s,
        None => {
            assert(result@ =~= services_params(None));
            return Ok(result);
        },
    };
    let ghost src = services@;
    let ghost target = map_vals(src, |c: Option<ServiceCfg>| params_of(c));
    let mut i: usize = 0;
    while i < services.len()
        invariant
            0 <= i <= src.len(),
            src == services@,
            target == map_vals(src, |c: Option<ServiceCfg>| params_of(c)),
            result.wf(),
            result@ == target.take(i as int),
            keys_unique(src.take(i as int)),
        decreases src.len() - i,
    {
        let name = services.key_at(i);
        let params = match services.value_at(i) {
            Some(c) => ServiceParams {
                title: clone_opt(&c.title),
                description: clone_opt(&c.description),
                domain: clone_opt(&c.domain),
                icon: clone_opt(&c.icon),
                global: c.global,
            },
            None => ServiceParams { title: None, description: None, domain: None, icon: None, global: false },
        };
        assert(params == params_of(src[i as int].1));
        if result.contains_key(name.as_str()) {
            proof {
                let j = crate::strmap::key_pos(result@, name@);
                crate::strmap::lemma_key_pos(result@, name@, j);
                assert(src[j].0 == target[j].0);
                assert(src[i as int].0 == name@);
                assert(j < i);
                assert(src[j].0 == src[i as int].0);
            }
            let mut msg = owned("Service ");
            push_str(&mut msg, hostname);
            push_str(&mut msg, ":");
            push_str(&mut msg, name.as_str());
            push_str(&mut msg, " already registered");
            return Err(NixError::validation(msg));
        }
        proof {
            assert(target.take(i + 1) == target.take(i as int).push((name@, params)));
            assert(!has_key(target.take(i as int), name@));
            crate::strmap::lemma_insert_entry(result@, name@, params);
            assert forall|a: int, b: int| 0 <= a < b < i + 1 implies (#[trigger] src.take(i + 1)[a]).0
                != (#[trigger] src.take(i + 1)[b]).0 by {
                if b == i {
                    assert(target.take(i as int)[a].0 == src[a].0);
                } else {
                    assert(src.take(i as int)[a] == src[a]);
                    assert(src.take(i as int)[b] == src[b]);
                }
            }
        }
        result.insert(name.clone(), params);
        i += 1;
    }
    assert(src.take(src.len() as int) == src);
    assert(target.take(src.len() as int) == target);
    Ok(result)
}

// ─── name templates ─────────────────────────────────────────────────────────

/// Length of `s` in UTF-8 bytes.
pub open spec fn byte_len(s: Seq<char>) -> nat
    decreases s.len(),
{
    if s.len() == 0 {
        0
    } else {
        byte_len(s.drop_last()) + utf8_len(s.last())
    }
}

/// `value` left-padded with the first character of `pad` (`0` when none)
/// to `width` bytes; a width that does not parse counts as zero.
pub open spec fn padded(pad: Seq<char>, width: Seq<char>, value: Seq<char>) -> Seq<char> {
    let c = if pad.len() > 0 {
        pad[0]
    } else {
        '0'
    };
    let w: nat = match parse_usize(width) {
        Some(n) => n as nat,
        None => 0,
    };
    if byte_len(value) >= w {
        value
    } else {
        Seq::new((w - byte_len(value)) as nat, |_i: int| c) + value
    }
}

/// The byte length of two texts one after the other is the sum of theirs.
pub proof fn lemma_byte_len_concat(a: Seq<char>, b: Seq<char>)
    ensures
        byte_len(a + b) == byte_len(a) + byte_len(b),
    decreases b.len(),
{
    if b.len() > 0 {
        lemma_byte_len_concat(a, b.drop_last());
        assert((a + b).drop_last() =~= a + b.drop_last());
        assert((a + b).last() == b.last());
    } else {
        assert(a + b =~= a);
    }
}

proof fn lemma_byte_len_run(k: nat, c: char)
    requires
        (c as u32) < 0x80,
    ensures
        byte_len(Seq::new(k, |_i: int| c)) == k,
    decreases k,
{
    if k > 0 {
        lemma_byte_len_run((k - 1) as nat, c);
        assert(Seq::new(k, |_i: int| c).drop_last() =~= Seq::new((k - 1) as nat, |_i: int| c));
    }
}

/// Law: a `%'<pad><width>s` placeholder puts as many copies of the pad
/// character (the first of `pad`, `0` when there is none) before the value
/// as the value's byte length falls short of the width (none when it
/// reaches it), and the value follows unchanged. With an ASCII pad
/// character the result is exactly `max(width, byte length of value)` bytes
/// long.
pub proof fn law_padding(pad: Seq<char>, width: Seq<char>, value: Seq<char>)
    ensures
        ({
            let c = if pad.len() > 0 {
                pad[0]
            } else {
                '0'
            };
            let w: int = match parse_usize(width) {
                Some(n) => n as int,
                None => 0,
            };
            let k: int = if w > byte_len(value) {
                w - byte_len(value)
            } else {
                0
            };
            let r = padded(pad, width, value);
            &&& r.len() == k + value.len()
            &&& r.skip(k) == value
            &&& forall|i: int| 0 <= i < k ==> r[i] == c
            &&& ((c as u32) < 0x80 ==> byte_len(r) == if w > byte_len(value) {
                w
            } else {
                byte_len(value) as int
            })
        }),
{
    let c = if pad.len() > 0 {
        pad[0]
    } else {
        '0'
    };
    let w: int = match parse_usize(width) {
        Some(n) => n as int,
        None => 0,
    };
    let r = padded(pad, width, value);
    if w > byte_len(value) {
        let k = (w - byte_len(value)) as nat;
        let run = Seq::new(k, |_i: int| c);
        assert(r == run + value);
        assert(r.skip(k as int) =~= value);
        lemma_byte_len_concat(run, value);
        if (c as u32) < 0x80 {
            lemma_byte_len_run(k, c);
        }
    } else {
        assert(r.skip(0) =~= value);
    }
}

/// Replacement of one `%'<pad><width>s` placeholder.
pub fn pad_value(pad: &str, width: &str, value: &str) -> (r: String)
    ensures
        r@ == padded(pad@, width@, value@),
{
    let pv = chars_of(pad);
    let c = if pv.len() > 0 { pv[0] } else { '0' };
    let wv = chars_of(width);
    let w: usize = match parse_usize_chars(wv.as_slice()) {
        Some(n) => n,
        None => 0,
    };
    let vv = chars_of(value);
    let mut len: u128 = 0;
    let mut i: usize = 0;
    while i < vv.len()
        invariant
            0 <= i <= vv@.len(),
            vv@ == value@,
            len == byte_len(vv@.take(i as int)),
            len <= 4 * i,
        decreases vv@.len() - i,
    {
        assert(vv@.take(i + 1).drop_last() == vv@.take(i as int));
        len = len + crate::zone::char_utf8_len(vv[i]) as u128;
        i += 1;
    }
    assert(vv@.take(vv@.len() as int) == vv@);
    if len >= w as u128 {
        return owned(value);
    }
    let fill: usize = (w as u128 - len) as usize;
    let mut r = String::new();
    let mut k: usize = 0;
    while k < fill
        invariant
            0 <= k <= fill,
            r@ == Seq::new(k as nat, |_i: int| c),
        decreases fill - k,
    {
        push_char(&mut r, c);
        assert(r@ =~= Seq::new((k + 1) as nat, |_i: int| c));
        k += 1;
    }
    push_str(&mut r, value);
    r
}

/// What `regex::Regex::new(pattern)` followed by `replace_all(template, ..)`
/// gives when each match is replaced by `pad_value` of its first two
/// capture groups and `value`: `None` when the pattern does not compile.
pub uninterp spec fn regex_pad_replace(pattern: Seq<char>, template: Seq<char>, value: Seq<char>) -> Option<
    Seq<char>,
>;

/// Calls `regex::Regex::new(pattern)` and, when it compiles,
/// `Regex::replace_all` on `template`, replacing each match by `pad_value`
/// of its first two capture groups and `value`. The result is named
/// `regex_pad_replace` of the three strings.
#[verifier::external_body]
fn regex_replace_padded(pattern: &str, template: &str, value: &str) -> (r: Option<String>)
    ensures
        match r {
            Some(s) => regex_pad_replace(pattern@, template@, value@) == Some(s@),
            None => regex_pad_replace(pattern@, template@, value@) is None,
        },
{
    match regex::Regex::new(pattern) {
        Ok(re) => Some(
            re.replace_all(
                template,
                |caps: &regex::Captures| {
                    pad_value(
                        caps.get(1).map_or("", |m| m.as_str()),
                        caps.get(2).map_or("", |m| m.as_str()),
                        value,
                    )
                },
            ).to_string(),
        ),
        Err(_) => None,
    }
}

/// `%d` and then `%s` replaced by `value`.
pub open spec fn substituted(padded: Seq<char>, value: Seq<char>) -> Seq<char> {
    replace_seq(replace_seq(padded, "%d"@, value), "%s"@, value)
}

/// The last step of a template: `%d` and `%s` become `value`.
pub fn substitute_placeholders(padded: &str, value: &str) -> (r: String)
    ensures
        r@ == substituted(padded@, value@),
{
    proof {
        reveal_strlit("%d");
        reveal_strlit("%s");
    }
    let once = replace(padded, "%d", value);
    replace(once.as_str(), "%s", value)
}

/// A template applied to `value`: padded placeholders, then `%d` and `%s`.
/// `None` when the placeholder pattern does not compile.
pub open spec fn template_applied(template: Seq<char>, value: int) -> Option<Seq<char>> {
    match regex_pad_replace(PAD_PLACEHOLDER@, template, decimal_int(value)) {
        Some(p) => Some(substituted(p, decimal_int(value))),
        None => None,
    }
}

/// Applies an sprintf-style name template to `value`: `%'<pad><width>s`
/// (e.g. `%'02s`, zero-padded), `%d` and `%s`.
pub fn apply_template(template: &str, value: i64) -> (r: Result<String>)
    ensures
        match template_applied(template@, value as int) {
            Some(t) => r is Ok && r->Ok_0@ == t,
            None => r is Err && r->Err_0 is Generate,
        },
{
    let s = decimal_string(value);
    match regex_replace_padded(PAD_PLACEHOLDER, template, s.as_str()) {
        Some(p) => Ok(substitute_placeholders(p.as_str(), s.as_str())),
        None => Err(NixError::generate(owned("Bad name template pattern"))),
    }
}

// ─── host groups ────────────────────────────────────────────────────────────

/// The address at index `i` of an indexed `mac:` list (the first match).
pub open spec fn index_lookup(s: Seq<(i64, String)>, i: i64) -> Option<String>
    decreases s.len(),
{
    if s.len() == 0 {
        None
    } else if s[0].0 == i {
        Some(s[0].1)
    } else {
        index_lookup(s.drop_first(), i)
    }
}

/// The `mac:` of member `i` of a `range:` group.
pub open spec fn range_mac(mac: Option<Mac>, i: i64) -> Option<Mac> {
    match mac {
        Some(Mac::Indexed(v)) => match index_lookup(v@, i) {
            Some(s) => Some(Mac::Single(s)),
            None => None,
        },
        _ => None,
    }
}

/// A `range:` group can be expanded at `i`: it has a hostname and a zone,
/// and its templates apply.
pub open spec fn range_entry_ok(group: HostEntry, i: i64) -> bool {
    &&& group.hostname is Some && template_applied(group.hostname->0@, i as int) is Some
    &&& (group.name matches Some(n) ==> template_applied(n@, i as int) is Some)
    &&& group.zone is Some && template_applied(group.zone->0@, i as int) is Some
}

/// `e` is member `i` of the `range:` group `group`: templated hostname,
/// name (the hostname when the group has no name) and zone, the member's
/// MAC, the inherited keys (profile, users, groups, features, tags, disko),
/// nothing else.
pub open spec fn range_entry(e: HostEntry, group: HostEntry, i: i64) -> bool {
    let h = template_applied(group.hostname->0@, i as int)->0;
    &&& e.hostname is Some && e.hostname->0@ == h
    &&& e.name is Some && e.name->0@ == (match group.name {
        Some(n) => template_applied(n@, i as int)->0,
        None => h,
    })
    &&& e.zone is Some && e.zone->0@ == template_applied(group.zone->0@, i as int)->0
    &&& e.mac == range_mac(group.mac, i)
    &&& e.profile == group.profile
    &&& crate::schema::same_opt_vec(e.users, group.users)
    &&& crate::schema::same_opt_vec(e.groups, group.groups)
    &&& crate::schema::same_opt_vec(e.features, group.features)
    &&& crate::schema::same_opt_vec(e.tags, group.tags)
    &&& crate::schema::same_disko(e.disko, group.disko)
    &&& e.ipv4 is None && e.arch is None && e.aliases is None && e.services is None
    &&& e.range is None && e.hosts is None
}

/// The `mac:` of member `i` of a `range:` group.
#[verifier::loop_isolation(false)]
fn range_member_mac(mac: &Option<Mac>, i: i64) -> (r: Option<Mac>)
    ensures
        r == range_mac(*mac, i),
{
    match mac {
        Some(Mac::Indexed(v)) => {
            let mut k: usize = 0;
            assert(v@.skip(0) == v@);
            while k < v.len()
                invariant
                    0 <= k <= v@.len(),
                    index_lookup(v@, i) == index_lookup(v@.skip(k as int), i),
                decreases v@.len() - k,
            {
                assert(v@.skip(k as int)[0] == v@[k as int]);
                assert(v@.skip(k as int).len() > 0);
                if v[k].0 == i {
                    return Some(Mac::Single(v[k].1.clone()));
                }
                assert(v@.skip(k as int).drop_first() == v@.skip(k + 1));
                k += 1;
            }
            None
        },
        _ => None,
    }
}

/// Builds member `i` of a `range:` group.
pub fn build_range_entry(group: &HostEntry, i: i64) -> (r: Result<HostEntry>)
    ensures
        r is Ok <==> range_entry_ok(*group, i),
        r matches Ok(e) ==> range_entry(e, *group, i),
        r is Err ==> r->Err_0 is Validation || r->Err_0 is Generate,
{
    let hostname = match &group.hostname {
        Some(t) => apply_template(t.as_str(), i)?,
        None => return Err(NixError::validation(owned("hostname template required in range"))),
    };
    let name = match &group.name {
        Some(t) => apply_template(t.as_str(), i)?,
        None => hostname.clone(),
    };
    let zone = match &group.zone {
        Some(t) => apply_template(t.as_str(), i)?,
        None => return Err(NixError::validation(owned("zone required in range"))),
    };
    Ok(HostEntry {
        hostname: Some(hostname),
        name: Some(name),
        zone: Some(zone),
        mac: range_member_mac(&group.mac, i),
        profile: clone_opt(&group.profile),
        users: crate::text::clone_opt_strings(&group.users),
        groups: crate::text::clone_opt_strings(&group.groups),
        features: crate::text::clone_opt_strings(&group.features),
        tags: crate::text::clone_opt_strings(&group.tags),
        disko: crate::schema::clone_disko(&group.disko),
        ipv4: None,
        arch: None,
        aliases: None,
        services: None,
        range: None,
        hosts: None,
    })
}

/// `t` with `%s` replaced by `v`, else `v`.
pub open spec fn list_template(t: Option<String>, v: Seq<char>) -> Seq<char> {
    match t {
        Some(s) => replace_seq(s@, "%s"@, v),
        None => v,
    }
}

/// `e` is the member `hostname` (named `host_name`) of a `hosts:` list
/// group: the group's templates give its hostname and name, the group's
/// inherited keys win, everything else comes from the member's own entry.
pub open spec fn list_entry(e: HostEntry, group: HostEntry, host_cfg: HostEntry, hostname: Seq<char>, host_name: Seq<char>) -> bool {
    &&& e.hostname is Some && e.hostname->0@ == list_template(group.hostname, hostname)
    &&& e.name is Some && e.name->0@ == list_template(group.name, host_name)
    &&& e.profile == group.profile
    &&& crate::schema::same_opt_vec(e.users, group.users)
    &&& crate::schema::same_opt_vec(e.groups, group.groups)
    &&& crate::schema::same_opt_vec(e.features, group.features)
    &&& crate::schema::same_opt_vec(e.tags, group.tags)
    &&& crate::schema::same_disko(e.disko, group.disko)
    &&& e.zone == host_cfg.zone
    &&& e.ipv4 == host_cfg.ipv4
    &&& e.arch == host_cfg.arch
    &&& crate::schema::same_opt_vec(e.aliases, host_cfg.aliases)
    &&& crate::schema::same_mac(e.mac, host_cfg.mac)
    &&& crate::schema::same_opt_map(e.services, host_cfg.services)
    &&& e.range is None && e.hosts is None
}

fn template_or(t: &Option<String>, v: &str) -> (r: String)
    ensures
        r@ == list_template(*t, v@),
{
    proof {
        reveal_strlit("%s");
    }
    match t {
        Some(s) => replace(s.as_str(), "%s", v),
        None => owned(v),
    }
}

/// Builds the member `hostname` (named `host_name`) of a `hosts:` list
/// group.
pub fn build_list_entry(group: &HostEntry, host_cfg: &HostEntry, hostname: &str, host_name: &str) -> (e: HostEntry)
    ensures
        list_entry(e, *group, *host_cfg, hostname@, host_name@),
{
    let mut entry = host_cfg.duplicate_flat();
    entry.hostname = Some(template_or(&group.hostname, hostname));
    entry.name = Some(template_or(&group.name, host_name));
    entry.profile = clone_opt(&group.profile);
    entry.users = crate::text::clone_opt_strings(&group.users);
    entry.groups = crate::text::clone_opt_strings(&group.groups);
    entry.features = crate::text::clone_opt_strings(&group.features);
    entry.tags = crate::text::clone_opt_strings(&group.tags);
    entry.disko = crate::schema::clone_disko(&group.disko);
    entry.range = None;
    entry.hosts = None;
    entry
}

/// A static host's `mac:` is a single comma-separated string; the indexed
/// form only means something on a `range:` group.
pub fn mac_single(mac: &Option<Mac>) -> (r: Option<String>)
    ensures
        r == (match *mac {
            Some(Mac::Single(s)) => Some(s),
            _ => None,
        }),
{
    match mac {
        Some(Mac::Single(s)) => Some(s.clone()),
        _ => None,
    }
}

/// The disko profile named by a host entry.
pub fn disko_profile(host: &HostEntry) -> (r: Option<&str>)
    ensures
        match host.disko {
            Some(d) => match d.profile {
                Some(p) => r is Some && r->0@ == p@,
                None => r is None,
            },
            None => r is None,
        },
{
    match &host.disko {
        Some(d) => match &d.profile {
            Some(p) => Some(p.as_str()),
            None => None,
        },
        None => None,
    }
}

/// The named disko devices of a host entry (none when it names none).
pub fn disko_devices(host: &HostEntry) -> (r: StrMap<String>)
    ensures
        match host.disko {
            Some(d) => match d.devices {
                Some(m) => r@ == m@,
                None => r@.len() == 0,
            },
            None => r@.len() == 0,
        },
        r.wf() <== match host.disko {
            Some(d) => match d.devices {
                Some(m) => m.wf(),
                None => true,
            },
            None => true,
        },
{
    match &host.disko {
        Some(d) => match &d.devices {
            Some(m) => m.duplicate(),
            None => StrMap::new(),
        },
        None => StrMap::new(),
    }
}

// ─── the configuration ──────────────────────────────────────────────────────

/// A static host entry loads: it can be built, its zone is declared, its
/// zone registration and its services registration succeed.
#[verifier::opaque]
pub open spec fn static_host_ok(c: Configuration, h: HostEntry, files: ProjectFiles) -> bool {
    let (zone, ip) = zone_and_ip(c.network.zones@, h)->0;
    let hostname = h.hostname->0@;
    let net = c.network;
    &&& host_prepared_ok(c, h, files)
    &&& has_key(net.zones@, zone)
    &&& zone_entry_ok(lookup(net.zones@, zone)->0, hostname, ip, mac_of(h.mac), opt_views(h.aliases))
    &&& requirements_met(entry_services(h), net.registry)
    &&& register_scan(
        hostname,
        zone,
        entry_services(h),
        net.registry,
        net.uniq_view(),
        net.globals_view(),
        net.services_view(),
    ).0
}

/// The single MAC list of a static host, when it has one.
pub open spec fn mac_of(m: Option<Mac>) -> Option<Seq<char>> {
    match m {
        Some(Mac::Single(s)) => Some(s@),
        _ => None,
    }
}

/// `n` is `c` after loading the static host `h`.
#[verifier::opaque]
pub open spec fn static_host_loaded(n: Configuration, c: Configuration, h: HostEntry, files: ProjectFiles) -> bool {
    let (zone, ip) = zone_and_ip(c.network.zones@, h)->0;
    let hostname = h.hostname->0@;
    let net = c.network;
    let scan = register_scan(
        hostname,
        zone,
        entry_services(h),
        net.registry,
        net.uniq_view(),
        net.globals_view(),
        net.services_view(),
    );
    let p = crate::strmap::key_pos(net.zones@, zone);
    &&& n.users == c.users
    &&& has_key(n.hosts@, hostname)
    &&& host_built(lookup(n.hosts@, hostname)->0, c, h, files)
    &&& n.hosts@ == insert_entry(c.hosts@, hostname, lookup(n.hosts@, hostname)->0)
    &&& if ip is Some && ip->0.len() > 0 {
        views_of(n.host_records@) == views_of(c.host_records@).push(
            host_record(hostname, zone_domain_of(net, zone)->0, ip->0),
        )
    } else {
        n.host_records == c.host_records
    }
    &&& n.network.zones@.len() == net.zones@.len()
    &&& n.network.zones@[p].0 == zone
    &&& zone_entry_done(n.network.zones@[p].1, net.zones@[p].1, hostname, ip, mac_of(h.mac), opt_views(h.aliases))
    &&& forall|j: int| 0 <= j < net.zones@.len() && j != p ==> #[trigger] n.network.zones@[j] == net.zones@[j]
    &&& n.network.uniq_view() == scan.1
    &&& n.network.globals_view() == scan.2
    &&& n.network.services_view() == scan.3
    &&& n.network.config == net.config
    &&& n.network.registry == net.registry
}

// ─── zones ──────────────────────────────────────────────────────────────────

/// `z` is a new zone named `name`, configured from `cfg` with the network
/// defaults of `net`: no host, reservation, alias or roaming entry yet.
pub open spec fn zone_built(z: NixZone, name: Seq<char>, cfg: Option<&ZoneCfg>, net: NetworkConfig) -> bool {
    &&& z.name@ == name
    &&& z.wf()
    &&& z.hosts_view().len() == 0
    &&& z.mac_entries_view().len() == 0
    &&& z.macs_view().len() == 0
    &&& z.aliases_view().len() == 0
    &&& z.all_aliases_view().len() == 0
    &&& z.roaming_view().len() == 0
    &&& (name == EXTERNAL_ZONE_KEY@ ==> z.dhcp_range@.len() == 0)
    &&& zone_configured(z, z, cfg, net.default_locale@, net.default_timezone@, net.domain@)
}

/// `n` is `c` with the zone `name` built from `cfg` added.
#[verifier::opaque]
pub open spec fn zone_added(n: Configuration, c: Configuration, name: Seq<char>, cfg: Option<&ZoneCfg>) -> bool {
    &&& exists|z: NixZone|
        zone_built(z, name, cfg, c.network.config) && #[trigger] insert_entry(c.network.zones@, name, z)
            == n.network.zones@
    &&& net_rest(n.network, c.network)
    &&& n.users == c.users
    &&& n.hosts == c.hosts
    &&& n.host_records == c.host_records
}

/// A zone block is acceptable: a local zone's gateway, when given, is valid.
pub open spec fn zone_cfg_ok(name: Seq<char>, cfg: ZoneCfg) -> bool {
    !(name != EXTERNAL_ZONE_KEY@ && cfg.gateway is Some && !gateway_valid(cfg.gateway->0))
}

/// Address prefix of zone `name` in `c`.
pub open spec fn prefix_in(c: Configuration, name: Seq<char>) -> Seq<char> {
    lookup(c.network.zones@, name)->0.ip_prefix_spec()
}

/// `n` is `c` after loading zone block `name` (`common` is no zone):
/// the zone is added, then its extra hosts are declared.
#[verifier::opaque]
pub open spec fn zone_loaded(n: Configuration, c: Configuration, name: Seq<char>, cfg: ZoneCfg) -> bool {
    if name == "common"@ {
        n == c
    } else {
        &&& zone_cfg_ok(name, cfg)
        &&& exists|mid: Configuration|
            #![trigger zone_added(mid, c, name, Some(&cfg))]
            zone_added(mid, c, name, Some(&cfg)) && match cfg.extra_hosts {
                Some(ex) => exists|cs: Seq<Configuration>|
                    cs[0] == mid && extra_chain(cs, name, prefix_in(mid, name), ex@, ex@.len() as int) && cs.last() == n,
                None => n == mid,
            }
    }
}

/// Loading zone block `name` fails against `c`: its gateway is invalid,
/// or one of its extra hosts cannot be declared.
#[verifier::opaque]
pub open spec fn zone_fails(c: Configuration, name: Seq<char>, cfg: ZoneCfg) -> bool {
    &&& name != "common"@
    &&& {
        ||| !zone_cfg_ok(name, cfg)
        ||| exists|mid: Configuration, cs: Seq<Configuration>, k: int|
            #![trigger zone_added(mid, c, name, Some(&cfg)), extra_chain(cs, name, prefix_in(mid, name), cfg.extra_hosts->0@, k)]
            zone_added(mid, c, name, Some(&cfg)) && cfg.extra_hosts is Some && cs[0] == mid && extra_chain(
                cs,
                name,
                prefix_in(mid, name),
                cfg.extra_hosts->0@,
                k,
            ) && k < cfg.extra_hosts->0@.len() && !extra_ok(
                cs[k],
                name,
                prefix_in(mid, name),
                cfg.extra_hosts->0@[k].0,
                cfg.extra_hosts->0@[k].1,
            )
    }
}

/// The shared `common` block of the zone blocks, if any.
pub open spec fn common_block(zones: Seq<(Seq<char>, ZoneCfg)>) -> Option<ZoneCfg> {
    lookup(zones, "common"@)
}

/// Zone block `k` with each setting it leaves unset taken from the
/// `common` block.
pub open spec fn block_cfg(zones: Seq<(Seq<char>, ZoneCfg)>, k: int) -> ZoneCfg {
    match common_block(zones) {
        Some(m) => overlaid(zones[k].1, m),
        None => zones[k].1,
    }
}

/// `cs` records loading the first `n` zone blocks.
pub open spec fn zone_chain(cs: Seq<Configuration>, zones: Seq<(Seq<char>, ZoneCfg)>, n: int) -> bool {
    &&& cs.len() == n + 1
    &&& n <= zones.len()
    &&& forall|k: int| #![trigger cs[k]] 0 <= k < n ==> zone_loaded(cs[k + 1], cs[k], zones[k].0, block_cfg(zones, k))
}

/// The locales of the zone blocks have a two-byte language prefix.
pub open spec fn zone_locales_ok(zones: Seq<(Seq<char>, ZoneCfg)>) -> bool {
    forall|k: int| 0 <= k < zones.len() ==> ((#[trigger] zones[k]).1.locale matches Some(l) ==> lang_of(l@) is Some)
}

/// The maps of the zone blocks have unique keys.
pub open spec fn zone_maps_wf(zones: Seq<(Seq<char>, ZoneCfg)>) -> bool {
    forall|k: int| 0 <= k < zones.len() ==> ((#[trigger] zones[k]).1.extra_hosts matches Some(ex) ==> forall|j: int|
        0 <= j < ex@.len() ==> ((#[trigger] ex@[j]).1.services matches Some(m) ==> m.wf()))
}

// ─── extra hosts ────────────────────────────────────────────────────────────

/// Address of an extra host of a zone with prefix `prefix`.
pub open spec fn extra_ip(prefix: Seq<char>, e: ExtraHost) -> Seq<char> {
    prefix + "."@ + e.ip@
}

pub open spec fn extra_services(e: ExtraHost) -> Seq<(Seq<char>, ServiceParams)> {
    match e.services {
        Some(m) => map_vals(m@, |c: Option<ServiceCfg>| params_of(c)),
        None => Seq::empty(),
    }
}

/// The characters of an optional string.
pub open spec fn opt_seq(o: Option<String>) -> Option<Seq<char>> {
    opt_view(o)
}

/// Extra host `hostname` of zone `zone` can be declared against `c`.
#[verifier::opaque]
pub open spec fn extra_ok(c: Configuration, zone: Seq<char>, prefix: Seq<char>, hostname: Seq<char>, e: ExtraHost) -> bool {
    let net = c.network;
    &&& has_key(net.zones@, zone)
    &&& zone_entry_ok(
        lookup(net.zones@, zone)->0,
        hostname,
        Some(extra_ip(prefix, e)),
        opt_seq(e.mac),
        opt_views(e.aliases),
    )
    &&& requirements_met(extra_services(e), net.registry)
    &&& register_scan(hostname, zone, extra_services(e), net.registry, net.uniq_view(), net.globals_view(), net.services_view()).0
}

/// `n` is `c` after declaring extra host `hostname` of zone `zone`.
#[verifier::opaque]
pub open spec fn extra_done(
    n: Configuration,
    c: Configuration,
    zone: Seq<char>,
    prefix: Seq<char>,
    hostname: Seq<char>,
    e: ExtraHost,
) -> bool {
    let net = c.network;
    let p = crate::strmap::key_pos(net.zones@, zone);
    let scan = register_scan(hostname, zone, extra_services(e), net.registry, net.uniq_view(), net.globals_view(), net.services_view());
    &&& n.users == c.users
    &&& n.hosts == c.hosts
    &&& n.host_records == c.host_records
    &&& n.network.zones@.len() == net.zones@.len()
    &&& n.network.zones@[p].0 == zone
    &&& zone_entry_done(n.network.zones@[p].1, net.zones@[p].1, hostname, Some(extra_ip(prefix, e)), opt_seq(e.mac), opt_views(e.aliases))
    &&& forall|j: int| 0 <= j < net.zones@.len() && j != p ==> #[trigger] n.network.zones@[j] == net.zones@[j]
    &&& n.network.uniq_view() == scan.1
    &&& n.network.globals_view() == scan.2
    &&& n.network.services_view() == scan.3
    &&& n.network.config == net.config
    &&& n.network.registry == net.registry
}

/// `cs` records declaring the first `n` extra hosts of a zone.
pub open spec fn extra_chain(
    cs: Seq<Configuration>,
    zone: Seq<char>,
    prefix: Seq<char>,
    extras: Seq<(Seq<char>, ExtraHost)>,
    n: int,
) -> bool {
    &&& cs.len() == n + 1
    &&& n <= extras.len()
    &&& forall|k: int|
        #![trigger cs[k]]
        0 <= k < n ==> extra_ok(cs[k], zone, prefix, extras[k].0, extras[k].1) && extra_done(
            cs[k + 1],
            cs[k],
            zone,
            prefix,
            extras[k].0,
            extras[k].1,
        )
}

// ─── users ──────────────────────────────────────────────────────────────────

/// Profile a user asks for (`minimal` when none).
pub open spec fn user_profile(c: UserCfg) -> Seq<char> {
    match c.profile {
        Some(p) => p@,
        None => DEFAULT_PROFILE@,
    }
}

/// User `k` of `users` can be built after the earlier ones: UID in range
/// and new, login new (`nix` is reserved), profile found.
pub open spec fn user_cfg_ok(users: Seq<(Seq<char>, UserCfg)>, k: int, files: ProjectFiles) -> bool {
    let login = users[k].0;
    let c = users[k].1;
    &&& MIN_UID <= c.uid <= MAX_UID
    &&& forall|j: int| 0 <= j < k ==> (#[trigger] users[j]).1.uid != c.uid
    &&& login != NIX_USER_NAME@
    &&& forall|j: int| 0 <= j < k ==> (#[trigger] users[j]).0 != login
    &&& resolved_profile(files, user_profile(c)) is Some
}

/// `u` is the account built for `login` from `c`.
pub open spec fn user_built(u: User, login: Seq<char>, c: UserCfg, files: ProjectFiles) -> bool {
    &&& u.login@ == login
    &&& u.uid == c.uid
    &&& u.name@ == c.name@
    &&& match c.email {
        Some(e) if e@.len() > 0 => u.email is Some && u.email->0@ == e@,
        _ => u.email is None,
    }
    &&& Some(u.profile@) == resolved_profile(files, user_profile(c))
    &&& u.groups@ == c.groups@
    &&& u.disabled == c.disabled
}

/// The `nix` maintenance account: UID 65000, its profile resolved when
/// present, else the framework's path.
pub open spec fn nix_user(u: User, files: ProjectFiles) -> bool {
    &&& u.login@ == NIX_USER_NAME@
    &&& u.uid == NIX_USER_UID
    &&& u.name@ == NIX_USER_DISPLAY@
    &&& u.email is None
    &&& u.profile@ == unchecked_profile(files, NIX_USER_PROFILE@)
    &&& u.groups@.len() == 0
    &&& !u.disabled
}

// ─── host groups expansion ──────────────────────────────────────────────────

/// The static entries of a `hosts:` list (neither `range:` nor `hosts:`).
pub open spec fn statics_of(hosts: Seq<HostEntry>) -> Seq<HostEntry>
    decreases hosts.len(),
{
    if hosts.len() == 0 {
        Seq::empty()
    } else {
        let h = hosts.last();
        if h.range is None && h.hosts is None {
            statics_of(hosts.drop_last()).push(h)
        } else {
            statics_of(hosts.drop_last())
        }
    }
}

/// The members `(group, index)` of a valid `range:` group.
pub open spec fn range_members(h: HostEntry) -> Seq<(HostEntry, i64)> {
    match h.range {
        Some(r) => if range_valid(r@) {
            Seq::new((r@[1] - r@[0] + 1) as nat, |k: int| (h, (r@[0] + k) as i64))
        } else {
            Seq::empty()
        },
        None => Seq::empty(),
    }
}

/// The members of the `range:` groups, group after group.
pub open spec fn range_slots(hosts: Seq<HostEntry>) -> Seq<(HostEntry, i64)>
    decreases hosts.len(),
{
    if hosts.len() == 0 {
        Seq::empty()
    } else {
        range_slots(hosts.drop_last()) + range_members(hosts.last())
    }
}

/// A member of a `hosts:` list group: group, member entry, member key,
/// member name.
pub type ListSlot = (HostEntry, HostEntry, Seq<char>, Seq<char>);

/// The members of a `hosts:` list group (a `range:` group has none).
pub open spec fn list_members(h: HostEntry) -> Seq<ListSlot> {
    if h.range is None && h.hosts is Some {
        let m = h.hosts->0@;
        Seq::new(m.len(), |k: int| (h, m[k].1, m[k].0, m[k].1.name->0@))
    } else {
        Seq::empty()
    }
}

/// The members of the `hosts:` list groups, group after group.
pub open spec fn list_slots(hosts: Seq<HostEntry>) -> Seq<ListSlot>
    decreases hosts.len(),
{
    if hosts.len() == 0 {
        Seq::empty()
    } else {
        list_slots(hosts.drop_last()) + list_members(hosts.last())
    }
}

/// A group expands: a `range:` group has valid bounds and each member can
/// be built; each member of a `hosts:` list group has a name.
pub open spec fn group_ok(h: HostEntry) -> bool {
    match h.range {
        Some(r) => range_valid(r@) && forall|i: i64| r@[0] <= i <= r@[1] ==> #[trigger] range_entry_ok(h, i),
        None => match h.hosts {
            Some(m) => forall|k: int| 0 <= k < m@.len() ==> (#[trigger] m@[k]).1.name is Some,
            None => true,
        },
    }
}

/// `out` is what `hosts` expands to: the static entries, then the members
/// of the `range:` groups, then those of the `hosts:` list groups.
#[verifier::opaque]
pub open spec fn expanded(out: Seq<HostEntry>, hosts: Seq<HostEntry>) -> bool {
    let st = statics_of(hosts);
    let rs = range_slots(hosts);
    let ls = list_slots(hosts);
    &&& out.len() == st.len() + rs.len() + ls.len()
    &&& forall|j: int| 0 <= j < st.len() ==> HostEntry::same_flat(#[trigger] out[j], st[j]) && out[j].hosts is None
    &&& forall|j: int| 0 <= j < rs.len() ==> range_entry(#[trigger] out[st.len() + j], rs[j].0, rs[j].1)
    &&& forall|j: int| 0 <= j < ls.len() ==> list_entry(
        #[trigger] out[st.len() + rs.len() + j],
        ls[j].0,
        ls[j].1,
        ls[j].2,
        ls[j].3,
    )
}

/// The maps of a `hosts:` list entry and of its members have unique keys.
pub open spec fn host_entry_wf(h: HostEntry) -> bool {
    &&& entry_maps_wf(h)
    &&& (h.hosts matches Some(m) ==> m.wf() && forall|k: int| 0 <= k < m@.len() ==> entry_maps_wf(#[trigger] m@[k].1))
}

/// `cs` records loading the first `n` of `entries` as static hosts, one
/// after the other: each load succeeds and `cs[k + 1]` is `cs[k]` after
/// loading `entries[k]`.
pub open spec fn load_chain(cs: Seq<Configuration>, entries: Seq<HostEntry>, files: ProjectFiles, n: int) -> bool {
    &&& cs.len() == n + 1
    &&& n <= entries.len()
    &&& forall|k: int|
        #![trigger cs[k]]
        0 <= k < n ==> static_host_ok(cs[k], entries[k], files) && static_host_loaded(cs[k + 1], cs[k], entries[k], files)
}

/// `n` is `c` after the last loading step succeeded (see `populate_zones`).
pub open spec fn populated(n: Configuration, c: Configuration) -> bool {
    &&& abs_of(n.network.zones@) == populate_fold(abs_of(c.network.zones@), snaps_of(c.hosts@)).1
    &&& zones_rest(n.network.zones@, c.network.zones@)
    &&& net_rest(n.network, c.network)
    &&& n.users == c.users
    &&& n.hosts == c.hosts
    &&& n.host_records == c.host_records
}

// ─── loading phases ─────────────────────────────────────────────────────────

/// `n` is `c` after the zones were loaded: the external zone first, then
/// every zone block in order.
pub open spec fn zones_phase(n: Configuration, c: Configuration, zones: Option<&StrMap<ZoneCfg>>) -> bool {
    exists|cs: Seq<Configuration>|
        #![trigger cs[0]]
        zone_added(cs[0], c, EXTERNAL_ZONE_KEY@, None) && cs.last() == n && match zones {
            Some(z) => zone_chain(cs, z@, z@.len() as int),
            None => cs.len() == 1,
        }
}

/// Loading the zones fails against `c`: some zone block fails after the
/// ones before it loaded.
pub open spec fn zones_phase_fails(c: Configuration, zones: Option<&StrMap<ZoneCfg>>) -> bool {
    zones is Some && exists|cs: Seq<Configuration>, n: int|
        #![trigger cs[n]]
        zone_added(cs[0], c, EXTERNAL_ZONE_KEY@, None) && zone_chain(cs, zones->0@, n) && n < zones->0@.len()
            && zone_fails(cs[n], zones->0@[n].0, block_cfg(zones->0@, n))
}

/// Every user can be built.
pub open spec fn users_ok(users: Seq<(Seq<char>, UserCfg)>, files: ProjectFiles) -> bool {
    forall|k: int| 0 <= k < users.len() ==> #[trigger] user_cfg_ok(users, k, files)
}

/// `n` has the users built from `users`, in order, then the `nix` account.
pub open spec fn users_phase(n: Configuration, c: Configuration, users: Seq<(Seq<char>, UserCfg)>, files: ProjectFiles) -> bool {
    &&& n.users@.len() == users.len() + 1
    &&& forall|k: int| 0 <= k < users.len() ==> (#[trigger] n.users@[k]).0 == users[k].0
        && user_built(n.users@[k].1, users[k].0, users[k].1, files)
    &&& n.users@[users.len() as int].0 == NIX_USER_NAME@
    &&& nix_user(n.users@[users.len() as int].1, files)
    &&& n.hosts == c.hosts
    &&& n.network == c.network
    &&& n.host_records == c.host_records
}

/// `n` is `c` after the hosts were loaded: every entry of the expansion
/// loaded in order, then the cross-zone step.
pub open spec fn hosts_phase(n: Configuration, c: Configuration, hosts: Seq<HostEntry>, files: ProjectFiles) -> bool {
    exists|out: Seq<HostEntry>, cs: Seq<Configuration>|
        expanded(out, hosts) && cs[0] == c && load_chain(cs, out, files, out.len() as int) && populate_fold(
            abs_of(cs.last().network.zones@),
            snaps_of(cs.last().hosts@),
        ).0 && populated(n, cs.last())
}

/// Loading the hosts fails against `c`: a group does not expand, an entry
/// fails after the ones before it loaded, or the cross-zone step fails.
pub open spec fn hosts_phase_fails(c: Configuration, hosts: Seq<HostEntry>, files: ProjectFiles) -> bool {
    ||| !(forall|k: int| 0 <= k < hosts.len() ==> group_ok(#[trigger] hosts[k]))
    ||| exists|out: Seq<HostEntry>, cs: Seq<Configuration>, n: int|
        expanded(out, hosts) && cs[0] == c && load_chain(cs, out, files, n) && ((n < out.len() && !static_host_ok(
            cs[n],
            out[n],
            files,
        )) || (n == out.len() && !populate_fold(abs_of(cs[n].network.zones@), snaps_of(cs[n].hosts@)).0))
}

/// The configuration before loading: nothing but the service registry.
pub open spec fn initial(c: Configuration, registry: ServiceRegistry) -> bool {
    &&& c.users@.len() == 0
    &&& c.hosts@.len() == 0
    &&& c.host_records@.len() == 0
    &&& c.network.zones@.len() == 0
    &&& c.network.services@.len() == 0
    &&& c.network.uniq_services@.len() == 0
    &&& c.network.global_service_domains@.len() == 0
    &&& c.network.registry == registry
    &&& c.wf()
}

/// `n` is `c` with the network settings of `cfg`, defaults applied.
pub open spec fn network_phase(n: Configuration, c: Configuration, cfg: Option<&NetworkCfg>) -> bool {
    let k = n.network.config;
    &&& k.domain@ == crate::network::eff_domain(cfg)
    &&& k.default_locale@ == eff_locale(cfg)
    &&& k.default_timezone@ == crate::network::eff_timezone(cfg)
    &&& k.coordination_domain@ == crate::network::eff_coord_domain(cfg)
    &&& k.coordination_hostname@ == crate::network::eff_coord_hostname(cfg)
    &&& k.coordination_enable == crate::network::eff_coord_enable(cfg)
    &&& k.default == crate::network::cfg_default(cfg)
    &&& k.coordination == crate::network::cfg_coordination(cfg)
    &&& k.smtp == crate::network::cfg_smtp(cfg)
    &&& k.matrix == (match cfg {
        Some(x) => x.matrix,
        None => None,
    })
    &&& n.network.zones == c.network.zones
    &&& n.network.services == c.network.services
    &&& n.network.registry == c.network.registry
    &&& n.network.uniq_services == c.network.uniq_services
    &&& n.network.global_service_domains == c.network.global_service_domains
    &&& n.users == c.users
    &&& n.hosts == c.hosts
    &&& n.host_records == c.host_records
}

/// The `network:` block of a configuration file.
pub open spec fn network_of(f: &ConfigFile) -> Option<&NetworkCfg> {
    match &f.network {
        Some(n) => Some(n),
        None => None,
    }
}

/// The `zones:` block of a configuration file.
pub open spec fn zones_of(f: &ConfigFile) -> Option<&StrMap<ZoneCfg>> {
    match &f.zones {
        Some(z) => Some(z),
        None => None,
    }
}

/// The maps of the configuration file have unique keys.
pub open spec fn config_file_wf(f: ConfigFile) -> bool {
    &&& f.users.wf()
    &&& (f.zones matches Some(z) ==> z.wf() && zone_maps_wf(z@))
    &&& forall|k: int| 0 <= k < f.hosts@.len() ==> host_entry_wf(#[trigger] f.hosts@[k])
}

// ─── cross-zone state ───────────────────────────────────────────────────────

/// What the last loading step changes in a zone: its hosts, and its
/// gateway's host name, LAN address and tailnet address.
pub type ZoneAbs = (Seq<(Seq<char>, Option<Seq<char>>)>, Option<Seq<char>>, Option<Seq<char>>, Option<Seq<char>>);

pub open spec fn zone_abs(z: NixZone) -> ZoneAbs {
    let g = gateway_or_empty(z.config.gateway);
    (z.hosts_view(), opt_view(g.hostname), opt_view(g.lan_ip), opt_view(g.vpn_ipv4))
}

pub open spec fn abs_of(zones: Seq<(Seq<char>, NixZone)>) -> Seq<(Seq<char>, ZoneAbs)> {
    map_vals(zones, |z: NixZone| zone_abs(z))
}

/// `n` agrees with `o` on everything `zone_abs` leaves out; a gateway is
/// never removed, and is only added together with a host name, which once
/// set does not change.
pub open spec fn zone_rest(n: NixZone, o: NixZone) -> bool {
    let gn = gateway_or_empty(n.config.gateway);
    let go = gateway_or_empty(o.config.gateway);
    &&& n.wf()
    &&& n.name == o.name
    &&& n.dhcp_range == o.dhcp_range
    &&& n.mac_addresses == o.mac_addresses
    &&& n.all_macs == o.all_macs
    &&& n.aliases == o.aliases
    &&& n.all_aliases == o.all_aliases
    &&& n.roaming == o.roaming
    &&& same_but_gateway(n.config, o.config)
    &&& gn.wan_interface == go.wan_interface
    &&& gn.lan_interfaces == go.lan_interfaces
    &&& (o.config.gateway is Some ==> n.config.gateway is Some)
    &&& (n.config.gateway is Some ==> o.config.gateway is Some || gn.hostname is Some)
    &&& (go.hostname is Some ==> gn.hostname == go.hostname)
}

/// A host as the last loading step sees it: hostname, zone, address,
/// tailnet address.
pub type HostSnap = (Seq<char>, Seq<char>, Option<Seq<char>>, Option<Seq<char>>);

pub open spec fn snaps_of(hosts: Seq<(Seq<char>, Host)>) -> Seq<HostSnap> {
    hosts.map_values(|e: (Seq<char>, Host)| (e.1.hostname@, e.1.zone@, opt_view(e.1.ip), opt_view(e.1.vpn_ip)))
}

/// The external host `host` declared (forced) in the first `i` zones but
/// the external one; stops when its address is taken there.
pub open spec fn replicate_upto(st: Seq<(Seq<char>, ZoneAbs)>, host: Seq<char>, ip: Option<Seq<char>>, i: nat) -> (
    bool,
    Seq<(Seq<char>, ZoneAbs)>,
)
    decreases i,
{
    if i == 0 {
        (true, st)
    } else {
        let (ok, s) = replicate_upto(st, host, ip, (i - 1) as nat);
        if !ok {
            (false, s)
        } else {
            let e = s[i - 1];
            if e.0 == EXTERNAL_ZONE_KEY@ || host.len() == 0 {
                (true, s)
            } else if ip is Some && ip_in_use(e.1.0, ip->0) {
                (false, s)
            } else {
                (true, s.update(i - 1, (e.0, (host_registered(e.1.0, host, ip), e.1.1, e.1.2, e.1.3))))
            }
        }
    }
}

/// Names host `host` the gateway of zone `zone`, with LAN address `lan`
/// or tailnet address `vpn`; a zone has at most one gateway host.
pub open spec fn gateway_set(
    st: Seq<(Seq<char>, ZoneAbs)>,
    zone: Seq<char>,
    host: Seq<char>,
    lan: Option<Seq<char>>,
    vpn: Option<Seq<char>>,
) -> (bool, Seq<(Seq<char>, ZoneAbs)>) {
    if !has_key(st, zone) {
        (false, st)
    } else {
        let p = crate::strmap::key_pos(st, zone);
        let a = st[p].1;
        if a.1 is Some {
            (false, st)
        } else {
            (
                true,
                st.update(
                    p,
                    (
                        zone,
                        (
                            a.0,
                            Some(host),
                            if lan is Some {
                                lan
                            } else {
                                a.2
                            },
                            if vpn is Some {
                                vpn
                            } else {
                                a.3
                            },
                        ),
                    ),
                ),
            )
        }
    }
}

/// The last loading step for one host: a local host whose address ends in
/// `.1.1` is its zone's gateway; an external host is declared in every
/// local zone and, when it has a tailnet address, is the external zone's
/// gateway.
pub open spec fn populate_step(st: Seq<(Seq<char>, ZoneAbs)>, h: HostSnap) -> (bool, Seq<(Seq<char>, ZoneAbs)>) {
    let (host, zone, ip, vpn) = h;
    let (ok1, s1) = if zone != EXTERNAL_ZONE_KEY@ && ip is Some && crate::text::has_suffix(ip->0, ".1.1"@) {
        gateway_set(st, zone, host, ip, None)
    } else {
        (true, st)
    };
    if !ok1 {
        (false, s1)
    } else if zone == EXTERNAL_ZONE_KEY@ {
        let (ok2, s2) = replicate_upto(s1, host, ip, s1.len());
        if !ok2 {
            (false, s2)
        } else if vpn is Some {
            gateway_set(s2, EXTERNAL_ZONE_KEY@, host, None, vpn)
        } else {
            (true, s2)
        }
    } else {
        (true, s1)
    }
}

/// The last loading step over `hosts`, in order; stops at the first
/// failure.
pub open spec fn populate_fold(st: Seq<(Seq<char>, ZoneAbs)>, hosts: Seq<HostSnap>) -> (bool, Seq<(Seq<char>, ZoneAbs)>)
    decreases hosts.len(),
{
    if hosts.len() == 0 {
        (true, st)
    } else {
        let (ok, s) = populate_fold(st, hosts.drop_last());
        if !ok {
            (false, s)
        } else {
            populate_step(s, hosts.last())
        }
    }
}

/// Everything the generators emit: users and hosts (in declaration order),
/// the network, and the static DNS records `"host,host.<zone domain>,ip"`.
pub struct Configuration {
    pub users: StrMap<User>,
    pub hosts: StrMap<Host>,
    pub network: NixNetwork,
    pub host_records: Vec<String>,
}

/// The characters of an optional string.
pub open spec fn opt_str_view(o: Option<&str>) -> Option<Seq<char>> {
    match o {
        Some(s) => Some(s@),
        None => None,
    }
}

/// The strings of an optional list (none when absent).
pub open spec fn opt_views(o: Option<Vec<String>>) -> Seq<Seq<char>> {
    match o {
        Some(v) => views_of(v@),
        None => Seq::empty(),
    }
}

/// Some user of `users` belongs to one of `groups` and has login `n`.
pub open spec fn group_member(users: Seq<(Seq<char>, User)>, groups: Seq<Seq<char>>, n: Seq<char>) -> bool {
    exists|i: int, g: int|
        0 <= i < users.len() && 0 <= g < groups.len() && (#[trigger] users[i]).1.login@ == n
            && views_of(users[i].1.groups@).contains(#[trigger] groups[g])
}

/// The accounts of a host: `nix`, the host's own users and the members of
/// its groups.
pub open spec fn expanded_user(
    users: Seq<(Seq<char>, User)>,
    host_users: Seq<Seq<char>>,
    groups: Seq<Seq<char>>,
    n: Seq<char>,
) -> bool {
    n == NIX_USER_NAME@ || host_users.contains(n) || group_member(users, groups, n)
}

/// DNS record of a static host.
pub open spec fn host_record(hostname: Seq<char>, zone_domain: Seq<char>, ip: Seq<char>) -> Seq<char> {
    hostname + ","@ + hostname + "."@ + zone_domain + ","@ + ip
}

/// `(zone name, address suffix)` of a `zone:` field `"<name>[:<suffix>]"`.
pub open spec fn split_zone_field(f: Seq<char>) -> (Seq<char>, Seq<char>) {
    match first_index_of(f, ':') {
        Some(i) => (f.take(i), f.skip(i + 1)),
        None => (f, Seq::empty()),
    }
}

/// Address prefix of the zone named `name` (empty when unknown).
pub open spec fn zone_prefix(zones: Seq<(Seq<char>, NixZone)>, name: Seq<char>) -> Seq<char> {
    match lookup(zones, name) {
        Some(z) => z.ip_prefix_spec(),
        None => Seq::empty(),
    }
}

/// Zone and address of a host: from the `zone:` shorthand
/// (`<prefix>.<suffix>` when a suffix is given), else from
/// `ipv4.external` in the external zone; `None` when the entry has neither.
pub open spec fn zone_and_ip(zones: Seq<(Seq<char>, NixZone)>, h: HostEntry) -> Option<(Seq<char>, Option<Seq<char>>)> {
    match h.zone {
        Some(f) => {
            let (name, suffix) = split_zone_field(f@);
            Some(
                (
                    name,
                    if suffix.len() == 0 {
                        None
                    } else {
                        Some(zone_prefix(zones, name) + "."@ + suffix)
                    },
                ),
            )
        },
        None => match h.ipv4 {
            Some(v) => match v.external {
                Some(e) => Some((EXTERNAL_ZONE_KEY@, Some(e@))),
                None => None,
            },
            None => None,
        },
    }
}

/// Domain of the hosts of zone `zone`: the network's for the external
/// zone, the zone's own otherwise (`None` when the zone is unknown).
pub open spec fn zone_domain_of(net: NixNetwork, zone: Seq<char>) -> Option<Seq<char>> {
    if zone == EXTERNAL_ZONE_KEY@ {
        Some(net.config.domain@)
    } else {
        match lookup(net.zones@, zone) {
            Some(z) => Some(z.domain_spec()),
            None => None,
        }
    }
}

/// The disko layout of a host entry resolves (see `Host::set_disko`).
pub open spec fn disko_ok(h: HostEntry, files: ProjectFiles) -> bool {
    match h.disko {
        Some(d) => match d.profile {
            Some(p) => {
                &&& pattern_accepts(RE_IDENTIFIER@, p@)
                &&& (files.has(disko_path("usr"@, p@)) || files.has(disko_path("dnf"@, p@)))
                &&& match d.devices {
                    Some(m) => forall|i: int| 0 <= i < m@.len() ==> pattern_accepts(RE_IDENTIFIER@, #[trigger] m@[i].0)
                        && pattern_accepts(RE_DEVICE@, m@[i].1@),
                    None => true,
                }
            },
            None => true,
        },
        None => true,
    }
}

/// The maps of a host entry have unique keys.
pub open spec fn entry_maps_wf(h: HostEntry) -> bool {
    &&& (h.services matches Some(m) ==> m.wf())
    &&& (h.disko matches Some(d) ==> (d.devices matches Some(m) ==> m.wf()))
}

/// A static host entry can be built against `c`: hostname, name and
/// profile given, zone resolved, every account login well-formed and the
/// disko layout resolved.
pub open spec fn host_prepared_ok(c: Configuration, h: HostEntry, files: ProjectFiles) -> bool {
    &&& h.hostname is Some && h.name is Some && h.profile is Some
    &&& zone_and_ip(c.network.zones@, h) is Some
    &&& zone_domain_of(c.network, (zone_and_ip(c.network.zones@, h)->0).0) is Some
    &&& forall|n: Seq<char>| #[trigger] expanded_user(c.users@, opt_views(h.users), opt_views(h.groups), n)
        ==> pattern_accepts(RE_LOGIN@, n)
    &&& disko_ok(h, files)
}

/// `x` is the host built from entry `h` against `c`.
pub open spec fn host_built(x: Host, c: Configuration, h: HostEntry, files: ProjectFiles) -> bool {
    let (zone, ip) = zone_and_ip(c.network.zones@, h)->0;
    &&& x.hostname@ == h.hostname->0@
    &&& x.name@ == h.name->0@
    &&& x.zone@ == zone
    &&& x.profile@ == h.profile->0@
    &&& x.arch == h.arch
    &&& x.zone_domain@ == zone_domain_of(c.network, zone)->0
    &&& x.network_domain@ == c.network.config.domain@
    &&& views_of(x.groups@) == opt_views(h.groups)
    &&& strictly_sorted(views_of(x.users@))
    &&& forall|n: Seq<char>| #[trigger] views_of(x.users@).contains(n) <==> expanded_user(
        c.users@,
        opt_views(h.users),
        opt_views(h.groups),
        n,
    )
    &&& x.features_view() == features_map(opt_views(h.features), zone)
    &&& views_of(x.tags@) == opt_views(h.tags)
    &&& opt_view(x.ip) == ip
    &&& x.vpn_ip == (match h.ipv4 {
        Some(v) => v.internal,
        None => None,
    })
    &&& x.mac is None
    &&& x.services.wf() && x.services@ == entry_services(h)
    &&& match h.disko {
        Some(d) if d.profile is Some => {
            let p = d.profile->0@;
            &&& x.disko.profile is Some
            &&& x.disko.profile->0@ == (if files.has(disko_path("usr"@, p)) {
                disko_path("usr"@, p)
            } else {
                disko_path("dnf"@, p)
            })
            &&& match d.devices {
                Some(m) => x.disko.devices@ == m@,
                None => x.disko.devices@.len() == 0,
            }
        },
        _ => x.disko.profile is None && x.disko.devices@.len() == 0,
    }
}

/// Registration of a host in its zone can succeed: the host is new (or
/// nameless) and its address free, its MAC addresses well-formed and new,
/// its aliases free.
pub open spec fn zone_entry_ok(
    z: NixZone,
    host: Seq<char>,
    ip: Option<Seq<char>>,
    mac: Option<Seq<char>>,
    aliases: Seq<Seq<char>>,
) -> bool {
    let hv = z.hosts_view();
    &&& !(host.len() > 0 && (has_key(hv, host) || (ip is Some && ip_in_use(hv, ip->0))))
    &&& (ip is Some && mac is Some ==> mac_scan(split_char(mac->0, ','), z.macs_view()).0 && !has_key(
        z.mac_entries_view(),
        ip->0,
    ))
    &&& (aliases.len() > 0 ==> alias_scan(
        aliases,
        z.aliases_view(),
        if host.len() > 0 {
            host_registered(hv, host, ip)
        } else {
            hv
        },
        z.all_aliases_view(),
    ).0)
}

/// `n` is `z` after a successful registration of the host.
pub open spec fn zone_entry_done(
    n: NixZone,
    z: NixZone,
    host: Seq<char>,
    ip: Option<Seq<char>>,
    mac: Option<Seq<char>>,
    aliases: Seq<Seq<char>>,
) -> bool {
    let hv = z.hosts_view();
    let hv1 = if host.len() > 0 {
        host_registered(hv, host, ip)
    } else {
        hv
    };
    &&& n.wf()
    &&& n.hosts_view() == hv1
    &&& if ip is Some && mac is Some {
        &&& n.mac_entries_view() == insert_entry(z.mac_entries_view(), ip->0, mac->0 + seq![','] + ip->0)
        &&& n.macs_view() == mac_scan(split_char(mac->0, ','), z.macs_view()).1
    } else {
        n.mac_addresses == z.mac_addresses && n.all_macs == z.all_macs
    }
    &&& if aliases.len() > 0 {
        &&& n.aliases_view() == aliases_added(z.aliases_view(), host, aliases)
        &&& n.all_aliases_view() == alias_scan(aliases, z.aliases_view(), hv1, z.all_aliases_view()).1
    } else {
        n.aliases == z.aliases && n.all_aliases == z.all_aliases
    }
    &&& n.name == z.name
    &&& n.config == z.config
    &&& n.dhcp_range == z.dhcp_range
    &&& n.roaming == z.roaming
}

/// Declares a host in zone `z`: the host with its address, its DHCP
/// reservation (when both address and MAC are known) and its aliases.
pub fn register_in_zone(
    z: &mut NixZone,
    host: &str,
    ip: Option<&str>,
    mac: Option<&str>,
    aliases: &Vec<String>,
) -> (r: Result<()>)
    requires
        old(z).wf(),
    ensures
        final(z).wf(),
        final(z).name == old(z).name,
        r is Ok <==> zone_entry_ok(*old(z), host@, opt_str_view(ip), opt_str_view(mac), views_of(aliases@)),
        r is Ok ==> zone_entry_done(*final(z), *old(z), host@, opt_str_view(ip), opt_str_view(mac), views_of(aliases@)),
        r is Err ==> r->Err_0 is Validation,
{
    let ghost z0 = *z;
    z.register_host(host, ip, false)?;
    let ghost z1 = *z;
    if let (Some(ip_str), Some(mac_str)) = (ip, mac) {
        z.register_mac_addresses(mac_str, ip_str)?;
    }
    let ghost z2 = *z;
    if aliases.len() > 0 {
        z.register_aliases(host, aliases)?;
    }
    Ok(())
}

/// Whether `v` holds `s`.
pub fn contains_str(v: &Vec<String>, s: &str) -> (r: bool)
    ensures
        r == views_of(v@).contains(s@),
{
    let mut i: usize = 0;
    while i < v.len()
        invariant
            0 <= i <= v@.len(),
            forall|j: int| 0 <= j < i ==> (#[trigger] v@[j])@ != s@,
        decreases v@.len() - i,
    {
        if str_eq(v[i].as_str(), s) {
            assert(views_of(v@)[i as int] == s@);
            return true;
        }
        i += 1;
    }
    proof {
        if views_of(v@).contains(s@) {
            let j = choose|j: int| 0 <= j < views_of(v@).len() && views_of(v@)[j] == s@;
            assert(v@[j]@ == s@);
        }
    }
    false
}

impl Configuration {
    /// Maps have unique keys and the network is well formed.
    pub open spec fn wf(&self) -> bool {
        &&& self.users.wf()
        &&& self.hosts.wf()
        &&& self.network.wf()
    }

    /// Accounts of a host: `nix`, its own users and the members of its
    /// groups, sorted and without duplicates.
    #[verifier::loop_isolation(false)]
    fn expand_users(&self, host_users: &Vec<String>, groups: &Vec<String>) -> (r: Vec<String>)
        ensures
            strictly_sorted(views_of(r@)),
            forall|n: Seq<char>| #[trigger] views_of(r@).contains(n) <==> expanded_user(
                self.users@,
                views_of(host_users@),
                views_of(groups@),
                n,
            ),
    {
        let ghost us = self.users@;
        let ghost hu = views_of(host_users@);
        let ghost gs = views_of(groups@);
        let mut all: Vec<String> = Vec::new();
        all.push(owned(NIX_USER_NAME));
        proof {
            assert(views_of(all@) =~= seq![NIX_USER_NAME@]);
            assert(hu.take(0) =~= Seq::<Seq<char>>::empty());
            assert forall|n: Seq<char>| #[trigger] views_of(all@).contains(n) <==> (n == NIX_USER_NAME@ || hu.take(
                0,
            ).contains(n)) by {
                if views_of(all@).contains(n) {
                    let j = choose|j: int| 0 <= j < views_of(all@).len() && views_of(all@)[j] == n;
                    assert(j == 0);
                }
                if n == NIX_USER_NAME@ {
                    assert(views_of(all@)[0] == n);
                }
            }
        }
        let mut i: usize = 0;
        while i < host_users.len()
            invariant
                0 <= i <= host_users@.len(),
                forall|n: Seq<char>| #[trigger] views_of(all@).contains(n) <==> (n == NIX_USER_NAME@ || hu.take(
                    i as int,
                ).contains(n)),
            decreases host_users@.len() - i,
        {
            let ghost before = views_of(all@);
            all.push(host_users[i].clone());
            proof {
                assert(views_of(all@) == before.push(hu[i as int]));
                assert(hu.take(i + 1) == hu.take(i as int).push(hu[i as int]));
                assert forall|n: Seq<char>| #[trigger] views_of(all@).contains(n) <==> (n == NIX_USER_NAME@
                    || hu.take(i + 1).contains(n)) by {
                    crate::text::lemma_push_to_set(before, hu[i as int]);
                    crate::text::lemma_push_to_set(hu.take(i as int), hu[i as int]);
                    assert(views_of(all@).to_set().contains(n) == views_of(all@).contains(n));
                    assert(before.to_set().contains(n) == before.contains(n));
                    assert(hu.take(i + 1).to_set().contains(n) == hu.take(i + 1).contains(n));
                    assert(hu.take(i as int).to_set().contains(n) == hu.take(i as int).contains(n));
                }
            }
            i += 1;
        }
        assert(hu.take(host_users@.len() as int) == hu);
        let mut g: usize = 0;
        while g < groups.len()
            invariant
                0 <= g <= groups@.len(),
                forall|n: Seq<char>| #[trigger] views_of(all@).contains(n) <==> (n == NIX_USER_NAME@ || hu.contains(n)
                    || group_member(us, gs.take(g as int), n)),
            decreases groups@.len() - g,
        {
            let mut k: usize = 0;
            while k < self.users.len()
                invariant
                    0 <= k <= us.len(),
                    forall|n: Seq<char>| #[trigger] views_of(all@).contains(n) <==> (n == NIX_USER_NAME@ || hu.contains(n)
                        || group_member(us, gs.take(g as int), n) || exists|a: int|
                        0 <= a < k && (#[trigger] us[a]).1.login@ == n && views_of(us[a].1.groups@).contains(gs[g as int])),
                decreases us.len() - k,
            {
                let u = self.users.value_at(k);
                let ghost before = views_of(all@);
                if contains_str(&u.groups, groups[g].as_str()) {
                    all.push(u.login.clone());
                    proof {
                        assert(views_of(all@) == before.push(u.login@));
                        crate::text::lemma_push_to_set(before, u.login@);
                    }
                }
                proof {
                    assert(us[k as int].1 == *u);
                    assert forall|n: Seq<char>| #[trigger] views_of(all@).contains(n) <==> (n == NIX_USER_NAME@ || hu.contains(n)
                        || group_member(us, gs.take(g as int), n) || exists|a: int|
                        0 <= a < k + 1 && (#[trigger] us[a]).1.login@ == n && views_of(us[a].1.groups@).contains(gs[g as int])) by {
                        assert(views_of(all@).to_set().contains(n) == views_of(all@).contains(n));
                        assert(before.to_set().contains(n) == before.contains(n));
                        if exists|a: int| 0 <= a < k + 1 && (#[trigger] us[a]).1.login@ == n && views_of(us[a].1.groups@).contains(gs[g as int]) {
                            let a = choose|a: int| 0 <= a < k + 1 && (#[trigger] us[a]).1.login@ == n && views_of(us[a].1.groups@).contains(gs[g as int]);
                            if a < k {
                                assert(before.contains(n));
                            }
                        }
                    }
                }
                k += 1;
            }
            proof {
                assert forall|n: Seq<char>| #[trigger] views_of(all@).contains(n) <==> (n == NIX_USER_NAME@ || hu.contains(n)
                    || group_member(us, gs.take(g + 1), n)) by {
                    if group_member(us, gs.take(g + 1), n) {
                        let (a, b) = choose|a: int, b: int| 0 <= a < us.len() && 0 <= b < gs.take(g + 1).len()
                            && (#[trigger] us[a]).1.login@ == n && views_of(us[a].1.groups@).contains(#[trigger] gs.take(g + 1)[b]);
                        if b < g {
                            assert(gs.take(g as int)[b] == gs.take(g + 1)[b]);
                            assert(group_member(us, gs.take(g as int), n));
                        } else {
                            assert(gs.take(g + 1)[b] == gs[g as int]);
                        }
                    }
                    if group_member(us, gs.take(g as int), n) {
                        let (a, b) = choose|a: int, b: int| 0 <= a < us.len() && 0 <= b < gs.take(g as int).len()
                            && (#[trigger] us[a]).1.login@ == n && views_of(us[a].1.groups@).contains(#[trigger] gs.take(g as int)[b]);
                        assert(gs.take(g + 1)[b] == gs.take(g as int)[b]);
                    }
                    if exists|a: int| 0 <= a < us.len() && (#[trigger] us[a]).1.login@ == n && views_of(us[a].1.groups@).contains(gs[g as int]) {
                        let a = choose|a: int| 0 <= a < us.len() && (#[trigger] us[a]).1.login@ == n && views_of(us[a].1.groups@).contains(gs[g as int]);
                        assert(gs.take(g + 1)[g as int] == gs[g as int]);
                    }
                }
            }
            g += 1;
        }
        assert(gs.take(groups@.len() as int) == gs);
        let r = sort_dedup(&all);
        proof {
            assert forall|n: Seq<char>| #[trigger] views_of(r@).contains(n) <==> views_of(all@).contains(n) by {
                assert(views_of(r@).to_set().contains(n) == views_of(r@).contains(n));
                assert(views_of(all@).to_set().contains(n) == views_of(all@).contains(n));
            }
        }
        r
    }

    /// Records the DNS entry `"hostname,hostname.zone_domain,ip"`; an empty
    /// address records nothing.
    fn register_host_record(&mut self, hostname: &str, zone_domain: &str, ip: &str)
        ensures
            ip@.len() > 0 ==> views_of(final(self).host_records@) == views_of(old(self).host_records@).push(
                host_record(hostname@, zone_domain@, ip@),
            ),
            ip@.len() == 0 ==> final(self).host_records == old(self).host_records,
            final(self).users == old(self).users,
            final(self).hosts == old(self).hosts,
            final(self).network == old(self).network,
    {
        if chars_of(ip).len() > 0 {
            let mut rec = owned(hostname);
            push_str(&mut rec, ",");
            push_str(&mut rec, hostname);
            push_str(&mut rec, ".");
            push_str(&mut rec, zone_domain);
            push_str(&mut rec, ",");
            push_str(&mut rec, ip);
            let ghost before = self.host_records@;
            self.host_records.push(rec);
            assert(views_of(self.host_records@) == views_of(before).push(rec@));
        }
    }

    /// Zone and address of a host: from the `zone:` shorthand
    /// `"<name>[:<suffix>]"`, else from `ipv4.external` (external zone).
    fn extract_zone_and_ip(&self, host: &HostEntry, hostname: &str) -> (r: Result<(String, Option<String>)>)
        requires
            self.wf(),
        ensures
            match zone_and_ip(self.network.zones@, *host) {
                Some(p) => r matches Ok((z, ip)) && z@ == p.0 && opt_view(ip) == p.1,
                None => r is Err && r->Err_0 is Validation,
            },
    {
        if let Some(zone_field) = &host.zone {
            let v = chars_of(zone_field.as_str());
            let (zone_name, suffix) = match crate::text::find_char(v.as_slice(), ':') {
                Some(k) => {
                    proof {
                        crate::text::lemma_first_index_of(v@, ':');
                    }
                    assert(k < v.len());
                    (crate::text::string_of_range(v.as_slice(), 0, k), crate::text::string_of_range(v.as_slice(), k + 1, v.len()))
                },
                None => (zone_field.clone(), String::new()),
            };
            proof {
                match first_index_of(v@, ':') {
                    Some(k) => {
                        assert(v@.subrange(0, k) == v@.take(k));
                        assert(v@.subrange(k + 1, v@.len() as int) == v@.skip(k + 1));
                    },
                    None => {},
                }
            }
            let ip = if chars_of(suffix.as_str()).len() == 0 {
                None
            } else {
                let mut ip = match self.network.get_zone(zone_name.as_str()) {
                    Ok(z) => owned(z.ip_prefix()),
                    Err(_) => String::new(),
                };
                push_str(&mut ip, ".");
                push_str(&mut ip, suffix.as_str());
                Some(ip)
            };
            return Ok((zone_name, ip));
        }
        if let Some(v) = &host.ipv4 {
            if let Some(ext) = &v.external {
                return Ok((owned(EXTERNAL_ZONE_KEY), Some(ext.clone())));
            }
        }
        let mut msg = owned("A zone name or ipv4 is required for \"");
        push_str(&mut msg, hostname);
        push_str(&mut msg, "\"");
        Err(NixError::validation(msg))
    }
}

impl Configuration {
    /// Builds the host of a static entry, without registering it.
    #[verifier::rlimit(30)]
    fn prepare_static_host(&self, h: &HostEntry, files: &ProjectFiles) -> (r: Result<(Host, String, Option<String>)>)
        requires
            self.wf(),
            entry_maps_wf(*h),
        ensures
            r is Ok <==> host_prepared_ok(*self, *h, *files),
            r matches Ok((x, zone, ip)) ==> host_built(x, *self, *h, *files) && zone@ == (zone_and_ip(
                self.network.zones@,
                *h,
            )->0).0 && opt_view(ip) == (zone_and_ip(self.network.zones@, *h)->0).1,
            r is Err ==> r->Err_0 is Validation,
    {
        let hostname = match &h.hostname {
            Some(s) => s.as_str(),
            None => return Err(NixError::validation(owned("A hostname is required"))),
        };
        let name = match &h.name {
            Some(s) => s.as_str(),
            None => {
                let mut msg = owned("A name is required for \"");
                push_str(&mut msg, hostname);
                push_str(&mut msg, "\"");
                return Err(NixError::validation(msg));
            },
        };
        let profile = match &h.profile {
            Some(s) => s.as_str(),
            None => {
                let mut msg = owned("A host profile is required for \"");
                push_str(&mut msg, hostname);
                push_str(&mut msg, "\"");
                return Err(NixError::validation(msg));
            },
        };
        let (zone_name, ip) = self.extract_zone_and_ip(h, hostname)?;
        let zone_domain: String = if str_eq(zone_name.as_str(), EXTERNAL_ZONE_KEY) {
            self.network.config.domain.clone()
        } else {
            owned(self.network.get_zone(zone_name.as_str())?.domain())
        };
        let groups: Vec<String> = match &h.groups {
            Some(g) => crate::text::clone_strings(g),
            None => Vec::new(),
        };
        let host_users: Vec<String> = match &h.users {
            Some(u) => crate::text::clone_strings(u),
            None => Vec::new(),
        };
        let users = self.expand_users(&host_users, &groups);
        let services = parse_services(h.services.as_ref(), hostname)?;
        let features: Vec<String> = match &h.features {
            Some(f) => crate::text::clone_strings(f),
            None => Vec::new(),
        };
        let tags: Vec<String> = match &h.tags {
            Some(t) => crate::text::clone_strings(t),
            None => Vec::new(),
        };
        let mut host = Host::new(hostname);
        host.name = owned(name);
        host.zone = zone_name.clone();
        host.profile = owned(profile);
        host.arch = clone_opt(&h.arch);
        host.zone_domain = zone_domain;
        host.network_domain = self.network.config.domain.clone();
        host.groups = groups;
        let ghost hu = views_of(host_users@);
        let ghost gs = views_of(groups@);
        proof {
            assert(hu == opt_views(h.users));
            assert(gs == opt_views(h.groups));
            assert((forall|i: int| 0 <= i < users@.len() ==> pattern_accepts(RE_LOGIN@, #[trigger] users@[i]@))
                <==> (forall|n: Seq<char>| #[trigger] expanded_user(self.users@, hu, gs, n) ==> pattern_accepts(RE_LOGIN@, n))) by {
                if forall|i: int| 0 <= i < users@.len() ==> pattern_accepts(RE_LOGIN@, #[trigger] users@[i]@) {
                    assert forall|n: Seq<char>| #[trigger] expanded_user(self.users@, hu, gs, n) implies pattern_accepts(RE_LOGIN@, n) by {
                        assert(views_of(users@).contains(n));
                        let j = choose|j: int| 0 <= j < views_of(users@).len() && views_of(users@)[j] == n;
                        assert(users@[j]@ == n);
                    }
                }
                if forall|n: Seq<char>| #[trigger] expanded_user(self.users@, hu, gs, n) ==> pattern_accepts(RE_LOGIN@, n) {
                    assert forall|i: int| 0 <= i < users@.len() implies pattern_accepts(RE_LOGIN@, #[trigger] users@[i]@) by {
                        assert(views_of(users@)[i] == users@[i]@);
                        assert(views_of(users@).contains(users@[i]@));
                    }
                }
            }
        }
        host.set_users(users)?;
        host.set_features(&features);
        host.tags = tags;
        host.ip = clone_opt(&ip);
        host.vpn_ip = match &h.ipv4 {
            Some(v) => clone_opt(&v.internal),
            None => None,
        };
        host.services = services;
        host.set_disko(disko_profile(h), disko_devices(h), files)?;
        proof {
            let x = host;
            let c = *self;
            let (zone, ipz) = zone_and_ip(c.network.zones@, *h)->0;
            assert(x.hostname@ == h.hostname->0@);
            assert(x.name@ == h.name->0@);
            assert(x.zone@ == zone);
            assert(x.profile@ == h.profile->0@);
            assert(x.arch == h.arch);
            assert(x.zone_domain@ == zone_domain_of(c.network, zone)->0);
            assert(x.network_domain@ == c.network.config.domain@);
            assert(views_of(x.groups@) == opt_views(h.groups));
            assert(strictly_sorted(views_of(x.users@)));
            assert(x.features_view() == features_map(opt_views(h.features), zone));
            assert(views_of(x.tags@) == opt_views(h.tags));
            assert(opt_view(x.ip) == ipz);
            assert(x.mac is None);
            assert(x.services.wf() && x.services@ == entry_services(*h));
        }
        Ok((host, zone_name, ip))
    }
}

impl Configuration {
    /// Loads a static host: builds it, declares it in its zone (address,
    /// DHCP reservation, aliases), registers its services, publishes its DNS
    /// record and files it under its hostname.
    #[verifier::rlimit(40)]
    fn load_static_host(&mut self, h: &HostEntry, files: &ProjectFiles) -> (r: Result<()>)
        requires
            old(self).wf(),
            entry_maps_wf(*h),
        ensures
            final(self).wf(),
            r is Ok <==> static_host_ok(*old(self), *h, *files),
            r is Ok ==> static_host_loaded(*final(self), *old(self), *h, *files),
            r is Err ==> r->Err_0 is Validation,
    {
        reveal(static_host_ok);
        reveal(static_host_loaded);
        let ghost c = *self;
        let (host, zone_name, ip) = self.prepare_static_host(h, files)?;
        let mac = mac_single(&h.mac);
        let aliases: Vec<String> = match &h.aliases {
            Some(a) => crate::text::clone_strings(a),
            None => Vec::new(),
        };
        let hostname = host.hostname.clone();
        let ip_ref: Option<&str> = match &ip {
            Some(s) => Some(s.as_str()),
            None => None,
        };
        let mac_ref: Option<&str> = match &mac {
            Some(s) => Some(s.as_str()),
            None => None,
        };
        let ghost zs = self.network.zones@;
        let ghost p = crate::strmap::key_pos(zs, zone_name@);
        let zone = self.network.get_zone_mut(zone_name.as_str())?;
        let ghost z0 = *zone;
        let zr = register_in_zone(zone, hostname.as_str(), ip_ref, mac_ref, &aliases);
        proof {
            let n = self.network.zones@;
            assert(n == zs.update(p, (zone_name@, n[p].1)));
            assert(n[p].1.name == z0.name);
            assert forall|i: int| 0 <= i < n.len() implies (#[trigger] n[i]).1.wf() && n[i].1.name@ == n[i].0 by {
                if i != p {
                    assert(n[i] == zs[i]);
                }
            }
            assert(keys_unique(n)) by {
                assert forall|i: int, j: int| 0 <= i < n.len() && 0 <= j < n.len() && i != j implies #[trigger] n[i].0
                    != #[trigger] n[j].0 by {
                    assert(n[i].0 == zs[i].0);
                    assert(n[j].0 == zs[j].0);
                }
            }
            assert(self.network.wf());
        }
        zr?;
        self.network.register_services(hostname.as_str(), zone_name.as_str(), &host.services)?;
        if let Some(ip_str) = &ip {
            let zd = host.zone_domain.clone();
            self.register_host_record(hostname.as_str(), zd.as_str(), ip_str.as_str());
        }
        let ghost x = host;
        proof {
            crate::strmap::lemma_insert_entry(self.hosts@, hostname@, host);
        }
        self.hosts.insert(hostname, host);
        proof {
            crate::strmap::lemma_insert_entry(self.hosts@, x.hostname@, x);
        }
        Ok(())
    }
}

/// Replacing zone `i` by a well-formed zone of the same name keeps the
/// zone map well formed and updates its summary at `i`.
proof fn lemma_zone_update(zs: Seq<(Seq<char>, NixZone)>, i: int, z: NixZone)
    requires
        0 <= i < zs.len(),
        keys_unique(zs),
        forall|j: int| 0 <= j < zs.len() ==> (#[trigger] zs[j]).1.wf() && zs[j].1.name@ == zs[j].0,
        z.wf(),
        z.name == zs[i].1.name,
    ensures
        keys_unique(zs.update(i, (zs[i].0, z))),
        forall|j: int| 0 <= j < zs.len() ==> (#[trigger] zs.update(i, (zs[i].0, z))[j]).1.wf()
            && zs.update(i, (zs[i].0, z))[j].1.name@ == zs.update(i, (zs[i].0, z))[j].0,
        abs_of(zs.update(i, (zs[i].0, z))) == abs_of(zs).update(i, (zs[i].0, zone_abs(z))),
{
    let n = zs.update(i, (zs[i].0, z));
    assert forall|a: int, b: int| 0 <= a < n.len() && 0 <= b < n.len() && a != b implies #[trigger] n[a].0
        != #[trigger] n[b].0 by {
        assert(n[a].0 == zs[a].0);
        assert(n[b].0 == zs[b].0);
    }
    assert(abs_of(n) =~= abs_of(zs).update(i, (zs[i].0, zone_abs(z))));
}

/// `zone_rest` is reflexive on well-formed zones and transitive.
proof fn lemma_zone_rest(a: NixZone, b: NixZone, c: NixZone)
    ensures
        a.wf() ==> zone_rest(a, a),
        zone_rest(a, b) && zone_rest(b, c) ==> zone_rest(a, c),
{
}

/// The network's zones are those of `o`, each related to its former self
/// by `zone_rest`.
pub open spec fn zones_rest(n: Seq<(Seq<char>, NixZone)>, o: Seq<(Seq<char>, NixZone)>) -> bool {
    &&& n.len() == o.len()
    &&& forall|j: int| 0 <= j < o.len() ==> (#[trigger] n[j]).0 == o[j].0 && zone_rest(n[j].1, o[j].1)
}

/// Everything of the network but its zones is unchanged.
pub open spec fn net_rest(n: NixNetwork, o: NixNetwork) -> bool {
    &&& n.services == o.services
    &&& n.config == o.config
    &&& n.registry == o.registry
    &&& n.uniq_services == o.uniq_services
    &&& n.global_service_domains == o.global_service_domains
}

/// Names `host` the gateway of `zone`, with LAN address `lan` or tailnet
/// address `vpn`.
fn set_gateway(net: &mut NixNetwork, zone: &str, host: &str, lan: Option<&str>, vpn: Option<&str>) -> (r: Result<()>)
    requires
        old(net).wf(),
    ensures
        final(net).wf(),
        r is Ok <==> gateway_set(abs_of(old(net).zones@), zone@, host@, opt_str_view(lan), opt_str_view(vpn)).0,
        r is Ok ==> abs_of(final(net).zones@) == gateway_set(
            abs_of(old(net).zones@),
            zone@,
            host@,
            opt_str_view(lan),
            opt_str_view(vpn),
        ).1,
        zones_rest(final(net).zones@, old(net).zones@),
        net_rest(*final(net), *old(net)),
        r is Err ==> r->Err_0 is Validation,
{
    let ghost zs = net.zones@;
    proof {
        assert forall|j: int| 0 <= j < zs.len() implies (#[trigger] zs[j]).0 == zs[j].0 && zone_rest(zs[j].1, zs[j].1) by {
            lemma_zone_rest(zs[j].1, zs[j].1, zs[j].1);
        }
        crate::strmap::lemma_map_vals_lookup(zs, zone@, |z: NixZone| zone_abs(z));
    }
    let p = net.zone_position(zone)?;
    let z = net.zones.value_mut(p);
    let ghost z0 = *z;
    let hr = z.set_gateway_hostname(host);
    if hr.is_ok() {
        if let Some(l) = lan {
            z.set_gateway_lan_ip(l);
        }
        if let Some(v) = vpn {
            z.set_gateway_vpn_ipv4(v);
        }
    }
    proof {
        let z1 = net.zones@[p as int].1;
        assert(net.zones@ == zs.update(p as int, (zs[p as int].0, z1)));
        lemma_zone_update(zs, p as int, z1);
        assert(zone_rest(z1, z0));
        assert(abs_of(zs)[p as int] == (zs[p as int].0, zone_abs(z0)));
        assert forall|j: int| 0 <= j < zs.len() implies (#[trigger] net.zones@[j]).0 == zs[j].0 && zone_rest(
            net.zones@[j].1,
            zs[j].1,
        ) by {
            if j != p {
                assert(net.zones@[j] == zs[j]);
                lemma_zone_rest(zs[j].1, zs[j].1, zs[j].1);
            }
        }
    }
    hr
}

/// Declares the external host `host` (forced) in every local zone.
#[verifier::loop_isolation(false)]
fn replicate_host(net: &mut NixNetwork, host: &str, ip: Option<&str>) -> (r: Result<()>)
    requires
        old(net).wf(),
    ensures
        final(net).wf(),
        r is Ok <==> replicate_upto(abs_of(old(net).zones@), host@, opt_str_view(ip), old(net).zones@.len()).0,
        r is Ok ==> abs_of(final(net).zones@) == replicate_upto(
            abs_of(old(net).zones@),
            host@,
            opt_str_view(ip),
            old(net).zones@.len(),
        ).1,
        zones_rest(final(net).zones@, old(net).zones@),
        net_rest(*final(net), *old(net)),
        r is Err ==> r->Err_0 is Validation,
{
    let ghost zs = net.zones@;
    let ghost st = abs_of(zs);
    let n = net.zones.len();
    let mut i: usize = 0;
    proof {
        assert forall|j: int| 0 <= j < zs.len() implies (#[trigger] zs[j]).0 == zs[j].0 && zone_rest(zs[j].1, zs[j].1) by {
            lemma_zone_rest(zs[j].1, zs[j].1, zs[j].1);
        }
    }
    while i < n
        invariant
            0 <= i <= n,
            n == zs.len(),
            net.wf(),
            replicate_upto(st, host@, opt_str_view(ip), i as nat).0,
            abs_of(net.zones@) == replicate_upto(st, host@, opt_str_view(ip), i as nat).1,
            zones_rest(net.zones@, zs),
            net_rest(*net, *old(net)),
        decreases n - i,
    {
        let ghost cur = net.zones@;
        let ghost s = replicate_upto(st, host@, opt_str_view(ip), i as nat).1;
        assert(s.len() == st.len()) by {
            lemma_replicate_len(st, host@, opt_str_view(ip), i as nat);
        }
        assert(s[i as int] == (cur[i as int].0, zone_abs(cur[i as int].1)));
        assert(cur[i as int].0 == zs[i as int].0);
        let external = str_eq(net.zones.key_at(i).as_str(), EXTERNAL_ZONE_KEY);
        if !external {
            let z = net.zones.value_mut(i);
            let ghost z0 = *z;
            let hr = z.register_host(host, ip, true);
            proof {
                let z1 = net.zones@[i as int].1;
                assert(net.zones@ == cur.update(i as int, (cur[i as int].0, z1)));
                lemma_zone_update(cur, i as int, z1);
                assert(zone_rest(z1, z0));
                lemma_zone_rest(z1, z0, zs[i as int].1);
                assert forall|j: int| 0 <= j < zs.len() implies (#[trigger] net.zones@[j]).0 == zs[j].0 && zone_rest(
                    net.zones@[j].1,
                    zs[j].1,
                ) by {
                    if j != i {
                        assert(net.zones@[j] == cur[j]);
                    }
                }
            }
            if hr.is_err() {
                proof {
                    lemma_replicate_stuck(st, host@, opt_str_view(ip), (i + 1) as nat, n as nat);
                }
                return hr;
            }
        }
        i += 1;
    }
    Ok(())
}

/// `replicate_upto` keeps the zones (and so their number).
proof fn lemma_replicate_len(st: Seq<(Seq<char>, ZoneAbs)>, host: Seq<char>, ip: Option<Seq<char>>, i: nat)
    requires
        i <= st.len(),
    ensures
        replicate_upto(st, host, ip, i).1.len() == st.len(),
        forall|j: int| 0 <= j < st.len() ==> (#[trigger] replicate_upto(st, host, ip, i).1[j]).0 == st[j].0,
    decreases i,
{
    if i > 0 {
        lemma_replicate_len(st, host, ip, (i - 1) as nat);
    }
}

/// Once `replicate_upto` fails it keeps failing.
proof fn lemma_replicate_stuck(st: Seq<(Seq<char>, ZoneAbs)>, host: Seq<char>, ip: Option<Seq<char>>, i: nat, k: nat)
    requires
        i <= k,
        !replicate_upto(st, host, ip, i).0,
    ensures
        !replicate_upto(st, host, ip, k).0,
    decreases k - i,
{
    if i < k {
        lemma_replicate_stuck(st, host, ip, i, (k - 1) as nat);
    }
}

/// `zones_rest` is transitive.
proof fn lemma_zones_rest_trans(a: Seq<(Seq<char>, NixZone)>, b: Seq<(Seq<char>, NixZone)>, c: Seq<(Seq<char>, NixZone)>)
    requires
        zones_rest(a, b),
        zones_rest(b, c),
    ensures
        zones_rest(a, c),
{
    assert forall|j: int| 0 <= j < c.len() implies (#[trigger] a[j]).0 == c[j].0 && zone_rest(a[j].1, c[j].1) by {
        assert(b[j].0 == c[j].0);
        lemma_zone_rest(a[j].1, b[j].1, c[j].1);
    }
}

/// Once `populate_fold` fails it keeps failing.
proof fn lemma_populate_stuck(st: Seq<(Seq<char>, ZoneAbs)>, hosts: Seq<HostSnap>, i: int)
    requires
        0 <= i <= hosts.len(),
        !populate_fold(st, hosts.take(i)).0,
    ensures
        !populate_fold(st, hosts).0,
    decreases hosts.len() - i,
{
    if i < hosts.len() {
        assert(hosts.take(i + 1).drop_last() == hosts.take(i));
        lemma_populate_stuck(st, hosts, i + 1);
    } else {
        assert(hosts.take(i) == hosts);
    }
}

pub open spec fn snap_view(t: (String, String, Option<String>, Option<String>)) -> HostSnap {
    (t.0@, t.1@, opt_view(t.2), opt_view(t.3))
}

/// The last loading step for one host (see `populate_step`).
fn populate_one(net: &mut NixNetwork, host: &str, zone: &str, ip: Option<&str>, vpn: Option<&str>) -> (r: Result<()>)
    requires
        old(net).wf(),
    ensures
        final(net).wf(),
        r is Ok <==> populate_step(abs_of(old(net).zones@), (host@, zone@, opt_str_view(ip), opt_str_view(vpn))).0,
        r is Ok ==> abs_of(final(net).zones@) == populate_step(
            abs_of(old(net).zones@),
            (host@, zone@, opt_str_view(ip), opt_str_view(vpn)),
        ).1,
        zones_rest(final(net).zones@, old(net).zones@),
        net_rest(*final(net), *old(net)),
        r is Err ==> r->Err_0 is Validation,
{
    let ghost zs = net.zones@;
    proof {
        reveal_strlit(".1.1");
        assert forall|j: int| 0 <= j < zs.len() implies (#[trigger] zs[j]).0 == zs[j].0 && zone_rest(zs[j].1, zs[j].1) by {
            lemma_zone_rest(zs[j].1, zs[j].1, zs[j].1);
        }
    }
    let external = str_eq(zone, EXTERNAL_ZONE_KEY);
    if !external {
        if let Some(ip_str) = ip {
            if crate::text::ends_with(ip_str, ".1.1") {
                return set_gateway(net, zone, host, Some(ip_str), None);
            }
        }
        return Ok(());
    }
    let ghost z1 = net.zones@;
    replicate_host(net, host, ip)?;
    let ghost z2 = net.zones@;
    proof {
        lemma_zones_rest_trans(z2, z1, zs);
    }
    if let Some(v) = vpn {
        let gr = set_gateway(net, EXTERNAL_ZONE_KEY, host, None, Some(v));
        proof {
            lemma_zones_rest_trans(net.zones@, z2, zs);
        }
        return gr;
    }
    Ok(())
}

impl Configuration {
    /// The last loading step: each local host whose address ends in `.1.1`
    /// becomes its zone's gateway; each external host is declared in every
    /// local zone and, with a tailnet address, becomes the external zone's
    /// gateway. Hosts are taken in declaration order.
    #[verifier::loop_isolation(false)]
    fn populate_zones(&mut self) -> (r: Result<()>)
        requires
            old(self).wf(),
        ensures
            final(self).wf(),
            r is Ok <==> populate_fold(abs_of(old(self).network.zones@), snaps_of(old(self).hosts@)).0,
            r is Ok ==> abs_of(final(self).network.zones@) == populate_fold(
                abs_of(old(self).network.zones@),
                snaps_of(old(self).hosts@),
            ).1,
            zones_rest(final(self).network.zones@, old(self).network.zones@),
            net_rest(final(self).network, old(self).network),
            final(self).users == old(self).users,
            final(self).hosts == old(self).hosts,
            final(self).host_records == old(self).host_records,
            r is Err ==> r->Err_0 is Validation,
    {
        let ghost all = snaps_of(self.hosts@);
        let ghost st = abs_of(self.network.zones@);
        let ghost zs = self.network.zones@;
        let mut snaps: Vec<(String, String, Option<String>, Option<String>)> = Vec::new();
        let mut i: usize = 0;
        while i < self.hosts.len()
            invariant
                0 <= i <= self.hosts@.len(),
                snaps@.len() == i,
                forall|j: int| 0 <= j < i ==> snap_view(#[trigger] snaps@[j]) == all[j],
            decreases self.hosts@.len() - i,
        {
            let h = self.hosts.value_at(i);
            snaps.push((h.hostname.clone(), h.zone.clone(), clone_opt(&h.ip), clone_opt(&h.vpn_ip)));
            i += 1;
        }
        proof {
            assert forall|j: int| 0 <= j < zs.len() implies (#[trigger] zs[j]).0 == zs[j].0 && zone_rest(zs[j].1, zs[j].1) by {
                lemma_zone_rest(zs[j].1, zs[j].1, zs[j].1);
            }
            assert(all.take(0) =~= Seq::<HostSnap>::empty());
        }
        let mut k: usize = 0;
        while k < snaps.len()
            invariant
                0 <= k <= snaps@.len(),
                snaps@.len() == all.len(),
                forall|j: int| 0 <= j < all.len() ==> snap_view(#[trigger] snaps@[j]) == all[j],
                self.wf(),
                populate_fold(st, all.take(k as int)).0,
                abs_of(self.network.zones@) == populate_fold(st, all.take(k as int)).1,
                zones_rest(self.network.zones@, zs),
                net_rest(self.network, old(self).network),
                self.users == old(self).users,
                self.hosts == old(self).hosts,
                self.host_records == old(self).host_records,
            decreases snaps@.len() - k,
        {
            let ghost before = self.network.zones@;
            let t = &snaps[k];
            let ip: Option<&str> = match &t.2 {
                Some(s) => Some(s.as_str()),
                None => None,
            };
            let vpn: Option<&str> = match &t.3 {
                Some(s) => Some(s.as_str()),
                None => None,
            };
            let pr = populate_one(&mut self.network, t.0.as_str(), t.1.as_str(), ip, vpn);
            proof {
                assert(snap_view(snaps@[k as int]) == all[k as int]);
                assert((t.0@, t.1@, opt_str_view(ip), opt_str_view(vpn)) == all[k as int]);
                assert(all.take(k + 1).drop_last() == all.take(k as int));
                assert(all.take(k + 1).last() == all[k as int]);
                lemma_zones_rest_trans(self.network.zones@, before, zs);
            }
            if pr.is_err() {
                proof {
                    lemma_populate_stuck(st, all, k + 1);
                }
                return pr;
            }
            k += 1;
        }
        assert(all.take(all.len() as int) == all);
        Ok(())
    }
}

/// Expands the `hosts:` list into concrete host entries: static entries
/// first, then the members of `range:` groups, then those of `hosts:` list
/// groups, each run in declaration order.
#[verifier::loop_isolation(false)]
pub fn expand_hosts(hosts: &Vec<HostEntry>) -> (r: Result<Vec<HostEntry>>)
    ensures
        r is Ok <==> forall|k: int| 0 <= k < hosts@.len() ==> group_ok(#[trigger] hosts@[k]),
        r matches Ok(out) ==> expanded(out@, hosts@),
        r is Err ==> r->Err_0 is Validation || r->Err_0 is Generate,
{
    reveal(expanded);
    let ghost hs = hosts@;
    let mut statics: Vec<HostEntry> = Vec::new();
    let mut ranged: Vec<HostEntry> = Vec::new();
    let mut listed: Vec<HostEntry> = Vec::new();
    let mut k: usize = 0;
    while k < hosts.len()
        invariant
            0 <= k <= hs.len(),
            forall|a: int| 0 <= a < k ==> group_ok(#[trigger] hs[a]),
            statics@.len() == statics_of(hs.take(k as int)).len(),
            forall|j: int| 0 <= j < statics@.len() ==> HostEntry::same_flat(#[trigger] statics@[j], statics_of(hs.take(k as int))[j])
                && statics@[j].hosts is None,
            ranged@.len() == range_slots(hs.take(k as int)).len(),
            forall|j: int| 0 <= j < ranged@.len() ==> range_entry(#[trigger] ranged@[j], range_slots(hs.take(k as int))[j].0,
                range_slots(hs.take(k as int))[j].1),
            listed@.len() == list_slots(hs.take(k as int)).len(),
            forall|j: int| 0 <= j < listed@.len() ==> list_entry(#[trigger] listed@[j], list_slots(hs.take(k as int))[j].0,
                list_slots(hs.take(k as int))[j].1, list_slots(hs.take(k as int))[j].2, list_slots(hs.take(k as int))[j].3),
        decreases hs.len() - k,
    {
        let host = &hosts[k];
        let ghost pre = hs.take(k as int);
        let ghost nxt = hs.take(k + 1);
        assert(nxt.drop_last() == pre);
        assert(nxt.last() == *host);
        if let Some(range) = &host.range {
            let (start, end) = match parse_range(range) {
                Ok(b) => b,
                Err(e) => {
                    assert(!group_ok(hs[k as int]));
                    return Err(e);
                },
            };
            let count: i64 = end - start;
            let ghost members = range_members(*host);
            let ghost base = ranged@.len();
            let mut n: i64 = 0;
            while n <= count
                invariant
                    0 <= n <= count + 1,
                    count == end - start,
                    start == range@[0] && end == range@[1],
                    range_valid(range@),
                    members == range_members(*host),
                    ranged@.len() == base + n,
                    forall|j: int| 0 <= j < base ==> range_entry(#[trigger] ranged@[j], range_slots(pre)[j].0,
                        range_slots(pre)[j].1),
                    forall|j: int| base <= j < base + n ==> range_entry(#[trigger] ranged@[j], members[j - base].0,
                        members[j - base].1),
                    forall|i: i64| start <= i < start + n ==> #[trigger] range_entry_ok(*host, i),
                decreases count + 1 - n,
            {
                let i: i64 = start + n;
                assert(members[n as int] == (*host, i));
                match build_range_entry(host, i) {
                    Ok(e) => ranged.push(e),
                    Err(e) => {
                        assert(!range_entry_ok(*host, i));
                        assert(!group_ok(hs[k as int]));
                        return Err(e);
                    },
                }
                n += 1;
            }
            proof {
                assert(range_slots(nxt) == range_slots(pre) + members);
                assert forall|j: int| 0 <= j < ranged@.len() implies range_entry(#[trigger] ranged@[j], range_slots(nxt)[j].0,
                    range_slots(nxt)[j].1) by {
                    if j >= base {
                        assert(range_slots(nxt)[j] == members[j - base]);
                    } else {
                        assert(range_slots(nxt)[j] == range_slots(pre)[j]);
                    }
                }
                assert(group_ok(*host));
                assert(statics_of(nxt) == statics_of(pre));
                assert(list_members(*host) =~= Seq::<ListSlot>::empty());
                assert(list_slots(nxt) =~= list_slots(pre));
            }
        } else if let Some(sub) = &host.hosts {
            let ghost members = list_members(*host);
            let ghost base = listed@.len();
            let mut m: usize = 0;
            while m < sub.len()
                invariant
                    0 <= m <= sub@.len(),
                    members == list_members(*host),
                    members.len() == sub@.len(),
                    listed@.len() == base + m,
                    forall|j: int| 0 <= j < base ==> list_entry(#[trigger] listed@[j], list_slots(pre)[j].0,
                        list_slots(pre)[j].1, list_slots(pre)[j].2, list_slots(pre)[j].3),
                    forall|j: int| base <= j < base + m ==> list_entry(#[trigger] listed@[j], members[j - base].0,
                        members[j - base].1, members[j - base].2, members[j - base].3),
                    forall|a: int| 0 <= a < m ==> (#[trigger] sub@[a]).1.name is Some,
                decreases sub@.len() - m,
            {
                let hostname = sub.key_at(m);
                let host_cfg = sub.value_at(m);
                let host_name = match &host_cfg.name {
                    Some(n) => n.as_str(),
                    None => {
                        assert(!group_ok(hs[k as int]));
                        let mut msg = owned("Bad host description for ");
                        push_str(&mut msg, hostname.as_str());
                        return Err(NixError::validation(msg));
                    },
                };
                assert(members[m as int] == (*host, sub@[m as int].1, sub@[m as int].0, sub@[m as int].1.name->0@));
                listed.push(build_list_entry(host, host_cfg, hostname.as_str(), host_name));
                m += 1;
            }
            proof {
                assert(list_slots(nxt) == list_slots(pre) + members);
                assert forall|j: int| 0 <= j < listed@.len() implies list_entry(#[trigger] listed@[j], list_slots(nxt)[j].0,
                    list_slots(nxt)[j].1, list_slots(nxt)[j].2, list_slots(nxt)[j].3) by {
                    if j >= base {
                        assert(list_slots(nxt)[j] == members[j - base]);
                    } else {
                        assert(list_slots(nxt)[j] == list_slots(pre)[j]);
                    }
                }
                assert(statics_of(nxt) == statics_of(pre));
                assert(range_members(*host) =~= Seq::<(HostEntry, i64)>::empty());
                assert(range_slots(nxt) =~= range_slots(pre));
            }
        } else {
            let ghost before = statics@;
            statics.push(host.duplicate_flat());
            proof {
                assert(statics_of(nxt) == statics_of(pre).push(*host));
                assert forall|j: int| 0 <= j < statics@.len() implies HostEntry::same_flat(#[trigger] statics@[j], statics_of(nxt)[j])
                    && statics@[j].hosts is None by {
                    if j < before.len() {
                        assert(statics@[j] == before[j]);
                    }
                }
                assert(range_members(*host) =~= Seq::<(HostEntry, i64)>::empty());
                assert(range_slots(nxt) =~= range_slots(pre));
                assert(list_members(*host) =~= Seq::<ListSlot>::empty());
                assert(list_slots(nxt) =~= list_slots(pre));
            }
        }
        k += 1;
    }
    assert(hs.take(hs.len() as int) == hs);
    let ghost sv = statics@;
    let ghost rv = ranged@;
    let ghost lv = listed@;
    let mut out = statics;
    out.append(&mut ranged);
    out.append(&mut listed);
    proof {
        assert(out@ == sv + rv + lv);
        assert forall|j: int| 0 <= j < rv.len() implies #[trigger] out@[sv.len() + j] == rv[j] by {}
        assert forall|j: int| 0 <= j < lv.len() implies #[trigger] out@[sv.len() + rv.len() + j] == lv[j] by {}
    }
    Ok(out)
}

/// The expansion of well-formed entries is made of well-formed entries.
proof fn lemma_expanded_wf(out: Seq<HostEntry>, hosts: Seq<HostEntry>)
    requires
        expanded(out, hosts),
        forall|k: int| 0 <= k < hosts.len() ==> host_entry_wf(#[trigger] hosts[k]),
    ensures
        forall|j: int| 0 <= j < out.len() ==> entry_maps_wf(#[trigger] out[j]),
{
    reveal(expanded);
    lemma_slots_wf(hosts);
    let st = statics_of(hosts);
    let rs = range_slots(hosts);
    assert forall|j: int| 0 <= j < out.len() implies entry_maps_wf(#[trigger] out[j]) by {
        if j < st.len() {
            assert(HostEntry::same_flat(out[j], st[j]));
        } else if j < st.len() + rs.len() {
            let jj = j - st.len();
            assert(out[st.len() + jj] == out[j]);
        } else {
            let jj = j - st.len() - rs.len();
            assert(out[st.len() + rs.len() + jj] == out[j]);
        }
    }
}

/// The slots of well-formed entries refer to well-formed entries.
proof fn lemma_slots_wf(hosts: Seq<HostEntry>)
    requires
        forall|k: int| 0 <= k < hosts.len() ==> host_entry_wf(#[trigger] hosts[k]),
    ensures
        forall|j: int| 0 <= j < statics_of(hosts).len() ==> host_entry_wf(#[trigger] statics_of(hosts)[j]),
        forall|j: int| 0 <= j < range_slots(hosts).len() ==> host_entry_wf(#[trigger] range_slots(hosts)[j].0),
        forall|j: int| 0 <= j < list_slots(hosts).len() ==> host_entry_wf(#[trigger] list_slots(hosts)[j].0)
            && entry_maps_wf(list_slots(hosts)[j].1),
    decreases hosts.len(),
{
    if hosts.len() > 0 {
        let pre = hosts.drop_last();
        assert forall|k: int| 0 <= k < pre.len() implies host_entry_wf(#[trigger] pre[k]) by {
            assert(pre[k] == hosts[k]);
        }
        lemma_slots_wf(pre);
        let h = hosts.last();
        assert(host_entry_wf(hosts[hosts.len() - 1]));
        let lm = list_members(h);
        assert forall|j: int| 0 <= j < statics_of(hosts).len() implies host_entry_wf(#[trigger] statics_of(hosts)[j]) by {
            if j < statics_of(pre).len() {
                assert(statics_of(hosts)[j] == statics_of(pre)[j]);
            }
        }
        assert forall|j: int| 0 <= j < range_slots(hosts).len() implies host_entry_wf(#[trigger] range_slots(hosts)[j].0) by {
            if j >= range_slots(pre).len() {
                let q = j - range_slots(pre).len();
                assert(range_slots(hosts)[j] == range_members(h)[q]);
            } else {
                assert(range_slots(hosts)[j] == range_slots(pre)[j]);
            }
        }
        assert forall|j: int| 0 <= j < list_slots(hosts).len() implies host_entry_wf(#[trigger] list_slots(hosts)[j].0)
            && entry_maps_wf(list_slots(hosts)[j].1) by {
            if j >= list_slots(pre).len() {
                let q = j - list_slots(pre).len();
                assert(list_slots(hosts)[j] == lm[q]);
                let m = h.hosts->0@;
                assert(entry_maps_wf(m[q].1));
            } else {
                assert(list_slots(hosts)[j] == list_slots(pre)[j]);
            }
        }
    }
}

impl Configuration {
    /// Loads the hosts: expands the groups, loads every resulting entry as
    /// a static host (static entries, then `range:` members, then `hosts:`
    /// members), then sets the cross-zone state.
    #[verifier::loop_isolation(false)]
    #[verifier::rlimit(80)]
    fn load_hosts(&mut self, hosts: &Vec<HostEntry>, files: &ProjectFiles) -> (r: Result<()>)
        requires
            old(self).wf(),
            forall|k: int| 0 <= k < hosts@.len() ==> host_entry_wf(#[trigger] hosts@[k]),
        ensures
            final(self).wf(),
            !(forall|k: int| 0 <= k < hosts@.len() ==> group_ok(#[trigger] hosts@[k])) ==> r is Err,
            r is Ok ==> hosts_phase(*final(self), *old(self), hosts@, *files),
            r is Err ==> hosts_phase_fails(*old(self), hosts@, *files),
            r is Err ==> r->Err_0 is Validation || r->Err_0 is Generate,
    {
        let entries = expand_hosts(hosts)?;
        proof {
            lemma_expanded_wf(entries@, hosts@);
        }
        let ghost mut cs: Seq<Configuration> = seq![*self];
        let mut k: usize = 0;
        while k < entries.len()
            invariant
                0 <= k <= entries@.len(),
                self.wf(),
                expanded(entries@, hosts@),
                forall|j: int| 0 <= j < entries@.len() ==> entry_maps_wf(#[trigger] entries@[j]),
                cs[0] == *old(self),
                load_chain(cs, entries@, *files, k as int),
                cs.last() == *self,
            decreases entries@.len() - k,
        {
            let ghost c = *self;
            let lr = self.load_static_host(&entries[k], files);
            if lr.is_err() {
                proof {
                    assert(cs[k as int] == c);
                    assert(!static_host_ok(cs[k as int], entries@[k as int], *files));
                }
                return lr;
            }
            proof {
                let cs2 = cs.push(*self);
                assert forall|j: int| #![trigger cs2[j]] 0 <= j < k + 1 implies static_host_ok(cs2[j], entries@[j], *files)
                    && static_host_loaded(cs2[j + 1], cs2[j], entries@[j], *files) by {
                    if j < k {
                        assert(cs2[j] == cs[j]);
                        assert(cs2[j + 1] == cs[j + 1]);
                        assert(cs[j] == cs[j]);
                    } else {
                        assert(cs2[j] == c);
                    }
                }
                cs = cs2;
            }
            k += 1;
        }
        let ghost last = *self;
        let pr = self.populate_zones();
        proof {
            assert(cs.last() == last);
            if pr.is_err() {
                assert(cs[entries@.len() as int] == last);
            }
        }
        pr
    }
}

impl Configuration {
    /// Loads the users, in order, then the `nix` maintenance account last.
    /// UIDs and logins are tracked across users; UID 65000 and the login
    /// `nix` are reserved for the maintenance account.
    #[verifier::loop_isolation(false)]
    fn load_users(&mut self, users: &StrMap<UserCfg>, files: &ProjectFiles) -> (r: Result<()>)
        requires
            old(self).wf(),
            old(self).users@.len() == 0,
            users.wf(),
        ensures
            final(self).wf(),
            r is Ok <==> users_ok(users@, *files),
            r is Ok ==> users_phase(*final(self), *old(self), users@, *files),
            final(self).hosts == old(self).hosts,
            final(self).network == old(self).network,
            final(self).host_records == old(self).host_records,
            r is Err ==> r->Err_0 is Validation,
    {
        let ghost us = users@;
        let mut tracker: HashMap<u32, String> = HashMap::new();
        tracker.insert(NIX_USER_UID, owned(NIX_USER_NAME));
        let mut k: usize = 0;
        while k < users.len()
            invariant
                0 <= k <= us.len(),
                self.wf(),
                self.users@.len() == k,
                forall|a: int| 0 <= a < k ==> #[trigger] user_cfg_ok(us, a, *files),
                forall|a: int| 0 <= a < k ==> (#[trigger] self.users@[a]).0 == us[a].0
                    && user_built(self.users@[a].1, us[a].0, us[a].1, *files),
                tracker@.contains_key(NIX_USER_UID) && tracker@[NIX_USER_UID]@ == NIX_USER_NAME@,
                forall|a: int| 0 <= a < k ==> tracker@.contains_key((#[trigger] us[a]).1.uid)
                    && tracker@[us[a].1.uid]@ == us[a].0,
                forall|u: u32| #[trigger] tracker@.contains_key(u) ==> u == NIX_USER_UID || exists|a: int|
                    0 <= a < k && us[a].1.uid == u && tracker@[u]@ == us[a].0,
                self.hosts == old(self).hosts,
                self.network == old(self).network,
                self.host_records == old(self).host_records,
            decreases us.len() - k,
        {
            let login = users.key_at(k);
            let cfg = users.value_at(k);
            let profile: &str = match &cfg.profile {
                Some(p) => p.as_str(),
                None => DEFAULT_PROFILE,
            };
            let email: Option<&str> = match &cfg.email {
                Some(e) => Some(e.as_str()),
                None => None,
            };
            let ghost t0 = tracker@;
            proof {
                assert(us[k as int].0 == login@);
                assert(MIN_UID <= cfg.uid <= MAX_UID ==> (!t0.contains_key(cfg.uid) <==> forall|j: int| 0 <= j < k ==> (#[trigger] us[j]).1.uid != cfg.uid)) by {
                    if t0.contains_key(cfg.uid) && MIN_UID <= cfg.uid <= MAX_UID {
                        let a = choose|a: int| 0 <= a < k && us[a].1.uid == cfg.uid && t0[cfg.uid]@ == us[a].0;
                        assert(us[a].1.uid == cfg.uid);
                    }
                }
                assert(login_taken(t0, login@) <==> (login@ == NIX_USER_NAME@ || exists|j: int| 0 <= j < k && (#[trigger] us[j]).0 == login@)) by {
                    if login_taken(t0, login@) {
                        let u = choose|u: u32| t0.contains_key(u) && #[trigger] t0[u]@ == login@;
                        if u != NIX_USER_UID {
                            let a = choose|a: int| 0 <= a < k && us[a].1.uid == u && t0[u]@ == us[a].0;
                            assert(us[a].0 == login@);
                        }
                    }
                    if login@ == NIX_USER_NAME@ {
                        assert(t0[NIX_USER_UID]@ == login@);
                    }
                    if exists|j: int| 0 <= j < k && (#[trigger] us[j]).0 == login@ {
                        let j = choose|j: int| 0 <= j < k && (#[trigger] us[j]).0 == login@;
                        assert(t0.contains_key(us[j].1.uid));
                        assert(t0[us[j].1.uid]@ == login@);
                    }
                }
            }
            let built = User::build(UserBuildConfig {
                login: login.as_str(),
                uid: cfg.uid,
                name: cfg.name.as_str(),
                email,
                profile,
                groups: crate::text::clone_strings(&cfg.groups),
                disabled: cfg.disabled,
                uid_tracker: &mut tracker,
                files,
            });
            let user = match built {
                Ok(u) => u,
                Err(e) => {
                    proof {
                        assert(!user_cfg_ok(us, k as int, *files));
                        assert(!(forall|a: int| 0 <= a < us.len() ==> #[trigger] user_cfg_ok(us, a, *files)));
                    }
                    return Err(e);
                },
            };
            proof {
                assert(user_cfg_ok(us, k as int, *files));
                crate::strmap::lemma_insert_entry(self.users@, login@, user);
                assert(!crate::strmap::has_key(self.users@, login@)) by {
                    if crate::strmap::has_key(self.users@, login@) {
                        let j = choose|j: int| 0 <= j < self.users@.len() && #[trigger] self.users@[j].0 == login@;
                        assert(self.users@[j].0 == us[j].0);
                    }
                }
            }
            let ghost before = self.users@;
            self.users.insert(login.clone(), user);
            proof {
                assert(self.users@ == before.push((login@, user)));
                assert forall|a: int| 0 <= a < k + 1 implies (#[trigger] self.users@[a]).0 == us[a].0
                    && user_built(self.users@[a].1, us[a].0, us[a].1, *files) by {
                    if a < k {
                        assert(self.users@[a] == before[a]);
                    }
                }
                assert forall|u: u32| #[trigger] tracker@.contains_key(u) implies u == NIX_USER_UID || exists|a: int|
                    0 <= a < k + 1 && us[a].1.uid == u && tracker@[u]@ == us[a].0 by {
                    if u != cfg.uid && u != NIX_USER_UID {
                        assert(t0.contains_key(u));
                        let a = choose|a: int| 0 <= a < k && us[a].1.uid == u && t0[u]@ == us[a].0;
                        assert(tracker@[u] == t0[u]);
                    }
                    if u == cfg.uid {
                        assert(us[k as int].1.uid == u);
                    }
                }
                assert forall|a: int| 0 <= a < k + 1 implies tracker@.contains_key((#[trigger] us[a]).1.uid)
                    && tracker@[us[a].1.uid]@ == us[a].0 by {
                    if a < k {
                        assert(us[a].1.uid != cfg.uid);
                    }
                }
            }
            k += 1;
        }
        let profile = User::filter_profile_unchecked(NIX_USER_PROFILE, files).unwrap();
        let nix = User {
            login: owned(NIX_USER_NAME),
            uid: NIX_USER_UID,
            name: owned(NIX_USER_DISPLAY),
            email: None,
            profile,
            groups: Vec::new(),
            disabled: false,
        };
        proof {
            crate::strmap::lemma_insert_entry(self.users@, NIX_USER_NAME@, nix);
            assert(!crate::strmap::has_key(self.users@, NIX_USER_NAME@)) by {
                if crate::strmap::has_key(self.users@, NIX_USER_NAME@) {
                    let j = choose|j: int| 0 <= j < self.users@.len() && #[trigger] self.users@[j].0 == NIX_USER_NAME@;
                    assert(self.users@[j].0 == us[j].0);
                    assert(user_cfg_ok(us, j, *files));
                }
            }
        }
        let ghost before = self.users@;
        self.users.insert(owned(NIX_USER_NAME), nix);
        proof {
            assert(self.users@ == before.push((NIX_USER_NAME@, nix)));
            assert forall|a: int| 0 <= a < us.len() implies (#[trigger] self.users@[a]).0 == us[a].0
                && user_built(self.users@[a].1, us[a].0, us[a].1, *files) by {
                assert(self.users@[a] == before[a]);
            }
        }
        Ok(())
    }
}

impl Configuration {
    /// Declares extra host `hostname` of zone `zone`: address
    /// `<prefix>.<ip>`, DHCP reservation, aliases and services.
    #[verifier::rlimit(40)]
    fn load_extra_host(&mut self, zone: &str, prefix: &str, hostname: &str, e: &ExtraHost) -> (r: Result<()>)
        requires
            old(self).wf(),
            e.services matches Some(m) ==> m.wf(),
        ensures
            final(self).wf(),
            r is Ok <==> extra_ok(*old(self), zone@, prefix@, hostname@, *e),
            r is Ok ==> extra_done(*final(self), *old(self), zone@, prefix@, hostname@, *e),
            r is Err ==> r->Err_0 is Validation,
            final(self).network.config == old(self).network.config,
            final(self).users == old(self).users,
    {
        reveal(extra_ok);
        reveal(extra_done);
        let mut host_ip = owned(prefix);
        push_str(&mut host_ip, ".");
        push_str(&mut host_ip, e.ip.as_str());
        let aliases: Vec<String> = match &e.aliases {
            Some(a) => crate::text::clone_strings(a),
            None => Vec::new(),
        };
        let services = parse_services(e.services.as_ref(), hostname)?;
        let mac_ref: Option<&str> = match &e.mac {
            Some(s) => Some(s.as_str()),
            None => None,
        };
        let ghost zs = self.network.zones@;
        let ghost p = crate::strmap::key_pos(zs, zone@);
        let z = self.network.get_zone_mut(zone)?;
        let ghost z0 = *z;
        let zr = register_in_zone(z, hostname, Some(host_ip.as_str()), mac_ref, &aliases);
        proof {
            let n = self.network.zones@;
            assert(n == zs.update(p, (zone@, n[p].1)));
            assert forall|i: int| 0 <= i < n.len() implies (#[trigger] n[i]).1.wf() && n[i].1.name@ == n[i].0 by {
                if i != p {
                    assert(n[i] == zs[i]);
                }
            }
            assert(keys_unique(n)) by {
                assert forall|i: int, j: int| 0 <= i < n.len() && 0 <= j < n.len() && i != j implies #[trigger] n[i].0
                    != #[trigger] n[j].0 by {
                    assert(n[i].0 == zs[i].0);
                    assert(n[j].0 == zs[j].0);
                }
            }
        }
        zr?;
        self.network.register_services(hostname, zone, &services)
    }

    /// Declares the extra hosts of zone `zone`, in order.
    #[verifier::loop_isolation(false)]
    fn process_extra_hosts(&mut self, zone: &str, prefix: &str, extras: &StrMap<ExtraHost>) -> (r: Result<()>)
        requires
            old(self).wf(),
            forall|k: int| 0 <= k < extras@.len() ==> ((#[trigger] extras@[k]).1.services matches Some(m) ==> m.wf()),
        ensures
            final(self).wf(),
            r is Ok ==> exists|cs: Seq<Configuration>|
                cs[0] == *old(self) && extra_chain(cs, zone@, prefix@, extras@, extras@.len() as int) && cs.last()
                    == *final(self),
            r is Err ==> exists|cs: Seq<Configuration>, n: int|
                cs[0] == *old(self) && extra_chain(cs, zone@, prefix@, extras@, n) && n < extras@.len()
                    && !extra_ok(cs[n], zone@, prefix@, extras@[n].0, extras@[n].1),
            r is Err ==> r->Err_0 is Validation,
            final(self).network.config == old(self).network.config,
            final(self).users == old(self).users,
    {
        let ghost mut cs: Seq<Configuration> = seq![*self];
        let mut k: usize = 0;
        while k < extras.len()
            invariant
                0 <= k <= extras@.len(),
                self.wf(),
                cs[0] == *old(self),
                extra_chain(cs, zone@, prefix@, extras@, k as int),
                cs.last() == *self,
                self.network.config == old(self).network.config,
                self.users == old(self).users,
            decreases extras@.len() - k,
        {
            let ghost c = *self;
            let hostname = extras.key_at(k);
            let e = extras.value_at(k);
            let lr = self.load_extra_host(zone, prefix, hostname.as_str(), e);
            if lr.is_err() {
                proof {
                    assert(cs[k as int] == c);
                }
                return lr;
            }
            proof {
                let cs2 = cs.push(*self);
                assert forall|j: int| #![trigger cs2[j]] 0 <= j < k + 1 implies extra_ok(cs2[j], zone@, prefix@, extras@[j].0, extras@[j].1)
                    && extra_done(cs2[j + 1], cs2[j], zone@, prefix@, extras@[j].0, extras@[j].1) by {
                    if j < k {
                        assert(cs2[j] == cs[j]);
                        assert(cs2[j + 1] == cs[j + 1]);
                        assert(cs[j] == cs[j]);
                    } else {
                        assert(cs2[j] == c);
                    }
                }
                cs = cs2;
            }
            k += 1;
        }
        Ok(())
    }
}

impl Configuration {
    /// Adds zone `name`, configured from `cfg` with the settings it leaves
    /// unset taken from `common`.
    fn add_configured_zone(&mut self, name: &str, cfg: Option<&ZoneCfg>, common: Option<&ZoneCfg>) -> (r: Result<String>)
        requires
            old(self).wf(),
            lang_of(crate::zone::effective_locale(with_common(cfg, common), old(self).network.config.default_locale@)) is Some,
        ensures
            final(self).wf(),
            r is Ok <==> !(name@ != EXTERNAL_ZONE_KEY@ && with_common(cfg, common) is Some && with_common(cfg, common)->0.gateway is Some
                && !gateway_valid(with_common(cfg, common)->0.gateway->0)),
            r is Ok ==> zone_added(*final(self), *old(self), name@, with_common(cfg, common)) && r->Ok_0@ == prefix_in(*final(self), name@),
            final(self).network.config == old(self).network.config,
            final(self).users == old(self).users,
            r is Err ==> *final(self) == *old(self) && r->Err_0 is Validation,
    {
        reveal(zone_added);
        let mut zone = NixZone::new(name);
        let ghost z0 = zone;
        let locale = self.network.config.default_locale.clone();
        let timezone = self.network.config.default_timezone.clone();
        let domain = self.network.config.domain.clone();
        zone.register_zone_config_with(cfg, common, locale.as_str(), timezone.as_str(), domain.as_str())?;
        let prefix = owned(zone.ip_prefix());
        let ghost z = zone;
        proof {
            assert(zone_built(z, name@, with_common(cfg, common), self.network.config));
            crate::strmap::lemma_insert_entry(self.network.zones@, name@, z);
        }
        self.network.add_zone(zone);
        proof {
            assert(insert_entry(old(self).network.zones@, name@, z) == self.network.zones@);
            crate::strmap::lemma_key_pos(self.network.zones@, name@, crate::strmap::key_pos(self.network.zones@, name@));
            assert(lookup(self.network.zones@, name@) == Some(z));
        }
        Ok(prefix)
    }

    /// Loads the zones: the external zone first, then each zone block in
    /// order with its extra hosts. `common` is no zone: each setting a zone
    /// block leaves unset is taken from it, before the network default.
    #[verifier::loop_isolation(false)]
    #[verifier::rlimit(40)]
    fn load_zones(&mut self, zones: Option<&StrMap<ZoneCfg>>) -> (r: Result<()>)
        requires
            old(self).wf(),
            lang_of(old(self).network.config.default_locale@) is Some,
            zones matches Some(z) ==> z.wf() && zone_locales_ok(z@) && zone_maps_wf(z@),
        ensures
            final(self).wf(),
            r is Ok ==> zones_phase(*final(self), *old(self), zones),
            r is Err ==> zones_phase_fails(*old(self), zones),
            r is Err ==> r->Err_0 is Validation,
            final(self).users == old(self).users,
    {
        proof {
            reveal_strlit("common");
        }
        let wr = self.add_configured_zone(EXTERNAL_ZONE_KEY, None, None);
        if wr.is_err() {
            proof {
                reveal_strlit("www");
            }
            return Err(wr.unwrap_err());
        }
        let ghost c0 = *self;
        let zones = match zones {
            Some(z) => z,
            None => {
                assert(seq![c0].last() == c0);
                return Ok(());
            },
        };
        let ghost zs = zones@;
        let common = zones.get("common");
        proof {
            if common is Some {
                let p = crate::strmap::key_pos(zs, "common"@);
                assert(zs[p].1 == *common->0);
                assert(zone_locales_ok(zs) && zone_maps_wf(zs));
                assert(zs[p].1.locale matches Some(l) ==> lang_of(l@) is Some);
            }
        }
        let ghost mut cs: Seq<Configuration> = seq![*self];
        let mut k: usize = 0;
        while k < zones.len()
            invariant
                0 <= k <= zs.len(),
                self.wf(),
                zone_added(cs[0], *old(self), EXTERNAL_ZONE_KEY@, None),
                zone_chain(cs, zs, k as int),
                cs.last() == *self,
                lang_of(self.network.config.default_locale@) is Some,
                self.network.config == old(self).network.config,
                self.users == old(self).users,
            decreases zs.len() - k,
        {
            let ghost c = *self;
            let name = zones.key_at(k);
            let cfg = zones.value_at(k);
            if str_eq(name.as_str(), "common") {
                proof {
                    reveal(zone_loaded);
                    let cs2 = cs.push(*self);
                    assert forall|j: int| #![trigger cs2[j]] 0 <= j < k + 1 implies zone_loaded(cs2[j + 1], cs2[j], zs[j].0, block_cfg(zs, j)) by {
                        if j < k {
                            assert(cs2[j] == cs[j] && cs2[j + 1] == cs[j + 1]);
                            assert(cs[j] == cs[j]);
                        }
                    }
                    cs = cs2;
                }
                k += 1;
                continue;
            }
            let ghost eff = block_cfg(zs, k as int);
            proof {
                assert(zs[k as int] == (name@, *cfg));
                assert(zone_locales_ok(zs));
                assert(zs[k as int].1.locale matches Some(l) ==> lang_of(l@) is Some);
                assert(with_common(Some(cfg), common) == Some(&eff));
            }
            let pr = self.add_configured_zone(name.as_str(), Some(cfg), common);
            let prefix = match pr {
                Ok(p) => p,
                Err(e) => {
                    proof {
                        reveal(zone_fails);
                        assert(cs[k as int] == c);
                        assert(!zone_cfg_ok(name@, eff));
                    }
                    return Err(e);
                },
            };
            let ghost mid = *self;
            let extra_hosts = match (&cfg.extra_hosts, common) {
                (Some(e), _) => Some(e),
                (None, Some(m)) => match &m.extra_hosts {
                    Some(e) => Some(e),
                    None => None,
                },
                (None, None) => None,
            };
            if let Some(extra) = extra_hosts {
                proof {
                    assert(zone_maps_wf(zs));
                    assert(eff.extra_hosts == Some(*extra));
                    if cfg.extra_hosts is Some {
                        assert(zs[k as int].1.extra_hosts == Some(*extra));
                    } else {
                        let p = crate::strmap::key_pos(zs, "common"@);
                        assert(zs[p].1.extra_hosts == Some(*extra));
                    }
                }
                let er = self.process_extra_hosts(name.as_str(), prefix.as_str(), extra);
                if er.is_err() {
                    proof {
                        reveal(zone_fails);
                        assert(cs[k as int] == c);
                        let (ecs, en) = choose|ecs: Seq<Configuration>, en: int|
                            ecs[0] == mid && extra_chain(ecs, name@, prefix@, extra@, en) && en < extra@.len()
                                && !extra_ok(ecs[en], name@, prefix@, extra@[en].0, extra@[en].1);
                        assert(zone_added(mid, c, name@, Some(&eff)));
                        assert(extra_chain(ecs, name@, prefix_in(mid, name@), eff.extra_hosts->0@, en));
                        assert(zone_fails(c, name@, eff));
                    }
                    return er;
                }
            }
            proof {
                reveal(zone_loaded);
                assert(zone_added(mid, c, name@, Some(&eff)));
                assert(zone_loaded(*self, c, name@, eff));
                let cs2 = cs.push(*self);
                assert forall|j: int| #![trigger cs2[j]] 0 <= j < k + 1 implies zone_loaded(cs2[j + 1], cs2[j], zs[j].0, block_cfg(zs, j)) by {
                    if j < k {
                        assert(cs2[j] == cs[j] && cs2[j + 1] == cs[j + 1]);
                        assert(cs[j] == cs[j]);
                    } else {
                        assert(cs2[j] == c);
                    }
                }
                cs = cs2;
            }
            k += 1;
        }
        Ok(())
    }
}

impl Configuration {
    /// Builds the configuration from the checked configuration file: the
    /// network settings, the zones, the users, then the hosts.
    ///
    /// The zone blocks' locales must have a two-byte language prefix.
    #[verifier::rlimit(40)]
    pub fn load(schema: &ConfigFile, registry: ServiceRegistry, files: &ProjectFiles) -> (r: Result<Self>)
        requires
            config_file_wf(*schema),
            registry.wf(),
            schema.zones matches Some(z) ==> zone_locales_ok(z@),
        ensures
            r is Ok ==> exists|c0: Configuration, c1: Configuration, c2: Configuration, c3: Configuration|
                #![trigger initial(c0, registry), network_phase(c1, c0, network_of(schema)), zones_phase(c2, c1, zones_of(schema)), users_phase(c3, c2, schema.users@, *files)]
                initial(c0, registry) && network_phase(c1, c0, network_of(schema)) && zones_phase(
                    c2,
                    c1,
                    zones_of(schema),
                ) && users_phase(c3, c2, schema.users@, *files) && hosts_phase(r->Ok_0, c3, schema.hosts@, *files),
            r is Ok ==> network_cfg_valid(network_of(schema)) && users_ok(schema.users@, *files),
            r is Err ==> {
                ||| !network_cfg_valid(network_of(schema))
                ||| lang_of(eff_locale(network_of(schema))) is None
                ||| exists|c0: Configuration, c1: Configuration|
                    #![trigger initial(c0, registry), network_phase(c1, c0, network_of(schema))]
                    initial(c0, registry) && network_phase(c1, c0, network_of(schema)) && {
                        ||| zones_phase_fails(c1, zones_of(schema))
                        ||| exists|c2: Configuration|
                            #![trigger zones_phase(c2, c1, zones_of(schema))]
                            zones_phase(c2, c1, zones_of(schema)) && {
                                ||| !users_ok(schema.users@, *files)
                                ||| exists|c3: Configuration|
                                    #![trigger users_phase(c3, c2, schema.users@, *files)]
                                    users_phase(c3, c2, schema.users@, *files) && hosts_phase_fails(c3, schema.hosts@, *files)
                            }
                    }
            },
    {
        let mut network = NixNetwork::new();
        network.registry = registry;
        let mut cfg = Configuration { users: StrMap::new(), hosts: StrMap::new(), network, host_records: Vec::new() };
        let ghost c0 = cfg;
        let net_cfg = schema.network.as_ref();
        assert(net_cfg == network_of(schema));
        cfg.network.register_network_config(net_cfg)?;
        let ghost c1 = cfg;
        if !has_lang(cfg.network.config.default_locale.as_str()) {
            return Err(NixError::validation(owned("Bad default network locale syntax")));
        }
        let zones_cfg = schema.zones.as_ref();
        assert(zones_cfg == zones_of(schema));
        proof {
            assert(initial(c0, registry));
            assert(network_phase(c1, c0, network_of(schema)));
        }
        let zr = cfg.load_zones(zones_cfg);
        if zr.is_err() {
            proof {
                assert(zones_phase_fails(c1, zones_of(schema)));
            }
            return Err(zr.unwrap_err());
        }
        let ghost c2 = cfg;
        proof {
            assert(zones_phase(c2, c1, zones_of(schema)));
        }
        let ur = cfg.load_users(&schema.users, files);
        if ur.is_err() {
            proof {
                assert(!users_ok(schema.users@, *files));
            }
            return Err(ur.unwrap_err());
        }
        let ghost c3 = cfg;
        proof {
            assert(users_phase(c3, c2, schema.users@, *files));
        }
        let hr = cfg.load_hosts(&schema.hosts, files);
        if hr.is_err() {
            proof {
                assert(hosts_phase_fails(c3, schema.hosts@, *files));
            }
            return Err(hr.unwrap_err());
        }
        proof {
            assert(hosts_phase(cfg, c3, schema.hosts@, *files));
        }
        Ok(cfg)
    }
}

/// Whether `locale` has a two-byte language prefix.
fn has_lang(locale: &str) -> (r: bool)
    ensures
        r == lang_of(locale@) is Some,
{
    let v = crate::text::chars_of(locale);
    if v.len() >= 1 && crate::zone::char_utf8_len(v[0]) == 2 {
        true
    } else {
        v.len() >= 2 && crate::zone::char_utf8_len(v[0]) == 1 && crate::zone::char_utf8_len(v[1]) == 1
    }
}

} // verus!
