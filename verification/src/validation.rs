//! Syntax rules of the configuration values (host names, logins, MAC and
//! IPv4 addresses, locales, ...) and the tailnet address range.
use vstd::prelude::*;
use crate::error::{NixError, Result};
use crate::strmap::{has_key, lookup, StrMap};
use crate::text::{
    all_digits, chars_of, decimal_nat, digit_char, digit_value, digits_value, first_index_of, is_ascii_digit,
    lemma_first_index_of, parse_u32, parse_u32_chars, push_str, split, split_char,
};

verus! {

pub const RE_HOSTNAME: &'static str = r"^[a-zA-Z][a-zA-Z0-9_-]{1,59}$";
pub const RE_FQDN: &'static str = r"^(?:[a-zA-Z0-9](?:[a-zA-Z0-9-]{0,61}[a-zA-Z0-9])?\.)+[A-Za-z]{2,63}$";
pub const RE_LOGIN: &'static str = r"^[a-zA-Z][a-zA-Z0-9_-]{1,59}$";
pub const RE_IDENTIFIER: &'static str = r"^[a-z][a-zA-Z0-9-]{0,62}[a-zA-Z0-9]$";
pub const RE_DEVICE: &'static str = r"^/dev(/[a-zA-Z0-9_-]+){1,3}$";
pub const RE_MAC_ADDRESS: &'static str = r"^[0-9a-f]{2}:[0-9a-f]{2}:[0-9a-f]{2}:[0-9a-f]{2}:[0-9a-f]{2}:[0-9a-f]{2}$";
pub const RE_NAME: &'static str = r"^.{3,128}$";
pub const RE_IPV4: &'static str = r"^(?:(?:25[0-5]|2[0-4][0-9]|[01]?[0-9][0-9]?)\.){3}(?:25[0-5]|2[0-4][0-9]|[01]?[0-9][0-9]?)$";
pub const RE_LOCALE: &'static str = r"^[a-z][a-z]_[A-Z][A-Z]\.UTF-8$";
pub const RE_TIMEZONE: &'static str = r"^([A-Za-z]+)/([A-Za-z0-9_-]+)(/([A-Za-z0-9_-]+))?$";
pub const RE_SMTP_PROTOCOL: &'static str = r"^(http|https|submission|submissions)$";
pub const RE_IP_SUFFIX: &'static str = r"^([0-9]{1,3}\.)?[0-9]{1,3}$";
pub const RE_EMAIL: &'static str = r"^[^@\s]+@[^@\s]+\.[^@\s]+$";

/// Tailscale CGNAT range 100.64.0.0/10: lowest address (network address).
pub const TAILSCALE_MIN: u32 = 1681915904;
/// Tailscale CGNAT range 100.64.0.0/10: highest usable address, 100.127.255.254.
pub const TAILSCALE_MAX: u32 = 1686110206;

/// What `regex::Regex::new(pattern)` followed by `is_match(text)` gives:
/// `None` when the pattern does not compile, else whether it matches.
pub uninterp spec fn regex_match(pattern: Seq<char>, text: Seq<char>) -> Option<bool>;

/// `pattern` compiles and matches `text`.
pub open spec fn pattern_accepts(pattern: Seq<char>, text: Seq<char>) -> bool {
    regex_match(pattern, text) == Some(true)
}

/// Calls `regex::Regex::new(pattern)` and, when it compiles,
/// `Regex::is_match(text)`. The result is named `regex_match` of the two
/// strings; nothing more is claimed of it.
#[verifier::external_body]
fn regex_is_match(pattern: &str, text: &str) -> (r: Option<bool>)
    ensures
        r == regex_match(pattern@, text@),
{
    match regex::Regex::new(pattern) {
        Ok(re) => Some(re.is_match(text)),
        Err(_) => None,
    }
}

/// Checks `value` against `pattern`.
///
/// Ok exactly when the pattern accepts the value; the error message names
/// the value and `err`.
pub fn assert_regex(pattern: &str, value: &str, err: &str) -> (r: Result<()>)
    ensures
        r is Ok <==> pattern_accepts(pattern@, value@),
        r is Err ==> r->Err_0 is Validation,
        r matches Err(NixError::Validation(m)) ==> m@ == "Syntax error for \""@ + value@ + "\": "@ + err@,
{
    proof {
        reveal_strlit("Syntax error for \"");
        reveal_strlit("\": ");
    }
    if regex_is_match(pattern, value) == Some(true) {
        Ok(())
    } else {
        let mut msg = String::new();
        push_str(&mut msg, "Syntax error for \"");
        push_str(&mut msg, value);
        push_str(&mut msg, "\": ");
        push_str(&mut msg, err);
        Err(NixError::validation(msg))
    }
}

/// Checks an (optional) e-mail address: empty is accepted, anything else
/// must look like `user@domain.tld`.
pub fn assert_email(value: &str, err: &str) -> (r: Result<()>)
    ensures
        r is Ok <==> (value@.len() == 0 || pattern_accepts(RE_EMAIL@, value@)),
        r is Err ==> r->Err_0 is Validation,
        r matches Err(NixError::Validation(m)) ==> m@ == "Email \""@ + value@ + "\": "@ + err@,
{
    proof {
        reveal_strlit("Email \"");
        reveal_strlit("\": ");
    }
    if chars_of(value).len() == 0 {
        return Ok(());
    }
    if regex_is_match(RE_EMAIL, value) == Some(true) {
        Ok(())
    } else {
        let mut msg = String::new();
        push_str(&mut msg, "Email \"");
        push_str(&mut msg, value);
        push_str(&mut msg, "\": ");
        push_str(&mut msg, err);
        Err(NixError::validation(msg))
    }
}

/// The parts of `pieces` that parse as `u32`, in order (`filter_map` of
/// `str::parse`).
pub open spec fn parsed_parts(pieces: Seq<Seq<char>>) -> Seq<u32>
    decreases pieces.len(),
{
    if pieces.len() == 0 {
        seq![]
    } else {
        let rest = parsed_parts(pieces.drop_last());
        match parse_u32(pieces.last()) {
            Some(n) => rest.push(n),
            None => rest,
        }
    }
}

/// Big-endian value of a dotted-quad address: the numeric fields of `ip`
/// (fields that are not numbers are skipped) must be exactly four, each at
/// most 255.
pub open spec fn ipv4_value(ip: Seq<char>) -> Option<u32> {
    let p = parsed_parts(split_char(ip, '.'));
    if p.len() == 4 && p[0] <= 255 && p[1] <= 255 && p[2] <= 255 && p[3] <= 255 {
        Some((p[0] * 16777216 + p[1] * 65536 + p[2] * 256 + p[3]) as u32)
    } else {
        None
    }
}

/// Numeric value of a dotted-quad IPv4 address.
pub fn ipv4_to_u32(ip: &str) -> (r: Option<u32>)
    ensures
        r == ipv4_value(ip@),
{
    let pieces = split(ip, '.');
    let mut parts: Vec<u32> = Vec::new();
    let mut i: usize = 0;
    while i < pieces.len()
        invariant
            0 <= i <= pieces@.len(),
            pieces.deep_view() == split_char(ip@, '.'),
            parts@ == parsed_parts(pieces.deep_view().take(i as int)),
        decreases pieces.len() - i,
    {
        let cs = chars_of(pieces[i].as_str());
        let parsed = parse_u32_chars(cs.as_slice());
        proof {
            let dv = pieces.deep_view();
            assert(dv.take(i + 1).drop_last() == dv.take(i as int));
            assert(dv.take(i + 1).last() == pieces@[i as int]@);
        }
        match parsed {
            Some(n) => {
                parts.push(n);
            },
            None => {},
        }
        i += 1;
    }
    assert(pieces.deep_view().take(pieces@.len() as int) == pieces.deep_view());
    if parts.len() != 4 {
        return None;
    }
    if parts[0] > 255 || parts[1] > 255 || parts[2] > 255 || parts[3] > 255 {
        return None;
    }
    let v: u64 = (parts[0] as u64) * 16777216 + (parts[1] as u64) * 65536 + (parts[2] as u64)
        * 256 + (parts[3] as u64);
    Some(v as u32)
}

/// `ip` is a usable tailnet address: 100.64.0.1 to 100.127.255.254.
pub open spec fn is_tailnet_ip(ip: Seq<char>) -> bool {
    match ipv4_value(ip) {
        Some(n) => TAILSCALE_MIN + 1 <= n && n <= TAILSCALE_MAX,
        None => false,
    }
}

// ─── dotted quads ───────────────────────────────────────────────────────────

/// The address `a.b.c.d` as it is written: each octet in decimal.
pub open spec fn dotted_quad(a: u8, b: u8, c: u8, d: u8) -> Seq<char> {
    decimal_nat(a as nat) + seq!['.'] + decimal_nat(b as nat) + seq!['.'] + decimal_nat(c as nat) + seq!['.']
        + decimal_nat(d as nat)
}

/// The value of the address `a.b.c.d`: `(a << 24) | (b << 16) | (c << 8) | d`.
pub open spec fn quad_value(a: u8, b: u8, c: u8, d: u8) -> int {
    a * 16777216 + b * 65536 + c * 256 + d
}

proof fn lemma_digit_char(n: nat)
    requires
        n < 10,
    ensures
        is_ascii_digit(digit_char(n)),
        digit_value(digit_char(n)) == n,
{
    assert(((48 + n) as u8) as int == 48 + n);
}

/// The decimal notation of `n` is a non-empty run of digits worth `n`.
proof fn lemma_decimal_digits(n: nat)
    ensures
        decimal_nat(n).len() > 0,
        all_digits(decimal_nat(n)),
        digits_value(decimal_nat(n)) == n,
    decreases n,
{
    if n < 10 {
        lemma_digit_char(n);
        let s = decimal_nat(n);
        assert(s.drop_last() =~= Seq::<char>::empty());
        assert(digits_value(s) == digits_value(s.drop_last()) * 10 + digit_value(s.last()));
    } else {
        lemma_decimal_digits(n / 10);
        lemma_digit_char(n % 10);
        let s = decimal_nat(n);
        assert(s.drop_last() == decimal_nat(n / 10));
        assert(s.last() == digit_char(n % 10));
        assert(forall|i: int| 0 <= i < s.len() - 1 ==> s[i] == decimal_nat(n / 10)[i]);
        assert(digits_value(s) == digits_value(s.drop_last()) * 10 + digit_value(s.last()));
        assert((n / 10) * 10 + n % 10 == n) by (nonlinear_arith);
    }
}

proof fn lemma_split_at_dot(x: Seq<char>, rest: Seq<char>)
    requires
        forall|i: int| 0 <= i < x.len() ==> x[i] != '.',
    ensures
        split_char(x + seq!['.'] + rest, '.') == seq![x] + split_char(rest, '.'),
{
    let s = x + seq!['.'] + rest;
    lemma_first_index_of(s, '.');
    assert(s[x.len() as int] == '.');
    match first_index_of(s, '.') {
        Some(j) => {
            if j < x.len() {
                assert(s[j] == x[j]);
            }
            assert(j == x.len());
            assert(s.take(j) =~= x);
            assert(s.skip(j + 1) =~= rest);
        },
        None => {},
    }
}

proof fn lemma_split_no_dot(x: Seq<char>)
    requires
        forall|i: int| 0 <= i < x.len() ==> x[i] != '.',
    ensures
        split_char(x, '.') == seq![x],
{
    lemma_first_index_of(x, '.');
}

/// An octet in decimal parses back to itself.
proof fn lemma_parse_octet(n: u8)
    ensures
        parse_u32(decimal_nat(n as nat)) == Some(n as u32),
        forall|i: int| 0 <= i < decimal_nat(n as nat).len() ==> decimal_nat(n as nat)[i] != '.',
{
    lemma_decimal_digits(n as nat);
    let s = decimal_nat(n as nat);
    assert(is_ascii_digit(s[0]));
    assert forall|i: int| 0 <= i < s.len() implies s[i] != '.' by {
        assert(is_ascii_digit(s[i]));
    }
}

/// Law: the address `a.b.c.d`, each octet written in decimal, has the value
/// `(a << 24) | (b << 16) | (c << 8) | d`; so `assert_tailscale_ip` accepts
/// it exactly when that value lies from 100.64.0.1 to 100.127.255.254.
pub proof fn law_dotted_quad(a: u8, b: u8, c: u8, d: u8)
    ensures
        ipv4_value(dotted_quad(a, b, c, d)) == Some(quad_value(a, b, c, d) as u32),
        0 <= quad_value(a, b, c, d) <= u32::MAX,
        is_tailnet_ip(dotted_quad(a, b, c, d)) <==> 0x64400001 <= quad_value(a, b, c, d) <= 0x647FFFFE,
{
    let (da, db, dc, dd) = (decimal_nat(a as nat), decimal_nat(b as nat), decimal_nat(c as nat), decimal_nat(d as nat));
    lemma_parse_octet(a);
    lemma_parse_octet(b);
    lemma_parse_octet(c);
    lemma_parse_octet(d);
    let q = dotted_quad(a, b, c, d);
    assert(q == da + seq!['.'] + (db + seq!['.'] + (dc + seq!['.'] + dd)));
    lemma_split_no_dot(dd);
    lemma_split_at_dot(dc, dd);
    lemma_split_at_dot(db, dc + seq!['.'] + dd);
    lemma_split_at_dot(da, db + seq!['.'] + (dc + seq!['.'] + dd));
    let ps = split_char(q, '.');
    assert(ps =~= seq![da, db, dc, dd]);
    assert(ps.drop_last() =~= seq![da, db, dc]);
    assert(ps.drop_last().drop_last() =~= seq![da, db]);
    assert(ps.drop_last().drop_last().drop_last() =~= seq![da]);
    assert(ps.drop_last().drop_last().drop_last().drop_last() =~= Seq::<Seq<char>>::empty());
    let p = parsed_parts(ps);
    assert(seq![da].drop_last() =~= Seq::<Seq<char>>::empty());
    assert(parsed_parts(Seq::<Seq<char>>::empty()) == Seq::<u32>::empty());
    assert(parsed_parts(seq![da]) =~= seq![a as u32]);
    assert(seq![da, db].drop_last() =~= seq![da]);
    assert(parsed_parts(seq![da, db]) =~= seq![a as u32, b as u32]);
    assert(seq![da, db, dc].drop_last() =~= seq![da, db]);
    assert(parsed_parts(seq![da, db, dc]) =~= seq![a as u32, b as u32, c as u32]);
    assert(seq![da, db, dc, dd].drop_last() =~= seq![da, db, dc]);
    assert(p =~= seq![a as u32, b as u32, c as u32, d as u32]);
    assert(0 <= quad_value(a, b, c, d) <= u32::MAX) by (nonlinear_arith)
        requires a <= 255 && b <= 255 && c <= 255 && d <= 255;
}

/// Checks that `ip` is an address of the tailnet (100.64.0.0/10).
pub fn assert_tailscale_ip(ip: &str) -> (r: Result<()>)
    ensures
        r is Ok <==> is_tailnet_ip(ip@),
        r is Err ==> r->Err_0 is Validation,
        r matches Err(NixError::Validation(m)) ==> m@ == "ipv4 \""@ + ip@ + if ipv4_value(ip@) is None {
            "\" is not a valid address."@
        } else {
            "\" is not a tailnet address (100.64.0.0/10)."@
        },
{
    proof {
        reveal_strlit("ipv4 \"");
        reveal_strlit("\" is not a valid address.");
        reveal_strlit("\" is not a tailnet address (100.64.0.0/10).");
    }
    match ipv4_to_u32(ip) {
        None => {
            let mut msg = String::new();
            push_str(&mut msg, "ipv4 \"");
            push_str(&mut msg, ip);
            push_str(&mut msg, "\" is not a valid address.");
            Err(NixError::validation(msg))
        },
        Some(long) => {
            if long < TAILSCALE_MIN + 1 || long > TAILSCALE_MAX {
                let mut msg = String::new();
                push_str(&mut msg, "ipv4 \"");
                push_str(&mut msg, ip);
                push_str(&mut msg, "\" is not a tailnet address (100.64.0.0/10).");
                Err(NixError::validation(msg))
            } else {
                Ok(())
            }
        },
    }
}

/// Registers `name` in `tracker` under `context`, refusing a name that is
/// already registered.
pub fn assert_uniq_name(tracker: &mut StrMap<String>, name: &str, context: &str) -> (r: Result<()>)
    requires
        old(tracker).wf(),
    ensures
        final(tracker).wf(),
        r is Ok <==> !has_key(old(tracker)@, name@),
        r is Ok ==> final(tracker)@.len() == old(tracker)@.len() + 1
            && final(tracker)@.drop_last() == old(tracker)@
            && final(tracker)@.last().0 == name@
            && final(tracker)@.last().1@ == context@,
        r is Err ==> final(tracker)@ == old(tracker)@ && r->Err_0 is Validation,
        r matches Err(NixError::Validation(m)) ==> (lookup(old(tracker)@, name@) matches Some(e) && m@ == "Name \""@
            + name@ + "\" already exists ("@ + context@ + " vs "@ + e@ + ")"@),
{
    proof {
        reveal_strlit("Name \"");
        reveal_strlit("\" already exists (");
        reveal_strlit(" vs ");
        reveal_strlit(")");
    }
    match tracker.get(name) {
        Some(existing) => {
            let mut msg = String::new();
            push_str(&mut msg, "Name \"");
            push_str(&mut msg, name);
            push_str(&mut msg, "\" already exists (");
            push_str(&mut msg, context);
            push_str(&mut msg, " vs ");
            push_str(&mut msg, existing.as_str());
            push_str(&mut msg, ")");
            Err(NixError::validation(msg))
        },
        None => {
            let mut n = String::new();
            push_str(&mut n, name);
            let mut c = String::new();
            push_str(&mut c, context);
            let ghost cv = c;
            tracker.insert(n, c);
            assert(tracker@ == old(tracker)@.push((name@, cv)));
            assert(tracker@.drop_last() =~= old(tracker)@);
            Ok(())
        },
    }
}

/// Law: a name that `assert_uniq_name` has just registered is known to the
/// tracker, so registering it again is refused.
pub proof fn law_uniq_name_once(tracker: Seq<(Seq<char>, String)>, name: Seq<char>, context: String)
    ensures
        has_key(tracker.push((name, context)), name),
{
    let t = tracker.push((name, context));
    assert(t[tracker.len() as int].0 == name);
}

} // verus!
