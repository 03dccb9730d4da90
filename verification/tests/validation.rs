use dnf_generator::strmap::StrMap;
use dnf_generator::user::{MAX_UID, MIN_UID};
use dnf_generator::validation::{
    assert_email, assert_regex, assert_tailscale_ip, assert_uniq_name, ipv4_to_u32, RE_HOSTNAME, RE_IPV4,
    RE_LOCALE, RE_MAC_ADDRESS, RE_TIMEZONE,
};

#[test]
fn valid_hostname() {
    assert!(assert_regex(RE_HOSTNAME, "my-host01", "").is_ok());
}

#[test]
fn invalid_hostname_starts_with_digit() {
    assert!(assert_regex(RE_HOSTNAME, "1host", "").is_err());
}

#[test]
fn valid_ipv4() {
    assert!(assert_regex(RE_IPV4, "192.168.1.1", "").is_ok());
}

#[test]
fn invalid_ipv4() {
    assert!(assert_regex(RE_IPV4, "999.0.0.1", "").is_err());
}

#[test]
fn valid_mac() {
    assert!(assert_regex(RE_MAC_ADDRESS, "aa:bb:cc:dd:ee:ff", "").is_ok());
}

#[test]
fn invalid_mac_uppercase() {
    assert!(assert_regex(RE_MAC_ADDRESS, "AA:BB:CC:DD:EE:FF", "").is_err());
}

#[test]
fn valid_locale() {
    assert!(assert_regex(RE_LOCALE, "fr_FR.UTF-8", "").is_ok());
}

#[test]
fn invalid_locale() {
    assert!(assert_regex(RE_LOCALE, "fr_FR", "").is_err());
}

#[test]
fn valid_timezone() {
    assert!(assert_regex(RE_TIMEZONE, "Europe/Paris", "").is_ok());
    assert!(assert_regex(RE_TIMEZONE, "America/New_York", "").is_ok());
}

#[test]
fn valid_tailscale_ip() {
    assert!(assert_tailscale_ip("100.64.0.1").is_ok());
    assert!(assert_tailscale_ip("100.100.1.1").is_ok());
}

#[test]
fn invalid_tailscale_ip_out_of_range() {
    assert!(assert_tailscale_ip("192.168.1.1").is_err());
    assert!(assert_tailscale_ip("100.128.0.1").is_err());
}

#[test]
fn valid_email() {
    assert!(assert_email("user@example.com", "").is_ok());
    assert!(assert_email("", "").is_ok());
}

#[test]
fn invalid_email() {
    assert!(assert_email("not-an-email", "").is_err());
}

#[test]
fn uniq_name_tracker() {
    let mut tracker = StrMap::new();
    assert!(assert_uniq_name(&mut tracker, "foo", "ctx1").is_ok());
    assert!(assert_uniq_name(&mut tracker, "foo", "ctx2").is_err());
}

#[test]
fn uid_range() {
    let uid: u32 = 1500;
    assert!((MIN_UID..=MAX_UID).contains(&uid));
    let bad: u32 = 65000;
    assert!(!(MIN_UID..=MAX_UID).contains(&bad));
}

#[test]
fn uniq_name_tracker_keeps_first_context() {
    let mut tracker = StrMap::new();
    assert!(assert_uniq_name(&mut tracker, "foo", "ctx1").is_ok());
    assert!(assert_uniq_name(&mut tracker, "bar", "ctx2").is_ok());
    assert!(assert_uniq_name(&mut tracker, "foo", "ctx3").is_err());
    assert_eq!(tracker.len(), 2);
    assert_eq!(tracker.get("foo").map(|s| s.as_str()), Some("ctx1"));
}

#[test]
fn tailscale_range_bounds_inclusive() {
    assert!(assert_tailscale_ip("100.64.0.0").is_err());
    assert!(assert_tailscale_ip("100.64.0.1").is_ok());
    assert!(assert_tailscale_ip("100.127.255.254").is_ok());
    assert!(assert_tailscale_ip("100.127.255.255").is_err());
    assert!(assert_tailscale_ip("100.63.255.255").is_err());
    assert!(assert_tailscale_ip("not-an-ip").is_err());
}

#[test]
fn ipv4_value_of_dotted_quad() {
    assert_eq!(ipv4_to_u32("100.64.0.1"), Some(1681915905));
    assert_eq!(ipv4_to_u32("1.2.3"), None);
    assert_eq!(ipv4_to_u32("256.0.0.1"), None);
}

#[test]
fn dotted_quad_value_matches_shifted_octets() {
    for (a, b, c, d) in [(100u8, 64u8, 0u8, 1u8), (100, 127, 255, 254), (100, 127, 255, 255), (192, 168, 1, 1), (0, 0, 0, 0)] {
        let text = format!("{a}.{b}.{c}.{d}");
        let v = (a as u32) << 24 | (b as u32) << 16 | (c as u32) << 8 | d as u32;
        assert_eq!(ipv4_to_u32(&text), Some(v));
        assert_eq!(assert_tailscale_ip(&text).is_ok(), (0x64400001..=0x647FFFFE).contains(&v));
    }
}
