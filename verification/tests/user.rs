use std::collections::HashMap;

use dnf_generator::files::ProjectFiles;
use dnf_generator::user::{filter_profile, User, UserBuildConfig};

fn files(paths: &[&str]) -> ProjectFiles {
    ProjectFiles::new(paths.iter().map(|p| p.to_string()).collect())
}

fn make_user(login: &str, uid: u32, tracker: &mut HashMap<u32, String>, root: &ProjectFiles) -> bool {
    User::build(UserBuildConfig {
        login,
        uid,
        name: "Test User",
        email: None,
        profile: "minimal",
        groups: vec![],
        disabled: false,
        uid_tracker: tracker,
        files: root,
    })
    .is_ok()
}

#[test]
fn valid_user() {
    let root = files(&["dnf/home/profiles/minimal"]);
    let mut tracker = HashMap::new();
    assert!(make_user("alice", 1001, &mut tracker, &root));
}

#[test]
fn uid_out_of_range() {
    let root = files(&["dnf/home/profiles/minimal"]);
    let mut tracker = HashMap::new();
    let err = User::build(UserBuildConfig {
        login: "bob",
        uid: 999,
        name: "Bob",
        email: None,
        profile: "minimal",
        groups: vec![],
        disabled: false,
        uid_tracker: &mut tracker,
        files: &root,
    });
    assert!(err.is_err());
}

#[test]
fn duplicate_uid() {
    let root = files(&["dnf/home/profiles/minimal"]);
    let mut tracker = HashMap::new();
    assert!(make_user("alice", 1001, &mut tracker, &root));
    assert!(!make_user("bob", 1001, &mut tracker, &root));
}

#[test]
fn duplicate_login() {
    let root = files(&["dnf/home/profiles/minimal"]);
    let mut tracker = HashMap::new();
    assert!(make_user("alice", 1001, &mut tracker, &root));
    assert!(!make_user("alice", 1002, &mut tracker, &root));
}

#[test]
fn profile_not_found() {
    let root = files(&[]);
    assert!(filter_profile("nonexistent", &root).is_err());
}

#[test]
fn profile_found_in_dnf() {
    let root = files(&["dnf/home/profiles/admin"]);
    let result = match filter_profile("admin", &root) {
        Ok(p) => p,
        Err(_) => panic!("profile not found"),
    };
    assert_eq!(result, "dnf/home/profiles/admin");
}

#[test]
fn profile_usr_takes_priority() {
    let root = files(&["usr/home/profiles/custom", "dnf/home/profiles/custom"]);
    let result = match filter_profile("custom", &root) {
        Ok(p) => p,
        Err(_) => panic!("profile not found"),
    };
    assert_eq!(result, "usr/home/profiles/custom");
}

#[test]
fn uid_bounds_inclusive_and_tracker_records() {
    let root = files(&["dnf/home/profiles/minimal"]);
    let mut tracker = HashMap::new();
    assert!(make_user("low", 1000, &mut tracker, &root));
    assert!(make_user("high", 64999, &mut tracker, &root));
    assert!(!make_user("over", 65000, &mut tracker, &root));
    assert_eq!(tracker.get(&1000).map(|s| s.as_str()), Some("low"));
    assert_eq!(tracker.len(), 2);
}

#[test]
fn empty_email_counts_as_none() {
    let root = files(&["dnf/home/profiles/minimal"]);
    let mut tracker = HashMap::new();
    let user = User::build(UserBuildConfig {
        login: "carol",
        uid: 1500,
        name: "Carol",
        email: Some(""),
        profile: "minimal",
        groups: vec!["admin".to_string()],
        disabled: false,
        uid_tracker: &mut tracker,
        files: &root,
    });
    match user {
        Ok(u) => {
            assert!(u.email.is_none());
            assert_eq!(u.profile, "dnf/home/profiles/minimal");
        },
        Err(_) => panic!("user refused"),
    }
}

#[test]
fn unchecked_profile_falls_back_to_dnf_path() {
    let root = files(&[]);
    match User::filter_profile_unchecked("nix-admin", &root) {
        Ok(p) => assert_eq!(p, "dnf/home/profiles/nix-admin"),
        Err(_) => panic!("the unchecked lookup never fails"),
    }
    let root = files(&["usr/home/profiles/nix-admin"]);
    match User::filter_profile_unchecked("nix-admin", &root) {
        Ok(p) => assert_eq!(p, "usr/home/profiles/nix-admin"),
        Err(_) => panic!("the unchecked lookup never fails"),
    }
}
