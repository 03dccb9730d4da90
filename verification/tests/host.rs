use dnf_generator::files::ProjectFiles;
use dnf_generator::host::Host;
use dnf_generator::strmap::StrMap;

fn files(paths: &[&str]) -> ProjectFiles {
    ProjectFiles::new(paths.iter().map(|p| p.to_string()).collect())
}

#[test]
fn set_users_valid() {
    let mut host = Host::new("myhost");
    host.zone = "lab".to_string();
    assert!(host.set_users(vec!["alice".to_string(), "bob".to_string()]).is_ok());
    assert_eq!(host.users.len(), 2);
}

#[test]
fn set_users_invalid_login() {
    let mut host = Host::new("myhost");
    assert!(host.set_users(vec!["123invalid".to_string()]).is_err());
}

#[test]
fn set_features_with_zone() {
    let mut host = Host::new("myhost");
    host.zone = "lab".to_string();
    host.set_features(&vec!["vpn".to_string(), "dns:prod".to_string()]);
    assert_eq!(host.features.get("vpn").map(String::as_str), Some("lab"));
    assert_eq!(host.features.get("dns").map(String::as_str), Some("prod"));
}

#[test]
fn set_disko_dnf_profile() {
    let root = files(&["dnf/hosts/disko/nvme.nix"]);
    let mut host = Host::new("myhost");
    assert!(host.set_disko(Some("nvme"), StrMap::new(), &root).is_ok());
    assert_eq!(host.disko.profile.as_deref(), Some("dnf/hosts/disko/nvme.nix"));
}

#[test]
fn set_disko_usr_profile_shadows_dnf() {
    let root = files(&["dnf/hosts/disko/nvme.nix", "usr/hosts/disko/nvme.nix"]);
    let mut host = Host::new("myhost");
    assert!(host.set_disko(Some("nvme"), StrMap::new(), &root).is_ok());
    assert_eq!(host.disko.profile.as_deref(), Some("usr/hosts/disko/nvme.nix"));
}

#[test]
fn set_disko_by_id_device() {
    let root = files(&["dnf/hosts/disko/nvme.nix"]);
    let mut devices = StrMap::new();
    devices.insert(
        "main".to_string(),
        "/dev/disk/by-id/nvme-WD_BLACK_SN850X_8000GB_25252R800194".to_string(),
    );
    let mut host = Host::new("myhost");
    assert!(host.set_disko(Some("nvme"), devices, &root).is_ok());
}

#[test]
fn set_disko_profile_not_found() {
    let root = files(&[]);
    let mut host = Host::new("myhost");
    assert!(host.set_disko(Some("ghost"), StrMap::new(), &root).is_err());
}

#[test]
fn set_disko_none_profile_is_ok() {
    let root = files(&[]);
    let mut host = Host::new("myhost");
    assert!(host.set_disko(None, StrMap::new(), &root).is_ok());
    assert!(host.disko.profile.is_none());
}

#[test]
fn set_disko_bad_device_refused_and_host_unchanged() {
    let root = files(&["dnf/hosts/disko/nvme.nix"]);
    let mut devices = StrMap::new();
    devices.insert("main".to_string(), "/tmp/disk".to_string());
    let mut host = Host::new("myhost");
    assert!(host.set_disko(Some("nvme"), devices, &root).is_err());
    assert!(host.disko.profile.is_none());
}

#[test]
fn set_features_later_declaration_wins() {
    let mut host = Host::new("myhost");
    host.zone = "lab".to_string();
    host.set_features(&vec!["dns:a".to_string(), "vpn".to_string(), "dns:b".to_string()]);
    assert_eq!(host.features.len(), 2);
    assert_eq!(host.features.key_at(0), "dns");
    assert_eq!(host.features.get("dns").map(String::as_str), Some("b"));
}
