use kaizen_core::os::{PackageManagerKind, TargetOs};
use os_info::Type;

fn from_type(t: Type) -> TargetOs {
    TargetOs::from_os_name(&t.to_string())
}

#[test]
fn maps_macos() {
    assert_eq!(from_type(Type::Macos), TargetOs::Darwin);
}

#[test]
fn maps_fedora() {
    assert_eq!(from_type(Type::Fedora), TargetOs::Fedora);
}

#[test]
fn maps_ubuntu() {
    assert_eq!(from_type(Type::Ubuntu), TargetOs::Ubuntu);
}

#[test]
fn maps_arch_to_linux() {
    assert_eq!(from_type(Type::Arch), TargetOs::Linux);
}

#[test]
fn maps_nixos_to_linux() {
    assert_eq!(from_type(Type::NixOS), TargetOs::Linux);
}

#[test]
fn maps_nobara_to_linux() {
    assert_eq!(from_type(Type::Nobara), TargetOs::Linux);
}

#[test]
fn maps_alma_to_linux() {
    assert_eq!(from_type(Type::AlmaLinux), TargetOs::Linux);
}

#[test]
fn maps_rocky_to_linux() {
    assert_eq!(from_type(Type::RockyLinux), TargetOs::Linux);
}

#[test]
fn maps_freebsd_to_unknown() {
    assert!(matches!(from_type(Type::FreeBSD), TargetOs::Unknown(_)));
}

#[test]
fn maps_unknown_to_unknown() {
    assert!(matches!(from_type(Type::Unknown), TargetOs::Unknown(_)));
}

#[test]
fn unknown_name_is_lowercased() {
    assert_eq!(TargetOs::from_os_name("FreeBSD"), TargetOs::Unknown("freebsd".to_string()));
}

#[test]
fn fedora_section_keys_include_linux() {
    assert_eq!(TargetOs::Fedora.section_keys(), vec!["linux", "fedora"]);
}

#[test]
fn ubuntu_section_keys_include_linux() {
    assert_eq!(TargetOs::Ubuntu.section_keys(), vec!["linux", "ubuntu"]);
}

#[test]
fn darwin_package_manager_is_brew() {
    assert!(matches!(TargetOs::Darwin.package_manager_kind(), PackageManagerKind::Brew));
}

#[test]
fn fedora_package_manager_is_dnf() {
    assert!(matches!(TargetOs::Fedora.package_manager_kind(), PackageManagerKind::Dnf));
}

#[test]
fn ubuntu_package_manager_is_apt() {
    assert!(matches!(TargetOs::Ubuntu.package_manager_kind(), PackageManagerKind::Apt));
}

#[test]
fn unknown_os_package_manager_is_unknown() {
    assert!(matches!(
        TargetOs::Unknown("freebsd".into()).package_manager_kind(),
        PackageManagerKind::Unknown
    ));
}

#[test]
fn linux_distros_share_the_linux_family() {
    for os in [TargetOs::Fedora, TargetOs::Ubuntu, TargetOs::Linux] {
        assert!(os.is_linux());
        assert_eq!(os.platform_family(), "linux");
    }
    assert_eq!(TargetOs::Darwin.platform_family(), "darwin");
    assert_eq!(TargetOs::Unknown("x".into()).platform_family(), "unknown");
    assert_eq!(TargetOs::Unknown("haiku".into()).as_str(), "haiku");
}
