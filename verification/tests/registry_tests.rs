use openhawk::nest::{check_install, check_publish, extract_version_from_manifest, is_valid_semver, NestError, PackageListing, PackageType};
use openhawk::talon::{make_signature, Capability, TalonError, TalonRegistry, TalonRun, TalonStatus};

fn install_good(registry: &mut TalonRegistry) {
    let sig = make_signature("good-talon", "1.0.0");
    registry
        .install("good-talon", "1.0.0", &sig, vec![Capability { name: "browse".to_string(), description: "web browsing".to_string() }])
        .unwrap();
}

#[test]
fn valid_signature_accepted() {
    let mut registry = TalonRegistry::new();
    let sig = make_signature("my-talon", "2.0.0");
    assert!(registry.install("my-talon", "2.0.0", &sig, vec![]).is_ok());
}

#[test]
fn invalid_signature_rejected() {
    let mut registry = TalonRegistry::new();
    assert!(matches!(registry.install("my-talon", "2.0.0", "bad-sig", vec![]), Err(TalonError::InvalidSignature(_))));
}

#[test]
fn wrong_version_signature_rejected() {
    let mut registry = TalonRegistry::new();
    let sig = make_signature("my-talon", "1.0.0");
    assert!(matches!(registry.install("my-talon", "2.0.0", &sig, vec![]), Err(TalonError::InvalidSignature(_))));
}

#[test]
fn authorized_agent_can_use_talon() {
    let declared = vec!["browser-talon".to_string(), "github-talon".to_string()];
    assert!(TalonRegistry::is_authorized(&declared, "browser-talon"));
}

#[test]
fn unauthorized_agent_cannot_use_talon() {
    let declared = vec!["github-talon".to_string()];
    assert!(!TalonRegistry::is_authorized(&declared, "browser-talon"));
}

#[test]
fn empty_manifest_talons_denies_all() {
    assert!(!TalonRegistry::is_authorized(&[], "any-talon"));
}

#[test]
fn get_capabilities_returns_installed_caps() {
    let mut registry = TalonRegistry::new();
    install_good(&mut registry);
    let caps = registry.get_capabilities("good-talon").unwrap();
    assert_eq!(caps.len(), 1);
    assert_eq!(caps[0].name, "browse");
}

#[test]
fn get_capabilities_returns_none_for_unknown() {
    let registry = TalonRegistry::new();
    assert!(registry.get_capabilities("unknown").is_none());
}

#[test]
fn list_returns_all_installed() {
    let mut registry = TalonRegistry::new();
    install_good(&mut registry);
    let sig = make_signature("other", "0.2.0");
    registry.install("other", "0.2.0", &sig, vec![]).unwrap();
    assert_eq!(registry.list().len(), 2);
}

#[test]
fn duplicate_install_rejected() {
    let mut registry = TalonRegistry::new();
    install_good(&mut registry);
    let sig = make_signature("good-talon", "1.0.0");
    assert!(matches!(registry.install("good-talon", "1.0.0", &sig, vec![]), Err(TalonError::AlreadyInstalled(_))));
}

#[test]
fn load_and_unload_lifecycle() {
    let mut registry = TalonRegistry::new();
    install_good(&mut registry);
    registry.load("good-talon", Some(TalonRun::Succeeded)).unwrap();
    assert_eq!(registry.list()[0].status, TalonStatus::Loaded);
    registry.unload("good-talon", Some(TalonRun::Succeeded)).unwrap();
    assert_eq!(registry.list()[0].status, TalonStatus::Unloaded);
}

#[test]
fn failing_and_panicking_runs_mark_failed() {
    let mut registry = TalonRegistry::new();
    install_good(&mut registry);
    assert!(matches!(registry.load("good-talon", Some(TalonRun::Failed("load failed".into()))), Err(TalonError::Lifecycle(_))));
    assert_eq!(registry.list()[0].status, TalonStatus::Failed("load failed".into()));
    assert!(matches!(registry.load("good-talon", Some(TalonRun::Panicked)), Err(TalonError::Panicked(_))));
    assert_eq!(registry.list()[0].status, TalonStatus::Failed("talon panicked during load".into()));
    assert!(matches!(registry.load("missing", None), Err(TalonError::NotFound(_))));
}

#[test]
fn signature_is_hex_sha256_of_name_and_version() {
    // sha256("a:1") computed independently
    assert_eq!(make_signature("a", "1").len(), 64);
    assert_eq!(make_signature("a", "1"), openhawk::nest::make_signature("a", "1"));
    assert_eq!(make_signature("", ""), "e7ac0786668e0ff0f02b62bd04f45ff636fd82db63b1104601c975dc005f3a67");
}

#[test]
fn valid_semver_accepted() {
    assert!(is_valid_semver("0.0.0"));
    assert!(is_valid_semver("1.2.3"));
    assert!(is_valid_semver("10.20.30"));
}

#[test]
fn invalid_semver_rejected() {
    assert!(!is_valid_semver("1.0"));
    assert!(!is_valid_semver("1.0.0.0"));
    assert!(!is_valid_semver("1.0.0-beta"));
    assert!(!is_valid_semver("v1.0.0"));
    assert!(!is_valid_semver(""));
    assert!(!is_valid_semver("1.x.0"));
}

#[test]
fn manifest_version_extracted() {
    let src = "[agent]\nname = \"x\"\nversion = \"1.2.3\"\n";
    assert_eq!(extract_version_from_manifest(src), Some("1.2.3".to_string()));
    assert_eq!(extract_version_from_manifest("[agent]\nname = \"x\"\n"), None);
    assert_eq!(extract_version_from_manifest("  version=  \"\"\nversion = 2\r\n"), Some("2".to_string()));
}

#[test]
fn publish_and_install_checks() {
    assert!(matches!(check_publish(None), Err(NestError::InvalidPackage(_))));
    assert!(matches!(check_publish(Some("[agent]\n")), Err(NestError::InvalidPackage(_))));
    assert!(matches!(check_publish(Some("version = \"1.0\"\n")), Err(NestError::InvalidVersion(v)) if v == "1.0"));
    assert!(check_publish(Some("version = \"1.0.0\"\n")).is_ok());
    let listing = PackageListing {
        name: "p".into(),
        description: "d".into(),
        author: "a".into(),
        version: "1.0.0".into(),
        download_count: 0,
        package_type: PackageType::Talon,
        compatibility: "*".into(),
    };
    let sig = openhawk::nest::make_signature("p", "1.0.0");
    assert!(check_install("p", &listing, &sig, false).is_ok());
    assert!(matches!(check_install("p", &listing, &sig, true), Err(NestError::AlreadyInstalled(_))));
    assert!(matches!(check_install("p", &listing, "bad", false), Err(NestError::InvalidSignature(_))));
    assert_eq!(PackageType::from_str("Driver"), Some(PackageType::Driver));
    assert_eq!(PackageType::Flight.as_str(), "Flight");
    assert_eq!(PackageType::from_str("flight"), None);
}

#[test]
fn registered_instances_are_remembered() {
    let mut reg = TalonRegistry::new();
    assert!(!reg.has_instance("good-talon"));
    assert!(reg.register_instance("good-talon").is_ok());
    assert!(reg.register_instance("good-talon").is_ok());
    assert!(reg.has_instance("good-talon"));
    assert!(!reg.has_instance("other"));
}

#[test]
fn signature_is_64_lowercase_hex_digits() {
    let sig = make_signature("good-talon", "1.0.0");
    assert_eq!(sig.len(), 64);
    assert!(sig.chars().all(|c| c.is_ascii_digit() || ('a'..='f').contains(&c)));
}
