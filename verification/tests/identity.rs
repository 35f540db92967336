use host_identity::error::IdentityError;
use host_identity::identity::Identity;

#[test]
fn test_minimal() {
    let id = Identity::mock_default("minimal");
    let vars = id.get_data();

    assert!(vars.contains_key("level"));
    assert!(vars.contains_key("platform"));
    assert!(vars.contains_key("current_os_version"));
}

#[test]
fn test_full() {
    let id = Identity::mock_default("full");
    let vars = id.get_data();

    assert!(vars.contains_key("level"));
    assert!(vars.contains_key("platform"));
    assert!(vars.contains_key("current_os_version"));
}

#[test]
fn projection_has_no_other_keys() {
    let id = Identity::mock_default("minimal");
    let vars = id.get_data();

    assert!(vars.contains_key("level"));
    assert!(vars.contains_key("platform"));
    assert!(vars.contains_key("current_os_version"));
    assert!(!vars.contains_key("levels"));
    assert!(!vars.contains_key("Level"));
    assert!(!vars.contains_key(""));
}

#[test]
fn bogus_level_resolves_to_minimal() {
    let r = Identity::resolve(
        "bogus",
        Ok("mock-qemu".to_string()),
        Ok("mock-os-version".to_string()),
    );
    match r {
        Ok(id) => {
            assert_eq!(id.level().as_str(), "minimal");
            assert_eq!(id.platform().as_str(), "mock-qemu");
            assert_eq!(id.current_os_version().as_str(), "mock-os-version");
        }
        Err(e) => panic!("expected an identity, got {:?}", e),
    }
}

#[test]
fn full_level_scenario() {
    let r = Identity::resolve(
        "full",
        Ok("mock-gcp".to_string()),
        Ok("mock-os-version".to_string()),
    );
    let id = r.unwrap();
    assert_eq!(id.level().as_str(), "full");
    assert_eq!(id.platform().as_str(), "mock-gcp");
    assert_eq!(id.current_os_version().as_str(), "mock-os-version");

    let vars = id.get_data();
    assert_eq!(vars.get("level").unwrap().as_str(), "full");
    assert_eq!(vars.get("platform").unwrap().as_str(), "mock-gcp");
    assert_eq!(vars.get("current_os_version").unwrap().as_str(), "mock-os-version");
}

#[test]
fn unrecognized_level_scenario() {
    let r = Identity::resolve(
        "unrecognized",
        Ok("mock-qemu".to_string()),
        Ok("mock-os-version".to_string()),
    );
    let id = r.unwrap();
    assert_eq!(id.level().as_str(), "minimal");
}

#[test]
fn minimal_level_is_kept() {
    let r = Identity::resolve(
        "minimal",
        Ok("mock-qemu".to_string()),
        Ok("mock-os-version".to_string()),
    );
    let id = r.unwrap();
    assert_eq!(id.level().as_str(), "minimal");
}

#[test]
fn failed_lookup_becomes_construction_error() {
    let io = IdentityError::Io {
        path: "/proc/cmdline".to_string(),
        detail: "boom".to_string(),
    };
    let r = Identity::resolve("bogus", Err(io), Ok("mock-os-version".to_string()));
    match r {
        Err(IdentityError::Construction { level, cause }) => {
            assert_eq!(level.as_str(), "minimal");
            match *cause {
                IdentityError::Io { path, detail } => {
                    assert_eq!(path.as_str(), "/proc/cmdline");
                    assert_eq!(detail.as_str(), "boom");
                }
                other => panic!("expected the Io cause, got {:?}", other),
            }
        }
        other => panic!("expected a Construction error, got {:?}", other),
    }
}

#[test]
fn try_default_hands_failures_back_unchanged() {
    let nf = IdentityError::NotFound {
        flag: "coreos.oem.id".to_string(),
        path: "/proc/cmdline".to_string(),
    };
    let r = Identity::try_default("full", Err(nf), Ok("mock-os-version".to_string()));
    match r {
        Err(IdentityError::NotFound { flag, path }) => {
            assert_eq!(flag.as_str(), "coreos.oem.id");
            assert_eq!(path.as_str(), "/proc/cmdline");
        }
        other => panic!("expected the NotFound error back, got {:?}", other),
    }
}

#[test]
fn try_default_assembles_the_record() {
    let r = Identity::try_default(
        "full",
        Ok("mock-gcp".to_string()),
        Ok("mock-os-version".to_string()),
    );
    let id = r.unwrap();
    assert_eq!(id.level().as_str(), "full");
    assert_eq!(id.platform().as_str(), "mock-gcp");
    assert_eq!(id.current_os_version().as_str(), "mock-os-version");
}

#[test]
fn mock_default_levels() {
    let id = Identity::mock_default("minimal");
    assert_eq!(id.level().as_str(), "minimal");
    assert_eq!(id.platform().as_str(), "mock-qemu");
    assert_eq!(id.current_os_version().as_str(), "mock-os-version");

    let id = Identity::mock_default("full");
    assert_eq!(id.level().as_str(), "full");
    assert_eq!(id.platform().as_str(), "mock-gcp");

    let id = Identity::mock_default("garbage");
    assert_eq!(id.level().as_str(), "minimal");
    assert_eq!(id.platform().as_str(), "mock-qemu");
}
