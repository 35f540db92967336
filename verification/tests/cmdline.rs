use host_identity::cmdline::find_flag_value;
use host_identity::cmdline::get_value_by_flag;
use host_identity::error::IdentityError;

#[test]
fn test_find_flag() {
    let flagname = "coreos.oem.id";
    let tests = vec![
        ("", None),
        ("foo=bar", None),
        ("coreos.oem.id", None),
        ("coreos.oem.id=", None),
        ("coreos.oem.id=\t", None),
        ("coreos.oem.id=ec2", Some("ec2".to_string())),
        ("coreos.oem.id=\tec2", Some("ec2".to_string())),
        ("coreos.oem.id=ec2\n", Some("ec2".to_string())),
        ("foo=bar coreos.oem.id=ec2", Some("ec2".to_string())),
        ("coreos.oem.id=ec2 foo=bar", Some("ec2".to_string())),
    ];
    for (tcase, tres) in tests {
        let res = find_flag_value(flagname, tcase, " ");
        assert_eq!(res, tres, "failed testcase: '{}'", tcase);
    }
}

#[test]
fn empty_content_finds_nothing() {
    assert_eq!(find_flag_value("coreos.oem.id", "", " "), None);
    assert_eq!(find_flag_value("", "", " "), None);
    assert_eq!(find_flag_value("anything", "", "\n"), None);
    assert_eq!(find_flag_value("anything", "", ""), None);
}

#[test]
fn token_without_eq_is_ignored() {
    // The bare flag name is no occurrence, wherever it stands.
    assert_eq!(find_flag_value("coreos.oem.id", "coreos.oem.id", " "), None);
    assert_eq!(
        find_flag_value("coreos.oem.id", "coreos.oem.id coreos.oem.id=ec2", " "),
        Some("ec2".to_string())
    );
    assert_eq!(
        find_flag_value("coreos.oem.id", "coreos.oem.id=ec2 coreos.oem.id", " "),
        Some("ec2".to_string())
    );
    assert_eq!(find_flag_value("foo", "junk foo=1 morejunk", " "), Some("1".to_string()));
}

#[test]
fn key_match_is_exact_and_case_sensitive() {
    assert_eq!(find_flag_value("coreos.oem.id", "COREOS.OEM.ID=ec2", " "), None);
    assert_eq!(find_flag_value("coreos.oem.id", "Coreos.Oem.Id=ec2", " "), None);
    assert_eq!(find_flag_value("oem.id", "coreos.oem.id=ec2", " "), None);
    assert_eq!(find_flag_value("coreos.oem.id", "coreos.oem.id2=ec2", " "), None);
    assert_eq!(find_flag_value("coreos.oem.id", "xcoreos.oem.id=ec2", " "), None);
}

#[test]
fn empty_valued_occurrences_count_as_absent() {
    assert_eq!(find_flag_value("coreos.oem.id", "coreos.oem.id=\t", " "), None);
    assert_eq!(find_flag_value("coreos.oem.id", "coreos.oem.id= coreos.oem.id=\t", " "), None);
    assert_eq!(
        find_flag_value("coreos.oem.id", "coreos.oem.id= coreos.oem.id=ec2", " "),
        Some("ec2".to_string())
    );
}

#[test]
fn first_usable_occurrence_wins() {
    assert_eq!(
        find_flag_value("flag", "flag=first flag=second", " "),
        Some("first".to_string())
    );
    assert_eq!(
        find_flag_value("flag", "flag= flag=first flag=second", " "),
        Some("first".to_string())
    );
    assert_eq!(
        find_flag_value("flag", "flag=\t flag=first flag=second flag=", " "),
        Some("first".to_string())
    );
}

#[test]
fn value_is_split_on_first_eq_and_trimmed() {
    assert_eq!(find_flag_value("flag", "flag=a=b", " "), Some("a=b".to_string()));
    assert_eq!(find_flag_value("flag", "flag=\tec2\n", " "), Some("ec2".to_string()));
    assert_eq!(find_flag_value("flag", "flag=\t ec2 \n", " "), None);
}

#[test]
fn first_token_scenario() {
    assert_eq!(
        find_flag_value("coreos.oem.id", "coreos.oem.id=ec2 foo=bar", " "),
        Some("ec2".to_string())
    );
}

#[test]
fn second_token_scenario() {
    assert_eq!(
        find_flag_value("coreos.oem.id", "foo=bar coreos.oem.id=ec2", " "),
        Some("ec2".to_string())
    );
}

#[test]
fn tab_valued_scenario() {
    assert_eq!(find_flag_value("coreos.oem.id", "coreos.oem.id=\t", " "), None);
    let r = get_value_by_flag(
        "coreos.oem.id",
        "/proc/cmdline",
        " ",
        Ok("coreos.oem.id=\t".to_string()),
    );
    match r {
        Err(IdentityError::NotFound { flag, path }) => {
            assert_eq!(flag.as_str(), "coreos.oem.id");
            assert_eq!(path.as_str(), "/proc/cmdline");
        }
        other => panic!("expected a NotFound error, got {:?}", other),
    }
}

#[test]
fn failed_read_becomes_io_error() {
    let r = get_value_by_flag(
        "coreos.oem.id",
        "/no/such/file",
        " ",
        Err("No such file or directory (os error 2)".to_string()),
    );
    match r {
        Err(IdentityError::Io { path, detail }) => {
            assert_eq!(path.as_str(), "/no/such/file");
            assert_eq!(detail.as_str(), "No such file or directory (os error 2)");
        }
        other => panic!("expected an Io error, got {:?}", other),
    }
}

#[test]
fn successful_read_hands_back_the_value() {
    let r = get_value_by_flag(
        "coreos.oem.id",
        "/proc/cmdline",
        " ",
        Ok("ro quiet coreos.oem.id=ec2".to_string()),
    );
    match r {
        Ok(v) => assert_eq!(v.as_str(), "ec2"),
        other => panic!("expected a value, got {:?}", other),
    }
}
