use fpkg::pkg::{
    get_package_config, onlinepackage_to_package, string_to_package, verify_pkg_config,
    Dependency, Package, PackageConfig,
};
use fpkg::error::Error;
use fpkg::repo::OnlinePackage;

#[test]
fn get_pkg_config_1() {
    let s = r###"
name "abcd"
version "145.54.12"

depends "coreutils"
depends python {
    version "^8.9.112"
    }"###;
    let expected = PackageConfig {
        name: "abcd".to_string(),
        version: "145.54.12".to_string(),
        depends: vec![
            Dependency {
                name: "coreutils".to_string(),
                version_mask: "".to_string(),
            },
            Dependency {
                name: "python".to_string(),
                version_mask: "^8.9.112".to_string(),
            },
        ],
    };
    let x = get_package_config(s).unwrap();
    assert_eq!(x, expected);
}

#[test]
fn string_to_package_1() {
    assert_eq!(
        string_to_package("a-b-c-d-e-1.2.3").unwrap(),
        Package {
            name: "a-b-c-d-e".to_string(),
            version: "1.2.3".to_string()
        }
    );
    assert_eq!(
        string_to_package("testing-123-0.4.3").unwrap(),
        Package {
            name: "testing-123".to_string(),
            version: "0.4.3".to_string()
        }
    );
}

#[test]
fn string_to_package_rejects_bad_versions() {
    assert!(matches!(
        string_to_package("no-dashes-here"),
        Err(Error::Parse(_))
    ));
    assert!(matches!(string_to_package("pkg-1.2"), Err(Error::Parse(_))));
    assert!(matches!(
        string_to_package("pkg-1.2.3.4"),
        Err(Error::Parse(_))
    ));
    assert!(matches!(string_to_package("nodash"), Err(Error::Parse(_))));
    assert!(matches!(
        string_to_package("pkg-1.2.x"),
        Err(Error::Parse(_))
    ));
    // a component too large for 32 bits is refused
    assert!(matches!(
        string_to_package("pkg-1.2.4294967296"),
        Err(Error::Parse(_))
    ));
    // the largest 32-bit component is accepted
    assert!(string_to_package("pkg-1.2.4294967295").is_ok());
}

#[test]
fn verify_pkg_config_accepts_and_rejects() {
    assert!(verify_pkg_config("name \"a\"\nversion \"1.0.0\"\n").is_ok());
    // a name node without an argument is invalid
    assert!(matches!(verify_pkg_config("name\nversion \"1\""), Err(Error::Parse(_))));
    // a missing version field is invalid
    assert!(verify_pkg_config("name \"a\"\n").is_err());
    // a stray closing brace is invalid
    assert!(verify_pkg_config("}\nname \"a\"\nversion \"1\"").is_err());
    // an unclosed block is invalid
    assert!(verify_pkg_config("name \"a\"\nversion \"1\"\ndepends b {\n").is_err());
    // a depends node without a name is invalid
    assert!(verify_pkg_config("name \"a\"\nversion \"1\"\ndepends\n").is_err());
}

#[test]
fn get_pkg_config_skips_unknown_nodes() {
    let s = "name \"a\"\nmystery {\n    inner \"x\"\n}\nversion \"2.0.0\"\ndepends b\n";
    let x = get_package_config(s).unwrap();
    assert_eq!(x.name, "a");
    assert_eq!(x.version, "2.0.0");
    assert_eq!(x.depends.len(), 1);
    assert_eq!(x.depends[0].name, "b");
    assert_eq!(x.depends[0].version_mask, "");
}

#[test]
fn get_pkg_config_handles_windows_line_endings() {
    let s = "name \"a\"\r\nversion \"1.0.0\"\r\n";
    let x = get_package_config(s).unwrap();
    assert_eq!(x.name, "a");
    assert_eq!(x.version, "1.0.0");
}

#[test]
fn get_pkg_config_empty_document_is_invalid() {
    assert!(matches!(get_package_config(""), Err(Error::Parse(_))));
}

#[test]
fn get_pkg_config_first_name_node_wins() {
    let s = "name \"first\"\nname \"second\"\nversion \"1.0.0\"\n";
    assert_eq!(get_package_config(s).unwrap().name, "first");
}

#[test]
fn package_equality_is_name_and_version() {
    let a = Package { name: "x".to_string(), version: "1.0.0".to_string() };
    let b = Package { name: "x".to_string(), version: "1.0.0".to_string() };
    let c = Package { name: "x".to_string(), version: "1.0.1".to_string() };
    assert_eq!(a, b);
    assert_ne!(a, c);
}

#[test]
fn onlinepackage_downgrade_compares_equal() {
    let op = OnlinePackage {
        name: "tool".to_string(),
        version: "3.2.1".to_string(),
        url: "https://example.invalid/tool.fpkg".to_string(),
        depends: vec![Dependency { name: "lib".to_string(), version_mask: "".to_string() }],
    };
    let p = Package { name: "tool".to_string(), version: "3.2.1".to_string() };
    assert_eq!(onlinepackage_to_package(&op), p);
}

#[test]
fn package_display_string() {
    let p = Package { name: "x".to_string(), version: "1.2.3".to_string() };
    assert_eq!(p.display_string(), "Package: x 1.2.3");
}
