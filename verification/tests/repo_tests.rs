use fpkg::error::Error;
use fpkg::pkg::Dependency;
use fpkg::repo::{
    get_all_available_packages, parse_repositories, parse_repository_index, push_onto_url,
    OnlinePackage,
};

#[test]
fn parse_repository_index_1() {
    let index = r###"
package name=test version="9.11.14" path="/test.fpkg"
package name=example version="1.2.3" path="my-pkg.fpkg" {
    depends example1
    depends example2 {
        version "^10.2.0"
    }
}
            "###;
    let x = parse_repository_index(index, "https://my.repo.here/fpkg").unwrap();
    let expected: Vec<OnlinePackage> = vec![
        OnlinePackage {
            name: "test".to_string(),
            version: "9.11.14".to_string(),
            url: "https://my.repo.here/fpkg/test.fpkg".to_string(),
            depends: Vec::<Dependency>::new(),
        },
        OnlinePackage {
            name: "example".to_string(),
            version: "1.2.3".to_string(),
            url: "https://my.repo.here/fpkg/my-pkg.fpkg".to_string(),
            depends: vec![
                Dependency {
                    name: "example1".to_string(),
                    version_mask: "".to_string(),
                },
                Dependency {
                    name: "example2".to_string(),
                    version_mask: "^10.2.0".to_string(),
                },
            ],
        },
    ];

    assert_eq!(x, expected);
}

#[test]
fn parse_repository_index_requires_properties() {
    // a package node without a path property is invalid
    assert!(matches!(
        parse_repository_index("package name=a version=\"1\"\n", "https://r"),
        Err(Error::Parse(_))
    ));
    // non-package nodes are skipped
    let x = parse_repository_index("note \"hi\"\npackage name=a version=\"1\" path=\"a.fpkg\"\n", "https://r").unwrap();
    assert_eq!(x.len(), 1);
    assert_eq!(x[0].url, "https://r/a.fpkg");
}

#[test]
fn push_onto_url_inserts_one_slash() {
    assert_eq!(push_onto_url("https://a.b", "c"), "https://a.b/c");
    assert_eq!(push_onto_url("https://a.b/", "c"), "https://a.b/c");
    assert_eq!(push_onto_url("https://a.b", "/c"), "https://a.b/c");
    assert_eq!(push_onto_url("https://a.b/", "/c"), "https://a.b//c");
}

#[test]
fn parse_repositories_skips_blank_lines() {
    let text = "https://one.example\n\n   \t\nhttps://two.example\n";
    let repos = parse_repositories(text);
    assert_eq!(repos, vec!["https://one.example".to_string(), "https://two.example".to_string()]);
}

#[test]
fn get_all_available_packages_concatenates() {
    let repos = vec!["https://one".to_string(), "https://two".to_string()];
    let indexes = vec![
        "package name=a version=\"1.0.0\" path=\"a.fpkg\"\n".to_string(),
        "package name=b version=\"2.0.0\" path=\"b.fpkg\"\n".to_string(),
    ];
    let all = get_all_available_packages(&repos, &indexes).unwrap();
    assert_eq!(all.len(), 2);
    assert_eq!(all[0].name, "a");
    assert_eq!(all[0].url, "https://one/a.fpkg");
    assert_eq!(all[1].name, "b");
    assert_eq!(all[1].url, "https://two/b.fpkg");

    let bad = vec!["package name=a\n".to_string(), "".to_string()];
    assert!(get_all_available_packages(&repos, &bad).is_err());
}
