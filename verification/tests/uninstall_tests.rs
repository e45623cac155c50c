use fpkg::error::Error;
use fpkg::pkg::Package;
use fpkg::repo::OnlinePackage;
use fpkg::uninstall::{get_dependency_count_for_packages, uninstall_package_and_deps};

fn op(name: &str, version: &str, depends_on: &[&str]) -> OnlinePackage {
    OnlinePackage {
        name: name.to_string(),
        version: version.to_string(),
        url: format!("/fpkg/pool/{}-{}", name, version),
        depends: depends_on
            .iter()
            .map(|d| fpkg::pkg::Dependency { name: d.to_string(), version_mask: "".to_string() })
            .collect(),
    }
}

fn pkg(name: &str, version: &str) -> Package {
    Package { name: name.to_string(), version: version.to_string() }
}

#[test]
fn depend_counts_match_dependents() {
    // S = {A, B depends A, C depends A}: A is needed by two others.
    let a = op("a", "1.0.0", &[]);
    let b = op("b", "1.0.0", &["a"]);
    let c = op("c", "1.0.0", &["a"]);
    let packages = vec![a.clone(), b.clone(), c.clone()];
    let manual = vec![true, true, true];
    let closures = vec![
        vec![a.clone()],
        vec![b.clone(), a.clone()],
        vec![c.clone(), a.clone()],
    ];
    let counts = get_dependency_count_for_packages(&packages, &manual, &closures).unwrap();
    assert_eq!(counts.len(), 3);
    assert_eq!(counts[0].depends_count, 2);
    assert_eq!(counts[1].depends_count, 0);
    assert_eq!(counts[2].depends_count, 0);
    assert!(counts[0].manually_installed);
}

#[test]
fn depend_counts_reject_foreign_closure_members() {
    let a = op("a", "1.0.0", &[]);
    let ghost = op("ghost", "9.9.9", &[]);
    let packages = vec![a.clone()];
    let manual = vec![true];
    // the closure names a package that is not installed
    let closures = vec![vec![a.clone(), ghost]];
    assert!(matches!(
        get_dependency_count_for_packages(&packages, &manual, &closures),
        Err(Error::ResolveInconsistent(_))
    ));
    // the closure misses the package itself
    let closures2 = vec![vec![]];
    assert!(matches!(
        get_dependency_count_for_packages(&packages, &manual, &closures2),
        Err(Error::ResolveInconsistent(_))
    ));
}

#[test]
fn uninstall_leaf_keeps_manual_dependency() {
    // S = {A (manual), B (manual, depends A)}; uninstalling B keeps A.
    let a = op("a", "1.0.0", &[]);
    let b = op("b", "1.0.0", &["a"]);
    let packages = vec![a.clone(), b.clone()];
    let manual = vec![true, true];
    let closures = vec![vec![a.clone()], vec![b.clone(), a.clone()]];
    let target_closure = vec![b.clone(), a.clone()];
    let dels = uninstall_package_and_deps(
        &pkg("b", "1.0.0"),
        &packages,
        &manual,
        &closures,
        &target_closure,
    )
    .unwrap();
    assert_eq!(dels, vec![pkg("b", "1.0.0")]);
}

#[test]
fn uninstall_leaf_sweeps_automatic_dependency() {
    // S = {A (auto), B (manual, depends A)}; uninstalling B removes both.
    let a = op("a", "1.0.0", &[]);
    let b = op("b", "1.0.0", &["a"]);
    let packages = vec![a.clone(), b.clone()];
    let manual = vec![false, true];
    let closures = vec![vec![a.clone()], vec![b.clone(), a.clone()]];
    let target_closure = vec![b.clone(), a.clone()];
    let dels = uninstall_package_and_deps(
        &pkg("b", "1.0.0"),
        &packages,
        &manual,
        &closures,
        &target_closure,
    )
    .unwrap();
    assert_eq!(dels, vec![pkg("a", "1.0.0"), pkg("b", "1.0.0")]);
}

#[test]
fn uninstall_depended_upon_fails_with_zero_deletions() {
    // S = {A, B depends A, C depends A}, all manual; uninstalling A is refused.
    let a = op("a", "1.0.0", &[]);
    let b = op("b", "1.0.0", &["a"]);
    let c = op("c", "1.0.0", &["a"]);
    let packages = vec![a.clone(), b.clone(), c.clone()];
    let manual = vec![true, true, true];
    let closures = vec![
        vec![a.clone()],
        vec![b.clone(), a.clone()],
        vec![c.clone(), a.clone()],
    ];
    let target_closure = vec![a.clone()];
    let r = uninstall_package_and_deps(
        &pkg("a", "1.0.0"),
        &packages,
        &manual,
        &closures,
        &target_closure,
    );
    assert!(matches!(r, Err(Error::DependedUpon(_))));
}

#[test]
fn uninstall_unknown_target_is_not_installed() {
    let a = op("a", "1.0.0", &[]);
    let packages = vec![a.clone()];
    let manual = vec![true];
    let closures = vec![vec![a.clone()]];
    let r = uninstall_package_and_deps(
        &pkg("nosuch", "0.0.1"),
        &packages,
        &manual,
        &closures,
        &vec![],
    );
    assert!(matches!(r, Err(Error::NotInstalled(_))));
}

#[test]
fn error_messages_name_the_condition() {
    let e = Error::DependedUpon("Package is depended upon! Failed to uninstall".to_string());
    assert_eq!(e.message(), "Package is depended upon! Failed to uninstall");
    assert_eq!(Error::NoPackages.message(), "no packages specified");
}
