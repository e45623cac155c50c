use fpkg::error::Error;
use fpkg::pkg::{get_package_config, Package};
use fpkg::pool::{get_pool_location, package_manifest_location, package_to_pool_location};
use fpkg::run::{
    default_command, exit_code_or_sentinel, get_random_string, get_run_location,
    get_tmp_location, host_allow_list, join_proper, make_path_relative, meta_package_config,
    meta_package_manifest, meta_package_name, mount, plan_env_entry, plan_host_binds,
    require_packages, resolve_exec_prefix, EntryKind, EnvEntry, MountRecord, SetupAction,
    Teardown, TeardownVerdict, UnmountOutcome,
};

fn pkg(name: &str, version: &str) -> Package {
    Package { name: name.to_string(), version: version.to_string() }
}

#[test]
fn meta_package_pins_exact_versions() {
    // Synthesizing for [(A,1.0.0),(B,2.0.0)] yields name tmp-env-*, version
    // 1.0.0, and two depends entries pinning A=1.0.0 and B=2.0.0.
    let pkgs = vec![pkg("A", "1.0.0"), pkg("B", "2.0.0")];
    let name = meta_package_name("r4nd0m");
    assert!(name.starts_with("tmp-env-"));
    let config = meta_package_config(&name, &pkgs);
    assert_eq!(config.name, "tmp-env-r4nd0m");
    assert_eq!(config.version, "1.0.0");
    assert_eq!(config.depends.len(), 2);
    assert_eq!(config.depends[0].name, "A");
    assert_eq!(config.depends[0].version_mask, "1.0.0");
    assert_eq!(config.depends[1].name, "B");
    assert_eq!(config.depends[1].version_mask, "2.0.0");

    // The rendered manifest parses back to exactly that configuration.
    let manifest = meta_package_manifest(&name, &pkgs);
    let expected = "name \"tmp-env-r4nd0m\"\nversion \"1.0.0\"\n\
                    depends \"A\" {\n    version \"1.0.0\"\n}\n\
                    depends \"B\" {\n    version \"2.0.0\"\n}\n";
    assert_eq!(manifest, expected);
    let parsed = get_package_config(&manifest).unwrap();
    assert_eq!(parsed, config);
}

#[test]
fn teardown_clears_everything_before_delete() {
    // Two mounts: the first resists one pass, then both clear.
    let mut record = MountRecord::new();
    record.record("/fpkg/run/x/a".to_string());
    record.record("/fpkg/run/x/b".to_string());
    let mut td = Teardown::new(record);
    assert!(td.in_progress());
    let ts = td.current_targets();
    assert_eq!(ts, vec!["/fpkg/run/x/a".to_string(), "/fpkg/run/x/b".to_string()]);
    td.apply_pass(&vec![UnmountOutcome::Failed, UnmountOutcome::CleanlyUnmounted]);
    assert!(td.in_progress());
    assert_eq!(td.current_targets(), vec!["/fpkg/run/x/a".to_string()]);
    td.apply_pass(&vec![UnmountOutcome::CleanlyUnmounted]);
    assert!(!td.in_progress());
    assert!(matches!(td.verdict(), TeardownVerdict::DeleteRoot));
}

#[test]
fn teardown_aborts_when_targets_survive() {
    // A target that survives every pass must never be followed by deletion.
    let mut record = MountRecord::new();
    record.record("/fpkg/run/x/stuck".to_string());
    let mut td = Teardown::new(record);
    let mut passes = 0;
    while td.in_progress() {
        let n = td.current_targets().len();
        td.apply_pass(&vec![UnmountOutcome::LeftResidue; n]);
        passes += 1;
    }
    assert_eq!(passes, 10);
    assert!(matches!(td.verdict(), TeardownVerdict::Abort));
}

#[test]
fn bin_wins_executable_resolution() {
    // With both root/bin/cmd and root/usr/bin/cmd present, /bin wins.
    assert_eq!(resolve_exec_prefix(true, true), Some("/bin".to_string()));
    assert_eq!(resolve_exec_prefix(true, false), Some("/bin".to_string()));
    assert_eq!(resolve_exec_prefix(false, true), Some("/usr/bin".to_string()));
    assert_eq!(resolve_exec_prefix(false, false), None);
}

#[test]
fn symlink_entries_become_links_not_mounts() {
    let link = EnvEntry { name: "lib64".to_string(), kind: EntryKind::Symlink };
    let action = plan_env_entry("/fpkg/env/a-1.0.0", "/fpkg/run/x", &link);
    assert!(matches!(action, SetupAction::HardLink { .. }));
    if let SetupAction::HardLink { source, target } = action {
        assert_eq!(source, "/fpkg/env/a-1.0.0/lib64");
        assert_eq!(target, "/fpkg/run/x/lib64");
    }

    let dir = EnvEntry { name: "usr".to_string(), kind: EntryKind::Directory };
    assert!(matches!(
        plan_env_entry("/e", "/r", &dir),
        SetupAction::MountDir { .. }
    ));
    let file = EnvEntry { name: "data".to_string(), kind: EntryKind::RegularFile };
    assert!(matches!(
        plan_env_entry("/e", "/r", &file),
        SetupAction::MountFile { .. }
    ));
}

#[test]
fn host_binds_skip_missing_and_shadowed() {
    let dirs = host_allow_list();
    assert_eq!(dirs.len(), 8);
    assert_eq!(dirs[0], "dev");
    assert_eq!(dirs[7], "proc");
    // everything exists on the host but tmp is already shadowed
    let host_exists = vec![true, true, true, true, true, true, true, true];
    let target_exists = vec![false, false, false, false, false, false, true, false];
    let binds = plan_host_binds(&dirs, &host_exists, &target_exists);
    assert_eq!(
        binds,
        vec![
            "dev".to_string(),
            "mnt".to_string(),
            "media".to_string(),
            "run".to_string(),
            "var".to_string(),
            "home".to_string(),
            "proc".to_string()
        ]
    );
}

#[test]
fn path_helpers() {
    assert_eq!(make_path_relative("/fpkg/pool"), "fpkg/pool");
    assert_eq!(make_path_relative("already/relative"), "already/relative");
    assert_eq!(join_proper("/fpkg/run/x", "/fpkg/pool"), "/fpkg/run/x/fpkg/pool");
    assert_eq!(join_proper("/fpkg/run/x/", "usr"), "/fpkg/run/x/usr");
}

#[test]
fn locations_prefer_configuration() {
    assert_eq!(get_run_location(None), "/fpkg/run/");
    assert_eq!(get_run_location(Some("/custom/run".to_string())), "/custom/run");
    assert_eq!(get_tmp_location(None), "/fpkg/tmp");
    assert_eq!(get_pool_location(None), "/fpkg/pool");
    assert_eq!(get_pool_location(Some("/p".to_string())), "/p");
    let p = pkg("a", "1.0.0");
    assert_eq!(package_to_pool_location("/fpkg/pool", &p), "/fpkg/pool/a-1.0.0");
    assert_eq!(
        package_manifest_location("/fpkg/pool", &p),
        "/fpkg/pool/a-1.0.0/fpkg/pkg.kdl"
    );
}

#[test]
fn random_names_are_fresh_alphanumeric() {
    let a = get_random_string(10);
    let b = get_random_string(10);
    assert_eq!(a.chars().count(), 10);
    assert_eq!(b.chars().count(), 10);
    assert!(a.chars().all(|c| c.is_ascii_alphanumeric()));
    assert!(b.chars().all(|c| c.is_ascii_alphanumeric()));
    let c = get_random_string(64);
    let d = get_random_string(64);
    // two 64-character random names colliding is as good as impossible
    assert_ne!(c, d);
    assert_eq!(get_random_string(0), "");
}

#[test]
fn empty_run_request_is_refused() {
    assert!(matches!(require_packages(&vec![]), Err(Error::NoPackages)));
    assert!(require_packages(&vec![pkg("a", "1.0.0")]).is_ok());
}

#[test]
fn command_defaults_to_package_name() {
    assert_eq!(default_command("pkgname", None), "pkgname");
    assert_eq!(default_command("pkgname", Some("othertool")), "othertool");
}

#[test]
fn exit_code_sentinel() {
    assert_eq!(exit_code_or_sentinel(Some(3)), 3);
    assert_eq!(exit_code_or_sentinel(None), 89);
}

#[test]
fn mount_of_missing_source_fails() {
    let r = mount("/fpkg-test-no-such-source", "/fpkg-test-no-such-target");
    assert!(matches!(r, Err(Error::Syscall(_))));
}
