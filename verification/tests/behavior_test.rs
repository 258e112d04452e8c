use cargo_patch_source::cargo_ops::{filter_crates_by_pattern, parent_dir_of, CrateInfo};
use cargo_patch_source::error::PatchError;
use cargo_patch_source::cli::{CargoCli, Cli, Commands};
use cargo_patch_source::manifest::{
    detect_common_git_url, update_dependency_version, DepDecl, DepEntry, Manifest, PatchTarget,
};
use cargo_patch_source::patch::{apply_patches, remove_patches};
use cargo_patch_source::pattern::glob_match;
use cargo_patch_source::source::{
    GitReference, PatchSource, SourceWorkspacePath, TargetManifestPath,
};

fn s(t: &str) -> String {
    t.to_string()
}

fn crate_info(name: &str, version: &str, dir: &str) -> CrateInfo {
    CrateInfo {
        name: s(name),
        version: s(version),
        manifest_path: format!("{}/Cargo.toml", dir),
    }
}

fn plain_dep(name: &str, version: &str) -> DepEntry {
    DepEntry { name: s(name), decl: DepDecl::Plain { version: s(version) } }
}

fn package_manifest(deps: Vec<DepEntry>) -> Manifest {
    Manifest {
        has_workspace: false,
        workspace_deps: None,
        package_deps: Some(deps),
        patch: Vec::new(),
        workspace_metadata: None,
        package_metadata: None,
    }
}

#[test]
fn test_glob_full_string_match() {
    assert!(glob_match("rattler-*", "rattler-one"));
    assert!(glob_match("rattler-*", "rattler-"));
    assert!(!glob_match("rattler-*", "rattler"));
    // a match must cover the whole name, not a substring
    assert!(!glob_match("attler", "rattler"));
    assert!(glob_match("*", ""));
    assert!(glob_match("*", "anything-at-all"));
    assert!(glob_match("?at", "cat"));
    assert!(!glob_match("?at", "at"));
    assert!(glob_match("a*c", "abbbc"));
    assert!(glob_match("a*c", "ac"));
    assert!(!glob_match("a*c", "ab"));
    assert!(glob_match("", ""));
    assert!(!glob_match("", "x"));
    // every other character is literal, including regex metacharacters
    assert!(glob_match("a.c", "a.c"));
    assert!(!glob_match("a.c", "abc"));
}

#[test]
fn test_filter_crates_by_pattern_keeps_all_without_pattern() {
    let crates = vec![
        crate_info("alpha", "1.0.0", "/ws/alpha"),
        crate_info("beta", "2.0.0", "/ws/beta"),
    ];
    let kept = filter_crates_by_pattern(crates.clone(), None).unwrap();
    assert_eq!(kept, crates);

    let filtered = filter_crates_by_pattern(crates.clone(), Some("a*")).unwrap();
    assert_eq!(filtered, vec![crate_info("alpha", "1.0.0", "/ws/alpha")]);

    let err = filter_crates_by_pattern(crates, Some("z*")).unwrap_err();
    assert_eq!(err, PatchError::NoMatchingCrates { pattern: s("z*") });
}

#[test]
fn test_parent_dir_of_manifest_path() {
    assert_eq!(parent_dir_of("/ws/crates/one/Cargo.toml"), s("/ws/crates/one"));
    assert_eq!(parent_dir_of("Cargo.toml"), s(""));
    assert_eq!(parent_dir_of("a/Cargo.toml"), s("a"));
}

#[test]
fn test_remove_without_managed_state_fails() {
    let err = remove_patches(package_manifest(vec![plain_dep("a", "1.0.0")])).unwrap_err();
    assert_eq!(err, PatchError::NoPatchesFound);
}

#[test]
fn test_apply_from_empty_workspace_fails() {
    let err = apply_patches(
        package_manifest(vec![plain_dep("a", "1.0.0")]),
        &PatchSource::local_path(s("/ws")),
        &Vec::new(),
        None,
    )
    .unwrap_err();
    assert_eq!(err, PatchError::NotAWorkspace { path: s("/ws") });
}

#[test]
fn test_git_flow_requires_pattern() {
    let err = apply_patches(
        package_manifest(vec![plain_dep("a", "1.0.0")]),
        &PatchSource::git(s("https://example.com/repo"), None),
        &Vec::new(),
        None,
    )
    .unwrap_err();
    assert_eq!(err, PatchError::PatternRequired);
}

#[test]
fn test_git_flow_pattern_matching_nothing_fails() {
    let err = apply_patches(
        package_manifest(vec![plain_dep("a", "1.0.0")]),
        &PatchSource::git(s("https://example.com/repo"), None),
        &Vec::new(),
        Some("zzz-*"),
    )
    .unwrap_err();
    assert_eq!(err, PatchError::NoMatchingCrates { pattern: s("zzz-*") });
}

#[test]
fn test_git_flow_versionless_dependency_roundtrip() {
    // a git-only declaration: patched with an empty-string recorded
    // version, and no version field is ever added on restoration
    let dep = DepEntry {
        name: s("rattler-one"),
        decl: DepDecl::Inline { version: None, git: Some(s("https://example.com/up")) },
    };
    let original = package_manifest(vec![dep]);
    let out = apply_patches(
        package_manifest(vec![DepEntry {
            name: s("rattler-one"),
            decl: DepDecl::Inline { version: None, git: Some(s("https://example.com/up")) },
        }]),
        &PatchSource::git(s("https://example.com/fork"), None),
        &Vec::new(),
        Some("rattler-*"),
    )
    .unwrap();
    assert_eq!(
        out.manifest.package_metadata.as_ref().unwrap().original_versions,
        vec![(s("rattler-one"), s(""))]
    );

    let removed = remove_patches(out.manifest).unwrap();
    assert_eq!(removed.manifest, original);
}

#[test]
fn test_majority_git_origin_is_detected() {
    // two of three candidates share a git origin: a strict majority
    let deps = vec![
        DepEntry {
            name: s("a"),
            decl: DepDecl::Inline { version: Some(s("1.0.0")), git: Some(s("https://example.com/u")) },
        },
        DepEntry {
            name: s("b"),
            decl: DepDecl::Table { version: Some(s("2.0.0")), git: Some(s("https://example.com/u")) },
        },
        plain_dep("c", "3.0.0"),
    ];
    let m = package_manifest(deps);
    let names = vec![s("a"), s("b"), s("c")];
    assert_eq!(detect_common_git_url(&m, &names), Some(s("https://example.com/u")));

    let out = apply_patches(
        m,
        &PatchSource::local_path(s("/ws")),
        &vec![
            crate_info("a", "1.0.1", "/ws/a"),
            crate_info("b", "2.0.1", "/ws/b"),
            crate_info("c", "3.0.1", "/ws/c"),
        ],
        None,
    )
    .unwrap();
    assert_eq!(out.origin, Some(s("https://example.com/u")));
    assert_eq!(out.manifest.patch[0].origin, s("https://example.com/u"));
}

#[test]
fn test_no_majority_falls_back_to_registry() {
    // a plurality short of a majority yields the default registry key
    let deps = vec![
        DepEntry {
            name: s("a"),
            decl: DepDecl::Inline { version: Some(s("1.0.0")), git: Some(s("https://example.com/u")) },
        },
        plain_dep("b", "2.0.0"),
        plain_dep("c", "3.0.0"),
    ];
    let m = package_manifest(deps);
    let names = vec![s("a"), s("b"), s("c")];
    assert_eq!(detect_common_git_url(&m, &names), None);

    let out = apply_patches(
        m,
        &PatchSource::local_path(s("/ws")),
        &vec![
            crate_info("a", "1.0.1", "/ws/a"),
            crate_info("b", "2.0.1", "/ws/b"),
            crate_info("c", "3.0.1", "/ws/c"),
        ],
        None,
    )
    .unwrap();
    assert_eq!(out.origin, Some(s("crates-io")));
}

#[test]
fn test_apply_twice_is_idempotent() {
    let workspace = vec![
        crate_info("a", "1.5.0", "/ws/a"),
        crate_info("b", "2.5.0", "/ws/b"),
    ];
    let project = || package_manifest(vec![plain_dep("a", "1.0.0"), plain_dep("b", "2.0.0")]);

    let once = apply_patches(project(), &PatchSource::local_path(s("/ws")), &workspace, None)
        .unwrap();
    let again = apply_patches(
        project(),
        &PatchSource::local_path(s("/ws")),
        &workspace,
        None,
    )
    .unwrap();
    let twice = apply_patches(
        again.manifest,
        &PatchSource::local_path(s("/ws")),
        &workspace,
        None,
    )
    .unwrap();
    assert_eq!(twice.manifest, once.manifest);
    // the versions the second run restores are the ones the first run set
    assert_eq!(twice.restored, vec![(s("a"), s("1.0.0")), (s("b"), s("2.0.0"))]);
}

#[test]
fn test_version_updates_follow_the_declaration_shape() {
    let mut m = package_manifest(vec![
        plain_dep("a", "1.0.0"),
        DepEntry {
            name: s("b"),
            decl: DepDecl::Inline { version: Some(s("2.0.0")), git: None },
        },
        DepEntry {
            name: s("c"),
            decl: DepDecl::Inline { version: None, git: Some(s("https://example.com/u")) },
        },
    ]);
    update_dependency_version(&mut m, "a", "9.0.0");
    update_dependency_version(&mut m, "b", "9.0.0");
    update_dependency_version(&mut m, "c", "9.0.0");
    update_dependency_version(&mut m, "absent", "9.0.0");
    assert_eq!(
        m.package_deps,
        Some(vec![
            plain_dep("a", "9.0.0"),
            DepEntry {
                name: s("b"),
                decl: DepDecl::Inline { version: Some(s("9.0.0")), git: None },
            },
            // a declaration without a version field is never given one
            DepEntry {
                name: s("c"),
                decl: DepDecl::Inline { version: None, git: Some(s("https://example.com/u")) },
            },
        ])
    );
}

#[test]
fn test_recorded_versions_are_sorted_by_name() {
    // candidates arrive in reverse order; the record is sorted anyway
    let workspace = vec![
        crate_info("zeta", "1.0.0", "/ws/zeta"),
        crate_info("alpha", "2.0.0", "/ws/alpha"),
        crate_info("mid", "3.0.0", "/ws/mid"),
    ];
    let project = package_manifest(vec![
        plain_dep("zeta", "1.0.0"),
        plain_dep("alpha", "2.0.0"),
        plain_dep("mid", "3.0.0"),
    ]);
    let out = apply_patches(project, &PatchSource::local_path(s("/ws")), &workspace, None)
        .unwrap();
    assert_eq!(
        out.manifest.package_metadata.unwrap().original_versions,
        vec![(s("alpha"), s("2.0.0")), (s("mid"), s("3.0.0")), (s("zeta"), s("1.0.0"))]
    );
}

#[test]
fn test_error_messages() {
    assert_eq!(
        PatchError::NoPatchesFound.message(),
        s("No patches found to remove")
    );
    assert_eq!(
        PatchError::NoMatchingCrates { pattern: s("x-*") }.message(),
        s("No crates found matching pattern: x-*")
    );
    assert_eq!(
        PatchError::NotAWorkspace { path: s("/p") }.message(),
        s("Source path is not a valid cargo workspace: /p")
    );
}

#[test]
fn test_local_apply_with_no_declared_candidates_is_a_no_op() {
    // the offered crates are not declared dependencies: nothing to do,
    // and that is not an error for a local source
    let project = package_manifest(vec![plain_dep("unrelated", "1.0.0")]);
    let out = apply_patches(
        project,
        &PatchSource::local_path(s("/ws")),
        &vec![crate_info("a", "1.0.0", "/ws/a")],
        None,
    )
    .unwrap();
    assert_eq!(out.manifest, package_manifest(vec![plain_dep("unrelated", "1.0.0")]));
    assert_eq!(out.patched, Vec::<String>::new());
    assert_eq!(out.origin, None);
}

#[test]
fn test_git_reference_kinds_in_patch_entries() {
    let source = PatchSource::git(s("https://example.com/r"), Some(GitReference::Tag(s("v1.0.0"))));
    let out = apply_patches(
        package_manifest(vec![plain_dep("a", "1.0.0")]),
        &source,
        &Vec::new(),
        Some("a"),
    )
    .unwrap();
    assert_eq!(
        out.manifest.patch[0].entries[0].target,
        PatchTarget::Git {
            url: s("https://example.com/r"),
            reference: Some(GitReference::Tag(s("v1.0.0"))),
        }
    );

    let source = PatchSource::git(s("https://example.com/r"), Some(GitReference::Rev(s("abc123"))));
    let out = apply_patches(
        package_manifest(vec![plain_dep("a", "1.0.0")]),
        &source,
        &Vec::new(),
        Some("a"),
    )
    .unwrap();
    assert_eq!(
        out.manifest.patch[0].entries[0].target,
        PatchTarget::Git {
            url: s("https://example.com/r"),
            reference: Some(GitReference::Rev(s("abc123"))),
        }
    );
}

#[test]
fn test_source_and_path_helpers() {
    let sp = SourceWorkspacePath::new(s("/ws"));
    assert_eq!(sp.as_path(), "/ws");
    let tp = TargetManifestPath::new(s("/proj/Cargo.toml"));
    assert_eq!(tp.as_path(), "/proj/Cargo.toml");

    let local = PatchSource::local_path(s("/ws"));
    assert!(local.is_local());
    assert!(!local.is_git());
    let git = PatchSource::git(s("https://example.com/r"), None);
    assert!(git.is_git());
    assert!(!git.is_local());
}

#[test]
fn test_cli_value_shapes() {
    let cli = CargoCli::PatchSource(Cli {
        command: Commands::Apply {
            path: Some(s("/ws")),
            git: None,
            branch: None,
            tag: None,
            rev: None,
            pattern: Some(s("rattler-*")),
            manifest_path: None,
        },
    });
    let CargoCli::PatchSource(inner) = cli;
    assert!(matches!(inner.command, Commands::Apply { .. }));

    let removal = Commands::Remove { pattern: None, manifest_path: Some(s("/p/Cargo.toml")) };
    assert!(matches!(removal, Commands::Remove { .. }));
}
