use cargo_patch_source::cargo_ops::CrateInfo;
use cargo_patch_source::error::PatchError;
use cargo_patch_source::manifest::{
    DepDecl, DepEntry, ManagedState, Manifest, OriginTable, PatchEntry, PatchTarget,
};
use cargo_patch_source::patch::{apply_patches, remove_patches};
use cargo_patch_source::source::{GitReference, PatchSource};

fn s(t: &str) -> String {
    t.to_string()
}

fn crate_info(name: &str, version: &str, dir: &str) -> CrateInfo {
    CrateInfo {
        name: s(name),
        version: s(version),
        manifest_path: format!("{}/Cargo.toml", dir),
    }
}

/// The mock source workspace: three member crates, in the order a
/// workspace query reports them.
fn rattler_workspace() -> Vec<CrateInfo> {
    vec![
        crate_info("other-crate", "3.0.0", "/ws/crates/other-crate"),
        crate_info("rattler-one", "1.0.0", "/ws/crates/rattler-one"),
        crate_info("rattler-two", "2.0.0", "/ws/crates/rattler-two"),
    ]
}

fn plain_dep(name: &str, version: &str) -> DepEntry {
    DepEntry { name: s(name), decl: DepDecl::Plain { version: s(version) } }
}

fn git_dep(name: &str, url: &str) -> DepEntry {
    DepEntry { name: s(name), decl: DepDecl::Inline { version: None, git: Some(s(url)) } }
}

fn project_deps() -> Vec<DepEntry> {
    vec![
        plain_dep("other-crate", "3.0.0"),
        plain_dep("rattler-one", "1.0.0"),
        plain_dep("rattler-two", "2.0.0"),
    ]
}

/// The target project: a package manifest depending on all three crates.
fn rattler_project() -> Manifest {
    Manifest {
        has_workspace: false,
        workspace_deps: None,
        package_deps: Some(project_deps()),
        patch: Vec::new(),
        workspace_metadata: None,
        package_metadata: None,
    }
}

fn local_source() -> PatchSource {
    PatchSource::local_path(s("/ws"))
}

fn path_entry(name: &str, dir: &str) -> PatchEntry {
    PatchEntry { name: s(name), target: PatchTarget::Path { path: s(dir) } }
}

fn pair(a: &str, b: &str) -> (String, String) {
    (s(a), s(b))
}

#[test]
fn test_apply_local_patches_all_crates() {
    let out = apply_patches(rattler_project(), &local_source(), &rattler_workspace(), None)
        .unwrap();

    assert_eq!(
        out.manifest.package_metadata,
        Some(ManagedState {
            original_versions: vec![
                pair("other-crate", "3.0.0"),
                pair("rattler-one", "1.0.0"),
                pair("rattler-two", "2.0.0"),
            ],
            managed_patches: vec![s("crates-io")],
        })
    );
    assert_eq!(
        out.manifest.patch,
        vec![OriginTable {
            origin: s("crates-io"),
            entries: vec![
                path_entry("other-crate", "/ws/crates/other-crate"),
                path_entry("rattler-one", "/ws/crates/rattler-one"),
                path_entry("rattler-two", "/ws/crates/rattler-two"),
            ],
        }]
    );
    // the source versions equal the declared ones, so the table reads back
    // unchanged
    assert_eq!(out.manifest.package_deps, Some(project_deps()));
    assert_eq!(out.manifest.workspace_metadata, None);
}

#[test]
fn test_apply_local_patches_with_pattern() {
    let out = apply_patches(
        rattler_project(),
        &local_source(),
        &rattler_workspace(),
        Some("rattler-*"),
    )
    .unwrap();

    assert_eq!(
        out.manifest.package_metadata,
        Some(ManagedState {
            original_versions: vec![
                pair("rattler-one", "1.0.0"),
                pair("rattler-two", "2.0.0"),
            ],
            managed_patches: vec![s("crates-io")],
        })
    );
    assert_eq!(
        out.manifest.patch,
        vec![OriginTable {
            origin: s("crates-io"),
            entries: vec![
                path_entry("rattler-one", "/ws/crates/rattler-one"),
                path_entry("rattler-two", "/ws/crates/rattler-two"),
            ],
        }]
    );

    let mut patched_crates = out.patched.clone();
    patched_crates.sort();
    let patched_crates_repr = format!("{:?}", patched_crates);
    assert_eq!(patched_crates_repr, r#"["rattler-one", "rattler-two"]"#);
}

#[test]
fn test_remove_patches() {
    let out = apply_patches(rattler_project(), &local_source(), &rattler_workspace(), None)
        .unwrap();
    assert!(!out.manifest.patch.is_empty());

    let removed = remove_patches(out.manifest).unwrap();
    assert_eq!(removed.manifest, rattler_project());
}

#[test]
fn test_apply_remove_roundtrip() {
    let out = apply_patches(rattler_project(), &local_source(), &rattler_workspace(), None)
        .unwrap();
    let removed = remove_patches(out.manifest).unwrap();
    assert_eq!(removed.manifest, rattler_project());
}

#[test]
fn test_apply_git_patches() {
    let source = PatchSource::git(
        s("https://github.com/prefix-dev/rattler"),
        Some(GitReference::Branch(s("main"))),
    );
    let out = apply_patches(rattler_project(), &source, &Vec::new(), Some("rattler-*"))
        .unwrap();

    assert_eq!(
        out.manifest.package_metadata,
        Some(ManagedState {
            original_versions: vec![
                pair("rattler-one", "1.0.0"),
                pair("rattler-two", "2.0.0"),
            ],
            managed_patches: vec![s("crates-io")],
        })
    );
    let git_target = || PatchTarget::Git {
        url: s("https://github.com/prefix-dev/rattler"),
        reference: Some(GitReference::Branch(s("main"))),
    };
    assert_eq!(
        out.manifest.patch,
        vec![OriginTable {
            origin: s("crates-io"),
            entries: vec![
                PatchEntry { name: s("rattler-one"), target: git_target() },
                PatchEntry { name: s("rattler-two"), target: git_target() },
            ],
        }]
    );
    // git patches never rewrite declared versions
    assert_eq!(out.manifest.package_deps, Some(project_deps()));
}

#[test]
fn test_workspace_detection() {
    let workspace_manifest = Manifest {
        has_workspace: true,
        workspace_deps: Some(project_deps()),
        package_deps: None,
        patch: Vec::new(),
        workspace_metadata: None,
        package_metadata: None,
    };
    let out = apply_patches(workspace_manifest, &local_source(), &rattler_workspace(), None)
        .unwrap();

    // a workspace document records its state under the workspace metadata
    assert_eq!(
        out.manifest.workspace_metadata,
        Some(ManagedState {
            original_versions: vec![
                pair("other-crate", "3.0.0"),
                pair("rattler-one", "1.0.0"),
                pair("rattler-two", "2.0.0"),
            ],
            managed_patches: vec![s("crates-io")],
        })
    );
    assert_eq!(out.manifest.package_metadata, None);
    assert_eq!(out.manifest.patch.len(), 1);
    assert_eq!(out.manifest.patch[0].origin, s("crates-io"));
}

#[test]
fn test_no_matching_crates() {
    let result = apply_patches(
        rattler_project(),
        &local_source(),
        &rattler_workspace(),
        Some("nonexistent-*"),
    );

    let err = result.unwrap_err();
    let err_repr = format!("{:?}", err);
    assert_eq!(err_repr, r#"NoMatchingCrates { pattern: "nonexistent-*" }"#);
}

#[test]
fn test_preserves_existing_patches() {
    let mut project = rattler_project();
    project.patch = vec![OriginTable {
        origin: s("crates-io"),
        entries: vec![path_entry("some-existing-crate", "/some/other/path")],
    }];

    let out = apply_patches(project, &local_source(), &rattler_workspace(), Some("rattler-*"))
        .unwrap();
    assert_eq!(
        out.manifest.patch,
        vec![OriginTable {
            origin: s("crates-io"),
            entries: vec![
                path_entry("some-existing-crate", "/some/other/path"),
                path_entry("rattler-one", "/ws/crates/rattler-one"),
                path_entry("rattler-two", "/ws/crates/rattler-two"),
            ],
        }]
    );

    let removed = remove_patches(out.manifest).unwrap();
    assert_eq!(
        removed.manifest.patch,
        vec![OriginTable {
            origin: s("crates-io"),
            entries: vec![path_entry("some-existing-crate", "/some/other/path")],
        }]
    );
    assert_eq!(removed.manifest.package_deps, Some(project_deps()));
    assert_eq!(removed.manifest.package_metadata, None);
}

#[test]
fn test_reapply_prunes_stale_patches() {
    let out = apply_patches(rattler_project(), &local_source(), &rattler_workspace(), None)
        .unwrap();
    let out = apply_patches(out.manifest, &local_source(), &rattler_workspace(), Some("rattler-one"))
        .unwrap();

    let mut patched_crates: Vec<String> = out.manifest.patch[0]
        .entries
        .iter()
        .map(|e| e.name.clone())
        .collect();
    patched_crates.sort();
    let patched_crates_repr = format!("{:?}", patched_crates);
    assert_eq!(patched_crates_repr, r#"["rattler-one"]"#);

    assert_eq!(
        out.manifest.package_metadata,
        Some(ManagedState {
            original_versions: vec![pair("rattler-one", "1.0.0")],
            managed_patches: vec![s("crates-io")],
        })
    );
}

#[test]
fn test_apply_skips_existing_patch_entries() {
    let mut project = rattler_project();
    project.patch = vec![OriginTable {
        origin: s("crates-io"),
        entries: vec![path_entry("rattler-one", "/custom/user/path")],
    }];

    let out = apply_patches(project, &local_source(), &rattler_workspace(), None).unwrap();

    let rattler_one_entry = out.manifest.patch[0]
        .entries
        .iter()
        .find(|e| e.name == "rattler-one")
        .unwrap();
    assert_eq!(rattler_one_entry.target, PatchTarget::Path { path: s("/custom/user/path") });

    let mut patched_crates: Vec<String> = out.manifest.patch[0]
        .entries
        .iter()
        .map(|e| e.name.clone())
        .collect();
    patched_crates.sort();
    let patched_crates_repr = format!("{:?}", patched_crates);
    assert_eq!(
        patched_crates_repr,
        r#"["other-crate", "rattler-one", "rattler-two"]"#
    );

    assert_eq!(
        out.manifest.package_metadata,
        Some(ManagedState {
            original_versions: vec![
                pair("other-crate", "3.0.0"),
                pair("rattler-two", "2.0.0"),
            ],
            managed_patches: vec![s("crates-io")],
        })
    );
    assert_eq!(out.skipped, vec![s("rattler-one")]);
}

#[test]
fn test_patch_git_dependencies_without_version() {
    let url = "https://github.com/prefix-dev/rattler";
    let project = Manifest {
        has_workspace: false,
        workspace_deps: None,
        package_deps: Some(vec![
            git_dep("other-crate", url),
            git_dep("rattler-one", url),
            git_dep("rattler-two", url),
        ]),
        patch: Vec::new(),
        workspace_metadata: None,
        package_metadata: None,
    };

    let out = apply_patches(project, &local_source(), &rattler_workspace(), None).unwrap();

    // every declaration here shares the git origin, so the patch targets
    // that origin rather than the default registry
    assert_eq!(
        out.manifest.package_metadata,
        Some(ManagedState {
            original_versions: vec![
                pair("other-crate", ""),
                pair("rattler-one", ""),
                pair("rattler-two", ""),
            ],
            managed_patches: vec![s(url)],
        })
    );
    assert_eq!(
        out.manifest.patch,
        vec![OriginTable {
            origin: s(url),
            entries: vec![
                path_entry("other-crate", "/ws/crates/other-crate"),
                path_entry("rattler-one", "/ws/crates/rattler-one"),
                path_entry("rattler-two", "/ws/crates/rattler-two"),
            ],
        }]
    );
    // declarations without a version field are never given one
    assert_eq!(
        out.manifest.package_deps,
        Some(vec![
            git_dep("other-crate", url),
            git_dep("rattler-one", url),
            git_dep("rattler-two", url),
        ])
    );
}
