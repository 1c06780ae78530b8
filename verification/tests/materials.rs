use pliego::cargo_graph::{
    framework_evidence, reachable_package_ids, resolved_framework_package, CargoMetadata, CargoPackage,
    CargoResolve, CargoResolveNode, LockedPackage,
};
use pliego::cargo_inputs::{
    admit_path_package, configuration_materials, finish_selection, AncestorConfiguration, PathPackage,
};
use pliego::digest::sha256_bytes;
use pliego::invocation::InputMaterialSpec;
use pliego::receipt::InputMaterial;

fn package(name: &str, id: &str, root: &str) -> CargoPackage {
    CargoPackage {
        name: name.to_owned(),
        version: "0.1.0".to_owned(),
        id: id.to_owned(),
        source: None,
        manifest_path: format!("{root}/Cargo.toml"),
        targets: Vec::new(),
    }
}

fn node(id: &str, dependencies: &[&str]) -> CargoResolveNode {
    CargoResolveNode { id: id.to_owned(), dependencies: dependencies.iter().map(|d| d.to_string()).collect() }
}

fn metadata(workspace_root: &str, packages: Vec<CargoPackage>, nodes: Vec<CargoResolveNode>) -> CargoMetadata {
    CargoMetadata {
        packages,
        workspace_root: workspace_root.to_owned(),
        target_directory: format!("{workspace_root}/target"),
        resolve: Some(CargoResolve { nodes }),
    }
}

fn root_of(p: &CargoPackage) -> String {
    p.manifest_path.trim_end_matches("/Cargo.toml").to_owned()
}

fn files(id: &str, kind: &str, root: &str, included: &[&str]) -> InputMaterialSpec {
    InputMaterialSpec {
        id: id.to_owned(),
        kind: kind.to_owned(),
        root: root.to_owned(),
        included_paths: included.iter().map(|p| p.to_string()).collect(),
        excluded_paths: vec![],
    }
}

/// The materials of a project whose reached path packages are admitted in
/// metadata order, after the workspace lock and manifest.
fn select(
    project: &str,
    m: &CargoMetadata,
    client: Option<&str>,
    ancestors: &[AncestorConfiguration],
    home: &str,
    home_present: [bool; 2],
) -> Result<(Vec<String>, Vec<InputMaterialSpec>), String> {
    let inside: Vec<bool> = m.packages.iter().map(|p| root_of(p).starts_with(project)).collect();
    let reachable = reachable_package_ids(m, "site", client, &inside)?;
    let mut configuration = vec!["Cargo.toml".to_owned(), "pliego.toml".to_owned()];
    let mut materials = vec![
        files("cargo-lock", "cargo-lock", &m.workspace_root, &["Cargo.lock"]),
        files("cargo-workspace-config", "cargo-workspace-config", &m.workspace_root, &["Cargo.toml"]),
    ];
    let (mut local, mut external) = configuration_materials(&ancestors.to_vec(), home, home_present);
    configuration.append(&mut local);
    materials.append(&mut external);
    for p in &m.packages {
        if !reachable.contains(&p.id) || p.source.is_some() {
            continue;
        }
        let path = PathPackage { name: p.name.clone(), version: p.version.clone(), root: root_of(p) };
        admit_path_package(project, &mut materials, &path)?;
    }
    Ok(finish_selection(configuration, materials))
}

fn ancestor(root: &str, present: [bool; 4]) -> AncestorConfiguration {
    AncestorConfiguration { root: root.to_owned(), present, beside_cargo_home: false }
}

fn ids(materials: &[InputMaterialSpec]) -> Vec<&str> {
    materials.iter().map(|m| m.id.as_str()).collect()
}

const NONE: [bool; 4] = [false; 4];
const CARGO_CONFIG: [bool; 4] = [true, false, false, false];
const TOOLCHAIN_FILE: [bool; 4] = [false, false, true, false];

#[test]
fn parent_workspace_lock_and_cargo_configuration_are_evidence() {
    let m = metadata("/w", vec![package("site", "site-id", "/w/site")], vec![node("site-id", &[])]);
    let ancestors = [ancestor("/w/site", NONE), ancestor("/w", CARGO_CONFIG), ancestor("/", NONE)];
    let (configuration, materials) = select("/w/site", &m, None, &ancestors, "/h/.cargo", [false, false]).unwrap();
    assert_eq!(configuration, vec!["Cargo.toml", "pliego.toml"]);
    assert_eq!(ids(&materials), vec!["cargo-config/ancestor-000", "cargo-lock", "cargo-workspace-config"]);
    assert_eq!(materials[0].root, "/w");
    assert_eq!(materials[0].included_paths, vec![".cargo/config.toml"]);
    assert_eq!(materials[1].root, "/w");
    assert_eq!(materials[1].included_paths, vec!["Cargo.lock"]);
    assert_ne!(sha256_bytes(b"version = 4\n"), sha256_bytes(b"version = 4\n# changed\n"));
}

#[test]
fn transitive_external_path_dependency_is_part_of_the_receipt_context() {
    let m = metadata(
        "/p",
        vec![package("site", "site-id", "/p"), package("direct", "direct-id", "/deps/direct"), package(
            "transitive",
            "transitive-id",
            "/deps/transitive",
        )],
        vec![node("site-id", &["direct-id"]), node("direct-id", &["transitive-id"]), node("transitive-id", &[])],
    );
    let (_, materials) = select("/p", &m, None, &[ancestor("/p", NONE)], "/h", [false, false]).unwrap();
    assert!(ids(&materials).contains(&"cargo-path/transitive@0.1.0"));
    assert!(ids(&materials).contains(&"cargo-path/direct@0.1.0"));
}

#[test]
fn client_package_contributes_its_exclusive_dependency_closure() {
    let m = metadata(
        "/p",
        vec![
            package("site", "site-id", "/p/site"),
            package("client", "client-id", "/p/client"),
            package("site-only", "site-dep-id", "/deps/site-only"),
            package("client-only", "client-dep-id", "/deps/client-only"),
            package("unreachable", "unreachable-id", "/deps/unreachable"),
        ],
        vec![
            node("site-id", &["site-dep-id"]),
            node("client-id", &["client-dep-id"]),
            node("site-dep-id", &[]),
            node("client-dep-id", &[]),
            node("unreachable-id", &[]),
        ],
    );
    let inside = vec![true, true, false, false, false];
    let reachable = reachable_package_ids(&m, "site", Some("client"), &inside).unwrap();
    assert_eq!(reachable, vec!["client-dep-id", "client-id", "site-dep-id", "site-id"]);
    let (_, materials) = select("/p", &m, Some("client"), &[ancestor("/p", NONE)], "/h", [false, false]).unwrap();
    let ids = ids(&materials);
    assert!(ids.contains(&"cargo-path/site-only@0.1.0"));
    assert!(ids.contains(&"cargo-path/client-only@0.1.0"));
    assert!(!ids.contains(&"cargo-path/unreachable@0.1.0"));
}

#[test]
fn unreachable_workspace_member_does_not_change_evidence() {
    let m = metadata(
        "/w",
        vec![package("site", "site-id", "/w/site"), package("unreachable", "unreachable-id", "/w/unreachable")],
        vec![node("site-id", &[]), node("unreachable-id", &[])],
    );
    let (_, materials) = select("/w/site", &m, None, &[ancestor("/w/site", NONE)], "/h", [false, false]).unwrap();
    assert!(!ids(&materials).contains(&"cargo-path/unreachable@0.1.0"));
    let alone = metadata("/w", vec![package("site", "site-id", "/w/site")], vec![node("site-id", &[])]);
    let (_, without) = select("/w/site", &alone, None, &[ancestor("/w/site", NONE)], "/h", [false, false]).unwrap();
    assert_eq!(ids(&materials), ids(&without));
}

#[test]
fn duplicate_and_overlapping_local_package_roots_fail_closed() {
    let duplicate = metadata(
        "/p",
        vec![package("site", "site-id", "/p"), package("first", "first-id", "/deps/shared"), package(
            "second",
            "second-id",
            "/deps/shared",
        )],
        vec![node("site-id", &["first-id", "second-id"]), node("first-id", &[]), node("second-id", &[])],
    );
    let error = select("/p", &duplicate, None, &[ancestor("/p", NONE)], "/h", [false, false]).unwrap_err();
    assert!(error.contains("overlaps another build input root"), "{error}");
    let overlapping = metadata(
        "/p",
        vec![package("site", "site-id", "/p"), package("parent", "parent-id", "/deps/parent"), package(
            "child",
            "child-id",
            "/deps/parent/child",
        )],
        vec![node("site-id", &["parent-id", "child-id"]), node("parent-id", &[]), node("child-id", &[])],
    );
    let error = select("/p", &overlapping, None, &[ancestor("/p", NONE)], "/h", [false, false]).unwrap_err();
    assert!(error.contains("overlaps another build input root"), "{error}");
}

fn locked(version: &str) -> LockedPackage {
    LockedPackage { name: "pliego-ssg".to_owned(), version: version.to_owned(), source: None, checksum: None }
}

fn captured(sha: &str) -> Vec<InputMaterial> {
    vec![InputMaterial {
        id: "cargo-path/pliego-ssg@9.8.7".to_owned(),
        kind: "cargo-path-package".to_owned(),
        selection: "tree-v1".to_owned(),
        file_count: 1,
        total_bytes: 30,
        sha256: sha.to_owned(),
    }]
}

#[test]
fn framework_evidence_tracks_the_resolved_local_pliego_ssg_package() {
    let mut ssg = package("pliego-ssg", "ssg-id", "/framework/pliego-ssg");
    ssg.version = "9.8.7".to_owned();
    let before_sha = sha256_bytes(b"pub const VALUE: u8 = 1;\n");
    let before = framework_evidence(&vec![locked("9.8.7")], &ssg, "/p/Cargo.lock", Some(&captured(&before_sha))).unwrap();
    assert_eq!(before.version, "9.8.7");
    assert!(before.source_revision.starts_with("sha256:"));
    assert_eq!(before.source_revision.len(), "sha256:".len() + 64);
    let after_sha = sha256_bytes(b"pub const FRAMEWORK_VALUE: u8 = 2;\n");
    let after = framework_evidence(&vec![locked("9.8.7")], &ssg, "/p/Cargo.lock", Some(&captured(&after_sha))).unwrap();
    assert_ne!(before.source_revision, after.source_revision);
}

#[test]
fn framework_evidence_fails_when_metadata_and_lock_disagree() {
    let mut ssg = package("pliego-ssg", "ssg-id", "/framework/pliego-ssg");
    ssg.version = "2.0.0".to_owned();
    let error = framework_evidence(&vec![locked("1.0.0")], &ssg, "/p/Cargo.lock", None).unwrap_err();
    assert!(error.contains("absent from"), "{error}");
}

#[test]
fn effective_ancestor_toolchain_and_cargo_home_configs_are_bound() {
    let m = metadata("/outer/gap/project", vec![package("site", "site-id", "/outer/gap/project")], vec![node(
        "site-id",
        &[],
    )]);
    let project = "/outer/gap/project";
    let chain = [
        ancestor(project, TOOLCHAIN_FILE),
        ancestor("/outer/gap", NONE),
        ancestor("/outer", TOOLCHAIN_FILE),
        ancestor("/", NONE),
    ];
    let (configuration, materials) = select(project, &m, None, &chain, "/cargo-home", [true, false]).unwrap();
    assert!(configuration.contains(&"rust-toolchain.toml".to_owned()));
    assert!(materials.iter().any(|material| material.kind == "cargo-ancestor-config"
        && material.root == "/outer"
        && material.included_paths.contains(&"rust-toolchain.toml".to_owned())));
    assert!(materials.iter().any(|material| material.id == "cargo-config/home"
        && material.root == "/cargo-home"
        && material.included_paths == ["config.toml"]));
    let mut with_gap = chain.clone();
    with_gap[1] = ancestor("/outer/gap", CARGO_CONFIG);
    let (_, changed) = select(project, &m, None, &with_gap, "/cargo-home", [true, false]).unwrap();
    let view = |v: &[InputMaterialSpec]| {
        v.iter().map(|m| (m.id.clone(), m.root.clone(), m.included_paths.clone())).collect::<Vec<_>>()
    };
    assert_ne!(view(&changed), view(&materials), "newly effective config must change the material topology");
}

#[test]
fn ancestor_material_ids_do_not_depend_on_checkout_depth() {
    let shallow = [ancestor("/shallow/project", NONE), ancestor("/shallow", CARGO_CONFIG), ancestor("/", NONE)];
    let deep = [
        ancestor("/deep/a/b/c/project", NONE),
        ancestor("/deep/a/b/c", NONE),
        ancestor("/deep/a/b", NONE),
        ancestor("/deep/a", NONE),
        ancestor("/deep", CARGO_CONFIG),
        ancestor("/", NONE),
    ];
    let shape = |chain: &[AncestorConfiguration]| {
        let (_, materials) = configuration_materials(&chain.to_vec(), "/cargo-home", [false, false]);
        materials
            .iter()
            .filter(|material| material.kind == "cargo-ancestor-config")
            .map(|material| (material.id.clone(), material.included_paths.clone()))
            .collect::<Vec<_>>()
    };
    assert_eq!(shape(&shallow), shape(&deep));
}

#[test]
fn git_and_registry_framework_provenance_comes_from_the_resolved_lock() {
    let revision = "a".repeat(40);
    let git_source = format!("git+https://example.invalid/pliegors?rev=main#{revision}");
    let mut git = package("pliego-ssg", "git-ssg", "/git-ssg");
    git.version = "1.2.3".to_owned();
    git.source = Some(git_source.clone());
    let lock = LockedPackage {
        name: "pliego-ssg".to_owned(),
        version: "1.2.3".to_owned(),
        source: Some(git_source.clone()),
        checksum: None,
    };
    let evidence = framework_evidence(&vec![lock], &git, "/w/Cargo.lock", None).unwrap();
    assert_eq!(evidence.source_revision, revision);

    let registry_source = "registry+https://github.com/rust-lang/crates.io-index";
    let checksum = "b".repeat(64);
    let mut registry = package("pliego-ssg", "registry-ssg", "/registry-ssg");
    registry.version = "4.5.6".to_owned();
    registry.source = Some(registry_source.to_owned());
    let lock = LockedPackage {
        name: "pliego-ssg".to_owned(),
        version: "4.5.6".to_owned(),
        source: Some(registry_source.to_owned()),
        checksum: Some(checksum.clone()),
    };
    let evidence = framework_evidence(&vec![lock], &registry, "/w/Cargo.lock", None).unwrap();
    assert_eq!(evidence.source_revision, format!("sha256:{checksum}"));
}

#[test]
fn framework_provenance_requires_one_reachable_pliego_ssg() {
    let m = metadata("/p", vec![package("site", "site-id", "/p")], vec![node("site-id", &[])]);
    let reachable = reachable_package_ids(&m, "site", None, &vec![true]).unwrap();
    let error = resolved_framework_package(&m, &reachable).unwrap_err();
    assert!(error.contains("does not contain pliego-ssg"), "{error}");
}
