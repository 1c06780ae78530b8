use pliego::cargo_graph::{
    reach_closure, reachable_package_ids, require_package, CargoMetadata, CargoPackage, CargoResolve,
    CargoResolveNode, CargoTarget,
};

fn package(name: &str, id: &str, kinds: &[&str]) -> CargoPackage {
    CargoPackage {
        name: name.to_owned(),
        version: "0.1.0".to_owned(),
        id: id.to_owned(),
        source: None,
        manifest_path: format!("/work/{name}/Cargo.toml"),
        targets: vec![CargoTarget { kind: kinds.iter().map(|k| k.to_string()).collect() }],
    }
}

fn node(id: &str, dependencies: &[&str]) -> CargoResolveNode {
    CargoResolveNode { id: id.to_owned(), dependencies: dependencies.iter().map(|d| d.to_string()).collect() }
}

fn metadata(nodes: Vec<CargoResolveNode>) -> CargoMetadata {
    CargoMetadata {
        packages: vec![
            package("site", "site-id", &["bin"]),
            package("client", "client-id", &["cdylib"]),
            package("shared", "shared-id", &["lib"]),
            package("unused", "unused-id", &["lib"]),
        ],
        workspace_root: "/work".to_owned(),
        target_directory: "/work/target".to_owned(),
        resolve: Some(CargoResolve { nodes }),
    }
}

fn graph() -> Vec<CargoResolveNode> {
    vec![
        node("site-id", &["shared-id"]),
        node("client-id", &["shared-id", "wasm-id"]),
        node("shared-id", &[]),
        node("wasm-id", &["shared-id"]),
        node("unused-id", &[]),
    ]
}

#[test]
fn client_dependencies_join_the_site_closure() {
    let inside = vec![true, true, true, true];
    let site_only = reachable_package_ids(&metadata(graph()), "site", None, &inside).unwrap();
    assert_eq!(site_only, vec!["shared-id", "site-id"]);
    let with_client = reachable_package_ids(&metadata(graph()), "site", Some("client"), &inside).unwrap();
    assert_eq!(with_client, vec!["client-id", "shared-id", "site-id", "wasm-id"]);
}

#[test]
fn roots_must_be_unique_and_the_graph_complete() {
    let outside = vec![false, true, true, true];
    assert_eq!(
        reachable_package_ids(&metadata(graph()), "site", None, &outside).unwrap_err(),
        "Cargo resolution must contain exactly one site package \"site\" below the project root"
    );
    let inside = vec![true, true, true, true];
    assert_eq!(
        reachable_package_ids(&metadata(graph()), "site", Some("missing"), &inside).unwrap_err(),
        "Cargo resolution must contain exactly one client package \"missing\""
    );
    let mut unresolved = metadata(graph());
    unresolved.resolve = None;
    assert_eq!(
        reachable_package_ids(&unresolved, "site", None, &inside).unwrap_err(),
        "cargo metadata omitted the resolved dependency graph"
    );
    let partial = vec![node("site-id", &["ghost-id"])];
    assert_eq!(
        reachable_package_ids(&metadata(partial), "site", None, &inside).unwrap_err(),
        "Cargo dependency graph omitted a node for resolved package \"ghost-id\""
    );
}

#[test]
fn closure_handles_cycles_and_repeated_nodes() {
    let nodes = vec![node("a", &["b"]), node("b", &["a", "c"]), node("c", &[]), node("c", &["d"]), node("d", &[])];
    let reached = reach_closure(&vec!["a".to_owned()], &nodes).unwrap();
    assert_eq!(reached, vec!["a", "b", "c", "d"]);
    assert_eq!(reach_closure(&vec![], &nodes).unwrap(), Vec::<String>::new());
}

#[test]
fn required_packages_expose_the_target_kind() {
    let m = metadata(graph());
    require_package(&m, "site", "bin", "pliego.toml").unwrap();
    assert_eq!(
        require_package(&m, "site", "cdylib", "pliego.toml").unwrap_err(),
        "Cargo package `site` must expose a `cdylib` target"
    );
    assert_eq!(
        require_package(&m, "nope", "bin", "pliego.toml").unwrap_err(),
        "Cargo package `nope` declared in pliego.toml was not found"
    );
}

use pliego::cargo_graph::{framework_evidence, resolved_framework_package, LockedPackage};
use pliego::receipt::InputMaterial;

fn framework(id: &str, source: Option<&str>) -> CargoPackage {
    let mut p = package("pliego-ssg", id, &["lib"]);
    p.version = "1.2.3".to_owned();
    p.source = source.map(ToOwned::to_owned);
    p
}

fn locked(source: Option<&str>, checksum: Option<&str>) -> LockedPackage {
    LockedPackage {
        name: "pliego-ssg".to_owned(),
        version: "1.2.3".to_owned(),
        source: source.map(ToOwned::to_owned),
        checksum: checksum.map(ToOwned::to_owned),
    }
}

#[test]
fn the_framework_package_must_be_reached_exactly_once() {
    let mut m = metadata(graph());
    m.packages.push(framework("ssg-a", None));
    m.packages.push(framework("ssg-b", None));
    let reachable = vec!["site-id".to_owned(), "ssg-b".to_owned()];
    assert_eq!(resolved_framework_package(&m, &reachable).unwrap(), 5);
    let none = vec!["site-id".to_owned()];
    assert_eq!(
        resolved_framework_package(&m, &none).unwrap_err(),
        "the resolved site dependency graph does not contain pliego-ssg; framework provenance cannot be established"
    );
    let both = vec!["ssg-a".to_owned(), "ssg-b".to_owned()];
    assert_eq!(
        resolved_framework_package(&m, &both).unwrap_err(),
        "the resolved site dependency graph contains multiple pliego-ssg packages; framework provenance is ambiguous"
    );
}

#[test]
fn framework_provenance_follows_the_resolved_source() {
    let commit = "ABCDEF0123456789abcdef0123456789ABCDEF01";
    let git = format!("git+https://example.test/pliego?rev=x#{commit}");
    let package = framework("ssg", Some(&git));
    let evidence = framework_evidence(&vec![locked(Some(&git), None)], &package, "/w/Cargo.lock", None).unwrap();
    assert_eq!(evidence.version, "1.2.3");
    assert_eq!(evidence.source_revision, commit.to_ascii_lowercase());

    let short = "git+https://example.test/pliego#abc123";
    let package = framework("ssg", Some(short));
    assert_eq!(
        framework_evidence(&vec![locked(Some(short), None)], &package, "/w/Cargo.lock", None).unwrap_err(),
        format!("resolved pliego-ssg Git source does not contain a full commit: {short}")
    );

    let registry = "registry+https://github.com/rust-lang/crates.io-index";
    let checksum = "0123456789abcdef0123456789abcdef0123456789abcdef0123456789abcdef";
    let package = framework("ssg", Some(registry));
    let evidence =
        framework_evidence(&vec![locked(Some(registry), Some(checksum))], &package, "/w/Cargo.lock", None).unwrap();
    assert_eq!(evidence.source_revision, format!("sha256:{checksum}"));
    let upper = checksum.to_ascii_uppercase();
    assert_eq!(
        framework_evidence(&vec![locked(Some(registry), Some(&upper))], &package, "/w/Cargo.lock", None).unwrap_err(),
        "resolved registry pliego-ssg is missing a valid Cargo.lock checksum"
    );

    let odd = "path+file:///elsewhere";
    let package = framework("ssg", Some(odd));
    assert_eq!(
        framework_evidence(&vec![locked(Some(odd), None)], &package, "/w/Cargo.lock", None).unwrap_err(),
        format!("unsupported resolved source for pliego-ssg provenance: {odd}")
    );
}

#[test]
fn local_framework_provenance_uses_the_captured_material() {
    let package = framework("ssg", None);
    let lock = vec![locked(None, None)];
    let pending = framework_evidence(&lock, &package, "/w/Cargo.lock", None).unwrap();
    assert_eq!(pending.source_revision, "pending-local-package-content");
    let material = InputMaterial {
        id: "cargo-path/pliego-ssg@1.2.3".to_owned(),
        kind: "cargo-path-package".to_owned(),
        selection: "tree".to_owned(),
        file_count: 3,
        total_bytes: 90,
        sha256: "f".repeat(64),
    };
    let captured = vec![material];
    let evidence = framework_evidence(&lock, &package, "/w/Cargo.lock", Some(&captured)).unwrap();
    assert_eq!(evidence.source_revision, format!("sha256:{}", "f".repeat(64)));
    assert_eq!(
        framework_evidence(&lock, &package, "/w/Cargo.lock", Some(&vec![])).unwrap_err(),
        "resolved local pliego-ssg has no captured input material \"cargo-path/pliego-ssg@1.2.3\""
    );
}

#[test]
fn the_lock_entry_must_be_unique() {
    let package = framework("ssg", None);
    assert_eq!(
        framework_evidence(&vec![], &package, "/w/Cargo.lock", None).unwrap_err(),
        "resolved pliego-ssg 1.2.3 from Cargo metadata is absent from /w/Cargo.lock"
    );
    assert_eq!(
        framework_evidence(&vec![locked(None, None), locked(None, None)], &package, "/w/Cargo.lock", None).unwrap_err(),
        "resolved pliego-ssg 1.2.3 is ambiguous in /w/Cargo.lock"
    );
    let other_source = vec![locked(Some("registry+x"), None)];
    assert!(framework_evidence(&other_source, &package, "/w/Cargo.lock", None)
        .unwrap_err()
        .contains("is absent from"));
}
