use pliego::digest::sha256_bytes;
use pliego::inputs::{ignored_project_path, reject_reserved_root_alias, reject_sensitive_input_path};
use pliego::invocation::{
    check_material_tokens, material_selection, normalize_material_paths, normalize_portable_paths,
    sort_material_specs, validate_invocation, BuildInvocation, InputMaterialSpec,
};
use pliego::portable::ArtifactError;
use pliego::receipt::{BuildContext, EvidenceFile, FrameworkEvidence, InputMaterial, Ownership, ToolchainEvidence};

fn message<T>(r: Result<T, ArtifactError>) -> String {
    match r {
        Ok(_) => panic!("expected an error"),
        Err(e) => e.message(),
    }
}

fn strings(items: &[&str]) -> Vec<String> {
    items.iter().map(|s| s.to_string()).collect()
}

#[test]
fn sensitive_looking_inputs_are_refused() {
    for path in [".env", "config/.ENV.local", "keys/server.PEM", "home/.netrc", "deploy/id_ed25519", "a/credentials.json"]
    {
        let error = message(reject_sensitive_input_path(path));
        assert!(error.starts_with("non-portable artifact path: refusing to publish path and hash evidence"), "{path}");
        assert!(error.ends_with("; keep runtime secrets outside build input roots"));
    }
    for path in [".env.example", "src/main.rs", "docs/keys.md", "config/.env.template", "credentials/readme.txt"] {
        reject_sensitive_input_path(path).unwrap();
    }
}

#[test]
fn reserved_root_spellings_must_be_exact() {
    reject_reserved_root_alias("target").unwrap();
    reject_reserved_root_alias(".git").unwrap();
    reject_reserved_root_alias("src").unwrap();
    assert_eq!(
        message(reject_reserved_root_alias("Target")),
        "non-portable artifact path: root input \"Target\" aliases reserved directory spelling"
    );
    assert!(reject_reserved_root_alias("NODE_MODULES").is_err());
}

#[test]
fn ignored_paths_cover_reserved_roots_and_exclusions() {
    let excluded = strings(&["target/site", "dist"]);
    assert!(ignored_project_path(".git/config", &excluded));
    assert!(ignored_project_path("node_modules", &excluded));
    assert!(ignored_project_path("dist", &excluded));
    assert!(ignored_project_path("dist/app.js", &excluded));
    assert!(!ignored_project_path("distribution/app.js", &excluded));
    assert!(!ignored_project_path("src/target/x.rs", &excluded));
}

#[test]
fn portable_path_lists_are_canonical_sorted_and_unique() {
    let mut paths = strings(&["src/b.rs", "src/a.rs"]);
    normalize_portable_paths(&mut paths, "included material path").unwrap();
    assert_eq!(paths, strings(&["src/a.rs", "src/b.rs"]));
    let mut twice = strings(&["a", "a"]);
    assert_eq!(
        message(normalize_portable_paths(&mut twice, "included material path")),
        "invalid artifact receipt: included material paths must be unique"
    );
    let mut rooted = strings(&["/etc/passwd"]);
    assert_eq!(
        message(normalize_portable_paths(&mut rooted, "excluded material path")),
        "non-portable artifact path: /etc/passwd"
    );
}

fn spec(id: &str, root: &str, included: &[&str], excluded: &[&str]) -> InputMaterialSpec {
    InputMaterialSpec {
        id: id.to_owned(),
        kind: "cargo-package".to_owned(),
        root: root.to_owned(),
        included_paths: strings(included),
        excluded_paths: strings(excluded),
    }
}

#[test]
fn material_specs_select_files_or_trees_without_aliases() {
    let mut exact = spec("lib", "/deps/lib", &["src/lib.rs", "Cargo.toml"], &[]);
    check_material_tokens(&exact).unwrap();
    normalize_material_paths(&mut exact).unwrap();
    assert_eq!(exact.included_paths, strings(&["Cargo.toml", "src/lib.rs"]));
    assert_eq!(material_selection(&exact), "exact-files-v1");

    let mut both = spec("lib", "/deps/lib", &["src/lib.rs"], &["target"]);
    assert_eq!(
        message(normalize_material_paths(&mut both)),
        "invalid artifact receipt: material \"lib\" cannot combine an exact file selection with exclusions"
    );
    let mut aliases = spec("lib", "/deps/lib", &[], &["Target", "target"]);
    assert_eq!(
        message(normalize_material_paths(&mut aliases)),
        "invalid artifact receipt: excluded material paths contain a portable alias"
    );
    let mut overlapping = spec("lib", "/deps/lib", &["src", "src/lib.rs"], &[]);
    assert!(message(normalize_material_paths(&mut overlapping)).starts_with("artifact namespace collision"));
    let bad = spec("Lib!", "/deps/lib", &[], &[]);
    assert_eq!(message(check_material_tokens(&bad)), "invalid artifact receipt: invalid material id \"Lib!\"");

    let mut specs = vec![spec("b", "/b", &[], &[]), spec("a", "/a", &[], &[])];
    sort_material_specs(&mut specs).unwrap();
    assert_eq!(specs[0].id, "a");
    let mut twice = vec![spec("a", "/b", &[], &[]), spec("a", "/a", &[], &[])];
    assert_eq!(message(sort_material_specs(&mut twice)), "invalid artifact receipt: material ids must be unique");
}

fn invocation() -> BuildInvocation {
    let material = InputMaterial {
        id: "lib".to_owned(),
        kind: "cargo-package".to_owned(),
        selection: "tree-v1".to_owned(),
        file_count: 1,
        total_bytes: 1,
        sha256: sha256_bytes(b"lib"),
    };
    BuildInvocation {
        context: BuildContext {
            ownership: Ownership { project_id: "site".to_owned(), site_package: "site".to_owned() },
            framework: FrameworkEvidence { version: "1".to_owned(), source_revision: "r".to_owned() },
            toolchain: vec![ToolchainEvidence { name: "cargo".to_owned(), version: "1".to_owned() }],
            configuration: Vec::new(),
            sources: vec![EvidenceFile { path: "src/main.rs".to_owned(), bytes: 1, sha256: sha256_bytes(b"m") }],
            materials: vec![material],
            source_set_sha256: sha256_bytes(b"set"),
            excluded_paths: strings(&["target/site"]),
        },
        project_root: "/work/site".to_owned(),
        output_path: "target/site".to_owned(),
        material_specs: vec![spec("lib", "/deps/lib", &[], &[])],
    }
}

#[test]
fn invocations_bind_outputs_materials_and_disjoint_roots() {
    validate_invocation(&invocation()).unwrap();
    let mut unexcluded = invocation();
    unexcluded.output_path = "dist".to_owned();
    assert_eq!(
        message(validate_invocation(&unexcluded)),
        "invalid artifact receipt: build invocation output path is not excluded from its input context"
    );
    let mut mismatched = invocation();
    mismatched.material_specs[0].included_paths = strings(&["src/lib.rs"]);
    assert_eq!(
        message(validate_invocation(&mismatched)),
        "invalid artifact receipt: build invocation material spec \"lib\" does not match its evidence"
    );
    let mut missing = invocation();
    missing.material_specs.clear();
    assert_eq!(
        message(validate_invocation(&missing)),
        "invalid artifact receipt: build invocation material roots do not match its receipt context"
    );
    let mut nested = invocation();
    nested.material_specs[0].root = "/work/site/vendor/lib".to_owned();
    assert_eq!(
        message(validate_invocation(&nested)),
        "invalid artifact receipt: recursive material roots cannot overlap each other or the project root"
    );
    let mut sibling = invocation();
    sibling.material_specs[0].root = "/work/site-lib".to_owned();
    validate_invocation(&sibling).unwrap();
}

#[test]
fn material_constructors_check_and_sort_their_paths() {
    use_material_constructors();
}

fn use_material_constructors() {
    let tree = InputMaterialSpec::tree(
        "cargo-path/x@1".to_owned(),
        "cargo-path-package".to_owned(),
        "/deps/x".to_owned(),
        vec!["target".to_owned(), "node_modules".to_owned()],
    )
    .unwrap();
    assert_eq!(tree.excluded_paths, vec!["node_modules", "target"]);
    assert!(tree.included_paths.is_empty());
    let files = InputMaterialSpec::files(
        "cargo-lock".to_owned(),
        "cargo-lock".to_owned(),
        "/w".to_owned(),
        vec!["Cargo.lock".to_owned()],
    )
    .unwrap();
    assert_eq!(files.included_paths, vec!["Cargo.lock"]);
    assert!(InputMaterialSpec::files("a..b".to_owned(), "k".to_owned(), "/w".to_owned(), vec!["x".to_owned()]).is_err());
    assert!(InputMaterialSpec::files("a".to_owned(), "k".to_owned(), "/w".to_owned(), vec!["x".to_owned(), "X".to_owned()]).is_err());
}
