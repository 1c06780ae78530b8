use pliego::rebuild::DevState;
use pliego::build_graph::{
    BuildGraph, GraphArtifact, GraphRoute, GraphSource, SourceDependencies, BUILD_GRAPH_VERSION,
};
use pliego::digest::sha256_bytes;
use pliego::rebuild::{
    classify_hmr, dependencies_touch, explain_artifact, explain_rebuild, validate_rebuild_record, HmrKind, HmrUpdate,
    RebuildRecord, VerifiedGraph, REBUILD_RECORD_VERSION,
};
use pliego::receipt::{
    ArtifactReceipt, BuildContext, BuildReport, EvidenceFile, FrameworkEvidence, OutputSet, Ownership,
    ReplacementPolicy,
};

fn graph(css: &[u8], html: &[u8]) -> VerifiedGraph {
    let source = GraphSource { path: "src/main.rs".to_owned(), sha256: sha256_bytes(b"source") };
    let dependencies = SourceDependencies::Explicit { paths: vec![source.path.clone()] };
    let graph = BuildGraph {
        graph_version: BUILD_GRAPH_VERSION.to_owned(),
        project_id: "dev-test".to_owned(),
        source_set_sha256: "1".repeat(64),
        sources: vec![source],
        routes: vec![GraphRoute {
            route: "/".to_owned(),
            sources: dependencies.clone(),
            artifacts: vec!["index.html".to_owned()],
        }],
        artifacts: vec![
            GraphArtifact {
                path: "assets/site.css".to_owned(),
                kind: "asset".to_owned(),
                producer: "assets/site.css".to_owned(),
                route: None,
                sources: dependencies.clone(),
                sha256: sha256_bytes(css),
            },
            GraphArtifact {
                path: "index.html".to_owned(),
                kind: "route".to_owned(),
                producer: "/".to_owned(),
                route: Some("/".to_owned()),
                sources: dependencies,
                sha256: sha256_bytes(html),
            },
        ],
    };
    let context = BuildContext {
        ownership: Ownership { project_id: "dev-test".to_owned(), site_package: "dev-test".to_owned() },
        framework: FrameworkEvidence { version: "0.0.1".to_owned(), source_revision: "test".to_owned() },
        toolchain: Vec::new(),
        configuration: Vec::new(),
        sources: vec![EvidenceFile { path: "src/main.rs".to_owned(), bytes: 6, sha256: sha256_bytes(b"source") }],
        materials: Vec::new(),
        source_set_sha256: "1".repeat(64),
        excluded_paths: Vec::new(),
    };
    VerifiedGraph {
        graph,
        report: BuildReport {
            report_version: "test".to_owned(),
            receipt_sha256: sha256_bytes(html),
            receipt: ArtifactReceipt {
                receipt_version: "test".to_owned(),
                namespace_version: "test".to_owned(),
                context,
                replacement_policy: ReplacementPolicy { required_previous_project_id: "dev-test".to_owned() },
                previous_ownership: None,
                outputs: OutputSet { files: Vec::new(), file_count: 0, total_bytes: 0, sha256: sha256_bytes(css) },
            },
        },
    }
}

#[test]
fn rebuild_explanation_selects_precise_hmr_kind() {
    let before = graph(b"a", b"home");
    let after = graph(b"b", b"home");
    let record = explain_rebuild(7, &vec!["src/main.rs".to_owned()], Some(&before), &after);
    assert_eq!(record.hmr.kind, HmrKind::Css);
    assert_eq!(record.changed_artifacts, ["assets/site.css"]);
    assert_eq!(record.affected_routes, ["/"]);
}

#[test]
fn unknown_build_input_forces_conservative_invalidation() {
    let before = graph(b"a", b"home");
    let after = graph(b"a", b"changed");
    let record = explain_rebuild(8, &vec!["Cargo.toml".to_owned()], Some(&before), &after);
    assert_eq!(record.hmr.kind, HmrKind::Content);
    assert_eq!(record.affected_routes, ["/"]);
    assert_eq!(record.affected_artifacts.len(), 2);
}

#[test]
fn rebuild_record_carries_paths_generation_and_receipts() {
    let before = graph(b"a", b"home");
    let after = graph(b"b", b"next");
    let record = explain_rebuild(9, &vec!["src/main.rs".to_owned()], Some(&before), &after);
    assert_eq!(record.record_version, REBUILD_RECORD_VERSION);
    assert_eq!(record.generation, 9);
    assert_eq!(record.changed_artifacts, ["assets/site.css", "index.html"]);
    assert_eq!(record.hmr.kind, HmrKind::Reload);
    assert_eq!(record.hmr.paths, ["/assets/site.css", "/index.html"]);
    assert_eq!(record.hmr.routes, ["/"]);
    assert_eq!(record.receipt_before, Some(sha256_bytes(b"home")));
    assert_eq!(record.receipt_after, sha256_bytes(b"next"));
    validate_rebuild_record(&record).unwrap();

    let first = explain_rebuild(1, &Vec::new(), None, &after);
    assert_eq!(first.receipt_before, None);
    assert_eq!(first.hmr.kind, HmrKind::Reload);
    assert!(first.affected_routes.is_empty());
    assert_eq!(first.changed_artifacts, ["assets/site.css", "index.html"]);

    let unchanged = explain_rebuild(2, &Vec::new(), Some(&after), &after);
    assert_eq!(unchanged.hmr.kind, HmrKind::Unchanged);
    assert!(unchanged.hmr.paths.is_empty());
}

#[test]
fn hmr_kinds_follow_the_changed_artifacts() {
    let mut g = graph(b"a", b"home").graph;
    g.artifacts.push(GraphArtifact {
        path: "pkg/app.wasm".to_owned(),
        kind: "asset".to_owned(),
        producer: "client".to_owned(),
        route: None,
        sources: SourceDependencies::AllSources,
        sha256: sha256_bytes(b"wasm"),
    });
    let routes = vec!["/".to_owned()];
    assert_eq!(classify_hmr(&vec!["pkg/app.wasm".to_owned()], &routes, &g).kind, HmrKind::Adapter);
    assert_eq!(classify_hmr(&vec!["index.html".to_owned()], &routes, &g).kind, HmrKind::Content);
    assert_eq!(classify_hmr(&vec!["missing.css".to_owned()], &routes, &g).kind, HmrKind::Reload);
    let update = classify_hmr(&vec![], &routes, &g);
    assert_eq!(update.kind, HmrKind::Unchanged);
    assert_eq!(update.routes, routes);
    assert_eq!(HmrUpdate::reload().kind, HmrKind::Reload);
}

#[test]
fn dependencies_touch_changed_sources() {
    let changed = vec!["src/lib.rs".to_owned()];
    assert!(dependencies_touch(&SourceDependencies::AllSources, &changed));
    assert!(!dependencies_touch(&SourceDependencies::AllSources, &Vec::new()));
    let explicit = SourceDependencies::Explicit { paths: vec!["src/main.rs".to_owned(), "src/lib.rs".to_owned()] };
    assert!(dependencies_touch(&explicit, &changed));
    assert!(!dependencies_touch(&explicit, &vec!["README.md".to_owned()]));
}

#[test]
fn rebuild_records_reject_unordered_or_foreign_content() {
    let after = graph(b"b", b"next");
    let record = explain_rebuild(3, &vec!["src/main.rs".to_owned()], None, &after);
    let mut unordered: RebuildRecord = record.clone();
    unordered.changed_artifacts.reverse();
    assert_eq!(validate_rebuild_record(&unordered).unwrap_err(), "rebuild record contains an invalid path set");
    let mut foreign = record.clone();
    foreign.record_version = "other".to_owned();
    assert_eq!(validate_rebuild_record(&foreign).unwrap_err(), "unsupported or invalid rebuild record");
    let mut short = record.clone();
    short.receipt_after = "abc".to_owned();
    assert_eq!(validate_rebuild_record(&short).unwrap_err(), "unsupported or invalid rebuild record");
    let mut long_path = record;
    long_path.changed_sources = vec!["a".repeat(4097)];
    assert_eq!(validate_rebuild_record(&long_path).unwrap_err(), "rebuild record contains an invalid path set");
}

#[test]
fn artifacts_are_explained_by_route_or_path() {
    let g = graph(b"a", b"home").graph;
    assert_eq!(
        explain_artifact(&g, " / ").unwrap(),
        format!("index.html via route / <- src/main.rs\nproducer: /\nsha256: {}", sha256_bytes(b"home"))
    );
    assert_eq!(
        explain_artifact(&g, "//assets/site.css").unwrap(),
        format!("assets/site.css <- src/main.rs\nproducer: assets/site.css\nsha256: {}", sha256_bytes(b"a"))
    );
    let mut all = g.clone();
    all.artifacts[0].sources = SourceDependencies::AllSources;
    assert_eq!(
        explain_artifact(&all, "assets/site.css").unwrap(),
        format!(
            "assets/site.css <- all 1 captured project sources (conservative edge)\nproducer: assets/site.css\nsha256: {}",
            sha256_bytes(b"a")
        )
    );
    assert_eq!(
        explain_artifact(&g, "missing").unwrap_err(),
        "artifact or route \"missing\" is not present in the current build graph"
    );
}

#[test]
fn development_state_publishes_generations() {
    let mut state = DevState::new(Some("initial build failed".to_owned()));
    assert_eq!(state.generation, 0);
    assert_eq!(state.failure().as_deref(), Some("initial build failed"));
    assert_eq!(state.update().kind, HmrKind::Reload);
    let update = HmrUpdate { kind: HmrKind::Css, paths: vec!["/app.css".to_owned()], routes: vec![] };
    assert_eq!(state.publish(None, update), 1);
    assert_eq!(state.failure(), None);
    let current = state.update();
    assert_eq!(current.kind, HmrKind::Css);
    assert_eq!(current.paths, vec!["/app.css"]);
    assert_eq!(state.publish(Some("broken".to_owned()), HmrUpdate::reload()), 2);
    assert_eq!(state.failure().as_deref(), Some("broken"));
}
