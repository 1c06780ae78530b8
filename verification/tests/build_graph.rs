use pliego::build_graph::{
    validate_build_graph, validate_sha256, BuildGraph, GraphArtifact, GraphRoute, GraphSource,
    SourceDependencies, BUILD_GRAPH_VERSION,
};
use pliego::digest::sha256_bytes;
use pliego::portable::ArtifactError;

fn message(r: Result<(), ArtifactError>) -> String {
    match r {
        Ok(()) => panic!("expected an error"),
        Err(e) => e.message(),
    }
}

fn explicit(paths: &[&str]) -> SourceDependencies {
    SourceDependencies::Explicit { paths: paths.iter().map(|p| p.to_string()).collect() }
}

fn graph() -> BuildGraph {
    BuildGraph {
        graph_version: BUILD_GRAPH_VERSION.to_owned(),
        project_id: "demo-site".to_owned(),
        source_set_sha256: sha256_bytes(b"sources"),
        sources: vec![GraphSource { path: "src/main.rs".to_owned(), sha256: sha256_bytes(b"rs") }],
        routes: vec![GraphRoute {
            route: "/".to_owned(),
            sources: explicit(&["src/main.rs"]),
            artifacts: vec!["index.html".to_owned()],
        }],
        artifacts: vec![GraphArtifact {
            path: "index.html".to_owned(),
            kind: "route".to_owned(),
            producer: "/".to_owned(),
            route: Some("/".to_owned()),
            sources: explicit(&["src/main.rs"]),
            sha256: sha256_bytes(b"home"),
        }],
    }
}

#[test]
fn canonical_graph_is_accepted() {
    assert!(validate_build_graph(&graph()).is_ok());
    let mut all = graph();
    all.routes[0].sources = SourceDependencies::AllSources;
    all.artifacts[0].sources = SourceDependencies::AllSources;
    assert!(validate_build_graph(&all).is_ok());
}

#[test]
fn unknown_source_dependency_is_rejected() {
    let mut g = graph();
    g.routes[0].sources = explicit(&["src/missing.rs"]);
    assert_eq!(
        message(validate_build_graph(&g)),
        "invalid artifact receipt: build graph dependency \"src/missing.rs\" is not a captured project source"
    );
    let mut g = graph();
    g.routes[0].sources = explicit(&[]);
    assert_eq!(
        message(validate_build_graph(&g)),
        "invalid artifact receipt: explicit build graph dependencies cannot be empty"
    );
}

#[test]
fn routes_and_artifacts_must_agree_on_their_edge() {
    let mut g = graph();
    g.artifacts[0].sources = SourceDependencies::AllSources;
    assert_eq!(
        message(validate_build_graph(&g)),
        "invalid artifact receipt: build graph route \"/\" and artifact \"index.html\" disagree on their causal edge"
    );
    let mut g = graph();
    g.routes[0].artifacts = vec!["missing.html".to_owned()];
    assert_eq!(
        message(validate_build_graph(&g)),
        "invalid artifact receipt: build graph route \"/\" references unknown artifact \"missing.html\""
    );
    let mut g = graph();
    g.artifacts[0].route = Some("/about".to_owned());
    assert_eq!(
        message(validate_build_graph(&g)),
        "invalid artifact receipt: build graph artifact \"index.html\" references unknown route \"/about\""
    );
}

#[test]
fn graph_identity_order_and_paths_are_checked() {
    let mut g = graph();
    g.graph_version = "0.9.0".to_owned();
    assert_eq!(
        message(validate_build_graph(&g)),
        "invalid artifact receipt: unsupported build graph version \"0.9.0\""
    );
    let mut g = graph();
    g.project_id = "Demo".to_owned();
    assert_eq!(message(validate_build_graph(&g)), "invalid artifact receipt: invalid project id \"Demo\"");
    let mut g = graph();
    g.sources.push(GraphSource { path: "src/a.rs".to_owned(), sha256: sha256_bytes(b"a") });
    assert_eq!(
        message(validate_build_graph(&g)),
        "invalid artifact receipt: build graph sources are duplicated, non-canonical, or not strictly ordered"
    );
    let mut g = graph();
    g.routes[0].route = "about".to_owned();
    g.artifacts[0].route = None;
    assert_eq!(
        message(validate_build_graph(&g)),
        "invalid artifact receipt: build graph route is invalid, duplicated, or not strictly ordered: \"about\""
    );
    let mut g = graph();
    g.sources[0].path = "../escape.rs".to_owned();
    assert_eq!(message(validate_build_graph(&g)), "non-portable artifact path: ../escape.rs");
    let mut g = graph();
    g.artifacts[0].sha256 = "00".to_owned();
    assert_eq!(
        message(validate_build_graph(&g)),
        "invalid artifact receipt: build graph artifact has an invalid SHA-256"
    );
    assert!(validate_sha256(&sha256_bytes(b"x"), "x").is_ok());
    assert!(validate_sha256(&sha256_bytes(b"x").to_uppercase(), "x").is_err());
}
