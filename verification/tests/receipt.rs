use pliego::build_graph::{
    BuildGraph, GraphArtifact, GraphRoute, GraphSource, SourceDependencies, BUILD_GRAPH_VERSION,
};
use pliego::digest::sha256_bytes;
use pliego::graph_check::{validate_build_graph_against_report, BUILD_GRAPH_NAME};
use pliego::portable::ArtifactError;
use pliego::receipt::{
    normalize_context, sort_outputs, validate_outputs, validate_report, verify_source_set, ArtifactReceipt,
    BuildContext, BuildReport, EvidenceFile, FrameworkEvidence, InputMaterial, OutputFile, Ownership,
    PreviousOwnership, ToolchainEvidence,
};

fn message<T>(r: Result<T, ArtifactError>) -> String {
    match r {
        Ok(_) => panic!("expected an error"),
        Err(e) => e.message(),
    }
}

fn evidence(path: &str, bytes: &[u8]) -> EvidenceFile {
    EvidenceFile { path: path.to_owned(), bytes: bytes.len() as u64, sha256: sha256_bytes(bytes) }
}

fn tool(name: &str, version: &str) -> ToolchainEvidence {
    ToolchainEvidence { name: name.to_owned(), version: version.to_owned() }
}

fn output(path: &str, kind: &str, producer: &str, bytes: &[u8]) -> OutputFile {
    OutputFile {
        path: path.to_owned(),
        kind: kind.to_owned(),
        producer: producer.to_owned(),
        bytes: bytes.len() as u64,
        sha256: sha256_bytes(bytes),
    }
}

fn source_set_json(context: &BuildContext) -> Vec<u8> {
    let mut sources = context.sources.clone();
    sources.sort_by(|a, b| a.path.cmp(&b.path));
    let mut materials = context.materials.clone();
    materials.sort_by(|a, b| a.id.cmp(&b.id));
    let sources = sources
        .iter()
        .map(|s| format!("{{\"path\":\"{}\",\"bytes\":{},\"sha256\":\"{}\"}}", s.path, s.bytes, s.sha256))
        .collect::<Vec<_>>()
        .join(",");
    let materials = materials
        .iter()
        .map(|m| format!("{{\"id\":\"{}\",\"fileCount\":{},\"sha256\":\"{}\"}}", m.id, m.file_count, m.sha256))
        .collect::<Vec<_>>()
        .join(",");
    format!("[[{sources}],[{materials}]]").into_bytes()
}

fn seal(context: &mut BuildContext) {
    context.source_set_sha256 = sha256_bytes(&source_set_json(context));
}

fn normalize(context: &mut BuildContext) -> Result<(), ArtifactError> {
    let json = source_set_json(context);
    normalize_context(context, &json)
}

fn context() -> BuildContext {
    let sources = vec![evidence("src/main.rs", b"rs")];
    let mut context = BuildContext {
        ownership: Ownership { project_id: "artifact-test".to_owned(), site_package: "artifact-test".to_owned() },
        framework: FrameworkEvidence { version: "0.0.1".to_owned(), source_revision: "test-revision".to_owned() },
        toolchain: vec![tool("cargo", "cargo test"), tool("rustc", "rustc test")],
        configuration: vec![evidence("pliego.toml", b"cfg")],
        source_set_sha256: String::new(),
        sources,
        materials: Vec::new(),
        excluded_paths: vec!["target/site".to_owned()],
    };
    seal(&mut context);
    context
}

fn normalized(mut context: BuildContext) -> Result<BuildContext, ArtifactError> {
    normalize(&mut context)?;
    Ok(context)
}

fn receipt(files: Vec<OutputFile>, previous: Option<PreviousOwnership>) -> Result<ArtifactReceipt, ArtifactError> {
    let context = normalized(context())?;
    let mut files = files;
    sort_outputs(&mut files);
    let json = outputs_json(&files);
    ArtifactReceipt::assemble(context, files, previous, &json)
}

fn outputs_json(files: &[OutputFile]) -> Vec<u8> {
    files.iter().map(|f| f.path.clone()).collect::<Vec<_>>().join("\n").into_bytes()
}

fn receipt_json(receipt: &ArtifactReceipt) -> Vec<u8> {
    format!("{}|{}|{}", receipt.outputs.sha256, receipt.context.source_set_sha256, receipt.context.ownership.project_id)
        .into_bytes()
}

fn report(receipt: ArtifactReceipt) -> Result<BuildReport, ArtifactError> {
    let outputs = outputs_json(&receipt.outputs.files);
    let json = receipt_json(&receipt);
    let source_set = source_set_json(&receipt.context);
    BuildReport::new(receipt, &source_set, &outputs, &json)
}

#[test]
fn receipt_is_order_independent_and_strictly_self_verifying() {
    let left = receipt(
        vec![output("index.html", "route", "/", b"home"), output("assets/site.css", "asset", "css", b"body{}")],
        None,
    )
    .unwrap();
    let right = receipt(
        vec![output("assets/site.css", "asset", "css", b"body{}"), output("index.html", "route", "/", b"home")],
        None,
    )
    .unwrap();
    let left = report(left).unwrap();
    let right = report(right).unwrap();
    assert_eq!(left.receipt_sha256, right.receipt_sha256);
    let paths = |r: &BuildReport| r.receipt.outputs.files.iter().map(|f| f.path.clone()).collect::<Vec<_>>();
    assert_eq!(paths(&left), vec!["assets/site.css", "index.html"]);
    assert_eq!(paths(&left), paths(&right));
    assert_eq!(left.receipt.outputs.sha256, right.receipt.outputs.sha256);
    assert_eq!(left.receipt.outputs.total_bytes, 10);
    assert_eq!(left.receipt.outputs.file_count, 2);
    assert_eq!(left.receipt.replacement_policy.required_previous_project_id, "artifact-test");
    let outputs = outputs_json(&left.receipt.outputs.files);
    let json = receipt_json(&left.receipt);
    validate_report(&left, &source_set_json(&left.receipt.context), &outputs, &json).unwrap();
}

#[test]
fn report_constructor_rejects_invalid_lineage_immediately() {
    let previous = PreviousOwnership {
        project_id: "artifact-test".to_owned(),
        site_package: "artifact-test".to_owned(),
        receipt_sha256: "not-a-sha256".to_owned(),
    };
    let lineage = receipt(vec![output("index.html", "route", "/", b"home")], Some(previous)).unwrap();
    assert_eq!(message(report(lineage)), "invalid artifact receipt: previous receipt has an invalid SHA-256");
}

#[test]
fn lineage_must_name_a_distinct_receipt_of_the_same_project() {
    let previous = PreviousOwnership {
        project_id: "other-project".to_owned(),
        site_package: "site".to_owned(),
        receipt_sha256: sha256_bytes(b"older"),
    };
    let first = receipt(vec![output("index.html", "route", "/", b"home")], Some(previous)).unwrap();
    assert_eq!(
        message(report(first)),
        "invalid artifact receipt: previous ownership must identify a distinct receipt from the required project"
    );
    let previous = PreviousOwnership {
        project_id: "artifact-test".to_owned(),
        site_package: "site".to_owned(),
        receipt_sha256: sha256_bytes(b"older"),
    };
    let second = receipt(vec![output("index.html", "route", "/", b"home")], Some(previous)).unwrap();
    assert!(report(second).is_ok());
}

#[test]
fn tampered_reports_fail_their_own_verification() {
    let good = report(receipt(vec![output("index.html", "route", "/", b"home")], None).unwrap()).unwrap();
    let outputs = outputs_json(&good.receipt.outputs.files);
    let json = receipt_json(&good.receipt);
    let mut wrong_version = good.clone();
    wrong_version.report_version = "1.0.0".to_owned();
    assert_eq!(
        message(validate_report(&wrong_version, &source_set_json(&wrong_version.receipt.context), &outputs, &json)),
        "invalid artifact receipt: unsupported report version \"1.0.0\""
    );
    assert_eq!(
        message(validate_report(&good, &source_set_json(&good.receipt.context), &outputs, b"other receipt")),
        "invalid artifact receipt: receipt SHA-256 mismatch"
    );
    assert_eq!(
        message(validate_report(&good, &source_set_json(&good.receipt.context), b"other outputs", &json)),
        "invalid artifact receipt: output-set aggregate does not match declared files"
    );
    let mut unordered = good.clone();
    unordered.receipt.context.toolchain.reverse();
    assert_eq!(
        message(validate_report(&unordered, &source_set_json(&unordered.receipt.context), &outputs, &json)),
        "invalid artifact receipt: context is not canonically ordered"
    );
}

#[test]
fn normalization_sorts_every_list_and_requires_the_toolchain() {
    let mut shuffled = context();
    shuffled.toolchain.reverse();
    shuffled.configuration.push(evidence("Cargo.toml", b"manifest"));
    shuffled.excluded_paths.insert(0, "zz".to_owned());
    shuffled.excluded_paths.push("aa".to_owned());
    normalize(&mut shuffled).unwrap();
    let names = shuffled.toolchain.iter().map(|t| t.name.clone()).collect::<Vec<_>>();
    assert_eq!(names, vec!["cargo", "rustc"]);
    let configuration = shuffled.configuration.iter().map(|t| t.path.clone()).collect::<Vec<_>>();
    assert_eq!(configuration, vec!["Cargo.toml", "pliego.toml"]);
    assert_eq!(shuffled.excluded_paths, vec!["aa", "target/site", "zz"]);

    let mut missing = context();
    missing.toolchain.clear();
    assert_eq!(
        message(normalize(&mut missing)),
        "invalid artifact receipt: at least one toolchain entry is required"
    );
    let mut blank = context();
    blank.framework.version = "  ".to_owned();
    assert_eq!(
        message(normalize(&mut blank)),
        "invalid artifact receipt: framework version and source revision are required"
    );
    let mut no_cargo = context();
    no_cargo.toolchain = vec![tool("rustc", "1"), tool("wasm-bindgen", "2")];
    assert_eq!(
        message(normalize(&mut no_cargo)),
        "invalid artifact receipt: toolchain must contain cargo and rustc, plus optional wasm-bindgen"
    );
    let mut twice = context();
    twice.toolchain.push(tool("cargo", "again"));
    assert_eq!(
        message(normalize(&mut twice)),
        "invalid artifact receipt: toolchain entries are duplicated or not strictly ordered"
    );
    let mut duplicate = context();
    duplicate.configuration.push(evidence("pliego.toml", b"other"));
    assert_eq!(
        message(normalize(&mut duplicate)),
        "invalid artifact receipt: configuration files are duplicated or not strictly ordered"
    );
    let mut aliased = context();
    aliased.configuration.push(evidence("src/MAIN.rs", b"alias"));
    assert!(message(normalize(&mut aliased)).starts_with("artifact namespace collision between"));
    let mut bad_project = context();
    bad_project.ownership.project_id = "Bad".to_owned();
    assert_eq!(message(normalize(&mut bad_project)), "invalid artifact receipt: invalid project id \"Bad\"");
}

#[test]
fn materials_and_input_counts_are_checked() {
    let material = |id: &str, selection: &str, files: u64| InputMaterial {
        id: id.to_owned(),
        kind: "cargo-package".to_owned(),
        selection: selection.to_owned(),
        file_count: files,
        total_bytes: 10,
        sha256: sha256_bytes(id.as_bytes()),
    };
    let mut ok = context();
    ok.materials = vec![material("b", "tree-v1", 1), material("a", "exact-files-v1", 2)];
    seal(&mut ok);
    normalize(&mut ok).unwrap();
    assert_eq!(ok.materials[0].id, "a");

    let mut empty = context();
    empty.materials = vec![material("a", "tree-v1", 0)];
    assert_eq!(
        message(normalize(&mut empty)),
        "invalid artifact receipt: material \"a\" has an invalid or empty selection"
    );
    let mut unknown = context();
    unknown.materials = vec![material("a", "glob-v1", 3)];
    assert_eq!(
        message(normalize(&mut unknown)),
        "invalid artifact receipt: material \"a\" has an invalid or empty selection"
    );
    let mut bad_id = context();
    bad_id.materials = vec![material("a..b", "tree-v1", 3)];
    assert_eq!(message(normalize(&mut bad_id)), "invalid artifact receipt: invalid material id \"a..b\"");
    let mut too_many = context();
    too_many.materials = vec![material("a", "tree-v1", 100_000)];
    assert_eq!(message(normalize(&mut too_many)), "invalid artifact receipt: input set exceeds 100000 files");
    let mut overflow = context();
    overflow.materials = vec![material("a", "tree-v1", u64::MAX), material("b", "tree-v1", 1)];
    assert_eq!(message(normalize(&mut overflow)), "invalid artifact receipt: input file count overflowed u64");
}

#[test]
fn source_set_digest_and_tool_versions_are_required() {
    let context = normalized(context()).unwrap();
    assert_eq!(
        message(verify_source_set(&context, b"[[],[]]")),
        "invalid artifact receipt: source-set SHA-256 mismatch"
    );
    let mut unnamed = context.clone();
    unnamed.toolchain[1].version = " ".to_owned();
    assert_eq!(
        message(verify_source_set(&unnamed, &source_set_json(&unnamed))),
        "invalid artifact receipt: toolchain name and version are required"
    );
}

#[test]
fn normalization_and_reports_refuse_a_forged_source_set_digest() {
    let mut forged = context();
    forged.sources.push(evidence("src/lib.rs", b"lib"));
    assert_eq!(message(normalize(&mut forged)), "invalid artifact receipt: source-set SHA-256 mismatch");
    let mut unversioned = context();
    unversioned.toolchain[0].version = " ".to_owned();
    let json = source_set_json(&unversioned);
    assert_eq!(
        message(normalize_context(&mut unversioned, &json)),
        "invalid artifact receipt: toolchain name and version are required"
    );
    let good = report(receipt(vec![output("index.html", "route", "/", b"home")], None).unwrap()).unwrap();
    let outputs = outputs_json(&good.receipt.outputs.files);
    let json = receipt_json(&good.receipt);
    assert_eq!(
        message(validate_report(&good, b"[[],[]]", &outputs, &json)),
        "invalid artifact receipt: source-set SHA-256 mismatch"
    );
    let mut tampered = good.clone();
    tampered.receipt.context.source_set_sha256 = sha256_bytes(b"forged");
    let outputs = outputs_json(&tampered.receipt.outputs.files);
    let json = receipt_json(&tampered.receipt);
    assert_eq!(
        message(validate_report(&tampered, &source_set_json(&good.receipt.context), &outputs, &json)),
        "invalid artifact receipt: source-set SHA-256 mismatch"
    );
}

#[test]
fn output_lists_are_ordered_bounded_and_owned() {
    let files = vec![output("a.html", "route", "/", b"a"), output("b.html", "route", "/b", b"b")];
    validate_outputs(&files).unwrap();
    let unordered = vec![output("b.html", "route", "/", b"a"), output("a.html", "route", "/b", b"b")];
    assert_eq!(
        message(validate_outputs(&unordered)),
        "invalid artifact receipt: outputs are duplicated or not strictly ordered"
    );
    let ownerless = vec![output("a.html", "route", " ", b"a")];
    assert_eq!(message(validate_outputs(&ownerless)), "invalid artifact receipt: output kind and producer are required");
    let mut large = output("big.bin", "asset", "x", b"a");
    large.bytes = 512 * 1024 * 1024 + 1;
    assert_eq!(
        message(validate_outputs(&vec![large])),
        "invalid artifact receipt: output \"big.bin\" exceeds the per-file limit of 536870912 bytes"
    );
    let mut many = Vec::new();
    for i in 0..9 {
        let mut f = output(&format!("f{i}.bin"), "asset", "x", b"a");
        f.bytes = 512 * 1024 * 1024;
        many.push(f);
    }
    assert_eq!(
        message(validate_outputs(&many)),
        "invalid artifact receipt: output set exceeds the aggregate limit of 4294967296 bytes"
    );
    let ledger = vec![output("pliego.build.json", "route", "/", b"a")];
    assert!(message(validate_outputs(&ledger)).starts_with("artifact namespace collision between"));
    let mut bad_digest = output("a.html", "route", "/", b"a");
    bad_digest.sha256 = "xyz".to_owned();
    assert_eq!(message(validate_outputs(&vec![bad_digest])), "invalid artifact receipt: output has an invalid SHA-256");
}

fn graph_fixture() -> (BuildGraph, BuildReport) {
    let context = normalized(context()).unwrap();
    let explicit = || SourceDependencies::Explicit { paths: vec!["src/main.rs".to_owned()] };
    let graph = BuildGraph {
        graph_version: BUILD_GRAPH_VERSION.to_owned(),
        project_id: context.ownership.project_id.clone(),
        source_set_sha256: context.source_set_sha256.clone(),
        sources: vec![GraphSource { path: "src/main.rs".to_owned(), sha256: sha256_bytes(b"rs") }],
        routes: vec![GraphRoute { route: "/".to_owned(), sources: explicit(), artifacts: vec!["index.html".to_owned()] }],
        artifacts: vec![GraphArtifact {
            path: "index.html".to_owned(),
            kind: "route".to_owned(),
            producer: "/".to_owned(),
            route: Some("/".to_owned()),
            sources: explicit(),
            sha256: sha256_bytes(b"home"),
        }],
    };
    let receipt = receipt(
        vec![
            output("index.html", "route", "/", b"home"),
            output(BUILD_GRAPH_NAME, "framework", "causal-build-graph", b"{graph}"),
        ],
        None,
    )
    .unwrap();
    (graph, report(receipt).unwrap())
}

#[test]
fn build_graph_is_canonical_bounded_and_receipt_bound() {
    let (graph, report) = graph_fixture();
    let outputs = outputs_json(&report.receipt.outputs.files);
    let json = receipt_json(&report.receipt);
    validate_build_graph_against_report(&graph, &report, &source_set_json(&report.receipt.context), &outputs, &json).unwrap();

    let mut unknown_source = graph.clone();
    unknown_source.routes[0].sources = SourceDependencies::Explicit { paths: vec!["src/missing.rs".to_owned()] };
    assert!(validate_build_graph_against_report(&unknown_source, &report, &source_set_json(&report.receipt.context), &outputs, &json).is_err());

    let mut wrong_output = graph.clone();
    wrong_output.artifacts[0].sha256 = sha256_bytes(b"tampered");
    assert_eq!(
        message(validate_build_graph_against_report(&wrong_output, &report, &source_set_json(&report.receipt.context), &outputs, &json)),
        "invalid artifact receipt: build graph metadata does not match artifact \"index.html\""
    );
    let mut other_project = graph.clone();
    other_project.project_id = "other".to_owned();
    assert_eq!(
        message(validate_build_graph_against_report(&other_project, &report, &source_set_json(&report.receipt.context), &outputs, &json)),
        "invalid artifact receipt: build graph identity does not match the artifact receipt"
    );
    let mut no_sources = graph.clone();
    no_sources.sources[0].sha256 = sha256_bytes(b"other");
    no_sources.artifacts[0].sources = SourceDependencies::AllSources;
    no_sources.routes[0].sources = SourceDependencies::AllSources;
    assert_eq!(
        message(validate_build_graph_against_report(&no_sources, &report, &source_set_json(&report.receipt.context), &outputs, &json)),
        "invalid artifact receipt: build graph sources do not match the artifact receipt"
    );
}

#[test]
fn output_file_records_size_and_digest_of_its_bytes() {
    let f = OutputFile::new("index.html".to_owned(), "route".to_owned(), "/".to_owned(), b"home");
    assert_eq!(f.path, "index.html");
    assert_eq!(f.kind, "route");
    assert_eq!(f.producer, "/");
    assert_eq!(f.bytes, 4);
    assert_eq!(f.sha256, sha256_bytes(b"home"));
    assert_eq!(f.sha256.len(), 64);
}

#[test]
fn artifact_core_ignores_previous_ownership_only() {
    let first = receipt(vec![output("index.html", "route", "/", b"home")], None).unwrap();
    let previous = PreviousOwnership {
        project_id: "artifact-test".to_owned(),
        site_package: "site".to_owned(),
        receipt_sha256: sha256_bytes(b"older"),
    };
    let second = receipt(vec![output("index.html", "route", "/", b"home")], Some(previous)).unwrap();
    assert!(first.same_artifact_core(&second));
    let third = receipt(vec![output("index.html", "route", "/", b"changed")], None).unwrap();
    assert!(!first.same_artifact_core(&third));
    let mut renamed = first.clone();
    renamed.context.sources[0].path = "src/lib.rs".to_owned();
    assert!(!first.same_artifact_core(&renamed));
}

#[test]
fn evidence_records_size_and_digest_of_the_bytes_read() {
    let e = pliego::receipt::evidence_file("src/main.rs".to_owned(), b"fn main() {}\n");
    assert_eq!(e.path, "src/main.rs");
    assert_eq!(e.bytes, 13);
    assert_eq!(e.sha256, sha256_bytes(b"fn main() {}\n"));
}

#[test]
fn receipts_constructed_from_arrangements_agree() {
    let files = vec![output("index.html", "route", "/", b"home"), output("assets/site.css", "asset", "css", b"body{}")];
    let mut reversed = files.clone();
    reversed.reverse();
    let mut sorted = files.clone();
    sort_outputs(&mut sorted);
    let json = outputs_json(&sorted);
    let ctx = context();
    let ss = source_set_json(&ctx);
    let a = ArtifactReceipt::from_context_and_files(ctx.clone(), files, &ss, &json).unwrap();
    let mut shuffled = ctx.clone();
    shuffled.toolchain.reverse();
    let b = ArtifactReceipt::from_context_and_files(shuffled, reversed, &ss, &json).unwrap();
    assert!(a.same_artifact_core(&b));
    assert_eq!(a.outputs.files[0].path, "assets/site.css");
    assert_eq!(
        message(ArtifactReceipt::from_context_and_files(ctx, vec![], b"[[],[]]", &json)),
        "invalid artifact receipt: source-set SHA-256 mismatch"
    );
}
