use pliego::digest::sha256_bytes;
use pliego::layout::{
    check_layout, check_output_evidence, expected_output_directories, validate_output_layout_namespace,
};
use pliego::portable::ArtifactError;
use pliego::receipt::OutputFile;

fn message<T>(r: Result<T, ArtifactError>) -> String {
    match r {
        Ok(_) => panic!("expected an error"),
        Err(e) => e.message(),
    }
}

fn strings(items: &[&str]) -> Vec<String> {
    items.iter().map(|s| s.to_string()).collect()
}

fn output(path: &str) -> OutputFile {
    OutputFile {
        path: path.to_owned(),
        kind: "asset".to_owned(),
        producer: "test".to_owned(),
        bytes: 4,
        sha256: sha256_bytes(path.as_bytes()),
    }
}

#[test]
fn disk_layouts_keep_one_spelling_per_path() {
    validate_output_layout_namespace(&strings(&["a.html", "b/c.html"]), &strings(&["b"])).unwrap();
    assert_eq!(
        message(validate_output_layout_namespace(&strings(&["b/c.html"]), &strings(&["B"]))),
        "artifact namespace collision between \"B\" and \"b\": an explicit directory aliases a directory implied by a file"
    );
    assert_eq!(
        message(validate_output_layout_namespace(&strings(&["a.html"]), &strings(&["a.html"]))),
        "artifact namespace collision between \"a.html\" and \"a.html\": a path is both a file and a directory"
    );
    assert_eq!(
        message(validate_output_layout_namespace(&strings(&[]), &strings(&["X", "x"]))),
        "artifact namespace collision between \"x\" and \"X\": two directories resolve to the same portable path"
    );
    assert!(message(validate_output_layout_namespace(&strings(&["a.html", "A.html"]), &strings(&[])))
        .starts_with("artifact namespace collision"));
}

#[test]
fn declared_outputs_imply_their_directories() {
    let dirs = expected_output_directories(&strings(&["a/b/c.html", "a/d.html", "e.css"])).unwrap();
    assert_eq!(dirs, strings(&["a", "a/b"]));
    assert_eq!(message(expected_output_directories(&strings(&["/abs"]))), "non-portable artifact path: /abs");
}

#[test]
fn verification_detects_missing_extra_and_modified_outputs() {
    let expected = vec![output("assets/site.css"), output("index.html")];
    check_layout(&expected, &strings(&["assets/site.css", "index.html"]), &strings(&["assets"])).unwrap();
    assert_eq!(
        message(check_layout(&expected, &strings(&["index.html"]), &strings(&["assets"]))),
        "declared artifact is missing: assets/site.css"
    );
    assert_eq!(
        message(check_layout(&expected, &strings(&["assets/site.css", "extra.js", "index.html"]), &strings(&["assets"]))),
        "undeclared artifact exists: extra.js"
    );
    assert_eq!(
        message(check_layout(&expected, &strings(&["assets/site.css", "index.html"]), &strings(&["assets", "junk"]))),
        "undeclared artifact exists: junk/"
    );
    check_output_evidence(&expected[1], 4, &sha256_bytes(b"index.html")).unwrap();
    assert_eq!(
        message(check_output_evidence(&expected[1], 5, &sha256_bytes(b"index.html"))),
        "artifact bytes do not match receipt: index.html"
    );
}
