use pliego::cli::{
    cargo_path, css_check_arguments, inject_live_reload, internal_server_error_document,
    is_reload_target, mime_for, not_found_document, output_path_is_safe, package_name,
    parse_doctor_options, parse_global_options, parse_manifest_options, parse_port,
    registry_dependency, reject_unresolved_tokens, should_ignore_development_file,
    should_ignore_directory, should_render_development_diagnostic, title_from_package,
    toml_escape, validate_template_path, CliFailure, DiagnosticFormat, DoctorOptions, FailureKind,
    OutputFormat, MAX_REQUEST_TARGET_BYTES,
};
use pliego::diagnostics::{diagnostic_fixes, diagnostic_spans, parse_diagnostic_location, DiagnosticSpan};
use pliego::project_manifest::{validate_generated_path, validate_manifest, Client, Project, ProjectManifest};

#[test]
fn css_delegation_defaults_to_src_without_overriding_explicit_sources() {
    assert_eq!(
        css_check_arguments(vec!["--seed".to_owned()]),
        ["--source", "src", "--seed"]
    );
    assert_eq!(
        css_check_arguments(vec!["--source=styles".to_owned(), "--seed".to_owned()]),
        ["--source=styles", "--seed"]
    );
    assert_eq!(
        css_check_arguments(vec![
            "--source".to_owned(),
            "styles".to_owned(),
            "--seed".to_owned(),
        ]),
        ["--source", "styles", "--seed"]
    );
}

#[test]
fn preview_serves_plain_text_with_a_text_mime_type() {
    assert_eq!(
        mime_for(".well-known/security.txt"),
        "text/plain; charset=utf-8"
    );
}

#[test]
fn mime_types_follow_the_extension() {
    assert_eq!(mime_for("index.html"), "text/html; charset=utf-8");
    assert_eq!(mime_for("assets/app.wasm"), "application/wasm");
    assert_eq!(mime_for("photo.JPEG"), "application/octet-stream");
    assert_eq!(mime_for(".hidden"), "application/octet-stream");
    assert_eq!(mime_for("archive.tar.gz"), "application/octet-stream");
    assert_eq!(mime_for("site.webmanifest"), "application/json; charset=utf-8");
}

#[test]
fn generated_paths_cannot_target_project_sources_or_windows_prefixes() {
    assert!(validate_generated_path("target/site", "output").is_ok());
    for path in [
        ".",
        "target",
        "src",
        "../outside",
        r"\outside",
        "C:outside",
        "TARGET/site",
        "target/CON",
        "target/site.",
        "target/cafe\u{301}",
    ] {
        assert!(
            validate_generated_path(path, "output").is_err(),
            "unsafe generated path accepted: {path}"
        );
    }
}

fn manifest(id: &str, output: &str, bindgen: Option<&str>) -> ProjectManifest {
    ProjectManifest {
        project: Project {
            id: id.to_owned(),
            name: "Path Proof".to_owned(),
            site_package: "path-proof".to_owned(),
            output: output.to_owned(),
        },
        client: bindgen.map(|b| Client {
            package: "path-proof-client".to_owned(),
            wasm_name: "path_proof_client".to_owned(),
            bindgen_output: b.to_owned(),
        }),
    }
}

#[test]
fn generated_manifest_paths_are_pairwise_disjoint_from_reserved_state() {
    assert!(validate_manifest(&manifest("path-proof", "target/site", Some("target/client/pkg"))).is_ok());
    for (output, bindgen) in [
        ("target/.pliego", "target/client"),
        ("target/.pliego/site", "target/client"),
        ("target/site", "target/.pliego/cache"),
        ("target/.PLIEGO/site", "target/client"),
        ("target/site", "target/site/client"),
        ("target/site/client", "target/site"),
        ("target/Site", "target/site/client"),
        ("target/Stra\u{df}e", "target/STRASSE/client"),
        ("target/\u{ff26}\u{ff2f}\u{ff2f}", "target/foo/client"),
    ] {
        assert!(
            validate_manifest(&manifest("path-proof", output, Some(bindgen))).is_err(),
            "overlapping generated paths were accepted: {output}, {bindgen}"
        );
    }
}

#[test]
fn project_manifest_requires_a_stable_portable_owner_id() {
    for id in ["pliego-site", "site2"] {
        assert!(validate_manifest(&manifest(id, "target/site", None)).is_ok(), "{id}");
    }
    for id in ["", "Uppercase", "starts_with_underscore", "two words"] {
        assert!(validate_manifest(&manifest(id, "target/site", None)).is_err(), "{id:?}");
    }
    assert!(validate_manifest(&manifest("bad-site", "../outside", None)).is_err());
}

#[test]
fn package_names_are_normalized_and_must_start_with_a_letter() {
    assert_eq!(package_name("My New_Pliego").unwrap(), "my-new-pliego");
    assert!(package_name("2026 edition").is_err());
}

#[test]
fn package_titles_capitalize_each_word() {
    assert_eq!(title_from_package("my-new-pliego"), "My New Pliego");
    assert_eq!(title_from_package("a--b"), "A  B");
}

#[test]
fn windows_verbatim_paths_are_valid_cargo_paths() {
    assert_eq!(
        cargo_path(r"\\?\C:\workspace\pliegors\crates\pliego-dom"),
        "C:/workspace/pliegors/crates/pliego-dom"
    );
    assert_eq!(toml_escape(r#"C:\a "b""#), r#"C:\\a \"b\""#);
}

#[test]
fn released_starters_pin_the_exact_registry_version() {
    let dependency = registry_dependency("0.1.0");
    assert_eq!(dependency, format!("{{ version = \"={}\" }}", "0.1.0"));
    assert!(!dependency.contains("git ="));
    assert!(!dependency.contains("path ="));
}

#[test]
fn live_reload_is_injected_before_body_close() {
    let html = inject_live_reload(b"<html><body>Ready</body></html>".to_vec(), 7);
    let html = String::from_utf8(html).unwrap();
    assert!(html.contains("/_pliego/reload?since="));
    assert!(html.contains("connect(7)"));
    assert!(html.contains("pliego:content-hmr"));
    assert!(html.contains("pliego:adapter-hmr"));
    assert!(html.contains("pliego:css-hmr"));
    assert!(html.find("data-pliego-reload").unwrap() < html.find("</body>").unwrap());
    assert_eq!(inject_live_reload(vec![0xff, 0xfe], 1), vec![0xff, 0xfe]);
}

#[test]
fn document_requests_receive_diagnostics_but_assets_do_not() {
    for target in ["/", "/guide", "/guide/", "/index.html"] {
        assert!(should_render_development_diagnostic(target), "{target}");
    }
    for target in ["/assets/site.css", "/favicon.svg", "/app.wasm"] {
        assert!(!should_render_development_diagnostic(target), "{target}");
    }
}

#[test]
fn fallback_http_pages_are_branded_and_escape_the_request() {
    let not_found =
        String::from_utf8(not_found_document("/<script>alert(1)</script>")).unwrap();
    assert!(not_found.contains("PLG-HTTP-404"));
    assert!(not_found.contains("&lt;script&gt;"));
    assert!(!not_found.contains("<script>alert"));
    let internal = String::from_utf8(internal_server_error_document()).unwrap();
    assert!(internal.contains("PLG-HTTP-500"));
}

#[test]
fn reload_long_poll_routing_is_exact_and_target_bounded() {
    assert!(is_reload_target("/_pliego/reload"));
    assert!(is_reload_target("/_pliego/reload?since=7"));
    assert!(!is_reload_target("/_pliego/reload-attacker?since=7"));
    assert!(!is_reload_target("/_pliego/reload/nested"));
    assert!(!is_reload_target(&format!(
        "/_pliego/reload?{}",
        "a".repeat(MAX_REQUEST_TARGET_BYTES)
    )));
}

#[test]
fn development_snapshot_ignores_generated_directories() {
    assert!(should_ignore_directory("target", "target/site"));
    assert!(should_ignore_directory("node_modules/pkg", "dist"));
    assert!(should_ignore_directory("dist", "dist"));
    assert!(!should_ignore_directory("src", "dist"));
    assert!(!should_ignore_directory("src/target", "dist"));
    assert!(!should_ignore_directory("src/node_modules", "dist"));
}

#[test]
fn development_snapshot_ignores_atomic_publication_coordination_files() {
    let token = "a".repeat(64);
    assert!(should_ignore_development_file(&format!(
        "assets/.pliego-{token}.lock"
    )));
    assert!(should_ignore_development_file(&format!(
        "assets/.pliego-{token}-stage-123-0"
    )));
    assert!(should_ignore_development_file(&format!(
        "assets/.pliego-{token}-backup-123-0"
    )));
    assert!(!should_ignore_development_file("assets/pliego.css"));
    assert!(!should_ignore_development_file("assets/.keep.tmp"));
    assert!(!should_ignore_development_file("assets/.pliego.css.pliego.lock"));
    assert!(!should_ignore_development_file(&format!(
        "assets/.pliego-{}-stage-123-0",
        "A".repeat(64)
    )));
}

#[test]
fn global_diagnostic_format_is_removed_from_command_arguments() {
    let (format, arguments) = parse_global_options(vec![
        "build".to_owned(),
        "--diagnostic-format=json".to_owned(),
    ])
    .unwrap();
    assert_eq!(format, DiagnosticFormat::Json);
    assert_eq!(arguments, vec!["build"]);
    let error = parse_global_options(vec![
        "--diagnostic-format=json".to_owned(),
        "--diagnostic-format".to_owned(),
        "human".to_owned(),
    ])
    .unwrap_err();
    assert_eq!(error.kind, FailureKind::Usage);
    assert_eq!(error.message, "--diagnostic-format may only be provided once");
    let (_, kept) = parse_global_options(vec!["new".to_owned(), "--name".to_owned(), "--diagnostic-format".to_owned()]).unwrap();
    assert_eq!(kept, vec!["new", "--name", "--diagnostic-format"]);
}

#[test]
fn stable_failure_codes_match_the_cli_contract() {
    assert_eq!(FailureKind::Usage.code(), 2);
    assert_eq!(FailureKind::Project.code(), 3);
    assert_eq!(FailureKind::Scaffold.code(), 3);
    assert_eq!(FailureKind::Check.code(), 4);
    assert_eq!(FailureKind::Build.code(), 5);
    assert_eq!(FailureKind::Artifact.code(), 6);
    assert_eq!(FailureKind::Server.code(), 7);
    assert_eq!(FailureKind::Build.diagnostic_code(), "PLG-BLD-001");
}

#[test]
fn template_paths_must_be_portable() {
    assert!(validate_template_path("assets/image.webp").is_ok());
    assert!(validate_template_path("../escape").is_err());
    assert!(validate_template_path("assets/CON.txt").is_err());
    assert!(validate_template_path("assets/trailing.").is_err());
    assert!(validate_template_path("assets/bad:name").is_err());
}

#[test]
fn unresolved_render_tokens_are_rejected() {
    assert!(reject_unresolved_tokens("README.md", b"# __NAME__").is_err());
    assert!(reject_unresolved_tokens("image.bin", &[0xff, 0x00]).is_ok());
    assert_eq!(
        reject_unresolved_tokens("Cargo.toml", b"x = __PACKAGE__").unwrap_err(),
        "unresolved template token `__PACKAGE__` in Cargo.toml"
    );
}

#[test]
fn options_are_explicit_and_bounded() {
    let (_, options) = parse_manifest_options(
        vec![
            "pliego.pboc.json".to_owned(),
            "--host".to_owned(),
            "cloudflare".to_owned(),
            "--root".to_owned(),
            "bundle".to_owned(),
        ],
        true,
    )
    .unwrap();
    assert_eq!(options.host.as_deref(), Some("cloudflare"));
    assert_eq!(options.root.as_deref(), Some("bundle"));
    assert!(parse_manifest_options(vec!["manifest".to_owned()], true).is_err());
}

#[test]
fn doctor_options_are_exact() {
    assert_eq!(
        parse_doctor_options(vec!["--format=json".to_owned()]).unwrap(),
        DoctorOptions {
            format: OutputFormat::Json
        }
    );
    assert!(parse_doctor_options(vec!["--json".to_owned()]).is_err());
    assert!(parse_doctor_options(vec!["--format".to_owned(), "yaml".to_owned()]).is_err());
}

#[test]
fn output_paths_are_strictly_relative() {
    for accepted in ["target/site", "site", "./site"] {
        assert!(output_path_is_safe(accepted));
    }
    for rejected in ["../site", "/tmp/site", ""] {
        assert!(!output_path_is_safe(rejected));
    }
}

#[test]
fn ports_are_positive_sixteen_bit_integers() {
    assert_eq!(parse_port(None, 4173).unwrap(), 4173);
    assert_eq!(parse_port(Some("8080".to_owned()), 1).unwrap(), 8080);
    assert!(parse_port(Some("0".to_owned()), 1).is_err());
    assert!(parse_port(Some("65536".to_owned()), 1).is_err());
    assert!(parse_port(Some("http".to_owned()), 1).is_err());
}

#[test]
fn diagnostics_extract_compiler_and_manifest_spans_with_bounded_fixes() {
    let compiler = "error[E0000]: example\n  --> C:\\work\\src\\main.rs:12:7\nhelp: replace the invalid expression";
    assert_eq!(
        diagnostic_spans(compiler),
        vec![DiagnosticSpan {
            file: Some(r"C:\work\src\main.rs".to_owned()),
            line: 12,
            column: 7,
            label: "compiler primary",
        }]
    );
    let failure = CliFailure::new(FailureKind::Build, compiler.to_owned());
    assert!(diagnostic_fixes(&failure)
        .iter()
        .any(|fix| fix.message == "replace the invalid expression"));

    let manifest = r"C:\work\pliego.toml: TOML parse error at line 4, column 9";
    assert_eq!(diagnostic_spans(manifest)[0].line, 4);
    assert_eq!(diagnostic_spans(manifest)[0].column, 9);
}

#[test]
fn diagnostic_spans_are_distinct_bounded_and_positive() {
    let repeated = "--> src/a.rs:1:2\n--> src/a.rs:1:2\r\n  --> src/b.rs:3:4 \n--> src/c.rs:0:1\n--> nofile:5";
    let spans = diagnostic_spans(repeated);
    assert_eq!(spans.len(), 2);
    assert_eq!(spans[1].file.as_deref(), Some("src/b.rs"));
    let many: String = (1..=20).map(|n| format!("--> src/{n}.rs:{n}:1\n")).collect();
    assert_eq!(diagnostic_spans(&many).len(), 16);
    assert!(diagnostic_spans("plain failure").is_empty());
    assert!(parse_diagnostic_location(":1:1", "x").is_none());
    assert_eq!(
        parse_diagnostic_location("a:b:3:4", "x").unwrap().file.as_deref(),
        Some("a:b")
    );
}

#[test]
fn fixes_are_sorted_unique_and_include_the_kind_help() {
    let failure = CliFailure::new(
        FailureKind::Build,
        "help: zebra\n= help: alpha\nhelp: zebra\nhelp:    \nhelp: bell\u{7}ring".to_owned(),
    );
    let fixes = diagnostic_fixes(&failure);
    let messages: Vec<&str> = fixes.iter().map(|fix| fix.message.as_str()).collect();
    assert_eq!(
        messages,
        [
            "Correct the reported compiler or site builder error, then run `pliego build` again.",
            "alpha",
            "bellring",
            "zebra"
        ]
    );
    assert!(fixes.iter().all(|fix| fix.applicability == "manual"));
}
