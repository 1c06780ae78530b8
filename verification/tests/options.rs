use pliego::cli::{parse_new_options, parse_server_options, HostChoice, OutputFormat};
use pliego::sdk_options::{compatibility_format, parse_sdk_options, report_digest, validate_feature, SdkAction, SDK_USAGE};

fn strings(items: &[&str]) -> Vec<String> {
    items.iter().map(|item| item.to_string()).collect()
}

#[test]
fn new_options_take_one_destination_and_each_option_once() {
    let options = parse_new_options(strings(&[
        "my-site",
        "--name",
        "My Site",
        "--template",
        "blog",
        "--framework-path",
        "../pliego",
    ]))
    .unwrap();
    assert_eq!(options.destination.as_deref(), Some("my-site"));
    assert_eq!(options.display_name.as_deref(), Some("My Site"));
    assert_eq!(options.template.as_deref(), Some("blog"));
    assert_eq!(options.framework_path.as_deref(), Some("../pliego"));
    let empty = parse_new_options(vec![]).unwrap();
    assert!(empty.destination.is_none() && empty.display_name.is_none());
    let dashed = parse_new_options(strings(&["--name", "--odd"])).unwrap();
    assert_eq!(dashed.display_name.as_deref(), Some("--odd"));
}

#[test]
fn new_options_refuse_repeats_and_strays() {
    let cases: [(&[&str], &str); 7] = [
        (&["--name", "a", "--name", "b"], "--name may only be provided once"),
        (&["--name"], "--name requires a value"),
        (&["--framework-path"], "--framework-path requires a value"),
        (&["--template", "a", "--template", "b"], "--template may only be provided once"),
        (&["--force"], "unknown option `--force`"),
        (&["a", "b"], "unexpected argument `b`"),
        (&["a", "-"], "unknown option `-`"),
    ];
    for (arguments, message) in cases {
        assert_eq!(parse_new_options(strings(arguments)).unwrap_err(), message);
    }
}

#[test]
fn server_options_read_port_and_host() {
    let options = parse_server_options(vec![], 4173).unwrap();
    assert_eq!(options.port, 4173);
    assert!(matches!(options.host, HostChoice::Loopback));
    let options = parse_server_options(strings(&["8080", "--lan"]), 4173).unwrap();
    assert_eq!(options.port, 8080);
    assert!(matches!(options.host, HostChoice::Unspecified));
    let options = parse_server_options(strings(&["--host", "::1"]), 3000).unwrap();
    assert!(matches!(options.host, HostChoice::Address(ref a) if a == "::1"));
    let options = parse_server_options(strings(&["--host=127.0.0.2", "9"]), 3000).unwrap();
    assert_eq!(options.port, 9);
    assert!(matches!(options.host, HostChoice::Address(ref a) if a == "127.0.0.2"));
}

#[test]
fn server_options_refuse_repeats_and_bad_ports() {
    let cases: [(&[&str], &str); 7] = [
        (&["--lan", "--lan"], "server host may only be provided once"),
        (&["--lan", "--host=::1"], "server host may only be provided once"),
        (&["--host"], "--host requires an IP address"),
        (&["1", "2"], "unexpected server argument `2`"),
        (&["--port"], "unexpected server argument `--port`"),
        (&["0"], "port must be an integer between 1 and 65535"),
        (&["65536"], "port must be an integer between 1 and 65535"),
    ];
    for (arguments, message) in cases {
        assert_eq!(parse_server_options(strings(arguments), 3000).unwrap_err(), message);
    }
}

#[test]
fn feature_ids_are_lowercase_with_interior_hyphens() {
    assert_eq!(validate_feature("ssr-2".to_owned()).unwrap(), "ssr-2");
    for wrong in ["", "-a", "a-", "Ab", "a_b", "é", &"a".repeat(65)] {
        assert_eq!(
            validate_feature(wrong.to_owned()).unwrap_err(),
            "feature IDs use lowercase ASCII letters, digits, and interior hyphens"
        );
    }
    assert!(validate_feature("a".repeat(64)).is_ok());
}

#[test]
fn sdk_options_are_explicit() {
    let options = parse_sdk_options(strings(&[
        "test",
        "ext.json",
        "--feature",
        "zeta",
        "--grant=net",
        "--feature=alpha",
        "--feature",
        "zeta",
        "--format",
        "json",
        "--input=in.json",
    ]))
    .unwrap();
    assert_eq!(options.action, SdkAction::Test);
    assert_eq!(options.manifest, "ext.json");
    assert_eq!(options.grants, vec!["net"]);
    assert_eq!(options.features, vec!["alpha", "zeta"]);
    assert_eq!(options.format, OutputFormat::Json);
    assert_eq!(options.input.as_deref(), Some("in.json"));
    let check = parse_sdk_options(strings(&["check", "ext.json"])).unwrap();
    assert_eq!(check.action, SdkAction::Check);
    assert_eq!(check.format, OutputFormat::Human);
}

#[test]
fn sdk_options_refuse_misuse() {
    let cases: [(&[&str], &str); 8] = [
        (&[], SDK_USAGE),
        (&["run", "m"], SDK_USAGE),
        (&["check"], SDK_USAGE),
        (&["check", "--grant"], SDK_USAGE),
        (&["check", "m", "--input", "x"], "--input is only valid with `sdk test`"),
        (&["test", "m", "--grant"], "--grant requires a value"),
        (&["test", "m", "--format=yaml"], "--format must be `human` or `json`"),
        (&["test", "m", "--verbose"], "unknown SDK option `--verbose`"),
    ];
    for (arguments, message) in cases {
        assert_eq!(parse_sdk_options(strings(arguments)).unwrap_err(), message);
    }
}

#[test]
fn sdk_compatibility_format_is_exact() {
    assert_eq!(compatibility_format(&vec![]).unwrap(), OutputFormat::Human);
    assert_eq!(compatibility_format(&strings(&["--format", "json"])).unwrap(), OutputFormat::Json);
    assert_eq!(compatibility_format(&strings(&["--format=human"])).unwrap(), OutputFormat::Human);
    assert_eq!(compatibility_format(&strings(&["--format=xml"])).unwrap_err(), "--format must be `human` or `json`");
    assert_eq!(
        compatibility_format(&strings(&["--json"])).unwrap_err(),
        "usage: pliego sdk compatibility [--format <human|json>]"
    );
}

#[test]
fn conformance_levels_follow_what_the_test_ran() {
    use_conformance();
}

fn use_conformance() {
    let (level, checks) = pliego::sdk_options::conformance_level(SdkAction::Check, false, false);
    assert_eq!(level, "admission");
    assert_eq!(checks, vec!["schema", "identity", "compatibility", "digest", "capabilities"]);
    let (level, checks) = pliego::sdk_options::conformance_level(SdkAction::Test, true, false);
    assert_eq!(level, "component-instantiation");
    assert_eq!(checks.len(), 8);
    assert_eq!(checks[7], "deny-by-default-runtime");
    let (level, checks) = pliego::sdk_options::conformance_level(SdkAction::Test, false, true);
    assert_eq!(level, "build-transform-execution");
    assert_eq!(&checks[7..], ["deny-by-default-runtime", "typed-build-transform", "runtime-budgets", "digest-bound-output"]);
    let (level, checks) = pliego::sdk_options::conformance_level(SdkAction::Test, false, false);
    assert_eq!(level, "admission");
    assert_eq!(checks.len(), 7);
    assert!(pliego::sdk_options::transform_input_allowed(true, Some("pliego:build/transformer@0.1.0")));
    assert!(!pliego::sdk_options::transform_input_allowed(false, Some("pliego:build/transformer@0.1.0")));
    assert!(!pliego::sdk_options::transform_input_allowed(true, None));
}

#[test]
fn conformance_digests_hash_the_bytes_read() {
    assert_eq!(
        report_digest(b"abc"),
        "sha256:ba7816bf8f01cfea414140de5dae2223b00361a396177a9cb410ff61f20015ad"
    );
    assert_eq!(
        report_digest(b""),
        "sha256:e3b0c44298fc1c149afbf4c8996fb92427ae41e4649b934ca495991b7852b855"
    );
}
