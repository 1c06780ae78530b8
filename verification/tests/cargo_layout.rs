use pliego::cargo_layout::{
    cargo_target_output_child, display_items, forbidden_build_environment_name, looks_like_rust_target_triple,
    portable_path_components, validate_generated_path_outside_cargo_layout,
};
use pliego::portable::PortablePath;

#[test]
fn target_triples_are_recognized_by_architecture() {
    assert!(looks_like_rust_target_triple("x86_64-unknown-linux-gnu"));
    assert!(looks_like_rust_target_triple("wasm32-unknown-unknown"));
    assert!(looks_like_rust_target_triple("thumbv7em-none-eabihf"));
    assert!(!looks_like_rust_target_triple("wasm32-wasi"));
    assert!(!looks_like_rust_target_triple("site-pages-output"));
    assert!(!looks_like_rust_target_triple("debug"));
}

#[test]
fn reproducible_builds_refuse_toolchain_overrides() {
    for name in ["RUSTC", "rustflags", "CARGO_BUILD_TARGET", "cargo_profile_release_lto", "CARGO_TARGET_X86_64_LINKER"] {
        assert!(forbidden_build_environment_name(name), "{name}");
    }
    for name in ["CARGO_TARGET_DIR", "PATH", "CARGO_HOME", "RUST_LOG"] {
        assert!(!forbidden_build_environment_name(name), "{name}");
    }
}

#[test]
fn cargo_targets_name_their_output_directory() {
    assert_eq!(cargo_target_output_child("x86_64-unknown-linux-gnu").unwrap(), "x86_64-unknown-linux-gnu");
    assert_eq!(cargo_target_output_child("specs/Custom.json").unwrap(), "custom");
    assert_eq!(cargo_target_output_child("C:\\targets\\board.json").unwrap(), "board");
    assert_eq!(cargo_target_output_child("specs/").unwrap_err(), "invalid Cargo build target \"specs/\"");
    assert!(cargo_target_output_child("bad:name").unwrap_err().starts_with("Cargo build target \"bad:name\" is not portable"));
}

#[test]
fn generated_paths_keep_clear_of_cargo_owned_children() {
    let children = vec!["debug".to_owned(), "release".to_owned()];
    let site = PortablePath::parse("target/site").unwrap();
    validate_generated_path_outside_cargo_layout(&site, "output", &children).unwrap();
    let debug = PortablePath::parse("target/Debug/site").unwrap();
    assert_eq!(
        validate_generated_path_outside_cargo_layout(&debug, "output", &children).unwrap_err(),
        "output target/Debug/site overlaps Cargo-owned target layout \"debug\""
    );
    let triple = PortablePath::parse("target/wasm32-unknown-unknown/pkg").unwrap();
    assert!(validate_generated_path_outside_cargo_layout(&triple, "client", &children).is_err());
    let top = PortablePath::parse("target").unwrap();
    assert_eq!(
        validate_generated_path_outside_cargo_layout(&top, "output", &children).unwrap_err(),
        "output must be below target/"
    );
}

#[test]
fn items_and_components_are_displayed_portably() {
    assert_eq!(display_items(&vec![]), "none");
    assert_eq!(display_items(&vec!["a".to_owned(), "b".to_owned()]), "a, b");
    assert_eq!(portable_path_components("/work//site/", "root").unwrap(), "work/site");
    assert_eq!(portable_path_components("/", "root").unwrap_err(), "root cannot be a filesystem root");
    assert_eq!(
        portable_path_components("/work/../site", "root").unwrap_err(),
        "root contains a non-normal component: /work/../site"
    );
}

use pliego::cargo_layout::{
    cargo_owned_target_children, check_absolute_target_overlap, check_relative_target_overlap,
    check_target_directory, configured_targets, generated_outputs, is_default_target, portable_relative_path,
    BuildTargetSetting, ConfiguredTargets,
};

fn configured(path: &str, setting: BuildTargetSetting) -> ConfiguredTargets {
    ConfiguredTargets { path: path.to_owned(), setting }
}

#[test]
fn configured_build_targets_are_strings_in_file_order() {
    let files = vec![
        configured("/p/.cargo/config.toml", BuildTargetSetting::One("wasm32-wasip1".to_owned())),
        configured("/.cargo/config", BuildTargetSetting::Unset),
        configured(
            "/h/config.toml",
            BuildTargetSetting::Many(vec![Some("x.json".to_owned()), Some("aarch64-apple-darwin".to_owned())]),
        ),
    ];
    assert_eq!(configured_targets(&files).unwrap(), vec!["wasm32-wasip1", "x.json", "aarch64-apple-darwin"]);
    let bad_list = vec![configured("/c", BuildTargetSetting::Many(vec![Some("a".to_owned()), None]))];
    assert_eq!(configured_targets(&bad_list).unwrap_err(), "Cargo build.target in /c must contain only strings");
    let bad_kind = vec![configured("/d", BuildTargetSetting::Other)];
    assert_eq!(
        configured_targets(&bad_kind).unwrap_err(),
        "Cargo build.target in /d must be a string or string array"
    );
}

#[test]
fn cargo_owned_children_join_defaults_builtins_and_configuration() {
    let children = cargo_owned_target_children(
        "x86_64-unknown-linux-gnu\r\n\naarch64-apple-darwin\n",
        &vec!["specs/custom-target.json".to_owned(), "debug".to_owned()],
    )
    .unwrap();
    assert_eq!(
        children,
        vec![
            ".rustc_info.json",
            "aarch64-apple-darwin",
            "cachedir.tag",
            "custom-target",
            "debug",
            "doc",
            "package",
            "release",
            "tmp",
            "wasm32-unknown-unknown",
            "x86_64-unknown-linux-gnu",
        ]
    );
    assert_eq!(
        cargo_owned_target_children("ok\n", &vec!["dir/".to_owned()]).unwrap_err(),
        "invalid Cargo build target \"dir/\""
    );
}

#[test]
fn target_directory_must_be_absolute_and_portable() {
    assert_eq!(check_target_directory("/work/site/target").unwrap().as_str(), "work/site/target");
    assert_eq!(
        check_target_directory("target").unwrap_err(),
        "Cargo metadata target_directory must be absolute: target"
    );
    assert_eq!(check_target_directory("/").unwrap_err(), "Cargo target directory cannot be a filesystem root");
    assert_eq!(portable_relative_path("a/b", "label").unwrap().as_str(), "a/b");
    assert!(portable_relative_path("a/../b", "label").unwrap_err().starts_with("label contains a non-normal component"));
}

#[test]
fn generated_paths_must_not_overlap_the_target_directory() {
    let generated = generated_outputs("target/site", Some("target/pkg")).unwrap();
    let labels: Vec<&str> = generated.iter().map(|g| g.label.as_str()).collect();
    assert_eq!(labels, vec!["build context", "project.output", "client.bindgen_output"]);
    assert_eq!(generated[0].path.as_str(), "target/.pliego");
    assert_eq!(generated_outputs("site", None).unwrap_err(), "project.output must be a generated path below target/, for example target/site");
    let relative = Some(PortablePath::parse("target").unwrap());
    assert!(is_default_target(&relative));
    assert!(!is_default_target(&None));
    assert_eq!(
        check_relative_target_overlap("/w/target", &relative, &generated[1]).unwrap_err(),
        "Cargo target directory /w/target overlaps project.output target/site; choose disjoint directories"
    );
    let elsewhere = Some(PortablePath::parse("build/cargo").unwrap());
    assert!(check_relative_target_overlap("/w/build/cargo", &elsewhere, &generated[1]).is_ok());
    assert!(check_absolute_target_overlap("/t", "/t", &generated[2], "/t/pkg").is_err());
    assert!(check_absolute_target_overlap("/t", "/t", &generated[2], "/tp").is_ok());
}

#[test]
fn build_overrides_in_the_environment_are_named_once_in_order() {
    use_check_build_environment();
}

fn use_check_build_environment() {
    let names: Vec<String> = ["PATH", "RUSTFLAGS", "cargo_profile_release_lto", "CARGO_TARGET_DIR", "RUSTFLAGS", "HOME"]
        .iter()
        .map(|n| n.to_string())
        .collect();
    assert_eq!(
        pliego::cargo_layout::check_build_environment(&names).unwrap_err(),
        "reproducible PliegoRS commands reject build overrides from the environment: RUSTFLAGS, cargo_profile_release_lto; move intentional settings into committed .cargo/config.toml"
    );
    let clean: Vec<String> = vec!["PATH".to_owned(), "CARGO_TARGET_DIR".to_owned()];
    assert!(pliego::cargo_layout::check_build_environment(&clean).is_ok());
}
