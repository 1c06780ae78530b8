use pliego::adapters::{
    bundled_module, policy_bootstrap_bytes, validate_id, validate_module_path, wasm_bootstrap,
    AdapterCapability, AdapterPolicy, DataPolicy, EsbuildBundler, LoadTrigger, MotionPolicy,
    PerformanceTier, POLICY_BOOTSTRAP_JS,
};

#[test]
fn workspace_bundler_uses_the_platform_executable() {
    let bundler = EsbuildBundler::from_workspace("workspace", false);
    assert_eq!(bundler.executable(), "workspace/node_modules/.bin/esbuild");
    let windows = EsbuildBundler::from_workspace("workspace", true);
    assert_eq!(windows.executable(), "workspace/node_modules/.bin/esbuild.cmd");
}

#[test]
fn policy_bootstrap_resolves_requested_tier_before_adapter_loading() {
    assert!(POLICY_BOOTSTRAP_JS.contains("__PLIEGO_REQUESTED_TIER__"));
    assert!(POLICY_BOOTSTRAP_JS.contains("__PLIEGO_REQUESTED_MOTION__"));
    assert!(POLICY_BOOTSTRAP_JS.contains("dataset.pliegoTier=p"));
    assert!(POLICY_BOOTSTRAP_JS.contains("__PLIEGO_ACTIVE_TIER__=p"));
    assert_eq!(policy_bootstrap_bytes(), POLICY_BOOTSTRAP_JS.as_bytes());
}

#[test]
fn wasm_bootstrap_is_framework_owned_and_rejects_escape_paths() {
    assert_eq!(
        wasm_bootstrap("./client.js").unwrap(),
        b"import init from './client.js';init();\n"
    );
    assert!(wasm_bootstrap("../client.js").is_err());
    assert!(wasm_bootstrap("https://example.com/client.js").is_err());
    assert!(wasm_bootstrap("./nested/client.js").is_err());
    assert!(wasm_bootstrap("./%2e%2e-client.js").is_err());
    assert!(wasm_bootstrap("./client?debug=.js").is_err());
}

#[test]
fn adapter_module_paths_must_be_immutable_assets() {
    assert!(validate_module_path("/assets/visit.1234.js").is_ok());
    assert!(validate_module_path("https://example.com/scene.js").is_err());
    assert!(validate_module_path("/assets/../secret.js").is_err());
    assert!(validate_module_path("/assets/%2e%2e/secret.js").is_err());
    assert!(validate_module_path("/assets/scene.js?mutable=1").is_err());
    assert!(validate_module_path("/assets/scene.mjs").is_err());
    assert!(validate_module_path("/assets/escena-ñ.js").is_err());
    assert!(validate_module_path("/assets//scene.js").is_err());
    assert!(validate_module_path("/assets/scene'quoted.js").is_err());
}

#[test]
fn adapter_identifiers_start_with_a_letter() {
    assert!(validate_id("visit-reveal").is_ok());
    assert!(validate_id("scene_2").is_ok());
    assert!(validate_id("").is_err());
    assert!(validate_id("2scene").is_err());
    assert!(validate_id("scene.js").is_err());
    assert!(validate_id(&"a".repeat(129)).is_err());
    assert!(validate_id(&"a".repeat(128)).is_ok());
}

#[test]
fn capabilities_form_an_ordered_set() {
    let policy = AdapterPolicy::new()
        .min_tier(PerformanceTier::Lite)
        .capability(AdapterCapability::WebGl)
        .capability(AdapterCapability::Motion)
        .capability(AdapterCapability::WebGl)
        .motion(MotionPolicy::SkipWhenReduced)
        .data(DataPolicy::SkipOnSaveData);
    assert_eq!(policy.capabilities_attribute(), "motion,webgl");
    assert_eq!(policy.get_min_tier(), PerformanceTier::Lite);
    assert_eq!(policy.get_motion().as_str(), "skip");
    assert_eq!(policy.get_data().as_str(), "skip");
    assert_eq!(LoadTrigger::Interaction.as_str(), "interaction");
    assert_eq!(AdapterPolicy::new().capabilities_attribute(), "");
}

#[test]
fn bundled_modules_are_content_addressed() {
    let module = bundled_module("entry.js", "scene", b"export{}".to_vec()).unwrap();
    assert_eq!(module.sha256.len(), 64);
    assert_eq!(module.path, format!("assets/scene.{}.js", &module.sha256[..16]));
    assert_ne!(module.sha256, pliego::digest::sha256_bytes(b"export{ }"));
    assert!(bundled_module("entry.js", "scene", Vec::new()).is_err());
    assert!(bundled_module("entry.js", "9scene", b"x".to_vec()).is_err());
}

#[test]
fn default_policy_admits_every_tier_without_capabilities() {
    let policy = AdapterPolicy::default();
    assert_eq!(policy.get_min_tier(), PerformanceTier::Universal);
    assert_eq!(policy.get_motion(), MotionPolicy::Auto);
    assert_eq!(policy.get_data(), DataPolicy::Auto);
    assert_eq!(policy.capabilities_attribute(), "");
}
