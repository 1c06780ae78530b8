use pliego::runtime_contract::{
    require_contract, require_enum, require_stable_id, validate_cache_receipt,
    validate_invalidation_event, validate_runtime_contract, validate_runtime_receipt,
    ActionContract, ActionInvalidation, CacheReceipt, DiagnosticCommandError, InvalidationEvent,
    ResourceRequirement, RuntimeContractManifest, RuntimeReceipt,
};

fn message(r: Result<(), DiagnosticCommandError>) -> String {
    match r {
        Ok(()) => panic!("expected an error"),
        Err(e) => {
            assert!(!e.is_usage());
            e.message
        }
    }
}

fn cache_receipt() -> CacheReceipt {
    CacheReceipt {
        contract: "dev.pliegors.cache-receipt/v1".to_owned(),
        policy_id: "catalog-public".to_owned(),
        semantic_revision: 1,
        namespace: "catalog".to_owned(),
        compatibility_epoch: 1,
        key_digest: "a".repeat(64),
    }
}

fn request() -> RuntimeReceipt {
    RuntimeReceipt {
        contract: "dev.pliegors.runtime-receipt/v1".to_owned(),
        application_contract_sha256: "d".repeat(64),
        request_id: "request-0001".to_owned(),
        deployment_id: "deployment-preview".to_owned(),
        route_id: Some("dashboard".to_owned()),
        route_scopes: vec!["account".to_owned()],
        route_layouts: Vec::new(),
        limit_policy_sha256: "e".repeat(64),
        middleware: vec!["security".to_owned()],
        error_boundary: None,
        diagnostics: Vec::new(),
        data_receipts: Vec::new(),
        cache_receipts: vec![cache_receipt()],
        invalidation_events: Vec::new(),
    }
}

fn manifest() -> RuntimeContractManifest {
    RuntimeContractManifest {
        contract: "dev.pliegors.runtime-contract/v1".to_owned(),
        application_contract_sha256: "b".repeat(64),
        actions: vec![ActionContract {
            id: "rename-account".to_owned(),
            semantic_revision: 1,
            contract_sha256: "c".repeat(64),
            accepted_media_types: vec!["application/x-www-form-urlencoded".to_owned()],
            accepted_content_encodings: vec!["identity".to_owned()],
            origin_policy: "same-origin".to_owned(),
            csrf_policy: "session-bound-token".to_owned(),
            idempotency_policy_id: Some("account-mutations".to_owned()),
            resources: vec![ResourceRequirement {
                id: "accounts".to_owned(),
                capabilities: vec!["write".to_owned()],
            }],
            invalidations: vec![ActionInvalidation {
                cache_policy_id: "account-private".to_owned(),
                tags: vec!["account-private".to_owned()],
                consistency: "read-your-writes".to_owned(),
            }],
        }],
        loaders: Vec::new(),
        caches: Vec::new(),
    }
}

#[test]
fn cache_receipts_and_events_are_bounded_and_well_formed() {
    assert!(validate_cache_receipt(&cache_receipt()).is_ok());
    let mut stale = cache_receipt();
    stale.compatibility_epoch = 0;
    assert_eq!(message(validate_cache_receipt(&stale)), "cache receipt revisions must be non-zero");
    let mut upper = cache_receipt();
    upper.key_digest = "A".repeat(64);
    assert_eq!(message(validate_cache_receipt(&upper)), "cache key SHA-256 is malformed");
    let event = InvalidationEvent {
        contract: "dev.pliegors.cache-invalidation/v1".to_owned(),
        policy_id: "catalog-public".to_owned(),
        namespace: "catalog".to_owned(),
        cause_receipt: "action-rename".to_owned(),
        target_digest: "f".repeat(64),
        compatibility_epoch: 1,
        sequence: 0,
    };
    assert_eq!(
        message(validate_invalidation_event(&event)),
        "cache invalidation sequence and epoch must be non-zero"
    );
}

#[test]
fn request_receipts_reject_hostile_identities() {
    assert!(validate_runtime_receipt(&request()).is_ok());
    let mut hostile = request();
    hostile.request_id = "request\u{1b}[31m".to_owned();
    assert_eq!(message(validate_runtime_receipt(&hostile)), "request ID is malformed");
    let mut scope = request();
    scope.route_scopes = vec!["Account".to_owned()];
    assert_eq!(message(validate_runtime_receipt(&scope)), "route scope is malformed");
    let mut many = request();
    many.middleware = vec!["security".to_owned(); 1025];
    assert_eq!(message(validate_runtime_receipt(&many)), "middleware exceed the diagnostic item bound");
}

#[test]
fn runtime_contract_rejects_unsupported_policies() {
    assert!(validate_runtime_contract(&manifest()).is_ok());
    let mut hostile = manifest();
    hostile.actions[0].origin_policy = "same-origin\u{1b}[31m".to_owned();
    assert!(message(validate_runtime_contract(&hostile)).contains("Origin policy"));
    let mut gzip = manifest();
    gzip.actions[0].accepted_content_encodings = vec!["br".to_owned()];
    assert_eq!(message(validate_runtime_contract(&gzip)), "action content encoding `br` is unsupported");
    let mut tag = manifest();
    tag.actions[0].invalidations[0].tags = vec!["bad--tag".to_owned()];
    assert_eq!(message(validate_runtime_contract(&tag)), "cache tag is malformed");
    assert_eq!(
        message(require_contract("v0", "v1", "runtime contract")),
        "unsupported runtime contract contract `v0`; expected `v1`"
    );
    assert!(require_enum("gzip", &["identity", "gzip"], "encoding").is_ok());
    for id in ["a", "a-b", "a1"] {
        assert!(require_stable_id(id, "id").is_ok(), "{id}");
    }
    for id in ["", "1a", "a-", "a--b", "A"] {
        assert!(require_stable_id(id, "id").is_err(), "{id}");
    }
}
