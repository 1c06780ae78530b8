use pliego::adaptive::{
    checked_artifact_total, evaluate_budgets, validate_job_contract, validate_policy,
    AdaptiveManifest, ArtifactFormat, AssetJob, BudgetTotals, Delivery, DeviceBudgetProfile,
    DeviceClass, Family, FetchPriority, ImageFormat, JobOperation, LoadPolicy, LoadStrategy,
    MotionPolicy, PublishedVariant, RuntimeConstraints, Tier, TierBudget, Toolchain,
    MAX_RECIPE_ARTIFACT_BYTES,
};
use pliego::asset_cli::{parse_path_command, parse_raster, required};
use pliego::raster::{
    avif_crf, decoded_rgba_bytes, jpeg_qscale, normalized_widths, valid_identifier,
    validate_raster_dimensions, Dimensions, FfmpegBackend, RasterFormat,
};

#[test]
fn quality_maps_stay_inside_codec_ranges() {
    assert_eq!(avif_crf(100), 0);
    assert_eq!(avif_crf(1), 62);
    assert_eq!(jpeg_qscale(100), 2);
    assert_eq!(jpeg_qscale(1), 31);
}

#[test]
fn parser_builds_a_raster_recipe() {
    let options = parse_raster(&[
        "raster".into(),
        "hero.png".into(),
        "--out".into(),
        "dist".into(),
        "--id".into(),
        "hero".into(),
        "--widths".into(),
        "640,1280".into(),
        "--formats".into(),
        "avif,webp".into(),
        "--quality".into(),
        "82".into(),
    ])
    .unwrap();
    assert_eq!(options.widths, vec![640, 1280]);
    assert_eq!(
        options.formats,
        vec![RasterFormat::Avif, RasterFormat::Webp]
    );
    assert_eq!(options.quality, 82);
}

#[test]
fn parser_rejects_missing_contract_fields() {
    assert!(parse_raster(&["raster".into(), "hero.png".into()]).is_err());
}

#[test]
fn adaptive_commands_reject_duplicate_and_unknown_options() {
    assert!(
        parse_path_command(
            &[
                "plan".into(),
                "recipe.json".into(),
                "--out".into(),
                "one".into(),
                "--out".into(),
                "two".into(),
                "--source-root".into(),
                ".".into()
            ],
            "plan",
            &["--out", "--source-root"],
            &["--out", "--source-root"]
        )
        .is_err()
    );
    assert!(
        parse_path_command(
            &[
                "plan".into(),
                "recipe.json".into(),
                "--shell".into(),
                "oops".into()
            ],
            "plan",
            &["--out", "--source-root"],
            &["--out", "--source-root"]
        )
        .is_err()
    );
}

#[test]
fn path_commands_return_their_options() {
    let (path, options) = parse_path_command(
        &[
            "plan".into(),
            "recipe.json".into(),
            "--out".into(),
            "plan.json".into(),
            "--source-root".into(),
            "src".into(),
        ],
        "plan",
        &["--out", "--source-root"],
        &["--out", "--source-root"],
    )
    .unwrap();
    assert_eq!(path, "recipe.json");
    assert_eq!(required(&options, "--out").unwrap(), "plan.json");
    assert_eq!(required(&options, "--source-root").unwrap(), "src");
    assert_eq!(required(&options, "--missing").unwrap_err(), "--missing is required");
    assert_eq!(
        parse_path_command(&["plan".into(), "--out".into()], "plan", &["--out"], &[])
            .err()
            .unwrap(),
        "plan input is required"
    );
}

#[test]
fn raster_parser_reports_each_problem() {
    let base = |extra: &[&str]| {
        let mut args: Vec<String> = vec!["raster".into(), "in.png".into()];
        args.extend(extra.iter().map(|s| s.to_string()));
        parse_raster(&args)
    };
    assert_eq!(base(&["--out", "o", "--id", "x"]).unwrap_err(), "--widths is required");
    assert_eq!(base(&["--widths", "0"]).unwrap_err(), "widths must contain positive integers");
    assert_eq!(base(&["--widths", "a,2"]).unwrap_err(), "invalid width a");
    assert_eq!(base(&["--quality", "300"]).unwrap_err(), "quality must be an integer from 1 to 100");
    assert_eq!(
        base(&["--formats", "png"]).unwrap_err(),
        "unsupported raster format png; expected avif, webp, or jpeg"
    );
    assert_eq!(base(&["--bogus", "1"]).unwrap_err(), "unknown option --bogus");
    assert_eq!(base(&["--out"]).unwrap_err(), "--out requires a value");
    let parsed = base(&["--out", "o", "--id", "x", "--widths", " 10 , +20 ", "--formats", " JPG "]).unwrap();
    assert_eq!(parsed.widths, vec![10, 20]);
    assert_eq!(parsed.formats, vec![RasterFormat::Jpeg]);
    assert_eq!(parsed.quality, 78);
    assert_eq!(parsed.ffmpeg, "ffmpeg");
}

#[test]
fn aggregate_artifact_limit_rejects_multi_file_resource_exhaustion() {
    assert_eq!(
        checked_artifact_total(MAX_RECIPE_ARTIFACT_BYTES - 1, 1).unwrap(),
        MAX_RECIPE_ARTIFACT_BYTES
    );
    let error = checked_artifact_total(MAX_RECIPE_ARTIFACT_BYTES, 1)
        .expect_err("aggregate bytes above the global ceiling must fail");
    assert!(error.message().contains("aggregate bytes"));
    assert!(checked_artifact_total(u64::MAX, 1).is_err());
}

#[test]
fn raster_rules_cap_widths_and_dimensions() {
    assert_eq!(normalized_widths(&[1280, 640, 4000, 640], 2000), vec![640, 1280, 2000]);
    assert!(valid_identifier("hero-image"));
    assert!(!valid_identifier("-hero"));
    assert!(!valid_identifier("hero--image"));
    assert!(!valid_identifier("Hero"));
    assert!(validate_raster_dimensions(Dimensions { width: 100, height: 50 }, "source").is_ok());
    assert_eq!(
        validate_raster_dimensions(Dimensions { width: 20000, height: 5 }, "source").unwrap_err().message(),
        "source dimensions 20000x5 exceed the raster limits"
    );
    assert_eq!(decoded_rgba_bytes(Dimensions { width: 10, height: 3 }).unwrap(), 120);
    assert!(decoded_rgba_bytes(Dimensions { width: u32::MAX, height: u32::MAX }).is_err());
    assert_eq!(RasterFormat::parse(" WebP ").unwrap(), RasterFormat::Webp);
    assert_eq!(RasterFormat::Jpeg.extension(), "jpg");
}

#[test]
fn encoder_arguments_follow_the_format() {
    let args = FfmpegBackend::encode_arguments("in.png", "out.avif", 640, RasterFormat::Avif, 78);
    assert_eq!(args[8], "in.png");
    assert_eq!(args[17], "scale=640:-2:flags=lanczos");
    let crf = args.iter().position(|a| a == "-crf").unwrap();
    assert_eq!(args[crf + 1], "14");
    assert_eq!(args.last().unwrap(), "out.avif");
    let jpeg = FfmpegBackend::encode_arguments("a", "b", 10, RasterFormat::Jpeg, 100);
    let q = jpeg.iter().position(|a| a == "-q:v").unwrap();
    assert_eq!(jpeg[q + 1], "2");
}

fn policy(tiers: Vec<Tier>, delivery: Delivery, motion: MotionPolicy, preload: bool) -> LoadPolicy {
    LoadPolicy { tiers, delivery, preload, fetch_priority: FetchPriority::Auto, motion }
}

fn variant(id: &str, group: Option<&str>, bytes: u64, policy: LoadPolicy) -> PublishedVariant {
    PublishedVariant {
        id: id.to_owned(),
        source_id: "hero".to_owned(),
        path: format!("assets/{id}.avif"),
        format: ArtifactFormat::Avif,
        media_type: "image/avif".to_owned(),
        selection_group: group.map(str::to_owned),
        required_toolchains: vec![Toolchain::Ffmpeg],
        operation: JobOperation::Image { width: 10, height: 10, format: ImageFormat::Avif, quality: 80 },
        sha256: "0".repeat(64),
        bytes,
        policy,
        estimated_decoded_bytes: 400,
        estimated_triangles: 0,
        estimated_draw_calls: 0,
    }
}

#[test]
fn delivery_honours_tier_motion_and_save_data() {
    let manifest = AdaptiveManifest {
        schema: String::new(),
        manifest_version: "1.0.0".to_owned(),
        recipe_sha256: "0".repeat(64),
        toolchains: Vec::new(),
        sources: Vec::new(),
        variants: vec![
            variant("still", None, 10, policy(vec![Tier::Lite], Delivery::Initial, MotionPolicy::Static, true)),
            variant("clip", None, 10, policy(vec![Tier::Lite], Delivery::Deferred, MotionPolicy::SuppressWhenReduced, false)),
            variant("other", None, 10, policy(vec![Tier::Signature], Delivery::Initial, MotionPolicy::Static, false)),
        ],
        budget_results: Vec::new(),
    };
    let all = manifest.delivery(RuntimeConstraints { tier: Tier::Lite, reduced_motion: false, save_data: false });
    assert_eq!(all.len(), 2);
    assert_eq!(all[0].strategy, LoadStrategy::Eager);
    assert_eq!(all[1].strategy, LoadStrategy::Lazy);
    let reduced = manifest.delivery(RuntimeConstraints { tier: Tier::Lite, reduced_motion: true, save_data: false });
    assert_eq!(reduced.len(), 1);
    assert_eq!(reduced[0].variant_id, "still");
    let saving = manifest.delivery(RuntimeConstraints { tier: Tier::Lite, reduced_motion: false, save_data: true });
    assert_eq!(saving.len(), 1);
    assert!(saving[0].preload);
}

#[test]
fn budgets_count_the_worst_alternative_of_each_group() {
    let variants = vec![
        variant("a", Some("hero"), 100, policy(vec![Tier::Lite], Delivery::Initial, MotionPolicy::Static, true)),
        variant("b", Some("hero"), 300, policy(vec![Tier::Lite], Delivery::Initial, MotionPolicy::Static, false)),
        variant("c", None, 50, policy(vec![Tier::Lite], Delivery::Deferred, MotionPolicy::Static, false)),
        variant("d", None, 7, policy(vec![Tier::Balanced], Delivery::Initial, MotionPolicy::Static, false)),
    ];
    let budget = TierBudget {
        tier: Tier::Lite,
        max_initial_bytes: 300,
        max_deferred_bytes: 50,
        max_on_demand_bytes: 0,
        max_decoded_bytes: 800,
        max_triangles: 0,
        max_draw_calls: 0,
        max_preloads: 1,
    };
    let profiles = vec![DeviceBudgetProfile { id: "phone".to_owned(), device: DeviceClass::ModestMobile, tiers: vec![budget] }];
    let results = evaluate_budgets(&profiles, &variants).unwrap();
    assert_eq!(results.len(), 1);
    assert_eq!(
        results[0].totals,
        BudgetTotals {
            initial_bytes: 300,
            deferred_bytes: 50,
            on_demand_bytes: 0,
            decoded_bytes: 800,
            triangles: 0,
            draw_calls: 0,
            preloads: 1,
        }
    );
    assert!(results[0].pass);
}

#[test]
fn job_contracts_must_match_their_operation() {
    let job = AssetJob {
        id: "hero.small".to_owned(),
        source_id: "hero".to_owned(),
        variant_id: "small".to_owned(),
        staging_path: ".pliego-assets/stage/hero.small.avif".to_owned(),
        format: ArtifactFormat::Avif,
        selection_group: Some("hero".to_owned()),
        required_toolchains: vec![Toolchain::Ffmpeg],
        policy: policy(vec![Tier::Lite], Delivery::Initial, MotionPolicy::Static, false),
        operation: JobOperation::Image { width: 640, height: 480, format: ImageFormat::Avif, quality: 80 },
        estimated_decoded_bytes: 640 * 480 * 4,
        estimated_triangles: 0,
        estimated_draw_calls: 0,
    };
    assert!(validate_job_contract(&job).is_ok());
    let mut forged = job.clone();
    forged.estimated_decoded_bytes = 1;
    assert_eq!(
        validate_job_contract(&forged).unwrap_err().message(),
        "job hero.small format, toolchains, or estimates do not match its operation"
    );
    let mut bad = job.clone();
    bad.operation = JobOperation::Image { width: 0, height: 480, format: ImageFormat::Avif, quality: 80 };
    assert_eq!(validate_job_contract(&bad).unwrap_err().message(), "job hero.small has invalid image parameters");
    assert!(validate_policy(&job.policy, Family::Image).is_ok());
    assert!(validate_policy(&policy(vec![Tier::Universal], Delivery::Deferred, MotionPolicy::SuppressWhenReduced, false), Family::Video).is_err());
}

#[test]
fn stricter_clients_only_lose_directives() {
    let manifest = AdaptiveManifest {
        schema: String::new(),
        manifest_version: "1.0.0".to_owned(),
        recipe_sha256: "0".repeat(64),
        toolchains: Vec::new(),
        sources: Vec::new(),
        variants: vec![
            variant("still", None, 10, policy(vec![Tier::Lite], Delivery::Initial, MotionPolicy::Static, true)),
            variant("clip", None, 10, policy(vec![Tier::Lite], Delivery::Deferred, MotionPolicy::SuppressWhenReduced, false)),
            variant("late", None, 10, policy(vec![Tier::Lite], Delivery::OnDemand, MotionPolicy::Static, false)),
        ],
        budget_results: Vec::new(),
    };
    let ids = |c: RuntimeConstraints| manifest.delivery(c).iter().map(|d| d.variant_id.clone()).collect::<Vec<_>>();
    let loose = ids(RuntimeConstraints { tier: Tier::Lite, reduced_motion: false, save_data: false });
    let reduced = ids(RuntimeConstraints { tier: Tier::Lite, reduced_motion: true, save_data: false });
    let strict = ids(RuntimeConstraints { tier: Tier::Lite, reduced_motion: true, save_data: true });
    assert_eq!(loose, vec!["still", "clip", "late"]);
    assert_eq!(reduced, vec!["still", "late"]);
    assert_eq!(strict, vec!["still"]);
}

#[test]
fn budgets_do_not_depend_on_variant_order() {
    let mut variants = vec![
        variant("a", Some("hero"), 100, policy(vec![Tier::Lite], Delivery::Initial, MotionPolicy::Static, true)),
        variant("b", Some("hero"), 300, policy(vec![Tier::Lite], Delivery::Initial, MotionPolicy::Static, false)),
        variant("c", None, 50, policy(vec![Tier::Lite], Delivery::Deferred, MotionPolicy::Static, false)),
        variant("e", Some("logo"), 20, policy(vec![Tier::Lite], Delivery::OnDemand, MotionPolicy::Static, false)),
    ];
    let budget = TierBudget {
        tier: Tier::Lite,
        max_initial_bytes: 300,
        max_deferred_bytes: 50,
        max_on_demand_bytes: 10,
        max_decoded_bytes: 10_000,
        max_triangles: 0,
        max_draw_calls: 0,
        max_preloads: 1,
    };
    let profiles = vec![DeviceBudgetProfile { id: "phone".to_owned(), device: DeviceClass::ModestMobile, tiers: vec![budget] }];
    let forward = evaluate_budgets(&profiles, &variants).unwrap();
    variants.reverse();
    let backward = evaluate_budgets(&profiles, &variants).unwrap();
    assert_eq!(forward[0].totals, backward[0].totals);
    assert_eq!(forward[0].pass, backward[0].pass);
    assert!(!forward[0].pass);
    assert_eq!(forward[0].totals.on_demand_bytes, 20);
}
