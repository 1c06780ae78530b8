use pliego::adaptive::{
    AdaptiveRecipe, ArtifactFormat, AssetRecipe, BudgetResult, BudgetTotals, Delivery,
    DeviceBudgetProfile, DeviceClass, FetchPriority, FontOutput, ImageFormat, ImageOutput,
    LoadPolicy, MeshCompression, MotionPolicy, SceneOutput, TextureCompression, Tier, TierBudget,
    Toolchain, ToolchainPin, TransformRecipe, VideoFormat, VideoOutput, ADAPTIVE_RECIPE_VERSION,
};
use pliego::adaptive_plan::{
    append_jobs, normalize_profiles, sort_jobs, validate_plan, validate_profiles,
    validate_recipe_contract, validate_relative_path, validate_toolchains, valid_dotted_identifier,
    windows_reserved, PlanDraft, ADAPTIVE_RECIPE_SCHEMA,
};
use pliego::adaptive_publish::{check_artifact_size, check_budget_results, publish_staged, published_variant};
use pliego::adaptive_plan::recipe_digest;
use pliego::digest::sha256_bytes;
use pliego::raster::AssetError;

fn message<T>(r: Result<T, AssetError>) -> String {
    match r {
        Ok(_) => panic!("expected an error"),
        Err(e) => e.message(),
    }
}

fn budget(tier: Tier) -> TierBudget {
    TierBudget {
        tier,
        max_initial_bytes: 1024,
        max_deferred_bytes: 1024,
        max_on_demand_bytes: 1024,
        max_decoded_bytes: 1024,
        max_triangles: 0,
        max_draw_calls: 0,
        max_preloads: 1,
    }
}

fn pin(name: Toolchain) -> ToolchainPin {
    ToolchainPin { name, version: "test-1.0".to_owned(), integrity: None }
}

fn initial_policy() -> LoadPolicy {
    LoadPolicy {
        tiers: vec![Tier::Universal],
        delivery: Delivery::Initial,
        preload: true,
        fetch_priority: FetchPriority::High,
        motion: MotionPolicy::Static,
    }
}

fn motion_policy() -> LoadPolicy {
    LoadPolicy {
        tiers: vec![Tier::Balanced, Tier::Signature],
        delivery: Delivery::Deferred,
        preload: false,
        fetch_priority: FetchPriority::Low,
        motion: MotionPolicy::SuppressWhenReduced,
    }
}

fn image_recipe() -> AdaptiveRecipe {
    AdaptiveRecipe {
        schema: Some(ADAPTIVE_RECIPE_SCHEMA.to_owned()),
        recipe_version: ADAPTIVE_RECIPE_VERSION.to_owned(),
        toolchains: vec![ToolchainPin {
            name: Toolchain::Ffmpeg,
            version: "7.1.1".to_owned(),
            integrity: None,
        }],
        budget_profiles: vec![DeviceBudgetProfile {
            id: "modest-mobile".to_owned(),
            device: DeviceClass::ModestMobile,
            tiers: vec![
                budget(Tier::Universal),
                budget(Tier::Lite),
                budget(Tier::Balanced),
                budget(Tier::Signature),
            ],
        }],
        assets: vec![AssetRecipe {
            id: "hero".to_owned(),
            input: "hero.png".to_owned(),
            transform: TransformRecipe::Image {
                outputs: vec![ImageOutput {
                    id: "small".to_owned(),
                    width: 2,
                    height: 2,
                    format: ImageFormat::Avif,
                    quality: 70,
                    policy: initial_policy(),
                }],
            },
        }],
    }
}

fn digest_of(bytes: &[u8]) -> String {
    sha256_bytes(bytes)
}

/// Plans a recipe as the planner does once each source has been read.
fn plan_of(recipe: &AdaptiveRecipe) -> Result<pliego::adaptive::AdaptivePlan, AssetError> {
    validate_recipe_contract(recipe)?;
    let mut draft = PlanDraft::new();
    for asset in &recipe.assets {
        let path = validate_relative_path(&asset.input)?;
        let content = format!("source:{}", asset.input);
        draft.add_source(asset, path, content.as_bytes())?;
    }
    draft.finish(
        recipe.toolchains.clone(),
        recipe.budget_profiles.clone(),
        b"recipe",
    )
}

#[test]
fn image_plan_is_deterministic_and_stages_under_the_job_id() {
    let first = plan_of(&image_recipe()).unwrap();
    let second = plan_of(&image_recipe()).unwrap();
    assert_eq!(first.jobs.len(), 1);
    assert_eq!(first.jobs[0].id, second.jobs[0].id);
    assert_eq!(first.jobs[0].id, "hero.small");
    assert_eq!(first.jobs[0].staging_path, ".pliego-assets/stage/hero.small.avif");
    assert_eq!(first.jobs[0].required_toolchains, vec![Toolchain::Ffmpeg]);
    assert_eq!(first.jobs[0].estimated_decoded_bytes, 16);
    assert_eq!(first.jobs[0].selection_group.as_deref(), Some("hero"));
    assert_eq!(first.sources[0].path, "hero.png");
    assert_eq!(first.sources[0].bytes, "source:hero.png".len() as u64);
}

#[test]
fn every_media_family_becomes_a_typed_job() {
    let mut recipe = image_recipe();
    recipe.toolchains = vec![
        pin(Toolchain::Ktx2Encoder),
        pin(Toolchain::Ffmpeg),
        pin(Toolchain::Fonttools),
        pin(Toolchain::Blender),
        pin(Toolchain::GltfTransform),
    ];
    recipe.assets.extend([
        AssetRecipe {
            id: "film".to_owned(),
            input: "film.mov".to_owned(),
            transform: TransformRecipe::Video {
                outputs: vec![VideoOutput {
                    id: "mobile".to_owned(),
                    width: 640,
                    height: 360,
                    format: VideoFormat::Mp4H264,
                    bitrate_kbps: 800,
                    max_fps: 30,
                    audio: false,
                    policy: motion_policy(),
                }],
            },
        },
        AssetRecipe {
            id: "display-font".to_owned(),
            input: "display.ttf".to_owned(),
            transform: TransformRecipe::Font {
                outputs: vec![FontOutput {
                    id: "latin".to_owned(),
                    glyphs: "PliegoRS".to_owned(),
                    unicode_range: Some("U+0000-00FF".to_owned()),
                    policy: initial_policy(),
                }],
            },
        },
        AssetRecipe {
            id: "gallery-scene".to_owned(),
            input: "scene.blend".to_owned(),
            transform: TransformRecipe::Scene3d {
                outputs: vec![SceneOutput {
                    id: "lod-lite".to_owned(),
                    max_triangles: 20_000,
                    max_draw_calls: 24,
                    mesh_compression: MeshCompression::Meshopt,
                    texture_compression: TextureCompression::Ktx2Etc1s,
                    max_texture_dimension: 1024,
                    requires_blender: true,
                    policy: motion_policy(),
                }],
            },
        },
    ]);
    let plan = plan_of(&recipe).unwrap();
    let ids: Vec<&str> = plan.jobs.iter().map(|job| job.id.as_str()).collect();
    assert_eq!(ids, ["display-font.latin", "film.mobile", "gallery-scene.lod-lite", "hero.small"]);
    let toolchains: Vec<Toolchain> = plan.toolchains.iter().map(|pin| pin.name).collect();
    assert_eq!(
        toolchains,
        [
            Toolchain::Ffmpeg,
            Toolchain::Fonttools,
            Toolchain::Blender,
            Toolchain::GltfTransform,
            Toolchain::Ktx2Encoder
        ]
    );
    assert_eq!(plan.jobs[1].format, ArtifactFormat::Mp4);
    assert_eq!(plan.jobs[1].estimated_decoded_bytes, 640 * 360 * 4 * 3);
    assert_eq!(plan.jobs[0].format, ArtifactFormat::Woff2);
    assert_eq!(plan.jobs[0].selection_group, None);
    let scene = &plan.jobs[2];
    assert_eq!(scene.format, ArtifactFormat::Glb);
    assert_eq!(
        scene.required_toolchains,
        vec![Toolchain::Blender, Toolchain::GltfTransform, Toolchain::Ktx2Encoder]
    );
    assert_eq!(scene.estimated_decoded_bytes, 1024 * 1024 * 4);
    assert_eq!(scene.estimated_triangles, 20_000);
    assert_eq!(scene.staging_path, ".pliego-assets/stage/gallery-scene.lod-lite.glb");
}

#[test]
fn unsafe_input_paths_fail_closed() {
    for path in ["../secret", "/absolute", "C:/windows", "folder\\file", "NUL.txt", "./hero.png", ""] {
        let mut recipe = image_recipe();
        recipe.assets[0].input = path.to_owned();
        assert!(validate_recipe_contract(&recipe).is_err(), "accepted {path}");
    }
    assert_eq!(message(validate_relative_path("../secret")), "asset paths cannot contain roots, prefixes, or dot segments");
    assert_eq!(message(validate_relative_path("/absolute")), "absolute asset paths are forbidden");
    assert_eq!(message(validate_relative_path("NUL.txt")), "unsafe asset path segment NUL.txt");
    assert_eq!(message(validate_relative_path("C:/windows")), "unsafe asset path segment C:");
    assert_eq!(
        message(validate_relative_path("folder\\file")),
        "asset paths must be bounded, slash-separated relative paths"
    );
    assert_eq!(validate_relative_path("media/./hero//source.png/").unwrap(), "media/hero/source.png");
}

#[test]
fn windows_reserved_segments_are_recognized() {
    for segment in ["CON", "con.txt", "Com1", "lpt9.log", "clock$", "name.", "name ", "a:b"] {
        assert!(windows_reserved(segment), "{segment}");
    }
    for segment in ["console", "com0", "com10", "hero.png", "lpt"] {
        assert!(!windows_reserved(segment), "{segment}");
    }
    assert!(valid_dotted_identifier("hero.small"));
    assert!(!valid_dotted_identifier("hero"));
    assert!(!valid_dotted_identifier("a.b.c"));
    assert!(!valid_dotted_identifier("Hero.small"));
}

#[test]
fn motion_outputs_and_unsafe_preloads_are_rejected() {
    let mut recipe = image_recipe();
    recipe.assets[0].transform = TransformRecipe::Video {
        outputs: vec![VideoOutput {
            id: "mobile".to_owned(),
            width: 640,
            height: 360,
            format: VideoFormat::Mp4H264,
            bitrate_kbps: 800,
            max_fps: 30,
            audio: false,
            policy: LoadPolicy {
                tiers: vec![Tier::Universal],
                delivery: Delivery::Deferred,
                preload: true,
                fetch_priority: FetchPriority::High,
                motion: MotionPolicy::Static,
            },
        }],
    };
    assert_eq!(message(validate_recipe_contract(&recipe)), "only initial assets may preload");
    let mut recipe = image_recipe();
    recipe.toolchains.clear();
    assert_eq!(
        message(validate_recipe_contract(&recipe)),
        "image outputs require a pinned Ffmpeg toolchain"
    );
    let mut recipe = image_recipe();
    recipe.recipe_version = "2.0.0".to_owned();
    assert_eq!(message(validate_recipe_contract(&recipe)), "unsupported adaptive recipe version 2.0.0");
    let mut recipe = image_recipe();
    recipe.assets.push(recipe.assets[0].clone());
    assert_eq!(message(validate_recipe_contract(&recipe)), "invalid or duplicate asset id hero");
}

#[test]
fn toolchain_and_profile_rules_have_exact_messages() {
    assert!(validate_toolchains(&vec![pin(Toolchain::Ffmpeg)]).is_ok());
    assert_eq!(
        message(validate_toolchains(&vec![pin(Toolchain::Ffmpeg), pin(Toolchain::Ffmpeg)])),
        "toolchain pins must be unique and have a bounded version"
    );
    let mut quoted = pin(Toolchain::Blender);
    quoted.version = "4'0".to_owned();
    assert!(validate_toolchains(&vec![quoted]).is_err());
    let mut pinned = pin(Toolchain::Blender);
    pinned.integrity = Some(format!("sha256-{}", "A".repeat(64)));
    assert!(validate_toolchains(&vec![pinned.clone()]).is_ok());
    pinned.integrity = Some("sha512-abc".to_owned());
    assert_eq!(
        message(validate_toolchains(&vec![pinned])),
        "toolchain integrity must use sha256- plus 64 hex characters"
    );

    assert_eq!(message(validate_profiles(&vec![])), "at least one device budget profile is required");
    let mut partial = image_recipe().budget_profiles;
    partial[0].tiers.pop();
    assert_eq!(
        message(validate_profiles(&partial)),
        "budget profiles must collectively cover all four tiers"
    );
    let mut repeated = image_recipe().budget_profiles;
    repeated[0].tiers.push(budget(Tier::Lite));
    assert_eq!(message(validate_profiles(&repeated)), "profile modest-mobile duplicates a tier budget");
}

#[test]
fn profiles_are_normalized_by_id_and_tier() {
    let profiles = vec![
        DeviceBudgetProfile {
            id: "tablet".to_owned(),
            device: DeviceClass::Tablet,
            tiers: vec![budget(Tier::Signature), budget(Tier::Universal)],
        },
        DeviceBudgetProfile {
            id: "desktop".to_owned(),
            device: DeviceClass::Desktop,
            tiers: vec![budget(Tier::Balanced), budget(Tier::Lite)],
        },
    ];
    let normalized = normalize_profiles(profiles);
    assert_eq!(normalized[0].id, "desktop");
    assert_eq!(normalized[0].tiers[0].tier, Tier::Lite);
    assert_eq!(normalized[1].id, "tablet");
    assert_eq!(normalized[1].tiers[0].tier, Tier::Universal);
}

#[test]
fn forged_plans_fail_closed() {
    let plan = plan_of(&image_recipe()).unwrap();
    assert!(validate_plan(&plan).is_ok());

    let mut forged = plan.clone();
    forged.jobs[0].format = ArtifactFormat::Glb;
    assert_eq!(message(validate_plan(&forged)), "job hero.small has a forged staging path");

    let mut forged = plan.clone();
    forged.jobs[0].staging_path = "../escape.avif".to_owned();
    assert!(validate_plan(&forged).is_err());

    let mut forged = plan.clone();
    forged.jobs[0].estimated_decoded_bytes = 0;
    assert_eq!(
        message(validate_plan(&forged)),
        "job hero.small format, toolchains, or estimates do not match its operation"
    );

    let mut forged = plan.clone();
    forged.jobs[0].required_toolchains.push(Toolchain::Blender);
    assert_eq!(message(validate_plan(&forged)), "job hero.small requires an unpinned toolchain");

    let mut forged = plan.clone();
    forged.recipe_sha256 = "abc".to_owned();
    assert_eq!(message(validate_plan(&forged)), "plan recipeSha256 must be 64 hexadecimal characters");

    let mut forged = plan;
    let copy = forged.jobs[0].clone();
    forged.jobs.push(copy);
    assert_eq!(message(validate_plan(&forged)), "invalid job identity hero.small");
}

#[test]
fn oversized_estimates_and_sources_are_refused() {
    let mut recipe = image_recipe();
    recipe.assets[0].transform = TransformRecipe::Video {
        outputs: vec![VideoOutput {
            id: "huge".to_owned(),
            width: u32::MAX,
            height: u32::MAX,
            format: VideoFormat::Mp4Av1,
            bitrate_kbps: 1,
            max_fps: 1,
            audio: false,
            policy: motion_policy(),
        }],
    };
    let mut jobs = Vec::new();
    assert_eq!(message(append_jobs(&recipe.assets[0], &mut jobs)), "decoded size overflow");
    assert!(jobs.is_empty());

    let asset = &image_recipe().assets[0];
    let mut draft = PlanDraft::new();
    assert_eq!(
        message(draft.add_source(asset, "hero.png".to_owned(), b"")),
        "asset hero source bytes must be in 1..=2147483648"
    );
    draft.total_source_bytes = 8 * 1024 * 1024 * 1024;
    assert_eq!(
        message(draft.add_source(asset, "hero.png".to_owned(), b"x")),
        "recipe sources exceed 8589934592 bytes"
    );
}

#[test]
fn jobs_sort_by_id() {
    let mut recipe = image_recipe();
    let TransformRecipe::Image { outputs } = &mut recipe.assets[0].transform else {
        unreachable!();
    };
    let mut large = outputs[0].clone();
    large.id = "large".to_owned();
    outputs.push(large);
    let mut jobs = Vec::new();
    append_jobs(&recipe.assets[0], &mut jobs).unwrap();
    assert_eq!(jobs[0].id, "hero.small");
    let sorted = sort_jobs(jobs);
    assert_eq!(sorted[0].id, "hero.large");
    assert_eq!(sorted[1].id, "hero.small");
}

#[test]
fn published_variants_are_content_addressed() {
    let plan = plan_of(&image_recipe()).unwrap();
    let digest = digest_of(b"\0\0\0\x14ftypavifpayload");
    let variant = published_variant(&plan.jobs[0], digest.clone(), 19);
    assert_eq!(variant.path, format!("assets/hero/small.{}.avif", &digest[..16]));
    assert_eq!(variant.media_type, "image/avif");
    assert_eq!(variant.sha256, digest);
    assert_eq!(variant.bytes, 19);
    assert_eq!(variant.policy.tiers, vec![Tier::Universal]);
    assert_eq!(
        message(check_artifact_size("hero.small", 0)),
        "job hero.small artifact bytes must be in 1..=2147483648"
    );
    assert!(check_artifact_size("hero.small", 1).is_ok());
}

#[test]
fn budget_failures_name_each_failing_profile_tier() {
    let totals = BudgetTotals {
        initial_bytes: 0,
        deferred_bytes: 0,
        on_demand_bytes: 0,
        decoded_bytes: 0,
        triangles: 0,
        draw_calls: 0,
        preloads: 0,
    };
    let row = |profile: &str, tier: Tier, pass: bool| BudgetResult {
        profile_id: profile.to_owned(),
        tier,
        pass,
        totals,
    };
    assert!(check_budget_results(&vec![row("a", Tier::Lite, true)]).is_ok());
    assert_eq!(
        message(check_budget_results(&vec![
            row("a", Tier::Universal, false),
            row("a", Tier::Lite, true),
            row("b", Tier::Signature, false),
        ])),
        "adaptive asset budgets exceeded for a:Universal, b:Signature"
    );
}

#[test]
fn staged_artifacts_and_sources_are_hashed_from_their_bytes() {
    let plan = plan_of(&image_recipe()).unwrap();
    assert_eq!(plan.recipe_sha256, recipe_digest(b"recipe"));
    assert_eq!(plan.recipe_sha256, sha256_bytes(b"recipe"));
    assert_eq!(plan.sources[0].sha256, sha256_bytes(b"source:hero.png"));
    assert_eq!(plan.sources[0].bytes, "source:hero.png".len() as u64);
    let staged = b"\0\0\0\x14ftypavifpayload";
    let variant = publish_staged(&plan.jobs[0], staged).unwrap();
    assert_eq!(variant.sha256, sha256_bytes(staged));
    assert_eq!(variant.bytes, staged.len() as u64);
    assert_eq!(variant.path, format!("assets/hero/small.{}.avif", &variant.sha256[..16]));
    assert_eq!(
        message(publish_staged(&plan.jobs[0], b"")),
        "job hero.small artifact bytes must be in 1..=2147483648"
    );
}
