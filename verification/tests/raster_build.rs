use pliego::digest::sha256_bytes;
use pliego::raster::{ffmpeg_version, AssetError, Dimensions, RasterFormat, RasterRecipe};
use pliego::raster_build::{accept_encoded, distinct_formats, generated_variant, plan_raster, staging_name};

fn message<T>(r: Result<T, AssetError>) -> String {
    match r {
        Ok(_) => panic!("expected an error"),
        Err(e) => e.message(),
    }
}

fn recipe(widths: Vec<u32>, formats: Vec<RasterFormat>) -> RasterRecipe {
    RasterRecipe {
        asset_id: "hero".to_owned(),
        input: "hero.png".to_owned(),
        output_dir: "dist".to_owned(),
        widths,
        formats,
        quality: 80,
    }
}

#[test]
fn raster_plans_cap_widths_and_deduplicate_formats() {
    let plan = plan_raster(
        &recipe(vec![1600, 320, 640, 320], vec![RasterFormat::Jpeg, RasterFormat::Avif, RasterFormat::Jpeg]),
        Dimensions { width: 800, height: 600 },
    )
    .unwrap();
    assert_eq!(plan.widths, vec![320, 640, 800]);
    assert_eq!(plan.formats, vec![RasterFormat::Avif, RasterFormat::Jpeg]);
    assert_eq!(distinct_formats(&vec![RasterFormat::Webp, RasterFormat::Avif]), vec![RasterFormat::Avif, RasterFormat::Webp]);

    let widths: Vec<u32> = (1..=33).collect();
    assert_eq!(
        message(plan_raster(
            &recipe(widths, vec![RasterFormat::Avif, RasterFormat::Webp, RasterFormat::Jpeg]),
            Dimensions { width: 4000, height: 10 },
        )),
        "raster recipe expands to 99 variants; maximum is 96"
    );
    assert_eq!(
        message(plan_raster(&recipe(vec![10], vec![RasterFormat::Avif]), Dimensions { width: 20000, height: 5 })),
        "source dimensions 20000x5 exceed the raster limits"
    );
}

#[test]
fn encoded_variants_are_checked_and_content_addressed() {
    let digest = sha256_bytes(b"variant");
    let staged = staging_name("hero", 320, RasterFormat::Webp);
    assert_eq!(staged, "hero.w320.webp");
    let mut total = 0;
    let name = accept_encoded(
        "hero",
        800,
        &mut total,
        &staged,
        320,
        RasterFormat::Webp,
        Dimensions { width: 320, height: 240 },
        7,
        &digest,
    )
    .unwrap();
    assert_eq!(name, format!("hero.w320.{}.webp", &digest[..16]));
    assert_eq!(total, 7);
    assert_eq!(
        message(accept_encoded("hero", 800, &mut total, &staged, 320, RasterFormat::Webp, Dimensions { width: 321, height: 240 }, 7, &digest)),
        "backend emitted invalid dimensions 321x240 for requested width 320"
    );
    assert_eq!(
        message(accept_encoded("hero", 800, &mut total, &staged, 320, RasterFormat::Webp, Dimensions { width: 320, height: 240 }, 0, &digest)),
        "backend emitted an empty variant: hero.w320.webp"
    );
    let mut full = 1024 * 1024 * 1024;
    assert_eq!(
        message(accept_encoded("hero", 800, &mut full, &staged, 320, RasterFormat::Webp, Dimensions { width: 320, height: 240 }, 1, &digest)),
        "raster outputs exceed 1073741824 aggregate bytes"
    );
    let variant = generated_variant("hero", RasterFormat::Webp, name.clone(), digest.clone(), 7, Dimensions { width: 320, height: 240 }).unwrap();
    assert_eq!(variant.id, "hero-w320-webp");
    assert_eq!(variant.path, name);
    assert_eq!(variant.media_type, "image/webp");
    assert_eq!(variant.estimated_vram_bytes, 320 * 240 * 4);
}

#[test]
fn encoded_bytes_are_measured_and_hashed_here() {
    use_encoded_bytes();
}

fn use_encoded_bytes() {
    let encoded = b"RIFF....WEBPVP8 payload";
    let mut total = 5;
    let (name, digest) = pliego::raster_build::accept_encoded_bytes(
        "hero",
        800,
        &mut total,
        "hero.w320.webp",
        320,
        RasterFormat::Webp,
        Dimensions { width: 320, height: 240 },
        encoded,
    )
    .unwrap();
    assert_eq!(digest, sha256_bytes(encoded));
    assert_eq!(name, format!("hero.w320.{}.webp", &digest[..16]));
    assert_eq!(total, 5 + encoded.len() as u64);
    let mut total = 0;
    assert_eq!(
        message(pliego::raster_build::accept_encoded_bytes(
            "hero",
            800,
            &mut total,
            "hero.w320.webp",
            320,
            RasterFormat::Webp,
            Dimensions { width: 320, height: 240 },
            b"",
        )),
        "backend emitted an empty variant: hero.w320.webp"
    );
    let (bytes, source_digest) = pliego::raster_build::source_fingerprint("hero.png", b"png bytes").unwrap();
    assert_eq!(bytes, 9);
    assert_eq!(source_digest, sha256_bytes(b"png bytes"));
}

#[test]
fn ffmpeg_version_names_the_first_word_after_the_banner() {
    assert_eq!(
        ffmpeg_version("ffmpeg version 6.1.1-3ubuntu5 Copyright (c) 2000-2023 the FFmpeg developers\r\nbuilt with gcc")
            .unwrap(),
        "6.1.1-3ubuntu5"
    );
    assert_eq!(ffmpeg_version("ffmpeg version n7.0\n").unwrap(), "n7.0");
    assert_eq!(ffmpeg_version("ffmpeg version   7.1 ").unwrap(), "7.1");
    for refused in ["", "ffmpeg version \nnext", "ffmpeg version", "ffprobe version 6.0", "\nffmpeg version 6.0"] {
        assert_eq!(ffmpeg_version(refused).unwrap_err().message(), "cannot parse ffmpeg version");
    }
}
