use pliego::adaptive::{ArtifactFormat, MeshCompression, VideoFormat};
use pliego::glb::{
    codec_error, codec_marker_list, glb_json_length, magic_matches, trim_json_padding,
    validate_gltf, validate_magic, GltfPrimitive, GltfSummary,
};
use pliego::raster::AssetError;

fn message<T>(r: Result<T, AssetError>) -> String {
    match r {
        Ok(_) => panic!("expected an error"),
        Err(e) => e.message(),
    }
}

fn glb(json: &[u8]) -> Vec<u8> {
    let mut json = json.to_vec();
    while json.len() % 4 != 0 {
        json.push(b' ');
    }
    let total = 12 + 8 + json.len();
    let mut bytes = Vec::with_capacity(total);
    bytes.extend_from_slice(b"glTF");
    bytes.extend_from_slice(&2_u32.to_le_bytes());
    bytes.extend_from_slice(&(total as u32).to_le_bytes());
    bytes.extend_from_slice(&(json.len() as u32).to_le_bytes());
    bytes.extend_from_slice(b"JSON");
    bytes.extend_from_slice(&json);
    bytes
}

fn scene() -> GltfSummary {
    GltfSummary {
        version: Some("2.0".to_owned()),
        buffer_uris: vec![false],
        image_uris: vec![],
        extensions_used: vec![
            Some("EXT_meshopt_compression".to_owned()),
            None,
            Some("KHR_texture_basisu".to_owned()),
        ],
        accessor_counts: vec![Some(6)],
        meshes: vec![Some(vec![GltfPrimitive { indices: Some(0), position: None, mode: None }])],
    }
}

#[test]
fn declared_formats_are_checked_by_magic_bytes() {
    let avif = b"\0\0\0\x14ftypavifpayload";
    assert!(validate_magic(avif, "hero.avif", ArtifactFormat::Avif).is_ok());
    assert!(magic_matches(b"RIFF0000WEBPpayload", ArtifactFormat::Webp));
    assert!(magic_matches(&[0xff, 0xd8, 0xff, 0xe0], ArtifactFormat::Jpeg));
    assert!(magic_matches(b"\0\0\0\x18ftypisom", ArtifactFormat::Mp4));
    assert!(magic_matches(&[0x1a, 0x45, 0xdf, 0xa3, 0x01], ArtifactFormat::Webm));
    assert!(magic_matches(b"wOF2\0\x01", ArtifactFormat::Woff2));
    assert!(magic_matches(&glb(b"{}")[..12], ArtifactFormat::Glb));
    assert!(!magic_matches(b"\0\0\0\x18ftypisom", ArtifactFormat::Avif));
    assert_eq!(
        message(validate_magic(b"not really avif", "stage/hero.avif", ArtifactFormat::Avif)),
        "stage/hero.avif does not match declared Avif format"
    );
}

#[test]
fn codec_markers_follow_the_declared_video_format() {
    assert_eq!(codec_marker_list(VideoFormat::Mp4H264), vec![b"avc1".to_vec(), b"avc3".to_vec()]);
    assert_eq!(codec_marker_list(VideoFormat::WebmVp9), vec![b"V_VP9".to_vec()]);
    assert_eq!(
        codec_error("clip.mp4", VideoFormat::Mp4Av1).message(),
        "clip.mp4 does not advertise its declared Mp4Av1 codec"
    );
}

#[test]
fn glb_header_declares_the_file_length_and_a_json_chunk() {
    let bytes = glb(br#"{"asset":{"version":"2.0"}}"#);
    let length = glb_json_length(&bytes[..20], bytes.len() as u64, "scene.glb").unwrap();
    assert_eq!(length as usize, bytes.len() - 20);
    assert_eq!(
        message(glb_json_length(&bytes[..20], bytes.len() as u64 + 1, "scene.glb")),
        "scene.glb has an invalid GLB header"
    );
    let mut json = bytes[20..].to_vec();
    json.push(0);
    trim_json_padding(&mut json);
    assert_eq!(json, br#"{"asset":{"version":"2.0"}}"#.to_vec());
}

#[test]
fn gltf_checks_reject_external_uris_and_observe_geometry() {
    assert!(validate_gltf(&scene(), "valid.glb", 2, 1, MeshCompression::Meshopt).is_ok());

    let mut external = scene();
    external.image_uris = vec![true];
    assert!(message(validate_gltf(&external, "external.glb", 2, 1, MeshCompression::Meshopt))
        .contains("self-contained"));

    assert_eq!(
        message(validate_gltf(&scene(), "valid.glb", 1, 1, MeshCompression::Meshopt)),
        "valid.glb exceeds planned geometry: 2 triangles / 1 draw calls"
    );
    assert_eq!(
        message(validate_gltf(&scene(), "valid.glb", 2, 1, MeshCompression::Draco)),
        "valid.glb does not declare the planned mesh/KTX2 extensions"
    );

    let mut strip = scene();
    strip.meshes = vec![
        None,
        Some(vec![
            GltfPrimitive { indices: None, position: Some(0), mode: Some(5) },
            GltfPrimitive { indices: Some(0), position: None, mode: Some(4) },
        ]),
    ];
    assert!(validate_gltf(&strip, "strip.glb", 6, 2, MeshCompression::Uncompressed).is_ok());
    assert_eq!(
        message(validate_gltf(&strip, "strip.glb", 5, 2, MeshCompression::Uncompressed)),
        "strip.glb exceeds planned geometry: 6 triangles / 2 draw calls"
    );

    let mut points = scene();
    points.meshes = vec![Some(vec![GltfPrimitive { indices: Some(0), position: None, mode: Some(0) }])];
    assert_eq!(
        message(validate_gltf(&points, "points.glb", 9, 9, MeshCompression::Meshopt)),
        "unsupported GLB primitive mode 0"
    );
    let mut unbound = scene();
    unbound.meshes = vec![Some(vec![GltfPrimitive { indices: Some(3), position: None, mode: None }])];
    assert_eq!(
        message(validate_gltf(&unbound, "unbound.glb", 9, 9, MeshCompression::Meshopt)),
        "GLB primitive has no bounded index/position accessor"
    );
    let mut empty = scene();
    empty.meshes = vec![];
    assert!(validate_gltf(&empty, "empty.glb", 9, 9, MeshCompression::Meshopt).is_err());
    let mut old = scene();
    old.version = Some("1.0".to_owned());
    assert_eq!(
        message(validate_gltf(&old, "old.glb", 9, 9, MeshCompression::Meshopt)),
        "old.glb is not glTF 2.0"
    );
}
