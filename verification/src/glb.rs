//! What a staged artifact must show before it is published: the magic bytes
//! of its declared format, and for binary glTF a well-formed header and a
//! self-contained scene within the planned geometry.
use vstd::prelude::*;
use crate::adaptive::{ArtifactFormat, MeshCompression, VideoFormat};
use crate::adaptive_plan::recipe_outcome;
use crate::numtext::{decimal_of, decimal_string};
use crate::raster::AssetError;
use crate::text::{push_str, str_eq};
use crate::adaptive::option_text;

verus! {

broadcast use vstd::string::group_string_axioms;

/// Largest JSON chunk a GLB may declare.
pub const MAX_GLTF_JSON_BYTES: u32 = 16 * 1024 * 1024;

pub open spec fn bytes_at(b: Seq<u8>, off: int, lit: Seq<u8>) -> bool {
    off + lit.len() <= b.len() && b.subrange(off, off + lit.len()) == lit
}

/// An `avif` or `avis` brand at offset `i`.
pub open spec fn brand_at(b: Seq<u8>, i: int) -> bool {
    bytes_at(b, i, seq![0x61u8, 0x76, 0x69, 0x66]) || bytes_at(b, i, seq![0x61u8, 0x76, 0x69, 0x73])
}

/// The magic bytes each artifact format starts with (ISO-BMFF `ftyp` boxes
/// for AVIF and MP4, with an `avif`/`avis` brand for AVIF).
pub open spec fn magic_ok(b: Seq<u8>, format: ArtifactFormat) -> bool {
    match format {
        ArtifactFormat::Avif => b.len() >= 12 && bytes_at(b, 4, seq![0x66u8, 0x74, 0x79, 0x70]) && exists|i: int|
            8 <= i && i + 4 <= b.len() && #[trigger] brand_at(b, i),
        ArtifactFormat::Webp => b.len() >= 12 && bytes_at(b, 0, seq![0x52u8, 0x49, 0x46, 0x46]) && bytes_at(
            b,
            8,
            seq![0x57u8, 0x45, 0x42, 0x50],
        ),
        ArtifactFormat::Jpeg => bytes_at(b, 0, seq![0xffu8, 0xd8, 0xff]),
        ArtifactFormat::Mp4 => b.len() >= 12 && bytes_at(b, 4, seq![0x66u8, 0x74, 0x79, 0x70]),
        ArtifactFormat::Webm => bytes_at(b, 0, seq![0x1au8, 0x45, 0xdf, 0xa3]),
        ArtifactFormat::Woff2 => bytes_at(b, 0, seq![0x77u8, 0x4f, 0x46, 0x32]),
        ArtifactFormat::Glb => b.len() >= 12 && bytes_at(b, 0, seq![0x67u8, 0x6c, 0x54, 0x46]) && bytes_at(
            b,
            4,
            seq![2u8, 0, 0, 0],
        ),
    }
}

/// The name `Debug` prints for an artifact format.
pub open spec fn format_name(f: ArtifactFormat) -> Seq<char> {
    match f {
        ArtifactFormat::Avif => "Avif"@,
        ArtifactFormat::Webp => "Webp"@,
        ArtifactFormat::Jpeg => "Jpeg"@,
        ArtifactFormat::Mp4 => "Mp4"@,
        ArtifactFormat::Webm => "Webm"@,
        ArtifactFormat::Woff2 => "Woff2"@,
        ArtifactFormat::Glb => "Glb"@,
    }
}

fn format_label(f: ArtifactFormat) -> (s: &'static str)
    ensures
        s@ == format_name(f),
{
    match f {
        ArtifactFormat::Avif => "Avif",
        ArtifactFormat::Webp => "Webp",
        ArtifactFormat::Jpeg => "Jpeg",
        ArtifactFormat::Mp4 => "Mp4",
        ArtifactFormat::Webm => "Webm",
        ArtifactFormat::Woff2 => "Woff2",
        ArtifactFormat::Glb => "Glb",
    }
}

fn bytes_match(b: &[u8], off: usize, lit: &[u8]) -> (r: bool)
    ensures
        r == bytes_at(b@, off as int, lit@),
{
    if off > b.len() || lit.len() > b.len() - off {
        return false;
    }
    let mut i: usize = 0;
    while i < lit.len()
        invariant
            off + lit.len() <= b.len(),
            i <= lit.len(),
            forall|k: int| 0 <= k < i ==> b@[off + k] == lit@[k],
        decreases lit.len() - i,
    {
        if b[off + i] != lit[i] {
            proof {
                assert(b@.subrange(off as int, off + lit.len())[i as int] != lit@[i as int]);
            }
            return false;
        }
        i = i + 1;
    }
    proof {
        assert(b@.subrange(off as int, off + lit.len()) =~= lit@);
    }
    true
}

fn has_avif_brand(b: &[u8]) -> (r: bool)
    ensures
        r == exists|i: int| 8 <= i && i + 4 <= b@.len() && #[trigger] brand_at(b@, i),
{
    let avif: [u8; 4] = [0x61, 0x76, 0x69, 0x66];
    let avis: [u8; 4] = [0x61, 0x76, 0x69, 0x73];
    proof {
        assert(avif@ =~= seq![0x61u8, 0x76, 0x69, 0x66]);
        assert(avis@ =~= seq![0x61u8, 0x76, 0x69, 0x73]);
    }
    let mut i: usize = 8;
    while i < b.len() && b.len() - i >= 4
        invariant
            8 <= i,
            avif@ == seq![0x61u8, 0x76, 0x69, 0x66],
            avis@ == seq![0x61u8, 0x76, 0x69, 0x73],
            forall|k: int| 8 <= k < i ==> !#[trigger] brand_at(b@, k),
        decreases b.len() - i,
    {
        if bytes_match(b, i, avif.as_slice()) || bytes_match(b, i, avis.as_slice()) {
            proof {
                assert(brand_at(b@, i as int));
            }
            return true;
        }
        i = i + 1;
    }
    proof {
        assert forall|k: int| 8 <= k && k + 4 <= b@.len() implies !#[trigger] brand_at(b@, k) by {
            assert(k < i);
        }
    }
    false
}

/// Whether the leading bytes of a file match a format's magic.
pub fn magic_matches(head: &[u8], format: ArtifactFormat) -> (r: bool)
    ensures
        r == magic_ok(head@, format),
{
    let ftyp: [u8; 4] = [0x66, 0x74, 0x79, 0x70];
    proof {
        assert(ftyp@ =~= seq![0x66u8, 0x74, 0x79, 0x70]);
    }
    match format {
        ArtifactFormat::Avif => head.len() >= 12 && bytes_match(head, 4, ftyp.as_slice()) && has_avif_brand(head),
        ArtifactFormat::Webp => {
            let riff: [u8; 4] = [0x52, 0x49, 0x46, 0x46];
            let webp: [u8; 4] = [0x57, 0x45, 0x42, 0x50];
            proof {
                assert(riff@ =~= seq![0x52u8, 0x49, 0x46, 0x46]);
                assert(webp@ =~= seq![0x57u8, 0x45, 0x42, 0x50]);
            }
            head.len() >= 12 && bytes_match(head, 0, riff.as_slice()) && bytes_match(head, 8, webp.as_slice())
        },
        ArtifactFormat::Jpeg => {
            let soi: [u8; 3] = [0xff, 0xd8, 0xff];
            proof {
                assert(soi@ =~= seq![0xffu8, 0xd8, 0xff]);
            }
            bytes_match(head, 0, soi.as_slice())
        },
        ArtifactFormat::Mp4 => head.len() >= 12 && bytes_match(head, 4, ftyp.as_slice()),
        ArtifactFormat::Webm => {
            let ebml: [u8; 4] = [0x1a, 0x45, 0xdf, 0xa3];
            proof {
                assert(ebml@ =~= seq![0x1au8, 0x45, 0xdf, 0xa3]);
            }
            bytes_match(head, 0, ebml.as_slice())
        },
        ArtifactFormat::Woff2 => {
            let woff: [u8; 4] = [0x77, 0x4f, 0x46, 0x32];
            proof {
                assert(woff@ =~= seq![0x77u8, 0x4f, 0x46, 0x32]);
            }
            bytes_match(head, 0, woff.as_slice())
        },
        ArtifactFormat::Glb => {
            let gltf: [u8; 4] = [0x67, 0x6c, 0x54, 0x46];
            let two: [u8; 4] = [2, 0, 0, 0];
            proof {
                assert(gltf@ =~= seq![0x67u8, 0x6c, 0x54, 0x46]);
                assert(two@ =~= seq![2u8, 0, 0, 0]);
            }
            head.len() >= 12 && bytes_match(head, 0, gltf.as_slice()) && bytes_match(head, 4, two.as_slice())
        },
    }
}

/// Checks the first bytes of a staged artifact (at most 32 are read) against
/// its declared format; `path` names the file in the message.
pub fn validate_magic(head: &[u8], path: &str, format: ArtifactFormat) -> (r: Result<(), AssetError>)
    ensures
        recipe_outcome(
            r,
            if magic_ok(head@, format) {
                None
            } else {
                Some(path@ + " does not match declared "@ + format_name(format) + " format"@)
            },
        ),
{
    if magic_matches(head, format) {
        Ok(())
    } else {
        let mut m = String::new();
        push_str(&mut m, path);
        push_str(&mut m, " does not match declared ");
        push_str(&mut m, format_label(format));
        push_str(&mut m, " format");
        proof {
            assert(m@ =~= path@ + " does not match declared "@ + format_name(format) + " format"@);
        }
        Err(AssetError::InvalidRecipe(m))
    }
}

/// The name `Debug` prints for a video format.
pub open spec fn video_format_name(f: VideoFormat) -> Seq<char> {
    match f {
        VideoFormat::Mp4H264 => "Mp4H264"@,
        VideoFormat::Mp4Av1 => "Mp4Av1"@,
        VideoFormat::WebmVp9 => "WebmVp9"@,
    }
}

/// The byte strings whose presence shows a video's codec: `avc1` or `avc3`
/// for H.264, `av01` for AV1, `V_VP9` for VP9.
pub open spec fn codec_markers(f: VideoFormat) -> Seq<Seq<u8>> {
    match f {
        VideoFormat::Mp4H264 => seq![seq![0x61u8, 0x76, 0x63, 0x31], seq![0x61u8, 0x76, 0x63, 0x33]],
        VideoFormat::Mp4Av1 => seq![seq![0x61u8, 0x76, 0x30, 0x31]],
        VideoFormat::WebmVp9 => seq![seq![0x56u8, 0x5f, 0x56, 0x50, 0x39]],
    }
}

/// The markers to search a staged video for, in the order they are tried.
pub fn codec_marker_list(f: VideoFormat) -> (v: Vec<Vec<u8>>)
    ensures
        v@.map_values(|x: Vec<u8>| x@) == codec_markers(f),
{
    let mut v: Vec<Vec<u8>> = Vec::new();
    match f {
        VideoFormat::Mp4H264 => {
            v.push(vec![0x61u8, 0x76, 0x63, 0x31]);
            v.push(vec![0x61u8, 0x76, 0x63, 0x33]);
        },
        VideoFormat::Mp4Av1 => {
            v.push(vec![0x61u8, 0x76, 0x30, 0x31]);
        },
        VideoFormat::WebmVp9 => {
            v.push(vec![0x56u8, 0x5f, 0x56, 0x50, 0x39]);
        },
    }
    proof {
        assert(v@.map_values(|x: Vec<u8>| x@) =~= codec_markers(f));
    }
    v
}

/// The refusal of a video in which none of its codec markers was found.
pub fn codec_error(path: &str, f: VideoFormat) -> (e: AssetError)
    ensures
        e matches AssetError::InvalidRecipe(m) && m@ == path@ + " does not advertise its declared "@
            + video_format_name(f) + " codec"@,
{
    let mut m = String::new();
    push_str(&mut m, path);
    push_str(&mut m, " does not advertise its declared ");
    push_str(
        &mut m,
        match f {
            VideoFormat::Mp4H264 => "Mp4H264",
            VideoFormat::Mp4Av1 => "Mp4Av1",
            VideoFormat::WebmVp9 => "WebmVp9",
        },
    );
    push_str(&mut m, " codec");
    proof {
        assert(m@ =~= path@ + " does not advertise its declared "@ + video_format_name(f) + " codec"@);
    }
    AssetError::InvalidRecipe(m)
}

/// The little-endian `u32` at `off`.
pub open spec fn le_u32(b: Seq<u8>, off: int) -> nat {
    (b[off] + 256 * b[off + 1] + 65536 * b[off + 2] + 16777216 * b[off + 3]) as nat
}

/// A 20-byte GLB preamble whose declared length is the file's, followed by a
/// non-empty, bounded `JSON` chunk.
pub open spec fn glb_header_ok(h: Seq<u8>, file_len: u64) -> bool {
    &&& le_u32(h, 8) == file_len
    &&& le_u32(h, 12) != 0
    &&& le_u32(h, 12) <= MAX_GLTF_JSON_BYTES
    &&& bytes_at(h, 16, seq![0x4au8, 0x53, 0x4f, 0x4e])
}

/// Reads the GLB preamble of a file of `file_len` bytes and returns the
/// length of its JSON chunk.
pub fn glb_json_length(header: &[u8], file_len: u64, path: &str) -> (r: Result<u32, AssetError>)
    requires
        header@.len() == 20,
    ensures
        glb_header_ok(header@, file_len) ==> (r matches Ok(n) && n == le_u32(header@, 12)),
        !glb_header_ok(header@, file_len) ==> (r matches Err(AssetError::InvalidRecipe(m)) && m@ == path@
            + " has an invalid GLB header"@),
{
    let declared: u64 = header[8] as u64 + 256 * header[9] as u64 + 65536 * header[10] as u64 + 16777216
        * header[11] as u64;
    let json: u64 = header[12] as u64 + 256 * header[13] as u64 + 65536 * header[14] as u64 + 16777216
        * header[15] as u64;
    let tag: [u8; 4] = [0x4a, 0x53, 0x4f, 0x4e];
    proof {
        assert(tag@ =~= seq![0x4au8, 0x53, 0x4f, 0x4e]);
    }
    if declared != file_len || json == 0 || json > MAX_GLTF_JSON_BYTES as u64 || !bytes_match(header, 16, tag.as_slice()) {
        let mut m = String::new();
        push_str(&mut m, path);
        push_str(&mut m, " has an invalid GLB header");
        proof {
            assert(m@ =~= path@ + " has an invalid GLB header"@);
        }
        return Err(AssetError::InvalidRecipe(m));
    }
    Ok(json as u32)
}

pub open spec fn is_padding(b: u8) -> bool {
    b == 0x20 || b == 0
}

/// Drops the trailing spaces and NULs that pad a JSON chunk.
pub fn trim_json_padding(json: &mut Vec<u8>)
    ensures
        final(json)@ == old(json)@.take(final(json)@.len() as int),
        forall|k: int| final(json)@.len() <= k < old(json)@.len() ==> is_padding(#[trigger] old(json)@[k]),
        final(json)@.len() == 0 || !is_padding(final(json)@.last()),
{
    let ghost all = json@;
    while json.len() > 0 && (json[json.len() - 1] == 0x20 || json[json.len() - 1] == 0)
        invariant
            json@ == all.take(json@.len() as int),
            json@.len() <= all.len(),
            forall|k: int| json@.len() <= k < all.len() ==> is_padding(#[trigger] all[k]),
        decreases json.len(),
    {
        let ghost n = json@.len() as int;
        json.pop();
        proof {
            assert(json@ =~= all.take(n - 1));
        }
    }
}

/// A mesh primitive as the checks read it: its `indices` accessor, its
/// `POSITION` attribute accessor, and its `mode` (each when present as an
/// unsigned integer).
#[derive(Clone, Copy, Debug)]
pub struct GltfPrimitive {
    pub indices: Option<u64>,
    pub position: Option<u64>,
    pub mode: Option<u64>,
}

/// What the checks read of a glTF JSON document: `asset.version` when it is
/// a string, whether each buffer and image entry has a `uri`, the entries of
/// `extensionsUsed` that are strings, each accessor's `count` when it is an
/// unsigned integer, and each mesh's `primitives` when it is an array.
/// Collections that are absent or not arrays are empty.
#[derive(Clone, Debug)]
pub struct GltfSummary {
    pub version: Option<String>,
    pub buffer_uris: Vec<bool>,
    pub image_uris: Vec<bool>,
    pub extensions_used: Vec<Option<String>>,
    pub accessor_counts: Vec<Option<u64>>,
    pub meshes: Vec<Option<Vec<GltfPrimitive>>>,
}

/// The primitives of all meshes that declare them, in order.
pub open spec fn mesh_primitives(ms: Seq<Option<Vec<GltfPrimitive>>>) -> Seq<GltfPrimitive>
    decreases ms.len(),
{
    if ms.len() == 0 {
        Seq::empty()
    } else {
        mesh_primitives(ms.drop_last()) + match ms.last() {
            Some(p) => p@,
            None => Seq::empty(),
        }
    }
}

pub open spec fn no_accessor_message() -> Seq<char> {
    "GLB primitive has no bounded index/position accessor"@
}

/// The triangles a primitive draws: a third of its index (or position)
/// count for triangle lists, two fewer for strips and fans.
pub open spec fn primitive_triangles(counts: Seq<Option<u64>>, p: GltfPrimitive) -> Result<nat, Seq<char>> {
    let idx = match p.indices {
        Some(i) => Some(i),
        None => p.position,
    };
    match idx {
        None => Err(no_accessor_message()),
        Some(i) => if i < counts.len() && counts[i as int] is Some {
            let count = counts[i as int]->0;
            let mode = match p.mode {
                Some(m) => m,
                None => 4,
            };
            if mode == 4 {
                Ok((count / 3) as nat)
            } else if mode == 5 || mode == 6 {
                Ok(if count >= 2 {
                    (count - 2) as nat
                } else {
                    0
                })
            } else {
                Err("unsupported GLB primitive mode "@ + decimal_of(mode as nat))
            }
        } else {
            Err(no_accessor_message())
        },
    }
}

/// Triangles and draw calls of a primitive list, or the first refusal.
pub open spec fn geometry(counts: Seq<Option<u64>>, prims: Seq<GltfPrimitive>) -> Result<(nat, nat), Seq<char>>
    decreases prims.len(),
{
    if prims.len() == 0 {
        Ok((0, 0))
    } else {
        match geometry(counts, prims.drop_last()) {
            Err(m) => Err(m),
            Ok((t, d)) => if d + 1 > u64::MAX {
                Err("GLB draw call count overflow"@)
            } else {
                match primitive_triangles(counts, prims.last()) {
                    Err(m) => Err(m),
                    Ok(n) => if t + n > u64::MAX {
                        Err("GLB triangle count overflow"@)
                    } else {
                        Ok((t + n, d + 1))
                    },
                }
            },
        }
    }
}

/// The extension a mesh compression needs declared, if any.
pub open spec fn mesh_extension(c: MeshCompression) -> Option<Seq<char>> {
    match c {
        MeshCompression::Uncompressed => None,
        MeshCompression::Meshopt => Some("EXT_meshopt_compression"@),
        MeshCompression::Draco => Some("KHR_draco_mesh_compression"@),
    }
}

pub open spec fn declares(doc: GltfSummary, e: Seq<char>) -> bool {
    exists|k: int|
        0 <= k < doc.extensions_used@.len() && #[trigger] doc.extensions_used@[k] is Some
            && doc.extensions_used@[k]->0@ == e
}

/// Everything `validate_gltf` refuses, in its order.
pub open spec fn gltf_fault(
    doc: GltfSummary,
    path: Seq<char>,
    max_triangles: u64,
    max_draw_calls: u64,
    mesh_compression: MeshCompression,
) -> Option<Seq<char>> {
    if !(doc.version is Some && doc.version->0@ == "2.0"@) {
        Some(path + " is not glTF 2.0"@)
    } else if doc.buffer_uris@.contains(true) || doc.image_uris@.contains(true) {
        Some(path + " must be self-contained; external and data URIs are forbidden"@)
    } else if (match mesh_extension(mesh_compression) {
        Some(e) => !declares(doc, e),
        None => false,
    }) || !declares(doc, "KHR_texture_basisu"@) {
        Some(path + " does not declare the planned mesh/KTX2 extensions"@)
    } else {
        match geometry(doc.accessor_counts@, mesh_primitives(doc.meshes@)) {
            Err(m) => Some(m),
            Ok((t, d)) => if d == 0 || t > max_triangles || d > max_draw_calls {
                Some(
                    path + " exceeds planned geometry: "@ + decimal_of(t) + " triangles / "@ + decimal_of(d)
                        + " draw calls"@,
                )
            } else {
                None
            },
        }
    }
}

pub proof fn lemma_geometry_err_extends(counts: Seq<Option<u64>>, s: Seq<GltfPrimitive>, rest: Seq<GltfPrimitive>)
    requires
        geometry(counts, s) is Err,
    ensures
        geometry(counts, s + rest) == geometry(counts, s),
    decreases rest.len(),
{
    if rest.len() > 0 {
        assert((s + rest).drop_last() =~= s + rest.drop_last());
        lemma_geometry_err_extends(counts, s, rest.drop_last());
    } else {
        assert(s + rest =~= s);
    }
}

pub proof fn lemma_mesh_prefix(ms: Seq<Option<Vec<GltfPrimitive>>>, i: int) -> (rest: Seq<GltfPrimitive>)
    requires
        0 <= i <= ms.len(),
    ensures
        mesh_primitives(ms) == mesh_primitives(ms.take(i)) + rest,
    decreases ms.len(),
{
    if i == ms.len() {
        assert(ms.take(i) =~= ms);
        assert(mesh_primitives(ms) + Seq::<GltfPrimitive>::empty() =~= mesh_primitives(ms));
        Seq::empty()
    } else {
        assert(ms.drop_last().take(i) =~= ms.take(i));
        let r = lemma_mesh_prefix(ms.drop_last(), i);
        let tail = match ms.last() {
            Some(p) => p@,
            None => Seq::empty(),
        };
        assert(mesh_primitives(ms) =~= mesh_primitives(ms.take(i)) + (r + tail));
        r + tail
    }
}

fn primitive_triangle_count(counts: &Vec<Option<u64>>, p: GltfPrimitive) -> (r: Result<u64, AssetError>)
    ensures
        match primitive_triangles(counts@, p) {
            Ok(n) => r matches Ok(x) && x == n,
            Err(m) => r matches Err(AssetError::InvalidRecipe(e)) && e@ == m,
        },
{
    let idx = match p.indices {
        Some(i) => Some(i),
        None => p.position,
    };
    let i = match idx {
        Some(i) => i,
        None => {
            return Err(AssetError::InvalidRecipe("GLB primitive has no bounded index/position accessor".to_owned()));
        },
    };
    if i >= counts.len() as u64 {
        return Err(AssetError::InvalidRecipe("GLB primitive has no bounded index/position accessor".to_owned()));
    }
    let count = match counts[i as usize] {
        Some(c) => c,
        None => {
            return Err(AssetError::InvalidRecipe("GLB primitive has no bounded index/position accessor".to_owned()));
        },
    };
    let mode = match p.mode {
        Some(m) => m,
        None => 4,
    };
    if mode == 4 {
        Ok(count / 3)
    } else if mode == 5 || mode == 6 {
        Ok(count.saturating_sub(2))
    } else {
        let mut m = String::new();
        push_str(&mut m, "unsupported GLB primitive mode ");
        push_str(&mut m, decimal_string(mode).as_str());
        proof {
            assert(m@ =~= "unsupported GLB primitive mode "@ + decimal_of(mode as nat));
        }
        Err(AssetError::InvalidRecipe(m))
    }
}

/// Counts the triangles and draw calls of every declared primitive.
fn count_geometry(doc: &GltfSummary) -> (r: Result<(u64, u64), AssetError>)
    ensures
        match geometry(doc.accessor_counts@, mesh_primitives(doc.meshes@)) {
            Ok((t, d)) => r matches Ok((x, y)) && x == t && y == d,
            Err(m) => r matches Err(AssetError::InvalidRecipe(e)) && e@ == m,
        },
{
    let ghost counts = doc.accessor_counts@;
    let mut t: u64 = 0;
    let mut d: u64 = 0;
    let mut i: usize = 0;
    proof {
        assert(doc.meshes@.take(0) =~= Seq::<Option<Vec<GltfPrimitive>>>::empty());
    }
    while i < doc.meshes.len()
        invariant
            counts == doc.accessor_counts@,
            i <= doc.meshes.len(),
            geometry(counts, mesh_primitives(doc.meshes@.take(i as int))) == Ok::<(nat, nat), Seq<char>>(
                (t as nat, d as nat),
            ),
        decreases doc.meshes.len() - i,
    {
        let ghost before = mesh_primitives(doc.meshes@.take(i as int));
        proof {
            assert(doc.meshes@.take(i + 1).drop_last() =~= doc.meshes@.take(i as int));
        }
        match &doc.meshes[i] {
            None => {
                proof {
                    assert(mesh_primitives(doc.meshes@.take(i + 1)) =~= before);
                }
            },
            Some(prims) => {
                let mut j: usize = 0;
                proof {
                    assert(before + prims@.take(0) =~= before);
                    assert(mesh_primitives(doc.meshes@.take(i + 1)) =~= before + prims@);
                }
                while j < prims.len()
                    invariant
                        counts == doc.accessor_counts@,
                        i < doc.meshes@.len(),
                        doc.meshes@[i as int] == Some(*prims),
                        before == mesh_primitives(doc.meshes@.take(i as int)),
                        mesh_primitives(doc.meshes@.take(i + 1)) == before + prims@,
                        j <= prims.len(),
                        geometry(counts, before + prims@.take(j as int)) == Ok::<(nat, nat), Seq<char>>(
                            (t as nat, d as nat),
                        ),
                    decreases prims.len() - j,
                {
                    let p = prims[j];
                    let ghost seen = before + prims@.take(j as int);
                    proof {
                        assert((before + prims@.take(j + 1)).drop_last() =~= seen);
                        assert((before + prims@.take(j + 1)).last() == p);
                    }
                    let ghost upto = before + prims@.take(j + 1);
                    proof {
                        let rest = lemma_mesh_prefix(doc.meshes@, i + 1);
                        assert(mesh_primitives(doc.meshes@) =~= upto + (prims@.skip(j + 1) + rest));
                        if geometry(counts, upto) is Err {
                            lemma_geometry_err_extends(counts, upto, prims@.skip(j + 1) + rest);
                        }
                    }
                    if d == u64::MAX {
                        return Err(AssetError::InvalidRecipe("GLB draw call count overflow".to_owned()));
                    }
                    let n = match primitive_triangle_count(&doc.accessor_counts, p) {
                        Ok(n) => n,
                        Err(e) => {
                            return Err(e);
                        },
                    };
                    t = match t.checked_add(n) {
                        Some(x) => x,
                        None => {
                            return Err(AssetError::InvalidRecipe("GLB triangle count overflow".to_owned()));
                        },
                    };
                    d = d + 1;
                    j = j + 1;
                }
                proof {
                    assert(prims@.take(prims@.len() as int) =~= prims@);
                    assert(mesh_primitives(doc.meshes@.take(i + 1)) =~= before + prims@);
                }
            },
        }
        i = i + 1;
    }
    proof {
        assert(doc.meshes@.take(doc.meshes@.len() as int) =~= doc.meshes@);
    }
    Ok((t, d))
}

fn any_true(v: &Vec<bool>) -> (b: bool)
    ensures
        b == v@.contains(true),
{
    let mut i: usize = 0;
    while i < v.len()
        invariant
            i <= v.len(),
            forall|k: int| 0 <= k < i ==> !v@[k],
        decreases v.len() - i,
    {
        if v[i] {
            return true;
        }
        i = i + 1;
    }
    false
}

fn declares_extension(doc: &GltfSummary, e: &str) -> (b: bool)
    ensures
        b == declares(*doc, e@),
{
    let mut i: usize = 0;
    while i < doc.extensions_used.len()
        invariant
            i <= doc.extensions_used.len(),
            forall|k: int|
                0 <= k < i ==> !(#[trigger] doc.extensions_used@[k] is Some && doc.extensions_used@[k]->0@ == e@),
        decreases doc.extensions_used.len() - i,
    {
        match &doc.extensions_used[i] {
            Some(name) => {
                if str_eq(name.as_str(), e) {
                    return true;
                }
            },
            None => {},
        }
        i = i + 1;
    }
    false
}

/// Checks a glTF document against its plan: version 2.0, no external or data
/// URIs, the planned mesh-compression and KTX2 extensions declared, and
/// geometry within the planned triangles and draw calls (at least one draw).
pub fn validate_gltf(
    doc: &GltfSummary,
    path: &str,
    max_triangles: u64,
    max_draw_calls: u64,
    mesh_compression: MeshCompression,
) -> (r: Result<(), AssetError>)
    ensures
        recipe_outcome(r, gltf_fault(*doc, path@, max_triangles, max_draw_calls, mesh_compression)),
{
    let version_ok = match &doc.version {
        Some(v) => str_eq(v.as_str(), "2.0"),
        None => false,
    };
    if !version_ok {
        let mut m = String::new();
        push_str(&mut m, path);
        push_str(&mut m, " is not glTF 2.0");
        proof {
            assert(m@ =~= path@ + " is not glTF 2.0"@);
        }
        return Err(AssetError::InvalidRecipe(m));
    }
    if any_true(&doc.buffer_uris) || any_true(&doc.image_uris) {
        let mut m = String::new();
        push_str(&mut m, path);
        push_str(&mut m, " must be self-contained; external and data URIs are forbidden");
        proof {
            assert(m@ =~= path@ + " must be self-contained; external and data URIs are forbidden"@);
        }
        return Err(AssetError::InvalidRecipe(m));
    }
    let mesh_missing = match mesh_compression {
        MeshCompression::Uncompressed => false,
        MeshCompression::Meshopt => !declares_extension(doc, "EXT_meshopt_compression"),
        MeshCompression::Draco => !declares_extension(doc, "KHR_draco_mesh_compression"),
    };
    if mesh_missing || !declares_extension(doc, "KHR_texture_basisu") {
        let mut m = String::new();
        push_str(&mut m, path);
        push_str(&mut m, " does not declare the planned mesh/KTX2 extensions");
        proof {
            assert(m@ =~= path@ + " does not declare the planned mesh/KTX2 extensions"@);
        }
        return Err(AssetError::InvalidRecipe(m));
    }
    let (t, d) = match count_geometry(doc) {
        Ok(x) => x,
        Err(e) => {
            return Err(e);
        },
    };
    if d == 0 || t > max_triangles || d > max_draw_calls {
        let mut m = String::new();
        push_str(&mut m, path);
        push_str(&mut m, " exceeds planned geometry: ");
        push_str(&mut m, decimal_string(t).as_str());
        push_str(&mut m, " triangles / ");
        push_str(&mut m, decimal_string(d).as_str());
        push_str(&mut m, " draw calls");
        proof {
            assert(m@ =~= path@ + " exceeds planned geometry: "@ + decimal_of(t as nat) + " triangles / "@
                + decimal_of(d as nat) + " draw calls"@);
        }
        return Err(AssetError::InvalidRecipe(m));
    }
    Ok(())
}

} // verus!
