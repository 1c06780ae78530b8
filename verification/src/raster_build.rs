//! The decisions of a raster build between the encoder's runs: which
//! variants to make, and whether each encoded variant is accepted and under
//! which content-addressed name.
use vstd::prelude::*;
use crate::build_graph::sha_ok;
use crate::digest::{sha256_bytes, sha256_hex};
use crate::numtext::{decimal_of, decimal_string};
use crate::portable::prefix_chars;
use crate::raster::{
    decoded_rgba_bytes, dimensions_ok, normalized_widths, normalized_widths_ok, validate_raster_dimensions,
    AssetError, Dimensions, GeneratedVariant, RasterFormat, RasterRecipe, MAX_RASTER_VARIANTS,
};
use crate::text::{chars_of, push_str, string_from_chars};

verus! {

broadcast use vstd::string::group_string_axioms;

/// Most bytes all variants of one raster build may hold together.
pub const MAX_RASTER_TOTAL_OUTPUT_BYTES: u64 = 1024 * 1024 * 1024;

pub open spec fn raster_extension(f: RasterFormat) -> Seq<char> {
    match f {
        RasterFormat::Avif => "avif"@,
        RasterFormat::Webp => "webp"@,
        RasterFormat::Jpeg => "jpg"@,
    }
}

pub open spec fn format_rank(f: RasterFormat) -> int {
    match f {
        RasterFormat::Avif => 0,
        RasterFormat::Webp => 1,
        RasterFormat::Jpeg => 2,
    }
}

/// The formats of a recipe as a set, in format order.
pub open spec fn formats_as_set(requested: Seq<RasterFormat>, out: Seq<RasterFormat>) -> bool {
    &&& forall|i: int, j: int| 0 <= i < j < out.len() ==> format_rank(#[trigger] out[i]) < format_rank(#[trigger] out[j])
    &&& forall|f: RasterFormat| out.contains(f) <==> requested.contains(f)
}

fn has_format(v: &Vec<RasterFormat>, f: RasterFormat) -> (b: bool)
    ensures
        b == v@.contains(f),
{
    let mut i: usize = 0;
    while i < v.len()
        invariant
            i <= v.len(),
            forall|k: int| 0 <= k < i ==> v@[k] != f,
        decreases v.len() - i,
    {
        if v[i] == f {
            return true;
        }
        i = i + 1;
    }
    false
}

/// The distinct formats of a recipe, in format order.
pub fn distinct_formats(requested: &Vec<RasterFormat>) -> (out: Vec<RasterFormat>)
    ensures
        formats_as_set(requested@, out@),
{
    let mut out: Vec<RasterFormat> = Vec::new();
    if has_format(requested, RasterFormat::Avif) {
        out.push(RasterFormat::Avif);
    }
    if has_format(requested, RasterFormat::Webp) {
        out.push(RasterFormat::Webp);
    }
    if has_format(requested, RasterFormat::Jpeg) {
        out.push(RasterFormat::Jpeg);
    }
    proof {
        assert forall|f: RasterFormat| out@.contains(f) <==> requested@.contains(f) by {
            if requested@.contains(f) {
                match f {
                    RasterFormat::Avif => assert(out@[0] == f),
                    RasterFormat::Webp => assert(out@.contains(f)) by {
                        let k = if requested@.contains(RasterFormat::Avif) { 1int } else { 0int };
                        assert(out@[k] == f);
                    },
                    RasterFormat::Jpeg => assert(out@.last() == f),
                }
            }
        }
    }
    out
}

/// What a raster build makes: each width for each format.
pub struct RasterPlan {
    pub widths: Vec<u32>,
    pub formats: Vec<RasterFormat>,
}

/// Checks the source's decoded dimensions and expands the recipe into its
/// variants: requested widths capped at the source width, sorted and
/// distinct, times the distinct formats, at most 96 variants.
pub fn plan_raster(recipe: &RasterRecipe, source: Dimensions) -> (r: Result<RasterPlan, AssetError>)
    ensures
        !dimensions_ok(source) ==> (r matches Err(AssetError::Backend(m)) && m@ == "source dimensions "@
            + decimal_of(source.width as nat) + "x"@ + decimal_of(source.height as nat)
            + " exceed the raster limits"@),
        dimensions_ok(source) ==> match r {
            Ok(p) => normalized_widths_ok(recipe.widths@, source.width, p.widths@) && formats_as_set(
                recipe.formats@,
                p.formats@,
            ) && p.widths@.len() * p.formats@.len() <= MAX_RASTER_VARIANTS,
            Err(e) => e matches AssetError::InvalidRecipe(m) && exists|w: Seq<u32>, f: Seq<RasterFormat>|
                normalized_widths_ok(recipe.widths@, source.width, w) && formats_as_set(recipe.formats@, f) && (if w.len()
                    * f.len() > usize::MAX {
                    m@ == "raster variant count overflow"@
                } else {
                    w.len() * f.len() > MAX_RASTER_VARIANTS && m@ == "raster recipe expands to "@ + decimal_of(
                        (w.len() * f.len()) as nat,
                    ) + " variants; maximum is 96"@
                }),
        },
{
    match validate_raster_dimensions(source, "source") {
        Ok(()) => {},
        Err(e) => {
            proof {
                reveal_strlit("source");
                reveal_strlit(" dimensions ");
                reveal_strlit("source dimensions ");
                assert("source"@ + " dimensions "@ =~= "source dimensions "@);
            }
            return Err(e);
        },
    }
    let widths = normalized_widths(recipe.widths.as_slice(), source.width);
    let formats = distinct_formats(&recipe.formats);
    let count = match widths.len().checked_mul(formats.len()) {
        Some(n) => n,
        None => {
            return Err(AssetError::InvalidRecipe("raster variant count overflow".to_owned()));
        },
    };
    if count > MAX_RASTER_VARIANTS {
        let mut m = String::new();
        push_str(&mut m, "raster recipe expands to ");
        push_str(&mut m, decimal_string(count as u64).as_str());
        push_str(&mut m, " variants; maximum is 96");
        proof {
            assert(m@ =~= "raster recipe expands to "@ + decimal_of((widths@.len() * formats@.len()) as nat)
                + " variants; maximum is 96"@);
        }
        return Err(AssetError::InvalidRecipe(m));
    }
    Ok(RasterPlan { widths, formats })
}

/// The name an encoder writes a variant to before it is checked.
pub fn staging_name(asset_id: &str, width: u32, format: RasterFormat) -> (s: String)
    ensures
        s@ == asset_id@ + ".w"@ + decimal_of(width as nat) + "."@ + raster_extension(format),
{
    let mut s = String::new();
    push_str(&mut s, asset_id);
    push_str(&mut s, ".w");
    push_str(&mut s, decimal_string(width as u64).as_str());
    push_str(&mut s, ".");
    push_str(&mut s, format.extension());
    proof {
        assert(s@ =~= asset_id@ + ".w"@ + decimal_of(width as nat) + "."@ + raster_extension(format));
    }
    s
}

/// The content-addressed file name of an accepted variant.
pub open spec fn variant_file_name(asset_id: Seq<char>, width: u32, sha256: Seq<char>, format: RasterFormat) -> Seq<
    char,
> {
    asset_id + ".w"@ + decimal_of(width as nat) + "."@ + sha256.take(16) + "."@ + raster_extension(format)
}

/// The refusal of an encoded variant, if any: empty, the wrong width or
/// wider than the source, or past the byte ceiling of the build.
pub open spec fn encoded_fault(
    staged: Seq<char>,
    source_width: u32,
    total: u64,
    width: u32,
    dims: Dimensions,
    bytes: u64,
) -> Option<Seq<char>> {
    if bytes == 0 {
        Some("backend emitted an empty variant: "@ + staged)
    } else if dims.width != width || dims.width > source_width {
        Some(
            "backend emitted invalid dimensions "@ + decimal_of(dims.width as nat) + "x"@ + decimal_of(
                dims.height as nat,
            ) + " for requested width "@ + decimal_of(width as nat),
        )
    } else if total + bytes > u64::MAX {
        Some("raster output byte total overflow"@)
    } else if total + bytes > MAX_RASTER_TOTAL_OUTPUT_BYTES {
        Some("raster outputs exceed 1073741824 aggregate bytes"@)
    } else {
        None
    }
}

/// Accepts a variant the encoder produced: `staged` names its staging file,
/// `bytes` and `sha256` what hashing it measured, `total` the bytes accepted
/// so far. Returns the content-addressed name to publish it under.
pub fn accept_encoded(
    asset_id: &str,
    source_width: u32,
    total: &mut u64,
    staged: &str,
    width: u32,
    format: RasterFormat,
    dims: Dimensions,
    bytes: u64,
    sha256: &str,
) -> (r: Result<String, AssetError>)
    requires
        sha_ok(sha256@),
    ensures
        match encoded_fault(staged@, source_width, *old(total), width, dims, bytes) {
            Some(m) => r matches Err(AssetError::Backend(e)) && e@ == m,
            None => r matches Ok(name) && name@ == variant_file_name(asset_id@, dims.width, sha256@, format)
                && *final(total) == *old(total) + bytes,
        },
{
    if bytes == 0 {
        let mut m = String::new();
        push_str(&mut m, "backend emitted an empty variant: ");
        push_str(&mut m, staged);
        proof {
            assert(m@ =~= "backend emitted an empty variant: "@ + staged@);
        }
        return Err(AssetError::Backend(m));
    }
    if dims.width != width || dims.width > source_width {
        let mut m = String::new();
        push_str(&mut m, "backend emitted invalid dimensions ");
        push_str(&mut m, decimal_string(dims.width as u64).as_str());
        push_str(&mut m, "x");
        push_str(&mut m, decimal_string(dims.height as u64).as_str());
        push_str(&mut m, " for requested width ");
        push_str(&mut m, decimal_string(width as u64).as_str());
        proof {
            assert(m@ =~= "backend emitted invalid dimensions "@ + decimal_of(dims.width as nat) + "x"@
                + decimal_of(dims.height as nat) + " for requested width "@ + decimal_of(width as nat));
        }
        return Err(AssetError::Backend(m));
    }
    let next = match total.checked_add(bytes) {
        Some(t) => t,
        None => {
            return Err(AssetError::Backend("raster output byte total overflow".to_owned()));
        },
    };
    if next > MAX_RASTER_TOTAL_OUTPUT_BYTES {
        return Err(AssetError::Backend("raster outputs exceed 1073741824 aggregate bytes".to_owned()));
    }
    *total = next;
    let digest = chars_of(sha256);
    let head = string_from_chars(prefix_chars(digest.as_slice(), 16).as_slice());
    let mut name = String::new();
    push_str(&mut name, asset_id);
    push_str(&mut name, ".w");
    push_str(&mut name, decimal_string(dims.width as u64).as_str());
    push_str(&mut name, ".");
    push_str(&mut name, head.as_str());
    push_str(&mut name, ".");
    push_str(&mut name, format.extension());
    proof {
        assert(name@ =~= variant_file_name(asset_id@, dims.width, sha256@, format));
    }
    Ok(name)
}

/// Largest raster source read.
pub const MAX_RASTER_SOURCE_BYTES: u64 = 256 * 1024 * 1024;

/// The size and SHA-256 of a raster source named `path`; refused above the
/// source bound.
pub fn source_fingerprint(path: &str, source: &[u8]) -> (r: Result<(u64, String), AssetError>)
    ensures
        source@.len() > MAX_RASTER_SOURCE_BYTES ==> (r matches Err(AssetError::InvalidRecipe(m)) && m@ == path@
            + " is "@ + decimal_of(source@.len()) + " bytes; maximum is 268435456"@),
        source@.len() <= MAX_RASTER_SOURCE_BYTES ==> (r matches Ok((n, sha256)) && n == source@.len()
            && sha256@ == sha256_hex(source@)),
{
    let n = source.len() as u64;
    if n > MAX_RASTER_SOURCE_BYTES {
        let mut m = String::new();
        push_str(&mut m, path);
        push_str(&mut m, " is ");
        push_str(&mut m, decimal_string(n).as_str());
        push_str(&mut m, " bytes; maximum is 268435456");
        return Err(AssetError::InvalidRecipe(m));
    }
    Ok((n, sha256_bytes(source)))
}

/// Accepts the encoded bytes of a variant: as `accept_encoded`, with the
/// size and SHA-256 measured from `encoded` itself. Returns the
/// content-addressed name and the digest.
pub fn accept_encoded_bytes(
    asset_id: &str,
    source_width: u32,
    total: &mut u64,
    staged: &str,
    width: u32,
    format: RasterFormat,
    dims: Dimensions,
    encoded: &[u8],
) -> (r: Result<(String, String), AssetError>)
    ensures
        match encoded_fault(staged@, source_width, *old(total), width, dims, encoded@.len() as u64) {
            Some(m) => r matches Err(AssetError::Backend(e)) && e@ == m,
            None => r matches Ok((name, sha256)) && sha256@ == sha256_hex(encoded@) && name@ == variant_file_name(
                asset_id@,
                dims.width,
                sha256_hex(encoded@),
                format,
            ) && *final(total) == *old(total) + encoded@.len(),
        },
{
    let sha256 = sha256_bytes(encoded);
    let bytes = encoded.len() as u64;
    match accept_encoded(asset_id, source_width, total, staged, width, format, dims, bytes, sha256.as_str()) {
        Ok(name) => Ok((name, sha256)),
        Err(e) => Err(e),
    }
}

/// The record of a published variant.
pub fn generated_variant(
    asset_id: &str,
    format: RasterFormat,
    file_name: String,
    sha256: String,
    bytes: u64,
    dims: Dimensions,
) -> (r: Result<GeneratedVariant, AssetError>)
    ensures
        match r {
            Ok(v) => {
                &&& v.id@ == asset_id@ + "-w"@ + decimal_of(dims.width as nat) + "-"@ + raster_extension(format)
                &&& v.path@ == file_name@
                &&& v.media_type@ == match format {
                    RasterFormat::Avif => "image/avif"@,
                    RasterFormat::Webp => "image/webp"@,
                    RasterFormat::Jpeg => "image/jpeg"@,
                }
                &&& v.format == format
                &&& v.sha256@ == sha256@
                &&& v.bytes == bytes
                &&& v.dimensions == dims
                &&& v.estimated_vram_bytes == dims.width * dims.height * 4
            },
            Err(e) => dims.width * dims.height * 4 > u64::MAX && (e matches AssetError::Backend(m) && m@
                == "decoded raster dimensions overflow u64"@),
        },
{
    let vram = match decoded_rgba_bytes(dims) {
        Ok(n) => n,
        Err(e) => {
            return Err(e);
        },
    };
    let mut id = String::new();
    push_str(&mut id, asset_id);
    push_str(&mut id, "-w");
    push_str(&mut id, decimal_string(dims.width as u64).as_str());
    push_str(&mut id, "-");
    push_str(&mut id, format.extension());
    proof {
        assert(id@ =~= asset_id@ + "-w"@ + decimal_of(dims.width as nat) + "-"@ + raster_extension(format));
    }
    Ok(
        GeneratedVariant {
            id,
            path: file_name,
            media_type: format.media_type().to_owned(),
            format,
            sha256,
            bytes,
            dimensions: dims,
            estimated_vram_bytes: vram,
        },
    )
}

} // verus!
