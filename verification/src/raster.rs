//! Responsive raster recipes: formats, limits and the encoder command line.
use vstd::prelude::*;
use crate::text::{
    chars_of, string_from_chars, push_str, concat2, concat3, utf8_len, utf8_len_of, is_ascii_lower,
    is_ascii_digit, ascii_lower, ascii_digit, contains_chars, contains_seq, is_white_space,
    white_space,
};
use crate::numtext::{decimal_of, decimal_string, trimmed, lowercase_ascii, trim, lower_ascii};

verus! {

broadcast use vstd::string::group_string_axioms;

pub const REPORT_VERSION: &'static str = "1.0.0";
pub const MAX_RASTER_WIDTHS: usize = 32;
pub const MAX_RASTER_VARIANTS: usize = 96;
pub const MAX_RASTER_DIMENSION: u32 = 16384;
pub const MAX_RASTER_PIXELS: u64 = 64 * 1024 * 1024;

/// Errors of raster and adaptive asset processing.
#[derive(Debug)]
pub enum AssetError {
    InvalidRecipe(String),
    Backend(String),
}

impl AssetError {
    /// The human-readable message of the error.
    pub fn message(&self) -> (s: String)
        ensures
            s@ == match self {
                AssetError::InvalidRecipe(m) => m@,
                AssetError::Backend(m) => m@,
            },
    {
        match self {
            AssetError::InvalidRecipe(m) => m.clone(),
            AssetError::Backend(m) => m.clone(),
        }
    }
}

#[derive(Clone, Copy, Debug, Eq, Ord, PartialEq, PartialOrd, Structural)]
pub enum RasterFormat {
    Avif,
    Webp,
    Jpeg,
}

/// Every raster format, in declaration order.
pub fn all_raster_formats() -> (v: Vec<RasterFormat>)
    ensures
        v@ == seq![RasterFormat::Avif, RasterFormat::Webp, RasterFormat::Jpeg],
{
    let mut v = Vec::new();
    v.push(RasterFormat::Avif);
    v.push(RasterFormat::Webp);
    v.push(RasterFormat::Jpeg);
    v
}

/// The format named by a trimmed, ASCII-lowercased value.
pub open spec fn format_named(name: Seq<char>) -> Option<RasterFormat> {
    if name == "avif"@ {
        Some(RasterFormat::Avif)
    } else if name == "webp"@ {
        Some(RasterFormat::Webp)
    } else if name == "jpeg"@ || name == "jpg"@ {
        Some(RasterFormat::Jpeg)
    } else {
        None
    }
}

fn eq_str(a: &[char], b: &str) -> (r: bool)
    ensures
        r == (a@ == b@),
{
    let bc = chars_of(b);
    match crate::text::compare_chars(a, bc.as_slice()) {
        crate::text::TextOrder::Equal => true,
        _ => false,
    }
}

impl RasterFormat {
    pub fn extension(self) -> (s: &'static str)
        ensures
            s@ == match self {
                RasterFormat::Avif => "avif"@,
                RasterFormat::Webp => "webp"@,
                RasterFormat::Jpeg => "jpg"@,
            },
    {
        match self {
            RasterFormat::Avif => "avif",
            RasterFormat::Webp => "webp",
            RasterFormat::Jpeg => "jpg",
        }
    }

    pub fn media_type(self) -> (s: &'static str)
        ensures
            s@ == match self {
                RasterFormat::Avif => "image/avif"@,
                RasterFormat::Webp => "image/webp"@,
                RasterFormat::Jpeg => "image/jpeg"@,
            },
    {
        match self {
            RasterFormat::Avif => "image/avif",
            RasterFormat::Webp => "image/webp",
            RasterFormat::Jpeg => "image/jpeg",
        }
    }

    /// Parses a format name, ignoring surrounding white space and ASCII case.
    pub fn parse(value: &str) -> (r: Result<RasterFormat, AssetError>)
        ensures
            r matches Ok(f) ==> format_named(lower_ascii(trim(value@))) == Some(f),
            r is Err ==> format_named(lower_ascii(trim(value@))) is None,
            r matches Err(e) ==> e matches AssetError::InvalidRecipe(m) && m@
                == "unsupported raster format "@ + lower_ascii(trim(value@))
                + "; expected avif, webp, or jpeg"@,
    {
        let raw = chars_of(value);
        let t = trimmed(raw.as_slice());
        let name = lowercase_ascii(t.as_slice());
        if eq_str(name.as_slice(), "avif") {
            Ok(RasterFormat::Avif)
        } else if eq_str(name.as_slice(), "webp") {
            Ok(RasterFormat::Webp)
        } else if eq_str(name.as_slice(), "jpeg") || eq_str(name.as_slice(), "jpg") {
            Ok(RasterFormat::Jpeg)
        } else {
            let other = string_from_chars(name.as_slice());
            Err(AssetError::InvalidRecipe(concat3(
                "unsupported raster format ",
                other.as_str(),
                "; expected avif, webp, or jpeg",
            )))
        }
    }
}

/// Width and height of an image in pixels.
#[derive(Clone, Copy, Debug, Eq, PartialEq, Structural)]
pub struct Dimensions {
    pub width: u32,
    pub height: u32,
}

/// Name and version of the encoding backend.
#[derive(Clone, Debug)]
pub struct BackendDescriptor {
    pub name: String,
    pub version: String,
}

#[derive(Clone, Debug)]
pub struct SourceDescriptor {
    pub file_name: String,
    pub sha256: String,
    pub bytes: u64,
    pub dimensions: Dimensions,
}

#[derive(Clone, Debug)]
pub struct RecipeDescriptor {
    pub asset_id: String,
    pub widths: Vec<u32>,
    pub formats: Vec<RasterFormat>,
    pub quality: u8,
}

#[derive(Clone, Debug)]
pub struct GeneratedVariant {
    pub id: String,
    pub path: String,
    pub media_type: String,
    pub format: RasterFormat,
    pub sha256: String,
    pub bytes: u64,
    pub dimensions: Dimensions,
    pub estimated_vram_bytes: u64,
}

#[derive(Clone, Debug)]
pub struct RasterBuildReport {
    pub report_version: &'static str,
    pub backend: BackendDescriptor,
    pub source: SourceDescriptor,
    pub recipe: RecipeDescriptor,
    pub variants: Vec<GeneratedVariant>,
}

/// A raster request: one source, its widths, formats and quality.
#[derive(Clone, Debug)]
pub struct RasterRecipe {
    pub asset_id: String,
    pub input: String,
    pub output_dir: String,
    pub widths: Vec<u32>,
    pub formats: Vec<RasterFormat>,
    pub quality: u8,
}

/// AV1 constant-rate factor for a quality in `1..=100`.
pub fn avif_crf(quality: u8) -> (crf: u8)
    requires
        quality <= 100,
    ensures
        crf == ((100 - quality) * 63 + 50) / 100,
        crf <= 63,
{
    (((100u16 - quality as u16) * 63 + 50) / 100) as u8
}

/// MJPEG quantizer scale for a quality: 31 down to 2.
pub fn jpeg_qscale(quality: u8) -> (q: u8)
    ensures
        ({
            let reduction = (quality * 29 + 50) / 100;
            q == if 31 - reduction >= 2 {
                31 - reduction
            } else {
                2
            }
        }),
        2 <= q <= 31,
{
    let reduction: u16 = (quality as u16 * 29 + 50) / 100;
    let scaled: u16 = 31u16.saturating_sub(reduction);
    let bounded: u16 = if scaled > 2 {
        scaled
    } else {
        2
    };
    bounded as u8
}

/// Lowercase kebab-case ASCII: `[a-z0-9-]`, no leading, trailing or doubled `-`.
pub open spec fn identifier_ok(v: Seq<char>) -> bool {
    &&& v.len() > 0
    &&& utf8_len(v) <= 128
    &&& forall|i: int|
        0 <= i < v.len() ==> is_ascii_lower(#[trigger] v[i]) || is_ascii_digit(v[i]) || (v[i] == '-'
            && 0 < i && i + 1 < v.len())
    &&& !contains_seq(v, "--"@)
}

/// Whether a value is a valid asset identifier.
pub fn valid_identifier(value: &str) -> (b: bool)
    ensures
        b == identifier_ok(value@),
{
    let v = chars_of(value);
    if v.len() == 0 || utf8_len_of(v.as_slice()) > 128 {
        return false;
    }
    let mut i: usize = 0;
    while i < v.len()
        invariant
            i <= v.len(),
            v@ == value@,
            forall|k: int|
                0 <= k < i ==> is_ascii_lower(#[trigger] v@[k]) || is_ascii_digit(v@[k]) || (v@[k]
                    == '-' && 0 < k && k + 1 < v.len()),
        decreases v.len() - i,
    {
        let c = v[i];
        if !(ascii_lower(c) || ascii_digit(c) || (c == '-' && i > 0 && i + 1 < v.len())) {
            return false;
        }
        i = i + 1;
    }
    let dashes = chars_of("--");
    !contains_chars(v.as_slice(), dashes.as_slice())
}

/// Requested widths capped at the source width, without repetition, ascending.
pub open spec fn normalized_widths_ok(requested: Seq<u32>, source_width: u32, out: Seq<u32>) -> bool {
    &&& forall|i: int, j: int| 0 <= i < j < out.len() ==> out[i] < out[j]
    &&& forall|w: u32|
        out.contains(w) <==> exists|i: int|
            0 <= i < requested.len() && #[trigger] requested[i] == requested[i] && w == (if requested[i]
                < source_width {
                requested[i]
            } else {
                source_width
            })
}

/// Caps each width at the source width, then sorts and removes repetition.
pub fn normalized_widths(requested: &[u32], source_width: u32) -> (out: Vec<u32>)
    ensures
        normalized_widths_ok(requested@, source_width, out@),
{
    let mut out: Vec<u32> = Vec::new();
    let mut i: usize = 0;
    while i < requested.len()
        invariant
            i <= requested.len(),
            forall|a: int, b: int| 0 <= a < b < out.len() ==> out@[a] < out@[b],
            forall|w: u32|
                out@.contains(w) <==> exists|k: int|
                    0 <= k < i && #[trigger] requested@[k] == requested@[k] && w == (if requested@[k]
                        < source_width {
                        requested@[k]
                    } else {
                        source_width
                    }),
        decreases requested.len() - i,
    {
        let w = if requested[i] < source_width {
            requested[i]
        } else {
            source_width
        };
        let ghost before = out@;
        let mut p: usize = 0;
        while p < out.len() && out[p] < w
            invariant
                p <= out.len(),
                out@ == before,
                forall|k: int| 0 <= k < p ==> out@[k] < w,
            decreases out.len() - p,
        {
            p = p + 1;
        }
        if p < out.len() && out[p] == w {
            proof {
                assert forall|x: u32| out@.contains(x) <==> exists|k: int|
                    0 <= k < i + 1 && #[trigger] requested@[k] == requested@[k] && x == (if requested@[k]
                        < source_width {
                        requested@[k]
                    } else {
                        source_width
                    }) by {
                    if x == w {
                        assert(out@[p as int] == w);
                        assert(requested@[i as int] == requested@[i as int]);
                    }
                }
            }
        } else {
            out.insert(p, w);
            proof {
                assert forall|a: int, b: int| 0 <= a < b < out.len() implies out@[a] < out@[b] by {
                    if b < p {
                    } else if b == p {
                    } else if a < p {
                        assert(out@[b] == before[b - 1]);
                        assert(before[b - 1] > w) by {
                            if before[b - 1] <= w {
                                assert(p < before.len());
                                assert(before[p as int] >= w);
                                if b - 1 > p {
                                    assert(before[p as int] < before[b - 1]);
                                }
                            }
                        }
                    } else if a == p {
                        assert(out@[b] == before[b - 1]);
                        assert(before[b - 1] > w) by {
                            assert(before[p as int] >= w);
                            assert(before[p as int] != w);
                            if b - 1 > p {
                                assert(before[p as int] < before[b - 1]);
                            }
                        }
                    } else {
                        assert(out@[a] == before[a - 1] && out@[b] == before[b - 1]);
                    }
                }
                assert forall|x: u32| out@.contains(x) <==> exists|k: int|
                    0 <= k < i + 1 && #[trigger] requested@[k] == requested@[k] && x == (if requested@[k]
                        < source_width {
                        requested@[k]
                    } else {
                        source_width
                    }) by {
                    assert(out@[p as int] == w);
                    assert(requested@[i as int] == requested@[i as int]);
                    if before.contains(x) {
                        let k = choose|k: int| 0 <= k < before.len() && before[k] == x;
                        if k < p {
                            assert(out@[k] == x);
                        } else {
                            assert(out@[k + 1] == x);
                        }
                    }
                    if out@.contains(x) && x != w {
                        let k = choose|k: int| 0 <= k < out.len() && out@[k] == x;
                        if k < p {
                            assert(before[k] == x);
                        } else if k > p {
                            assert(before[k - 1] == x);
                        }
                    }
                }
            }
        }
        i = i + 1;
    }
    out
}

/// Dimensions inside the raster limits.
pub open spec fn dimensions_ok(d: Dimensions) -> bool {
    &&& d.width > 0
    &&& d.height > 0
    &&& d.width <= MAX_RASTER_DIMENSION
    &&& d.height <= MAX_RASTER_DIMENSION
    &&& d.width * d.height <= MAX_RASTER_PIXELS
}

proof fn lemma_pixels_fit(w: u32, h: u32)
    ensures
        w * h <= 0xFFFF_FFFE_0000_0001,
{
    assert(w * h <= 0xFFFF_FFFFu64 * 0xFFFF_FFFFu64) by (nonlinear_arith)
        requires
            w <= 0xFFFF_FFFFu64,
            h <= 0xFFFF_FFFFu64,
    ;
}

/// Checks decoded dimensions; `label` names the image in the error.
pub fn validate_raster_dimensions(dimensions: Dimensions, label: &str) -> (r: Result<(), AssetError>)
    ensures
        r is Ok <==> dimensions_ok(dimensions),
        r matches Err(e) ==> e matches AssetError::Backend(m) && m@ == label@ + " dimensions "@
            + decimal_of(dimensions.width as nat) + "x"@ + decimal_of(dimensions.height as nat)
            + " exceed the raster limits"@,
{
    proof {
        lemma_pixels_fit(dimensions.width, dimensions.height);
    }
    let pixels: u64 = dimensions.width as u64 * dimensions.height as u64;
    if dimensions.width == 0 || dimensions.height == 0 || dimensions.width > MAX_RASTER_DIMENSION
        || dimensions.height > MAX_RASTER_DIMENSION || pixels > MAX_RASTER_PIXELS {
        let mut m = concat2(label, " dimensions ");
        push_str(&mut m, decimal_string(dimensions.width as u64).as_str());
        push_str(&mut m, "x");
        push_str(&mut m, decimal_string(dimensions.height as u64).as_str());
        push_str(&mut m, " exceed the raster limits");
        proof {
            reveal_strlit("");
        }
        return Err(AssetError::Backend(m));
    }
    Ok(())
}

/// Bytes of the decoded RGBA image: four per pixel.
pub fn decoded_rgba_bytes(dimensions: Dimensions) -> (r: Result<u64, AssetError>)
    ensures
        r is Ok <==> dimensions.width * dimensions.height * 4 <= u64::MAX,
        r matches Ok(n) ==> n == dimensions.width * dimensions.height * 4,
        r matches Err(e) ==> e matches AssetError::Backend(m) && m@
            == "decoded raster dimensions overflow u64"@,
{
    proof {
        lemma_pixels_fit(dimensions.width, dimensions.height);
    }
    let pixels: u64 = dimensions.width as u64 * dimensions.height as u64;
    match pixels.checked_mul(4) {
        Some(n) => Ok(n),
        None => Err(AssetError::Backend("decoded raster dimensions overflow u64".to_owned())),
    }
}

/// Recipe fields inside the limits, given whether the input is a regular file.
pub open spec fn recipe_ok(r: RasterRecipe, input_is_file: bool) -> bool {
    &&& identifier_ok(r.asset_id@)
    &&& input_is_file
    &&& 1 <= r.widths.len() <= MAX_RASTER_WIDTHS
    &&& forall|i: int| 0 <= i < r.widths.len() ==> 0 < #[trigger] r.widths@[i] <= MAX_RASTER_DIMENSION
    &&& 1 <= r.formats.len() <= 3
    &&& 1 <= r.quality <= 100
}

/// Checks a raster recipe; `input_is_file` is what the file system says of its input.
pub fn validate_recipe(recipe: &RasterRecipe, input_is_file: bool) -> (r: Result<(), AssetError>)
    ensures
        r is Ok <==> recipe_ok(*recipe, input_is_file),
        r is Err ==> r matches Err(AssetError::InvalidRecipe(_)),
        !identifier_ok(recipe.asset_id@) ==> (r matches Err(AssetError::InvalidRecipe(m)) && m@
            == "asset id must be lowercase kebab-case ASCII"@),
{
    if !valid_identifier(recipe.asset_id.as_str()) {
        return Err(AssetError::InvalidRecipe("asset id must be lowercase kebab-case ASCII".to_owned()));
    }
    if !input_is_file {
        return Err(AssetError::InvalidRecipe(concat3("input is not a file: ", recipe.input.as_str(), "")));
    }
    let mut widths_ok = recipe.widths.len() >= 1 && recipe.widths.len() <= MAX_RASTER_WIDTHS;
    let mut i: usize = 0;
    while widths_ok && i < recipe.widths.len()
        invariant
            widths_ok ==> i <= recipe.widths.len(),
            widths_ok ==> 1 <= recipe.widths.len() <= MAX_RASTER_WIDTHS,
            widths_ok ==> forall|k: int| 0 <= k < i ==> 0 < #[trigger] recipe.widths@[k] <= MAX_RASTER_DIMENSION,
            !widths_ok ==> !recipe_ok(*recipe, input_is_file),
        decreases recipe.widths.len() - i, (if widths_ok { 1int } else { 0int }),
    {
        let w = recipe.widths[i];
        if w == 0 || w > MAX_RASTER_DIMENSION {
            widths_ok = false;
        } else {
            i = i + 1;
        }
    }
    if !widths_ok {
        return Err(AssetError::InvalidRecipe(
            "raster widths must contain 1..=32 values in 1..=16384".to_owned(),
        ));
    }
    if recipe.formats.len() == 0 || recipe.formats.len() > 3 {
        return Err(AssetError::InvalidRecipe(
            "raster formats must contain between one and three entries".to_owned(),
        ));
    }
    if recipe.quality < 1 || recipe.quality > 100 {
        return Err(AssetError::InvalidRecipe("quality must be between 1 and 100".to_owned()));
    }
    Ok(())
}

} // verus!

verus! {

pub open spec fn string_views(v: Seq<String>) -> Seq<Seq<char>> {
    v.map_values(|s: String| s@)
}

/// The ffmpeg arguments that encode one still variant.
pub open spec fn encode_argument_list(
    input: Seq<char>,
    output: Seq<char>,
    width: u32,
    format: RasterFormat,
    quality: u8,
) -> Seq<Seq<char>> {
    let common = seq![
        "-hide_banner"@,
        "-loglevel"@,
        "error"@,
        "-nostdin"@,
        "-y"@,
        "-fflags"@,
        "+bitexact"@,
        "-i"@,
        input,
        "-map_metadata"@,
        "-1"@,
        "-frames:v"@,
        "1"@,
        "-an"@,
        "-threads"@,
        "1"@,
        "-vf"@,
        "scale="@ + decimal_of(width as nat) + ":-2:flags=lanczos"@,
        "-flags:v"@,
        "+bitexact"@,
    ];
    let codec = match format {
        RasterFormat::Avif => seq![
            "-c:v"@,
            "libaom-av1"@,
            "-still-picture"@,
            "1"@,
            "-cpu-used"@,
            "4"@,
            "-crf"@,
            decimal_of((((100 - quality) * 63 + 50) / 100) as nat),
            "-pix_fmt"@,
            "yuv420p"@,
        ],
        RasterFormat::Webp => seq![
            "-c:v"@,
            "libwebp"@,
            "-quality"@,
            decimal_of(quality as nat),
            "-compression_level"@,
            "6"@,
            "-preset"@,
            "picture"@,
            "-pix_fmt"@,
            "yuv420p"@,
        ],
        RasterFormat::Jpeg => seq![
            "-c:v"@,
            "mjpeg"@,
            "-q:v"@,
            decimal_of(
                (if 31 - (quality * 29 + 50) / 100 >= 2 {
                    31 - (quality * 29 + 50) / 100
                } else {
                    2
                }) as nat,
            ),
            "-pix_fmt"@,
            "yuvj420p"@,
        ],
    };
    common + codec + seq![output]
}

fn push_text(args: &mut Vec<String>, s: &str)
    ensures
        final(args)@ == old(args)@.push(final(args)@.last()),
        final(args)@.last()@ == s@,
{
    args.push(s.to_owned());
}

/// The ffmpeg invocation backend: program paths and the reported version.
#[derive(Clone, Debug)]
pub struct FfmpegBackend {
    pub ffmpeg: String,
    pub ffprobe: String,
    pub descriptor: BackendDescriptor,
}

impl FfmpegBackend {
    /// The arguments that encode `input` at `width` into `output`.
    pub fn encode_arguments(
        input: &str,
        output: &str,
        width: u32,
        format: RasterFormat,
        quality: u8,
    ) -> (args: Vec<String>)
        requires
            quality <= 100,
        ensures
            string_views(args@) == encode_argument_list(input@, output@, width, format, quality),
    {
        let mut args: Vec<String> = Vec::new();
        push_text(&mut args, "-hide_banner");
        push_text(&mut args, "-loglevel");
        push_text(&mut args, "error");
        push_text(&mut args, "-nostdin");
        push_text(&mut args, "-y");
        push_text(&mut args, "-fflags");
        push_text(&mut args, "+bitexact");
        push_text(&mut args, "-i");
        push_text(&mut args, input);
        push_text(&mut args, "-map_metadata");
        push_text(&mut args, "-1");
        push_text(&mut args, "-frames:v");
        push_text(&mut args, "1");
        push_text(&mut args, "-an");
        push_text(&mut args, "-threads");
        push_text(&mut args, "1");
        push_text(&mut args, "-vf");
        let mut scale = concat3("scale=", decimal_string(width as u64).as_str(), ":-2:flags=lanczos");
        args.push(scale);
        push_text(&mut args, "-flags:v");
        push_text(&mut args, "+bitexact");
        match format {
            RasterFormat::Avif => {
                push_text(&mut args, "-c:v");
                push_text(&mut args, "libaom-av1");
                push_text(&mut args, "-still-picture");
                push_text(&mut args, "1");
                push_text(&mut args, "-cpu-used");
                push_text(&mut args, "4");
                push_text(&mut args, "-crf");
                args.push(decimal_string(avif_crf(quality) as u64));
                push_text(&mut args, "-pix_fmt");
                push_text(&mut args, "yuv420p");
            },
            RasterFormat::Webp => {
                push_text(&mut args, "-c:v");
                push_text(&mut args, "libwebp");
                push_text(&mut args, "-quality");
                args.push(decimal_string(quality as u64));
                push_text(&mut args, "-compression_level");
                push_text(&mut args, "6");
                push_text(&mut args, "-preset");
                push_text(&mut args, "picture");
                push_text(&mut args, "-pix_fmt");
                push_text(&mut args, "yuv420p");
            },
            RasterFormat::Jpeg => {
                push_text(&mut args, "-c:v");
                push_text(&mut args, "mjpeg");
                push_text(&mut args, "-q:v");
                args.push(decimal_string(jpeg_qscale(quality) as u64));
                push_text(&mut args, "-pix_fmt");
                push_text(&mut args, "yuvj420p");
            },
        }
        push_text(&mut args, output);
        proof {
            assert(string_views(args@) =~= encode_argument_list(input@, output@, width, format, quality));
        }
        args
    }
}

} // verus!

verus! {

/// The index of the first line feed of `s` at or after `i`, or its length.
pub open spec fn first_newline(s: Seq<char>, i: int) -> int
    decreases s.len() - i,
{
    if i >= s.len() || i < 0 {
        s.len() as int
    } else if s[i] == '\n' {
        i
    } else {
        first_newline(s, i + 1)
    }
}

/// The index of the first character of `s` at or after `i` that is
/// whitespace (`white == true`) or not whitespace (`white == false`), or
/// its length.
pub open spec fn first_where_white(s: Seq<char>, i: int, white: bool) -> int
    decreases s.len() - i,
{
    if i >= s.len() || i < 0 {
        s.len() as int
    } else if is_white_space(s[i]) == white {
        i
    } else {
        first_where_white(s, i + 1, white)
    }
}

/// The first line of `out`, without its line ending (a line feed, or a
/// carriage return and a line feed).
pub open spec fn first_line(out: Seq<char>) -> Seq<char> {
    let n = first_newline(out, 0);
    if n < out.len() && n > 0 && out[n - 1] == '\r' {
        out.take(n - 1)
    } else {
        out.take(n)
    }
}

/// The version an `ffmpeg -version` report names: the first
/// whitespace-separated word after `ffmpeg version ` at the start of its
/// first line.
pub open spec fn ffmpeg_version_of(out: Seq<char>) -> Option<Seq<char>> {
    let line = first_line(out);
    let p = "ffmpeg version "@;
    if crate::text::starts_with(line, p) {
        let rest = line.skip(p.len() as int);
        let j = first_where_white(rest, 0, false);
        let k = first_where_white(rest, j, true);
        if j < k {
            Some(rest.subrange(j, k))
        } else {
            None
        }
    } else {
        None
    }
}

proof fn lemma_first_newline_bounds(s: Seq<char>, i: int)
    requires
        0 <= i <= s.len(),
    ensures
        i <= first_newline(s, i) <= s.len(),
    decreases s.len() - i,
{
    if i < s.len() && s[i] != '\n' {
        lemma_first_newline_bounds(s, i + 1);
    }
}

proof fn lemma_first_where_white_bounds(s: Seq<char>, i: int, white: bool)
    requires
        0 <= i <= s.len(),
    ensures
        i <= first_where_white(s, i, white) <= s.len(),
    decreases s.len() - i,
{
    if i < s.len() && is_white_space(s[i]) != white {
        lemma_first_where_white_bounds(s, i + 1, white);
    }
}

fn find_white(s: &Vec<char>, start: usize, white: bool) -> (k: usize)
    requires
        start <= s.len(),
    ensures
        k as int == first_where_white(s@, start as int, white),
{
    let mut k = start;
    while k < s.len() && white_space(s[k]) != white
        invariant
            start <= k <= s.len(),
            first_where_white(s@, k as int, white) == first_where_white(s@, start as int, white),
        decreases s.len() - k,
    {
        k = k + 1;
    }
    k
}

/// The backend version from what `ffmpeg -version` printed; refused when its
/// first line does not name one.
pub fn ffmpeg_version(out: &str) -> (r: Result<String, AssetError>)
    ensures
        match ffmpeg_version_of(out@) {
            Some(v) => r matches Ok(s) && s@ == v,
            None => r matches Err(AssetError::Backend(m)) && m@ == "cannot parse ffmpeg version"@,
        },
{
    let chars = chars_of(out);
    let mut n: usize = 0;
    while n < chars.len() && chars[n] != '\n'
        invariant
            n <= chars.len(),
            first_newline(chars@, n as int) == first_newline(chars@, 0),
        decreases chars.len() - n,
    {
        n = n + 1;
    }
    let end = if n < chars.len() && n > 0 && chars[n - 1] == '\r' {
        n - 1
    } else {
        n
    };
    let mut line: Vec<char> = Vec::new();
    let mut c: usize = 0;
    while c < end
        invariant
            end <= chars.len(),
            c <= end,
            line@ == chars@.take(c as int),
        decreases end - c,
    {
        line.push(chars[c]);
        c = c + 1;
    }
    proof {
        lemma_first_newline_bounds(chars@, 0);
    }
    let prefix = chars_of("ffmpeg version ");
    proof {
        reveal_strlit("ffmpeg version ");
        assert(line@ == first_line(out@));
    }
    if !crate::text::starts_with_chars(line.as_slice(), prefix.as_slice()) {
        return Err(AssetError::Backend("cannot parse ffmpeg version".to_owned()));
    }
    let mut rest: Vec<char> = Vec::new();
    let mut i = prefix.len();
    while i < line.len()
        invariant
            prefix.len() <= i <= line.len(),
            rest@ == line@.subrange(prefix.len() as int, i as int),
        decreases line.len() - i,
    {
        rest.push(line[i]);
        i = i + 1;
    }
    proof {
        assert(rest@ == line@.skip(prefix.len() as int));
        lemma_first_where_white_bounds(rest@, 0, false);
    }
    let j = find_white(&rest, 0, false);
    proof {
        lemma_first_where_white_bounds(rest@, j as int, true);
    }
    let k = find_white(&rest, j, true);
    if j < k {
        let mut word: Vec<char> = Vec::new();
        let mut t = j;
        while t < k
            invariant
                j <= t <= k <= rest.len(),
                word@ == rest@.subrange(j as int, t as int),
            decreases k - t,
        {
            word.push(rest[t]);
            t = t + 1;
        }
        Ok(string_from_chars(word.as_slice()))
    } else {
        Err(AssetError::Backend("cannot parse ffmpeg version".to_owned()))
    }
}

} // verus!
