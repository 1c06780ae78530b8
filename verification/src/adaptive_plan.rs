//! Recipe, transform and plan checks for adaptive assets, and the expansion
//! of each recipe output into a typed external job.
use vstd::prelude::*;
use crate::text::{
    chars_of, compare_chars, concat3, first_some, lemma_first_some_at, lemma_first_some_none, lemma_split_on_nonempty,
    ascii_hexdigit, is_ascii_hexdigit, lemma_seq_lt_transitive, push_str, seq_lt, str_lt, split_chars, starts_with, starts_with_chars, str_eq, split_on, string_from_chars, utf8_len, utf8_len_of, TextOrder, char_views,
};
use crate::numtext::{upper_ascii, uppercase_ascii};
use crate::portable::{contains_char, join_chars, join_slash, prefix_chars};
use crate::textmap::TextMap;
use crate::raster::{AssetError, identifier_ok, string_views, valid_identifier};
use crate::adaptive::{TierBudget, 
    format_extension, image_artifact, image_artifact_spec, option_text, rgba_bytes, validate_policy,
    video_artifact, video_artifact_spec, policy_problem, AdaptiveRecipe, ArtifactFormat, AssetJob, AssetRecipe,
    Delivery, DeviceBudgetProfile, FetchPriority, JobOperation, LoadPolicy, MotionPolicy, AdaptivePlan,
    PlanSource, family_of, job_problem, operation_family, validate_job_contract, ADAPTIVE_PLAN_VERSION, MAX_JOBS,
    MAX_SOURCE_BYTES,
    ADAPTIVE_RECIPE_VERSION, MAX_ASSETS, Family, FontOutput, ImageOutput, SceneOutput, Tier,
    Toolchain, ToolchainPin, TransformRecipe, VideoOutput,
};
use crate::build_graph::sha_ok;
use crate::digest::{is_lower_hex, sha256_bytes, sha256_hex};

verus! {

broadcast use vstd::string::group_string_axioms;

pub const ADAPTIVE_RECIPE_SCHEMA: &'static str =
    "https://pliegors.dev/schemas/pliego.adaptive-asset-recipe.schema.json";

pub const ADAPTIVE_PLAN_SCHEMA: &'static str =
    "https://pliegors.dev/schemas/pliego.adaptive-asset-plan.schema.json";

/// A result that is `Ok` when no message is due and otherwise the
/// `InvalidRecipe` error carrying the message.
pub open spec fn recipe_outcome<T>(r: Result<T, AssetError>, m: Option<Seq<char>>) -> bool {
    match m {
        None => r is Ok,
        Some(x) => r matches Err(AssetError::InvalidRecipe(e)) && e@ == x,
    }
}

fn chars_are(a: &[char], b: &str) -> (r: bool)
    ensures
        r == (a@ == b@),
{
    let x = chars_of(b);
    match compare_chars(a, x.as_slice()) {
        TextOrder::Equal => true,
        _ => false,
    }
}

/// A path segment that Windows reserves: a device stem (`CON`, `COM1`, ...,
/// case-insensitively, before the first dot), a trailing dot or space, or a
/// colon.
pub open spec fn windows_reserved_spec(seg: Seq<char>) -> bool {
    let stem = upper_ascii(split_on(seg, '.')[0]);
    ||| stem == "CON"@
    ||| stem == "PRN"@
    ||| stem == "AUX"@
    ||| stem == "NUL"@
    ||| stem == "CLOCK$"@
    ||| (stem.len() == 4 && (stem.take(3) == "COM"@ || stem.take(3) == "LPT"@) && 0x31 <= (stem[3] as u32)
        <= 0x39)
    ||| (seg.len() > 0 && (seg.last() == '.' || seg.last() == ' '))
    ||| seg.contains(':')
}

/// Whether a path segment is reserved on Windows.
pub fn windows_reserved(segment: &str) -> (b: bool)
    ensures
        b == windows_reserved_spec(segment@),
{
    let seg = chars_of(segment);
    let parts = split_chars(seg.as_slice(), '.');
    proof {
        lemma_split_on_nonempty(seg@, '.');
        assert(parts@[0]@ == split_on(seg@, '.')[0]);
    }
    let stem = uppercase_ascii(parts[0].as_slice());
    let named = chars_are(stem.as_slice(), "CON") || chars_are(stem.as_slice(), "PRN") || chars_are(
        stem.as_slice(),
        "AUX",
    ) || chars_are(stem.as_slice(), "NUL") || chars_are(stem.as_slice(), "CLOCK$");
    let mut numbered = false;
    if stem.len() == 4 {
        let head = prefix_chars(stem.as_slice(), 3);
        let v = stem[3] as u32;
        numbered = (chars_are(head.as_slice(), "COM") || chars_are(head.as_slice(), "LPT")) && 0x31 <= v && v
            <= 0x39;
    }
    let n = seg.len();
    let trailing = n > 0 && (seg[n - 1] == '.' || seg[n - 1] == ' ');
    named || numbered || trailing || contains_char(seg.as_slice(), ':')
}

pub open spec fn dot_segment_message() -> Seq<char> {
    "asset paths cannot contain roots, prefixes, or dot segments"@
}

/// The check of the `k`-th slash-separated piece, read as path components
/// are on Unix: empty pieces and inner `.` pieces vanish, a leading `.` or
/// any `..` is refused, and a normal segment must not be reserved.
pub open spec fn piece_fault(pieces: Seq<Seq<char>>, k: int) -> Option<Seq<char>> {
    let p = pieces[k];
    if p.len() == 0 {
        None
    } else if p == "."@ {
        if k == 0 {
            Some(dot_segment_message())
        } else {
            None
        }
    } else if p == ".."@ {
        Some(dot_segment_message())
    } else if windows_reserved_spec(p) {
        Some("unsafe asset path segment "@ + p)
    } else {
        None
    }
}

/// A piece that stays a component of the normalized path.
pub open spec fn kept_piece(p: Seq<char>) -> bool {
    p.len() > 0 && p != "."@
}

/// The pieces that stay components, in order.
pub open spec fn kept_pieces(pieces: Seq<Seq<char>>) -> Seq<Seq<char>> {
    pieces.filter(|p: Seq<char>| kept_piece(p))
}

/// The normalized relative path, or the message that refuses it.
pub open spec fn relative_path_result(v: Seq<char>) -> Result<Seq<char>, Seq<char>> {
    if v.len() == 0 || utf8_len(v) > 500 || v.contains('\\') || v.contains('\0') {
        Err("asset paths must be bounded, slash-separated relative paths"@)
    } else if v[0] == '/' {
        Err("absolute asset paths are forbidden"@)
    } else {
        let pieces = split_on(v, '/');
        match first_some(Seq::new(pieces.len(), |k: int| piece_fault(pieces, k))) {
            Some(m) => Err(m),
            None => {
                let kept = kept_pieces(pieces);
                if kept.len() == 0 {
                    Err("asset path cannot be empty"@)
                } else {
                    Ok(join_slash(kept))
                }
            },
        }
    }
}

/// Checks a recipe or plan path and returns it normalized, its components
/// joined by single slashes.
pub fn validate_relative_path(value: &str) -> (r: Result<String, AssetError>)
    ensures
        match relative_path_result(value@) {
            Ok(p) => r matches Ok(s) && s@ == p,
            Err(m) => r matches Err(AssetError::InvalidRecipe(e)) && e@ == m,
        },
{
    let v = chars_of(value);
    if v.len() == 0 || utf8_len_of(v.as_slice()) > 500 || contains_char(v.as_slice(), '\\') || contains_char(
        v.as_slice(),
        '\0',
    ) {
        return Err(
            AssetError::InvalidRecipe("asset paths must be bounded, slash-separated relative paths".to_owned()),
        );
    }
    if v[0] == '/' {
        return Err(AssetError::InvalidRecipe("absolute asset paths are forbidden".to_owned()));
    }
    let pieces = split_chars(v.as_slice(), '/');
    let ghost views = split_on(v@, '/');
    let ghost checks = Seq::new(views.len(), |k: int| piece_fault(views, k));
    let mut kept: Vec<Vec<char>> = Vec::new();
    let mut i: usize = 0;
    while i < pieces.len()
        invariant
            char_views(pieces@) == views,
            views == split_on(value@, '/'),
            !(value@.len() == 0 || utf8_len(value@) > 500 || value@.contains('\\') || value@.contains('\0')),
            value@[0] != '/',
            checks == Seq::new(views.len(), |k: int| piece_fault(views, k)),
            i <= pieces.len(),
            forall|k: int| 0 <= k < i ==> (#[trigger] checks[k]) is None,
            char_views(kept@) == kept_pieces(views.take(i as int)),
        decreases pieces.len() - i,
    {
        let piece = &pieces[i];
        let ghost p = views[i as int];
        assert(piece@ == p);
        proof {
            assert(views.take(i + 1).drop_last() =~= views.take(i as int));
            assert(views.take(i + 1).last() == p);
            let f = |q: Seq<char>| kept_piece(q);
            assert(views.take(i + 1) =~= views.take(i as int).push(p));
            views.take(i as int).lemma_filter_push(p, f);
            assert(kept_pieces(views.take(i + 1)) == views.take(i + 1).filter(f));
            assert(kept_pieces(views.take(i as int)) == views.take(i as int).filter(f));
            assert(kept_pieces(views.take(i + 1)) == if kept_piece(p) {
                kept_pieces(views.take(i as int)).push(p)
            } else {
                kept_pieces(views.take(i as int))
            });
        }
        if piece.len() == 0 {
            assert(checks[i as int] is None);
        } else if chars_are(piece.as_slice(), ".") {
            if i == 0 {
                proof {
                    lemma_first_some_at(checks, 0);
                }
                return Err(AssetError::InvalidRecipe(
                    "asset paths cannot contain roots, prefixes, or dot segments".to_owned(),
                ));
            }
            assert(checks[i as int] is None);
        } else if chars_are(piece.as_slice(), "..") {
            proof {
                lemma_first_some_at(checks, i as int);
            }
            return Err(AssetError::InvalidRecipe(
                "asset paths cannot contain roots, prefixes, or dot segments".to_owned(),
            ));
        } else {
            let text = string_from_chars(piece.as_slice());
            if windows_reserved(text.as_str()) {
                let mut m = String::new();
                push_str(&mut m, "unsafe asset path segment ");
                push_str(&mut m, text.as_str());
                proof {
                    assert(m@ =~= "unsafe asset path segment "@ + p);
                    lemma_first_some_at(checks, i as int);
                }
                return Err(AssetError::InvalidRecipe(m));
            }
            assert(checks[i as int] is None);
            let ghost before = kept@;
            kept.push(pieces[i].clone());
            proof {
                assert(char_views(kept@) =~= char_views(before).push(p));
            }
        }
        i = i + 1;
    }
    proof {
        lemma_first_some_none(checks);
        assert(views.take(views.len() as int) =~= views);
    }
    if kept.len() == 0 {
        return Err(AssetError::InvalidRecipe("asset path cannot be empty".to_owned()));
    }
    let joined = join_chars(&kept);
    Ok(string_from_chars(joined.as_slice()))
}

/// 64 lowercase hexadecimal digits.
pub fn valid_sha256(value: &str) -> (b: bool)
    ensures
        b == sha_ok(value@),
{
    let chars = chars_of(value);
    if chars.len() != 64 {
        return false;
    }
    let mut i: usize = 0;
    while i < chars.len()
        invariant
            chars@ == value@,
            chars.len() == 64,
            i <= chars.len(),
            forall|k: int| 0 <= k < i ==> is_lower_hex(#[trigger] chars@[k]),
        decreases chars.len() - i,
    {
        let v = chars[i] as u32;
        if !((0x30 <= v && v <= 0x39) || (0x61 <= v && v <= 0x66)) {
            proof {
                assert(!is_lower_hex(value@[i as int]));
            }
            return false;
        }
        i = i + 1;
    }
    true
}

/// Two identifiers joined by one dot: `source.variant`.
pub open spec fn dotted_identifier_ok(v: Seq<char>) -> bool {
    let parts = split_on(v, '.');
    parts.len() == 2 && identifier_ok(parts[0]) && identifier_ok(parts[1])
}

pub fn valid_dotted_identifier(value: &str) -> (b: bool)
    ensures
        b == dotted_identifier_ok(value@),
{
    let v = chars_of(value);
    let parts = split_chars(v.as_slice(), '.');
    if parts.len() != 2 {
        return false;
    }
    let left = string_from_chars(parts[0].as_slice());
    let right = string_from_chars(parts[1].as_slice());
    valid_identifier(left.as_str()) && valid_identifier(right.as_str())
}

pub open spec fn outputs_count_message(count: int) -> Option<Seq<char>> {
    if count == 0 || count > 128 {
        Some("each asset must define 1..=128 outputs"@)
    } else {
        None
    }
}

/// Each asset defines between 1 and 128 outputs.
pub fn require_outputs(count: usize) -> (r: Result<(), AssetError>)
    ensures
        recipe_outcome(r, outputs_count_message(count as int)),
{
    if count == 0 || count > 128 {
        Err(AssetError::InvalidRecipe("each asset must define 1..=128 outputs".to_owned()))
    } else {
        Ok(())
    }
}

/// The name `Debug` prints for a toolchain.
pub open spec fn toolchain_name(t: Toolchain) -> Seq<char> {
    match t {
        Toolchain::Ffmpeg => "Ffmpeg"@,
        Toolchain::Fonttools => "Fonttools"@,
        Toolchain::Blender => "Blender"@,
        Toolchain::GltfTransform => "GltfTransform"@,
        Toolchain::Ktx2Encoder => "Ktx2Encoder"@,
    }
}

fn toolchain_label(t: Toolchain) -> (s: &'static str)
    ensures
        s@ == toolchain_name(t),
{
    match t {
        Toolchain::Ffmpeg => "Ffmpeg",
        Toolchain::Fonttools => "Fonttools",
        Toolchain::Blender => "Blender",
        Toolchain::GltfTransform => "GltfTransform",
        Toolchain::Ktx2Encoder => "Ktx2Encoder",
    }
}

/// The toolchains a recipe or plan pins.
pub open spec fn pin_names(pins: Seq<ToolchainPin>) -> Seq<Toolchain> {
    pins.map_values(|p: ToolchainPin| p.name)
}

/// Whether `t` is pinned.
pub fn pinned(pins: &Vec<ToolchainPin>, t: Toolchain) -> (b: bool)
    ensures
        b == pin_names(pins@).contains(t),
{
    let mut i: usize = 0;
    while i < pins.len()
        invariant
            i <= pins.len(),
            forall|k: int| 0 <= k < i ==> pins@[k].name != t,
        decreases pins.len() - i,
    {
        if pins[i].name == t {
            proof {
                assert(pin_names(pins@)[i as int] == t);
            }
            return true;
        }
        i = i + 1;
    }
    proof {
        if pin_names(pins@).contains(t) {
            let k = choose|k: int| 0 <= k < pin_names(pins@).len() && pin_names(pins@)[k] == t;
            assert(pins@[k].name == t);
        }
    }
    false
}

pub open spec fn pin_message(pins: Seq<ToolchainPin>, t: Toolchain, family: Seq<char>) -> Option<Seq<char>> {
    if pin_names(pins).contains(t) {
        None
    } else {
        Some(family + " outputs require a pinned "@ + toolchain_name(t) + " toolchain"@)
    }
}

/// An output family needs its toolchain pinned.
pub fn require_pin(pins: &Vec<ToolchainPin>, pin: Toolchain, family: &str) -> (r: Result<(), AssetError>)
    ensures
        recipe_outcome(r, pin_message(pins@, pin, family@)),
{
    if pinned(pins, pin) {
        Ok(())
    } else {
        let mut m = String::new();
        push_str(&mut m, family);
        push_str(&mut m, " outputs require a pinned ");
        push_str(&mut m, toolchain_label(pin));
        push_str(&mut m, " toolchain");
        proof {
            assert(m@ =~= family@ + " outputs require a pinned "@ + toolchain_name(pin) + " toolchain"@);
        }
        Err(AssetError::InvalidRecipe(m))
    }
}

/// A toolchain version: 1 to 80 visible ASCII characters other than quotes.
pub open spec fn version_ok(v: Seq<char>) -> bool {
    &&& 0 < v.len() <= 80
    &&& forall|k: int|
        0 <= k < v.len() ==> 0x21 <= (#[trigger] v[k] as u32) <= 0x7e && v[k] != '\'' && v[k] != '"' && v[k]
            != '`'
}

/// `sha256-` followed by 64 hexadecimal digits of either case.
pub open spec fn integrity_ok(v: Seq<char>) -> bool {
    &&& v.len() == 71
    &&& v.take(7) == "sha256-"@
    &&& forall|k: int| 7 <= k < 71 ==> is_ascii_hexdigit(#[trigger] v[k])
}

pub open spec fn pin_fault(pins: Seq<ToolchainPin>, k: int) -> Option<Seq<char>> {
    let p = pins[k];
    if (exists|m: int| 0 <= m < k && #[trigger] pins[m].name == p.name) || !version_ok(p.version@) {
        Some("toolchain pins must be unique and have a bounded version"@)
    } else {
        match p.integrity {
            Some(i) => if integrity_ok(i@) {
                None
            } else {
                Some("toolchain integrity must use sha256- plus 64 hex characters"@)
            },
            None => None,
        }
    }
}

/// Everything `validate_toolchains` refuses, in its order.
pub open spec fn toolchains_fault(pins: Seq<ToolchainPin>) -> Option<Seq<char>> {
    first_some(Seq::new(pins.len(), |k: int| pin_fault(pins, k)))
}

fn version_shape(v: &str) -> (b: bool)
    ensures
        b == version_ok(v@),
{
    let c = chars_of(v);
    if c.len() == 0 || c.len() > 80 {
        return false;
    }
    let mut i: usize = 0;
    while i < c.len()
        invariant
            c@ == v@,
            0 < c.len() <= 80,
            i <= c.len(),
            forall|k: int|
                0 <= k < i ==> 0x21 <= (#[trigger] c@[k] as u32) <= 0x7e && c@[k] != '\'' && c@[k] != '"'
                    && c@[k] != '`',
        decreases c.len() - i,
    {
        let x = c[i];
        let n = x as u32;
        if !(0x21 <= n && n <= 0x7e && x != '\'' && x != '"' && x != '`') {
            return false;
        }
        i = i + 1;
    }
    true
}

fn integrity_shape(v: &str) -> (b: bool)
    ensures
        b == integrity_ok(v@),
{
    let c = chars_of(v);
    if c.len() != 71 {
        return false;
    }
    let head = prefix_chars(c.as_slice(), 7);
    if !chars_are(head.as_slice(), "sha256-") {
        return false;
    }
    let mut i: usize = 7;
    while i < c.len()
        invariant
            c@ == v@,
            c.len() == 71,
            c@.take(7) == "sha256-"@,
            7 <= i <= c.len(),
            forall|k: int| 7 <= k < i ==> is_ascii_hexdigit(#[trigger] c@[k]),
        decreases c.len() - i,
    {
        if !ascii_hexdigit(c[i]) {
            return false;
        }
        i = i + 1;
    }
    true
}

/// Checks toolchain pins: unique names, bounded versions, and well-formed
/// integrity digests.
pub fn validate_toolchains(toolchains: &Vec<ToolchainPin>) -> (r: Result<(), AssetError>)
    ensures
        recipe_outcome(r, toolchains_fault(toolchains@)),
{
    let ghost checks = Seq::new(toolchains@.len(), |k: int| pin_fault(toolchains@, k));
    let mut i: usize = 0;
    while i < toolchains.len()
        invariant
            checks == Seq::new(toolchains@.len(), |k: int| pin_fault(toolchains@, k)),
            i <= toolchains.len(),
            forall|k: int| 0 <= k < i ==> (#[trigger] checks[k]) is None,
        decreases toolchains.len() - i,
    {
        let pin = &toolchains[i];
        let mut duplicate = false;
        let mut m: usize = 0;
        while m < i
            invariant
                i < toolchains.len(),
                *pin == toolchains@[i as int],
                m <= i,
                duplicate == exists|q: int| 0 <= q < m && #[trigger] toolchains@[q].name == pin.name,
            decreases i - m,
        {
            if toolchains[m].name == pin.name {
                duplicate = true;
            }
            m = m + 1;
        }
        if duplicate || !version_shape(pin.version.as_str()) {
            proof {
                lemma_first_some_at(checks, i as int);
            }
            return Err(AssetError::InvalidRecipe("toolchain pins must be unique and have a bounded version".to_owned()));
        }
        match &pin.integrity {
            Some(integrity) => {
                if !integrity_shape(integrity.as_str()) {
                    proof {
                        lemma_first_some_at(checks, i as int);
                    }
                    return Err(
                        AssetError::InvalidRecipe("toolchain integrity must use sha256- plus 64 hex characters".to_owned()),
                    );
                }
            },
            None => {},
        }
        assert(checks[i as int] is None);
        i = i + 1;
    }
    proof {
        lemma_first_some_none(checks);
    }
    Ok(())
}

pub open spec fn tier_dup_fault(p: DeviceBudgetProfile, j: int) -> Option<Seq<char>> {
    if exists|m: int| 0 <= m < j && #[trigger] p.tiers@[m].tier == p.tiers@[j].tier {
        Some("profile "@ + p.id@ + " duplicates a tier budget"@)
    } else {
        None
    }
}

pub open spec fn profile_fault(ps: Seq<DeviceBudgetProfile>, k: int) -> Option<Seq<char>> {
    let p = ps[k];
    if !identifier_ok(p.id@) || (exists|m: int| 0 <= m < k && #[trigger] ps[m].id@ == p.id@) || p.tiers@.len()
        == 0 {
        Some("budget profile ids must be valid and unique"@)
    } else {
        first_some(Seq::new(p.tiers@.len(), |j: int| tier_dup_fault(p, j)))
    }
}

/// Whether some profile budgets for `t`.
pub open spec fn covers(ps: Seq<DeviceBudgetProfile>, t: Tier) -> bool {
    exists|k: int, j: int| 0 <= k < ps.len() && 0 <= j < ps[k].tiers@.len() && #[trigger] ps[k].tiers@[j].tier == t
}

/// Everything `validate_profiles` refuses, in its order.
pub open spec fn profiles_fault(ps: Seq<DeviceBudgetProfile>) -> Option<Seq<char>> {
    if ps.len() == 0 {
        Some("at least one device budget profile is required"@)
    } else {
        match first_some(Seq::new(ps.len(), |k: int| profile_fault(ps, k))) {
            Some(m) => Some(m),
            None => if covers(ps, Tier::Universal) && covers(ps, Tier::Lite) && covers(ps, Tier::Balanced)
                && covers(ps, Tier::Signature) {
                None
            } else {
                Some("budget profiles must collectively cover all four tiers"@)
            },
        }
    }
}

fn check_profile_tiers(p: &DeviceBudgetProfile) -> (r: Result<(), AssetError>)
    ensures
        recipe_outcome(r, first_some(Seq::new(p.tiers@.len(), |j: int| tier_dup_fault(*p, j)))),
{
    let ghost checks = Seq::new(p.tiers@.len(), |j: int| tier_dup_fault(*p, j));
    let mut j: usize = 0;
    while j < p.tiers.len()
        invariant
            checks == Seq::new(p.tiers@.len(), |j: int| tier_dup_fault(*p, j)),
            j <= p.tiers.len(),
            forall|k: int| 0 <= k < j ==> (#[trigger] checks[k]) is None,
        decreases p.tiers.len() - j,
    {
        let mut m: usize = 0;
        let mut duplicate = false;
        while m < j
            invariant
                j < p.tiers.len(),
                m <= j,
                duplicate == exists|q: int| 0 <= q < m && #[trigger] p.tiers@[q].tier == p.tiers@[j as int].tier,
            decreases j - m,
        {
            if p.tiers[m].tier == p.tiers[j].tier {
                duplicate = true;
            }
            m = m + 1;
        }
        if duplicate {
            let mut msg = String::new();
            push_str(&mut msg, "profile ");
            push_str(&mut msg, p.id.as_str());
            push_str(&mut msg, " duplicates a tier budget");
            proof {
                assert(msg@ =~= "profile "@ + p.id@ + " duplicates a tier budget"@);
                lemma_first_some_at(checks, j as int);
            }
            return Err(AssetError::InvalidRecipe(msg));
        }
        assert(checks[j as int] is None);
        j = j + 1;
    }
    proof {
        lemma_first_some_none(checks);
    }
    Ok(())
}

fn has_budget_for(ps: &Vec<DeviceBudgetProfile>, t: Tier) -> (b: bool)
    ensures
        b == covers(ps@, t),
{
    let mut k: usize = 0;
    while k < ps.len()
        invariant
            k <= ps.len(),
            forall|a: int, j: int| 0 <= a < k && 0 <= j < ps@[a].tiers@.len() ==> #[trigger] ps@[a].tiers@[j].tier != t,
        decreases ps.len() - k,
    {
        let mut j: usize = 0;
        while j < ps[k].tiers.len()
            invariant
                k < ps.len(),
                j <= ps@[k as int].tiers@.len(),
                forall|a: int, q: int|
                    0 <= a < k && 0 <= q < ps@[a].tiers@.len() ==> #[trigger] ps@[a].tiers@[q].tier != t,
                forall|q: int| 0 <= q < j ==> #[trigger] ps@[k as int].tiers@[q].tier != t,
            decreases ps@[k as int].tiers@.len() - j,
        {
            if ps[k].tiers[j].tier == t {
                return true;
            }
            j = j + 1;
        }
        k = k + 1;
    }
    false
}

fn same_str(a: &String, b: &String) -> (r: bool)
    ensures
        r == (a@ == b@),
{
    let x = chars_of(a.as_str());
    chars_are(x.as_slice(), b.as_str())
}

/// Checks device budget profiles: valid unique ids, tiers budgeted once per
/// profile, and all four tiers covered between them.
pub fn validate_profiles(profiles: &Vec<DeviceBudgetProfile>) -> (r: Result<(), AssetError>)
    ensures
        recipe_outcome(r, profiles_fault(profiles@)),
{
    if profiles.len() == 0 {
        return Err(AssetError::InvalidRecipe("at least one device budget profile is required".to_owned()));
    }
    let ghost checks = Seq::new(profiles@.len(), |k: int| profile_fault(profiles@, k));
    let mut i: usize = 0;
    while i < profiles.len()
        invariant
            checks == Seq::new(profiles@.len(), |k: int| profile_fault(profiles@, k)),
            i <= profiles.len(),
            forall|k: int| 0 <= k < i ==> (#[trigger] checks[k]) is None,
        decreases profiles.len() - i,
    {
        let profile = &profiles[i];
        let mut duplicate = false;
        let mut m: usize = 0;
        while m < i
            invariant
                i < profiles.len(),
                *profile == profiles@[i as int],
                m <= i,
                duplicate == exists|q: int| 0 <= q < m && #[trigger] profiles@[q].id@ == profile.id@,
            decreases i - m,
        {
            if same_str(&profiles[m].id, &profile.id) {
                duplicate = true;
            }
            m = m + 1;
        }
        if !valid_identifier(profile.id.as_str()) || duplicate || profile.tiers.len() == 0 {
            proof {
                lemma_first_some_at(checks, i as int);
            }
            return Err(AssetError::InvalidRecipe("budget profile ids must be valid and unique".to_owned()));
        }
        match check_profile_tiers(profile) {
            Ok(()) => {},
            Err(e) => {
                proof {
                    lemma_first_some_at(checks, i as int);
                }
                return Err(e);
            },
        }
        assert(checks[i as int] is None);
        i = i + 1;
    }
    proof {
        lemma_first_some_none(checks);
    }
    if has_budget_for(profiles, Tier::Universal) && has_budget_for(profiles, Tier::Lite) && has_budget_for(
        profiles,
        Tier::Balanced,
    ) && has_budget_for(profiles, Tier::Signature) {
        Ok(())
    } else {
        Err(AssetError::InvalidRecipe("budget profiles must collectively cover all four tiers".to_owned()))
    }
}

pub open spec fn id_message(id: Seq<char>) -> Option<Seq<char>> {
    Some("invalid or duplicate output id "@ + id)
}

/// The check of the `k`-th output id of one asset: a valid identifier not
/// used by an earlier output.
pub open spec fn id_fault(ids: Seq<Seq<char>>, k: int) -> Option<Seq<char>> {
    if identifier_ok(ids[k]) && !ids.take(k).contains(ids[k]) {
        None
    } else {
        id_message(ids[k])
    }
}

/// Records an output id, refusing invalid or repeated ones.
pub fn validate_output_id(seen: &mut Vec<String>, id: &str) -> (r: Result<(), AssetError>)
    ensures
        recipe_outcome(
            r,
            if identifier_ok(id@) && !string_views(old(seen)@).contains(id@) {
                None
            } else {
                id_message(id@)
            },
        ),
        r is Ok ==> string_views(final(seen)@) == string_views(old(seen)@).push(id@),
{
    let mut fresh = valid_identifier(id);
    if fresh {
        let mut m: usize = 0;
        while m < seen.len()
            invariant
                m <= seen.len(),
                fresh == forall|q: int| 0 <= q < m ==> (#[trigger] seen@[q])@ != id@,
            decreases seen.len() - m,
        {
            if str_eq(seen[m].as_str(), id) {
                fresh = false;
            }
            m = m + 1;
        }
        proof {
            if string_views(seen@).contains(id@) {
                let q = choose|q: int| 0 <= q < string_views(seen@).len() && string_views(seen@)[q] == id@;
                assert(seen@[q]@ == id@);
            }
            if !fresh {
                let q = choose|q: int| 0 <= q < seen.len() && !((#[trigger] seen@[q])@ != id@);
                assert(string_views(seen@)[q] == id@);
            }
        }
    }
    if !fresh {
        let mut msg = String::new();
        push_str(&mut msg, "invalid or duplicate output id ");
        push_str(&mut msg, id);
        proof {
            assert(msg@ =~= "invalid or duplicate output id "@ + id@);
        }
        return Err(AssetError::InvalidRecipe(msg));
    }
    let ghost before = seen@;
    seen.push(id.to_owned());
    proof {
        assert(string_views(seen@) =~= string_views(before).push(id@));
    }
    Ok(())
}

pub open spec fn image_output_fault(outs: Seq<ImageOutput>, k: int) -> Option<Seq<char>> {
    let o = outs[k];
    match id_fault(outs.map_values(|x: ImageOutput| x.id@), k) {
        Some(m) => Some(m),
        None => if o.width == 0 || o.height == 0 || o.quality < 1 || o.quality > 100 {
            Some("image dimensions and quality must be positive and bounded"@)
        } else {
            policy_problem(o.policy, Family::Image)
        },
    }
}

pub open spec fn video_output_fault(outs: Seq<VideoOutput>, k: int) -> Option<Seq<char>> {
    let o = outs[k];
    match id_fault(outs.map_values(|x: VideoOutput| x.id@), k) {
        Some(m) => Some(m),
        None => if o.width == 0 || o.height == 0 || o.bitrate_kbps == 0 || o.max_fps == 0 || o.max_fps > 240 {
            Some("video dimensions, bitrate, and fps are outside supported bounds"@)
        } else {
            policy_problem(o.policy, Family::Video)
        },
    }
}

pub open spec fn font_output_fault(outs: Seq<FontOutput>, k: int) -> Option<Seq<char>> {
    let o = outs[k];
    match id_fault(outs.map_values(|x: FontOutput| x.id@), k) {
        Some(m) => Some(m),
        None => if o.glyphs@.len() == 0 || o.glyphs@.len() > 8192 {
            Some("font glyph set must contain 1..=8192 characters"@)
        } else if (match o.unicode_range {
            Some(r) => utf8_len(r@) > 512 || !starts_with(r@, "U+"@),
            None => false,
        }) {
            Some("font unicodeRange must be a bounded CSS U+ range"@)
        } else {
            policy_problem(o.policy, Family::Font)
        },
    }
}

pub open spec fn scene_output_fault(outs: Seq<SceneOutput>, pins: Seq<ToolchainPin>, k: int) -> Option<Seq<char>> {
    let o = outs[k];
    match id_fault(outs.map_values(|x: SceneOutput| x.id@), k) {
        Some(m) => Some(m),
        None => match (if o.requires_blender {
            pin_message(pins, Toolchain::Blender, "3D"@)
        } else {
            None
        }) {
            Some(m) => Some(m),
            None => if o.max_triangles == 0 || o.max_draw_calls == 0 || o.max_texture_dimension == 0
                || o.max_texture_dimension > 16384 {
                Some("3D geometry and texture limits must be positive and bounded"@)
            } else {
                policy_problem(o.policy, Family::Scene)
            },
        },
    }
}

/// The first of two messages that is due.
pub open spec fn either(a: Option<Seq<char>>, b: Option<Seq<char>>) -> Option<Seq<char>> {
    if a is Some {
        a
    } else {
        b
    }
}

/// Everything `validate_transform` refuses, in its order.
pub open spec fn transform_fault(t: TransformRecipe, pins: Seq<ToolchainPin>) -> Option<Seq<char>> {
    match t {
        TransformRecipe::Image { outputs } => either(
            outputs_count_message(outputs@.len() as int),
            either(
                pin_message(pins, Toolchain::Ffmpeg, "image"@),
                first_some(Seq::new(outputs@.len(), |k: int| image_output_fault(outputs@, k))),
            ),
        ),
        TransformRecipe::Video { outputs } => either(
            outputs_count_message(outputs@.len() as int),
            either(
                pin_message(pins, Toolchain::Ffmpeg, "video"@),
                first_some(Seq::new(outputs@.len(), |k: int| video_output_fault(outputs@, k))),
            ),
        ),
        TransformRecipe::Font { outputs } => either(
            outputs_count_message(outputs@.len() as int),
            either(
                pin_message(pins, Toolchain::Fonttools, "font"@),
                first_some(Seq::new(outputs@.len(), |k: int| font_output_fault(outputs@, k))),
            ),
        ),
        TransformRecipe::Scene3d { outputs } => either(
            outputs_count_message(outputs@.len() as int),
            either(
                pin_message(pins, Toolchain::GltfTransform, "3D"@),
                either(
                    pin_message(pins, Toolchain::Ktx2Encoder, "3D"@),
                    first_some(Seq::new(outputs@.len(), |k: int| scene_output_fault(outputs@, pins, k))),
                ),
            ),
        ),
    }
}

fn check_image_outputs(outs: &Vec<ImageOutput>) -> (r: Result<(), AssetError>)
    ensures
        recipe_outcome(r, first_some(Seq::new(outs@.len(), |k: int| image_output_fault(outs@, k)))),
{
    let ghost ids = outs@.map_values(|x: ImageOutput| x.id@);
    let ghost checks = Seq::new(outs@.len(), |k: int| image_output_fault(outs@, k));
    let mut seen: Vec<String> = Vec::new();
    let mut i: usize = 0;
    while i < outs.len()
        invariant
            ids == outs@.map_values(|x: ImageOutput| x.id@),
            checks == Seq::new(outs@.len(), |k: int| image_output_fault(outs@, k)),
            i <= outs.len(),
            string_views(seen@) == ids.take(i as int),
            forall|k: int| 0 <= k < i ==> (#[trigger] checks[k]) is None,
        decreases outs.len() - i,
    {
        let o = &outs[i];
        proof {
            assert(ids[i as int] == o.id@);
            assert(ids.take(i + 1) =~= ids.take(i as int).push(o.id@));
        }
        match validate_output_id(&mut seen, o.id.as_str()) {
            Ok(()) => {},
            Err(e) => {
                proof {
                    lemma_first_some_at(checks, i as int);
                }
                return Err(e);
            },
        }
        if o.width == 0 || o.height == 0 || o.quality < 1 || o.quality > 100 {
            proof {
                lemma_first_some_at(checks, i as int);
            }
            return Err(AssetError::InvalidRecipe("image dimensions and quality must be positive and bounded".to_owned()));
        }
        match validate_policy(&o.policy, Family::Image) {
            Ok(()) => {},
            Err(e) => {
                proof {
                    lemma_first_some_at(checks, i as int);
                }
                return Err(e);
            },
        }
        assert(checks[i as int] is None);
        i = i + 1;
    }
    proof {
        lemma_first_some_none(checks);
    }
    Ok(())
}

fn check_video_outputs(outs: &Vec<VideoOutput>) -> (r: Result<(), AssetError>)
    ensures
        recipe_outcome(r, first_some(Seq::new(outs@.len(), |k: int| video_output_fault(outs@, k)))),
{
    let ghost ids = outs@.map_values(|x: VideoOutput| x.id@);
    let ghost checks = Seq::new(outs@.len(), |k: int| video_output_fault(outs@, k));
    let mut seen: Vec<String> = Vec::new();
    let mut i: usize = 0;
    while i < outs.len()
        invariant
            ids == outs@.map_values(|x: VideoOutput| x.id@),
            checks == Seq::new(outs@.len(), |k: int| video_output_fault(outs@, k)),
            i <= outs.len(),
            string_views(seen@) == ids.take(i as int),
            forall|k: int| 0 <= k < i ==> (#[trigger] checks[k]) is None,
        decreases outs.len() - i,
    {
        let o = &outs[i];
        proof {
            assert(ids[i as int] == o.id@);
            assert(ids.take(i + 1) =~= ids.take(i as int).push(o.id@));
        }
        match validate_output_id(&mut seen, o.id.as_str()) {
            Ok(()) => {},
            Err(e) => {
                proof {
                    lemma_first_some_at(checks, i as int);
                }
                return Err(e);
            },
        }
        if o.width == 0 || o.height == 0 || o.bitrate_kbps == 0 || o.max_fps == 0 || o.max_fps > 240 {
            proof {
                lemma_first_some_at(checks, i as int);
            }
            return Err(
                AssetError::InvalidRecipe("video dimensions, bitrate, and fps are outside supported bounds".to_owned()),
            );
        }
        match validate_policy(&o.policy, Family::Video) {
            Ok(()) => {},
            Err(e) => {
                proof {
                    lemma_first_some_at(checks, i as int);
                }
                return Err(e);
            },
        }
        assert(checks[i as int] is None);
        i = i + 1;
    }
    proof {
        lemma_first_some_none(checks);
    }
    Ok(())
}

fn check_font_outputs(outs: &Vec<FontOutput>) -> (r: Result<(), AssetError>)
    ensures
        recipe_outcome(r, first_some(Seq::new(outs@.len(), |k: int| font_output_fault(outs@, k)))),
{
    let ghost ids = outs@.map_values(|x: FontOutput| x.id@);
    let ghost checks = Seq::new(outs@.len(), |k: int| font_output_fault(outs@, k));
    let mut seen: Vec<String> = Vec::new();
    let mut i: usize = 0;
    while i < outs.len()
        invariant
            ids == outs@.map_values(|x: FontOutput| x.id@),
            checks == Seq::new(outs@.len(), |k: int| font_output_fault(outs@, k)),
            i <= outs.len(),
            string_views(seen@) == ids.take(i as int),
            forall|k: int| 0 <= k < i ==> (#[trigger] checks[k]) is None,
        decreases outs.len() - i,
    {
        let o = &outs[i];
        proof {
            assert(ids[i as int] == o.id@);
            assert(ids.take(i + 1) =~= ids.take(i as int).push(o.id@));
        }
        match validate_output_id(&mut seen, o.id.as_str()) {
            Ok(()) => {},
            Err(e) => {
                proof {
                    lemma_first_some_at(checks, i as int);
                }
                return Err(e);
            },
        }
        let glyphs = chars_of(o.glyphs.as_str());
        if glyphs.len() == 0 || glyphs.len() > 8192 {
            proof {
                lemma_first_some_at(checks, i as int);
            }
            return Err(AssetError::InvalidRecipe("font glyph set must contain 1..=8192 characters".to_owned()));
        }
        let range_bad = match &o.unicode_range {
            Some(range) => {
                let rc = chars_of(range.as_str());
                let prefix = chars_of("U+");
                utf8_len_of(rc.as_slice()) > 512 || !starts_with_chars(rc.as_slice(), prefix.as_slice())
            },
            None => false,
        };
        if range_bad {
            proof {
                lemma_first_some_at(checks, i as int);
            }
            return Err(AssetError::InvalidRecipe("font unicodeRange must be a bounded CSS U+ range".to_owned()));
        }
        match validate_policy(&o.policy, Family::Font) {
            Ok(()) => {},
            Err(e) => {
                proof {
                    lemma_first_some_at(checks, i as int);
                }
                return Err(e);
            },
        }
        assert(checks[i as int] is None);
        i = i + 1;
    }
    proof {
        lemma_first_some_none(checks);
    }
    Ok(())
}

fn check_scene_outputs(outs: &Vec<SceneOutput>, pins: &Vec<ToolchainPin>) -> (r: Result<(), AssetError>)
    ensures
        recipe_outcome(r, first_some(Seq::new(outs@.len(), |k: int| scene_output_fault(outs@, pins@, k)))),
{
    let ghost ids = outs@.map_values(|x: SceneOutput| x.id@);
    let ghost checks = Seq::new(outs@.len(), |k: int| scene_output_fault(outs@, pins@, k));
    let mut seen: Vec<String> = Vec::new();
    let mut i: usize = 0;
    while i < outs.len()
        invariant
            ids == outs@.map_values(|x: SceneOutput| x.id@),
            checks == Seq::new(outs@.len(), |k: int| scene_output_fault(outs@, pins@, k)),
            i <= outs.len(),
            string_views(seen@) == ids.take(i as int),
            forall|k: int| 0 <= k < i ==> (#[trigger] checks[k]) is None,
        decreases outs.len() - i,
    {
        let o = &outs[i];
        proof {
            assert(ids[i as int] == o.id@);
            assert(ids.take(i + 1) =~= ids.take(i as int).push(o.id@));
        }
        match validate_output_id(&mut seen, o.id.as_str()) {
            Ok(()) => {},
            Err(e) => {
                proof {
                    lemma_first_some_at(checks, i as int);
                }
                return Err(e);
            },
        }
        if o.requires_blender {
            match require_pin(pins, Toolchain::Blender, "3D") {
                Ok(()) => {},
                Err(e) => {
                    proof {
                        lemma_first_some_at(checks, i as int);
                    }
                    return Err(e);
                },
            }
        }
        if o.max_triangles == 0 || o.max_draw_calls == 0 || o.max_texture_dimension == 0 || o.max_texture_dimension
            > 16384 {
            proof {
                lemma_first_some_at(checks, i as int);
            }
            return Err(
                AssetError::InvalidRecipe("3D geometry and texture limits must be positive and bounded".to_owned()),
            );
        }
        match validate_policy(&o.policy, Family::Scene) {
            Ok(()) => {},
            Err(e) => {
                proof {
                    lemma_first_some_at(checks, i as int);
                }
                return Err(e);
            },
        }
        assert(checks[i as int] is None);
        i = i + 1;
    }
    proof {
        lemma_first_some_none(checks);
    }
    Ok(())
}

/// Checks one asset's transform: its output count, the toolchains its family
/// needs, and each output's id, bounds and load policy.
pub fn validate_transform(transform: &TransformRecipe, pins: &Vec<ToolchainPin>) -> (r: Result<(), AssetError>)
    ensures
        recipe_outcome(r, transform_fault(*transform, pins@)),
{
    match transform {
        TransformRecipe::Image { outputs } => {
            let a = require_outputs(outputs.len());
            if a.is_err() {
                return a;
            }
            let b = require_pin(pins, Toolchain::Ffmpeg, "image");
            if b.is_err() {
                return b;
            }
            check_image_outputs(outputs)
        },
        TransformRecipe::Video { outputs } => {
            let a = require_outputs(outputs.len());
            if a.is_err() {
                return a;
            }
            let b = require_pin(pins, Toolchain::Ffmpeg, "video");
            if b.is_err() {
                return b;
            }
            check_video_outputs(outputs)
        },
        TransformRecipe::Font { outputs } => {
            let a = require_outputs(outputs.len());
            if a.is_err() {
                return a;
            }
            let b = require_pin(pins, Toolchain::Fonttools, "font");
            if b.is_err() {
                return b;
            }
            check_font_outputs(outputs)
        },
        TransformRecipe::Scene3d { outputs } => {
            let a = require_outputs(outputs.len());
            if a.is_err() {
                return a;
            }
            let b = require_pin(pins, Toolchain::GltfTransform, "3D");
            if b.is_err() {
                return b;
            }
            let c = require_pin(pins, Toolchain::Ktx2Encoder, "3D");
            if c.is_err() {
                return c;
            }
            check_scene_outputs(outputs, pins)
        },
    }
}

/// The check of the `k`-th asset of a recipe: a fresh identifier, a safe
/// input path, and a valid transform.
pub open spec fn asset_fault(assets: Seq<AssetRecipe>, pins: Seq<ToolchainPin>, k: int) -> Option<Seq<char>> {
    let a = assets[k];
    if !identifier_ok(a.id@) || assets.take(k).map_values(|x: AssetRecipe| x.id@).contains(a.id@) {
        Some("invalid or duplicate asset id "@ + a.id@)
    } else {
        match relative_path_result(a.input@) {
            Err(m) => Some(m),
            Ok(_) => transform_fault(a.transform, pins),
        }
    }
}

/// Everything `validate_recipe_contract` refuses, in its order.
pub open spec fn recipe_fault(r: AdaptiveRecipe) -> Option<Seq<char>> {
    if (match r.schema {
        Some(s) => s@ != ADAPTIVE_RECIPE_SCHEMA@,
        None => false,
    }) {
        Some("adaptive recipe references an unsupported schema"@)
    } else if r.recipe_version@ != ADAPTIVE_RECIPE_VERSION@ {
        Some("unsupported adaptive recipe version "@ + r.recipe_version@)
    } else if r.assets@.len() == 0 || r.assets@.len() > MAX_ASSETS {
        Some("recipe assets must be in 1..=512"@)
    } else {
        either(
            toolchains_fault(r.toolchains@),
            either(
                profiles_fault(r.budget_profiles@),
                first_some(Seq::new(r.assets@.len(), |k: int| asset_fault(r.assets@, r.toolchains@, k))),
            ),
        )
    }
}

fn check_assets(recipe: &AdaptiveRecipe) -> (r: Result<(), AssetError>)
    ensures
        recipe_outcome(
            r,
            first_some(Seq::new(recipe.assets@.len(), |k: int| asset_fault(recipe.assets@, recipe.toolchains@, k))),
        ),
{
    let ghost checks = Seq::new(recipe.assets@.len(), |k: int| asset_fault(recipe.assets@, recipe.toolchains@, k));
    let mut i: usize = 0;
    while i < recipe.assets.len()
        invariant
            checks == Seq::new(recipe.assets@.len(), |k: int| asset_fault(recipe.assets@, recipe.toolchains@, k)),
            i <= recipe.assets.len(),
            forall|k: int| 0 <= k < i ==> (#[trigger] checks[k]) is None,
        decreases recipe.assets.len() - i,
    {
        let asset = &recipe.assets[i];
        let mut duplicate = false;
        let mut m: usize = 0;
        while m < i
            invariant
                i < recipe.assets.len(),
                *asset == recipe.assets@[i as int],
                m <= i,
                duplicate == exists|q: int| 0 <= q < m && #[trigger] recipe.assets@[q].id@ == asset.id@,
            decreases i - m,
        {
            if str_eq(recipe.assets[m].id.as_str(), asset.id.as_str()) {
                duplicate = true;
            }
            m = m + 1;
        }
        proof {
            let earlier = recipe.assets@.take(i as int).map_values(|x: AssetRecipe| x.id@);
            if earlier.contains(asset.id@) {
                let q = choose|q: int| 0 <= q < earlier.len() && earlier[q] == asset.id@;
                assert(recipe.assets@[q].id@ == asset.id@);
            }
            if duplicate {
                let q = choose|q: int| 0 <= q < i && #[trigger] recipe.assets@[q].id@ == asset.id@;
                assert(earlier[q] == asset.id@);
            }
        }
        if !valid_identifier(asset.id.as_str()) || duplicate {
            let mut msg = String::new();
            push_str(&mut msg, "invalid or duplicate asset id ");
            push_str(&mut msg, asset.id.as_str());
            proof {
                assert(msg@ =~= "invalid or duplicate asset id "@ + asset.id@);
                lemma_first_some_at(checks, i as int);
            }
            return Err(AssetError::InvalidRecipe(msg));
        }
        match validate_relative_path(asset.input.as_str()) {
            Ok(_) => {},
            Err(e) => {
                proof {
                    lemma_first_some_at(checks, i as int);
                }
                return Err(e);
            },
        }
        match validate_transform(&asset.transform, &recipe.toolchains) {
            Ok(()) => {},
            Err(e) => {
                proof {
                    lemma_first_some_at(checks, i as int);
                }
                return Err(e);
            },
        }
        assert(checks[i as int] is None);
        i = i + 1;
    }
    proof {
        lemma_first_some_none(checks);
    }
    Ok(())
}

/// Checks an adaptive recipe before any file is read: schema and version,
/// asset count, toolchain pins, budget profiles, and every asset.
pub fn validate_recipe_contract(recipe: &AdaptiveRecipe) -> (r: Result<(), AssetError>)
    ensures
        recipe_outcome(r, recipe_fault(*recipe)),
{
    match &recipe.schema {
        Some(schema) => {
            if !str_eq(schema.as_str(), ADAPTIVE_RECIPE_SCHEMA) {
                return Err(AssetError::InvalidRecipe("adaptive recipe references an unsupported schema".to_owned()));
            }
        },
        None => {},
    }
    if !str_eq(recipe.recipe_version.as_str(), ADAPTIVE_RECIPE_VERSION) {
        let mut msg = String::new();
        push_str(&mut msg, "unsupported adaptive recipe version ");
        push_str(&mut msg, recipe.recipe_version.as_str());
        proof {
            assert(msg@ =~= "unsupported adaptive recipe version "@ + recipe.recipe_version@);
        }
        return Err(AssetError::InvalidRecipe(msg));
    }
    if recipe.assets.len() == 0 || recipe.assets.len() > MAX_ASSETS {
        return Err(AssetError::InvalidRecipe("recipe assets must be in 1..=512".to_owned()));
    }
    let a = validate_toolchains(&recipe.toolchains);
    if a.is_err() {
        return a;
    }
    let b = validate_profiles(&recipe.budget_profiles);
    if b.is_err() {
        return b;
    }
    check_assets(recipe)
}

/// The observable content of a load policy.
pub open spec fn policy_view(p: LoadPolicy) -> (Seq<Tier>, Delivery, bool, FetchPriority, MotionPolicy) {
    (p.tiers@, p.delivery, p.preload, p.fetch_priority, p.motion)
}

/// A copy of a load policy.
pub fn copy_policy(p: &LoadPolicy) -> (q: LoadPolicy)
    ensures
        policy_view(q) == policy_view(*p),
{
    let mut tiers: Vec<Tier> = Vec::new();
    let mut i: usize = 0;
    while i < p.tiers.len()
        invariant
            i <= p.tiers.len(),
            tiers@ == p.tiers@.take(i as int),
        decreases p.tiers.len() - i,
    {
        tiers.push(p.tiers[i]);
        i = i + 1;
        proof {
            assert(p.tiers@.take(i as int) =~= p.tiers@.take(i - 1).push(p.tiers@[i - 1]));
        }
    }
    proof {
        assert(p.tiers@.take(p.tiers.len() as int) =~= p.tiers@);
    }
    LoadPolicy {
        tiers,
        delivery: p.delivery,
        preload: p.preload,
        fetch_priority: p.fetch_priority,
        motion: p.motion,
    }
}

/// The identity, staging path, format, group, toolchains and policy of the
/// job that output `vid` of `asset` becomes.
pub open spec fn job_base(
    j: AssetJob,
    asset: AssetRecipe,
    vid: Seq<char>,
    format: ArtifactFormat,
    tools: Seq<Toolchain>,
    policy: LoadPolicy,
    grouped: bool,
) -> bool {
    &&& j.id@ == asset.id@ + "."@ + vid
    &&& j.source_id@ == asset.id@
    &&& j.variant_id@ == vid
    &&& j.staging_path@ == ".pliego-assets/stage/"@ + asset.id@ + "."@ + vid + "."@ + format_extension(format)
    &&& j.format == format
    &&& option_text(j.selection_group) == (if grouped {
        Some(asset.id@)
    } else {
        None
    })
    &&& j.required_toolchains@ == tools
    &&& policy_view(j.policy) == policy_view(policy)
}

/// The number of outputs a transform declares.
pub open spec fn output_count(t: TransformRecipe) -> nat {
    match t {
        TransformRecipe::Image { outputs } => outputs@.len(),
        TransformRecipe::Video { outputs } => outputs@.len(),
        TransformRecipe::Font { outputs } => outputs@.len(),
        TransformRecipe::Scene3d { outputs } => outputs@.len(),
    }
}

/// The message refusing output `k`'s decoded-memory estimate, if it overflows.
pub open spec fn estimate_fault(t: TransformRecipe, k: int) -> Option<Seq<char>> {
    match t {
        TransformRecipe::Image { outputs } => if outputs@[k].width * outputs@[k].height * 4 > u64::MAX {
            Some("decoded size overflow"@)
        } else {
            None
        },
        TransformRecipe::Video { outputs } => if outputs@[k].width * outputs@[k].height * 4 > u64::MAX {
            Some("decoded size overflow"@)
        } else if outputs@[k].width * outputs@[k].height * 4 * 3 > u64::MAX {
            Some("video decoded memory estimate overflow"@)
        } else {
            None
        },
        TransformRecipe::Font { .. } => None,
        TransformRecipe::Scene3d { outputs } => if outputs@[k].max_texture_dimension
            * outputs@[k].max_texture_dimension * 4 > u64::MAX {
            Some("decoded size overflow"@)
        } else {
            None
        },
    }
}

/// `j` is the job of output `k` of `asset`.
pub open spec fn job_for(asset: AssetRecipe, k: int, j: AssetJob) -> bool {
    match asset.transform {
        TransformRecipe::Image { outputs } => {
            let o = outputs@[k];
            &&& job_base(j, asset, o.id@, image_artifact_spec(o.format), seq![Toolchain::Ffmpeg], o.policy, true)
            &&& j.operation == JobOperation::Image {
                width: o.width,
                height: o.height,
                format: o.format,
                quality: o.quality,
            }
            &&& j.estimated_decoded_bytes == o.width * o.height * 4
            &&& j.estimated_triangles == 0
            &&& j.estimated_draw_calls == 0
        },
        TransformRecipe::Video { outputs } => {
            let o = outputs@[k];
            &&& job_base(j, asset, o.id@, video_artifact_spec(o.format), seq![Toolchain::Ffmpeg], o.policy, true)
            &&& j.operation == JobOperation::Video {
                width: o.width,
                height: o.height,
                format: o.format,
                bitrate_kbps: o.bitrate_kbps,
                max_fps: o.max_fps,
                audio: o.audio,
            }
            &&& j.estimated_decoded_bytes == o.width * o.height * 4 * 3
            &&& j.estimated_triangles == 0
            &&& j.estimated_draw_calls == 0
        },
        TransformRecipe::Font { outputs } => {
            let o = outputs@[k];
            &&& job_base(j, asset, o.id@, ArtifactFormat::Woff2, seq![Toolchain::Fonttools], o.policy, false)
            &&& (j.operation matches JobOperation::FontSubset { glyphs, unicode_range } && glyphs@ == o.glyphs@
                && option_text(unicode_range) == option_text(o.unicode_range))
            &&& j.estimated_decoded_bytes == 0
            &&& j.estimated_triangles == 0
            &&& j.estimated_draw_calls == 0
        },
        TransformRecipe::Scene3d { outputs } => {
            let o = outputs@[k];
            &&& job_base(
                j,
                asset,
                o.id@,
                ArtifactFormat::Glb,
                if o.requires_blender {
                    seq![Toolchain::Blender, Toolchain::GltfTransform, Toolchain::Ktx2Encoder]
                } else {
                    seq![Toolchain::GltfTransform, Toolchain::Ktx2Encoder]
                },
                o.policy,
                true,
            )
            &&& j.operation == JobOperation::Scene3d {
                max_triangles: o.max_triangles,
                max_draw_calls: o.max_draw_calls,
                mesh_compression: o.mesh_compression,
                texture_compression: o.texture_compression,
                max_texture_dimension: o.max_texture_dimension,
                requires_blender: o.requires_blender,
            }
            &&& j.estimated_decoded_bytes == o.max_texture_dimension * o.max_texture_dimension * 4
            &&& j.estimated_triangles == o.max_triangles
            &&& j.estimated_draw_calls == o.max_draw_calls
        },
    }
}

/// Appends one job for output `variant_id` of `asset`.
pub fn push_job(
    jobs: &mut Vec<AssetJob>,
    asset: &AssetRecipe,
    variant_id: &str,
    format: ArtifactFormat,
    required_toolchains: Vec<Toolchain>,
    policy: LoadPolicy,
    operation: JobOperation,
    estimated_decoded_bytes: u64,
    estimated_triangles: u64,
    estimated_draw_calls: u64,
)
    ensures
        final(jobs)@.len() == old(jobs)@.len() + 1,
        final(jobs)@.take(old(jobs)@.len() as int) == old(jobs)@,
        job_base(
            final(jobs)@.last(),
            *asset,
            variant_id@,
            format,
            required_toolchains@,
            policy,
            !(operation is FontSubset),
        ),
        final(jobs)@.last().operation == operation,
        final(jobs)@.last().estimated_decoded_bytes == estimated_decoded_bytes,
        final(jobs)@.last().estimated_triangles == estimated_triangles,
        final(jobs)@.last().estimated_draw_calls == estimated_draw_calls,
{
    let id = concat3(asset.id.as_str(), ".", variant_id);
    let selection_group = match &operation {
        JobOperation::FontSubset { .. } => None,
        _ => Some(asset.id.clone()),
    };
    let mut staging_path = String::new();
    push_str(&mut staging_path, ".pliego-assets/stage/");
    push_str(&mut staging_path, id.as_str());
    push_str(&mut staging_path, ".");
    push_str(&mut staging_path, format.extension());
    proof {
        assert(staging_path@ =~= ".pliego-assets/stage/"@ + asset.id@ + "."@ + variant_id@ + "."@
            + format_extension(format));
    }
    let ghost before = jobs@;
    jobs.push(
        AssetJob {
            id,
            source_id: asset.id.clone(),
            variant_id: variant_id.to_owned(),
            staging_path,
            format,
            selection_group,
            required_toolchains,
            policy,
            operation,
            estimated_decoded_bytes,
            estimated_triangles,
            estimated_draw_calls,
        },
    );
    proof {
        assert(jobs@.take(before.len() as int) =~= before);
    }
}

/// What `append_jobs` leaves in `jobs`: the earlier jobs, then one job per
/// output up to the first whose estimate overflows.
pub open spec fn appended(before: Seq<AssetJob>, after: Seq<AssetJob>, asset: AssetRecipe, n: int) -> bool {
    &&& after.len() == before.len() + n
    &&& after.take(before.len() as int) == before
    &&& forall|k: int| 0 <= k < n ==> #[trigger] job_for(asset, k, after[before.len() + k])
}

fn append_image_jobs(asset: &AssetRecipe, outputs: &Vec<ImageOutput>, jobs: &mut Vec<AssetJob>) -> (r: Result<(), AssetError>)
    requires
        asset.transform == (TransformRecipe::Image { outputs: *outputs }),
    ensures
        recipe_outcome(r, first_some(Seq::new(outputs@.len(), |k: int| estimate_fault(asset.transform, k)))),
        r is Ok ==> appended(old(jobs)@, final(jobs)@, *asset, outputs@.len() as int),
        r is Err ==> final(jobs)@.len() >= old(jobs)@.len() && appended(
            old(jobs)@,
            final(jobs)@,
            *asset,
            final(jobs)@.len() - old(jobs)@.len(),
        ) && final(jobs)@.len() - old(jobs)@.len() < outputs@.len(),
{
    let ghost start = jobs@;
    let ghost checks = Seq::new(outputs@.len(), |k: int| estimate_fault(asset.transform, k));
    assert(jobs@.take(start.len() as int) =~= start);
    let mut i: usize = 0;
    while i < outputs.len()
        invariant
            asset.transform == (TransformRecipe::Image { outputs: *outputs }),
            checks == Seq::new(outputs@.len(), |k: int| estimate_fault(asset.transform, k)),
            i <= outputs.len(),
            start == old(jobs)@,
            appended(start, jobs@, *asset, i as int),
            forall|k: int| 0 <= k < i ==> (#[trigger] checks[k]) is None,
        decreases outputs.len() - i,
    {
        let o = &outputs[i];
        let ghost before = jobs@;
        let decoded = match rgba_bytes(o.width, o.height) {
            Ok(n) => n,
            Err(e) => {
                proof {
                    lemma_first_some_at(checks, i as int);
                }
                return Err(e);
            },
        };
        let mut tools: Vec<Toolchain> = Vec::new();
        tools.push(Toolchain::Ffmpeg);
        proof {
            assert(tools@ =~= seq![Toolchain::Ffmpeg]);
        }
        push_job(
            jobs,
            asset,
            o.id.as_str(),
            image_artifact(o.format),
            tools,
            copy_policy(&o.policy),
            JobOperation::Image { width: o.width, height: o.height, format: o.format, quality: o.quality },
            decoded,
            0,
            0,
        );
        proof {
            assert(jobs@.take(before.len() as int) == before);
            assert forall|k: int| 0 <= k < i + 1 implies #[trigger] job_for(*asset, k, jobs@[start.len() + k]) by {
                if k < i {
                    assert(jobs@[start.len() + k] == before[start.len() + k]);
                }
            }
            assert(jobs@.take(start.len() as int) =~= start) by {
                assert(before.take(start.len() as int) == start);
            }
        }
        assert(checks[i as int] is None);
        i = i + 1;
    }
    proof {
        lemma_first_some_none(checks);
    }
    Ok(())
}

fn append_video_jobs(asset: &AssetRecipe, outputs: &Vec<VideoOutput>, jobs: &mut Vec<AssetJob>) -> (r: Result<(), AssetError>)
    requires
        asset.transform == (TransformRecipe::Video { outputs: *outputs }),
    ensures
        recipe_outcome(r, first_some(Seq::new(outputs@.len(), |k: int| estimate_fault(asset.transform, k)))),
        r is Ok ==> appended(old(jobs)@, final(jobs)@, *asset, outputs@.len() as int),
        r is Err ==> final(jobs)@.len() >= old(jobs)@.len() && appended(
            old(jobs)@,
            final(jobs)@,
            *asset,
            final(jobs)@.len() - old(jobs)@.len(),
        ) && final(jobs)@.len() - old(jobs)@.len() < outputs@.len(),
{
    let ghost start = jobs@;
    let ghost checks = Seq::new(outputs@.len(), |k: int| estimate_fault(asset.transform, k));
    assert(jobs@.take(start.len() as int) =~= start);
    let mut i: usize = 0;
    while i < outputs.len()
        invariant
            asset.transform == (TransformRecipe::Video { outputs: *outputs }),
            checks == Seq::new(outputs@.len(), |k: int| estimate_fault(asset.transform, k)),
            i <= outputs.len(),
            start == old(jobs)@,
            appended(start, jobs@, *asset, i as int),
            forall|k: int| 0 <= k < i ==> (#[trigger] checks[k]) is None,
        decreases outputs.len() - i,
    {
        let o = &outputs[i];
        let ghost before = jobs@;
        let rgba = match rgba_bytes(o.width, o.height) {
            Ok(n) => n,
            Err(e) => {
                proof {
                    lemma_first_some_at(checks, i as int);
                }
                return Err(e);
            },
        };
        let decoded = match rgba.checked_mul(3) {
            Some(n) => n,
            None => {
                proof {
                    lemma_first_some_at(checks, i as int);
                }
                return Err(AssetError::InvalidRecipe("video decoded memory estimate overflow".to_owned()));
            },
        };
        let mut tools: Vec<Toolchain> = Vec::new();
        tools.push(Toolchain::Ffmpeg);
        proof {
            assert(tools@ =~= seq![Toolchain::Ffmpeg]);
        }
        push_job(
            jobs,
            asset,
            o.id.as_str(),
            video_artifact(o.format),
            tools,
            copy_policy(&o.policy),
            JobOperation::Video {
                width: o.width,
                height: o.height,
                format: o.format,
                bitrate_kbps: o.bitrate_kbps,
                max_fps: o.max_fps,
                audio: o.audio,
            },
            decoded,
            0,
            0,
        );
        proof {
            assert(jobs@.take(before.len() as int) == before);
            assert forall|k: int| 0 <= k < i + 1 implies #[trigger] job_for(*asset, k, jobs@[start.len() + k]) by {
                if k < i {
                    assert(jobs@[start.len() + k] == before[start.len() + k]);
                }
            }
            assert(jobs@.take(start.len() as int) =~= start) by {
                assert(before.take(start.len() as int) == start);
            }
        }
        assert(checks[i as int] is None);
        i = i + 1;
    }
    proof {
        lemma_first_some_none(checks);
    }
    Ok(())
}

fn append_font_jobs(asset: &AssetRecipe, outputs: &Vec<FontOutput>, jobs: &mut Vec<AssetJob>) -> (r: Result<(), AssetError>)
    requires
        asset.transform == (TransformRecipe::Font { outputs: *outputs }),
    ensures
        recipe_outcome(r, first_some(Seq::new(outputs@.len(), |k: int| estimate_fault(asset.transform, k)))),
        r is Ok ==> appended(old(jobs)@, final(jobs)@, *asset, outputs@.len() as int),
        r is Err ==> final(jobs)@.len() >= old(jobs)@.len() && appended(
            old(jobs)@,
            final(jobs)@,
            *asset,
            final(jobs)@.len() - old(jobs)@.len(),
        ) && final(jobs)@.len() - old(jobs)@.len() < outputs@.len(),
{
    let ghost start = jobs@;
    let ghost checks = Seq::new(outputs@.len(), |k: int| estimate_fault(asset.transform, k));
    assert(jobs@.take(start.len() as int) =~= start);
    let mut i: usize = 0;
    while i < outputs.len()
        invariant
            asset.transform == (TransformRecipe::Font { outputs: *outputs }),
            checks == Seq::new(outputs@.len(), |k: int| estimate_fault(asset.transform, k)),
            i <= outputs.len(),
            start == old(jobs)@,
            appended(start, jobs@, *asset, i as int),
            forall|k: int| 0 <= k < i ==> (#[trigger] checks[k]) is None,
        decreases outputs.len() - i,
    {
        let o = &outputs[i];
        let ghost before = jobs@;

        let mut tools: Vec<Toolchain> = Vec::new();
        tools.push(Toolchain::Fonttools);
        proof {
            assert(tools@ =~= seq![Toolchain::Fonttools]);
        }
        let range = match &o.unicode_range {
            Some(value) => Some(value.clone()),
            None => None,
        };
        push_job(
            jobs,
            asset,
            o.id.as_str(),
            ArtifactFormat::Woff2,
            tools,
            copy_policy(&o.policy),
            JobOperation::FontSubset { glyphs: o.glyphs.clone(), unicode_range: range },
            0,
            0,
            0,
        );
        proof {
            assert(jobs@.take(before.len() as int) == before);
            assert forall|k: int| 0 <= k < i + 1 implies #[trigger] job_for(*asset, k, jobs@[start.len() + k]) by {
                if k < i {
                    assert(jobs@[start.len() + k] == before[start.len() + k]);
                }
            }
            assert(jobs@.take(start.len() as int) =~= start) by {
                assert(before.take(start.len() as int) == start);
            }
        }
        assert(checks[i as int] is None);
        i = i + 1;
    }
    proof {
        lemma_first_some_none(checks);
    }
    Ok(())
}

fn append_scene_jobs(asset: &AssetRecipe, outputs: &Vec<SceneOutput>, jobs: &mut Vec<AssetJob>) -> (r: Result<(), AssetError>)
    requires
        asset.transform == (TransformRecipe::Scene3d { outputs: *outputs }),
    ensures
        recipe_outcome(r, first_some(Seq::new(outputs@.len(), |k: int| estimate_fault(asset.transform, k)))),
        r is Ok ==> appended(old(jobs)@, final(jobs)@, *asset, outputs@.len() as int),
        r is Err ==> final(jobs)@.len() >= old(jobs)@.len() && appended(
            old(jobs)@,
            final(jobs)@,
            *asset,
            final(jobs)@.len() - old(jobs)@.len(),
        ) && final(jobs)@.len() - old(jobs)@.len() < outputs@.len(),
{
    let ghost start = jobs@;
    let ghost checks = Seq::new(outputs@.len(), |k: int| estimate_fault(asset.transform, k));
    assert(jobs@.take(start.len() as int) =~= start);
    let mut i: usize = 0;
    while i < outputs.len()
        invariant
            asset.transform == (TransformRecipe::Scene3d { outputs: *outputs }),
            checks == Seq::new(outputs@.len(), |k: int| estimate_fault(asset.transform, k)),
            i <= outputs.len(),
            start == old(jobs)@,
            appended(start, jobs@, *asset, i as int),
            forall|k: int| 0 <= k < i ==> (#[trigger] checks[k]) is None,
        decreases outputs.len() - i,
    {
        let o = &outputs[i];
        let ghost before = jobs@;
        let decoded = match rgba_bytes(o.max_texture_dimension, o.max_texture_dimension) {
            Ok(n) => n,
            Err(e) => {
                proof {
                    lemma_first_some_at(checks, i as int);
                }
                return Err(e);
            },
        };
        let mut tools: Vec<Toolchain> = Vec::new();
        if o.requires_blender {
            tools.push(Toolchain::Blender);
        }
        tools.push(Toolchain::GltfTransform);
        tools.push(Toolchain::Ktx2Encoder);
        proof {
            if o.requires_blender {
                assert(tools@ =~= seq![Toolchain::Blender, Toolchain::GltfTransform, Toolchain::Ktx2Encoder]);
            } else {
                assert(tools@ =~= seq![Toolchain::GltfTransform, Toolchain::Ktx2Encoder]);
            }
        }
        push_job(
            jobs,
            asset,
            o.id.as_str(),
            ArtifactFormat::Glb,
            tools,
            copy_policy(&o.policy),
            JobOperation::Scene3d {
                max_triangles: o.max_triangles,
                max_draw_calls: o.max_draw_calls,
                mesh_compression: o.mesh_compression,
                texture_compression: o.texture_compression,
                max_texture_dimension: o.max_texture_dimension,
                requires_blender: o.requires_blender,
            },
            decoded,
            o.max_triangles,
            o.max_draw_calls,
        );
        proof {
            assert(jobs@.take(before.len() as int) == before);
            assert forall|k: int| 0 <= k < i + 1 implies #[trigger] job_for(*asset, k, jobs@[start.len() + k]) by {
                if k < i {
                    assert(jobs@[start.len() + k] == before[start.len() + k]);
                }
            }
            assert(jobs@.take(start.len() as int) =~= start) by {
                assert(before.take(start.len() as int) == start);
            }
        }
        assert(checks[i as int] is None);
        i = i + 1;
    }
    proof {
        lemma_first_some_none(checks);
    }
    Ok(())
}

/// Expands one asset's outputs into typed jobs, in output order: ids
/// `asset.output`, staging paths under `.pliego-assets/stage/`, the family's
/// toolchains and the decoded-memory, triangle and draw-call estimates.
pub fn append_jobs(asset: &AssetRecipe, jobs: &mut Vec<AssetJob>) -> (r: Result<(), AssetError>)
    ensures
        recipe_outcome(
            r,
            first_some(Seq::new(output_count(asset.transform), |k: int| estimate_fault(asset.transform, k))),
        ),
        r is Ok ==> appended(old(jobs)@, final(jobs)@, *asset, output_count(asset.transform) as int),
        r is Err ==> final(jobs)@.len() >= old(jobs)@.len() && appended(
            old(jobs)@,
            final(jobs)@,
            *asset,
            final(jobs)@.len() - old(jobs)@.len(),
        ) && final(jobs)@.len() - old(jobs)@.len() < output_count(asset.transform),
{
    match &asset.transform {
        TransformRecipe::Image { outputs } => append_image_jobs(asset, outputs, jobs),
        TransformRecipe::Video { outputs } => append_video_jobs(asset, outputs, jobs),
        TransformRecipe::Font { outputs } => append_font_jobs(asset, outputs, jobs),
        TransformRecipe::Scene3d { outputs } => append_scene_jobs(asset, outputs, jobs),
    }
}

/// The check of the `k`-th plan source.
pub open spec fn plan_source_fault(sources: Seq<PlanSource>, k: int) -> Option<Seq<char>> {
    let src = sources[k];
    if !identifier_ok(src.id@) || !sha_ok(src.sha256@) || src.bytes == 0 || src.bytes > MAX_SOURCE_BYTES {
        Some("invalid plan source "@ + src.id@)
    } else {
        match relative_path_result(src.path@) {
            Err(m) => Some(m),
            Ok(_) => None,
        }
    }
}

pub open spec fn source_ids(sources: Seq<PlanSource>) -> Seq<Seq<char>> {
    sources.map_values(|x: PlanSource| x.id@)
}

pub open spec fn job_ids(jobs: Seq<AssetJob>) -> Seq<Seq<char>> {
    jobs.map_values(|x: AssetJob| x.id@)
}

/// The check of the `k`-th plan job: its identity, staging path, pinned
/// toolchains, policy and contract.
pub open spec fn plan_job_fault(p: AdaptivePlan, k: int) -> Option<Seq<char>> {
    let j = p.jobs@[k];
    if !dotted_identifier_ok(j.id@) || !identifier_ok(j.source_id@) || !identifier_ok(j.variant_id@) || job_ids(
        p.jobs@.take(k),
    ).contains(j.id@) || !source_ids(p.sources@).contains(j.source_id@) {
        Some("invalid job identity "@ + j.id@)
    } else if j.id@ != j.source_id@ + "."@ + j.variant_id@ {
        Some("job "@ + j.id@ + " identity does not match its source"@)
    } else {
        match relative_path_result(j.staging_path@) {
            Err(m) => Some(m),
            Ok(_) => if j.staging_path@ != ".pliego-assets/stage/"@ + j.id@ + "."@ + format_extension(j.format) {
                Some("job "@ + j.id@ + " has a forged staging path"@)
            } else if !(forall|t: Toolchain|
                j.required_toolchains@.contains(t) ==> #[trigger] pin_names(p.toolchains@).contains(t)) {
                Some("job "@ + j.id@ + " requires an unpinned toolchain"@)
            } else {
                either(policy_problem(j.policy, family_of(j.operation)), job_problem(j))
            },
        }
    }
}

/// Whether two sources share an id.
pub open spec fn duplicate_sources(sources: Seq<PlanSource>) -> bool {
    exists|a: int, b: int| 0 <= a < b < sources.len() && #[trigger] sources[a].id@ == #[trigger] sources[b].id@
}

/// Everything `validate_plan` refuses, in its order.
pub open spec fn plan_fault(p: AdaptivePlan) -> Option<Seq<char>> {
    if p.schema@ != ADAPTIVE_PLAN_SCHEMA@ || p.plan_version@ != ADAPTIVE_PLAN_VERSION@ {
        Some("unsupported adaptive plan version"@)
    } else if !sha_ok(p.recipe_sha256@) {
        Some("plan recipeSha256 must be 64 hexadecimal characters"@)
    } else {
        either(
            toolchains_fault(p.toolchains@),
            either(
                profiles_fault(p.budget_profiles@),
                if p.sources@.len() == 0 || p.sources@.len() > MAX_ASSETS || p.jobs@.len() > MAX_JOBS {
                    Some("plan size is outside supported bounds"@)
                } else {
                    either(
                        first_some(Seq::new(p.sources@.len(), |k: int| plan_source_fault(p.sources@, k))),
                        if duplicate_sources(p.sources@) {
                            Some("plan contains duplicate sources"@)
                        } else {
                            first_some(Seq::new(p.jobs@.len(), |k: int| plan_job_fault(p, k)))
                        },
                    )
                },
            ),
        )
    }
}

fn check_plan_sources(sources: &Vec<PlanSource>) -> (r: Result<(), AssetError>)
    ensures
        recipe_outcome(r, first_some(Seq::new(sources@.len(), |k: int| plan_source_fault(sources@, k)))),
{
    let ghost checks = Seq::new(sources@.len(), |k: int| plan_source_fault(sources@, k));
    let mut i: usize = 0;
    while i < sources.len()
        invariant
            checks == Seq::new(sources@.len(), |k: int| plan_source_fault(sources@, k)),
            i <= sources.len(),
            forall|k: int| 0 <= k < i ==> (#[trigger] checks[k]) is None,
        decreases sources.len() - i,
    {
        let src = &sources[i];
        if !valid_identifier(src.id.as_str()) || !valid_sha256(src.sha256.as_str()) || src.bytes == 0 || src.bytes
            > MAX_SOURCE_BYTES {
            let mut msg = String::new();
            push_str(&mut msg, "invalid plan source ");
            push_str(&mut msg, src.id.as_str());
            proof {
                assert(msg@ =~= "invalid plan source "@ + src.id@);
                lemma_first_some_at(checks, i as int);
            }
            return Err(AssetError::InvalidRecipe(msg));
        }
        match validate_relative_path(src.path.as_str()) {
            Ok(_) => {},
            Err(e) => {
                proof {
                    lemma_first_some_at(checks, i as int);
                }
                return Err(e);
            },
        }
        assert(checks[i as int] is None);
        i = i + 1;
    }
    proof {
        lemma_first_some_none(checks);
    }
    Ok(())
}

fn has_duplicate_source(sources: &Vec<PlanSource>) -> (b: bool)
    ensures
        b == duplicate_sources(sources@),
{
    let mut b: usize = 0;
    while b < sources.len()
        invariant
            b <= sources.len(),
            forall|x: int, y: int| 0 <= x < y < b ==> #[trigger] sources@[x].id@ != #[trigger] sources@[y].id@,
        decreases sources.len() - b,
    {
        let mut a: usize = 0;
        while a < b
            invariant
                b < sources.len(),
                a <= b,
                forall|x: int, y: int| 0 <= x < y < b ==> #[trigger] sources@[x].id@ != #[trigger] sources@[y].id@,
                forall|x: int| 0 <= x < a ==> #[trigger] sources@[x].id@ != sources@[b as int].id@,
            decreases b - a,
        {
            if str_eq(sources[a].id.as_str(), sources[b].id.as_str()) {
                return true;
            }
            a = a + 1;
        }
        b = b + 1;
    }
    false
}

fn has_source_id(sources: &Vec<PlanSource>, id: &str) -> (b: bool)
    ensures
        b == source_ids(sources@).contains(id@),
{
    let mut i: usize = 0;
    while i < sources.len()
        invariant
            i <= sources.len(),
            forall|k: int| 0 <= k < i ==> sources@[k].id@ != id@,
        decreases sources.len() - i,
    {
        if str_eq(sources[i].id.as_str(), id) {
            proof {
                assert(source_ids(sources@)[i as int] == id@);
            }
            return true;
        }
        i = i + 1;
    }
    proof {
        if source_ids(sources@).contains(id@) {
            let k = choose|k: int| 0 <= k < source_ids(sources@).len() && source_ids(sources@)[k] == id@;
            assert(sources@[k].id@ == id@);
        }
    }
    false
}

fn all_pinned(tools: &Vec<Toolchain>, pins: &Vec<ToolchainPin>) -> (b: bool)
    ensures
        b == forall|t: Toolchain| tools@.contains(t) ==> #[trigger] pin_names(pins@).contains(t),
{
    let mut i: usize = 0;
    while i < tools.len()
        invariant
            i <= tools.len(),
            forall|k: int| 0 <= k < i ==> pin_names(pins@).contains(#[trigger] tools@[k]),
        decreases tools.len() - i,
    {
        if !pinned(pins, tools[i]) {
            proof {
                assert(tools@.contains(tools@[i as int]));
            }
            return false;
        }
        i = i + 1;
    }
    proof {
        assert forall|t: Toolchain| tools@.contains(t) implies #[trigger] pin_names(pins@).contains(t) by {
            let k = choose|k: int| 0 <= k < tools@.len() && tools@[k] == t;
            assert(pin_names(pins@).contains(tools@[k]));
        }
    }
    true
}

fn check_plan_job(p: &AdaptivePlan, k: usize, seen: &TextMap<()>) -> (r: Result<(), AssetError>)
    requires
        k < p.jobs.len(),
        seen.wf(),
        forall|x: Seq<char>| #[trigger] seen@.contains_key(x) <==> job_ids(p.jobs@.take(k as int)).contains(x),
    ensures
        recipe_outcome(r, plan_job_fault(*p, k as int)),
{
    let j = &p.jobs[k];
    let id_chars = chars_of(j.id.as_str());
    if !valid_dotted_identifier(j.id.as_str()) || !valid_identifier(j.source_id.as_str()) || !valid_identifier(
        j.variant_id.as_str(),
    ) || seen.contains(id_chars.as_slice()) || !has_source_id(&p.sources, j.source_id.as_str()) {
        let mut msg = String::new();
        push_str(&mut msg, "invalid job identity ");
        push_str(&mut msg, j.id.as_str());
        proof {
            assert(msg@ =~= "invalid job identity "@ + j.id@);
        }
        return Err(AssetError::InvalidRecipe(msg));
    }
    let expected_id = concat3(j.source_id.as_str(), ".", j.variant_id.as_str());
    if !str_eq(j.id.as_str(), expected_id.as_str()) {
        let mut msg = String::new();
        push_str(&mut msg, "job ");
        push_str(&mut msg, j.id.as_str());
        push_str(&mut msg, " identity does not match its source");
        proof {
            assert(msg@ =~= "job "@ + j.id@ + " identity does not match its source"@);
        }
        return Err(AssetError::InvalidRecipe(msg));
    }
    match validate_relative_path(j.staging_path.as_str()) {
        Ok(_) => {},
        Err(e) => {
            return Err(e);
        },
    }
    let mut stage = String::new();
    push_str(&mut stage, ".pliego-assets/stage/");
    push_str(&mut stage, j.id.as_str());
    push_str(&mut stage, ".");
    push_str(&mut stage, j.format.extension());
    proof {
        assert(stage@ =~= ".pliego-assets/stage/"@ + j.id@ + "."@ + format_extension(j.format));
    }
    if !str_eq(j.staging_path.as_str(), stage.as_str()) {
        let mut msg = String::new();
        push_str(&mut msg, "job ");
        push_str(&mut msg, j.id.as_str());
        push_str(&mut msg, " has a forged staging path");
        proof {
            assert(msg@ =~= "job "@ + j.id@ + " has a forged staging path"@);
        }
        return Err(AssetError::InvalidRecipe(msg));
    }
    if !all_pinned(&j.required_toolchains, &p.toolchains) {
        let mut msg = String::new();
        push_str(&mut msg, "job ");
        push_str(&mut msg, j.id.as_str());
        push_str(&mut msg, " requires an unpinned toolchain");
        proof {
            assert(msg@ =~= "job "@ + j.id@ + " requires an unpinned toolchain"@);
        }
        return Err(AssetError::InvalidRecipe(msg));
    }
    let a = validate_policy(&j.policy, operation_family(&j.operation));
    if a.is_err() {
        return a;
    }
    validate_job_contract(j)
}

fn check_plan_jobs(p: &AdaptivePlan) -> (r: Result<(), AssetError>)
    ensures
        recipe_outcome(r, first_some(Seq::new(p.jobs@.len(), |k: int| plan_job_fault(*p, k)))),
{
    let ghost checks = Seq::new(p.jobs@.len(), |k: int| plan_job_fault(*p, k));
    let mut seen: TextMap<()> = TextMap::new();
    let mut i: usize = 0;
    while i < p.jobs.len()
        invariant
            checks == Seq::new(p.jobs@.len(), |k: int| plan_job_fault(*p, k)),
            i <= p.jobs.len(),
            seen.wf(),
            forall|x: Seq<char>| #[trigger] seen@.contains_key(x) <==> job_ids(p.jobs@.take(i as int)).contains(x),
            forall|k: int| 0 <= k < i ==> (#[trigger] checks[k]) is None,
        decreases p.jobs.len() - i,
    {
        match check_plan_job(p, i, &seen) {
            Ok(()) => {},
            Err(e) => {
                proof {
                    lemma_first_some_at(checks, i as int);
                }
                return Err(e);
            },
        }
        assert(checks[i as int] is None);
        let ghost id = p.jobs@[i as int].id@;
        assert(!job_ids(p.jobs@.take(i as int)).contains(id));
        let key = chars_of(p.jobs[i].id.as_str());
        seen.insert_new(key, ());
        proof {
            let now = job_ids(p.jobs@.take(i + 1));
            let was = job_ids(p.jobs@.take(i as int));
            assert(now =~= was.push(id));
            assert forall|x: Seq<char>| #[trigger] seen@.contains_key(x) <==> now.contains(x) by {
                if now.contains(x) && x != id {
                    let q = choose|q: int| 0 <= q < now.len() && now[q] == x;
                    assert(was[q] == x);
                }
                if was.contains(x) {
                    let q = choose|q: int| 0 <= q < was.len() && was[q] == x;
                    assert(now[q] == x);
                }
                if x == id {
                    assert(now[i as int] == x);
                }
            }
        }
        i = i + 1;
    }
    proof {
        lemma_first_some_none(checks);
    }
    Ok(())
}

/// Checks a plan before any job runs or any artifact is published: version,
/// digest, pins, profiles, bounds, sources, and every job's identity, staging
/// path, toolchains, policy and contract.
pub fn validate_plan(plan: &AdaptivePlan) -> (r: Result<(), AssetError>)
    ensures
        recipe_outcome(r, plan_fault(*plan)),
{
    if !str_eq(plan.schema.as_str(), ADAPTIVE_PLAN_SCHEMA) || !str_eq(plan.plan_version.as_str(), ADAPTIVE_PLAN_VERSION) {
        return Err(AssetError::InvalidRecipe("unsupported adaptive plan version".to_owned()));
    }
    if !valid_sha256(plan.recipe_sha256.as_str()) {
        return Err(AssetError::InvalidRecipe("plan recipeSha256 must be 64 hexadecimal characters".to_owned()));
    }
    let a = validate_toolchains(&plan.toolchains);
    if a.is_err() {
        return a;
    }
    let b = validate_profiles(&plan.budget_profiles);
    if b.is_err() {
        return b;
    }
    if plan.sources.len() == 0 || plan.sources.len() > MAX_ASSETS || plan.jobs.len() > MAX_JOBS {
        return Err(AssetError::InvalidRecipe("plan size is outside supported bounds".to_owned()));
    }
    let c = check_plan_sources(&plan.sources);
    if c.is_err() {
        return c;
    }
    if has_duplicate_source(&plan.sources) {
        return Err(AssetError::InvalidRecipe("plan contains duplicate sources".to_owned()));
    }
    check_plan_jobs(plan)
}

pub proof fn lemma_insert_to_multiset<T>(s: Seq<T>, i: int, x: T)
    requires
        0 <= i <= s.len(),
    ensures
        s.insert(i, x).to_multiset() =~= s.to_multiset().insert(x),
{
    broadcast use vstd::seq_lib::group_to_multiset_ensures;
    broadcast use vstd::multiset::group_multiset_axioms;

    let t = s.insert(i, x);
    assert(t.remove(i) =~= s);
    assert(t[i] == x);
    assert(t.contains(x));
    assert(s.to_multiset() =~= t.to_multiset().remove(x));
}

/// Sorted by id, ties kept in arrival order.
pub open spec fn sources_sorted(v: Seq<PlanSource>) -> bool {
    forall|a: int, b: int| 0 <= a < b < v.len() ==> !seq_lt(#[trigger] v[b].id@, #[trigger] v[a].id@)
}

/// The sources ordered by id.
pub fn sort_sources(input: Vec<PlanSource>) -> (out: Vec<PlanSource>)
    ensures
        out@.to_multiset() == input@.to_multiset(),
        sources_sorted(out@),
{
    let ghost all = input@;
    let mut rest = input;
    let mut out: Vec<PlanSource> = Vec::new();
    proof {
        broadcast use vstd::seq_lib::group_to_multiset_ensures;
        assert(all.take(all.len() as int) =~= all);
        assert(all.skip(all.len() as int) =~= out@);
    }
    while rest.len() > 0
        invariant
            rest@ == all.take(rest.len() as int),
            rest.len() <= all.len(),
            out@.to_multiset() == all.skip(rest.len() as int).to_multiset(),
            sources_sorted(out@),
        decreases rest.len(),
    {
        let ghost n = rest.len() as int;
        let x = rest.pop().unwrap();
        proof {
            assert(x == all[n - 1]);
            assert(rest@ =~= all.take(n - 1));
            assert(all.skip(n - 1) =~= all.skip(n).insert(0, x));
            lemma_insert_to_multiset(all.skip(n), 0, x);
        }
        let mut pos: usize = 0;
        while pos < out.len() && !str_lt(x.id.as_str(), out[pos].id.as_str())
            invariant
                pos <= out.len(),
                forall|k: int| 0 <= k < pos ==> !seq_lt(x.id@, #[trigger] out@[k].id@),
            decreases out.len() - pos,
        {
            pos = pos + 1;
        }
        let ghost before = out@;
        out.insert(pos, x);
        proof {
            lemma_insert_to_multiset(before, pos as int, x);
            assert forall|a: int, b: int| 0 <= a < b < out@.len() implies !seq_lt(
                #[trigger] out@[b].id@,
                #[trigger] out@[a].id@,
            ) by {
                if b == pos {
                    assert(out@[a] == before[a]);
                } else if a == pos {
                    assert(out@[b] == before[b - 1]);
                    assert(seq_lt(x.id@, before[pos as int].id@));
                    if seq_lt(before[b - 1].id@, x.id@) {
                        lemma_seq_lt_transitive(before[b - 1].id@, x.id@, before[pos as int].id@);
                    }
                } else {
                    let a0 = if a < pos {
                        a
                    } else {
                        a - 1
                    };
                    let b0 = if b < pos {
                        b
                    } else {
                        b - 1
                    };
                    assert(out@[a] == before[a0]);
                    assert(out@[b] == before[b0]);
                }
            }
        }
    }
    proof {
        assert(all.skip(0) =~= all);
    }
    out
}

/// Declaration order of toolchains, which their derived `Ord` follows.
pub open spec fn toolchain_rank(t: Toolchain) -> int {
    match t {
        Toolchain::Ffmpeg => 0,
        Toolchain::Fonttools => 1,
        Toolchain::Blender => 2,
        Toolchain::GltfTransform => 3,
        Toolchain::Ktx2Encoder => 4,
    }
}

fn toolchain_order(t: Toolchain) -> (n: u8)
    ensures
        n == toolchain_rank(t),
{
    match t {
        Toolchain::Ffmpeg => 0,
        Toolchain::Fonttools => 1,
        Toolchain::Blender => 2,
        Toolchain::GltfTransform => 3,
        Toolchain::Ktx2Encoder => 4,
    }
}

/// Declaration order of tiers, which their derived `Ord` follows.
pub open spec fn tier_rank(t: Tier) -> int {
    match t {
        Tier::Universal => 0,
        Tier::Lite => 1,
        Tier::Balanced => 2,
        Tier::Signature => 3,
    }
}

fn tier_order(t: Tier) -> (n: u8)
    ensures
        n == tier_rank(t),
{
    match t {
        Tier::Universal => 0,
        Tier::Lite => 1,
        Tier::Balanced => 2,
        Tier::Signature => 3,
    }
}

/// Jobs sorted by id.
pub open spec fn jobs_sorted(v: Seq<AssetJob>) -> bool {
    forall|a: int, b: int| 0 <= a < b < v.len() ==> !seq_lt(#[trigger] v[b].id@, #[trigger] v[a].id@)
}

/// The jobs ordered by id.
pub fn sort_jobs(input: Vec<AssetJob>) -> (out: Vec<AssetJob>)
    ensures
        out@.to_multiset() == input@.to_multiset(),
        jobs_sorted(out@),
{
    let ghost all = input@;
    let mut rest = input;
    let mut out: Vec<AssetJob> = Vec::new();
    proof {
        broadcast use vstd::seq_lib::group_to_multiset_ensures;
        assert(all.take(all.len() as int) =~= all);
        assert(all.skip(all.len() as int) =~= out@);
    }
    while rest.len() > 0
        invariant
            rest@ == all.take(rest.len() as int),
            rest.len() <= all.len(),
            out@.to_multiset() == all.skip(rest.len() as int).to_multiset(),
            jobs_sorted(out@),
        decreases rest.len(),
    {
        let ghost n = rest.len() as int;
        let x = rest.pop().unwrap();
        proof {
            assert(x == all[n - 1]);
            assert(rest@ =~= all.take(n - 1));
            assert(all.skip(n - 1) =~= all.skip(n).insert(0, x));
            lemma_insert_to_multiset(all.skip(n), 0, x);
        }
        let mut pos: usize = 0;
        while pos < out.len() && !str_lt(x.id.as_str(), out[pos].id.as_str())
            invariant
                pos <= out.len(),
                forall|k: int| 0 <= k < pos ==> !seq_lt(x.id@, #[trigger] out@[k].id@),
            decreases out.len() - pos,
        {
            pos = pos + 1;
        }
        let ghost before = out@;
        out.insert(pos, x);
        proof {
            lemma_insert_to_multiset(before, pos as int, x);
            assert forall|a: int, b: int| 0 <= a < b < out@.len() implies !seq_lt(
                #[trigger] out@[b].id@,
                #[trigger] out@[a].id@,
            ) by {
                if b == pos {
                    assert(out@[a] == before[a]);
                } else if a == pos {
                    assert(out@[b] == before[b - 1]);
                    assert(seq_lt(x.id@, before[pos as int].id@));
                    if seq_lt(before[b - 1].id@, x.id@) {
                        lemma_seq_lt_transitive(before[b - 1].id@, x.id@, before[pos as int].id@);
                    }
                } else {
                    let a0 = if a < pos {
                        a
                    } else {
                        a - 1
                    };
                    let b0 = if b < pos {
                        b
                    } else {
                        b - 1
                    };
                    assert(out@[a] == before[a0]);
                    assert(out@[b] == before[b0]);
                }
            }
        }
    }
    proof {
        assert(all.skip(0) =~= all);
    }
    out
}

/// Pins sorted by toolchain.
pub open spec fn pins_sorted(v: Seq<ToolchainPin>) -> bool {
    forall|a: int, b: int| 0 <= a < b < v.len() ==> !(toolchain_rank(#[trigger] v[b].name) < toolchain_rank(#[trigger] v[a].name))
}

/// The pins ordered by toolchain.
pub fn sort_pins(input: Vec<ToolchainPin>) -> (out: Vec<ToolchainPin>)
    ensures
        out@.to_multiset() == input@.to_multiset(),
        pins_sorted(out@),
{
    let ghost all = input@;
    let mut rest = input;
    let mut out: Vec<ToolchainPin> = Vec::new();
    proof {
        broadcast use vstd::seq_lib::group_to_multiset_ensures;
        assert(all.take(all.len() as int) =~= all);
        assert(all.skip(all.len() as int) =~= out@);
    }
    while rest.len() > 0
        invariant
            rest@ == all.take(rest.len() as int),
            rest.len() <= all.len(),
            out@.to_multiset() == all.skip(rest.len() as int).to_multiset(),
            pins_sorted(out@),
        decreases rest.len(),
    {
        let ghost n = rest.len() as int;
        let x = rest.pop().unwrap();
        proof {
            assert(x == all[n - 1]);
            assert(rest@ =~= all.take(n - 1));
            assert(all.skip(n - 1) =~= all.skip(n).insert(0, x));
            lemma_insert_to_multiset(all.skip(n), 0, x);
        }
        let mut pos: usize = 0;
        while pos < out.len() && !(toolchain_order(x.name) < toolchain_order(out[pos].name))
            invariant
                pos <= out.len(),
                forall|k: int| 0 <= k < pos ==> !(toolchain_rank(x.name) < toolchain_rank(#[trigger] out@[k].name)),
            decreases out.len() - pos,
        {
            pos = pos + 1;
        }
        let ghost before = out@;
        out.insert(pos, x);
        proof {
            lemma_insert_to_multiset(before, pos as int, x);
            assert forall|a: int, b: int| 0 <= a < b < out@.len() implies !(toolchain_rank(#[trigger] out@[b].name)
                < toolchain_rank(#[trigger] out@[a].name)) by {
                if b == pos {
                    assert(out@[a] == before[a]);
                } else if a == pos {
                    assert(out@[b] == before[b - 1]);
                    assert(toolchain_rank(x.name) < toolchain_rank(before[pos as int].name));
                } else {
                    let a0 = if a < pos {
                        a
                    } else {
                        a - 1
                    };
                    let b0 = if b < pos {
                        b
                    } else {
                        b - 1
                    };
                    assert(out@[a] == before[a0]);
                    assert(out@[b] == before[b0]);
                }
            }
        }
    }
    proof {
        assert(all.skip(0) =~= all);
    }
    out
}

/// Tier budgets sorted by tier.
pub open spec fn tiers_sorted(v: Seq<TierBudget>) -> bool {
    forall|a: int, b: int| 0 <= a < b < v.len() ==> !(tier_rank(#[trigger] v[b].tier) < tier_rank(#[trigger] v[a].tier))
}

/// The tier budgets ordered by tier.
pub fn sort_tier_budgets(input: Vec<TierBudget>) -> (out: Vec<TierBudget>)
    ensures
        out@.to_multiset() == input@.to_multiset(),
        tiers_sorted(out@),
{
    let ghost all = input@;
    let mut rest = input;
    let mut out: Vec<TierBudget> = Vec::new();
    proof {
        broadcast use vstd::seq_lib::group_to_multiset_ensures;
        assert(all.take(all.len() as int) =~= all);
        assert(all.skip(all.len() as int) =~= out@);
    }
    while rest.len() > 0
        invariant
            rest@ == all.take(rest.len() as int),
            rest.len() <= all.len(),
            out@.to_multiset() == all.skip(rest.len() as int).to_multiset(),
            tiers_sorted(out@),
        decreases rest.len(),
    {
        let ghost n = rest.len() as int;
        let x = rest.pop().unwrap();
        proof {
            assert(x == all[n - 1]);
            assert(rest@ =~= all.take(n - 1));
            assert(all.skip(n - 1) =~= all.skip(n).insert(0, x));
            lemma_insert_to_multiset(all.skip(n), 0, x);
        }
        let mut pos: usize = 0;
        while pos < out.len() && !(tier_order(x.tier) < tier_order(out[pos].tier))
            invariant
                pos <= out.len(),
                forall|k: int| 0 <= k < pos ==> !(tier_rank(x.tier) < tier_rank(#[trigger] out@[k].tier)),
            decreases out.len() - pos,
        {
            pos = pos + 1;
        }
        let ghost before = out@;
        out.insert(pos, x);
        proof {
            lemma_insert_to_multiset(before, pos as int, x);
            assert forall|a: int, b: int| 0 <= a < b < out@.len() implies !(tier_rank(#[trigger] out@[b].tier)
                < tier_rank(#[trigger] out@[a].tier)) by {
                if b == pos {
                    assert(out@[a] == before[a]);
                } else if a == pos {
                    assert(out@[b] == before[b - 1]);
                    assert(tier_rank(x.tier) < tier_rank(before[pos as int].tier));
                } else {
                    let a0 = if a < pos {
                        a
                    } else {
                        a - 1
                    };
                    let b0 = if b < pos {
                        b
                    } else {
                        b - 1
                    };
                    assert(out@[a] == before[a0]);
                    assert(out@[b] == before[b0]);
                }
            }
        }
    }
    proof {
        assert(all.skip(0) =~= all);
    }
    out
}

/// Profiles sorted by id.
pub open spec fn profiles_sorted(v: Seq<DeviceBudgetProfile>) -> bool {
    forall|a: int, b: int| 0 <= a < b < v.len() ==> !seq_lt(#[trigger] v[b].id@, #[trigger] v[a].id@)
}

/// The profiles ordered by id.
pub fn sort_profiles_by_id(input: Vec<DeviceBudgetProfile>) -> (out: Vec<DeviceBudgetProfile>)
    ensures
        out@.to_multiset() == input@.to_multiset(),
        profiles_sorted(out@),
{
    let ghost all = input@;
    let mut rest = input;
    let mut out: Vec<DeviceBudgetProfile> = Vec::new();
    proof {
        broadcast use vstd::seq_lib::group_to_multiset_ensures;
        assert(all.take(all.len() as int) =~= all);
        assert(all.skip(all.len() as int) =~= out@);
    }
    while rest.len() > 0
        invariant
            rest@ == all.take(rest.len() as int),
            rest.len() <= all.len(),
            out@.to_multiset() == all.skip(rest.len() as int).to_multiset(),
            profiles_sorted(out@),
        decreases rest.len(),
    {
        let ghost n = rest.len() as int;
        let x = rest.pop().unwrap();
        proof {
            assert(x == all[n - 1]);
            assert(rest@ =~= all.take(n - 1));
            assert(all.skip(n - 1) =~= all.skip(n).insert(0, x));
            lemma_insert_to_multiset(all.skip(n), 0, x);
        }
        let mut pos: usize = 0;
        while pos < out.len() && !str_lt(x.id.as_str(), out[pos].id.as_str())
            invariant
                pos <= out.len(),
                forall|k: int| 0 <= k < pos ==> !seq_lt(x.id@, #[trigger] out@[k].id@),
            decreases out.len() - pos,
        {
            pos = pos + 1;
        }
        let ghost before = out@;
        out.insert(pos, x);
        proof {
            lemma_insert_to_multiset(before, pos as int, x);
            assert forall|a: int, b: int| 0 <= a < b < out@.len() implies !seq_lt(
                #[trigger] out@[b].id@,
                #[trigger] out@[a].id@,
            ) by {
                if b == pos {
                    assert(out@[a] == before[a]);
                } else if a == pos {
                    assert(out@[b] == before[b - 1]);
                    assert(seq_lt(x.id@, before[pos as int].id@));
                    if seq_lt(before[b - 1].id@, x.id@) {
                        lemma_seq_lt_transitive(before[b - 1].id@, x.id@, before[pos as int].id@);
                    }
                } else {
                    let a0 = if a < pos {
                        a
                    } else {
                        a - 1
                    };
                    let b0 = if b < pos {
                        b
                    } else {
                        b - 1
                    };
                    assert(out@[a] == before[a0]);
                    assert(out@[b] == before[b0]);
                }
            }
        }
    }
    proof {
        assert(all.skip(0) =~= all);
    }
    out
}

/// `b` is profile `a` with its tier budgets ordered by tier.
pub open spec fn tiers_normalized(a: DeviceBudgetProfile, b: DeviceBudgetProfile) -> bool {
    &&& b.id@ == a.id@
    &&& b.device == a.device
    &&& b.tiers@.to_multiset() == a.tiers@.to_multiset()
    &&& tiers_sorted(b.tiers@)
}

/// Budget profiles as a plan records them: each profile's tiers ordered by
/// tier, and the profiles ordered by id.
pub open spec fn profiles_normalized(input: Seq<DeviceBudgetProfile>, out: Seq<DeviceBudgetProfile>) -> bool {
    &&& profiles_sorted(out)
    &&& exists|mid: Seq<DeviceBudgetProfile>|
        mid.len() == input.len() && (forall|k: int| 0 <= k < input.len() ==> tiers_normalized(input[k], #[trigger] mid[k]))
            && out.to_multiset() == mid.to_multiset()
}

/// Orders each profile's tier budgets by tier, then the profiles by id.
pub fn normalize_profiles(input: Vec<DeviceBudgetProfile>) -> (out: Vec<DeviceBudgetProfile>)
    ensures
        profiles_normalized(input@, out@),
{
    let ghost all = input@;
    let mut rest = input;
    let mut mid: Vec<DeviceBudgetProfile> = Vec::new();
    while rest.len() > 0
        invariant
            mid@.len() + rest@.len() == all.len(),
            rest@ == all.skip(mid@.len() as int),
            forall|k: int| 0 <= k < mid@.len() ==> tiers_normalized(all[k], #[trigger] mid@[k]),
        decreases rest.len(),
    {
        let ghost n = mid@.len() as int;
        let p = rest.remove(0);
        proof {
            assert(p == all[n]);
            assert(rest@ =~= all.skip(n + 1));
        }
        let DeviceBudgetProfile { id, device, tiers } = p;
        let sorted = sort_tier_budgets(tiers);
        let ghost before = mid@;
        mid.push(DeviceBudgetProfile { id, device, tiers: sorted });
        proof {
            assert forall|k: int| 0 <= k < mid@.len() implies tiers_normalized(all[k], #[trigger] mid@[k]) by {
                if k < n {
                    assert(mid@[k] == before[k]);
                }
            }
        }
    }
    let ghost m = mid@;
    let out = sort_profiles_by_id(mid);
    proof {
        assert(m.len() == all.len() && (forall|k: int| 0 <= k < all.len() ==> tiers_normalized(all[k], #[trigger] m[k]))
            && out@.to_multiset() == m.to_multiset());
    }
    out
}

/// What planning has gathered so far: one source per asset read, the jobs of
/// those assets, and the running total of source bytes.
pub struct PlanDraft {
    pub sources: Vec<PlanSource>,
    pub jobs: Vec<AssetJob>,
    pub total_source_bytes: u64,
}

pub const MAX_RECIPE_SOURCE_BYTES: u64 = 8 * 1024 * 1024 * 1024;

/// The message refusing a measured source, if any: its size, then the
/// running total.
pub open spec fn source_size_fault(id: Seq<char>, total: u64, bytes: u64) -> Option<Seq<char>> {
    if bytes == 0 || bytes > MAX_SOURCE_BYTES {
        Some("asset "@ + id + " source bytes must be in 1..=2147483648"@)
    } else if total + bytes > u64::MAX {
        Some("source byte total overflow"@)
    } else if total + bytes > MAX_RECIPE_SOURCE_BYTES {
        Some("recipe sources exceed 8589934592 bytes"@)
    } else {
        None
    }
}

impl PlanDraft {
    pub fn new() -> (d: PlanDraft)
        ensures
            d.sources@.len() == 0,
            d.jobs@.len() == 0,
            d.total_source_bytes == 0,
    {
        PlanDraft { sources: Vec::new(), jobs: Vec::new(), total_source_bytes: 0 }
    }

    /// Records an asset whose source was read: `path` is its normalized
    /// relative path, `source` its bytes, whose size and SHA-256 are
    /// recorded. Checks the size and the running total, records the source,
    /// and expands the asset's outputs into jobs, within the job ceiling.
    pub fn add_source(&mut self, asset: &AssetRecipe, path: String, source: &[u8]) -> (r: Result<(), AssetError>)
        ensures
            match source_size_fault(asset.id@, old(self).total_source_bytes, source@.len() as u64) {
                Some(m) => r matches Err(AssetError::InvalidRecipe(e)) && e@ == m,
                None => {
                    &&& final(self).total_source_bytes == old(self).total_source_bytes + source@.len() as u64
                    &&& final(self).sources@.len() == old(self).sources@.len() + 1
                    &&& final(self).sources@.take(old(self).sources@.len() as int) == old(self).sources@
                    &&& final(self).sources@.last().id@ == asset.id@
                    &&& final(self).sources@.last().path@ == path@
                    &&& final(self).sources@.last().sha256@ == sha256_hex(source@)
                    &&& final(self).sources@.last().bytes == source@.len() as u64
                    &&& match first_some(
                        Seq::new(output_count(asset.transform), |k: int| estimate_fault(asset.transform, k)),
                    ) {
                        Some(m) => r matches Err(AssetError::InvalidRecipe(e)) && e@ == m,
                        None => {
                            &&& appended(
                                old(self).jobs@,
                                final(self).jobs@,
                                *asset,
                                output_count(asset.transform) as int,
                            )
                            &&& if final(self).jobs@.len() > MAX_JOBS {
                                r matches Err(AssetError::InvalidRecipe(e)) && e@
                                    == "recipe exceeds 4096 output jobs"@
                            } else {
                                r is Ok
                            }
                        },
                    }
                },
            },
    {
        let bytes = source.len() as u64;
        let sha256 = sha256_bytes(source);
        self.add_measured_source(asset, path, bytes, sha256)
    }

    fn add_measured_source(&mut self, asset: &AssetRecipe, path: String, bytes: u64, sha256: String) -> (r: Result<
        (),
        AssetError,
    >)
        ensures
            match source_size_fault(asset.id@, old(self).total_source_bytes, bytes) {
                Some(m) => r matches Err(AssetError::InvalidRecipe(e)) && e@ == m,
                None => {
                    &&& final(self).total_source_bytes == old(self).total_source_bytes + bytes
                    &&& final(self).sources@.len() == old(self).sources@.len() + 1
                    &&& final(self).sources@.take(old(self).sources@.len() as int) == old(self).sources@
                    &&& final(self).sources@.last().id@ == asset.id@
                    &&& final(self).sources@.last().path@ == path@
                    &&& final(self).sources@.last().sha256@ == sha256@
                    &&& final(self).sources@.last().bytes == bytes
                    &&& match first_some(
                        Seq::new(output_count(asset.transform), |k: int| estimate_fault(asset.transform, k)),
                    ) {
                        Some(m) => r matches Err(AssetError::InvalidRecipe(e)) && e@ == m,
                        None => {
                            &&& appended(
                                old(self).jobs@,
                                final(self).jobs@,
                                *asset,
                                output_count(asset.transform) as int,
                            )
                            &&& if final(self).jobs@.len() > MAX_JOBS {
                                r matches Err(AssetError::InvalidRecipe(e)) && e@
                                    == "recipe exceeds 4096 output jobs"@
                            } else {
                                r is Ok
                            }
                        },
                    }
                },
            },
    {
        if bytes == 0 || bytes > MAX_SOURCE_BYTES {
            let mut msg = String::new();
            push_str(&mut msg, "asset ");
            push_str(&mut msg, asset.id.as_str());
            push_str(&mut msg, " source bytes must be in 1..=2147483648");
            proof {
                assert(msg@ =~= "asset "@ + asset.id@ + " source bytes must be in 1..=2147483648"@);
            }
            return Err(AssetError::InvalidRecipe(msg));
        }
        let total = match self.total_source_bytes.checked_add(bytes) {
            Some(t) => t,
            None => {
                return Err(AssetError::InvalidRecipe("source byte total overflow".to_owned()));
            },
        };
        if total > MAX_RECIPE_SOURCE_BYTES {
            return Err(AssetError::InvalidRecipe("recipe sources exceed 8589934592 bytes".to_owned()));
        }
        self.total_source_bytes = total;
        let ghost before = self.sources@;
        self.sources.push(PlanSource { id: asset.id.clone(), path, sha256, bytes });
        proof {
            assert(self.sources@.take(before.len() as int) =~= before);
        }
        let a = append_jobs(asset, &mut self.jobs);
        if a.is_err() {
            return a;
        }
        if self.jobs.len() > MAX_JOBS {
            return Err(AssetError::InvalidRecipe("recipe exceeds 4096 output jobs".to_owned()));
        }
        Ok(())
    }
}

/// The digest a plan records of its recipe's JSON.
pub fn recipe_digest(recipe: &[u8]) -> (s: String)
    ensures
        s@ == sha256_hex(recipe@),
        sha_ok(s@),
{
    sha256_bytes(recipe)
}

/// `p` is the plan that a draft, the recipe's pins and profiles, and the
/// recipe digest make: sources and jobs ordered by id, pins by toolchain,
/// profiles normalized.
pub open spec fn drafted_plan(
    p: AdaptivePlan,
    sources: Seq<PlanSource>,
    jobs: Seq<AssetJob>,
    toolchains: Seq<ToolchainPin>,
    profiles: Seq<DeviceBudgetProfile>,
    recipe_sha256: Seq<char>,
) -> bool {
    &&& p.schema@ == ADAPTIVE_PLAN_SCHEMA@
    &&& p.plan_version@ == ADAPTIVE_PLAN_VERSION@
    &&& p.recipe_sha256@ == recipe_sha256
    &&& p.sources@.to_multiset() == sources.to_multiset()
    &&& sources_sorted(p.sources@)
    &&& p.jobs@.to_multiset() == jobs.to_multiset()
    &&& jobs_sorted(p.jobs@)
    &&& p.toolchains@.to_multiset() == toolchains.to_multiset()
    &&& pins_sorted(p.toolchains@)
    &&& profiles_normalized(profiles, p.budget_profiles@)
}

impl PlanDraft {
    /// Orders what was gathered, assembles the plan under the digest of
    /// `recipe_json`, the recipe's JSON, and checks it.
    pub fn finish(
        self,
        toolchains: Vec<ToolchainPin>,
        budget_profiles: Vec<DeviceBudgetProfile>,
        recipe_json: &[u8],
    ) -> (r: Result<AdaptivePlan, AssetError>)
        ensures
            match r {
                Ok(p) => drafted_plan(
                    p,
                    self.sources@,
                    self.jobs@,
                    toolchains@,
                    budget_profiles@,
                    sha256_hex(recipe_json@),
                ) && plan_fault(p) is None,
                Err(e) => exists|p: AdaptivePlan|
                    drafted_plan(p, self.sources@, self.jobs@, toolchains@, budget_profiles@, sha256_hex(recipe_json@))
                        && #[trigger] plan_fault(p) is Some && (e matches AssetError::InvalidRecipe(m) && Some(
                        m@,
                    ) == plan_fault(p)),
            },
    {
        let recipe_sha256 = recipe_digest(recipe_json);
        let PlanDraft { sources, jobs, total_source_bytes: _ } = self;
        let plan = AdaptivePlan {
            schema: ADAPTIVE_PLAN_SCHEMA.to_owned(),
            plan_version: ADAPTIVE_PLAN_VERSION.to_owned(),
            recipe_sha256,
            toolchains: sort_pins(toolchains),
            budget_profiles: normalize_profiles(budget_profiles),
            sources: sort_sources(sources),
            jobs: sort_jobs(jobs),
        };
        match validate_plan(&plan) {
            Ok(()) => Ok(plan),
            Err(e) => Err(e),
        }
    }
}

} // verus!
