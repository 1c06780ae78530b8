//! Adaptive asset plans: load policies, job contracts, delivery and budgets.
use vstd::prelude::*;
use crate::text::{chars_of, concat2, concat3, push_str, starts_with, starts_with_chars, utf8_len, utf8_len_of};
use crate::raster::{AssetError, identifier_ok, valid_identifier};

verus! {

broadcast use vstd::string::group_string_axioms;

pub const ADAPTIVE_RECIPE_VERSION: &'static str = "1.0.0";
pub const ADAPTIVE_PLAN_VERSION: &'static str = "1.0.0";
pub const ADAPTIVE_MANIFEST_VERSION: &'static str = "1.0.0";
pub const MAX_ASSETS: usize = 512;
pub const MAX_JOBS: usize = 4096;
pub const MAX_SOURCE_BYTES: u64 = 2 * 1024 * 1024 * 1024;
pub const MAX_RECIPE_ARTIFACT_BYTES: u64 = 8 * 1024 * 1024 * 1024;

#[derive(Clone, Copy, Debug, Eq, Ord, PartialEq, PartialOrd, Structural)]
pub enum Tier {
    Universal,
    Lite,
    Balanced,
    Signature,
}

#[derive(Clone, Copy, Debug, Eq, Ord, PartialEq, PartialOrd, Structural)]
pub enum Delivery {
    Initial,
    Deferred,
    OnDemand,
}

#[derive(Clone, Copy, Debug, Eq, PartialEq, Structural)]
pub enum FetchPriority {
    High,
    Auto,
    Low,
}

#[derive(Clone, Copy, Debug, Eq, PartialEq, Structural)]
pub enum MotionPolicy {
    Static,
    SuppressWhenReduced,
}

/// When and for which tiers an output is fetched; `tiers` is a set.
#[derive(Clone, Debug)]
pub struct LoadPolicy {
    pub tiers: Vec<Tier>,
    pub delivery: Delivery,
    pub preload: bool,
    pub fetch_priority: FetchPriority,
    pub motion: MotionPolicy,
}

#[derive(Clone, Copy, Debug, Eq, Ord, PartialEq, PartialOrd, Structural)]
pub enum Toolchain {
    Ffmpeg,
    Fonttools,
    Blender,
    GltfTransform,
    Ktx2Encoder,
}

#[derive(Clone, Debug)]
pub struct ToolchainPin {
    pub name: Toolchain,
    pub version: String,
    pub integrity: Option<String>,
}

#[derive(Clone, Copy, Debug, Eq, PartialEq, Structural)]
pub enum DeviceClass {
    ModestMobile,
    Tablet,
    Desktop,
}

#[derive(Clone, Copy, Debug, Eq, PartialEq, Structural)]
pub struct TierBudget {
    pub tier: Tier,
    pub max_initial_bytes: u64,
    pub max_deferred_bytes: u64,
    pub max_on_demand_bytes: u64,
    pub max_decoded_bytes: u64,
    pub max_triangles: u64,
    pub max_draw_calls: u64,
    pub max_preloads: u32,
}

#[derive(Clone, Debug)]
pub struct DeviceBudgetProfile {
    pub id: String,
    pub device: DeviceClass,
    pub tiers: Vec<TierBudget>,
}

#[derive(Clone, Copy, Debug, Eq, Ord, PartialEq, PartialOrd, Structural)]
pub enum ImageFormat {
    Avif,
    Webp,
    Jpeg,
}

#[derive(Clone, Copy, Debug, Eq, Ord, PartialEq, PartialOrd, Structural)]
pub enum VideoFormat {
    Mp4H264,
    Mp4Av1,
    WebmVp9,
}

#[derive(Clone, Copy, Debug, Eq, Ord, PartialEq, PartialOrd, Structural)]
pub enum MeshCompression {
    Uncompressed,
    Meshopt,
    Draco,
}

#[derive(Clone, Copy, Debug, Eq, Ord, PartialEq, PartialOrd, Structural)]
pub enum TextureCompression {
    Ktx2Etc1s,
    Ktx2Uastc,
}

#[derive(Clone, Debug)]
pub struct ImageOutput {
    pub id: String,
    pub width: u32,
    pub height: u32,
    pub format: ImageFormat,
    pub quality: u8,
    pub policy: LoadPolicy,
}

#[derive(Clone, Debug)]
pub struct VideoOutput {
    pub id: String,
    pub width: u32,
    pub height: u32,
    pub format: VideoFormat,
    pub bitrate_kbps: u32,
    pub max_fps: u16,
    pub audio: bool,
    pub policy: LoadPolicy,
}

#[derive(Clone, Debug)]
pub struct FontOutput {
    pub id: String,
    pub glyphs: String,
    pub unicode_range: Option<String>,
    pub policy: LoadPolicy,
}

#[derive(Clone, Debug)]
pub struct SceneOutput {
    pub id: String,
    pub max_triangles: u64,
    pub max_draw_calls: u64,
    pub mesh_compression: MeshCompression,
    pub texture_compression: TextureCompression,
    pub max_texture_dimension: u32,
    pub requires_blender: bool,
    pub policy: LoadPolicy,
}

#[derive(Clone, Debug)]
pub enum TransformRecipe {
    Image { outputs: Vec<ImageOutput> },
    Video { outputs: Vec<VideoOutput> },
    Font { outputs: Vec<FontOutput> },
    Scene3d { outputs: Vec<SceneOutput> },
}

#[derive(Clone, Debug)]
pub struct AssetRecipe {
    pub id: String,
    pub input: String,
    pub transform: TransformRecipe,
}

#[derive(Clone, Debug)]
pub struct AdaptiveRecipe {
    pub schema: Option<String>,
    pub recipe_version: String,
    pub toolchains: Vec<ToolchainPin>,
    pub budget_profiles: Vec<DeviceBudgetProfile>,
    pub assets: Vec<AssetRecipe>,
}

#[derive(Clone, Debug)]
pub enum JobOperation {
    Image { width: u32, height: u32, format: ImageFormat, quality: u8 },
    Video {
        width: u32,
        height: u32,
        format: VideoFormat,
        bitrate_kbps: u32,
        max_fps: u16,
        audio: bool,
    },
    FontSubset { glyphs: String, unicode_range: Option<String> },
    Scene3d {
        max_triangles: u64,
        max_draw_calls: u64,
        mesh_compression: MeshCompression,
        texture_compression: TextureCompression,
        max_texture_dimension: u32,
        requires_blender: bool,
    },
}

#[derive(Clone, Debug)]
pub struct PlanSource {
    pub id: String,
    pub path: String,
    pub sha256: String,
    pub bytes: u64,
}

/// One external transformation; `required_toolchains` is a set.
#[derive(Clone, Debug)]
pub struct AssetJob {
    pub id: String,
    pub source_id: String,
    pub variant_id: String,
    pub staging_path: String,
    pub format: ArtifactFormat,
    pub selection_group: Option<String>,
    pub required_toolchains: Vec<Toolchain>,
    pub policy: LoadPolicy,
    pub operation: JobOperation,
    pub estimated_decoded_bytes: u64,
    pub estimated_triangles: u64,
    pub estimated_draw_calls: u64,
}

#[derive(Clone, Copy, Debug, Eq, Ord, PartialEq, PartialOrd, Structural)]
pub enum ArtifactFormat {
    Avif,
    Webp,
    Jpeg,
    Mp4,
    Webm,
    Woff2,
    Glb,
}

impl ArtifactFormat {
    pub fn extension(self) -> (s: &'static str)
        ensures
            s@ == format_extension(self),
    {
        match self {
            ArtifactFormat::Avif => "avif",
            ArtifactFormat::Webp => "webp",
            ArtifactFormat::Jpeg => "jpg",
            ArtifactFormat::Mp4 => "mp4",
            ArtifactFormat::Webm => "webm",
            ArtifactFormat::Woff2 => "woff2",
            ArtifactFormat::Glb => "glb",
        }
    }

    pub fn media_type(self) -> (s: &'static str)
        ensures
            s@ == format_media_type(self),
    {
        match self {
            ArtifactFormat::Avif => "image/avif",
            ArtifactFormat::Webp => "image/webp",
            ArtifactFormat::Jpeg => "image/jpeg",
            ArtifactFormat::Mp4 => "video/mp4",
            ArtifactFormat::Webm => "video/webm",
            ArtifactFormat::Woff2 => "font/woff2",
            ArtifactFormat::Glb => "model/gltf-binary",
        }
    }
}

pub open spec fn format_media_type(f: ArtifactFormat) -> Seq<char> {
    match f {
        ArtifactFormat::Avif => "image/avif"@,
        ArtifactFormat::Webp => "image/webp"@,
        ArtifactFormat::Jpeg => "image/jpeg"@,
        ArtifactFormat::Mp4 => "video/mp4"@,
        ArtifactFormat::Webm => "video/webm"@,
        ArtifactFormat::Woff2 => "font/woff2"@,
        ArtifactFormat::Glb => "model/gltf-binary"@,
    }
}

pub open spec fn format_extension(f: ArtifactFormat) -> Seq<char> {
    match f {
        ArtifactFormat::Avif => "avif"@,
        ArtifactFormat::Webp => "webp"@,
        ArtifactFormat::Jpeg => "jpg"@,
        ArtifactFormat::Mp4 => "mp4"@,
        ArtifactFormat::Webm => "webm"@,
        ArtifactFormat::Woff2 => "woff2"@,
        ArtifactFormat::Glb => "glb"@,
    }
}

#[derive(Clone, Debug)]
pub struct AdaptivePlan {
    pub schema: String,
    pub plan_version: String,
    pub recipe_sha256: String,
    pub toolchains: Vec<ToolchainPin>,
    pub budget_profiles: Vec<DeviceBudgetProfile>,
    pub sources: Vec<PlanSource>,
    pub jobs: Vec<AssetJob>,
}

#[derive(Clone, Debug)]
pub struct PublishedVariant {
    pub id: String,
    pub source_id: String,
    pub path: String,
    pub format: ArtifactFormat,
    pub media_type: String,
    pub selection_group: Option<String>,
    pub required_toolchains: Vec<Toolchain>,
    pub operation: JobOperation,
    pub sha256: String,
    pub bytes: u64,
    pub policy: LoadPolicy,
    pub estimated_decoded_bytes: u64,
    pub estimated_triangles: u64,
    pub estimated_draw_calls: u64,
}

#[derive(Clone, Copy, Debug, Eq, PartialEq, Structural)]
pub struct BudgetTotals {
    pub initial_bytes: u64,
    pub deferred_bytes: u64,
    pub on_demand_bytes: u64,
    pub decoded_bytes: u64,
    pub triangles: u64,
    pub draw_calls: u64,
    pub preloads: u32,
}

#[derive(Clone, Debug)]
pub struct BudgetResult {
    pub profile_id: String,
    pub tier: Tier,
    pub pass: bool,
    pub totals: BudgetTotals,
}

#[derive(Clone, Debug)]
pub struct AdaptiveManifest {
    pub schema: String,
    pub manifest_version: String,
    pub recipe_sha256: String,
    pub toolchains: Vec<ToolchainPin>,
    pub sources: Vec<PlanSource>,
    pub variants: Vec<PublishedVariant>,
    pub budget_results: Vec<BudgetResult>,
}

#[derive(Clone, Copy, Debug, Eq, PartialEq, Structural)]
pub struct RuntimeConstraints {
    pub tier: Tier,
    pub reduced_motion: bool,
    pub save_data: bool,
}

#[derive(Clone, Copy, Debug, Eq, PartialEq, Structural)]
pub enum LoadStrategy {
    Eager,
    Lazy,
    Interaction,
}

#[derive(Clone, Debug)]
pub struct DeliveryDirective {
    pub variant_id: String,
    pub path: String,
    pub media_type: String,
    pub strategy: LoadStrategy,
    pub preload: bool,
    pub fetch_priority: FetchPriority,
}

/// Whether `tiers` holds `tier`.
pub fn has_tier(tiers: &Vec<Tier>, tier: Tier) -> (b: bool)
    ensures
        b == tiers@.contains(tier),
{
    let mut i: usize = 0;
    while i < tiers.len()
        invariant
            i <= tiers.len(),
            forall|k: int| 0 <= k < i ==> tiers@[k] != tier,
        decreases tiers.len() - i,
    {
        if tiers[i] == tier {
            return true;
        }
        i = i + 1;
    }
    false
}

/// A variant that a client with these constraints loads.
pub open spec fn admitted(v: PublishedVariant, c: RuntimeConstraints) -> bool {
    &&& v.policy.tiers@.contains(c.tier)
    &&& !(c.reduced_motion && v.policy.motion == MotionPolicy::SuppressWhenReduced)
    &&& (!c.save_data || (v.policy.delivery == Delivery::Initial && v.policy.motion == MotionPolicy::Static))
}

pub open spec fn strategy_for(d: Delivery) -> LoadStrategy {
    match d {
        Delivery::Initial => LoadStrategy::Eager,
        Delivery::Deferred => LoadStrategy::Lazy,
        Delivery::OnDemand => LoadStrategy::Interaction,
    }
}

/// The abstract content of a delivery directive.
pub struct DirectiveModel {
    pub variant_id: Seq<char>,
    pub path: Seq<char>,
    pub media_type: Seq<char>,
    pub strategy: LoadStrategy,
    pub preload: bool,
    pub fetch_priority: FetchPriority,
}

pub open spec fn directive_view(d: DeliveryDirective) -> DirectiveModel {
    DirectiveModel {
        variant_id: d.variant_id@,
        path: d.path@,
        media_type: d.media_type@,
        strategy: d.strategy,
        preload: d.preload,
        fetch_priority: d.fetch_priority,
    }
}

/// The directive a client receives for an admitted variant.
pub open spec fn directive_for(v: PublishedVariant, c: RuntimeConstraints) -> Option<DirectiveModel> {
    if admitted(v, c) {
        Some(
            DirectiveModel {
                variant_id: v.id@,
                path: v.path@,
                media_type: v.media_type@,
                strategy: strategy_for(v.policy.delivery),
                preload: v.policy.preload,
                fetch_priority: v.policy.fetch_priority,
            },
        )
    } else {
        None
    }
}

impl AdaptiveManifest {
    /// The network policy for a concrete client: variants of its tier, without
    /// motion assets under reduced motion, and only static initial assets under
    /// Save-Data, in manifest order.
    pub fn delivery(&self, constraints: RuntimeConstraints) -> (out: Vec<DeliveryDirective>)
        ensures
            out@.map_values(|d: DeliveryDirective| directive_view(d)) == self.variants@.filter_map(
                |v: PublishedVariant| directive_for(v, constraints),
            ),
            out@.map_values(|d: DeliveryDirective| directive_view(d)) == directives(self.variants@, constraints),
    {
        let mut out: Vec<DeliveryDirective> = Vec::new();
        let mut i: usize = 0;
        while i < self.variants.len()
            invariant
                i <= self.variants.len(),
                out@.map_values(|d: DeliveryDirective| directive_view(d)) == self.variants@.take(
                    i as int,
                ).filter_map(|v: PublishedVariant| directive_for(v, constraints)),
            decreases self.variants.len() - i,
        {
            let v = &self.variants[i];
            let ghost before = out@;
            proof {
                assert(self.variants@.take(i + 1).drop_last() =~= self.variants@.take(i as int));
                assert(self.variants@.take(i + 1).last() == *v);
            }
            let accepted = has_tier(&v.policy.tiers, constraints.tier) && !(constraints.reduced_motion
                && v.policy.motion == MotionPolicy::SuppressWhenReduced) && (!constraints.save_data || (
            v.policy.delivery == Delivery::Initial && v.policy.motion == MotionPolicy::Static));
            if accepted {
                let strategy = match v.policy.delivery {
                    Delivery::Initial => LoadStrategy::Eager,
                    Delivery::Deferred => LoadStrategy::Lazy,
                    Delivery::OnDemand => LoadStrategy::Interaction,
                };
                out.push(
                    DeliveryDirective {
                        variant_id: v.id.clone(),
                        path: v.path.clone(),
                        media_type: v.media_type.clone(),
                        strategy,
                        preload: v.policy.preload,
                        fetch_priority: v.policy.fetch_priority,
                    },
                );
                proof {
                    assert(out@.map_values(|d: DeliveryDirective| directive_view(d)) =~= before.map_values(
                        |d: DeliveryDirective| directive_view(d),
                    ) + seq![directive_for(*v, constraints)->0]);
                }
            }
            i = i + 1;
        }
        proof {
            assert(self.variants@.take(self.variants.len() as int) =~= self.variants@);
        }
        out
    }
}

/// Whether `strict` asks for no more than `loose`: the same tier, and reduced
/// motion or Save-Data on wherever `loose` has them on.
pub open spec fn stricter(strict: RuntimeConstraints, loose: RuntimeConstraints) -> bool {
    &&& strict.tier == loose.tier
    &&& loose.reduced_motion ==> strict.reduced_motion
    &&& loose.save_data ==> strict.save_data
}

/// Turning on reduced motion or Save-Data only drops directives: what the
/// stricter client receives is what the looser one receives for the variants
/// the stricter one admits, unchanged and in the same order.
pub proof fn law_stricter_client_only_drops(
    variants: Seq<PublishedVariant>,
    strict: RuntimeConstraints,
    loose: RuntimeConstraints,
)
    requires
        stricter(strict, loose),
    ensures
        forall|v: PublishedVariant| admitted(v, strict) ==> #[trigger] admitted(v, loose),
        variants.filter_map(|v: PublishedVariant| directive_for(v, strict)) == variants.filter(
            |v: PublishedVariant| admitted(v, strict),
        ).filter_map(|v: PublishedVariant| directive_for(v, loose)),
    decreases variants.len(),
{
    let fs = |v: PublishedVariant| directive_for(v, strict);
    let fl = |v: PublishedVariant| directive_for(v, loose);
    let keep = |v: PublishedVariant| admitted(v, strict);
    reveal(Seq::filter);
    if variants.len() > 0 {
        law_stricter_client_only_drops(variants.drop_last(), strict, loose);
        let rest = variants.drop_last();
        let last = variants.last();
        if keep(last) {
            assert(variants.filter(keep) == rest.filter(keep).push(last));
            assert(rest.filter(keep).push(last).drop_last() =~= rest.filter(keep));
            assert(rest.filter(keep).push(last).last() == last);
        } else {
            assert(variants.filter(keep) == rest.filter(keep));
        }
        assert(variants.filter_map(fs) == variants.filter(keep).filter_map(fl));
    } else {
        assert(variants.filter(keep) =~= Seq::<PublishedVariant>::empty());
    }
}

/// `a` is a subsequence of `b`: `b` with some entries dropped.
pub open spec fn subsequence_of<A>(a: Seq<A>, b: Seq<A>) -> bool
    decreases b.len(),
{
    if a.len() == 0 {
        true
    } else if b.len() == 0 {
        false
    } else if a.last() == b.last() {
        subsequence_of(a.drop_last(), b.drop_last())
    } else {
        subsequence_of(a, b.drop_last())
    }
}

proof fn lemma_subsequence_drop_last<A>(a: Seq<A>, b: Seq<A>)
    requires
        a.len() > 0,
        subsequence_of(a, b),
    ensures
        subsequence_of(a.drop_last(), b),
    decreases b.len(), 0int,
{
    if b.len() > 0 {
        if a.last() == b.last() {
            lemma_subsequence_push(a.drop_last(), b.drop_last(), b.last());
            assert(b.drop_last().push(b.last()) =~= b);
        } else {
            lemma_subsequence_drop_last(a, b.drop_last());
            lemma_subsequence_push(a.drop_last(), b.drop_last(), b.last());
            assert(b.drop_last().push(b.last()) =~= b);
        }
    }
}

proof fn lemma_subsequence_push<A>(a: Seq<A>, b: Seq<A>, z: A)
    requires
        subsequence_of(a, b),
    ensures
        subsequence_of(a, b.push(z)),
    decreases b.len(), 1int,
{
    assert(b.push(z).drop_last() =~= b);
    if a.len() > 0 && a.last() == z {
        lemma_subsequence_drop_last(a, b);
    }
}

proof fn lemma_filter_map_subsequence<A, B>(xs: Seq<A>, keep: spec_fn(A) -> bool, f: spec_fn(A) -> Option<B>)
    ensures
        subsequence_of(xs.filter(keep).filter_map(f), xs.filter_map(f)),
    decreases xs.len(),
{
    reveal(Seq::filter);
    if xs.len() > 0 {
        let ys = xs.drop_last();
        let x = xs.last();
        lemma_filter_map_subsequence(ys, keep, f);
        let l = ys.filter(keep).filter_map(f);
        let r = ys.filter_map(f);
        if keep(x) {
            let fx = ys.filter(keep).push(x);
            assert(xs.filter(keep) == fx);
            assert(fx.drop_last() =~= ys.filter(keep));
            assert(fx.last() == x);
            match f(x) {
                Some(d) => {
                    assert(xs.filter_map(f) == r + seq![d]);
                    assert(fx.filter_map(f) == l + seq![d]);
                    assert((l + seq![d]).drop_last() =~= l);
                    assert((r + seq![d]).drop_last() =~= r);
                },
                None => {},
            }
        } else {
            assert(xs.filter(keep) == ys.filter(keep));
            match f(x) {
                Some(d) => {
                    lemma_subsequence_push(l, r, d);
                    assert(r.push(d) =~= r + seq![d]);
                },
                None => {},
            }
        }
    }
}

/// A stricter client's delivery is a subsequence of a looser client's:
/// turning on reduced motion or Save-Data only drops directives, never adds
/// or changes one.
pub proof fn law_stricter_delivery_is_a_subsequence(
    variants: Seq<PublishedVariant>,
    strict: RuntimeConstraints,
    loose: RuntimeConstraints,
)
    requires
        stricter(strict, loose),
    ensures
        subsequence_of(
            variants.filter_map(|v: PublishedVariant| directive_for(v, strict)),
            variants.filter_map(|v: PublishedVariant| directive_for(v, loose)),
        ),
{
    law_stricter_client_only_drops(variants, strict, loose);
    lemma_filter_map_subsequence(
        variants,
        |v: PublishedVariant| admitted(v, strict),
        |v: PublishedVariant| directive_for(v, loose),
    );
}

/// The directives a client with constraints `c` receives from `variants`.
pub open spec fn directives(variants: Seq<PublishedVariant>, c: RuntimeConstraints) -> Seq<DirectiveModel> {
    variants.filter_map(|v: PublishedVariant| directive_for(v, c))
}

/// The directive `d` is the one for variant `v`: it carries the variant's id,
/// path, media type, preload flag and fetch priority, and loads eagerly for initial delivery, lazily for deferred
/// delivery and on interaction for on-demand delivery.
pub open spec fn loads_as_delivered(d: DirectiveModel, v: PublishedVariant) -> bool {
    &&& d.variant_id == v.id@
    &&& d.path == v.path@
    &&& d.media_type == v.media_type@
    &&& d.preload == v.policy.preload
    &&& d.fetch_priority == v.policy.fetch_priority
    &&& v.policy.delivery == Delivery::Initial ==> d.strategy == LoadStrategy::Eager
    &&& v.policy.delivery == Delivery::Deferred ==> d.strategy == LoadStrategy::Lazy
    &&& v.policy.delivery == Delivery::OnDemand ==> d.strategy == LoadStrategy::Interaction
}

/// A client loads variant `v`: one of its tiers, not a motion asset the
/// client suppresses, and under Save-Data only a static initial asset.
pub open spec fn client_loads(v: PublishedVariant, c: RuntimeConstraints) -> bool {
    &&& v.policy.tiers@.contains(c.tier)
    &&& !(c.reduced_motion && v.policy.motion == MotionPolicy::SuppressWhenReduced)
    &&& (c.save_data ==> v.policy.delivery == Delivery::Initial && v.policy.motion == MotionPolicy::Static)
}

/// The variant a directive comes from.
proof fn lemma_directive_source(variants: Seq<PublishedVariant>, c: RuntimeConstraints, i: int) -> (j: int)
    requires
        0 <= i < directives(variants, c).len(),
    ensures
        0 <= j < variants.len(),
        client_loads(variants[j], c),
        loads_as_delivered(directives(variants, c)[i], variants[j]),
    decreases variants.len(),
{
    let f = |v: PublishedVariant| directive_for(v, c);
    assert(directives(variants, c) == variants.filter_map(f));
    let rest = variants.drop_last();
    let r = directives(rest, c);
    assert(r == rest.filter_map(f));
    let last = variants.last();
    let n = variants.len() - 1;
    if i < r.len() {
        let j = lemma_directive_source(rest, c, i);
        assert(directives(variants, c)[i] == r[i]);
        assert(variants[j] == rest[j]);
        j
    } else {
        assert(admitted(last, c));
        assert(directives(variants, c)[i] == directive_for(last, c)->0);
        n
    }
}

/// The directive a loaded variant gives.
proof fn lemma_directive_of(variants: Seq<PublishedVariant>, c: RuntimeConstraints, j: int) -> (i: int)
    requires
        0 <= j < variants.len(),
        client_loads(variants[j], c),
    ensures
        0 <= i < directives(variants, c).len(),
        loads_as_delivered(directives(variants, c)[i], variants[j]),
    decreases variants.len(),
{
    let f = |v: PublishedVariant| directive_for(v, c);
    assert(directives(variants, c) == variants.filter_map(f));
    let rest = variants.drop_last();
    let r = directives(rest, c);
    assert(r == rest.filter_map(f));
    let last = variants.last();
    if j < rest.len() {
        assert(variants[j] == rest[j]);
        let i = lemma_directive_of(rest, c, j);
        assert(directives(variants, c)[i] == r[i]);
        i
    } else {
        assert(admitted(last, c));
        let i = r.len() as int;
        assert(directives(variants, c)[i] == directive_for(last, c)->0);
        i
    }
}

/// Directive `d` is the one of a variant of `variants` that the client loads.
pub open spec fn from_loaded_variant(d: DirectiveModel, variants: Seq<PublishedVariant>, c: RuntimeConstraints) -> bool {
    exists|j: int| 0 <= j < variants.len() && client_loads(variants[j], c) && #[trigger] loads_as_delivered(d, variants[j])
}

/// Some directive of `ds` is the one of variant `v`.
pub open spec fn has_directive_for(ds: Seq<DirectiveModel>, v: PublishedVariant) -> bool {
    exists|i: int| 0 <= i < ds.len() && #[trigger] loads_as_delivered(ds[i], v)
}

/// What a client receives from a list of variants: every directive is the
/// one of a variant the client loads, with the strategy its delivery kind
/// calls for (eager for initial, lazy for deferred, on interaction for on
/// demand), and every variant the client loads gives a directive.
pub proof fn law_directives_follow_delivery_kind(variants: Seq<PublishedVariant>, c: RuntimeConstraints)
    ensures
        forall|i: int|
            0 <= i < directives(variants, c).len() ==> from_loaded_variant(#[trigger] directives(variants, c)[i], variants, c),
        forall|j: int|
            0 <= j < variants.len() && #[trigger] client_loads(variants[j], c) ==> has_directive_for(
                directives(variants, c),
                variants[j],
            ),
{
    assert forall|i: int| 0 <= i < directives(variants, c).len() implies from_loaded_variant(
        #[trigger] directives(variants, c)[i],
        variants,
        c,
    ) by {
        let j = lemma_directive_source(variants, c, i);
    }
    assert forall|j: int| 0 <= j < variants.len() && #[trigger] client_loads(variants[j], c) implies has_directive_for(
        directives(variants, c),
        variants[j],
    ) by {
        let i = lemma_directive_of(variants, c, j);
    }
}

/// Adds one artifact's bytes to the plan's running total, within the aggregate ceiling.
pub fn checked_artifact_total(current: u64, artifact_bytes: u64) -> (r: Result<u64, AssetError>)
    ensures
        r is Ok <==> current + artifact_bytes <= MAX_RECIPE_ARTIFACT_BYTES,
        r matches Ok(t) ==> t == current + artifact_bytes,
        r matches Err(e) ==> e matches AssetError::InvalidRecipe(m) && (if current + artifact_bytes
            > u64::MAX {
            m@ == "adaptive artifact byte total overflow"@
        } else {
            m@ == "adaptive artifacts exceed 8589934592 aggregate bytes"@
        }),
{
    let total = match current.checked_add(artifact_bytes) {
        Some(t) => t,
        None => {
            return Err(AssetError::InvalidRecipe("adaptive artifact byte total overflow".to_owned()));
        },
    };
    if total > MAX_RECIPE_ARTIFACT_BYTES {
        return Err(AssetError::InvalidRecipe(
            "adaptive artifacts exceed 8589934592 aggregate bytes".to_owned(),
        ));
    }
    Ok(total)
}

/// Decoded RGBA bytes of a `width` by `height` image.
pub fn rgba_bytes(width: u32, height: u32) -> (r: Result<u64, AssetError>)
    ensures
        r is Ok <==> width * height * 4 <= u64::MAX,
        r matches Ok(n) ==> n == width * height * 4,
        r matches Err(e) ==> e matches AssetError::InvalidRecipe(m) && m@ == "decoded size overflow"@,
{
    proof {
        assert(width * height <= 0xFFFF_FFFFu64 * 0xFFFF_FFFFu64) by (nonlinear_arith)
            requires
                width <= 0xFFFF_FFFFu64,
                height <= 0xFFFF_FFFFu64,
        ;
    }
    let pixels: u64 = width as u64 * height as u64;
    match pixels.checked_mul(4) {
        Some(n) => Ok(n),
        None => Err(AssetError::InvalidRecipe("decoded size overflow".to_owned())),
    }
}

pub fn image_artifact(format: ImageFormat) -> (f: ArtifactFormat)
    ensures
        f == image_artifact_spec(format),
{
    match format {
        ImageFormat::Avif => ArtifactFormat::Avif,
        ImageFormat::Webp => ArtifactFormat::Webp,
        ImageFormat::Jpeg => ArtifactFormat::Jpeg,
    }
}

pub open spec fn image_artifact_spec(format: ImageFormat) -> ArtifactFormat {
    match format {
        ImageFormat::Avif => ArtifactFormat::Avif,
        ImageFormat::Webp => ArtifactFormat::Webp,
        ImageFormat::Jpeg => ArtifactFormat::Jpeg,
    }
}

pub open spec fn video_artifact_spec(format: VideoFormat) -> ArtifactFormat {
    match format {
        VideoFormat::Mp4H264 | VideoFormat::Mp4Av1 => ArtifactFormat::Mp4,
        VideoFormat::WebmVp9 => ArtifactFormat::Webm,
    }
}

pub fn video_artifact(format: VideoFormat) -> (f: ArtifactFormat)
    ensures
        f == video_artifact_spec(format),
{
    match format {
        VideoFormat::Mp4H264 | VideoFormat::Mp4Av1 => ArtifactFormat::Mp4,
        VideoFormat::WebmVp9 => ArtifactFormat::Webm,
    }
}

/// The media family of an output or job.
#[derive(Clone, Copy, Debug, Eq, PartialEq, Structural)]
pub enum Family {
    Image,
    Video,
    Font,
    Scene,
}

pub open spec fn family_of(op: JobOperation) -> Family {
    match op {
        JobOperation::Image { .. } => Family::Image,
        JobOperation::Video { .. } => Family::Video,
        JobOperation::FontSubset { .. } => Family::Font,
        JobOperation::Scene3d { .. } => Family::Scene,
    }
}

pub fn operation_family(operation: &JobOperation) -> (f: Family)
    ensures
        f == family_of(*operation),
{
    match operation {
        JobOperation::Image { .. } => Family::Image,
        JobOperation::Video { .. } => Family::Video,
        JobOperation::FontSubset { .. } => Family::Font,
        JobOperation::Scene3d { .. } => Family::Scene,
    }
}

/// The message that refuses a load policy, if any.
pub open spec fn policy_problem(p: LoadPolicy, family: Family) -> Option<Seq<char>> {
    if p.tiers.len() == 0 {
        Some("every output must target at least one tier"@)
    } else if p.preload && p.delivery != Delivery::Initial {
        Some("only initial assets may preload"@)
    } else if p.fetch_priority == FetchPriority::High && p.delivery != Delivery::Initial {
        Some("high fetch priority is reserved for initial assets"@)
    } else if family == Family::Video || family == Family::Scene {
        if p.tiers@.contains(Tier::Universal) {
            Some("Universal tier cannot download video or 3D assets"@)
        } else if p.motion != MotionPolicy::SuppressWhenReduced {
            Some("video and 3D outputs must be suppressed for reduced motion"@)
        } else {
            None
        }
    } else if p.motion != MotionPolicy::Static {
        Some("image and font outputs must use the static motion policy"@)
    } else {
        None
    }
}

/// Checks a load policy against the output's media family.
pub fn validate_policy(policy: &LoadPolicy, family: Family) -> (r: Result<(), AssetError>)
    ensures
        match policy_problem(*policy, family) {
            None => r is Ok,
            Some(m) => r matches Err(AssetError::InvalidRecipe(e)) && e@ == m,
        },
{
    if policy.tiers.len() == 0 {
        return Err(AssetError::InvalidRecipe("every output must target at least one tier".to_owned()));
    }
    if policy.preload && policy.delivery != Delivery::Initial {
        return Err(AssetError::InvalidRecipe("only initial assets may preload".to_owned()));
    }
    if policy.fetch_priority == FetchPriority::High && policy.delivery != Delivery::Initial {
        return Err(AssetError::InvalidRecipe(
            "high fetch priority is reserved for initial assets".to_owned(),
        ));
    }
    if family == Family::Video || family == Family::Scene {
        if has_tier(&policy.tiers, Tier::Universal) {
            return Err(AssetError::InvalidRecipe(
                "Universal tier cannot download video or 3D assets".to_owned(),
            ));
        }
        if policy.motion != MotionPolicy::SuppressWhenReduced {
            return Err(AssetError::InvalidRecipe(
                "video and 3D outputs must be suppressed for reduced motion".to_owned(),
            ));
        }
    } else if policy.motion != MotionPolicy::Static {
        return Err(AssetError::InvalidRecipe(
            "image and font outputs must use the static motion policy".to_owned(),
        ));
    }
    Ok(())
}

} // verus!

verus! {

/// Whether a variant is fetched by clients of `tier`.
pub open spec fn applies(v: PublishedVariant, tier: Tier) -> bool {
    v.policy.tiers@.contains(tier)
}

pub open spec fn group_of(v: PublishedVariant) -> Option<Seq<char>> {
    match v.selection_group {
        Some(g) => Some(g@),
        None => None,
    }
}

/// What a variant adds to budget counter `k`: initial, deferred and on-demand
/// bytes, decoded bytes, triangles, draw calls, preloads.
pub open spec fn contribution(v: PublishedVariant, k: int) -> nat {
    if k == 0 {
        if v.policy.delivery == Delivery::Initial { v.bytes as nat } else { 0 }
    } else if k == 1 {
        if v.policy.delivery == Delivery::Deferred { v.bytes as nat } else { 0 }
    } else if k == 2 {
        if v.policy.delivery == Delivery::OnDemand { v.bytes as nat } else { 0 }
    } else if k == 3 {
        v.estimated_decoded_bytes as nat
    } else if k == 4 {
        v.estimated_triangles as nat
    } else if k == 5 {
        v.estimated_draw_calls as nat
    } else {
        if v.policy.preload { 1 } else { 0 }
    }
}

/// Counter `k` summed over the applicable variants outside any selection group.
pub open spec fn ungrouped_sum(vs: Seq<PublishedVariant>, tier: Tier, k: int) -> nat
    decreases vs.len(),
{
    if vs.len() == 0 {
        0
    } else {
        ungrouped_sum(vs.drop_last(), tier, k) + if applies(vs.last(), tier) && group_of(vs.last()) is None {
            contribution(vs.last(), k)
        } else {
            0
        }
    }
}

/// Selection groups of the applicable variants, in order of first appearance.
pub open spec fn group_names(vs: Seq<PublishedVariant>, tier: Tier) -> Seq<Seq<char>>
    decreases vs.len(),
{
    if vs.len() == 0 {
        Seq::empty()
    } else {
        let prev = group_names(vs.drop_last(), tier);
        let v = vs.last();
        if applies(v, tier) && group_of(v) is Some && !prev.contains(group_of(v)->0) {
            prev.push(group_of(v)->0)
        } else {
            prev
        }
    }
}

/// The largest counter `k` among the applicable alternatives of group `g`.
pub open spec fn group_worst(vs: Seq<PublishedVariant>, tier: Tier, g: Seq<char>, k: int) -> nat
    decreases vs.len(),
{
    if vs.len() == 0 {
        0
    } else {
        let prev = group_worst(vs.drop_last(), tier, g, k);
        let v = vs.last();
        if applies(v, tier) && group_of(v) == Some(g) && contribution(v, k) > prev {
            contribution(v, k)
        } else {
            prev
        }
    }
}

pub open spec fn grouped_sum(vs: Seq<PublishedVariant>, tier: Tier, names: Seq<Seq<char>>, k: int) -> nat
    decreases names.len(),
{
    if names.len() == 0 {
        0
    } else {
        grouped_sum(vs, tier, names.drop_last(), k) + group_worst(vs, tier, names.last(), k)
    }
}

/// Counter `k` for a tier: every ungrouped variant, plus the worst alternative of each group.
pub open spec fn field_total(vs: Seq<PublishedVariant>, tier: Tier, k: int) -> nat {
    ungrouped_sum(vs, tier, k) + grouped_sum(vs, tier, group_names(vs, tier), k)
}

pub open spec fn budget_totals_fit(vs: Seq<PublishedVariant>, tier: Tier) -> bool {
    &&& forall|k: int| 0 <= k < 6 ==> #[trigger] field_total(vs, tier, k) <= u64::MAX
    &&& field_total(vs, tier, 6) <= u32::MAX
}

pub open spec fn totals_match(t: BudgetTotals, vs: Seq<PublishedVariant>, tier: Tier) -> bool {
    &&& t.initial_bytes == field_total(vs, tier, 0)
    &&& t.deferred_bytes == field_total(vs, tier, 1)
    &&& t.on_demand_bytes == field_total(vs, tier, 2)
    &&& t.decoded_bytes == field_total(vs, tier, 3)
    &&& t.triangles == field_total(vs, tier, 4)
    &&& t.draw_calls == field_total(vs, tier, 5)
    &&& t.preloads == field_total(vs, tier, 6)
}

pub open spec fn within_budget(t: BudgetTotals, b: TierBudget) -> bool {
    &&& t.initial_bytes <= b.max_initial_bytes
    &&& t.deferred_bytes <= b.max_deferred_bytes
    &&& t.on_demand_bytes <= b.max_on_demand_bytes
    &&& t.decoded_bytes <= b.max_decoded_bytes
    &&& t.triangles <= b.max_triangles
    &&& t.draw_calls <= b.max_draw_calls
    &&& t.preloads <= b.max_preloads
}

pub open spec fn cap() -> nat {
    0x1_0000_0000_0000_0000
}

pub open spec fn capped(x: nat) -> nat {
    if x < cap() {
        x
    } else {
        cap()
    }
}

fn contribution_of(v: &PublishedVariant, k: usize) -> (n: u64)
    requires
        k < 7,
    ensures
        n == contribution(*v, k as int),
{
    if k == 0 {
        if v.policy.delivery == Delivery::Initial { v.bytes } else { 0 }
    } else if k == 1 {
        if v.policy.delivery == Delivery::Deferred { v.bytes } else { 0 }
    } else if k == 2 {
        if v.policy.delivery == Delivery::OnDemand { v.bytes } else { 0 }
    } else if k == 3 {
        v.estimated_decoded_bytes
    } else if k == 4 {
        v.estimated_triangles
    } else if k == 5 {
        v.estimated_draw_calls
    } else {
        if v.policy.preload { 1 } else { 0 }
    }
}

fn capped_add(a: u128, b: u64) -> (r: u128)
    requires
        a <= cap(),
    ensures
        r == capped((a + b) as nat),
{
    let s = a + b as u128;
    if s > 0x1_0000_0000_0000_0000u128 {
        0x1_0000_0000_0000_0000u128
    } else {
        s
    }
}

fn same_group(a: &Option<String>, name: &[char]) -> (r: bool)
    ensures
        r == (match a {
            Some(g) => g@ == name@,
            None => false,
        }),
{
    match a {
        Some(g) => {
            let chars = chars_of(g.as_str());
            match crate::text::compare_chars(chars.as_slice(), name) {
                crate::text::TextOrder::Equal => true,
                _ => false,
            }
        },
        None => false,
    }
}

fn known_name(names: &Vec<Vec<char>>, name: &[char]) -> (r: bool)
    ensures
        r == crate::text::char_views(names@).contains(name@),
{
    let mut i: usize = 0;
    while i < names.len()
        invariant
            i <= names.len(),
            forall|k: int| 0 <= k < i ==> names@[k]@ != name@,
        decreases names.len() - i,
    {
        match crate::text::compare_chars(names[i].as_slice(), name) {
            crate::text::TextOrder::Equal => {
                proof {
                    assert(crate::text::char_views(names@)[i as int] == name@);
                }
                return true;
            },
            _ => {},
        }
        i = i + 1;
    }
    proof {
        if crate::text::char_views(names@).contains(name@) {
            let k = choose|k: int| 0 <= k < names.len() && crate::text::char_views(names@)[k] == name@;
            assert(names@[k]@ == name@);
        }
    }
    false
}

fn group_worst_of(variants: &Vec<PublishedVariant>, tier: Tier, name: &[char], k: usize) -> (n: u64)
    requires
        k < 7,
    ensures
        n == group_worst(variants@, tier, name@, k as int),
{
    let mut worst: u64 = 0;
    let mut i: usize = 0;
    while i < variants.len()
        invariant
            i <= variants.len(),
            k < 7,
            worst == group_worst(variants@.take(i as int), tier, name@, k as int),
        decreases variants.len() - i,
    {
        let v = &variants[i];
        proof {
            assert(variants@.take(i + 1).drop_last() =~= variants@.take(i as int));
            assert(variants@.take(i + 1).last() == *v);
        }
        let c = contribution_of(v, k);
        if has_tier(&v.policy.tiers, tier) && same_group(&v.selection_group, name) && c > worst {
            worst = c;
        }
        i = i + 1;
    }
    proof {
        assert(variants@.take(variants.len() as int) =~= variants@);
    }
    worst
}

/// Totals of one tier over the published variants.
pub fn tier_totals(variants: &Vec<PublishedVariant>, tier: Tier) -> (r: Result<BudgetTotals, AssetError>)
    ensures
        r is Ok <==> budget_totals_fit(variants@, tier),
        r matches Ok(t) ==> totals_match(t, variants@, tier),
        r matches Err(e) ==> e matches AssetError::InvalidRecipe(m) && (if exists|k: int|
            0 <= k < 6 && #[trigger] field_total(variants@, tier, k) > u64::MAX {
            m@ == "budget total overflow"@
        } else {
            m@ == "preload count overflow"@
        }),
{
    let mut acc: Vec<u128> = Vec::new();
    let mut k: usize = 0;
    while k < 7
        invariant
            k <= 7,
            acc.len() == k,
            forall|j: int| 0 <= j < k ==> acc@[j] == 0,
        decreases 7 - k,
    {
        acc.push(0);
        k = k + 1;
    }
    let mut names: Vec<Vec<char>> = Vec::new();
    let mut i: usize = 0;
    while i < variants.len()
        invariant
            i <= variants.len(),
            acc.len() == 7,
            forall|j: int| 0 <= j < 7 ==> #[trigger] acc@[j] == capped(ungrouped_sum(variants@.take(i as int), tier, j)),
            crate::text::char_views(names@) == group_names(variants@.take(i as int), tier),
        decreases variants.len() - i,
    {
        let v = &variants[i];
        proof {
            assert(variants@.take(i + 1).drop_last() =~= variants@.take(i as int));
            assert(variants@.take(i + 1).last() == *v);
        }
        let applicable = has_tier(&v.policy.tiers, tier);
        match &v.selection_group {
            None => {
                if applicable {
                    let mut j: usize = 0;
                    while j < 7
                        invariant
                            j <= 7,
                            i < variants.len(),
                            acc.len() == 7,
                            applicable == applies(*v, tier),
                            group_of(*v) is None,
                            forall|m: int| 0 <= m < j ==> #[trigger] acc@[m] == capped(ungrouped_sum(variants@.take(i + 1), tier, m)),
                            forall|m: int| j <= m < 7 ==> #[trigger] acc@[m] == capped(ungrouped_sum(variants@.take(i as int), tier, m)),
                            variants@.take(i + 1).drop_last() == variants@.take(i as int),
                            variants@.take(i + 1).last() == *v,
                            applicable,
                        decreases 7 - j,
                    {
                        let c = contribution_of(v, j);
                        let ghost before = acc@;
                        let updated = capped_add(acc[j], c);
                        acc.set(j, updated);
                        proof {
                            let t = variants@.take(i + 1);
                            assert(ungrouped_sum(t, tier, j as int) == ungrouped_sum(t.drop_last(), tier, j as int)
                                + contribution(t.last(), j as int));
                            assert forall|m: int| 0 <= m < j + 1 implies #[trigger] acc@[m] == capped(
                                ungrouped_sum(variants@.take(i + 1), tier, m),
                            ) by {
                                if m < j {
                                    assert(acc@[m] == before[m]);
                                }
                            }
                            assert forall|m: int| j + 1 <= m < 7 implies #[trigger] acc@[m] == capped(
                                ungrouped_sum(variants@.take(i as int), tier, m),
                            ) by {
                                assert(acc@[m] == before[m]);
                            }
                        }
                        j = j + 1;
                    }
                }
            },
            Some(g) => {
                if applicable {
                    let chars = chars_of(g.as_str());
                    if !known_name(&names, chars.as_slice()) {
                        names.push(chars);
                        proof {
                            assert(crate::text::char_views(names@) =~= crate::text::char_views(names@.drop_last()).push(g@));
                        }
                    }
                }
            },
        }
        i = i + 1;
    }
    proof {
        assert(variants@.take(variants.len() as int) =~= variants@);
    }
    let ghost all_names = group_names(variants@, tier);
    let mut n: usize = 0;
    while n < names.len()
        invariant
            n <= names.len(),
            acc.len() == 7,
            crate::text::char_views(names@) == all_names,
            all_names == group_names(variants@, tier),
            forall|j: int| 0 <= j < 7 ==> #[trigger] acc@[j] == capped(ungrouped_sum(variants@, tier, j) + grouped_sum(variants@, tier, all_names.take(n as int), j)),
        decreases names.len() - n,
    {
        let mut j: usize = 0;
        proof {
            assert(all_names.take(n + 1).drop_last() =~= all_names.take(n as int));
            assert(all_names.take(n + 1).last() == names@[n as int]@);
        }
        while j < 7
            invariant
                j <= 7,
                n < names.len(),
                acc.len() == 7,
                crate::text::char_views(names@) == all_names,
                all_names.take(n + 1).drop_last() == all_names.take(n as int),
                all_names.take(n + 1).last() == names@[n as int]@,
                forall|m: int| 0 <= m < j ==> #[trigger] acc@[m] == capped(ungrouped_sum(variants@, tier, m) + grouped_sum(variants@, tier, all_names.take(n + 1), m)),
                forall|m: int| j <= m < 7 ==> #[trigger] acc@[m] == capped(ungrouped_sum(variants@, tier, m) + grouped_sum(variants@, tier, all_names.take(n as int), m)),
            decreases 7 - j,
        {
            let w = group_worst_of(variants, tier, names[n].as_slice(), j);
            let ghost before = acc@;
            let updated = capped_add(acc[j], w);
            acc.set(j, updated);
            proof {
                let t = all_names.take(n + 1);
                assert(grouped_sum(variants@, tier, t, j as int) == grouped_sum(variants@, tier, t.drop_last(), j as int)
                    + group_worst(variants@, tier, t.last(), j as int));
                assert forall|m: int| 0 <= m < j + 1 implies #[trigger] acc@[m] == capped(
                    ungrouped_sum(variants@, tier, m) + grouped_sum(variants@, tier, all_names.take(n + 1), m),
                ) by {
                    if m < j {
                        assert(acc@[m] == before[m]);
                    }
                }
                assert forall|m: int| j + 1 <= m < 7 implies #[trigger] acc@[m] == capped(
                    ungrouped_sum(variants@, tier, m) + grouped_sum(variants@, tier, all_names.take(n as int), m),
                ) by {
                    assert(acc@[m] == before[m]);
                }
            }
            j = j + 1;
        }
        n = n + 1;
    }
    proof {
        assert(all_names.take(names.len() as int) =~= all_names);
        assert forall|j: int| 0 <= j < 7 implies #[trigger] acc@[j] == capped(field_total(variants@, tier, j)) by {}
    }
    let mut j: usize = 0;
    while j < 6
        invariant
            j <= 6,
            acc.len() == 7,
            forall|m: int| 0 <= m < 7 ==> #[trigger] acc@[m] == capped(field_total(variants@, tier, m)),
            forall|m: int| 0 <= m < j ==> #[trigger] field_total(variants@, tier, m) <= u64::MAX,
        decreases 6 - j,
    {
        if acc[j] > 0xFFFF_FFFF_FFFF_FFFFu128 {
            proof {
                assert(field_total(variants@, tier, j as int) > u64::MAX);
            }
            return Err(AssetError::InvalidRecipe("budget total overflow".to_owned()));
        }
        j = j + 1;
    }
    if acc[6] > 0xFFFF_FFFFu128 {
        return Err(AssetError::InvalidRecipe("preload count overflow".to_owned()));
    }
    proof {
        assert(field_total(variants@, tier, 0) <= u64::MAX);
        assert(field_total(variants@, tier, 1) <= u64::MAX);
        assert(field_total(variants@, tier, 2) <= u64::MAX);
        assert(field_total(variants@, tier, 3) <= u64::MAX);
        assert(field_total(variants@, tier, 4) <= u64::MAX);
        assert(field_total(variants@, tier, 5) <= u64::MAX);
    }
    Ok(
        BudgetTotals {
            initial_bytes: acc[0] as u64,
            deferred_bytes: acc[1] as u64,
            on_demand_bytes: acc[2] as u64,
            decoded_bytes: acc[3] as u64,
            triangles: acc[4] as u64,
            draw_calls: acc[5] as u64,
            preloads: acc[6] as u32,
        },
    )
}

} // verus!

verus! {

pub open spec fn totals_of(vs: Seq<PublishedVariant>, tier: Tier) -> BudgetTotals {
    BudgetTotals {
        initial_bytes: field_total(vs, tier, 0) as u64,
        deferred_bytes: field_total(vs, tier, 1) as u64,
        on_demand_bytes: field_total(vs, tier, 2) as u64,
        decoded_bytes: field_total(vs, tier, 3) as u64,
        triangles: field_total(vs, tier, 4) as u64,
        draw_calls: field_total(vs, tier, 5) as u64,
        preloads: field_total(vs, tier, 6) as u32,
    }
}

/// The abstract content of a budget result.
pub struct ResultModel {
    pub profile_id: Seq<char>,
    pub tier: Tier,
    pub pass: bool,
    pub totals: BudgetTotals,
}

pub open spec fn result_view(r: BudgetResult) -> ResultModel {
    ResultModel { profile_id: r.profile_id@, tier: r.tier, pass: r.pass, totals: r.totals }
}

pub open spec fn budget_row(profile_id: Seq<char>, b: TierBudget, vs: Seq<PublishedVariant>) -> ResultModel {
    ResultModel {
        profile_id,
        tier: b.tier,
        pass: within_budget(totals_of(vs, b.tier), b),
        totals: totals_of(vs, b.tier),
    }
}

pub open spec fn profile_rows(p: DeviceBudgetProfile, vs: Seq<PublishedVariant>) -> Seq<ResultModel> {
    p.tiers@.map_values(|b: TierBudget| budget_row(p.id@, b, vs))
}

/// One row per profile and tier budget, in order.
pub open spec fn budget_rows(ps: Seq<DeviceBudgetProfile>, vs: Seq<PublishedVariant>) -> Seq<ResultModel>
    decreases ps.len(),
{
    if ps.len() == 0 {
        Seq::empty()
    } else {
        budget_rows(ps.drop_last(), vs) + profile_rows(ps.last(), vs)
    }
}

/// Every tier budget of every profile can be totalled without overflow.
pub open spec fn budgets_computable(ps: Seq<DeviceBudgetProfile>, vs: Seq<PublishedVariant>) -> bool {
    forall|i: int, j: int|
        0 <= i < ps.len() && 0 <= j < ps[i].tiers.len() ==> budget_totals_fit(vs, #[trigger] ps[i].tiers@[j].tier)
}

/// Row `r` judges the variants against tier budget `b` of profile `id`: it
/// carries the profile and tier, the tier's totals, and passes exactly when
/// every total is within its limit.
pub open spec fn judged_against(r: ResultModel, id: Seq<char>, b: TierBudget, vs: Seq<PublishedVariant>) -> bool {
    &&& r.profile_id == id
    &&& r.tier == b.tier
    &&& r.totals == totals_of(vs, b.tier)
    &&& r.pass <==> (r.totals.initial_bytes <= b.max_initial_bytes && r.totals.deferred_bytes <= b.max_deferred_bytes
        && r.totals.on_demand_bytes <= b.max_on_demand_bytes && r.totals.decoded_bytes <= b.max_decoded_bytes
        && r.totals.triangles <= b.max_triangles && r.totals.draw_calls <= b.max_draw_calls && r.totals.preloads
        <= b.max_preloads)
}

/// Row `r` judges the variants against some tier budget of some profile.
pub open spec fn judged_by_some_budget(r: ResultModel, ps: Seq<DeviceBudgetProfile>, vs: Seq<PublishedVariant>) -> bool {
    exists|i: int, j: int|
        0 <= i < ps.len() && 0 <= j < ps[i].tiers.len() && #[trigger] judged_against(r, ps[i].id@, ps[i].tiers@[j], vs)
}

proof fn lemma_row_source(ps: Seq<DeviceBudgetProfile>, vs: Seq<PublishedVariant>, k: int) -> (ij: (int, int))
    requires
        0 <= k < budget_rows(ps, vs).len(),
    ensures
        0 <= ij.0 < ps.len(),
        0 <= ij.1 < ps[ij.0].tiers.len(),
        judged_against(budget_rows(ps, vs)[k], ps[ij.0].id@, ps[ij.0].tiers@[ij.1], vs),
    decreases ps.len(),
{
    let rest = ps.drop_last();
    let r = budget_rows(rest, vs);
    let last = ps.last();
    if k < r.len() {
        let (i, j) = lemma_row_source(rest, vs, k);
        assert(budget_rows(ps, vs)[k] == r[k]);
        assert(ps[i] == rest[i]);
        (i, j)
    } else {
        let j = k - r.len();
        assert(budget_rows(ps, vs)[k] == profile_rows(last, vs)[j]);
        assert(profile_rows(last, vs)[j] == budget_row(last.id@, last.tiers@[j], vs));
        (ps.len() - 1, j)
    }
}

/// Every row of a budget evaluation is the verdict of one profile's tier
/// budget on the variants: it passes only when the initial, deferred and
/// on-demand bytes, the decoded bytes, triangles, draw calls and preloads
/// are each within that budget's limit, and fails when any exceeds it.
pub proof fn law_budget_rows_pass_within_limits(ps: Seq<DeviceBudgetProfile>, vs: Seq<PublishedVariant>)
    ensures
        forall|k: int| 0 <= k < budget_rows(ps, vs).len() ==> judged_by_some_budget(#[trigger] budget_rows(ps, vs)[k], ps, vs),
{
    assert forall|k: int| 0 <= k < budget_rows(ps, vs).len() implies judged_by_some_budget(
        #[trigger] budget_rows(ps, vs)[k],
        ps,
        vs,
    ) by {
        let (i, j) = lemma_row_source(ps, vs, k);
    }
}

/// Evaluates every tier budget of every profile against the published variants.
pub fn evaluate_budgets(profiles: &Vec<DeviceBudgetProfile>, variants: &Vec<PublishedVariant>) -> (r: Result<
    Vec<BudgetResult>,
    AssetError,
>)
    ensures
        r is Ok <==> budgets_computable(profiles@, variants@),
        r matches Ok(rs) ==> rs@.map_values(|x: BudgetResult| result_view(x)) == budget_rows(profiles@, variants@),
        r matches Err(e) ==> e matches AssetError::InvalidRecipe(m) && (m@ == "budget total overflow"@ || m@
            == "preload count overflow"@),
{
    let mut results: Vec<BudgetResult> = Vec::new();
    let mut i: usize = 0;
    while i < profiles.len()
        invariant
            i <= profiles.len(),
            results@.map_values(|x: BudgetResult| result_view(x)) == budget_rows(profiles@.take(i as int), variants@),
            budgets_computable(profiles@.take(i as int), variants@),
        decreases profiles.len() - i,
    {
        let profile = &profiles[i];
        let ghost base = results@.map_values(|x: BudgetResult| result_view(x));
        let mut j: usize = 0;
        while j < profile.tiers.len()
            invariant
                i < profiles.len(),
                *profile == profiles@[i as int],
                j <= profile.tiers.len(),
                base == budget_rows(profiles@.take(i as int), variants@),
                results@.map_values(|x: BudgetResult| result_view(x)) == base + profile.tiers@.take(j as int).map_values(
                    |b: TierBudget| budget_row(profile.id@, b, variants@),
                ),
                budgets_computable(profiles@.take(i as int), variants@),
                forall|m: int| 0 <= m < j ==> budget_totals_fit(variants@, #[trigger] profile.tiers@[m].tier),
            decreases profile.tiers.len() - j,
        {
            let budget = profile.tiers[j];
            let totals = match tier_totals(variants, budget.tier) {
                Ok(t) => t,
                Err(e) => {
                    proof {
                        assert(profiles@[i as int].tiers@[j as int] == budget);
                    }
                    return Err(e);
                },
            };
            let pass = totals.initial_bytes <= budget.max_initial_bytes && totals.deferred_bytes
                <= budget.max_deferred_bytes && totals.on_demand_bytes <= budget.max_on_demand_bytes
                && totals.decoded_bytes <= budget.max_decoded_bytes && totals.triangles
                <= budget.max_triangles && totals.draw_calls <= budget.max_draw_calls && totals.preloads
                <= budget.max_preloads;
            let ghost before = results@.map_values(|x: BudgetResult| result_view(x));
            results.push(BudgetResult { profile_id: profile.id.clone(), tier: budget.tier, pass, totals });
            proof {
                assert(totals == totals_of(variants@, budget.tier));
                assert(profile.tiers@.take(j + 1) =~= profile.tiers@.take(j as int).push(budget));
                assert(results@.map_values(|x: BudgetResult| result_view(x)) =~= before.push(
                    budget_row(profile.id@, budget, variants@),
                ));
                assert(profile.tiers@.take(j + 1).map_values(|b: TierBudget| budget_row(profile.id@, b, variants@))
                    =~= profile.tiers@.take(j as int).map_values(|b: TierBudget| budget_row(profile.id@, b, variants@)).push(
                    budget_row(profile.id@, budget, variants@),
                ));
            }
            j = j + 1;
        }
        proof {
            assert(profile.tiers@.take(profile.tiers.len() as int) =~= profile.tiers@);
            assert(profiles@.take(i + 1).drop_last() =~= profiles@.take(i as int));
            assert(profiles@.take(i + 1).last() == *profile);
            assert forall|a: int, b: int|
                0 <= a < profiles@.take(i + 1).len() && 0 <= b < profiles@.take(i + 1)[a].tiers.len() implies budget_totals_fit(
                variants@,
                #[trigger] profiles@.take(i + 1)[a].tiers@[b].tier,
            ) by {
                if a < i {
                    assert(profiles@.take(i + 1)[a] == profiles@.take(i as int)[a]);
                }
            }
        }
        i = i + 1;
    }
    proof {
        assert(profiles@.take(profiles.len() as int) =~= profiles@);
    }
    Ok(results)
}

} // verus!

verus! {

/// What a job's operation implies for its format, tools and estimates.
pub struct JobExpectation {
    pub format: ArtifactFormat,
    pub tools: Set<Toolchain>,
    pub decoded: nat,
    pub triangles: nat,
    pub draw_calls: nat,
}

pub open spec fn job_message(id: Seq<char>, tail: Seq<char>) -> Seq<char> {
    "job "@ + id + tail
}

/// The expectation implied by an operation, or the message refusing its parameters.
pub open spec fn job_expectation(job: AssetJob) -> Result<JobExpectation, Seq<char>> {
    match job.operation {
        JobOperation::Image { width, height, format, quality } => if width == 0 || height == 0 || quality < 1
            || quality > 100 {
            Err(job_message(job.id@, " has invalid image parameters"@))
        } else if width * height * 4 > u64::MAX {
            Err("decoded size overflow"@)
        } else {
            Ok(
                JobExpectation {
                    format: image_artifact_spec(format),
                    tools: set![Toolchain::Ffmpeg],
                    decoded: (width * height * 4) as nat,
                    triangles: 0,
                    draw_calls: 0,
                },
            )
        },
        JobOperation::Video { width, height, format, bitrate_kbps, max_fps, .. } => if width == 0 || height
            == 0 || bitrate_kbps == 0 || max_fps == 0 || max_fps > 240 {
            Err(job_message(job.id@, " has invalid video parameters"@))
        } else if width * height * 4 > u64::MAX {
            Err("decoded size overflow"@)
        } else if width * height * 4 * 3 > u64::MAX {
            Err("video decoded memory estimate overflow"@)
        } else {
            Ok(
                JobExpectation {
                    format: video_artifact_spec(format),
                    tools: set![Toolchain::Ffmpeg],
                    decoded: (width * height * 4 * 3) as nat,
                    triangles: 0,
                    draw_calls: 0,
                },
            )
        },
        JobOperation::FontSubset { glyphs, unicode_range } => if glyphs@.len() == 0 || glyphs@.len() > 8192
            || (match unicode_range {
            Some(r) => utf8_len(r@) > 512 || !starts_with(r@, "U+"@),
            None => false,
        }) {
            Err(job_message(job.id@, " has invalid font parameters"@))
        } else {
            Ok(
                JobExpectation {
                    format: ArtifactFormat::Woff2,
                    tools: set![Toolchain::Fonttools],
                    decoded: 0,
                    triangles: 0,
                    draw_calls: 0,
                },
            )
        },
        JobOperation::Scene3d {
            max_triangles,
            max_draw_calls,
            max_texture_dimension,
            requires_blender,
            ..
        } => if max_triangles == 0 || max_draw_calls == 0 || max_texture_dimension == 0
            || max_texture_dimension > 16384 {
            Err(job_message(job.id@, " has invalid 3D parameters"@))
        } else {
            Ok(
                JobExpectation {
                    format: ArtifactFormat::Glb,
                    tools: if requires_blender {
                        set![Toolchain::GltfTransform, Toolchain::Ktx2Encoder, Toolchain::Blender]
                    } else {
                        set![Toolchain::GltfTransform, Toolchain::Ktx2Encoder]
                    },
                    decoded: (max_texture_dimension * max_texture_dimension * 4) as nat,
                    triangles: max_triangles as nat,
                    draw_calls: max_draw_calls as nat,
                },
            )
        },
    }
}

pub open spec fn expected_group(job: AssetJob) -> Option<Seq<char>> {
    match job.operation {
        JobOperation::FontSubset { .. } => None,
        _ => Some(job.source_id@),
    }
}

pub open spec fn option_text(o: Option<String>) -> Option<Seq<char>> {
    match o {
        Some(s) => Some(s@),
        None => None,
    }
}

/// The message refusing a job whose declared fields disagree with its operation, if any.
pub open spec fn job_problem(job: AssetJob) -> Option<Seq<char>> {
    match job_expectation(job) {
        Err(m) => Some(m),
        Ok(x) => if job.format != x.format || job.required_toolchains@.to_set() != x.tools
            || job.estimated_decoded_bytes != x.decoded || job.estimated_triangles != x.triangles
            || job.estimated_draw_calls != x.draw_calls || option_text(job.selection_group)
            != expected_group(job) {
            Some(job_message(job.id@, " format, toolchains, or estimates do not match its operation"@))
        } else {
            None
        },
    }
}

fn has_toolchain(tools: &[Toolchain], t: Toolchain) -> (b: bool)
    ensures
        b == tools@.contains(t),
{
    let mut i: usize = 0;
    while i < tools.len()
        invariant
            i <= tools.len(),
            forall|k: int| 0 <= k < i ==> tools@[k] != t,
        decreases tools.len() - i,
    {
        if tools[i] == t {
            return true;
        }
        i = i + 1;
    }
    false
}

/// Whether two toolchain lists hold the same set.
fn same_toolchains(a: &[Toolchain], b: &[Toolchain]) -> (r: bool)
    ensures
        r == (a@.to_set() == b@.to_set()),
{
    let mut i: usize = 0;
    while i < a.len()
        invariant
            i <= a.len(),
            forall|k: int| 0 <= k < i ==> b@.contains(#[trigger] a@[k]),
        decreases a.len() - i,
    {
        if !has_toolchain(b, a[i]) {
            proof {
                assert(a@.to_set().contains(a@[i as int]));
                assert(!b@.to_set().contains(a@[i as int]));
            }
            return false;
        }
        i = i + 1;
    }
    let mut j: usize = 0;
    while j < b.len()
        invariant
            j <= b.len(),
            forall|k: int| 0 <= k < a.len() ==> b@.contains(#[trigger] a@[k]),
            forall|k: int| 0 <= k < j ==> a@.contains(#[trigger] b@[k]),
        decreases b.len() - j,
    {
        if !has_toolchain(a, b[j]) {
            proof {
                assert(b@.to_set().contains(b@[j as int]));
                assert(!a@.to_set().contains(b@[j as int]));
            }
            return false;
        }
        j = j + 1;
    }
    proof {
        assert forall|t: Toolchain| a@.to_set().contains(t) == b@.to_set().contains(t) by {
            if a@.contains(t) {
                let k = choose|k: int| 0 <= k < a.len() && a@[k] == t;
                assert(b@.contains(a@[k]));
            }
            if b@.contains(t) {
                let k = choose|k: int| 0 <= k < b.len() && b@[k] == t;
                assert(a@.contains(b@[k]));
            }
        }
        assert(a@.to_set() =~= b@.to_set());
    }
    true
}

fn job_error(id: &str, tail: &str) -> (e: AssetError)
    ensures
        e matches AssetError::InvalidRecipe(m) && m@ == job_message(id@, tail@),
{
    AssetError::InvalidRecipe(concat3("job ", id, tail))
}

/// Checks that a job's format, toolchains, estimates and selection group are
/// exactly those its operation implies.
pub fn validate_job_contract(job: &AssetJob) -> (r: Result<(), AssetError>)
    ensures
        match job_problem(*job) {
            None => r is Ok,
            Some(m) => r matches Err(AssetError::InvalidRecipe(e)) && e@ == m,
        },
{
    let mut tools: Vec<Toolchain> = Vec::new();
    let (format, decoded, triangles, draw_calls) = match &job.operation {
        JobOperation::Image { width, height, format, quality } => {
            if *width == 0 || *height == 0 || *quality < 1 || *quality > 100 {
                return Err(job_error(job.id.as_str(), " has invalid image parameters"));
            }
            let decoded = match rgba_bytes(*width, *height) {
                Ok(n) => n,
                Err(e) => {
                    return Err(e);
                },
            };
            tools.push(Toolchain::Ffmpeg);
            proof {
                assert forall|t: Toolchain| tools@.to_set().contains(t) == set![Toolchain::Ffmpeg].contains(t) by {
                    if t == Toolchain::Ffmpeg {
                        assert(tools@[0] == t);
                    }
                }
                assert(tools@.to_set() =~= set![Toolchain::Ffmpeg]);
            }
            (image_artifact(*format), decoded, 0u64, 0u64)
        },
        JobOperation::Video { width, height, format, bitrate_kbps, max_fps, .. } => {
            if *width == 0 || *height == 0 || *bitrate_kbps == 0 || *max_fps == 0 || *max_fps > 240 {
                return Err(job_error(job.id.as_str(), " has invalid video parameters"));
            }
            let rgba = match rgba_bytes(*width, *height) {
                Ok(n) => n,
                Err(e) => {
                    return Err(e);
                },
            };
            let decoded = match rgba.checked_mul(3) {
                Some(n) => n,
                None => {
                    return Err(AssetError::InvalidRecipe("video decoded memory estimate overflow".to_owned()));
                },
            };
            tools.push(Toolchain::Ffmpeg);
            proof {
                assert forall|t: Toolchain| tools@.to_set().contains(t) == set![Toolchain::Ffmpeg].contains(t) by {
                    if t == Toolchain::Ffmpeg {
                        assert(tools@[0] == t);
                    }
                }
                assert(tools@.to_set() =~= set![Toolchain::Ffmpeg]);
            }
            (video_artifact(*format), decoded, 0u64, 0u64)
        },
        JobOperation::FontSubset { glyphs, unicode_range } => {
            let glyph_chars = chars_of(glyphs.as_str());
            let range_bad = match unicode_range {
                Some(range) => {
                    let rc = chars_of(range.as_str());
                    let prefix = chars_of("U+");
                    utf8_len_of(rc.as_slice()) > 512 || !starts_with_chars(rc.as_slice(), prefix.as_slice())
                },
                None => false,
            };
            if glyph_chars.len() == 0 || glyph_chars.len() > 8192 || range_bad {
                return Err(job_error(job.id.as_str(), " has invalid font parameters"));
            }
            tools.push(Toolchain::Fonttools);
            proof {
                assert forall|t: Toolchain| tools@.to_set().contains(t) == set![Toolchain::Fonttools].contains(t) by {
                    if t == Toolchain::Fonttools {
                        assert(tools@[0] == t);
                    }
                }
                assert(tools@.to_set() =~= set![Toolchain::Fonttools]);
            }
            (ArtifactFormat::Woff2, 0u64, 0u64, 0u64)
        },
        JobOperation::Scene3d {
            max_triangles,
            max_draw_calls,
            max_texture_dimension,
            requires_blender,
            ..
        } => {
            if *max_triangles == 0 || *max_draw_calls == 0 || *max_texture_dimension == 0
                || *max_texture_dimension > 16384 {
                return Err(job_error(job.id.as_str(), " has invalid 3D parameters"));
            }
            tools.push(Toolchain::GltfTransform);
            tools.push(Toolchain::Ktx2Encoder);
            if *requires_blender {
                tools.push(Toolchain::Blender);
            }
            proof {
                let expected = if *requires_blender {
                    set![Toolchain::GltfTransform, Toolchain::Ktx2Encoder, Toolchain::Blender]
                } else {
                    set![Toolchain::GltfTransform, Toolchain::Ktx2Encoder]
                };
                assert forall|t: Toolchain| tools@.to_set().contains(t) == expected.contains(t) by {
                    if t == Toolchain::GltfTransform {
                        assert(tools@[0] == t);
                    }
                    if t == Toolchain::Ktx2Encoder {
                        assert(tools@[1] == t);
                    }
                    if t == Toolchain::Blender && *requires_blender {
                        assert(tools@[2] == t);
                    }
                }
                assert(tools@.to_set() =~= expected);
                let d = *max_texture_dimension;
                assert(d * d * 4 <= 0xFFFF_FFFF_FFFF_FFFFu64) by (nonlinear_arith)
                    requires
                        d <= 16384,
                ;
            }
            let decoded = match rgba_bytes(*max_texture_dimension, *max_texture_dimension) {
                Ok(n) => n,
                Err(e) => {
                    return Err(e);
                },
            };
            (ArtifactFormat::Glb, decoded, *max_triangles, *max_draw_calls)
        },
    };
    let group_ok = match (&job.operation, &job.selection_group) {
        (JobOperation::FontSubset { .. }, None) => true,
        (JobOperation::FontSubset { .. }, Some(_)) => false,
        (_, None) => false,
        (_, Some(g)) => {
            let a = chars_of(g.as_str());
            let b = chars_of(job.source_id.as_str());
            match crate::text::compare_chars(a.as_slice(), b.as_slice()) {
                crate::text::TextOrder::Equal => true,
                _ => false,
            }
        },
    };
    if job.format != format || !same_toolchains(job.required_toolchains.as_slice(), tools.as_slice())
        || job.estimated_decoded_bytes != decoded || job.estimated_triangles != triangles
        || job.estimated_draw_calls != draw_calls || !group_ok {
        return Err(job_error(job.id.as_str(), " format, toolchains, or estimates do not match its operation"));
    }
    Ok(())
}

} // verus!

verus! {

/// What a variant adds to counter `k` outside any selection group.
pub open spec fn ungrouped_term(v: PublishedVariant, tier: Tier, k: int) -> nat {
    if applies(v, tier) && group_of(v) is None {
        contribution(v, k)
    } else {
        0
    }
}

/// What a variant offers to the worst alternative of group `g`.
pub open spec fn group_term(v: PublishedVariant, tier: Tier, g: Seq<char>, k: int) -> nat {
    if applies(v, tier) && group_of(v) == Some(g) {
        contribution(v, k)
    } else {
        0
    }
}

pub open spec fn nat_max(a: nat, b: nat) -> nat {
    if a >= b {
        a
    } else {
        b
    }
}

proof fn lemma_ungrouped_remove(s: Seq<PublishedVariant>, tier: Tier, k: int, i: int)
    requires
        0 <= i < s.len(),
    ensures
        ungrouped_sum(s, tier, k) == ungrouped_sum(s.remove(i), tier, k) + ungrouped_term(s[i], tier, k),
    decreases s.len(),
{
    if i == s.len() - 1 {
        assert(s.remove(i) =~= s.drop_last());
    } else {
        let t = s.drop_last();
        lemma_ungrouped_remove(t, tier, k, i);
        assert(s.remove(i).drop_last() =~= t.remove(i));
        assert(s.remove(i).last() == s.last());
    }
}

proof fn lemma_worst_remove(s: Seq<PublishedVariant>, tier: Tier, g: Seq<char>, k: int, i: int)
    requires
        0 <= i < s.len(),
    ensures
        group_worst(s, tier, g, k) == nat_max(group_worst(s.remove(i), tier, g, k), group_term(s[i], tier, g, k)),
    decreases s.len(),
{
    if i == s.len() - 1 {
        assert(s.remove(i) =~= s.drop_last());
    } else {
        let t = s.drop_last();
        lemma_worst_remove(t, tier, g, k, i);
        assert(s.remove(i).drop_last() =~= t.remove(i));
        assert(s.remove(i).last() == s.last());
    }
}

/// The index of `x` in a sequence that holds it.
proof fn lemma_find<A>(s: Seq<A>, x: A) -> (i: int)
    requires
        s.to_multiset().count(x) > 0,
    ensures
        0 <= i < s.len(),
        s[i] == x,
{
    broadcast use vstd::seq_lib::group_to_multiset_ensures;
    assert(s.contains(x));
    choose|i: int| 0 <= i < s.len() && s[i] == x
}

proof fn lemma_rest_multiset<A>(a: Seq<A>, b: Seq<A>, i: int)
    requires
        a.len() > 0,
        a.to_multiset() == b.to_multiset(),
        0 <= i < b.len(),
        b[i] == a.last(),
    ensures
        a.drop_last().to_multiset() == b.remove(i).to_multiset(),
{
    broadcast use vstd::seq_lib::group_to_multiset_ensures;
    assert(a.remove(a.len() - 1) =~= a.drop_last());
}

proof fn lemma_ungrouped_perm(a: Seq<PublishedVariant>, b: Seq<PublishedVariant>, tier: Tier, k: int)
    requires
        a.to_multiset() == b.to_multiset(),
    ensures
        ungrouped_sum(a, tier, k) == ungrouped_sum(b, tier, k),
    decreases a.len(),
{
    broadcast use vstd::seq_lib::group_to_multiset_ensures;
    if a.len() == 0 {
        assert(a.to_multiset().len() == 0);
        assert(b.to_multiset().len() == b.len());
    } else {
        assert(a.contains(a.last()));
        let i = lemma_find(b, a.last());
        lemma_rest_multiset(a, b, i);
        lemma_ungrouped_perm(a.drop_last(), b.remove(i), tier, k);
        lemma_ungrouped_remove(b, tier, k, i);
    }
}

proof fn lemma_worst_perm(a: Seq<PublishedVariant>, b: Seq<PublishedVariant>, tier: Tier, g: Seq<char>, k: int)
    requires
        a.to_multiset() == b.to_multiset(),
    ensures
        group_worst(a, tier, g, k) == group_worst(b, tier, g, k),
    decreases a.len(),
{
    broadcast use vstd::seq_lib::group_to_multiset_ensures;
    if a.len() == 0 {
        assert(a.to_multiset().len() == 0);
        assert(b.to_multiset().len() == b.len());
    } else {
        assert(a.contains(a.last()));
        let i = lemma_find(b, a.last());
        lemma_rest_multiset(a, b, i);
        lemma_worst_perm(a.drop_last(), b.remove(i), tier, g, k);
        lemma_worst_remove(b, tier, g, k, i);
    }
}

/// Whether a selection group has an applicable variant.
pub open spec fn group_present(vs: Seq<PublishedVariant>, tier: Tier, g: Seq<char>) -> bool {
    exists|j: int| 0 <= j < vs.len() && applies(vs[j], tier) && #[trigger] group_of(vs[j]) == Some(g)
}

proof fn lemma_group_names(vs: Seq<PublishedVariant>, tier: Tier)
    ensures
        group_names(vs, tier).no_duplicates(),
        forall|g: Seq<char>| #[trigger] group_names(vs, tier).contains(g) <==> group_present(vs, tier, g),
    decreases vs.len(),
{
    if vs.len() > 0 {
        let t = vs.drop_last();
        lemma_group_names(t, tier);
        let v = vs.last();
        let prev = group_names(t, tier);
        let pushed = applies(v, tier) && group_of(v) is Some && !prev.contains(group_of(v)->0);
        if pushed {
            assert(group_names(vs, tier) == prev.push(group_of(v)->0));
            assert(prev.push(group_of(v)->0).no_duplicates()) by {
                let q = prev.push(group_of(v)->0);
                assert forall|x: int, y: int| 0 <= x < q.len() && 0 <= y < q.len() && x != y implies q[x] != q[y] by {
                    if x == prev.len() {
                        assert(q[y] == prev[y]);
                        assert(prev.contains(prev[y]));
                    } else if y == prev.len() {
                        assert(q[x] == prev[x]);
                        assert(prev.contains(prev[x]));
                    }
                }
            }
        } else {
            assert(group_names(vs, tier) == prev);
        }
        assert(group_of(vs[vs.len() - 1]) == group_of(v));
        assert forall|g: Seq<char>| #[trigger] group_names(vs, tier).contains(g) <==> group_present(vs, tier, g) by {
            if pushed {
                let q = prev.push(group_of(v)->0);
                if q.contains(g) && !prev.contains(g) {
                    let m = choose|m: int| 0 <= m < q.len() && q[m] == g;
                    if m < prev.len() {
                        assert(prev[m] == g);
                    }
                    assert(g == group_of(v)->0);
                }
                if prev.contains(g) {
                    let m = choose|m: int| 0 <= m < prev.len() && prev[m] == g;
                    assert(q[m] == g);
                }
                if g == group_of(v)->0 {
                    assert(q[prev.len() as int] == g);
                }
            }
            if applies(v, tier) && group_of(v) == Some(g) && !pushed {
                assert(prev.contains(g));
            }
            if group_present(vs, tier, g) {
                let j = choose|j: int| 0 <= j < vs.len() && applies(vs[j], tier) && #[trigger] group_of(vs[j]) == Some(g);
                if j < t.len() {
                    assert(t[j] == vs[j]);
                    assert(group_present(t, tier, g));
                }
            }
            if group_present(t, tier, g) {
                let j = choose|j: int| 0 <= j < t.len() && applies(t[j], tier) && #[trigger] group_of(t[j]) == Some(g);
                assert(vs[j] == t[j]);
            }
        }
    }
}

proof fn lemma_grouped_remove(vs: Seq<PublishedVariant>, tier: Tier, names: Seq<Seq<char>>, k: int, i: int)
    requires
        0 <= i < names.len(),
    ensures
        grouped_sum(vs, tier, names, k) == grouped_sum(vs, tier, names.remove(i), k) + group_worst(vs, tier, names[i], k),
    decreases names.len(),
{
    if i == names.len() - 1 {
        assert(names.remove(i) =~= names.drop_last());
    } else {
        let t = names.drop_last();
        lemma_grouped_remove(vs, tier, t, k, i);
        assert(names.remove(i).drop_last() =~= t.remove(i));
        assert(names.remove(i).last() == names.last());
    }
}

/// Two duplicate-free lists of the same groups give the same grouped sum.
proof fn lemma_grouped_names_perm(vs: Seq<PublishedVariant>, tier: Tier, n1: Seq<Seq<char>>, n2: Seq<Seq<char>>, k: int)
    requires
        n1.no_duplicates(),
        n2.no_duplicates(),
        forall|g: Seq<char>| #[trigger] n1.contains(g) <==> n2.contains(g),
    ensures
        grouped_sum(vs, tier, n1, k) == grouped_sum(vs, tier, n2, k),
    decreases n1.len(),
{
    if n1.len() == 0 {
        if n2.len() > 0 {
            assert(n2.contains(n2[0]));
            assert(!n1.contains(n2[0]));
        }
    } else {
        let x = n1.last();
        assert(n1.contains(x));
        let i = choose|i: int| 0 <= i < n2.len() && n2[i] == x;
        let r1 = n1.drop_last();
        let r2 = n2.remove(i);
        assert forall|g: Seq<char>| #[trigger] r1.contains(g) <==> r2.contains(g) by {
            if r1.contains(g) {
                let j = choose|j: int| 0 <= j < r1.len() && r1[j] == g;
                assert(n1[j] == g && j != n1.len() - 1);
                assert(g != x);
                assert(n1.contains(g));
                assert(n2.contains(g));
                let m = choose|m: int| 0 <= m < n2.len() && n2[m] == g;
                assert(m != i);
                if m < i {
                    assert(r2[m] == g);
                } else {
                    assert(r2[m - 1] == g);
                }
            }
            if r2.contains(g) {
                let j = choose|j: int| 0 <= j < r2.len() && r2[j] == g;
                if j < i {
                    assert(n2[j] == g && j != i);
                } else {
                    assert(n2[j + 1] == g && j + 1 != i);
                }
                assert(g != x);
                assert(n2.contains(g));
                assert(n1.contains(g));
                let m = choose|m: int| 0 <= m < n1.len() && n1[m] == g;
                assert(m != n1.len() - 1);
                assert(r1[m] == g);
            }
        }
        assert(r2.no_duplicates()) by {
            assert forall|p: int, q: int| 0 <= p < r2.len() && 0 <= q < r2.len() && p != q implies r2[p] != r2[q] by {
                let pp = if p < i { p } else { p + 1 };
                let qq = if q < i { q } else { q + 1 };
                assert(r2[p] == n2[pp] && r2[q] == n2[qq]);
            }
        }
        lemma_grouped_names_perm(vs, tier, r1, r2, k);
        lemma_grouped_remove(vs, tier, n2, k, i);
    }
}

proof fn lemma_grouped_vs_perm(
    a: Seq<PublishedVariant>,
    b: Seq<PublishedVariant>,
    tier: Tier,
    names: Seq<Seq<char>>,
    k: int,
)
    requires
        a.to_multiset() == b.to_multiset(),
    ensures
        grouped_sum(a, tier, names, k) == grouped_sum(b, tier, names, k),
    decreases names.len(),
{
    if names.len() > 0 {
        lemma_grouped_vs_perm(a, b, tier, names.drop_last(), k);
        lemma_worst_perm(a, b, tier, names.last(), k);
    }
}

proof fn lemma_present_perm(a: Seq<PublishedVariant>, b: Seq<PublishedVariant>, tier: Tier, g: Seq<char>)
    requires
        a.to_multiset() == b.to_multiset(),
        group_present(a, tier, g),
    ensures
        group_present(b, tier, g),
{
    broadcast use vstd::seq_lib::group_to_multiset_ensures;
    let j = choose|j: int| 0 <= j < a.len() && applies(a[j], tier) && #[trigger] group_of(a[j]) == Some(g);
    assert(a.contains(a[j]));
    let i = lemma_find(b, a[j]);
    assert(group_of(b[i]) == Some(g));
}

/// The totals of a tier do not depend on the order of the variants.
pub proof fn law_totals_ignore_variant_order(a: Seq<PublishedVariant>, b: Seq<PublishedVariant>, tier: Tier, k: int)
    requires
        a.to_multiset() == b.to_multiset(),
    ensures
        field_total(a, tier, k) == field_total(b, tier, k),
{
    lemma_ungrouped_perm(a, b, tier, k);
    lemma_group_names(a, tier);
    lemma_group_names(b, tier);
    assert forall|g: Seq<char>| #[trigger] group_names(a, tier).contains(g) <==> group_names(b, tier).contains(g) by {
        if group_present(a, tier, g) {
            lemma_present_perm(a, b, tier, g);
        }
        if group_present(b, tier, g) {
            lemma_present_perm(b, a, tier, g);
        }
    }
    lemma_grouped_vs_perm(a, b, tier, group_names(a, tier), k);
    lemma_grouped_names_perm(b, tier, group_names(a, tier), group_names(b, tier), k);
}

/// Evaluating budgets does not depend on the order of the variants: the same
/// profiles are computable and give the same rows.
pub proof fn law_budgets_ignore_variant_order(
    profiles: Seq<DeviceBudgetProfile>,
    a: Seq<PublishedVariant>,
    b: Seq<PublishedVariant>,
)
    requires
        a.to_multiset() == b.to_multiset(),
    ensures
        budgets_computable(profiles, a) == budgets_computable(profiles, b),
        budget_rows(profiles, a) == budget_rows(profiles, b),
{
    assert forall|tier: Tier, k: int| #[trigger] field_total(a, tier, k) == field_total(b, tier, k) by {
        law_totals_ignore_variant_order(a, b, tier, k);
    }
    assert forall|tier: Tier| #[trigger] totals_of(a, tier) == totals_of(b, tier) by {
        assert(field_total(a, tier, 0) == field_total(b, tier, 0));
        assert(field_total(a, tier, 1) == field_total(b, tier, 1));
        assert(field_total(a, tier, 2) == field_total(b, tier, 2));
        assert(field_total(a, tier, 3) == field_total(b, tier, 3));
        assert(field_total(a, tier, 4) == field_total(b, tier, 4));
        assert(field_total(a, tier, 5) == field_total(b, tier, 5));
        assert(field_total(a, tier, 6) == field_total(b, tier, 6));
    }
    assert forall|tier: Tier| #[trigger] budget_totals_fit(a, tier) == budget_totals_fit(b, tier) by {
        assert(field_total(a, tier, 6) == field_total(b, tier, 6));
        if budget_totals_fit(a, tier) {
            assert forall|k: int| 0 <= k < 6 implies #[trigger] field_total(b, tier, k) <= u64::MAX by {
                assert(field_total(a, tier, k) == field_total(b, tier, k));
            }
        }
        if budget_totals_fit(b, tier) {
            assert forall|k: int| 0 <= k < 6 implies #[trigger] field_total(a, tier, k) <= u64::MAX by {
                assert(field_total(a, tier, k) == field_total(b, tier, k));
            }
        }
    }
    lemma_rows_equal(profiles, a, b);
}

proof fn lemma_rows_equal(profiles: Seq<DeviceBudgetProfile>, a: Seq<PublishedVariant>, b: Seq<PublishedVariant>)
    requires
        forall|tier: Tier| #[trigger] totals_of(a, tier) == totals_of(b, tier),
    ensures
        budget_rows(profiles, a) == budget_rows(profiles, b),
    decreases profiles.len(),
{
    if profiles.len() > 0 {
        lemma_rows_equal(profiles.drop_last(), a, b);
        let p = profiles.last();
        assert(profile_rows(p, a) =~= profile_rows(p, b)) by {
            assert forall|j: int| 0 <= j < p.tiers@.len() implies profile_rows(p, a)[j] == profile_rows(p, b)[j] by {
                assert(totals_of(a, p.tiers@[j].tier) == totals_of(b, p.tiers@[j].tier));
            }
        }
    }
}

} // verus!
