//! The decisions of publishing a plan's staged artifacts: their size, the
//! content address and record of each published variant, and the refusal
//! of a set that exceeds a device budget.
use vstd::prelude::*;
use crate::adaptive::{
    format_extension, option_text, AssetJob, Toolchain, BudgetResult, JobOperation, PublishedVariant, Tier,
};
use crate::adaptive_plan::{copy_policy, policy_view, recipe_outcome};
use crate::build_graph::sha_ok;
use crate::digest::{sha256_bytes, sha256_hex};
use crate::raster::AssetError;
use crate::text::push_str;
use crate::portable::prefix_chars;
use crate::text::{chars_of, string_from_chars};

verus! {

broadcast use vstd::string::group_string_axioms;

/// Largest staged artifact accepted.
pub const MAX_ARTIFACT_BYTES: u64 = 2 * 1024 * 1024 * 1024;

pub open spec fn artifact_size_fault(job_id: Seq<char>, bytes: u64) -> Option<Seq<char>> {
    if bytes == 0 || bytes > MAX_ARTIFACT_BYTES {
        Some("job "@ + job_id + " artifact bytes must be in 1..=2147483648"@)
    } else {
        None
    }
}

/// A staged artifact holds between 1 byte and 2 GiB.
pub fn check_artifact_size(job_id: &str, bytes: u64) -> (r: Result<(), AssetError>)
    ensures
        recipe_outcome(r, artifact_size_fault(job_id@, bytes)),
{
    if bytes == 0 || bytes > MAX_ARTIFACT_BYTES {
        let mut m = String::new();
        push_str(&mut m, "job ");
        push_str(&mut m, job_id);
        push_str(&mut m, " artifact bytes must be in 1..=2147483648");
        proof {
            assert(m@ =~= "job "@ + job_id@ + " artifact bytes must be in 1..=2147483648"@);
        }
        Err(AssetError::InvalidRecipe(m))
    } else {
        Ok(())
    }
}

/// A copy of a job operation.
pub fn copy_operation(op: &JobOperation) -> (c: JobOperation)
    ensures
        match (*op, c) {
            (JobOperation::FontSubset { glyphs: a, unicode_range: ra }, JobOperation::FontSubset {
                glyphs: b,
                unicode_range: rb,
            }) => a@ == b@ && option_text(ra) == option_text(rb),
            (JobOperation::FontSubset { .. }, _) => false,
            _ => c == *op,
        },
{
    match op {
        JobOperation::Image { width, height, format, quality } => JobOperation::Image {
            width: *width,
            height: *height,
            format: *format,
            quality: *quality,
        },
        JobOperation::Video { width, height, format, bitrate_kbps, max_fps, audio } => JobOperation::Video {
            width: *width,
            height: *height,
            format: *format,
            bitrate_kbps: *bitrate_kbps,
            max_fps: *max_fps,
            audio: *audio,
        },
        JobOperation::FontSubset { glyphs, unicode_range } => JobOperation::FontSubset {
            glyphs: glyphs.clone(),
            unicode_range: match unicode_range {
                Some(r) => Some(r.clone()),
                None => None,
            },
        },
        JobOperation::Scene3d {
            max_triangles,
            max_draw_calls,
            mesh_compression,
            texture_compression,
            max_texture_dimension,
            requires_blender,
        } => JobOperation::Scene3d {
            max_triangles: *max_triangles,
            max_draw_calls: *max_draw_calls,
            mesh_compression: *mesh_compression,
            texture_compression: *texture_compression,
            max_texture_dimension: *max_texture_dimension,
            requires_blender: *requires_blender,
        },
    }
}

/// Publishes the staged bytes of a job: refused unless they hold between 1
/// byte and 2 GiB; else the record of the job's artifact, with the size and
/// SHA-256 of `staged`.
pub fn publish_staged(job: &AssetJob, staged: &[u8]) -> (r: Result<PublishedVariant, AssetError>)
    ensures
        r is Err <==> artifact_size_fault(job.id@, staged@.len() as u64) is Some,
        recipe_outcome(r, artifact_size_fault(job.id@, staged@.len() as u64)),
        r matches Ok(v) ==> variant_of(v, *job, sha256_hex(staged@), staged@.len() as u64),
{
    let bytes = staged.len() as u64;
    match check_artifact_size(job.id.as_str(), bytes) {
        Ok(()) => {},
        Err(e) => {
            return Err(e);
        },
    }
    let digest = sha256_bytes(staged);
    Ok(published_variant(job, digest, bytes))
}

/// Where a variant is published: under its source, named by variant, the
/// first 16 digits of its digest, and its format's extension.
pub open spec fn published_path(job: AssetJob, digest: Seq<char>) -> Seq<char> {
    "assets/"@ + job.source_id@ + "/"@ + job.variant_id@ + "."@ + digest.take(16) + "."@ + format_extension(
        job.format,
    )
}

/// `v` records the artifact of `job` with digest `digest` and size `bytes`,
/// published under its content address.
pub open spec fn variant_of(v: PublishedVariant, job: AssetJob, digest: Seq<char>, bytes: u64) -> bool {
    &&& v.id@ == job.id@
    &&& v.source_id@ == job.source_id@
    &&& v.path@ == published_path(job, digest)
    &&& v.format == job.format
    &&& v.media_type@ == crate::adaptive::format_media_type(job.format)
    &&& option_text(v.selection_group) == option_text(job.selection_group)
    &&& v.required_toolchains@ == job.required_toolchains@
    &&& v.sha256@ == digest
    &&& v.bytes == bytes
    &&& policy_view(v.policy) == policy_view(job.policy)
    &&& v.estimated_decoded_bytes == job.estimated_decoded_bytes
    &&& v.estimated_triangles == job.estimated_triangles
    &&& v.estimated_draw_calls == job.estimated_draw_calls
    &&& match (job.operation, v.operation) {
        (JobOperation::FontSubset { glyphs: a, unicode_range: ra }, JobOperation::FontSubset {
            glyphs: b,
            unicode_range: rb,
        }) => a@ == b@ && option_text(ra) == option_text(rb),
        (JobOperation::FontSubset { .. }, _) => false,
        _ => v.operation == job.operation,
    }
}

/// The record of a job's artifact once published under its content address.
pub fn published_variant(job: &AssetJob, digest: String, bytes: u64) -> (v: PublishedVariant)
    requires
        sha_ok(digest@),
    ensures
        variant_of(v, *job, digest@, bytes),
{
    let digest_chars = chars_of(digest.as_str());
    let head = prefix_chars(digest_chars.as_slice(), 16);
    let short = string_from_chars(head.as_slice());
    let mut path = String::new();
    push_str(&mut path, "assets/");
    push_str(&mut path, job.source_id.as_str());
    push_str(&mut path, "/");
    push_str(&mut path, job.variant_id.as_str());
    push_str(&mut path, ".");
    push_str(&mut path, short.as_str());
    push_str(&mut path, ".");
    push_str(&mut path, job.format.extension());
    proof {
        assert(path@ =~= published_path(*job, digest@));
    }
    let mut tools: Vec<Toolchain> = Vec::new();
    let mut i: usize = 0;
    while i < job.required_toolchains.len()
        invariant
            i <= job.required_toolchains.len(),
            tools@ == job.required_toolchains@.take(i as int),
        decreases job.required_toolchains.len() - i,
    {
        tools.push(job.required_toolchains[i]);
        i = i + 1;
        proof {
            assert(job.required_toolchains@.take(i as int) =~= job.required_toolchains@.take(i - 1).push(
                job.required_toolchains@[i - 1],
            ));
        }
    }
    proof {
        assert(job.required_toolchains@.take(job.required_toolchains@.len() as int) =~= job.required_toolchains@);
    }
    PublishedVariant {
        id: job.id.clone(),
        source_id: job.source_id.clone(),
        path,
        format: job.format,
        media_type: job.format.media_type().to_owned(),
        selection_group: match &job.selection_group {
            Some(g) => Some(g.clone()),
            None => None,
        },
        required_toolchains: tools,
        operation: copy_operation(&job.operation),
        sha256: digest,
        bytes,
        policy: copy_policy(&job.policy),
        estimated_decoded_bytes: job.estimated_decoded_bytes,
        estimated_triangles: job.estimated_triangles,
        estimated_draw_calls: job.estimated_draw_calls,
    }
}

/// The name `Debug` prints for a tier.
pub open spec fn tier_name(t: Tier) -> Seq<char> {
    match t {
        Tier::Universal => "Universal"@,
        Tier::Lite => "Lite"@,
        Tier::Balanced => "Balanced"@,
        Tier::Signature => "Signature"@,
    }
}

/// `profile:Tier` for each failing result, joined by `, `.
pub open spec fn failure_list(rs: Seq<BudgetResult>) -> Seq<char>
    decreases rs.len(),
{
    if rs.len() == 0 {
        Seq::empty()
    } else {
        let before = failure_list(rs.drop_last());
        let r = rs.last();
        if r.pass {
            before
        } else if before.len() == 0 {
            r.profile_id@ + ":"@ + tier_name(r.tier)
        } else {
            before + ", "@ + r.profile_id@ + ":"@ + tier_name(r.tier)
        }
    }
}

/// Whether some budget result failed.
pub open spec fn any_failure(rs: Seq<BudgetResult>) -> bool {
    exists|k: int| 0 <= k < rs.len() && !(#[trigger] rs[k]).pass
}

pub proof fn lemma_failure_list_empty(rs: Seq<BudgetResult>)
    ensures
        failure_list(rs).len() == 0 <==> !any_failure(rs),
    decreases rs.len(),
{
    if rs.len() > 0 {
        lemma_failure_list_empty(rs.drop_last());
        if !rs.last().pass {
            reveal_strlit(":");
            assert(rs[rs.len() - 1] == rs.last());
            assert((rs.last().profile_id@ + ":"@).len() > 0);
        }
        if any_failure(rs.drop_last()) {
            let k = choose|k: int| 0 <= k < rs.drop_last().len() && !(#[trigger] rs.drop_last()[k]).pass;
            assert(rs[k] == rs.drop_last()[k]);
        }
        if any_failure(rs) {
            let k = choose|k: int| 0 <= k < rs.len() && !(#[trigger] rs[k]).pass;
            if k < rs.len() - 1 {
                assert(rs.drop_last()[k] == rs[k]);
            }
        }
    }
}

fn tier_label(t: Tier) -> (s: &'static str)
    ensures
        s@ == tier_name(t),
{
    match t {
        Tier::Universal => "Universal",
        Tier::Lite => "Lite",
        Tier::Balanced => "Balanced",
        Tier::Signature => "Signature",
    }
}

/// Refuses a published set when any profile's tier exceeds its budget,
/// naming every failing `profile:Tier`.
pub fn check_budget_results(results: &Vec<BudgetResult>) -> (r: Result<(), AssetError>)
    ensures
        recipe_outcome(
            r,
            if any_failure(results@) {
                Some("adaptive asset budgets exceeded for "@ + failure_list(results@))
            } else {
                None
            },
        ),
{
    let mut list = String::new();
    let mut any = false;
    let mut i: usize = 0;
    proof {
        assert(results@.take(0) =~= Seq::<BudgetResult>::empty());
    }
    while i < results.len()
        invariant
            i <= results.len(),
            list@ == failure_list(results@.take(i as int)),
            any == any_failure(results@.take(i as int)),
        decreases results.len() - i,
    {
        let r = &results[i];
        proof {
            assert(results@.take(i + 1).drop_last() =~= results@.take(i as int));
            assert(results@.take(i + 1).last() == *r);
        }
        proof {
            lemma_failure_list_empty(results@.take(i as int));
        }
        if !r.pass {
            if any {
                push_str(&mut list, ", ");
            }
            push_str(&mut list, r.profile_id.as_str());
            push_str(&mut list, ":");
            push_str(&mut list, tier_label(r.tier));
        }
        proof {
            let before = failure_list(results@.take(i as int));
            if !r.pass {
                if before.len() == 0 {
                    assert(list@ =~= r.profile_id@ + ":"@ + tier_name(r.tier));
                } else {
                    assert(list@ =~= before + ", "@ + r.profile_id@ + ":"@ + tier_name(r.tier));
                }
            }
            let now = results@.take(i + 1);
            if !r.pass {
                assert(now[i as int] == *r);
            }
            if any_failure(results@.take(i as int)) {
                let k = choose|k: int| 0 <= k < i && !(#[trigger] results@.take(i as int)[k]).pass;
                assert(now[k] == results@.take(i as int)[k]);
            }
            if any_failure(now) && r.pass {
                let k = choose|k: int| 0 <= k < i + 1 && !(#[trigger] now[k]).pass;
                assert(k < i);
                assert(results@.take(i as int)[k] == now[k]);
            }
        }
        if !r.pass {
            any = true;
        }
        i = i + 1;
    }
    proof {
        assert(results@.take(results@.len() as int) =~= results@);
        lemma_failure_list_empty(results@);
    }
    if any {
        let mut m = String::new();
        push_str(&mut m, "adaptive asset budgets exceeded for ");
        push_str(&mut m, list.as_str());
        proof {
            assert(m@ =~= "adaptive asset budgets exceeded for "@ + failure_list(results@));
        }
        Err(AssetError::InvalidRecipe(m))
    } else {
        Ok(())
    }
}

} // verus!
