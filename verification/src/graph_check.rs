//! Binding a build graph to the receipt that covers it: the same project and
//! source set, the same sources, and exactly the payload artifacts of the
//! receipt, with their metadata.
use vstd::prelude::*;
use crate::build_graph::{graph_fault, validate_build_graph, BuildGraph, GraphArtifact, GraphSource};
use crate::portable::ArtifactError;
use crate::receipt::{
    from_fault, refused, report_fault, validate_report, BuildReport, EvidenceFile, OutputFile, Refusal,
};
use crate::sorting::{keys_adjacent_strict, keys_strictly_ascending, lemma_adjacent_strict_is_strict, SortKey};
use crate::text::{
    debug_quoted, debug_text, first_some, lemma_first_some_at, lemma_first_some_none, lemma_seq_lt_irreflexive,
    lemma_seq_lt_total, push_str, seq_lt, str_eq, str_lt,
};

verus! {

broadcast use vstd::string::group_string_axioms;

/// Name of the build graph in an output tree.
pub const BUILD_GRAPH_NAME: &'static str = "pliego.graph.json";

/// The graph's sources are the receipt's, path and digest, in order.
pub open spec fn same_sources(g: Seq<GraphSource>, s: Seq<EvidenceFile>) -> bool {
    &&& g.len() == s.len()
    &&& forall|i: int| 0 <= i < g.len() ==> (#[trigger] g[i]).path@ == s[i].path@ && g[i].sha256@ == s[i].sha256@
}

/// Outputs among the first `k` that are payload, not the graph itself.
pub open spec fn payload_count(files: Seq<OutputFile>, k: int) -> int
    decreases k,
{
    if k <= 0 {
        0
    } else {
        payload_count(files, k - 1) + if files[k - 1].path@ == BUILD_GRAPH_NAME@ {
            0int
        } else {
            1int
        }
    }
}

pub open spec fn declares(files: Seq<OutputFile>, p: Seq<char>) -> bool {
    exists|j: int| 0 <= j < files.len() && (#[trigger] files[j]).path@ == p
}

/// The check of the `i`-th artifact of the graph against the receipt's
/// outputs.
pub open spec fn artifact_binding_fault(arts: Seq<GraphArtifact>, files: Seq<OutputFile>, i: int) -> Option<Refusal> {
    let a = arts[i];
    if a.path@ == BUILD_GRAPH_NAME@ || !declares(files, a.path@) {
        Some(Refusal::Receipt("build graph contains undeclared artifact "@ + debug_text(a.path@)))
    } else {
        let f = files[choose|j: int| 0 <= j < files.len() && (#[trigger] files[j]).path@ == a.path@];
        if a.kind@ != f.kind@ || a.producer@ != f.producer@ || a.sha256@ != f.sha256@ {
            Some(Refusal::Receipt("build graph metadata does not match artifact "@ + debug_text(a.path@)))
        } else {
            None
        }
    }
}

/// Everything `validate_build_graph_against_report` refuses, in its order.
pub open spec fn binding_fault(g: BuildGraph, r: BuildReport, source_set_json: Seq<u8>, outputs_json: Seq<u8>, receipt_json: Seq<u8>) -> Option<
    Refusal,
> {
    let c = r.receipt.context;
    let files = r.receipt.outputs.files@;
    if graph_fault(g) is Some {
        from_fault(graph_fault(g))
    } else if report_fault(r, source_set_json, outputs_json, receipt_json) is Some {
        report_fault(r, source_set_json, outputs_json, receipt_json)
    } else if g.project_id@ != c.ownership.project_id@ || g.source_set_sha256@ != c.source_set_sha256@ {
        Some(Refusal::Receipt("build graph identity does not match the artifact receipt"@))
    } else if !same_sources(g.sources@, c.sources@) {
        Some(Refusal::Receipt("build graph sources do not match the artifact receipt"@))
    } else if g.artifacts.len() != payload_count(files, files.len() as int) {
        Some(Refusal::Receipt("build graph does not cover the exact payload artifact set"@))
    } else {
        first_some(Seq::new(g.artifacts@.len(), |i: int| artifact_binding_fault(g.artifacts@, files, i)))
    }
}

/// Finds the output with path `p` in a list ordered strictly by path.
fn find_output(files: &Vec<OutputFile>, p: &str) -> (r: Option<usize>)
    requires
        keys_strictly_ascending(files@),
    ensures
        r matches Some(j) ==> j < files.len() && files@[j as int].path@ == p@,
        r is None ==> !declares(files@, p@),
{
    let mut lo: usize = 0;
    let mut hi: usize = files.len();
    while lo < hi
        invariant
            hi <= files.len(),
            lo <= hi,
            keys_strictly_ascending(files@),
            forall|j: int| 0 <= j < lo ==> seq_lt((#[trigger] files@[j]).path@, p@),
            forall|j: int| hi <= j < files.len() ==> seq_lt(p@, (#[trigger] files@[j]).path@),
        decreases hi - lo,
    {
        let mid = lo + (hi - lo) / 2;
        let key = files[mid].path.as_str();
        if str_eq(key, p) {
            return Some(mid);
        }
        if str_lt(key, p) {
            proof {
                assert forall|j: int| 0 <= j < mid + 1 implies seq_lt((#[trigger] files@[j]).path@, p@) by {
                    if j < mid {
                        assert(seq_lt(files@[j].sort_key(), files@[mid as int].sort_key()));
                        crate::text::lemma_seq_lt_transitive(files@[j].path@, files@[mid as int].path@, p@);
                    }
                }
            }
            lo = mid + 1;
        } else {
            proof {
                lemma_seq_lt_total(key@, p@);
                assert forall|j: int| mid <= j < files.len() implies seq_lt(p@, (#[trigger] files@[j]).path@) by {
                    if j > mid {
                        assert(seq_lt(files@[mid as int].sort_key(), files@[j].sort_key()));
                        crate::text::lemma_seq_lt_transitive(p@, files@[mid as int].path@, files@[j].path@);
                    }
                }
            }
            hi = mid;
        }
    }
    proof {
        assert forall|j: int| 0 <= j < files.len() implies (#[trigger] files@[j]).path@ != p@ by {
            if j < lo {
                lemma_seq_lt_irreflexive(files@[j].path@, p@);
            } else {
                lemma_seq_lt_irreflexive(p@, files@[j].path@);
            }
        }
    }
    None
}

fn count_payload(files: &Vec<OutputFile>) -> (n: usize)
    ensures
        n == payload_count(files@, files@.len() as int),
{
    let mut n: usize = 0;
    let mut i: usize = 0;
    while i < files.len()
        invariant
            i <= files.len(),
            n == payload_count(files@, i as int),
            n <= i,
        decreases files.len() - i,
    {
        if !str_eq(files[i].path.as_str(), BUILD_GRAPH_NAME) {
            n = n + 1;
        }
        i = i + 1;
    }
    n
}

/// Checks a graph against the report that covers it: both valid (the report
/// given the JSON of its sources and materials, of its output list and of its
/// receipt), the same project and
/// source set, the receipt's sources, and one graph artifact for each payload
/// output of the receipt, with its kind, producer and digest.
pub fn validate_build_graph_against_report(
    graph: &BuildGraph,
    report: &BuildReport,
    source_set_json: &[u8],
    outputs_json: &[u8],
    receipt_json: &[u8],
) -> (r: Result<(), ArtifactError>)
    ensures
        refused(r, binding_fault(*graph, *report, source_set_json@, outputs_json@, receipt_json@)),
{
    match validate_build_graph(graph) {
        Ok(()) => {},
        Err(e) => {
            return Err(e);
        },
    }
    match validate_report(report, source_set_json, outputs_json, receipt_json) {
        Ok(()) => {},
        Err(e) => {
            return Err(e);
        },
    }
    let context = &report.receipt.context;
    if !str_eq(graph.project_id.as_str(), context.ownership.project_id.as_str()) || !str_eq(
        graph.source_set_sha256.as_str(),
        context.source_set_sha256.as_str(),
    ) {
        return Err(ArtifactError::InvalidReceipt("build graph identity does not match the artifact receipt".to_owned()));
    }
    let mut same = graph.sources.len() == context.sources.len();
    let mut i: usize = 0;
    while same && i < graph.sources.len()
        invariant
            same ==> graph.sources.len() == context.sources.len(),
            i <= graph.sources.len(),
            same ==> forall|k: int|
                0 <= k < i ==> (#[trigger] graph.sources@[k]).path@ == context.sources@[k].path@
                    && graph.sources@[k].sha256@ == context.sources@[k].sha256@,
            !same ==> !same_sources(graph.sources@, context.sources@),
        decreases graph.sources.len() - i,
    {
        if !str_eq(graph.sources[i].path.as_str(), context.sources[i].path.as_str()) || !str_eq(
            graph.sources[i].sha256.as_str(),
            context.sources[i].sha256.as_str(),
        ) {
            same = false;
        }
        i = i + 1;
    }
    if !same {
        return Err(ArtifactError::InvalidReceipt("build graph sources do not match the artifact receipt".to_owned()));
    }
    let files = &report.receipt.outputs.files;
    proof {
        assert(crate::receipt::outputs_fault(files@) is None);
        let checks = Seq::new(files@.len(), |k: int| crate::receipt::output_fault(files@, k));
        crate::text::lemma_first_some_none_all(checks);
        assert forall|k: int| 0 < k < files@.len() implies seq_lt(
            files@[k - 1].sort_key(),
            #[trigger] files@[k].sort_key(),
        ) by {
            assert(checks[k] is None);
        }
        assert(keys_adjacent_strict(files@));
        lemma_adjacent_strict_is_strict(files@);
    }
    if graph.artifacts.len() != count_payload(files) {
        return Err(
            ArtifactError::InvalidReceipt("build graph does not cover the exact payload artifact set".to_owned()),
        );
    }
    let arts = &graph.artifacts;
    let ghost checks = Seq::new(arts@.len(), |i: int| artifact_binding_fault(arts@, files@, i));
    let mut k: usize = 0;
    while k < arts.len()
        invariant
            checks == Seq::new(arts@.len(), |i: int| artifact_binding_fault(arts@, files@, i)),
            k <= arts.len(),
            keys_strictly_ascending(files@),
            files@ == report.receipt.outputs.files@,
            arts@ == graph.artifacts@,
            *context == report.receipt.context,
            graph_fault(*graph) is None,
            report_fault(*report, source_set_json@, outputs_json@, receipt_json@) is None,
            graph.project_id@ == context.ownership.project_id@,
            graph.source_set_sha256@ == context.source_set_sha256@,
            same_sources(graph.sources@, context.sources@),
            arts@.len() == payload_count(files@, files@.len() as int),
            forall|j: int| 0 <= j < k ==> (#[trigger] checks[j]) is None,
        decreases arts.len() - k,
    {
        let a = &arts[k];
        let found = if str_eq(a.path.as_str(), BUILD_GRAPH_NAME) {
            None
        } else {
            find_output(files, a.path.as_str())
        };
        match found {
            None => {
                let mut m = String::new();
                push_str(&mut m, "build graph contains undeclared artifact ");
                push_str(&mut m, debug_quoted(a.path.as_str()).as_str());
                proof {
                    assert(m@ =~= "build graph contains undeclared artifact "@ + debug_text(a.path@));
                    lemma_first_some_at(checks, k as int);
                }
                return Err(ArtifactError::InvalidReceipt(m));
            },
            Some(j) => {
                let f = &files[j];
                proof {
                    assert(declares(files@, a.path@));
                    let c = choose|c: int| 0 <= c < files@.len() && (#[trigger] files@[c]).path@ == a.path@;
                    if c != j as int {
                        if c < j {
                            assert(seq_lt(files@[c].sort_key(), files@[j as int].sort_key()));
                            lemma_seq_lt_irreflexive(files@[c].path@, files@[j as int].path@);
                        } else {
                            assert(seq_lt(files@[j as int].sort_key(), files@[c].sort_key()));
                            lemma_seq_lt_irreflexive(files@[j as int].path@, files@[c].path@);
                        }
                    }
                }
                if !str_eq(a.kind.as_str(), f.kind.as_str()) || !str_eq(a.producer.as_str(), f.producer.as_str())
                    || !str_eq(a.sha256.as_str(), f.sha256.as_str()) {
                    let mut m = String::new();
                    push_str(&mut m, "build graph metadata does not match artifact ");
                    push_str(&mut m, debug_quoted(a.path.as_str()).as_str());
                    proof {
                        assert(m@ =~= "build graph metadata does not match artifact "@ + debug_text(a.path@));
                        lemma_first_some_at(checks, k as int);
                    }
                    return Err(ArtifactError::InvalidReceipt(m));
                }
            },
        }
        assert(checks[k as int] is None);
        k = k + 1;
    }
    proof {
        lemma_first_some_none(checks);
    }
    Ok(())
}

} // verus!
