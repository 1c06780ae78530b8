//! The causal build graph (source -> route -> artifact) emitted beside the
//! build receipt, and the checks that keep it canonical and self-consistent.
use vstd::prelude::*;
use crate::portable::{contains_char, ArtifactError, PortablePath, path_ok, path_model, MAX_PORTABLE_PATH_BYTES};
use crate::text::{
    ascii_digit, ascii_lower, chars_of, concat2, debug_text, first_some, lemma_first_some_at, lemma_first_some_none, debug_quoted, is_ascii_digit, is_ascii_lower, push_str, seq_lt,
    str_eq, str_lt, utf8_len, utf8_len_of,
};
use crate::digest::is_lower_hex;
use crate::raster::string_views;
use crate::adaptive::option_text;

verus! {

broadcast use vstd::string::group_string_axioms;

pub const BUILD_GRAPH_VERSION: &'static str = "1.0.0";

/// Most nodes of one kind (and most files) a receipt or graph may declare.
pub const MAX_ARTIFACT_FILES: usize = 100000;

/// A project source captured by the receipt and addressable by the graph.
#[derive(Clone, Debug)]
pub struct GraphSource {
    pub path: String,
    pub sha256: String,
}

/// The sources a route or artifact depends on: every source (the visible,
/// imprecise fallback) or an explicit list.
#[derive(Clone, Debug)]
pub enum SourceDependencies {
    AllSources,
    Explicit { paths: Vec<String> },
}

/// One public route and the artifact paths it emits.
#[derive(Clone, Debug)]
pub struct GraphRoute {
    pub route: String,
    pub sources: SourceDependencies,
    pub artifacts: Vec<String>,
}

/// One emitted payload with its route and source dependencies.
#[derive(Clone, Debug)]
pub struct GraphArtifact {
    pub path: String,
    pub kind: String,
    pub producer: String,
    pub route: Option<String>,
    pub sources: SourceDependencies,
    pub sha256: String,
}

/// Deterministic source -> route -> artifact evidence.
#[derive(Clone, Debug)]
pub struct BuildGraph {
    pub graph_version: String,
    pub project_id: String,
    pub source_set_sha256: String,
    pub sources: Vec<GraphSource>,
    pub routes: Vec<GraphRoute>,
    pub artifacts: Vec<GraphArtifact>,
}

/// What a failed check reports: a non-portable path, or a receipt message.
pub enum Fault {
    Path(Seq<char>),
    Receipt(Seq<char>),
}

/// Whether `e` is the error that reports `f`.
pub open spec fn reports_fault(e: ArtifactError, f: Fault) -> bool {
    match f {
        Fault::Path(p) => e matches ArtifactError::InvalidPath(s) && s@ == p,
        Fault::Receipt(m) => e matches ArtifactError::InvalidReceipt(s) && s@ == m,
    }
}

/// A check's result agrees with the fault its rules find, if any.
pub open spec fn outcome<T>(r: Result<T, ArtifactError>, f: Option<Fault>) -> bool {
    match f {
        None => r is Ok,
        Some(x) => r matches Err(e) && reports_fault(e, x),
    }
}

/// The earlier of two checks that fails.
pub open spec fn or_else(a: Option<Fault>, b: Option<Fault>) -> Option<Fault> {
    if a is Some {
        a
    } else {
        b
    }
}

/// 64 lowercase hexadecimal digits.
pub open spec fn sha_ok(s: Seq<char>) -> bool {
    s.len() == 64 && forall|k: int| 0 <= k < 64 ==> is_lower_hex(#[trigger] s[k])
}

pub open spec fn sha_fault(s: Seq<char>, label: Seq<char>) -> Option<Fault> {
    if sha_ok(s) {
        None
    } else {
        Some(Fault::Receipt(label + " has an invalid SHA-256"@))
    }
}

/// Lowercase ASCII first, then lowercase letters, digits and `-`, at most 64.
pub open spec fn project_id_ok(s: Seq<char>) -> bool {
    &&& 0 < s.len() <= 64
    &&& is_ascii_lower(s[0])
    &&& forall|k: int|
        0 <= k < s.len() ==> is_ascii_lower(#[trigger] s[k]) || is_ascii_digit(s[k]) || s[k] == '-'
}

pub open spec fn project_fault(s: Seq<char>) -> Option<Fault> {
    if project_id_ok(s) {
        None
    } else {
        Some(Fault::Receipt("invalid project id "@ + debug_text(s)))
    }
}

/// Checks a SHA-256 hex digest.
pub fn validate_sha256(value: &str, label: &str) -> (r: Result<(), ArtifactError>)
    ensures
        outcome(r, sha_fault(value@, label@)),
{
    let chars = chars_of(value);
    let mut ok = chars.len() == 64;
    let mut i: usize = 0;
    while ok && i < chars.len()
        invariant
            chars@ == value@,
            i <= chars.len(),
            ok ==> chars.len() == 64,
            ok ==> forall|k: int| 0 <= k < i ==> is_lower_hex(#[trigger] chars@[k]),
            !ok ==> !sha_ok(value@),
        decreases chars.len() - i,
    {
        let v = chars[i] as u32;
        if !((0x30 <= v && v <= 0x39) || (0x61 <= v && v <= 0x66)) {
            proof {
                assert(!is_lower_hex(value@[i as int]));
            }
            ok = false;
        }
        i = i + 1;
    }
    if ok {
        Ok(())
    } else {
        Err(ArtifactError::InvalidReceipt(concat2(label, " has an invalid SHA-256")))
    }
}

/// Checks a project id.
pub fn validate_project_id(value: &str) -> (r: Result<(), ArtifactError>)
    ensures
        outcome(r, project_fault(value@)),
{
    let chars = chars_of(value);
    let mut ok = chars.len() > 0 && chars.len() <= 64 && ascii_lower(chars[0]);
    let mut i: usize = 0;
    while ok && i < chars.len()
        invariant
            chars@ == value@,
            i <= chars.len(),
            ok ==> 0 < chars.len() <= 64 && is_ascii_lower(chars@[0]),
            ok ==> forall|k: int|
                0 <= k < i ==> is_ascii_lower(#[trigger] chars@[k]) || is_ascii_digit(chars@[k])
                    || chars@[k] == '-',
            !ok ==> !project_id_ok(value@),
        decreases chars.len() - i,
    {
        let c = chars[i];
        if !(ascii_lower(c) || ascii_digit(c) || c == '-') {
            proof {
                assert(!(is_ascii_lower(value@[i as int]) || is_ascii_digit(value@[i as int])
                    || value@[i as int] == '-'));
            }
            ok = false;
        }
        i = i + 1;
    }
    if ok {
        Ok(())
    } else {
        let mut m = String::new();
        push_str(&mut m, "invalid project id ");
        push_str(&mut m, debug_quoted(value).as_str());
        proof {
            assert(m@ =~= "invalid project id "@ + debug_text(value@));
        }
        Err(ArtifactError::InvalidReceipt(m))
    }
}

/// The check of the `k`-th path of a list that must be portable, canonical
/// and strictly increasing.
pub open spec fn strict_path_fault(paths: Seq<Seq<char>>, k: int, label: Seq<char>) -> Option<Fault> {
    let p = paths[k];
    if !path_ok(p) {
        Some(Fault::Path(p))
    } else if path_model(p).value != p || (k > 0 && !seq_lt(paths[k - 1], p)) {
        Some(
            Fault::Receipt(
                "build graph "@ + label + " are duplicated, non-canonical, or not strictly ordered"@,
            ),
        )
    } else {
        None
    }
}

pub open spec fn strict_paths_fault(paths: Seq<Seq<char>>, label: Seq<char>) -> Option<Fault> {
    first_some(Seq::new(paths.len(), |k: int| strict_path_fault(paths, k, label)))
}

/// Checks that paths are portable, canonical (NFC) and strictly increasing.
pub fn validate_strict_portable_paths(paths: &Vec<String>, label: &str) -> (r: Result<(), ArtifactError>)
    ensures
        outcome(r, strict_paths_fault(string_views(paths@), label@)),
{
    let ghost views = string_views(paths@);
    let ghost checks = Seq::new(views.len(), |k: int| strict_path_fault(views, k, label@));
    let mut i: usize = 0;
    while i < paths.len()
        invariant
            views == string_views(paths@),
            checks == Seq::new(views.len(), |k: int| strict_path_fault(views, k, label@)),
            i <= paths.len(),
            forall|k: int| 0 <= k < i ==> (#[trigger] checks[k]) is None,
        decreases paths.len() - i,
    {
        let portable = match PortablePath::parse(paths[i].as_str()) {
            Ok(p) => p,
            Err(e) => {
                proof {
                    lemma_first_some_at(checks, i as int);
                }
                return Err(e);
            },
        };
        let canonical = str_eq(portable.as_str(), paths[i].as_str());
        let ordered = i == 0 || str_lt(paths[i - 1].as_str(), paths[i].as_str());
        if !canonical || !ordered {
            let mut m = String::new();
            push_str(&mut m, "build graph ");
            push_str(&mut m, label);
            push_str(&mut m, " are duplicated, non-canonical, or not strictly ordered");
            proof {
                assert(m@ =~= "build graph "@ + label@ + " are duplicated, non-canonical, or not strictly ordered"@);
                lemma_first_some_at(checks, i as int);
            }
            return Err(ArtifactError::InvalidReceipt(m));
        }
        assert(checks[i as int] is None);
        i = i + 1;
    }
    proof {
        lemma_first_some_none(checks);
    }
    Ok(())
}

/// The dependency paths, or `None` for every source.
pub open spec fn deps_view(d: SourceDependencies) -> Option<Seq<Seq<char>>> {
    match d {
        SourceDependencies::AllSources => None,
        SourceDependencies::Explicit { paths } => Some(string_views(paths@)),
    }
}

pub open spec fn known_source_fault(paths: Seq<Seq<char>>, known: Seq<Seq<char>>, k: int) -> Option<Fault> {
    if known.contains(paths[k]) {
        None
    } else {
        Some(
            Fault::Receipt(
                "build graph dependency "@ + debug_text(paths[k]) + " is not a captured project source"@,
            ),
        )
    }
}

/// The check of a dependency list against the captured sources `known`.
pub open spec fn deps_fault(d: Option<Seq<Seq<char>>>, known: Seq<Seq<char>>) -> Option<Fault> {
    match d {
        None => None,
        Some(paths) => if paths.len() == 0 {
            Some(Fault::Receipt("explicit build graph dependencies cannot be empty"@))
        } else {
            or_else(
                strict_paths_fault(paths, "source dependencies"@),
                first_some(Seq::new(paths.len(), |k: int| known_source_fault(paths, known, k))),
            )
        },
    }
}

pub open spec fn source_paths(sources: Seq<GraphSource>) -> Seq<Seq<char>> {
    sources.map_values(|s: GraphSource| s.path@)
}

fn has_source(sources: &Vec<GraphSource>, path: &str) -> (b: bool)
    ensures
        b == source_paths(sources@).contains(path@),
{
    let mut i: usize = 0;
    while i < sources.len()
        invariant
            i <= sources.len(),
            forall|k: int| 0 <= k < i ==> sources@[k].path@ != path@,
        decreases sources.len() - i,
    {
        if str_eq(sources[i].path.as_str(), path) {
            proof {
                assert(source_paths(sources@)[i as int] == path@);
            }
            return true;
        }
        i = i + 1;
    }
    proof {
        if source_paths(sources@).contains(path@) {
            let k = choose|k: int| 0 <= k < source_paths(sources@).len() && source_paths(sources@)[k] == path@;
            assert(sources@[k].path@ == path@);
        }
    }
    false
}

/// Checks explicit dependencies: non-empty, strictly ordered, and captured.
pub fn validate_graph_dependencies(dependencies: &SourceDependencies, sources: &Vec<GraphSource>) -> (r:
    Result<(), ArtifactError>)
    ensures
        outcome(r, deps_fault(deps_view(*dependencies), source_paths(sources@))),
{
    let paths = match dependencies {
        SourceDependencies::AllSources => {
            return Ok(());
        },
        SourceDependencies::Explicit { paths } => paths,
    };
    if paths.len() == 0 {
        return Err(ArtifactError::InvalidReceipt("explicit build graph dependencies cannot be empty".to_owned()));
    }
    match validate_strict_portable_paths(paths, "source dependencies") {
        Ok(()) => {},
        Err(e) => {
            return Err(e);
        },
    }
    let ghost views = string_views(paths@);
    let ghost known = source_paths(sources@);
    let ghost checks = Seq::new(views.len(), |k: int| known_source_fault(views, known, k));
    assert(deps_view(*dependencies) == Some(views));
    let mut i: usize = 0;
    while i < paths.len()
        invariant
            views == string_views(paths@),
            known == source_paths(sources@),
            checks == Seq::new(views.len(), |k: int| known_source_fault(views, known, k)),
            deps_view(*dependencies) == Some(views),
            strict_paths_fault(views, "source dependencies"@) is None,
            views.len() > 0,
            i <= paths.len(),
            forall|k: int| 0 <= k < i ==> (#[trigger] checks[k]) is None,
        decreases paths.len() - i,
    {
        if !has_source(sources, paths[i].as_str()) {
            let mut m = String::new();
            push_str(&mut m, "build graph dependency ");
            push_str(&mut m, debug_quoted(paths[i].as_str()).as_str());
            push_str(&mut m, " is not a captured project source");
            proof {
                assert(m@ =~= "build graph dependency "@ + debug_text(views[i as int])
                    + " is not a captured project source"@);
                lemma_first_some_at(checks, i as int);
                assert(first_some(Seq::new(views.len(), |k: int| known_source_fault(views, known, k)))
                    == checks[i as int]);
            }
            return Err(ArtifactError::InvalidReceipt(m));
        }
        assert(checks[i as int] is None);
        i = i + 1;
    }
    proof {
        lemma_first_some_none(checks);
        assert(deps_view(*dependencies) == Some(views));
    }
    Ok(())
}

pub open spec fn route_names(routes: Seq<GraphRoute>) -> Seq<Seq<char>> {
    routes.map_values(|r: GraphRoute| r.route@)
}

/// The check of the `i`-th source: portable, canonical, strictly after the
/// previous one, with a digest.
pub open spec fn source_fault(g: BuildGraph, i: int) -> Option<Fault> {
    let s = g.sources@[i];
    if !path_ok(s.path@) {
        Some(Fault::Path(s.path@))
    } else if path_model(s.path@).value != s.path@ || (i > 0 && !seq_lt(g.sources@[i - 1].path@, s.path@)) {
        Some(Fault::Receipt("build graph sources are duplicated, non-canonical, or not strictly ordered"@))
    } else {
        sha_fault(s.sha256@, "build graph source"@)
    }
}

/// Whether a route name is rejected on its own or for its place in the order.
pub open spec fn route_name_bad(g: BuildGraph, i: int) -> bool {
    let name = g.routes@[i].route@;
    ||| utf8_len(name) > MAX_PORTABLE_PATH_BYTES
    ||| name.len() == 0
    ||| name[0] != '/'
    ||| name.contains('\\')
    ||| name.contains('\0')
    ||| (i > 0 && !seq_lt(g.routes@[i - 1].route@, name))
}

/// The check of the `i`-th route: its name, its dependencies, its artifact list.
pub open spec fn route_fault(g: BuildGraph, i: int) -> Option<Fault> {
    let r = g.routes@[i];
    if route_name_bad(g, i) {
        Some(
            Fault::Receipt(
                "build graph route is invalid, duplicated, or not strictly ordered: "@ + debug_text(r.route@),
            ),
        )
    } else {
        or_else(
            deps_fault(deps_view(r.sources), source_paths(g.sources@)),
            strict_paths_fault(string_views(r.artifacts@), "route artifacts"@),
        )
    }
}

/// Whether an artifact node is rejected on its own or for its place in the order.
pub open spec fn artifact_shape_bad(g: BuildGraph, i: int) -> bool {
    let a = g.artifacts@[i];
    ||| path_model(a.path@).value != a.path@
    ||| (i > 0 && !seq_lt(g.artifacts@[i - 1].path@, a.path@))
    ||| a.kind@.len() == 0
    ||| utf8_len(a.kind@) > 64
    ||| a.producer@.len() == 0
    ||| utf8_len(a.producer@) > MAX_PORTABLE_PATH_BYTES
}

/// The check of the `i`-th artifact node.
pub open spec fn artifact_fault(g: BuildGraph, i: int) -> Option<Fault> {
    let a = g.artifacts@[i];
    if !path_ok(a.path@) {
        Some(Fault::Path(a.path@))
    } else if artifact_shape_bad(g, i) {
        Some(
            Fault::Receipt(
                "build graph artifact is invalid, duplicated, or not strictly ordered: "@ + debug_text(a.path@),
            ),
        )
    } else {
        match a.route {
            Some(route) => if !route_names(g.routes@).contains(route@) {
                Some(
                    Fault::Receipt(
                        "build graph artifact "@ + debug_text(a.path@) + " references unknown route "@
                            + debug_text(route@),
                    ),
                )
            } else {
                or_else(
                    deps_fault(deps_view(a.sources), source_paths(g.sources@)),
                    sha_fault(a.sha256@, "build graph artifact"@),
                )
            },
            None => or_else(
                deps_fault(deps_view(a.sources), source_paths(g.sources@)),
                sha_fault(a.sha256@, "build graph artifact"@),
            ),
        }
    }
}

/// The first artifact node with path `p`, if any.
pub open spec fn artifact_index(arts: Seq<GraphArtifact>, p: Seq<char>) -> Option<int> {
    if exists|k: int| 0 <= k < arts.len() && #[trigger] arts[k].path@ == p {
        Some(
            choose|k: int|
                0 <= k < arts.len() && #[trigger] arts[k].path@ == p && forall|m: int|
                    0 <= m < k ==> arts[m].path@ != p,
        )
    } else {
        None
    }
}

/// The check of the `j`-th artifact that route `i` lists: it exists, and it
/// names the route and the route's dependencies.
#[verifier::opaque]
pub open spec fn edge_fault(g: BuildGraph, i: int, j: int) -> Option<Fault> {
    let r = g.routes@[i];
    let p = r.artifacts@[j]@;
    match artifact_index(g.artifacts@, p) {
        None => Some(
            Fault::Receipt(
                "build graph route "@ + debug_text(r.route@) + " references unknown artifact "@ + debug_text(p),
            ),
        ),
        Some(k) => if option_text(g.artifacts@[k].route) != Some(r.route@) || deps_view(g.artifacts@[k].sources)
            != deps_view(r.sources) {
            Some(
                Fault::Receipt(
                    "build graph route "@ + debug_text(r.route@) + " and artifact "@ + debug_text(p)
                        + " disagree on their causal edge"@,
                ),
            )
        } else {
            None
        },
    }
}

#[verifier::opaque]
pub open spec fn route_edges_fault(g: BuildGraph, i: int) -> Option<Fault> {
    first_some(Seq::new(g.routes@[i].artifacts@.len(), |j: int| edge_fault(g, i, j)))
}

/// Everything `validate_build_graph` checks, in its order; `None` when the
/// graph is accepted.
pub open spec fn graph_fault(g: BuildGraph) -> Option<Fault> {
    if g.graph_version@ != BUILD_GRAPH_VERSION@ {
        Some(Fault::Receipt("unsupported build graph version "@ + debug_text(g.graph_version@)))
    } else {
        or_else(
            project_fault(g.project_id@),
            or_else(
                sha_fault(g.source_set_sha256@, "build graph source set"@),
                if g.sources@.len() > MAX_ARTIFACT_FILES || g.routes@.len() > MAX_ARTIFACT_FILES
                    || g.artifacts@.len() > MAX_ARTIFACT_FILES {
                    Some(Fault::Receipt("build graph exceeds 100000 nodes per kind"@))
                } else {
                    or_else(
                        first_some(Seq::new(g.sources@.len(), |i: int| source_fault(g, i))),
                        or_else(
                            first_some(Seq::new(g.routes@.len(), |i: int| route_fault(g, i))),
                            or_else(
                                first_some(Seq::new(g.artifacts@.len(), |i: int| artifact_fault(g, i))),
                                first_some(Seq::new(g.routes@.len(), |i: int| route_edges_fault(g, i))),
                            ),
                        ),
                    )
                },
            ),
        )
    }
}

fn check_sources(g: &BuildGraph) -> (r: Result<(), ArtifactError>)
    ensures
        outcome(r, first_some(Seq::new(g.sources@.len(), |i: int| source_fault(*g, i)))),
{
    let ghost checks = Seq::new(g.sources@.len(), |i: int| source_fault(*g, i));
    let mut i: usize = 0;
    while i < g.sources.len()
        invariant
            checks == Seq::new(g.sources@.len(), |i: int| source_fault(*g, i)),
            i <= g.sources.len(),
            forall|k: int| 0 <= k < i ==> (#[trigger] checks[k]) is None,
        decreases g.sources.len() - i,
    {
        let source = &g.sources[i];
        let portable = match PortablePath::parse(source.path.as_str()) {
            Ok(p) => p,
            Err(e) => {
                proof {
                    lemma_first_some_at(checks, i as int);
                }
                return Err(e);
            },
        };
        if !str_eq(portable.as_str(), source.path.as_str()) || (i > 0 && !str_lt(
            g.sources[i - 1].path.as_str(),
            source.path.as_str(),
        )) {
            proof {
                lemma_first_some_at(checks, i as int);
            }
            return Err(
                ArtifactError::InvalidReceipt(
                    "build graph sources are duplicated, non-canonical, or not strictly ordered".to_owned(),
                ),
            );
        }
        match validate_sha256(source.sha256.as_str(), "build graph source") {
            Ok(()) => {},
            Err(e) => {
                proof {
                    lemma_first_some_at(checks, i as int);
                }
                return Err(e);
            },
        }
        assert(checks[i as int] is None);
        i = i + 1;
    }
    proof {
        lemma_first_some_none(checks);
    }
    Ok(())
}

fn check_routes(g: &BuildGraph) -> (r: Result<(), ArtifactError>)
    ensures
        outcome(r, first_some(Seq::new(g.routes@.len(), |i: int| route_fault(*g, i)))),
{
    let ghost checks = Seq::new(g.routes@.len(), |i: int| route_fault(*g, i));
    let mut i: usize = 0;
    while i < g.routes.len()
        invariant
            checks == Seq::new(g.routes@.len(), |i: int| route_fault(*g, i)),
            i <= g.routes.len(),
            forall|k: int| 0 <= k < i ==> (#[trigger] checks[k]) is None,
        decreases g.routes.len() - i,
    {
        let route = &g.routes[i];
        let name = chars_of(route.route.as_str());
        let bad = utf8_len_of(name.as_slice()) > MAX_PORTABLE_PATH_BYTES || name.len() == 0 || name[0] != '/'
            || contains_char(name.as_slice(), '\\') || contains_char(name.as_slice(), '\0') || (i > 0
            && !str_lt(g.routes[i - 1].route.as_str(), route.route.as_str()));
        if bad {
            let mut m = String::new();
            push_str(&mut m, "build graph route is invalid, duplicated, or not strictly ordered: ");
            push_str(&mut m, debug_quoted(route.route.as_str()).as_str());
            proof {
                assert(route_name_bad(*g, i as int));
                assert(m@ =~= "build graph route is invalid, duplicated, or not strictly ordered: "@
                    + debug_text(route.route@));
                lemma_first_some_at(checks, i as int);
            }
            return Err(ArtifactError::InvalidReceipt(m));
        }
        match validate_graph_dependencies(&route.sources, &g.sources) {
            Ok(()) => {},
            Err(e) => {
                proof {
                    lemma_first_some_at(checks, i as int);
                }
                return Err(e);
            },
        }
        match validate_strict_portable_paths(&route.artifacts, "route artifacts") {
            Ok(()) => {},
            Err(e) => {
                proof {
                    lemma_first_some_at(checks, i as int);
                }
                return Err(e);
            },
        }
        assert(checks[i as int] is None);
        i = i + 1;
    }
    proof {
        lemma_first_some_none(checks);
    }
    Ok(())
}

fn has_route(routes: &Vec<GraphRoute>, name: &str) -> (b: bool)
    ensures
        b == route_names(routes@).contains(name@),
{
    let mut i: usize = 0;
    while i < routes.len()
        invariant
            i <= routes.len(),
            forall|k: int| 0 <= k < i ==> routes@[k].route@ != name@,
        decreases routes.len() - i,
    {
        if str_eq(routes[i].route.as_str(), name) {
            proof {
                assert(route_names(routes@)[i as int] == name@);
            }
            return true;
        }
        i = i + 1;
    }
    proof {
        if route_names(routes@).contains(name@) {
            let k = choose|k: int| 0 <= k < route_names(routes@).len() && route_names(routes@)[k] == name@;
            assert(routes@[k].route@ == name@);
        }
    }
    false
}

fn check_artifacts(g: &BuildGraph) -> (r: Result<(), ArtifactError>)
    ensures
        outcome(r, first_some(Seq::new(g.artifacts@.len(), |i: int| artifact_fault(*g, i)))),
{
    let ghost checks = Seq::new(g.artifacts@.len(), |i: int| artifact_fault(*g, i));
    let mut i: usize = 0;
    while i < g.artifacts.len()
        invariant
            checks == Seq::new(g.artifacts@.len(), |i: int| artifact_fault(*g, i)),
            i <= g.artifacts.len(),
            forall|k: int| 0 <= k < i ==> (#[trigger] checks[k]) is None,
        decreases g.artifacts.len() - i,
    {
        let artifact = &g.artifacts[i];
        let portable = match PortablePath::parse(artifact.path.as_str()) {
            Ok(p) => p,
            Err(e) => {
                proof {
                    lemma_first_some_at(checks, i as int);
                }
                return Err(e);
            },
        };
        let kind = chars_of(artifact.kind.as_str());
        let producer = chars_of(artifact.producer.as_str());
        let bad = !str_eq(portable.as_str(), artifact.path.as_str()) || (i > 0 && !str_lt(
            g.artifacts[i - 1].path.as_str(),
            artifact.path.as_str(),
        )) || kind.len() == 0 || utf8_len_of(kind.as_slice()) > 64 || producer.len() == 0 || utf8_len_of(
            producer.as_slice(),
        ) > MAX_PORTABLE_PATH_BYTES;
        if bad {
            let mut m = String::new();
            push_str(&mut m, "build graph artifact is invalid, duplicated, or not strictly ordered: ");
            push_str(&mut m, debug_quoted(artifact.path.as_str()).as_str());
            proof {
                assert(artifact_shape_bad(*g, i as int));
                assert(m@ =~= "build graph artifact is invalid, duplicated, or not strictly ordered: "@
                    + debug_text(artifact.path@));
                lemma_first_some_at(checks, i as int);
            }
            return Err(ArtifactError::InvalidReceipt(m));
        }
        match &artifact.route {
            Some(route) => {
                if !has_route(&g.routes, route.as_str()) {
                    let mut m = String::new();
                    push_str(&mut m, "build graph artifact ");
                    push_str(&mut m, debug_quoted(artifact.path.as_str()).as_str());
                    push_str(&mut m, " references unknown route ");
                    push_str(&mut m, debug_quoted(route.as_str()).as_str());
                    proof {
                        assert(m@ =~= "build graph artifact "@ + debug_text(artifact.path@)
                            + " references unknown route "@ + debug_text(route@));
                        lemma_first_some_at(checks, i as int);
                    }
                    return Err(ArtifactError::InvalidReceipt(m));
                }
            },
            None => {},
        }
        match validate_graph_dependencies(&artifact.sources, &g.sources) {
            Ok(()) => {},
            Err(e) => {
                proof {
                    lemma_first_some_at(checks, i as int);
                }
                return Err(e);
            },
        }
        match validate_sha256(artifact.sha256.as_str(), "build graph artifact") {
            Ok(()) => {},
            Err(e) => {
                proof {
                    lemma_first_some_at(checks, i as int);
                }
                return Err(e);
            },
        }
        assert(checks[i as int] is None);
        i = i + 1;
    }
    proof {
        lemma_first_some_none(checks);
    }
    Ok(())
}

fn same_paths(a: &Vec<String>, b: &Vec<String>) -> (r: bool)
    ensures
        r == (string_views(a@) == string_views(b@)),
{
    if a.len() != b.len() {
        proof {
            assert(string_views(a@).len() != string_views(b@).len());
        }
        return false;
    }
    let mut i: usize = 0;
    while i < a.len()
        invariant
            a.len() == b.len(),
            i <= a.len(),
            forall|k: int| 0 <= k < i ==> a@[k]@ == b@[k]@,
        decreases a.len() - i,
    {
        if !str_eq(a[i].as_str(), b[i].as_str()) {
            proof {
                assert(string_views(a@)[i as int] != string_views(b@)[i as int]);
            }
            return false;
        }
        i = i + 1;
    }
    proof {
        assert(string_views(a@) =~= string_views(b@));
    }
    true
}

fn same_dependencies(a: &SourceDependencies, b: &SourceDependencies) -> (r: bool)
    ensures
        r == (deps_view(*a) == deps_view(*b)),
{
    match (a, b) {
        (SourceDependencies::AllSources, SourceDependencies::AllSources) => true,
        (SourceDependencies::Explicit { paths: x }, SourceDependencies::Explicit { paths: y }) => same_paths(x, y),
        _ => false,
    }
}

/// The index of the first artifact node with path `p`.
fn find_artifact(arts: &Vec<GraphArtifact>, p: &str) -> (r: Option<usize>)
    ensures
        match r {
            None => artifact_index(arts@, p@) is None,
            Some(k) => artifact_index(arts@, p@) == Some(k as int) && k < arts.len(),
        },
{
    let mut i: usize = 0;
    while i < arts.len()
        invariant
            i <= arts.len(),
            forall|m: int| 0 <= m < i ==> arts@[m].path@ != p@,
        decreases arts.len() - i,
    {
        if str_eq(arts[i].path.as_str(), p) {
            proof {
                let k = i as int;
                assert(0 <= k < arts@.len() && arts@[k].path@ == p@ && forall|m: int|
                    0 <= m < k ==> arts@[m].path@ != p@);
                let c = choose|c: int|
                    0 <= c < arts@.len() && #[trigger] arts@[c].path@ == p@ && forall|m: int|
                        0 <= m < c ==> arts@[m].path@ != p@;
                if c < k {
                    assert(arts@[c].path@ != p@);
                }
                if c > k {
                    assert(arts@[k].path@ != p@);
                }
            }
            return Some(i);
        }
        i = i + 1;
    }
    None
}

fn check_route_edges(g: &BuildGraph, i: usize) -> (r: Result<(), ArtifactError>)
    requires
        i < g.routes.len(),
    ensures
        outcome(r, route_edges_fault(*g, i as int)),
{
    let route = &g.routes[i];
    let ghost checks = Seq::new(g.routes@[i as int].artifacts@.len(), |j: int| edge_fault(*g, i as int, j));
    let mut j: usize = 0;
    while j < route.artifacts.len()
        invariant
            i < g.routes.len(),
            *route == g.routes@[i as int],
            checks == Seq::new(g.routes@[i as int].artifacts@.len(), |j: int| edge_fault(*g, i as int, j)),
            j <= route.artifacts.len(),
            forall|k: int| 0 <= k < j ==> (#[trigger] checks[k]) is None,
        decreases route.artifacts.len() - j,
    {
        let path = route.artifacts[j].as_str();
        match find_artifact(&g.artifacts, path) {
            None => {
                let mut m = String::new();
                push_str(&mut m, "build graph route ");
                push_str(&mut m, debug_quoted(route.route.as_str()).as_str());
                push_str(&mut m, " references unknown artifact ");
                push_str(&mut m, debug_quoted(path).as_str());
                proof {
                    reveal(edge_fault);
                    reveal(route_edges_fault);
                    assert(m@ =~= "build graph route "@ + debug_text(route.route@)
                        + " references unknown artifact "@ + debug_text(path@));
                    lemma_first_some_at(checks, j as int);
                }
                return Err(ArtifactError::InvalidReceipt(m));
            },
            Some(k) => {
                let node = &g.artifacts[k];
                let same_route = match &node.route {
                    Some(name) => str_eq(name.as_str(), route.route.as_str()),
                    None => false,
                };
                if !same_route || !same_dependencies(&node.sources, &route.sources) {
                    let mut m = String::new();
                    push_str(&mut m, "build graph route ");
                    push_str(&mut m, debug_quoted(route.route.as_str()).as_str());
                    push_str(&mut m, " and artifact ");
                    push_str(&mut m, debug_quoted(path).as_str());
                    push_str(&mut m, " disagree on their causal edge");
                    proof {
                        reveal(edge_fault);
                        reveal(route_edges_fault);
                        assert(m@ =~= "build graph route "@ + debug_text(route.route@) + " and artifact "@
                            + debug_text(path@) + " disagree on their causal edge"@);
                        lemma_first_some_at(checks, j as int);
                    }
                    return Err(ArtifactError::InvalidReceipt(m));
                }
            },
        }
        assert(checks[j as int] is None) by {
            reveal(edge_fault);
        }
        j = j + 1;
    }
    proof {
        reveal(route_edges_fault);
        lemma_first_some_none(checks);
    }
    Ok(())
}

fn check_edges(g: &BuildGraph) -> (r: Result<(), ArtifactError>)
    ensures
        outcome(r, first_some(Seq::new(g.routes@.len(), |i: int| route_edges_fault(*g, i)))),
{
    let ghost checks = Seq::new(g.routes@.len(), |i: int| route_edges_fault(*g, i));
    let mut i: usize = 0;
    while i < g.routes.len()
        invariant
            checks == Seq::new(g.routes@.len(), |i: int| route_edges_fault(*g, i)),
            i <= g.routes.len(),
            forall|k: int| 0 <= k < i ==> (#[trigger] checks[k]) is None,
        decreases g.routes.len() - i,
    {
        match check_route_edges(g, i) {
            Ok(()) => {},
            Err(e) => {
                proof {
                    lemma_first_some_at(checks, i as int);
                }
                return Err(e);
            },
        }
        assert(checks[i as int] is None);
        i = i + 1;
    }
    proof {
        lemma_first_some_none(checks);
    }
    Ok(())
}

/// Checks that a build graph is canonical, bounded and self-consistent:
/// supported version, valid identity, strictly ordered portable sources,
/// routes and artifacts, dependencies on captured sources only, and routes
/// and artifacts that agree on every causal edge.
pub fn validate_build_graph(graph: &BuildGraph) -> (r: Result<(), ArtifactError>)
    ensures
        outcome(r, graph_fault(*graph)),
{
    if !str_eq(graph.graph_version.as_str(), BUILD_GRAPH_VERSION) {
        let mut m = String::new();
        push_str(&mut m, "unsupported build graph version ");
        push_str(&mut m, debug_quoted(graph.graph_version.as_str()).as_str());
        proof {
            assert(m@ =~= "unsupported build graph version "@ + debug_text(graph.graph_version@));
        }
        return Err(ArtifactError::InvalidReceipt(m));
    }
    match validate_project_id(graph.project_id.as_str()) {
        Ok(()) => {},
        Err(e) => {
            return Err(e);
        },
    }
    match validate_sha256(graph.source_set_sha256.as_str(), "build graph source set") {
        Ok(()) => {},
        Err(e) => {
            return Err(e);
        },
    }
    if graph.sources.len() > MAX_ARTIFACT_FILES || graph.routes.len() > MAX_ARTIFACT_FILES
        || graph.artifacts.len() > MAX_ARTIFACT_FILES {
        return Err(ArtifactError::InvalidReceipt("build graph exceeds 100000 nodes per kind".to_owned()));
    }
    match check_sources(graph) {
        Ok(()) => {},
        Err(e) => {
            return Err(e);
        },
    }
    match check_routes(graph) {
        Ok(()) => {},
        Err(e) => {
            return Err(e);
        },
    }
    match check_artifacts(graph) {
        Ok(()) => {},
        Err(e) => {
            return Err(e);
        },
    }
    check_edges(graph)
}

} // verus!
