//! Why a development rebuild happened: which sources changed, which routes and
//! artifacts they reach through the build graph, which artifacts changed, and
//! the narrowest hot update that covers them.
use vstd::prelude::*;
use crate::build_graph::{BuildGraph, GraphArtifact, GraphRoute, SourceDependencies};
use crate::receipt::BuildReport;
use crate::text::{chars_of, ends_with, ends_with_chars, push_str, seq_lt, str_eq, string_from_chars};
use crate::textmap::TextMap;

verus! {

broadcast use vstd::string::group_string_axioms;

/// Version of the rebuild record format.
pub const REBUILD_RECORD_VERSION: &'static str = "pliego-rebuild/1";

/// Most entries a rebuild record list may hold.
pub const MAX_REBUILD_ITEMS: usize = 100000;

/// A build graph together with the report it was checked against.
#[derive(Clone, Debug)]
pub struct VerifiedGraph {
    pub graph: BuildGraph,
    pub report: BuildReport,
}

/// The narrowest hot update that covers a set of changed artifacts.
#[derive(Clone, Copy, Debug, PartialEq, Eq, Structural)]
pub enum HmrKind {
    Unchanged,
    Css,
    Content,
    Adapter,
    Reload,
}

/// A hot update: its kind, the changed public paths, and the affected routes.
#[derive(Clone, Debug)]
pub struct HmrUpdate {
    pub kind: HmrKind,
    pub paths: Vec<String>,
    pub routes: Vec<String>,
}

impl HmrUpdate {
    /// A full reload.
    pub fn reload() -> (u: HmrUpdate)
        ensures
            u.kind == HmrKind::Reload,
            u.paths@.len() == 0,
            u.routes@.len() == 0,
    {
        HmrUpdate { kind: HmrKind::Reload, paths: Vec::new(), routes: Vec::new() }
    }
}

/// What one rebuild changed, and why.
#[derive(Clone, Debug)]
pub struct RebuildRecord {
    pub record_version: String,
    pub generation: u64,
    pub changed_sources: Vec<String>,
    pub affected_routes: Vec<String>,
    pub affected_artifacts: Vec<String>,
    pub changed_artifacts: Vec<String>,
    pub hmr: HmrUpdate,
    pub receipt_before: Option<String>,
    pub receipt_after: String,
}

/// Strictly increasing text, so a list that is a set.
pub open spec fn strictly_sorted(s: Seq<String>) -> bool {
    forall|i: int, j: int| 0 <= i < j < s.len() ==> seq_lt(#[trigger] s[i]@, #[trigger] s[j]@)
}

/// `s` lists the set `set` in increasing order.
pub open spec fn lists(s: Seq<String>, set: Set<Seq<char>>) -> bool {
    &&& strictly_sorted(s)
    &&& forall|p: Seq<char>| set.contains(p) <==> exists|i: int| 0 <= i < s.len() && (#[trigger] s[i])@ == p
}

pub open spec fn in_list(s: Seq<String>, p: Seq<char>) -> bool {
    exists|i: int| 0 <= i < s.len() && (#[trigger] s[i])@ == p
}

/// Whether dependencies reach a changed source: every dependency does when
/// anything changed.
pub open spec fn touches(d: SourceDependencies, changed: Seq<String>) -> bool {
    match d {
        SourceDependencies::AllSources => changed.len() > 0,
        SourceDependencies::Explicit { paths } => exists|i: int|
            0 <= i < paths.len() && in_list(changed, (#[trigger] paths@[i])@),
    }
}

/// Each graph's artifacts have distinct paths, as a checked graph's do.
pub open spec fn distinct_artifacts(g: BuildGraph) -> bool {
    forall|i: int, j: int|
        0 <= i < j < g.artifacts.len() ==> (#[trigger] g.artifacts@[i]).path@ != (#[trigger] g.artifacts@[j]).path@
}

pub open spec fn knows_source(g: BuildGraph, p: Seq<char>) -> bool {
    exists|i: int| 0 <= i < g.sources.len() && (#[trigger] g.sources@[i]).path@ == p
}

/// Some changed source is unknown to both graphs: everything is affected.
pub open spec fn global_change(changed: Seq<String>, before: Option<BuildGraph>, after: BuildGraph) -> bool {
    exists|k: int|
        0 <= k < changed.len() && !knows_source(after, (#[trigger] changed[k])@) && !(before matches Some(b)
            && knows_source(b, changed[k]@))
}

pub open spec fn route_hit(r: GraphRoute, global: bool, changed: Seq<String>) -> bool {
    global || touches(r.sources, changed)
}

pub open spec fn artifact_hit(a: GraphArtifact, global: bool, changed: Seq<String>) -> bool {
    global || touches(a.sources, changed)
}

/// The routes of a graph that a change reaches.
pub open spec fn routes_reached(g: BuildGraph, global: bool, changed: Seq<String>) -> Set<Seq<char>> {
    Set::new(
        |p: Seq<char>|
            exists|i: int|
                0 <= i < g.routes.len() && route_hit(#[trigger] g.routes@[i], global, changed) && g.routes@[i].route@
                    == p,
    )
}

/// The artifacts of a graph that a change reaches, directly or through a
/// reached route.
pub open spec fn artifacts_reached(g: BuildGraph, global: bool, changed: Seq<String>) -> Set<Seq<char>> {
    Set::new(
        |p: Seq<char>|
            (exists|i: int|
                0 <= i < g.routes.len() && route_hit(#[trigger] g.routes@[i], global, changed) && in_list(
                    g.routes@[i].artifacts@,
                    p,
                )) || (exists|i: int|
                0 <= i < g.artifacts.len() && artifact_hit(#[trigger] g.artifacts@[i], global, changed)
                    && g.artifacts@[i].path@ == p),
    )
}

pub open spec fn before_set(before: Option<BuildGraph>, f: spec_fn(BuildGraph) -> Set<Seq<char>>) -> Set<Seq<char>> {
    match before {
        Some(b) => f(b),
        None => Set::empty(),
    }
}

/// The digest a graph records for an artifact path.
pub open spec fn artifact_digest(g: BuildGraph, p: Seq<char>) -> Option<Seq<char>> {
    if exists|i: int| 0 <= i < g.artifacts.len() && (#[trigger] g.artifacts@[i]).path@ == p {
        Some(g.artifacts@[choose|i: int| 0 <= i < g.artifacts.len() && (#[trigger] g.artifacts@[i]).path@ == p].sha256@)
    } else {
        None
    }
}

pub open spec fn before_digest(before: Option<BuildGraph>, p: Seq<char>) -> Option<Seq<char>> {
    match before {
        Some(b) => artifact_digest(b, p),
        None => None,
    }
}

/// Artifact paths whose digest differs between the builds, or that exist in
/// only one of them.
pub open spec fn changed_artifact_set(before: Option<BuildGraph>, after: BuildGraph) -> Set<Seq<char>> {
    Set::new(|p: Seq<char>| before_digest(before, p) != artifact_digest(after, p))
}

pub open spec fn graph_of(v: Option<VerifiedGraph>) -> Option<BuildGraph> {
    match v {
        Some(b) => Some(b.graph),
        None => None,
    }
}

pub fn set_add(set: &mut TextMap<()>, key: &str)
    requires
        old(set).wf(),
    ensures
        final(set).wf(),
        final(set)@.dom() == old(set)@.dom().insert(key@),
{
    let k = chars_of(key);
    if !set.contains(k.as_slice()) {
        set.insert_new(k, ());
    } else {
        assert(old(set)@.dom().insert(key@) =~= old(set)@.dom());
    }
}

/// The members of a set of text, in increasing order.
pub fn set_list(set: &TextMap<()>) -> (out: Vec<String>)
    requires
        set.wf(),
    ensures
        lists(out@, set@.dom()),
{
    let keys = set.sorted_keys();
    let mut out: Vec<String> = Vec::new();
    let mut i: usize = 0;
    while i < keys.len()
        invariant
            i <= keys.len(),
            out@.len() == i,
            forall|k: int| 0 <= k < i ==> (#[trigger] out@[k])@ == keys@[k]@,
        decreases keys.len() - i,
    {
        out.push(string_from_chars(keys[i].as_slice()));
        i = i + 1;
    }
    proof {
        assert forall|a: int, b: int| 0 <= a < b < out@.len() implies seq_lt(#[trigger] out@[a]@, #[trigger] out@[b]@) by {
            assert(seq_lt(keys@[a]@, keys@[b]@));
        }
        assert forall|p: Seq<char>| set@.dom().contains(p) <==> exists|i: int|
            0 <= i < out@.len() && (#[trigger] out@[i])@ == p by {
            if set@.dom().contains(p) {
                let i = choose|i: int| 0 <= i < keys@.len() && #[trigger] keys@[i]@ == p;
                assert(out@[i]@ == p);
            }
            if exists|i: int| 0 <= i < out@.len() && (#[trigger] out@[i])@ == p {
                let i = choose|i: int| 0 <= i < out@.len() && (#[trigger] out@[i])@ == p;
                assert(keys@[i]@ == p);
            }
        }
    }
    out
}

pub fn list_contains(list: &Vec<String>, p: &str) -> (b: bool)
    ensures
        b == in_list(list@, p@),
{
    let mut i: usize = 0;
    while i < list.len()
        invariant
            i <= list.len(),
            forall|k: int| 0 <= k < i ==> (#[trigger] list@[k])@ != p@,
        decreases list.len() - i,
    {
        if str_eq(list[i].as_str(), p) {
            return true;
        }
        i = i + 1;
    }
    false
}

fn any_changed(paths: &Vec<String>, changed_sources: &Vec<String>) -> (b: bool)
    ensures
        b == exists|i: int| 0 <= i < paths.len() && in_list(changed_sources@, (#[trigger] paths@[i])@),
{
    let mut i: usize = 0;
    while i < paths.len()
        invariant
            i <= paths.len(),
            forall|k: int| 0 <= k < i ==> !in_list(changed_sources@, (#[trigger] paths@[k])@),
        decreases paths.len() - i,
    {
        if list_contains(changed_sources, paths[i].as_str()) {
            assert(in_list(changed_sources@, paths@[i as int]@));
            return true;
        }
        i = i + 1;
    }
    false
}

/// Whether dependencies reach a changed source.
pub fn dependencies_touch(dependencies: &SourceDependencies, changed_sources: &Vec<String>) -> (b: bool)
    ensures
        b == touches(*dependencies, changed_sources@),
{
    match dependencies {
        SourceDependencies::AllSources => changed_sources.len() > 0,
        SourceDependencies::Explicit { paths } => any_changed(paths, changed_sources),
    }
}

fn graph_knows(g: &BuildGraph, p: &str) -> (b: bool)
    ensures
        b == knows_source(*g, p@),
{
    let mut i: usize = 0;
    while i < g.sources.len()
        invariant
            i <= g.sources.len(),
            forall|k: int| 0 <= k < i ==> (#[trigger] g.sources@[k]).path@ != p@,
        decreases g.sources.len() - i,
    {
        if str_eq(g.sources[i].path.as_str(), p) {
            return true;
        }
        i = i + 1;
    }
    false
}

pub open spec fn routes_upto(g: BuildGraph, global: bool, changed: Seq<String>, n: int) -> Set<Seq<char>> {
    Set::new(
        |p: Seq<char>|
            exists|k: int|
                0 <= k < n && route_hit(#[trigger] g.routes@[k], global, changed) && g.routes@[k].route@ == p,
    )
}

pub open spec fn route_artifacts_upto(g: BuildGraph, global: bool, changed: Seq<String>, n: int) -> Set<Seq<char>> {
    Set::new(
        |p: Seq<char>|
            exists|k: int|
                0 <= k < n && route_hit(#[trigger] g.routes@[k], global, changed) && in_list(g.routes@[k].artifacts@, p),
    )
}

pub open spec fn list_upto(s: Seq<String>, n: int) -> Set<Seq<char>> {
    Set::new(|p: Seq<char>| exists|m: int| 0 <= m < n && (#[trigger] s[m])@ == p)
}

pub open spec fn artifacts_upto(g: BuildGraph, global: bool, changed: Seq<String>, n: int) -> Set<Seq<char>> {
    Set::new(
        |p: Seq<char>|
            exists|k: int|
                0 <= k < n && artifact_hit(#[trigger] g.artifacts@[k], global, changed) && g.artifacts@[k].path@ == p,
    )
}

proof fn lemma_routes_step(g: BuildGraph, global: bool, changed: Seq<String>, i: int)
    requires
        0 <= i < g.routes.len(),
    ensures
        routes_upto(g, global, changed, i + 1) == (if route_hit(g.routes@[i], global, changed) {
            routes_upto(g, global, changed, i).insert(g.routes@[i].route@)
        } else {
            routes_upto(g, global, changed, i)
        }),
        route_artifacts_upto(g, global, changed, i + 1) == (if route_hit(g.routes@[i], global, changed) {
            route_artifacts_upto(g, global, changed, i).union(list_upto(g.routes@[i].artifacts@, g.routes@[i].artifacts@.len() as int))
        } else {
            route_artifacts_upto(g, global, changed, i)
        }),
{
    let r = g.routes@[i];
    let lhs = routes_upto(g, global, changed, i + 1);
    let rhs = if route_hit(r, global, changed) {
        routes_upto(g, global, changed, i).insert(r.route@)
    } else {
        routes_upto(g, global, changed, i)
    };
    assert forall|p: Seq<char>| lhs.contains(p) <==> rhs.contains(p) by {
        if lhs.contains(p) {
            let k = choose|k: int|
                0 <= k < i + 1 && route_hit(#[trigger] g.routes@[k], global, changed) && g.routes@[k].route@ == p;
            if k < i {
                assert(routes_upto(g, global, changed, i).contains(p));
            }
        }
        if routes_upto(g, global, changed, i).contains(p) {
            let k = choose|k: int|
                0 <= k < i && route_hit(#[trigger] g.routes@[k], global, changed) && g.routes@[k].route@ == p;
            assert(lhs.contains(p));
        }
        if route_hit(r, global, changed) && p == r.route@ {
            assert(route_hit(g.routes@[i], global, changed) && g.routes@[i].route@ == p);
            assert(lhs.contains(p));
        }
    }
    assert(lhs =~= rhs);
    let lhs2 = route_artifacts_upto(g, global, changed, i + 1);
    let all = list_upto(r.artifacts@, r.artifacts@.len() as int);
    let rhs2 = if route_hit(r, global, changed) {
        route_artifacts_upto(g, global, changed, i).union(all)
    } else {
        route_artifacts_upto(g, global, changed, i)
    };
    assert forall|p: Seq<char>| lhs2.contains(p) <==> rhs2.contains(p) by {
        if lhs2.contains(p) {
            let k = choose|k: int|
                0 <= k < i + 1 && route_hit(#[trigger] g.routes@[k], global, changed) && in_list(g.routes@[k].artifacts@, p);
            if k < i {
                assert(route_artifacts_upto(g, global, changed, i).contains(p));
            } else {
                let m = choose|m: int| 0 <= m < r.artifacts@.len() && (#[trigger] r.artifacts@[m])@ == p;
                assert(all.contains(p));
            }
        }
        if route_artifacts_upto(g, global, changed, i).contains(p) {
            let k = choose|k: int|
                0 <= k < i && route_hit(#[trigger] g.routes@[k], global, changed) && in_list(g.routes@[k].artifacts@, p);
            assert(lhs2.contains(p));
        }
        if route_hit(r, global, changed) && all.contains(p) {
            let m = choose|m: int| 0 <= m < r.artifacts@.len() && (#[trigger] r.artifacts@[m])@ == p;
            assert(in_list(g.routes@[i].artifacts@, p));
            assert(lhs2.contains(p));
        }
    }
    assert(lhs2 =~= rhs2);
}

proof fn lemma_list_step(s: Seq<String>, m: int)
    requires
        0 <= m < s.len(),
    ensures
        list_upto(s, m + 1) == list_upto(s, m).insert(s[m]@),
{
    assert forall|p: Seq<char>| list_upto(s, m + 1).contains(p) <==> list_upto(s, m).insert(s[m]@).contains(p) by {
        if list_upto(s, m + 1).contains(p) {
            let j = choose|j: int| 0 <= j < m + 1 && (#[trigger] s[j])@ == p;
            if j < m {
                assert(list_upto(s, m).contains(p));
            }
        }
        if list_upto(s, m).contains(p) {
            let j = choose|j: int| 0 <= j < m && (#[trigger] s[j])@ == p;
            assert(list_upto(s, m + 1).contains(p));
        }
        if p == s[m]@ {
            assert(list_upto(s, m + 1).contains(p));
        }
    }
    assert(list_upto(s, m + 1) =~= list_upto(s, m).insert(s[m]@));
}

proof fn lemma_artifacts_step(g: BuildGraph, global: bool, changed: Seq<String>, k: int)
    requires
        0 <= k < g.artifacts.len(),
    ensures
        artifacts_upto(g, global, changed, k + 1) == (if artifact_hit(g.artifacts@[k], global, changed) {
            artifacts_upto(g, global, changed, k).insert(g.artifacts@[k].path@)
        } else {
            artifacts_upto(g, global, changed, k)
        }),
{
    let a = g.artifacts@[k];
    let lhs = artifacts_upto(g, global, changed, k + 1);
    let rhs = if artifact_hit(a, global, changed) {
        artifacts_upto(g, global, changed, k).insert(a.path@)
    } else {
        artifacts_upto(g, global, changed, k)
    };
    assert forall|p: Seq<char>| lhs.contains(p) <==> rhs.contains(p) by {
        if lhs.contains(p) {
            let j = choose|j: int|
                0 <= j < k + 1 && artifact_hit(#[trigger] g.artifacts@[j], global, changed) && g.artifacts@[j].path@ == p;
            if j < k {
                assert(artifacts_upto(g, global, changed, k).contains(p));
            }
        }
        if artifacts_upto(g, global, changed, k).contains(p) {
            let j = choose|j: int|
                0 <= j < k && artifact_hit(#[trigger] g.artifacts@[j], global, changed) && g.artifacts@[j].path@ == p;
            assert(lhs.contains(p));
        }
        if artifact_hit(a, global, changed) && p == a.path@ {
            assert(artifact_hit(g.artifacts@[k], global, changed) && g.artifacts@[k].path@ == p);
            assert(lhs.contains(p));
        }
    }
    assert(lhs =~= rhs);
}

fn collect_reached(
    g: &BuildGraph,
    global: bool,
    changed: &Vec<String>,
    routes: &mut TextMap<()>,
    artifacts: &mut TextMap<()>,
)
    requires
        old(routes).wf(),
        old(artifacts).wf(),
    ensures
        final(routes).wf(),
        final(artifacts).wf(),
        final(routes)@.dom() == old(routes)@.dom().union(routes_reached(*g, global, changed@)),
        final(artifacts)@.dom() == old(artifacts)@.dom().union(artifacts_reached(*g, global, changed@)),
{
    let ghost r0 = routes@.dom();
    let ghost a0 = artifacts@.dom();
    proof {
        assert(routes_upto(*g, global, changed@, 0) =~= Set::empty());
        assert(route_artifacts_upto(*g, global, changed@, 0) =~= Set::empty());
        assert(routes@.dom() =~= r0.union(routes_upto(*g, global, changed@, 0)));
        assert(artifacts@.dom() =~= a0.union(route_artifacts_upto(*g, global, changed@, 0)));
    }
    let mut i: usize = 0;
    while i < g.routes.len()
        invariant
            i <= g.routes.len(),
            routes.wf(),
            artifacts.wf(),
            routes@.dom() == r0.union(routes_upto(*g, global, changed@, i as int)),
            artifacts@.dom() == a0.union(route_artifacts_upto(*g, global, changed@, i as int)),
        decreases g.routes.len() - i,
    {
        let route = &g.routes[i];
        proof {
            lemma_routes_step(*g, global, changed@, i as int);
        }
        if global || dependencies_touch(&route.sources, changed) {
            assert(route_hit(g.routes@[i as int], global, changed@));
            set_add(routes, route.route.as_str());
            let ghost a1 = artifacts@.dom();
            proof {
                assert(list_upto(route.artifacts@, 0) =~= Set::empty());
                assert(a1 =~= a1.union(list_upto(route.artifacts@, 0)));
            }
            let mut j: usize = 0;
            while j < route.artifacts.len()
                invariant
                    j <= route.artifacts.len(),
                    artifacts.wf(),
                    artifacts@.dom() == a1.union(list_upto(route.artifacts@, j as int)),
                decreases route.artifacts.len() - j,
            {
                proof {
                    lemma_list_step(route.artifacts@, j as int);
                }
                set_add(artifacts, route.artifacts[j].as_str());
                proof {
                    assert(artifacts@.dom() =~= a1.union(list_upto(route.artifacts@, j + 1)));
                }
                j = j + 1;
            }
            proof {
                assert(routes@.dom() =~= r0.union(routes_upto(*g, global, changed@, i + 1)));
                assert(artifacts@.dom() =~= a0.union(route_artifacts_upto(*g, global, changed@, i + 1)));
            }
        } else {
            assert(!route_hit(g.routes@[i as int], global, changed@));
        }
        i = i + 1;
    }
    let ghost a2 = artifacts@.dom();
    proof {
        assert(artifacts_upto(*g, global, changed@, 0) =~= Set::empty());
        assert(a2 =~= a2.union(artifacts_upto(*g, global, changed@, 0)));
    }
    let mut k: usize = 0;
    while k < g.artifacts.len()
        invariant
            k <= g.artifacts.len(),
            artifacts.wf(),
            artifacts@.dom() == a2.union(artifacts_upto(*g, global, changed@, k as int)),
        decreases g.artifacts.len() - k,
    {
        let a = &g.artifacts[k];
        proof {
            lemma_artifacts_step(*g, global, changed@, k as int);
        }
        if global || dependencies_touch(&a.sources, changed) {
            set_add(artifacts, a.path.as_str());
            proof {
                assert(artifacts@.dom() =~= a2.union(artifacts_upto(*g, global, changed@, k + 1)));
            }
        }
        k = k + 1;
    }
    proof {
        assert(routes_reached(*g, global, changed@) =~= routes_upto(*g, global, changed@, g.routes@.len() as int));
        assert(artifacts_reached(*g, global, changed@) =~= route_artifacts_upto(
            *g,
            global,
            changed@,
            g.routes@.len() as int,
        ).union(artifacts_upto(*g, global, changed@, g.artifacts@.len() as int)));
        assert(routes@.dom() =~= r0.union(routes_reached(*g, global, changed@)));
        assert(artifacts@.dom() =~= a0.union(artifacts_reached(*g, global, changed@)));
    }
}

/// `m` maps each artifact path of `g` to its digest.
pub open spec fn digests_of(m: TextMap<String>, g: BuildGraph) -> bool {
    &&& m.wf()
    &&& forall|p: Seq<char>|
        #![trigger m@.contains_key(p)]
        (m@.contains_key(p) ==> artifact_digest(g, p) == Some(m@[p]@)) && (!m@.contains_key(p) ==> artifact_digest(
            g,
            p,
        ) is None)
}

/// The digests of a graph's artifacts, by path.
fn digest_map(g: &BuildGraph) -> (m: TextMap<String>)
    requires
        distinct_artifacts(*g),
    ensures
        digests_of(m, *g),
{
    let mut m: TextMap<String> = TextMap::new();
    let mut i: usize = 0;
    while i < g.artifacts.len()
        invariant
            i <= g.artifacts.len(),
            distinct_artifacts(*g),
            m.wf(),
            forall|p: Seq<char>|
                #![trigger m@.contains_key(p)]
                m@.contains_key(p) <==> exists|k: int| 0 <= k < i && (#[trigger] g.artifacts@[k]).path@ == p,
            forall|k: int|
                0 <= k < i ==> m@.contains_key((#[trigger] g.artifacts@[k]).path@) && m@[g.artifacts@[k].path@]@
                    == g.artifacts@[k].sha256@,
        decreases g.artifacts.len() - i,
    {
        let a = &g.artifacts[i];
        let key = chars_of(a.path.as_str());
        proof {
            if m@.contains_key(key@) {
                let k = choose|k: int| 0 <= k < i && (#[trigger] g.artifacts@[k]).path@ == key@;
                assert(g.artifacts@[k].path@ != g.artifacts@[i as int].path@);
            }
        }
        m.insert_new(key, a.sha256.clone());
        i = i + 1;
    }
    proof {
        assert forall|p: Seq<char>|
            #![trigger m@.contains_key(p)]
            (m@.contains_key(p) ==> artifact_digest(*g, p) == Some(m@[p]@)) && (!m@.contains_key(p)
                ==> artifact_digest(*g, p) is None) by {
            if m@.contains_key(p) {
                let k = choose|k: int| 0 <= k < g.artifacts.len() && (#[trigger] g.artifacts@[k]).path@ == p;
                let c = choose|c: int| 0 <= c < g.artifacts.len() && (#[trigger] g.artifacts@[c]).path@ == p;
                if c != k {
                    if c < k {
                        assert(g.artifacts@[c].path@ != g.artifacts@[k].path@);
                    } else {
                        assert(g.artifacts@[k].path@ != g.artifacts@[c].path@);
                    }
                }
            }
        }
    }
    m
}

pub open spec fn before_digests(m: Option<TextMap<String>>, bg: Option<BuildGraph>) -> bool {
    match (m, bg) {
        (Some(x), Some(g)) => digests_of(x, g),
        (None, None) => true,
        _ => false,
    }
}

fn digest_differs(
    before_map: &Option<TextMap<String>>,
    after_map: &TextMap<String>,
    p: &str,
    Ghost(bg): Ghost<Option<BuildGraph>>,
    Ghost(ag): Ghost<BuildGraph>,
) -> (b: bool)
    requires
        before_digests(*before_map, bg),
        digests_of(*after_map, ag),
    ensures
        b == (before_digest(bg, p@) != artifact_digest(ag, p@)),
{
    let key = chars_of(p);
    let y = after_map.get(key.as_slice());
    assert(after_map@.contains_key(p@) ==> artifact_digest(ag, p@) == Some(after_map@[p@]@));
    assert(!after_map@.contains_key(p@) ==> artifact_digest(ag, p@) is None);
    match before_map {
        Some(x) => {
            assert(x@.contains_key(p@) ==> before_digest(bg, p@) == Some(x@[p@]@));
            assert(!x@.contains_key(p@) ==> before_digest(bg, p@) is None);
            match (x.get(key.as_slice()), y) {
                (Some(a), Some(b)) => !str_eq(a.as_str(), b.as_str()),
                (None, None) => false,
                _ => true,
            }
        },
        None => y.is_some(),
    }
}

/// The artifact paths whose digest differs between two builds.
fn changed_artifacts(before: Option<&BuildGraph>, after: &BuildGraph, Ghost(bg): Ghost<Option<BuildGraph>>) -> (out:
    Vec<String>)
    requires
        distinct_artifacts(*after),
        bg == (match before {
            Some(b) => Some(*b),
            None => None,
        }),
        bg matches Some(b) ==> distinct_artifacts(b),
    ensures
        lists(out@, changed_artifact_set(bg, *after)),
{
    let before_map: Option<TextMap<String>> = match before {
        Some(b) => Some(digest_map(b)),
        None => None,
    };
    let after_map = digest_map(after);
    let ghost target = changed_artifact_set(bg, *after);
    let mut set: TextMap<()> = TextMap::new();
    match before {
        Some(b) => {
            let mut i: usize = 0;
            while i < b.artifacts.len()
                invariant
                    i <= b.artifacts.len(),
                    set.wf(),
                    before_digests(before_map, bg),
                    digests_of(after_map, *after),
                    target == changed_artifact_set(bg, *after),
                    forall|p: Seq<char>| #[trigger] set@.contains_key(p) ==> target.contains(p),
                    forall|k: int|
                        0 <= k < i && target.contains((#[trigger] b.artifacts@[k]).path@) ==> set@.contains_key(
                            b.artifacts@[k].path@,
                        ),
                decreases b.artifacts.len() - i,
            {
                let p = b.artifacts[i].path.as_str();
                if digest_differs(&before_map, &after_map, p, Ghost(bg), Ghost(*after)) {
                    set_add(&mut set, p);
                }
                i = i + 1;
            }
        },
        None => {},
    }
    let mut j: usize = 0;
    while j < after.artifacts.len()
        invariant
            j <= after.artifacts.len(),
            set.wf(),
            before_digests(before_map, bg),
            digests_of(after_map, *after),
            target == changed_artifact_set(bg, *after),
            forall|p: Seq<char>| #[trigger] set@.contains_key(p) ==> target.contains(p),
            bg matches Some(b) ==> forall|k: int|
                0 <= k < b.artifacts.len() && target.contains((#[trigger] b.artifacts@[k]).path@) ==> set@.contains_key(
                    b.artifacts@[k].path@,
                ),
            forall|k: int|
                0 <= k < j && target.contains((#[trigger] after.artifacts@[k]).path@) ==> set@.contains_key(
                    after.artifacts@[k].path@,
                ),
        decreases after.artifacts.len() - j,
    {
        let p = after.artifacts[j].path.as_str();
        if digest_differs(&before_map, &after_map, p, Ghost(bg), Ghost(*after)) {
            set_add(&mut set, p);
        }
        j = j + 1;
    }
    proof {
        assert forall|p: Seq<char>| target.contains(p) implies set@.contains_key(p) by {
            if artifact_digest(*after, p) is Some {
                let k = choose|k: int| 0 <= k < after.artifacts.len() && (#[trigger] after.artifacts@[k]).path@ == p;
                assert(target.contains(after.artifacts@[k].path@));
            } else {
                let b = bg->0;
                let k = choose|k: int| 0 <= k < b.artifacts.len() && (#[trigger] b.artifacts@[k]).path@ == p;
                assert(target.contains(b.artifacts@[k].path@));
            }
        }
        assert(set@.dom() =~= target);
    }
    set_list(&set)
}

pub open spec fn has_artifact(g: BuildGraph, p: Seq<char>) -> bool {
    exists|i: int| 0 <= i < g.artifacts.len() && (#[trigger] g.artifacts@[i]).path@ == p
}

/// Every changed path names an artifact of the graph satisfying `pred`.
pub open spec fn all_changed(changed: Seq<String>, g: BuildGraph, pred: spec_fn(GraphArtifact) -> bool) -> bool {
    forall|k: int, i: int|
        0 <= k < changed.len() && 0 <= i < g.artifacts.len() && (#[trigger] g.artifacts@[i]).path@ == (
        #[trigger] changed[k])@ ==> pred(g.artifacts@[i])
}

pub open spec fn is_stylesheet(a: GraphArtifact) -> bool {
    ends_with(a.path@, ".css"@)
}

pub open spec fn is_route_content(a: GraphArtifact) -> bool {
    a.kind@ == "route"@
}

pub open spec fn is_adapter_code(a: GraphArtifact) -> bool {
    ends_with(a.path@, ".js"@) || ends_with(a.path@, ".mjs"@) || ends_with(a.path@, ".wasm"@)
}

/// The narrowest update for a set of changed artifacts: nothing, styles,
/// route content, adapter code, or a full reload when the set is mixed or
/// names an artifact the graph does not have.
pub open spec fn hmr_kind(changed: Seq<String>, g: BuildGraph) -> HmrKind {
    if changed.len() == 0 {
        HmrKind::Unchanged
    } else if exists|k: int| 0 <= k < changed.len() && !has_artifact(g, (#[trigger] changed[k])@) {
        HmrKind::Reload
    } else if all_changed(changed, g, |a: GraphArtifact| is_stylesheet(a)) {
        HmrKind::Css
    } else if all_changed(changed, g, |a: GraphArtifact| is_route_content(a)) {
        HmrKind::Content
    } else if all_changed(changed, g, |a: GraphArtifact| is_adapter_code(a)) {
        HmrKind::Adapter
    } else {
        HmrKind::Reload
    }
}

/// The public path of an artifact.
pub open spec fn public_path(p: Seq<char>) -> Seq<char> {
    seq!['/'] + p
}

fn find_artifact<'a>(g: &'a BuildGraph, p: &str) -> (r: Option<&'a GraphArtifact>)
    requires
        distinct_artifacts(*g),
    ensures
        r is None ==> !has_artifact(*g, p@),
        r matches Some(a) ==> forall|i: int|
            0 <= i < g.artifacts.len() && (#[trigger] g.artifacts@[i]).path@ == p@ ==> g.artifacts@[i] == *a,
        r matches Some(a) ==> a.path@ == p@ && has_artifact(*g, p@),
{
    let mut i: usize = 0;
    while i < g.artifacts.len()
        invariant
            i <= g.artifacts.len(),
            distinct_artifacts(*g),
            forall|k: int| 0 <= k < i ==> (#[trigger] g.artifacts@[k]).path@ != p@,
        decreases g.artifacts.len() - i,
    {
        if str_eq(g.artifacts[i].path.as_str(), p) {
            proof {
                assert forall|j: int| 0 <= j < g.artifacts.len() && (#[trigger] g.artifacts@[j]).path@ == p@ implies g.artifacts@[j]
                    == g.artifacts@[i as int] by {
                    if j != i {
                        if j < i {
                            assert(g.artifacts@[j].path@ != g.artifacts@[i as int].path@);
                        } else {
                            assert(g.artifacts@[i as int].path@ != g.artifacts@[j].path@);
                        }
                    }
                }
            }
            assert(g.artifacts@[i as int].path@ == p@);
            return Some(&g.artifacts[i]);
        }
        i = i + 1;
    }
    None
}

fn copy_strings(v: &Vec<String>) -> (out: Vec<String>)
    ensures
        out@ == v@,
{
    crate::receipt::duplicate_vec(v)
}

/// The hot update that covers the changed artifacts of a graph.
pub fn classify_hmr(changed: &Vec<String>, affected_routes: &Vec<String>, graph: &BuildGraph) -> (u: HmrUpdate)
    requires
        distinct_artifacts(*graph),
    ensures
        u.kind == hmr_kind(changed@, *graph),
        u.paths@.len() == changed@.len(),
        forall|k: int| 0 <= k < changed@.len() ==> (#[trigger] u.paths@[k])@ == public_path(changed@[k]@),
        u.routes@ == affected_routes@,
{
    let mut paths: Vec<String> = Vec::new();
    let mut found = true;
    let mut css = true;
    let mut content = true;
    let mut adapter = true;
    let mut k: usize = 0;
    while k < changed.len()
        invariant
            k <= changed.len(),
            distinct_artifacts(*graph),
            paths@.len() == k,
            forall|m: int| 0 <= m < k ==> (#[trigger] paths@[m])@ == public_path(changed@[m]@),
            found == forall|m: int| 0 <= m < k ==> has_artifact(*graph, (#[trigger] changed@[m])@),
            found ==> (css == all_changed(changed@.take(k as int), *graph, |a: GraphArtifact| is_stylesheet(a))),
            found ==> (content == all_changed(changed@.take(k as int), *graph, |a: GraphArtifact| is_route_content(a))),
            found ==> (adapter == all_changed(changed@.take(k as int), *graph, |a: GraphArtifact| is_adapter_code(a))),
        decreases changed.len() - k,
    {
        let p = changed[k].as_str();
        let mut public = String::new();
        push_str(&mut public, "/");
        push_str(&mut public, p);
        proof {
            reveal_strlit("/");
            assert(public@ =~= public_path(changed@[k as int]@));
        }
        paths.push(public);
        let ghost pre = changed@.take(k as int);
        let ghost post = changed@.take(k + 1);
        match find_artifact(graph, p) {
            None => {
                found = false;
            },
            Some(a) => {
                let chars = chars_of(a.path.as_str());
                let s = ends_with_chars(chars.as_slice(), chars_of(".css").as_slice());
                let c = str_eq(a.kind.as_str(), "route");
                let d = ends_with_chars(chars.as_slice(), chars_of(".js").as_slice()) || ends_with_chars(
                    chars.as_slice(),
                    chars_of(".mjs").as_slice(),
                ) || ends_with_chars(chars.as_slice(), chars_of(".wasm").as_slice());
                proof {
                    assert(has_artifact(*graph, changed@[k as int]@));
                    assert forall|pred: spec_fn(GraphArtifact) -> bool|
                        all_changed(post, *graph, pred) <==> (all_changed(pre, *graph, pred) && pred(*a)) by {
                        if all_changed(post, *graph, pred) {
                            assert forall|m: int, i: int|
                                0 <= m < pre.len() && 0 <= i < graph.artifacts.len() && (
                                #[trigger] graph.artifacts@[i]).path@ == (#[trigger] pre[m])@ implies pred(
                                graph.artifacts@[i],
                            ) by {
                                assert(post[m] == pre[m]);
                            }
                            let w = choose|i: int|
                                0 <= i < graph.artifacts.len() && (#[trigger] graph.artifacts@[i]).path@ == p@;
                            assert(post[k as int] == changed@[k as int]);
                            assert(graph.artifacts@[w] == *a);
                        }
                        if all_changed(pre, *graph, pred) && pred(*a) {
                            assert forall|m: int, i: int|
                                0 <= m < post.len() && 0 <= i < graph.artifacts.len() && (
                                #[trigger] graph.artifacts@[i]).path@ == (#[trigger] post[m])@ implies pred(
                                graph.artifacts@[i],
                            ) by {
                                if m < k {
                                    assert(post[m] == pre[m]);
                                } else {
                                    assert(graph.artifacts@[i] == *a);
                                }
                            }
                        }
                    }
                }
                css = css && s;
                content = content && c;
                adapter = adapter && d;
            },
        }
        k = k + 1;
    }
    proof {
        assert(changed@.take(changed@.len() as int) =~= changed@);
    }
    let kind = if changed.len() == 0 {
        HmrKind::Unchanged
    } else if !found {
        proof {
            let m = choose|m: int| 0 <= m < changed@.len() && !has_artifact(*graph, (#[trigger] changed@[m])@);
        }
        HmrKind::Reload
    } else if css {
        HmrKind::Css
    } else if content {
        HmrKind::Content
    } else if adapter {
        HmrKind::Adapter
    } else {
        HmrKind::Reload
    };
    HmrUpdate { kind, paths, routes: copy_strings(affected_routes) }
}

pub open spec fn graph_before(before: Option<&VerifiedGraph>) -> Option<BuildGraph> {
    match before {
        Some(b) => Some(b.graph),
        None => None,
    }
}

/// Routes of either build that the changed sources reach.
pub open spec fn affected_route_set(before: Option<BuildGraph>, after: BuildGraph, changed: Seq<String>) -> Set<
    Seq<char>,
> {
    let global = global_change(changed, before, after);
    routes_reached(after, global, changed).union(
        match before {
            Some(b) => routes_reached(b, global, changed),
            None => Set::empty(),
        },
    )
}

/// Artifacts of either build that the changed sources reach.
pub open spec fn affected_artifact_set(before: Option<BuildGraph>, after: BuildGraph, changed: Seq<String>) -> Set<
    Seq<char>,
> {
    let global = global_change(changed, before, after);
    artifacts_reached(after, global, changed).union(
        match before {
            Some(b) => artifacts_reached(b, global, changed),
            None => Set::empty(),
        },
    )
}

fn is_global_change(changed: &Vec<String>, before: Option<&BuildGraph>, after: &BuildGraph) -> (b: bool)
    ensures
        b == global_change(
            changed@,
            match before {
                Some(g) => Some(*g),
                None => None,
            },
            *after,
        ),
{
    let mut i: usize = 0;
    while i < changed.len()
        invariant
            i <= changed.len(),
            forall|k: int|
                0 <= k < i ==> knows_source(*after, (#[trigger] changed@[k])@) || (match before {
                    Some(g) => knows_source(*g, changed@[k]@),
                    None => false,
                }),
        decreases changed.len() - i,
    {
        let p = changed[i].as_str();
        let known = graph_knows(after, p) || match before {
            Some(g) => graph_knows(g, p),
            None => false,
        };
        if !known {
            return true;
        }
        i = i + 1;
    }
    false
}

/// Explains a rebuild: the changed sources (a set, in increasing order), the
/// routes and artifacts of either build that they reach (all of them when a
/// changed source is unknown to both graphs), the artifacts whose digest
/// changed, the hot update that covers those, and both receipts.
pub fn explain_rebuild(
    generation: u64,
    changed_sources: &Vec<String>,
    before: Option<&VerifiedGraph>,
    after: &VerifiedGraph,
) -> (record: RebuildRecord)
    requires
        strictly_sorted(changed_sources@),
        distinct_artifacts(after.graph),
        before matches Some(b) ==> distinct_artifacts(b.graph),
    ensures
        record.record_version@ == REBUILD_RECORD_VERSION@,
        record.generation == generation,
        record.changed_sources@ == changed_sources@,
        lists(record.affected_routes@, affected_route_set(graph_before(before), after.graph, changed_sources@)),
        lists(record.affected_artifacts@, affected_artifact_set(graph_before(before), after.graph, changed_sources@)),
        lists(record.changed_artifacts@, changed_artifact_set(graph_before(before), after.graph)),
        record.hmr.kind == hmr_kind(record.changed_artifacts@, after.graph),
        record.hmr.paths@.len() == record.changed_artifacts@.len(),
        forall|k: int|
            0 <= k < record.changed_artifacts@.len() ==> (#[trigger] record.hmr.paths@[k])@ == public_path(
                record.changed_artifacts@[k]@,
            ),
        record.hmr.routes@ == record.affected_routes@,
        match before {
            Some(b) => record.receipt_before matches Some(s) && s@ == b.report.receipt_sha256@,
            None => record.receipt_before is None,
        },
        record.receipt_after@ == after.report.receipt_sha256@,
{
    let before_graph: Option<&BuildGraph> = match before {
        Some(b) => Some(&b.graph),
        None => None,
    };
    let ghost bg = graph_before(before);
    let global = is_global_change(changed_sources, before_graph, &after.graph);
    let mut routes: TextMap<()> = TextMap::new();
    let mut artifacts: TextMap<()> = TextMap::new();
    match before_graph {
        Some(g) => {
            collect_reached(g, global, changed_sources, &mut routes, &mut artifacts);
        },
        None => {},
    }
    collect_reached(&after.graph, global, changed_sources, &mut routes, &mut artifacts);
    proof {
        assert(routes@.dom() =~= affected_route_set(bg, after.graph, changed_sources@));
        assert(artifacts@.dom() =~= affected_artifact_set(bg, after.graph, changed_sources@));
    }
    let affected_routes = set_list(&routes);
    let affected_artifacts = set_list(&artifacts);
    let changed = changed_artifacts(before_graph, &after.graph, Ghost(bg));
    let hmr = classify_hmr(&changed, &affected_routes, &after.graph);
    let receipt_before = match before {
        Some(b) => Some(b.report.receipt_sha256.clone()),
        None => None,
    };
    RebuildRecord {
        record_version: REBUILD_RECORD_VERSION.to_owned(),
        generation,
        changed_sources: copy_strings(changed_sources),
        affected_routes,
        affected_artifacts,
        changed_artifacts: changed,
        hmr,
        receipt_before,
        receipt_after: after.report.receipt_sha256.clone(),
    }
}

/// A change unknown to both graphs invalidates conservatively: every route
/// and artifact of the new build is affected.
pub proof fn law_unknown_source_affects_everything(
    before: Option<BuildGraph>,
    after: BuildGraph,
    changed: Seq<String>,
)
    requires
        global_change(changed, before, after),
    ensures
        forall|i: int|
            0 <= i < after.routes.len() ==> affected_route_set(before, after, changed).contains(
                (#[trigger] after.routes@[i]).route@,
            ),
        forall|i: int|
            0 <= i < after.artifacts.len() ==> affected_artifact_set(before, after, changed).contains(
                (#[trigger] after.artifacts@[i]).path@,
            ),
{
    assert forall|i: int| 0 <= i < after.routes.len() implies affected_route_set(before, after, changed).contains(
        (#[trigger] after.routes@[i]).route@,
    ) by {
        assert(route_hit(after.routes@[i], true, changed));
        assert(routes_reached(after, true, changed).contains(after.routes@[i].route@));
    }
    assert forall|i: int| 0 <= i < after.artifacts.len() implies affected_artifact_set(before, after, changed).contains(
        (#[trigger] after.artifacts@[i]).path@,
    ) by {
        assert(artifact_hit(after.artifacts@[i], true, changed));
        assert(artifacts_reached(after, true, changed).contains(after.artifacts@[i].path@));
    }
}

/// Bound on the length of a path in a rebuild record.
pub const MAX_RECORD_PATH_BYTES: usize = 4096;

/// A list of a rebuild record: bounded, strictly increasing, short entries.
pub open spec fn path_set_ok(s: Seq<String>) -> bool {
    &&& s.len() <= MAX_REBUILD_ITEMS
    &&& forall|i: int| 0 < i < s.len() ==> seq_lt(s[i - 1]@, (#[trigger] s[i])@)
    &&& forall|i: int| 0 <= i < s.len() ==> crate::text::utf8_len((#[trigger] s[i])@) <= MAX_RECORD_PATH_BYTES
}

/// What a stored rebuild record must be.
pub open spec fn record_ok(r: RebuildRecord) -> bool {
    &&& path_set_ok(r.changed_sources@)
    &&& path_set_ok(r.affected_routes@)
    &&& path_set_ok(r.affected_artifacts@)
    &&& path_set_ok(r.changed_artifacts@)
    &&& path_set_ok(r.hmr.paths@)
    &&& path_set_ok(r.hmr.routes@)
}

fn check_path_set(s: &Vec<String>) -> (b: bool)
    ensures
        b == path_set_ok(s@),
{
    if s.len() > MAX_REBUILD_ITEMS {
        return false;
    }
    let mut i: usize = 0;
    while i < s.len()
        invariant
            i <= s.len(),
            forall|k: int| 0 < k < i ==> seq_lt(s@[k - 1]@, (#[trigger] s@[k])@),
            forall|k: int| 0 <= k < i ==> crate::text::utf8_len((#[trigger] s@[k])@) <= MAX_RECORD_PATH_BYTES,
        decreases s.len() - i,
    {
        if i > 0 && !crate::text::str_lt(s[i - 1].as_str(), s[i].as_str()) {
            return false;
        }
        let n = crate::text::utf8_len_of(chars_of(s[i].as_str()).as_slice());
        if n > MAX_RECORD_PATH_BYTES {
            return false;
        }
        i = i + 1;
    }
    true
}

/// Checks a stored rebuild record: its version, a 64-byte receipt digest,
/// and every list bounded, strictly increasing and made of short entries.
pub fn validate_rebuild_record(record: &RebuildRecord) -> (r: Result<(), String>)
    ensures
        r is Ok <==> (record.record_version@ == REBUILD_RECORD_VERSION@ && crate::text::utf8_len(record.receipt_after@)
            == 64 && record_ok(*record)),
        r matches Err(m) ==> (if record.record_version@ != REBUILD_RECORD_VERSION@ || crate::text::utf8_len(
            record.receipt_after@,
        ) != 64 {
            m@ == "unsupported or invalid rebuild record"@
        } else {
            m@ == "rebuild record contains an invalid path set"@
        }),
{
    let n = crate::text::utf8_len_of(chars_of(record.receipt_after.as_str()).as_slice());
    if !str_eq(record.record_version.as_str(), REBUILD_RECORD_VERSION) || n != 64 {
        return Err("unsupported or invalid rebuild record".to_owned());
    }
    if !(check_path_set(&record.changed_sources) && check_path_set(&record.affected_routes) && check_path_set(
        &record.affected_artifacts,
    ) && check_path_set(&record.changed_artifacts) && check_path_set(&record.hmr.paths) && check_path_set(
        &record.hmr.routes,
    )) {
        return Err("rebuild record contains an invalid path set".to_owned());
    }
    Ok(())
}

/// The first route named `q`.
pub open spec fn first_route(routes: Seq<GraphRoute>, q: Seq<char>) -> Option<int>
    decreases routes.len(),
{
    if routes.len() == 0 {
        None
    } else if first_route(routes.drop_last(), q) is Some {
        first_route(routes.drop_last(), q)
    } else if routes.last().route@ == q {
        Some(routes.len() - 1)
    } else {
        None
    }
}

/// The first artifact at path `p`.
pub open spec fn first_artifact(arts: Seq<GraphArtifact>, p: Seq<char>) -> Option<int>
    decreases arts.len(),
{
    if arts.len() == 0 {
        None
    } else if first_artifact(arts.drop_last(), p) is Some {
        first_artifact(arts.drop_last(), p)
    } else if arts.last().path@ == p {
        Some(arts.len() - 1)
    } else {
        None
    }
}

/// `q` without its leading slashes.
pub open spec fn strip_slashes(q: Seq<char>) -> Seq<char>
    decreases q.len(),
{
    if q.len() > 0 && q[0] == '/' {
        strip_slashes(q.skip(1))
    } else {
        q
    }
}

/// The artifact a query names: a route's first artifact or an artifact path
/// for a query starting with a slash (the path with its slashes removed when
/// no route matches), else an artifact path.
pub open spec fn queried_artifact(g: BuildGraph, q: Seq<char>) -> Option<int> {
    if q.len() > 0 && q[0] == '/' {
        let via = match first_route(g.routes@, q) {
            Some(r) => if g.routes@[r].artifacts.len() > 0 {
                first_artifact(g.artifacts@, g.routes@[r].artifacts@[0]@)
            } else {
                None
            },
            None => None,
        };
        if via is Some {
            via
        } else {
            first_artifact(g.artifacts@, strip_slashes(q))
        }
    } else {
        first_artifact(g.artifacts@, q)
    }
}

/// Pieces joined with `, `.
pub open spec fn join_commas(parts: Seq<Seq<char>>) -> Seq<char>
    decreases parts.len(),
{
    if parts.len() == 0 {
        Seq::empty()
    } else if parts.len() == 1 {
        parts[0]
    } else {
        join_commas(parts.drop_last()) + ", "@ + parts.last()
    }
}

/// The sources an artifact depends on, as the explanation writes them.
pub open spec fn causal_text(a: GraphArtifact, g: BuildGraph) -> Seq<char> {
    match a.sources {
        SourceDependencies::AllSources => "all "@ + crate::numtext::decimal_of(g.sources.len() as nat)
            + " captured project sources (conservative edge)"@,
        SourceDependencies::Explicit { paths } => join_commas(crate::raster::string_views(paths@)),
    }
}

/// The explanation of one artifact.
pub open spec fn explanation(a: GraphArtifact, g: BuildGraph) -> Seq<char> {
    a.path@ + (match a.route {
        Some(r) => " via route "@ + r@,
        None => Seq::empty(),
    }) + " <- "@ + causal_text(a, g) + "\nproducer: "@ + a.producer@ + "\nsha256: "@ + a.sha256@
}

fn find_first_artifact(arts: &Vec<GraphArtifact>, p: &str) -> (r: Option<usize>)
    ensures
        r is None ==> first_artifact(arts@, p@) is None,
        r matches Some(i) ==> i < arts.len() && first_artifact(arts@, p@) == Some(i as int),
{
    let mut i: usize = 0;
    while i < arts.len()
        invariant
            i <= arts.len(),
            first_artifact(arts@.take(i as int), p@) is None,
        decreases arts.len() - i,
    {
        proof {
            assert(arts@.take(i + 1).drop_last() =~= arts@.take(i as int));
        }
        if str_eq(arts[i].path.as_str(), p) {
            proof {
                lemma_first_artifact_prefix(arts@, p@, i + 1);
            }
            return Some(i);
        }
        i = i + 1;
    }
    proof {
        assert(arts@.take(arts.len() as int) =~= arts@);
    }
    None
}

proof fn lemma_first_artifact_prefix(arts: Seq<GraphArtifact>, p: Seq<char>, n: int)
    requires
        0 <= n <= arts.len(),
        first_artifact(arts.take(n), p) is Some,
    ensures
        first_artifact(arts, p) == first_artifact(arts.take(n), p),
    decreases arts.len() - n,
{
    if n < arts.len() {
        assert(arts.take(n + 1).drop_last() =~= arts.take(n));
        lemma_first_artifact_prefix(arts, p, n + 1);
    } else {
        assert(arts.take(n) =~= arts);
    }
}

proof fn lemma_first_route_prefix(routes: Seq<GraphRoute>, q: Seq<char>, n: int)
    requires
        0 <= n <= routes.len(),
        first_route(routes.take(n), q) is Some,
    ensures
        first_route(routes, q) == first_route(routes.take(n), q),
    decreases routes.len() - n,
{
    if n < routes.len() {
        assert(routes.take(n + 1).drop_last() =~= routes.take(n));
        lemma_first_route_prefix(routes, q, n + 1);
    } else {
        assert(routes.take(n) =~= routes);
    }
}

fn find_first_route(routes: &Vec<GraphRoute>, q: &str) -> (r: Option<usize>)
    ensures
        r is None ==> first_route(routes@, q@) is None,
        r matches Some(i) ==> i < routes.len() && first_route(routes@, q@) == Some(i as int),
{
    let mut i: usize = 0;
    while i < routes.len()
        invariant
            i <= routes.len(),
            first_route(routes@.take(i as int), q@) is None,
        decreases routes.len() - i,
    {
        proof {
            assert(routes@.take(i + 1).drop_last() =~= routes@.take(i as int));
        }
        if str_eq(routes[i].route.as_str(), q) {
            proof {
                lemma_first_route_prefix(routes@, q@, i + 1);
            }
            return Some(i);
        }
        i = i + 1;
    }
    proof {
        assert(routes@.take(routes.len() as int) =~= routes@);
    }
    None
}

fn strip_leading_slashes(q: &Vec<char>) -> (out: String)
    ensures
        out@ == strip_slashes(q@),
{
    let mut i: usize = 0;
    assert(q@.skip(0) =~= q@);
    while i < q.len() && q[i] == '/'
        invariant
            i <= q.len(),
            strip_slashes(q@) == strip_slashes(q@.skip(i as int)),
        decreases q.len() - i,
    {
        proof {
            assert(q@.skip(i as int).skip(1) =~= q@.skip(i + 1));
        }
        i = i + 1;
    }
    crate::numtext::suffix_string(q.as_slice(), i)
}

/// Explains where an artifact, or a route's first artifact, comes from: its
/// route, the sources it depends on, its producer and its digest.
pub fn explain_artifact(graph: &BuildGraph, query: &str) -> (r: Result<String, String>)
    ensures
        ({
            let q = crate::numtext::trim(query@);
            match queried_artifact(*graph, q) {
                Some(i) => r matches Ok(s) && s@ == explanation(graph.artifacts@[i], *graph),
                None => r matches Err(m) && m@ == "artifact or route "@ + crate::text::debug_text(q)
                    + " is not present in the current build graph"@,
            }
        }),
{
    let q_chars = crate::numtext::trimmed(chars_of(query).as_slice());
    let q = string_from_chars(q_chars.as_slice());
    let ghost qv = crate::numtext::trim(query@);
    let found: Option<usize> = if q_chars.len() > 0 && q_chars[0] == '/' {
        let via = match find_first_route(&graph.routes, q.as_str()) {
            Some(ri) => {
                let route = &graph.routes[ri];
                if route.artifacts.len() > 0 {
                    find_first_artifact(&graph.artifacts, route.artifacts[0].as_str())
                } else {
                    None
                }
            },
            None => None,
        };
        match via {
            Some(i) => Some(i),
            None => {
                let path = strip_leading_slashes(&q_chars);
                find_first_artifact(&graph.artifacts, path.as_str())
            },
        }
    } else {
        find_first_artifact(&graph.artifacts, q.as_str())
    };
    assert(q@ == qv);
    assert(found is None ==> queried_artifact(*graph, qv) is None);
    assert(found matches Some(i) ==> i < graph.artifacts.len() && queried_artifact(*graph, qv) == Some(i as int));
    match found {
        None => {
            let mut m = String::new();
            push_str(&mut m, "artifact or route ");
            push_str(&mut m, crate::text::debug_quoted(q.as_str()).as_str());
            push_str(&mut m, " is not present in the current build graph");
            proof {
                assert(m@ =~= "artifact or route "@ + crate::text::debug_text(qv)
                    + " is not present in the current build graph"@);
            }
            Err(m)
        },
        Some(i) => {
            let a = &graph.artifacts[i];
            let mut out = String::new();
            push_str(&mut out, a.path.as_str());
            match &a.route {
                Some(route) => {
                    push_str(&mut out, " via route ");
                    push_str(&mut out, route.as_str());
                },
                None => {},
            }
            push_str(&mut out, " <- ");
            match &a.sources {
                crate::build_graph::SourceDependencies::AllSources => {
                    push_str(&mut out, "all ");
                    push_str(&mut out, crate::numtext::decimal_string(graph.sources.len() as u64).as_str());
                    push_str(&mut out, " captured project sources (conservative edge)");
                },
                crate::build_graph::SourceDependencies::Explicit { paths } => {
                    let joined = join_with_commas(paths);
                    push_str(&mut out, joined.as_str());
                },
            }
            push_str(&mut out, "\nproducer: ");
            push_str(&mut out, a.producer.as_str());
            push_str(&mut out, "\nsha256: ");
            push_str(&mut out, a.sha256.as_str());
            proof {
                assert(out@ =~= explanation(graph.artifacts@[i as int], *graph));
            }
            Ok(out)
        },
    }
}

pub fn join_with_commas(parts: &Vec<String>) -> (out: String)
    ensures
        out@ == join_commas(crate::raster::string_views(parts@)),
{
    let ghost views = crate::raster::string_views(parts@);
    let mut out = String::new();
    let mut i: usize = 0;
    while i < parts.len()
        invariant
            i <= parts.len(),
            views == crate::raster::string_views(parts@),
            out@ == join_commas(views.take(i as int)),
        decreases parts.len() - i,
    {
        proof {
            assert(views.take(i + 1).drop_last() =~= views.take(i as int));
        }
        if i > 0 {
            push_str(&mut out, ", ");
        }
        push_str(&mut out, parts[i].as_str());
        proof {
            if i == 0 {
                assert(views.take(1) =~= seq![views[0]]);
            }
            assert(out@ =~= join_commas(views.take(i + 1)));
        }
        i = i + 1;
    }
    proof {
        assert(views.take(parts.len() as int) =~= views);
    }
    out
}

} // verus!

verus! {

/// What a development server last published: the build failure to show, if
/// any, the hot update to send, and how many times it has published.
#[derive(Clone, Debug)]
pub struct DevState {
    pub generation: u64,
    pub build_failure: Option<String>,
    pub update: HmrUpdate,
}

impl DevState {
    /// The state before the first rebuild: generation zero, the initial
    /// build's failure, and a full reload.
    pub fn new(build_failure: Option<String>) -> (s: DevState)
        ensures
            s.generation == 0,
            s.build_failure == build_failure,
            s.update.kind == HmrKind::Reload,
            s.update.paths@.len() == 0,
            s.update.routes@.len() == 0,
    {
        DevState { generation: 0, build_failure, update: HmrUpdate::reload() }
    }

    /// Publishes a rebuild: its failure and update replace the last, and
    /// the new generation is returned.
    pub fn publish(&mut self, build_failure: Option<String>, update: HmrUpdate) -> (generation: u64)
        requires
            old(self).generation < u64::MAX,
        ensures
            generation == old(self).generation + 1,
            final(self).generation == generation,
            final(self).build_failure == build_failure,
            final(self).update == update,
    {
        self.build_failure = build_failure;
        self.update = update;
        self.generation = self.generation + 1;
        self.generation
    }

    /// The failure last published.
    pub fn failure(&self) -> (f: Option<String>)
        ensures
            crate::cli::option_text(f) == crate::cli::option_text(self.build_failure),
    {
        match &self.build_failure {
            Some(m) => Some(m.clone()),
            None => None,
        }
    }

    /// The update last published.
    pub fn update(&self) -> (u: HmrUpdate)
        ensures
            u.kind == self.update.kind,
            u.paths@ == self.update.paths@,
            u.routes@ == self.update.routes@,
    {
        HmrUpdate {
            kind: self.update.kind,
            paths: copy_strings(&self.update.paths),
            routes: copy_strings(&self.update.routes),
        }
    }
}


/// Every changed path names a graph artifact.
pub open spec fn changes_all_known(changed: Seq<String>, g: BuildGraph) -> bool {
    forall|k: int| 0 <= k < changed.len() ==> exists|i: int|
        0 <= i < g.artifacts.len() && #[trigger] g.artifacts@[i].path@ == (#[trigger] changed[k])@
}

/// Every artifact named by a changed path ends in one of `suffixes`.
pub open spec fn changed_paths_end_in(changed: Seq<String>, g: BuildGraph, suffixes: Seq<Seq<char>>) -> bool {
    forall|k: int, i: int|
        0 <= k < changed.len() && 0 <= i < g.artifacts.len() && (#[trigger] g.artifacts@[i]).path@ == (
        #[trigger] changed[k])@ ==> exists|s: int| 0 <= s < suffixes.len() && ends_with(g.artifacts@[i].path@, #[trigger] suffixes[s])
}

/// Every artifact named by a changed path is route content.
pub open spec fn changed_routes_only(changed: Seq<String>, g: BuildGraph) -> bool {
    forall|k: int, i: int|
        0 <= k < changed.len() && 0 <= i < g.artifacts.len() && (#[trigger] g.artifacts@[i]).path@ == (
        #[trigger] changed[k])@ ==> g.artifacts@[i].kind@ == "route"@
}

/// The hot update a rebuild gets: none for no change; a reload when a
/// changed path is not in the graph; styles when every changed artifact is a
/// `.css` file; route content when every one is a route; adapter code when
/// every one is `.js`, `.mjs` or `.wasm`; a reload otherwise.
pub proof fn law_update_kind_follows_changed_artifacts(changed: Seq<String>, g: BuildGraph)
    ensures
        changed.len() == 0 ==> hmr_kind(changed, g) == HmrKind::Unchanged,
        changed.len() > 0 && !changes_all_known(changed, g) ==> hmr_kind(changed, g) == HmrKind::Reload,
        changed.len() > 0 && changes_all_known(changed, g) && changed_paths_end_in(changed, g, seq![".css"@])
            ==> hmr_kind(changed, g) == HmrKind::Css,
        changed.len() > 0 && changes_all_known(changed, g) && !changed_paths_end_in(changed, g, seq![".css"@])
            && changed_routes_only(changed, g) ==> hmr_kind(changed, g) == HmrKind::Content,
        changed.len() > 0 && changes_all_known(changed, g) && !changed_paths_end_in(changed, g, seq![".css"@])
            && !changed_routes_only(changed, g) && changed_paths_end_in(changed, g, seq![".js"@, ".mjs"@, ".wasm"@])
            ==> hmr_kind(changed, g) == HmrKind::Adapter,
        changed.len() > 0 && changes_all_known(changed, g) && !changed_paths_end_in(changed, g, seq![".css"@])
            && !changed_routes_only(changed, g) && !changed_paths_end_in(changed, g, seq![".js"@, ".mjs"@, ".wasm"@])
            ==> hmr_kind(changed, g) == HmrKind::Reload,
{
    let css = seq![".css"@];
    let code = seq![".js"@, ".mjs"@, ".wasm"@];
    if changed.len() > 0 {
        assert(changes_all_known(changed, g) <==> !exists|k: int| 0 <= k < changed.len() && !has_artifact(
            g,
            (#[trigger] changed[k])@,
        ));
        assert(changed_paths_end_in(changed, g, css) <==> all_changed(changed, g, |a: GraphArtifact| is_stylesheet(a))) by {
            if changed_paths_end_in(changed, g, css) {
                assert forall|k: int, i: int|
                    0 <= k < changed.len() && 0 <= i < g.artifacts.len() && (#[trigger] g.artifacts@[i]).path@ == (
                    #[trigger] changed[k])@ implies is_stylesheet(g.artifacts@[i]) by {
                    let s = choose|s: int| 0 <= s < css.len() && ends_with(g.artifacts@[i].path@, #[trigger] css[s]);
                }
            }
            if all_changed(changed, g, |a: GraphArtifact| is_stylesheet(a)) {
                assert forall|k: int, i: int|
                    0 <= k < changed.len() && 0 <= i < g.artifacts.len() && (#[trigger] g.artifacts@[i]).path@ == (
                    #[trigger] changed[k])@ implies exists|s: int| 0 <= s < css.len() && ends_with(g.artifacts@[i].path@, #[trigger] css[s]) by {
                    assert(is_stylesheet(g.artifacts@[i]));
                    assert(ends_with(g.artifacts@[i].path@, css[0]));
                }
            }
        }
        assert(changed_routes_only(changed, g) <==> all_changed(changed, g, |a: GraphArtifact| is_route_content(a)));
        assert(changed_paths_end_in(changed, g, code) <==> all_changed(changed, g, |a: GraphArtifact| is_adapter_code(a))) by {
            if changed_paths_end_in(changed, g, code) {
                assert forall|k: int, i: int|
                    0 <= k < changed.len() && 0 <= i < g.artifacts.len() && (#[trigger] g.artifacts@[i]).path@ == (
                    #[trigger] changed[k])@ implies is_adapter_code(g.artifacts@[i]) by {
                    let s = choose|s: int| 0 <= s < code.len() && ends_with(g.artifacts@[i].path@, #[trigger] code[s]);
                }
            }
            if all_changed(changed, g, |a: GraphArtifact| is_adapter_code(a)) {
                assert forall|k: int, i: int|
                    0 <= k < changed.len() && 0 <= i < g.artifacts.len() && (#[trigger] g.artifacts@[i]).path@ == (
                    #[trigger] changed[k])@ implies exists|s: int| 0 <= s < code.len() && ends_with(g.artifacts@[i].path@, #[trigger] code[s]) by {
                    assert(is_adapter_code(g.artifacts@[i]));
                    if ends_with(g.artifacts@[i].path@, ".js"@) {
                        assert(ends_with(g.artifacts@[i].path@, code[0]));
                    } else if ends_with(g.artifacts@[i].path@, ".mjs"@) {
                        assert(ends_with(g.artifacts@[i].path@, code[1]));
                    } else {
                        assert(ends_with(g.artifacts@[i].path@, code[2]));
                    }
                }
            }
        }
    }
}

} // verus!
