//! The packages a site build depends on: the site and client packages of a
//! project, and everything Cargo's resolved dependency graph reaches from
//! them.
use vstd::prelude::*;
use crate::rebuild::{in_list, lists, set_list};
use crate::raster::string_views;
use crate::text::{chars_of, debug_quoted, debug_text, push_str, str_eq};
use crate::textmap::TextMap;
use crate::cli::option_text;
use crate::numtext::{lower_ascii, lowercase_ascii};
use crate::receipt::{FrameworkEvidence, InputMaterial};
use crate::text::{
    ascii_digit, ascii_hexdigit, is_ascii_digit, is_ascii_hexdigit, starts_with, starts_with_chars,
    string_from_chars,
};

verus! {

broadcast use vstd::string::group_string_axioms;

/// A target a package builds, by its kinds.
#[derive(Clone, Debug)]
pub struct CargoTarget {
    pub kind: Vec<String>,
}

/// A package of `cargo metadata`.
#[derive(Clone, Debug)]
pub struct CargoPackage {
    pub name: String,
    pub version: String,
    pub id: String,
    pub source: Option<String>,
    pub manifest_path: String,
    pub targets: Vec<CargoTarget>,
}

/// A node of the resolved dependency graph.
#[derive(Clone, Debug)]
pub struct CargoResolveNode {
    pub id: String,
    pub dependencies: Vec<String>,
}

/// The resolved dependency graph.
#[derive(Clone, Debug)]
pub struct CargoResolve {
    pub nodes: Vec<CargoResolveNode>,
}

/// What `cargo metadata` reports of a workspace.
#[derive(Clone, Debug)]
pub struct CargoMetadata {
    pub packages: Vec<CargoPackage>,
    pub workspace_root: String,
    pub target_directory: String,
    pub resolve: Option<CargoResolve>,
}

/// The node that a map keyed by id keeps for `id`: the last one listed.
pub open spec fn node_for(nodes: Seq<CargoResolveNode>, id: Seq<char>) -> Option<int>
    decreases nodes.len(),
{
    if nodes.len() == 0 {
        None
    } else if nodes.last().id@ == id {
        Some(nodes.len() - 1)
    } else {
        node_for(nodes.drop_last(), id)
    }
}

/// `y` is a dependency of `x`.
pub open spec fn depends(nodes: Seq<CargoResolveNode>, x: Seq<char>, y: Seq<char>) -> bool {
    match node_for(nodes, x) {
        Some(i) => in_list(nodes[i].dependencies@, y),
        None => false,
    }
}

/// Each id of `p` is a dependency of the one before.
pub open spec fn dependency_path(nodes: Seq<CargoResolveNode>, p: Seq<Seq<char>>) -> bool {
    forall|i: int| 0 < i < p.len() ==> depends(nodes, #[trigger] p[i - 1], p[i])
}

/// `x` is reached from a root through dependencies.
pub open spec fn reaches(nodes: Seq<CargoResolveNode>, roots: Seq<Seq<char>>, x: Seq<char>) -> bool {
    exists|p: Seq<Seq<char>>|
        #![trigger dependency_path(nodes, p), p.last()]
        p.len() > 0 && roots.contains(p[0]) && p.last() == x && dependency_path(nodes, p)
}

/// Every id reached from the roots.
pub open spec fn reached(nodes: Seq<CargoResolveNode>, roots: Seq<Seq<char>>) -> Set<Seq<char>> {
    Set::new(|x: Seq<char>| reaches(nodes, roots, x))
}

/// A reached id with no node of its own.
pub open spec fn missing_node(nodes: Seq<CargoResolveNode>, roots: Seq<Seq<char>>, x: Seq<char>) -> bool {
    reaches(nodes, roots, x) && node_for(nodes, x) is None
}

pub open spec fn missing_message(id: Seq<char>) -> Seq<char> {
    "Cargo dependency graph omitted a node for resolved package "@ + debug_text(id)
}

proof fn lemma_node_for_last(nodes: Seq<CargoResolveNode>, id: Seq<char>, j: int)
    requires
        0 <= j < nodes.len(),
        nodes[j].id@ == id,
        forall|m: int| j < m < nodes.len() ==> (#[trigger] nodes[m]).id@ != id,
    ensures
        node_for(nodes, id) == Some(j),
    decreases nodes.len(),
{
    if j < nodes.len() - 1 {
        assert(nodes.last().id@ != id);
        let d = nodes.drop_last();
        assert forall|m: int| j < m < d.len() implies (#[trigger] d[m]).id@ != id by {
            assert(d[m] == nodes[m]);
        }
        lemma_node_for_last(d, id, j);
    }
}

proof fn lemma_node_for_some(nodes: Seq<CargoResolveNode>, id: Seq<char>)
    requires
        node_for(nodes, id) is Some,
    ensures
        0 <= node_for(nodes, id)->0 < nodes.len(),
        nodes[node_for(nodes, id)->0].id@ == id,
    decreases nodes.len(),
{
    if nodes.last().id@ != id {
        lemma_node_for_some(nodes.drop_last(), id);
    }
}

proof fn lemma_node_for_none(nodes: Seq<CargoResolveNode>, id: Seq<char>)
    requires
        forall|m: int| 0 <= m < nodes.len() ==> (#[trigger] nodes[m]).id@ != id,
    ensures
        node_for(nodes, id) is None,
    decreases nodes.len(),
{
    if nodes.len() > 0 {
        let d = nodes.drop_last();
        assert forall|m: int| 0 <= m < d.len() implies (#[trigger] d[m]).id@ != id by {
            assert(d[m] == nodes[m]);
        }
        lemma_node_for_none(d, id);
    }
}

/// Indexes each id by its last node.
fn node_index(nodes: &Vec<CargoResolveNode>) -> (m: TextMap<usize>)
    ensures
        m.wf(),
        forall|id: Seq<char>|
            #![trigger m@.contains_key(id)]
            (m@.contains_key(id) ==> node_for(nodes@, id) == Some(m@[id] as int) && m@[id] < nodes.len())
                && (!m@.contains_key(id) ==> node_for(nodes@, id) is None),
{
    let mut m: TextMap<usize> = TextMap::new();
    let mut k: usize = nodes.len();
    while k > 0
        invariant
            k <= nodes.len(),
            m.wf(),
            forall|id: Seq<char>|
                #![trigger m@.contains_key(id)]
                m@.contains_key(id) <==> exists|j: int| k <= j < nodes.len() && (#[trigger] nodes@[j]).id@ == id,
            forall|id: Seq<char>|
                #![trigger m@.contains_key(id)]
                m@.contains_key(id) ==> k <= m@[id] < nodes.len() && nodes@[m@[id] as int].id@ == id && forall|
                    j: int,
                | m@[id] < j < nodes.len() ==> (#[trigger] nodes@[j]).id@ != id,
        decreases k,
    {
        k = k - 1;
        let key = chars_of(nodes[k].id.as_str());
        if !m.contains(key.as_slice()) {
            let ghost before = m@;
            proof {
                assert forall|j: int| k < j < nodes.len() implies (#[trigger] nodes@[j]).id@ != key@ by {
                    if nodes@[j].id@ == key@ {
                        assert(before.contains_key(key@));
                    }
                }
            }
            m.insert_new(key, k);
            proof {
                assert forall|id: Seq<char>| #![trigger m@.contains_key(id)]
                    m@.contains_key(id) <==> exists|j: int| k <= j < nodes.len() && (#[trigger] nodes@[j]).id@ == id by {
                    if id == key@ {
                        assert(nodes@[k as int].id@ == id);
                    } else if exists|j: int| k <= j < nodes.len() && (#[trigger] nodes@[j]).id@ == id {
                        let j = choose|j: int| k <= j < nodes.len() && (#[trigger] nodes@[j]).id@ == id;
                        assert(j != k);
                        assert(before.contains_key(id));
                    }
                }
            }
        } else {
            proof {
                assert forall|id: Seq<char>| #![trigger m@.contains_key(id)]
                    m@.contains_key(id) <==> exists|j: int| k <= j < nodes.len() && (#[trigger] nodes@[j]).id@ == id by {
                    if exists|j: int| k <= j < nodes.len() && (#[trigger] nodes@[j]).id@ == id {
                        let j = choose|j: int| k <= j < nodes.len() && (#[trigger] nodes@[j]).id@ == id;
                        if j == k {
                            assert(m@.contains_key(key@));
                        } else {
                            assert(exists|j: int| k + 1 <= j < nodes.len() && (#[trigger] nodes@[j]).id@ == id);
                        }
                    }
                }
            }
        }
    }
    proof {
        assert forall|id: Seq<char>| #![trigger m@.contains_key(id)]
            (m@.contains_key(id) ==> node_for(nodes@, id) == Some(m@[id] as int) && m@[id] < nodes.len())
                && (!m@.contains_key(id) ==> node_for(nodes@, id) is None) by {
            if m@.contains_key(id) {
                lemma_node_for_last(nodes@, id, m@[id] as int);
            } else {
                assert forall|j: int| 0 <= j < nodes.len() implies (#[trigger] nodes@[j]).id@ != id by {
                    if nodes@[j].id@ == id {
                        assert(m@.contains_key(id));
                    }
                }
                lemma_node_for_none(nodes@, id);
            }
        }
    }
    m
}

/// The ids of the graph's nodes.
pub open spec fn node_ids(nodes: Seq<CargoResolveNode>) -> Set<Seq<char>> {
    nodes.map_values(|n: CargoResolveNode| n.id@).to_set()
}

proof fn lemma_path_closed(
    nodes: Seq<CargoResolveNode>,
    roots: Seq<Seq<char>>,
    visited: Set<Seq<char>>,
    p: Seq<Seq<char>>,
)
    requires
        p.len() > 0,
        roots.contains(p[0]),
        dependency_path(nodes, p),
        forall|k: int| 0 <= k < roots.len() ==> visited.contains(#[trigger] roots[k]),
        forall|x: Seq<char>, y: Seq<char>| #[trigger] visited.contains(x) && #[trigger] depends(nodes, x, y) ==> visited.contains(y),
    ensures
        visited.contains(p.last()),
    decreases p.len(),
{
    if p.len() == 1 {
        let k = choose|k: int| 0 <= k < roots.len() && roots[k] == p[0];
        assert(visited.contains(roots[k]));
    } else {
        let q = p.drop_last();
        assert forall|i: int| 0 < i < q.len() implies depends(nodes, #[trigger] q[i - 1], q[i]) by {
            assert(q[i - 1] == p[i - 1] && q[i] == p[i]);
        }
        lemma_path_closed(nodes, roots, visited, q);
        assert(depends(nodes, p[p.len() - 2], p[p.len() - 1]));
        assert(visited.contains(q.last()));
    }
}

/// The packages reached from the roots through the resolved dependency
/// graph, in increasing order; refused when a reached package has no node.
pub fn reach_closure(roots: &Vec<String>, nodes: &Vec<CargoResolveNode>) -> (r: Result<Vec<String>, String>)
    ensures
        match r {
            Ok(v) => lists(v@, reached(nodes@, string_views(roots@))),
            Err(m) => exists|x: Seq<char>|
                #[trigger] missing_node(nodes@, string_views(roots@), x) && m@ == missing_message(x),
        },
        r is Ok <==> !exists|x: Seq<char>| #[trigger] missing_node(nodes@, string_views(roots@), x),
{
    let ghost rv = string_views(roots@);
    let index = node_index(nodes);
    let ghost ids = node_ids(nodes@);
    proof {
        nodes@.map_values(|n: CargoResolveNode| n.id@).lemma_cardinality_of_set();
        vstd::seq_lib::seq_to_set_is_finite(nodes@.map_values(|n: CargoResolveNode| n.id@));
    }
    let mut visited: TextMap<()> = TextMap::new();
    let mut pending: Vec<String> = crate::receipt::duplicate_vec(roots);
    proof {
        assert forall|k: int| 0 <= k < pending.len() implies reaches(nodes@, rv, (#[trigger] pending@[k])@) by {
            let p = seq![roots@[k]@];
            assert(pending@[k] == roots@[k]);
            assert(rv[k] == p[0]);
            assert(rv.contains(p[0]));
            assert(dependency_path(nodes@, p));
            assert(p.last() == pending@[k]@);
        }
        assert forall|k: int| 0 <= k < roots.len() implies visited@.contains_key((#[trigger] roots@[k])@) || in_list(
            pending@,
            roots@[k]@,
        ) by {
            assert(pending@[k] == roots@[k]);
        }
        assert(visited@.dom() =~= Set::<Seq<char>>::empty());
    }
    while pending.len() > 0
        invariant
            rv == string_views(roots@),
            index.wf(),
            forall|id: Seq<char>|
                #![trigger index@.contains_key(id)]
                (index@.contains_key(id) ==> node_for(nodes@, id) == Some(index@[id] as int) && index@[id]
                    < nodes.len()) && (!index@.contains_key(id) ==> node_for(nodes@, id) is None),
            ids == node_ids(nodes@),
            ids.finite(),
            visited.wf(),
            visited@.dom().subset_of(ids),
            forall|x: Seq<char>|
                #[trigger] visited@.contains_key(x) ==> reaches(nodes@, rv, x) && node_for(nodes@, x) is Some,
            forall|k: int| 0 <= k < pending.len() ==> reaches(nodes@, rv, (#[trigger] pending@[k])@),
            forall|x: Seq<char>, y: Seq<char>|
                #[trigger] visited@.contains_key(x) && #[trigger] depends(nodes@, x, y) ==> visited@.contains_key(y)
                    || in_list(pending@, y),
            forall|k: int|
                0 <= k < roots.len() ==> visited@.contains_key((#[trigger] roots@[k])@) || in_list(pending@, roots@[k]@),
        decreases ids.len() - visited@.dom().len(), pending.len(),
    {
        proof {
            vstd::set_lib::lemma_len_subset(visited@.dom(), ids);
        }
        let ghost before = pending@;
        let id = pending.pop().unwrap();
        assert(before == pending@.push(id));
        assert(reaches(nodes@, rv, id@)) by {
            assert(before[before.len() - 1] == id);
        }
        proof {
            assert forall|y: Seq<char>| in_list(before, y) implies in_list(pending@, y) || y == id@ by {
                let k = choose|k: int| 0 <= k < before.len() && (#[trigger] before[k])@ == y;
                if k < pending.len() {
                    assert(pending@[k] == before[k]);
                }
            }
        }
        let key = chars_of(id.as_str());
        if !visited.contains(key.as_slice()) {
            let i = match index.get(key.as_slice()) {
                Some(i) => *i,
                None => {
                    let mut m = String::new();
                    push_str(&mut m, "Cargo dependency graph omitted a node for resolved package ");
                    push_str(&mut m, debug_quoted(id.as_str()).as_str());
                    proof {
                        assert(missing_node(nodes@, rv, id@));
                        assert(m@ =~= missing_message(id@));
                    }
                    return Err(m);
                },
            };
            let ghost vbefore = visited@.dom();
            visited.insert_new(key, ());
            proof {
                assert(node_for(nodes@, id@) == Some(i as int));
                lemma_node_for_some(nodes@, id@);
                assert(nodes@.map_values(|n: CargoResolveNode| n.id@)[i as int] == id@);
                assert(nodes@.map_values(|n: CargoResolveNode| n.id@).contains(id@));
                assert(ids.contains(id@));
                assert(visited@.dom() =~= vbefore.insert(id@));
                vstd::set_lib::lemma_len_subset(visited@.dom(), ids);
                assert(vbefore.finite());
                assert(visited@.dom().len() == vbefore.len() + 1);
            }
            let ghost base = pending@;
            let deps = &nodes[i].dependencies;
            let mut j: usize = 0;
            while j < deps.len()
                invariant
                    j <= deps.len(),
                    *deps == nodes@[i as int].dependencies,
                    pending@ == base + deps@.take(j as int),
                    forall|k: int| 0 <= k < base.len() ==> reaches(nodes@, rv, (#[trigger] base[k])@),
                    reaches(nodes@, rv, id@),
                    node_for(nodes@, id@) == Some(i as int),
                decreases deps.len() - j,
            {
                pending.push(deps[j].clone());
                j = j + 1;
                proof {
                    assert(pending@ =~= base + deps@.take(j as int));
                }
            }
            proof {
                assert(deps@.take(deps.len() as int) =~= deps@);
                assert forall|k: int| 0 <= k < pending.len() implies reaches(nodes@, rv, (#[trigger] pending@[k])@) by {
                    if k >= base.len() {
                        let d = deps@[k - base.len()];
                        assert(pending@[k] == d);
                        let p = choose|p: Seq<Seq<char>>|
                            #![trigger dependency_path(nodes@, p), p.last()]
                            p.len() > 0 && rv.contains(p[0]) && p.last() == id@ && dependency_path(nodes@, p);
                        let q = p.push(d@);
                        assert(depends(nodes@, id@, d@));
                        assert forall|m: int| 0 < m < q.len() implies depends(nodes@, #[trigger] q[m - 1], q[m]) by {
                            if m < p.len() {
                                assert(q[m - 1] == p[m - 1] && q[m] == p[m]);
                            } else {
                                assert(q[m - 1] == id@);
                            }
                        }
                        assert(q[0] == p[0]);
                        assert(q.last() == d@);
                        assert(dependency_path(nodes@, q));
                    }
                }
                assert forall|y: Seq<char>| in_list(base, y) implies in_list(pending@, y) by {
                    let k = choose|k: int| 0 <= k < base.len() && (#[trigger] base[k])@ == y;
                    assert(pending@[k] == base[k]);
                }
                assert forall|y: Seq<char>| #[trigger] depends(nodes@, id@, y) implies in_list(pending@, y) by {
                    let k = choose|k: int| 0 <= k < deps@.len() && (#[trigger] deps@[k])@ == y;
                    assert(pending@[base.len() + k] == deps@[k]);
                }
            }
        }
    }
    proof {
        assert forall|x: Seq<char>| reaches(nodes@, rv, x) implies visited@.contains_key(x) by {
            let p = choose|p: Seq<Seq<char>>|
                #![trigger dependency_path(nodes@, p), p.last()]
                p.len() > 0 && rv.contains(p[0]) && p.last() == x && dependency_path(nodes@, p);
            assert forall|k: int| 0 <= k < rv.len() implies visited@.dom().contains(#[trigger] rv[k]) by {
                assert(rv[k] == roots@[k]@);
                assert(visited@.contains_key(roots@[k]@) || in_list(pending@, roots@[k]@));
            }
            assert forall|a: Seq<char>, b: Seq<char>| #[trigger] visited@.dom().contains(a) && #[trigger] depends(
                nodes@,
                a,
                b,
            ) implies visited@.dom().contains(b) by {
                assert(visited@.contains_key(a));
                assert(visited@.contains_key(b) || in_list(pending@, b));
            }
            lemma_path_closed(nodes@, rv, visited@.dom(), p);
        }
        assert(visited@.dom() =~= reached(nodes@, rv));
        assert forall|x: Seq<char>| !#[trigger] missing_node(nodes@, rv, x) by {
            if reaches(nodes@, rv, x) {
                assert(visited@.contains_key(x));
            }
        }
    }
    Ok(set_list(&visited))
}

/// Ids of the packages named `name`, in order; with `inside`, only those
/// whose root lies below the project root.
pub open spec fn package_ids(packages: Seq<CargoPackage>, name: Seq<char>, inside: Option<Seq<bool>>) -> Seq<Seq<char>>
    decreases packages.len(),
{
    if packages.len() == 0 {
        Seq::empty()
    } else {
        let rest = package_ids(packages.drop_last(), name, inside);
        let k = packages.len() - 1;
        let keep = packages.last().name@ == name && match inside {
            Some(flags) => flags[k],
            None => true,
        };
        if keep {
            rest.push(packages.last().id@)
        } else {
            rest
        }
    }
}

/// The roots of the build: the one site package below the project root,
/// and the one client package when the project has a client.
pub open spec fn root_ids(
    packages: Seq<CargoPackage>,
    inside: Seq<bool>,
    site: Seq<char>,
    client: Option<Seq<char>>,
) -> Result<Seq<Seq<char>>, Seq<char>> {
    let sites = package_ids(packages, site, Some(inside));
    if sites.len() != 1 {
        Err(
            "Cargo resolution must contain exactly one site package "@ + debug_text(site)
                + " below the project root"@,
        )
    } else {
        match client {
            None => Ok(sites),
            Some(c) => {
                let clients = package_ids(packages, c, None);
                if clients.len() != 1 {
                    Err("Cargo resolution must contain exactly one client package "@ + debug_text(c))
                } else {
                    Ok(sites + clients)
                }
            },
        }
    }
}

fn collect_ids(packages: &Vec<CargoPackage>, name: &str, inside: Option<&Vec<bool>>) -> (out: Vec<String>)
    requires
        inside matches Some(flags) ==> flags.len() == packages.len(),
    ensures
        string_views(out@) == package_ids(
            packages@,
            name@,
            match inside {
                Some(flags) => Some(flags@),
                None => None,
            },
        ),
{
    let ghost flags: Option<Seq<bool>> = match inside {
        Some(f) => Some(f@),
        None => None,
    };
    let mut out: Vec<String> = Vec::new();
    let mut i: usize = 0;
    while i < packages.len()
        invariant
            i <= packages.len(),
            flags == (match inside {
                Some(f) => Some(f@),
                None => None,
            }),
            inside matches Some(f) ==> f.len() == packages.len(),
            string_views(out@) == package_ids(packages@.take(i as int), name@, flags),
        decreases packages.len() - i,
    {
        proof {
            assert(packages@.take(i + 1).drop_last() =~= packages@.take(i as int));
        }
        let keep = str_eq(packages[i].name.as_str(), name) && match inside {
            Some(f) => f[i],
            None => true,
        };
        if keep {
            out.push(packages[i].id.clone());
        }
        proof {
            assert(string_views(out@) =~= package_ids(packages@.take(i + 1), name@, flags));
        }
        i = i + 1;
    }
    proof {
        assert(packages@.take(packages.len() as int) =~= packages@);
    }
    out
}

pub open spec fn client_view(c: Option<&str>) -> Option<Seq<char>> {
    match c {
        Some(c) => Some(c@),
        None => None,
    }
}

/// The outcome of `reachable_package_ids`.
pub open spec fn reachable_outcome(
    metadata: CargoMetadata,
    inside: Seq<bool>,
    site: Seq<char>,
    client: Option<Seq<char>>,
) -> Result<Set<Seq<char>>, Option<Seq<char>>> {
    match root_ids(metadata.packages@, inside, site, client) {
        Err(m) => Err(Some(m)),
        Ok(roots) => match metadata.resolve {
            None => Err(Some("cargo metadata omitted the resolved dependency graph"@)),
            Some(resolve) => if exists|x: Seq<char>| #[trigger] missing_node(resolve.nodes@, roots, x) {
                Err(None)
            } else {
                Ok(reached(resolve.nodes@, roots))
            },
        },
    }
}

/// The packages a site build depends on: those the resolved graph reaches
/// from the site package (the one of that name whose root lies below the
/// project root, as `inside_project` tells for each package) and from the
/// client package, if any. A reached package without a node is named in the
/// refusal.
pub fn reachable_package_ids(
    metadata: &CargoMetadata,
    site_package: &str,
    client_package: Option<&str>,
    inside_project: &Vec<bool>,
) -> (r: Result<Vec<String>, String>)
    requires
        inside_project.len() == metadata.packages.len(),
    ensures
        match reachable_outcome(
            *metadata,
            inside_project@,
            site_package@,
            client_view(client_package),
        ) {
            Ok(set) => r matches Ok(v) && lists(v@, set),
            Err(Some(m)) => r matches Err(s) && s@ == m,
            Err(None) => r matches Err(s) && exists|x: Seq<char>|
                #[trigger] missing_node(metadata.resolve->0.nodes@, root_ids(
                    metadata.packages@,
                    inside_project@,
                    site_package@,
                    client_view(client_package),
                )->Ok_0, x) && s@ == missing_message(x),
        },
{
    let mut roots = collect_ids(&metadata.packages, site_package, Some(inside_project));
    if roots.len() != 1 {
        let mut m = String::new();
        push_str(&mut m, "Cargo resolution must contain exactly one site package ");
        push_str(&mut m, debug_quoted(site_package).as_str());
        push_str(&mut m, " below the project root");
        proof {
            assert(m@ =~= "Cargo resolution must contain exactly one site package "@ + debug_text(site_package@)
                + " below the project root"@);
        }
        return Err(m);
    }
    match client_package {
        None => {},
        Some(client) => {
            let clients = collect_ids(&metadata.packages, client, None);
            if clients.len() != 1 {
                let mut m = String::new();
                push_str(&mut m, "Cargo resolution must contain exactly one client package ");
                push_str(&mut m, debug_quoted(client).as_str());
                proof {
                    assert(m@ =~= "Cargo resolution must contain exactly one client package "@ + debug_text(client@));
                }
                return Err(m);
            }
            let ghost before = string_views(roots@);
            roots.push(clients[0].clone());
            proof {
                assert(string_views(roots@) =~= before + string_views(clients@));
            }
        },
    }
    let resolve = match &metadata.resolve {
        Some(resolve) => resolve,
        None => {
            return Err("cargo metadata omitted the resolved dependency graph".to_owned());
        },
    };
    reach_closure(&roots, &resolve.nodes)
}

/// Refuses a package that is missing or that builds no target of the kind.
pub fn require_package(metadata: &CargoMetadata, name: &str, target_kind: &str, project_file: &str) -> (r: Result<
    (),
    String,
>)
    ensures
        match package_index(metadata.packages@, name@) {
            None => r matches Err(m) && m@ == "Cargo package `"@ + name@ + "` declared in "@ + project_file@
                + " was not found"@,
            Some(i) => if has_target_kind(metadata.packages@[i], target_kind@) {
                r is Ok
            } else {
                r matches Err(m) && m@ == "Cargo package `"@ + name@ + "` must expose a `"@ + target_kind@
                    + "` target"@
            },
        },
{
    let mut i: usize = 0;
    while i < metadata.packages.len()
        invariant
            i <= metadata.packages.len(),
            forall|k: int| 0 <= k < i ==> (#[trigger] metadata.packages@[k]).name@ != name@,
        decreases metadata.packages.len() - i,
    {
        if str_eq(metadata.packages[i].name.as_str(), name) {
            proof {
                lemma_package_index_at(metadata.packages@, name@, i as int);
            }
            let package = &metadata.packages[i];
            let mut found = false;
            let mut t: usize = 0;
            while t < package.targets.len()
                invariant
                    t <= package.targets.len(),
                    found == exists|a: int, b: int|
                        0 <= a < t && 0 <= b < package.targets@[a].kind.len() && (
                        #[trigger] package.targets@[a].kind@[b])@ == target_kind@,
                decreases package.targets.len() - t,
            {
                let kinds = &package.targets[t].kind;
                let mut k: usize = 0;
                let mut here = false;
                while k < kinds.len()
                    invariant
                        k <= kinds.len(),
                        here == exists|b: int| 0 <= b < k && (#[trigger] kinds@[b])@ == target_kind@,
                    decreases kinds.len() - k,
                {
                    if str_eq(kinds[k].as_str(), target_kind) {
                        here = true;
                    }
                    k = k + 1;
                }
                proof {
                    if here {
                        let b = choose|b: int| 0 <= b < kinds.len() && (#[trigger] kinds@[b])@ == target_kind@;
                        assert(package.targets@[t as int].kind@[b]@ == target_kind@);
                    }
                    if exists|a: int, b: int|
                        0 <= a < t + 1 && 0 <= b < package.targets@[a].kind.len() && (
                        #[trigger] package.targets@[a].kind@[b])@ == target_kind@ {
                        let (a, b) = choose|a: int, b: int|
                            0 <= a < t + 1 && 0 <= b < package.targets@[a].kind.len() && (
                            #[trigger] package.targets@[a].kind@[b])@ == target_kind@;
                        if a == t {
                            assert(kinds@[b]@ == target_kind@);
                        }
                    }
                }
                found = found || here;
                t = t + 1;
            }
            if found {
                return Ok(());
            }
            let mut m = String::new();
            push_str(&mut m, "Cargo package `");
            push_str(&mut m, name);
            push_str(&mut m, "` must expose a `");
            push_str(&mut m, target_kind);
            push_str(&mut m, "` target");
            return Err(m);
        }
        i = i + 1;
    }
    proof {
        lemma_package_index_none(metadata.packages@, name@);
    }
    let mut m = String::new();
    push_str(&mut m, "Cargo package `");
    push_str(&mut m, name);
    push_str(&mut m, "` declared in ");
    push_str(&mut m, project_file);
    push_str(&mut m, " was not found");
    Err(m)
}

/// The first package named `name`.
pub open spec fn package_index(packages: Seq<CargoPackage>, name: Seq<char>) -> Option<int>
    decreases packages.len(),
{
    if packages.len() == 0 {
        None
    } else if package_index(packages.drop_last(), name) is Some {
        package_index(packages.drop_last(), name)
    } else if packages.last().name@ == name {
        Some(packages.len() - 1)
    } else {
        None
    }
}

/// Some target of the package has the kind.
pub open spec fn has_target_kind(p: CargoPackage, kind: Seq<char>) -> bool {
    exists|a: int, b: int|
        0 <= a < p.targets.len() && 0 <= b < p.targets@[a].kind.len() && (#[trigger] p.targets@[a].kind@[b])@ == kind
}

proof fn lemma_package_index_at(packages: Seq<CargoPackage>, name: Seq<char>, i: int)
    requires
        0 <= i < packages.len(),
        packages[i].name@ == name,
        forall|k: int| 0 <= k < i ==> (#[trigger] packages[k]).name@ != name,
    ensures
        package_index(packages, name) == Some(i),
    decreases packages.len(),
{
    if i < packages.len() - 1 {
        let d = packages.drop_last();
        assert forall|k: int| 0 <= k < i implies (#[trigger] d[k]).name@ != name by {
            assert(d[k] == packages[k]);
        }
        assert(d[i] == packages[i]);
        lemma_package_index_at(d, name, i);
    } else {
        let d = packages.drop_last();
        assert forall|k: int| 0 <= k < d.len() implies (#[trigger] d[k]).name@ != name by {
            assert(d[k] == packages[k]);
        }
        lemma_package_index_none(d, name);
    }
}

proof fn lemma_package_index_none(packages: Seq<CargoPackage>, name: Seq<char>)
    requires
        forall|k: int| 0 <= k < packages.len() ==> (#[trigger] packages[k]).name@ != name,
    ensures
        package_index(packages, name) is None,
    decreases packages.len(),
{
    if packages.len() > 0 {
        let d = packages.drop_last();
        assert forall|k: int| 0 <= k < d.len() implies (#[trigger] d[k]).name@ != name by {
            assert(d[k] == packages[k]);
        }
        lemma_package_index_none(d, name);
    }
}

} // verus!

verus! {

/// The package a framework build names.
pub open spec fn framework_name() -> Seq<char> {
    "pliego-ssg"@
}

/// Whether a package is the framework package and reached from the site.
pub open spec fn is_framework(p: CargoPackage, reachable: Seq<String>) -> bool {
    p.name@ == framework_name() && in_list(reachable, p.id@)
}

/// The reached framework package: there must be exactly one.
pub fn resolved_framework_package(metadata: &CargoMetadata, reachable: &Vec<String>) -> (r: Result<usize, String>)
    ensures
        (forall|k: int| 0 <= k < metadata.packages.len() ==> !is_framework(#[trigger] metadata.packages@[k], reachable@))
            ==> (r matches Err(m) && m@
            == "the resolved site dependency graph does not contain pliego-ssg; framework provenance cannot be established"@),
        (exists|j: int, k: int|
            0 <= j < k < metadata.packages.len() && is_framework(#[trigger] metadata.packages@[j], reachable@)
                && is_framework(#[trigger] metadata.packages@[k], reachable@)) ==> (r matches Err(m) && m@
            == "the resolved site dependency graph contains multiple pliego-ssg packages; framework provenance is ambiguous"@),
        r matches Ok(k) ==> k < metadata.packages.len() && is_framework(metadata.packages@[k as int], reachable@)
            && forall|j: int|
            0 <= j < metadata.packages.len() && j != k ==> !is_framework(#[trigger] metadata.packages@[j], reachable@),
        r is Err ==> (forall|k: int| 0 <= k < metadata.packages.len() ==> !is_framework(#[trigger] metadata.packages@[k], reachable@))
            || (exists|j: int, k: int|
            0 <= j < k < metadata.packages.len() && is_framework(#[trigger] metadata.packages@[j], reachable@)
                && is_framework(#[trigger] metadata.packages@[k], reachable@)),
{
    let mut found: Option<usize> = None;
    let mut i: usize = 0;
    while i < metadata.packages.len()
        invariant
            i <= metadata.packages.len(),
            match found {
                None => forall|k: int| 0 <= k < i ==> !is_framework(#[trigger] metadata.packages@[k], reachable@),
                Some(f) => f < i && is_framework(metadata.packages@[f as int], reachable@) && forall|k: int|
                    0 <= k < i && k != f ==> !is_framework(#[trigger] metadata.packages@[k], reachable@),
            },
        decreases metadata.packages.len() - i,
    {
        let package = &metadata.packages[i];
        if str_eq(package.name.as_str(), "pliego-ssg") && crate::rebuild::list_contains(reachable, package.id.as_str()) {
            match found {
                None => {
                    found = Some(i);
                },
                Some(f) => {
                    proof {
                        assert(is_framework(metadata.packages@[f as int], reachable@));
                        assert(is_framework(metadata.packages@[i as int], reachable@));
                    }
                    return Err(
                        "the resolved site dependency graph contains multiple pliego-ssg packages; framework provenance is ambiguous".to_owned(),
                    );
                },
            }
        }
        i = i + 1;
    }
    match found {
        Some(f) => Ok(f),
        None => Err(
            "the resolved site dependency graph does not contain pliego-ssg; framework provenance cannot be established".to_owned(),
        ),
    }
}

/// A package entry of `Cargo.lock`.
#[derive(Clone, Debug)]
pub struct LockedPackage {
    pub name: String,
    pub version: String,
    pub source: Option<String>,
    pub checksum: Option<String>,
}

/// Whether a lock entry records the package: same name, version and source.
pub open spec fn locks(l: LockedPackage, p: CargoPackage) -> bool {
    l.name@ == p.name@ && l.version@ == p.version@ && option_text(l.source) == option_text(p.source)
}

/// The last position of `c` in `s`.
pub open spec fn last_at(s: Seq<char>, c: char) -> Option<int>
    decreases s.len(),
{
    if s.len() == 0 {
        None
    } else if s.last() == c {
        Some(s.len() - 1)
    } else {
        last_at(s.drop_last(), c)
    }
}

proof fn lemma_last_at(s: Seq<char>, c: char, k: int)
    requires
        -1 <= k < s.len(),
        k >= 0 ==> s[k] == c,
        forall|m: int| k < m < s.len() ==> s[m] != c,
    ensures
        last_at(s, c) == (if k >= 0 { Some(k) } else { None::<int> }),
    decreases s.len(),
{
    if s.len() > 0 && k < s.len() - 1 {
        assert(s.last() != c);
        lemma_last_at(s.drop_last(), c, k);
    }
}

/// The commit of a Git source: the text after its last `#`, when it is 40
/// hexadecimal digits, in lower case.
pub open spec fn git_commit(source: Seq<char>) -> Option<Seq<char>> {
    match last_at(source, '#') {
        Some(k) => {
            let rev = source.skip(k + 1);
            if rev.len() == 40 && forall|j: int| 0 <= j < 40 ==> is_ascii_hexdigit(#[trigger] rev[j]) {
                Some(lower_ascii(rev))
            } else {
                None
            }
        },
        None => None,
    }
}

/// A lower-case hexadecimal SHA-256 checksum.
pub open spec fn lock_checksum_ok(c: Seq<char>) -> bool {
    c.len() == 64 && forall|j: int| 0 <= j < 64 ==> (is_ascii_digit(#[trigger] c[j]) || (0x61 <= (c[j] as u32)
        && (c[j] as u32) <= 0x66))
}

/// The input material id of a local path package.
pub open spec fn path_material_id(p: CargoPackage) -> Seq<char> {
    "cargo-path/"@ + p.name@ + "@"@ + p.version@
}

/// The first material with the id, if any.
pub open spec fn first_material(ms: Seq<InputMaterial>, id: Seq<char>) -> Option<int>
    decreases ms.len(),
{
    if ms.len() == 0 {
        None
    } else if ms[0].id@ == id {
        Some(0)
    } else {
        match first_material(ms.drop_first(), id) {
            Some(k) => Some(k + 1),
            None => None,
        }
    }
}

/// The source revision of the framework package, from its source, the
/// checksum its lock entry records, and the materials captured, if any.
pub open spec fn revision_outcome(
    p: CargoPackage,
    checksum: Option<Seq<char>>,
    captured: Option<Seq<InputMaterial>>,
) -> Result<Seq<char>, Seq<char>> {
    match option_text(p.source) {
        Some(source) => if starts_with(source, "git+"@) {
            match git_commit(source) {
                Some(rev) => Ok(rev),
                None => Err("resolved pliego-ssg Git source does not contain a full commit: "@ + source),
            }
        } else if starts_with(source, "registry+"@) || starts_with(source, "sparse+"@) {
            match checksum {
                Some(c) => if lock_checksum_ok(c) {
                    Ok("sha256:"@ + c)
                } else {
                    Err("resolved registry pliego-ssg is missing a valid Cargo.lock checksum"@)
                },
                None => Err("resolved registry pliego-ssg is missing a valid Cargo.lock checksum"@),
            }
        } else {
            Err("unsupported resolved source for pliego-ssg provenance: "@ + source)
        },
        None => match captured {
            None => Ok("pending-local-package-content"@),
            Some(ms) => match first_material(ms, path_material_id(p)) {
                Some(k) => Ok("sha256:"@ + ms[k].sha256@),
                None => Err("resolved local pliego-ssg has no captured input material "@ + debug_text(
                    path_material_id(p),
                )),
            },
        },
    }
}

fn same_option_text(a: &Option<String>, b: &Option<String>) -> (r: bool)
    ensures
        r == (option_text(*a) == option_text(*b)),
{
    match (a, b) {
        (Some(x), Some(y)) => str_eq(x.as_str(), y.as_str()),
        (None, None) => true,
        _ => false,
    }
}

fn all_hex(s: &[char]) -> (b: bool)
    ensures
        b == forall|j: int| 0 <= j < s.len() ==> is_ascii_hexdigit(#[trigger] s@[j]),
{
    let mut i: usize = 0;
    while i < s.len()
        invariant
            i <= s.len(),
            forall|j: int| 0 <= j < i ==> is_ascii_hexdigit(#[trigger] s@[j]),
        decreases s.len() - i,
    {
        if !ascii_hexdigit(s[i]) {
            return false;
        }
        i = i + 1;
    }
    true
}

fn all_lower_hex(s: &[char]) -> (b: bool)
    ensures
        b == forall|j: int| 0 <= j < s.len() ==> (is_ascii_digit(#[trigger] s@[j]) || (0x61 <= (s@[j] as u32) && (
        s@[j] as u32) <= 0x66)),
{
    let mut i: usize = 0;
    while i < s.len()
        invariant
            i <= s.len(),
            forall|j: int| 0 <= j < i ==> (is_ascii_digit(#[trigger] s@[j]) || (0x61 <= (s@[j] as u32) && (
            s@[j] as u32) <= 0x66)),
        decreases s.len() - i,
    {
        let c = s[i];
        if !(ascii_digit(c) || (0x61 <= (c as u32) && (c as u32) <= 0x66)) {
            return false;
        }
        i = i + 1;
    }
    true
}

fn commit_of(source: &str) -> (r: Option<String>)
    ensures
        option_text(r) == git_commit(source@),
{
    let chars = chars_of(source);
    let mut j: usize = chars.len();
    while j > 0
        invariant
            j <= chars.len(),
            chars@ == source@,
            forall|m: int| j <= m < chars.len() ==> chars@[m] != '#',
        decreases j,
    {
        if chars[j - 1] == '#' {
            proof {
                lemma_last_at(chars@, '#', j - 1);
            }
            let rev = crate::numtext::suffix_string(chars.as_slice(), j);
            let rev_chars = chars_of(rev.as_str());
            if rev_chars.len() == 40 && all_hex(rev_chars.as_slice()) {
                let lower = lowercase_ascii(rev_chars.as_slice());
                return Some(string_from_chars(lower.as_slice()));
            }
            return None;
        }
        j = j - 1;
    }
    proof {
        lemma_last_at(chars@, '#', -1);
    }
    None
}

fn material_sha(ms: &Vec<InputMaterial>, id: &str) -> (r: Option<String>)
    ensures
        match first_material(ms@, id@) {
            Some(k) => r matches Some(s) && s@ == ms@[k].sha256@,
            None => r is None,
        },
{
    let mut i: usize = 0;
    proof {
        assert(ms@.skip(0) =~= ms@);
    }
    while i < ms.len()
        invariant
            i <= ms.len(),
            first_material(ms@, id@) == (match first_material(ms@.skip(i as int), id@) {
                Some(k) => Some(k + i),
                None => None::<int>,
            }),
        decreases ms.len() - i,
    {
        proof {
            assert(ms@.skip(i as int).drop_first() =~= ms@.skip(i + 1));
            assert(ms@.skip(i as int)[0] == ms@[i as int]);
        }
        if str_eq(ms[i].id.as_str(), id) {
            return Some(ms[i].sha256.clone());
        }
        i = i + 1;
    }
    proof {
        assert(ms@.skip(i as int).len() == 0);
    }
    None
}

/// The framework evidence of the framework package: its version, and its
/// revision from the one `Cargo.lock` entry that records it (`lock_path` is
/// how that file is named in a refusal).
pub fn framework_evidence(
    locked: &Vec<LockedPackage>,
    package: &CargoPackage,
    lock_path: &str,
    captured: Option<&Vec<InputMaterial>>,
) -> (r: Result<FrameworkEvidence, String>)
    ensures
        (forall|k: int| 0 <= k < locked.len() ==> !locks(#[trigger] locked@[k], *package)) ==> (r matches Err(m)
            && m@ == "resolved pliego-ssg "@ + package.version@ + " from Cargo metadata is absent from "@
            + lock_path@),
        (exists|j: int, k: int|
            0 <= j < k < locked.len() && locks(#[trigger] locked@[j], *package) && locks(
                #[trigger] locked@[k],
                *package,
            )) ==> (r matches Err(m) && m@ == "resolved pliego-ssg "@ + package.version@ + " is ambiguous in "@
            + lock_path@),
        forall|k: int|
            0 <= k < locked.len() && locks(#[trigger] locked@[k], *package) && (forall|j: int|
                0 <= j < locked.len() && j != k ==> !locks(#[trigger] locked@[j], *package)) ==> match revision_outcome(
                *package,
                option_text(locked@[k].checksum),
                match captured {
                    Some(ms) => Some(ms@),
                    None => None,
                },
            ) {
                Ok(rev) => r matches Ok(e) && e.version@ == package.version@ && e.source_revision@ == rev,
                Err(m) => r matches Err(s) && s@ == m,
            },
{
    let mut found: Option<usize> = None;
    let mut i: usize = 0;
    while i < locked.len()
        invariant
            i <= locked.len(),
            match found {
                None => forall|k: int| 0 <= k < i ==> !locks(#[trigger] locked@[k], *package),
                Some(f) => f < i && locks(locked@[f as int], *package) && forall|k: int|
                    0 <= k < i && k != f ==> !locks(#[trigger] locked@[k], *package),
            },
        decreases locked.len() - i,
    {
        let l = &locked[i];
        if str_eq(l.name.as_str(), package.name.as_str()) && str_eq(l.version.as_str(), package.version.as_str())
            && same_option_text(&l.source, &package.source) {
            match found {
                None => {
                    found = Some(i);
                },
                Some(f) => {
                    proof {
                        assert(locks(locked@[f as int], *package));
                        assert(locks(locked@[i as int], *package));
                    }
                    let mut m = String::new();
                    push_str(&mut m, "resolved pliego-ssg ");
                    push_str(&mut m, package.version.as_str());
                    push_str(&mut m, " is ambiguous in ");
                    push_str(&mut m, lock_path);
                    return Err(m);
                },
            }
        }
        i = i + 1;
    }
    let k = match found {
        Some(f) => f,
        None => {
            let mut m = String::new();
            push_str(&mut m, "resolved pliego-ssg ");
            push_str(&mut m, package.version.as_str());
            push_str(&mut m, " from Cargo metadata is absent from ");
            push_str(&mut m, lock_path);
            return Err(m);
        },
    };
    proof {
        reveal_strlit("git+");
        reveal_strlit("registry+");
        reveal_strlit("sparse+");
    }
    let revision: String = match &package.source {
        Some(source) => {
            let chars = chars_of(source.as_str());
            let git = chars_of("git+");
            let registry = chars_of("registry+");
            let sparse = chars_of("sparse+");
            if starts_with_chars(chars.as_slice(), git.as_slice()) {
                match commit_of(source.as_str()) {
                    Some(rev) => rev,
                    None => {
                        let mut m = String::new();
                        push_str(&mut m, "resolved pliego-ssg Git source does not contain a full commit: ");
                        push_str(&mut m, source.as_str());
                        return Err(m);
                    },
                }
            } else if starts_with_chars(chars.as_slice(), registry.as_slice()) || starts_with_chars(
                chars.as_slice(),
                sparse.as_slice(),
            ) {
                let valid = match &locked[k].checksum {
                    Some(c) => {
                        let cc = chars_of(c.as_str());
                        cc.len() == 64 && all_lower_hex(cc.as_slice())
                    },
                    None => false,
                };
                if !valid {
                    return Err("resolved registry pliego-ssg is missing a valid Cargo.lock checksum".to_owned());
                }
                let mut s = String::new();
                push_str(&mut s, "sha256:");
                match &locked[k].checksum {
                    Some(c) => push_str(&mut s, c.as_str()),
                    None => {},
                }
                s
            } else {
                let mut m = String::new();
                push_str(&mut m, "unsupported resolved source for pliego-ssg provenance: ");
                push_str(&mut m, source.as_str());
                return Err(m);
            }
        },
        None => match captured {
            None => "pending-local-package-content".to_owned(),
            Some(ms) => {
                let mut id = String::new();
                push_str(&mut id, "cargo-path/");
                push_str(&mut id, package.name.as_str());
                push_str(&mut id, "@");
                push_str(&mut id, package.version.as_str());
                match material_sha(ms, id.as_str()) {
                    Some(sha) => {
                        let mut s = String::new();
                        push_str(&mut s, "sha256:");
                        push_str(&mut s, sha.as_str());
                        s
                    },
                    None => {
                        let mut m = String::new();
                        push_str(&mut m, "resolved local pliego-ssg has no captured input material ");
                        push_str(&mut m, debug_quoted(id.as_str()).as_str());
                        return Err(m);
                    },
                }
            },
        },
    };
    Ok(FrameworkEvidence { version: package.version.clone(), source_revision: revision })
}

} // verus!
