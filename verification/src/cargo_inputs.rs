//! The inputs a verified build reads besides the project's sources: the Cargo
//! and Rust toolchain configuration of the project and of its ancestors, the
//! Cargo home configuration, and the local path packages the site reaches.
use vstd::prelude::*;
use crate::cli::{components_start_with, path_components, path_parts, parts_prefix, component_views};
use crate::invocation::{path_starts_with, InputMaterialSpec};
use crate::numtext::{decimal_of, decimal_string};
use crate::raster::string_views;
use crate::sorting::{sort_by_key, stable_sorted};
use crate::text::{push_str, str_eq};

verus! {

broadcast use vstd::string::group_string_axioms;

/// The configuration files one directory holds, from the project root up.
#[derive(Clone, Debug)]
pub struct AncestorConfiguration {
    /// The directory, as the build names it.
    pub root: String,
    /// Whether `.cargo/config.toml`, `.cargo/config`, `rust-toolchain.toml`
    /// and `rust-toolchain` exist there, in that order.
    pub present: [bool; 4],
    /// Whether `root/.cargo` is the Cargo home itself.
    pub beside_cargo_home: bool,
}

/// The configuration files Cargo and rustup read from a directory, by index.
pub open spec fn ancestor_file(i: int) -> Seq<char> {
    if i == 0 {
        ".cargo/config.toml"@
    } else if i == 1 {
        ".cargo/config"@
    } else if i == 2 {
        "rust-toolchain.toml"@
    } else {
        "rust-toolchain"@
    }
}

/// Whether a file of a directory counts: it exists, and is not the Cargo
/// home's own configuration seen from its parent.
pub open spec fn counted(a: AncestorConfiguration, i: int) -> bool {
    a.present@[i] && !(i < 2 && a.beside_cargo_home)
}

/// The files of a directory that count, from index `i` on.
pub open spec fn selected_from(a: AncestorConfiguration, i: nat) -> Seq<Seq<char>>
    decreases 4 - i,
{
    if i >= 4 {
        Seq::empty()
    } else {
        (if counted(a, i as int) {
            seq![ancestor_file(i as int)]
        } else {
            Seq::empty()
        }) + selected_from(a, i + 1)
    }
}

/// A material spec by the text of its fields.
pub open spec fn material_view(m: InputMaterialSpec) -> (
    Seq<char>,
    Seq<char>,
    Seq<char>,
    Seq<Seq<char>>,
    Seq<Seq<char>>,
) {
    (m.id@, m.kind@, m.root@, string_views(m.included_paths@), string_views(m.excluded_paths@))
}

pub open spec fn material_views(v: Seq<InputMaterialSpec>) -> Seq<
    (Seq<char>, Seq<char>, Seq<char>, Seq<Seq<char>>, Seq<Seq<char>>),
> {
    v.map_values(|m: InputMaterialSpec| material_view(m))
}

/// A decimal numeral padded with zeros to three digits.
pub open spec fn three_digits(s: Seq<char>) -> Seq<char> {
    if s.len() >= 3 {
        s
    } else if s.len() == 2 {
        "0"@ + s
    } else {
        "00"@ + s
    }
}

/// The id of the `n`th ancestor material.
pub open spec fn ancestor_id(n: nat) -> Seq<char> {
    "cargo-config/ancestor-"@ + three_digits(decimal_of(n))
}

/// The materials of the ancestors from index `i` on, numbered from `n`: one
/// per directory that holds a counted file.
pub open spec fn ancestor_plan(ancestors: Seq<AncestorConfiguration>, i: nat, n: nat) -> Seq<
    (Seq<char>, Seq<char>, Seq<char>, Seq<Seq<char>>, Seq<Seq<char>>),
>
    decreases ancestors.len() - i,
{
    if i >= ancestors.len() {
        Seq::empty()
    } else {
        let selected = selected_from(ancestors[i as int], 0);
        if selected.len() > 0 {
            seq![
                (ancestor_id(n), "cargo-ancestor-config"@, ancestors[i as int].root@, selected, Seq::empty()),
            ] + ancestor_plan(ancestors, i + 1, n + 1)
        } else {
            ancestor_plan(ancestors, i + 1, n)
        }
    }
}

/// The Cargo home's own configuration files that exist.
pub open spec fn home_files(present: Seq<bool>) -> Seq<Seq<char>> {
    (if present[0] {
        seq!["config.toml"@]
    } else {
        Seq::empty()
    }) + (if present[1] {
        seq!["config"@]
    } else {
        Seq::empty()
    })
}

/// The material of the Cargo home configuration, when it has any.
pub open spec fn home_plan(home: Seq<char>, present: Seq<bool>) -> Seq<
    (Seq<char>, Seq<char>, Seq<char>, Seq<Seq<char>>, Seq<Seq<char>>),
> {
    if home_files(present).len() > 0 {
        seq![("cargo-config/home"@, "cargo-home-config"@, home, home_files(present), Seq::empty())]
    } else {
        Seq::empty()
    }
}

fn selected_files(a: &AncestorConfiguration) -> (out: Vec<String>)
    ensures
        string_views(out@) == selected_from(*a, 0),
{
    let names: [&str; 4] = [".cargo/config.toml", ".cargo/config", "rust-toolchain.toml", "rust-toolchain"];
    let mut out: Vec<String> = Vec::new();
    let mut i: usize = 0;
    proof {
        assert(string_views(out@) =~= Seq::<Seq<char>>::empty());
    }
    while i < 4
        invariant
            i <= 4,
            forall|k: int| 0 <= k < 4 ==> (#[trigger] names@[k])@ == ancestor_file(k),
            string_views(out@) + selected_from(*a, i as nat) == selected_from(*a, 0),
        decreases 4 - i,
    {
        let ghost before = string_views(out@);
        proof {
            assert(selected_from(*a, i as nat) == (if counted(*a, i as int) {
                seq![ancestor_file(i as int)]
            } else {
                Seq::empty()
            }) + selected_from(*a, (i + 1) as nat));
        }
        if a.present[i] && !(i < 2 && a.beside_cargo_home) {
            out.push(names[i].to_owned());
            proof {
                assert(string_views(out@) =~= before.push(ancestor_file(i as int)));
                assert(before + (seq![ancestor_file(i as int)] + selected_from(*a, (i + 1) as nat)) =~= before.push(
                    ancestor_file(i as int),
                ) + selected_from(*a, (i + 1) as nat));
            }
        } else {
            proof {
                assert(Seq::<Seq<char>>::empty() + selected_from(*a, (i + 1) as nat) =~= selected_from(
                    *a,
                    (i + 1) as nat,
                ));
            }
        }
        i = i + 1;
    }
    proof {
        assert(string_views(out@) + Seq::<Seq<char>>::empty() =~= string_views(out@));
    }
    out
}

fn padded_id(n: usize) -> (s: String)
    ensures
        s@ == ancestor_id(n as nat),
{
    let digits = decimal_string(n as u64);
    let mut s = String::new();
    push_str(&mut s, "cargo-config/ancestor-");
    let count = crate::text::chars_of(digits.as_str()).len();
    if count == 1 {
        push_str(&mut s, "00");
    } else if count == 2 {
        push_str(&mut s, "0");
    }
    push_str(&mut s, digits.as_str());
    proof {
        reveal_strlit("cargo-config/ancestor-");
        reveal_strlit("00");
        reveal_strlit("0");
        assert(decimal_of(n as nat).len() >= 1) by {
            lemma_decimal_nonempty(n as nat);
        }
        assert(s@ =~= ancestor_id(n as nat));
    }
    s
}

proof fn lemma_decimal_nonempty(n: nat)
    ensures
        decimal_of(n).len() >= 1,
    decreases n,
{
    if n >= 10 {
        lemma_decimal_nonempty(n / 10);
    }
}

fn material(id: String, kind: &str, root: &str, included: Vec<String>) -> (m: InputMaterialSpec)
    ensures
        material_view(m) == (id@, kind@, root@, string_views(included@), Seq::<Seq<char>>::empty()),
{
    let m = InputMaterialSpec {
        id,
        kind: kind.to_owned(),
        root: root.to_owned(),
        included_paths: included,
        excluded_paths: Vec::new(),
    };
    proof {
        assert(string_views(m.excluded_paths@) =~= Seq::<Seq<char>>::empty());
    }
    m
}

/// The effective configuration a build reads: the files of the project
/// root itself (relative, to join the project configuration), and one
/// material per ancestor directory that holds configuration, numbered in
/// order, then the Cargo home's own configuration. `ancestors` runs from
/// the project root up.
pub fn configuration_materials(
    ancestors: &Vec<AncestorConfiguration>,
    cargo_home: &str,
    home_present: [bool; 2],
) -> (r: (Vec<String>, Vec<InputMaterialSpec>))
    ensures
        string_views(r.0@) == (if ancestors.len() > 0 {
            selected_from(ancestors@[0], 0)
        } else {
            Seq::empty()
        }),
        material_views(r.1@) == ancestor_plan(ancestors@, 1, 0) + home_plan(cargo_home@, home_present@),
{
    let mut project: Vec<String> = Vec::new();
    let mut materials: Vec<InputMaterialSpec> = Vec::new();
    if ancestors.len() == 0 {
        proof {
            assert(string_views(project@) =~= Seq::<Seq<char>>::empty());
        }
    } else {
        project = selected_files(&ancestors[0]);
    }
    let mut counter: usize = 0;
    let mut i: usize = 1;
    proof {
        assert(material_views(materials@) =~= Seq::empty());
        if ancestors.len() == 0 {
            assert(ancestor_plan(ancestors@, 1, 0) =~= Seq::empty());
        }
    }
    while i < ancestors.len()
        invariant
            1 <= i,
            counter < i,
            material_views(materials@) + ancestor_plan(ancestors@, i as nat, counter as nat) == ancestor_plan(
                ancestors@,
                1,
                0,
            ),
        decreases ancestors.len() - i,
    {
        let selected = selected_files(&ancestors[i]);
        let ghost before = material_views(materials@);
        if selected.len() > 0 {
            let m = material(padded_id(counter), "cargo-ancestor-config", ancestors[i].root.as_str(), selected);
            materials.push(m);
            proof {
                assert(material_views(materials@) =~= before.push(material_view(m)));
                assert(before + ancestor_plan(ancestors@, i as nat, counter as nat) =~= material_views(materials@)
                    + ancestor_plan(ancestors@, (i + 1) as nat, (counter + 1) as nat));
            }
            counter = counter + 1;
        }
        i = i + 1;
    }
    proof {
        assert(ancestor_plan(ancestors@, i as nat, counter as nat) =~= Seq::empty());
        assert(material_views(materials@) + Seq::<(Seq<char>, Seq<char>, Seq<char>, Seq<Seq<char>>, Seq<Seq<char>>)>::empty()
            =~= material_views(materials@));
    }
    let ghost ancestral = material_views(materials@);
    let mut files: Vec<String> = Vec::new();
    if home_present[0] {
        files.push("config.toml".to_owned());
    }
    if home_present[1] {
        files.push("config".to_owned());
    }
    proof {
        assert(string_views(files@) =~= home_files(home_present@));
    }
    if files.len() > 0 {
        let m = material("cargo-config/home".to_owned(), "cargo-home-config", cargo_home, files);
        materials.push(m);
        proof {
            assert(material_views(materials@) =~= ancestral + home_plan(cargo_home@, home_present@));
        }
    } else {
        proof {
            assert(material_views(materials@) =~= ancestral + home_plan(cargo_home@, home_present@));
        }
    }
    (project, materials)
}

/// Refuses a Cargo home that holds the project root or lies inside it.
pub fn check_cargo_home(project_root: &str, cargo_home: &str) -> (r: Result<(), String>)
    ensures
        r is Ok <==> !(path_starts_with(cargo_home@, project_root@) || path_starts_with(project_root@, cargo_home@)),
        r matches Err(m) ==> m@ == "Cargo home "@ + cargo_home@ + " cannot overlap project root "@ + project_root@,
{
    let home = path_components(cargo_home);
    let project = path_components(project_root);
    if components_start_with(&home, &project) || components_start_with(&project, &home) {
        let mut m = String::new();
        push_str(&mut m, "Cargo home ");
        push_str(&mut m, cargo_home);
        push_str(&mut m, " cannot overlap project root ");
        push_str(&mut m, project_root);
        return Err(m);
    }
    Ok(())
}

/// A local path package the site reaches, with its canonical root.
#[derive(Clone, Debug)]
pub struct PathPackage {
    pub name: String,
    pub version: String,
    pub root: String,
}

/// Whether a material's tree overlaps a root, either way.
pub open spec fn tree_overlaps(m: InputMaterialSpec, root: Seq<char>) -> bool {
    m.included_paths.len() == 0 && (path_starts_with(root, m.root@) || path_starts_with(m.root@, root))
}

/// What admitting a path package does: nothing for a package inside the
/// project other than the framework; a refusal when its root overlaps the
/// project root from outside or the tree of a material; else a tree material.
pub open spec fn package_admission(
    project_root: Seq<char>,
    materials: Seq<InputMaterialSpec>,
    p: PathPackage,
) -> Result<Option<(Seq<char>, Seq<char>, Seq<char>, Seq<Seq<char>>, Seq<Seq<char>>)>, Seq<char>> {
    let inside = path_starts_with(p.root@, project_root);
    if inside && p.name@ != "pliego-ssg"@ {
        Ok(None)
    } else if (!inside && path_starts_with(project_root, p.root@)) || exists|k: int|
        0 <= k < materials.len() && tree_overlaps(#[trigger] materials[k], p.root@) {
        Err("local package root "@ + p.root@ + " overlaps another build input root"@)
    } else {
        Ok(
            Some(
                (
                    "cargo-path/"@ + p.name@ + "@"@ + p.version@,
                    "cargo-path-package"@,
                    p.root@,
                    Seq::empty(),
                    Seq::empty(),
                ),
            ),
        )
    }
}

/// Admits one reached local path package as a build input.
pub fn admit_path_package(project_root: &str, materials: &mut Vec<InputMaterialSpec>, package: &PathPackage) -> (r:
    Result<(), String>)
    ensures
        match package_admission(project_root@, old(materials)@, *package) {
            Ok(None) => r is Ok && final(materials)@ == old(materials)@,
            Ok(Some(v)) => r is Ok && final(materials)@.len() == old(materials)@.len() + 1 && final(materials)@.drop_last()
                == old(materials)@ && material_view(final(materials)@.last()) == v,
            Err(m) => (r matches Err(e) && e@ == m) && final(materials)@ == old(materials)@,
        },
{
    let root = path_components(package.root.as_str());
    let project = path_components(project_root);
    let inside = components_start_with(&root, &project);
    if inside && !str_eq(package.name.as_str(), "pliego-ssg") {
        return Ok(());
    }
    let mut overlap = !inside && components_start_with(&project, &root);
    let mut k: usize = 0;
    while k < materials.len() && !overlap
        invariant
            k <= materials.len(),
            component_views(root@) == path_parts(package.root@),
            materials@ == old(materials)@,
            !overlap ==> !(!inside && path_starts_with(project_root@, package.root@)),
            !overlap ==> forall|j: int| 0 <= j < k ==> !tree_overlaps(#[trigger] materials@[j], package.root@),
            overlap ==> ((!inside && path_starts_with(project_root@, package.root@)) || exists|j: int|
                0 <= j < materials.len() && tree_overlaps(#[trigger] materials@[j], package.root@)),
        decreases materials.len() - k,
    {
        let m = &materials[k];
        if m.included_paths.len() == 0 {
            let other = path_components(m.root.as_str());
            if components_start_with(&root, &other) || components_start_with(&other, &root) {
                proof {
                    assert(tree_overlaps(materials@[k as int], package.root@));
                }
                overlap = true;
            }
        }
        k = k + 1;
    }
    if overlap {
        let mut e = String::new();
        push_str(&mut e, "local package root ");
        push_str(&mut e, package.root.as_str());
        push_str(&mut e, " overlaps another build input root");
        return Err(e);
    }
    let mut id = String::new();
    push_str(&mut id, "cargo-path/");
    push_str(&mut id, package.name.as_str());
    push_str(&mut id, "@");
    push_str(&mut id, package.version.as_str());
    let none: Vec<String> = Vec::new();
    proof {
        assert(string_views(none@) =~= Seq::<Seq<char>>::empty());
    }
    let m = material(id, "cargo-path-package", package.root.as_str(), none);
    materials.push(m);
    proof {
        assert(final(materials)@.drop_last() =~= old(materials)@);
    }
    Ok(())
}

/// `s` with each run of equal neighbours kept once (`Vec::dedup`).
pub open spec fn dedup_adjacent(s: Seq<Seq<char>>) -> Seq<Seq<char>>
    decreases s.len(),
{
    if s.len() <= 1 {
        s
    } else if s[s.len() - 2] == s.last() {
        dedup_adjacent(s.drop_last())
    } else {
        dedup_adjacent(s.drop_last()).push(s.last())
    }
}

proof fn lemma_dedup_last(s: Seq<Seq<char>>)
    requires
        s.len() >= 1,
    ensures
        dedup_adjacent(s).len() >= 1,
        dedup_adjacent(s).last() == s.last(),
    decreases s.len(),
{
    if s.len() > 1 {
        lemma_dedup_last(s.drop_last());
    }
}

/// The project configuration files, sorted with duplicates dropped, and the
/// materials, sorted by id (stably).
pub fn finish_selection(project_configuration: Vec<String>, materials: Vec<InputMaterialSpec>) -> (r: (
    Vec<String>,
    Vec<InputMaterialSpec>,
))
    ensures
        string_views(r.0@) == dedup_adjacent(string_views(stable_sorted(project_configuration@))),
        r.1@ == stable_sorted(materials@),
{
    let mut files = project_configuration;
    sort_by_key(&mut files);
    let mut materials = materials;
    sort_by_key(&mut materials);
    let ghost sorted = string_views(files@);
    let mut out: Vec<String> = Vec::new();
    let mut i: usize = 0;
    proof {
        assert(sorted.take(0) =~= Seq::<Seq<char>>::empty());
        assert(string_views(out@) =~= Seq::<Seq<char>>::empty());
    }
    while i < files.len()
        invariant
            i <= files.len(),
            sorted == string_views(files@),
            string_views(out@) == dedup_adjacent(sorted.take(i as int)),
        decreases files.len() - i,
    {
        let ghost before = string_views(out@);
        let ghost t = sorted.take((i + 1) as int);
        proof {
            assert(t.drop_last() =~= sorted.take(i as int));
            assert(t.last() == files@[i as int]@);
            if i > 0 {
                lemma_dedup_last(sorted.take(i as int));
                assert(t[t.len() - 2] == files@[i - 1]@);
                assert(out@.len() >= 1);
                assert(out@.last()@ == files@[i - 1]@);
            }
        }
        if i == 0 || !str_eq(out[out.len() - 1].as_str(), files[i].as_str()) {
            out.push(files[i].clone());
            proof {
                assert(string_views(out@) =~= before.push(files@[i as int]@));
            }
        }
        i = i + 1;
    }
    proof {
        assert(sorted.take(files.len() as int) =~= sorted);
    }
    (out, materials)
}

} // verus!
