//! The private record a build hands its tools: the receipt context, the
//! project root, the output path, and the roots of the input materials.
use vstd::prelude::*;
use crate::portable::{path_model, path_ok, split_on_slash, split_slash, ArtifactError, OutputNamespace, PortablePath};
use crate::portable::{insert_result, nfc, NamespaceModel};
use crate::receipt::{
    blank, either, empty_namespace, refused, token_fault, validate_material_token, BuildContext, InputMaterial,
    Refusal,
};
use crate::sorting::{sort_by_key, stable_sorted, SortKey};
use crate::text::{
    char_views, chars_of, debug_quoted, debug_text, first_some, lemma_first_some_at, lemma_first_some_none, push_str,
    seq_lt, str_eq, str_lt,
};
use crate::textmap::TextMap;
use crate::cli::{component_views, components_start_with, parts_prefix, path_components, path_parts, PathComponent};
use crate::numtext::trim;

verus! {

broadcast use vstd::string::group_string_axioms;

/// Where an input material is read from, and which of its files.
#[derive(Clone, Debug)]
pub struct InputMaterialSpec {
    pub id: String,
    pub kind: String,
    pub root: String,
    pub included_paths: Vec<String>,
    pub excluded_paths: Vec<String>,
}

/// What a build passes to the tools it runs.
#[derive(Clone, Debug)]
pub struct BuildInvocation {
    pub context: BuildContext,
    pub project_root: String,
    pub output_path: String,
    pub material_specs: Vec<InputMaterialSpec>,
}

impl SortKey for InputMaterialSpec {
    open spec fn sort_key(&self) -> Seq<char> {
        self.id@
    }

    fn key_str(&self) -> (k: &str) {
        self.id.as_str()
    }
}

/// How a material selects its files: a whole tree, or exact files.
pub open spec fn selection_of(spec: InputMaterialSpec) -> Seq<char> {
    if spec.included_paths.len() == 0 {
        "tree-v1"@
    } else {
        "exact-files-v1"@
    }
}

pub fn material_selection(spec: &InputMaterialSpec) -> (s: &'static str)
    ensures
        s@ == selection_of(*spec),
{
    if spec.included_paths.len() == 0 {
        "tree-v1"
    } else {
        "exact-files-v1"
    }
}

/// The check of the `k`-th path of a list before it is sorted.
pub open spec fn portable_entry_fault(paths: Seq<String>, k: int, label: Seq<char>) -> Option<Refusal> {
    let p = paths[k]@;
    if !path_ok(p) {
        Some(Refusal::Path(p))
    } else if path_model(p).value != p {
        Some(Refusal::Receipt(label + " is not canonical NFC: "@ + debug_text(p)))
    } else {
        None
    }
}

pub open spec fn has_adjacent_equal(s: Seq<String>) -> bool {
    exists|i: int| 0 < i < s.len() && s[i - 1]@ == (#[trigger] s[i])@
}

/// Everything `normalize_portable_paths` refuses, in its order.
pub open spec fn portable_paths_fault(paths: Seq<String>, label: Seq<char>) -> Option<Refusal> {
    either(
        first_some(Seq::new(paths.len(), |k: int| portable_entry_fault(paths, k, label))),
        if has_adjacent_equal(stable_sorted(paths)) {
            Some(Refusal::Receipt(label + "s must be unique"@))
        } else {
            None
        },
    )
}

fn canonical_entries(paths: &Vec<String>, label: &str) -> (r: Result<(), ArtifactError>)
    ensures
        refused(r, first_some(Seq::new(paths@.len(), |k: int| portable_entry_fault(paths@, k, label@)))),
{
    let ghost checks = Seq::new(paths@.len(), |k: int| portable_entry_fault(paths@, k, label@));
    let mut i: usize = 0;
    while i < paths.len()
        invariant
            checks == Seq::new(paths@.len(), |k: int| portable_entry_fault(paths@, k, label@)),
            i <= paths.len(),
            forall|k: int| 0 <= k < i ==> (#[trigger] checks[k]) is None,
        decreases paths.len() - i,
    {
        let portable = match PortablePath::parse(paths[i].as_str()) {
            Ok(p) => p,
            Err(e) => {
                proof {
                    lemma_first_some_at(checks, i as int);
                }
                return Err(e);
            },
        };
        if !str_eq(portable.as_str(), paths[i].as_str()) {
            let mut m = String::new();
            push_str(&mut m, label);
            push_str(&mut m, " is not canonical NFC: ");
            push_str(&mut m, debug_quoted(paths[i].as_str()).as_str());
            proof {
                assert(m@ =~= label@ + " is not canonical NFC: "@ + debug_text(paths@[i as int]@));
                lemma_first_some_at(checks, i as int);
            }
            return Err(ArtifactError::InvalidReceipt(m));
        }
        assert(checks[i as int] is None);
        i = i + 1;
    }
    proof {
        lemma_first_some_none(checks);
    }
    Ok(())
}

fn adjacent_equal(v: &Vec<String>) -> (b: bool)
    ensures
        b == has_adjacent_equal(v@),
{
    let mut i: usize = 1;
    while i < v.len()
        invariant
            1 <= i,
            forall|k: int| 0 < k < i && k < v.len() ==> v@[k - 1]@ != (#[trigger] v@[k])@,
        decreases v.len() - i,
    {
        if str_eq(v[i - 1].as_str(), v[i].as_str()) {
            return true;
        }
        i = i + 1;
    }
    false
}

/// Checks that every path is portable and canonical, sorts the list, and
/// refuses duplicates.
pub fn normalize_portable_paths(paths: &mut Vec<String>, label: &str) -> (r: Result<(), ArtifactError>)
    ensures
        refused(r, portable_paths_fault(old(paths)@, label@)),
        first_some(Seq::new(old(paths)@.len(), |k: int| portable_entry_fault(old(paths)@, k, label@))) is Some
            ==> final(paths)@ == old(paths)@,
        first_some(Seq::new(old(paths)@.len(), |k: int| portable_entry_fault(old(paths)@, k, label@))) is None
            ==> final(paths)@ == stable_sorted(old(paths)@),
{
    let r = canonical_entries(paths, label);
    if r.is_err() {
        return r;
    }
    sort_by_key(paths);
    if adjacent_equal(paths) {
        let mut m = String::new();
        push_str(&mut m, label);
        push_str(&mut m, "s must be unique");
        proof {
            assert(m@ =~= label@ + "s must be unique"@);
        }
        return Err(ArtifactError::InvalidReceipt(m));
    }
    Ok(())
}

/// What is refused of a material's id and kind.
pub open spec fn spec_tokens_fault(spec: InputMaterialSpec) -> Option<Refusal> {
    either(token_fault(spec.id@, "material id"@), token_fault(spec.kind@, "material kind"@))
}

/// Checks a material's id and kind, before its root is examined.
pub fn check_material_tokens(spec: &InputMaterialSpec) -> (r: Result<(), ArtifactError>)
    ensures
        refused(r, spec_tokens_fault(*spec)),
{
    let r = validate_material_token(spec.id.as_str(), "material id");
    if r.is_err() {
        return r;
    }
    validate_material_token(spec.kind.as_str(), "material kind")
}

/// The namespace after the first `k` included paths.
pub open spec fn included_namespace(paths: Seq<String>, k: int) -> NamespaceModel
    decreases k,
{
    if k <= 0 {
        empty_namespace()
    } else {
        insert_result(included_namespace(paths, k - 1), path_model(paths[k - 1]@), "included material path"@).0
    }
}

pub open spec fn included_fault(paths: Seq<String>, k: int) -> Option<Refusal> {
    let p = paths[k]@;
    let o = insert_result(included_namespace(paths, k), path_model(p), "included material path"@).1;
    if !path_ok(p) {
        Some(Refusal::Path(p))
    } else if !(o is Inserted) {
        Some(Refusal::Namespace(o, nfc(p)))
    } else {
        None
    }
}

/// An excluded path that parses, and whose collision key an earlier one has.
pub open spec fn excluded_alias_fault(paths: Seq<String>, k: int) -> Option<Refusal> {
    let p = paths[k]@;
    if !path_ok(p) {
        Some(Refusal::Path(p))
    } else if exists|j: int| 0 <= j < k && path_model(#[trigger] paths[j]@).key == path_model(p).key {
        Some(Refusal::Receipt("excluded material paths contain a portable alias"@))
    } else {
        None
    }
}

/// Everything `normalize_material_paths` refuses of a material whose id and
/// root were accepted, in its order.
pub open spec fn material_paths_fault(spec: InputMaterialSpec) -> Option<Refusal> {
    selection_fault(spec.id@, spec.included_paths@, spec.excluded_paths@)
}

/// What is refused of a material's selection: its included and excluded
/// paths, under its id.
pub open spec fn selection_fault(id: Seq<char>, included: Seq<String>, excluded: Seq<String>) -> Option<Refusal> {
    let inc = stable_sorted(included);
    let exc = stable_sorted(excluded);
    either(
        portable_paths_fault(included, "included material path"@),
        either(
            portable_paths_fault(excluded, "excluded material path"@),
            either(
                first_some(Seq::new(inc.len(), |k: int| included_fault(inc, k))),
                either(
                    first_some(Seq::new(exc.len(), |k: int| excluded_alias_fault(exc, k))),
                    if inc.len() > 0 && exc.len() > 0 {
                        Some(
                            Refusal::Receipt(
                                "material "@ + debug_text(id)
                                    + " cannot combine an exact file selection with exclusions"@,
                            ),
                        )
                    } else {
                        None
                    },
                ),
            ),
        ),
    )
}

fn check_included(paths: &Vec<String>) -> (r: Result<(), ArtifactError>)
    ensures
        refused(r, first_some(Seq::new(paths@.len(), |k: int| included_fault(paths@, k)))),
{
    let ghost checks = Seq::new(paths@.len(), |k: int| included_fault(paths@, k));
    let mut namespace = OutputNamespace::new();
    proof {
        assert(namespace@ =~= empty_namespace());
    }
    let mut i: usize = 0;
    while i < paths.len()
        invariant
            checks == Seq::new(paths@.len(), |k: int| included_fault(paths@, k)),
            i <= paths.len(),
            namespace.wf(),
            namespace@ == included_namespace(paths@, i as int),
            forall|k: int| 0 <= k < i ==> (#[trigger] checks[k]) is None,
        decreases paths.len() - i,
    {
        match namespace.insert_str(paths[i].as_str(), "included material path") {
            Ok(_) => {},
            Err(e) => {
                proof {
                    lemma_first_some_at(checks, i as int);
                }
                return Err(e);
            },
        }
        assert(checks[i as int] is None);
        i = i + 1;
    }
    proof {
        lemma_first_some_none(checks);
    }
    Ok(())
}

fn check_excluded_aliases(paths: &Vec<String>) -> (r: Result<(), ArtifactError>)
    ensures
        refused(r, first_some(Seq::new(paths@.len(), |k: int| excluded_alias_fault(paths@, k)))),
{
    let ghost checks = Seq::new(paths@.len(), |k: int| excluded_alias_fault(paths@, k));
    let mut keys: TextMap<()> = TextMap::new();
    let mut i: usize = 0;
    while i < paths.len()
        invariant
            checks == Seq::new(paths@.len(), |k: int| excluded_alias_fault(paths@, k)),
            i <= paths.len(),
            keys.wf(),
            forall|key: Seq<char>|
                #![trigger keys@.contains_key(key)]
                keys@.contains_key(key) <==> exists|j: int| 0 <= j < i && path_model(#[trigger] paths@[j]@).key == key,
            forall|k: int| 0 <= k < i ==> (#[trigger] checks[k]) is None,
        decreases paths.len() - i,
    {
        let portable = match PortablePath::parse(paths[i].as_str()) {
            Ok(p) => p,
            Err(e) => {
                proof {
                    lemma_first_some_at(checks, i as int);
                }
                return Err(e);
            },
        };
        let key = chars_of(portable.collision_key());
        if keys.contains(key.as_slice()) {
            proof {
                lemma_first_some_at(checks, i as int);
            }
            return Err(ArtifactError::InvalidReceipt("excluded material paths contain a portable alias".to_owned()));
        }
        assert(checks[i as int] is None);
        keys.insert_new(key, ());
        proof {
            assert forall|k2: Seq<char>| #![trigger keys@.contains_key(k2)]
                keys@.contains_key(k2) <==> exists|j: int|
                    0 <= j < i + 1 && path_model(#[trigger] paths@[j]@).key == k2 by {
                if keys@.contains_key(k2) && k2 == path_model(paths@[i as int]@).key {
                    assert(path_model(paths@[i as int]@).key == k2);
                }
                if exists|j: int| 0 <= j < i + 1 && path_model(#[trigger] paths@[j]@).key == k2 {
                    let j = choose|j: int| 0 <= j < i + 1 && path_model(#[trigger] paths@[j]@).key == k2;
                    if j < i {
                        assert(exists|j: int| 0 <= j < i && path_model(#[trigger] paths@[j]@).key == k2);
                    }
                }
            }
        }
        i = i + 1;
    }
    proof {
        lemma_first_some_none(checks);
    }
    Ok(())
}

/// Normalizes the path lists of a material whose id, kind and root were
/// accepted: both lists portable, canonical, sorted and unique, the included
/// paths free of aliases, the excluded paths free of portable aliases, and
/// never both lists at once.
pub fn normalize_material_paths(spec: &mut InputMaterialSpec) -> (r: Result<(), ArtifactError>)
    ensures
        refused(r, material_paths_fault(*old(spec))),
        r is Ok ==> final(spec).id == old(spec).id && final(spec).kind == old(spec).kind && final(spec).root == old(
            spec,
        ).root && final(spec).included_paths@ == stable_sorted(old(spec).included_paths@)
            && final(spec).excluded_paths@ == stable_sorted(old(spec).excluded_paths@),
{
    let r = normalize_portable_paths(&mut spec.included_paths, "included material path");
    if r.is_err() {
        return r;
    }
    let r = normalize_portable_paths(&mut spec.excluded_paths, "excluded material path");
    if r.is_err() {
        return r;
    }
    let r = check_included(&spec.included_paths);
    if r.is_err() {
        return r;
    }
    let r = check_excluded_aliases(&spec.excluded_paths);
    if r.is_err() {
        return r;
    }
    if spec.included_paths.len() > 0 && spec.excluded_paths.len() > 0 {
        let mut m = String::new();
        push_str(&mut m, "material ");
        push_str(&mut m, debug_quoted(spec.id.as_str()).as_str());
        push_str(&mut m, " cannot combine an exact file selection with exclusions");
        proof {
            assert(m@ =~= "material "@ + debug_text(spec.id@) + " cannot combine an exact file selection with exclusions"@);
        }
        return Err(ArtifactError::InvalidReceipt(m));
    }
    Ok(())
}

pub open spec fn has_adjacent_equal_id(s: Seq<InputMaterialSpec>) -> bool {
    exists|i: int| 0 < i < s.len() && s[i - 1].id@ == (#[trigger] s[i]).id@
}

/// Sorts materials by id and refuses a repeated id.
pub fn sort_material_specs(specs: &mut Vec<InputMaterialSpec>) -> (r: Result<(), ArtifactError>)
    ensures
        final(specs)@ == stable_sorted(old(specs)@),
        r is Ok <==> !has_adjacent_equal_id(stable_sorted(old(specs)@)),
        r matches Err(e) ==> e matches ArtifactError::InvalidReceipt(m) && m@ == "material ids must be unique"@,
{
    sort_by_key(specs);
    let mut i: usize = 1;
    while i < specs.len()
        invariant
            1 <= i,
            specs@ == stable_sorted(old(specs)@),
            forall|k: int| 0 < k < i && k < specs.len() ==> specs@[k - 1].id@ != (#[trigger] specs@[k]).id@,
        decreases specs.len() - i,
    {
        if str_eq(specs[i - 1].id.as_str(), specs[i].id.as_str()) {
            assert(specs@[i - 1].id@ == specs@[i as int].id@);
            return Err(ArtifactError::InvalidReceipt("material ids must be unique".to_owned()));
        }
        i = i + 1;
    }
    Ok(())
}

/// `Path::starts_with`: the components of `base` begin those of `path`.
pub open spec fn path_starts_with(path: Seq<char>, base: Seq<char>) -> bool {
    parts_prefix(path_parts(base), path_parts(path))
}

/// The roots of the materials that select a whole tree, in order.
pub open spec fn tree_roots(specs: Seq<InputMaterialSpec>) -> Seq<Seq<char>>
    decreases specs.len(),
{
    if specs.len() == 0 {
        Seq::empty()
    } else if specs.last().included_paths.len() == 0 {
        tree_roots(specs.drop_last()).push(specs.last().root@)
    } else {
        tree_roots(specs.drop_last())
    }
}

/// The `i`-th tree root lies within, or contains, the project root or a
/// later tree root.
pub open spec fn root_overlaps(roots: Seq<Seq<char>>, project: Seq<char>, i: int) -> bool {
    let r = roots[i];
    ||| path_starts_with(r, project)
    ||| path_starts_with(project, r)
    ||| exists|j: int|
        i < j < roots.len() && (path_starts_with(r, #[trigger] roots[j]) || path_starts_with(roots[j], r))
}

/// A material spec that names another id, kind or selection than its
/// evidence.
pub open spec fn material_mismatch(spec: InputMaterialSpec, evidence: InputMaterial) -> bool {
    spec.id@ != evidence.id@ || spec.kind@ != evidence.kind@ || evidence.selection@ != selection_of(spec)
}

pub open spec fn mismatch_fault(specs: Seq<InputMaterialSpec>, evidence: Seq<InputMaterial>, k: int) -> Option<
    Refusal,
> {
    if material_mismatch(specs[k], evidence[k]) {
        Some(Refusal::Receipt("build invocation material spec "@ + debug_text(specs[k].id@) + " does not match its evidence"@))
    } else {
        None
    }
}

/// Everything `validate_invocation` refuses, in its order, of an invocation
/// whose project root is an absolute canonical directory.
pub open spec fn invocation_fault(inv: BuildInvocation) -> Option<Refusal> {
    let out = inv.output_path@;
    let specs = inv.material_specs@;
    let evidence = inv.context.materials@;
    let roots = tree_roots(specs);
    if !path_ok(out) {
        Some(Refusal::Path(out))
    } else if path_model(out).value != out {
        Some(Refusal::Receipt("build invocation output path is not canonical NFC"@))
    } else if !(exists|i: int|
        0 <= i < inv.context.excluded_paths.len() && (#[trigger] inv.context.excluded_paths@[i])@ == out) {
        Some(Refusal::Receipt("build invocation output path is not excluded from its input context"@))
    } else if specs.len() != evidence.len() {
        Some(Refusal::Receipt("build invocation material roots do not match its receipt context"@))
    } else if first_some(Seq::new(specs.len(), |k: int| mismatch_fault(specs, evidence, k))) is Some {
        first_some(Seq::new(specs.len(), |k: int| mismatch_fault(specs, evidence, k)))
    } else if exists|i: int| 0 <= i < roots.len() && #[trigger] root_overlaps(roots, inv.project_root@, i) {
        Some(Refusal::Receipt("recursive material roots cannot overlap each other or the project root"@))
    } else {
        None
    }
}

fn tree_root_components(specs: &Vec<InputMaterialSpec>) -> (out: Vec<Vec<PathComponent>>)
    ensures
        out.len() == tree_roots(specs@).len(),
        forall|k: int| 0 <= k < out.len() ==> component_views(#[trigger] out@[k]@) == path_parts(tree_roots(specs@)[k]),
{
    let mut out: Vec<Vec<PathComponent>> = Vec::new();
    let mut i: usize = 0;
    while i < specs.len()
        invariant
            i <= specs.len(),
            out.len() == tree_roots(specs@.take(i as int)).len(),
            forall|k: int|
                0 <= k < out.len() ==> component_views(#[trigger] out@[k]@) == path_parts(
                    tree_roots(specs@.take(i as int))[k],
                ),
        decreases specs.len() - i,
    {
        proof {
            assert(specs@.take(i + 1).drop_last() =~= specs@.take(i as int));
            assert(specs@.take(i + 1).last() == specs@[i as int]);
        }
        if specs[i].included_paths.len() == 0 {
            out.push(path_components(specs[i].root.as_str()));
        }
        i = i + 1;
    }
    proof {
        assert(specs@.take(specs.len() as int) =~= specs@);
    }
    out
}

fn any_root_overlaps(roots: &Vec<Vec<PathComponent>>, project: &Vec<PathComponent>, Ghost(rv): Ghost<Seq<Seq<char>>>, Ghost(pr): Ghost<Seq<char>>) -> (b: bool)
    requires
        roots.len() == rv.len(),
        forall|k: int| 0 <= k < roots.len() ==> component_views(#[trigger] roots@[k]@) == path_parts(rv[k]),
        component_views(project@) == path_parts(pr),
    ensures
        b == exists|i: int| 0 <= i < rv.len() && #[trigger] root_overlaps(rv, pr, i),
{
    let mut i: usize = 0;
    while i < roots.len()
        invariant
            roots.len() == rv.len(),
            forall|k: int| 0 <= k < roots.len() ==> component_views(#[trigger] roots@[k]@) == path_parts(rv[k]),
            component_views(project@) == path_parts(pr),
            i <= roots.len(),
            forall|k: int| 0 <= k < i ==> !#[trigger] root_overlaps(rv, pr, k),
        decreases roots.len() - i,
    {
        let r = &roots[i];
        assert(component_views(r@) == path_parts(rv[i as int]));
        if components_start_with(r, project) || components_start_with(project, r) {
            assert(root_overlaps(rv, pr, i as int));
            return true;
        }
        let mut j: usize = i + 1;
        while j < roots.len()
            invariant
                roots.len() == rv.len(),
                forall|k: int| 0 <= k < roots.len() ==> component_views(#[trigger] roots@[k]@) == path_parts(rv[k]),
                i < roots.len(),
                i < j <= roots.len(),
                component_views(roots@[i as int]@) == path_parts(rv[i as int]),
                forall|k: int|
                    i < k < j ==> !(path_starts_with(rv[i as int], #[trigger] rv[k]) || path_starts_with(
                        rv[k],
                        rv[i as int],
                    )),
            decreases roots.len() - j,
        {
            assert(component_views(roots@[j as int]@) == path_parts(rv[j as int]));
            if components_start_with(&roots[i], &roots[j]) || components_start_with(&roots[j], &roots[i]) {
                assert(root_overlaps(rv, pr, i as int));
                return true;
            }
            j = j + 1;
        }
        assert(!root_overlaps(rv, pr, i as int));
        i = i + 1;
    }
    false
}

/// Checks an invocation whose project root the caller found to be an
/// absolute canonical directory: a canonical portable output path that the
/// context excludes, one spec per material of the context with the same id,
/// kind and selection, and whole-tree material roots that overlap neither
/// each other nor the project root.
pub fn validate_invocation(invocation: &BuildInvocation) -> (r: Result<(), ArtifactError>)
    ensures
        refused(r, invocation_fault(*invocation)),
{
    let output = match PortablePath::parse(invocation.output_path.as_str()) {
        Ok(p) => p,
        Err(e) => {
            return Err(e);
        },
    };
    if !str_eq(output.as_str(), invocation.output_path.as_str()) {
        return Err(ArtifactError::InvalidReceipt("build invocation output path is not canonical NFC".to_owned()));
    }
    let excluded = &invocation.context.excluded_paths;
    let mut found = false;
    let mut i: usize = 0;
    while i < excluded.len()
        invariant
            i <= excluded.len(),
            found == exists|k: int| 0 <= k < i && (#[trigger] excluded@[k])@ == invocation.output_path@,
        decreases excluded.len() - i,
    {
        if str_eq(excluded[i].as_str(), invocation.output_path.as_str()) {
            found = true;
        }
        i = i + 1;
    }
    if !found {
        return Err(
            ArtifactError::InvalidReceipt("build invocation output path is not excluded from its input context".to_owned()),
        );
    }
    let specs = &invocation.material_specs;
    let evidence = &invocation.context.materials;
    if specs.len() != evidence.len() {
        return Err(
            ArtifactError::InvalidReceipt("build invocation material roots do not match its receipt context".to_owned()),
        );
    }
    let ghost checks = Seq::new(specs@.len(), |k: int| mismatch_fault(specs@, evidence@, k));
    let mut k: usize = 0;
    while k < specs.len()
        invariant
            specs.len() == evidence.len(),
            specs == invocation.material_specs,
            evidence == invocation.context.materials,
            path_ok(invocation.output_path@),
            path_model(invocation.output_path@).value == invocation.output_path@,
            exists|i: int|
                0 <= i < invocation.context.excluded_paths.len() && (
                #[trigger] invocation.context.excluded_paths@[i])@ == invocation.output_path@,
            checks == Seq::new(specs@.len(), |k: int| mismatch_fault(specs@, evidence@, k)),
            k <= specs.len(),
            forall|j: int| 0 <= j < k ==> (#[trigger] checks[j]) is None,
        decreases specs.len() - k,
    {
        let spec = &specs[k];
        let material = &evidence[k];
        if !str_eq(spec.id.as_str(), material.id.as_str()) || !str_eq(spec.kind.as_str(), material.kind.as_str())
            || !str_eq(material.selection.as_str(), material_selection(spec)) {
            let mut m = String::new();
            push_str(&mut m, "build invocation material spec ");
            push_str(&mut m, debug_quoted(spec.id.as_str()).as_str());
            push_str(&mut m, " does not match its evidence");
            proof {
                assert(m@ =~= "build invocation material spec "@ + debug_text(spec.id@) + " does not match its evidence"@);
                lemma_first_some_at(checks, k as int);
            }
            return Err(ArtifactError::InvalidReceipt(m));
        }
        assert(checks[k as int] is None);
        k = k + 1;
    }
    proof {
        lemma_first_some_none(checks);
    }
    let roots = tree_root_components(specs);
    let project = path_components(invocation.project_root.as_str());
    if any_root_overlaps(&roots, &project, Ghost(tree_roots(specs@)), Ghost(invocation.project_root@)) {
        return Err(
            ArtifactError::InvalidReceipt(
                "recursive material roots cannot overlap each other or the project root".to_owned(),
            ),
        );
    }
    Ok(())
}

} // verus!

verus! {

/// The fields of a material spec made from the given values.
pub open spec fn spec_fields(s: InputMaterialSpec, id: Seq<char>, kind: Seq<char>, root: Seq<char>) -> bool {
    s.id@ == id && s.kind@ == kind && s.root@ == root
}

impl InputMaterialSpec {
    /// A material that selects a whole tree below `root` (the canonical
    /// absolute root the caller resolved), less `excluded_paths`; its id,
    /// kind and paths checked, the paths sorted.
    pub fn tree(id: String, kind: String, root: String, excluded_paths: Vec<String>) -> (r: Result<
        InputMaterialSpec,
        ArtifactError,
    >)
        ensures
            refused(
                r,
                either(
                    either(token_fault(id@, "material id"@), token_fault(kind@, "material kind"@)),
                    selection_fault(id@, Seq::empty(), excluded_paths@),
                ),
            ),
            r matches Ok(s) ==> spec_fields(s, id@, kind@, root@) && s.included_paths@.len() == 0
                && s.excluded_paths@ == stable_sorted(excluded_paths@),
    {
        InputMaterialSpec::checked(InputMaterialSpec {
            id,
            kind,
            root,
            included_paths: Vec::new(),
            excluded_paths,
        })
    }

    /// A material that selects exactly `included_paths` below `root` (the
    /// canonical absolute root the caller resolved); its id, kind and paths
    /// checked, the paths sorted.
    pub fn files(id: String, kind: String, root: String, included_paths: Vec<String>) -> (r: Result<
        InputMaterialSpec,
        ArtifactError,
    >)
        ensures
            refused(
                r,
                either(
                    either(token_fault(id@, "material id"@), token_fault(kind@, "material kind"@)),
                    selection_fault(id@, included_paths@, Seq::empty()),
                ),
            ),
            r matches Ok(s) ==> spec_fields(s, id@, kind@, root@) && s.included_paths@ == stable_sorted(
                included_paths@,
            ) && s.excluded_paths@.len() == 0,
    {
        InputMaterialSpec::checked(InputMaterialSpec {
            id,
            kind,
            root,
            included_paths,
            excluded_paths: Vec::new(),
        })
    }

    fn checked(spec: InputMaterialSpec) -> (r: Result<InputMaterialSpec, ArtifactError>)
        ensures
            refused(r, either(spec_tokens_fault(spec), material_paths_fault(spec))),
            r matches Ok(s) ==> s.id == spec.id && s.kind == spec.kind && s.root == spec.root && s.included_paths@
                == stable_sorted(spec.included_paths@) && s.excluded_paths@ == stable_sorted(spec.excluded_paths@),
    {
        let r = check_material_tokens(&spec);
        if r.is_err() {
            return Err(match r {
                Err(e) => e,
                Ok(()) => ArtifactError::InvalidReceipt(String::new()),
            });
        }
        let mut s = spec;
        match normalize_material_paths(&mut s) {
            Ok(()) => Ok(s),
            Err(e) => Err(e),
        }
    }
}

} // verus!
