//! The layout of an output tree as found on disk, checked against the
//! namespace rules and against the receipt that declares it.
use vstd::prelude::*;
use crate::portable::{
    insert_result, nfc, path_model, path_ok, split_on_slash, split_slash, join_slash, ArtifactError, NamespaceModel,
    OutputNamespace, PortablePath, MAX_NAMESPACE_COMPONENTS, MAX_NAMESPACE_PREFIX_BYTES,
};
use crate::receipt::{empty_namespace, refused, BuildReport, OutputFile, Refusal};
use crate::rebuild::{in_list, lists};
use crate::text::{
    chars_of, first_some, lemma_first_some_at, lemma_first_some_none, push_str, str_eq, utf8_len, utf8_len_of,
    char_views,
};
use crate::textmap::TextMap;

verus! {

broadcast use vstd::string::group_string_axioms;

/// The namespace after the first `k` files found on disk.
pub open spec fn disk_namespace(files: Seq<String>, k: int) -> NamespaceModel
    decreases k,
{
    if k <= 0 {
        empty_namespace()
    } else {
        insert_result(disk_namespace(files, k - 1), path_model(files[k - 1]@), "disk output"@).0
    }
}

pub open spec fn disk_file_fault(files: Seq<String>, k: int) -> Option<Refusal> {
    let p = files[k]@;
    let o = insert_result(disk_namespace(files, k), path_model(p), "disk output"@).1;
    if !path_ok(p) {
        Some(Refusal::Path(p))
    } else if !(o is Inserted) {
        Some(Refusal::Namespace(o, nfc(p)))
    } else {
        None
    }
}

/// An earlier directory with the same collision key as the `k`-th.
pub open spec fn earlier_alias(dirs: Seq<String>, k: int) -> bool {
    exists|j: int| 0 <= j < k && path_model(#[trigger] dirs[j]@).key == path_model(dirs[k]@).key
}

/// The check of the `k`-th directory found on disk, against the namespace of
/// all files `ns`.
pub open spec fn disk_directory_fault(dirs: Seq<String>, k: int, ns: NamespaceModel) -> Option<Refusal> {
    let d = dirs[k]@;
    let m = path_model(d);
    if !path_ok(d) {
        Some(Refusal::Path(d))
    } else if earlier_alias(dirs, k) {
        let j = choose|j: int| 0 <= j < k && path_model(#[trigger] dirs[j]@).key == m.key;
        Some(Refusal::Collision(m.value, path_model(dirs[j]@).value, "two directories resolve to the same portable path"@))
    } else if ns.files.contains_key(m.key) {
        Some(Refusal::Collision(m.value, ns.files[m.key].0, "a path is both a file and a directory"@))
    } else if ns.directories.contains_key(m.key) && ns.directories[m.key] != m.value {
        Some(
            Refusal::Collision(
                m.value,
                ns.directories[m.key],
                "an explicit directory aliases a directory implied by a file"@,
            ),
        )
    } else {
        None
    }
}

/// Everything `validate_output_layout_namespace` refuses, in its order.
pub open spec fn layout_namespace_fault(files: Seq<String>, dirs: Seq<String>) -> Option<Refusal> {
    let file_fault = first_some(Seq::new(files.len(), |k: int| disk_file_fault(files, k)));
    if file_fault is Some {
        file_fault
    } else {
        let ns = disk_namespace(files, files.len() as int);
        first_some(Seq::new(dirs.len(), |k: int| disk_directory_fault(dirs, k, ns)))
    }
}

/// Checks a layout found on disk: its files form an output namespace, and its
/// directories neither alias each other nor a file, nor spell a directory
/// that the files imply in another way.
pub fn validate_output_layout_namespace(files: &Vec<String>, directories: &Vec<String>) -> (r: Result<
    (),
    ArtifactError,
>)
    ensures
        refused(r, layout_namespace_fault(files@, directories@)),
{
    let ghost checks = Seq::new(files@.len(), |k: int| disk_file_fault(files@, k));
    let mut namespace = OutputNamespace::new();
    proof {
        assert(namespace@ =~= empty_namespace());
    }
    let mut i: usize = 0;
    while i < files.len()
        invariant
            checks == Seq::new(files@.len(), |k: int| disk_file_fault(files@, k)),
            i <= files.len(),
            namespace.wf(),
            namespace@ == disk_namespace(files@, i as int),
            forall|k: int| 0 <= k < i ==> (#[trigger] checks[k]) is None,
        decreases files.len() - i,
    {
        match namespace.insert_str(files[i].as_str(), "disk output") {
            Ok(_) => {},
            Err(e) => {
                proof {
                    lemma_first_some_at(checks, i as int);
                }
                return Err(e);
            },
        }
        assert(checks[i as int] is None);
        i = i + 1;
    }
    proof {
        lemma_first_some_none(checks);
    }
    let ghost ns = namespace@;
    let ghost dchecks = Seq::new(directories@.len(), |k: int| disk_directory_fault(directories@, k, ns));
    let mut keys: TextMap<String> = TextMap::new();
    let mut k: usize = 0;
    while k < directories.len()
        invariant
            dchecks == Seq::new(directories@.len(), |k: int| disk_directory_fault(directories@, k, ns)),
            ns == namespace@,
            namespace.wf(),
            first_some(Seq::new(files@.len(), |k: int| disk_file_fault(files@, k))) is None,
            ns == disk_namespace(files@, files@.len() as int),
            k <= directories.len(),
            keys.wf(),
            forall|key: Seq<char>|
                #![trigger keys@.contains_key(key)]
                keys@.contains_key(key) <==> exists|j: int|
                    0 <= j < k && path_model(#[trigger] directories@[j]@).key == key,
            forall|j: int|
                0 <= j < k ==> path_ok((#[trigger] directories@[j])@) && keys@.contains_key(
                    path_model(directories@[j]@).key,
                ),
            forall|j: int, m: int|
                0 <= j < m < k ==> path_model((#[trigger] directories@[j])@).key != path_model(
                    (#[trigger] directories@[m])@,
                ).key,
            forall|key: Seq<char>|
                #![trigger keys@.contains_key(key)]
                keys@.contains_key(key) ==> exists|j: int|
                    0 <= j < k && path_model(#[trigger] directories@[j]@).key == key && keys@[key]@ == path_model(
                        directories@[j]@,
                    ).value,
            forall|j: int| 0 <= j < k ==> (#[trigger] dchecks[j]) is None,
        decreases directories.len() - k,
    {
        let portable = match PortablePath::parse(directories[k].as_str()) {
            Ok(p) => p,
            Err(e) => {
                proof {
                    lemma_first_some_at(dchecks, k as int);
                }
                return Err(e);
            },
        };
        let key = chars_of(portable.collision_key());
        match keys.get(key.as_slice()) {
            Some(existing) => {
                let existing = existing.clone();
                proof {
                    let j = choose|j: int|
                        0 <= j < k && path_model(#[trigger] directories@[j]@).key == key@ && keys@[key@]@
                            == path_model(directories@[j]@).value;
                    assert(earlier_alias(directories@, k as int));
                    let c = choose|c: int|
                        0 <= c < k && path_model(#[trigger] directories@[c]@).key == path_model(
                            directories@[k as int]@,
                        ).key;
                    if c != j {
                        if c < j {
                            assert(path_model(directories@[c]@).key != path_model(directories@[j]@).key);
                        } else {
                            assert(path_model(directories@[j]@).key != path_model(directories@[c]@).key);
                        }
                    }
                    lemma_first_some_at(dchecks, k as int);
                }
                return Err(
                    ArtifactError::NamespaceCollision {
                        path: portable.as_str().to_owned(),
                        existing,
                        detail: "two directories resolve to the same portable path",
                    },
                );
            },
            None => {},
        }
        assert(!earlier_alias(directories@, k as int));
        match namespace.file_spelling(portable.collision_key()) {
            Some(existing) => {
                proof {
                    lemma_first_some_at(dchecks, k as int);
                }
                return Err(
                    ArtifactError::NamespaceCollision {
                        path: portable.as_str().to_owned(),
                        existing,
                        detail: "a path is both a file and a directory",
                    },
                );
            },
            None => {},
        }
        match namespace.directory_spelling(portable.collision_key()) {
            Some(existing) => {
                if !str_eq(existing.as_str(), portable.as_str()) {
                    proof {
                        lemma_first_some_at(dchecks, k as int);
                    }
                    return Err(
                        ArtifactError::NamespaceCollision {
                            path: portable.as_str().to_owned(),
                            existing,
                            detail: "an explicit directory aliases a directory implied by a file",
                        },
                    );
                }
            },
            None => {},
        }
        assert(dchecks[k as int] is None);
        let spelling = portable.as_str().to_owned();
        let ghost kb = keys@;
        assert forall|key2: Seq<char>| #![trigger kb.contains_key(key2)]
            kb.contains_key(key2) implies exists|j: int|
                0 <= j < k && path_model(#[trigger] directories@[j]@).key == key2 && kb[key2]@ == path_model(
                    directories@[j]@,
                ).value by {
            assert(keys@.contains_key(key2));
        }
        keys.insert_new(key, spelling);
        proof {
            assert forall|key2: Seq<char>|
                #![trigger keys@.contains_key(key2)]
                keys@.contains_key(key2) <==> exists|j: int|
                    0 <= j < k + 1 && path_model(#[trigger] directories@[j]@).key == key2 by {
                if keys@.contains_key(key2) && key2 == path_model(directories@[k as int]@).key {
                    assert(path_model(directories@[k as int]@).key == key2);
                }
                if exists|j: int| 0 <= j < k + 1 && path_model(#[trigger] directories@[j]@).key == key2 {
                    let j = choose|j: int| 0 <= j < k + 1 && path_model(#[trigger] directories@[j]@).key == key2;
                    if j < k {
                        assert(exists|j: int| 0 <= j < k && path_model(#[trigger] directories@[j]@).key == key2);
                    }
                }
            }
            assert forall|key2: Seq<char>|
                #![trigger keys@.contains_key(key2)]
                keys@.contains_key(key2) implies exists|j: int|
                    0 <= j < k + 1 && path_model(#[trigger] directories@[j]@).key == key2 && keys@[key2]@
                        == path_model(directories@[j]@).value by {
                if key2 == path_model(directories@[k as int]@).key {
                    assert(path_model(directories@[k as int]@).key == key2);
                } else {
                    assert(kb.contains_key(key2));
                    let j = choose|j: int|
                        0 <= j < k && path_model(#[trigger] directories@[j]@).key == key2 && kb[key2]@ == path_model(
                            directories@[j]@,
                        ).value;
                    assert(keys@[key2] == kb[key2]);
                }
            }
        }
        k = k + 1;
    }
    proof {
        lemma_first_some_none(dchecks);
    }
    Ok(())
}

/// The directories implied so far, with the component and byte budgets used.
pub struct DirectoryState {
    pub dirs: Set<Seq<char>>,
    pub components: nat,
    pub bytes: nat,
}

/// Registers the prefixes of `comps` from `length` components on.
pub open spec fn prefix_walk(s: DirectoryState, comps: Seq<Seq<char>>, length: nat) -> Result<DirectoryState, Refusal>
    decreases comps.len() - length,
{
    if length >= comps.len() {
        Ok(s)
    } else {
        let prefix = join_slash(comps.take(length as int));
        let next = if s.dirs.contains(prefix) {
            Ok(s)
        } else if !path_ok(prefix) {
            Err(Refusal::Path(prefix))
        } else if s.bytes + utf8_len(path_model(prefix).value) + utf8_len(path_model(prefix).key)
            > MAX_NAMESPACE_PREFIX_BYTES {
            Err(Refusal::Receipt("expected output directories exceed 16777216 stored prefix bytes"@))
        } else {
            Ok(
                DirectoryState {
                    dirs: s.dirs.insert(prefix),
                    components: s.components,
                    bytes: s.bytes + utf8_len(path_model(prefix).value) + utf8_len(path_model(prefix).key),
                },
            )
        };
        match next {
            Err(f) => Err(f),
            Ok(n) => if n.dirs.len() > MAX_NAMESPACE_COMPONENTS {
                Err(Refusal::Receipt("expected output directories exceed 262144 nodes"@))
            } else {
                prefix_walk(n, comps, length + 1)
            },
        }
    }
}

/// The directories implied by the first `k` output paths.
pub open spec fn directory_walk(paths: Seq<String>, k: int) -> Result<DirectoryState, Refusal>
    decreases k,
{
    if k <= 0 {
        Ok(DirectoryState { dirs: Set::empty(), components: 0, bytes: 0 })
    } else {
        match directory_walk(paths, k - 1) {
            Err(f) => Err(f),
            Ok(s) => {
                let p = paths[k - 1]@;
                if !path_ok(p) {
                    Err(Refusal::Path(p))
                } else {
                    let comps = split_slash(path_model(p).value);
                    if s.components + comps.len() > MAX_NAMESPACE_COMPONENTS {
                        Err(Refusal::Receipt("expected output directories exceed 262144 path components"@))
                    } else {
                        prefix_walk(
                            DirectoryState { dirs: s.dirs, components: s.components + comps.len(), bytes: s.bytes },
                            comps,
                            1,
                        )
                    }
                }
            },
        }
    }
}

pub open spec fn walk_matches(r: Result<Vec<String>, ArtifactError>, w: Result<DirectoryState, Refusal>) -> bool {
    match w {
        Ok(s) => r matches Ok(v) && lists(v@, s.dirs),
        Err(f) => r matches Err(e) && crate::receipt::refuses(e, f),
    }
}

fn join_prefix(comps: &Vec<Vec<char>>, length: usize) -> (out: String)
    requires
        length <= comps.len(),
    ensures
        out@ == join_slash(char_views(comps@).take(length as int)),
{
    let ghost views = char_views(comps@);
    let mut out = String::new();
    let mut i: usize = 0;
    while i < length
        invariant
            i <= length <= comps.len(),
            views == char_views(comps@),
            out@ == join_slash(views.take(i as int)),
        decreases length - i,
    {
        proof {
            assert(views.take(i + 1).drop_last() =~= views.take(i as int));
        }
        if i > 0 {
            crate::text::push_char(&mut out, '/');
        }
        push_str(&mut out, crate::text::string_from_chars(comps[i].as_slice()).as_str());
        proof {
            if i == 0 {
                assert(views.take(1).len() == 1);
                assert(out@ =~= views.take(1)[0]);
            } else {
                assert(out@ =~= join_slash(views.take(i as int)) + seq!['/'] + views.take(i + 1).last());
            }
        }
        i = i + 1;
    }
    out
}

/// The directories that a list of output paths implies, in increasing order,
/// within the namespace budgets.
pub fn expected_output_directories(paths: &Vec<String>) -> (r: Result<Vec<String>, ArtifactError>)
    ensures
        walk_matches(r, directory_walk(paths@, paths@.len() as int)),
{
    let mut dirs: TextMap<()> = TextMap::new();
    let mut components: usize = 0;
    let mut bytes: usize = 0;
    let mut i: usize = 0;
    proof {
        assert(dirs@.dom() =~= Set::<Seq<char>>::empty());
    }
    while i < paths.len()
        invariant
            i <= paths.len(),
            dirs.wf(),
            directory_walk(paths@, i as int) == Ok::<DirectoryState, Refusal>(
                DirectoryState { dirs: dirs@.dom(), components: components as nat, bytes: bytes as nat },
            ),
            components <= MAX_NAMESPACE_COMPONENTS,
            bytes <= MAX_NAMESPACE_PREFIX_BYTES,
        decreases paths.len() - i,
    {
        proof {
            lemma_walk_unfold(paths@, i + 1);
        }
        let portable = match PortablePath::parse(paths[i].as_str()) {
            Ok(p) => p,
            Err(e) => {
                proof {
                    lemma_walk_err_persists(paths@, i + 1, paths@.len() as int);
                }
                return Err(e);
            },
        };
        let comps = split_on_slash(chars_of(portable.as_str()).as_slice());
        let ghost cv = char_views(comps@);
        if comps.len() > MAX_NAMESPACE_COMPONENTS - components {
            proof {
                lemma_walk_err_persists(paths@, i + 1, paths@.len() as int);
            }
            return Err(
                ArtifactError::InvalidReceipt("expected output directories exceed 262144 path components".to_owned()),
            );
        }
        components = components + comps.len();
        let ghost start = DirectoryState { dirs: dirs@.dom(), components: components as nat, bytes: bytes as nat };
        proof {
            assert(cv == split_slash(path_model(paths@[i as int]@).value));
            assert(directory_walk(paths@, i + 1) == prefix_walk(start, cv, 1));
        }
        let mut length: usize = 1;
        while length < comps.len()
            invariant
                1 <= length,
                i < paths.len(),
                directory_walk(paths@, i + 1) == prefix_walk(start, cv, 1),
                cv == char_views(comps@),
                dirs.wf(),
                components <= MAX_NAMESPACE_COMPONENTS,
                bytes <= MAX_NAMESPACE_PREFIX_BYTES,
                prefix_walk(start, cv, 1) == prefix_walk(
                    DirectoryState { dirs: dirs@.dom(), components: components as nat, bytes: bytes as nat },
                    cv,
                    length as nat,
                ),
            decreases comps.len() - length,
        {
            let prefix = join_prefix(&comps, length);
            let key = chars_of(prefix.as_str());
            let ghost cur = DirectoryState { dirs: dirs@.dom(), components: components as nat, bytes: bytes as nat };
            if !dirs.contains(key.as_slice()) {
                let p = match PortablePath::parse(prefix.as_str()) {
                    Ok(p) => p,
                    Err(e) => {
                        proof {
                            assert(prefix_walk(cur, cv, length as nat) == Err::<DirectoryState, Refusal>(
                                Refusal::Path(prefix@),
                            ));
                            lemma_walk_err_persists(paths@, i + 1, paths@.len() as int);
                        }
                        return Err(e);
                    },
                };
                let added = utf8_len_of(chars_of(p.as_str()).as_slice()) as u128 + utf8_len_of(
                    chars_of(p.collision_key()).as_slice(),
                ) as u128;
                if bytes as u128 + added > MAX_NAMESPACE_PREFIX_BYTES as u128 {
                    proof {
                        lemma_walk_err_persists(paths@, i + 1, paths@.len() as int);
                    }
                    return Err(
                        ArtifactError::InvalidReceipt(
                            "expected output directories exceed 16777216 stored prefix bytes".to_owned(),
                        ),
                    );
                }
                bytes = (bytes as u128 + added) as usize;
                dirs.insert_new(key, ());
            }
            if dirs.len() > MAX_NAMESPACE_COMPONENTS {
                proof {
                    lemma_walk_err_persists(paths@, i + 1, paths@.len() as int);
                }
                return Err(ArtifactError::InvalidReceipt("expected output directories exceed 262144 nodes".to_owned()));
            }
            length = length + 1;
        }
        i = i + 1;
    }
    let out = crate::rebuild::set_list(&dirs);
    Ok(out)
}

proof fn lemma_walk_err_persists(paths: Seq<String>, k: int, n: int)
    requires
        0 <= k <= n,
        directory_walk(paths, k) is Err,
    ensures
        directory_walk(paths, n) == directory_walk(paths, k),
    decreases n - k,
{
    if n > k {
        lemma_walk_err_persists(paths, k, n - 1);
        lemma_walk_unfold(paths, n);
    }
}

proof fn lemma_walk_unfold(paths: Seq<String>, k: int)
    requires
        k > 0,
    ensures
        directory_walk(paths, k) == (match directory_walk(paths, k - 1) {
            Err(f) => Err(f),
            Ok(s) => {
                let p = paths[k - 1]@;
                if !path_ok(p) {
                    Err(Refusal::Path(p))
                } else {
                    let comps = split_slash(path_model(p).value);
                    if s.components + comps.len() > MAX_NAMESPACE_COMPONENTS {
                        Err(Refusal::Receipt("expected output directories exceed 262144 path components"@))
                    } else {
                        prefix_walk(
                            DirectoryState { dirs: s.dirs, components: s.components + comps.len(), bytes: s.bytes },
                            comps,
                            1,
                        )
                    }
                }
            },
        }),
{
}

/// The paths of a list of outputs.
pub open spec fn output_paths(files: Seq<OutputFile>) -> Seq<String> {
    files.map_values(|f: OutputFile| f.path)
}

pub open spec fn declared(files: Seq<OutputFile>, p: Seq<char>) -> bool {
    exists|j: int| 0 <= j < files.len() && (#[trigger] files[j]).path@ == p
}

pub open spec fn missing_fault(expected: Seq<OutputFile>, actual: Seq<String>, k: int) -> Option<Refusal> {
    if in_list(actual, expected[k].path@) {
        None
    } else {
        Some(Refusal::Missing(expected[k].path@))
    }
}

pub open spec fn extra_fault(expected: Seq<OutputFile>, actual: Seq<String>, k: int) -> Option<Refusal> {
    if declared(expected, actual[k]@) {
        None
    } else {
        Some(Refusal::Extra(actual[k]@))
    }
}

pub open spec fn extra_directory_fault(dirs: Set<Seq<char>>, actual: Seq<String>, k: int) -> Option<Refusal> {
    if dirs.contains(actual[k]@) {
        None
    } else {
        Some(Refusal::Extra(actual[k]@ + "/"@))
    }
}

/// What `check_layout` refuses, in its order: a declared file missing from
/// disk, a file on disk that is not declared, an error of the declared
/// directories, then a directory on disk that no declared file implies.
pub open spec fn layout_fault(expected: Seq<OutputFile>, files: Seq<String>, dirs: Seq<String>) -> Option<Refusal> {
    let missing = first_some(Seq::new(expected.len(), |k: int| missing_fault(expected, files, k)));
    let extra = first_some(Seq::new(files.len(), |k: int| extra_fault(expected, files, k)));
    if missing is Some {
        missing
    } else if extra is Some {
        extra
    } else {
        match directory_walk(output_paths(expected), expected.len() as int) {
            Err(f) => Some(f),
            Ok(s) => first_some(Seq::new(dirs.len(), |k: int| extra_directory_fault(s.dirs, dirs, k))),
        }
    }
}

fn text_set(items: &Vec<String>) -> (set: TextMap<()>)
    ensures
        set.wf(),
        forall|p: Seq<char>| #[trigger] set@.contains_key(p) <==> in_list(items@, p),
{
    let mut set: TextMap<()> = TextMap::new();
    let mut i: usize = 0;
    while i < items.len()
        invariant
            i <= items.len(),
            set.wf(),
            forall|p: Seq<char>|
                #[trigger] set@.contains_key(p) <==> exists|k: int| 0 <= k < i && (#[trigger] items@[k])@ == p,
        decreases items.len() - i,
    {
        let key = chars_of(items[i].as_str());
        if !set.contains(key.as_slice()) {
            set.insert_new(key, ());
        }
        proof {
            assert forall|p: Seq<char>| #[trigger] set@.contains_key(p) <==> exists|k: int|
                0 <= k < i + 1 && (#[trigger] items@[k])@ == p by {
                if p == items@[i as int]@ {
                    assert(set@.contains_key(p));
                }
                if exists|k: int| 0 <= k < i + 1 && (#[trigger] items@[k])@ == p {
                    let k = choose|k: int| 0 <= k < i + 1 && (#[trigger] items@[k])@ == p;
                    if k < i {
                        assert(exists|k: int| 0 <= k < i && (#[trigger] items@[k])@ == p);
                    }
                }
            }
        }
        i = i + 1;
    }
    set
}

/// Compares the files and directories found under an output root with the
/// outputs a receipt declares.
pub fn check_layout(expected: &Vec<OutputFile>, files: &Vec<String>, directories: &Vec<String>) -> (r: Result<
    (),
    ArtifactError,
>)
    ensures
        refused(r, layout_fault(expected@, files@, directories@)),
{
    let actual = text_set(files);
    let ghost mchecks = Seq::new(expected@.len(), |k: int| missing_fault(expected@, files@, k));
    let mut paths: Vec<String> = Vec::new();
    let mut i: usize = 0;
    while i < expected.len()
        invariant
            i <= expected.len(),
            actual.wf(),
            forall|p: Seq<char>| #[trigger] actual@.contains_key(p) <==> in_list(files@, p),
            mchecks == Seq::new(expected@.len(), |k: int| missing_fault(expected@, files@, k)),
            forall|k: int| 0 <= k < i ==> (#[trigger] mchecks[k]) is None,
            paths@ == output_paths(expected@).take(i as int),
        decreases expected.len() - i,
    {
        let p = expected[i].path.as_str();
        if !actual.contains(chars_of(p).as_slice()) {
            proof {
                lemma_first_some_at(mchecks, i as int);
            }
            return Err(ArtifactError::Missing(p.to_owned()));
        }
        assert(mchecks[i as int] is None);
        paths.push(expected[i].path.clone());
        proof {
            assert(output_paths(expected@).take(i + 1) =~= output_paths(expected@).take(i as int).push(
                expected@[i as int].path,
            ));
        }
        i = i + 1;
    }
    proof {
        lemma_first_some_none(mchecks);
        assert(output_paths(expected@).take(expected@.len() as int) =~= output_paths(expected@));
    }
    let declared_set = text_set(&paths);
    let ghost xchecks = Seq::new(files@.len(), |k: int| extra_fault(expected@, files@, k));
    let mut j: usize = 0;
    while j < files.len()
        invariant
            j <= files.len(),
            declared_set.wf(),
            paths@ == output_paths(expected@),
            forall|p: Seq<char>| #[trigger] declared_set@.contains_key(p) <==> in_list(paths@, p),
            xchecks == Seq::new(files@.len(), |k: int| extra_fault(expected@, files@, k)),
            first_some(Seq::new(expected@.len(), |k: int| missing_fault(expected@, files@, k))) is None,
            forall|k: int| 0 <= k < j ==> (#[trigger] xchecks[k]) is None,
        decreases files.len() - j,
    {
        let p = files[j].as_str();
        let known = declared_set.contains(chars_of(p).as_slice());
        proof {
            if known {
                let k = choose|k: int| 0 <= k < paths@.len() && (#[trigger] paths@[k])@ == p@;
                assert(expected@[k].path@ == p@);
            } else {
                if declared(expected@, p@) {
                    let k = choose|k: int| 0 <= k < expected@.len() && (#[trigger] expected@[k]).path@ == p@;
                    assert(paths@[k]@ == p@);
                }
            }
        }
        if !known {
            proof {
                lemma_first_some_at(xchecks, j as int);
            }
            return Err(ArtifactError::Extra(p.to_owned()));
        }
        assert(xchecks[j as int] is None);
        j = j + 1;
    }
    proof {
        lemma_first_some_none(xchecks);
    }
    let dirs = match expected_output_directories(&paths) {
        Ok(d) => d,
        Err(e) => {
            return Err(e);
        },
    };
    let dir_set = text_set(&dirs);
    let ghost ds = match directory_walk(output_paths(expected@), expected@.len() as int) {
        Ok(s) => s.dirs,
        Err(_) => Set::empty(),
    };
    let ghost dchecks = Seq::new(directories@.len(), |k: int| extra_directory_fault(ds, directories@, k));
    let mut k: usize = 0;
    while k < directories.len()
        invariant
            k <= directories.len(),
            dir_set.wf(),
            forall|p: Seq<char>| #[trigger] dir_set@.contains_key(p) <==> ds.contains(p),
            dchecks == Seq::new(directories@.len(), |k: int| extra_directory_fault(ds, directories@, k)),
            first_some(Seq::new(expected@.len(), |k: int| missing_fault(expected@, files@, k))) is None,
            first_some(Seq::new(files@.len(), |k: int| extra_fault(expected@, files@, k))) is None,
            directory_walk(output_paths(expected@), expected@.len() as int) matches Ok(s) && s.dirs == ds,
            forall|m: int| 0 <= m < k ==> (#[trigger] dchecks[m]) is None,
        decreases directories.len() - k,
    {
        let d = directories[k].as_str();
        if !dir_set.contains(chars_of(d).as_slice()) {
            let mut m = String::new();
            push_str(&mut m, d);
            push_str(&mut m, "/");
            proof {
                lemma_first_some_at(dchecks, k as int);
            }
            return Err(ArtifactError::Extra(m));
        }
        assert(dchecks[k as int] is None);
        k = k + 1;
    }
    proof {
        lemma_first_some_none(dchecks);
    }
    Ok(())
}

/// Compares a file found on disk with its declared size and digest.
pub fn check_output_evidence(expected: &OutputFile, bytes: u64, sha256: &str) -> (r: Result<(), ArtifactError>)
    ensures
        r is Ok <==> (bytes == expected.bytes && sha256@ == expected.sha256@),
        r matches Err(e) ==> e matches ArtifactError::Modified(p) && p@ == expected.path@,
{
    if bytes != expected.bytes || !str_eq(sha256, expected.sha256.as_str()) {
        return Err(ArtifactError::Modified(expected.path.clone()));
    }
    Ok(())
}

/// A report whose outputs were found on disk as declared.
#[derive(Clone, Debug)]
pub struct VerifiedBuild {
    pub report: BuildReport,
    pub files: u64,
    pub bytes: u64,
}

} // verus!
