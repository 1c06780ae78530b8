//! The parts of a Cargo target directory that Cargo owns, and the build
//! environment that must not steer a reproducible build.
use vstd::prelude::*;
use crate::cli::{component_views, path_components, path_parts, PathComponent, PathPart};
use crate::numtext::{upper_ascii, uppercase_ascii};
use crate::portable::{artifact_message, path_model, path_ok, split_on_slash, split_slash, PortablePath, join_slash};
use crate::rebuild::{join_commas, join_with_commas};
use crate::textmap::TextMap;
use crate::text::split_chars;
use crate::text::{
    char_views, chars_of, debug_quoted, debug_text, push_str, split_on, starts_with, starts_with_chars, str_eq,
    string_from_chars,
};

verus! {

broadcast use vstd::string::group_string_axioms;

/// Architectures a target triple may name exactly.
pub open spec fn triple_architecture(a: Seq<char>) -> bool {
    ||| a == "aarch64"@
    ||| a == "arm"@
    ||| a == "avr"@
    ||| a == "bpfeb"@
    ||| a == "bpfel"@
    ||| a == "hexagon"@
    ||| a == "i586"@
    ||| a == "i686"@
    ||| a == "m68k"@
    ||| a == "nvptx64"@
    ||| a == "s390x"@
    ||| a == "x86_64"@
}

/// Architecture families a target triple may start with.
pub open spec fn triple_family(a: Seq<char>) -> bool {
    ||| starts_with(a, "armv"@)
    ||| starts_with(a, "csky"@)
    ||| starts_with(a, "loongarch"@)
    ||| starts_with(a, "mips"@)
    ||| starts_with(a, "powerpc"@)
    ||| starts_with(a, "riscv"@)
    ||| starts_with(a, "sparc"@)
    ||| starts_with(a, "thumbv"@)
    ||| starts_with(a, "wasm"@)
}

/// A name with at least three `-`-separated parts whose first part is a
/// known architecture.
pub open spec fn target_triple_like(name: Seq<char>) -> bool {
    let parts = split_on(name, '-');
    parts.len() >= 3 && (triple_architecture(parts[0]) || triple_family(parts[0]))
}

fn one_of(s: &str, names: &Vec<&str>) -> (b: bool)
    ensures
        b == exists|i: int| 0 <= i < names.len() && s@ == (#[trigger] names@[i])@,
{
    let mut i: usize = 0;
    while i < names.len()
        invariant
            i <= names.len(),
            forall|k: int| 0 <= k < i ==> s@ != (#[trigger] names@[k])@,
        decreases names.len() - i,
    {
        if str_eq(s, names[i]) {
            return true;
        }
        i = i + 1;
    }
    false
}

fn starts_with_one_of(s: &[char], prefixes: &Vec<&str>) -> (b: bool)
    ensures
        b == exists|i: int| 0 <= i < prefixes.len() && starts_with(s@, (#[trigger] prefixes@[i])@),
{
    let mut i: usize = 0;
    while i < prefixes.len()
        invariant
            i <= prefixes.len(),
            forall|k: int| 0 <= k < i ==> !starts_with(s@, (#[trigger] prefixes@[k])@),
        decreases prefixes.len() - i,
    {
        if starts_with_chars(s, chars_of(prefixes[i]).as_slice()) {
            return true;
        }
        i = i + 1;
    }
    false
}

/// Whether a target-directory child looks like a Rust target triple.
pub fn looks_like_rust_target_triple(name: &str) -> (b: bool)
    ensures
        b == target_triple_like(name@),
{
    let parts = crate::text::split_chars(chars_of(name).as_slice(), '-');
    if parts.len() < 3 {
        return false;
    }
    let arch = string_from_chars(parts[0].as_slice());
    assert(arch@ == split_on(name@, '-')[0]);
    let names = vec!["aarch64", "arm", "avr", "bpfeb", "bpfel", "hexagon", "i586", "i686", "m68k", "nvptx64", "s390x", "x86_64"];
    let prefixes = vec!["armv", "csky", "loongarch", "mips", "powerpc", "riscv", "sparc", "thumbv", "wasm"];
    let exact = one_of(arch.as_str(), &names);
    let family = starts_with_one_of(parts[0].as_slice(), &prefixes);
    proof {
        let a = arch@;
        if triple_architecture(a) {
            if a == "aarch64"@ { assert(a == names@[0]@); }
            else if a == "arm"@ { assert(a == names@[1]@); }
            else if a == "avr"@ { assert(a == names@[2]@); }
            else if a == "bpfeb"@ { assert(a == names@[3]@); }
            else if a == "bpfel"@ { assert(a == names@[4]@); }
            else if a == "hexagon"@ { assert(a == names@[5]@); }
            else if a == "i586"@ { assert(a == names@[6]@); }
            else if a == "i686"@ { assert(a == names@[7]@); }
            else if a == "m68k"@ { assert(a == names@[8]@); }
            else if a == "nvptx64"@ { assert(a == names@[9]@); }
            else if a == "s390x"@ { assert(a == names@[10]@); }
            else { assert(a == names@[11]@); }
        }
        if exact {
            let i = choose|i: int| 0 <= i < names.len() && a == (#[trigger] names@[i])@;
            assert(triple_architecture(a));
        }
        if triple_family(a) {
            if starts_with(a, "armv"@) { assert(starts_with(a, prefixes@[0]@)); }
            else if starts_with(a, "csky"@) { assert(starts_with(a, prefixes@[1]@)); }
            else if starts_with(a, "loongarch"@) { assert(starts_with(a, prefixes@[2]@)); }
            else if starts_with(a, "mips"@) { assert(starts_with(a, prefixes@[3]@)); }
            else if starts_with(a, "powerpc"@) { assert(starts_with(a, prefixes@[4]@)); }
            else if starts_with(a, "riscv"@) { assert(starts_with(a, prefixes@[5]@)); }
            else if starts_with(a, "sparc"@) { assert(starts_with(a, prefixes@[6]@)); }
            else if starts_with(a, "thumbv"@) { assert(starts_with(a, prefixes@[7]@)); }
            else { assert(starts_with(a, prefixes@[8]@)); }
        }
        if family {
            let i = choose|i: int| 0 <= i < prefixes.len() && starts_with(a, (#[trigger] prefixes@[i])@);
            assert(triple_family(a));
        }
    }
    exact || family
}

/// Environment variables that would let the caller's shell change how Cargo
/// and rustc build, compared in ASCII upper case.
pub open spec fn forbidden_environment(name: Seq<char>) -> bool {
    let n = upper_ascii(name);
    ||| n == "RUSTC"@
    ||| n == "RUSTC_WRAPPER"@
    ||| n == "RUSTC_WORKSPACE_WRAPPER"@
    ||| n == "RUSTC_BOOTSTRAP"@
    ||| n == "RUSTFLAGS"@
    ||| n == "CARGO_ENCODED_RUSTFLAGS"@
    ||| n == "CARGO_INCREMENTAL"@
    ||| starts_with(n, "CARGO_BUILD_"@)
    ||| starts_with(n, "CARGO_PROFILE_"@)
    ||| (starts_with(n, "CARGO_TARGET_"@) && n != "CARGO_TARGET_DIR"@)
}

/// Whether an environment variable must not reach a reproducible build.
pub fn forbidden_build_environment_name(name: &str) -> (b: bool)
    ensures
        b == forbidden_environment(name@),
{
    let upper = uppercase_ascii(chars_of(name).as_slice());
    let text = string_from_chars(upper.as_slice());
    let n = text.as_str();
    let names = vec![
        "RUSTC",
        "RUSTC_WRAPPER",
        "RUSTC_WORKSPACE_WRAPPER",
        "RUSTC_BOOTSTRAP",
        "RUSTFLAGS",
        "CARGO_ENCODED_RUSTFLAGS",
        "CARGO_INCREMENTAL",
    ];
    let exact = one_of(n, &names);
    let build = starts_with_chars(upper.as_slice(), chars_of("CARGO_BUILD_").as_slice());
    let profile = starts_with_chars(upper.as_slice(), chars_of("CARGO_PROFILE_").as_slice());
    let target = starts_with_chars(upper.as_slice(), chars_of("CARGO_TARGET_").as_slice()) && !str_eq(
        n,
        "CARGO_TARGET_DIR",
    );
    proof {
        let u = n@;
        if u == "RUSTC"@ { assert(u == names@[0]@); }
        if u == "RUSTC_WRAPPER"@ { assert(u == names@[1]@); }
        if u == "RUSTC_WORKSPACE_WRAPPER"@ { assert(u == names@[2]@); }
        if u == "RUSTC_BOOTSTRAP"@ { assert(u == names@[3]@); }
        if u == "RUSTFLAGS"@ { assert(u == names@[4]@); }
        if u == "CARGO_ENCODED_RUSTFLAGS"@ { assert(u == names@[5]@); }
        if u == "CARGO_INCREMENTAL"@ { assert(u == names@[6]@); }
        if exact {
            let i = choose|i: int| 0 <= i < names.len() && u == (#[trigger] names@[i])@;
        }
    }
    exact || build || profile || target
}

/// The piece of `s` after its last `/` or `\\`.
pub open spec fn last_segment(s: Seq<char>) -> Seq<char>
    decreases s.len(),
{
    if s.len() == 0 {
        s
    } else if s.last() == '/' || s.last() == '\\' {
        Seq::empty()
    } else {
        last_segment(s.drop_last()).push(s.last())
    }
}

/// `s` without a trailing `.json`.
pub open spec fn strip_json(s: Seq<char>) -> Seq<char> {
    if crate::text::ends_with(s, ".json"@) {
        s.take(s.len() - 5)
    } else {
        s
    }
}

/// The outcome of naming the output directory of a Cargo build target.
pub open spec fn target_child(target: Seq<char>) -> Result<Seq<char>, Seq<char>> {
    let name = strip_json(last_segment(target));
    if last_segment(target).len() == 0 {
        Err("invalid Cargo build target "@ + debug_text(target))
    } else if !path_ok(name) {
        Err(
            "Cargo build target "@ + debug_text(target) + " is not portable: "@ + "non-portable artifact path: "@
                + name,
        )
    } else if path_model(name).value != name || name.contains('/') {
        Err("Cargo build target "@ + debug_text(target) + " does not have a canonical portable output name"@)
    } else {
        Ok(path_model(name).key)
    }
}

fn last_segment_of(s: &Vec<char>) -> (out: Vec<char>)
    ensures
        out@ == last_segment(s@),
{
    let mut start: usize = s.len();
    proof {
        assert(s@.take(start as int) =~= s@);
        assert(last_segment(s@) + s@.skip(start as int) =~= last_segment(s@));
    }
    while start > 0 && s[start - 1] != '/' && s[start - 1] != '\\'
        invariant
            start <= s.len(),
            last_segment(s@) == last_segment(s@.take(start as int)) + s@.skip(start as int),
        decreases start,
    {
        proof {
            assert(s@.take(start as int).drop_last() =~= s@.take(start - 1));
            assert(s@.take(start as int).last() == s@[start - 1]);
            assert(s@.skip(start - 1) =~= seq![s@[start - 1]] + s@.skip(start as int));
            assert(last_segment(s@.take(start as int)) == last_segment(s@.take(start - 1)).push(s@[start - 1]));
            assert(last_segment(s@.take(start - 1)).push(s@[start - 1]) + s@.skip(start as int) =~= last_segment(
                s@.take(start - 1),
            ) + s@.skip(start - 1));
        }
        start = start - 1;
    }
    proof {
        if start > 0 {
            assert(s@.take(start as int).last() == s@[start - 1]);
            assert(last_segment(s@.take(start as int)) =~= Seq::<char>::empty());
        } else {
            assert(s@.take(0) =~= Seq::<char>::empty());
        }
        assert(Seq::<char>::empty() + s@.skip(start as int) =~= s@.skip(start as int));
    }
    let mut out: Vec<char> = Vec::new();
    let mut i: usize = start;
    while i < s.len()
        invariant
            start <= i <= s.len(),
            out@ == s@.subrange(start as int, i as int),
        decreases s.len() - i,
    {
        out.push(s[i]);
        i = i + 1;
        proof {
            assert(out@ =~= s@.subrange(start as int, i as int));
        }
    }
    proof {
        assert(s@.subrange(start as int, s.len() as int) =~= s@.skip(start as int));
    }
    out
}

/// The directory a Cargo build target writes below the target directory:
/// the last piece of its name, without `.json`, as a portable collision key.
pub fn cargo_target_output_child(target: &str) -> (r: Result<String, String>)
    ensures
        match target_child(target@) {
            Ok(k) => r matches Ok(s) && s@ == k,
            Err(m) => r matches Err(s) && s@ == m,
        },
{
    let chars = chars_of(target);
    let segment = last_segment_of(&chars);
    if segment.len() == 0 {
        let mut m = String::new();
        push_str(&mut m, "invalid Cargo build target ");
        push_str(&mut m, debug_quoted(target).as_str());
        proof {
            assert(m@ =~= "invalid Cargo build target "@ + debug_text(target@));
        }
        return Err(m);
    }
    let json = chars_of(".json");
    proof {
        reveal_strlit(".json");
    }
    let name_chars = if crate::text::ends_with_chars(segment.as_slice(), json.as_slice()) {
        crate::portable::prefix_chars(segment.as_slice(), segment.len() - 5)
    } else {
        crate::portable::prefix_chars(segment.as_slice(), segment.len())
    };
    proof {
        assert(segment@.take(segment.len() as int) =~= segment@);
    }
    let name = string_from_chars(name_chars.as_slice());
    assert(name@ == strip_json(last_segment(target@)));
    let portable = match PortablePath::parse(name.as_str()) {
        Ok(p) => p,
        Err(e) => {
            let mut m = String::new();
            push_str(&mut m, "Cargo build target ");
            push_str(&mut m, debug_quoted(target).as_str());
            push_str(&mut m, " is not portable: ");
            push_str(&mut m, e.message().as_str());
            proof {
                assert(m@ =~= "Cargo build target "@ + debug_text(target@) + " is not portable: "@
                    + "non-portable artifact path: "@ + name@);
            }
            return Err(m);
        },
    };
    if !str_eq(portable.as_str(), name.as_str()) || crate::portable::contains_char(name_chars.as_slice(), '/') {
        let mut m = String::new();
        push_str(&mut m, "Cargo build target ");
        push_str(&mut m, debug_quoted(target).as_str());
        push_str(&mut m, " does not have a canonical portable output name");
        proof {
            assert(m@ =~= "Cargo build target "@ + debug_text(target@)
                + " does not have a canonical portable output name"@);
        }
        return Err(m);
    }
    Ok(portable.collision_key().to_owned())
}

/// The outcome of checking that a generated path keeps clear of the
/// directories Cargo owns below `target/`.
pub open spec fn cargo_layout_fault(key: Seq<char>, value: Seq<char>, label: Seq<char>, children: Seq<String>) -> Option<
    Seq<char>,
> {
    let parts = split_slash(key);
    if parts.len() < 2 {
        Some(label + " must be below target/"@)
    } else if crate::rebuild::in_list(children, parts[1]) || target_triple_like(parts[1]) {
        Some(label + " "@ + value + " overlaps Cargo-owned target layout "@ + debug_text(parts[1]))
    } else {
        None
    }
}

/// Refuses a generated path whose directory below `target/` is one that
/// Cargo owns or that looks like a target triple.
pub fn validate_generated_path_outside_cargo_layout(path: &PortablePath, label: &str, cargo_children: &Vec<String>) -> (r:
    Result<(), String>)
    ensures
        match cargo_layout_fault(path@.key, path@.value, label@, cargo_children@) {
            None => r is Ok,
            Some(m) => r matches Err(s) && s@ == m,
        },
{
    let parts = split_on_slash(chars_of(path.collision_key()).as_slice());
    if parts.len() < 2 {
        let mut m = String::new();
        push_str(&mut m, label);
        push_str(&mut m, " must be below target/");
        return Err(m);
    }
    let child = string_from_chars(parts[1].as_slice());
    assert(child@ == split_slash(path@.key)[1]);
    let mut owned = false;
    let mut i: usize = 0;
    while i < cargo_children.len()
        invariant
            i <= cargo_children.len(),
            owned == exists|k: int| 0 <= k < i && (#[trigger] cargo_children@[k])@ == child@,
        decreases cargo_children.len() - i,
    {
        if str_eq(cargo_children[i].as_str(), child.as_str()) {
            owned = true;
        }
        i = i + 1;
    }
    if owned || looks_like_rust_target_triple(child.as_str()) {
        let mut m = String::new();
        push_str(&mut m, label);
        push_str(&mut m, " ");
        push_str(&mut m, path.as_str());
        push_str(&mut m, " overlaps Cargo-owned target layout ");
        push_str(&mut m, debug_quoted(child.as_str()).as_str());
        proof {
            assert(m@ =~= label@ + " "@ + path@.value + " overlaps Cargo-owned target layout "@ + debug_text(child@));
        }
        return Err(m);
    }
    Ok(())
}

/// A list for a message: its items joined with commas, or `none`.
pub fn display_items(items: &Vec<String>) -> (s: String)
    ensures
        s@ == (if items.len() == 0 {
            "none"@
        } else {
            join_commas(crate::raster::string_views(items@))
        }),
{
    if items.len() == 0 {
        "none".to_owned()
    } else {
        join_with_commas(items)
    }
}

/// Whether a component is neither the root nor a name.
pub open spec fn special_part(c: PathPart) -> bool {
    c is Cur || c is Parent
}

pub open spec fn normal_names(parts: Seq<PathPart>) -> Seq<Seq<char>>
    decreases parts.len(),
{
    if parts.len() == 0 {
        Seq::empty()
    } else if parts.last() is Normal {
        normal_names(parts.drop_last()).push(parts.last()->Normal_0)
    } else {
        normal_names(parts.drop_last())
    }
}

/// The outcome of writing a path as slash-separated names.
pub open spec fn portable_components_outcome(path: Seq<char>, label: Seq<char>) -> Result<Seq<char>, Seq<char>> {
    let parts = path_parts(path);
    if exists|i: int| 0 <= i < parts.len() && special_part(#[trigger] parts[i]) {
        Err(label + " contains a non-normal component: "@ + path)
    } else if normal_names(parts).len() == 0 {
        Err(label + " cannot be a filesystem root"@)
    } else {
        Ok(join_slash(normal_names(parts)))
    }
}

/// A path written as its names joined by `/`, refusing `.` and `..` and the
/// bare root.
pub fn portable_path_components(path: &str, label: &str) -> (r: Result<String, String>)
    ensures
        match portable_components_outcome(path@, label@) {
            Ok(s) => r matches Ok(o) && o@ == s,
            Err(m) => r matches Err(o) && o@ == m,
        },
{
    let comps = path_components(path);
    let ghost parts = path_parts(path@);
    let mut names: Vec<Vec<char>> = Vec::new();
    let mut i: usize = 0;
    while i < comps.len()
        invariant
            i <= comps.len(),
            component_views(comps@) == parts,
            parts == path_parts(path@),
            forall|k: int| 0 <= k < i ==> !special_part(#[trigger] parts[k]),
            char_views(names@) == normal_names(parts.take(i as int)),
        decreases comps.len() - i,
    {
        proof {
            assert(parts.take(i + 1).drop_last() =~= parts.take(i as int));
            assert(parts[i as int] == crate::cli::component_view(comps@[i as int]));
        }
        match &comps[i] {
            PathComponent::Root => {},
            PathComponent::Normal(n) => {
                let ghost before = char_views(names@);
                names.push(crate::portable::prefix_chars(n.as_slice(), n.len()));
                proof {
                    assert(n@.take(n.len() as int) =~= n@);
                    assert(char_views(names@) =~= before.push(n@));
                }
            },
            _ => {
                let mut m = String::new();
                push_str(&mut m, label);
                push_str(&mut m, " contains a non-normal component: ");
                push_str(&mut m, path);
                proof {
                    assert(special_part(parts[i as int]));
                }
                return Err(m);
            },
        }
        i = i + 1;
    }
    proof {
        assert(parts.take(comps.len() as int) =~= parts);
    }
    if names.len() == 0 {
        let mut m = String::new();
        push_str(&mut m, label);
        push_str(&mut m, " cannot be a filesystem root");
        return Err(m);
    }
    let joined = crate::portable::join_chars(&names);
    Ok(string_from_chars(joined.as_slice()))
}

} // verus!

verus! {

/// What a Cargo configuration file says under `build.target`.
#[derive(Clone, Debug)]
pub enum BuildTargetSetting {
    /// No `build` table, or no `target` in it.
    Unset,
    /// One target.
    One(String),
    /// A list, each entry a string or something else (`None`).
    Many(Vec<Option<String>>),
    /// Neither a string nor a list.
    Other,
}

/// A Cargo configuration file, as named in a refusal, and its setting.
#[derive(Clone, Debug)]
pub struct ConfiguredTargets {
    pub path: String,
    pub setting: BuildTargetSetting,
}

/// The first position in a list that is not a string.
pub open spec fn first_non_string(v: Seq<Option<String>>) -> Option<int> {
    if exists|k: int| 0 <= k < v.len() && v[k] is None {
        Some(choose|k: int| 0 <= k < v.len() && v[k] is None && forall|j: int| 0 <= j < k ==> v[j] is Some)
    } else {
        None
    }
}

/// The targets the files configure, in order, or the refusal of the first
/// malformed setting.
pub open spec fn targets_scan(files: Seq<ConfiguredTargets>, i: nat, acc: Seq<Seq<char>>) -> Result<
    Seq<Seq<char>>,
    Seq<char>,
>
    decreases files.len() - i,
{
    if i >= files.len() {
        Ok(acc)
    } else {
        let f = files[i as int];
        match f.setting {
            BuildTargetSetting::Unset => targets_scan(files, i + 1, acc),
            BuildTargetSetting::One(t) => targets_scan(files, i + 1, acc.push(t@)),
            BuildTargetSetting::Many(v) => if exists|k: int| 0 <= k < v.len() && v@[k] is None {
                Err("Cargo build.target in "@ + f.path@ + " must contain only strings"@)
            } else {
                targets_scan(files, i + 1, acc + v@.map_values(|o: Option<String>| o->0@))
            },
            BuildTargetSetting::Other => Err("Cargo build.target in "@ + f.path@ + " must be a string or string array"@),
        }
    }
}

/// The build targets the Cargo configuration files set, in order.
pub fn configured_targets(files: &Vec<ConfiguredTargets>) -> (r: Result<Vec<String>, String>)
    ensures
        match targets_scan(files@, 0, Seq::empty()) {
            Ok(t) => r matches Ok(v) && crate::raster::string_views(v@) == t,
            Err(m) => r matches Err(e) && e@ == m,
        },
{
    let mut out: Vec<String> = Vec::new();
    let mut i: usize = 0;
    proof {
        assert(crate::raster::string_views(out@) =~= Seq::<Seq<char>>::empty());
    }
    while i < files.len()
        invariant
            i <= files.len(),
            targets_scan(files@, 0, Seq::empty()) == targets_scan(
                files@,
                i as nat,
                crate::raster::string_views(out@),
            ),
        decreases files.len() - i,
    {
        let ghost before = crate::raster::string_views(out@);
        match &files[i].setting {
            BuildTargetSetting::Unset => {},
            BuildTargetSetting::One(t) => {
                out.push(t.clone());
                proof {
                    assert(crate::raster::string_views(out@) =~= before.push(t@));
                }
            },
            BuildTargetSetting::Many(v) => {
                let mut k: usize = 0;
                while k < v.len()
                    invariant
                        k <= v.len(),
                        i < files.len(),
                        files@[i as int].setting matches BuildTargetSetting::Many(w) && w@ == v@,
                        targets_scan(files@, 0, Seq::empty()) == targets_scan(files@, i as nat, before),
                        forall|j: int| 0 <= j < k ==> v@[j] is Some,
                        crate::raster::string_views(out@) == before + v@.take(k as int).map_values(
                            |o: Option<String>| o->0@,
                        ),
                    decreases v.len() - k,
                {
                    let ghost mid = crate::raster::string_views(out@);
                    match &v[k] {
                        Some(t) => {
                            out.push(t.clone());
                            proof {
                                assert(crate::raster::string_views(out@) =~= mid.push(t@));
                                assert(v@.take(k + 1).map_values(|o: Option<String>| o->0@) =~= v@.take(
                                    k as int,
                                ).map_values(|o: Option<String>| o->0@).push(t@));
                            }
                        },
                        None => {
                            proof {
                                assert(v@[k as int] is None);
                            }
                            let mut m = String::new();
                            push_str(&mut m, "Cargo build.target in ");
                            push_str(&mut m, files[i].path.as_str());
                            push_str(&mut m, " must contain only strings");
                            return Err(m);
                        },
                    }
                    k = k + 1;
                }
                proof {
                    assert(v@.take(v.len() as int) =~= v@);
                }
            },
            BuildTargetSetting::Other => {
                let mut m = String::new();
                push_str(&mut m, "Cargo build.target in ");
                push_str(&mut m, files[i].path.as_str());
                push_str(&mut m, " must be a string or string array");
                return Err(m);
            },
        }
        i = i + 1;
    }
    Ok(out)
}

/// The names Cargo writes below every target directory.
pub open spec fn default_children() -> Set<Seq<char>> {
    set![
        "debug"@,
        "release"@,
        "doc"@,
        "package"@,
        "tmp"@,
        ".rustc_info.json"@,
        "cachedir.tag"@,
        "wasm32-unknown-unknown"@,
    ]
}

/// The lines of a text as `str::lines` yields them, empty ones left out: a
/// `\r` before a line's `\n` is dropped.
pub open spec fn nonempty_lines(text: Seq<char>) -> Seq<Seq<char>> {
    let pieces = split_on(text, '\n');
    Seq::new(
        pieces.len(),
        |k: int|
            if k + 1 < pieces.len() && pieces[k].len() > 0 && pieces[k].last() == '\r' {
                pieces[k].drop_last()
            } else {
                pieces[k]
            },
    ).filter(|l: Seq<char>| l.len() > 0)
}

/// The children of target names, added to `acc` in order, or the refusal of
/// the first name that gives none.
pub open spec fn children_scan(names: Seq<Seq<char>>, i: nat, acc: Set<Seq<char>>) -> Result<Set<Seq<char>>, Seq<char>>
    decreases names.len() - i,
{
    if i >= names.len() {
        Ok(acc)
    } else {
        match target_child(names[i as int]) {
            Ok(c) => children_scan(names, i + 1, acc.insert(c)),
            Err(m) => Err(m),
        }
    }
}

fn add_children(set: &mut TextMap<()>, names: &Vec<Vec<char>>) -> (r: Result<(), String>)
    requires
        old(set).wf(),
    ensures
        final(set).wf(),
        match children_scan(char_views(names@), 0, old(set)@.dom()) {
            Ok(s) => r is Ok && final(set)@.dom() == s,
            Err(m) => r matches Err(e) && e@ == m,
        },
{
    let ghost start = set@.dom();
    let mut i: usize = 0;
    while i < names.len()
        invariant
            i <= names.len(),
            set.wf(),
            start == old(set)@.dom(),
            children_scan(char_views(names@), 0, start) == children_scan(char_views(names@), i as nat, set@.dom()),
        decreases names.len() - i,
    {
        let name = string_from_chars(names[i].as_slice());
        proof {
            assert(char_views(names@)[i as int] == names@[i as int]@);
        }
        match cargo_target_output_child(name.as_str()) {
            Ok(child) => {
                crate::rebuild::set_add(set, child.as_str());
            },
            Err(e) => {
                proof {
                    assert(char_views(names@).len() == names.len());
                    assert(target_child(char_views(names@)[i as int]) == Err::<Seq<char>, Seq<char>>(e@));
                    assert(children_scan(char_views(names@), i as nat, set@.dom()) == Err::<Set<Seq<char>>, Seq<char>>(e@));
                }
                return Err(e);
            },
        }
        i = i + 1;
    }
    Ok(())
}

/// The directories Cargo owns below a target directory: its fixed ones, one
/// per built-in target that `rustc --print target-list` lists, and one per
/// configured build target; sorted, each once.
pub fn cargo_owned_target_children(built_in: &str, configured: &Vec<String>) -> (r: Result<Vec<String>, String>)
    ensures
        match children_scan(nonempty_lines(built_in@), 0, default_children()) {
            Err(m) => r matches Err(e) && e@ == m,
            Ok(s) => match children_scan(crate::raster::string_views(configured@), 0, s) {
                Err(m) => r matches Err(e) && e@ == m,
                Ok(all) => r matches Ok(v) && crate::rebuild::lists(v@, all),
            },
        },
{
    let mut set: TextMap<()> = TextMap::new();
    let defaults = [
        "debug",
        "release",
        "doc",
        "package",
        "tmp",
        ".rustc_info.json",
        "cachedir.tag",
        "wasm32-unknown-unknown",
    ];
    let mut d: usize = 0;
    while d < 8
        invariant
            d <= 8,
            set.wf(),
            forall|j: int| 0 <= j < 8 ==> #[trigger] default_children().contains(defaults@[j]@),
            set@.dom() == Set::new(|x: Seq<char>| exists|j: int| 0 <= j < d && defaults@[j]@ == x),
        decreases 8 - d,
    {
        crate::rebuild::set_add(&mut set, defaults[d]);
        proof {
            assert(set@.dom() =~= Set::new(|x: Seq<char>| exists|j: int| 0 <= j < d + 1 && defaults@[j]@ == x));
        }
        d = d + 1;
    }
    proof {
        assert(set@.dom() =~= default_children()) by {
            assert forall|x: Seq<char>| default_children().contains(x) implies set@.dom().contains(x) by {
                if x == "debug"@ {
                    assert(defaults@[0]@ == x);
                } else if x == "release"@ {
                    assert(defaults@[1]@ == x);
                } else if x == "doc"@ {
                    assert(defaults@[2]@ == x);
                } else if x == "package"@ {
                    assert(defaults@[3]@ == x);
                } else if x == "tmp"@ {
                    assert(defaults@[4]@ == x);
                } else if x == ".rustc_info.json"@ {
                    assert(defaults@[5]@ == x);
                } else if x == "cachedir.tag"@ {
                    assert(defaults@[6]@ == x);
                } else {
                    assert(defaults@[7]@ == x);
                }
            }
        }
    }
    let lines = text_lines(built_in);
    match add_children(&mut set, &lines) {
        Ok(()) => {},
        Err(e) => {
            return Err(e);
        },
    }
    let mut names: Vec<Vec<char>> = Vec::new();
    let mut k: usize = 0;
    while k < configured.len()
        invariant
            k <= configured.len(),
            char_views(names@) == crate::raster::string_views(configured@).take(k as int),
        decreases configured.len() - k,
    {
        let ghost before = char_views(names@);
        names.push(chars_of(configured[k].as_str()));
        proof {
            assert(char_views(names@) =~= before.push(configured@[k as int]@));
            assert(crate::raster::string_views(configured@).take(k + 1) =~= crate::raster::string_views(
                configured@,
            ).take(k as int).push(configured@[k as int]@));
        }
        k = k + 1;
    }
    proof {
        assert(crate::raster::string_views(configured@).take(configured.len() as int) =~= crate::raster::string_views(
            configured@,
        ));
    }
    match add_children(&mut set, &names) {
        Ok(()) => {},
        Err(e) => {
            return Err(e);
        },
    }
    Ok(crate::rebuild::set_list(&set))
}

fn text_lines(text: &str) -> (out: Vec<Vec<char>>)
    ensures
        char_views(out@) == nonempty_lines(text@),
{
    let chars = chars_of(text);
    let pieces = split_chars(chars.as_slice(), '\n');
    let ghost trimmed = Seq::new(
        char_views(pieces@).len(),
        |k: int|
            if k + 1 < char_views(pieces@).len() && char_views(pieces@)[k].len() > 0 && char_views(pieces@)[k].last()
                == '\r' {
                char_views(pieces@)[k].drop_last()
            } else {
                char_views(pieces@)[k]
            },
    );
    let mut out: Vec<Vec<char>> = Vec::new();
    let mut k: usize = 0;
    proof {
        assert(trimmed.take(0).filter(|l: Seq<char>| l.len() > 0) =~= Seq::<Seq<char>>::empty());
        assert(char_views(out@) =~= Seq::<Seq<char>>::empty());
    }
    while k < pieces.len()
        invariant
            k <= pieces.len(),
            trimmed.len() == pieces.len(),
            forall|j: int| 0 <= j < pieces.len() ==> #[trigger] trimmed[j] == (if j + 1 < pieces.len() && pieces@[j]@.len() > 0
                && pieces@[j]@.last() == '\r' {
                pieces@[j]@.drop_last()
            } else {
                pieces@[j]@
            }),
            char_views(out@) == trimmed.take(k as int).filter(|l: Seq<char>| l.len() > 0),
        decreases pieces.len() - k,
    {
        let piece = &pieces[k];
        let line: Vec<char> = if k + 1 < pieces.len() && piece.len() > 0 && piece[piece.len() - 1] == '\r' {
            crate::portable::prefix_chars(piece.as_slice(), piece.len() - 1)
        } else {
            crate::portable::prefix_chars(piece.as_slice(), piece.len())
        };
        proof {
            assert(line@ == trimmed[k as int]);
            assert(trimmed.take(k + 1).drop_last() =~= trimmed.take(k as int));
            trimmed.take(k as int).lemma_filter_push(trimmed[k as int], |l: Seq<char>| l.len() > 0);
            assert(trimmed.take(k as int).push(trimmed[k as int]) =~= trimmed.take(k + 1));
        }
        let ghost before = char_views(out@);
        if line.len() > 0 {
            out.push(line);
            proof {
                assert(char_views(out@) =~= before.push(trimmed[k as int]));
            }
        }
        k = k + 1;
    }
    proof {
        assert(trimmed.take(pieces.len() as int) =~= trimmed);
        assert(char_views(pieces@) == split_on(text@, '\n'));
        assert(trimmed =~= Seq::new(
            split_on(text@, '\n').len(),
            |k: int|
                if k + 1 < split_on(text@, '\n').len() && split_on(text@, '\n')[k].len() > 0 && split_on(
                    text@,
                    '\n',
                )[k].last() == '\r' {
                    split_on(text@, '\n')[k].drop_last()
                } else {
                    split_on(text@, '\n')[k]
                },
        ));
    }
    out
}

} // verus!

verus! {

/// A relative path as portable text; `label` names it in a refusal.
pub open spec fn relative_outcome(path: Seq<char>, label: Seq<char>) -> Result<crate::portable::PathModel, Seq<char>> {
    match portable_components_outcome(path, label) {
        Err(m) => Err(m),
        Ok(v) => if !path_ok(v) {
            Err(label + " must be portable: "@ + "non-portable artifact path: "@ + v)
        } else if path_model(v).value != v {
            Err(label + " must use canonical NFC spelling"@)
        } else {
            Ok(path_model(v))
        },
    }
}

/// Reads a relative path, written with `/`, as a portable path in its
/// canonical spelling.
pub fn portable_relative_path(path: &str, label: &str) -> (r: Result<PortablePath, String>)
    ensures
        match relative_outcome(path@, label@) {
            Ok(m) => r matches Ok(p) && p@ == m,
            Err(m) => r matches Err(e) && e@ == m,
        },
{
    let value = match portable_path_components(path, label) {
        Ok(v) => v,
        Err(e) => {
            return Err(e);
        },
    };
    let portable = match PortablePath::parse(value.as_str()) {
        Ok(p) => p,
        Err(e) => {
            let mut m = String::new();
            push_str(&mut m, label);
            push_str(&mut m, " must be portable: ");
            push_str(&mut m, e.message().as_str());
            return Err(m);
        },
    };
    if !str_eq(portable.as_str(), value.as_str()) {
        let mut m = String::new();
        push_str(&mut m, label);
        push_str(&mut m, " must use canonical NFC spelling");
        return Err(m);
    }
    Ok(portable)
}

/// A generated path and the field that names it.
#[derive(Debug)]
pub struct GeneratedPath {
    pub label: String,
    pub path: PortablePath,
}

/// The generated paths a build writes below `target/`, with their labels:
/// the build context state, the site output, and the client's bindgen
/// output when there is a client.
pub open spec fn generated_outcome(output: Seq<char>, bindgen_output: Option<Seq<char>>) -> Result<
    Seq<(Seq<char>, crate::portable::PathModel)>,
    Seq<char>,
> {
    if !path_ok("target/.pliego"@) {
        Err("invalid reserved generated path: "@ + "non-portable artifact path: "@ + "target/.pliego"@)
    } else {
        match crate::project_manifest::generated_path_result(output, "project.output"@) {
            Err(m) => Err(m),
            Ok(o) => {
                let base = seq![("build context"@, path_model("target/.pliego"@)), ("project.output"@, o)];
                match bindgen_output {
                    Some(b) => match crate::project_manifest::generated_path_result(b, "client.bindgen_output"@) {
                        Err(m) => Err(m),
                        Ok(c) => Ok(base.push(("client.bindgen_output"@, c))),
                    },
                    None => Ok(base),
                }
            },
        }
    }
}

/// Reads the generated paths of a project.
pub fn generated_outputs(output: &str, bindgen_output: Option<&str>) -> (r: Result<Vec<GeneratedPath>, String>)
    ensures
        match generated_outcome(
            output@,
            match bindgen_output {
                Some(b) => Some(b@),
                None => None,
            },
        ) {
            Ok(list) => r matches Ok(v) && v.len() == list.len() && forall|k: int|
                0 <= k < list.len() ==> (#[trigger] v@[k]).label@ == list[k].0 && v@[k].path@ == list[k].1,
            Err(m) => r matches Err(e) && e@ == m,
        },
{
    let state = match PortablePath::parse("target/.pliego") {
        Ok(p) => p,
        Err(e) => {
            let mut m = String::new();
            push_str(&mut m, "invalid reserved generated path: ");
            push_str(&mut m, e.message().as_str());
            return Err(m);
        },
    };
    let output = match crate::project_manifest::validate_generated_path(output, "project.output") {
        Ok(p) => p,
        Err(e) => {
            return Err(e);
        },
    };
    let mut out: Vec<GeneratedPath> = Vec::new();
    out.push(GeneratedPath { label: "build context".to_owned(), path: state });
    out.push(GeneratedPath { label: "project.output".to_owned(), path: output });
    match bindgen_output {
        Some(b) => {
            let client = match crate::project_manifest::validate_generated_path(b, "client.bindgen_output") {
                Ok(p) => p,
                Err(e) => {
                    return Err(e);
                },
            };
            out.push(GeneratedPath { label: "client.bindgen_output".to_owned(), path: client });
        },
        None => {},
    }
    Ok(out)
}

/// The refusal of a Cargo target directory that overlaps a generated path.
pub open spec fn target_overlap_message(target: Seq<char>, label: Seq<char>, path: Seq<char>) -> Seq<char> {
    "Cargo target directory "@ + target + " overlaps "@ + label + " "@ + path + "; choose disjoint directories"@
}

fn target_overlap_error(target: &str, generated: &GeneratedPath) -> (e: String)
    ensures
        e@ == target_overlap_message(target@, generated.label@, generated.path@.value),
{
    let mut m = String::new();
    push_str(&mut m, "Cargo target directory ");
    push_str(&mut m, target);
    push_str(&mut m, " overlaps ");
    push_str(&mut m, generated.label.as_str());
    push_str(&mut m, " ");
    push_str(&mut m, generated.path.as_str());
    push_str(&mut m, "; choose disjoint directories");
    m
}

/// Whether the target directory, relative to the project root, is `target`.
pub fn is_default_target(project_relative: &Option<PortablePath>) -> (b: bool)
    ensures
        b == (project_relative matches Some(p) && p@.value == "target"@),
{
    match project_relative {
        Some(p) => str_eq(p.as_str(), "target"),
        None => false,
    }
}

/// Refuses a generated path that the target directory, relative to the
/// project root, contains or lies in (`target` is how it is shown).
pub fn check_relative_target_overlap(target: &str, project_relative: &Option<PortablePath>, generated: &GeneratedPath)
    -> (r: Result<(), String>)
    ensures
        match project_relative {
            Some(p) => if crate::project_manifest::portable_prefix(p@.key, generated.path@.key)
                || crate::project_manifest::portable_prefix(generated.path@.key, p@.key) {
                r matches Err(e) && e@ == target_overlap_message(target@, generated.label@, generated.path@.value)
            } else {
                r is Ok
            },
            None => r is Ok,
        },
{
    match project_relative {
        Some(p) => {
            if crate::project_manifest::generated_paths_overlap(p, &generated.path) {
                return Err(target_overlap_error(target, generated));
            }
            Ok(())
        },
        None => Ok(()),
    }
}

/// Refuses a generated path whose canonical root and the canonical target
/// directory contain one another.
pub fn check_absolute_target_overlap(target: &str, canonical_target: &str, generated: &GeneratedPath, generated_root: &str)
    -> (r: Result<(), String>)
    ensures
        (crate::invocation::path_starts_with(canonical_target@, generated_root@) || crate::invocation::path_starts_with(
            generated_root@,
            canonical_target@,
        )) ==> (r matches Err(e) && e@ == target_overlap_message(target@, generated.label@, generated.path@.value)),
        !(crate::invocation::path_starts_with(canonical_target@, generated_root@) || crate::invocation::path_starts_with(
            generated_root@,
            canonical_target@,
        )) ==> r is Ok,
{
    let a = path_components(canonical_target);
    let b = path_components(generated_root);
    if crate::cli::components_start_with(&a, &b) || crate::cli::components_start_with(&b, &a) {
        return Err(target_overlap_error(target, generated));
    }
    Ok(())
}

/// Refuses a Cargo target directory that is not absolute, or whose names
/// are not portable in their canonical spelling.
pub fn check_target_directory(target: &str) -> (r: Result<PortablePath, String>)
    ensures
        !(target@.len() > 0 && target@[0] == '/') ==> (r matches Err(e) && e@
            == "Cargo metadata target_directory must be absolute: "@ + target@),
        (target@.len() > 0 && target@[0] == '/') ==> match relative_outcome(target@, "Cargo target directory"@) {
            Ok(m) => r matches Ok(p) && p@ == m,
            Err(m) => r matches Err(e) && e@ == m,
        },
{
    let chars = chars_of(target);
    if !(chars.len() > 0 && chars[0] == '/') {
        let mut m = String::new();
        push_str(&mut m, "Cargo metadata target_directory must be absolute: ");
        push_str(&mut m, target);
        return Err(m);
    }
    portable_relative_path(target, "Cargo target directory")
}

/// The environment variables of `names` that must not reach a
/// reproducible build.
pub open spec fn forbidden_names(names: Seq<String>) -> Set<Seq<char>> {
    Set::new(|x: Seq<char>| exists|k: int| 0 <= k < names.len() && names[k]@ == x && forbidden_environment(x))
}

/// Refuses an environment that sets build overrides, naming each once, in
/// order (`names` are the environment's variable names that are text).
pub fn check_build_environment(names: &Vec<String>) -> (r: Result<(), String>)
    ensures
        forbidden_names(names@).is_empty() ==> r is Ok,
        !forbidden_names(names@).is_empty() ==> (r matches Err(e) && exists|v: Seq<String>|
            #[trigger] crate::rebuild::lists(v, forbidden_names(names@)) && e@
                == "reproducible PliegoRS commands reject build overrides from the environment: "@
                + crate::rebuild::join_commas(crate::raster::string_views(v))
                + "; move intentional settings into committed .cargo/config.toml"@),
{
    let mut set: TextMap<()> = TextMap::new();
    let mut k: usize = 0;
    while k < names.len()
        invariant
            k <= names.len(),
            set.wf(),
            set@.dom() == Set::new(
                |x: Seq<char>| exists|j: int| 0 <= j < k && names@[j]@ == x && forbidden_environment(x),
            ),
        decreases names.len() - k,
    {
        if forbidden_build_environment_name(names[k].as_str()) {
            crate::rebuild::set_add(&mut set, names[k].as_str());
        }
        proof {
            assert(set@.dom() =~= Set::new(
                |x: Seq<char>| exists|j: int| 0 <= j < k + 1 && names@[j]@ == x && forbidden_environment(x),
            ));
        }
        k = k + 1;
    }
    proof {
        assert(set@.dom() =~= forbidden_names(names@));
    }
    let listed = crate::rebuild::set_list(&set);
    if listed.len() == 0 {
        proof {
            if !forbidden_names(names@).is_empty() {
                let x = forbidden_names(names@).choose();
                assert(forbidden_names(names@).contains(x));
            }
            assert(forbidden_names(names@) =~= Set::empty());
        }
        return Ok(());
    }
    proof {
        assert(forbidden_names(names@).contains(listed@[0]@));
    }
    let mut m = String::new();
    push_str(&mut m, "reproducible PliegoRS commands reject build overrides from the environment: ");
    push_str(&mut m, crate::rebuild::join_with_commas(&listed).as_str());
    push_str(&mut m, "; move intentional settings into committed .cargo/config.toml");
    proof {
        assert(crate::rebuild::lists(listed@, forbidden_names(names@)));
    }
    Err(m)
}

} // verus!
