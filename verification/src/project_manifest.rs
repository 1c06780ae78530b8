//! The `pliego.toml` project contract: identifiers and generated output paths.
use vstd::prelude::*;
use crate::text::{
    chars_of, concat2, concat3, split_on, split_chars, starts_with, utf8_len, utf8_len_of, is_white_space,
    white_space, is_ascii_lower, is_ascii_digit, is_ascii_alnum, ascii_lower, ascii_digit, ascii_alnum,
    compare_chars, TextOrder,
};
use crate::portable::{PortablePath, PathModel, path_ok, path_model, ArtifactError};
use crate::numtext::trim;

verus! {

broadcast use vstd::string::group_string_axioms;

/// The project table.
#[derive(Clone, Debug)]
pub struct Project {
    pub id: String,
    pub name: String,
    pub site_package: String,
    pub output: String,
}

/// The optional client table.
#[derive(Clone, Debug)]
pub struct Client {
    pub package: String,
    pub wasm_name: String,
    pub bindgen_output: String,
}

/// A parsed `pliego.toml`.
#[derive(Clone, Debug)]
pub struct ProjectManifest {
    pub project: Project,
    pub client: Option<Client>,
}

/// Every component is a normal name: not empty, no root, no `..`, no leading `.`.
pub open spec fn relative_path_ok(p: Seq<char>) -> bool {
    &&& p.len() > 0
    &&& p[0] != '/'
    &&& split_on(p, '/')[0] != "."@
    &&& forall|i: int| 0 <= i < split_on(p, '/').len() ==> #[trigger] split_on(p, '/')[i] != ".."@
}

fn text_eq(a: &[char], b: &str) -> (r: bool)
    ensures
        r == (a@ == b@),
{
    let bc = chars_of(b);
    match compare_chars(a, bc.as_slice()) {
        TextOrder::Equal => true,
        _ => false,
    }
}

/// Checks that a configured path is a non-empty relative path of normal components.
pub fn validate_relative_path(path: &str, field: &str) -> (r: Result<(), String>)
    ensures
        r is Ok <==> relative_path_ok(path@),
        r matches Err(e) ==> e@ == field@ + " must be a non-empty relative path"@,
{
    let chars = chars_of(path);
    if chars.len() == 0 || chars[0] == '/' {
        return Err(concat2(field, " must be a non-empty relative path"));
    }
    let pieces = split_chars(chars.as_slice(), '/');
    proof {
        crate::text::lemma_split_on_nonempty(path@, '/');
        assert(crate::text::char_views(pieces@)[0] == pieces@[0]@);
    }
    if text_eq(pieces[0].as_slice(), ".") {
        return Err(concat2(field, " must be a non-empty relative path"));
    }
    let mut i: usize = 0;
    while i < pieces.len()
        invariant
            i <= pieces.len(),
            crate::text::char_views(pieces@) == split_on(path@, '/'),
            forall|k: int| 0 <= k < i ==> #[trigger] split_on(path@, '/')[k] != ".."@,
        decreases pieces.len() - i,
    {
        proof {
            assert(crate::text::char_views(pieces@)[i as int] == pieces@[i as int]@);
        }
        if text_eq(pieces[i].as_slice(), "..") {
            return Err(concat2(field, " must be a non-empty relative path"));
        }
        i = i + 1;
    }
    Ok(())
}

/// The outcome of checking a generated output path.
pub open spec fn generated_path_result(p: Seq<char>, field: Seq<char>) -> Result<PathModel, Seq<char>> {
    if !relative_path_ok(p) {
        Err(field + " must be a non-empty relative path"@)
    } else if !path_ok(p) {
        Err(field + " must be a portable generated path: "@ + "non-portable artifact path: "@ + p)
    } else if path_model(p).value != p {
        Err(field + " must use canonical NFC spelling"@)
    } else if split_on(p, '/')[0] != "target"@ || split_on(p, '/').len() < 2 {
        Err(field + " must be a generated path below target/, for example target/site"@)
    } else {
        Ok(path_model(p))
    }
}

/// Checks a generated output path: relative, portable, canonical, below `target/`.
pub fn validate_generated_path(path: &str, field: &str) -> (r: Result<PortablePath, String>)
    ensures
        match generated_path_result(path@, field@) {
            Ok(m) => r matches Ok(p) && p@ == m,
            Err(m) => r matches Err(e) && e@ == m,
        },
{
    match validate_relative_path(path, field) {
        Ok(()) => {},
        Err(e) => {
            return Err(e);
        },
    }
    let portable = match PortablePath::parse(path) {
        Ok(p) => p,
        Err(e) => {
            let mut message = concat2(field, " must be a portable generated path: ");
            crate::text::push_str(&mut message, e.message().as_str());
            proof {
                assert(message@ =~= field@ + " must be a portable generated path: "@ + "non-portable artifact path: "@ + path@);
            }
            return Err(message);
        },
    };
    let spelled = chars_of(portable.as_str());
    if !text_eq(spelled.as_slice(), path) {
        return Err(concat2(field, " must use canonical NFC spelling"));
    }
    let chars = chars_of(path);
    let pieces = split_chars(chars.as_slice(), '/');
    proof {
        crate::text::lemma_split_on_nonempty(path@, '/');
        assert(crate::text::char_views(pieces@)[0] == pieces@[0]@);
    }
    if !text_eq(pieces[0].as_slice(), "target") || pieces.len() < 2 {
        return Err(concat2(field, " must be a generated path below target/, for example target/site"));
    }
    Ok(portable)
}

/// `path` equals `prefix` or continues it with a `/`.
pub open spec fn portable_prefix(prefix: Seq<char>, path: Seq<char>) -> bool {
    path == prefix || (starts_with(path, prefix) && path.len() > prefix.len() && path[prefix.len() as int] == '/')
}

fn portable_path_prefix(prefix: &str, path: &str) -> (r: bool)
    ensures
        r == portable_prefix(prefix@, path@),
{
    let a = chars_of(prefix);
    let b = chars_of(path);
    if text_eq(b.as_slice(), prefix) {
        return true;
    }
    crate::text::starts_with_chars(b.as_slice(), a.as_slice()) && b.len() > a.len() && b[a.len()] == '/'
}

/// Whether one generated path contains the other, compared by collision key.
pub fn generated_paths_overlap(left: &PortablePath, right: &PortablePath) -> (r: bool)
    ensures
        r == (portable_prefix(left@.key, right@.key) || portable_prefix(right@.key, left@.key)),
{
    portable_path_prefix(left.collision_key(), right.collision_key()) || portable_path_prefix(
        right.collision_key(),
        left.collision_key(),
    )
}

pub open spec fn is_blank(s: Seq<char>) -> bool {
    trim(s).len() == 0
}

fn blank(s: &str) -> (r: bool)
    ensures
        r == is_blank(s@),
{
    let chars = chars_of(s);
    let (a, b) = crate::numtext::trim_bounds(chars.as_slice());
    a == b
}

/// A project id: a lowercase ASCII letter, then at most 63 lowercase letters, digits or hyphens.
pub open spec fn project_id_ok(id: Seq<char>) -> bool {
    &&& utf8_len(id) <= 64
    &&& id.len() > 0
    &&& is_ascii_lower(id[0])
    &&& forall|i: int| 0 <= i < id.len() ==> is_ascii_lower(#[trigger] id[i]) || is_ascii_digit(id[i]) || id[i] == '-'
}

fn project_id_valid(id: &str) -> (r: bool)
    ensures
        r == project_id_ok(id@),
{
    let c = chars_of(id);
    if utf8_len_of(c.as_slice()) > 64 || c.len() == 0 || !ascii_lower(c[0]) {
        return false;
    }
    let mut i: usize = 0;
    while i < c.len()
        invariant
            i <= c.len(),
            c@ == id@,
            forall|k: int| 0 <= k < i ==> is_ascii_lower(#[trigger] c@[k]) || is_ascii_digit(c@[k]) || c@[k] == '-',
        decreases c.len() - i,
    {
        if !(ascii_lower(c[i]) || ascii_digit(c[i]) || c[i] == '-') {
            return false;
        }
        i = i + 1;
    }
    true
}

pub open spec fn wasm_name_ok(n: Seq<char>) -> bool {
    forall|i: int| 0 <= i < n.len() ==> is_ascii_alnum(#[trigger] n[i]) || n[i] == '_'
}

fn wasm_name_valid(name: &str) -> (r: bool)
    ensures
        r == wasm_name_ok(name@),
{
    let c = chars_of(name);
    let mut i: usize = 0;
    while i < c.len()
        invariant
            i <= c.len(),
            c@ == name@,
            forall|k: int| 0 <= k < i ==> is_ascii_alnum(#[trigger] c@[k]) || c@[k] == '_',
        decreases c.len() - i,
    {
        if !(ascii_alnum(c[i]) || c[i] == '_') {
            return false;
        }
        i = i + 1;
    }
    true
}

pub open spec fn overlaps(a: PathModel, b: PathModel) -> bool {
    portable_prefix(a.key, b.key) || portable_prefix(b.key, a.key)
}

/// The first problem of a manifest, in the order the checks run, if any.
pub open spec fn manifest_problem(m: ProjectManifest) -> Option<Seq<char>> {
    let p = m.project;
    if is_blank(p.name@) || is_blank(p.site_package@) {
        Some("project name and site_package cannot be empty"@)
    } else if !project_id_ok(p.id@) {
        Some(
            "project.id must start with a lowercase ASCII letter and contain at most 64 lowercase letters, digits, or hyphens"@,
        )
    } else {
        match generated_path_result(p.output@, "project.output"@) {
            Err(e) => Some(e),
            Ok(output) => if !path_ok("target/.pliego"@) {
                Some("invalid reserved generated path: "@ + "non-portable artifact path: "@ + "target/.pliego"@)
            } else if overlaps(output, path_model("target/.pliego"@)) {
                Some("project.output cannot overlap reserved target/.pliego"@)
            } else {
                match m.client {
                    None => None,
                    Some(c) => if is_blank(c.package@) || is_blank(c.wasm_name@) {
                        Some("client package and wasm_name cannot be empty"@)
                    } else if !wasm_name_ok(c.wasm_name@) {
                        Some("client.wasm_name must be a Rust artifact identifier"@)
                    } else {
                        match generated_path_result(c.bindgen_output@, "client.bindgen_output"@) {
                            Err(e) => Some(e),
                            Ok(bindgen) => if overlaps(bindgen, path_model("target/.pliego"@)) {
                                Some("client.bindgen_output cannot overlap reserved target/.pliego"@)
                            } else if overlaps(output, bindgen) {
                                Some("project.output and client.bindgen_output must be disjoint generated paths"@)
                            } else {
                                None
                            },
                        }
                    },
                }
            },
        }
    }
}

/// Checks a parsed manifest against the project contract.
pub fn validate_manifest(manifest: &ProjectManifest) -> (r: Result<(), String>)
    ensures
        match manifest_problem(*manifest) {
            None => r is Ok,
            Some(m) => r matches Err(e) && e@ == m,
        },
{
    let project = &manifest.project;
    if blank(project.name.as_str()) || blank(project.site_package.as_str()) {
        return Err("project name and site_package cannot be empty".to_owned());
    }
    if !project_id_valid(project.id.as_str()) {
        return Err(
            "project.id must start with a lowercase ASCII letter and contain at most 64 lowercase letters, digits, or hyphens".to_owned(),
        );
    }
    let output = match validate_generated_path(project.output.as_str(), "project.output") {
        Ok(p) => p,
        Err(e) => {
            return Err(e);
        },
    };
    let reserved = match PortablePath::parse("target/.pliego") {
        Ok(p) => p,
        Err(e) => {
            let mut message = "invalid reserved generated path: ".to_owned();
            crate::text::push_str(&mut message, e.message().as_str());
            proof {
                assert(message@ =~= "invalid reserved generated path: "@ + "non-portable artifact path: "@ + "target/.pliego"@);
            }
            return Err(message);
        },
    };
    if generated_paths_overlap(&output, &reserved) {
        return Err("project.output cannot overlap reserved target/.pliego".to_owned());
    }
    match &manifest.client {
        None => Ok(()),
        Some(client) => {
            if blank(client.package.as_str()) || blank(client.wasm_name.as_str()) {
                return Err("client package and wasm_name cannot be empty".to_owned());
            }
            if !wasm_name_valid(client.wasm_name.as_str()) {
                return Err("client.wasm_name must be a Rust artifact identifier".to_owned());
            }
            let bindgen = match validate_generated_path(client.bindgen_output.as_str(), "client.bindgen_output") {
                Ok(p) => p,
                Err(e) => {
                    return Err(e);
                },
            };
            if generated_paths_overlap(&bindgen, &reserved) {
                return Err("client.bindgen_output cannot overlap reserved target/.pliego".to_owned());
            }
            if generated_paths_overlap(&output, &bindgen) {
                return Err("project.output and client.bindgen_output must be disjoint generated paths".to_owned());
            }
            Ok(())
        },
    }
}

} // verus!
