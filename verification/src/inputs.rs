//! Which project paths a build reads: reserved directories, exclusions, and
//! files that look like secrets and must never be hashed into a receipt.
use vstd::prelude::*;
use crate::portable::{case_key, portable_case_key, split_on_slash, split_slash, ArtifactError};
use crate::text::{
    chars_of, debug_quoted, debug_text, ends_with, ends_with_chars, push_str, starts_with, starts_with_chars,
    str_eq, string_from_chars,
};

verus! {

broadcast use vstd::string::group_string_axioms;

/// A directory name that is never read as build input.
pub open spec fn reserved_root(name: Seq<char>) -> bool {
    name == ".git"@ || name == "target"@ || name == "node_modules"@
}

/// Whether a project path lies in a reserved directory or under one of the
/// excluded paths.
pub open spec fn ignored_path(path: Seq<char>, excluded: Seq<String>) -> bool {
    reserved_root(split_slash(path)[0]) || exists|i: int|
        0 <= i < excluded.len() && (path == #[trigger] excluded[i]@ || starts_with(path, excluded[i]@ + "/"@))
}

/// Whether a project path is skipped when sources are collected.
pub fn ignored_project_path(path: &str, excluded: &Vec<String>) -> (b: bool)
    ensures
        b == ignored_path(path@, excluded@),
{
    let chars = chars_of(path);
    let parts = split_on_slash(chars.as_slice());
    proof {
        crate::portable::lemma_split_nonempty(path@);
        assert(parts@[0]@ == split_slash(path@)[0]);
    }
    let first = string_from_chars(parts[0].as_slice());
    if str_eq(first.as_str(), ".git") || str_eq(first.as_str(), "target") || str_eq(first.as_str(), "node_modules") {
        return true;
    }
    let mut i: usize = 0;
    while i < excluded.len()
        invariant
            chars@ == path@,
            i <= excluded.len(),
            forall|k: int|
                0 <= k < i ==> !(path@ == #[trigger] excluded@[k]@ || starts_with(path@, excluded@[k]@ + "/"@)),
        decreases excluded.len() - i,
    {
        let e = excluded[i].as_str();
        let mut under = String::new();
        push_str(&mut under, e);
        push_str(&mut under, "/");
        let prefix = chars_of(under.as_str());
        if str_eq(path, e) || starts_with_chars(chars.as_slice(), prefix.as_slice()) {
            proof {
                assert(path@ == excluded@[i as int]@ || starts_with(path@, excluded@[i as int]@ + "/"@));
            }
            return true;
        }
        i = i + 1;
    }
    false
}

/// Whether a root entry named `name` spells a reserved directory in another
/// case or Unicode form.
pub open spec fn reserved_alias(name: Seq<char>) -> bool {
    !reserved_root(name) && (case_key(name) == case_key(".git"@) || case_key(name) == case_key("target"@)
        || case_key(name) == case_key("node_modules"@))
}

/// Refuses a root entry that aliases a reserved directory.
pub fn reject_reserved_root_alias(name: &str) -> (r: Result<(), ArtifactError>)
    ensures
        r is Ok <==> !reserved_alias(name@),
        r matches Err(e) ==> e matches ArtifactError::InvalidPath(m) && m@ == "root input "@ + debug_text(name@)
            + " aliases reserved directory spelling"@,
{
    if str_eq(name, ".git") || str_eq(name, "target") || str_eq(name, "node_modules") {
        return Ok(());
    }
    let key = portable_case_key(chars_of(name).as_slice());
    let git = portable_case_key(chars_of(".git").as_slice());
    let target = portable_case_key(chars_of("target").as_slice());
    let modules = portable_case_key(chars_of("node_modules").as_slice());
    let key_text = string_from_chars(key.as_slice());
    if str_eq(key_text.as_str(), string_from_chars(git.as_slice()).as_str()) || str_eq(
        key_text.as_str(),
        string_from_chars(target.as_slice()).as_str(),
    ) || str_eq(key_text.as_str(), string_from_chars(modules.as_slice()).as_str()) {
        let mut m = String::new();
        push_str(&mut m, "root input ");
        push_str(&mut m, debug_quoted(name).as_str());
        push_str(&mut m, " aliases reserved directory spelling");
        proof {
            assert(m@ =~= "root input "@ + debug_text(name@) + " aliases reserved directory spelling"@);
        }
        return Err(ArtifactError::InvalidPath(m));
    }
    Ok(())
}

/// A file name whose folded spelling names a credential or a key.
pub open spec fn sensitive_name(folded: Seq<char>) -> bool {
    let dotenv = folded == ".env"@ || (starts_with(folded, ".env."@) && !(folded == ".env.example"@ || folded
        == ".env.sample"@ || folded == ".env.template"@));
    ||| dotenv
    ||| folded == ".npmrc"@
    ||| folded == ".netrc"@
    ||| folded == ".pypirc"@
    ||| folded == ".git-credentials"@
    ||| folded == "credentials"@
    ||| folded == "credentials.json"@
    ||| folded == "credentials.toml"@
    ||| folded == "credentials.yaml"@
    ||| folded == "credentials.yml"@
    ||| folded == "id_rsa"@
    ||| folded == "id_ed25519"@
    ||| folded == "id_ecdsa"@
    ||| folded == "id_dsa"@
    ||| ends_with(folded, ".key"@)
    ||| ends_with(folded, ".pem"@)
    ||| ends_with(folded, ".p12"@)
    ||| ends_with(folded, ".pfx"@)
}

/// Whether the last component of a path looks like a secret.
pub open spec fn sensitive_path(path: Seq<char>) -> bool {
    sensitive_name(case_key(split_slash(path).last()))
}

fn is_one_of(s: &str, names: &Vec<&str>) -> (b: bool)
    ensures
        b == exists|i: int| 0 <= i < names.len() && s@ == (#[trigger] names@[i])@,
{
    let mut i: usize = 0;
    while i < names.len()
        invariant
            i <= names.len(),
            forall|k: int| 0 <= k < i ==> s@ != (#[trigger] names@[k])@,
        decreases names.len() - i,
    {
        if str_eq(s, names[i]) {
            return true;
        }
        i = i + 1;
    }
    false
}

/// Refuses an input path whose file name looks like a secret.
pub fn reject_sensitive_input_path(path: &str) -> (r: Result<(), ArtifactError>)
    ensures
        r is Ok <==> !sensitive_path(path@),
        r matches Err(e) ==> e matches ArtifactError::InvalidPath(m) && m@
            == "refusing to publish path and hash evidence for sensitive-looking input "@ + debug_text(path@)
            + "; keep runtime secrets outside build input roots"@,
{
    let parts = split_on_slash(chars_of(path).as_slice());
    proof {
        crate::portable::lemma_split_nonempty(path@);
    }
    let name = &parts[parts.len() - 1];
    assert(name@ == split_slash(path@).last());
    let folded_chars = portable_case_key(name.as_slice());
    let folded = string_from_chars(folded_chars.as_slice());
    let f = folded.as_str();
    let dotenv = str_eq(f, ".env") || (starts_with_chars(folded_chars.as_slice(), chars_of(".env.").as_slice())
        && !(str_eq(f, ".env.example") || str_eq(f, ".env.sample") || str_eq(f, ".env.template")));
    let names = vec![
        ".npmrc",
        ".netrc",
        ".pypirc",
        ".git-credentials",
        "credentials",
        "credentials.json",
        "credentials.toml",
        "credentials.yaml",
        "credentials.yml",
        "id_rsa",
        "id_ed25519",
        "id_ecdsa",
        "id_dsa",
    ];
    let named = is_one_of(f, &names);
    let fc = folded_chars.as_slice();
    let keyed = ends_with_chars(fc, chars_of(".key").as_slice()) || ends_with_chars(fc, chars_of(".pem").as_slice())
        || ends_with_chars(fc, chars_of(".p12").as_slice()) || ends_with_chars(fc, chars_of(".pfx").as_slice());
    proof {
        if named {
            let i = choose|i: int| 0 <= i < names.len() && f@ == (#[trigger] names@[i])@;
            assert(sensitive_name(f@));
        }
        if sensitive_name(f@) && !dotenv && !keyed {
            if f@ == ".npmrc"@ {
                assert(f@ == names@[0]@);
            } else if f@ == ".netrc"@ {
                assert(f@ == names@[1]@);
            } else if f@ == ".pypirc"@ {
                assert(f@ == names@[2]@);
            } else if f@ == ".git-credentials"@ {
                assert(f@ == names@[3]@);
            } else if f@ == "credentials"@ {
                assert(f@ == names@[4]@);
            } else if f@ == "credentials.json"@ {
                assert(f@ == names@[5]@);
            } else if f@ == "credentials.toml"@ {
                assert(f@ == names@[6]@);
            } else if f@ == "credentials.yaml"@ {
                assert(f@ == names@[7]@);
            } else if f@ == "credentials.yml"@ {
                assert(f@ == names@[8]@);
            } else if f@ == "id_rsa"@ {
                assert(f@ == names@[9]@);
            } else if f@ == "id_ed25519"@ {
                assert(f@ == names@[10]@);
            } else if f@ == "id_ecdsa"@ {
                assert(f@ == names@[11]@);
            } else {
                assert(f@ == names@[12]@);
            }
        }
    }
    if dotenv || named || keyed {
        let mut m = String::new();
        push_str(&mut m, "refusing to publish path and hash evidence for sensitive-looking input ");
        push_str(&mut m, debug_quoted(path).as_str());
        push_str(&mut m, "; keep runtime secrets outside build input roots");
        proof {
            assert(m@ =~= "refusing to publish path and hash evidence for sensitive-looking input "@ + debug_text(
                path@,
            ) + "; keep runtime secrets outside build input roots"@);
        }
        return Err(ArtifactError::InvalidPath(m));
    }
    Ok(())
}

} // verus!
