//! Portable artifact paths and the collision-free output namespace.
use vstd::prelude::*;
use unicode_casefold::UnicodeCaseFold;
use unicode_normalization::UnicodeNormalization;
use crate::text::{
    chars_of, string_from_chars, utf8_len, utf8_len_of, split_on, split_chars, char_views,
    lemma_split_on_nonempty,
};
use crate::textmap::TextMap;

verus! {

broadcast use vstd::string::group_string_axioms;

pub const MAX_NAMESPACE_COMPONENTS: usize = 262144;
pub const MAX_NAMESPACE_PREFIX_BYTES: usize = 16 * 1024 * 1024;
pub const MAX_PORTABLE_PATH_BYTES: usize = 4096;
pub const MAX_COMPONENT_BYTES: usize = 255;
pub const MAX_PATH_COMPONENTS: usize = 128;

/// Unicode canonical composition (NFC) of a character sequence.
pub uninterp spec fn nfc(s: Seq<char>) -> Seq<char>;

/// Unicode compatibility composition (NFKC) of a character sequence.
pub uninterp spec fn nfkc(s: Seq<char>) -> Seq<char>;

/// Full, non-Turkic Unicode case folding of a character sequence.
pub uninterp spec fn case_fold(s: Seq<char>) -> Seq<char>;

/// `UnicodeNormalization::nfc` of `unicode_normalization`, collected into a
/// string. Claimed: the result is a function of the input characters alone.
#[verifier::external_body]
fn to_nfc(s: &str) -> (r: String)
    ensures
        r@ == nfc(s@),
{
    s.nfc().collect()
}

/// `UnicodeNormalization::nfkc` of `unicode_normalization`, collected into a
/// string. Claimed: the result is a function of the input characters alone.
#[verifier::external_body]
fn to_nfkc(s: &str) -> (r: String)
    ensures
        r@ == nfkc(s@),
{
    s.nfkc().collect()
}

/// `UnicodeCaseFold::case_fold` of `unicode_casefold`, collected into a string.
/// Claimed: the result is a function of the input characters alone.
#[verifier::external_body]
fn fold_case(s: &str) -> (r: String)
    ensures
        r@ == case_fold(s@),
{
    s.case_fold().collect()
}

/// The key under which two spellings of a component collide: NFKC, case fold, NFKC.
pub open spec fn case_key(s: Seq<char>) -> Seq<char> {
    nfkc(case_fold(nfkc(s)))
}

/// Computes the collision key of a component.
pub fn portable_case_key(value: &[char]) -> (key: Vec<char>)
    ensures
        key@ == case_key(value@),
{
    let text = string_from_chars(value);
    let first = to_nfkc(text.as_str());
    let folded = fold_case(first.as_str());
    let last = to_nfkc(folded.as_str());
    chars_of(last.as_str())
}

/// The pieces of `s` between slashes, as `str::split('/')` yields them.
pub open spec fn split_slash(s: Seq<char>) -> Seq<Seq<char>> {
    split_on(s, '/')
}

pub proof fn lemma_split_nonempty(s: Seq<char>)
    ensures
        split_slash(s).len() >= 1,
{
    lemma_split_on_nonempty(s, '/');
}

/// The pieces joined with single slashes.
pub open spec fn join_slash(parts: Seq<Seq<char>>) -> Seq<char>
    decreases parts.len(),
{
    if parts.len() == 0 {
        Seq::empty()
    } else if parts.len() == 1 {
        parts[0]
    } else {
        join_slash(parts.drop_last()) + seq!['/'] + parts.last()
    }
}

/// Splits a character sequence at every slash.
pub fn split_on_slash(s: &[char]) -> (parts: Vec<Vec<char>>)
    ensures
        char_views(parts@) == split_slash(s@),
{
    split_chars(s, '/')
}

/// Control characters in the sense of `char::is_control`: general category Cc.
pub open spec fn is_control_char(c: char) -> bool {
    (c as u32) <= 0x1f || (0x7f <= (c as u32) && (c as u32) <= 0x9f)
}

/// Characters that some file systems refuse in a name.
pub open spec fn is_forbidden_char(c: char) -> bool {
    c == '\0' || c == '<' || c == '>' || c == ':' || c == '"' || c == '|' || c == '?' || c == '*'
}

/// Device names that Windows reserves regardless of extension.
pub open spec fn is_reserved_key(k: Seq<char>) -> bool {
    ||| k == seq!['c', 'o', 'n']
    ||| k == seq!['p', 'r', 'n']
    ||| k == seq!['a', 'u', 'x']
    ||| k == seq!['n', 'u', 'l']
    ||| (k.len() == 4 && (k.take(3) == seq!['c', 'o', 'm'] || k.take(3) == seq!['l', 'p', 't'])
        && ('1' as u32) <= (k[3] as u32) && (k[3] as u32) <= ('9' as u32))
}

/// `n` is where the stem of `c` (the part before the first dot) ends.
pub open spec fn is_stem_end(c: Seq<char>, n: int) -> bool {
    &&& 0 <= n <= c.len()
    &&& forall|k: int| 0 <= k < n ==> c[k] != '.'
    &&& (n == c.len() || c[n] == '.')
}

/// A component with no alias, traversal or unportable character.
pub open spec fn component_shape_ok(c: Seq<char>) -> bool {
    &&& c.len() > 0
    &&& c != seq!['.']
    &&& c != seq!['.', '.']
    &&& utf8_len(c) <= MAX_COMPONENT_BYTES
    &&& c.last() != '.'
    &&& c.last() != ' '
    &&& forall|k: int| 0 <= k < c.len() ==> !is_control_char(c[k]) && !is_forbidden_char(c[k])
}

/// A portable path component: well shaped, and its stem names no reserved device.
pub open spec fn component_ok(c: Seq<char>) -> bool {
    &&& component_shape_ok(c)
    &&& forall|n: int| is_stem_end(c, n) ==> !is_reserved_key(#[trigger] case_key(c.take(n)))
}

/// Whether a raw path string is accepted by [`PortablePath::parse`].
pub open spec fn path_ok(v: Seq<char>) -> bool {
    &&& v.len() > 0
    &&& utf8_len(v) <= MAX_PORTABLE_PATH_BYTES
    &&& v[0] != '/'
    &&& v.last() != '/'
    &&& !v.contains('\\')
    &&& utf8_len(nfc(v)) <= MAX_PORTABLE_PATH_BYTES
    &&& split_slash(nfc(v)).len() <= MAX_PATH_COMPONENTS
    &&& forall|i: int| 0 <= i < split_slash(nfc(v)).len() ==> component_ok(#[trigger] split_slash(nfc(v))[i])
}

/// The abstract content of a portable path.
pub struct PathModel {
    pub value: Seq<char>,
    pub key: Seq<char>,
    pub components: Seq<Seq<char>>,
    pub keys: Seq<Seq<char>>,
}

/// The model of the portable path parsed from `v`.
pub open spec fn path_model(v: Seq<char>) -> PathModel {
    let components = split_slash(nfc(v));
    let keys = components.map_values(|c: Seq<char>| case_key(c));
    PathModel { value: nfc(v), key: join_slash(keys), components, keys }
}

/// Whether `c` occurs in `s`.
pub fn contains_char(s: &[char], c: char) -> (b: bool)
    ensures
        b == s@.contains(c),
{
    let mut i: usize = 0;
    while i < s.len()
        invariant
            i <= s.len(),
            forall|k: int| 0 <= k < i ==> s@[k] != c,
        decreases s.len() - i,
    {
        if s[i] == c {
            return true;
        }
        i = i + 1;
    }
    false
}

/// Appends the characters of `src` to `dst`.
pub fn append_chars(dst: &mut Vec<char>, src: &[char])
    ensures
        final(dst)@ == old(dst)@ + src@,
{
    let mut i: usize = 0;
    while i < src.len()
        invariant
            i <= src.len(),
            dst@ == old(dst)@ + src@.take(i as int),
        decreases src.len() - i,
    {
        dst.push(src[i]);
        i = i + 1;
        proof {
            assert(old(dst)@ + src@.take(i as int) =~= (old(dst)@ + src@.take(i - 1)).push(src@[i - 1]));
        }
    }
    proof {
        assert(src@.take(src.len() as int) == src@);
    }
}

/// The first `n` characters of `s`, as a vector.
pub fn prefix_chars(s: &[char], n: usize) -> (out: Vec<char>)
    requires
        n <= s.len(),
    ensures
        out@ == s@.take(n as int),
{
    let mut out: Vec<char> = Vec::new();
    let mut i: usize = 0;
    while i < n
        invariant
            i <= n <= s.len(),
            out@ == s@.take(i as int),
        decreases n - i,
    {
        out.push(s[i]);
        i = i + 1;
        proof {
            assert(s@.take(i as int) =~= s@.take(i - 1).push(s@[i - 1]));
        }
    }
    out
}

/// Joins the pieces with single slashes.
pub fn join_chars(parts: &Vec<Vec<char>>) -> (out: Vec<char>)
    ensures
        out@ == join_slash(char_views(parts@)),
{
    let mut out: Vec<char> = Vec::new();
    let mut i: usize = 0;
    while i < parts.len()
        invariant
            i <= parts.len(),
            out@ == join_slash(char_views(parts@).take(i as int)),
        decreases parts.len() - i,
    {
        let ghost before = out@;
        if i > 0 {
            out.push('/');
        }
        append_chars(&mut out, parts[i].as_slice());
        i = i + 1;
        proof {
            let t = char_views(parts@).take(i as int);
            assert(t.drop_last() =~= char_views(parts@).take(i - 1));
            if i == 1 {
                assert(before =~= Seq::<char>::empty());
                assert(out@ =~= t[0]);
            } else {
                assert(out@ =~= before + seq!['/'] + t.last());
            }
        }
    }
    proof {
        assert(char_views(parts@).take(parts.len() as int) =~= char_views(parts@));
    }
    out
}

/// Whether a collision key names a reserved device.
pub fn reserved_key(k: &[char]) -> (b: bool)
    ensures
        b == is_reserved_key(k@),
{
    if k.len() == 3 {
        proof {
            assert(k@ =~= seq![k@[0], k@[1], k@[2]]);
        }
        (k[0] == 'c' && k[1] == 'o' && k[2] == 'n') || (k[0] == 'p' && k[1] == 'r' && k[2] == 'n')
            || (k[0] == 'a' && k[1] == 'u' && k[2] == 'x') || (k[0] == 'n' && k[1] == 'u' && k[2]
            == 'l')
    } else if k.len() == 4 {
        proof {
            assert(k@.take(3) =~= seq![k@[0], k@[1], k@[2]]);
        }
        let digit = k[3] as u32;
        ((k[0] == 'c' && k[1] == 'o' && k[2] == 'm') || (k[0] == 'l' && k[1] == 'p' && k[2] == 't'))
            && 0x31 <= digit && digit <= 0x39
    } else {
        false
    }
}

fn invalid_path(value: &str) -> (e: ArtifactError)
    ensures
        e matches ArtifactError::InvalidPath(p) && p@ == value@,
{
    ArtifactError::InvalidPath(value.to_owned())
}

/// Checks one path component; errors name the full path.
pub fn validate_component(component: &[char], full_path: &str) -> (r: Result<(), ArtifactError>)
    ensures
        r is Ok <==> component_ok(component@),
        r matches Err(e) ==> e matches ArtifactError::InvalidPath(p) && p@ == full_path@,
{
    let n = component.len();
    if n == 0 {
        return Err(invalid_path(full_path));
    }
    if (n == 1 && component[0] == '.') || (n == 2 && component[0] == '.' && component[1] == '.')
        || utf8_len_of(component) > MAX_COMPONENT_BYTES || component[n - 1] == '.' || component[n
        - 1] == ' ' {
        proof {
            if n == 1 && component[0] == '.' {
                assert(component@ =~= seq!['.']);
            }
            if n == 2 && component[0] == '.' && component[1] == '.' {
                assert(component@ =~= seq!['.', '.']);
            }
        }
        return Err(invalid_path(full_path));
    }
    let mut i: usize = 0;
    while i < n
        invariant
            n == component.len(),
            i <= n,
            forall|k: int| 0 <= k < i ==> !is_control_char(component@[k]) && !is_forbidden_char(component@[k]),
        decreases n - i,
    {
        let c = component[i];
        let v = c as u32;
        if v <= 0x1f || (0x7f <= v && v <= 0x9f) || c == '\0' || c == '<' || c == '>' || c == ':'
            || c == '"' || c == '|' || c == '?' || c == '*' {
            return Err(invalid_path(full_path));
        }
        i = i + 1;
    }
    let mut stem_end: usize = 0;
    while stem_end < n && component[stem_end] != '.'
        invariant
            n == component.len(),
            stem_end <= n,
            forall|k: int| 0 <= k < stem_end ==> component@[k] != '.',
        decreases n - stem_end,
    {
        stem_end = stem_end + 1;
    }
    let stem = prefix_chars(component, stem_end);
    let key = portable_case_key(stem.as_slice());
    proof {
        assert(is_stem_end(component@, stem_end as int));
        assert forall|m: int| is_stem_end(component@, m) implies m == stem_end by {
            if m < stem_end {
                assert(component@[m] != '.');
            } else if m > stem_end {
                assert(component@[stem_end as int] != '.');
            }
        }
    }
    if reserved_key(key.as_slice()) {
        return Err(invalid_path(full_path));
    }
    Ok(())
}

/// A relative path whose every component is portable, kept with its NFC
/// spelling and the key under which aliases collide.
#[derive(Debug)]
pub struct PortablePath {
    value: String,
    collision_key: String,
    components: Vec<Vec<char>>,
    component_keys: Vec<Vec<char>>,
    key_chars: Vec<char>,
}

impl View for PortablePath {
    type V = PathModel;

    closed spec fn view(&self) -> PathModel {
        PathModel {
            value: self.value@,
            key: self.collision_key@,
            components: char_views(self.components@),
            keys: char_views(self.component_keys@),
        }
    }
}

impl PortablePath {
    #[verifier::type_invariant]
    closed spec fn inv(self) -> bool {
        &&& self.components.len() == self.component_keys.len()
        &&& self.components.len() >= 1
        &&& char_views(self.components@) == split_slash(self.value@)
        &&& char_views(self.component_keys@) == char_views(self.components@).map_values(
            |c: Seq<char>| case_key(c),
        )
        &&& self.key_chars@ == join_slash(char_views(self.component_keys@))
        &&& self.collision_key@ == self.key_chars@
    }

    /// Parses and normalizes a relative artifact path.
    pub fn parse(value: &str) -> (r: Result<PortablePath, ArtifactError>)
        ensures
            r is Ok <==> path_ok(value@),
            r matches Ok(p) ==> p@ == path_model(value@),
            r matches Err(e) ==> e matches ArtifactError::InvalidPath(s) && s@ == value@,
    {
        let chars = chars_of(value);
        let n = chars.len();
        if n == 0 {
            return Err(invalid_path(value));
        }
        if utf8_len_of(chars.as_slice()) > MAX_PORTABLE_PATH_BYTES || chars[0] == '/' || chars[n
            - 1] == '/' || contains_char(chars.as_slice(), '\\') {
            return Err(invalid_path(value));
        }
        let normalized = to_nfc(value);
        let norm_chars = chars_of(normalized.as_str());
        if utf8_len_of(norm_chars.as_slice()) > MAX_PORTABLE_PATH_BYTES {
            return Err(invalid_path(value));
        }
        let components = split_on_slash(norm_chars.as_slice());
        proof {
            lemma_split_nonempty(norm_chars@);
        }
        if components.len() > MAX_PATH_COMPONENTS {
            return Err(invalid_path(value));
        }
        let ghost comps = split_slash(nfc(value@));
        let mut keys: Vec<Vec<char>> = Vec::new();
        let mut i: usize = 0;
        while i < components.len()
            invariant
                comps == char_views(components@),
                comps == split_slash(nfc(value@)),
                i <= components.len(),
                keys.len() == i,
                forall|j: int| 0 <= j < i ==> #[trigger] keys@[j]@ == case_key(components@[j]@),
                forall|j: int| 0 <= j < i ==> component_ok(#[trigger] comps[j]),
            decreases components.len() - i,
        {
            match validate_component(components[i].as_slice(), value) {
                Ok(()) => {},
                Err(e) => {
                    proof {
                        assert(comps[i as int] == components@[i as int]@);
                        assert(!component_ok(comps[i as int]));
                        assert(comps.len() == components.len());
                        assert(!component_ok(split_slash(nfc(value@))[i as int]));
                        assert(!path_ok(value@));
                    }
                    return Err(e);
                },
            }
            keys.push(portable_case_key(components[i].as_slice()));
            i = i + 1;
        }
        let key_chars = join_chars(&keys);
        let collision_key = string_from_chars(key_chars.as_slice());
        proof {
            assert(char_views(keys@) =~= char_views(components@).map_values(
                |c: Seq<char>| case_key(c),
            ));
        }
        Ok(PortablePath { value: normalized, collision_key, components, component_keys: keys, key_chars })
    }

    /// The NFC spelling.
    pub fn as_str(&self) -> (s: &str)
        ensures
            s@ == self@.value,
    {
        self.value.as_str()
    }

    /// The key under which case and Unicode aliases collide.
    pub fn collision_key(&self) -> (s: &str)
        ensures
            s@ == self@.key,
    {
        self.collision_key.as_str()
    }
}

/// Errors of path parsing, namespaces and receipts.
#[derive(Debug)]
pub enum ArtifactError {
    InvalidPath(String),
    NamespaceCollision { path: String, existing: String, detail: &'static str },
    InvalidReceipt(String),
    Missing(String),
    Extra(String),
    Modified(String),
    Unstable(String),
}

/// The text an error displays.
pub open spec fn artifact_message(e: ArtifactError) -> Seq<char> {
    match e {
        ArtifactError::InvalidPath(p) => "non-portable artifact path: "@ + p@,
        ArtifactError::NamespaceCollision { path, existing, detail } => "artifact namespace collision between "@
            + crate::text::debug_text(path@) + " and "@ + crate::text::debug_text(existing@) + ": "@ + detail@,
        ArtifactError::InvalidReceipt(m) => "invalid artifact receipt: "@ + m@,
        ArtifactError::Missing(p) => "declared artifact is missing: "@ + p@,
        ArtifactError::Extra(p) => "undeclared artifact exists: "@ + p@,
        ArtifactError::Modified(p) => "artifact bytes do not match receipt: "@ + p@,
        ArtifactError::Unstable(p) => "artifact changed while hashing: "@ + p@,
    }
}

impl ArtifactError {
    /// The human-readable message of the error.
    pub fn message(&self) -> (s: String)
        ensures
            s@ == artifact_message(*self),
    {
        let mut out = String::new();
        match self {
            ArtifactError::InvalidPath(path) => {
                crate::text::push_str(&mut out, "non-portable artifact path: ");
                crate::text::push_str(&mut out, path.as_str());
            },
            ArtifactError::NamespaceCollision { path, existing, detail } => {
                crate::text::push_str(&mut out, "artifact namespace collision between ");
                crate::text::push_str(&mut out, crate::text::debug_quoted(path.as_str()).as_str());
                crate::text::push_str(&mut out, " and ");
                crate::text::push_str(&mut out, crate::text::debug_quoted(existing.as_str()).as_str());
                crate::text::push_str(&mut out, ": ");
                crate::text::push_str(&mut out, detail);
            },
            ArtifactError::InvalidReceipt(message) => {
                crate::text::push_str(&mut out, "invalid artifact receipt: ");
                crate::text::push_str(&mut out, message.as_str());
            },
            ArtifactError::Missing(path) => {
                crate::text::push_str(&mut out, "declared artifact is missing: ");
                crate::text::push_str(&mut out, path.as_str());
            },
            ArtifactError::Extra(path) => {
                crate::text::push_str(&mut out, "undeclared artifact exists: ");
                crate::text::push_str(&mut out, path.as_str());
            },
            ArtifactError::Modified(path) => {
                crate::text::push_str(&mut out, "artifact bytes do not match receipt: ");
                crate::text::push_str(&mut out, path.as_str());
            },
            ArtifactError::Unstable(path) => {
                crate::text::push_str(&mut out, "artifact changed while hashing: ");
                crate::text::push_str(&mut out, path.as_str());
            },
        }
        proof {
            assert(out@ =~= artifact_message(*self));
        }
        out
    }
}

} // verus!

verus! {

/// The abstract content of an output namespace.
pub struct NamespaceModel {
    /// Collision key of each file, with its spelling and owner.
    pub files: Map<Seq<char>, (Seq<char>, Seq<char>)>,
    /// Collision key of each directory, with its spelling.
    pub directories: Map<Seq<char>, Seq<char>>,
    pub components: nat,
    pub prefix_bytes: nat,
}

/// How a walk over the directory prefixes of a path ends.
pub enum WalkEnd {
    Done,
    FileClash(Seq<char>),
    DirClash(Seq<char>),
    OverBudget,
}

/// The directories and byte count after walking the prefixes of a path.
pub struct Walk {
    pub directories: Map<Seq<char>, Seq<char>>,
    pub prefix_bytes: nat,
    pub end: WalkEnd,
}

/// Registers the directory prefixes `keys[..=i]`, `keys[..=i+1]`, ... of a path
/// (all but the last component), stopping at the first clash or overflow.
pub open spec fn dir_walk(
    files: Map<Seq<char>, (Seq<char>, Seq<char>)>,
    directories: Map<Seq<char>, Seq<char>>,
    prefix_bytes: nat,
    keys: Seq<Seq<char>>,
    spellings: Seq<Seq<char>>,
    i: nat,
) -> Walk
    decreases keys.len() - i,
{
    if i + 1 >= keys.len() {
        Walk { directories, prefix_bytes, end: WalkEnd::Done }
    } else {
        let kp = join_slash(keys.take(i + 1 as int));
        let sp = join_slash(spellings.take(i + 1 as int));
        if files.contains_key(kp) {
            Walk { directories, prefix_bytes, end: WalkEnd::FileClash(files[kp].0) }
        } else if directories.contains_key(kp) {
            if directories[kp] != sp {
                Walk { directories, prefix_bytes, end: WalkEnd::DirClash(directories[kp]) }
            } else {
                dir_walk(files, directories, prefix_bytes, keys, spellings, i + 1)
            }
        } else if prefix_bytes + utf8_len(kp) + utf8_len(sp) > MAX_NAMESPACE_PREFIX_BYTES {
            Walk { directories, prefix_bytes, end: WalkEnd::OverBudget }
        } else {
            dir_walk(
                files,
                directories.insert(kp, sp),
                prefix_bytes + utf8_len(kp) + utf8_len(sp),
                keys,
                spellings,
                i + 1,
            )
        }
    }
}

/// Which pair of entries collided.
pub enum CollisionKind {
    SamePath,
    FileAsDirectory,
    AmbiguousDirectory,
}

/// The outcome of inserting a path into a namespace.
pub enum InsertOutcome {
    Inserted,
    ComponentBudget,
    PrefixBudget,
    Collision { existing: Seq<char>, kind: CollisionKind },
}

/// The namespace and outcome after inserting path `p` owned by `owner` into `m`.
pub open spec fn insert_result(m: NamespaceModel, p: PathModel, owner: Seq<char>) -> (
    NamespaceModel,
    InsertOutcome,
) {
    let n = p.keys.len();
    if m.components + n > MAX_NAMESPACE_COMPONENTS {
        (m, InsertOutcome::ComponentBudget)
    } else if m.files.contains_key(p.key) {
        (m, InsertOutcome::Collision { existing: m.files[p.key].0, kind: CollisionKind::SamePath })
    } else {
        let w = dir_walk(m.files, m.directories, m.prefix_bytes, p.keys, p.components, 0);
        let walked = NamespaceModel {
            files: m.files,
            directories: w.directories,
            components: m.components,
            prefix_bytes: w.prefix_bytes,
        };
        match w.end {
            WalkEnd::FileClash(e) => (
                walked,
                InsertOutcome::Collision { existing: e, kind: CollisionKind::FileAsDirectory },
            ),
            WalkEnd::DirClash(e) => (
                walked,
                InsertOutcome::Collision { existing: e, kind: CollisionKind::AmbiguousDirectory },
            ),
            WalkEnd::OverBudget => (walked, InsertOutcome::PrefixBudget),
            WalkEnd::Done => if w.directories.contains_key(p.key) {
                (
                    walked,
                    InsertOutcome::Collision {
                        existing: w.directories[p.key],
                        kind: CollisionKind::FileAsDirectory,
                    },
                )
            } else {
                (
                    NamespaceModel {
                        files: m.files.insert(p.key, (p.value, owner)),
                        directories: w.directories,
                        components: m.components + n,
                        prefix_bytes: w.prefix_bytes,
                    },
                    InsertOutcome::Inserted,
                )
            },
        }
    }
}

pub open spec fn collision_text(kind: CollisionKind) -> Seq<char> {
    match kind {
        CollisionKind::SamePath => "two files resolve to the same portable path"@,
        CollisionKind::FileAsDirectory => "a file is also used as a directory"@,
        CollisionKind::AmbiguousDirectory => "a directory has ambiguous case or Unicode spelling"@,
    }
}

/// The error that reports outcome `o` of inserting a path spelled `value`.
pub open spec fn reports(e: ArtifactError, o: InsertOutcome, value: Seq<char>) -> bool {
    match o {
        InsertOutcome::Inserted => false,
        InsertOutcome::ComponentBudget => e matches ArtifactError::InvalidReceipt(m) && m@
            == "artifact namespace exceeds 262144 path components"@,
        InsertOutcome::PrefixBudget => e matches ArtifactError::InvalidReceipt(m) && m@
            == "artifact namespace exceeds 16777216 stored prefix bytes"@,
        InsertOutcome::Collision { existing, kind } => e matches ArtifactError::NamespaceCollision {
            path,
            existing: found,
            detail,
        } && path@ == value && found@ == existing && detail@ == collision_text(kind),
    }
}

pub open spec fn file_views(m: Map<Seq<char>, (String, String)>) -> Map<Seq<char>, (Seq<char>, Seq<char>)> {
    m.map_values(|v: (String, String)| (v.0@, v.1@))
}

pub open spec fn dir_views(m: Map<Seq<char>, String>) -> Map<Seq<char>, Seq<char>> {
    m.map_values(|v: String| v@)
}

/// Files and directories of an output tree, keyed so that no two entries
/// differ only by case or Unicode spelling.
pub struct OutputNamespace {
    files: TextMap<(String, String)>,
    directories: TextMap<String>,
    components: usize,
    prefix_bytes: usize,
}

impl View for OutputNamespace {
    type V = NamespaceModel;

    closed spec fn view(&self) -> NamespaceModel {
        NamespaceModel {
            files: file_views(self.files@),
            directories: dir_views(self.directories@),
            components: self.components as nat,
            prefix_bytes: self.prefix_bytes as nat,
        }
    }
}

impl OutputNamespace {
    pub closed spec fn wf(&self) -> bool {
        self.files.wf() && self.directories.wf()
    }

    pub fn new() -> (ns: OutputNamespace)
        ensures
            ns.wf(),
            ns@.files == Map::<Seq<char>, (Seq<char>, Seq<char>)>::empty(),
            ns@.directories == Map::<Seq<char>, Seq<char>>::empty(),
            ns@.components == 0,
            ns@.prefix_bytes == 0,
    {
        let ns = OutputNamespace {
            files: TextMap::new(),
            directories: TextMap::new(),
            components: 0,
            prefix_bytes: 0,
        };
        proof {
            assert(ns@.files =~= Map::<Seq<char>, (Seq<char>, Seq<char>)>::empty());
            assert(ns@.directories =~= Map::<Seq<char>, Seq<char>>::empty());
        }
        ns
    }

    /// Parses `path` and inserts it; the parsed path is returned.
    pub fn insert_str(&mut self, path: &str, owner: &str) -> (r: Result<PortablePath, ArtifactError>)
        requires
            old(self).wf(),
        ensures
            final(self).wf(),
            !path_ok(path@) ==> final(self)@ == old(self)@ && (r matches Err(e)
                && e matches ArtifactError::InvalidPath(s) && s@ == path@),
            path_ok(path@) ==> ({
                let (m, o) = insert_result(old(self)@, path_model(path@), owner@);
                &&& final(self)@ == m
                &&& match r {
                    Ok(p) => o is Inserted && p@ == path_model(path@),
                    Err(e) => reports(e, o, nfc(path@)),
                }
            }),
    {
        let parsed = PortablePath::parse(path)?;
        match self.insert(&parsed, owner) {
            Ok(()) => Ok(parsed),
            Err(e) => Err(e),
        }
    }

    /// The spelling of the file stored under a collision key, if any.
    pub fn file_spelling(&self, key: &str) -> (r: Option<String>)
        requires
            self.wf(),
        ensures
            match r {
                Some(s) => self@.files.contains_key(key@) && s@ == self@.files[key@].0,
                None => !self@.files.contains_key(key@),
            },
    {
        match self.files.get(chars_of(key).as_slice()) {
            Some(entry) => Some(entry.0.clone()),
            None => None,
        }
    }

    /// The spelling of the directory stored under a collision key, if any.
    pub fn directory_spelling(&self, key: &str) -> (r: Option<String>)
        requires
            self.wf(),
        ensures
            match r {
                Some(s) => self@.directories.contains_key(key@) && s@ == self@.directories[key@],
                None => !self@.directories.contains_key(key@),
            },
    {
        match self.directories.get(chars_of(key).as_slice()) {
            Some(entry) => Some(entry.clone()),
            None => None,
        }
    }

    /// Inserts a file path owned by `owner`, refusing every collision.
    pub fn insert(&mut self, path: &PortablePath, owner: &str) -> (r: Result<(), ArtifactError>)
        requires
            old(self).wf(),
        ensures
            final(self).wf(),
            ({
                let (m, o) = insert_result(old(self)@, path@, owner@);
                &&& final(self)@ == m
                &&& match r {
                    Ok(()) => o is Inserted,
                    Err(e) => reports(e, o, path@.value),
                }
            }),
    {
        proof {
            use_type_invariant(path);
        }
        let n = path.component_keys.len();
        let budget = self.components.checked_add(n);
        let component_budget = match budget {
            Some(total) => if total <= MAX_NAMESPACE_COMPONENTS {
                total
            } else {
                return Err(ArtifactError::InvalidReceipt(
                    "artifact namespace exceeds 262144 path components".to_owned(),
                ));
            },
            None => {
                return Err(ArtifactError::InvalidReceipt(
                    "artifact namespace exceeds 262144 path components".to_owned(),
                ));
            },
        };
        match self.files.get(path.key_chars.as_slice()) {
            Some(existing) => {
                return Err(ArtifactError::NamespaceCollision {
                    path: path.value.clone(),
                    existing: existing.0.clone(),
                    detail: "two files resolve to the same portable path",
                });
            },
            None => {},
        }
        let ghost keys = path@.keys;
        let ghost spells = path@.components;
        let ghost files0 = self@.files;
        let ghost full = dir_walk(files0, self@.directories, self@.prefix_bytes, keys, spells, 0);
        let mut key_prefix: Vec<char> = Vec::new();
        let mut spelling_prefix: Vec<char> = Vec::new();
        let mut i: usize = 0;
        while i + 1 < n
            invariant
                self.wf(),
                n == path.component_keys.len(),
                n == keys.len(),
                keys == char_views(path.component_keys@),
                spells == char_views(path.components@),
                spells.len() == n,
                self@.files == files0,
                self@.components == old(self)@.components,
                i < n,
                i == 0 ==> key_prefix@ == Seq::<char>::empty() && spelling_prefix@ == Seq::<char>::empty(),
                i > 0 ==> key_prefix@ == join_slash(keys.take(i as int)) && spelling_prefix@
                    == join_slash(spells.take(i as int)),
                dir_walk(files0, self@.directories, self@.prefix_bytes, keys, spells, i as nat) == full,
                full == dir_walk(old(self)@.files, old(self)@.directories, old(self)@.prefix_bytes, keys, spells, 0),
                files0 == old(self)@.files,
                old(self)@.components + n <= MAX_NAMESPACE_COMPONENTS,
                !old(self)@.files.contains_key(path@.key),
                keys == path@.keys,
                spells == path@.components,
            decreases n - i,
        {
            let ghost kp_before = key_prefix@;
            let ghost sp_before = spelling_prefix@;
            if i > 0 {
                key_prefix.push('/');
                spelling_prefix.push('/');
            }
            append_chars(&mut key_prefix, path.component_keys[i].as_slice());
            append_chars(&mut spelling_prefix, path.components[i].as_slice());
            proof {
                let tk = keys.take(i + 1);
                let ts = spells.take(i + 1);
                assert(tk.drop_last() =~= keys.take(i as int));
                assert(ts.drop_last() =~= spells.take(i as int));
                if i == 0 {
                    assert(key_prefix@ =~= tk[0]);
                    assert(spelling_prefix@ =~= ts[0]);
                } else {
                    assert(key_prefix@ =~= kp_before + seq!['/'] + tk.last());
                    assert(spelling_prefix@ =~= sp_before + seq!['/'] + ts.last());
                }
                assert(key_prefix@ == join_slash(keys.take(i + 1 as int)));
                assert(spelling_prefix@ == join_slash(spells.take(i + 1)));
            }
            match self.files.get(key_prefix.as_slice()) {
                Some(existing) => {
                    proof {
                        assert(full.end == WalkEnd::FileClash(existing.0@));
                        assert(full.directories == self@.directories);
                        assert(full.prefix_bytes == self@.prefix_bytes);
                    }
                    return Err(ArtifactError::NamespaceCollision {
                        path: path.value.clone(),
                        existing: existing.0.clone(),
                        detail: "a file is also used as a directory",
                    });
                },
                None => {},
            }
            let spelling = string_from_chars(spelling_prefix.as_slice());
            match self.directories.get(key_prefix.as_slice()) {
                Some(existing) => {
                    if *existing != spelling {
                        return Err(ArtifactError::NamespaceCollision {
                            path: path.value.clone(),
                            existing: existing.clone(),
                            detail: "a directory has ambiguous case or Unicode spelling",
                        });
                    }
                },
                None => {
                    let key_bytes = utf8_len_of(key_prefix.as_slice());
                    let spelling_bytes = utf8_len_of(spelling_prefix.as_slice());
                    let grown = match self.prefix_bytes.checked_add(key_bytes) {
                        Some(b) => b.checked_add(spelling_bytes),
                        None => None,
                    };
                    let bytes = match grown {
                        Some(b) => if b <= MAX_NAMESPACE_PREFIX_BYTES {
                            b
                        } else {
                            proof {
                                assert(full.end == WalkEnd::OverBudget);
                                assert(full.directories == self@.directories);
                                assert(full.prefix_bytes == self@.prefix_bytes);
                            }
                            return Err(ArtifactError::InvalidReceipt(
                                "artifact namespace exceeds 16777216 stored prefix bytes".to_owned(),
                            ));
                        },
                        None => {
                            proof {
                                assert(full.end == WalkEnd::OverBudget);
                                assert(full.directories == self@.directories);
                                assert(full.prefix_bytes == self@.prefix_bytes);
                            }
                            return Err(ArtifactError::InvalidReceipt(
                                "artifact namespace exceeds 16777216 stored prefix bytes".to_owned(),
                            ));
                        },
                    };
                    let ghost dirs_before = self.directories@;
                    self.prefix_bytes = bytes;
                    let stored_key = prefix_chars(key_prefix.as_slice(), key_prefix.len());
                    proof {
                        assert(key_prefix@.take(key_prefix@.len() as int) =~= key_prefix@);
                    }
                    self.directories.insert_new(stored_key, spelling);
                    proof {
                        assert(dir_views(self.directories@) =~= dir_views(dirs_before).insert(
                            key_prefix@,
                            spelling_prefix@,
                        ));
                    }
                },
            }
            i = i + 1;
        }
        match self.directories.get(path.key_chars.as_slice()) {
            Some(existing) => {
                return Err(ArtifactError::NamespaceCollision {
                    path: path.value.clone(),
                    existing: existing.clone(),
                    detail: "a file is also used as a directory",
                });
            },
            None => {},
        }
        let ghost files_before = self.files@;
        let stored_key = prefix_chars(path.key_chars.as_slice(), path.key_chars.len());
        proof {
            assert(path.key_chars@.take(path.key_chars@.len() as int) =~= path.key_chars@);
        }
        self.files.insert_new(stored_key, (path.value.clone(), owner.to_owned()));
        self.components = component_budget;
        proof {
            assert(file_views(self.files@) =~= file_views(files_before).insert(
                path@.key,
                (path@.value, owner@),
            ));
        }
        Ok(())
    }
}

} // verus!

verus! {

/// No key is both a file and a directory, and both budgets hold.
pub open spec fn namespace_consistent(m: NamespaceModel) -> bool {
    &&& forall|k: Seq<char>| !(#[trigger] m.files.contains_key(k) && m.directories.contains_key(k))
    &&& m.components <= MAX_NAMESPACE_COMPONENTS
    &&& m.prefix_bytes <= MAX_NAMESPACE_PREFIX_BYTES
}

proof fn lemma_walk(
    files: Map<Seq<char>, (Seq<char>, Seq<char>)>,
    directories: Map<Seq<char>, Seq<char>>,
    prefix_bytes: nat,
    keys: Seq<Seq<char>>,
    spellings: Seq<Seq<char>>,
    i: nat,
)
    ensures
        ({
            let w = dir_walk(files, directories, prefix_bytes, keys, spellings, i);
            &&& forall|k: Seq<char>| #[trigger]
                directories.contains_key(k) ==> w.directories.contains_key(k)
                    && w.directories[k] == directories[k]
            &&& forall|k: Seq<char>| #[trigger]
                w.directories.contains_key(k) && !directories.contains_key(k)
                    ==> !files.contains_key(k)
            &&& prefix_bytes <= w.prefix_bytes
            &&& prefix_bytes <= MAX_NAMESPACE_PREFIX_BYTES ==> w.prefix_bytes
                <= MAX_NAMESPACE_PREFIX_BYTES
            &&& w.end is Done ==> forall|j: int|
                i <= j < keys.len() - 1 ==> w.directories.contains_key(
                    #[trigger] join_slash(keys.take(j + 1)),
                ) && w.directories[join_slash(keys.take(j + 1))] == join_slash(
                    spellings.take(j + 1),
                )
        }),
    decreases keys.len() - i,
{
    if i + 1 < keys.len() {
        let kp = join_slash(keys.take(i + 1 as int));
        let sp = join_slash(spellings.take(i + 1 as int));
        if files.contains_key(kp) {
        } else if directories.contains_key(kp) {
            if directories[kp] == sp {
                lemma_walk(files, directories, prefix_bytes, keys, spellings, i + 1);
                let w = dir_walk(files, directories, prefix_bytes, keys, spellings, i);
                if w.end is Done {
                    assert forall|j: int| i <= j < keys.len() - 1 implies w.directories.contains_key(
                        #[trigger] join_slash(keys.take(j + 1)),
                    ) && w.directories[join_slash(keys.take(j + 1))] == join_slash(
                        spellings.take(j + 1),
                    ) by {
                        if j == i {
                            assert(directories.contains_key(kp));
                        }
                    }
                }
            }
        } else if prefix_bytes + utf8_len(kp) + utf8_len(sp) <= MAX_NAMESPACE_PREFIX_BYTES {
            let d2 = directories.insert(kp, sp);
            lemma_walk(files, d2, prefix_bytes + utf8_len(kp) + utf8_len(sp), keys, spellings, i + 1);
            let w = dir_walk(files, directories, prefix_bytes, keys, spellings, i);
            assert forall|k: Seq<char>| #[trigger] directories.contains_key(k) implies w.directories.contains_key(k)
                && w.directories[k] == directories[k] by {
                assert(d2.contains_key(k));
            }
            assert forall|k: Seq<char>| #[trigger]
                w.directories.contains_key(k) && !directories.contains_key(k) implies !files.contains_key(k) by {
                if k != kp {
                    assert(!d2.contains_key(k));
                }
            }
            if w.end is Done {
                assert forall|j: int| i <= j < keys.len() - 1 implies w.directories.contains_key(
                    #[trigger] join_slash(keys.take(j + 1)),
                ) && w.directories[join_slash(keys.take(j + 1))] == join_slash(
                    spellings.take(j + 1),
                ) by {
                    if j == i {
                        assert(d2.contains_key(kp));
                    }
                }
            }
        }
    }
}

/// Inserting a path keeps a namespace consistent, whether it succeeds or not.
pub proof fn law_insert_keeps_namespace_consistent(m: NamespaceModel, p: PathModel, owner: Seq<char>)
    requires
        namespace_consistent(m),
    ensures
        namespace_consistent(insert_result(m, p, owner).0),
{
    lemma_walk(m.files, m.directories, m.prefix_bytes, p.keys, p.components, 0);
    let (m2, o) = insert_result(m, p, owner);
    assert forall|k: Seq<char>| !(#[trigger] m2.files.contains_key(k) && m2.directories.contains_key(k)) by {
        if m2.files.contains_key(k) && m2.directories.contains_key(k) {
            if m.files.contains_key(k) {
                assert(!m.directories.contains_key(k));
            }
        }
    }
}

/// A refused insert adds no file and leaves the component count unchanged;
/// the directories it walked before the clash stay recorded, every earlier
/// directory keeping its spelling. Refused over the component budget or as
/// the same file, it leaves the namespace exactly as it was.
pub proof fn law_refused_insert_adds_no_file(m: NamespaceModel, p: PathModel, owner: Seq<char>)
    ensures
        !(insert_result(m, p, owner).1 is Inserted) ==> insert_result(m, p, owner).0.files == m.files
            && insert_result(m, p, owner).0.components == m.components && forall|k: Seq<char>|
            #[trigger] m.directories.contains_key(k) ==> insert_result(m, p, owner).0.directories.contains_key(k)
                && insert_result(m, p, owner).0.directories[k] == m.directories[k],
        (m.components + p.keys.len() > MAX_NAMESPACE_COMPONENTS || m.files.contains_key(p.key)) ==> insert_result(
            m,
            p,
            owner,
        ).0 == m,
{
    lemma_walk(m.files, m.directories, m.prefix_bytes, p.keys, p.components, 0);
}

/// The empty namespace.
pub open spec fn empty_namespace() -> NamespaceModel {
    NamespaceModel {
        files: Map::empty(),
        directories: Map::empty(),
        components: 0,
        prefix_bytes: 0,
    }
}

/// The namespace after inserting each path with its owner in turn from the
/// empty one, and the paths that were accepted, in order.
pub open spec fn insert_run(ps: Seq<(PathModel, Seq<char>)>) -> (NamespaceModel, Seq<PathModel>)
    decreases ps.len(),
{
    if ps.len() == 0 {
        (empty_namespace(), Seq::empty())
    } else {
        let (m, accepted) = insert_run(ps.drop_last());
        let (m2, o) = insert_result(m, ps.last().0, ps.last().1);
        (m2, if o is Inserted { accepted.push(ps.last().0) } else { accepted })
    }
}

/// The key of the `j`th directory prefix of a path.
pub open spec fn dir_prefix(p: PathModel, j: int) -> Seq<char> {
    join_slash(p.keys.take(j + 1))
}

/// Accepted paths never nest: their keys differ, and no directory prefix of
/// one has the key of another.
pub open spec fn never_nest(accepted: Seq<PathModel>) -> bool {
    forall|a: int, b: int|
        0 <= a < b < accepted.len() ==> {
            &&& (#[trigger] accepted[a]).key != (#[trigger] accepted[b]).key
            &&& forall|j: int| 0 <= j < accepted[a].keys.len() - 1 ==> dir_prefix(accepted[a], j) != accepted[b].key
            &&& forall|j: int| 0 <= j < accepted[b].keys.len() - 1 ==> dir_prefix(accepted[b], j) != accepted[a].key
        }
}

/// The spelling of the `j`th directory prefix of a path.
pub open spec fn dir_spelling(p: PathModel, j: int) -> Seq<char> {
    join_slash(p.components.take(j + 1))
}

/// What a run keeps: a consistent namespace holding every accepted file and
/// every directory prefix of one, with that prefix's spelling, and accepted
/// paths that never nest.
pub open spec fn run_invariant(m: NamespaceModel, accepted: Seq<PathModel>) -> bool {
    &&& namespace_consistent(m)
    &&& forall|a: int| 0 <= a < accepted.len() ==> m.files.contains_key(#[trigger] accepted[a].key)
    &&& forall|a: int, j: int|
        0 <= a < accepted.len() && 0 <= j < accepted[a].keys.len() - 1 ==> m.directories.contains_key(
            #[trigger] dir_prefix(accepted[a], j),
        ) && m.directories[dir_prefix(accepted[a], j)] == dir_spelling(accepted[a], j)
    &&& never_nest(accepted)
}

proof fn lemma_insert_run(ps: Seq<(PathModel, Seq<char>)>)
    ensures
        run_invariant(insert_run(ps).0, insert_run(ps).1),
    decreases ps.len(),
{
    if ps.len() > 0 {
        lemma_insert_run(ps.drop_last());
        let (m, accepted) = insert_run(ps.drop_last());
        let p = ps.last().0;
        let owner = ps.last().1;
        let (m2, o) = insert_result(m, p, owner);
        law_insert_keeps_namespace_consistent(m, p, owner);
        lemma_walk(m.files, m.directories, m.prefix_bytes, p.keys, p.components, 0);
        if o is Inserted {
            let w = dir_walk(m.files, m.directories, m.prefix_bytes, p.keys, p.components, 0);
            let acc2 = accepted.push(p);
            assert forall|j: int| 0 <= j < p.keys.len() - 1 implies !m.files.contains_key(
                #[trigger] dir_prefix(p, j),
            ) by {
                assert(w.directories.contains_key(join_slash(p.keys.take(j + 1))));
                if m.directories.contains_key(dir_prefix(p, j)) {
                    assert(!(m.files.contains_key(dir_prefix(p, j)) && m.directories.contains_key(dir_prefix(p, j))));
                }
            }
            assert forall|a: int, b: int| 0 <= a < b < acc2.len() implies {
                &&& (#[trigger] acc2[a]).key != (#[trigger] acc2[b]).key
                &&& forall|j: int| 0 <= j < acc2[a].keys.len() - 1 ==> dir_prefix(acc2[a], j) != acc2[b].key
                &&& forall|j: int| 0 <= j < acc2[b].keys.len() - 1 ==> dir_prefix(acc2[b], j) != acc2[a].key
            } by {
                if b == accepted.len() {
                    assert(acc2[b] == p);
                    assert(acc2[a] == accepted[a]);
                    assert(m.files.contains_key(accepted[a].key));
                    assert forall|j: int| 0 <= j < acc2[a].keys.len() - 1 implies dir_prefix(acc2[a], j)
                        != acc2[b].key by {
                        assert(m.directories.contains_key(dir_prefix(accepted[a], j)));
                    }
                    assert forall|j: int| 0 <= j < acc2[b].keys.len() - 1 implies dir_prefix(acc2[b], j)
                        != acc2[a].key by {
                        assert(!m.files.contains_key(dir_prefix(p, j)));
                    }
                } else {
                    assert(acc2[a] == accepted[a] && acc2[b] == accepted[b]);
                }
            }
            assert forall|a: int| 0 <= a < acc2.len() implies m2.files.contains_key(#[trigger] acc2[a].key) by {
                if a < accepted.len() {
                    assert(acc2[a] == accepted[a]);
                }
            }
            assert forall|a: int, j: int|
                0 <= a < acc2.len() && 0 <= j < acc2[a].keys.len() - 1 implies m2.directories.contains_key(
                #[trigger] dir_prefix(acc2[a], j),
            ) && m2.directories[dir_prefix(acc2[a], j)] == dir_spelling(acc2[a], j) by {
                if a < accepted.len() {
                    assert(acc2[a] == accepted[a]);
                    assert(m.directories.contains_key(dir_prefix(accepted[a], j)));
                } else {
                    assert(acc2[a] == p);
                    assert(w.directories.contains_key(join_slash(p.keys.take(j + 1))));
                }
            }
        } else {
            assert forall|a: int, j: int|
                0 <= a < accepted.len() && 0 <= j < accepted[a].keys.len() - 1 implies m2.directories.contains_key(
                #[trigger] dir_prefix(accepted[a], j),
            ) && m2.directories[dir_prefix(accepted[a], j)] == dir_spelling(accepted[a], j) by {
                assert(m.directories.contains_key(dir_prefix(accepted[a], j)));
            }
        }
    }
}

/// Of the paths inserted in turn into a fresh namespace, the accepted ones
/// never nest: no two share a collision key, and no directory prefix of one
/// has the collision key of another; the namespace stays consistent.
pub proof fn law_accepted_paths_never_nest(ps: Seq<(PathModel, Seq<char>)>)
    ensures
        never_nest(insert_run(ps).1),
        namespace_consistent(insert_run(ps).0),
{
    lemma_insert_run(ps);
}

/// Of the paths accepted by a run from a fresh namespace, two directory
/// prefixes with the same collision key are spelled the same.
pub proof fn law_directories_keep_one_spelling(ps: Seq<(PathModel, Seq<char>)>, a: int, j: int, b: int, l: int)
    requires
        0 <= a < insert_run(ps).1.len(),
        0 <= b < insert_run(ps).1.len(),
        0 <= j < insert_run(ps).1[a].keys.len() - 1,
        0 <= l < insert_run(ps).1[b].keys.len() - 1,
        dir_prefix(insert_run(ps).1[a], j) == dir_prefix(insert_run(ps).1[b], l),
    ensures
        dir_spelling(insert_run(ps).1[a], j) == dir_spelling(insert_run(ps).1[b], l),
{
    lemma_insert_run(ps);
}

/// After a path is inserted, every path with the same collision key is refused
/// as the same file.
pub proof fn law_same_key_is_refused(
    m: NamespaceModel,
    p: PathModel,
    q: PathModel,
    owner: Seq<char>,
    other: Seq<char>,
)
    requires
        insert_result(m, p, owner).1 is Inserted,
        q.key == p.key,
        insert_result(m, p, owner).0.components + q.keys.len() <= MAX_NAMESPACE_COMPONENTS,
    ensures
        insert_result(insert_result(m, p, owner).0, q, other).1 == (InsertOutcome::Collision {
            existing: p.value,
            kind: CollisionKind::SamePath,
        }),
{
}

/// After a path is inserted, each of its directory prefixes is recorded with
/// the path's own spelling.
pub proof fn law_inserted_path_records_its_directories(m: NamespaceModel, p: PathModel, owner: Seq<char>)
    requires
        insert_result(m, p, owner).1 is Inserted,
    ensures
        forall|j: int|
            0 <= j < p.keys.len() - 1 ==> insert_result(m, p, owner).0.directories.contains_key(
                #[trigger] join_slash(p.keys.take(j + 1)),
            ) && insert_result(m, p, owner).0.directories[join_slash(p.keys.take(j + 1))]
                == join_slash(p.components.take(j + 1)),
{
    lemma_walk(m.files, m.directories, m.prefix_bytes, p.keys, p.components, 0);
}


/// No key in the list holds a slash.
pub open spec fn slash_free(ks: Seq<Seq<char>>) -> bool {
    forall|i: int| 0 <= i < ks.len() ==> !(#[trigger] ks[i]).contains('/')
}

/// A path whose collision key joins its component keys, none of which holds
/// a slash.
pub open spec fn slash_free_path(p: PathModel) -> bool {
    &&& p.keys.len() >= 1
    &&& p.key == join_slash(p.keys)
    &&& slash_free(p.keys)
}

proof fn lemma_join_slash_position(a: Seq<Seq<char>>)
    requires
        slash_free(a),
        a.len() >= 1,
    ensures
        a.len() == 1 ==> !join_slash(a).contains('/'),
        a.len() > 1 ==> join_slash(a) =~= join_slash(a.drop_last()) + seq!['/'] + a.last(),
        a.len() > 1 ==> join_slash(a).contains('/'),
{
    if a.len() > 1 {
        let j = join_slash(a);
        let n = join_slash(a.drop_last()).len();
        assert(j[n as int] == '/');
    } else {
        assert(!a[0].contains('/'));
    }
}

/// Joining keys that hold no slash loses nothing: the joined key determines
/// the keys.
proof fn lemma_join_slash_injective(a: Seq<Seq<char>>, b: Seq<Seq<char>>)
    requires
        slash_free(a),
        slash_free(b),
        a.len() >= 1,
        b.len() >= 1,
        join_slash(a) == join_slash(b),
    ensures
        a == b,
    decreases a.len(),
{
    lemma_join_slash_position(a);
    lemma_join_slash_position(b);
    if a.len() == 1 && b.len() == 1 {
        assert(a =~= b);
    } else if a.len() > 1 && b.len() > 1 {
        let s = join_slash(a);
        let la = a.last();
        let lb = b.last();
        assert(!la.contains('/'));
        assert(!lb.contains('/'));
        if la.len() < lb.len() {
            let t = s.len() - la.len() - 1;
            assert(s[t] == '/');
            assert(lb[t - (s.len() - lb.len())] == s[t]);
            assert(lb.contains('/'));
        } else if lb.len() < la.len() {
            let t = s.len() - lb.len() - 1;
            assert(s[t] == '/');
            assert(la[t - (s.len() - la.len())] == s[t]);
            assert(la.contains('/'));
        } else {
            assert(la =~= s.subrange(s.len() - la.len(), s.len() as int));
            assert(lb =~= s.subrange(s.len() - lb.len(), s.len() as int));
            assert(join_slash(a.drop_last()) =~= s.subrange(0, s.len() - la.len() - 1));
            assert(join_slash(b.drop_last()) =~= s.subrange(0, s.len() - lb.len() - 1));
            lemma_join_slash_injective(a.drop_last(), b.drop_last());
            assert(a =~= a.drop_last().push(la));
            assert(b =~= b.drop_last().push(lb));
        }
    }
}

proof fn lemma_take_slash_free(ks: Seq<Seq<char>>, n: int)
    requires
        slash_free(ks),
        0 <= n <= ks.len(),
    ensures
        slash_free(ks.take(n)),
{
    assert forall|i: int| 0 <= i < ks.take(n).len() implies !(#[trigger] ks.take(n)[i]).contains('/') by {
        assert(ks.take(n)[i] == ks[i]);
    }
}

/// The first `n` directory prefixes named by `ks` are recorded in `d`.
pub open spec fn prefixes_recorded(d: Map<Seq<char>, Seq<char>>, ks: Seq<Seq<char>>, n: int) -> bool {
    forall|l: int| 0 <= l < n ==> d.contains_key(#[trigger] join_slash(ks.take(l + 1)))
}

/// `k` joins slash-free component keys whose first `n` directory prefixes
/// are recorded in `d`.
pub open spec fn prefix_witness(d: Map<Seq<char>, Seq<char>>, ks: Seq<Seq<char>>, k: Seq<char>, drop: int) -> bool {
    &&& slash_free(ks)
    &&& ks.len() >= 1
    &&& join_slash(ks) == k
    &&& prefixes_recorded(d, ks, ks.len() - drop)
}

/// Every recorded directory comes with all of its own directory prefixes.
pub open spec fn directories_closed(d: Map<Seq<char>, Seq<char>>) -> bool {
    forall|k: Seq<char>| #[trigger] d.contains_key(k) ==> exists|ks: Seq<Seq<char>>| prefix_witness(d, ks, k, 0)
}

/// Every recorded directory and file comes with all of its directory
/// prefixes, for slash-free component keys.
pub open spec fn prefix_closed(m: NamespaceModel) -> bool {
    &&& directories_closed(m.directories)
    &&& forall|k: Seq<char>| #[trigger] m.files.contains_key(k) ==> exists|ks: Seq<Seq<char>>| prefix_witness(m.directories, ks, k, 1)
}

proof fn lemma_prefix_witness_grows(
    d: Map<Seq<char>, Seq<char>>,
    d2: Map<Seq<char>, Seq<char>>,
    ks: Seq<Seq<char>>,
    k: Seq<char>,
    drop: int,
)
    requires
        prefix_witness(d, ks, k, drop),
        forall|x: Seq<char>| #[trigger] d.contains_key(x) ==> d2.contains_key(x),
    ensures
        prefix_witness(d2, ks, k, drop),
{
    assert forall|l: int| 0 <= l < ks.len() - drop implies d2.contains_key(#[trigger] join_slash(ks.take(l + 1))) by {
        assert(d.contains_key(join_slash(ks.take(l + 1))));
    }
}

/// The component keys of a recorded prefix are those of the walked path.
proof fn lemma_witness_is_prefix(ks: Seq<Seq<char>>, keys: Seq<Seq<char>>, l: int)
    requires
        slash_free(ks),
        slash_free(keys),
        ks.len() >= 1,
        0 <= l < keys.len(),
        join_slash(ks) == join_slash(keys.take(l + 1)),
    ensures
        ks == keys.take(l + 1),
        forall|l2: int| 0 <= l2 <= l ==> #[trigger] ks.take(l2 + 1) == keys.take(l2 + 1),
{
    lemma_take_slash_free(keys, l + 1);
    lemma_join_slash_injective(ks, keys.take(l + 1));
    assert forall|l2: int| 0 <= l2 <= l implies #[trigger] ks.take(l2 + 1) == keys.take(l2 + 1) by {
        assert(ks.take(l2 + 1) =~= keys.take(l2 + 1));
    }
}

proof fn lemma_walk_known(
    files: Map<Seq<char>, (Seq<char>, Seq<char>)>,
    directories: Map<Seq<char>, Seq<char>>,
    prefix_bytes: nat,
    keys: Seq<Seq<char>>,
    spellings: Seq<Seq<char>>,
    i: nat,
)
    requires
        forall|l: int| i <= l < keys.len() - 1 ==> directories.contains_key(#[trigger] join_slash(keys.take(l + 1))),
    ensures
        dir_walk(files, directories, prefix_bytes, keys, spellings, i).directories == directories,
        dir_walk(files, directories, prefix_bytes, keys, spellings, i).prefix_bytes == prefix_bytes,
    decreases keys.len() - i,
{
    if i + 1 < keys.len() {
        assert(directories.contains_key(join_slash(keys.take(i + 1 as int))));
        lemma_walk_known(files, directories, prefix_bytes, keys, spellings, i + 1);
    }
}

proof fn lemma_walk_new_keys(
    files: Map<Seq<char>, (Seq<char>, Seq<char>)>,
    directories: Map<Seq<char>, Seq<char>>,
    prefix_bytes: nat,
    keys: Seq<Seq<char>>,
    spellings: Seq<Seq<char>>,
    i: nat,
)
    ensures
        forall|k: Seq<char>|
            #[trigger] dir_walk(files, directories, prefix_bytes, keys, spellings, i).directories.contains_key(k)
                && !directories.contains_key(k) ==> exists|l: int|
                i <= l < keys.len() - 1 && k == #[trigger] join_slash(keys.take(l + 1)),
    decreases keys.len() - i,
{
    if i + 1 < keys.len() {
        let kp = join_slash(keys.take(i + 1 as int));
        let sp = join_slash(spellings.take(i + 1 as int));
        if !files.contains_key(kp) && directories.contains_key(kp) && directories[kp] == sp {
            lemma_walk_new_keys(files, directories, prefix_bytes, keys, spellings, i + 1);
        } else if !files.contains_key(kp) && !directories.contains_key(kp) && prefix_bytes + utf8_len(kp)
            + utf8_len(sp) <= MAX_NAMESPACE_PREFIX_BYTES {
            let d2 = directories.insert(kp, sp);
            let pb2 = prefix_bytes + utf8_len(kp) + utf8_len(sp);
            lemma_walk_new_keys(files, d2, pb2, keys, spellings, i + 1);
            let w = dir_walk(files, directories, prefix_bytes, keys, spellings, i);
            assert forall|k: Seq<char>| #[trigger] w.directories.contains_key(k) && !directories.contains_key(k)
                implies exists|l: int| i <= l < keys.len() - 1 && k == #[trigger] join_slash(keys.take(l + 1)) by {
                if k == kp {
                    assert(kp == join_slash(keys.take(i + 1 as int)));
                } else {
                    assert(!d2.contains_key(k));
                }
            }
        }
    }
}

proof fn lemma_walk_fresh(
    files: Map<Seq<char>, (Seq<char>, Seq<char>)>,
    directories: Map<Seq<char>, Seq<char>>,
    prefix_bytes: nat,
    keys: Seq<Seq<char>>,
    spellings: Seq<Seq<char>>,
    i: nat,
)
    requires
        slash_free(keys),
        forall|l: int|
            i <= l < keys.len() - 1 ==> !files.contains_key(#[trigger] join_slash(keys.take(l + 1)))
                && !directories.contains_key(join_slash(keys.take(l + 1))),
    ensures
        !(dir_walk(files, directories, prefix_bytes, keys, spellings, i).end is FileClash),
        !(dir_walk(files, directories, prefix_bytes, keys, spellings, i).end is DirClash),
    decreases keys.len() - i,
{
    if i + 1 < keys.len() {
        let kp = join_slash(keys.take(i + 1 as int));
        let sp = join_slash(spellings.take(i + 1 as int));
        assert(!files.contains_key(kp) && !directories.contains_key(kp));
        if prefix_bytes + utf8_len(kp) + utf8_len(sp) <= MAX_NAMESPACE_PREFIX_BYTES {
            let d2 = directories.insert(kp, sp);
            assert forall|l: int| i + 1 <= l < keys.len() - 1 implies !files.contains_key(
                #[trigger] join_slash(keys.take(l + 1)),
            ) && !d2.contains_key(join_slash(keys.take(l + 1))) by {
                if join_slash(keys.take(l + 1)) == kp {
                    lemma_take_slash_free(keys, l + 1);
                    lemma_take_slash_free(keys, i + 1 as int);
                    lemma_join_slash_injective(keys.take(l + 1), keys.take(i + 1 as int));
                    assert(keys.take(l + 1).len() != keys.take(i + 1 as int).len());
                }
            }
            lemma_walk_fresh(files, d2, prefix_bytes + utf8_len(kp) + utf8_len(sp), keys, spellings, i + 1);
        }
    }
}

/// A walk that ends in a clash recorded nothing, when every clashing prefix
/// comes with the prefixes before it.
proof fn lemma_walk_clash_keeps(
    files: Map<Seq<char>, (Seq<char>, Seq<char>)>,
    directories: Map<Seq<char>, Seq<char>>,
    prefix_bytes: nat,
    keys: Seq<Seq<char>>,
    spellings: Seq<Seq<char>>,
    i: nat,
)
    requires
        slash_free(keys),
        forall|l: int, l2: int|
            #![trigger join_slash(keys.take(l + 1)), join_slash(keys.take(l2 + 1))]
            i <= l2 < l < keys.len() - 1 && (files.contains_key(join_slash(keys.take(l + 1)))
                || directories.contains_key(join_slash(keys.take(l + 1)))) ==> directories.contains_key(
                join_slash(keys.take(l2 + 1)),
            ),
    ensures
        (dir_walk(files, directories, prefix_bytes, keys, spellings, i).end is FileClash || dir_walk(
            files,
            directories,
            prefix_bytes,
            keys,
            spellings,
            i,
        ).end is DirClash) ==> dir_walk(files, directories, prefix_bytes, keys, spellings, i).directories
            == directories && dir_walk(files, directories, prefix_bytes, keys, spellings, i).prefix_bytes
            == prefix_bytes,
    decreases keys.len() - i,
{
    if i + 1 < keys.len() {
        let kp = join_slash(keys.take(i + 1 as int));
        if files.contains_key(kp) {
        } else if directories.contains_key(kp) {
            lemma_walk_clash_keeps(files, directories, prefix_bytes, keys, spellings, i + 1);
        } else {
            assert forall|l: int| i <= l < keys.len() - 1 implies !files.contains_key(
                #[trigger] join_slash(keys.take(l + 1)),
            ) && !directories.contains_key(join_slash(keys.take(l + 1))) by {
                if l > i && (files.contains_key(join_slash(keys.take(l + 1))) || directories.contains_key(
                    join_slash(keys.take(l + 1)),
                )) {
                    assert(directories.contains_key(join_slash(keys.take(i + 1 as int))));
                }
            }
            lemma_walk_fresh(files, directories, prefix_bytes, keys, spellings, i);
        }
    }
}

/// A walk over slash-free keys keeps directories closed under prefixes.
proof fn lemma_walk_closed(
    files: Map<Seq<char>, (Seq<char>, Seq<char>)>,
    directories: Map<Seq<char>, Seq<char>>,
    prefix_bytes: nat,
    keys: Seq<Seq<char>>,
    spellings: Seq<Seq<char>>,
    i: nat,
)
    requires
        slash_free(keys),
        directories_closed(directories),
        forall|l: int| 0 <= l < i && l < keys.len() ==> directories.contains_key(#[trigger] join_slash(keys.take(l + 1))),
    ensures
        directories_closed(dir_walk(files, directories, prefix_bytes, keys, spellings, i).directories),
    decreases keys.len() - i,
{
    if i + 1 < keys.len() {
        let kp = join_slash(keys.take(i + 1 as int));
        let sp = join_slash(spellings.take(i + 1 as int));
        if files.contains_key(kp) {
        } else if directories.contains_key(kp) {
            if directories[kp] == sp {
                lemma_walk_closed(files, directories, prefix_bytes, keys, spellings, i + 1);
            }
        } else if prefix_bytes + utf8_len(kp) + utf8_len(sp) <= MAX_NAMESPACE_PREFIX_BYTES {
            let d2 = directories.insert(kp, sp);
            assert forall|k: Seq<char>| #[trigger] d2.contains_key(k) implies exists|ks: Seq<Seq<char>>|
                prefix_witness(d2, ks, k, 0) by {
                if k == kp {
                    let ks = keys.take(i + 1 as int);
                    lemma_take_slash_free(keys, i + 1 as int);
                    assert forall|l: int| 0 <= l < ks.len() implies d2.contains_key(
                        #[trigger] join_slash(ks.take(l + 1)),
                    ) by {
                        assert(ks.take(l + 1) =~= keys.take(l + 1));
                    }
                    assert(prefix_witness(d2, ks, k, 0));
                } else {
                    let ks = choose|ks: Seq<Seq<char>>| prefix_witness(directories, ks, k, 0);
                    lemma_prefix_witness_grows(directories, d2, ks, k, 0);
                }
            }
            lemma_walk_closed(files, d2, prefix_bytes + utf8_len(kp) + utf8_len(sp), keys, spellings, i + 1);
        }
    }
}

/// Inserting a slash-free path keeps a namespace closed under prefixes.
proof fn lemma_insert_prefix_closed(m: NamespaceModel, p: PathModel, owner: Seq<char>)
    requires
        prefix_closed(m),
        slash_free_path(p),
    ensures
        prefix_closed(insert_result(m, p, owner).0),
{
    let n = p.keys.len();
    if m.components + n <= MAX_NAMESPACE_COMPONENTS && !m.files.contains_key(p.key) {
        let w = dir_walk(m.files, m.directories, m.prefix_bytes, p.keys, p.components, 0);
        lemma_walk(m.files, m.directories, m.prefix_bytes, p.keys, p.components, 0);
        lemma_walk_closed(m.files, m.directories, m.prefix_bytes, p.keys, p.components, 0);
        let m2 = insert_result(m, p, owner).0;
        assert(m2.directories == w.directories);
        assert forall|k: Seq<char>| #[trigger] m2.files.contains_key(k) implies exists|ks: Seq<Seq<char>>|
            prefix_witness(m2.directories, ks, k, 1) by {
            if m.files.contains_key(k) {
                let ks = choose|ks: Seq<Seq<char>>| prefix_witness(m.directories, ks, k, 1);
                lemma_prefix_witness_grows(m.directories, m2.directories, ks, k, 1);
            } else {
                assert(k == p.key);
                assert forall|l: int| 0 <= l < p.keys.len() - 1 implies m2.directories.contains_key(
                    #[trigger] join_slash(p.keys.take(l + 1)),
                ) by {}
                assert(prefix_witness(m2.directories, p.keys, k, 1));
            }
        }
    }
}

/// A refused insert of a slash-free path into a namespace closed under
/// prefixes that ends in a collision leaves the namespace as it was.
proof fn lemma_collision_keeps(m: NamespaceModel, p: PathModel, owner: Seq<char>)
    requires
        prefix_closed(m),
        slash_free_path(p),
        insert_result(m, p, owner).1 is Collision,
    ensures
        insert_result(m, p, owner).0 == m,
{
    let n = p.keys.len();
    if !m.files.contains_key(p.key) {
        let keys = p.keys;
        let w = dir_walk(m.files, m.directories, m.prefix_bytes, keys, p.components, 0);
        assert forall|l: int, l2: int|
            #![trigger join_slash(keys.take(l + 1)), join_slash(keys.take(l2 + 1))]
            0 <= l2 < l < keys.len() - 1 && (m.files.contains_key(join_slash(keys.take(l + 1)))
                || m.directories.contains_key(join_slash(keys.take(l + 1)))) implies m.directories.contains_key(
            join_slash(keys.take(l2 + 1)),
        ) by {
            let k = join_slash(keys.take(l + 1));
            if m.files.contains_key(k) {
                let ks = choose|ks: Seq<Seq<char>>| prefix_witness(m.directories, ks, k, 1);
                lemma_witness_is_prefix(ks, keys, l);
                assert(m.directories.contains_key(join_slash(ks.take(l2 + 1))));
            } else {
                let ks = choose|ks: Seq<Seq<char>>| prefix_witness(m.directories, ks, k, 0);
                lemma_witness_is_prefix(ks, keys, l);
                assert(m.directories.contains_key(join_slash(ks.take(l2 + 1))));
            }
        }
        lemma_walk_clash_keeps(m.files, m.directories, m.prefix_bytes, keys, p.components, 0);
        if w.end is Done {
            lemma_walk_new_keys(m.files, m.directories, m.prefix_bytes, keys, p.components, 0);
            assert(w.directories.contains_key(p.key));
            if m.directories.contains_key(p.key) {
                let ks = choose|ks: Seq<Seq<char>>| prefix_witness(m.directories, ks, p.key, 0);
                lemma_join_slash_injective(ks, keys);
                lemma_walk_known(m.files, m.directories, m.prefix_bytes, keys, p.components, 0);
            } else {
                let l = choose|l: int| 0 <= l < keys.len() - 1 && p.key == #[trigger] join_slash(keys.take(l + 1));
                lemma_take_slash_free(keys, l + 1);
                lemma_join_slash_injective(keys, keys.take(l + 1));
                assert(keys.len() == keys.take(l + 1).len());
            }
        }
    }
}

/// Every path of the run is slash-free.
pub open spec fn run_slash_free(ps: Seq<(PathModel, Seq<char>)>) -> bool {
    forall|k: int| 0 <= k < ps.len() ==> slash_free_path(#[trigger] ps[k].0)
}

proof fn lemma_run_prefix_closed(ps: Seq<(PathModel, Seq<char>)>)
    requires
        run_slash_free(ps),
    ensures
        prefix_closed(insert_run(ps).0),
    decreases ps.len(),
{
    if ps.len() > 0 {
        let rest = ps.drop_last();
        assert(run_slash_free(rest)) by {
            assert forall|k: int| 0 <= k < rest.len() implies slash_free_path(#[trigger] rest[k].0) by {
                assert(rest[k] == ps[k]);
            }
        }
        lemma_run_prefix_closed(rest);
        assert(slash_free_path(ps[ps.len() - 1].0));
        lemma_insert_prefix_closed(insert_run(rest).0, ps.last().0, ps.last().1);
    }
}

/// Into a namespace filled from a fresh one by paths whose component keys
/// hold no slash, an insert of such a path that is refused as a collision
/// changes nothing: every later insert gives what it would have given
/// without the refused one.
pub proof fn law_refused_collision_changes_nothing(ps: Seq<(PathModel, Seq<char>)>, p: PathModel, owner: Seq<char>)
    requires
        run_slash_free(ps),
        slash_free_path(p),
        insert_result(insert_run(ps).0, p, owner).1 is Collision,
    ensures
        insert_result(insert_run(ps).0, p, owner).0 == insert_run(ps).0,
        forall|q: PathModel, other: Seq<char>|
            #[trigger] insert_result(insert_result(insert_run(ps).0, p, owner).0, q, other) == insert_result(
                insert_run(ps).0,
                q,
                other,
            ),
{
    lemma_run_prefix_closed(ps);
    lemma_collision_keeps(insert_run(ps).0, p, owner);
}

/// Where a walk over slash-free keys clashes, the clashing entry was already
/// recorded before the walk.
proof fn lemma_walk_clash_index(
    files: Map<Seq<char>, (Seq<char>, Seq<char>)>,
    directories: Map<Seq<char>, Seq<char>>,
    prefix_bytes: nat,
    keys: Seq<Seq<char>>,
    spellings: Seq<Seq<char>>,
    i: nat,
)
    requires
        slash_free(keys),
    ensures
        dir_walk(files, directories, prefix_bytes, keys, spellings, i).end is FileClash ==> exists|l: int|
            i <= l < keys.len() - 1 && files.contains_key(#[trigger] join_slash(keys.take(l + 1))),
        dir_walk(files, directories, prefix_bytes, keys, spellings, i).end is DirClash ==> exists|l: int|
            i <= l < keys.len() - 1 && directories.contains_key(#[trigger] join_slash(keys.take(l + 1)))
                && directories[join_slash(keys.take(l + 1))] != join_slash(spellings.take(l + 1)),
    decreases keys.len() - i,
{
    if i + 1 < keys.len() {
        let kp = join_slash(keys.take(i + 1 as int));
        let sp = join_slash(spellings.take(i + 1 as int));
        if files.contains_key(kp) {
            assert(files.contains_key(join_slash(keys.take(i + 1 as int))));
        } else if directories.contains_key(kp) {
            if directories[kp] != sp {
                assert(directories.contains_key(join_slash(keys.take(i + 1 as int))));
            } else {
                lemma_walk_clash_index(files, directories, prefix_bytes, keys, spellings, i + 1);
            }
        } else if prefix_bytes + utf8_len(kp) + utf8_len(sp) <= MAX_NAMESPACE_PREFIX_BYTES {
            let d2 = directories.insert(kp, sp);
            let pb2 = prefix_bytes + utf8_len(kp) + utf8_len(sp);
            lemma_walk_clash_index(files, d2, pb2, keys, spellings, i + 1);
            let w = dir_walk(files, d2, pb2, keys, spellings, i + 1);
            if w.end is DirClash {
                let l = choose|l: int|
                    i + 1 <= l < keys.len() - 1 && d2.contains_key(#[trigger] join_slash(keys.take(l + 1)))
                        && d2[join_slash(keys.take(l + 1))] != join_slash(spellings.take(l + 1));
                if join_slash(keys.take(l + 1)) == kp {
                    lemma_take_slash_free(keys, l + 1);
                    lemma_take_slash_free(keys, i + 1 as int);
                    lemma_join_slash_injective(keys.take(l + 1), keys.take(i + 1 as int));
                    assert(keys.take(l + 1).len() != keys.take(i + 1 as int).len());
                }
                assert(directories.contains_key(join_slash(keys.take(l + 1))));
            }
        }
    }
}

/// No run step was refused over the budget of stored prefix bytes, the one
/// refusal that keeps the directories it walked.
pub open spec fn run_within_prefix_budget(ps: Seq<(PathModel, Seq<char>)>) -> bool {
    forall|k: int|
        0 <= k < ps.len() ==> !(#[trigger] insert_result(insert_run(ps.take(k)).0, ps[k].0, ps[k].1).1 is PrefixBudget)
}

/// Every recorded file and directory belongs to an accepted path.
pub open spec fn run_exact(m: NamespaceModel, accepted: Seq<PathModel>) -> bool {
    &&& forall|k: Seq<char>| #[trigger]
        m.files.contains_key(k) ==> exists|a: int| 0 <= a < accepted.len() && (#[trigger] accepted[a]).key == k
    &&& forall|k: Seq<char>| #[trigger]
        m.directories.contains_key(k) ==> exists|a: int, j: int|
            0 <= a < accepted.len() && 0 <= j < accepted[a].keys.len() - 1 && #[trigger] dir_prefix(accepted[a], j) == k
}

proof fn lemma_run_exact(ps: Seq<(PathModel, Seq<char>)>)
    requires
        run_slash_free(ps),
        run_within_prefix_budget(ps),
    ensures
        run_exact(insert_run(ps).0, insert_run(ps).1),
    decreases ps.len(),
{
    if ps.len() > 0 {
        let rest = ps.drop_last();
        assert(run_slash_free(rest)) by {
            assert forall|k: int| 0 <= k < rest.len() implies slash_free_path(#[trigger] rest[k].0) by {
                assert(rest[k] == ps[k]);
            }
        }
        assert(run_within_prefix_budget(rest)) by {
            assert forall|k: int| 0 <= k < rest.len() implies !(#[trigger] insert_result(
                insert_run(rest.take(k)).0,
                rest[k].0,
                rest[k].1,
            ).1 is PrefixBudget) by {
                assert(rest.take(k) =~= ps.take(k));
                assert(rest[k] == ps[k]);
                assert(!(insert_result(insert_run(ps.take(k)).0, ps[k].0, ps[k].1).1 is PrefixBudget));
            }
        }
        lemma_run_exact(rest);
        lemma_run_prefix_closed(rest);
        let (m, accepted) = insert_run(rest);
        let p = ps.last().0;
        let owner = ps.last().1;
        assert(slash_free_path(ps[ps.len() - 1].0));
        let last = ps.len() - 1;
        assert(ps.take(last) =~= rest);
        assert(!(insert_result(insert_run(ps.take(last)).0, ps[last].0, ps[last].1).1 is PrefixBudget));
        let (m2, o) = insert_result(m, p, owner);
        if o is Collision {
            lemma_collision_keeps(m, p, owner);
        } else if o is Inserted {
            let acc2 = accepted.push(p);
            lemma_walk_new_keys(m.files, m.directories, m.prefix_bytes, p.keys, p.components, 0);
            assert forall|k: Seq<char>| #[trigger] m2.files.contains_key(k) implies exists|a: int|
                0 <= a < acc2.len() && (#[trigger] acc2[a]).key == k by {
                if k == p.key {
                    assert(acc2[acc2.len() - 1] == p);
                } else {
                    let a = choose|a: int| 0 <= a < accepted.len() && (#[trigger] accepted[a]).key == k;
                    assert(acc2[a] == accepted[a]);
                }
            }
            assert forall|k: Seq<char>| #[trigger] m2.directories.contains_key(k) implies exists|a: int, j: int|
                0 <= a < acc2.len() && 0 <= j < acc2[a].keys.len() - 1 && #[trigger] dir_prefix(acc2[a], j)
                    == k by {
                if m.directories.contains_key(k) {
                    let (a, j) = choose|a: int, j: int|
                        0 <= a < accepted.len() && 0 <= j < accepted[a].keys.len() - 1 && #[trigger] dir_prefix(
                            accepted[a],
                            j,
                        ) == k;
                    assert(acc2[a] == accepted[a]);
                } else {
                    let l = choose|l: int| 0 <= l < p.keys.len() - 1 && k == #[trigger] join_slash(p.keys.take(l + 1));
                    assert(acc2[acc2.len() - 1] == p);
                    assert(dir_prefix(acc2[acc2.len() - 1], l) == k);
                }
            }
        }
    }
}

/// Path `p` clashes with accepted path `f`: the same key, the key of one a
/// directory prefix of the other, or a directory prefix with the key of one
/// of `f` spelled otherwise.
pub open spec fn clashes(f: PathModel, p: PathModel) -> bool {
    ||| f.key == p.key
    ||| exists|j: int| 0 <= j < f.keys.len() - 1 && #[trigger] dir_prefix(f, j) == p.key
    ||| exists|j: int| 0 <= j < p.keys.len() - 1 && #[trigger] dir_prefix(p, j) == f.key
    ||| exists|j: int, l: int|
        #![trigger dir_prefix(f, l), dir_prefix(p, j)]
        0 <= j < p.keys.len() - 1 && 0 <= l < f.keys.len() - 1 && dir_prefix(f, l) == dir_prefix(p, j)
            && dir_spelling(f, l) != dir_spelling(p, j)
}

/// Path `p` clashes with one of the accepted paths.
pub open spec fn clashes_with_any(accepted: Seq<PathModel>, p: PathModel) -> bool {
    exists|a: int| 0 <= a < accepted.len() && #[trigger] clashes(accepted[a], p)
}

/// Into a namespace filled from a fresh one by paths whose component keys
/// hold no slash and that were never refused over the prefix-byte budget,
/// an insert of such a path that stays within both budgets is refused as a
/// collision exactly when the path clashes with an accepted one, and
/// succeeds otherwise.
pub proof fn law_collision_exactly_when_paths_clash(
    ps: Seq<(PathModel, Seq<char>)>,
    p: PathModel,
    owner: Seq<char>,
)
    requires
        run_slash_free(ps),
        run_within_prefix_budget(ps),
        slash_free_path(p),
        !(insert_result(insert_run(ps).0, p, owner).1 is ComponentBudget),
        !(insert_result(insert_run(ps).0, p, owner).1 is PrefixBudget),
    ensures
        insert_result(insert_run(ps).0, p, owner).1 is Collision <==> clashes_with_any(insert_run(ps).1, p),
        insert_result(insert_run(ps).0, p, owner).1 is Inserted <==> !clashes_with_any(insert_run(ps).1, p),
{
    lemma_insert_run(ps);
    lemma_run_exact(ps);
    lemma_run_prefix_closed(ps);
    let (m, acc) = insert_run(ps);
    let o = insert_result(m, p, owner).1;
    let keys = p.keys;
    let w = dir_walk(m.files, m.directories, m.prefix_bytes, keys, p.components, 0);
    lemma_walk(m.files, m.directories, m.prefix_bytes, keys, p.components, 0);
    if o is Collision {
        if m.files.contains_key(p.key) {
            let a = choose|a: int| 0 <= a < acc.len() && (#[trigger] acc[a]).key == p.key;
            assert(clashes(acc[a], p));
        } else if w.end is FileClash {
            lemma_walk_clash_index(m.files, m.directories, m.prefix_bytes, keys, p.components, 0);
            let l = choose|l: int| 0 <= l < keys.len() - 1 && m.files.contains_key(#[trigger] join_slash(keys.take(l + 1)));
            let a = choose|a: int| 0 <= a < acc.len() && (#[trigger] acc[a]).key == join_slash(keys.take(l + 1));
            assert(dir_prefix(p, l) == acc[a].key);
            assert(clashes(acc[a], p));
        } else if w.end is DirClash {
            lemma_walk_clash_index(m.files, m.directories, m.prefix_bytes, keys, p.components, 0);
            let l = choose|l: int|
                0 <= l < keys.len() - 1 && m.directories.contains_key(#[trigger] join_slash(keys.take(l + 1)))
                    && m.directories[join_slash(keys.take(l + 1))] != join_slash(p.components.take(l + 1));
            let k = join_slash(keys.take(l + 1));
            let (a, j) = choose|a: int, j: int|
                0 <= a < acc.len() && 0 <= j < acc[a].keys.len() - 1 && #[trigger] dir_prefix(acc[a], j) == k;
            assert(m.directories[dir_prefix(acc[a], j)] == dir_spelling(acc[a], j));
            assert(dir_prefix(p, l) == k);
            assert(dir_spelling(acc[a], j) != dir_spelling(p, l));
            assert(clashes(acc[a], p));
        } else {
            lemma_walk_new_keys(m.files, m.directories, m.prefix_bytes, keys, p.components, 0);
            if !m.directories.contains_key(p.key) {
                let l = choose|l: int| 0 <= l < keys.len() - 1 && p.key == #[trigger] join_slash(keys.take(l + 1));
                lemma_take_slash_free(keys, l + 1);
                lemma_join_slash_injective(keys, keys.take(l + 1));
                assert(keys.len() == keys.take(l + 1).len());
            }
            let (a, j) = choose|a: int, j: int|
                0 <= a < acc.len() && 0 <= j < acc[a].keys.len() - 1 && #[trigger] dir_prefix(acc[a], j) == p.key;
            assert(clashes(acc[a], p));
        }
    } else {
        assert(o is Inserted);
        assert(!m.files.contains_key(p.key));
        assert(w.end is Done);
        assert(!w.directories.contains_key(p.key));
        assert forall|a: int| 0 <= a < acc.len() implies !#[trigger] clashes(acc[a], p) by {
            let f = acc[a];
            assert(m.files.contains_key(f.key));
            if exists|j: int| 0 <= j < f.keys.len() - 1 && #[trigger] dir_prefix(f, j) == p.key {
                let j = choose|j: int| 0 <= j < f.keys.len() - 1 && #[trigger] dir_prefix(f, j) == p.key;
                assert(m.directories.contains_key(dir_prefix(f, j)));
            }
            if exists|j: int| 0 <= j < p.keys.len() - 1 && #[trigger] dir_prefix(p, j) == f.key {
                let j = choose|j: int| 0 <= j < p.keys.len() - 1 && #[trigger] dir_prefix(p, j) == f.key;
                assert(w.directories.contains_key(join_slash(keys.take(j + 1))));
                assert(!(m.files.contains_key(f.key) && m.directories.contains_key(f.key)));
            }
            if exists|j: int, l: int|
                #![trigger dir_prefix(f, l), dir_prefix(p, j)]
                0 <= j < p.keys.len() - 1 && 0 <= l < f.keys.len() - 1 && dir_prefix(f, l) == dir_prefix(p, j)
                    && dir_spelling(f, l) != dir_spelling(p, j) {
                let (j, l) = choose|j: int, l: int|
                    #![trigger dir_prefix(f, l), dir_prefix(p, j)]
                    0 <= j < p.keys.len() - 1 && 0 <= l < f.keys.len() - 1 && dir_prefix(f, l) == dir_prefix(p, j)
                        && dir_spelling(f, l) != dir_spelling(p, j);
                assert(m.directories.contains_key(dir_prefix(f, l)));
                assert(m.directories[dir_prefix(f, l)] == dir_spelling(f, l));
                assert(w.directories.contains_key(join_slash(keys.take(j + 1))));
            }
        }
    }
}

} // verus!

verus! {

/// Running totals over the paths found in a stored output tree.
pub struct OutputLayout {
    entries: usize,
    components: usize,
    path_bytes: usize,
}

/// Entries, path components and path bytes accounted so far.
pub struct LayoutModel {
    pub entries: nat,
    pub components: nat,
    pub path_bytes: nat,
}

impl View for OutputLayout {
    type V = LayoutModel;

    closed spec fn view(&self) -> LayoutModel {
        LayoutModel {
            entries: self.entries as nat,
            components: self.components as nat,
            path_bytes: self.path_bytes as nat,
        }
    }
}

impl OutputLayout {
    pub fn new() -> (layout: OutputLayout)
        ensures
            layout@ == (LayoutModel { entries: 0, components: 0, path_bytes: 0 }),
    {
        OutputLayout { entries: 0, components: 0, path_bytes: 0 }
    }

    /// Counts one directory entry found while walking an output tree,
    /// refusing more than 100000 of them.
    pub fn count_entry(&mut self) -> (r: Result<(), ArtifactError>)
        ensures
            final(self)@.components == old(self)@.components,
            final(self)@.path_bytes == old(self)@.path_bytes,
            final(self)@.entries == (if old(self)@.entries + 1 > usize::MAX {
                old(self)@.entries
            } else {
                old(self)@.entries + 1
            }),
            r is Ok <==> final(self)@.entries <= 100000,
            r matches Err(e) ==> e matches ArtifactError::InvalidReceipt(m) && m@ == "output exceeds 100000 entries"@,
    {
        self.entries = self.entries.saturating_add(1);
        if self.entries > 100000 {
            return Err(ArtifactError::InvalidReceipt("output exceeds 100000 entries".to_owned()));
        }
        Ok(())
    }

    /// Charges one stored relative path against the component and byte budgets.
    /// The component total is kept even when the byte budget then refuses.
    pub fn account_stored_path(&mut self, relative: &str) -> (r: Result<(), ArtifactError>)
        ensures
            final(self)@.entries == old(self)@.entries,
            ({
                let count = split_slash(relative@).len();
                let bytes = utf8_len(relative@);
                if old(self)@.components + count > MAX_NAMESPACE_COMPONENTS {
                    &&& final(self)@ == old(self)@
                    &&& r matches Err(e)
                    &&& e matches ArtifactError::InvalidReceipt(m)
                    &&& m@ == "output layout exceeds 262144 stored path components"@
                } else if old(self)@.path_bytes + bytes > MAX_NAMESPACE_PREFIX_BYTES {
                    &&& final(self)@.components == old(self)@.components + count
                    &&& final(self)@.path_bytes == old(self)@.path_bytes
                    &&& r matches Err(e)
                    &&& e matches ArtifactError::InvalidReceipt(m)
                    &&& m@ == "output layout exceeds 16777216 stored path bytes"@
                } else {
                    &&& final(self)@.components == old(self)@.components + count
                    &&& final(self)@.path_bytes == old(self)@.path_bytes + bytes
                    &&& r is Ok
                }
            }),
    {
        let chars = chars_of(relative);
        let count = split_on_slash(chars.as_slice()).len();
        let components = match self.components.checked_add(count) {
            Some(total) => if total <= MAX_NAMESPACE_COMPONENTS {
                total
            } else {
                return Err(ArtifactError::InvalidReceipt(
                    "output layout exceeds 262144 stored path components".to_owned(),
                ));
            },
            None => {
                return Err(ArtifactError::InvalidReceipt(
                    "output layout exceeds 262144 stored path components".to_owned(),
                ));
            },
        };
        self.components = components;
        let bytes = utf8_len_of(chars.as_slice());
        let path_bytes = match self.path_bytes.checked_add(bytes) {
            Some(total) => if total <= MAX_NAMESPACE_PREFIX_BYTES {
                total
            } else {
                return Err(ArtifactError::InvalidReceipt(
                    "output layout exceeds 16777216 stored path bytes".to_owned(),
                ));
            },
            None => {
                return Err(ArtifactError::InvalidReceipt(
                    "output layout exceeds 16777216 stored path bytes".to_owned(),
                ));
            },
        };
        self.path_bytes = path_bytes;
        Ok(())
    }
}

} // verus!
