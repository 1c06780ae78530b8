//! The build context a receipt binds: ownership, framework and toolchain
//! evidence, configuration and source files, input materials and excluded
//! paths, and the output set. Normalization orders every list and refuses
//! anything ambiguous, aliased, unbounded or malformed.
use vstd::prelude::*;
use crate::build_graph::{
    project_fault, sha_fault, sha_ok, validate_project_id, validate_sha256, Fault, reports_fault, MAX_ARTIFACT_FILES,
};
use crate::numtext::{decimal_of, decimal_string, trim, trimmed};
use crate::sorting::{keys_adjacent_strict, lemma_sort_ignores_arrangement, sort_by_key, stable_sorted, SortKey};
use crate::portable::{
    insert_result, path_model, path_ok, reports, ArtifactError, InsertOutcome, NamespaceModel, OutputNamespace,
    PortablePath,
};
use crate::portable::nfc;
use crate::digest::{sha256_bytes, sha256_hex};
use crate::text::{
    chars_of, contains_seq, debug_quoted, debug_text, first_some, is_ascii_alnum, lemma_first_some_at,
    lemma_first_some_none_all,
    lemma_first_some_none, lemma_seq_lt_irreflexive, lemma_seq_lt_total, lemma_seq_lt_transitive, push_str,
    seq_lt, str_eq, str_lt, utf8_len, utf8_len_of,
};

verus! {

broadcast use vstd::string::group_string_axioms;

/// Name of the receipt ledger in an output tree.
pub const BUILD_LEDGER_NAME: &'static str = "pliego.build.json";

/// Largest single output file.
pub const MAX_OUTPUT_FILE_BYTES: u64 = 512 * 1024 * 1024;

/// Largest output set.
pub const MAX_OUTPUT_TOTAL_BYTES: u64 = 4 * 1024 * 1024 * 1024;

/// A hashed file of the build's inputs.
#[derive(Clone, Debug)]
pub struct EvidenceFile {
    pub path: String,
    pub bytes: u64,
    pub sha256: String,
}

/// A tool that took part in the build.
#[derive(Clone, Debug)]
pub struct ToolchainEvidence {
    pub name: String,
    pub version: String,
}

/// Who owns an output tree.
#[derive(Clone, Debug)]
pub struct Ownership {
    pub project_id: String,
    pub site_package: String,
}

/// The framework release that built the site.
#[derive(Clone, Debug)]
pub struct FrameworkEvidence {
    pub version: String,
    pub source_revision: String,
}

/// A hashed set of files from outside the project.
#[derive(Clone, Debug)]
pub struct InputMaterial {
    pub id: String,
    pub kind: String,
    pub selection: String,
    pub file_count: u64,
    pub total_bytes: u64,
    pub sha256: String,
}

/// Everything a build read, as its receipt records it.
#[derive(Clone, Debug)]
pub struct BuildContext {
    pub ownership: Ownership,
    pub framework: FrameworkEvidence,
    pub toolchain: Vec<ToolchainEvidence>,
    pub configuration: Vec<EvidenceFile>,
    pub sources: Vec<EvidenceFile>,
    pub materials: Vec<InputMaterial>,
    pub source_set_sha256: String,
    pub excluded_paths: Vec<String>,
}

/// A file a build emitted.
#[derive(Clone, Debug)]
pub struct OutputFile {
    pub path: String,
    pub kind: String,
    pub producer: String,
    pub bytes: u64,
    pub sha256: String,
}

impl OutputFile {
    /// The record of an emitted file: its path, kind and producer, its size
    /// and the SHA-256 of its bytes.
    pub fn new(path: String, kind: String, producer: String, bytes: &[u8]) -> (f: OutputFile)
        ensures
            f.path == path,
            f.kind == kind,
            f.producer == producer,
            f.bytes == bytes@.len(),
            f.sha256@ == sha256_hex(bytes@),
    {
        OutputFile { path, kind, producer, bytes: bytes.len() as u64, sha256: sha256_bytes(bytes) }
    }
}

/// The evidence of a file read as an input: its path, size and the SHA-256
/// of its bytes.
pub fn evidence_file(path: String, bytes: &[u8]) -> (e: EvidenceFile)
    ensures
        e.path == path,
        e.bytes == bytes@.len(),
        e.sha256@ == sha256_hex(bytes@),
{
    EvidenceFile { path, bytes: bytes.len() as u64, sha256: sha256_bytes(bytes) }
}

impl SortKey for EvidenceFile {
    open spec fn sort_key(&self) -> Seq<char> {
        self.path@
    }

    fn key_str(&self) -> (k: &str) {
        self.path.as_str()
    }
}

impl SortKey for ToolchainEvidence {
    open spec fn sort_key(&self) -> Seq<char> {
        self.name@
    }

    fn key_str(&self) -> (k: &str) {
        self.name.as_str()
    }
}

impl SortKey for InputMaterial {
    open spec fn sort_key(&self) -> Seq<char> {
        self.id@
    }

    fn key_str(&self) -> (k: &str) {
        self.id.as_str()
    }
}

impl SortKey for OutputFile {
    open spec fn sort_key(&self) -> Seq<char> {
        self.path@
    }

    fn key_str(&self) -> (k: &str) {
        self.path.as_str()
    }
}

/// What a failed check reports: a non-portable path, a receipt message, or
/// a namespace refusal of a path spelled so.
pub enum Refusal {
    Path(Seq<char>),
    Receipt(Seq<char>),
    Namespace(InsertOutcome, Seq<char>),
    Collision(Seq<char>, Seq<char>, Seq<char>),
    Missing(Seq<char>),
    Extra(Seq<char>),
    Modified(Seq<char>),
}

pub open spec fn refuses(e: ArtifactError, f: Refusal) -> bool {
    match f {
        Refusal::Path(p) => e matches ArtifactError::InvalidPath(s) && s@ == p,
        Refusal::Receipt(m) => e matches ArtifactError::InvalidReceipt(s) && s@ == m,
        Refusal::Namespace(o, v) => reports(e, o, v),
        Refusal::Collision(p, x, d) => e matches ArtifactError::NamespaceCollision { path, existing, detail }
            && path@ == p && existing@ == x && detail@ == d,
        Refusal::Missing(p) => e matches ArtifactError::Missing(s) && s@ == p,
        Refusal::Extra(p) => e matches ArtifactError::Extra(s) && s@ == p,
        Refusal::Modified(p) => e matches ArtifactError::Modified(s) && s@ == p,
    }
}

pub open spec fn refused<T>(r: Result<T, ArtifactError>, f: Option<Refusal>) -> bool {
    match f {
        None => r is Ok,
        Some(x) => r matches Err(e) && refuses(e, x),
    }
}

pub open spec fn from_fault(f: Option<Fault>) -> Option<Refusal> {
    match f {
        None => None,
        Some(Fault::Path(p)) => Some(Refusal::Path(p)),
        Some(Fault::Receipt(m)) => Some(Refusal::Receipt(m)),
    }
}

pub open spec fn either(a: Option<Refusal>, b: Option<Refusal>) -> Option<Refusal> {
    if a is Some {
        a
    } else {
        b
    }
}

/// ASCII letters and digits and `.-_@+/`, 1 to 128 of them, without `..`.
pub open spec fn token_ok(v: Seq<char>) -> bool {
    &&& 0 < v.len() <= 128
    &&& forall|k: int|
        0 <= k < v.len() ==> is_ascii_alnum(#[trigger] v[k]) || v[k] == '.' || v[k] == '-' || v[k] == '_' || v[k]
            == '@' || v[k] == '+' || v[k] == '/'
    &&& !contains_seq(v, ".."@)
}

pub open spec fn token_fault(v: Seq<char>, label: Seq<char>) -> Option<Refusal> {
    if token_ok(v) {
        None
    } else {
        Some(Refusal::Receipt("invalid "@ + label + " "@ + debug_text(v)))
    }
}

/// Checks a material id or kind.
pub fn validate_material_token(value: &str, label: &str) -> (r: Result<(), ArtifactError>)
    ensures
        refused(r, token_fault(value@, label@)),
{
    let v = chars_of(value);
    let mut ok = v.len() > 0 && v.len() <= 128;
    let mut i: usize = 0;
    while ok && i < v.len()
        invariant
            v@ == value@,
            i <= v.len(),
            ok ==> 0 < v.len() <= 128,
            ok ==> forall|k: int|
                0 <= k < i ==> is_ascii_alnum(#[trigger] v@[k]) || v@[k] == '.' || v@[k] == '-' || v@[k] == '_'
                    || v@[k] == '@' || v@[k] == '+' || v@[k] == '/',
            !ok ==> !token_ok(value@),
        decreases v.len() - i,
    {
        let c = v[i];
        if !(crate::text::ascii_alnum(c) || c == '.' || c == '-' || c == '_' || c == '@' || c == '+' || c == '/') {
            proof {
                let x = value@[i as int];
                assert(!(is_ascii_alnum(x) || x == '.' || x == '-' || x == '_' || x == '@' || x == '+' || x == '/'));
            }
            ok = false;
        }
        i = i + 1;
    }
    if ok {
        let dots = chars_of("..");
        ok = !crate::text::contains_chars(v.as_slice(), dots.as_slice());
    }
    if ok {
        Ok(())
    } else {
        let mut m = String::new();
        push_str(&mut m, "invalid ");
        push_str(&mut m, label);
        push_str(&mut m, " ");
        push_str(&mut m, debug_quoted(value).as_str());
        proof {
            assert(m@ =~= "invalid "@ + label@ + " "@ + debug_text(value@));
        }
        Err(ArtifactError::InvalidReceipt(m))
    }
}

/// Whether a string is empty once trimmed.
pub fn blank(s: &str) -> (b: bool)
    ensures
        b == (trim(s@).len() == 0),
{
    let c = chars_of(s);
    trimmed(c.as_slice()).len() == 0
}

pub open spec fn ownership_fault(o: Ownership) -> Option<Refusal> {
    either(
        from_fault(project_fault(o.project_id@)),
        if trim(o.site_package@).len() == 0 {
            Some(Refusal::Receipt("site package is required"@))
        } else {
            None
        },
    )
}

/// Checks ownership: a valid project id and a site package.
pub fn validate_ownership(ownership: &Ownership) -> (r: Result<(), ArtifactError>)
    ensures
        refused(r, ownership_fault(*ownership)),
{
    match validate_project_id(ownership.project_id.as_str()) {
        Ok(()) => {},
        Err(e) => {
            return Err(e);
        },
    }
    if blank(ownership.site_package.as_str()) {
        return Err(ArtifactError::InvalidReceipt("site package is required".to_owned()));
    }
    Ok(())
}

/// The namespace after the first `k` files of an evidence list were added,
/// each owned by `owner`.
pub open spec fn evidence_namespace(files: Seq<EvidenceFile>, owner: Seq<char>, start: NamespaceModel, k: int) -> NamespaceModel
    decreases k,
{
    if k <= 0 {
        start
    } else {
        insert_result(evidence_namespace(files, owner, start, k - 1), path_model(files[k - 1].path@), owner).0
    }
}

/// The check of the `k`-th file of an evidence list, with the namespace the
/// earlier files left.
pub open spec fn evidence_fault(files: Seq<EvidenceFile>, label: Seq<char>, k: int, ns: NamespaceModel) -> Option<
    Refusal,
> {
    let f = files[k];
    if k > 0 && !seq_lt(files[k - 1].path@, f.path@) {
        Some(Refusal::Receipt(label + " files are duplicated or not strictly ordered"@))
    } else if !path_ok(f.path@) {
        Some(Refusal::Path(f.path@))
    } else if !(insert_result(ns, path_model(f.path@), label).1 is Inserted) {
        Some(Refusal::Namespace(insert_result(ns, path_model(f.path@), label).1, nfc(f.path@)))
    } else if path_model(f.path@).value != f.path@ {
        Some(Refusal::Receipt(label + " path is not canonical NFC: "@ + debug_text(f.path@)))
    } else {
        from_fault(sha_fault(f.sha256@, label))
    }
}

pub open spec fn empty_namespace() -> NamespaceModel {
    NamespaceModel {
        files: Map::empty(),
        directories: Map::empty(),
        components: 0,
        prefix_bytes: 0,
    }
}

/// Everything `validate_evidence_set` refuses, in its order.
pub open spec fn evidence_set_fault(files: Seq<EvidenceFile>, label: Seq<char>) -> Option<Refusal> {
    first_some(
        Seq::new(
            files.len(),
            |k: int| evidence_fault(files, label, k, evidence_namespace(files, label, empty_namespace(), k)),
        ),
    )
}

/// Checks an ordered evidence list: strictly increasing canonical portable
/// paths with no aliases between them, each with a digest.
pub fn validate_evidence_set(files: &Vec<EvidenceFile>, label: &str) -> (r: Result<(), ArtifactError>)
    ensures
        refused(r, evidence_set_fault(files@, label@)),
{
    let ghost checks = Seq::new(
        files@.len(),
        |k: int| evidence_fault(files@, label@, k, evidence_namespace(files@, label@, empty_namespace(), k)),
    );
    let mut namespace = OutputNamespace::new();
    proof {
        assert(namespace@ =~= empty_namespace());
    }
    let mut i: usize = 0;
    while i < files.len()
        invariant
            checks == Seq::new(
                files@.len(),
                |k: int| evidence_fault(files@, label@, k, evidence_namespace(files@, label@, empty_namespace(), k)),
            ),
            i <= files.len(),
            namespace.wf(),
            namespace@ == evidence_namespace(files@, label@, empty_namespace(), i as int),
            forall|k: int| 0 <= k < i ==> (#[trigger] checks[k]) is None,
        decreases files.len() - i,
    {
        let file = &files[i];
        if i > 0 && !str_lt(files[i - 1].path.as_str(), file.path.as_str()) {
            let mut m = String::new();
            push_str(&mut m, label);
            push_str(&mut m, " files are duplicated or not strictly ordered");
            proof {
                assert(m@ =~= label@ + " files are duplicated or not strictly ordered"@);
                lemma_first_some_at(checks, i as int);
            }
            return Err(ArtifactError::InvalidReceipt(m));
        }
        let portable = match namespace.insert_str(file.path.as_str(), label) {
            Ok(p) => p,
            Err(e) => {
                proof {
                    lemma_first_some_at(checks, i as int);
                }
                return Err(e);
            },
        };
        if !str_eq(portable.as_str(), file.path.as_str()) {
            let mut m = String::new();
            push_str(&mut m, label);
            push_str(&mut m, " path is not canonical NFC: ");
            push_str(&mut m, debug_quoted(file.path.as_str()).as_str());
            proof {
                assert(m@ =~= label@ + " path is not canonical NFC: "@ + debug_text(file.path@));
                lemma_first_some_at(checks, i as int);
            }
            return Err(ArtifactError::InvalidReceipt(m));
        }
        match validate_sha256(file.sha256.as_str(), label) {
            Ok(()) => {},
            Err(e) => {
                proof {
                    lemma_first_some_at(checks, i as int);
                }
                return Err(e);
            },
        }
        assert(checks[i as int] is None);
        i = i + 1;
    }
    proof {
        lemma_first_some_none(checks);
    }
    Ok(())
}

/// Bytes of the first `k` outputs.
pub open spec fn output_bytes(files: Seq<OutputFile>, k: int) -> int
    decreases k,
{
    if k <= 0 {
        0
    } else {
        output_bytes(files, k - 1) + files[k - 1].bytes
    }
}

/// The namespace holding the ledger.
pub open spec fn ledger_insert() -> (NamespaceModel, InsertOutcome) {
    insert_result(empty_namespace(), path_model(BUILD_LEDGER_NAME@), "framework ledger"@)
}

/// The namespace after the ledger and the first `k` outputs, each owned by
/// its producer.
pub open spec fn output_namespace(files: Seq<OutputFile>, k: int) -> NamespaceModel
    decreases k,
{
    if k <= 0 {
        ledger_insert().0
    } else {
        insert_result(output_namespace(files, k - 1), path_model(files[k - 1].path@), files[k - 1].producer@).0
    }
}

/// The check of the `k`-th output.
pub open spec fn output_fault(files: Seq<OutputFile>, k: int) -> Option<Refusal> {
    let f = files[k];
    let o = insert_result(output_namespace(files, k), path_model(f.path@), f.producer@).1;
    if k > 0 && !seq_lt(files[k - 1].path@, f.path@) {
        Some(Refusal::Receipt("outputs are duplicated or not strictly ordered"@))
    } else if !path_ok(f.path@) {
        Some(Refusal::Path(f.path@))
    } else if !(o is Inserted) {
        Some(Refusal::Namespace(o, nfc(f.path@)))
    } else if path_model(f.path@).value != f.path@ {
        Some(Refusal::Receipt("output path is not canonical NFC: "@ + debug_text(f.path@)))
    } else if trim(f.kind@).len() == 0 || trim(f.producer@).len() == 0 {
        Some(Refusal::Receipt("output kind and producer are required"@))
    } else if f.bytes > MAX_OUTPUT_FILE_BYTES {
        Some(
            Refusal::Receipt(
                "output "@ + debug_text(f.path@) + " exceeds the per-file limit of "@ + decimal_of(
                    MAX_OUTPUT_FILE_BYTES as nat,
                ) + " bytes"@,
            ),
        )
    } else if output_bytes(files, k + 1) > MAX_OUTPUT_TOTAL_BYTES {
        Some(
            Refusal::Receipt(
                "output set exceeds the aggregate limit of "@ + decimal_of(MAX_OUTPUT_TOTAL_BYTES as nat)
                    + " bytes"@,
            ),
        )
    } else {
        from_fault(sha_fault(f.sha256@, "output"@))
    }
}

/// Everything `validate_outputs` refuses, in its order.
pub open spec fn outputs_fault(files: Seq<OutputFile>) -> Option<Refusal> {
    if files.len() > MAX_ARTIFACT_FILES {
        Some(Refusal::Receipt("output set exceeds "@ + decimal_of(MAX_ARTIFACT_FILES as nat) + " files"@))
    } else if !path_ok(BUILD_LEDGER_NAME@) {
        Some(Refusal::Path(BUILD_LEDGER_NAME@))
    } else if !(ledger_insert().1 is Inserted) {
        Some(Refusal::Namespace(ledger_insert().1, nfc(BUILD_LEDGER_NAME@)))
    } else {
        first_some(Seq::new(files.len(), |k: int| output_fault(files, k)))
    }
}

/// Checks an ordered output list: at most `MAX_ARTIFACT_FILES` strictly
/// increasing canonical portable paths beside the ledger, with no aliases,
/// each with a kind, a producer, a digest and a bounded size, and a bounded
/// total.
pub fn validate_outputs(files: &Vec<OutputFile>) -> (r: Result<(), ArtifactError>)
    ensures
        refused(r, outputs_fault(files@)),
{
    if files.len() > MAX_ARTIFACT_FILES {
        let mut m = String::new();
        push_str(&mut m, "output set exceeds ");
        push_str(&mut m, decimal_string(MAX_ARTIFACT_FILES as u64).as_str());
        push_str(&mut m, " files");
        proof {
            assert(m@ =~= "output set exceeds "@ + decimal_of(MAX_ARTIFACT_FILES as nat) + " files"@);
        }
        return Err(ArtifactError::InvalidReceipt(m));
    }
    let mut namespace = OutputNamespace::new();
    proof {
        assert(namespace@ =~= empty_namespace());
    }
    match namespace.insert_str(BUILD_LEDGER_NAME, "framework ledger") {
        Ok(_) => {},
        Err(e) => {
            return Err(e);
        },
    }
    let ghost checks = Seq::new(files@.len(), |k: int| output_fault(files@, k));
    let mut total: u64 = 0;
    let mut i: usize = 0;
    while i < files.len()
        invariant
            checks == Seq::new(files@.len(), |k: int| output_fault(files@, k)),
            i <= files.len(),
            namespace.wf(),
            namespace@ == output_namespace(files@, i as int),
            total == output_bytes(files@, i as int),
            total <= MAX_OUTPUT_TOTAL_BYTES,
            files.len() <= MAX_ARTIFACT_FILES,
            path_ok(BUILD_LEDGER_NAME@),
            ledger_insert().1 is Inserted,
            forall|k: int| 0 <= k < i ==> (#[trigger] checks[k]) is None,
        decreases files.len() - i,
    {
        let file = &files[i];
        if i > 0 && !str_lt(files[i - 1].path.as_str(), file.path.as_str()) {
            proof {
                lemma_first_some_at(checks, i as int);
            }
            return Err(ArtifactError::InvalidReceipt("outputs are duplicated or not strictly ordered".to_owned()));
        }
        let portable = match namespace.insert_str(file.path.as_str(), file.producer.as_str()) {
            Ok(p) => p,
            Err(e) => {
                proof {
                    lemma_first_some_at(checks, i as int);
                }
                return Err(e);
            },
        };
        if !str_eq(portable.as_str(), file.path.as_str()) {
            let mut m = String::new();
            push_str(&mut m, "output path is not canonical NFC: ");
            push_str(&mut m, debug_quoted(file.path.as_str()).as_str());
            proof {
                assert(m@ =~= "output path is not canonical NFC: "@ + debug_text(file.path@));
                lemma_first_some_at(checks, i as int);
            }
            return Err(ArtifactError::InvalidReceipt(m));
        }
        if blank(file.kind.as_str()) || blank(file.producer.as_str()) {
            proof {
                lemma_first_some_at(checks, i as int);
            }
            return Err(ArtifactError::InvalidReceipt("output kind and producer are required".to_owned()));
        }
        if file.bytes > MAX_OUTPUT_FILE_BYTES {
            let mut m = String::new();
            push_str(&mut m, "output ");
            push_str(&mut m, debug_quoted(file.path.as_str()).as_str());
            push_str(&mut m, " exceeds the per-file limit of ");
            push_str(&mut m, decimal_string(MAX_OUTPUT_FILE_BYTES).as_str());
            push_str(&mut m, " bytes");
            proof {
                assert(m@ =~= "output "@ + debug_text(file.path@) + " exceeds the per-file limit of "@ + decimal_of(
                    MAX_OUTPUT_FILE_BYTES as nat,
                ) + " bytes"@);
                lemma_first_some_at(checks, i as int);
            }
            return Err(ArtifactError::InvalidReceipt(m));
        }
        let next = total + file.bytes;
        if next > MAX_OUTPUT_TOTAL_BYTES {
            let mut m = String::new();
            push_str(&mut m, "output set exceeds the aggregate limit of ");
            push_str(&mut m, decimal_string(MAX_OUTPUT_TOTAL_BYTES).as_str());
            push_str(&mut m, " bytes");
            proof {
                assert(m@ =~= "output set exceeds the aggregate limit of "@ + decimal_of(
                    MAX_OUTPUT_TOTAL_BYTES as nat,
                ) + " bytes"@);
                lemma_first_some_at(checks, i as int);
            }
            return Err(ArtifactError::InvalidReceipt(m));
        }
        match validate_sha256(file.sha256.as_str(), "output") {
            Ok(()) => {},
            Err(e) => {
                proof {
                    lemma_first_some_at(checks, i as int);
                }
                return Err(e);
            },
        }
        assert(checks[i as int] is None);
        total = next;
        i = i + 1;
    }
    proof {
        lemma_first_some_none(checks);
    }
    Ok(())
}

/// The check of the `k`-th material of an ordered material list.
pub open spec fn material_fault(m: Seq<InputMaterial>, k: int) -> Option<Refusal> {
    let x = m[k];
    either(
        token_fault(x.id@, "material id"@),
        either(
            token_fault(x.kind@, "material kind"@),
            if k > 0 && !seq_lt(m[k - 1].id@, x.id@) {
                Some(Refusal::Receipt("materials are duplicated or not strictly ordered"@))
            } else if !(x.selection@ == "tree-v1"@ || x.selection@ == "exact-files-v1"@) || x.file_count == 0 {
                Some(Refusal::Receipt("material "@ + debug_text(x.id@) + " has an invalid or empty selection"@))
            } else {
                from_fault(sha_fault(x.sha256@, "material"@))
            },
        ),
    )
}

pub open spec fn materials_fault(m: Seq<InputMaterial>) -> Option<Refusal> {
    first_some(Seq::new(m.len(), |k: int| material_fault(m, k)))
}

/// Files of the first `k` materials.
pub open spec fn material_files(m: Seq<InputMaterial>, k: int) -> int
    decreases k,
{
    if k <= 0 {
        0
    } else {
        material_files(m, k - 1) + m[k - 1].file_count
    }
}

/// The bound on the number of files a context reads.
pub open spec fn input_count_fault(configuration: nat, sources: nat, m: Seq<InputMaterial>) -> Option<Refusal> {
    let total = configuration + sources + material_files(m, m.len() as int);
    if configuration + sources > usize::MAX || total > u64::MAX {
        Some(Refusal::Receipt("input file count overflowed u64"@))
    } else if total > MAX_ARTIFACT_FILES {
        Some(Refusal::Receipt("input set exceeds "@ + decimal_of(MAX_ARTIFACT_FILES as nat) + " files"@))
    } else {
        None
    }
}

pub open spec fn toolchain_pair_unordered(t: Seq<ToolchainEvidence>, i: int) -> bool {
    !seq_lt(t[i].name@, t[i + 1].name@)
}

pub open spec fn toolchain_order_fault(t: Seq<ToolchainEvidence>) -> Option<Refusal> {
    if exists|i: int| 0 <= i && i + 1 < t.len() && #[trigger] toolchain_pair_unordered(t, i) {
        Some(Refusal::Receipt("toolchain entries are duplicated or not strictly ordered"@))
    } else {
        None
    }
}

pub open spec fn has_tool(t: Seq<ToolchainEvidence>, name: Seq<char>) -> bool {
    exists|i: int| 0 <= i < t.len() && #[trigger] t[i].name@ == name
}

pub open spec fn known_tool(name: Seq<char>) -> bool {
    name == "cargo"@ || name == "rustc"@ || name == "wasm-bindgen"@
}

/// Cargo and rustc, plus optionally wasm-bindgen, and nothing else.
pub open spec fn toolchain_names_fault(t: Seq<ToolchainEvidence>) -> Option<Refusal> {
    if has_tool(t, "cargo"@) && has_tool(t, "rustc"@) && forall|i: int|
        0 <= i < t.len() ==> known_tool(#[trigger] t[i].name@) {
        None
    } else {
        Some(Refusal::Receipt("toolchain must contain cargo and rustc, plus optional wasm-bindgen"@))
    }
}

/// The insertion of the `k`-th input file into the namespace of all inputs.
pub open spec fn input_insert_fault(files: Seq<EvidenceFile>, k: int) -> Option<Refusal> {
    let p = files[k].path@;
    let o = insert_result(evidence_namespace(files, "build input"@, empty_namespace(), k), path_model(p), "build input"@).1;
    if !path_ok(p) {
        Some(Refusal::Path(p))
    } else if !(o is Inserted) {
        Some(Refusal::Namespace(o, nfc(p)))
    } else {
        None
    }
}

/// Configuration and sources share one namespace of build inputs.
pub open spec fn input_namespace_fault(files: Seq<EvidenceFile>) -> Option<Refusal> {
    first_some(Seq::new(files.len(), |k: int| input_insert_fault(files, k)))
}

pub open spec fn excluded_path_fault(x: Seq<String>, k: int) -> Option<Refusal> {
    let p = x[k]@;
    if !path_ok(p) {
        Some(Refusal::Path(p))
    } else if path_model(p).value != p || (k > 0 && !seq_lt(x[k - 1]@, p)) {
        Some(Refusal::Receipt("excluded paths are non-canonical, duplicated, or not strictly ordered"@))
    } else {
        None
    }
}

pub open spec fn excluded_fault(x: Seq<String>) -> Option<Refusal> {
    first_some(Seq::new(x.len(), |k: int| excluded_path_fault(x, k)))
}

/// What is refused before the lists are sorted.
pub open spec fn presort_fault(c: BuildContext) -> Option<Refusal> {
    either(
        ownership_fault(c.ownership),
        if trim(c.framework.version@).len() == 0 || trim(c.framework.source_revision@).len() == 0 {
            Some(Refusal::Receipt("framework version and source revision are required"@))
        } else if c.toolchain.len() == 0 {
            Some(Refusal::Receipt("at least one toolchain entry is required"@))
        } else {
            None
        },
    )
}

/// What is refused of the sorted lists, in order.
pub open spec fn sorted_fault(
    t: Seq<ToolchainEvidence>,
    cf: Seq<EvidenceFile>,
    so: Seq<EvidenceFile>,
    m: Seq<InputMaterial>,
    x: Seq<String>,
) -> Option<Refusal> {
    either(
        evidence_set_fault(cf, "configuration"@),
        either(
            evidence_set_fault(so, "source"@),
            either(
                materials_fault(m),
                either(
                    input_count_fault(cf.len(), so.len(), m),
                    either(
                        toolchain_order_fault(t),
                        either(toolchain_names_fault(t), either(input_namespace_fault(cf + so), excluded_fault(x))),
                    ),
                ),
            ),
        ),
    )
}

/// Everything `normalize_context` refuses, in its order.
pub open spec fn context_fault(c: BuildContext) -> Option<Refusal> {
    either(
        presort_fault(c),
        sorted_fault(
            stable_sorted(c.toolchain@),
            stable_sorted(c.configuration@),
            stable_sorted(c.sources@),
            stable_sorted(c.materials@),
            stable_sorted(c.excluded_paths@),
        ),
    )
}

/// `after` is `before` with every list stably sorted by its key.
pub open spec fn sorted_from(after: BuildContext, before: BuildContext) -> bool {
    &&& after.ownership == before.ownership
    &&& after.framework == before.framework
    &&& after.source_set_sha256 == before.source_set_sha256
    &&& after.toolchain@ == stable_sorted(before.toolchain@)
    &&& after.configuration@ == stable_sorted(before.configuration@)
    &&& after.sources@ == stable_sorted(before.sources@)
    &&& after.materials@ == stable_sorted(before.materials@)
    &&& after.excluded_paths@ == stable_sorted(before.excluded_paths@)
}

fn validate_materials(m: &Vec<InputMaterial>) -> (r: Result<(), ArtifactError>)
    ensures
        refused(r, materials_fault(m@)),
{
    let ghost checks = Seq::new(m@.len(), |k: int| material_fault(m@, k));
    let mut i: usize = 0;
    while i < m.len()
        invariant
            checks == Seq::new(m@.len(), |k: int| material_fault(m@, k)),
            i <= m.len(),
            forall|k: int| 0 <= k < i ==> (#[trigger] checks[k]) is None,
        decreases m.len() - i,
    {
        let x = &m[i];
        let r = validate_material_token(x.id.as_str(), "material id");
        if r.is_err() {
            proof {
                lemma_first_some_at(checks, i as int);
            }
            return r;
        }
        let r = validate_material_token(x.kind.as_str(), "material kind");
        if r.is_err() {
            proof {
                lemma_first_some_at(checks, i as int);
            }
            return r;
        }
        if i > 0 && !str_lt(m[i - 1].id.as_str(), x.id.as_str()) {
            proof {
                lemma_first_some_at(checks, i as int);
            }
            return Err(ArtifactError::InvalidReceipt("materials are duplicated or not strictly ordered".to_owned()));
        }
        if !(str_eq(x.selection.as_str(), "tree-v1") || str_eq(x.selection.as_str(), "exact-files-v1"))
            || x.file_count == 0 {
            let mut s = String::new();
            push_str(&mut s, "material ");
            push_str(&mut s, debug_quoted(x.id.as_str()).as_str());
            push_str(&mut s, " has an invalid or empty selection");
            proof {
                assert(s@ =~= "material "@ + debug_text(x.id@) + " has an invalid or empty selection"@);
                lemma_first_some_at(checks, i as int);
            }
            return Err(ArtifactError::InvalidReceipt(s));
        }
        match validate_sha256(x.sha256.as_str(), "material") {
            Ok(()) => {},
            Err(e) => {
                proof {
                    lemma_first_some_at(checks, i as int);
                }
                return Err(e);
            },
        }
        assert(checks[i as int] is None);
        i = i + 1;
    }
    proof {
        lemma_first_some_none(checks);
    }
    Ok(())
}

fn count_inputs(configuration: usize, sources: usize, m: &Vec<InputMaterial>) -> (r: Result<(), ArtifactError>)
    ensures
        refused(r, input_count_fault(configuration as nat, sources as nat, m@)),
{
    let base = match configuration.checked_add(sources) {
        Some(n) => n as u64,
        None => {
            return Err(ArtifactError::InvalidReceipt("input file count overflowed u64".to_owned()));
        },
    };
    let mut total: u64 = base;
    let mut i: usize = 0;
    while i < m.len()
        invariant
            i <= m.len(),
            base == configuration + sources,
            total == base + material_files(m@, i as int),
        decreases m.len() - i,
    {
        match total.checked_add(m[i].file_count) {
            Some(n) => {
                total = n;
            },
            None => {
                proof {
                    lemma_material_files_grow(m@, i + 1, m@.len() as int);
                }
                return Err(ArtifactError::InvalidReceipt("input file count overflowed u64".to_owned()));
            },
        }
        i = i + 1;
    }
    if total > MAX_ARTIFACT_FILES as u64 {
        let mut s = String::new();
        push_str(&mut s, "input set exceeds ");
        push_str(&mut s, decimal_string(MAX_ARTIFACT_FILES as u64).as_str());
        push_str(&mut s, " files");
        proof {
            assert(s@ =~= "input set exceeds "@ + decimal_of(MAX_ARTIFACT_FILES as nat) + " files"@);
        }
        return Err(ArtifactError::InvalidReceipt(s));
    }
    Ok(())
}

proof fn lemma_material_files_grow(m: Seq<InputMaterial>, i: int, j: int)
    requires
        0 <= i <= j <= m.len(),
    ensures
        material_files(m, i) <= material_files(m, j),
    decreases j - i,
{
    if i < j {
        lemma_material_files_grow(m, i, j - 1);
    }
}

fn validate_toolchain(t: &Vec<ToolchainEvidence>) -> (r: Result<(), ArtifactError>)
    ensures
        refused(r, either(toolchain_order_fault(t@), toolchain_names_fault(t@))),
{
    let mut i: usize = 1;
    while i < t.len()
        invariant
            1 <= i,
            forall|k: int| 0 <= k && k + 1 < i && k + 1 < t.len() ==> !#[trigger] toolchain_pair_unordered(t@, k),
        decreases t.len() - i,
    {
        if !str_lt(t[i - 1].name.as_str(), t[i].name.as_str()) {
            proof {
                assert(toolchain_pair_unordered(t@, i - 1));
            }
            return Err(ArtifactError::InvalidReceipt("toolchain entries are duplicated or not strictly ordered".to_owned()));
        }
        i = i + 1;
    }
    let mut cargo = false;
    let mut rustc = false;
    let mut known = true;
    let mut j: usize = 0;
    while j < t.len()
        invariant
            j <= t.len(),
            cargo == exists|k: int| 0 <= k < j && #[trigger] t@[k].name@ == "cargo"@,
            rustc == exists|k: int| 0 <= k < j && #[trigger] t@[k].name@ == "rustc"@,
            known == forall|k: int| 0 <= k < j ==> known_tool(#[trigger] t@[k].name@),
        decreases t.len() - j,
    {
        let name = t[j].name.as_str();
        let is_cargo = str_eq(name, "cargo");
        let is_rustc = str_eq(name, "rustc");
        let is_bindgen = str_eq(name, "wasm-bindgen");
        proof {
            if !cargo && is_cargo {
                assert(t@[j as int].name@ == "cargo"@);
            }
            if !rustc && is_rustc {
                assert(t@[j as int].name@ == "rustc"@);
            }
            if known && !(is_cargo || is_rustc || is_bindgen) {
                assert(!known_tool(t@[j as int].name@));
            }
        }
        cargo = cargo || is_cargo;
        rustc = rustc || is_rustc;
        known = known && (is_cargo || is_rustc || is_bindgen);
        j = j + 1;
    }
    if !(cargo && rustc && known) {
        return Err(
            ArtifactError::InvalidReceipt(
                "toolchain must contain cargo and rustc, plus optional wasm-bindgen".to_owned(),
            ),
        );
    }
    Ok(())
}

fn validate_input_namespace(configuration: &Vec<EvidenceFile>, sources: &Vec<EvidenceFile>) -> (r: Result<
    (),
    ArtifactError,
>)
    ensures
        refused(r, input_namespace_fault(configuration@ + sources@)),
{
    let ghost all = configuration@ + sources@;
    let ghost checks = Seq::new(all.len(), |k: int| input_insert_fault(all, k));
    let mut namespace = OutputNamespace::new();
    proof {
        assert(namespace@ =~= empty_namespace());
    }
    let mut i: usize = 0;
    while i < configuration.len()
        invariant
            all == configuration@ + sources@,
            checks == Seq::new(all.len(), |k: int| input_insert_fault(all, k)),
            i <= configuration.len(),
            namespace.wf(),
            namespace@ == evidence_namespace(all, "build input"@, empty_namespace(), i as int),
            forall|k: int| 0 <= k < i ==> (#[trigger] checks[k]) is None,
        decreases configuration.len() - i,
    {
        assert(configuration[i as int] == all[i as int]);
        match namespace.insert_str(configuration[i].path.as_str(), "build input") {
            Ok(_) => {},
            Err(e) => {
                proof {
                    lemma_first_some_at(checks, i as int);
                }
                return Err(e);
            },
        }
        assert(checks[i as int] is None);
        i = i + 1;
    }
    let ghost n1 = configuration.len() as int;
    let mut j: usize = 0;
    while j < sources.len()
        invariant
            all == configuration@ + sources@,
            checks == Seq::new(all.len(), |k: int| input_insert_fault(all, k)),
            n1 == configuration.len(),
            j <= sources.len(),
            namespace.wf(),
            namespace@ == evidence_namespace(all, "build input"@, empty_namespace(), n1 + j),
            forall|k: int| 0 <= k < n1 + j ==> (#[trigger] checks[k]) is None,
        decreases sources.len() - j,
    {
        assert(sources[j as int] == all[n1 + j]);
        match namespace.insert_str(sources[j].path.as_str(), "build input") {
            Ok(_) => {},
            Err(e) => {
                proof {
                    lemma_first_some_at(checks, n1 + j);
                }
                return Err(e);
            },
        }
        assert(checks[n1 + j] is None);
        j = j + 1;
    }
    proof {
        lemma_first_some_none(checks);
    }
    Ok(())
}

fn validate_excluded_paths(x: &Vec<String>) -> (r: Result<(), ArtifactError>)
    ensures
        refused(r, excluded_fault(x@)),
{
    let ghost checks = Seq::new(x@.len(), |k: int| excluded_path_fault(x@, k));
    let mut i: usize = 0;
    while i < x.len()
        invariant
            checks == Seq::new(x@.len(), |k: int| excluded_path_fault(x@, k)),
            i <= x.len(),
            forall|k: int| 0 <= k < i ==> (#[trigger] checks[k]) is None,
        decreases x.len() - i,
    {
        let portable = match PortablePath::parse(x[i].as_str()) {
            Ok(p) => p,
            Err(e) => {
                proof {
                    lemma_first_some_at(checks, i as int);
                }
                return Err(e);
            },
        };
        if !str_eq(portable.as_str(), x[i].as_str()) || (i > 0 && !str_lt(x[i - 1].as_str(), x[i].as_str())) {
            proof {
                lemma_first_some_at(checks, i as int);
            }
            return Err(
                ArtifactError::InvalidReceipt(
                    "excluded paths are non-canonical, duplicated, or not strictly ordered".to_owned(),
                ),
            );
        }
        assert(checks[i as int] is None);
        i = i + 1;
    }
    proof {
        lemma_first_some_none(checks);
    }
    Ok(())
}

/// Everything `normalize_context` refuses, in its order, given the JSON of
/// the sorted sources and materials.
pub open spec fn normalization_fault(c: BuildContext, source_set_json: Seq<u8>) -> Option<Refusal> {
    either(context_fault(c), source_set_fault(c, source_set_json))
}

/// Sorts every list of a build context and checks it: ownership, framework
/// and toolchain evidence, configuration and source evidence sets, materials,
/// the bound on input files, the toolchain's tools, one namespace for all
/// inputs, strictly ordered canonical excluded paths, then the recorded
/// source-set digest against `source_set_json`, the JSON of the sorted
/// sources and materials, and a name and version for every tool.
pub fn normalize_context(context: &mut BuildContext, source_set_json: &[u8]) -> (r: Result<(), ArtifactError>)
    ensures
        refused(r, normalization_fault(*old(context), source_set_json@)),
        presort_fault(*old(context)) is Some ==> *final(context) == *old(context),
        presort_fault(*old(context)) is None ==> sorted_from(*final(context), *old(context)),
{
    match validate_ownership(&context.ownership) {
        Ok(()) => {},
        Err(e) => {
            return Err(e);
        },
    }
    if blank(context.framework.version.as_str()) || blank(context.framework.source_revision.as_str()) {
        return Err(ArtifactError::InvalidReceipt("framework version and source revision are required".to_owned()));
    }
    if context.toolchain.len() == 0 {
        return Err(ArtifactError::InvalidReceipt("at least one toolchain entry is required".to_owned()));
    }
    let ghost before = *context;
    sort_by_key(&mut context.toolchain);
    sort_by_key(&mut context.configuration);
    sort_by_key(&mut context.sources);
    sort_by_key(&mut context.materials);
    sort_by_key(&mut context.excluded_paths);
    assert(sorted_from(*context, before));
    let r = validate_evidence_set(&context.configuration, "configuration");
    if r.is_err() {
        return r;
    }
    let r = validate_evidence_set(&context.sources, "source");
    if r.is_err() {
        return r;
    }
    let r = validate_materials(&context.materials);
    if r.is_err() {
        return r;
    }
    let r = count_inputs(context.configuration.len(), context.sources.len(), &context.materials);
    if r.is_err() {
        return r;
    }
    let r = validate_toolchain(&context.toolchain);
    if r.is_err() {
        return r;
    }
    let r = validate_input_namespace(&context.configuration, &context.sources);
    if r.is_err() {
        return r;
    }
    let r = validate_excluded_paths(&context.excluded_paths);
    if r.is_err() {
        return r;
    }
    proof {
        lemma_source_set_fault_sorted(before, *context, source_set_json@);
    }
    verify_source_set(context, source_set_json)
}

/// A tool without a name or without a version.
pub open spec fn blank_tool(t: ToolchainEvidence) -> bool {
    trim(t.name@).len() == 0 || trim(t.version@).len() == 0
}

/// What `verify_source_set` refuses: a digest of the serialized sources and
/// materials other than the recorded one, then a blank tool name or version.
pub open spec fn source_set_fault(c: BuildContext, source_set_json: Seq<u8>) -> Option<Refusal> {
    if sha256_hex(source_set_json) != c.source_set_sha256@ {
        Some(Refusal::Receipt("source-set SHA-256 mismatch"@))
    } else if exists|i: int| 0 <= i < c.toolchain.len() && #[trigger] blank_tool(c.toolchain@[i]) {
        Some(Refusal::Receipt("toolchain name and version are required"@))
    } else {
        None
    }
}

/// Completes the checks of a normalized context: the recorded source-set
/// digest must be the SHA-256 of `source_set_json`, the JSON of its sources
/// and materials, and every tool must have a name and a version.
pub fn verify_source_set(context: &BuildContext, source_set_json: &[u8]) -> (r: Result<(), ArtifactError>)
    ensures
        refused(r, source_set_fault(*context, source_set_json@)),
{
    let digest = sha256_bytes(source_set_json);
    if !str_eq(digest.as_str(), context.source_set_sha256.as_str()) {
        return Err(ArtifactError::InvalidReceipt("source-set SHA-256 mismatch".to_owned()));
    }
    let mut i: usize = 0;
    while i < context.toolchain.len()
        invariant
            i <= context.toolchain.len(),
            sha256_hex(source_set_json@) == context.source_set_sha256@,
            forall|k: int| 0 <= k < i ==> !#[trigger] blank_tool(context.toolchain@[k]),
        decreases context.toolchain.len() - i,
    {
        if blank(context.toolchain[i].name.as_str()) || blank(context.toolchain[i].version.as_str()) {
            assert(blank_tool(context.toolchain@[i as int]));
            return Err(ArtifactError::InvalidReceipt("toolchain name and version are required".to_owned()));
        }
        i = i + 1;
    }
    Ok(())
}

/// Sorting the lists of a context changes nothing `verify_source_set` reads.
proof fn lemma_source_set_fault_sorted(before: BuildContext, after: BuildContext, source_set_json: Seq<u8>)
    requires
        sorted_from(after, before),
    ensures
        source_set_fault(after, source_set_json) == source_set_fault(before, source_set_json),
{
    broadcast use vstd::seq_lib::group_to_multiset_ensures;
    crate::sorting::lemma_stable_sorted_multiset(before.toolchain@);
    let a = after.toolchain@;
    let b = before.toolchain@;
    assert(a.to_multiset() == b.to_multiset());
    lemma_blank_tool_moves(a, b);
    lemma_blank_tool_moves(b, a);
}

/// A tool without a name or version in one list is in any list with the same
/// entries.
proof fn lemma_blank_tool_moves(a: Seq<ToolchainEvidence>, b: Seq<ToolchainEvidence>)
    requires
        a.to_multiset() == b.to_multiset(),
    ensures
        (exists|i: int| 0 <= i < a.len() && #[trigger] blank_tool(a[i])) ==> exists|j: int|
            0 <= j < b.len() && #[trigger] blank_tool(b[j]),
{
    broadcast use vstd::seq_lib::group_to_multiset_ensures;
    if exists|i: int| 0 <= i < a.len() && #[trigger] blank_tool(a[i]) {
        let i = choose|i: int| 0 <= i < a.len() && #[trigger] blank_tool(a[i]);
        let x = a[i];
        assert(a.contains(x));
        assert(a.to_multiset().count(x) > 0);
        assert(b.to_multiset().count(x) > 0);
        assert(b.contains(x));
        let j = choose|j: int| 0 <= j < b.len() && b[j] == x;
        assert(blank_tool(b[j]));
    }
}

/// Two contexts with the same scalar fields whose lists hold the same
/// entries, perhaps in another order.
pub open spec fn same_entries(a: BuildContext, b: BuildContext) -> bool {
    &&& a.ownership == b.ownership
    &&& a.framework == b.framework
    &&& a.source_set_sha256 == b.source_set_sha256
    &&& a.toolchain@.to_multiset() == b.toolchain@.to_multiset()
    &&& a.configuration@.to_multiset() == b.configuration@.to_multiset()
    &&& a.sources@.to_multiset() == b.sources@.to_multiset()
    &&& a.materials@.to_multiset() == b.materials@.to_multiset()
    &&& a.excluded_paths@.to_multiset() == b.excluded_paths@.to_multiset()
}

proof fn lemma_evidence_set_strict(files: Seq<EvidenceFile>, label: Seq<char>)
    requires
        evidence_set_fault(files, label) is None,
    ensures
        keys_adjacent_strict(files),
{
    let checks = Seq::new(
        files.len(),
        |k: int| evidence_fault(files, label, k, evidence_namespace(files, label, empty_namespace(), k)),
    );
    lemma_first_some_none_all(checks);
    assert forall|i: int| 0 < i < files.len() implies seq_lt(files[i - 1].sort_key(), #[trigger] files[i].sort_key()) by {
        assert(checks[i] is None);
    }
}

/// The order in which a context lists its entries does not matter: when one
/// arrangement is accepted, every arrangement of the same entries is accepted
/// too, and sorts to the same lists.
pub proof fn law_normalization_ignores_list_order(a: BuildContext, b: BuildContext)
    requires
        same_entries(a, b),
        context_fault(a) is None,
    ensures
        context_fault(b) is None,
        stable_sorted(a.toolchain@) == stable_sorted(b.toolchain@),
        stable_sorted(a.configuration@) == stable_sorted(b.configuration@),
        stable_sorted(a.sources@) == stable_sorted(b.sources@),
        stable_sorted(a.materials@) == stable_sorted(b.materials@),
        stable_sorted(a.excluded_paths@) == stable_sorted(b.excluded_paths@),
{
    broadcast use vstd::seq_lib::group_to_multiset_ensures;
    let t = stable_sorted(a.toolchain@);
    let cf = stable_sorted(a.configuration@);
    let so = stable_sorted(a.sources@);
    let m = stable_sorted(a.materials@);
    let x = stable_sorted(a.excluded_paths@);
    assert(presort_fault(a) is None);
    assert(sorted_fault(t, cf, so, m, x) is None);
    lemma_evidence_set_strict(cf, "configuration"@);
    lemma_evidence_set_strict(so, "source"@);
    assert forall|i: int| 0 < i < t.len() implies seq_lt(t[i - 1].sort_key(), #[trigger] t[i].sort_key()) by {
        assert(!toolchain_pair_unordered(t, i - 1));
    }
    let mchecks = Seq::new(m.len(), |k: int| material_fault(m, k));
    lemma_first_some_none_all(mchecks);
    assert forall|i: int| 0 < i < m.len() implies seq_lt(m[i - 1].sort_key(), #[trigger] m[i].sort_key()) by {
        assert(mchecks[i] is None);
    }
    let xchecks = Seq::new(x.len(), |k: int| excluded_path_fault(x, k));
    lemma_first_some_none_all(xchecks);
    assert forall|i: int| 0 < i < x.len() implies seq_lt(x[i - 1].sort_key(), #[trigger] x[i].sort_key()) by {
        assert(xchecks[i] is None);
    }
    lemma_sort_ignores_arrangement(a.toolchain@, b.toolchain@);
    lemma_sort_ignores_arrangement(a.configuration@, b.configuration@);
    lemma_sort_ignores_arrangement(a.sources@, b.sources@);
    lemma_sort_ignores_arrangement(a.materials@, b.materials@);
    lemma_sort_ignores_arrangement(a.excluded_paths@, b.excluded_paths@);
    assert(a.toolchain@.len() == a.toolchain@.to_multiset().len());
    assert(b.toolchain@.len() == b.toolchain@.to_multiset().len());
    assert(presort_fault(b) == presort_fault(a));
}

/// Version of the report that wraps a receipt.
pub const BUILD_REPORT_VERSION: &'static str = "2.0.0";

/// Version of the receipt format.
pub const RECEIPT_VERSION: &'static str = "2.0.0";

/// Version of the namespace rules.
pub const NAMESPACE_VERSION: &'static str = "1.0.0";

/// The files a build emitted, with their count, size and digest.
#[derive(Clone, Debug)]
pub struct OutputSet {
    pub files: Vec<OutputFile>,
    pub file_count: u64,
    pub total_bytes: u64,
    pub sha256: String,
}

/// The project an output tree may only be replaced from.
#[derive(Clone, Debug)]
pub struct ReplacementPolicy {
    pub required_previous_project_id: String,
}

/// The receipt an output tree held before this build replaced it.
#[derive(Clone, Debug)]
pub struct PreviousOwnership {
    pub project_id: String,
    pub site_package: String,
    pub receipt_sha256: String,
}

/// What a build read and wrote.
#[derive(Clone, Debug)]
pub struct ArtifactReceipt {
    pub receipt_version: String,
    pub namespace_version: String,
    pub context: BuildContext,
    pub replacement_policy: ReplacementPolicy,
    pub previous_ownership: Option<PreviousOwnership>,
    pub outputs: OutputSet,
}

/// A receipt with its digest, as the ledger stores it.
#[derive(Clone, Debug)]
pub struct BuildReport {
    pub report_version: String,
    pub receipt_sha256: String,
    pub receipt: ArtifactReceipt,
}

/// A record whose fields can be compared by their values.
pub trait SameRecord: Sized {
    /// Every field holds the same value.
    spec fn same(&self, other: &Self) -> bool;

    fn same_as(&self, other: &Self) -> (r: bool)
        ensures
            r == self.same(other),
    ;
}

impl SameRecord for String {
    open spec fn same(&self, other: &Self) -> bool {
        self@ == other@
    }

    fn same_as(&self, other: &Self) -> (r: bool) {
        str_eq(self.as_str(), other.as_str())
    }
}

impl SameRecord for EvidenceFile {
    open spec fn same(&self, other: &Self) -> bool {
        self.path@ == other.path@ && self.bytes == other.bytes && self.sha256@ == other.sha256@
    }

    fn same_as(&self, other: &Self) -> (r: bool) {
        str_eq(self.path.as_str(), other.path.as_str()) && self.bytes == other.bytes && str_eq(
            self.sha256.as_str(),
            other.sha256.as_str(),
        )
    }
}

impl SameRecord for ToolchainEvidence {
    open spec fn same(&self, other: &Self) -> bool {
        self.name@ == other.name@ && self.version@ == other.version@
    }

    fn same_as(&self, other: &Self) -> (r: bool) {
        str_eq(self.name.as_str(), other.name.as_str()) && str_eq(self.version.as_str(), other.version.as_str())
    }
}

impl SameRecord for InputMaterial {
    open spec fn same(&self, other: &Self) -> bool {
        &&& self.id@ == other.id@
        &&& self.kind@ == other.kind@
        &&& self.selection@ == other.selection@
        &&& self.file_count == other.file_count
        &&& self.total_bytes == other.total_bytes
        &&& self.sha256@ == other.sha256@
    }

    fn same_as(&self, other: &Self) -> (r: bool) {
        str_eq(self.id.as_str(), other.id.as_str()) && str_eq(self.kind.as_str(), other.kind.as_str()) && str_eq(
            self.selection.as_str(),
            other.selection.as_str(),
        ) && self.file_count == other.file_count && self.total_bytes == other.total_bytes && str_eq(
            self.sha256.as_str(),
            other.sha256.as_str(),
        )
    }
}

impl SameRecord for OutputFile {
    open spec fn same(&self, other: &Self) -> bool {
        &&& self.path@ == other.path@
        &&& self.kind@ == other.kind@
        &&& self.producer@ == other.producer@
        &&& self.bytes == other.bytes
        &&& self.sha256@ == other.sha256@
    }

    fn same_as(&self, other: &Self) -> (r: bool) {
        str_eq(self.path.as_str(), other.path.as_str()) && str_eq(self.kind.as_str(), other.kind.as_str()) && str_eq(
            self.producer.as_str(),
            other.producer.as_str(),
        ) && self.bytes == other.bytes && str_eq(self.sha256.as_str(), other.sha256.as_str())
    }
}

/// Two lists of the same length whose entries are the same, in order.
pub open spec fn same_lists<T: SameRecord>(a: Seq<T>, b: Seq<T>) -> bool {
    a.len() == b.len() && forall|i: int| 0 <= i < a.len() ==> #[trigger] a[i].same(&b[i])
}

pub fn same_list<T: SameRecord>(a: &Vec<T>, b: &Vec<T>) -> (r: bool)
    ensures
        r == same_lists(a@, b@),
{
    if a.len() != b.len() {
        return false;
    }
    let mut i: usize = 0;
    while i < a.len()
        invariant
            a.len() == b.len(),
            i <= a.len(),
            forall|k: int| 0 <= k < i ==> #[trigger] a@[k].same(&b@[k]),
        decreases a.len() - i,
    {
        if !a[i].same_as(&b[i]) {
            return false;
        }
        i = i + 1;
    }
    true
}

/// Two contexts that record the same values.
pub open spec fn same_context(a: BuildContext, b: BuildContext) -> bool {
    &&& a.ownership.project_id@ == b.ownership.project_id@
    &&& a.ownership.site_package@ == b.ownership.site_package@
    &&& a.framework.version@ == b.framework.version@
    &&& a.framework.source_revision@ == b.framework.source_revision@
    &&& same_lists(a.toolchain@, b.toolchain@)
    &&& same_lists(a.configuration@, b.configuration@)
    &&& same_lists(a.sources@, b.sources@)
    &&& same_lists(a.materials@, b.materials@)
    &&& a.source_set_sha256@ == b.source_set_sha256@
    &&& same_lists(a.excluded_paths@, b.excluded_paths@)
}

/// Two receipts with the same versions, context, replacement policy and
/// outputs; their previous ownership may differ.
pub open spec fn same_core(a: ArtifactReceipt, b: ArtifactReceipt) -> bool {
    &&& a.receipt_version@ == b.receipt_version@
    &&& a.namespace_version@ == b.namespace_version@
    &&& same_context(a.context, b.context)
    &&& a.replacement_policy.required_previous_project_id@ == b.replacement_policy.required_previous_project_id@
    &&& same_lists(a.outputs.files@, b.outputs.files@)
    &&& a.outputs.file_count == b.outputs.file_count
    &&& a.outputs.total_bytes == b.outputs.total_bytes
    &&& a.outputs.sha256@ == b.outputs.sha256@
}

fn same_context_as(a: &BuildContext, b: &BuildContext) -> (r: bool)
    ensures
        r == same_context(*a, *b),
{
    str_eq(a.ownership.project_id.as_str(), b.ownership.project_id.as_str()) && str_eq(
        a.ownership.site_package.as_str(),
        b.ownership.site_package.as_str(),
    ) && str_eq(a.framework.version.as_str(), b.framework.version.as_str()) && str_eq(
        a.framework.source_revision.as_str(),
        b.framework.source_revision.as_str(),
    ) && same_list(&a.toolchain, &b.toolchain) && same_list(&a.configuration, &b.configuration) && same_list(
        &a.sources,
        &b.sources,
    ) && same_list(&a.materials, &b.materials) && str_eq(a.source_set_sha256.as_str(), b.source_set_sha256.as_str())
        && same_list(&a.excluded_paths, &b.excluded_paths)
}

impl ArtifactReceipt {
    /// Whether two receipts record the same artifact: the same versions,
    /// context, replacement policy and outputs, whatever their previous
    /// ownership.
    pub fn same_artifact_core(&self, other: &Self) -> (r: bool)
        ensures
            r == same_core(*self, *other),
    {
        str_eq(self.receipt_version.as_str(), other.receipt_version.as_str()) && str_eq(
            self.namespace_version.as_str(),
            other.namespace_version.as_str(),
        ) && same_context_as(&self.context, &other.context) && str_eq(
            self.replacement_policy.required_previous_project_id.as_str(),
            other.replacement_policy.required_previous_project_id.as_str(),
        ) && same_list(&self.outputs.files, &other.outputs.files) && self.outputs.file_count
            == other.outputs.file_count && self.outputs.total_bytes == other.outputs.total_bytes && str_eq(
            self.outputs.sha256.as_str(),
            other.outputs.sha256.as_str(),
        )
    }
}

/// A value that can be copied exactly.
pub trait Duplicate: Sized {
    fn duplicate(&self) -> (r: Self)
        ensures
            r == *self,
    ;
}

impl Duplicate for String {
    fn duplicate(&self) -> (r: Self) {
        self.clone()
    }
}

impl Duplicate for EvidenceFile {
    fn duplicate(&self) -> (r: Self) {
        EvidenceFile { path: self.path.clone(), bytes: self.bytes, sha256: self.sha256.clone() }
    }
}

impl Duplicate for ToolchainEvidence {
    fn duplicate(&self) -> (r: Self) {
        ToolchainEvidence { name: self.name.clone(), version: self.version.clone() }
    }
}

impl Duplicate for InputMaterial {
    fn duplicate(&self) -> (r: Self) {
        InputMaterial {
            id: self.id.clone(),
            kind: self.kind.clone(),
            selection: self.selection.clone(),
            file_count: self.file_count,
            total_bytes: self.total_bytes,
            sha256: self.sha256.clone(),
        }
    }
}

impl Duplicate for OutputFile {
    fn duplicate(&self) -> (r: Self) {
        OutputFile {
            path: self.path.clone(),
            kind: self.kind.clone(),
            producer: self.producer.clone(),
            bytes: self.bytes,
            sha256: self.sha256.clone(),
        }
    }
}

/// An exact copy of a list.
pub fn duplicate_vec<T: Duplicate>(v: &Vec<T>) -> (r: Vec<T>)
    ensures
        r@ == v@,
{
    let mut out: Vec<T> = Vec::new();
    let mut i: usize = 0;
    while i < v.len()
        invariant
            i <= v.len(),
            out@ == v@.take(i as int),
        decreases v.len() - i,
    {
        out.push(v[i].duplicate());
        i = i + 1;
        proof {
            assert(v@.take(i as int) =~= v@.take(i - 1).push(v@[i - 1]));
        }
    }
    proof {
        assert(v@.take(v.len() as int) =~= v@);
    }
    out
}

/// An exact copy of a build context.
pub fn duplicate_context(c: &BuildContext) -> (r: BuildContext)
    ensures
        r.ownership == c.ownership,
        r.framework == c.framework,
        r.source_set_sha256 == c.source_set_sha256,
        r.toolchain@ == c.toolchain@,
        r.configuration@ == c.configuration@,
        r.sources@ == c.sources@,
        r.materials@ == c.materials@,
        r.excluded_paths@ == c.excluded_paths@,
{
    BuildContext {
        ownership: Ownership {
            project_id: c.ownership.project_id.clone(),
            site_package: c.ownership.site_package.clone(),
        },
        framework: FrameworkEvidence {
            version: c.framework.version.clone(),
            source_revision: c.framework.source_revision.clone(),
        },
        toolchain: duplicate_vec(&c.toolchain),
        configuration: duplicate_vec(&c.configuration),
        sources: duplicate_vec(&c.sources),
        materials: duplicate_vec(&c.materials),
        source_set_sha256: c.source_set_sha256.clone(),
        excluded_paths: duplicate_vec(&c.excluded_paths),
    }
}

/// Every list of the context already in normalized order: each strictly
/// increasing by its key, which is exactly when sorting leaves it unchanged.
pub open spec fn canonically_ordered(c: BuildContext) -> bool {
    &&& keys_adjacent_strict(c.toolchain@)
    &&& keys_adjacent_strict(c.configuration@)
    &&& keys_adjacent_strict(c.sources@)
    &&& keys_adjacent_strict(c.materials@)
    &&& keys_adjacent_strict(c.excluded_paths@)
}

fn adjacent_strict<T: SortKey>(v: &Vec<T>) -> (b: bool)
    ensures
        b == keys_adjacent_strict(v@),
{
    let mut i: usize = 1;
    while i < v.len()
        invariant
            1 <= i,
            forall|k: int| 0 < k < i && k < v.len() ==> seq_lt(v@[k - 1].sort_key(), #[trigger] v@[k].sort_key()),
        decreases v.len() - i,
    {
        if !str_lt(v[i - 1].key_str(), v[i].key_str()) {
            return false;
        }
        i = i + 1;
    }
    true
}

/// The checks a receipt's lineage must pass, for a receipt whose digest is
/// `receipt_sha256`.
pub open spec fn lineage_fault(r: ArtifactReceipt, receipt_sha256: Seq<char>) -> Option<Refusal> {
    let required = r.replacement_policy.required_previous_project_id@;
    either(
        from_fault(project_fault(required)),
        if required != r.context.ownership.project_id@ {
            Some(Refusal::Receipt("previous ownership policy must match the receipt project"@))
        } else {
            match r.previous_ownership {
                None => None,
                Some(p) => either(
                    from_fault(project_fault(p.project_id@)),
                    either(
                        from_fault(sha_fault(p.receipt_sha256@, "previous receipt"@)),
                        if trim(p.site_package@).len() == 0 || p.project_id@ != required || p.receipt_sha256@
                            == receipt_sha256 {
                            Some(
                                Refusal::Receipt(
                                    "previous ownership must identify a distinct receipt from the required project"@,
                                ),
                            )
                        } else {
                            None
                        },
                    ),
                ),
            }
        },
    )
}

/// Everything a receipt recorded under the digest `receipt_sha256` is
/// refused for, in order, given the JSON of its sources and materials, of its
/// output list and of itself.
pub open spec fn receipt_fault(
    r: ArtifactReceipt,
    receipt_sha256: Seq<char>,
    source_set_json: Seq<u8>,
    outputs_json: Seq<u8>,
    receipt_json: Seq<u8>,
) -> Option<Refusal> {
    let files = r.outputs.files@;
    if r.receipt_version@ != RECEIPT_VERSION@ || r.namespace_version@ != NAMESPACE_VERSION@ {
        Some(Refusal::Receipt("unsupported receipt or namespace version"@))
    } else if normalization_fault(r.context, source_set_json) is Some {
        normalization_fault(r.context, source_set_json)
    } else if !canonically_ordered(r.context) {
        Some(Refusal::Receipt("context is not canonically ordered"@))
    } else if outputs_fault(files) is Some {
        outputs_fault(files)
    } else if r.outputs.file_count != files.len() || r.outputs.total_bytes != output_bytes(files, files.len() as int)
        || r.outputs.sha256@ != sha256_hex(outputs_json) {
        Some(Refusal::Receipt("output-set aggregate does not match declared files"@))
    } else if receipt_sha256 != sha256_hex(receipt_json) {
        Some(Refusal::Receipt("receipt SHA-256 mismatch"@))
    } else {
        lineage_fault(r, receipt_sha256)
    }
}

/// Everything `validate_report` refuses, in its order, given the JSON of the
/// sources and materials, of the output list and of the receipt.
pub open spec fn report_fault(r: BuildReport, source_set_json: Seq<u8>, outputs_json: Seq<u8>, receipt_json: Seq<u8>) -> Option<
    Refusal,
> {
    if r.report_version@ != BUILD_REPORT_VERSION@ {
        Some(Refusal::Receipt("unsupported report version "@ + debug_text(r.report_version@)))
    } else {
        receipt_fault(r.receipt, r.receipt_sha256@, source_set_json, outputs_json, receipt_json)
    }
}

/// The sum of the sizes of a list of output files.
pub open spec fn sizes_total(files: Seq<OutputFile>) -> int
    decreases files.len(),
{
    if files.len() == 0 {
        0
    } else {
        sizes_total(files.drop_last()) + files.last().bytes
    }
}

proof fn lemma_output_bytes_is_sizes_total(files: Seq<OutputFile>, k: int)
    requires
        0 <= k <= files.len(),
    ensures
        output_bytes(files, k) == sizes_total(files.take(k)),
    decreases k,
{
    if k > 0 {
        lemma_output_bytes_is_sizes_total(files, k - 1);
        assert(files.take(k).drop_last() =~= files.take(k - 1));
        assert(files.take(k).last() == files[k - 1]);
    } else {
        assert(files.take(k).len() == 0);
    }
}

/// An accepted receipt's output-set aggregate describes its files: the
/// declared count is the number of files, the declared total is the sum of
/// their sizes, and the declared digests are those of the output list's JSON
/// and of the receipt's JSON.
pub proof fn law_accepted_receipt_aggregates_match_files(
    r: ArtifactReceipt,
    receipt_sha256: Seq<char>,
    source_set_json: Seq<u8>,
    outputs_json: Seq<u8>,
    receipt_json: Seq<u8>,
)
    requires
        receipt_fault(r, receipt_sha256, source_set_json, outputs_json, receipt_json) is None,
    ensures
        r.outputs.file_count == r.outputs.files.len(),
        r.outputs.total_bytes == sizes_total(r.outputs.files@),
        r.outputs.sha256@ == sha256_hex(outputs_json),
        receipt_sha256 == sha256_hex(receipt_json),
{
    lemma_output_bytes_is_sizes_total(r.outputs.files@, r.outputs.files@.len() as int);
    assert(r.outputs.files@.take(r.outputs.files@.len() as int) =~= r.outputs.files@);
}

/// An accepted report's receipt declares the number and total size of its
/// output files, and the report records the receipt's digest.
pub proof fn law_accepted_report_aggregates_match_files(
    report: BuildReport,
    source_set_json: Seq<u8>,
    outputs_json: Seq<u8>,
    receipt_json: Seq<u8>,
)
    requires
        report_fault(report, source_set_json, outputs_json, receipt_json) is None,
    ensures
        report.receipt.outputs.file_count == report.receipt.outputs.files.len(),
        report.receipt.outputs.total_bytes == sizes_total(report.receipt.outputs.files@),
        report.receipt.outputs.sha256@ == sha256_hex(outputs_json),
        report.receipt_sha256@ == sha256_hex(receipt_json),
{
    law_accepted_receipt_aggregates_match_files(
        report.receipt,
        report.receipt_sha256@,
        source_set_json,
        outputs_json,
        receipt_json,
    );
}

proof fn lemma_outputs_total_bounded(files: Seq<OutputFile>)
    requires
        outputs_fault(files) is None,
    ensures
        output_bytes(files, files.len() as int) <= MAX_OUTPUT_TOTAL_BYTES,
{
    if files.len() > 0 {
        let checks = Seq::new(files.len(), |k: int| output_fault(files, k));
        lemma_first_some_none_all(checks);
        assert(checks[files.len() - 1] is None);
    }
}

/// Sum of the sizes of a checked output list.
pub fn total_output_bytes(files: &Vec<OutputFile>) -> (total: u64)
    requires
        outputs_fault(files@) is None,
    ensures
        total == output_bytes(files@, files@.len() as int),
{
    proof {
        lemma_outputs_total_bounded(files@);
    }
    let mut total: u64 = 0;
    let mut i: usize = 0;
    while i < files.len()
        invariant
            i <= files.len(),
            total == output_bytes(files@, i as int),
            output_bytes(files@, files@.len() as int) <= MAX_OUTPUT_TOTAL_BYTES,
        decreases files.len() - i,
    {
        proof {
            lemma_output_bytes_grow(files@, i + 1, files@.len() as int);
        }
        total = total + files[i].bytes;
        i = i + 1;
    }
    total
}

proof fn lemma_output_bytes_grow(files: Seq<OutputFile>, i: int, j: int)
    requires
        0 <= i <= j <= files.len(),
    ensures
        output_bytes(files, i) <= output_bytes(files, j),
    decreases j - i,
{
    if i < j {
        lemma_output_bytes_grow(files, i, j - 1);
    }
}

fn validate_lineage(receipt: &ArtifactReceipt, receipt_sha256: &str) -> (r: Result<(), ArtifactError>)
    ensures
        refused(r, lineage_fault(*receipt, receipt_sha256@)),
{
    let required = receipt.replacement_policy.required_previous_project_id.as_str();
    match validate_project_id(required) {
        Ok(()) => {},
        Err(e) => {
            return Err(e);
        },
    }
    if !str_eq(required, receipt.context.ownership.project_id.as_str()) {
        return Err(
            ArtifactError::InvalidReceipt("previous ownership policy must match the receipt project".to_owned()),
        );
    }
    match &receipt.previous_ownership {
        None => Ok(()),
        Some(previous) => {
            match validate_project_id(previous.project_id.as_str()) {
                Ok(()) => {},
                Err(e) => {
                    return Err(e);
                },
            }
            match validate_sha256(previous.receipt_sha256.as_str(), "previous receipt") {
                Ok(()) => {},
                Err(e) => {
                    return Err(e);
                },
            }
            if blank(previous.site_package.as_str()) || !str_eq(previous.project_id.as_str(), required) || str_eq(
                previous.receipt_sha256.as_str(),
                receipt_sha256,
            ) {
                return Err(
                    ArtifactError::InvalidReceipt(
                        "previous ownership must identify a distinct receipt from the required project".to_owned(),
                    ),
                );
            }
            Ok(())
        },
    }
}

/// Checks a receipt recorded under the digest `receipt_sha256`: supported
/// versions, a context already normalized whose source-set digest is that of
/// `source_set_json` (the JSON of its sources and materials), a valid output list whose count,
/// size and digest (of `outputs_json`, the JSON of the list) match its
/// aggregate, the receipt digest (of `receipt_json`, the JSON of the
/// receipt), and its lineage.
pub fn validate_receipt(
    receipt: &ArtifactReceipt,
    receipt_sha256: &str,
    source_set_json: &[u8],
    outputs_json: &[u8],
    receipt_json: &[u8],
) -> (r: Result<(), ArtifactError>)
    ensures
        refused(r, receipt_fault(*receipt, receipt_sha256@, source_set_json@, outputs_json@, receipt_json@)),
{
    if !str_eq(receipt.receipt_version.as_str(), RECEIPT_VERSION) || !str_eq(
        receipt.namespace_version.as_str(),
        NAMESPACE_VERSION,
    ) {
        return Err(ArtifactError::InvalidReceipt("unsupported receipt or namespace version".to_owned()));
    }
    let mut context = duplicate_context(&receipt.context);
    match normalize_context(&mut context, source_set_json) {
        Ok(()) => {},
        Err(e) => {
            return Err(e);
        },
    }
    let c = &receipt.context;
    if !(adjacent_strict(&c.toolchain) && adjacent_strict(&c.configuration) && adjacent_strict(&c.sources)
        && adjacent_strict(&c.materials) && adjacent_strict(&c.excluded_paths)) {
        return Err(ArtifactError::InvalidReceipt("context is not canonically ordered".to_owned()));
    }
    let files = &receipt.outputs.files;
    match validate_outputs(files) {
        Ok(()) => {},
        Err(e) => {
            return Err(e);
        },
    }
    let total = total_output_bytes(files);
    let digest = sha256_bytes(outputs_json);
    if receipt.outputs.file_count != files.len() as u64 || receipt.outputs.total_bytes != total
        || !str_eq(receipt.outputs.sha256.as_str(), digest.as_str()) {
        return Err(ArtifactError::InvalidReceipt("output-set aggregate does not match declared files".to_owned()));
    }
    let receipt_digest = sha256_bytes(receipt_json);
    if !str_eq(receipt_sha256, receipt_digest.as_str()) {
        return Err(ArtifactError::InvalidReceipt("receipt SHA-256 mismatch".to_owned()));
    }
    validate_lineage(receipt, receipt_sha256)
}

/// Checks a report: its version, then its receipt as `validate_receipt`
/// does, under the digest the report records.
pub fn validate_report(report: &BuildReport, source_set_json: &[u8], outputs_json: &[u8], receipt_json: &[u8]) -> (r:
    Result<(), ArtifactError>)
    ensures
        refused(r, report_fault(*report, source_set_json@, outputs_json@, receipt_json@)),
{
    if !str_eq(report.report_version.as_str(), BUILD_REPORT_VERSION) {
        let mut m = String::new();
        push_str(&mut m, "unsupported report version ");
        push_str(&mut m, debug_quoted(report.report_version.as_str()).as_str());
        proof {
            assert(m@ =~= "unsupported report version "@ + debug_text(report.report_version@));
        }
        return Err(ArtifactError::InvalidReceipt(m));
    }
    validate_receipt(&report.receipt, report.receipt_sha256.as_str(), source_set_json, outputs_json, receipt_json)
}

/// A context that already passed normalization sorts to itself.
pub proof fn lemma_normalized_context_is_canonical(c: BuildContext, before: BuildContext)
    requires
        context_fault(before) is None,
        sorted_from(c, before),
    ensures
        canonically_ordered(c),
        context_fault(c) is None,
        stable_sorted(c.toolchain@) == c.toolchain@,
        stable_sorted(c.configuration@) == c.configuration@,
        stable_sorted(c.sources@) == c.sources@,
        stable_sorted(c.materials@) == c.materials@,
        stable_sorted(c.excluded_paths@) == c.excluded_paths@,
{
    broadcast use vstd::seq_lib::group_to_multiset_ensures;
    law_normalization_ignores_list_order(before, before);
    lemma_sorted_lists_strict(before);
    crate::sorting::lemma_stable_sorted_multiset(before.toolchain@);
    crate::sorting::lemma_stable_sorted_multiset(before.configuration@);
    crate::sorting::lemma_stable_sorted_multiset(before.sources@);
    crate::sorting::lemma_stable_sorted_multiset(before.materials@);
    crate::sorting::lemma_stable_sorted_multiset(before.excluded_paths@);
    assert(same_entries(before, c));
    law_normalization_ignores_list_order(before, c);
    crate::sorting::lemma_stable_sorted_ascending(c.toolchain@);
    crate::sorting::lemma_stable_sorted_ascending(c.configuration@);
    crate::sorting::lemma_stable_sorted_ascending(c.sources@);
    crate::sorting::lemma_stable_sorted_ascending(c.materials@);
    crate::sorting::lemma_stable_sorted_ascending(c.excluded_paths@);
    crate::sorting::lemma_stable_sorted_multiset(c.toolchain@);
    crate::sorting::lemma_stable_sorted_multiset(c.configuration@);
    crate::sorting::lemma_stable_sorted_multiset(c.sources@);
    crate::sorting::lemma_stable_sorted_multiset(c.materials@);
    crate::sorting::lemma_stable_sorted_multiset(c.excluded_paths@);
    crate::sorting::lemma_strict_arrangement_unique(c.toolchain@, stable_sorted(c.toolchain@));
    crate::sorting::lemma_strict_arrangement_unique(c.configuration@, stable_sorted(c.configuration@));
    crate::sorting::lemma_strict_arrangement_unique(c.sources@, stable_sorted(c.sources@));
    crate::sorting::lemma_strict_arrangement_unique(c.materials@, stable_sorted(c.materials@));
    crate::sorting::lemma_strict_arrangement_unique(c.excluded_paths@, stable_sorted(c.excluded_paths@));
}

/// The sorted lists of an accepted context strictly increase by key.
proof fn lemma_sorted_lists_strict(a: BuildContext)
    requires
        context_fault(a) is None,
    ensures
        keys_adjacent_strict(stable_sorted(a.toolchain@)),
        keys_adjacent_strict(stable_sorted(a.configuration@)),
        keys_adjacent_strict(stable_sorted(a.sources@)),
        keys_adjacent_strict(stable_sorted(a.materials@)),
        keys_adjacent_strict(stable_sorted(a.excluded_paths@)),
{
    let t = stable_sorted(a.toolchain@);
    let cf = stable_sorted(a.configuration@);
    let so = stable_sorted(a.sources@);
    let m = stable_sorted(a.materials@);
    let x = stable_sorted(a.excluded_paths@);
    assert(sorted_fault(t, cf, so, m, x) is None);
    lemma_evidence_set_strict(cf, "configuration"@);
    lemma_evidence_set_strict(so, "source"@);
    assert forall|i: int| 0 < i < t.len() implies seq_lt(t[i - 1].sort_key(), #[trigger] t[i].sort_key()) by {
        assert(!toolchain_pair_unordered(t, i - 1));
    }
    let mchecks = Seq::new(m.len(), |k: int| material_fault(m, k));
    lemma_first_some_none_all(mchecks);
    assert forall|i: int| 0 < i < m.len() implies seq_lt(m[i - 1].sort_key(), #[trigger] m[i].sort_key()) by {
        assert(mchecks[i] is None);
    }
    let xchecks = Seq::new(x.len(), |k: int| excluded_path_fault(x, k));
    lemma_first_some_none_all(xchecks);
    assert forall|i: int| 0 < i < x.len() implies seq_lt(x[i - 1].sort_key(), #[trigger] x[i].sort_key()) by {
        assert(xchecks[i] is None);
    }
}

/// Sorts outputs by path, as a receipt lists them.
pub fn sort_outputs(files: &mut Vec<OutputFile>)
    ensures
        final(files)@ == stable_sorted(old(files)@),
{
    sort_by_key(files);
}

/// `r` is the receipt of `context`, the outputs `files` and the previous
/// ownership `previous`, whose output list has the JSON `outputs_json`.
pub open spec fn assembled_from(
    r: ArtifactReceipt,
    context: BuildContext,
    files: Seq<OutputFile>,
    previous: Option<PreviousOwnership>,
    outputs_json: Seq<u8>,
) -> bool {
    &&& r.receipt_version@ == RECEIPT_VERSION@
    &&& r.namespace_version@ == NAMESPACE_VERSION@
    &&& r.context == context
    &&& r.replacement_policy.required_previous_project_id@ == context.ownership.project_id@
    &&& r.previous_ownership == previous
    &&& r.outputs.files@ == files
    &&& r.outputs.file_count == files.len()
    &&& r.outputs.total_bytes == output_bytes(files, files.len() as int)
    &&& r.outputs.sha256@ == sha256_hex(outputs_json)
}

impl ArtifactReceipt {
    /// The receipt of a normalized context and an ordered output list whose
    /// JSON is `outputs_json`; refused when the output list is.
    pub fn assemble(
        context: BuildContext,
        files: Vec<OutputFile>,
        previous_ownership: Option<PreviousOwnership>,
        outputs_json: &[u8],
    ) -> (r: Result<ArtifactReceipt, ArtifactError>)
        ensures
            refused(r, outputs_fault(files@)),
            r matches Ok(x) ==> assembled_from(x, context, files@, previous_ownership, outputs_json@),
    {
        match validate_outputs(&files) {
            Ok(()) => {},
            Err(e) => {
                return Err(e);
            },
        }
        let file_count = files.len() as u64;
        let total_bytes = total_output_bytes(&files);
        let sha256 = sha256_bytes(outputs_json);
        let required = context.ownership.project_id.clone();
        Ok(ArtifactReceipt {
            receipt_version: RECEIPT_VERSION.to_owned(),
            namespace_version: NAMESPACE_VERSION.to_owned(),
            context,
            replacement_policy: ReplacementPolicy { required_previous_project_id: required },
            previous_ownership,
            outputs: OutputSet { files, file_count, total_bytes, sha256 },
        })
    }
}

impl BuildReport {
    /// Wraps a receipt whose JSON is `receipt_json`, recording its digest, and
    /// checks the result as `validate_receipt` does.
    pub fn new(receipt: ArtifactReceipt, source_set_json: &[u8], outputs_json: &[u8], receipt_json: &[u8]) -> (r:
        Result<BuildReport, ArtifactError>)
        ensures
            refused(
                r,
                receipt_fault(receipt, sha256_hex(receipt_json@), source_set_json@, outputs_json@, receipt_json@),
            ),
            r matches Ok(x) ==> x.report_version@ == BUILD_REPORT_VERSION@ && x.receipt_sha256@ == sha256_hex(
                receipt_json@,
            ) && x.receipt == receipt,
    {
        let receipt_sha256 = sha256_bytes(receipt_json);
        match validate_receipt(&receipt, receipt_sha256.as_str(), source_set_json, outputs_json, receipt_json) {
            Ok(()) => {},
            Err(e) => {
                return Err(e);
            },
        }
        Ok(BuildReport { report_version: BUILD_REPORT_VERSION.to_owned(), receipt_sha256, receipt })
    }
}

/// A receipt assembled from a normalized context verifies itself: wrapping it
/// in a report can be refused for its lineage alone, and never when it names
/// no previous ownership.
pub proof fn law_assembled_receipt_verifies_itself(
    r: ArtifactReceipt,
    before: BuildContext,
    context: BuildContext,
    files: Seq<OutputFile>,
    previous: Option<PreviousOwnership>,
    source_set_json: Seq<u8>,
    outputs_json: Seq<u8>,
    receipt_json: Seq<u8>,
)
    requires
        normalization_fault(before, source_set_json) is None,
        sorted_from(context, before),
        outputs_fault(files) is None,
        assembled_from(r, context, files, previous, outputs_json),
    ensures
        receipt_fault(r, sha256_hex(receipt_json), source_set_json, outputs_json, receipt_json) == lineage_fault(
            r,
            sha256_hex(receipt_json),
        ),
        previous is None ==> receipt_fault(r, sha256_hex(receipt_json), source_set_json, outputs_json, receipt_json)
            is None,
{
    lemma_normalized_context_is_canonical(context, before);
    lemma_source_set_fault_sorted(before, context, source_set_json);
    assert(presort_fault(before) is None);
    assert(ownership_fault(before.ownership) is None);
    assert(r.outputs.files@ == files);
}

} // verus!

verus! {

/// Sorting two arrivals of the same output files gives one list, when the
/// sorted list of the first is accepted.
pub proof fn law_outputs_ignore_arrival_order(a: Seq<OutputFile>, b: Seq<OutputFile>)
    requires
        a.to_multiset() == b.to_multiset(),
        outputs_fault(stable_sorted(a)) is None,
    ensures
        stable_sorted(a) == stable_sorted(b),
        outputs_fault(stable_sorted(b)) is None,
{
    let s = stable_sorted(a);
    if s.len() > 0 {
        let checks = Seq::new(s.len(), |k: int| output_fault(s, k));
        lemma_first_some_none_all(checks);
        assert forall|i: int| 0 < i < s.len() implies seq_lt(s[i - 1].sort_key(), #[trigger] s[i].sort_key()) by {
            assert(checks[i] is None);
        }
    }
    crate::sorting::lemma_sort_ignores_arrangement(a, b);
}

/// A receipt does not depend on the order in which the context lists its
/// entries or the outputs arrive: two arrangements of the same context and
/// output files, the first accepted, give receipts that record the same
/// artifact.
pub proof fn law_receipt_ignores_arrangement(
    ca: BuildContext,
    cb: BuildContext,
    fa: Seq<OutputFile>,
    fb: Seq<OutputFile>,
    na: BuildContext,
    nb: BuildContext,
    ra: ArtifactReceipt,
    rb: ArtifactReceipt,
    previous: Option<PreviousOwnership>,
    source_set_json: Seq<u8>,
    outputs_json: Seq<u8>,
)
    requires
        same_entries(ca, cb),
        fa.to_multiset() == fb.to_multiset(),
        normalization_fault(ca, source_set_json) is None,
        outputs_fault(stable_sorted(fa)) is None,
        sorted_from(na, ca),
        sorted_from(nb, cb),
        assembled_from(ra, na, stable_sorted(fa), previous, outputs_json),
        assembled_from(rb, nb, stable_sorted(fb), previous, outputs_json),
    ensures
        normalization_fault(cb, source_set_json) is None,
        outputs_fault(stable_sorted(fb)) is None,
        same_core(ra, rb),
        ra.previous_ownership == rb.previous_ownership,
{
    law_normalization_ignores_list_order(ca, cb);
    law_outputs_ignore_arrival_order(fa, fb);
    lemma_source_set_fault_sorted(ca, na, source_set_json);
    lemma_source_set_fault_sorted(cb, nb, source_set_json);
    assert(source_set_fault(nb, source_set_json) == source_set_fault(na, source_set_json)) by {
        assert(nb.toolchain@ == na.toolchain@);
    }
    assert forall|i: int| 0 <= i < ra.outputs.files@.len() implies #[trigger] ra.outputs.files@[i].same(
        &rb.outputs.files@[i],
    ) by {}
    assert forall|i: int| 0 <= i < na.toolchain@.len() implies #[trigger] na.toolchain@[i].same(&nb.toolchain@[i]) by {}
    assert forall|i: int| 0 <= i < na.configuration@.len() implies #[trigger] na.configuration@[i].same(
        &nb.configuration@[i],
    ) by {}
    assert forall|i: int| 0 <= i < na.sources@.len() implies #[trigger] na.sources@[i].same(&nb.sources@[i]) by {}
    assert forall|i: int| 0 <= i < na.materials@.len() implies #[trigger] na.materials@[i].same(&nb.materials@[i]) by {}
    assert forall|i: int| 0 <= i < na.excluded_paths@.len() implies #[trigger] na.excluded_paths@[i].same(
        &nb.excluded_paths@[i],
    ) by {}
}

} // verus!

verus! {

/// What constructing a receipt refuses: the context, then the sorted output
/// list.
pub open spec fn construction_fault(
    context: BuildContext,
    files: Seq<OutputFile>,
    source_set_json: Seq<u8>,
) -> Option<Refusal> {
    either(normalization_fault(context, source_set_json), outputs_fault(stable_sorted(files)))
}

/// `r` is the receipt constructed from `context` and `files`: its context is
/// `context` normalized, and its outputs `files` sorted by path.
pub open spec fn constructed_from(
    r: ArtifactReceipt,
    context: BuildContext,
    files: Seq<OutputFile>,
    previous: Option<PreviousOwnership>,
    outputs_json: Seq<u8>,
) -> bool {
    sorted_from(r.context, context) && assembled_from(r, r.context, stable_sorted(files), previous, outputs_json)
}

impl ArtifactReceipt {
    /// The receipt of a context and its output files, with the ownership the
    /// output tree held before: the context is normalized (its sources and
    /// materials have the JSON `source_set_json` once sorted), the files
    /// sorted by path (with the JSON `outputs_json` once sorted) and checked.
    pub fn from_context_files_and_previous(
        context: BuildContext,
        files: Vec<OutputFile>,
        previous_ownership: Option<PreviousOwnership>,
        source_set_json: &[u8],
        outputs_json: &[u8],
    ) -> (r: Result<ArtifactReceipt, ArtifactError>)
        ensures
            refused(r, construction_fault(context, files@, source_set_json@)),
            r matches Ok(x) ==> constructed_from(x, context, files@, previous_ownership, outputs_json@),
    {
        let mut context = context;
        let ghost before = context;
        match normalize_context(&mut context, source_set_json) {
            Ok(()) => {},
            Err(e) => {
                return Err(e);
            },
        }
        let mut files = files;
        sort_outputs(&mut files);
        ArtifactReceipt::assemble(context, files, previous_ownership, outputs_json)
    }

    /// The receipt of a context and its output files, with no previous
    /// ownership.
    pub fn from_context_and_files(
        context: BuildContext,
        files: Vec<OutputFile>,
        source_set_json: &[u8],
        outputs_json: &[u8],
    ) -> (r: Result<ArtifactReceipt, ArtifactError>)
        ensures
            refused(r, construction_fault(context, files@, source_set_json@)),
            r matches Ok(x) ==> constructed_from(x, context, files@, None, outputs_json@),
    {
        ArtifactReceipt::from_context_files_and_previous(context, files, None, source_set_json, outputs_json)
    }
}

/// Constructing a receipt ignores how the context lists its entries and how
/// the output files arrive: two arrangements are refused alike, and when
/// accepted give receipts that record the same artifact.
pub proof fn law_construction_ignores_arrangement(
    ca: BuildContext,
    cb: BuildContext,
    fa: Seq<OutputFile>,
    fb: Seq<OutputFile>,
    previous: Option<PreviousOwnership>,
    source_set_json: Seq<u8>,
    outputs_json: Seq<u8>,
    ra: ArtifactReceipt,
    rb: ArtifactReceipt,
)
    requires
        same_entries(ca, cb),
        fa.to_multiset() == fb.to_multiset(),
        constructed_from(ra, ca, fa, previous, outputs_json),
        constructed_from(rb, cb, fb, previous, outputs_json),
    ensures
        construction_fault(ca, fa, source_set_json) is None <==> construction_fault(cb, fb, source_set_json) is None,
        construction_fault(ca, fa, source_set_json) is None ==> same_core(ra, rb)
            && ra.previous_ownership == rb.previous_ownership,
{
    if construction_fault(ca, fa, source_set_json) is None {
        law_receipt_ignores_arrangement(ca, cb, fa, fb, ra.context, rb.context, ra, rb, previous, source_set_json, outputs_json);
    }
    if construction_fault(cb, fb, source_set_json) is None {
        assert(same_entries(cb, ca));
        law_receipt_ignores_arrangement(cb, ca, fb, fa, rb.context, ra.context, rb, ra, previous, source_set_json, outputs_json);
    }
}

} // verus!
