//! Checks on the runtime evidence that `why` and `inspect` explain: request
//! and cache receipts, invalidation events, and the runtime contract
//! manifest. Every identifier is bounded and every list is capped before
//! anything is shown.
use vstd::prelude::*;
use crate::build_graph::sha_ok;
use crate::text::{
    chars_of, contains_seq, first_some, is_ascii_digit, is_ascii_lower, is_ascii_upper, is_ascii_alnum,
    lemma_first_some_at, lemma_first_some_none, push_str, str_eq, utf8_len, utf8_len_of,
};

verus! {

broadcast use vstd::string::group_string_axioms;

/// Most entries a receipt list may hold.
pub const MAX_RECEIPT_ITEMS: usize = 1024;

/// A refusal of diagnostic input: a usage error, or malformed evidence.
#[derive(Debug)]
pub struct DiagnosticCommandError {
    pub usage: bool,
    pub message: String,
}

impl DiagnosticCommandError {
    pub fn usage(message: String) -> (e: DiagnosticCommandError)
        ensures
            e.usage,
            e.message@ == message@,
    {
        DiagnosticCommandError { usage: true, message }
    }

    pub fn artifact(message: String) -> (e: DiagnosticCommandError)
        ensures
            !e.usage,
            e.message@ == message@,
    {
        DiagnosticCommandError { usage: false, message }
    }

    pub fn is_usage(&self) -> (b: bool)
        ensures
            b == self.usage,
    {
        self.usage
    }
}

/// The result agrees with the message due: `Ok` when none, else an
/// evidence error carrying it.
pub open spec fn evidence_outcome<T>(r: Result<T, DiagnosticCommandError>, m: Option<Seq<char>>) -> bool {
    match m {
        None => r is Ok,
        Some(x) => r matches Err(e) && !e.usage && e.message@ == x,
    }
}

pub open spec fn either(a: Option<Seq<char>>, b: Option<Seq<char>>) -> Option<Seq<char>> {
    if a is Some {
        a
    } else {
        b
    }
}

/// Lowercase kebab-case starting with a letter, at most 96 bytes.
pub open spec fn stable_id_ok(v: Seq<char>) -> bool {
    &&& 0 < v.len()
    &&& utf8_len(v) <= 96
    &&& is_ascii_lower(v[0])
    &&& forall|k: int| 0 <= k < v.len() ==> is_ascii_lower(#[trigger] v[k]) || is_ascii_digit(v[k]) || v[k] == '-'
    &&& v.last() != '-'
    &&& !contains_seq(v, "--"@)
}

/// ASCII letters, digits, `-`, `_`, `.` and `:`, 1 to 128 of them.
pub open spec fn runtime_identity_ok(v: Seq<char>) -> bool {
    &&& 0 < v.len() <= 128
    &&& forall|k: int|
        0 <= k < v.len() ==> is_ascii_alnum(#[trigger] v[k]) || v[k] == '-' || v[k] == '_' || v[k] == '.' || v[k]
            == ':'
}

/// Uppercase ASCII letters, digits and `-`, 1 to 32 of them.
pub open spec fn diagnostic_code_ok(v: Seq<char>) -> bool {
    &&& 0 < v.len() <= 32
    &&& forall|k: int| 0 <= k < v.len() ==> is_ascii_upper(#[trigger] v[k]) || is_ascii_digit(v[k]) || v[k] == '-'
}

pub open spec fn stable_fault(v: Seq<char>, kind: Seq<char>) -> Option<Seq<char>> {
    if stable_id_ok(v) {
        None
    } else {
        Some(kind + " is malformed"@)
    }
}

pub open spec fn sha_fault(v: Seq<char>, kind: Seq<char>) -> Option<Seq<char>> {
    if sha_ok(v) {
        None
    } else {
        Some(kind + " SHA-256 is malformed"@)
    }
}

pub open spec fn bound_fault(n: int, kind: Seq<char>) -> Option<Seq<char>> {
    if n <= MAX_RECEIPT_ITEMS {
        None
    } else {
        Some(kind + " exceed the diagnostic item bound"@)
    }
}

pub open spec fn enum_fault(v: Seq<char>, allowed: Seq<Seq<char>>, kind: Seq<char>) -> Option<Seq<char>> {
    if allowed.contains(v) {
        None
    } else {
        Some(kind + " `"@ + v + "` is unsupported"@)
    }
}

pub open spec fn contract_fault(actual: Seq<char>, expected: Seq<char>, kind: Seq<char>) -> Option<Seq<char>> {
    if actual == expected {
        None
    } else {
        Some("unsupported "@ + kind + " contract `"@ + actual + "`; expected `"@ + expected + "`"@)
    }
}

fn fail(message: String) -> (r: Result<(), DiagnosticCommandError>)
    ensures
        r matches Err(e) && !e.usage && e.message@ == message@,
{
    Err(DiagnosticCommandError::artifact(message))
}

fn kind_message(kind: &str, tail: &str) -> (s: String)
    ensures
        s@ == kind@ + tail@,
{
    let mut s = String::new();
    push_str(&mut s, kind);
    push_str(&mut s, tail);
    proof {
        assert(s@ =~= kind@ + tail@);
    }
    s
}

/// Checks a stable identifier.
pub fn require_stable_id(value: &str, kind: &str) -> (r: Result<(), DiagnosticCommandError>)
    ensures
        evidence_outcome(r, stable_fault(value@, kind@)),
{
    let v = chars_of(value);
    let mut ok = v.len() > 0 && utf8_len_of(v.as_slice()) <= 96 && crate::text::ascii_lower(v[0]) && v[v.len() - 1]
        != '-';
    let mut i: usize = 0;
    while ok && i < v.len()
        invariant
            v@ == value@,
            i <= v.len(),
            ok ==> forall|k: int|
                0 <= k < i ==> is_ascii_lower(#[trigger] v@[k]) || is_ascii_digit(v@[k]) || v@[k] == '-',
            ok ==> 0 < v.len() && utf8_len(v@) <= 96 && is_ascii_lower(v@[0]) && v@.last() != '-',
            !ok ==> !stable_id_ok(value@),
        decreases v.len() - i,
    {
        let c = v[i];
        if !(crate::text::ascii_lower(c) || crate::text::ascii_digit(c) || c == '-') {
            proof {
                assert(!(is_ascii_lower(value@[i as int]) || is_ascii_digit(value@[i as int]) || value@[i as int]
                    == '-'));
            }
            ok = false;
        }
        i = i + 1;
    }
    if ok {
        let dashes = chars_of("--");
        ok = !crate::text::contains_chars(v.as_slice(), dashes.as_slice());
    }
    if ok {
        Ok(())
    } else {
        fail(kind_message(kind, " is malformed"))
    }
}

/// Checks a request or deployment identity.
pub fn require_runtime_identity(value: &str, kind: &str) -> (r: Result<(), DiagnosticCommandError>)
    ensures
        evidence_outcome(r, if runtime_identity_ok(value@) { None } else { Some(kind@ + " is malformed"@) }),
{
    let v = chars_of(value);
    let mut ok = v.len() > 0 && v.len() <= 128;
    let mut i: usize = 0;
    while ok && i < v.len()
        invariant
            v@ == value@,
            i <= v.len(),
            ok ==> 0 < v.len() <= 128,
            ok ==> forall|k: int|
                0 <= k < i ==> is_ascii_alnum(#[trigger] v@[k]) || v@[k] == '-' || v@[k] == '_' || v@[k] == '.'
                    || v@[k] == ':',
            !ok ==> !runtime_identity_ok(value@),
        decreases v.len() - i,
    {
        let c = v[i];
        if !(crate::text::ascii_alnum(c) || c == '-' || c == '_' || c == '.' || c == ':') {
            proof {
                let x = value@[i as int];
                assert(!(is_ascii_alnum(x) || x == '-' || x == '_' || x == '.' || x == ':'));
            }
            ok = false;
        }
        i = i + 1;
    }
    if ok {
        Ok(())
    } else {
        fail(kind_message(kind, " is malformed"))
    }
}

/// Checks a runtime diagnostic code.
pub fn require_diagnostic_code(value: &str) -> (r: Result<(), DiagnosticCommandError>)
    ensures
        evidence_outcome(
            r,
            if diagnostic_code_ok(value@) {
                None
            } else {
                Some("runtime diagnostic code is malformed"@)
            },
        ),
{
    let v = chars_of(value);
    let mut ok = v.len() > 0 && v.len() <= 32;
    let mut i: usize = 0;
    while ok && i < v.len()
        invariant
            v@ == value@,
            i <= v.len(),
            ok ==> 0 < v.len() <= 32,
            ok ==> forall|k: int| 0 <= k < i ==> is_ascii_upper(#[trigger] v@[k]) || is_ascii_digit(v@[k]) || v@[k] == '-',
            !ok ==> !diagnostic_code_ok(value@),
        decreases v.len() - i,
    {
        let c = v[i];
        if !(crate::text::ascii_upper(c) || crate::text::ascii_digit(c) || c == '-') {
            proof {
                let x = value@[i as int];
                assert(!(is_ascii_upper(x) || is_ascii_digit(x) || x == '-'));
            }
            ok = false;
        }
        i = i + 1;
    }
    if ok {
        Ok(())
    } else {
        fail("runtime diagnostic code is malformed".to_owned())
    }
}

/// Checks a lowercase SHA-256 digest.
pub fn require_sha256(value: &str, kind: &str) -> (r: Result<(), DiagnosticCommandError>)
    ensures
        evidence_outcome(r, sha_fault(value@, kind@)),
{
    if crate::adaptive_plan::valid_sha256(value) {
        Ok(())
    } else {
        fail(kind_message(kind, " SHA-256 is malformed"))
    }
}

/// Checks that a list holds at most 1024 entries.
pub fn require_item_bound(actual: usize, kind: &str) -> (r: Result<(), DiagnosticCommandError>)
    ensures
        evidence_outcome(r, bound_fault(actual as int, kind@)),
{
    if actual <= MAX_RECEIPT_ITEMS {
        Ok(())
    } else {
        fail(kind_message(kind, " exceed the diagnostic item bound"))
    }
}

/// Checks that a value is one of the allowed spellings.
pub fn require_enum(value: &str, allowed: &[&str], kind: &str) -> (r: Result<(), DiagnosticCommandError>)
    ensures
        evidence_outcome(r, enum_fault(value@, allowed@.map_values(|a: &str| a@), kind@)),
{
    let ghost views = allowed@.map_values(|a: &str| a@);
    let mut i: usize = 0;
    while i < allowed.len()
        invariant
            views == allowed@.map_values(|a: &str| a@),
            i <= allowed.len(),
            forall|k: int| 0 <= k < i ==> views[k] != value@,
        decreases allowed.len() - i,
    {
        if str_eq(allowed[i], value) {
            proof {
                assert(views[i as int] == value@);
            }
            return Ok(());
        }
        i = i + 1;
    }
    let mut m = String::new();
    push_str(&mut m, kind);
    push_str(&mut m, " `");
    push_str(&mut m, value);
    push_str(&mut m, "` is unsupported");
    proof {
        assert(m@ =~= kind@ + " `"@ + value@ + "` is unsupported"@);
        if views.contains(value@) {
            let k = choose|k: int| 0 <= k < views.len() && views[k] == value@;
            assert(views[k] != value@);
        }
    }
    fail(m)
}

/// Checks the version tag of a contract document.
pub fn require_contract(actual: &str, expected: &str, kind: &str) -> (r: Result<(), DiagnosticCommandError>)
    ensures
        evidence_outcome(r, contract_fault(actual@, expected@, kind@)),
{
    if str_eq(actual, expected) {
        return Ok(());
    }
    let mut m = String::new();
    push_str(&mut m, "unsupported ");
    push_str(&mut m, kind);
    push_str(&mut m, " contract `");
    push_str(&mut m, actual);
    push_str(&mut m, "`; expected `");
    push_str(&mut m, expected);
    push_str(&mut m, "`");
    proof {
        assert(m@ =~= "unsupported "@ + kind@ + " contract `"@ + actual@ + "`; expected `"@ + expected@ + "`"@);
    }
    fail(m)
}

pub open spec fn stable_each_at(vs: Seq<Seq<char>>, k: int, kind: Seq<char>) -> Option<Seq<char>> {
    stable_fault(vs[k], kind)
}

/// The first malformed identifier of a list.
pub open spec fn stable_each(vs: Seq<Seq<char>>, kind: Seq<char>) -> Option<Seq<char>> {
    first_some(Seq::new(vs.len(), |k: int| stable_each_at(vs, k, kind)))
}

/// A capped list of identifiers: the cap first, then each identifier.
pub open spec fn stable_list(vs: Seq<Seq<char>>, kind: Seq<char>) -> Option<Seq<char>> {
    either(bound_fault(vs.len() as int, kind), stable_each(vs, kind))
}

/// Checks every identifier of a list.
pub fn require_stable_each(values: &Vec<String>, kind: &str) -> (r: Result<(), DiagnosticCommandError>)
    ensures
        evidence_outcome(r, stable_each(values@.map_values(|v: String| v@), kind@)),
{
    let ghost views = values@.map_values(|v: String| v@);
    let ghost checks = Seq::new(views.len(), |k: int| stable_each_at(views, k, kind@));
    let mut i: usize = 0;
    while i < values.len()
        invariant
            views == values@.map_values(|v: String| v@),
            checks == Seq::new(views.len(), |k: int| stable_each_at(views, k, kind@)),
            i <= values.len(),
            forall|k: int| 0 <= k < i ==> (#[trigger] checks[k]) is None,
        decreases values.len() - i,
    {
        proof {
            assert(views[i as int] == values@[i as int]@);
        }
        let r = require_stable_id(values[i].as_str(), kind);
        if r.is_err() {
            proof {
                lemma_first_some_at(checks, i as int);
            }
            return r;
        }
        assert(checks[i as int] is None);
        i = i + 1;
    }
    proof {
        lemma_first_some_none(checks);
    }
    Ok(())
}

/// Checks a capped list of identifiers.
pub fn require_stable_list(values: &Vec<String>, kind: &str) -> (r: Result<(), DiagnosticCommandError>)
    ensures
        evidence_outcome(r, stable_list(values@.map_values(|v: String| v@), kind@)),
{
    let a = require_item_bound(values.len(), kind);
    if a.is_err() {
        return a;
    }
    require_stable_each(values, kind)
}

pub open spec fn enum_each_at(vs: Seq<Seq<char>>, k: int, allowed: Seq<Seq<char>>, kind: Seq<char>) -> Option<
    Seq<char>,
> {
    enum_fault(vs[k], allowed, kind)
}

pub open spec fn enum_list(vs: Seq<Seq<char>>, allowed: Seq<Seq<char>>, kind: Seq<char>) -> Option<Seq<char>> {
    either(
        bound_fault(vs.len() as int, kind),
        first_some(Seq::new(vs.len(), |k: int| enum_each_at(vs, k, allowed, kind))),
    )
}

/// Checks a capped list of values drawn from `allowed`; `plural` names the
/// list in the cap's message and `kind` one value.
pub fn require_enum_list(values: &Vec<String>, allowed: &[&str], plural: &str, kind: &str) -> (r: Result<
    (),
    DiagnosticCommandError,
>)
    ensures
        evidence_outcome(
            r,
            either(
                bound_fault(values@.len() as int, plural@),
                first_some(
                    Seq::new(
                        values@.len(),
                        |k: int| enum_each_at(values@.map_values(|v: String| v@), k, allowed@.map_values(|a: &str| a@), kind@),
                    ),
                ),
            ),
        ),
{
    let a = require_item_bound(values.len(), plural);
    if a.is_err() {
        return a;
    }
    let ghost views = values@.map_values(|v: String| v@);
    let ghost names = allowed@.map_values(|a: &str| a@);
    let ghost checks = Seq::new(views.len(), |k: int| enum_each_at(views, k, names, kind@));
    let mut i: usize = 0;
    while i < values.len()
        invariant
            views == values@.map_values(|v: String| v@),
            names == allowed@.map_values(|a: &str| a@),
            bound_fault(values@.len() as int, plural@) is None,
            checks == Seq::new(views.len(), |k: int| enum_each_at(views, k, names, kind@)),
            i <= values.len(),
            forall|k: int| 0 <= k < i ==> (#[trigger] checks[k]) is None,
        decreases values.len() - i,
    {
        proof {
            assert(views[i as int] == values@[i as int]@);
        }
        let r = require_enum(values[i].as_str(), allowed, kind);
        if r.is_err() {
            proof {
                lemma_first_some_at(checks, i as int);
            }
            return r;
        }
        assert(checks[i as int] is None);
        i = i + 1;
    }
    proof {
        lemma_first_some_none(checks);
    }
    Ok(())
}

/// A cache lookup the runtime recorded.
#[derive(Clone, Debug)]
pub struct CacheReceipt {
    pub contract: String,
    pub policy_id: String,
    pub semantic_revision: u64,
    pub namespace: String,
    pub compatibility_epoch: u64,
    pub key_digest: String,
}

/// A cache invalidation the runtime recorded.
#[derive(Clone, Debug)]
pub struct InvalidationEvent {
    pub contract: String,
    pub policy_id: String,
    pub namespace: String,
    pub cause_receipt: String,
    pub target_digest: String,
    pub compatibility_epoch: u64,
    pub sequence: u64,
}

/// Everything `validate_cache_receipt` refuses, in its order.
pub open spec fn cache_receipt_fault(c: CacheReceipt) -> Option<Seq<char>> {
    either(
        contract_fault(c.contract@, "dev.pliegors.cache-receipt/v1"@, "cache receipt"@),
        either(
            stable_fault(c.policy_id@, "cache policy ID"@),
            either(
                stable_fault(c.namespace@, "cache namespace"@),
                either(
                    sha_fault(c.key_digest@, "cache key"@),
                    if c.semantic_revision == 0 || c.compatibility_epoch == 0 {
                        Some("cache receipt revisions must be non-zero"@)
                    } else {
                        None
                    },
                ),
            ),
        ),
    )
}

/// What explaining a cache receipt refuses: its contract, then its key
/// digest, then everything `validate_cache_receipt` refuses.
pub open spec fn cache_explanation_fault(c: CacheReceipt) -> Option<Seq<char>> {
    either(
        contract_fault(c.contract@, "dev.pliegors.cache-receipt/v1"@, "cache receipt"@),
        either(sha_fault(c.key_digest@, "cache key"@), cache_receipt_fault(c)),
    )
}

/// The checks a cache receipt passes before it is explained.
pub fn check_cache_receipt(receipt: &CacheReceipt) -> (r: Result<(), DiagnosticCommandError>)
    ensures
        evidence_outcome(r, cache_explanation_fault(*receipt)),
{
    let a = require_contract(receipt.contract.as_str(), "dev.pliegors.cache-receipt/v1", "cache receipt");
    if a.is_err() {
        return a;
    }
    let b = require_sha256(receipt.key_digest.as_str(), "cache key");
    if b.is_err() {
        return b;
    }
    validate_cache_receipt(receipt)
}

/// Checks a cache receipt.
pub fn validate_cache_receipt(receipt: &CacheReceipt) -> (r: Result<(), DiagnosticCommandError>)
    ensures
        evidence_outcome(r, cache_receipt_fault(*receipt)),
{
    let a = require_contract(receipt.contract.as_str(), "dev.pliegors.cache-receipt/v1", "cache receipt");
    if a.is_err() {
        return a;
    }
    let b = require_stable_id(receipt.policy_id.as_str(), "cache policy ID");
    if b.is_err() {
        return b;
    }
    let c = require_stable_id(receipt.namespace.as_str(), "cache namespace");
    if c.is_err() {
        return c;
    }
    let d = require_sha256(receipt.key_digest.as_str(), "cache key");
    if d.is_err() {
        return d;
    }
    if receipt.semantic_revision == 0 || receipt.compatibility_epoch == 0 {
        return fail("cache receipt revisions must be non-zero".to_owned());
    }
    Ok(())
}

/// Everything `validate_invalidation_event` refuses, in its order.
pub open spec fn invalidation_fault(e: InvalidationEvent) -> Option<Seq<char>> {
    either(
        contract_fault(e.contract@, "dev.pliegors.cache-invalidation/v1"@, "cache invalidation event"@),
        either(
            stable_fault(e.policy_id@, "cache policy ID"@),
            either(
                stable_fault(e.namespace@, "cache namespace"@),
                either(
                    stable_fault(e.cause_receipt@, "invalidation cause"@),
                    either(
                        sha_fault(e.target_digest@, "cache invalidation target"@),
                        if e.compatibility_epoch == 0 || e.sequence == 0 {
                            Some("cache invalidation sequence and epoch must be non-zero"@)
                        } else {
                            None
                        },
                    ),
                ),
            ),
        ),
    )
}

/// Checks a cache invalidation event.
pub fn validate_invalidation_event(event: &InvalidationEvent) -> (r: Result<(), DiagnosticCommandError>)
    ensures
        evidence_outcome(r, invalidation_fault(*event)),
{
    let a = require_contract(event.contract.as_str(), "dev.pliegors.cache-invalidation/v1", "cache invalidation event");
    if a.is_err() {
        return a;
    }
    let b = require_stable_id(event.policy_id.as_str(), "cache policy ID");
    if b.is_err() {
        return b;
    }
    let c = require_stable_id(event.namespace.as_str(), "cache namespace");
    if c.is_err() {
        return c;
    }
    let d = require_stable_id(event.cause_receipt.as_str(), "invalidation cause");
    if d.is_err() {
        return d;
    }
    let e = require_sha256(event.target_digest.as_str(), "cache invalidation target");
    if e.is_err() {
        return e;
    }
    if event.compatibility_epoch == 0 || event.sequence == 0 {
        return fail("cache invalidation sequence and epoch must be non-zero".to_owned());
    }
    Ok(())
}

/// A runtime diagnostic a request produced.
#[derive(Clone, Debug)]
pub struct RuntimeDiagnostic {
    pub code: String,
}

/// A data operation a request performed.
#[derive(Clone, Debug)]
pub struct DataReceipt {
    pub contract: String,
    pub operation_id: String,
    pub semantic_revision: u64,
    pub diagnostic_code: Option<String>,
}

/// What the runtime recorded of one request, as far as it is checked.
#[derive(Clone, Debug)]
pub struct RuntimeReceipt {
    pub contract: String,
    pub application_contract_sha256: String,
    pub request_id: String,
    pub deployment_id: String,
    pub route_id: Option<String>,
    pub route_scopes: Vec<String>,
    pub route_layouts: Vec<String>,
    pub limit_policy_sha256: String,
    pub middleware: Vec<String>,
    pub error_boundary: Option<String>,
    pub diagnostics: Vec<RuntimeDiagnostic>,
    pub data_receipts: Vec<DataReceipt>,
    pub cache_receipts: Vec<CacheReceipt>,
    pub invalidation_events: Vec<InvalidationEvent>,
}

pub open spec fn texts(v: Vec<String>) -> Seq<Seq<char>> {
    v@.map_values(|x: String| x@)
}

pub open spec fn optional_stable(o: Option<String>, kind: Seq<char>) -> Option<Seq<char>> {
    match o {
        Some(v) => stable_fault(v@, kind),
        None => None,
    }
}

pub open spec fn diagnostic_fault(d: RuntimeDiagnostic) -> Option<Seq<char>> {
    if diagnostic_code_ok(d.code@) {
        None
    } else {
        Some("runtime diagnostic code is malformed"@)
    }
}

pub open spec fn data_fault(d: DataReceipt) -> Option<Seq<char>> {
    either(
        contract_fault(d.contract@, "dev.pliegors.data-receipt/v1"@, "data receipt"@),
        either(
            stable_fault(d.operation_id@, "data operation ID"@),
            if d.semantic_revision == 0 {
                Some("data receipt semantic revision must be non-zero"@)
            } else {
                match d.diagnostic_code {
                    Some(c) => if diagnostic_code_ok(c@) {
                        None
                    } else {
                        Some("runtime diagnostic code is malformed"@)
                    },
                    None => None,
                }
            },
        ),
    )
}

/// Everything `validate_runtime_receipt` refuses, in its order.
pub open spec fn receipt_fault(r: RuntimeReceipt) -> Option<Seq<char>> {
    let identity = |v: Seq<char>, kind: Seq<char>|
        if runtime_identity_ok(v) {
            None
        } else {
            Some(kind + " is malformed"@)
        };
    either(identity(r.request_id@, "request ID"@), either(identity(r.deployment_id@, "deployment ID"@), either(
        sha_fault(r.limit_policy_sha256@, "request limit policy"@),
        either(optional_stable(r.route_id, "route ID"@), either(stable_list(texts(r.route_scopes), "route scope"@), either(
            stable_list(texts(r.route_layouts), "route layout"@),
            either(stable_list(texts(r.middleware), "middleware"@), either(optional_stable(r.error_boundary, "error boundary"@), either(
                bound_fault(r.diagnostics@.len() as int, "runtime diagnostics"@),
                either(first_some(Seq::new(r.diagnostics@.len(), |k: int| diagnostic_fault(r.diagnostics@[k]))), either(
                    bound_fault(r.data_receipts@.len() as int, "data receipts"@),
                    either(first_some(Seq::new(r.data_receipts@.len(), |k: int| data_fault(r.data_receipts@[k]))), either(
                        bound_fault(r.cache_receipts@.len() as int, "cache receipts"@),
                        either(first_some(Seq::new(r.cache_receipts@.len(), |k: int| cache_receipt_fault(r.cache_receipts@[k]))), either(
                            bound_fault(r.invalidation_events@.len() as int, "invalidation events"@),
                            first_some(Seq::new(r.invalidation_events@.len(), |k: int| invalidation_fault(r.invalidation_events@[k]))),
                        )),
                    )),
                )),
            ))),
        ))),
    )))
}

fn require_optional_stable(o: &Option<String>, kind: &str) -> (r: Result<(), DiagnosticCommandError>)
    ensures
        evidence_outcome(r, optional_stable(*o, kind@)),
{
    match o {
        Some(v) => require_stable_id(v.as_str(), kind),
        None => Ok(()),
    }
}

fn validate_data_receipt(d: &DataReceipt) -> (r: Result<(), DiagnosticCommandError>)
    ensures
        evidence_outcome(r, data_fault(*d)),
{
    let a = require_contract(d.contract.as_str(), "dev.pliegors.data-receipt/v1", "data receipt");
    if a.is_err() {
        return a;
    }
    let b = require_stable_id(d.operation_id.as_str(), "data operation ID");
    if b.is_err() {
        return b;
    }
    if d.semantic_revision == 0 {
        return fail("data receipt semantic revision must be non-zero".to_owned());
    }
    match &d.diagnostic_code {
        Some(c) => require_diagnostic_code(c.as_str()),
        None => Ok(()),
    }
}


fn check_diagnostics(items: &Vec<RuntimeDiagnostic>) -> (r: Result<(), DiagnosticCommandError>)
    ensures
        evidence_outcome(r, first_some(Seq::new(items@.len(), |k: int| diagnostic_fault(items@[k])))),
{
    let ghost checks = Seq::new(items@.len(), |k: int| diagnostic_fault(items@[k]));
    let mut i: usize = 0;
    while i < items.len()
        invariant
            checks == Seq::new(items@.len(), |k: int| diagnostic_fault(items@[k])),
            i <= items.len(),
            forall|k: int| 0 <= k < i ==> (#[trigger] checks[k]) is None,
        decreases items.len() - i,
    {
        let r = require_diagnostic_code(items[i].code.as_str());
        if r.is_err() {
            proof {
                lemma_first_some_at(checks, i as int);
            }
            return r;
        }
        assert(checks[i as int] is None);
        i = i + 1;
    }
    proof {
        lemma_first_some_none(checks);
    }
    Ok(())
}


fn check_data_receipts(items: &Vec<DataReceipt>) -> (r: Result<(), DiagnosticCommandError>)
    ensures
        evidence_outcome(r, first_some(Seq::new(items@.len(), |k: int| data_fault(items@[k])))),
{
    let ghost checks = Seq::new(items@.len(), |k: int| data_fault(items@[k]));
    let mut i: usize = 0;
    while i < items.len()
        invariant
            checks == Seq::new(items@.len(), |k: int| data_fault(items@[k])),
            i <= items.len(),
            forall|k: int| 0 <= k < i ==> (#[trigger] checks[k]) is None,
        decreases items.len() - i,
    {
        let r = validate_data_receipt(&items[i]);
        if r.is_err() {
            proof {
                lemma_first_some_at(checks, i as int);
            }
            return r;
        }
        assert(checks[i as int] is None);
        i = i + 1;
    }
    proof {
        lemma_first_some_none(checks);
    }
    Ok(())
}


fn check_cache_receipts(items: &Vec<CacheReceipt>) -> (r: Result<(), DiagnosticCommandError>)
    ensures
        evidence_outcome(r, first_some(Seq::new(items@.len(), |k: int| cache_receipt_fault(items@[k])))),
{
    let ghost checks = Seq::new(items@.len(), |k: int| cache_receipt_fault(items@[k]));
    let mut i: usize = 0;
    while i < items.len()
        invariant
            checks == Seq::new(items@.len(), |k: int| cache_receipt_fault(items@[k])),
            i <= items.len(),
            forall|k: int| 0 <= k < i ==> (#[trigger] checks[k]) is None,
        decreases items.len() - i,
    {
        let r = validate_cache_receipt(&items[i]);
        if r.is_err() {
            proof {
                lemma_first_some_at(checks, i as int);
            }
            return r;
        }
        assert(checks[i as int] is None);
        i = i + 1;
    }
    proof {
        lemma_first_some_none(checks);
    }
    Ok(())
}


fn check_invalidation_events(items: &Vec<InvalidationEvent>) -> (r: Result<(), DiagnosticCommandError>)
    ensures
        evidence_outcome(r, first_some(Seq::new(items@.len(), |k: int| invalidation_fault(items@[k])))),
{
    let ghost checks = Seq::new(items@.len(), |k: int| invalidation_fault(items@[k]));
    let mut i: usize = 0;
    while i < items.len()
        invariant
            checks == Seq::new(items@.len(), |k: int| invalidation_fault(items@[k])),
            i <= items.len(),
            forall|k: int| 0 <= k < i ==> (#[trigger] checks[k]) is None,
        decreases items.len() - i,
    {
        let r = validate_invalidation_event(&items[i]);
        if r.is_err() {
            proof {
                lemma_first_some_at(checks, i as int);
            }
            return r;
        }
        assert(checks[i as int] is None);
        i = i + 1;
    }
    proof {
        lemma_first_some_none(checks);
    }
    Ok(())
}

/// Checks a request receipt: identities, digests, bounded lists of stable
/// identifiers, diagnostic codes, and each nested data, cache and
/// invalidation record.
pub fn validate_runtime_receipt(receipt: &RuntimeReceipt) -> (r: Result<(), DiagnosticCommandError>)
    ensures
        evidence_outcome(r, receipt_fault(*receipt)),
{
    let x = require_runtime_identity(receipt.request_id.as_str(), "request ID");
    if x.is_err() {
        return x;
    }
    let x = require_runtime_identity(receipt.deployment_id.as_str(), "deployment ID");
    if x.is_err() {
        return x;
    }
    let x = require_sha256(receipt.limit_policy_sha256.as_str(), "request limit policy");
    if x.is_err() {
        return x;
    }
    let x = require_optional_stable(&receipt.route_id, "route ID");
    if x.is_err() {
        return x;
    }
    let x = require_stable_list(&receipt.route_scopes, "route scope");
    if x.is_err() {
        return x;
    }
    let x = require_stable_list(&receipt.route_layouts, "route layout");
    if x.is_err() {
        return x;
    }
    let x = require_stable_list(&receipt.middleware, "middleware");
    if x.is_err() {
        return x;
    }
    let x = require_optional_stable(&receipt.error_boundary, "error boundary");
    if x.is_err() {
        return x;
    }
    let x = require_item_bound(receipt.diagnostics.len(), "runtime diagnostics");
    if x.is_err() {
        return x;
    }
    let x = check_diagnostics(&receipt.diagnostics);
    if x.is_err() {
        return x;
    }
    let x = require_item_bound(receipt.data_receipts.len(), "data receipts");
    if x.is_err() {
        return x;
    }
    let x = check_data_receipts(&receipt.data_receipts);
    if x.is_err() {
        return x;
    }
    let x = require_item_bound(receipt.cache_receipts.len(), "cache receipts");
    if x.is_err() {
        return x;
    }
    let x = check_cache_receipts(&receipt.cache_receipts);
    if x.is_err() {
        return x;
    }
    let x = require_item_bound(receipt.invalidation_events.len(), "invalidation events");
    if x.is_err() {
        return x;
    }
    check_invalidation_events(&receipt.invalidation_events)
}

pub open spec fn media_types() -> Seq<Seq<char>> {
    seq!["application/x-www-form-urlencoded"@, "application/json"@, "multipart/form-data"@]
}

fn media_type_names() -> (v: Vec<&'static str>)
    ensures
        v@.map_values(|a: &str| a@) == media_types(),
{
    let mut v: Vec<&'static str> = Vec::new();
    v.push("application/x-www-form-urlencoded");
    v.push("application/json");
    v.push("multipart/form-data");
    proof {
        assert(v@.map_values(|a: &str| a@) =~= media_types());
    }
    v
}

pub open spec fn content_encodings() -> Seq<Seq<char>> {
    seq!["identity"@, "gzip"@]
}

fn encoding_names() -> (v: Vec<&'static str>)
    ensures
        v@.map_values(|a: &str| a@) == content_encodings(),
{
    let mut v: Vec<&'static str> = Vec::new();
    v.push("identity");
    v.push("gzip");
    proof {
        assert(v@.map_values(|a: &str| a@) =~= content_encodings());
    }
    v
}

pub open spec fn origin_policies() -> Seq<Seq<char>> {
    seq!["same-origin"@, "explicitly-non-browser"@]
}

fn origin_policy_names() -> (v: Vec<&'static str>)
    ensures
        v@.map_values(|a: &str| a@) == origin_policies(),
{
    let mut v: Vec<&'static str> = Vec::new();
    v.push("same-origin");
    v.push("explicitly-non-browser");
    proof {
        assert(v@.map_values(|a: &str| a@) =~= origin_policies());
    }
    v
}

pub open spec fn csrf_policies() -> Seq<Seq<char>> {
    seq!["same-origin"@, "session-bound-token"@]
}

fn csrf_policy_names() -> (v: Vec<&'static str>)
    ensures
        v@.map_values(|a: &str| a@) == csrf_policies(),
{
    let mut v: Vec<&'static str> = Vec::new();
    v.push("same-origin");
    v.push("session-bound-token");
    proof {
        assert(v@.map_values(|a: &str| a@) =~= csrf_policies());
    }
    v
}

pub open spec fn consistencies() -> Seq<Seq<char>> {
    seq!["eventual"@, "read-your-writes"@]
}

fn consistency_names() -> (v: Vec<&'static str>)
    ensures
        v@.map_values(|a: &str| a@) == consistencies(),
{
    let mut v: Vec<&'static str> = Vec::new();
    v.push("eventual");
    v.push("read-your-writes");
    proof {
        assert(v@.map_values(|a: &str| a@) =~= consistencies());
    }
    v
}

pub open spec fn cache_domains() -> Seq<Seq<char>> {
    seq!["public-runtime"@, "private-request"@, "private-session"@]
}

fn cache_domain_names() -> (v: Vec<&'static str>)
    ensures
        v@.map_values(|a: &str| a@) == cache_domains(),
{
    let mut v: Vec<&'static str> = Vec::new();
    v.push("public-runtime");
    v.push("private-request");
    v.push("private-session");
    proof {
        assert(v@.map_values(|a: &str| a@) =~= cache_domains());
    }
    v
}

/// A resource an action or loader touches, with the capabilities it needs.
#[derive(Clone, Debug)]
pub struct ResourceRequirement {
    pub id: String,
    pub capabilities: Vec<String>,
}

/// A cache an action invalidates.
#[derive(Clone, Debug)]
pub struct ActionInvalidation {
    pub cache_policy_id: String,
    pub tags: Vec<String>,
    pub consistency: String,
}

/// An action's contract, as far as it is checked.
#[derive(Clone, Debug)]
pub struct ActionContract {
    pub id: String,
    pub semantic_revision: u64,
    pub contract_sha256: String,
    pub accepted_media_types: Vec<String>,
    pub accepted_content_encodings: Vec<String>,
    pub origin_policy: String,
    pub csrf_policy: String,
    pub idempotency_policy_id: Option<String>,
    pub resources: Vec<ResourceRequirement>,
    pub invalidations: Vec<ActionInvalidation>,
}

/// A loader's contract, as far as it is checked.
#[derive(Clone, Debug)]
pub struct LoaderContract {
    pub id: String,
    pub semantic_revision: u64,
    pub contract_sha256: String,
    pub cache_policy_id: Option<String>,
    pub resources: Vec<ResourceRequirement>,
}

/// A cache policy's contract, as far as it is checked.
#[derive(Clone, Debug)]
pub struct CachePolicyContract {
    pub id: String,
    pub namespace: String,
    pub contract_sha256: String,
    pub domain: String,
    pub semantic_revision: u64,
    pub compatibility_epoch: u64,
}

/// The versioned projection of an application's runtime contract.
#[derive(Clone, Debug)]
pub struct RuntimeContractManifest {
    pub contract: String,
    pub application_contract_sha256: String,
    pub actions: Vec<ActionContract>,
    pub loaders: Vec<LoaderContract>,
    pub caches: Vec<CachePolicyContract>,
}

pub open spec fn action_resource_fault(r: ResourceRequirement) -> Option<Seq<char>> {
    either(
        stable_fault(r.id@, "resource ID"@),
        either(
            bound_fault(r.capabilities@.len() as int, "resource capabilities"@),
            stable_each(texts(r.capabilities), "resource capability"@),
        ),
    )
}

pub open spec fn invalidation_entry_fault(i: ActionInvalidation) -> Option<Seq<char>> {
    either(
        stable_fault(i.cache_policy_id@, "cache policy ID"@),
        either(
            enum_fault(i.consistency@, consistencies(), "invalidation consistency"@),
            either(bound_fault(i.tags@.len() as int, "invalidation tags"@), stable_each(texts(i.tags), "cache tag"@)),
        ),
    )
}

/// Everything the check of one action refuses, in its order.
pub open spec fn action_fault(a: ActionContract) -> Option<Seq<char>> {
    either(stable_fault(a.id@, "action ID"@), either(sha_fault(a.contract_sha256@, "action contract"@), either(
        if a.semantic_revision == 0 {
            Some("action semantic revision must be non-zero"@)
        } else {
            None
        },
        either(
            either(
                bound_fault(a.accepted_media_types@.len() as int, "action media types"@),
                first_some(
                    Seq::new(
                        a.accepted_media_types@.len(),
                        |k: int| enum_each_at(texts(a.accepted_media_types), k, media_types(), "action media type"@),
                    ),
                ),
            ),
            either(
                either(
                    bound_fault(a.accepted_content_encodings@.len() as int, "action content encodings"@),
                    first_some(
                        Seq::new(
                            a.accepted_content_encodings@.len(),
                            |k: int|
                                enum_each_at(
                                    texts(a.accepted_content_encodings),
                                    k,
                                    content_encodings(),
                                    "action content encoding"@,
                                ),
                        ),
                    ),
                ),
                either(enum_fault(a.origin_policy@, origin_policies(), "action Origin policy"@), either(
                    enum_fault(a.csrf_policy@, csrf_policies(), "action CSRF policy"@),
                    either(optional_stable(a.idempotency_policy_id, "idempotency policy ID"@), either(
                        bound_fault(a.resources@.len() as int, "action resources"@),
                        either(
                            first_some(Seq::new(a.resources@.len(), |k: int| action_resource_fault(a.resources@[k]))),
                            either(
                                bound_fault(a.invalidations@.len() as int, "action invalidations"@),
                                first_some(
                                    Seq::new(a.invalidations@.len(), |k: int| invalidation_entry_fault(a.invalidations@[k])),
                                ),
                            ),
                        ),
                    )),
                )),
            ),
        ),
    )))
}

pub open spec fn loader_resource_fault(r: ResourceRequirement) -> Option<Seq<char>> {
    either(stable_fault(r.id@, "resource ID"@), stable_each(texts(r.capabilities), "resource capability"@))
}

/// Everything the check of one loader refuses, in its order.
pub open spec fn loader_fault(l: LoaderContract) -> Option<Seq<char>> {
    either(stable_fault(l.id@, "loader ID"@), either(sha_fault(l.contract_sha256@, "loader contract"@), either(
        if l.semantic_revision == 0 {
            Some("loader semantic revision must be non-zero"@)
        } else {
            None
        },
        either(optional_stable(l.cache_policy_id, "cache policy ID"@), either(
            bound_fault(l.resources@.len() as int, "loader resources"@),
            first_some(Seq::new(l.resources@.len(), |k: int| loader_resource_fault(l.resources@[k]))),
        )),
    )))
}

/// Everything the check of one cache policy refuses, in its order.
pub open spec fn cache_policy_fault(c: CachePolicyContract) -> Option<Seq<char>> {
    either(stable_fault(c.id@, "cache policy ID"@), either(stable_fault(c.namespace@, "cache namespace"@), either(
        sha_fault(c.contract_sha256@, "cache contract"@),
        either(enum_fault(c.domain@, cache_domains(), "cache domain"@), if c.semantic_revision == 0
            || c.compatibility_epoch == 0 {
            Some("cache contract revisions must be non-zero"@)
        } else {
            None
        }),
    )))
}

/// Everything `validate_runtime_contract` refuses, in its order.
pub open spec fn manifest_fault(m: RuntimeContractManifest) -> Option<Seq<char>> {
    either(bound_fault(m.actions@.len() as int, "actions"@), either(bound_fault(m.loaders@.len() as int, "loaders"@), either(
        bound_fault(m.caches@.len() as int, "cache policies"@),
        either(first_some(Seq::new(m.actions@.len(), |k: int| action_fault(m.actions@[k]))), either(
            first_some(Seq::new(m.loaders@.len(), |k: int| loader_fault(m.loaders@[k]))),
            first_some(Seq::new(m.caches@.len(), |k: int| cache_policy_fault(m.caches@[k]))),
        )),
    )))
}

fn validate_action_resource(r: &ResourceRequirement) -> (res: Result<(), DiagnosticCommandError>)
    ensures
        evidence_outcome(res, action_resource_fault(*r)),
{
    let a = require_stable_id(r.id.as_str(), "resource ID");
    if a.is_err() {
        return a;
    }
    let a = require_item_bound(r.capabilities.len(), "resource capabilities");
    if a.is_err() {
        return a;
    }
    require_stable_each(&r.capabilities, "resource capability")
}

fn validate_loader_resource(r: &ResourceRequirement) -> (res: Result<(), DiagnosticCommandError>)
    ensures
        evidence_outcome(res, loader_resource_fault(*r)),
{
    let a = require_stable_id(r.id.as_str(), "resource ID");
    if a.is_err() {
        return a;
    }
    require_stable_each(&r.capabilities, "resource capability")
}

fn validate_invalidation_entry(i: &ActionInvalidation) -> (r: Result<(), DiagnosticCommandError>)
    ensures
        evidence_outcome(r, invalidation_entry_fault(*i)),
{
    let a = require_stable_id(i.cache_policy_id.as_str(), "cache policy ID");
    if a.is_err() {
        return a;
    }
    let names = consistency_names();
    let a = require_enum(i.consistency.as_str(), names.as_slice(), "invalidation consistency");
    if a.is_err() {
        return a;
    }
    let a = require_item_bound(i.tags.len(), "invalidation tags");
    if a.is_err() {
        return a;
    }
    require_stable_each(&i.tags, "cache tag")
}

fn check_action_resources(items: &Vec<ResourceRequirement>) -> (r: Result<(), DiagnosticCommandError>)
    ensures
        evidence_outcome(r, first_some(Seq::new(items@.len(), |k: int| action_resource_fault(items@[k])))),
{
    let ghost checks = Seq::new(items@.len(), |k: int| action_resource_fault(items@[k]));
    let mut i: usize = 0;
    while i < items.len()
        invariant
            checks == Seq::new(items@.len(), |k: int| action_resource_fault(items@[k])),
            i <= items.len(),
            forall|k: int| 0 <= k < i ==> (#[trigger] checks[k]) is None,
        decreases items.len() - i,
    {
        let r = validate_action_resource(&items[i]);
        if r.is_err() {
            proof {
                lemma_first_some_at(checks, i as int);
            }
            return r;
        }
        assert(checks[i as int] is None);
        i = i + 1;
    }
    proof {
        lemma_first_some_none(checks);
    }
    Ok(())
}

fn check_loader_resources(items: &Vec<ResourceRequirement>) -> (r: Result<(), DiagnosticCommandError>)
    ensures
        evidence_outcome(r, first_some(Seq::new(items@.len(), |k: int| loader_resource_fault(items@[k])))),
{
    let ghost checks = Seq::new(items@.len(), |k: int| loader_resource_fault(items@[k]));
    let mut i: usize = 0;
    while i < items.len()
        invariant
            checks == Seq::new(items@.len(), |k: int| loader_resource_fault(items@[k])),
            i <= items.len(),
            forall|k: int| 0 <= k < i ==> (#[trigger] checks[k]) is None,
        decreases items.len() - i,
    {
        let r = validate_loader_resource(&items[i]);
        if r.is_err() {
            proof {
                lemma_first_some_at(checks, i as int);
            }
            return r;
        }
        assert(checks[i as int] is None);
        i = i + 1;
    }
    proof {
        lemma_first_some_none(checks);
    }
    Ok(())
}

fn check_invalidation_entries(items: &Vec<ActionInvalidation>) -> (r: Result<(), DiagnosticCommandError>)
    ensures
        evidence_outcome(r, first_some(Seq::new(items@.len(), |k: int| invalidation_entry_fault(items@[k])))),
{
    let ghost checks = Seq::new(items@.len(), |k: int| invalidation_entry_fault(items@[k]));
    let mut i: usize = 0;
    while i < items.len()
        invariant
            checks == Seq::new(items@.len(), |k: int| invalidation_entry_fault(items@[k])),
            i <= items.len(),
            forall|k: int| 0 <= k < i ==> (#[trigger] checks[k]) is None,
        decreases items.len() - i,
    {
        let r = validate_invalidation_entry(&items[i]);
        if r.is_err() {
            proof {
                lemma_first_some_at(checks, i as int);
            }
            return r;
        }
        assert(checks[i as int] is None);
        i = i + 1;
    }
    proof {
        lemma_first_some_none(checks);
    }
    Ok(())
}

fn validate_action(a: &ActionContract) -> (r: Result<(), DiagnosticCommandError>)
    ensures
        evidence_outcome(r, action_fault(*a)),
{
    let x = require_stable_id(a.id.as_str(), "action ID");
    if x.is_err() {
        return x;
    }
    let x = require_sha256(a.contract_sha256.as_str(), "action contract");
    if x.is_err() {
        return x;
    }
    if a.semantic_revision == 0 {
        return fail("action semantic revision must be non-zero".to_owned());
    }
    let media = media_type_names();
    let x = require_enum_list(&a.accepted_media_types, media.as_slice(), "action media types", "action media type");
    if x.is_err() {
        return x;
    }
    let encodings = encoding_names();
    let x = require_enum_list(
        &a.accepted_content_encodings,
        encodings.as_slice(),
        "action content encodings",
        "action content encoding",
    );
    if x.is_err() {
        return x;
    }
    let origins = origin_policy_names();
    let x = require_enum(a.origin_policy.as_str(), origins.as_slice(), "action Origin policy");
    if x.is_err() {
        return x;
    }
    let csrf = csrf_policy_names();
    let x = require_enum(a.csrf_policy.as_str(), csrf.as_slice(), "action CSRF policy");
    if x.is_err() {
        return x;
    }
    let x = require_optional_stable(&a.idempotency_policy_id, "idempotency policy ID");
    if x.is_err() {
        return x;
    }
    let x = require_item_bound(a.resources.len(), "action resources");
    if x.is_err() {
        return x;
    }
    let x = check_action_resources(&a.resources);
    if x.is_err() {
        return x;
    }
    let x = require_item_bound(a.invalidations.len(), "action invalidations");
    if x.is_err() {
        return x;
    }
    check_invalidation_entries(&a.invalidations)
}

fn validate_loader(l: &LoaderContract) -> (r: Result<(), DiagnosticCommandError>)
    ensures
        evidence_outcome(r, loader_fault(*l)),
{
    let x = require_stable_id(l.id.as_str(), "loader ID");
    if x.is_err() {
        return x;
    }
    let x = require_sha256(l.contract_sha256.as_str(), "loader contract");
    if x.is_err() {
        return x;
    }
    if l.semantic_revision == 0 {
        return fail("loader semantic revision must be non-zero".to_owned());
    }
    let x = require_optional_stable(&l.cache_policy_id, "cache policy ID");
    if x.is_err() {
        return x;
    }
    let x = require_item_bound(l.resources.len(), "loader resources");
    if x.is_err() {
        return x;
    }
    check_loader_resources(&l.resources)
}

fn validate_cache_policy(c: &CachePolicyContract) -> (r: Result<(), DiagnosticCommandError>)
    ensures
        evidence_outcome(r, cache_policy_fault(*c)),
{
    let x = require_stable_id(c.id.as_str(), "cache policy ID");
    if x.is_err() {
        return x;
    }
    let x = require_stable_id(c.namespace.as_str(), "cache namespace");
    if x.is_err() {
        return x;
    }
    let x = require_sha256(c.contract_sha256.as_str(), "cache contract");
    if x.is_err() {
        return x;
    }
    let domains = cache_domain_names();
    let x = require_enum(c.domain.as_str(), domains.as_slice(), "cache domain");
    if x.is_err() {
        return x;
    }
    if c.semantic_revision == 0 || c.compatibility_epoch == 0 {
        return fail("cache contract revisions must be non-zero".to_owned());
    }
    Ok(())
}

fn check_actions(items: &Vec<ActionContract>) -> (r: Result<(), DiagnosticCommandError>)
    ensures
        evidence_outcome(r, first_some(Seq::new(items@.len(), |k: int| action_fault(items@[k])))),
{
    let ghost checks = Seq::new(items@.len(), |k: int| action_fault(items@[k]));
    let mut i: usize = 0;
    while i < items.len()
        invariant
            checks == Seq::new(items@.len(), |k: int| action_fault(items@[k])),
            i <= items.len(),
            forall|k: int| 0 <= k < i ==> (#[trigger] checks[k]) is None,
        decreases items.len() - i,
    {
        let r = validate_action(&items[i]);
        if r.is_err() {
            proof {
                lemma_first_some_at(checks, i as int);
            }
            return r;
        }
        assert(checks[i as int] is None);
        i = i + 1;
    }
    proof {
        lemma_first_some_none(checks);
    }
    Ok(())
}

fn check_loaders(items: &Vec<LoaderContract>) -> (r: Result<(), DiagnosticCommandError>)
    ensures
        evidence_outcome(r, first_some(Seq::new(items@.len(), |k: int| loader_fault(items@[k])))),
{
    let ghost checks = Seq::new(items@.len(), |k: int| loader_fault(items@[k]));
    let mut i: usize = 0;
    while i < items.len()
        invariant
            checks == Seq::new(items@.len(), |k: int| loader_fault(items@[k])),
            i <= items.len(),
            forall|k: int| 0 <= k < i ==> (#[trigger] checks[k]) is None,
        decreases items.len() - i,
    {
        let r = validate_loader(&items[i]);
        if r.is_err() {
            proof {
                lemma_first_some_at(checks, i as int);
            }
            return r;
        }
        assert(checks[i as int] is None);
        i = i + 1;
    }
    proof {
        lemma_first_some_none(checks);
    }
    Ok(())
}

fn check_cache_policies(items: &Vec<CachePolicyContract>) -> (r: Result<(), DiagnosticCommandError>)
    ensures
        evidence_outcome(r, first_some(Seq::new(items@.len(), |k: int| cache_policy_fault(items@[k])))),
{
    let ghost checks = Seq::new(items@.len(), |k: int| cache_policy_fault(items@[k]));
    let mut i: usize = 0;
    while i < items.len()
        invariant
            checks == Seq::new(items@.len(), |k: int| cache_policy_fault(items@[k])),
            i <= items.len(),
            forall|k: int| 0 <= k < i ==> (#[trigger] checks[k]) is None,
        decreases items.len() - i,
    {
        let r = validate_cache_policy(&items[i]);
        if r.is_err() {
            proof {
                lemma_first_some_at(checks, i as int);
            }
            return r;
        }
        assert(checks[i as int] is None);
        i = i + 1;
    }
    proof {
        lemma_first_some_none(checks);
    }
    Ok(())
}

/// Checks a runtime contract manifest: capped lists of actions, loaders and
/// cache policies, each with stable identifiers, digests, non-zero
/// revisions and only supported policies and encodings.
pub fn validate_runtime_contract(manifest: &RuntimeContractManifest) -> (r: Result<(), DiagnosticCommandError>)
    ensures
        evidence_outcome(r, manifest_fault(*manifest)),
{
    let x = require_item_bound(manifest.actions.len(), "actions");
    if x.is_err() {
        return x;
    }
    let x = require_item_bound(manifest.loaders.len(), "loaders");
    if x.is_err() {
        return x;
    }
    let x = require_item_bound(manifest.caches.len(), "cache policies");
    if x.is_err() {
        return x;
    }
    let x = check_actions(&manifest.actions);
    if x.is_err() {
        return x;
    }
    let x = check_loaders(&manifest.loaders);
    if x.is_err() {
        return x;
    }
    check_cache_policies(&manifest.caches)
}

} // verus!
