//! The options of `pliego sdk`: the action, the manifest, capability grants,
//! feature ids, the output format and the transform input.
use vstd::prelude::*;
use crate::cli::{dash_led, OutputFormat};
use crate::raster::string_views;
use crate::rebuild::{lists, set_add, set_list};
use crate::digest::{sha256_bytes, sha256_hex};
use crate::text::{ascii_digit, ascii_lower, chars_of, concat2, concat3, is_ascii_digit, is_ascii_lower, str_eq, starts_with, starts_with_chars, string_from_chars};
use crate::textmap::TextMap;

verus! {

broadcast use vstd::string::group_string_axioms;

/// The usage of `pliego sdk`.
pub const SDK_USAGE: &'static str = "usage: pliego sdk <check|test> <manifest> [--input <transform.json>] [--grant <capability>] [--feature <id>] [--format <human|json>] | pliego sdk compatibility [--format <human|json>] | pliego sdk tooling-host --protocol <pliego|mcp> [--feature <id>]";

/// Whether a feature id is lowercase ASCII letters, digits and interior
/// hyphens, at most 64 long.
pub open spec fn feature_ok(v: Seq<char>) -> bool {
    &&& 0 < v.len() <= 64
    &&& v[0] != '-'
    &&& v.last() != '-'
    &&& forall|j: int| 0 <= j < v.len() ==> (is_ascii_lower(#[trigger] v[j]) || is_ascii_digit(v[j]) || v[j] == '-')
}

/// Checks a feature id.
pub fn validate_feature(value: String) -> (r: Result<String, String>)
    ensures
        feature_ok(value@) ==> r == Ok::<String, String>(value),
        !feature_ok(value@) ==> (r matches Err(m) && m@
            == "feature IDs use lowercase ASCII letters, digits, and interior hyphens"@),
{
    let chars = chars_of(value.as_str());
    let mut ok = chars.len() > 0 && chars.len() <= 64 && chars[0] != '-' && chars[chars.len() - 1] != '-';
    let mut i: usize = 0;
    while ok && i < chars.len()
        invariant
            i <= chars.len(),
            chars@ == value@,
            ok ==> (0 < value@.len() <= 64 && value@[0] != '-' && value@.last() != '-'),
            ok ==> forall|j: int| 0 <= j < i ==> (is_ascii_lower(#[trigger] value@[j]) || is_ascii_digit(value@[j])
                || value@[j] == '-'),
            !ok ==> !feature_ok(value@),
        decreases chars.len() - i,
    {
        let c = chars[i];
        if !(ascii_lower(c) || ascii_digit(c) || c == '-') {
            ok = false;
        }
        i = i + 1;
    }
    if ok {
        Ok(value)
    } else {
        Err("feature IDs use lowercase ASCII letters, digits, and interior hyphens".to_owned())
    }
}

/// What `pliego sdk` does with a manifest.
#[derive(Clone, Copy, Debug, PartialEq, Eq, Structural)]
pub enum SdkAction {
    Check,
    Test,
}

/// The options of `pliego sdk check|test`. Grants are the capability names
/// as given, for the caller to read; features are sorted and unique.
#[derive(Clone, Debug)]
pub struct SdkOptions {
    pub action: SdkAction,
    pub manifest: String,
    pub grants: Vec<String>,
    pub features: Vec<String>,
    pub format: OutputFormat,
    pub input: Option<String>,
}

/// The first position of `c` in `s`.
pub open spec fn first_at(s: Seq<char>, c: char) -> Option<int>
    decreases s.len(),
{
    if s.len() == 0 {
        None
    } else if s[0] == c {
        Some(0)
    } else {
        match first_at(s.drop_first(), c) {
            Some(k) => Some(k + 1),
            None => None,
        }
    }
}

proof fn lemma_first_at(s: Seq<char>, c: char, k: int)
    requires
        0 <= k <= s.len(),
        k < s.len() ==> s[k] == c,
        forall|m: int| 0 <= m < k ==> s[m] != c,
    ensures
        first_at(s, c) == (if k < s.len() { Some(k) } else { None::<int> }),
    decreases s.len(),
{
    if s.len() > 0 && k > 0 {
        lemma_first_at(s.drop_first(), c, k - 1);
    }
}

/// An argument split at its first `=`: the name, and the inline value.
pub open spec fn option_name(a: Seq<char>) -> Seq<char> {
    match first_at(a, '=') {
        Some(k) => a.take(k),
        None => a,
    }
}

pub open spec fn option_inline(a: Seq<char>) -> Option<Seq<char>> {
    match first_at(a, '=') {
        Some(k) => Some(a.skip(k + 1)),
        None => None,
    }
}

/// What the options read so far say: grants in order, the set of
/// features, the format (`true` for JSON) and the input.
pub type SdkScan = (Seq<Seq<char>>, Set<Seq<char>>, bool, Option<Seq<char>>);

/// One known option applied with its value.
pub open spec fn apply_option(name: Seq<char>, v: Seq<char>, st: SdkScan) -> Result<SdkScan, Seq<char>> {
    if name == "--grant"@ {
        Ok((st.0.push(v), st.1, st.2, st.3))
    } else if name == "--feature"@ {
        if feature_ok(v) {
            Ok((st.0, st.1.insert(v), st.2, st.3))
        } else {
            Err("feature IDs use lowercase ASCII letters, digits, and interior hyphens"@)
        }
    } else if name == "--format"@ {
        if v == "human"@ {
            Ok((st.0, st.1, false, st.3))
        } else if v == "json"@ {
            Ok((st.0, st.1, true, st.3))
        } else {
            Err("--format must be `human` or `json`"@)
        }
    } else {
        Ok((st.0, st.1, st.2, Some(v)))
    }
}

/// The options of `pliego sdk check|test` read from `args[i..]` onto `st`;
/// a value is given inline after `=` or as the next argument.
pub open spec fn sdk_scan(args: Seq<Seq<char>>, i: nat, st: SdkScan) -> Result<SdkScan, Seq<char>>
    decreases args.len() - i,
{
    if i >= args.len() {
        Ok(st)
    } else {
        let a = args[i as int];
        let name = option_name(a);
        if !(name == "--grant"@ || name == "--feature"@ || name == "--format"@ || name == "--input"@) {
            Err("unknown SDK option `"@ + a + "`"@)
        } else {
            match option_inline(a) {
                Some(v) => match apply_option(name, v, st) {
                    Ok(next) => sdk_scan(args, i + 1, next),
                    Err(m) => Err(m),
                },
                None => if i + 1 < args.len() {
                    match apply_option(name, args[i + 1 as int], st) {
                        Ok(next) => sdk_scan(args, i + 2, next),
                        Err(m) => Err(m),
                    }
                } else {
                    Err(name + " requires a value"@)
                },
            }
        }
    }
}

/// What `pliego sdk check|test` reads from its arguments.
pub open spec fn sdk_outcome(args: Seq<Seq<char>>) -> Result<
    (SdkAction, Seq<char>, Seq<Seq<char>>, Set<Seq<char>>, bool, Option<Seq<char>>),
    Seq<char>,
> {
    if args.len() == 0 || !(args[0] == "check"@ || args[0] == "test"@) {
        Err(SDK_USAGE@)
    } else if args.len() < 2 || dash_led(args[1]) {
        Err(SDK_USAGE@)
    } else {
        let action = if args[0] == "check"@ {
            SdkAction::Check
        } else {
            SdkAction::Test
        };
        match sdk_scan(args, 2, (Seq::empty(), Set::empty(), false, None)) {
            Err(m) => Err(m),
            Ok((g, f, j, input)) => if action == SdkAction::Check && input is Some {
                Err("--input is only valid with `sdk test`"@)
            } else {
                Ok((action, args[1], g, f, j, input))
            },
        }
    }
}

fn split_option(a: &str) -> (r: (String, Option<String>))
    ensures
        r.0@ == option_name(a@),
        match r.1 {
            Some(v) => option_inline(a@) == Some(v@),
            None => option_inline(a@) is None,
        },
{
    let chars = chars_of(a);
    let mut k: usize = 0;
    while k < chars.len() && chars[k] != '='
        invariant
            k <= chars.len(),
            chars@ == a@,
            forall|m: int| 0 <= m < k ==> chars@[m] != '=',
        decreases chars.len() - k,
    {
        k = k + 1;
    }
    proof {
        lemma_first_at(a@, '=', k as int);
    }
    if k < chars.len() {
        let name = string_from_chars(crate::portable::prefix_chars(chars.as_slice(), k).as_slice());
        let inline = crate::numtext::suffix_string(chars.as_slice(), k + 1);
        (name, Some(inline))
    } else {
        (a.to_owned(), None)
    }
}

/// Parses `pliego sdk check|test <manifest> [options]`.
pub fn parse_sdk_options(arguments: Vec<String>) -> (r: Result<SdkOptions, String>)
    ensures
        match sdk_outcome(string_views(arguments@)) {
            Ok((action, manifest, grants, features, json, input)) => r matches Ok(o) && o.action == action
                && o.manifest@ == manifest && string_views(o.grants@) == grants && lists(o.features@, features)
                && o.format == (if json {
                OutputFormat::Json
            } else {
                OutputFormat::Human
            }) && crate::cli::option_text(o.input) == input,
            Err(m) => r matches Err(e) && e@ == m,
        },
{
    let ghost args = string_views(arguments@);
    proof {
        reveal_strlit("check");
        reveal_strlit("test");
        assert("check"@.len() != "test"@.len());
        assert(arguments.len() > 0 ==> args[0] == arguments@[0]@);
        assert(arguments.len() > 1 ==> args[1] == arguments@[1]@);
    }
    if arguments.len() == 0 {
        return Err(SDK_USAGE.to_owned());
    }
    let action = if str_eq(arguments[0].as_str(), "check") {
        SdkAction::Check
    } else if str_eq(arguments[0].as_str(), "test") {
        SdkAction::Test
    } else {
        return Err(SDK_USAGE.to_owned());
    };
    if arguments.len() < 2 || crate::cli::starts_with_dash(arguments[1].as_str()) {
        return Err(SDK_USAGE.to_owned());
    }
    let manifest = arguments[1].clone();
    let mut grants: Vec<String> = Vec::new();
    let mut features: TextMap<()> = TextMap::new();
    let mut json = false;
    let mut input: Option<String> = None;
    let mut i: usize = 2;
    proof {
        assert(string_views(grants@) =~= Seq::<Seq<char>>::empty());
        assert(features@.dom() =~= Set::<Seq<char>>::empty());
    }
    while i < arguments.len()
        invariant
            args == string_views(arguments@),
            2 <= i <= arguments.len(),
            args[0] == "check"@ || args[0] == "test"@,
            !dash_led(args[1]),
            action == (if args[0] == "check"@ {
                SdkAction::Check
            } else {
                SdkAction::Test
            }),
            manifest@ == args[1],
            features.wf(),
            sdk_scan(args, 2, (Seq::empty(), Set::empty(), false, None)) == sdk_scan(
                args,
                i as nat,
                (string_views(grants@), features@.dom(), json, crate::cli::option_text(input)),
            ),
        decreases arguments.len() - i,
    {
        let argument = arguments[i].as_str();
        proof {
            assert(args[i as int] == arguments@[i as int]@);
            if i + 1 < arguments.len() {
                assert(args[i + 1] == arguments@[i + 1]@);
            }
        }
        let (name, inline) = split_option(argument);
        let known = str_eq(name.as_str(), "--grant") || str_eq(name.as_str(), "--feature") || str_eq(
            name.as_str(),
            "--format",
        ) || str_eq(name.as_str(), "--input");
        if !known {
            return Err(concat3("unknown SDK option `", argument, "`"));
        }
        let (value, next) = match inline {
            Some(v) => (v, i + 1),
            None => {
                if i + 1 < arguments.len() {
                    (arguments[i + 1].clone(), i + 2)
                } else {
                    return Err(crate::text::concat2(name.as_str(), " requires a value"));
                }
            },
        };
        if str_eq(name.as_str(), "--grant") {
            let ghost before = string_views(grants@);
            grants.push(value);
            proof {
                assert(string_views(grants@) =~= before.push(grants@.last()@));
            }
        } else if str_eq(name.as_str(), "--feature") {
            match validate_feature(value) {
                Ok(v) => {
                    set_add(&mut features, v.as_str());
                },
                Err(e) => {
                    return Err(e);
                },
            }
        } else if str_eq(name.as_str(), "--format") {
            if str_eq(value.as_str(), "human") {
                json = false;
            } else if str_eq(value.as_str(), "json") {
                json = true;
            } else {
                return Err("--format must be `human` or `json`".to_owned());
            }
        } else {
            input = Some(value);
        }
        i = next;
    }
    if action == SdkAction::Check && input.is_some() {
        return Err("--input is only valid with `sdk test`".to_owned());
    }
    let features = set_list(&features);
    Ok(
        SdkOptions {
            action,
            manifest,
            grants,
            features,
            format: if json {
                OutputFormat::Json
            } else {
                OutputFormat::Human
            },
            input,
        },
    )
}

/// The output format of `pliego sdk compatibility`.
pub open spec fn compatibility_outcome(args: Seq<Seq<char>>) -> Result<OutputFormat, Seq<char>> {
    if args.len() == 0 {
        Ok(OutputFormat::Human)
    } else if args.len() == 2 && args[0] == "--format"@ {
        if args[1] == "human"@ {
            Ok(OutputFormat::Human)
        } else if args[1] == "json"@ {
            Ok(OutputFormat::Json)
        } else {
            Err("--format must be `human` or `json`"@)
        }
    } else if args.len() == 1 && starts_with(args[0], "--format="@) {
        if args[0].skip(9) == "human"@ {
            Ok(OutputFormat::Human)
        } else if args[0].skip(9) == "json"@ {
            Ok(OutputFormat::Json)
        } else {
            Err("--format must be `human` or `json`"@)
        }
    } else {
        Err("usage: pliego sdk compatibility [--format <human|json>]"@)
    }
}

/// Reads the options of `pliego sdk compatibility`.
pub fn compatibility_format(arguments: &Vec<String>) -> (r: Result<OutputFormat, String>)
    ensures
        match compatibility_outcome(string_views(arguments@)) {
            Ok(f) => r == Ok::<OutputFormat, String>(f),
            Err(m) => r matches Err(e) && e@ == m,
        },
{
    proof {
        reveal_strlit("--format=");
        reveal_strlit("human");
        reveal_strlit("json");
        assert("human"@.len() != "json"@.len());
        let args = string_views(arguments@);
        assert(arguments.len() > 0 ==> args[0] == arguments@[0]@);
        assert(arguments.len() > 1 ==> args[1] == arguments@[1]@);
    }
    if arguments.len() == 0 {
        return Ok(OutputFormat::Human);
    }
    let value: String;
    if arguments.len() == 2 && str_eq(arguments[0].as_str(), "--format") {
        value = arguments[1].clone();
    } else if arguments.len() == 1 {
        let chars = chars_of(arguments[0].as_str());
        let prefix = chars_of("--format=");
        if !starts_with_chars(chars.as_slice(), prefix.as_slice()) {
            return Err("usage: pliego sdk compatibility [--format <human|json>]".to_owned());
        }
        value = crate::numtext::suffix_string(chars.as_slice(), 9);
    } else {
        return Err("usage: pliego sdk compatibility [--format <human|json>]".to_owned());
    }
    if str_eq(value.as_str(), "human") {
        Ok(OutputFormat::Human)
    } else if str_eq(value.as_str(), "json") {
        Ok(OutputFormat::Json)
    } else {
        Err("--format must be `human` or `json`".to_owned())
    }
}

/// The checks every conformance run passes.
pub open spec fn admission_checks() -> Seq<Seq<char>> {
    seq!["schema"@, "identity"@, "compatibility"@, "digest"@, "capabilities"@]
}

/// The conformance level and checks of a run: `check` admits only; `test`
/// also shapes and re-admits the component, and adds the runtime checks of
/// what it instantiated or executed as a build transform.
pub open spec fn conformance_outcome(action: SdkAction, instantiated: bool, transformed: bool) -> (
    Seq<char>,
    Seq<Seq<char>>,
) {
    match action {
        SdkAction::Check => ("admission"@, admission_checks()),
        SdkAction::Test => {
            let level = if transformed {
                "build-transform-execution"@
            } else if instantiated {
                "component-instantiation"@
            } else {
                "admission"@
            };
            let base = admission_checks() + seq!["component-shape"@, "deterministic-admission"@];
            let runtime = if instantiated || transformed {
                seq!["deny-by-default-runtime"@]
            } else {
                Seq::empty()
            };
            let transform = if transformed {
                seq!["typed-build-transform"@, "runtime-budgets"@, "digest-bound-output"@]
            } else {
                Seq::empty()
            };
            (level, base + runtime + transform)
        },
    }
}

/// The digest a conformance report records of the manifest or entry it
/// read: `sha256:` and the lowercase hex SHA-256 of the bytes.
pub fn report_digest(bytes: &[u8]) -> (s: String)
    ensures
        s@ == "sha256:"@ + sha256_hex(bytes@),
{
    let hex = sha256_bytes(bytes);
    concat2("sha256:", hex.as_str())
}

/// The level and checks a conformance report records.
pub fn conformance_level(action: SdkAction, instantiated: bool, transformed: bool) -> (r: (
    &'static str,
    Vec<&'static str>,
))
    ensures
        r.0@ == conformance_outcome(action, instantiated, transformed).0,
        r.1@.map_values(|s: &'static str| s@) == conformance_outcome(action, instantiated, transformed).1,
{
    let mut checks: Vec<&'static str> = vec!["schema", "identity", "compatibility", "digest", "capabilities"];
    match action {
        SdkAction::Check => {
            proof {
                assert(checks@.map_values(|s: &'static str| s@) =~= admission_checks());
            }
            ("admission", checks)
        },
        SdkAction::Test => {
            checks.push("component-shape");
            checks.push("deterministic-admission");
            let ghost base = checks@.map_values(|s: &'static str| s@);
            proof {
                assert(base =~= admission_checks() + seq!["component-shape"@, "deterministic-admission"@]);
            }
            if instantiated || transformed {
                checks.push("deny-by-default-runtime");
            }
            let ghost with_runtime = checks@.map_values(|s: &'static str| s@);
            proof {
                assert(with_runtime =~= base + (if instantiated || transformed {
                    seq!["deny-by-default-runtime"@]
                } else {
                    Seq::<Seq<char>>::empty()
                }));
            }
            if transformed {
                checks.push("typed-build-transform");
                checks.push("runtime-budgets");
                checks.push("digest-bound-output");
            }
            proof {
                assert(checks@.map_values(|s: &'static str| s@) =~= with_runtime + (if transformed {
                    seq!["typed-build-transform"@, "runtime-budgets"@, "digest-bound-output"@]
                } else {
                    Seq::<Seq<char>>::empty()
                }));
            }
            let level = if transformed {
                "build-transform-execution"
            } else if instantiated {
                "component-instantiation"
            } else {
                "admission"
            };
            (level, checks)
        },
    }
}

/// Whether a transform input may be given: only to a WebAssembly component
/// of the build transformer world.
pub fn transform_input_allowed(wasm_component: bool, world: Option<&str>) -> (b: bool)
    ensures
        b == (wasm_component && (world matches Some(w) && w@ == "pliego:build/transformer@0.1.0"@)),
{
    wasm_component && match world {
        Some(w) => str_eq(w, "pliego:build/transformer@0.1.0"),
        None => false,
    }
}

} // verus!
