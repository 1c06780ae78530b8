//! Command-line rules of the `pliego` tool: failure kinds, global options and
//! argument helpers.
use vstd::prelude::*;
use crate::text::{
    chars_of, concat2, concat3, push_str, push_char, string_from_chars, starts_with, starts_with_chars,
    ends_with, ends_with_chars, split_on, split_chars, char_views, is_ascii_alnum, is_ascii_alpha,
    is_ascii_upper, ascii_alnum, ascii_alpha, compare_chars, TextOrder, utf8_len, utf8_len_of,
};
use crate::numtext::{parse_unsigned, parses_unsigned, digits_value, unsigned_body, decimal_of, decimal_string, lower_ascii_char};
use crate::raster::string_views;

verus! {

broadcast use vstd::string::group_string_axioms;

pub const RELOAD_PATH: &'static str = "/_pliego/reload";
pub const MAX_REQUEST_TARGET_BYTES: usize = 4096;

/// The class of a command failure; it selects the exit code and guidance.
#[derive(Clone, Copy, Debug, Eq, PartialEq, Structural)]
pub enum FailureKind {
    Usage,
    Project,
    Scaffold,
    Check,
    Build,
    Artifact,
    Server,
}

impl FailureKind {
    pub fn code(self) -> (c: i32)
        ensures
            c == match self {
                FailureKind::Usage => 2i32,
                FailureKind::Project | FailureKind::Scaffold => 3,
                FailureKind::Check => 4,
                FailureKind::Build => 5,
                FailureKind::Artifact => 6,
                FailureKind::Server => 7,
            },
    {
        match self {
            FailureKind::Usage => 2,
            FailureKind::Project | FailureKind::Scaffold => 3,
            FailureKind::Check => 4,
            FailureKind::Build => 5,
            FailureKind::Artifact => 6,
            FailureKind::Server => 7,
        }
    }

    pub fn label(self) -> (s: &'static str)
        ensures
            s@ == match self {
                FailureKind::Usage => "usage"@,
                FailureKind::Project => "project"@,
                FailureKind::Scaffold => "scaffold"@,
                FailureKind::Check => "check"@,
                FailureKind::Build => "build"@,
                FailureKind::Artifact => "artifact"@,
                FailureKind::Server => "server"@,
            },
    {
        match self {
            FailureKind::Usage => "usage",
            FailureKind::Project => "project",
            FailureKind::Scaffold => "scaffold",
            FailureKind::Check => "check",
            FailureKind::Build => "build",
            FailureKind::Artifact => "artifact",
            FailureKind::Server => "server",
        }
    }

    pub fn diagnostic_code(self) -> (s: &'static str)
        ensures
            s@ == match self {
                FailureKind::Usage => "PLG-ARG-001"@,
                FailureKind::Project => "PLG-PRJ-001"@,
                FailureKind::Scaffold => "PLG-NEW-001"@,
                FailureKind::Check => "PLG-ENV-001"@,
                FailureKind::Build => "PLG-BLD-001"@,
                FailureKind::Artifact => "PLG-ART-001"@,
                FailureKind::Server => "PLG-SRV-001"@,
            },
    {
        match self {
            FailureKind::Usage => "PLG-ARG-001",
            FailureKind::Project => "PLG-PRJ-001",
            FailureKind::Scaffold => "PLG-NEW-001",
            FailureKind::Check => "PLG-ENV-001",
            FailureKind::Build => "PLG-BLD-001",
            FailureKind::Artifact => "PLG-ART-001",
            FailureKind::Server => "PLG-SRV-001",
        }
    }

    pub fn help(self) -> (s: &'static str)
        ensures
            s@ == failure_help(self),
    {
        match self {
            FailureKind::Usage => "Run `pliego help` or `pliego templates` to inspect the command contract.",
            FailureKind::Project => "Run the command inside a project and validate `pliego.toml`.",
            FailureKind::Scaffold => "Choose an empty destination and an explicit dependency source when developing locally.",
            FailureKind::Check => "Install or correct the named Rust target, package target, or external tool.",
            FailureKind::Build => "Correct the reported compiler or site builder error, then run `pliego build` again.",
            FailureKind::Artifact => "Produce a successful build before inspecting or previewing its ledger.",
            FailureKind::Server => "Choose an available port and confirm the output directory is readable.",
        }
    }
}

pub open spec fn failure_help(k: FailureKind) -> Seq<char> {
    match k {
        FailureKind::Usage => "Run `pliego help` or `pliego templates` to inspect the command contract."@,
        FailureKind::Project => "Run the command inside a project and validate `pliego.toml`."@,
        FailureKind::Scaffold => "Choose an empty destination and an explicit dependency source when developing locally."@,
        FailureKind::Check => "Install or correct the named Rust target, package target, or external tool."@,
        FailureKind::Build => "Correct the reported compiler or site builder error, then run `pliego build` again."@,
        FailureKind::Artifact => "Produce a successful build before inspecting or previewing its ledger."@,
        FailureKind::Server => "Choose an available port and confirm the output directory is readable."@,
    }
}

/// A failed command: its kind and message.
#[derive(Debug)]
pub struct CliFailure {
    pub kind: FailureKind,
    pub message: String,
}

impl CliFailure {
    pub fn new(kind: FailureKind, message: String) -> (f: CliFailure)
        ensures
            f.kind == kind,
            f.message == message,
    {
        CliFailure { kind, message }
    }
}

/// How failures are printed.
#[derive(Clone, Copy, Debug, Eq, PartialEq, Structural)]
pub enum DiagnosticFormat {
    Human,
    Json,
}

/// State of the global option scan: chosen format, whether one was given,
/// and the arguments kept for the command.
pub struct GlobalScan {
    pub format: DiagnosticFormat,
    pub configured: bool,
    pub output: Seq<Seq<char>>,
}

pub open spec fn is_value_flag(a: Seq<char>) -> bool {
    a == "--name"@ || a == "--framework-path"@ || a == "--template"@
}

/// Removes `--diagnostic-format` (as `--diagnostic-format <v>` or
/// `--diagnostic-format=<v>`) from `args[i..]`; the values of `--name`,
/// `--framework-path` and `--template` pass through untouched.
pub open spec fn global_scan(args: Seq<Seq<char>>, i: nat, st: GlobalScan) -> Result<GlobalScan, Seq<char>>
    decreases args.len() - i,
{
    if i >= args.len() {
        Ok(st)
    } else {
        let a = args[i as int];
        if is_value_flag(a) {
            if i + 1 < args.len() {
                global_scan(args, i + 2, GlobalScan { output: st.output.push(a).push(args[i + 1 as int]), ..st })
            } else {
                Ok(GlobalScan { output: st.output.push(a), ..st })
            }
        } else {
            let (value, next): (Option<Seq<char>>, nat) = if a == "--diagnostic-format"@ {
                if i + 1 < args.len() {
                    (Some(args[i + 1 as int]), i + 2)
                } else {
                    (None, i + 1)
                }
            } else if starts_with(a, "--diagnostic-format="@) {
                (Some(a.skip(20)), i + 1)
            } else {
                (None, i + 1)
            };
            if a == "--diagnostic-format"@ && i + 1 >= args.len() {
                Err("--diagnostic-format requires `human` or `json`"@)
            } else if value is Some {
                if st.configured {
                    Err("--diagnostic-format may only be provided once"@)
                } else if value->0 == "human"@ {
                    global_scan(args, next, GlobalScan { format: DiagnosticFormat::Human, configured: true, ..st })
                } else if value->0 == "json"@ {
                    global_scan(args, next, GlobalScan { format: DiagnosticFormat::Json, configured: true, ..st })
                } else {
                    Err("--diagnostic-format must be `human` or `json`"@)
                }
            } else {
                global_scan(args, next, GlobalScan { output: st.output.push(a), ..st })
            }
        }
    }
}

fn text_is(a: &str, b: &str) -> (r: bool)
    ensures
        r == (a@ == b@),
{
    let x = chars_of(a);
    let y = chars_of(b);
    match compare_chars(x.as_slice(), y.as_slice()) {
        TextOrder::Equal => true,
        _ => false,
    }
}

/// Separates the global diagnostic format from the command's own arguments.
pub fn parse_global_options(arguments: Vec<String>) -> (r: Result<(DiagnosticFormat, Vec<String>), CliFailure>)
    ensures
        match global_scan(
            string_views(arguments@),
            0,
            GlobalScan { format: DiagnosticFormat::Human, configured: false, output: Seq::empty() },
        ) {
            Ok(st) => r matches Ok((f, out)) && f == st.format && string_views(out@) == st.output,
            Err(m) => r matches Err(e) && e.kind == FailureKind::Usage && e.message@ == m,
        },
{
    proof {
        reveal_strlit("--diagnostic-format=");
    }
    let ghost args = string_views(arguments@);
    let mut format = DiagnosticFormat::Human;
    let mut configured = false;
    let mut output: Vec<String> = Vec::new();
    let mut i: usize = 0;
    let prefix = chars_of("--diagnostic-format=");
    proof {
        assert(string_views(output@) =~= Seq::<Seq<char>>::empty());
    }
    while i < arguments.len()
        invariant
            args == string_views(arguments@),
            prefix@ == "--diagnostic-format="@,
            prefix@.len() == 20,
            i <= arguments.len() + 1,
            global_scan(args, 0, GlobalScan { format: DiagnosticFormat::Human, configured: false, output: Seq::empty() })
                == global_scan(args, i as nat, GlobalScan { format, configured, output: string_views(output@) }),
        decreases arguments.len() + 1 - i,
    {
        let argument = arguments[i].as_str();
        let ghost before = string_views(output@);
        proof {
            assert(args[i as int] == arguments@[i as int]@);
            if i + 1 < arguments.len() {
                assert(args[i + 1] == arguments@[i + 1]@);
            }
        }
        if text_is(argument, "--name") || text_is(argument, "--framework-path") || text_is(argument, "--template") {
            output.push(arguments[i].clone());
            if i + 1 < arguments.len() {
                output.push(arguments[i + 1].clone());
                proof {
                    assert(string_views(output@) =~= before.push(args[i as int]).push(args[i + 1]));
                }
                i = i + 2;
            } else {
                proof {
                    assert(string_views(output@) =~= before.push(args[i as int]));
                }
                return Ok((format, output));
            }
        } else {
            let chars = chars_of(argument);
            let value: Option<String>;
            let next: usize;
            if text_is(argument, "--diagnostic-format") {
                if i + 1 < arguments.len() {
                    value = Some(arguments[i + 1].clone());
                    next = i + 2;
                } else {
                    return Err(CliFailure::new(
                        FailureKind::Usage,
                        "--diagnostic-format requires `human` or `json`".to_owned(),
                    ));
                }
            } else if starts_with_chars(chars.as_slice(), prefix.as_slice()) {
                let rest = crate::numtext::suffix_string(chars.as_slice(), 20);
                value = Some(rest);
                next = i + 1;
            } else {
                value = None;
                next = i + 1;
            }
            match value {
                Some(v) => {
                    if configured {
                        return Err(CliFailure::new(
                            FailureKind::Usage,
                            "--diagnostic-format may only be provided once".to_owned(),
                        ));
                    }
                    if text_is(v.as_str(), "human") {
                        format = DiagnosticFormat::Human;
                    } else if text_is(v.as_str(), "json") {
                        format = DiagnosticFormat::Json;
                    } else {
                        return Err(CliFailure::new(
                            FailureKind::Usage,
                            "--diagnostic-format must be `human` or `json`".to_owned(),
                        ));
                    }
                    configured = true;
                },
                None => {
                    output.push(arguments[i].clone());
                    proof {
                        assert(string_views(output@) =~= before.push(args[i as int]));
                    }
                },
            }
            i = next;
        }
    }
    Ok((format, output))
}

/// An argument that names the CSS source.
pub open spec fn names_source(a: Seq<char>) -> bool {
    a == "--source"@ || starts_with(a, "--source="@)
}

/// `--source src` is prepended unless a source is already given.
pub open spec fn css_arguments(args: Seq<Seq<char>>) -> Seq<Seq<char>> {
    if exists|i: int| 0 <= i < args.len() && #[trigger] names_source(args[i]) {
        args
    } else {
        seq!["--source"@, "src"@] + args
    }
}

/// Arguments for the CSS checker: the project's `src` unless a source is named.
pub fn css_check_arguments(arguments: Vec<String>) -> (out: Vec<String>)
    ensures
        string_views(out@) == css_arguments(string_views(arguments@)),
{
    let ghost args = string_views(arguments@);
    let prefix = chars_of("--source=");
    let mut i: usize = 0;
    while i < arguments.len()
        invariant
            i <= arguments.len(),
            args == string_views(arguments@),
            prefix@ == "--source="@,
            forall|k: int| 0 <= k < i ==> !#[trigger] names_source(args[k]),
        decreases arguments.len() - i,
    {
        let a = chars_of(arguments[i].as_str());
        proof {
            assert(args[i as int] == arguments@[i as int]@);
        }
        if text_is(arguments[i].as_str(), "--source") || starts_with_chars(a.as_slice(), prefix.as_slice()) {
            proof {
                assert(names_source(args[i as int]));
            }
            return arguments;
        }
        proof {
            assert(!names_source(args[i as int]));
        }
        i = i + 1;
    }
    let mut out: Vec<String> = Vec::new();
    out.push("--source".to_owned());
    out.push("src".to_owned());
    let ghost start = string_views(out@);
    proof {
        assert(start =~= seq!["--source"@, "src"@]);
    }
    let mut j: usize = 0;
    while j < arguments.len()
        invariant
            j <= arguments.len(),
            args == string_views(arguments@),
            forall|k: int| 0 <= k < arguments.len() ==> !#[trigger] names_source(args[k]),
            string_views(out@) == seq!["--source"@, "src"@] + args.take(j as int),
        decreases arguments.len() - j,
    {
        let ghost before = string_views(out@);
        let item = arguments[j].clone();
        proof {
            assert(item@ == args[j as int]);
        }
        out.push(item);
        j = j + 1;
        proof {
            assert(string_views(out@) =~= before.push(item@));
            assert(args.take(j as int) =~= args.take(j - 1).push(args[j - 1]));
            assert(string_views(out@) =~= seq!["--source"@, "src"@] + args.take(j as int));
        }
    }
    proof {
        assert(args.take(arguments.len() as int) =~= args);
    }
    out
}

/// `pliego css check ...`: the checker's arguments.
pub fn parse_css_command(arguments: Vec<String>) -> (r: Result<Vec<String>, String>)
    ensures
        arguments.len() > 0 && arguments@[0]@ == "check"@ ==> (r matches Ok(rest) && string_views(rest@)
            == string_views(arguments@).skip(1)),
        !(arguments.len() > 0 && arguments@[0]@ == "check"@) ==> (r matches Err(e) && e@
            == "usage: pliego css check [pliego-cssc check options]"@),
{
    if arguments.len() == 0 || !text_is(arguments[0].as_str(), "check") {
        return Err("usage: pliego css check [pliego-cssc check options]".to_owned());
    }
    let mut rest: Vec<String> = Vec::new();
    let mut j: usize = 1;
    while j < arguments.len()
        invariant
            1 <= j <= arguments.len(),
            string_views(rest@) == string_views(arguments@).subrange(1, j as int),
        decreases arguments.len() - j,
    {
        let ghost before = string_views(rest@);
        let item = arguments[j].clone();
        proof {
            assert(item@ == string_views(arguments@)[j as int]);
        }
        rest.push(item);
        j = j + 1;
        proof {
            assert(string_views(rest@) =~= before.push(item@));
            assert(string_views(rest@) =~= string_views(arguments@).subrange(1, j as int));
        }
    }
    proof {
        assert(string_views(arguments@).subrange(1, arguments.len() as int) =~= string_views(arguments@).skip(1));
    }
    Ok(rest)
}

/// A port: the given value parsed as `u16`, or the default; never zero.
pub fn parse_port(value: Option<String>, default: u16) -> (r: Result<u16, String>)
    ensures
        match value {
            None => if default == 0 { r is Err } else { r == Ok::<u16, String>(default) },
            Some(v) => if parses_unsigned(v@, 65535) && digits_value(unsigned_body(v@)) != 0 {
                r == Ok::<u16, String>(digits_value(unsigned_body(v@)) as u16)
            } else {
                r is Err
            },
        },
        r matches Err(e) ==> e@ == "port must be an integer between 1 and 65535"@,
{
    let port = match value {
        None => default,
        Some(v) => {
            let chars = chars_of(v.as_str());
            match parse_unsigned(chars.as_slice(), 65535) {
                Some(p) => p as u16,
                None => {
                    return Err("port must be an integer between 1 and 65535".to_owned());
                },
            }
        },
    };
    if port == 0 {
        Err("port must be an integer between 1 and 65535".to_owned())
    } else {
        Ok(port)
    }
}

/// Refuses any argument left over.
pub fn reject_extra_arguments(arguments: &[String]) -> (r: Result<(), String>)
    ensures
        arguments.len() == 0 <==> r is Ok,
        r matches Err(e) ==> e@ == "unexpected argument `"@ + arguments@[0]@ + "`"@,
{
    if arguments.len() > 0 {
        Err(concat3("unexpected argument `", arguments[0].as_str(), "`"))
    } else {
        Ok(())
    }
}

} // verus!

verus! {

/// A component of a slash-separated path, as `Path::components` yields it on Unix.
pub enum PathPart {
    Root,
    Cur,
    Parent,
    Normal(Seq<char>),
}

/// The component (if any) that piece `i` of a split path contributes.
pub open spec fn piece_part(piece: Seq<char>, i: int) -> Seq<PathPart> {
    if piece.len() == 0 {
        Seq::empty()
    } else if piece == "."@ {
        if i == 0 { seq![PathPart::Cur] } else { Seq::empty() }
    } else if piece == ".."@ {
        seq![PathPart::Parent]
    } else {
        seq![PathPart::Normal(piece)]
    }
}

pub open spec fn pieces_parts(pieces: Seq<Seq<char>>) -> Seq<PathPart>
    decreases pieces.len(),
{
    if pieces.len() == 0 {
        Seq::empty()
    } else {
        pieces_parts(pieces.drop_last()) + piece_part(pieces.last(), pieces.len() - 1)
    }
}

/// The components of a path: a root for a leading slash, then the named
/// pieces; empty pieces and inner `.` pieces are dropped.
pub open spec fn path_parts(p: Seq<char>) -> Seq<PathPart> {
    (if p.len() > 0 && p[0] == '/' { seq![PathPart::Root] } else { Seq::empty() }) + pieces_parts(split_on(p, '/'))
}

/// Executable form of a path component; `Normal` holds the name.
#[derive(Clone, Debug)]
pub enum PathComponent {
    Root,
    Cur,
    Parent,
    Normal(Vec<char>),
}

pub open spec fn component_view(c: PathComponent) -> PathPart {
    match c {
        PathComponent::Root => PathPart::Root,
        PathComponent::Cur => PathPart::Cur,
        PathComponent::Parent => PathPart::Parent,
        PathComponent::Normal(n) => PathPart::Normal(n@),
    }
}

pub open spec fn component_views(v: Seq<PathComponent>) -> Seq<PathPart> {
    v.map_values(|c: PathComponent| component_view(c))
}

fn chars_equal(a: &[char], b: &str) -> (r: bool)
    ensures
        r == (a@ == b@),
{
    let bc = chars_of(b);
    match compare_chars(a, bc.as_slice()) {
        TextOrder::Equal => true,
        _ => false,
    }
}

/// The components of a path, as `Path::components` yields them on Unix.
pub fn path_components(path: &str) -> (out: Vec<PathComponent>)
    ensures
        component_views(out@) == path_parts(path@),
{
    let chars = chars_of(path);
    let pieces = split_chars(chars.as_slice(), '/');
    let ghost views = char_views(pieces@);
    let mut out: Vec<PathComponent> = Vec::new();
    if chars.len() > 0 && chars[0] == '/' {
        out.push(PathComponent::Root);
    }
    let ghost start = component_views(out@);
    proof {
        if chars.len() > 0 && chars[0] == '/' {
            assert(start =~= seq![PathPart::Root]);
        } else {
            assert(start =~= Seq::<PathPart>::empty());
        }
    }
    let mut i: usize = 0;
    while i < pieces.len()
        invariant
            i <= pieces.len(),
            views == char_views(pieces@),
            views == split_on(path@, '/'),
            component_views(out@) == start + pieces_parts(views.take(i as int)),
        decreases pieces.len() - i,
    {
        let piece = &pieces[i];
        let ghost before = component_views(out@);
        proof {
            assert(views.take(i + 1).drop_last() =~= views.take(i as int));
            assert(views.take(i + 1).last() == piece@);
        }
        if piece.len() == 0 {
            proof {
                assert(before + Seq::<PathPart>::empty() =~= before);
            }
        } else if chars_equal(piece.as_slice(), ".") {
            if i == 0 {
                out.push(PathComponent::Cur);
                proof {
                    assert(component_views(out@) =~= before + seq![PathPart::Cur]);
                }
            } else {
                proof {
                    assert(before + Seq::<PathPart>::empty() =~= before);
                }
            }
        } else if chars_equal(piece.as_slice(), "..") {
            out.push(PathComponent::Parent);
            proof {
                assert(component_views(out@) =~= before + seq![PathPart::Parent]);
            }
        } else {
            let copy = crate::portable::prefix_chars(piece.as_slice(), piece.len());
            proof {
                assert(piece@.take(piece.len() as int) =~= piece@);
            }
            out.push(PathComponent::Normal(copy));
            proof {
                assert(component_views(out@) =~= before + seq![PathPart::Normal(piece@)]);
            }
        }
        i = i + 1;
        proof {
            assert(start + pieces_parts(views.take(i as int)) =~= (start + pieces_parts(views.take(i - 1)))
                + piece_part(views[i - 1], i - 1));
        }
    }
    proof {
        assert(views.take(pieces.len() as int) =~= views);
    }
    out
}

/// The final component's name, when it is a normal name (`Path::file_name`).
pub open spec fn file_name_of(p: Seq<char>) -> Option<Seq<char>> {
    let parts = path_parts(p);
    if parts.len() > 0 && parts.last() is Normal {
        Some(parts.last()->Normal_0)
    } else {
        None
    }
}

fn file_name(path: &str) -> (r: Option<Vec<char>>)
    ensures
        match file_name_of(path@) {
            Some(n) => r matches Some(v) && v@ == n,
            None => r is None,
        },
{
    let parts = path_components(path);
    if parts.len() == 0 {
        return None;
    }
    proof {
        assert(component_views(parts@).last() == component_view(parts@.last()));
    }
    match &parts[parts.len() - 1] {
        PathComponent::Normal(n) => Some(crate::portable::prefix_chars(n.as_slice(), n.len())),
        _ => None,
    }
}

} // verus!

verus! {

/// The extension of a file name, as `Path::extension` finds it.
pub open spec fn extension_of(name: Seq<char>) -> Option<Seq<char>> {
    if name == ".."@ {
        None
    } else if exists|i: int| 0 < i < name.len() && name[i] == '.' {
        let i = choose|i: int|
            0 < i < name.len() && name[i] == '.' && forall|j: int| i < j < name.len() ==> name[j] != '.';
        Some(name.skip(i + 1))
    } else {
        None
    }
}

proof fn lemma_extension_at(name: Seq<char>, dot: int)
    requires
        name != ".."@,
        0 < dot < name.len(),
        name[dot] == '.',
        forall|j: int| dot < j < name.len() ==> name[j] != '.',
    ensures
        extension_of(name) == Some(name.skip(dot + 1)),
{
    let c = choose|i: int|
        0 < i < name.len() && name[i] == '.' && forall|j: int| i < j < name.len() ==> name[j] != '.';
    assert(0 < dot < name.len() && name[dot] == '.' && forall|j: int| dot < j < name.len() ==> name[j] != '.');
    if c < dot {
        assert(name[dot] != '.');
    }
    if c > dot {
        assert(name[c] != '.');
    }
}

/// The MIME type served for an extension.
pub open spec fn mime_of(ext: Option<Seq<char>>) -> Seq<char> {
    match ext {
        None => "application/octet-stream"@,
        Some(e) => if e == "html"@ {
            "text/html; charset=utf-8"@
        } else if e == "css"@ {
            "text/css; charset=utf-8"@
        } else if e == "js"@ {
            "text/javascript; charset=utf-8"@
        } else if e == "wasm"@ {
            "application/wasm"@
        } else if e == "svg"@ {
            "image/svg+xml"@
        } else if e == "avif"@ {
            "image/avif"@
        } else if e == "webp"@ {
            "image/webp"@
        } else if e == "jpg"@ || e == "jpeg"@ {
            "image/jpeg"@
        } else if e == "png"@ {
            "image/png"@
        } else if e == "ico"@ {
            "image/x-icon"@
        } else if e == "json"@ || e == "webmanifest"@ {
            "application/json; charset=utf-8"@
        } else if e == "txt"@ {
            "text/plain; charset=utf-8"@
        } else if e == "mp4"@ {
            "video/mp4"@
        } else if e == "woff"@ {
            "font/woff"@
        } else if e == "woff2"@ {
            "font/woff2"@
        } else {
            "application/octet-stream"@
        },
    }
}

fn extension(name: &[char]) -> (r: Option<Vec<char>>)
    ensures
        match extension_of(name@) {
            Some(e) => r matches Some(v) && v@ == e,
            None => r is None,
        },
{
    if chars_equal(name, "..") {
        return None;
    }
    let mut i: usize = name.len();
    while i > 0
        invariant
            i <= name.len(),
            name@ != ".."@,
            forall|j: int| i <= j < name.len() ==> name@[j] != '.',
        decreases i,
    {
        if name[i - 1] == '.' {
            let dot = i - 1;
            if dot == 0 {
                proof {
                    assert forall|k: int| 0 < k < name.len() implies name@[k] != '.' by {}
                }
                return None;
            }
            let mut out: Vec<char> = Vec::new();
            let mut k: usize = i;
            while k < name.len()
                invariant
                    i <= k <= name.len(),
                    out@ == name@.subrange(i as int, k as int),
                decreases name.len() - k,
            {
                out.push(name[k]);
                k = k + 1;
                proof {
                    assert(name@.subrange(i as int, k as int) =~= name@.subrange(i as int, k - 1).push(name@[k - 1]));
                }
            }
            proof {
                lemma_extension_at(name@, dot as int);
                assert(name@.subrange(i as int, name.len() as int) =~= name@.skip(dot + 1));
            }
            return Some(out);
        }
        i = i - 1;
    }
    None
}

/// The MIME type served for a file path.
pub fn mime_for(path: &str) -> (m: &'static str)
    ensures
        m@ == mime_of(match file_name_of(path@) {
            Some(n) => extension_of(n),
            None => None,
        }),
        m@ == served_type(path@),
{
    let name = match file_name(path) {
        Some(n) => n,
        None => {
            return "application/octet-stream";
        },
    };
    let ext = match extension(name.as_slice()) {
        Some(e) => e,
        None => {
            return "application/octet-stream";
        },
    };
    let e = ext.as_slice();
    if chars_equal(e, "html") {
        "text/html; charset=utf-8"
    } else if chars_equal(e, "css") {
        "text/css; charset=utf-8"
    } else if chars_equal(e, "js") {
        "text/javascript; charset=utf-8"
    } else if chars_equal(e, "wasm") {
        "application/wasm"
    } else if chars_equal(e, "svg") {
        "image/svg+xml"
    } else if chars_equal(e, "avif") {
        "image/avif"
    } else if chars_equal(e, "webp") {
        "image/webp"
    } else if chars_equal(e, "jpg") || chars_equal(e, "jpeg") {
        "image/jpeg"
    } else if chars_equal(e, "png") {
        "image/png"
    } else if chars_equal(e, "ico") {
        "image/x-icon"
    } else if chars_equal(e, "json") || chars_equal(e, "webmanifest") {
        "application/json; charset=utf-8"
    } else if chars_equal(e, "txt") {
        "text/plain; charset=utf-8"
    } else if chars_equal(e, "mp4") {
        "video/mp4"
    } else if chars_equal(e, "woff") {
        "font/woff"
    } else if chars_equal(e, "woff2") {
        "font/woff2"
    } else {
        "application/octet-stream"
    }
}

/// `prefix` is a leading run of `parts` (`Path::starts_with`).
pub open spec fn parts_prefix(prefix: Seq<PathPart>, parts: Seq<PathPart>) -> bool {
    prefix.len() <= parts.len() && parts.take(prefix.len() as int) == prefix
}

pub open spec fn is_generated_root(p: PathPart) -> bool {
    p == PathPart::Normal(".git"@) || p == PathPart::Normal("target"@) || p == PathPart::Normal("node_modules"@)
}

pub fn same_component(a: &PathComponent, b: &PathComponent) -> (r: bool)
    ensures
        r == (component_view(*a) == component_view(*b)),
{
    match (a, b) {
        (PathComponent::Root, PathComponent::Root) => true,
        (PathComponent::Cur, PathComponent::Cur) => true,
        (PathComponent::Parent, PathComponent::Parent) => true,
        (PathComponent::Normal(x), PathComponent::Normal(y)) => match compare_chars(x.as_slice(), y.as_slice()) {
            TextOrder::Equal => true,
            _ => false,
        },
        _ => false,
    }
}

/// Whether the components `prefix` lead the components `parts`.
pub fn components_start_with(parts: &Vec<PathComponent>, prefix: &Vec<PathComponent>) -> (r: bool)
    ensures
        r == parts_prefix(component_views(prefix@), component_views(parts@)),
{
    if prefix.len() > parts.len() {
        return false;
    }
    let mut i: usize = 0;
    while i < prefix.len()
        invariant
            prefix.len() <= parts.len(),
            i <= prefix.len(),
            forall|k: int| 0 <= k < i ==> component_view(#[trigger] parts@[k]) == component_view(prefix@[k]),
        decreases prefix.len() - i,
    {
        if !same_component(&parts[i], &prefix[i]) {
            proof {
                assert(component_views(parts@).take(prefix@.len() as int)[i as int] != component_views(prefix@)[i as int]);
            }
            return false;
        }
        i = i + 1;
    }
    proof {
        assert(component_views(parts@).take(prefix@.len() as int) =~= component_views(prefix@));
    }
    true
}

/// Development snapshots skip the output tree and top-level generated roots.
pub fn should_ignore_directory(relative: &str, output: &str) -> (r: bool)
    ensures
        r == (parts_prefix(path_parts(output@), path_parts(relative@)) || (path_parts(relative@).len() > 0
            && is_generated_root(path_parts(relative@)[0]))),
{
    let rel = path_components(relative);
    let out = path_components(output);
    let ghost rv = component_views(rel@);
    let ghost ov = component_views(out@);
    let mut prefix = out.len() <= rel.len();
    let mut i: usize = 0;
    while prefix && i < out.len()
        invariant
            prefix ==> out.len() <= rel.len(),
            i <= out.len(),
            rv == component_views(rel@),
            ov == component_views(out@),
            prefix ==> forall|k: int| 0 <= k < i ==> rv[k] == ov[k],
            !prefix ==> !parts_prefix(ov, rv),
        decreases out.len() - i, (if prefix { 1int } else { 0int }),
    {
        if !same_component(&rel[i], &out[i]) {
            proof {
                assert(rv.take(ov.len() as int)[i as int] != ov[i as int]);
            }
            prefix = false;
        } else {
            i = i + 1;
        }
    }
    proof {
        if prefix {
            assert(rv.take(ov.len() as int) =~= ov);
        }
    }
    if prefix {
        return true;
    }
    if rel.len() == 0 {
        return false;
    }
    proof {
        assert(rv[0] == component_view(rel@[0]));
    }
    match &rel[0] {
        PathComponent::Normal(n) => chars_equal(n.as_slice(), ".git") || chars_equal(n.as_slice(), "target")
            || chars_equal(n.as_slice(), "node_modules"),
        _ => false,
    }
}

/// A 64-digit lowercase hex token, then `.lock`, `-stage-…` or `-backup-…`.
pub open spec fn coordination_name(private: Seq<char>) -> bool {
    let suffix = private.skip(64);
    &&& private.len() >= 64
    &&& forall|i: int| 0 <= i < 64 ==> crate::digest::is_lower_hex(#[trigger] private[i])
    &&& (suffix == ".lock"@ || (starts_with(suffix, "-stage-"@) && suffix.len() > 7) || (starts_with(
        suffix,
        "-backup-"@,
    ) && suffix.len() > 8))
}

/// The file name, after `.pliego-`, splits at a character boundary 64 bytes in.
pub open spec fn coordination_split_ok(p: Seq<char>) -> bool {
    match file_name_of(p) {
        Some(n) => !(starts_with(n, ".pliego-"@) && utf8_len(n.skip(8)) > 64) || exists|k: int|
            0 <= k <= n.skip(8).len() && #[trigger] utf8_len(n.skip(8).take(k)) == 64,
        None => true,
    }
}

/// Atomic publication leaves `.pliego-<token>.lock` and stage or backup files;
/// development snapshots skip them.
pub fn should_ignore_development_file(relative: &str) -> (r: bool)
    requires
        coordination_split_ok(relative@),
    ensures
        r == match file_name_of(relative@) {
            Some(n) => starts_with(n, ".pliego-"@) && utf8_len(n.skip(8)) > 64 && coordination_name(n.skip(8)),
            None => false,
        },
{
    proof {
        reveal_strlit(".pliego-");
        reveal_strlit("-stage-");
        reveal_strlit("-backup-");
    }
    let name = match file_name(relative) {
        Some(n) => n,
        None => {
            return false;
        },
    };
    let marker = chars_of(".pliego-");
    if !starts_with_chars(name.as_slice(), marker.as_slice()) {
        return false;
    }
    let private = crate::numtext::suffix_string(name.as_slice(), 8);
    let pc = chars_of(private.as_str());
    if utf8_len_of(pc.as_slice()) <= 64 {
        return false;
    }
    if pc.len() < 64 {
        return false;
    }
    let mut i: usize = 0;
    while i < 64
        invariant
            i <= 64,
            pc.len() >= 64,
            pc@ == name@.skip(8),
            file_name_of(relative@) == Some(name@),
            starts_with(name@, ".pliego-"@),
            utf8_len(pc@) > 64,
            forall|k: int| 0 <= k < i ==> crate::digest::is_lower_hex(#[trigger] pc@[k]),
        decreases 64 - i,
    {
        let v = pc[i] as u32;
        if !((0x30 <= v && v <= 0x39) || (0x61 <= v && v <= 0x66)) {
            proof {
                assert(!crate::digest::is_lower_hex(pc@[i as int]));
            }
            return false;
        }
        i = i + 1;
    }
    let suffix = crate::numtext::suffix_string(pc.as_slice(), 64);
    let sc = chars_of(suffix.as_str());
    let stage = chars_of("-stage-");
    let backup = chars_of("-backup-");
    chars_equal(sc.as_slice(), ".lock") || (starts_with_chars(sc.as_slice(), stage.as_slice()) && sc.len() > 7)
        || (starts_with_chars(sc.as_slice(), backup.as_slice()) && sc.len() > 8)
}

/// The long-poll reload endpoint, with or without a query, within the size bound.
pub fn is_reload_target(target: &str) -> (r: bool)
    ensures
        r == (utf8_len(target@) <= MAX_REQUEST_TARGET_BYTES && split_on(target@, '?')[0] == RELOAD_PATH@),
{
    let chars = chars_of(target);
    if utf8_len_of(chars.as_slice()) > MAX_REQUEST_TARGET_BYTES {
        return false;
    }
    let pieces = split_chars(chars.as_slice(), '?');
    proof {
        crate::text::lemma_split_on_nonempty(target@, '?');
        assert(char_views(pieces@)[0] == pieces@[0]@);
    }
    chars_equal(pieces[0].as_slice(), RELOAD_PATH)
}

/// `s` without its trailing slashes (`trim_end_matches('/')`).
pub open spec fn trim_trailing_slashes(s: Seq<char>) -> Seq<char>
    decreases s.len(),
{
    if s.len() > 0 && s.last() == '/' {
        trim_trailing_slashes(s.drop_last())
    } else {
        s
    }
}

/// Documents (no extension, `.html`, or a directory) get the diagnostic page; assets do not.
pub open spec fn renders_diagnostic(request_path: Seq<char>) -> bool {
    let path = trim_trailing_slashes(request_path);
    let name = split_on(path, '/').last();
    name.len() == 0 || crate::text::ends_with(name, ".html"@) || !name.contains('.')
}

pub fn should_render_development_diagnostic(request_path: &str) -> (r: bool)
    ensures
        r == renders_diagnostic(request_path@),
{
    let chars = chars_of(request_path);
    let mut end: usize = chars.len();
    proof {
        assert(chars@.take(end as int) =~= chars@);
    }
    while end > 0 && chars[end - 1] == '/'
        invariant
            end <= chars.len(),
            trim_trailing_slashes(request_path@) == trim_trailing_slashes(chars@.take(end as int)),
        decreases end,
    {
        proof {
            assert(chars@.take(end as int).drop_last() =~= chars@.take(end - 1));
        }
        end = end - 1;
    }
    let path = crate::portable::prefix_chars(chars.as_slice(), end);
    let pieces = split_chars(path.as_slice(), '/');
    proof {
        crate::text::lemma_split_on_nonempty(path@, '/');
        assert(char_views(pieces@).last() == pieces@[pieces.len() - 1]@);
    }
    let name = &pieces[pieces.len() - 1];
    let html = chars_of(".html");
    name.len() == 0 || ends_with_chars(name.as_slice(), html.as_slice()) || !crate::portable::contains_char(
        name.as_slice(),
        '.',
    )
}


/// The content type served for a path.
pub open spec fn served_type(path: Seq<char>) -> Seq<char> {
    mime_of(
        match file_name_of(path) {
            Some(n) => extension_of(n),
            None => None,
        },
    )
}

/// A file named `stem.e`, with `e` free of dots, is served by its extension:
/// HTML, CSS and JavaScript as UTF-8 text, WebAssembly, the image, font,
/// JSON, text and video types; `application/octet-stream` exactly when the
/// extension is none of these.
pub proof fn law_served_type_follows_extension(path: Seq<char>, stem: Seq<char>, e: Seq<char>)
    requires
        file_name_of(path) == Some(stem + "."@ + e),
        stem.len() > 0,
        e.len() > 0,
        forall|j: int| 0 <= j < e.len() ==> e[j] != '.',
    ensures
        e == "html"@ ==> served_type(path) == "text/html; charset=utf-8"@,
        e == "css"@ ==> served_type(path) == "text/css; charset=utf-8"@,
        e == "js"@ ==> served_type(path) == "text/javascript; charset=utf-8"@,
        e == "wasm"@ ==> served_type(path) == "application/wasm"@,
        e == "svg"@ ==> served_type(path) == "image/svg+xml"@,
        e == "avif"@ ==> served_type(path) == "image/avif"@,
        e == "webp"@ ==> served_type(path) == "image/webp"@,
        e == "jpg"@ || e == "jpeg"@ ==> served_type(path) == "image/jpeg"@,
        e == "png"@ ==> served_type(path) == "image/png"@,
        e == "ico"@ ==> served_type(path) == "image/x-icon"@,
        e == "json"@ || e == "webmanifest"@ ==> served_type(path) == "application/json; charset=utf-8"@,
        e == "txt"@ ==> served_type(path) == "text/plain; charset=utf-8"@,
        e == "mp4"@ ==> served_type(path) == "video/mp4"@,
        e == "woff"@ ==> served_type(path) == "font/woff"@,
        e == "woff2"@ ==> served_type(path) == "font/woff2"@,
        served_type(path) == "application/octet-stream"@ <==> !(e == "html"@ || e == "css"@ || e == "js"@ || e
            == "wasm"@ || e == "svg"@ || e == "avif"@ || e == "webp"@ || e == "jpg"@ || e == "jpeg"@ || e == "png"@
            || e == "ico"@ || e == "json"@ || e == "webmanifest"@ || e == "txt"@ || e == "mp4"@ || e == "woff"@ || e
            == "woff2"@),
{
    reveal_strlit(".");
    reveal_strlit("..");
    reveal_strlit("html");
    reveal_strlit("css");
    reveal_strlit("js");
    reveal_strlit("wasm");
    reveal_strlit("svg");
    reveal_strlit("avif");
    reveal_strlit("webp");
    reveal_strlit("jpg");
    reveal_strlit("jpeg");
    reveal_strlit("png");
    reveal_strlit("ico");
    reveal_strlit("json");
    reveal_strlit("webmanifest");
    reveal_strlit("txt");
    reveal_strlit("mp4");
    reveal_strlit("woff");
    reveal_strlit("woff2");
    reveal_strlit("application/octet-stream");
    reveal_strlit("text/html; charset=utf-8");
    reveal_strlit("text/css; charset=utf-8");
    reveal_strlit("text/javascript; charset=utf-8");
    reveal_strlit("application/wasm");
    reveal_strlit("image/svg+xml");
    reveal_strlit("image/avif");
    reveal_strlit("image/webp");
    reveal_strlit("image/jpeg");
    reveal_strlit("image/png");
    reveal_strlit("image/x-icon");
    reveal_strlit("application/json; charset=utf-8");
    reveal_strlit("text/plain; charset=utf-8");
    reveal_strlit("video/mp4");
    reveal_strlit("font/woff");
    reveal_strlit("font/woff2");
    let name = stem + "."@ + e;
    assert(name[stem.len() as int] == '.');
    assert forall|j: int| stem.len() < j < name.len() implies name[j] != '.' by {
        assert(name[j] == e[j - stem.len() - 1]);
    }
    if name == ".."@ {
            assert(name.len() == 2);
    }
    lemma_extension_at(name, stem.len() as int);
    assert(name.skip(stem.len() + 1 as int) =~= e);
    if e == "html"@ {
        assert(e[0] == 'h' && e[1] == 't');
    }
    if e == "css"@ {
        assert(e[0] == 'c' && e[1] == 's');
    }
    if e == "js"@ {
        assert(e[0] == 'j' && e[1] == 's');
    }
    if e == "wasm"@ {
        assert(e[0] == 'w' && e[1] == 'a');
    }
    if e == "svg"@ {
        assert(e[0] == 's' && e[1] == 'v');
    }
    if e == "avif"@ {
        assert(e[0] == 'a' && e[1] == 'v');
    }
    if e == "webp"@ {
        assert(e[0] == 'w' && e[1] == 'e');
    }
    if e == "jpg"@ {
        assert(e[0] == 'j' && e[1] == 'p');
    }
    if e == "jpeg"@ {
        assert(e[0] == 'j' && e[1] == 'p');
    }
    if e == "png"@ {
        assert(e[0] == 'p' && e[1] == 'n');
    }
    if e == "ico"@ {
        assert(e[0] == 'i' && e[1] == 'c');
    }
    if e == "json"@ {
        assert(e[0] == 'j' && e[1] == 's');
    }
    if e == "webmanifest"@ {
        assert(e[0] == 'w' && e[1] == 'e');
    }
    if e == "txt"@ {
        assert(e[0] == 't' && e[1] == 'x');
    }
    if e == "mp4"@ {
        assert(e[0] == 'm' && e[1] == 'p');
    }
    if e == "woff"@ {
        assert(e[0] == 'w' && e[1] == 'o');
    }
    if e == "woff2"@ {
        assert(e[0] == 'w' && e[1] == 'o');
    }
    assert("text/html; charset=utf-8"@[0] == 't');
    assert("text/css; charset=utf-8"@[0] == 't');
    assert("text/javascript; charset=utf-8"@[0] == 't');
    assert("image/svg+xml"@[0] == 'i');
    assert("image/avif"@[0] == 'i');
    assert("image/webp"@[0] == 'i');
    assert("image/jpeg"@[0] == 'i');
    assert("image/png"@[0] == 'i');
    assert("image/x-icon"@[0] == 'i');
    assert("text/plain; charset=utf-8"@[0] == 't');
    assert("video/mp4"@[0] == 'v');
    assert("font/woff"@[0] == 'f');
    assert("font/woff2"@[0] == 'f');
    assert("application/octet-stream"@[0] == 'a');
    assert("application/wasm"@.len() != "application/octet-stream"@.len());
    assert("application/json; charset=utf-8"@.len() != "application/octet-stream"@.len());
}

/// A file whose name has no dot after its first character has no extension
/// and is served as `application/octet-stream`.
pub proof fn law_no_extension_is_octet_stream(path: Seq<char>, name: Seq<char>)
    requires
        file_name_of(path) == Some(name),
        forall|j: int| 0 < j < name.len() ==> name[j] != '.',
    ensures
        served_type(path) == "application/octet-stream"@,
{
}

} // verus!

verus! {

pub const DOC_HEAD: &'static str = "<!doctype html><html lang=\"en\"><head><meta charset=\"utf-8\"><meta name=\"viewport\" content=\"width=device-width,initial-scale=1\"><meta name=\"robots\" content=\"noindex\"><meta name=\"generator\" content=\"PliegoRS\"><title>";
pub const DOC_AFTER_TITLE_CODE: &'static str = " / PliegoRS</title><style>:root{color-scheme:dark;--ink:#eef0e8;--ground:#111310;--panel:#191c18;--line:#3b3f38;--muted:#a7aca3;--signal:#d6ff3f;--alert:#e95e52;--mono:\"SFMono-Regular\",Consolas,\"Liberation Mono\",monospace;--sans:Inter,ui-sans-serif,system-ui,-apple-system,BlinkMacSystemFont,\"Segoe UI\",sans-serif}*{box-sizing:border-box}body{min-height:100vh;margin:0;color:var(--ink);background:var(--ground);font-family:var(--sans)}main{width:min(100% - 40px,1180px);min-height:100vh;margin:auto;padding:34px 0 72px;display:flex;flex-direction:column}header{display:flex;align-items:center;justify-content:space-between;gap:24px;padding-bottom:22px;border-bottom:1px solid var(--line);font:700 .72rem/1 var(--mono)}.brand{display:flex;align-items:center;gap:11px}.mark{width:24px;height:24px;border:6px solid var(--ink);border-right-color:transparent;position:relative}.mark:after{content:\"\";width:6px;height:6px;position:absolute;right:-10px;bottom:-10px;background:var(--alert)}.code{color:var(--alert)}.intro{display:grid;grid-template-columns:minmax(0,1fr) minmax(260px,.5fr);gap:clamp(38px,8vw,120px);align-items:end;padding:clamp(72px,12vh,130px) 0 56px}h1{max-width:850px;margin:0;font-size:clamp(3rem,8vw,7rem);font-weight:560;line-height:.92;letter-spacing:0}.intro p{max-width:480px;margin:0;color:var(--muted);font-size:1rem;line-height:1.65}.diagnostic{border:1px solid var(--line);background:var(--panel)}.diagnostic>div{min-height:48px;padding:0 16px;display:flex;align-items:center;justify-content:space-between;gap:20px;border-bottom:1px solid var(--line);color:var(--muted);font:700 .66rem/1 var(--mono)}.diagnostic>div span:first-child{color:var(--signal)}pre{max-height:42vh;margin:0;padding:22px;overflow:auto;white-space:pre-wrap;word-break:break-word;color:#d9ddd5;font:400 .78rem/1.65 var(--mono)}footer{display:flex;justify-content:space-between;gap:20px;margin-top:auto;padding-top:32px;color:var(--muted);font:700 .66rem/1.5 var(--mono)}@media(max-width:720px){main{width:min(100% - 28px,1180px);padding-top:24px}.intro{grid-template-columns:1fr;padding:64px 0 38px}h1{font-size:clamp(2.9rem,15vw,5rem)}footer{flex-direction:column}}</style></head><body><main><header><div class=\"brand\"><span class=\"mark\" aria-hidden=\"true\"></span><span>PLIEGORS / DEVELOPMENT</span></div><span class=\"code\">";
pub const DOC_AFTER_CODE: &'static str = "</span></header><section class=\"intro\"><h1>";
pub const DOC_AFTER_TITLE: &'static str = "</h1><p>";
pub const DOC_AFTER_EXPLANATION: &'static str = "</p></section>";
pub const DOC_AFTER_DETAIL: &'static str = "<footer><span>PLIEGORS DIAGNOSTIC SURFACE</span><span>THE SERVER IS STILL RUNNING</span></footer></main>";
pub const DOC_CLOSE: &'static str = "</body></html>";
pub const RELOAD_OPEN: &'static str = "<script data-pliego-reload>(()=>{const route=()=>location.pathname.endsWith('/')?location.pathname:location.pathname.replace(/\\/index\\.html$/,'/');const connect=g=>{const stream=new EventSource('/_pliego/reload?since='+g);stream.addEventListener('pliego',async event=>{stream.close();let update;try{update=JSON.parse(event.data)}catch(_){location.reload();return}try{if(update.kind==='none'){connect(update.generation);return}if(update.kind==='css'){for(const link of document.querySelectorAll('link[rel=\"stylesheet\"]')){const url=new URL(link.href,location.href);if(update.paths.includes(url.pathname)){url.searchParams.set('pliego-hmr',update.generation);link.href=url.href}}document.dispatchEvent(new CustomEvent('pliego:css-hmr',{detail:update}));connect(update.generation);return}if(update.kind==='content'&&update.routes.includes(route())){const response=await fetch(location.href,{cache:'no-store',headers:{'X-Pliego-HMR':'1'}});if(!response.ok)throw new Error('content fetch failed');const next=new DOMParser().parseFromString(await response.text(),'text/html');if(!next.body)throw new Error('content body missing');document.body.dispatchEvent(new CustomEvent('pliego:scope-dispose',{bubbles:true,detail:{reason:'content-hmr'}}));document.title=next.title;document.body.replaceWith(next.body);document.dispatchEvent(new CustomEvent('pliego:content-hmr',{detail:update}));connect(update.generation);return}if(update.kind==='content'){connect(update.generation);return}if(update.kind==='adapter'){const signal=new CustomEvent('pliego:adapter-hmr',{cancelable:true,detail:update});document.dispatchEvent(signal);if(signal.defaultPrevented){connect(update.generation);return}}location.reload()}catch(_){location.reload()}});};connect(";
pub const RELOAD_CLOSE: &'static str = ")})()</script>";
pub const DETAIL_OPEN: &'static str = "<section class=\"diagnostic\" aria-labelledby=\"diagnostic-title\"><div><span id=\"diagnostic-title\">DIAGNOSTIC</span><span>RUST / BUILD</span></div><pre><code>";
pub const DETAIL_CLOSE: &'static str = "</code></pre></section>";

/// The HTML-escaped form of one character.
pub open spec fn html_piece(c: char) -> Seq<char> {
    if c == '&' {
        "&amp;"@
    } else if c == '<' {
        "&lt;"@
    } else if c == '>' {
        "&gt;"@
    } else if c == '"' {
        "&quot;"@
    } else if c == '\'' {
        "&#39;"@
    } else {
        seq![c]
    }
}

/// `s` with `& < > " '` replaced by entities.
pub open spec fn html_escaped(s: Seq<char>) -> Seq<char>
    decreases s.len(),
{
    if s.len() == 0 {
        Seq::empty()
    } else {
        html_escaped(s.drop_last()) + html_piece(s.last())
    }
}

/// Escapes text for HTML content and attributes.
pub fn escape_html(value: &str) -> (out: String)
    ensures
        out@ == html_escaped(value@),
{
    let chars = chars_of(value);
    let mut out = String::new();
    let mut i: usize = 0;
    while i < chars.len()
        invariant
            i <= chars.len(),
            chars@ == value@,
            out@ == html_escaped(chars@.take(i as int)),
        decreases chars.len() - i,
    {
        let c = chars[i];
        let ghost before = out@;
        if c == '&' {
            push_str(&mut out, "&amp;");
        } else if c == '<' {
            push_str(&mut out, "&lt;");
        } else if c == '>' {
            push_str(&mut out, "&gt;");
        } else if c == '"' {
            push_str(&mut out, "&quot;");
        } else if c == '\'' {
            push_str(&mut out, "&#39;");
        } else {
            push_char(&mut out, c);
            proof {
                assert(out@ =~= before + seq![c]);
            }
        }
        proof {
            assert(chars@.take(i + 1).drop_last() =~= chars@.take(i as int));
        }
        i = i + 1;
    }
    proof {
        assert(chars@.take(chars.len() as int) =~= chars@);
    }
    out
}

/// Control characters other than newline, carriage return and tab are dropped.
pub open spec fn sanitized(s: Seq<char>) -> Seq<char> {
    s.filter(|c: char| !crate::portable::is_control_char(c) || c == '\n' || c == '\r' || c == '\t')
}

pub fn sanitize_diagnostic(value: &str) -> (out: String)
    ensures
        out@ == sanitized(value@),
{
    let chars = chars_of(value);
    let mut out = String::new();
    let mut i: usize = 0;
    while i < chars.len()
        invariant
            i <= chars.len(),
            chars@ == value@,
            out@ == sanitized(chars@.take(i as int)),
        decreases chars.len() - i,
    {
        let c = chars[i];
        let v = c as u32;
        proof {
            assert(chars@.take(i + 1).drop_last() =~= chars@.take(i as int));
        }
        let ghost f = |x: char| !crate::portable::is_control_char(x) || x == '\n' || x == '\r' || x == '\t';
        proof {
            assert(sanitized(chars@.take(i + 1)) == chars@.take(i + 1).filter(f));
            assert(chars@.take(i + 1) =~= chars@.take(i as int).push(c));
            chars@.take(i as int).lemma_filter_push(c, f);
            assert(chars@.take(i + 1).filter(f) == if f(c) {
                chars@.take(i as int).filter(f).push(c)
            } else {
                chars@.take(i as int).filter(f)
            });
        }
        if !(v <= 0x1f || (0x7f <= v && v <= 0x9f)) || c == '\n' || c == '\r' || c == '\t' {
            push_char(&mut out, c);
        }
        i = i + 1;
    }
    proof {
        assert(chars@.take(chars.len() as int) =~= chars@);
    }
    out
}

/// The script that reconnects to the reload stream after `generation`.
pub open spec fn reload_script(generation: u64) -> Seq<char> {
    RELOAD_OPEN@ + decimal_of(generation as nat) + RELOAD_CLOSE@
}

pub fn live_reload_script(generation: u64) -> (s: String)
    ensures
        s@ == reload_script(generation),
{
    concat3(RELOAD_OPEN, decimal_string(generation).as_str(), RELOAD_CLOSE)
}

/// The branded framework page around a code, title, explanation, optional
/// diagnostic detail and optional live reload.
pub open spec fn error_document(
    code: Seq<char>,
    title: Seq<char>,
    explanation: Seq<char>,
    detail: Option<Seq<char>>,
    generation: Option<u64>,
) -> Seq<char> {
    DOC_HEAD@ + code + DOC_AFTER_TITLE_CODE@ + html_escaped(code) + DOC_AFTER_CODE@ + html_escaped(title)
        + DOC_AFTER_TITLE@ + html_escaped(explanation) + DOC_AFTER_EXPLANATION@ + (match detail {
        Some(d) => DETAIL_OPEN@ + html_escaped(sanitized(d)) + DETAIL_CLOSE@,
        None => Seq::empty(),
    }) + DOC_AFTER_DETAIL@ + (match generation {
        Some(g) => reload_script(g),
        None => Seq::empty(),
    }) + DOC_CLOSE@
}

pub fn framework_error_document(
    code: &str,
    title: &str,
    explanation: &str,
    detail: Option<&str>,
    generation: Option<u64>,
) -> (bytes: Vec<u8>)
    ensures
        bytes@ == vstd::utf8::encode_utf8(
            error_document(
                code@,
                title@,
                explanation@,
                match detail {
                    Some(d) => Some(d@),
                    None => None,
                },
                generation,
            ),
        ),
{
    let mut page = concat3(DOC_HEAD, code, DOC_AFTER_TITLE_CODE);
    push_str(&mut page, escape_html(code).as_str());
    push_str(&mut page, DOC_AFTER_CODE);
    push_str(&mut page, escape_html(title).as_str());
    push_str(&mut page, DOC_AFTER_TITLE);
    push_str(&mut page, escape_html(explanation).as_str());
    push_str(&mut page, DOC_AFTER_EXPLANATION);
    let ghost before_detail = page@;
    match detail {
        Some(d) => {
            push_str(&mut page, DETAIL_OPEN);
            let clean = sanitize_diagnostic(d);
            push_str(&mut page, escape_html(clean.as_str()).as_str());
            push_str(&mut page, DETAIL_CLOSE);
        },
        None => {
            proof {
                assert(before_detail + Seq::<char>::empty() =~= before_detail);
            }
        },
    }
    push_str(&mut page, DOC_AFTER_DETAIL);
    let ghost before_reload = page@;
    match generation {
        Some(g) => {
            push_str(&mut page, live_reload_script(g).as_str());
        },
        None => {
            proof {
                assert(before_reload + Seq::<char>::empty() =~= before_reload);
            }
        },
    }
    push_str(&mut page, DOC_CLOSE);
    proof {
        assert(page@ =~= error_document(
            code@,
            title@,
            explanation@,
            match detail {
                Some(d) => Some(d@),
                None => None,
            },
            generation,
        ));
    }
    page.as_str().as_bytes_vec()
}

/// The page for a route that the output does not hold.
pub fn not_found_document(request_path: &str) -> (bytes: Vec<u8>)
    ensures
        bytes@ == vstd::utf8::encode_utf8(
            error_document(
                "PLG-HTTP-404"@,
                "This route is not part of the fold."@,
                "Check the address or add a /404.html page to own this response in your project."@,
                Some("Requested route: "@ + request_path@),
                None,
            ),
        ),
{
    let detail = concat2("Requested route: ", request_path);
    framework_error_document(
        "PLG-HTTP-404",
        "This route is not part of the fold.",
        "Check the address or add a /404.html page to own this response in your project.",
        Some(detail.as_str()),
        None,
    )
}

/// The page for a document that could not be read.
pub fn internal_server_error_document() -> (bytes: Vec<u8>)
    ensures
        bytes@ == vstd::utf8::encode_utf8(
            error_document(
                "PLG-HTTP-500"@,
                "The document could not be read."@,
                "Rebuild the project and inspect the output ledger before restarting the server."@,
                None,
                None,
            ),
        ),
{
    framework_error_document(
        "PLG-HTTP-500",
        "The document could not be read.",
        "Rebuild the project and inspect the output ledger before restarting the server.",
        None,
        None,
    )
}

/// The page shown while a development build is broken.
pub fn development_error_document(error: &str, generation: u64) -> (bytes: Vec<u8>)
    ensures
        bytes@ == vstd::utf8::encode_utf8(
            error_document(
                "PLG-BLD-001"@,
                "Build interrupted."@,
                "PliegoRS kept the development server alive. Correct the diagnostic below and save; this page will reload automatically."@,
                Some(error@),
                Some(generation),
            ),
        ),
{
    framework_error_document(
        "PLG-BLD-001",
        "Build interrupted.",
        "PliegoRS kept the development server alive. Correct the diagnostic below and save; this page will reload automatically.",
        Some(error),
        Some(generation),
    )
}

} // verus!

verus! {

/// `String::from_utf8`: the bytes as text when they are UTF-8, or the bytes
/// back (`FromUtf8Error::into_bytes`) when they are not. Claimed: text comes
/// back exactly when some character sequence encodes to these bytes, and its
/// encoding is these bytes.
#[verifier::external_body]
fn utf8_text(bytes: Vec<u8>) -> (r: Result<String, Vec<u8>>)
    ensures
        r is Ok <==> exists|s: Seq<char>| vstd::utf8::encode_utf8(s) == bytes@,
        r matches Ok(s) ==> vstd::utf8::encode_utf8(s@) == bytes@,
        r matches Err(b) ==> b@ == bytes@,
{
    String::from_utf8(bytes).map_err(|error| error.into_bytes())
}

/// The last index at which `needle` occurs in `s`, if any.
pub open spec fn last_occurrence(s: Seq<char>, needle: Seq<char>) -> Option<int> {
    if exists|i: int| crate::text::occurs_at(s, needle, i) {
        Some(choose|i: int| crate::text::occurs_at(s, needle, i) && forall|j: int| i < j ==> !crate::text::occurs_at(s, needle, j))
    } else {
        None
    }
}

/// The page with the reload script placed before its last `</body>`, or appended.
pub open spec fn with_reload(html: Seq<char>, generation: u64) -> Seq<char> {
    match last_occurrence(html, "</body>"@) {
        Some(p) => html.take(p) + reload_script(generation) + html.skip(p),
        None => html + reload_script(generation),
    }
}

proof fn lemma_last_occurrence(s: Seq<char>, needle: Seq<char>, p: int)
    requires
        crate::text::occurs_at(s, needle, p),
        forall|j: int| p < j ==> !crate::text::occurs_at(s, needle, j),
    ensures
        last_occurrence(s, needle) == Some(p),
{
    let c = choose|i: int| crate::text::occurs_at(s, needle, i) && forall|j: int| i < j ==> !crate::text::occurs_at(s, needle, j);
    assert(crate::text::occurs_at(s, needle, p) && forall|j: int| p < j ==> !crate::text::occurs_at(s, needle, j));
    if c < p {
        assert(!crate::text::occurs_at(s, needle, p));
    }
    if c > p {
        assert(!crate::text::occurs_at(s, needle, c));
    }
}

/// The last index at which `needle` occurs in `s`.
fn last_match(s: &[char], needle: &[char]) -> (r: Option<usize>)
    ensures
        match r {
            Some(p) => crate::text::occurs_at(s@, needle@, p as int) && forall|j: int|
                p < j ==> !#[trigger] crate::text::occurs_at(s@, needle@, j),
            None => forall|j: int| !#[trigger] crate::text::occurs_at(s@, needle@, j),
        },
{
    if needle.len() > s.len() {
        proof {
            assert forall|j: int| !#[trigger] crate::text::occurs_at(s@, needle@, j) by {}
        }
        return None;
    }
    let mut i: usize = s.len() - needle.len();
    loop
        invariant
            i <= s.len() - needle.len(),
            needle.len() <= s.len(),
            forall|j: int| i < j ==> !#[trigger] crate::text::occurs_at(s@, needle@, j),
        decreases i,
    {
        if crate::text::matches_at(s, needle, i) {
            return Some(i);
        }
        if i == 0 {
            proof {
                assert forall|j: int| !#[trigger] crate::text::occurs_at(s@, needle@, j) by {
                    if j == 0 {
                    }
                }
            }
            return None;
        }
        i = i - 1;
    }
}

/// Adds the live-reload script to a served HTML document; bytes that are not
/// UTF-8 are served unchanged.
pub fn inject_live_reload(bytes: Vec<u8>, generation: u64) -> (out: Vec<u8>)
    ensures
        forall|s: Seq<char>| vstd::utf8::encode_utf8(s) == bytes@ ==> out@ == vstd::utf8::encode_utf8(
            #[trigger] with_reload(s, generation),
        ),
        !(exists|s: Seq<char>| vstd::utf8::encode_utf8(s) == bytes@) ==> out@ == bytes@,
{
    let ghost original = bytes@;
    let html = match utf8_text(bytes) {
        Ok(h) => h,
        Err(b) => {
            return b;
        },
    };
    proof {
        assert forall|s: Seq<char>| vstd::utf8::encode_utf8(s) == original implies s == html@ by {
            vstd::utf8::encode_utf8_decode_utf8(s);
            vstd::utf8::encode_utf8_decode_utf8(html@);
        }
    }
    let chars = chars_of(html.as_str());
    let body = chars_of("</body>");
    let script = live_reload_script(generation);
    let found = last_match(chars.as_slice(), body.as_slice());
    proof {
        match found {
            Some(p) => {
                lemma_last_occurrence(chars@, body@, p as int);
            },
            None => {
                assert(!(exists|j: int| crate::text::occurs_at(chars@, body@, j)));
            },
        }
    }
    let result = match found {
        Some(p) => {
            let head = crate::portable::prefix_chars(chars.as_slice(), p);
            let mut text = string_from_chars(head.as_slice());
            push_str(&mut text, script.as_str());
            push_str(&mut text, crate::numtext::suffix_string(chars.as_slice(), p).as_str());
            text
        },
        None => {
            let mut text = string_from_chars(chars.as_slice());
            push_str(&mut text, script.as_str());
            text
        },
    };
    proof {
        assert(result@ =~= with_reload(html@, generation));
    }
    result.as_str().as_bytes_vec()
}

} // verus!

verus! {

/// The package name built so far from the leading characters of a directory name.
pub struct NameScan {
    pub name: Seq<char>,
    pub separator: bool,
}

/// ASCII letters and digits are kept, lowercased; any run of other
/// characters between them becomes one `-`.
pub open spec fn name_scan(s: Seq<char>) -> NameScan
    decreases s.len(),
{
    if s.len() == 0 {
        NameScan { name: Seq::empty(), separator: false }
    } else {
        let prev = name_scan(s.drop_last());
        let c = s.last();
        if is_ascii_alnum(c) {
            NameScan {
                name: (if prev.separator && prev.name.len() > 0 { prev.name.push('-') } else { prev.name }).push(
                    lower_ascii_char(c),
                ),
                separator: false,
            }
        } else {
            NameScan { name: prev.name, separator: true }
        }
    }
}

pub open spec fn package_name_of(s: Seq<char>) -> Seq<char> {
    let n = name_scan(s).name;
    if n.len() > 0 && n.last() == '-' { n.drop_last() } else { n }
}

/// The Cargo package name derived from a project directory name.
pub fn package_name(value: &str) -> (r: Result<String, String>)
    ensures
        ({
            let n = package_name_of(value@);
            if n.len() > 0 && is_ascii_alpha(n[0]) {
                r matches Ok(s) && s@ == n
            } else {
                r matches Err(e) && e@ == "project directory must produce a package name starting with a letter"@
            }
        }),
{
    let chars = chars_of(value);
    let mut name: Vec<char> = Vec::new();
    let mut separator = false;
    let mut i: usize = 0;
    while i < chars.len()
        invariant
            i <= chars.len(),
            chars@ == value@,
            name_scan(chars@.take(i as int)) == (NameScan { name: name@, separator }),
        decreases chars.len() - i,
    {
        let c = chars[i];
        proof {
            assert(chars@.take(i + 1).drop_last() =~= chars@.take(i as int));
        }
        if ascii_alnum(c) {
            if separator && name.len() > 0 {
                name.push('-');
            }
            let l = if ascii_upper(c) {
                let v = (c as u32 + 32) as u8;
                v as char
            } else {
                c
            };
            name.push(l);
            separator = false;
        } else {
            separator = true;
        }
        i = i + 1;
    }
    proof {
        assert(chars@.take(chars.len() as int) =~= chars@);
    }
    if name.len() > 0 && name[name.len() - 1] == '-' {
        name.pop();
    }
    if name.len() == 0 || !ascii_alpha(name[0]) {
        return Err("project directory must produce a package name starting with a letter".to_owned());
    }
    Ok(string_from_chars(name.as_slice()))
}

fn ascii_upper(c: char) -> (b: bool)
    ensures
        b == is_ascii_upper(c),
{
    crate::text::ascii_upper(c)
}

/// `char::to_ascii_uppercase`.
pub open spec fn upper_ascii_char(c: char) -> char {
    if crate::text::is_ascii_lower(c) {
        (((c as u32) - 32) as u8) as char
    } else {
        c
    }
}

/// A word with its first character in ASCII upper case.
pub open spec fn capitalized(w: Seq<char>) -> Seq<char> {
    if w.len() == 0 { w } else { seq![upper_ascii_char(w[0])] + w.skip(1) }
}

/// Pieces joined with single spaces.
pub open spec fn join_spaced(parts: Seq<Seq<char>>) -> Seq<char>
    decreases parts.len(),
{
    if parts.len() == 0 {
        Seq::empty()
    } else if parts.len() == 1 {
        parts[0]
    } else {
        join_spaced(parts.drop_last()) + seq![' '] + parts.last()
    }
}

/// The display title of a package: its `-`-separated words capitalized and spaced.
pub fn title_from_package(package: &str) -> (s: String)
    ensures
        s@ == join_spaced(split_on(package@, '-').map_values(|w: Seq<char>| capitalized(w))),
{
    let chars = chars_of(package);
    let words = split_chars(chars.as_slice(), '-');
    let ghost views = char_views(words@);
    let ghost caps = views.map_values(|w: Seq<char>| capitalized(w));
    let mut out = String::new();
    let mut i: usize = 0;
    while i < words.len()
        invariant
            i <= words.len(),
            views == char_views(words@),
            views == split_on(package@, '-'),
            caps == views.map_values(|w: Seq<char>| capitalized(w)),
            out@ == join_spaced(caps.take(i as int)),
        decreases words.len() - i,
    {
        let ghost before = out@;
        if i > 0 {
            push_char(&mut out, ' ');
        }
        let w = &words[i];
        if w.len() > 0 {
            let c = w[0];
            let u = if crate::text::ascii_lower(c) {
                let v = (c as u32 - 32) as u8;
                v as char
            } else {
                c
            };
            push_char(&mut out, u);
            push_str(&mut out, crate::numtext::suffix_string(w.as_slice(), 1).as_str());
        }
        proof {
            assert(caps[i as int] == capitalized(w@));
            let t = caps.take(i + 1);
            assert(t.drop_last() =~= caps.take(i as int));
            if i == 0 {
                assert(before =~= Seq::<char>::empty());
                assert(out@ =~= t[0]);
            } else {
                assert(out@ =~= before + seq![' '] + t.last());
            }
        }
        i = i + 1;
    }
    proof {
        assert(caps.take(words.len() as int) =~= caps);
    }
    out
}

/// A path as Cargo reads it: without a `\\?\` verbatim prefix, with `/` separators.
pub open spec fn cargo_path_of(p: Seq<char>) -> Seq<char> {
    let rest = if starts_with(p, "\\\\?\\"@) { p.skip(4) } else { p };
    rest.map_values(|c: char| if c == '\\' { '/' } else { c })
}

pub fn cargo_path(path: &str) -> (s: String)
    ensures
        s@ == cargo_path_of(path@),
{
    proof {
        reveal_strlit("\\\\?\\");
    }
    let chars = chars_of(path);
    let verbatim = chars_of("\\\\?\\");
    let start: usize = if starts_with_chars(chars.as_slice(), verbatim.as_slice()) { 4 } else { 0 };
    let ghost rest = if starts_with(path@, "\\\\?\\"@) { path@.skip(4) } else { path@ };
    proof {
        assert(rest =~= chars@.skip(start as int));
    }
    let mut out = String::new();
    let mut i: usize = start;
    while i < chars.len()
        invariant
            start <= i <= chars.len(),
            rest == chars@.skip(start as int),
            out@ == rest.take(i - start).map_values(|c: char| if c == '\\' { '/' } else { c }),
        decreases chars.len() - i,
    {
        let c = chars[i];
        push_char(&mut out, if c == '\\' { '/' } else { c });
        i = i + 1;
        proof {
            assert(rest.take(i - start) =~= rest.take(i - start - 1).push(c));
            assert(out@ =~= rest.take(i - start).map_values(|c: char| if c == '\\' { '/' } else { c }));
        }
    }
    proof {
        assert(rest.take(chars.len() - start) =~= rest);
    }
    out
}

/// The TOML-escaped form of one character.
pub open spec fn toml_piece(c: char) -> Seq<char> {
    if c == '\\' {
        "\\\\"@
    } else if c == '"' {
        "\\\""@
    } else {
        seq![c]
    }
}

pub open spec fn toml_escaped(s: Seq<char>) -> Seq<char>
    decreases s.len(),
{
    if s.len() == 0 { Seq::empty() } else { toml_escaped(s.drop_last()) + toml_piece(s.last()) }
}

/// Escapes a value for a TOML basic string.
pub fn toml_escape(value: &str) -> (out: String)
    ensures
        out@ == toml_escaped(value@),
{
    let chars = chars_of(value);
    let mut out = String::new();
    let mut i: usize = 0;
    while i < chars.len()
        invariant
            i <= chars.len(),
            chars@ == value@,
            out@ == toml_escaped(chars@.take(i as int)),
        decreases chars.len() - i,
    {
        let c = chars[i];
        let ghost before = out@;
        if c == '\\' {
            push_str(&mut out, "\\\\");
        } else if c == '"' {
            push_str(&mut out, "\\\"");
        } else {
            push_char(&mut out, c);
            proof {
                assert(out@ =~= before + seq![c]);
            }
        }
        proof {
            assert(chars@.take(i + 1).drop_last() =~= chars@.take(i as int));
        }
        i = i + 1;
    }
    proof {
        assert(chars@.take(chars.len() as int) =~= chars@);
    }
    out
}

/// The dependency line that pins a starter to the exact released version.
pub fn registry_dependency(version: &str) -> (s: String)
    ensures
        s@ == "{ version = \"="@ + version@ + "\" }"@,
{
    concat3("{ version = \"=", version, "\" }")
}

/// The dependency line for a local framework checkout.
pub fn local_dependency(canonical_path: &str) -> (s: String)
    ensures
        s@ == "{ path = \""@ + toml_escaped(cargo_path_of(canonical_path@)) + "\" }"@,
{
    let path = cargo_path(canonical_path);
    concat3("{ path = \"", toml_escape(path.as_str()).as_str(), "\" }")
}

} // verus!

verus! {

/// `std::str::from_utf8`, copied into a string. Claimed: text comes back
/// exactly when some character sequence encodes to these bytes, and its
/// encoding is these bytes.
#[verifier::external_body]
fn utf8_str(bytes: &[u8]) -> (r: Option<String>)
    ensures
        r is Some <==> exists|s: Seq<char>| vstd::utf8::encode_utf8(s) == bytes@,
        r matches Some(s) ==> vstd::utf8::encode_utf8(s@) == bytes@,
{
    std::str::from_utf8(bytes).ok().map(|text| text.to_owned())
}

pub open spec fn template_tokens() -> Seq<Seq<char>> {
    seq![
        "__NAME__"@,
        "__PACKAGE__"@,
        "__DOM_DEPENDENCY__"@,
        "__SSG_DEPENDENCY__"@,
        "__FOLD_DEPENDENCY__"@,
        "__LOG_DEPENDENCY__"@,
    ]
}

/// The first template token that `text` still contains, from `tokens[k..]`.
pub open spec fn first_token(text: Seq<char>, tokens: Seq<Seq<char>>, k: nat) -> Option<Seq<char>>
    decreases tokens.len() - k,
{
    if k >= tokens.len() {
        None
    } else if crate::text::contains_seq(text, tokens[k as int]) {
        Some(tokens[k as int])
    } else {
        first_token(text, tokens, k + 1)
    }
}

/// Rendered template text must not keep a placeholder; non-UTF-8 files pass.
pub fn reject_unresolved_tokens(path: &str, bytes: &[u8]) -> (r: Result<(), String>)
    ensures
        !(exists|s: Seq<char>| vstd::utf8::encode_utf8(s) == bytes@) ==> r is Ok,
        forall|s: Seq<char>| #[trigger] vstd::utf8::encode_utf8(s) == bytes@ ==> match first_token(s, template_tokens(), 0) {
            None => r is Ok,
            Some(t) => r matches Err(e) && e@ == "unresolved template token `"@ + t + "` in "@ + path@,
        },
{
    let text = match utf8_str(bytes) {
        Some(t) => t,
        None => {
            return Ok(());
        },
    };
    proof {
        assert forall|s: Seq<char>| vstd::utf8::encode_utf8(s) == bytes@ implies s == text@ by {
            vstd::utf8::encode_utf8_decode_utf8(s);
            vstd::utf8::encode_utf8_decode_utf8(text@);
        }
    }
    let chars = chars_of(text.as_str());
    let mut tokens: Vec<&str> = Vec::new();
    tokens.push("__NAME__");
    tokens.push("__PACKAGE__");
    tokens.push("__DOM_DEPENDENCY__");
    tokens.push("__SSG_DEPENDENCY__");
    tokens.push("__FOLD_DEPENDENCY__");
    tokens.push("__LOG_DEPENDENCY__");
    let ghost views = tokens@.map_values(|t: &str| t@);
    proof {
        assert(views =~= template_tokens());
    }
    let mut k: usize = 0;
    while k < tokens.len()
        invariant
            k <= tokens.len(),
            views == tokens@.map_values(|t: &str| t@),
            views == template_tokens(),
            chars@ == text@,
            exists|s: Seq<char>| vstd::utf8::encode_utf8(s) == bytes@,
            forall|s: Seq<char>| vstd::utf8::encode_utf8(s) == bytes@ ==> s == text@,
            first_token(text@, views, 0) == first_token(text@, views, k as nat),
        decreases tokens.len() - k,
    {
        let needle = chars_of(tokens[k]);
        proof {
            assert(views[k as int] == tokens@[k as int]@);
        }
        if crate::text::contains_chars(chars.as_slice(), needle.as_slice()) {
            let mut message = concat3("unresolved template token `", tokens[k], "` in ");
            push_str(&mut message, path);
            return Err(message);
        }
        k = k + 1;
    }
    Ok(())
}

/// A name that every supported file system accepts.
pub open spec fn template_name_ok(n: Seq<char>) -> bool {
    &&& n.last() != ' '
    &&& n.last() != '.'
    &&& forall|i: int| 0 <= i < n.len() ==> !(#[trigger] n[i] == '<' || n[i] == '>' || n[i] == ':' || n[i] == '"'
        || n[i] == '|' || n[i] == '?' || n[i] == '*')
    &&& forall|k: int| crate::portable::is_stem_end(n, k) ==> !crate::portable::is_reserved_key(
        #[trigger] crate::numtext::lower_ascii(n.take(k)),
    )
}

pub open spec fn all_normal(parts: Seq<PathPart>) -> bool {
    forall|i: int| 0 <= i < parts.len() ==> #[trigger] parts[i] is Normal
}

/// The message refusing a template path, if any.
pub open spec fn template_path_problem(p: Seq<char>) -> Option<Seq<char>> {
    if p.len() == 0 || p[0] == '/' || !all_normal(path_parts(p)) {
        Some("template file path must contain only relative directory and file names: "@ + p)
    } else if exists|i: int| 0 <= i < path_parts(p).len() && !template_name_ok(#[trigger] path_parts(p)[i]->Normal_0) {
        Some("template path is not portable across supported systems: "@ + p)
    } else {
        None
    }
}

fn template_name_valid(n: &[char]) -> (b: bool)
    requires
        n.len() > 0,
    ensures
        b == template_name_ok(n@),
{
    let last = n[n.len() - 1];
    if last == ' ' || last == '.' {
        return false;
    }
    let mut i: usize = 0;
    while i < n.len()
        invariant
            i <= n.len(),
            forall|k: int| 0 <= k < i ==> !(#[trigger] n@[k] == '<' || n@[k] == '>' || n@[k] == ':' || n@[k]
                == '"' || n@[k] == '|' || n@[k] == '?' || n@[k] == '*'),
        decreases n.len() - i,
    {
        let c = n[i];
        if c == '<' || c == '>' || c == ':' || c == '"' || c == '|' || c == '?' || c == '*' {
            return false;
        }
        i = i + 1;
    }
    let mut stem_end: usize = 0;
    while stem_end < n.len() && n[stem_end] != '.'
        invariant
            stem_end <= n.len(),
            forall|k: int| 0 <= k < stem_end ==> n@[k] != '.',
        decreases n.len() - stem_end,
    {
        stem_end = stem_end + 1;
    }
    let stem = crate::portable::prefix_chars(n, stem_end);
    let lowered = crate::numtext::lowercase_ascii(stem.as_slice());
    proof {
        assert(crate::portable::is_stem_end(n@, stem_end as int));
        assert forall|m: int| crate::portable::is_stem_end(n@, m) implies m == stem_end by {
            if m < stem_end {
                assert(n@[m] != '.');
            } else if m > stem_end {
                assert(n@[stem_end as int] != '.');
            }
        }
    }
    !crate::portable::reserved_key(lowered.as_slice())
}

/// Checks that a template file path is relative and portable.
pub fn validate_template_path(path: &str) -> (r: Result<(), String>)
    ensures
        match template_path_problem(path@) {
            None => r is Ok,
            Some(m) => r matches Err(e) && e@ == m,
        },
{
    let chars = chars_of(path);
    let parts = path_components(path);
    let ghost pv = component_views(parts@);
    let mut normal = true;
    let mut i: usize = 0;
    while i < parts.len()
        invariant
            i <= parts.len(),
            pv == component_views(parts@),
            normal == forall|k: int| 0 <= k < i ==> #[trigger] pv[k] is Normal,
        decreases parts.len() - i,
    {
        let is_normal = match &parts[i] {
            PathComponent::Normal(_) => true,
            _ => false,
        };
        proof {
            assert(pv[i as int] == component_view(parts@[i as int]));
            if !is_normal {
                assert(!(pv[i as int] is Normal));
            }
        }
        normal = normal && is_normal;
        i = i + 1;
    }
    if chars.len() == 0 || chars[0] == '/' || !normal {
        return Err(concat2("template file path must contain only relative directory and file names: ", path));
    }
    let mut j: usize = 0;
    while j < parts.len()
        invariant
            j <= parts.len(),
            pv == component_views(parts@),
            pv == path_parts(path@),
            path@.len() > 0 && path@[0] != '/',
            all_normal(pv),
            forall|k: int| 0 <= k < j ==> template_name_ok(#[trigger] pv[k]->Normal_0),
        decreases parts.len() - j,
    {
        proof {
            assert(pv[j as int] == component_view(parts@[j as int]));
            assert(pv[j as int] is Normal);
        }
        match &parts[j] {
            PathComponent::Normal(n) => {
                proof {
                    assert(pv[j as int]->Normal_0 == n@);
                    assert(n@.len() > 0) by {
                        assert(path_parts(path@)[j as int] is Normal);
                        lemma_normal_parts_nonempty(path@, j as int);
                    }
                }
                if !template_name_valid(n.as_slice()) {
                    proof {
                        assert(!template_name_ok(path_parts(path@)[j as int]->Normal_0));
                    }
                    return Err(concat2("template path is not portable across supported systems: ", path));
                }
            },
            _ => {},
        }
        j = j + 1;
    }
    Ok(())
}

proof fn lemma_pieces_normal_nonempty(pieces: Seq<Seq<char>>, j: int)
    requires
        0 <= j < pieces_parts(pieces).len(),
        pieces_parts(pieces)[j] is Normal,
    ensures
        pieces_parts(pieces)[j]->Normal_0.len() > 0,
    decreases pieces.len(),
{
    if pieces.len() > 0 {
        let prev = pieces_parts(pieces.drop_last());
        if j < prev.len() {
            lemma_pieces_normal_nonempty(pieces.drop_last(), j);
        }
    }
}

proof fn lemma_normal_parts_nonempty(p: Seq<char>, j: int)
    requires
        0 <= j < path_parts(p).len(),
        path_parts(p)[j] is Normal,
    ensures
        path_parts(p)[j]->Normal_0.len() > 0,
{
    let root: Seq<PathPart> = if p.len() > 0 && p[0] == '/' { seq![PathPart::Root] } else { Seq::empty() };
    if j >= root.len() {
        lemma_pieces_normal_nonempty(split_on(p, '/'), j - root.len());
    }
}

/// A generated output setting that is a plain relative path (`.` allowed).
pub open spec fn output_path_safe(p: Seq<char>) -> bool {
    p.len() > 0 && forall|i: int| 0 <= i < path_parts(p).len() ==> (#[trigger] path_parts(p)[i] is Normal
        || path_parts(p)[i] is Cur)
}

pub fn output_path_is_safe(value: &str) -> (b: bool)
    ensures
        b == output_path_safe(value@),
{
    let chars = chars_of(value);
    if chars.len() == 0 {
        return false;
    }
    let parts = path_components(value);
    let ghost pv = component_views(parts@);
    let mut i: usize = 0;
    while i < parts.len()
        invariant
            i <= parts.len(),
            pv == component_views(parts@),
            pv == path_parts(value@),
            forall|k: int| 0 <= k < i ==> (#[trigger] pv[k] is Normal || pv[k] is Cur),
        decreases parts.len() - i,
    {
        proof {
            assert(pv[i as int] == component_view(parts@[i as int]));
        }
        match &parts[i] {
            PathComponent::Normal(_) | PathComponent::Cur => {},
            _ => {
                return false;
            },
        }
        i = i + 1;
    }
    true
}

} // verus!

verus! {

/// How the doctor report is printed.
#[derive(Clone, Copy, Debug, Eq, PartialEq, Structural)]
pub enum OutputFormat {
    Human,
    Json,
}

#[derive(Clone, Copy, Debug, Eq, PartialEq, Structural)]
pub struct DoctorOptions {
    pub format: OutputFormat,
}

/// `--format <human|json>` or `--format=<human|json>`, at most once.
pub open spec fn doctor_scan(args: Seq<Seq<char>>, i: nat, format: OutputFormat, configured: bool) -> Result<
    OutputFormat,
    Seq<char>,
>
    decreases args.len() - i,
{
    if i >= args.len() {
        Ok(format)
    } else {
        let a = args[i as int];
        if a == "--format"@ && i + 1 >= args.len() {
            Err("--format requires `human` or `json`"@)
        } else if a != "--format"@ && !starts_with(a, "--format="@) {
            Err("unknown doctor option `"@ + a + "`; usage: pliego doctor [--format <human|json>]"@)
        } else if configured {
            Err("--format may only be provided once"@)
        } else {
            let value = if a == "--format"@ { args[i + 1 as int] } else { a.skip(9) };
            let next: nat = if a == "--format"@ { i + 2 } else { i + 1 };
            if value == "human"@ {
                doctor_scan(args, next, OutputFormat::Human, true)
            } else if value == "json"@ {
                doctor_scan(args, next, OutputFormat::Json, true)
            } else {
                Err("--format must be `human` or `json`"@)
            }
        }
    }
}

/// Parses the options of `pliego doctor`.
pub fn parse_doctor_options(arguments: Vec<String>) -> (r: Result<DoctorOptions, String>)
    ensures
        match doctor_scan(string_views(arguments@), 0, OutputFormat::Human, false) {
            Ok(f) => r == Ok::<DoctorOptions, String>(DoctorOptions { format: f }),
            Err(m) => r matches Err(e) && e@ == m,
        },
{
    proof {
        reveal_strlit("--format=");
    }
    let ghost args = string_views(arguments@);
    let prefix = chars_of("--format=");
    let mut format = OutputFormat::Human;
    let mut configured = false;
    let mut i: usize = 0;
    while i < arguments.len()
        invariant
            args == string_views(arguments@),
            prefix@ == "--format="@,
            prefix@.len() == 9,
            doctor_scan(args, 0, OutputFormat::Human, false) == doctor_scan(args, i as nat, format, configured),
        decreases arguments.len() - i,
    {
        let argument = arguments[i].as_str();
        let chars = chars_of(argument);
        proof {
            assert(args[i as int] == arguments@[i as int]@);
            if i + 1 < arguments.len() {
                assert(args[i + 1] == arguments@[i + 1]@);
            }
        }
        let value: String;
        let next: usize;
        if text_is(argument, "--format") {
            if i + 1 >= arguments.len() {
                return Err("--format requires `human` or `json`".to_owned());
            }
            value = arguments[i + 1].clone();
            next = i + 2;
        } else if starts_with_chars(chars.as_slice(), prefix.as_slice()) {
            value = crate::numtext::suffix_string(chars.as_slice(), 9);
            next = i + 1;
        } else {
            let mut message = concat3("unknown doctor option `", argument, "`; usage: pliego doctor [--format <human|json>]");
            return Err(message);
        }
        if configured {
            return Err("--format may only be provided once".to_owned());
        }
        if text_is(value.as_str(), "human") {
            format = OutputFormat::Human;
        } else if text_is(value.as_str(), "json") {
            format = OutputFormat::Json;
        } else {
            return Err("--format must be `human` or `json`".to_owned());
        }
        configured = true;
        i = next;
    }
    Ok(DoctorOptions { format })
}

/// A PBOC command failure: usage errors are reported with the usage text.
#[derive(Debug)]
pub struct PbocError {
    pub usage: bool,
    pub message: String,
}

/// The optional settings of a PBOC manifest command.
#[derive(Debug)]
pub struct ManifestOptions {
    pub root: Option<String>,
    pub host: Option<String>,
    pub host_version: Option<String>,
}

pub struct ManifestScan {
    pub root: Option<Seq<char>>,
    pub host: Option<Seq<char>>,
    pub host_version: Option<Seq<char>>,
}

/// `--root`, `--host` and `--host-version`, each with a value and at most once.
pub open spec fn manifest_scan(args: Seq<Seq<char>>, i: nat, st: ManifestScan) -> Result<ManifestScan, Seq<char>>
    decreases args.len() - i,
{
    if i >= args.len() {
        Ok(st)
    } else if i + 1 >= args.len() {
        Err(args[i as int] + " requires a value"@)
    } else {
        let option = args[i as int];
        let value = args[i + 1 as int];
        if option == "--root"@ && st.root is None {
            manifest_scan(args, i + 2, ManifestScan { root: Some(value), ..st })
        } else if option == "--host"@ && st.host is None {
            manifest_scan(args, i + 2, ManifestScan { host: Some(value), ..st })
        } else if option == "--host-version"@ && st.host_version is None {
            manifest_scan(args, i + 2, ManifestScan { host_version: Some(value), ..st })
        } else {
            Err("unknown or repeated option `"@ + option + "`"@)
        }
    }
}

/// The manifest path and options of `pliego pboc validate|admit`.
pub open spec fn manifest_command(args: Seq<Seq<char>>, require_host: bool) -> Result<(Seq<char>, ManifestScan), Seq<char>> {
    if args.len() == 0 || starts_with(args[0], "-"@) {
        Err("a PBOC manifest path is required"@)
    } else {
        match manifest_scan(args, 1, ManifestScan { root: None, host: None, host_version: None }) {
            Err(m) => Err(m),
            Ok(st) => if require_host && st.host is None {
                Err("--host is required"@)
            } else if !require_host && (st.host is Some || st.host_version is Some) {
                Err("host options are only valid for `pliego pboc admit`"@)
            } else {
                Ok((args[0], st))
            },
        }
    }
}

pub open spec fn text_option(o: Option<String>) -> Option<Seq<char>> {
    match o {
        Some(s) => Some(s@),
        None => None,
    }
}

pub fn parse_manifest_options(arguments: Vec<String>, require_host: bool) -> (r: Result<(String, ManifestOptions), PbocError>)
    ensures
        match manifest_command(string_views(arguments@), require_host) {
            Ok((path, st)) => r matches Ok((p, o)) && p@ == path && text_option(o.root) == st.root
                && text_option(o.host) == st.host && text_option(o.host_version) == st.host_version,
            Err(m) => r matches Err(e) && e.usage && e.message@ == m,
        },
{
    let ghost args = string_views(arguments@);
    let dash = chars_of("-");
    if arguments.len() == 0 || starts_with_chars(chars_of(arguments[0].as_str()).as_slice(), dash.as_slice()) {
        return Err(PbocError { usage: true, message: "a PBOC manifest path is required".to_owned() });
    }
    let mut options = ManifestOptions { root: None, host: None, host_version: None };
    let mut i: usize = 1;
    while i < arguments.len()
        invariant
            args == string_views(arguments@),
            args.len() > 0 && !starts_with(args[0], "-"@),
            1 <= i,
            manifest_scan(args, 1, ManifestScan { root: None, host: None, host_version: None }) == manifest_scan(
                args,
                i as nat,
                ManifestScan {
                    root: text_option(options.root),
                    host: text_option(options.host),
                    host_version: text_option(options.host_version),
                },
            ),
        decreases arguments.len() - i,
    {
        let option = arguments[i].as_str();
        if i + 1 >= arguments.len() {
            return Err(PbocError { usage: true, message: concat2(option, " requires a value") });
        }
        let value = arguments[i + 1].clone();
        proof {
            assert(args[i as int] == arguments@[i as int]@);
            assert(args[i + 1] == arguments@[i + 1]@);
        }
        if text_is(option, "--root") && options.root.is_none() {
            options.root = Some(value);
        } else if text_is(option, "--host") && options.host.is_none() {
            options.host = Some(value);
        } else if text_is(option, "--host-version") && options.host_version.is_none() {
            options.host_version = Some(value);
        } else {
            return Err(PbocError { usage: true, message: concat3("unknown or repeated option `", option, "`") });
        }
        i = i + 2;
    }
    if require_host && options.host.is_none() {
        return Err(PbocError { usage: true, message: "--host is required".to_owned() });
    }
    if !require_host && (options.host.is_some() || options.host_version.is_some()) {
        return Err(PbocError { usage: true, message: "host options are only valid for `pliego pboc admit`".to_owned() });
    }
    Ok((arguments[0].clone(), options))
}

} // verus!

verus! {

/// The options of `pliego new`: a destination, and at most one each of
/// `--name`, `--framework-path` and `--template`.
#[derive(Clone, Debug)]
pub struct NewOptions {
    pub destination: Option<String>,
    pub display_name: Option<String>,
    pub framework_path: Option<String>,
    pub template: Option<String>,
}

/// The text of an optional string.
pub open spec fn option_text(o: Option<String>) -> Option<Seq<char>> {
    match o {
        Some(s) => Some(s@),
        None => None,
    }
}

/// `NewOptions` by the text of its fields.
pub open spec fn new_options_view(o: NewOptions) -> (
    Option<Seq<char>>,
    Option<Seq<char>>,
    Option<Seq<char>>,
    Option<Seq<char>>,
) {
    (option_text(o.destination), option_text(o.display_name), option_text(o.framework_path), option_text(o.template))
}

/// Whether an argument reads as an option.
pub open spec fn dash_led(a: Seq<char>) -> bool {
    a.len() > 0 && a[0] == '-'
}

/// The options of `pliego new` read from `args[i..]` onto `st`.
pub open spec fn new_scan(
    args: Seq<Seq<char>>,
    i: nat,
    st: (Option<Seq<char>>, Option<Seq<char>>, Option<Seq<char>>, Option<Seq<char>>),
) -> Result<(Option<Seq<char>>, Option<Seq<char>>, Option<Seq<char>>, Option<Seq<char>>), Seq<char>>
    decreases args.len() - i,
{
    if i >= args.len() {
        Ok(st)
    } else {
        let a = args[i as int];
        if a == "--name"@ {
            if st.1 is Some {
                Err("--name may only be provided once"@)
            } else if i + 1 >= args.len() {
                Err("--name requires a value"@)
            } else {
                new_scan(args, i + 2, (st.0, Some(args[i + 1 as int]), st.2, st.3))
            }
        } else if a == "--framework-path"@ {
            if st.2 is Some {
                Err("--framework-path may only be provided once"@)
            } else if i + 1 >= args.len() {
                Err("--framework-path requires a value"@)
            } else {
                new_scan(args, i + 2, (st.0, st.1, Some(args[i + 1 as int]), st.3))
            }
        } else if a == "--template"@ {
            if st.3 is Some {
                Err("--template may only be provided once"@)
            } else if i + 1 >= args.len() {
                Err("--template requires a value"@)
            } else {
                new_scan(args, i + 2, (st.0, st.1, st.2, Some(args[i + 1 as int])))
            }
        } else if dash_led(a) {
            Err("unknown option `"@ + a + "`"@)
        } else if st.0 is None {
            new_scan(args, i + 1, (Some(a), st.1, st.2, st.3))
        } else {
            Err("unexpected argument `"@ + a + "`"@)
        }
    }
}

pub fn starts_with_dash(a: &str) -> (b: bool)
    ensures
        b == dash_led(a@),
{
    let chars = chars_of(a);
    chars.len() > 0 && chars[0] == '-'
}

/// Parses the arguments of `pliego new`.
pub fn parse_new_options(arguments: Vec<String>) -> (r: Result<NewOptions, String>)
    ensures
        match new_scan(string_views(arguments@), 0, (None, None, None, None)) {
            Ok(v) => r matches Ok(o) && new_options_view(o) == v,
            Err(m) => r matches Err(e) && e@ == m,
        },
{
    let ghost args = string_views(arguments@);
    let mut options = NewOptions { destination: None, display_name: None, framework_path: None, template: None };
    let mut i: usize = 0;
    while i < arguments.len()
        invariant
            args == string_views(arguments@),
            i <= arguments.len(),
            new_scan(args, 0, (None, None, None, None)) == new_scan(args, i as nat, new_options_view(options)),
        decreases arguments.len() - i,
    {
        let argument = arguments[i].as_str();
        proof {
            assert(args[i as int] == arguments@[i as int]@);
            if i + 1 < arguments.len() {
                assert(args[i + 1] == arguments@[i + 1]@);
            }
        }
        if text_is(argument, "--name") {
            if options.display_name.is_some() {
                return Err("--name may only be provided once".to_owned());
            }
            if i + 1 >= arguments.len() {
                return Err("--name requires a value".to_owned());
            }
            options.display_name = Some(arguments[i + 1].clone());
            i = i + 2;
        } else if text_is(argument, "--framework-path") {
            if options.framework_path.is_some() {
                return Err("--framework-path may only be provided once".to_owned());
            }
            if i + 1 >= arguments.len() {
                return Err("--framework-path requires a value".to_owned());
            }
            options.framework_path = Some(arguments[i + 1].clone());
            i = i + 2;
        } else if text_is(argument, "--template") {
            if options.template.is_some() {
                return Err("--template may only be provided once".to_owned());
            }
            if i + 1 >= arguments.len() {
                return Err("--template requires a value".to_owned());
            }
            options.template = Some(arguments[i + 1].clone());
            i = i + 2;
        } else if starts_with_dash(argument) {
            return Err(concat3("unknown option `", argument, "`"));
        } else if options.destination.is_none() {
            options.destination = Some(arguments[i].clone());
            i = i + 1;
        } else {
            return Err(concat3("unexpected argument `", argument, "`"));
        }
    }
    Ok(options)
}

/// The address a server listens on.
#[derive(Clone, Debug)]
pub enum HostChoice {
    /// The loopback address, unless another is given.
    Loopback,
    /// Every interface (`--lan`).
    Unspecified,
    /// The text given to `--host`, still to be read as an IPv4 or IPv6 address.
    Address(String),
}

/// The options of `pliego serve` and `pliego dev`.
#[derive(Clone, Debug)]
pub struct ServerOptions {
    pub port: u16,
    pub host: HostChoice,
}

/// A host choice as the scan records it: none given, every interface, or
/// the text of an address.
pub open spec fn host_view(h: HostChoice) -> Option<Option<Seq<char>>> {
    match h {
        HostChoice::Loopback => None,
        HostChoice::Unspecified => Some(None),
        HostChoice::Address(s) => Some(Some(s@)),
    }
}

/// The value of a port argument, if it is one.
pub open spec fn port_value(a: Seq<char>) -> Option<int> {
    if parses_unsigned(a, 65535) && digits_value(unsigned_body(a)) != 0 {
        Some(digits_value(unsigned_body(a)) as int)
    } else {
        None
    }
}

/// The server options read from `args[i..]`: a port at most once, and one
/// of `--lan`, `--host <address>` or `--host=<address>` at most once.
pub open spec fn server_scan(
    args: Seq<Seq<char>>,
    i: nat,
    port: Option<int>,
    host: Option<Option<Seq<char>>>,
    default: u16,
) -> Result<(int, Option<Option<Seq<char>>>), Seq<char>>
    decreases args.len() - i,
{
    if i >= args.len() {
        Ok(
            (
                match port {
                    Some(p) => p,
                    None => default as int,
                },
                host,
            ),
        )
    } else {
        let a = args[i as int];
        if a == "--lan"@ {
            if host is Some {
                Err("server host may only be provided once"@)
            } else {
                server_scan(args, i + 1, port, Some(None), default)
            }
        } else if a == "--host"@ {
            if i + 1 >= args.len() {
                Err("--host requires an IP address"@)
            } else if host is Some {
                Err("server host may only be provided once"@)
            } else {
                server_scan(args, i + 2, port, Some(Some(args[i + 1 as int])), default)
            }
        } else if starts_with(a, "--host="@) {
            if host is Some {
                Err("server host may only be provided once"@)
            } else {
                server_scan(args, i + 1, port, Some(Some(a.skip(7))), default)
            }
        } else if dash_led(a) || port is Some {
            Err("unexpected server argument `"@ + a + "`"@)
        } else {
            match port_value(a) {
                Some(p) => server_scan(args, i + 1, Some(p), host, default),
                None => Err("port must be an integer between 1 and 65535"@),
            }
        }
    }
}

/// Parses the arguments of `pliego serve` and `pliego dev`; the text of a
/// host is read as an address by the caller.
pub fn parse_server_options(arguments: Vec<String>, default_port: u16) -> (r: Result<ServerOptions, String>)
    ensures
        match server_scan(string_views(arguments@), 0, None, None, default_port) {
            Ok((p, h)) => r matches Ok(o) && o.port == p && host_view(o.host) == h,
            Err(m) => r matches Err(e) && e@ == m,
        },
{
    proof {
        reveal_strlit("--host=");
    }
    let ghost args = string_views(arguments@);
    let prefix = chars_of("--host=");
    let mut port: Option<u16> = None;
    let mut host = HostChoice::Loopback;
    let mut i: usize = 0;
    while i < arguments.len()
        invariant
            args == string_views(arguments@),
            prefix@ == "--host="@,
            prefix@.len() == 7,
            i <= arguments.len(),
            server_scan(args, 0, None, None, default_port) == server_scan(
                args,
                i as nat,
                match port {
                    Some(p) => Some(p as int),
                    None => None,
                },
                host_view(host),
                default_port,
            ),
        decreases arguments.len() - i,
    {
        let argument = arguments[i].as_str();
        let chars = chars_of(argument);
        proof {
            assert(args[i as int] == arguments@[i as int]@);
            if i + 1 < arguments.len() {
                assert(args[i + 1] == arguments@[i + 1]@);
            }
        }
        let host_given = match host {
            HostChoice::Loopback => false,
            _ => true,
        };
        if text_is(argument, "--lan") {
            if host_given {
                return Err("server host may only be provided once".to_owned());
            }
            host = HostChoice::Unspecified;
            i = i + 1;
        } else if text_is(argument, "--host") {
            if i + 1 >= arguments.len() {
                return Err("--host requires an IP address".to_owned());
            }
            if host_given {
                return Err("server host may only be provided once".to_owned());
            }
            host = HostChoice::Address(arguments[i + 1].clone());
            i = i + 2;
        } else if starts_with_chars(chars.as_slice(), prefix.as_slice()) {
            if host_given {
                return Err("server host may only be provided once".to_owned());
            }
            host = HostChoice::Address(crate::numtext::suffix_string(chars.as_slice(), 7));
            i = i + 1;
        } else if starts_with_dash(argument) || port.is_some() {
            return Err(concat3("unexpected server argument `", argument, "`"));
        } else {
            match parse_port(Some(arguments[i].clone()), default_port) {
                Ok(p) => {
                    port = Some(p);
                },
                Err(e) => {
                    return Err(e);
                },
            }
            i = i + 1;
        }
    }
    Ok(
        ServerOptions {
            port: match port {
                Some(p) => p,
                None => default_port,
            },
            host,
        },
    )
}

} // verus!
