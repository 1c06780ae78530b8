//! Source spans and fix suggestions read out of a failure's message, for the
//! human and JSON renderings of a failed command.
use vstd::prelude::*;
use crate::adaptive::option_text;
use crate::cli::{failure_help, sanitize_diagnostic, sanitized, CliFailure};
use crate::numtext::{digits_value, parse_unsigned, parses_unsigned, trim, trim_bounds, unsigned_body};
use crate::text::{
    chars_of, is_ascii_digit, occurs_at, split_chars, split_on, starts_with, starts_with_chars,
    string_from_chars, str_eq, utf8_len, utf8_len_of, char_views,
};
use crate::textmap::TextMap;

verus! {

broadcast use vstd::string::group_string_axioms;

/// A location in a file named by a diagnostic.
#[derive(Clone, Debug, PartialEq, Eq)]
pub struct DiagnosticSpan {
    pub file: Option<String>,
    pub line: u64,
    pub column: u64,
    pub label: &'static str,
}

pub struct SpanModel {
    pub file: Option<Seq<char>>,
    pub line: u64,
    pub column: u64,
    pub label: Seq<char>,
}

pub open spec fn span_view(s: DiagnosticSpan) -> SpanModel {
    SpanModel { file: option_text(s.file), line: s.line, column: s.column, label: s.label@ }
}

/// The last index of `c` in `s`, if any.
pub open spec fn last_index(s: Seq<char>, c: char) -> Option<int> {
    if s.contains(c) {
        Some(choose|i: int| 0 <= i < s.len() && s[i] == c && forall|j: int| i < j < s.len() ==> s[j] != c)
    } else {
        None
    }
}

fn find_last(s: &[char], c: char) -> (r: Option<usize>)
    ensures
        match r {
            None => last_index(s@, c) is None,
            Some(i) => last_index(s@, c) == Some(i as int) && i < s.len(),
        },
{
    let mut k: usize = s.len();
    while k > 0
        invariant
            k <= s.len(),
            forall|j: int| k <= j < s.len() ==> s@[j] != c,
        decreases k,
    {
        if s[k - 1] == c {
            let i = k - 1;
            proof {
                assert(s@.contains(c));
                let w = choose|w: int| 0 <= w < s@.len() && s@[w] == c && forall|j: int| w < j < s@.len() ==> s@[j] != c;
                assert(0 <= i as int && (i as int) < s@.len() && s@[i as int] == c && forall|j: int|
                    i < j < s@.len() ==> s@[j] != c);
                if w < i {
                    assert(s@[i as int] != c);
                }
                if w > i {
                    assert(s@[w] != c);
                }
            }
            return Some(i);
        }
        k = k - 1;
    }
    proof {
        if s@.contains(c) {
            let j = choose|j: int| 0 <= j < s@.len() && s@[j] == c;
            assert(s@[j] != c);
        }
    }
    None
}

/// A location `file:line:column`: the file may itself hold colons, the line
/// and column are the last two fields, positive, and the trimmed file is
/// non-empty and at most 4096 bytes.
#[verifier::opaque]
pub open spec fn location_span(loc: Seq<char>, label: Seq<char>) -> Option<SpanModel> {
    match last_index(loc, ':') {
        None => None,
        Some(c) => match last_index(loc.take(c), ':') {
            None => None,
            Some(l) => {
                let col = loc.skip(c + 1);
                let line = loc.subrange(l + 1, c);
                let file = trim(loc.take(l));
                if !parses_unsigned(col, u64::MAX as nat) || !parses_unsigned(line, u64::MAX as nat) {
                    None
                } else if file.len() == 0 || utf8_len(file) > 4096 || digits_value(unsigned_body(line)) == 0
                    || digits_value(unsigned_body(col)) == 0 {
                    None
                } else {
                    Some(
                        SpanModel {
                            file: Some(file),
                            line: digits_value(unsigned_body(line)) as u64,
                            column: digits_value(unsigned_body(col)) as u64,
                            label,
                        },
                    )
                }
            },
        },
    }
}

fn slice_string(s: &[char], from: usize, to: usize) -> (out: String)
    requires
        from <= to <= s.len(),
    ensures
        out@ == s@.subrange(from as int, to as int),
{
    let mut v: Vec<char> = Vec::new();
    let mut i: usize = from;
    while i < to
        invariant
            from <= i <= to <= s.len(),
            v@ == s@.subrange(from as int, i as int),
        decreases to - i,
    {
        v.push(s[i]);
        i = i + 1;
        proof {
            assert(s@.subrange(from as int, i as int) =~= s@.subrange(from as int, i - 1).push(s@[i - 1]));
        }
    }
    string_from_chars(v.as_slice())
}

/// Reads `file:line:column`.
pub fn parse_diagnostic_location(location: &str, label: &'static str) -> (r: Option<DiagnosticSpan>)
    ensures
        match location_span(location@, label@) {
            None => r is None,
            Some(m) => r matches Some(s) && span_view(s) == m,
        },
{
    proof {
        reveal(location_span);
    }
    let loc = chars_of(location);
    let c = match find_last(loc.as_slice(), ':') {
        Some(c) => c,
        None => {
            return None;
        },
    };
    let head = slice_string(loc.as_slice(), 0, c);
    let head_chars = chars_of(head.as_str());
    proof {
        assert(head_chars@ =~= loc@.take(c as int));
    }
    let l = match find_last(head_chars.as_slice(), ':') {
        Some(l) => l,
        None => {
            return None;
        },
    };
    let col_chars = chars_of(slice_string(loc.as_slice(), c + 1, loc.len()).as_str());
    let line_chars = chars_of(slice_string(loc.as_slice(), l + 1, c).as_str());
    proof {
        assert(col_chars@ =~= loc@.skip(c + 1));
    }
    let column = match parse_unsigned(col_chars.as_slice(), u64::MAX) {
        Some(v) => v,
        None => {
            return None;
        },
    };
    let line = match parse_unsigned(line_chars.as_slice(), u64::MAX) {
        Some(v) => v,
        None => {
            return None;
        },
    };
    let file_raw = chars_of(slice_string(loc.as_slice(), 0, l).as_str());
    let (a, b) = trim_bounds(file_raw.as_slice());
    let file = slice_string(file_raw.as_slice(), a, b);
    let file_chars = chars_of(file.as_str());
    proof {
        assert(file_raw@ =~= loc@.take(l as int));
    }
    if file_chars.len() == 0 || utf8_len_of(file_chars.as_slice()) > 4096 || line == 0 || column == 0 {
        return None;
    }
    Some(DiagnosticSpan { file: Some(file), line, column, label })
}

/// The span a message line names when, trimmed, it reads `--> location`.
/// Lines are the pieces between newlines; a carriage return before a newline
/// is white space that trimming removes.
#[verifier::opaque]
pub open spec fn line_span(piece: Seq<char>) -> Option<SpanModel> {
    let t = trim(piece);
    if starts_with(t, "--> "@) {
        location_span(t.skip(4), "compiler primary"@)
    } else {
        None
    }
}

/// `acc` with the span of a line added, unless it is already there.
pub open spec fn with_line_span(acc: Seq<SpanModel>, piece: Seq<char>) -> Seq<SpanModel> {
    match line_span(piece) {
        Some(sp) => if acc.contains(sp) {
            acc
        } else {
            acc.push(sp)
        },
        None => acc,
    }
}

/// Spans of the lines from `i` on, added to `acc` without repetition, until
/// 16 are known.
pub open spec fn spans_from(pieces: Seq<Seq<char>>, i: int, acc: Seq<SpanModel>) -> Seq<SpanModel>
    decreases pieces.len() - i,
{
    if i < 0 || i >= pieces.len() {
        acc
    } else {
        let next = with_line_span(acc, pieces[i]);
        if next.len() >= 16 {
            next
        } else {
            spans_from(pieces, i + 1, next)
        }
    }
}

/// The pieces of `s` between characters that are not ASCII digits.
pub open spec fn digit_runs(s: Seq<char>, i: int, cur: Seq<char>, acc: Seq<Seq<char>>) -> Seq<Seq<char>>
    decreases s.len() - i,
{
    if i < 0 || i >= s.len() {
        acc.push(cur)
    } else if is_ascii_digit(s[i]) {
        digit_runs(s, i + 1, cur.push(s[i]), acc)
    } else {
        digit_runs(s, i + 1, Seq::empty(), acc.push(cur))
    }
}

pub open spec fn run_parses(r: Seq<char>) -> bool {
    parses_unsigned(r, u64::MAX as nat)
}

/// The numbers among `runs` that fit in a `u64`, in order.
pub open spec fn values_of(runs: Seq<Seq<char>>) -> Seq<nat>
    decreases runs.len(),
{
    if runs.len() == 0 {
        Seq::empty()
    } else if run_parses(runs.last()) {
        values_of(runs.drop_last()).push(digits_value(unsigned_body(runs.last())))
    } else {
        values_of(runs.drop_last())
    }
}

/// The numbers among the digit runs of `s` that fit in a `u64`, in order.
pub open spec fn run_values(s: Seq<char>) -> Seq<nat> {
    values_of(digit_runs(s, 0, Seq::empty(), Seq::empty()))
}

pub open spec fn toml_marker() -> Seq<char> {
    ": TOML parse error at line "@
}

/// The first index at which `needle` occurs in `s`, if any.
pub open spec fn first_occurrence(s: Seq<char>, needle: Seq<char>) -> Option<int> {
    if exists|i: int| occurs_at(s, needle, i) {
        Some(choose|i: int| occurs_at(s, needle, i) && forall|j: int| 0 <= j < i ==> !occurs_at(s, needle, j))
    } else {
        None
    }
}

/// The span a TOML parse error names: the file before the marker, and the
/// first two numbers after it as line and column.
pub open spec fn toml_span(m: Seq<char>) -> Option<SpanModel> {
    match first_occurrence(m, toml_marker()) {
        None => None,
        Some(k) => {
            let vals = run_values(m.skip(k + toml_marker().len()));
            if vals.len() >= 2 {
                Some(
                    SpanModel {
                        file: Some(trim(m.take(k))),
                        line: vals[0] as u64,
                        column: vals[1] as u64,
                        label: "manifest parse"@,
                    },
                )
            } else {
                None
            }
        },
    }
}

/// Compiler spans of a message, or else the span of a TOML parse error.
pub open spec fn message_spans(m: Seq<char>) -> Seq<SpanModel> {
    let found = spans_from(split_on(m, '\n'), 0, Seq::empty());
    if found.len() > 0 {
        found
    } else {
        match toml_span(m) {
            Some(sp) => seq![sp],
            None => Seq::empty(),
        }
    }
}

fn same_span(a: &DiagnosticSpan, b: &DiagnosticSpan) -> (r: bool)
    ensures
        r == (span_view(*a) == span_view(*b)),
{
    let files = match (&a.file, &b.file) {
        (Some(x), Some(y)) => str_eq(x.as_str(), y.as_str()),
        (None, None) => true,
        _ => false,
    };
    files && a.line == b.line && a.column == b.column && str_eq(a.label, b.label)
}

pub open spec fn span_views(v: Seq<DiagnosticSpan>) -> Seq<SpanModel> {
    v.map_values(|s: DiagnosticSpan| span_view(s))
}

fn has_span(v: &Vec<DiagnosticSpan>, s: &DiagnosticSpan) -> (r: bool)
    ensures
        r == span_views(v@).contains(span_view(*s)),
{
    let mut i: usize = 0;
    while i < v.len()
        invariant
            i <= v.len(),
            forall|k: int| 0 <= k < i ==> span_view(v@[k]) != span_view(*s),
        decreases v.len() - i,
    {
        if same_span(&v[i], s) {
            proof {
                assert(span_views(v@)[i as int] == span_view(*s));
            }
            return true;
        }
        i = i + 1;
    }
    proof {
        if span_views(v@).contains(span_view(*s)) {
            let k = choose|k: int| 0 <= k < span_views(v@).len() && span_views(v@)[k] == span_view(*s);
            assert(span_view(v@[k]) == span_view(*s));
        }
    }
    false
}

fn first_match(s: &[char], needle: &[char]) -> (r: Option<usize>)
    ensures
        match r {
            None => first_occurrence(s@, needle@) is None,
            Some(k) => first_occurrence(s@, needle@) == Some(k as int) && k + needle.len() <= s.len(),
        },
{
    if needle.len() == 0 {
        proof {
            assert(s@.subrange(0, 0) =~= needle@);
            assert(occurs_at(s@, needle@, 0));
            let w = choose|w: int| occurs_at(s@, needle@, w) && forall|j: int| 0 <= j < w ==> !occurs_at(s@, needle@, j);
            if w > 0 {
                assert(!occurs_at(s@, needle@, 0));
            }
        }
        return Some(0);
    }
    let mut i: usize = 0;
    while i < s.len() && needle.len() <= s.len() - i
        invariant
            needle.len() > 0,
            i <= s.len(),
            forall|j: int| 0 <= j < i ==> !occurs_at(s@, needle@, j),
        decreases s.len() - i,
    {
        if crate::text::matches_at(s, needle, i) {
            proof {
                let w = choose|w: int| occurs_at(s@, needle@, w) && forall|j: int| 0 <= j < w ==> !occurs_at(s@, needle@, j);
                if w < i {
                    assert(!occurs_at(s@, needle@, w));
                }
                if w > i {
                    assert(!occurs_at(s@, needle@, i as int));
                }
            }
            return Some(i);
        }
        i = i + 1;
    }
    proof {
        if exists|j: int| occurs_at(s@, needle@, j) {
            let j = choose|j: int| occurs_at(s@, needle@, j);
            assert(j < i);
        }
    }
    None
}

fn number_values(s: &[char]) -> (vals: Vec<u64>)
    ensures
        vals@.map_values(|v: u64| v as nat) == run_values(s@),
{
    let mut runs: Vec<Vec<char>> = Vec::new();
    let mut cur: Vec<char> = Vec::new();
    let mut i: usize = 0;
    proof {
        assert(cur@ =~= Seq::<char>::empty());
        assert(char_views(runs@) =~= Seq::<Seq<char>>::empty());
    }
    while i < s.len()
        invariant
            i <= s.len(),
            digit_runs(s@, 0, Seq::empty(), Seq::empty()) == digit_runs(s@, i as int, cur@, char_views(runs@)),
        decreases s.len() - i,
    {
        if crate::text::ascii_digit(s[i]) {
            cur.push(s[i]);
        } else {
            let done = cur;
            cur = Vec::new();
            let ghost before = runs@;
            runs.push(done);
            proof {
                assert(char_views(runs@) =~= char_views(before).push(done@));
                assert(cur@ =~= Seq::<char>::empty());
            }
        }
        i = i + 1;
    }
    let ghost before = runs@;
    runs.push(cur);
    proof {
        assert(char_views(runs@) =~= char_views(before).push(runs@.last()@));
    }
    let mut vals: Vec<u64> = Vec::new();
    let mut j: usize = 0;
    while j < runs.len()
        invariant
            j <= runs.len(),
            char_views(runs@) == digit_runs(s@, 0, Seq::empty(), Seq::empty()),
            vals@.map_values(|v: u64| v as nat) == values_of(char_views(runs@).take(j as int)),
        decreases runs.len() - j,
    {
        proof {
            assert(char_views(runs@).take(j + 1).drop_last() =~= char_views(runs@).take(j as int));
            assert(char_views(runs@).take(j + 1).last() == runs@[j as int]@);
        }
        match parse_unsigned(runs[j].as_slice(), u64::MAX) {
            Some(v) => {
                let ghost before = vals@;
                vals.push(v);
                proof {
                    assert(vals@.map_values(|v: u64| v as nat) =~= before.map_values(|v: u64| v as nat).push(
                        v as nat,
                    ));
                }
            },
            None => {},
        }
        j = j + 1;
    }
    proof {
        assert(char_views(runs@).take(runs@.len() as int) =~= char_views(runs@));
    }
    vals
}

fn toml_location(message: &[char]) -> (r: Option<DiagnosticSpan>)
    ensures
        match toml_span(message@) {
            None => r is None,
            Some(m) => r matches Some(s) && span_view(s) == m,
        },
{
    let marker = chars_of(": TOML parse error at line ");
    let k = match first_match(message, marker.as_slice()) {
        Some(k) => k,
        None => {
            return None;
        },
    };
    let rest = chars_of(slice_string(message, k + marker.len(), message.len()).as_str());
    proof {
        assert(rest@ =~= message@.skip(k + toml_marker().len()));
    }
    let vals = number_values(rest.as_slice());
    if vals.len() < 2 {
        return None;
    }
    let head = chars_of(slice_string(message, 0, k).as_str());
    let (a, b) = trim_bounds(head.as_slice());
    let file = slice_string(head.as_slice(), a, b);
    proof {
        assert(head@ =~= message@.take(k as int));
        assert(vals@.map_values(|v: u64| v as nat)[0] == vals@[0] as nat);
        assert(vals@.map_values(|v: u64| v as nat)[1] == vals@[1] as nat);
    }
    Some(DiagnosticSpan { file: Some(file), line: vals[0], column: vals[1], label: "manifest parse" })
}

fn add_line_span(spans: &mut Vec<DiagnosticSpan>, piece: &Vec<char>)
    ensures
        span_views(final(spans)@) == with_line_span(span_views(old(spans)@), piece@),
{
    let prefix = chars_of("--> ");
    proof {
        reveal_strlit("--> ");
        assert(prefix@.len() == 4);
    }
    let (a, b) = trim_bounds(piece.as_slice());
    let line = chars_of(slice_string(piece.as_slice(), a, b).as_str());
    if starts_with_chars(line.as_slice(), prefix.as_slice()) {
        let location = slice_string(line.as_slice(), 4, line.len());
        proof {
            assert(location@ =~= trim(piece@).skip(4));
            reveal(line_span);
        }
        match parse_diagnostic_location(location.as_str(), "compiler primary") {
            Some(span) => {
                if !has_span(spans, &span) {
                    let ghost before = spans@;
                    spans.push(span);
                    proof {
                        assert(span_views(spans@) =~= span_views(before).push(span_view(span)));
                    }
                }
            },
            None => {},
        }
    } else {
        proof {
            reveal(line_span);
        }
    }
}

/// The source spans a failure message names: each distinct compiler
/// `--> file:line:column` location, at most 16; or else the location of a
/// TOML parse error.
pub fn diagnostic_spans(message: &str) -> (spans: Vec<DiagnosticSpan>)
    ensures
        span_views(spans@) == message_spans(message@),
{
    let chars = chars_of(message);
    let pieces = split_chars(chars.as_slice(), '\n');
    let ghost views = split_on(message@, '\n');
    let mut spans: Vec<DiagnosticSpan> = Vec::new();
    let mut i: usize = 0;
    proof {
        assert(span_views(spans@) =~= Seq::<SpanModel>::empty());
    }
    while i < pieces.len()
        invariant
            char_views(pieces@) == views,
            views == split_on(message@, '\n'),
            i <= pieces.len(),
            span_views(spans@).len() < 16,
            spans_from(views, 0, Seq::empty()) == spans_from(views, i as int, span_views(spans@)),
        decreases pieces.len() - i,
    {
        let ghost acc = span_views(spans@);
        add_line_span(&mut spans, &pieces[i]);
        proof {
            assert(pieces@[i as int]@ == views[i as int]);
            assert(with_line_span(acc, views[i as int]) == span_views(spans@));
            if span_views(spans@).len() >= 16 {
                assert(spans_from(views, i as int, acc) == span_views(spans@));
            } else {
                assert(spans_from(views, i as int, acc) == spans_from(views, i + 1, span_views(spans@)));
            }
        }
        if spans.len() >= 16 {
            proof {
                assert(span_views(spans@).len() > 0);
            }
            return spans;
        }
        i = i + 1;
    }
    if spans.len() == 0 {
        proof {
            assert(span_views(spans@) =~= Seq::<SpanModel>::empty());
        }
        match toml_location(chars.as_slice()) {
            Some(span) => {
                let mut out: Vec<DiagnosticSpan> = Vec::new();
                out.push(span);
                proof {
                    assert(span_views(out@) =~= seq![span_view(span)]);
                }
                return out;
            },
            None => {},
        }
    }
    spans
}

/// A suggested fix for a failure.
#[derive(Clone, Debug)]
pub struct FixSuggestion {
    pub message: String,
    pub applicability: &'static str,
}

/// The suggestion a message line carries when, trimmed, it starts with
/// `help: ` or `= help: `: the rest with control characters dropped and
/// trimmed, if non-empty and at most 512 bytes.
pub open spec fn fix_candidate(piece: Seq<char>) -> Option<Seq<char>> {
    let t = trim(piece);
    let rest = if starts_with(t, "help: "@) {
        Some(t.skip(6))
    } else if starts_with(t, "= help: "@) {
        Some(t.skip(8))
    } else {
        None
    };
    match rest {
        None => None,
        Some(x) => {
            let y = trim(sanitized(x));
            if y.len() > 0 && utf8_len(y) <= 512 {
                Some(y)
            } else {
                None
            }
        },
    }
}

/// The suggestions of the lines from `i` on, added to `s` until 16 are known.
pub open spec fn fixes_from(pieces: Seq<Seq<char>>, i: int, s: Set<Seq<char>>) -> Set<Seq<char>>
    decreases pieces.len() - i,
{
    if i < 0 || i >= pieces.len() {
        s
    } else {
        let next = match fix_candidate(pieces[i]) {
            Some(y) => s.insert(y),
            None => s,
        };
        if next.len() >= 16 {
            next
        } else {
            fixes_from(pieces, i + 1, next)
        }
    }
}

/// The fixes offered for a failure: the help of its kind and the suggestions
/// its message carries.
pub open spec fn failure_fixes(f: CliFailure) -> Set<Seq<char>> {
    fixes_from(split_on(f.message@, '\n'), 0, set![failure_help(f.kind)])
}

fn candidate_of(piece: &Vec<char>) -> (r: Option<Vec<char>>)
    ensures
        match fix_candidate(piece@) {
            None => r is None,
            Some(y) => r matches Some(v) && v@ == y,
        },
{
    let help = chars_of("help: ");
    let eq_help = chars_of("= help: ");
    proof {
        reveal_strlit("help: ");
        reveal_strlit("= help: ");
        assert(help@.len() == 6);
        assert(eq_help@.len() == 8);
    }
    let (a, b) = trim_bounds(piece.as_slice());
    let t = chars_of(slice_string(piece.as_slice(), a, b).as_str());
    let rest = if starts_with_chars(t.as_slice(), help.as_slice()) {
        slice_string(t.as_slice(), 6, t.len())
    } else if starts_with_chars(t.as_slice(), eq_help.as_slice()) {
        slice_string(t.as_slice(), 8, t.len())
    } else {
        return None;
    };
    let clean = chars_of(sanitize_diagnostic(rest.as_str()).as_str());
    let (c, d) = trim_bounds(clean.as_slice());
    let y = chars_of(slice_string(clean.as_slice(), c, d).as_str());
    if y.len() > 0 && utf8_len_of(y.as_slice()) <= 512 {
        Some(y)
    } else {
        None
    }
}

/// The fixes offered for a failure, in lexicographic order without
/// repetition, each applied by hand.
pub fn diagnostic_fixes(error: &CliFailure) -> (fixes: Vec<FixSuggestion>)
    ensures
        fixes@.len() == failure_fixes(*error).len(),
        forall|i: int, j: int|
            0 <= i < j < fixes@.len() ==> #[trigger] crate::text::seq_lt(fixes@[i].message@, fixes@[j].message@),
        forall|m: Seq<char>|
            failure_fixes(*error).contains(m) <==> exists|i: int| 0 <= i < fixes@.len() && #[trigger] fixes@[i].message@ == m,
        forall|i: int| 0 <= i < fixes@.len() ==> (#[trigger] fixes@[i]).applicability@ == "manual"@,
{
    let chars = chars_of(error.message.as_str());
    let pieces = split_chars(chars.as_slice(), '\n');
    let ghost views = split_on(error.message@, '\n');
    let mut seen: TextMap<()> = TextMap::new();
    let help = chars_of(error.kind.help());
    seen.insert_new(help, ());
    proof {
        assert(seen@.dom() =~= set![failure_help(error.kind)]);
        assert(seen@.dom().len() == 1) by {
            assert(set![failure_help(error.kind)] =~= Set::<Seq<char>>::empty().insert(failure_help(error.kind)));
        }
    }
    let mut i: usize = 0;
    while i < pieces.len()
        invariant_except_break
            seen@.dom().len() < 16,
            failure_fixes(*error) == fixes_from(views, i as int, seen@.dom()),
        invariant
            char_views(pieces@) == views,
            views == split_on(error.message@, '\n'),
            i <= pieces.len(),
            seen.wf(),
            seen@.dom().finite(),
        ensures
            failure_fixes(*error) == seen@.dom(),
        decreases pieces.len() - i,
    {
        let ghost before = seen@.dom();
        proof {
            assert(pieces@[i as int]@ == views[i as int]);
        }
        match candidate_of(&pieces[i]) {
            Some(y) => {
                if !seen.contains(y.as_slice()) {
                    seen.insert_new(y, ());
                }
            },
            None => {},
        }
        proof {
            let next = match fix_candidate(views[i as int]) {
                Some(y) => before.insert(y),
                None => before,
            };
            assert(seen@.dom() =~= next);
        }
        if seen.len() >= 16 {
            proof {
                assert(fixes_from(views, i as int, before) == seen@.dom());
            }
            break;
        }
        proof {
            assert(fixes_from(views, i as int, before) == fixes_from(views, i + 1, seen@.dom()));
        }
        i = i + 1;
    }
    let keys = seen.sorted_keys();
    let mut fixes: Vec<FixSuggestion> = Vec::new();
    let mut k: usize = 0;
    while k < keys.len()
        invariant
            k <= keys.len(),
            fixes@.len() == k,
            forall|j: int| 0 <= j < k ==> (#[trigger] fixes@[j]).message@ == keys@[j]@ && fixes@[j].applicability@
                == "manual"@,
        decreases keys.len() - k,
    {
        fixes.push(FixSuggestion { message: string_from_chars(keys[k].as_slice()), applicability: "manual" });
        k = k + 1;
    }
    proof {
        assert(failure_fixes(*error) == seen@.dom());
        assert forall|a: int, b: int| 0 <= a < b < fixes@.len() implies #[trigger] crate::text::seq_lt(
            fixes@[a].message@,
            fixes@[b].message@,
        ) by {
            assert(fixes@[a].message@ == keys@[a]@);
            assert(fixes@[b].message@ == keys@[b]@);
        }
        assert forall|m: Seq<char>| failure_fixes(*error).contains(m) implies exists|i: int|
            0 <= i < fixes@.len() && #[trigger] fixes@[i].message@ == m by {
            assert(seen@.contains_key(m));
            let i = choose|i: int| 0 <= i < keys@.len() && #[trigger] keys@[i]@ == m;
            assert(fixes@[i].message@ == m);
        }
        assert forall|m: Seq<char>| (exists|i: int| 0 <= i < fixes@.len() && #[trigger] fixes@[i].message@ == m) implies failure_fixes(
            *error,
        ).contains(m) by {
            let i = choose|i: int| 0 <= i < fixes@.len() && #[trigger] fixes@[i].message@ == m;
            assert(keys@[i]@ == m);
        }
    }
    fixes
}

} // verus!
