//! Character-level helpers shared by the path, identifier and argument rules.
use vstd::prelude::*;

verus! {

broadcast use vstd::string::group_string_axioms;

/// The characters of a string slice, in order.
pub fn chars_of(s: &str) -> (out: Vec<char>)
    ensures
        out@ == s@,
{
    let mut out: Vec<char> = Vec::new();
    for c in it: s.chars()
        invariant
            it.seq() == s@,
            out@ == s@.take(it.index() as int),
    {
        out.push(c);
    }
    out
}

/// Appends one character to a string (`String::push`).
#[verifier::external_body]
pub fn push_char(s: &mut String, c: char)
    ensures
        final(s)@ == old(s)@.push(c),
{
    s.push(c);
}

/// Builds a string holding exactly the given characters.
pub fn string_from_chars(chars: &[char]) -> (out: String)
    ensures
        out@ == chars@,
{
    let mut out = String::new();
    let mut i: usize = 0;
    while i < chars.len()
        invariant
            i <= chars.len(),
            out@ == chars@.take(i as int),
        decreases chars.len() - i,
    {
        push_char(&mut out, chars[i]);
        i = i + 1;
        proof {
            assert(chars@.take(i as int) == chars@.take(i - 1).push(chars@[i - 1]));
        }
    }
    proof {
        assert(chars@.take(chars.len() as int) == chars@);
    }
    out
}

/// Appends a string slice to a string.
pub fn push_str(s: &mut String, tail: &str)
    ensures
        final(s)@ == old(s)@ + tail@,
{
    s.append(tail);
}

/// Number of bytes of one character in UTF-8.
pub open spec fn char_utf8_len(c: char) -> nat {
    if (c as u32) < 0x80 {
        1
    } else if (c as u32) < 0x800 {
        2
    } else if (c as u32) < 0x10000 {
        3
    } else {
        4
    }
}

/// Number of bytes of a character sequence in UTF-8.
pub open spec fn utf8_len(s: Seq<char>) -> nat
    decreases s.len(),
{
    if s.len() == 0 {
        0
    } else {
        utf8_len(s.drop_last()) + char_utf8_len(s.last())
    }
}

pub proof fn lemma_utf8_len_append(a: Seq<char>, b: Seq<char>)
    ensures
        utf8_len(a + b) == utf8_len(a) + utf8_len(b),
    decreases b.len(),
{
    if b.len() == 0 {
        assert(a + b == a);
    } else {
        assert((a + b).drop_last() == a + b.drop_last());
        lemma_utf8_len_append(a, b.drop_last());
    }
}

pub proof fn lemma_utf8_len_bounds(s: Seq<char>)
    ensures
        s.len() <= utf8_len(s) <= 4 * s.len(),
    decreases s.len(),
{
    if s.len() > 0 {
        lemma_utf8_len_bounds(s.drop_last());
    }
}

/// UTF-8 width of one character.
pub fn char_width(c: char) -> (n: usize)
    ensures
        n == char_utf8_len(c),
{
    let v = c as u32;
    if v < 0x80 {
        1
    } else if v < 0x800 {
        2
    } else if v < 0x10000 {
        3
    } else {
        4
    }
}

/// UTF-8 byte length of a character sequence, saturating at `usize::MAX`.
pub fn utf8_len_of(chars: &[char]) -> (n: usize)
    ensures
        utf8_len(chars@) <= usize::MAX ==> n == utf8_len(chars@),
        utf8_len(chars@) > usize::MAX ==> n == usize::MAX,
{
    let mut total: usize = 0;
    let mut i: usize = 0;
    while i < chars.len()
        invariant
            i <= chars.len(),
            utf8_len(chars@.take(i as int)) <= usize::MAX ==> total == utf8_len(
                chars@.take(i as int),
            ),
            utf8_len(chars@.take(i as int)) > usize::MAX ==> total == usize::MAX,
        decreases chars.len() - i,
    {
        let w = char_width(chars[i]);
        proof {
            assert(chars@.take(i + 1).drop_last() == chars@.take(i as int));
        }
        total = total.saturating_add(w);
        i = i + 1;
    }
    proof {
        assert(chars@.take(chars.len() as int) == chars@);
    }
    total
}

/// Whether two string slices hold the same characters.
pub fn str_eq(a: &str, b: &str) -> (r: bool)
    ensures
        r == (a@ == b@),
{
    let x = chars_of(a);
    let y = chars_of(b);
    match compare_chars(x.as_slice(), y.as_slice()) {
        TextOrder::Equal => true,
        _ => false,
    }
}

/// Whether `a` sorts strictly before `b`, by code point.
pub fn str_lt(a: &str, b: &str) -> (r: bool)
    ensures
        r == seq_lt(a@, b@),
{
    let x = chars_of(a);
    let y = chars_of(b);
    match compare_chars(x.as_slice(), y.as_slice()) {
        TextOrder::Less => true,
        _ => false,
    }
}

/// The first present value of a sequence of checks made in order.
pub open spec fn first_some<T>(s: Seq<Option<T>>) -> Option<T>
    decreases s.len(),
{
    if s.len() == 0 {
        None
    } else if s[0] is Some {
        s[0]
    } else {
        first_some(s.drop_first())
    }
}

pub proof fn lemma_first_some_none<T>(s: Seq<Option<T>>)
    requires
        forall|k: int| 0 <= k < s.len() ==> s[k] is None,
    ensures
        first_some(s) is None,
    decreases s.len(),
{
    if s.len() > 0 {
        assert(s[0] is None);
        lemma_first_some_none(s.drop_first());
    }
}

/// No check of a sequence reports once the first report is absent.
pub proof fn lemma_first_some_none_all<T>(s: Seq<Option<T>>)
    requires
        first_some(s) is None,
    ensures
        forall|k: int| 0 <= k < s.len() ==> (#[trigger] s[k]) is None,
    decreases s.len(),
{
    if s.len() > 0 {
        lemma_first_some_none_all(s.drop_first());
        assert forall|k: int| 0 <= k < s.len() implies (#[trigger] s[k]) is None by {
            if k > 0 {
                assert(s[k] == s.drop_first()[k - 1]);
            }
        }
    }
}

pub proof fn lemma_first_some_at<T>(s: Seq<Option<T>>, i: int)
    requires
        0 <= i < s.len(),
        forall|k: int| 0 <= k < i ==> s[k] is None,
        s[i] is Some,
    ensures
        first_some(s) == s[i],
    decreases i,
{
    if i > 0 {
        assert(s[0] is None);
        lemma_first_some_at(s.drop_first(), i - 1);
    }
}

/// Whether the first `n` characters of two sequences agree.
pub open spec fn agree_upto(a: Seq<char>, b: Seq<char>, n: int) -> bool {
    forall|k: int| 0 <= k < n ==> a[k] == b[k]
}

/// Strict lexicographic order of character sequences, by code point.
pub open spec fn seq_lt(a: Seq<char>, b: Seq<char>) -> bool {
    exists|n: int|
        #![trigger agree_upto(a, b, n)]
        0 <= n <= a.len() && n <= b.len() && agree_upto(a, b, n) && (if n == a.len() {
            n < b.len()
        } else {
            n < b.len() && (a[n] as u32) < (b[n] as u32)
        })
}

pub proof fn lemma_seq_lt_irreflexive(a: Seq<char>, b: Seq<char>)
    requires
        seq_lt(a, b),
    ensures
        a != b,
        !seq_lt(b, a),
{
    let n = choose|n: int|
        #![trigger agree_upto(a, b, n)]
        0 <= n <= a.len() && n <= b.len() && agree_upto(a, b, n) && (if n == a.len() {
            n < b.len()
        } else {
            n < b.len() && (a[n] as u32) < (b[n] as u32)
        });
    if a == b {
        assert(false);
    }
    if seq_lt(b, a) {
        let m = choose|m: int|
            #![trigger agree_upto(b, a, m)]
            0 <= m <= b.len() && m <= a.len() && agree_upto(b, a, m) && (if m == b.len() {
                m < a.len()
            } else {
                m < a.len() && (b[m] as u32) < (a[m] as u32)
            });
        if n < m {
            assert(b[n] == a[n]);
        } else if m < n {
            assert(a[m] == b[m]);
        }
        assert(false);
    }
}

pub proof fn lemma_seq_lt_transitive(a: Seq<char>, b: Seq<char>, c: Seq<char>)
    requires
        seq_lt(a, b),
        seq_lt(b, c),
    ensures
        seq_lt(a, c),
{
    let n = choose|n: int|
        #![trigger agree_upto(a, b, n)]
        0 <= n <= a.len() && n <= b.len() && agree_upto(a, b, n) && (if n == a.len() {
            n < b.len()
        } else {
            n < b.len() && (a[n] as u32) < (b[n] as u32)
        });
    let m = choose|m: int|
        #![trigger agree_upto(b, c, m)]
        0 <= m <= b.len() && m <= c.len() && agree_upto(b, c, m) && (if m == b.len() {
            m < c.len()
        } else {
            m < c.len() && (b[m] as u32) < (c[m] as u32)
        });
    let w = if n <= m {
        n
    } else {
        m
    };
    assert(agree_upto(a, c, w));
    if n < m {
        assert(b[n] == c[n]);
    } else if m < n {
        assert(a[m] == b[m]);
    }
}

/// Distinct sequences are ordered one way or the other.
pub proof fn lemma_seq_lt_total(a: Seq<char>, b: Seq<char>)
    requires
        a != b,
    ensures
        seq_lt(a, b) || seq_lt(b, a),
    decreases a.len(),
{
    if a.len() == 0 {
        assert(b.len() > 0) by {
            if b.len() == 0 {
                assert(a =~= b);
            }
        }
        assert(agree_upto(a, b, 0));
    } else if b.len() == 0 {
        assert(agree_upto(b, a, 0));
    } else if a[0] != b[0] {
        assert(agree_upto(a, b, 0));
        assert(agree_upto(b, a, 0));
        if (a[0] as u32) == (b[0] as u32) {
            vstd::utf8::char_u32_cast(a[0], a[0] as u32);
            vstd::utf8::char_u32_cast(b[0], b[0] as u32);
        }
    } else {
        let x = a.drop_first();
        let y = b.drop_first();
        assert(x != y) by {
            if x == y {
                assert(a =~= seq![a[0]] + x);
                assert(b =~= seq![b[0]] + y);
            }
        }
        lemma_seq_lt_total(x, y);
        if seq_lt(x, y) {
            let n = choose|n: int|
                #![trigger agree_upto(x, y, n)]
                0 <= n <= x.len() && n <= y.len() && agree_upto(x, y, n) && (if n == x.len() {
                    n < y.len()
                } else {
                    n < y.len() && (x[n] as u32) < (y[n] as u32)
                });
            assert(agree_upto(a, b, n + 1)) by {
                assert forall|k: int| 0 <= k < n + 1 implies a[k] == b[k] by {
                    if k > 0 {
                        assert(x[k - 1] == y[k - 1]);
                    }
                }
            }
        } else {
            let n = choose|n: int|
                #![trigger agree_upto(y, x, n)]
                0 <= n <= y.len() && n <= x.len() && agree_upto(y, x, n) && (if n == y.len() {
                    n < x.len()
                } else {
                    n < x.len() && (y[n] as u32) < (x[n] as u32)
                });
            assert(agree_upto(b, a, n + 1)) by {
                assert forall|k: int| 0 <= k < n + 1 implies b[k] == a[k] by {
                    if k > 0 {
                        assert(y[k - 1] == x[k - 1]);
                    }
                }
            }
        }
    }
}

/// Outcome of comparing two character sequences.
#[derive(Clone, Copy, Debug, PartialEq, Eq, Structural)]
pub enum TextOrder {
    Less,
    Equal,
    Greater,
}

/// Three-way lexicographic comparison by code point.
pub fn compare_chars(a: &[char], b: &[char]) -> (r: TextOrder)
    ensures
        r == TextOrder::Less <==> seq_lt(a@, b@),
        r == TextOrder::Equal <==> a@ == b@,
        r == TextOrder::Greater <==> seq_lt(b@, a@),
{
    let mut i: usize = 0;
    while i < a.len() && i < b.len()
        invariant
            i <= a.len(),
            i <= b.len(),
            agree_upto(a@, b@, i as int),
        decreases a.len() - i,
    {
        let x = a[i];
        let y = b[i];
        if x != y {
            if (x as u32) < (y as u32) {
                proof {
                    assert(agree_upto(a@, b@, i as int));
                    lemma_seq_lt_irreflexive(a@, b@);
                }
                return TextOrder::Less;
            } else {
                proof {
                    if (x as u32) == (y as u32) {
                        vstd::utf8::char_u32_cast(x, x as u32);
                        vstd::utf8::char_u32_cast(y, y as u32);
                    }
                    assert(agree_upto(b@, a@, i as int));
                    lemma_seq_lt_irreflexive(b@, a@);
                }
                return TextOrder::Greater;
            }
        }
        i = i + 1;
    }
    if i < b.len() {
        proof {
            assert(agree_upto(a@, b@, i as int));
            lemma_seq_lt_irreflexive(a@, b@);
        }
        TextOrder::Less
    } else if i < a.len() {
        proof {
            assert(agree_upto(b@, a@, i as int));
            lemma_seq_lt_irreflexive(b@, a@);
        }
        TextOrder::Greater
    } else {
        proof {
            assert(a@ == b@);
            if seq_lt(a@, b@) {
                lemma_seq_lt_irreflexive(a@, b@);
            }
        }
        TextOrder::Equal
    }
}


pub open spec fn is_ascii_char(c: char) -> bool {
    (c as u32) < 0x80
}

pub open spec fn is_ascii_digit(c: char) -> bool {
    0x30 <= (c as u32) && (c as u32) <= 0x39
}

pub open spec fn is_ascii_lower(c: char) -> bool {
    0x61 <= (c as u32) && (c as u32) <= 0x7a
}

pub open spec fn is_ascii_upper(c: char) -> bool {
    0x41 <= (c as u32) && (c as u32) <= 0x5a
}

pub open spec fn is_ascii_alpha(c: char) -> bool {
    is_ascii_lower(c) || is_ascii_upper(c)
}

pub open spec fn is_ascii_alnum(c: char) -> bool {
    is_ascii_alpha(c) || is_ascii_digit(c)
}

pub open spec fn is_ascii_hexdigit(c: char) -> bool {
    is_ascii_digit(c) || (0x61 <= (c as u32) && (c as u32) <= 0x66) || (0x41 <= (c as u32) && (c
        as u32) <= 0x46)
}

/// `char::is_ascii_control`: U+0000..U+001F and U+007F.
pub open spec fn is_ascii_control(c: char) -> bool {
    (c as u32) < 0x20 || (c as u32) == 0x7f
}

/// `char::is_whitespace` restricted to what `str::trim` removes: the Unicode
/// White_Space property.
pub open spec fn is_white_space(c: char) -> bool {
    let v = c as u32;
    (0x09 <= v && v <= 0x0d) || v == 0x20 || v == 0x85 || v == 0xa0 || v == 0x1680 || (0x2000 <= v
        && v <= 0x200a) || v == 0x2028 || v == 0x2029 || v == 0x202f || v == 0x205f || v == 0x3000
}

pub fn ascii_char(c: char) -> (b: bool)
    ensures
        b == is_ascii_char(c),
{
    (c as u32) < 0x80
}

pub fn ascii_digit(c: char) -> (b: bool)
    ensures
        b == is_ascii_digit(c),
{
    let v = c as u32;
    0x30 <= v && v <= 0x39
}

pub fn ascii_lower(c: char) -> (b: bool)
    ensures
        b == is_ascii_lower(c),
{
    let v = c as u32;
    0x61 <= v && v <= 0x7a
}

pub fn ascii_upper(c: char) -> (b: bool)
    ensures
        b == is_ascii_upper(c),
{
    let v = c as u32;
    0x41 <= v && v <= 0x5a
}

pub fn ascii_alpha(c: char) -> (b: bool)
    ensures
        b == is_ascii_alpha(c),
{
    ascii_lower(c) || ascii_upper(c)
}

pub fn ascii_alnum(c: char) -> (b: bool)
    ensures
        b == is_ascii_alnum(c),
{
    ascii_alpha(c) || ascii_digit(c)
}

pub fn ascii_hexdigit(c: char) -> (b: bool)
    ensures
        b == is_ascii_hexdigit(c),
{
    let v = c as u32;
    ascii_digit(c) || (0x61 <= v && v <= 0x66) || (0x41 <= v && v <= 0x46)
}

pub fn ascii_control(c: char) -> (b: bool)
    ensures
        b == is_ascii_control(c),
{
    let v = c as u32;
    v < 0x20 || v == 0x7f
}

pub fn white_space(c: char) -> (b: bool)
    ensures
        b == is_white_space(c),
{
    let v = c as u32;
    (0x09 <= v && v <= 0x0d) || v == 0x20 || v == 0x85 || v == 0xa0 || v == 0x1680 || (0x2000 <= v
        && v <= 0x200a) || v == 0x2028 || v == 0x2029 || v == 0x202f || v == 0x205f || v == 0x3000
}

/// Whether every character is ASCII.
pub open spec fn all_ascii(s: Seq<char>) -> bool {
    forall|i: int| 0 <= i < s.len() ==> is_ascii_char(#[trigger] s[i])
}

pub fn chars_all_ascii(s: &[char]) -> (b: bool)
    ensures
        b == all_ascii(s@),
{
    let mut i: usize = 0;
    while i < s.len()
        invariant
            i <= s.len(),
            forall|k: int| 0 <= k < i ==> is_ascii_char(#[trigger] s@[k]),
        decreases s.len() - i,
    {
        if !ascii_char(s[i]) {
            return false;
        }
        i = i + 1;
    }
    true
}

/// `needle` occurs in `s` starting at index `i`.
pub open spec fn occurs_at(s: Seq<char>, needle: Seq<char>, i: int) -> bool {
    0 <= i && i + needle.len() <= s.len() && s.subrange(i, i + needle.len()) == needle
}

/// `s` contains `needle` as a contiguous piece.
pub open spec fn contains_seq(s: Seq<char>, needle: Seq<char>) -> bool {
    exists|i: int| #[trigger] occurs_at(s, needle, i)
}

pub open spec fn starts_with(s: Seq<char>, prefix: Seq<char>) -> bool {
    prefix.len() <= s.len() && s.take(prefix.len() as int) == prefix
}

pub open spec fn ends_with(s: Seq<char>, suffix: Seq<char>) -> bool {
    suffix.len() <= s.len() && s.skip(s.len() - suffix.len()) == suffix
}

/// Whether `needle` occurs at index `i` of `s`.
pub fn matches_at(s: &[char], needle: &[char], i: usize) -> (b: bool)
    ensures
        b == occurs_at(s@, needle@, i as int),
{
    if i > s.len() || needle.len() > s.len() - i {
        return false;
    }
    let mut k: usize = 0;
    while k < needle.len()
        invariant
            i + needle.len() <= s.len(),
            k <= needle.len(),
            forall|j: int| 0 <= j < k ==> s@[i + j] == needle@[j],
        decreases needle.len() - k,
    {
        if s[i + k] != needle[k] {
            proof {
                assert(s@.subrange(i as int, i + needle.len())[k as int] != needle@[k as int]);
            }
            return false;
        }
        k = k + 1;
    }
    proof {
        assert(s@.subrange(i as int, i + needle.len()) =~= needle@);
    }
    true
}

/// Whether `needle` occurs anywhere in `s`.
pub fn contains_chars(s: &[char], needle: &[char]) -> (b: bool)
    ensures
        b == contains_seq(s@, needle@),
{
    if needle.len() == 0 {
        proof {
            assert(s@.subrange(0, 0) =~= needle@);
            assert(occurs_at(s@, needle@, 0));
        }
        return true;
    }
    if needle.len() > s.len() {
        proof {
            assert forall|j: int| !#[trigger] occurs_at(s@, needle@, j) by {}
        }
        return false;
    }
    let last = s.len() - needle.len();
    let mut i: usize = 0;
    while i <= last
        invariant
            last == s.len() - needle.len(),
            needle.len() >= 1,
            i <= last + 1,
            forall|j: int| 0 <= j < i ==> !#[trigger] occurs_at(s@, needle@, j),
        decreases last + 1 - i,
    {
        if matches_at(s, needle, i) {
            return true;
        }
        i = i + 1;
    }
    proof {
        assert forall|j: int| !#[trigger] occurs_at(s@, needle@, j) by {
            if j > last as int {
                assert(!(j + needle.len() <= s.len()));
            }
        }
    }
    false
}

pub fn starts_with_chars(s: &[char], prefix: &[char]) -> (b: bool)
    ensures
        b == starts_with(s@, prefix@),
{
    let r = matches_at(s, prefix, 0);
    proof {
        if prefix.len() <= s.len() {
            assert(s@.subrange(0, prefix.len() as int) == s@.take(prefix.len() as int));
        }
    }
    r
}

pub fn ends_with_chars(s: &[char], suffix: &[char]) -> (b: bool)
    ensures
        b == ends_with(s@, suffix@),
{
    if suffix.len() > s.len() {
        return false;
    }
    let r = matches_at(s, suffix, s.len() - suffix.len());
    proof {
        assert(s@.subrange(s.len() - suffix.len(), s.len() as int) == s@.skip(s.len() - suffix.len()));
    }
    r
}

} // verus!

verus! {

/// What `<str as Debug>::fmt` writes for a string: quoted and escaped.
pub uninterp spec fn debug_text(s: Seq<char>) -> Seq<char>;

/// `<str as Debug>::fmt`, through `format!("{s:?}")`. Claimed: the result is a
/// function of the characters alone.
#[verifier::external_body]
pub fn debug_quoted(s: &str) -> (r: String)
    ensures
        r@ == debug_text(s@),
{
    format!("{s:?}")
}

/// `prefix` followed by the Debug rendering of `value`.
pub fn labelled_debug(prefix: &str, value: &str) -> (r: String)
    ensures
        r@ == prefix@ + debug_text(value@),
{
    let mut out = String::new();
    push_str(&mut out, prefix);
    let quoted = debug_quoted(value);
    push_str(&mut out, quoted.as_str());
    proof {
        assert(Seq::<char>::empty() + prefix@ == prefix@);
    }
    out
}

/// Concatenation of two string slices.
pub fn concat2(a: &str, b: &str) -> (r: String)
    ensures
        r@ == a@ + b@,
{
    let mut out = String::new();
    push_str(&mut out, a);
    push_str(&mut out, b);
    proof {
        assert(Seq::<char>::empty() + a@ == a@);
    }
    out
}

/// Concatenation of string slices.
pub fn concat3(a: &str, b: &str, c: &str) -> (r: String)
    ensures
        r@ == a@ + b@ + c@,
{
    let mut out = String::new();
    push_str(&mut out, a);
    push_str(&mut out, b);
    push_str(&mut out, c);
    proof {
        assert(Seq::<char>::empty() + a@ == a@);
    }
    out
}

} // verus!

verus! {

/// The pieces of `s` between occurrences of `sep`, as `str::split(sep)` yields them.
pub open spec fn split_on(s: Seq<char>, sep: char) -> Seq<Seq<char>>
    decreases s.len(),
{
    if s.len() == 0 {
        seq![Seq::empty()]
    } else {
        let rest = split_on(s.drop_last(), sep);
        if s.last() == sep {
            rest.push(Seq::empty())
        } else {
            rest.update(rest.len() - 1, rest.last().push(s.last()))
        }
    }
}

pub proof fn lemma_split_on_nonempty(s: Seq<char>, sep: char)
    ensures
        split_on(s, sep).len() >= 1,
    decreases s.len(),
{
    if s.len() > 0 {
        lemma_split_on_nonempty(s.drop_last(), sep);
    }
}

pub open spec fn char_views(v: Seq<Vec<char>>) -> Seq<Seq<char>> {
    v.map_values(|x: Vec<char>| x@)
}

/// Splits a character sequence at every `sep`.
pub fn split_chars(s: &[char], sep: char) -> (parts: Vec<Vec<char>>)
    ensures
        char_views(parts@) == split_on(s@, sep),
{
    let mut parts: Vec<Vec<char>> = Vec::new();
    let mut current: Vec<char> = Vec::new();
    let mut i: usize = 0;
    while i < s.len()
        invariant
            i <= s.len(),
            char_views(parts@).push(current@) == split_on(s@.take(i as int), sep),
        decreases s.len() - i,
    {
        let c = s[i];
        proof {
            assert(s@.take(i + 1).drop_last() == s@.take(i as int));
            assert(s@.take(i + 1).last() == c);
        }
        if c == sep {
            let finished = current;
            current = Vec::new();
            parts.push(finished);
            proof {
                assert(char_views(parts@) == char_views(parts@.drop_last()).push(finished@));
            }
        } else {
            let ghost before = current@;
            current.push(c);
            proof {
                let rest = char_views(parts@).push(before);
                assert(rest.update(rest.len() - 1, rest.last().push(c)) =~= char_views(parts@).push(
                    current@,
                ));
            }
        }
        i = i + 1;
    }
    parts.push(current);
    proof {
        assert(s@.take(s.len() as int) == s@);
        assert(char_views(parts@) =~= char_views(parts@.drop_last()).push(current@));
    }
    parts
}

} // verus!
