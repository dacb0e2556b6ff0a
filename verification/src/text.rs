//! Character classes and small verified text utilities shared by the lexer,
//! the parser and the security scan.
use vstd::prelude::*;

verus! {

/// Whether `c`, a character beyond ASCII, has the Unicode `Alphabetic` property (the
/// result of `char::is_alphabetic` there).
pub uninterp spec fn non_ascii_alphabetic(c: char) -> bool;

/// Whether `c`, a character beyond ASCII, is alphabetic or numeric in the Unicode sense
/// (the result of `char::is_alphanumeric` there).
pub uninterp spec fn non_ascii_alphanumeric(c: char) -> bool;

/// An ASCII character.
pub open spec fn is_ascii_char(c: char) -> bool {
    c <= '\x7f'
}

/// An ASCII letter `'a'..='z'` or `'A'..='Z'`.
pub open spec fn is_ascii_letter(c: char) -> bool {
    ('a' <= c && c <= 'z') || ('A' <= c && c <= 'Z')
}

/// An ASCII decimal digit `'0'..='9'`.
pub open spec fn is_digit_char(c: char) -> bool {
    '0' <= c && c <= '9'
}

/// The Unicode `Alphabetic` property: among ASCII characters exactly the letters;
/// beyond ASCII it is named, not tabulated.
pub open spec fn is_alphabetic_char(c: char) -> bool {
    if is_ascii_char(c) {
        is_ascii_letter(c)
    } else {
        non_ascii_alphabetic(c)
    }
}

/// Alphabetic or numeric: among ASCII characters exactly the letters and digits; beyond
/// ASCII it is named, not tabulated.
pub open spec fn is_alphanumeric_char(c: char) -> bool {
    if is_ascii_char(c) {
        is_ascii_letter(c) || is_digit_char(c)
    } else {
        non_ascii_alphanumeric(c)
    }
}

/// The Unicode `White_Space` property: U+0009 to U+000D, U+0020, U+0085, U+00A0,
/// U+1680, U+2000 to U+200A, U+2028, U+2029, U+202F, U+205F and U+3000.
pub open spec fn is_whitespace_char(c: char) -> bool {
    ||| '\u{9}' <= c && c <= '\u{d}'
    ||| c == '\u{20}'
    ||| c == '\u{85}'
    ||| c == '\u{a0}'
    ||| c == '\u{1680}'
    ||| '\u{2000}' <= c && c <= '\u{200a}'
    ||| c == '\u{2028}'
    ||| c == '\u{2029}'
    ||| c == '\u{202f}'
    ||| c == '\u{205f}'
    ||| c == '\u{3000}'
}

/// Calls `char::is_alphabetic`. Among ASCII characters the `Alphabetic` property holds of
/// exactly the letters; beyond ASCII the result is only named, as the Unicode tables are
/// not restated here.
#[verifier::external_body]
pub fn char_is_alphabetic(c: char) -> (r: bool)
    ensures
        r == is_alphabetic_char(c),
        !is_ascii_char(c) ==> r == non_ascii_alphabetic(c),
{
    c.is_alphabetic()
}

/// Calls `char::is_alphanumeric`. Its documentation defines it as `is_alphabetic() ||
/// is_numeric()`, so every alphabetic character is alphanumeric; among ASCII characters
/// it holds of exactly the letters and digits. Beyond ASCII the numeric class is not
/// restated and the result is only named.
#[verifier::external_body]
pub fn char_is_alphanumeric(c: char) -> (r: bool)
    ensures
        r == is_alphanumeric_char(c),
        !is_ascii_char(c) ==> r == non_ascii_alphanumeric(c),
        is_alphabetic_char(c) ==> r,
{
    c.is_alphanumeric()
}

/// Whether `c` has the Unicode `White_Space` property (what `char::is_whitespace`
/// answers), by the list of its members.
pub fn char_is_whitespace(c: char) -> (r: bool)
    ensures
        r == is_whitespace_char(c),
{
    ('\u{9}' <= c && c <= '\u{d}') || c == '\u{20}' || c == '\u{85}' || c == '\u{a0}' || c
        == '\u{1680}' || ('\u{2000}' <= c && c <= '\u{200a}') || c == '\u{2028}' || c == '\u{2029}'
        || c == '\u{202f}' || c == '\u{205f}' || c == '\u{3000}'
}

/// Whether `c` is an ASCII decimal digit.
pub fn char_is_ascii_digit(c: char) -> (r: bool)
    ensures
        r == is_digit_char(c),
{
    '0' <= c && c <= '9'
}

/// Calls `ToString::to_string` on a `char`: a string of exactly that character.
#[verifier::external_body]
pub fn char_to_string(c: char) -> (s: String)
    ensures
        s@ == seq![c],
{
    c.to_string()
}

/// The first position at or after `pos` whose character is not in `class`
/// (or the end of the text).
pub open spec fn scan_while(input: Seq<char>, pos: int, class: spec_fn(char) -> bool) -> int
    decreases input.len() - pos,
{
    if 0 <= pos < input.len() && class(input[pos]) {
        scan_while(input, pos + 1, class)
    } else {
        pos
    }
}

/// A scan never moves backwards, never leaves the text, and stops at a character outside
/// its class.
pub proof fn lemma_scan_bounds(input: Seq<char>, pos: int, class: spec_fn(char) -> bool)
    ensures
        scan_while(input, pos, class) >= pos,
        pos <= input.len() ==> scan_while(input, pos, class) <= input.len(),
        pos > input.len() ==> scan_while(input, pos, class) == pos,
        0 <= pos ==> forall|i: int|
            pos <= i < scan_while(input, pos, class) ==> #[trigger] class(input[i]),
        0 <= pos && scan_while(input, pos, class) < input.len() ==> !class(
            input[scan_while(input, pos, class)],
        ),
    decreases input.len() - pos,
{
    if 0 <= pos < input.len() && class(input[pos]) {
        lemma_scan_bounds(input, pos + 1, class);
    }
}

/// Scanning again from where a scan stopped does not move.
pub proof fn lemma_scan_idempotent(input: Seq<char>, pos: int, class: spec_fn(char) -> bool)
    requires
        0 <= pos,
    ensures
        scan_while(input, scan_while(input, pos, class), class) == scan_while(input, pos, class),
{
    lemma_scan_bounds(input, pos, class);
}

/// `needle` occurs in `hay` starting at index `i`.
pub open spec fn occurs_at(hay: Seq<char>, needle: Seq<char>, i: int) -> bool {
    0 <= i && i + needle.len() <= hay.len() && hay.subrange(i, i + needle.len()) == needle
}

/// `needle` is a contiguous part of `hay` (the empty text is part of every text).
pub open spec fn contains_seq(hay: Seq<char>, needle: Seq<char>) -> bool {
    exists|i: int| occurs_at(hay, needle, i)
}

/// The first index at or after `i` where `needle` occurs in `hay`, if any.
pub open spec fn first_occurrence_from(hay: Seq<char>, needle: Seq<char>, i: int) -> Option<int>
    decreases hay.len() + 1 - i,
{
    if i < 0 || i + needle.len() > hay.len() {
        None
    } else if occurs_at(hay, needle, i) {
        Some(i)
    } else {
        first_occurrence_from(hay, needle, i + 1)
    }
}

/// The last position at or before `end` such that the characters from it to `end` are
/// all in `class`.
pub open spec fn scan_back(s: Seq<char>, end: int, class: spec_fn(char) -> bool) -> int
    decreases end,
{
    if 0 < end <= s.len() && class(s[end - 1]) {
        scan_back(s, end - 1, class)
    } else {
        end
    }
}

/// `s` without its leading and trailing characters in `class`.
pub open spec fn trim_class(s: Seq<char>, class: spec_fn(char) -> bool) -> Seq<char> {
    let a = scan_while(s, 0, class);
    let b = scan_back(s, s.len() as int, class);
    if a < b {
        s.subrange(a, b)
    } else {
        Seq::empty()
    }
}

/// The NUL character.
pub open spec fn nul_class() -> spec_fn(char) -> bool {
    |c: char| c == '\0'
}

/// Whitespace, as `char::is_whitespace` defines it.
pub open spec fn space_class() -> spec_fn(char) -> bool {
    |c: char| is_whitespace_char(c)
}

/// The class that `trim_chars` strips: whitespace, or else NUL.
pub open spec fn trim_target(whitespace: bool) -> spec_fn(char) -> bool {
    if whitespace {
        space_class()
    } else {
        nul_class()
    }
}

/// A backward scan never moves forwards and stops after a character outside `class`.
proof fn lemma_scan_back_bounds(s: Seq<char>, end: int, class: spec_fn(char) -> bool)
    requires
        0 <= end <= s.len(),
    ensures
        0 <= scan_back(s, end, class) <= end,
        forall|i: int| scan_back(s, end, class) <= i < end ==> #[trigger] class(s[i]),
        scan_back(s, end, class) > 0 ==> !class(s[scan_back(s, end, class) - 1]),
    decreases end,
{
    if 0 < end && class(s[end - 1]) {
        lemma_scan_back_bounds(s, end - 1, class);
    }
}

/// Whether `c` is in the class that `trim_chars` strips.
fn in_trim_target(c: char, whitespace: bool) -> (r: bool)
    ensures
        r == trim_target(whitespace)(c),
{
    if whitespace {
        char_is_whitespace(c)
    } else {
        c == '\0'
    }
}

/// `v` without its leading and trailing whitespace (when `whitespace`) or NUL characters.
pub fn trim_chars(v: &Vec<char>, whitespace: bool) -> (r: Vec<char>)
    ensures
        r@ == trim_class(v@, trim_target(whitespace)),
{
    let ghost class = trim_target(whitespace);
    let n = v.len();
    let mut a: usize = 0;
    proof {
        lemma_scan_bounds(v@, 0, class);
    }
    while a < n && in_trim_target(v[a], whitespace)
        invariant
            n == v@.len(),
            a <= n,
            class == trim_target(whitespace),
            scan_while(v@, a as int, class) == scan_while(v@, 0, class),
        decreases n - a,
    {
        a = a + 1;
    }
    let mut b: usize = n;
    proof {
        lemma_scan_back_bounds(v@, n as int, class);
    }
    while b > 0 && in_trim_target(v[b - 1], whitespace)
        invariant
            n == v@.len(),
            b <= n,
            class == trim_target(whitespace),
            scan_back(v@, b as int, class) == scan_back(v@, n as int, class),
        decreases b,
    {
        b = b - 1;
    }
    let mut r: Vec<char> = Vec::new();
    if a < b {
        let mut i = a;
        while i < b
            invariant
                a <= i <= b,
                b <= n,
                n == v@.len(),
                r@ == v@.subrange(a as int, i as int),
            decreases b - i,
        {
            r.push(v[i]);
            assert(v@.subrange(a as int, i + 1) =~= v@.subrange(a as int, i as int).push(v@[i as int]));
            i = i + 1;
        }
    }
    r
}

/// The first index where `needle` occurs in `hay`, if any.
pub fn find_chars(hay: &Vec<char>, needle: &Vec<char>) -> (r: Option<usize>)
    ensures
        r matches Some(i) ==> first_occurrence_from(hay@, needle@, 0) == Some(i as int)
            && occurs_at(hay@, needle@, i as int),
        r is None ==> first_occurrence_from(hay@, needle@, 0) is None,
{
    let n = hay.len();
    let m = needle.len();
    if m > n {
        return None;
    }
    let last = n - m;
    let mut i: usize = 0;
    loop
        invariant
            n == hay@.len(),
            m == needle@.len(),
            last == n - m,
            i <= last,
            first_occurrence_from(hay@, needle@, i as int) == first_occurrence_from(hay@, needle@, 0),
        decreases last - i,
    {
        let mut j: usize = 0;
        let mut same = true;
        while j < m
            invariant
                n == hay@.len(),
                m == needle@.len(),
                i + m <= n,
                j <= m,
                same ==> forall|l: int| 0 <= l < j ==> hay@[i + l] == needle@[l],
                !same ==> !occurs_at(hay@, needle@, i as int),
            decreases m - j,
        {
            if same && hay[i + j] != needle[j] {
                assert(hay@.subrange(i as int, i + m)[j as int] == hay@[i + j]);
                same = false;
            }
            j = j + 1;
        }
        if same {
            assert(hay@.subrange(i as int, i + m) =~= needle@);
            return Some(i);
        }
        if i == last {
            assert(first_occurrence_from(hay@, needle@, i + 1) is None);
            return None;
        }
        i = i + 1;
    }
}

/// Whether the characters of `a` and `b` are the same.
pub fn text_is(a: &str, b: &str) -> (r: bool)
    ensures
        r == (a@ == b@),
{
    let x = chars_of(a);
    let y = chars_of(b);
    let n = x.len();
    if n != y.len() {
        return false;
    }
    let mut i: usize = 0;
    while i < n
        invariant
            n == x@.len(),
            n == y@.len(),
            x@ == a@,
            y@ == b@,
            i <= n,
            forall|j: int| 0 <= j < i ==> x@[j] == y@[j],
        decreases n - i,
    {
        if x[i] != y[i] {
            return false;
        }
        i = i + 1;
    }
    assert(a@ =~= b@);
    true
}

/// Whether `needle` occurs as a contiguous part of `hay`.
pub fn contains_text(hay: &str, needle: &str) -> (r: bool)
    ensures
        r == contains_seq(hay@, needle@),
{
    let h = chars_of(hay);
    let nd = chars_of(needle);
    let n = h.len();
    let m = nd.len();
    if m > n {
        assert forall|i: int| !occurs_at(hay@, needle@, i) by {}
        return false;
    }
    let last = n - m;
    let mut i: usize = 0;
    loop
        invariant
            h@ == hay@,
            nd@ == needle@,
            n == hay@.len(),
            m == needle@.len(),
            last == n - m,
            i <= last,
            forall|k: int| 0 <= k < i ==> !occurs_at(hay@, needle@, k),
        decreases last - i,
    {
        let mut j: usize = 0;
        let mut same = true;
        while j < m
            invariant
                h@ == hay@,
                nd@ == needle@,
                n == hay@.len(),
                m == needle@.len(),
                i + m <= n,
                j <= m,
                same ==> forall|l: int| 0 <= l < j ==> hay@[i + l] == needle@[l],
                !same ==> !occurs_at(hay@, needle@, i as int),
            decreases m - j,
        {
            if same && h[i + j] != nd[j] {
                assert(hay@.subrange(i as int, i + m)[j as int] == hay@[i + j]);
                same = false;
            }
            j = j + 1;
        }
        if same {
            assert(hay@.subrange(i as int, i + m) =~= needle@);
            assert(occurs_at(hay@, needle@, i as int));
            return true;
        }
        if i == last {
            assert forall|k: int| !occurs_at(hay@, needle@, k) by {
                if 0 <= k && k + m <= n {
                    assert(k <= i);
                }
            }
            return false;
        }
        i = i + 1;
    }
}

/// The characters of `s`, in order.
pub fn chars_of(s: &str) -> (v: Vec<char>)
    ensures
        v@ == s@,
{
    broadcast use vstd::string::group_string_axioms;

    let mut v: Vec<char> = Vec::new();
    let mut it = s.chars();
    loop
        invariant
            v@ + vstd::std_specs::iter::IteratorSpec::remaining(&it) == s@,
            vstd::std_specs::iter::IteratorSpec::decrease(&it) is Some,
        ensures
            v@ == s@,
        decreases vstd::std_specs::iter::IteratorSpec::decrease(&it)->0,
    {
        let ghost before = vstd::std_specs::iter::IteratorSpec::remaining(&it);
        match it.next() {
            Some(c) => {
                v.push(c);
                assert(v@ + vstd::std_specs::iter::IteratorSpec::remaining(&it) =~= s@) by {
                    assert(before =~= seq![c] + vstd::std_specs::iter::IteratorSpec::remaining(&it));
                }
            },
            None => {
                assert(v@ =~= s@);
                break;
            },
        }
    }
    v
}

/// The characters `chars[start..end]` collected into a string.
pub fn collect_chars(chars: &Vec<char>, start: usize, end: usize) -> (s: String)
    requires
        start <= end <= chars@.len(),
    ensures
        s@ == chars@.subrange(start as int, end as int),
{
    let mut s = String::new();
    let mut i = start;
    while i < end
        invariant
            start <= i <= end,
            end <= chars@.len(),
            s@ == chars@.subrange(start as int, i as int),
        decreases end - i,
    {
        let piece = char_to_string(chars[i]);
        s.append(piece.as_str());
        assert(chars@.subrange(start as int, i + 1) =~= chars@.subrange(start as int, i as int)
            + seq![chars@[i as int]]);
        i = i + 1;
    }
    s
}

} // verus!
