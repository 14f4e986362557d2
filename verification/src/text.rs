//! Text as sequences of characters.
//!
//! Every routine here works on `Vec<char>` and is specified over `Seq<char>`,
//! the same model that a `String`'s view has. The definitions follow the
//! behaviour of the corresponding `str` methods of the standard library.

use vstd::prelude::*;

verus! {

// ---------------------------------------------------------------------------
// Characters
// ---------------------------------------------------------------------------

/// The characters with the Unicode property `White_Space`.
pub open spec fn is_whitespace(c: char) -> bool {
    let n = c as u32;
    (0x09 <= n && n <= 0x0D) || n == 0x20 || n == 0x85 || n == 0xA0 || n == 0x1680 || (0x2000 <= n
        && n <= 0x200A) || n == 0x2028 || n == 0x2029 || n == 0x202F || n == 0x205F || n == 0x3000
}

/// Whether a character is white space.
pub fn char_is_whitespace(c: char) -> (r: bool)
    ensures
        r == is_whitespace(c),
{
    let n: u32 = c as u32;
    (0x09 <= n && n <= 0x0D) || n == 0x20 || n == 0x85 || n == 0xA0 || n == 0x1680 || (0x2000 <= n
        && n <= 0x200A) || n == 0x2028 || n == 0x2029 || n == 0x202F || n == 0x205F || n == 0x3000
}

/// An ASCII digit.
pub open spec fn is_ascii_digit(c: char) -> bool {
    '0' <= c && c <= '9'
}

/// An ASCII letter.
pub open spec fn is_ascii_alpha(c: char) -> bool {
    ('a' <= c && c <= 'z') || ('A' <= c && c <= 'Z')
}

/// Whether a character is an ASCII digit.
pub fn char_is_ascii_digit(c: char) -> (r: bool)
    ensures
        r == is_ascii_digit(c),
{
    '0' <= c && c <= '9'
}

/// Whether a character is an ASCII letter.
pub fn char_is_ascii_alpha(c: char) -> (r: bool)
    ensures
        r == is_ascii_alpha(c),
{
    ('a' <= c && c <= 'z') || ('A' <= c && c <= 'Z')
}

/// ASCII lower-casing of one character; every other character is kept.
pub open spec fn ascii_lower(c: char) -> char {
    if 'A' <= c && c <= 'Z' {
        ((c as u32) + 32) as char
    } else {
        c
    }
}

/// A character with an ASCII capital made small.
pub fn to_ascii_lower(c: char) -> (r: char)
    ensures
        r == ascii_lower(c),
{
    if 'A' <= c && c <= 'Z' {
        (((c as u32) + 32) as u8) as char
    } else {
        c
    }
}

/// A text with its ASCII capitals made small.
pub open spec fn lowered(s: Seq<char>) -> Seq<char> {
    Seq::new(s.len(), |i: int| ascii_lower(s[i]))
}

/// A text with its ASCII capitals made small.
pub fn lowercase(s: &Vec<char>) -> (r: Vec<char>)
    ensures
        r@ == lowered(s@),
{
    let mut r: Vec<char> = Vec::new();
    let mut i: usize = 0;
    while i < s.len()
        invariant
            i <= s.len(),
            r@ == lowered(s@.take(i as int)),
        decreases s.len() - i,
    {
        r.push(to_ascii_lower(s[i]));
        i += 1;
        assert(r@ =~= lowered(s@.take(i as int)));
    }
    assert(s@.take(s.len() as int) =~= s@);
    r
}

/// Equality of two texts up to ASCII case.
pub open spec fn eq_ignore_case(a: Seq<char>, b: Seq<char>) -> bool {
    lowered(a) == lowered(b)
}

/// Whether two texts are equal but for the case of their ASCII letters.
pub fn equal_ignore_case(a: &Vec<char>, b: &Vec<char>) -> (r: bool)
    ensures
        r == eq_ignore_case(a@, b@),
{
    if a.len() != b.len() {
        assert(lowered(a@).len() != lowered(b@).len());
        return false;
    }
    let mut i: usize = 0;
    while i < a.len()
        invariant
            i <= a.len(),
            a.len() == b.len(),
            forall|j: int| 0 <= j < i ==> ascii_lower(a@[j]) == ascii_lower(b@[j]),
        decreases a.len() - i,
    {
        if to_ascii_lower(a[i]) != to_ascii_lower(b[i]) {
            assert(lowered(a@)[i as int] != lowered(b@)[i as int]);
            return false;
        }
        i += 1;
    }
    assert(lowered(a@) =~= lowered(b@));
    true
}

// ---------------------------------------------------------------------------
// Strings and character vectors
// ---------------------------------------------------------------------------

/// The characters of `s`, in order.
pub fn chars_of(s: &str) -> (out: Vec<char>)
    ensures
        out@ == s@,
{
    let mut out: Vec<char> = Vec::new();
    for c in iter: s.chars()
        invariant
            iter.seq() == s@,
            out@ == iter.seq().take(iter.index() as int),
    {
        out.push(c);
    }
    out
}

/// Appends one character to a string, as `String::push` does.
#[verifier::external_body]
pub(crate) fn push_char(s: &mut String, c: char)
    ensures
        final(s)@ == old(s)@.push(c),
{
    s.push(c);
}

/// The string that holds the characters of `chars`, in order.
pub fn string_of(chars: &Vec<char>) -> (out: String)
    ensures
        out@ == chars@,
{
    let mut out = String::new();
    let mut i: usize = 0;
    while i < chars.len()
        invariant
            i <= chars.len(),
            out@ == chars@.take(i as int),
        decreases chars.len() - i,
    {
        push_char(&mut out, chars[i]);
        i += 1;
        assert(out@ =~= chars@.take(i as int));
    }
    assert(chars@.take(chars.len() as int) =~= chars@);
    out
}

/// The views of a list of strings.
pub open spec fn str_views(v: Seq<String>) -> Seq<Seq<char>> {
    Seq::new(v.len(), |i: int| v[i]@)
}

/// The views of a list of character vectors.
pub open spec fn vec_views(v: Seq<Vec<char>>) -> Seq<Seq<char>> {
    Seq::new(v.len(), |i: int| v[i]@)
}

/// The strings that hold the given texts.
pub fn strings_of(items: &Vec<Vec<char>>) -> (out: Vec<String>)
    ensures
        str_views(out@) == vec_views(items@),
{
    let mut out: Vec<String> = Vec::new();
    let mut i: usize = 0;
    while i < items.len()
        invariant
            i <= items.len(),
            out.len() == i,
            forall|j: int| 0 <= j < i ==> out@[j]@ == items@[j]@,
        decreases items.len() - i,
    {
        out.push(string_of(&items[i]));
        i += 1;
    }
    assert(str_views(out@) =~= vec_views(items@));
    out
}

/// The characters of each of the given strings.
pub fn chars_of_all(items: &Vec<String>) -> (out: Vec<Vec<char>>)
    ensures
        vec_views(out@) == str_views(items@),
{
    let mut out: Vec<Vec<char>> = Vec::new();
    let mut i: usize = 0;
    while i < items.len()
        invariant
            i <= items.len(),
            out.len() == i,
            forall|j: int| 0 <= j < i ==> out@[j]@ == items@[j]@,
        decreases items.len() - i,
    {
        out.push(chars_of(items[i].as_str()));
        i += 1;
    }
    assert(vec_views(out@) =~= str_views(items@));
    out
}

/// Copies `s[start..end]`.
pub fn slice(s: &Vec<char>, start: usize, end: usize) -> (r: Vec<char>)
    requires
        start <= end <= s.len(),
    ensures
        r@ == s@.subrange(start as int, end as int),
{
    let mut r: Vec<char> = Vec::new();
    let mut i: usize = start;
    while i < end
        invariant
            start <= i <= end <= s.len(),
            r@ == s@.subrange(start as int, i as int),
        decreases end - i,
    {
        r.push(s[i]);
        i += 1;
        assert(r@ =~= s@.subrange(start as int, i as int));
    }
    r
}

/// Appends `tail` to `out`.
pub fn extend(out: &mut Vec<char>, tail: &Vec<char>)
    ensures
        final(out)@ == old(out)@ + tail@,
{
    let mut i: usize = 0;
    while i < tail.len()
        invariant
            i <= tail.len(),
            out@ == old(out)@ + tail@.take(i as int),
        decreases tail.len() - i,
    {
        out.push(tail[i]);
        i += 1;
        assert(out@ =~= old(out)@ + tail@.take(i as int));
    }
    assert(tail@.take(tail.len() as int) =~= tail@);
}

/// Appends the characters of `tail` to `out`.
pub fn extend_str(out: &mut Vec<char>, tail: &str)
    ensures
        final(out)@ == old(out)@ + tail@,
{
    let t = chars_of(tail);
    extend(out, &t);
}

/// Whether two texts are equal.
pub fn same(a: &Vec<char>, b: &Vec<char>) -> (r: bool)
    ensures
        r == (a@ == b@),
{
    if a.len() != b.len() {
        return false;
    }
    let mut i: usize = 0;
    while i < a.len()
        invariant
            i <= a.len(),
            a.len() == b.len(),
            forall|j: int| 0 <= j < i ==> a@[j] == b@[j],
        decreases a.len() - i,
    {
        if a[i] != b[i] {
            return false;
        }
        i += 1;
    }
    assert(a@ =~= b@);
    true
}

// ---------------------------------------------------------------------------
// Trimming
// ---------------------------------------------------------------------------

/// The sets of characters that the library trims.
#[derive(Clone, Copy, Debug)]
pub enum CharClass {
    /// Unicode white space.
    Whitespace,
    /// Carriage return and line feed.
    LineBreak,
    /// The space character alone.
    Space,
    /// The underscore alone.
    Underscore,
}

impl CharClass {
    /// The character belongs to the class.
    pub open spec fn has(self, c: char) -> bool {
        match self {
            CharClass::Whitespace => is_whitespace(c),
            CharClass::LineBreak => c == '\r' || c == '\n',
            CharClass::Space => c == ' ',
            CharClass::Underscore => c == '_',
        }
    }

    /// Whether a character belongs to the class.
    pub fn holds(self, c: char) -> (r: bool)
        ensures
            r == self.has(c),
    {
        match self {
            CharClass::Whitespace => char_is_whitespace(c),
            CharClass::LineBreak => c == '\r' || c == '\n',
            CharClass::Space => c == ' ',
            CharClass::Underscore => c == '_',
        }
    }
}

/// The first index at or after `i` whose character is outside `k`.
pub open spec fn skip_class(s: Seq<char>, k: CharClass, i: int) -> int
    decreases s.len() - i,
{
    if 0 <= i < s.len() && k.has(s[i]) {
        skip_class(s, k, i + 1)
    } else {
        i
    }
}

/// The end of the text before the run of characters of `k` that ends at `j`.
pub open spec fn back_class(s: Seq<char>, k: CharClass, j: int) -> int
    decreases j,
{
    if 0 < j <= s.len() && k.has(s[j - 1]) {
        back_class(s, k, j - 1)
    } else {
        j
    }
}

/// A text without the characters of a class at its beginning.
pub open spec fn trimmed_start(s: Seq<char>, k: CharClass) -> Seq<char> {
    s.subrange(skip_class(s, k, 0), s.len() as int)
}

/// A text without the characters of a class at its end.
pub open spec fn trimmed_end(s: Seq<char>, k: CharClass) -> Seq<char> {
    s.subrange(0, back_class(s, k, s.len() as int))
}

/// A text without the characters of a class at its ends.
pub open spec fn trimmed(s: Seq<char>, k: CharClass) -> Seq<char> {
    trimmed_end(trimmed_start(s, k), k)
}

/// `str::trim`.
pub open spec fn trim_ws(s: Seq<char>) -> Seq<char> {
    trimmed(s, CharClass::Whitespace)
}

/// A text with nothing but white space in it.
pub open spec fn is_blank(s: Seq<char>) -> bool {
    trim_ws(s).len() == 0
}

/// Skipping stops at the first character outside the class, or at the end.
pub proof fn lemma_skip_class_bounds(s: Seq<char>, k: CharClass, i: int)
    requires
        0 <= i <= s.len(),
    ensures
        i <= skip_class(s, k, i) <= s.len(),
        forall|j: int| i <= j < skip_class(s, k, i) ==> k.has(s[j]),
        skip_class(s, k, i) < s.len() ==> !k.has(s[skip_class(s, k, i)]),
    decreases s.len() - i,
{
    if i < s.len() && k.has(s[i]) {
        lemma_skip_class_bounds(s, k, i + 1);
    }
}

/// Going back stops behind the last character outside the class, or at the
/// beginning.
pub proof fn lemma_back_class_bounds(s: Seq<char>, k: CharClass, j: int)
    requires
        0 <= j <= s.len(),
    ensures
        0 <= back_class(s, k, j) <= j,
        forall|i: int| back_class(s, k, j) <= i < j ==> k.has(s[i]),
        back_class(s, k, j) > 0 ==> !k.has(s[back_class(s, k, j) - 1]),
    decreases j,
{
    if 0 < j && k.has(s[j - 1]) {
        lemma_back_class_bounds(s, k, j - 1);
    }
}

/// The index at which `trimmed_start` begins.
pub fn leading(s: &Vec<char>, k: CharClass) -> (i: usize)
    ensures
        i == skip_class(s@, k, 0),
        i <= s.len(),
{
    let mut i: usize = 0;
    while i < s.len() && k.holds(s[i])
        invariant
            i <= s.len(),
            skip_class(s@, k, 0) == skip_class(s@, k, i as int),
        decreases s.len() - i,
    {
        i += 1;
    }
    i
}

/// The index at which `trimmed_end` ends.
pub fn trailing(s: &Vec<char>, k: CharClass) -> (j: usize)
    ensures
        j == back_class(s@, k, s.len() as int),
        j <= s.len(),
{
    let mut j: usize = s.len();
    while j > 0 && k.holds(s[j - 1])
        invariant
            j <= s.len(),
            back_class(s@, k, s.len() as int) == back_class(s@, k, j as int),
        decreases j,
    {
        j -= 1;
    }
    j
}

/// A text without the characters of a class at its beginning.
pub fn trim_start_by(s: &Vec<char>, k: CharClass) -> (r: Vec<char>)
    ensures
        r@ == trimmed_start(s@, k),
{
    let i = leading(s, k);
    slice(s, i, s.len())
}

/// A text without the characters of a class at its end.
pub fn trim_end_by(s: &Vec<char>, k: CharClass) -> (r: Vec<char>)
    ensures
        r@ == trimmed_end(s@, k),
{
    let j = trailing(s, k);
    slice(s, 0, j)
}

/// A text without the characters of a class at its ends.
pub fn trim_by(s: &Vec<char>, k: CharClass) -> (r: Vec<char>)
    ensures
        r@ == trimmed(s@, k),
{
    let a = trim_start_by(s, k);
    trim_end_by(&a, k)
}

/// A text without white space at its ends.
pub fn trim(s: &Vec<char>) -> (r: Vec<char>)
    ensures
        r@ == trim_ws(s@),
{
    trim_by(s, CharClass::Whitespace)
}

/// Whether a text holds nothing but white space.
pub fn blank(s: &Vec<char>) -> (r: bool)
    ensures
        r == is_blank(s@),
{
    let t = trim(s);
    t.len() == 0
}

// ---------------------------------------------------------------------------
// Searching
// ---------------------------------------------------------------------------

/// `needle` stands in `hay` at index `i`.
pub open spec fn occurs_at(hay: Seq<char>, needle: Seq<char>, i: int) -> bool {
    0 <= i && i + needle.len() <= hay.len() && hay.subrange(i, i + needle.len()) == needle
}

/// `str::contains` for a text pattern.
pub open spec fn contains_seq(hay: Seq<char>, needle: Seq<char>) -> bool {
    exists|i: int| occurs_at(hay, needle, i)
}

/// `str::starts_with`.
pub open spec fn starts_with(s: Seq<char>, prefix: Seq<char>) -> bool {
    occurs_at(s, prefix, 0)
}

/// `str::ends_with`.
pub open spec fn ends_with(s: Seq<char>, suffix: Seq<char>) -> bool {
    occurs_at(s, suffix, s.len() - suffix.len())
}

/// Whether `needle` stands in `hay` at index `i`.
pub fn matches_at(hay: &Vec<char>, needle: &Vec<char>, i: usize) -> (r: bool)
    ensures
        r == occurs_at(hay@, needle@, i as int),
{
    if i > hay.len() || needle.len() > hay.len() - i {
        return false;
    }
    let mut j: usize = 0;
    while j < needle.len()
        invariant
            j <= needle.len(),
            i + needle.len() <= hay.len(),
            forall|t: int| 0 <= t < j ==> hay@[i + t] == needle@[t],
        decreases needle.len() - j,
    {
        if hay[i + j] != needle[j] {
            assert(hay@.subrange(i as int, i + needle.len())[j as int] != needle@[j as int]);
            return false;
        }
        j += 1;
    }
    assert(hay@.subrange(i as int, i + needle.len()) =~= needle@);
    true
}

/// Whether a text begins with another.
pub fn has_prefix(s: &Vec<char>, prefix: &Vec<char>) -> (r: bool)
    ensures
        r == starts_with(s@, prefix@),
{
    matches_at(s, prefix, 0)
}

/// Whether a text begins with another.
pub fn has_prefix_str(s: &Vec<char>, prefix: &str) -> (r: bool)
    ensures
        r == starts_with(s@, prefix@),
{
    let p = chars_of(prefix);
    matches_at(s, &p, 0)
}

/// Whether a text ends with another.
pub fn has_suffix(s: &Vec<char>, suffix: &Vec<char>) -> (r: bool)
    ensures
        r == ends_with(s@, suffix@),
{
    if suffix.len() > s.len() {
        return false;
    }
    matches_at(s, suffix, s.len() - suffix.len())
}

/// Whether a text ends with another.
pub fn has_suffix_str(s: &Vec<char>, suffix: &str) -> (r: bool)
    ensures
        r == ends_with(s@, suffix@),
{
    let p = chars_of(suffix);
    has_suffix(s, &p)
}

/// The first index at or after `from` at which `needle` stands in `hay`.
pub fn find_from(hay: &Vec<char>, needle: &Vec<char>, from: usize) -> (r: Option<usize>)
    ensures
        match r {
            Some(i) => from <= i && occurs_at(hay@, needle@, i as int) && forall|j: int|
                from <= j < i ==> !occurs_at(hay@, needle@, j),
            None => forall|j: int| from <= j ==> !occurs_at(hay@, needle@, j),
        },
{
    if from > hay.len() || needle.len() > hay.len() - from {
        return None;
    }
    let last: usize = hay.len() - needle.len();
    let mut i: usize = from;
    loop
        invariant
            from <= i <= last,
            last == hay.len() - needle.len(),
            forall|j: int| from <= j < i ==> !occurs_at(hay@, needle@, j),
        decreases last - i,
    {
        if matches_at(hay, needle, i) {
            return Some(i);
        }
        if i == last {
            return None;
        }
        i += 1;
    }
}

/// Whether `needle` stands somewhere in `hay`.
pub fn contains(hay: &Vec<char>, needle: &Vec<char>) -> (r: bool)
    ensures
        r == contains_seq(hay@, needle@),
{
    match find_from(hay, needle, 0) {
        Some(_) => true,
        None => false,
    }
}

/// The first index at or after `i` that holds `c`, or the length.
pub open spec fn index_of_char(s: Seq<char>, c: char, i: int) -> int
    decreases s.len() - i,
{
    if 0 <= i < s.len() && s[i] != c {
        index_of_char(s, c, i + 1)
    } else {
        i
    }
}

/// The index found is that of the first occurrence, or the end.
pub proof fn lemma_index_of_char(s: Seq<char>, c: char, i: int)
    requires
        0 <= i <= s.len(),
    ensures
        i <= index_of_char(s, c, i) <= s.len(),
        forall|j: int| i <= j < index_of_char(s, c, i) ==> s[j] != c,
        index_of_char(s, c, i) < s.len() ==> s[index_of_char(s, c, i)] == c,
    decreases s.len() - i,
{
    if i < s.len() && s[i] != c {
        lemma_index_of_char(s, c, i + 1);
    }
}

/// The index of the first occurrence of a character from `from` on, or the
/// length of the text.
pub fn find_char(s: &Vec<char>, c: char, from: usize) -> (r: usize)
    requires
        from <= s.len(),
    ensures
        r == index_of_char(s@, c, from as int),
        from <= r <= s.len(),
{
    let mut i: usize = from;
    while i < s.len() && s[i] != c
        invariant
            from <= i <= s.len(),
            index_of_char(s@, c, from as int) == index_of_char(s@, c, i as int),
        decreases s.len() - i,
    {
        i += 1;
    }
    i
}

// ---------------------------------------------------------------------------
// Replacing
// ---------------------------------------------------------------------------

/// `s[i..]` with every occurrence of `from` replaced by `to`, the occurrences
/// taken from left to right without overlap.
pub open spec fn replaced_from(s: Seq<char>, from: Seq<char>, to: Seq<char>, i: int) -> Seq<char>
    decreases s.len() - i,
{
    if i < 0 || i >= s.len() || from.len() == 0 {
        seq![]
    } else if occurs_at(s, from, i) {
        to + replaced_from(s, from, to, i + from.len())
    } else {
        seq![s[i]] + replaced_from(s, from, to, i + 1)
    }
}

/// `str::replace` for a pattern that is not empty.
pub open spec fn replaced(s: Seq<char>, from: Seq<char>, to: Seq<char>) -> Seq<char> {
    replaced_from(s, from, to, 0)
}

/// A text with every occurrence of `from` replaced by `to`, from left to
/// right.
pub fn replace(s: &Vec<char>, from: &Vec<char>, to: &Vec<char>) -> (r: Vec<char>)
    requires
        from.len() > 0,
    ensures
        r@ == replaced(s@, from@, to@),
{
    let mut r: Vec<char> = Vec::new();
    let mut i: usize = 0;
    while i < s.len()
        invariant
            i <= s.len(),
            from.len() > 0,
            replaced(s@, from@, to@) == r@ + replaced_from(s@, from@, to@, i as int),
        decreases s.len() - i,
    {
        let ghost before = r@;
        if matches_at(s, from, i) {
            extend(&mut r, to);
            i += from.len();
            assert(r@ + replaced_from(s@, from@, to@, i as int) =~= before + (to@ + replaced_from(
                s@,
                from@,
                to@,
                i as int,
            )));
        } else {
            r.push(s[i]);
            i += 1;
            assert(r@ + replaced_from(s@, from@, to@, i as int) =~= before + (seq![s@[i - 1]]
                + replaced_from(s@, from@, to@, i as int)));
        }
    }
    assert(r@ + Seq::<char>::empty() =~= r@);
    r
}

/// A text with every occurrence of `from` replaced by `to`, from left to
/// right.
pub fn replace_str(s: &Vec<char>, from: &str, to: &str) -> (r: Vec<char>)
    requires
        from@.len() > 0,
    ensures
        r@ == replaced(s@, from@, to@),
{
    let f = chars_of(from);
    let t = chars_of(to);
    replace(s, &f, &t)
}

// ---------------------------------------------------------------------------
// Lines and words
// ---------------------------------------------------------------------------

/// A line without the carriage return at its end, if it has one.
pub open spec fn without_cr(line: Seq<char>) -> Seq<char> {
    if line.len() > 0 && line.last() == '\r' {
        line.drop_last()
    } else {
        line
    }
}

/// The lines of `s` from the line that starts at `start`, read from `i` on.
pub open spec fn lines_scan(s: Seq<char>, start: int, i: int) -> Seq<Seq<char>>
    decreases s.len() - i,
{
    if i < 0 || start < 0 || start > i {
        seq![]
    } else if i >= s.len() {
        if start < s.len() {
            seq![s.subrange(start, s.len() as int)]
        } else {
            seq![]
        }
    } else if s[i] == '\n' {
        seq![without_cr(s.subrange(start, i))] + lines_scan(s, i + 1, i + 1)
    } else {
        lines_scan(s, start, i + 1)
    }
}

/// `str::lines`: the text split at line feeds, each line without its line
/// ending (`\n` or `\r\n`); a last line that is empty is left out.
pub open spec fn lines_of(s: Seq<char>) -> Seq<Seq<char>> {
    lines_scan(s, 0, 0)
}

/// The lines of a text, without what ends them.
pub fn lines(s: &Vec<char>) -> (out: Vec<Vec<char>>)
    ensures
        vec_views(out@) == lines_of(s@),
{
    let mut out: Vec<Vec<char>> = Vec::new();
    let mut start: usize = 0;
    let mut i: usize = 0;
    while i < s.len()
        invariant
            start <= i <= s.len(),
            lines_of(s@) == vec_views(out@) + lines_scan(s@, start as int, i as int),
        decreases s.len() - i,
    {
        if s[i] == '\n' {
            let ghost before = vec_views(out@);
            let end: usize = if i > start && s[i - 1] == '\r' {
                i - 1
            } else {
                i
            };
            let line = slice(s, start, end);
            assert(line@ =~= without_cr(s@.subrange(start as int, i as int)));
            out.push(line);
            assert(vec_views(out@) =~= before.push(line@));
            i += 1;
            start = i;
            assert(vec_views(out@) + lines_scan(s@, start as int, i as int) =~= before + (seq![
                line@,
            ] + lines_scan(s@, start as int, i as int)));
        } else {
            i += 1;
        }
    }
    if start < s.len() {
        let ghost before = vec_views(out@);
        let line = slice(s, start, s.len());
        out.push(line);
        assert(vec_views(out@) =~= before + seq![line@]);
    } else {
        assert(vec_views(out@) + Seq::<Seq<char>>::empty() =~= vec_views(out@));
    }
    out
}

/// The pieces of `s` from the piece that starts at `start`, read from `i` on,
/// each with the line feed that ends it.
pub open spec fn pieces_scan(s: Seq<char>, start: int, i: int) -> Seq<Seq<char>>
    decreases s.len() - i,
{
    if i < 0 || start < 0 || start > i {
        seq![]
    } else if i >= s.len() {
        if start < s.len() {
            seq![s.subrange(start, s.len() as int)]
        } else {
            seq![]
        }
    } else if s[i] == '\n' {
        seq![s.subrange(start, i + 1)] + pieces_scan(s, i + 1, i + 1)
    } else {
        pieces_scan(s, start, i + 1)
    }
}

/// `str::split_inclusive('\n')`: the text cut after every line feed.
pub open spec fn line_pieces(s: Seq<char>) -> Seq<Seq<char>> {
    pieces_scan(s, 0, 0)
}

/// The words of `s` from the word that starts at `start` (or from none where
/// `start` is `i`), read from `i` on.
pub open spec fn words_scan(s: Seq<char>, start: int, i: int) -> Seq<Seq<char>>
    decreases s.len() - i,
{
    if i < 0 || start < 0 || start > i {
        seq![]
    } else if i >= s.len() {
        if start < s.len() {
            seq![s.subrange(start, s.len() as int)]
        } else {
            seq![]
        }
    } else if is_whitespace(s[i]) {
        if start < i {
            seq![s.subrange(start, i)] + words_scan(s, i + 1, i + 1)
        } else {
            words_scan(s, i + 1, i + 1)
        }
    } else {
        words_scan(s, start, i + 1)
    }
}

/// `str::split_whitespace`: the maximal runs of characters that are not
/// white space.
pub open spec fn words_of(s: Seq<char>) -> Seq<Seq<char>> {
    words_scan(s, 0, 0)
}

/// The words of a text: what stands between white space.
pub fn words(s: &Vec<char>) -> (out: Vec<Vec<char>>)
    ensures
        vec_views(out@) == words_of(s@),
{
    let mut out: Vec<Vec<char>> = Vec::new();
    let mut start: usize = 0;
    let mut i: usize = 0;
    while i < s.len()
        invariant
            start <= i <= s.len(),
            words_of(s@) == vec_views(out@) + words_scan(s@, start as int, i as int),
        decreases s.len() - i,
    {
        if char_is_whitespace(s[i]) {
            if start < i {
                let ghost before = vec_views(out@);
                let word = slice(s, start, i);
                out.push(word);
                assert(vec_views(out@) =~= before.push(word@));
                i += 1;
                start = i;
                assert(vec_views(out@) + words_scan(s@, start as int, i as int) =~= before + (seq![
                    word@,
                ] + words_scan(s@, start as int, i as int)));
            } else {
                i += 1;
                start = i;
            }
        } else {
            i += 1;
        }
    }
    if start < s.len() {
        let ghost before = vec_views(out@);
        let word = slice(s, start, s.len());
        out.push(word);
        assert(vec_views(out@) =~= before + seq![word@]);
    } else {
        assert(vec_views(out@) + Seq::<Seq<char>>::empty() =~= vec_views(out@));
    }
    out
}

// ---------------------------------------------------------------------------
// Numbers
// ---------------------------------------------------------------------------

/// The character of a digit.
pub open spec fn digit_char(d: int) -> char {
    (('0' as u32) + d) as char
}

/// The decimal numeral of `n`.
pub open spec fn decimal(n: nat) -> Seq<char>
    decreases n,
{
    if n < 10 {
        seq![digit_char(n as int)]
    } else {
        decimal(n / 10).push(digit_char((n % 10) as int))
    }
}

/// Appends a number in decimal.
pub fn push_decimal(out: &mut Vec<char>, n: usize)
    ensures
        final(out)@ == old(out)@ + decimal(n as nat),
    decreases n,
{
    if n >= 10 {
        push_decimal(out, n / 10);
    }
    let d: u8 = (n % 10) as u8;
    let c: char = (48u8 + d) as char;
    assert(c == digit_char((n % 10) as int));
    let ghost before = out@;
    out.push(c);
    if n < 10 {
        assert(out@ =~= old(out)@ + decimal(n as nat));
    } else {
        assert(out@ =~= old(out)@ + decimal(n as nat));
    }
}

/// The decimal numeral of `n`, with a zero in front where `n` is below ten.
pub open spec fn decimal2(n: nat) -> Seq<char> {
    if n < 10 {
        seq!['0'] + decimal(n)
    } else {
        decimal(n)
    }
}

/// `count` copies of `unit`, one after the other.
pub open spec fn repeated(unit: Seq<char>, count: nat) -> Seq<char>
    decreases count,
{
    if count == 0 {
        seq![]
    } else {
        repeated(unit, (count - 1) as nat) + unit
    }
}

/// A text repeated a number of times.
pub fn repeat(unit: &Vec<char>, count: usize) -> (r: Vec<char>)
    ensures
        r@ == repeated(unit@, count as nat),
{
    let mut r: Vec<char> = Vec::new();
    let mut i: usize = 0;
    while i < count
        invariant
            i <= count,
            r@ == repeated(unit@, i as nat),
        decreases count - i,
    {
        extend(&mut r, unit);
        i += 1;
    }
    r
}

/// Whether two strings hold the same text.
pub fn str_is(a: &str, b: &str) -> (r: bool)
    ensures
        r == (a@ == b@),
{
    same(&chars_of(a), &chars_of(b))
}

/// What `str::to_lowercase` makes of a text: its lower case by the rules of
/// Unicode.
pub uninterp spec fn unicode_lower(s: Seq<char>) -> Seq<char>;

/// The text in lower case, as `str::to_lowercase` gives it. The result is a
/// function of the text alone; the contract names it and says no more.
#[verifier::external_body]
pub(crate) fn to_lowercase(s: &str) -> (r: String)
    ensures
        r@ == unicode_lower(s@),
{
    s.to_lowercase()
}

} // verus!
