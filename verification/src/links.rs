//! Destinations of links and images, and how they are rewritten so that they
//! still lead to the same file from another place.

use vstd::prelude::*;
use regex::Regex;
use crate::offsets::{byte_range, char_index, char_index_of, slice_bytes};
use crate::paths::{
    components, components_of, dir_components, dir_rooted, join, joined, lemma_resolved_concat,
    relative, relative_segments, resolve, resolve_into, resolved,
};
use crate::text::{
    char_is_ascii_alpha, char_is_whitespace, chars_of, extend, extend_str, is_ascii_alpha,
    is_whitespace, replace_str, replaced, slice, string_of, vec_views,
};

verus! {

// ---------------------------------------------------------------------------
// Destinations
// ---------------------------------------------------------------------------

/// A character that may stand in a URI scheme after its first letter.
pub open spec fn is_scheme_char(c: char) -> bool {
    ('a' <= c && c <= 'z') || ('A' <= c && c <= 'Z') || ('0' <= c && c <= '9') || c == '+' || c
        == '-' || c == '.'
}

/// From `i` on, scheme characters lead to a colon.
pub open spec fn scheme_ends(s: Seq<char>, i: int) -> bool
    decreases s.len() - i,
{
    if i < 0 || i >= s.len() {
        false
    } else if s[i] == ':' {
        true
    } else if is_scheme_char(s[i]) {
        scheme_ends(s, i + 1)
    } else {
        false
    }
}

/// The text begins with a URI scheme: a letter, then letters, digits, `+`,
/// `-` or `.`, then a colon.
pub open spec fn has_scheme(target: Seq<char>) -> bool {
    target.len() > 0 && is_ascii_alpha(target[0]) && scheme_ends(target, 1)
}

/// Whether a target begins with a URI scheme.
pub fn has_uri_scheme(target: &Vec<char>) -> (r: bool)
    ensures
        r == has_scheme(target@),
{
    if target.len() == 0 || !char_is_ascii_alpha(target[0]) {
        return false;
    }
    let mut i: usize = 1;
    while i < target.len()
        invariant
            1 <= i <= target.len(),
            is_ascii_alpha(target@[0]),
            scheme_ends(target@, 1) == scheme_ends(target@, i as int),
        decreases target.len() - i,
    {
        let c = target[i];
        if c == ':' {
            return true;
        }
        let ok = ('a' <= c && c <= 'z') || ('A' <= c && c <= 'Z') || ('0' <= c && c <= '9') || c
            == '+' || c == '-' || c == '.';
        if !ok {
            return false;
        }
        i += 1;
    }
    false
}

/// The first index at or after `i` that holds `?` or `#`, or the length.
pub open spec fn suffix_start(s: Seq<char>, i: int) -> int
    decreases s.len() - i,
{
    if 0 <= i < s.len() && s[i] != '?' && s[i] != '#' {
        suffix_start(s, i + 1)
    } else {
        i
    }
}

/// Cuts a destination before its query or fragment.
pub fn split_target_suffix(target: &Vec<char>) -> (r: (Vec<char>, Vec<char>))
    ensures
        r.0@ == target@.subrange(0, suffix_start(target@, 0)),
        r.1@ == target@.subrange(suffix_start(target@, 0), target@.len() as int),
        0 <= suffix_start(target@, 0) <= target@.len(),
{
    let mut i: usize = 0;
    while i < target.len() && target[i] != '?' && target[i] != '#'
        invariant
            i <= target.len(),
            suffix_start(target@, 0) == suffix_start(target@, i as int),
        decreases target.len() - i,
    {
        i += 1;
    }
    (slice(target, 0, i), slice(target, i, target.len()))
}

/// A destination that is left as it is: an empty one, one that is only a
/// fragment or a query, an absolute path, or one with a scheme.
pub open spec fn stays(target: Seq<char>) -> bool {
    target.len() == 0 || target[0] == '#' || target[0] == '?' || target[0] == '/' || target[0]
        == '\\' || has_scheme(target)
}

/// The destination as it must read in the output file to lead where it led
/// in the source file. Where no output file is given, or the destination
/// stays, it is unchanged. Else its path is taken from the source file's
/// directory and written relative to the output file's directory; a query or
/// fragment behind it is kept.
pub open spec fn rewritten_target(
    target: Seq<char>,
    source: Seq<char>,
    output: Option<Seq<char>>,
) -> Seq<char> {
    match output {
        None => target,
        Some(out) => {
            let cut = suffix_start(target, 0);
            let path_part = target.subrange(0, cut);
            let suffix = target.subrange(cut, target.len() as int);
            if stays(target) || path_part.len() == 0 || dir_rooted(source) != dir_rooted(out) {
                target
            } else {
                let to = resolved(
                    dir_components(source) + components(path_part),
                    dir_rooted(source),
                );
                let from = resolved(dir_components(out), dir_rooted(out));
                replaced(joined(relative_segments(from, to)), seq!['\\'], seq!['/']) + suffix
            }
        },
    }
}

fn dir_is_rooted(path: &Vec<char>, parts: &Vec<Vec<char>>) -> (r: bool)
    requires
        vec_views(parts@) == components(path@),
    ensures
        r == dir_rooted(path@),
{
    path.len() > 0 && path[0] == '/' && parts.len() > 0
}

fn dir_count(parts: &Vec<Vec<char>>) -> (n: usize)
    ensures
        n <= parts.len(),
        n == (if parts.len() == 0 {
            0
        } else {
            parts.len() - 1
        }),
{
    if parts.len() == 0 {
        0
    } else {
        parts.len() - 1
    }
}

/// Rewrites a destination: see [`rewritten_target`].
pub fn rewrite_target(target: &Vec<char>, source_file: &Vec<char>, output_file: Option<&Vec<char>>) -> (r: Vec<char>)
    ensures
        r@ == rewritten_target(
            target@,
            source_file@,
            match output_file {
                Some(o) => Some(o@),
                None => None,
            },
        ),
{
    let output = match output_file {
        Some(o) => o,
        None => {
            let r = slice(target, 0, target.len());
            assert(r@ =~= target@);
            return r;
        },
    };
    let (path_part, suffix) = split_target_suffix(target);
    let keep = target.len() == 0 || target[0] == '#' || target[0] == '?' || target[0] == '/'
        || target[0] == '\\' || has_uri_scheme(target) || path_part.len() == 0;
    let source_parts = components_of(source_file);
    let output_parts = components_of(output);
    let source_rooted = dir_is_rooted(source_file, &source_parts);
    let output_rooted = dir_is_rooted(output, &output_parts);
    if keep || source_rooted != output_rooted {
        let r = slice(target, 0, target.len());
        assert(r@ =~= target@);
        return r;
    }
    let target_parts = components_of(&path_part);
    let ghost sv = vec_views(source_parts@);
    let ghost ov = vec_views(output_parts@);
    let ghost tv = vec_views(target_parts@);
    let sn = dir_count(&source_parts);
    let on = dir_count(&output_parts);
    assert(sv.take(sn as int) =~= dir_components(source_file@));
    assert(ov.take(on as int) =~= dir_components(output@));
    let mut to = resolve(&source_parts, sn, source_rooted);
    resolve_into(&mut to, &target_parts, target_parts.len(), source_rooted);
    proof {
        assert(tv.take(target_parts.len() as int) =~= tv);
        lemma_resolved_concat(dir_components(source_file@), tv, source_rooted);
    }
    let from = resolve(&output_parts, on, output_rooted);
    let rel = relative(&from, &to);
    let text = join(&rel);
    proof {
        reveal_strlit("\\");
        reveal_strlit("/");
        assert("\\"@ =~= seq!['\\']);
        assert("/"@ =~= seq!['/']);
    }
    let mut r = replace_str(&text, "\\", "/");
    extend(&mut r, &suffix);
    r
}

/// Rewrites the destination of a link or an image so that it leads from
/// `output_file` where it led from `source_file`: see [`rewritten_target`].
pub fn rewrite_link_target(target: &str, source_file: &str, output_file: Option<&str>) -> (r: String)
    ensures
        r@ == rewritten_target(
            target@,
            source_file@,
            match output_file {
                Some(o) => Some(o@),
                None => None,
            },
        ),
{
    let t = chars_of(target);
    let s = chars_of(source_file);
    match output_file {
        Some(o) => {
            let ov = chars_of(o);
            string_of(&rewrite_target(&t, &s, Some(&ov)))
        },
        None => string_of(&rewrite_target(&t, &s, None)),
    }
}

/// What closes a link or an image in markdown: the destination in
/// parentheses, with the title in quotes behind it where there is one.
pub open spec fn link_tail(destination: Seq<char>, title: Seq<char>) -> Seq<char> {
    if title.len() == 0 {
        "]("@ + destination + ")"@
    } else {
        "]("@ + destination + " \""@ + replaced(title, "\""@, "\\\""@) + "\")"@
    }
}

/// What follows the label of a link or image: the destination, and the title
/// where there is one.
pub fn link_or_image_tail(destination: &Vec<char>, title: &Vec<char>) -> (r: Vec<char>)
    ensures
        r@ == link_tail(destination@, title@),
{
    let mut r = chars_of("](");
    extend(&mut r, destination);
    if title.len() == 0 {
        extend_str(&mut r, ")");
    } else {
        extend_str(&mut r, " \"");
        proof {
            reveal_strlit("\"");
        }
        let escaped = replace_str(title, "\"", "\\\"");
        extend(&mut r, &escaped);
        extend_str(&mut r, "\")");
    }
    r
}

// ---------------------------------------------------------------------------
// Destinations in markdown text
// ---------------------------------------------------------------------------

/// The end of the destination that begins at `i`: the first closing
/// parenthesis or white space, or the end of the text.
pub open spec fn destination_end(s: Seq<char>, i: int) -> int
    decreases s.len() - i,
{
    if 0 <= i < s.len() && s[i] != ')' && !is_whitespace(s[i]) {
        destination_end(s, i + 1)
    } else {
        i
    }
}

/// A destination ends within the text.
pub proof fn lemma_destination_end(s: Seq<char>, i: int)
    requires
        0 <= i <= s.len(),
    ensures
        i <= destination_end(s, i) <= s.len(),
    decreases s.len() - i,
{
    if i < s.len() && s[i] != ')' && !is_whitespace(s[i]) {
        lemma_destination_end(s, i + 1);
    }
}

/// A destination begins behind `](` at `i`.
pub open spec fn opens_destination(s: Seq<char>, i: int) -> bool {
    0 <= i && i + 1 < s.len() && s[i] == ']' && s[i + 1] == '('
}

/// Markdown text from `i` on, with every destination that stands behind `](`
/// rewritten.
pub open spec fn markdown_rewritten_from(
    s: Seq<char>,
    i: int,
    source: Seq<char>,
    output: Option<Seq<char>>,
) -> Seq<char>
    decreases s.len() - i,
{
    if i < 0 || i >= s.len() {
        seq![]
    } else if opens_destination(s, i) {
        let e = destination_end(s, i + 2);
        proof {
            lemma_destination_end(s, i + 2);
        }
        seq![']', '('] + rewritten_target(s.subrange(i + 2, e), source, output)
            + markdown_rewritten_from(s, e, source, output)
    } else {
        seq![s[i]] + markdown_rewritten_from(s, i + 1, source, output)
    }
}

/// Markdown text with the destinations of its inline links and images
/// rewritten; everything else is kept.
pub open spec fn markdown_rewritten(s: Seq<char>, source: Seq<char>, output: Option<Seq<char>>) -> Seq<
    char,
> {
    markdown_rewritten_from(s, 0, source, output)
}

/// The view of a text that may be missing.
pub open spec fn opt_view(o: Option<&Vec<char>>) -> Option<Seq<char>> {
    match o {
        Some(v) => Some(v@),
        None => None,
    }
}

/// Rewrites the destinations of the inline links and images of markdown
/// text: see [`markdown_rewritten`].
pub fn rewrite_markdown_targets(
    text: &Vec<char>,
    source_file: &Vec<char>,
    output_file: Option<&Vec<char>>,
) -> (r: Vec<char>)
    ensures
        r@ == markdown_rewritten(text@, source_file@, opt_view(output_file)),
{
    let ghost src = source_file@;
    let ghost out = opt_view(output_file);
    let mut r: Vec<char> = Vec::new();
    let mut i: usize = 0;
    while i < text.len()
        invariant
            i <= text.len(),
            src == source_file@,
            out == opt_view(output_file),
            markdown_rewritten(text@, src, out) == r@ + markdown_rewritten_from(
                text@,
                i as int,
                src,
                out,
            ),
        decreases text.len() - i,
    {
        let ghost before = r@;
        if text[i] == ']' && i + 1 < text.len() && text[i + 1] == '(' {
            let mut e: usize = i + 2;
            while e < text.len() && text[e] != ')' && !char_is_whitespace(text[e])
                invariant
                    i + 2 <= e <= text.len(),
                    destination_end(text@, i + 2) == destination_end(text@, e as int),
                decreases text.len() - e,
            {
                e += 1;
            }
            let dest = slice(text, i + 2, e);
            let new_dest = rewrite_target(&dest, source_file, output_file);
            r.push(']');
            r.push('(');
            extend(&mut r, &new_dest);
            assert(r@ + markdown_rewritten_from(text@, e as int, src, out) =~= before + (seq![
                ']',
                '(',
            ] + new_dest@ + markdown_rewritten_from(text@, e as int, src, out)));
            i = e;
        } else {
            r.push(text[i]);
            assert(r@ + markdown_rewritten_from(text@, i + 1, src, out) =~= before + (seq![
                text@[i as int],
            ] + markdown_rewritten_from(text@, i + 1, src, out)));
            i += 1;
        }
    }
    assert(r@ + Seq::<char>::empty() =~= r@);
    r
}

// ---------------------------------------------------------------------------
// Destinations in HTML attributes
// ---------------------------------------------------------------------------

/// The span of one group of a match, in bytes, if the group took part.
pub type GroupSpan = Option<(usize, usize)>;

/// The matches that the `regex` crate finds for a pattern in a text, one
/// after the other without overlap: for each match the byte span of every
/// group, the whole match first. `None` where the pattern is no regular
/// expression.
pub uninterp spec fn regex_captures(pattern: Seq<char>, text: Seq<char>) -> Option<
    Seq<Seq<Option<(int, int)>>>,
>;

/// The view of the span of a group.
pub open spec fn span_view(g: GroupSpan) -> Option<(int, int)> {
    match g {
        Some((a, b)) => Some((a as int, b as int)),
        None => None,
    }
}

/// The views of the groups of one match.
pub open spec fn match_view(m: Seq<GroupSpan>) -> Seq<Option<(int, int)>> {
    Seq::new(m.len(), |i: int| span_view(m[i]))
}

/// The views of all matches.
pub open spec fn matches_view(ms: Seq<Vec<GroupSpan>>) -> Seq<Seq<Option<(int, int)>>> {
    Seq::new(ms.len(), |i: int| match_view(ms[i]@))
}

/// The view of what a search gave, if the pattern could be used.
pub open spec fn captures_view(r: Option<Vec<Vec<GroupSpan>>>) -> Option<
    Seq<Seq<Option<(int, int)>>>,
> {
    match r {
        Some(ms) => Some(matches_view(ms@)),
        None => None,
    }
}

/// Finds all matches of a pattern with `regex::Regex::captures_iter` and
/// hands out, for each match, the byte span of every group. What comes back
/// is a function of pattern and text alone; the contract names it and says
/// no more.
#[verifier::external_body]
fn find_captures(pattern: &str, text: &str) -> (r: Option<Vec<Vec<GroupSpan>>>)
    ensures
        captures_view(r) == regex_captures(pattern@, text@),
{
    let re = Regex::new(pattern).ok()?;
    Some(
        re.captures_iter(text).map(
            |c| c.iter().map(|g| g.map(|m| (m.start(), m.end()))).collect(),
        ).collect(),
    )
}

/// The byte at which a span begins.
pub open spec fn first_of(g: Option<(int, int)>) -> int {
    match g {
        Some((a, _)) => a,
        None => 0,
    }
}

/// The byte before which a span ends.
pub open spec fn last_of(g: Option<(int, int)>) -> int {
    match g {
        Some((_, b)) => b,
        None => 0,
    }
}

/// An attribute match that can be rewritten at `at`: the whole match, the

/// attribute's name and its value are there, in this order, within the text
/// that is left.
pub open spec fn usable(m: Seq<Option<(int, int)>>, s: Seq<char>, at: int) -> bool {
    &&& m.len() >= 3
    &&& m[0] is Some
    &&& m[1] is Some
    &&& m[2] is Some
    &&& at <= char_index(s, first_of(m[0]))
    &&& char_index(s, first_of(m[0])) <= char_index(s, last_of(m[0]))
}

/// The text from character `at` on with the matches from `k` on replaced:
/// each by the attribute's name, `=`, and the rewritten value between quotes.
pub open spec fn attrs_rewritten_from(
    s: Seq<char>,
    ms: Seq<Seq<Option<(int, int)>>>,
    k: int,
    at: int,
    quote: char,
    source: Seq<char>,
    output: Option<Seq<char>>,
) -> Seq<char>
    decreases ms.len() - k,
{
    if k < 0 || k >= ms.len() {
        if 0 <= at <= s.len() {
            s.subrange(at, s.len() as int)
        } else {
            seq![]
        }
    } else if usable(ms[k], s, at) && 0 <= at {
        let m = ms[k];
        let start = char_index(s, first_of(m[0]));
        let end = char_index(s, last_of(m[0]));
        s.subrange(at, start) + byte_range(s, first_of(m[1]), last_of(m[1])) + seq!['=', quote]
            + rewritten_target(byte_range(s, first_of(m[2]), last_of(m[2])), source, output)
            + seq![quote]
            + attrs_rewritten_from(s, ms, k + 1, end, quote, source, output)
    } else {
        attrs_rewritten_from(s, ms, k + 1, at, quote, source, output)
    }
}

/// Rewrites the values of attributes that were found in `text`: each match
/// becomes the attribute's name, `=`, and the rewritten value between
/// quotes; what lies between the matches is kept.
pub fn rewrite_attr_values(
    text: &Vec<char>,
    found: &Vec<Vec<GroupSpan>>,
    quote: char,
    source_file: &Vec<char>,
    output_file: Option<&Vec<char>>,
) -> (r: Vec<char>)
    ensures
        r@ == attrs_rewritten_from(
            text@,
            matches_view(found@),
            0,
            0,
            quote,
            source_file@,
            opt_view(output_file),
        ),
{
    let ghost ms = matches_view(found@);
    let ghost src = source_file@;
    let ghost out = opt_view(output_file);
    let mut r: Vec<char> = Vec::new();
    let mut at: usize = 0;
    let mut k: usize = 0;
    while k < found.len()
        invariant
            k <= found.len(),
            at <= text.len(),
            ms == matches_view(found@),
            src == source_file@,
            out == opt_view(output_file),
            attrs_rewritten_from(text@, ms, 0, 0, quote, src, out) == r@ + attrs_rewritten_from(
                text@,
                ms,
                k as int,
                at as int,
                quote,
                src,
                out,
            ),
        decreases found.len() - k,
    {
        let m = &found[k];
        assert(ms[k as int] == match_view(m@));
        let mut done = false;
        if m.len() >= 3 {
            assert(match_view(m@)[0] == span_view(m@[0]));
            assert(match_view(m@)[1] == span_view(m@[1]));
            assert(match_view(m@)[2] == span_view(m@[2]));
            match (m[0], m[1], m[2]) {
                (Some(whole), Some(name), Some(value)) => {
                    let start = char_index_of(text, whole.0);
                    let end = char_index_of(text, whole.1);
                    if at <= start && start <= end {
                        let ghost before = r@;
                        let gap = slice(text, at, start);
                        let attr = slice_bytes(text, name.0, name.1);
                        let dest = slice_bytes(text, value.0, value.1);
                        let new_dest = rewrite_target(&dest, source_file, output_file);
                        extend(&mut r, &gap);
                        extend(&mut r, &attr);
                        r.push('=');
                        r.push(quote);
                        extend(&mut r, &new_dest);
                        r.push(quote);
                        assert(r@ + attrs_rewritten_from(
                            text@,
                            ms,
                            k + 1,
                            end as int,
                            quote,
                            src,
                            out,
                        ) =~= before + (gap@ + attr@ + seq!['=', quote] + new_dest@ + seq![quote]
                            + attrs_rewritten_from(text@, ms, k + 1, end as int, quote, src, out)));
                        at = end;
                        done = true;
                    }
                },
                _ => {},
            }
        }
        assert(!done ==> !usable(ms[k as int], text@, at as int));
        k += 1;
    }
    let ghost before = r@;
    let rest = slice(text, at, text.len());
    extend(&mut r, &rest);
    r
}

/// The pattern of an attribute `src` or `href` with a value in double quotes.
pub open spec fn double_quoted() -> Seq<char> {
    "(?i)\\b(src|href)\\s*=\\s*\"([^\"]+)\""@
}

/// The pattern of an attribute `src` or `href` with a value in single quotes.
pub open spec fn single_quoted() -> Seq<char> {
    "(?i)\\b(src|href)\\s*=\\s*'([^']+)'"@
}

/// One pass over the text: the attributes that `found` lists are rewritten;
/// where nothing was found the text is kept.
pub open spec fn attrs_pass(
    s: Seq<char>,
    found: Option<Seq<Seq<Option<(int, int)>>>>,
    quote: char,
    source: Seq<char>,
    output: Option<Seq<char>>,
) -> Seq<char> {
    match found {
        Some(ms) => attrs_rewritten_from(s, ms, 0, 0, quote, source, output),
        None => s,
    }
}

/// Raw HTML with the values of its `src` and `href` attributes rewritten:
/// first those in double quotes, then those in single quotes.
pub open spec fn html_rewritten(s: Seq<char>, source: Seq<char>, output: Option<Seq<char>>) -> Seq<
    char,
> {
    let first = attrs_pass(s, regex_captures(double_quoted(), s), '"', source, output);
    attrs_pass(first, regex_captures(single_quoted(), first), '\'', source, output)
}

fn rewrite_pass(
    text: &Vec<char>,
    pattern: &str,
    quote: char,
    source_file: &Vec<char>,
    output_file: Option<&Vec<char>>,
) -> (r: Vec<char>)
    ensures
        r@ == attrs_pass(
            text@,
            regex_captures(pattern@, text@),
            quote,
            source_file@,
            opt_view(output_file),
        ),
{
    let s = string_of(text);
    match find_captures(pattern, s.as_str()) {
        Some(found) => rewrite_attr_values(text, &found, quote, source_file, output_file),
        None => {
            let r = slice(text, 0, text.len());
            assert(r@ =~= text@);
            r
        },
    }
}

/// Rewrites the `src` and `href` attributes of raw HTML: see
/// [`html_rewritten`].
pub fn rewrite_html_targets(
    html: &Vec<char>,
    source_file: &Vec<char>,
    output_file: Option<&Vec<char>>,
) -> (r: Vec<char>)
    ensures
        r@ == html_rewritten(html@, source_file@, opt_view(output_file)),
{
    let first = rewrite_pass(
        html,
        "(?i)\\b(src|href)\\s*=\\s*\"([^\"]+)\"",
        '"',
        source_file,
        output_file,
    );
    rewrite_pass(&first, "(?i)\\b(src|href)\\s*=\\s*'([^']+)'", '\'', source_file, output_file)
}

} // verus!
