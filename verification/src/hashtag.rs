//! Tags in running text.
//!
//! A tag is a `#` followed by one or more tag characters (ASCII letters and
//! digits, `-`, `_`), as many as follow. Its name is what follows the `#`, in
//! lower case.

use vstd::prelude::*;
use crate::query::{is_tag_char, tag_char};
use crate::text::{
    chars_of, lowercase, lowered, slice, string_of, strings_of, vec_views, str_views,
};

verus! {

/// The end of the run of tag characters that begins at `i`.
pub open spec fn tag_end(s: Seq<char>, i: int) -> int
    decreases s.len() - i,
{
    if 0 <= i < s.len() && is_tag_char(s[i]) {
        tag_end(s, i + 1)
    } else {
        i
    }
}

/// A tag begins at `i`.
pub open spec fn tag_starts(s: Seq<char>, i: int) -> bool {
    0 <= i && i + 1 < s.len() && s[i] == '#' && is_tag_char(s[i + 1])
}

/// The tag that begins at `j` reaches over index `i`.
pub open spec fn covers(s: Seq<char>, j: int, i: int) -> bool {
    0 <= j <= i && tag_starts(s, j) && i < tag_end(s, j + 1)
}

/// The character at `i` belongs to a tag.
pub open spec fn in_tag(s: Seq<char>, i: int) -> bool {
    exists|j: int| covers(s, j, i)
}

/// The characters from `i` on that belong to no tag, in order.
pub open spec fn outside_tags_from(s: Seq<char>, i: int) -> Seq<char>
    decreases s.len() - i,
{
    if i < 0 || i >= s.len() {
        seq![]
    } else if in_tag(s, i) {
        outside_tags_from(s, i + 1)
    } else {
        seq![s[i]] + outside_tags_from(s, i + 1)
    }
}

/// The text without its tags: every character that belongs to no tag, in
/// order.
pub open spec fn outside_tags(s: Seq<char>) -> Seq<char> {
    outside_tags_from(s, 0)
}

/// The name of the tag that begins at `i`.
pub open spec fn tag_name_at(s: Seq<char>, i: int) -> Seq<char> {
    lowered(s.subrange(i + 1, tag_end(s, i + 1)))
}

/// The names of the tags that begin at `i` or later, in order.
pub open spec fn tag_names_from(s: Seq<char>, i: int) -> Seq<Seq<char>>
    decreases s.len() - i,
{
    if i < 0 || i >= s.len() {
        seq![]
    } else if tag_starts(s, i) {
        seq![tag_name_at(s, i)] + tag_names_from(s, i + 1)
    } else {
        tag_names_from(s, i + 1)
    }
}

/// The names of the tags of a text, in order, each as often as it stands
/// there.
pub open spec fn tag_names(s: Seq<char>) -> Seq<Seq<char>> {
    tag_names_from(s, 0)
}

/// No tag that begins before `i` reaches `i`.
pub open spec fn clear_at(s: Seq<char>, i: int) -> bool {
    forall|j: int| 0 <= j < i && #[trigger] tag_starts(s, j) ==> tag_end(s, j + 1) <= i
}

/// A run of tag characters ends within the text, holds tag characters only,
/// and is followed by none.
pub proof fn lemma_tag_end(s: Seq<char>, i: int)
    requires
        0 <= i <= s.len(),
    ensures
        i <= tag_end(s, i) <= s.len(),
        forall|k: int| i <= k < tag_end(s, i) ==> is_tag_char(#[trigger] s[k]),
        tag_end(s, i) < s.len() ==> !is_tag_char(s[tag_end(s, i)]),
    decreases s.len() - i,
{
    if i < s.len() && is_tag_char(s[i]) {
        lemma_tag_end(s, i + 1);
    }
}

/// Between the `#` of a tag and the tag's end nothing is kept and no other
/// tag begins.
proof fn lemma_skip_tag(s: Seq<char>, i: int, k: int)
    requires
        tag_starts(s, i),
        i <= k <= tag_end(s, i + 1),
    ensures
        outside_tags_from(s, k) == outside_tags_from(s, tag_end(s, i + 1)),
        i < k ==> tag_names_from(s, k) == tag_names_from(s, tag_end(s, i + 1)),
    decreases tag_end(s, i + 1) - k,
{
    lemma_tag_end(s, i + 1);
    if k < tag_end(s, i + 1) {
        assert(covers(s, i, k));
        lemma_skip_tag(s, i, k + 1);
        if i < k {
            assert(is_tag_char(s[k]));
        }
    }
}

proof fn lemma_clear_after_tag(s: Seq<char>, i: int)
    requires
        clear_at(s, i),
        tag_starts(s, i),
    ensures
        clear_at(s, tag_end(s, i + 1)),
{
    lemma_tag_end(s, i + 1);
    let e = tag_end(s, i + 1);
    assert forall|j: int| 0 <= j < e && #[trigger] tag_starts(s, j) implies tag_end(s, j + 1)
        <= e by {
        if j > i {
            assert(is_tag_char(s[j]));
        }
    }
}

proof fn lemma_clear_not_in_tag(s: Seq<char>, i: int)
    requires
        clear_at(s, i),
        0 <= i < s.len(),
        !tag_starts(s, i),
    ensures
        !in_tag(s, i),
        clear_at(s, i + 1),
{
    assert forall|j: int| !covers(s, j, i) by {
        if 0 <= j < i && tag_starts(s, j) {
            assert(tag_end(s, j + 1) <= i);
        }
    }
}

/// The index after the tag that begins at `i`.
fn end_of_tag(s: &Vec<char>, i: usize) -> (e: usize)
    requires
        tag_starts(s@, i as int),
    ensures
        e == tag_end(s@, i + 1),
        i + 1 < e <= s.len(),
{
    assert(i + 1 < s.len());
    let mut e: usize = i + 1;
    while e < s.len() && tag_char(s[e])
        invariant
            i + 1 <= e <= s.len(),
            tag_end(s@, i + 1) == tag_end(s@, e as int),
        decreases s.len() - e,
    {
        e += 1;
    }
    proof {
        lemma_tag_end(s@, i + 1);
    }
    e
}

fn starts_tag(s: &Vec<char>, i: usize) -> (r: bool)
    requires
        i < s.len(),
    ensures
        r == tag_starts(s@, i as int),
{
    s[i] == '#' && i + 1 < s.len() && tag_char(s[i + 1])
}

/// The names of the tags of `s`.
pub fn tags_in(s: &Vec<char>) -> (out: Vec<Vec<char>>)
    ensures
        vec_views(out@) == tag_names(s@),
{
    let mut out: Vec<Vec<char>> = Vec::new();
    let mut i: usize = 0;
    assert(vec_views(out@) =~= Seq::<Seq<char>>::empty());
    while i < s.len()
        invariant
            i <= s.len(),
            tag_names(s@) == vec_views(out@) + tag_names_from(s@, i as int),
        decreases s.len() - i,
    {
        if starts_tag(s, i) {
            let e = end_of_tag(s, i);
            let name = lowercase(&slice(s, i + 1, e));
            let ghost before = vec_views(out@);
            out.push(name);
            proof {
                lemma_skip_tag(s@, i as int, i + 1);
                assert(vec_views(out@) =~= before.push(name@));
                assert(vec_views(out@) + tag_names_from(s@, e as int) =~= before + (seq![
                    tag_name_at(s@, i as int),
                ] + tag_names_from(s@, i + 1)));
            }
            i = e;
        } else {
            i += 1;
        }
    }
    assert(vec_views(out@) + Seq::<Seq<char>>::empty() =~= vec_views(out@));
    out
}

/// The text of `s` outside its tags.
pub fn without_tags(s: &Vec<char>) -> (out: Vec<char>)
    ensures
        out@ == outside_tags(s@),
{
    let mut out: Vec<char> = Vec::new();
    let mut i: usize = 0;
    while i < s.len()
        invariant
            i <= s.len(),
            clear_at(s@, i as int),
            outside_tags(s@) == out@ + outside_tags_from(s@, i as int),
        decreases s.len() - i,
    {
        if starts_tag(s, i) {
            let e = end_of_tag(s, i);
            proof {
                lemma_skip_tag(s@, i as int, i as int);
                lemma_clear_after_tag(s@, i as int);
            }
            i = e;
        } else {
            let ghost before = out@;
            proof {
                lemma_clear_not_in_tag(s@, i as int);
            }
            out.push(s[i]);
            assert(out@ + outside_tags_from(s@, i + 1) =~= before + (seq![s@[i as int]]
                + outside_tags_from(s@, i + 1)));
            i += 1;
        }
    }
    assert(out@ + Seq::<char>::empty() =~= out@);
    out
}

/// The names of the tags of `text`, in the order in which they stand there.
pub fn extract_tags(text: &str) -> (tags: Vec<String>)
    ensures
        str_views(tags@) == tag_names(text@),
{
    let s = chars_of(text);
    let names = tags_in(&s);
    strings_of(&names)
}

/// `text` without its tags. Nothing but the tags is lost: what is returned
/// is every character of `text` that belongs to no tag, in order, white
/// space included.
pub fn strip_tags(text: &str) -> (clean: String)
    ensures
        clean@ == outside_tags(text@),
{
    let s = chars_of(text);
    let bare = without_tags(&s);
    string_of(&bare)
}

} // verus!
