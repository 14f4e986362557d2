//! Paths of documents, as text.
//!
//! A path is read with `/` as its separator. Empty pieces and `.` count for
//! nothing; `..` leaves the directory entered last.

use vstd::prelude::*;
use crate::text::{extend, same, slice, vec_views};

verus! {

/// The pieces of `s` between the separators, from the piece that starts at
/// `start`, read from `i` on: `str::split`.
pub open spec fn split_scan(s: Seq<char>, sep: char, start: int, i: int) -> Seq<Seq<char>>
    decreases s.len() - i,
{
    if i < 0 || start < 0 || start > i {
        seq![]
    } else if i >= s.len() {
        seq![s.subrange(start, s.len() as int)]
    } else if s[i] == sep {
        seq![s.subrange(start, i)] + split_scan(s, sep, i + 1, i + 1)
    } else {
        split_scan(s, sep, start, i + 1)
    }
}

/// The pieces of `s` between the separators; one more than there are
/// separators.
pub open spec fn split_on(s: Seq<char>, sep: char) -> Seq<Seq<char>> {
    split_scan(s, sep, 0, 0)
}

/// The pieces of a text between the occurrences of a separator.
pub fn split(s: &Vec<char>, sep: char) -> (out: Vec<Vec<char>>)
    ensures
        vec_views(out@) == split_on(s@, sep),
{
    let mut out: Vec<Vec<char>> = Vec::new();
    let mut start: usize = 0;
    let mut i: usize = 0;
    assert(vec_views(out@) =~= Seq::<Seq<char>>::empty());
    while i < s.len()
        invariant
            start <= i <= s.len(),
            split_on(s@, sep) == vec_views(out@) + split_scan(s@, sep, start as int, i as int),
        decreases s.len() - i,
    {
        if s[i] == sep {
            let ghost before = vec_views(out@);
            let piece = slice(s, start, i);
            out.push(piece);
            assert(vec_views(out@) =~= before.push(piece@));
            i += 1;
            start = i;
            assert(vec_views(out@) + split_scan(s@, sep, start as int, i as int) =~= before + (seq![
                piece@,
            ] + split_scan(s@, sep, start as int, i as int)));
        } else {
            i += 1;
        }
    }
    let ghost before = vec_views(out@);
    let piece = slice(s, start, s.len());
    out.push(piece);
    assert(vec_views(out@) =~= before + seq![piece@]);
    out
}

/// A piece that names something: neither empty nor `.`.
pub open spec fn names_something(piece: Seq<char>) -> bool {
    piece.len() > 0 && piece != seq!['.']
}

/// The pieces of a list that name something, in order.
pub open spec fn naming(pieces: Seq<Seq<char>>) -> Seq<Seq<char>>
    decreases pieces.len(),
{
    if pieces.len() == 0 {
        seq![]
    } else if names_something(pieces.last()) {
        naming(pieces.drop_last()).push(pieces.last())
    } else {
        naming(pieces.drop_last())
    }
}

/// The components of a path: its pieces that name something, `..` among them.
pub open spec fn components(path: Seq<char>) -> Seq<Seq<char>> {
    naming(split_on(path, '/'))
}

/// The path begins at the root.
pub open spec fn rooted(path: Seq<char>) -> bool {
    path.len() > 0 && path[0] == '/'
}

/// The segments after one more component.
pub open spec fn entered(segments: Seq<Seq<char>>, rooted: bool, piece: Seq<char>) -> Seq<
    Seq<char>,
> {
    if piece == seq!['.', '.'] {
        if segments.len() > 0 && segments.last() != seq!['.', '.'] {
            segments.drop_last()
        } else if !rooted {
            segments.push(piece)
        } else {
            segments
        }
    } else {
        segments.push(piece)
    }
}

/// The segments to which a list of components leads: every `..` undoes the
/// segment before it; where there is none to undo it stays, unless the path
/// begins at the root.
pub open spec fn resolved(parts: Seq<Seq<char>>, rooted: bool) -> Seq<Seq<char>>
    decreases parts.len(),
{
    if parts.len() == 0 {
        seq![]
    } else {
        entered(resolved(parts.drop_last(), rooted), rooted, parts.last())
    }
}

/// The components of the directory in which the file of a path lies: all
/// components but the last.
pub open spec fn dir_components(path: Seq<char>) -> Seq<Seq<char>> {
    let c = components(path);
    if c.len() == 0 {
        c
    } else {
        c.drop_last()
    }
}

/// The directory in which the file of a path lies begins at the root.
pub open spec fn dir_rooted(path: Seq<char>) -> bool {
    rooted(path) && components(path).len() > 0
}

/// The length of the longest common beginning of two lists, counted from `i`.
pub open spec fn common_from(a: Seq<Seq<char>>, b: Seq<Seq<char>>, i: int) -> int
    decreases a.len() - i,
{
    if 0 <= i < a.len() && i < b.len() && a[i] == b[i] {
        common_from(a, b, i + 1)
    } else {
        i
    }
}

/// `segments` joined by `/`.
pub open spec fn joined(segments: Seq<Seq<char>>) -> Seq<char>
    decreases segments.len(),
{
    if segments.len() == 0 {
        seq![]
    } else if segments.len() == 1 {
        segments[0]
    } else {
        joined(segments.drop_last()) + seq!['/'] + segments.last()
    }
}

/// `count` times `..`.
pub open spec fn ups(count: nat) -> Seq<Seq<char>> {
    Seq::new(count, |i: int| seq!['.', '.'])
}

/// The segments that lead from the directory `from` to `to`: up out of what
/// the two do not share, then down; `.` where nothing is left.
pub open spec fn relative_segments(from: Seq<Seq<char>>, to: Seq<Seq<char>>) -> Seq<Seq<char>> {
    let common = common_from(from, to, 0);
    let rel = ups((from.len() - common) as nat) + to.subrange(common, to.len() as int);
    if rel.len() == 0 {
        seq![seq!['.']]
    } else {
        rel
    }
}

fn is_dotdot(piece: &Vec<char>) -> (r: bool)
    ensures
        r == (piece@ == seq!['.', '.']),
{
    let r = piece.len() == 2 && piece[0] == '.' && piece[1] == '.';
    if r {
        assert(piece@ =~= seq!['.', '.']);
    }
    r
}

/// The components of a path.
pub fn components_of(path: &Vec<char>) -> (out: Vec<Vec<char>>)
    ensures
        vec_views(out@) == components(path@),
{
    let pieces = split(path, '/');
    let mut out: Vec<Vec<char>> = Vec::new();
    let mut i: usize = 0;
    assert(vec_views(out@) =~= Seq::<Seq<char>>::empty());
    assert(vec_views(pieces@).take(0) =~= Seq::<Seq<char>>::empty());
    while i < pieces.len()
        invariant
            i <= pieces.len(),
            vec_views(out@) == naming(vec_views(pieces@).take(i as int)),
        decreases pieces.len() - i,
    {
        let ghost before = vec_views(out@);
        let ghost next = vec_views(pieces@).take(i + 1);
        assert(next.drop_last() =~= vec_views(pieces@).take(i as int));
        assert(next.last() == pieces@[i as int]@);
        let p = &pieces[i];
        let dot = p.len() == 1 && p[0] == '.';
        if dot {
            assert(p@ =~= seq!['.']);
        }
        if p.len() > 0 && !dot {
            out.push(slice(p, 0, p.len()));
            assert(p@.subrange(0, p@.len() as int) =~= p@);
            assert(vec_views(out@) =~= before.push(p@));
        }
        i += 1;
    }
    assert(vec_views(pieces@).take(pieces.len() as int) =~= vec_views(pieces@));
    out
}

/// Follows the first `count` components of `parts` from no segments at all.
pub fn resolve(parts: &Vec<Vec<char>>, count: usize, rooted: bool) -> (out: Vec<Vec<char>>)
    requires
        count <= parts.len(),
    ensures
        vec_views(out@) == resolved(vec_views(parts@).take(count as int), rooted),
{
    let mut out: Vec<Vec<char>> = Vec::new();
    assert(vec_views(out@) =~= Seq::<Seq<char>>::empty());
    resolve_into(&mut out, parts, count, rooted);
    proof {
        lemma_resolved_onto_nothing(vec_views(parts@).take(count as int), rooted);
    }
    out
}

/// The segments to which components lead from segments already entered.
pub open spec fn resolved_onto(base: Seq<Seq<char>>, parts: Seq<Seq<char>>, rooted: bool) -> Seq<
    Seq<char>,
>
    decreases parts.len(),
{
    if parts.len() == 0 {
        base
    } else {
        entered(resolved_onto(base, parts.drop_last(), rooted), rooted, parts.last())
    }
}

/// Resolving from nothing is resolving.
pub proof fn lemma_resolved_onto_nothing(parts: Seq<Seq<char>>, rooted: bool)
    ensures
        resolved_onto(seq![], parts, rooted) == resolved(parts, rooted),
    decreases parts.len(),
{
    if parts.len() > 0 {
        lemma_resolved_onto_nothing(parts.drop_last(), rooted);
    }
}

/// Resolving two lists one after the other is resolving their concatenation.
pub proof fn lemma_resolved_concat(a: Seq<Seq<char>>, b: Seq<Seq<char>>, rooted: bool)
    ensures
        resolved_onto(resolved(a, rooted), b, rooted) == resolved(a + b, rooted),
    decreases b.len(),
{
    if b.len() == 0 {
        assert(a + b =~= a);
    } else {
        assert((a + b).drop_last() =~= a + b.drop_last());
        assert((a + b).last() == b.last());
        lemma_resolved_concat(a, b.drop_last(), rooted);
    }
}

/// Follows the first `count` components of `parts` from the segments in `out`.
pub fn resolve_into(out: &mut Vec<Vec<char>>, parts: &Vec<Vec<char>>, count: usize, rooted: bool)
    requires
        count <= parts.len(),
    ensures
        vec_views(final(out)@) == resolved_onto(
            vec_views(old(out)@),
            vec_views(parts@).take(count as int),
            rooted,
        ),
{
    let mut i: usize = 0;
    let ghost base = vec_views(out@);
    let ghost all = vec_views(parts@).take(count as int);
    assert(all.take(0) =~= Seq::<Seq<char>>::empty());
    while i < count
        invariant
            i <= count <= parts.len(),
            all == vec_views(parts@).take(count as int),
            vec_views(out@) == resolved_onto(base, all.take(i as int), rooted),
        decreases count - i,
    {
        let ghost before = vec_views(out@);
        let ghost next = all.take(i + 1);
        assert(next.drop_last() =~= all.take(i as int));
        assert(next.last() == parts@[i as int]@);
        let p = &parts[i];
        if is_dotdot(p) {
            let n = out.len();
            if n > 0 && !is_dotdot(&out[n - 1]) {
                assert(before.last() == out@[n - 1]@);
                out.pop();
                assert(vec_views(out@) =~= before.drop_last());
            } else if !rooted {
                if n > 0 {
                    assert(before.last() == out@[n - 1]@);
                }
                out.push(slice(p, 0, p.len()));
                assert(p@.subrange(0, p@.len() as int) =~= p@);
                assert(vec_views(out@) =~= before.push(p@));
            } else {
                if n > 0 {
                    assert(before.last() == out@[n - 1]@);
                }
            }
        } else {
            out.push(slice(p, 0, p.len()));
            assert(p@.subrange(0, p@.len() as int) =~= p@);
            assert(vec_views(out@) =~= before.push(p@));
        }
        i += 1;
    }
    assert(all.take(count as int) =~= all);
}

/// Joins segments by `/`.
pub fn join(segments: &Vec<Vec<char>>) -> (out: Vec<char>)
    ensures
        out@ == joined(vec_views(segments@)),
{
    let mut out: Vec<char> = Vec::new();
    let mut i: usize = 0;
    assert(vec_views(segments@).take(0) =~= Seq::<Seq<char>>::empty());
    while i < segments.len()
        invariant
            i <= segments.len(),
            out@ == joined(vec_views(segments@).take(i as int)),
        decreases segments.len() - i,
    {
        let ghost next = vec_views(segments@).take(i + 1);
        assert(next.drop_last() =~= vec_views(segments@).take(i as int));
        assert(next.last() == segments@[i as int]@);
        if i > 0 {
            out.push('/');
        } else {
            assert(next[0] == segments@[0]@);
            assert(out@ + segments@[0]@ =~= segments@[0]@);
        }
        extend(&mut out, &segments[i]);
        i += 1;
    }
    assert(vec_views(segments@).take(segments.len() as int) =~= vec_views(segments@));
    out
}

/// The segments that lead from the directory `from` to `to`.
pub fn relative(from: &Vec<Vec<char>>, to: &Vec<Vec<char>>) -> (out: Vec<Vec<char>>)
    ensures
        vec_views(out@) == relative_segments(vec_views(from@), vec_views(to@)),
{
    let ghost a = vec_views(from@);
    let ghost b = vec_views(to@);
    let mut common: usize = 0;
    while common < from.len() && common < to.len() && same(&from[common], &to[common])
        invariant
            common <= from.len(),
            common <= to.len(),
            a == vec_views(from@),
            b == vec_views(to@),
            common_from(a, b, 0) == common_from(a, b, common as int),
        decreases from.len() - common,
    {
        assert(a[common as int] == from@[common as int]@);
        assert(b[common as int] == to@[common as int]@);
        common += 1;
    }
    assert(common < from.len() && common < to.len() ==> a[common as int] == from@[common as int]@
        && b[common as int] == to@[common as int]@);
    let mut out: Vec<Vec<char>> = Vec::new();
    let mut i: usize = common;
    while i < from.len()
        invariant
            common <= i <= from.len(),
            vec_views(out@) == ups((i - common) as nat),
        decreases from.len() - i,
    {
        let ghost before = vec_views(out@);
        let mut up: Vec<char> = Vec::new();
        up.push('.');
        up.push('.');
        assert(up@ =~= seq!['.', '.']);
        out.push(up);
        assert(vec_views(out@) =~= before.push(up@));
        i += 1;
        assert(before.push(up@) =~= ups((i - common) as nat));
    }
    let mut j: usize = common;
    while j < to.len()
        invariant
            common <= j <= to.len(),
            b == vec_views(to@),
            vec_views(out@) == ups((from.len() - common) as nat) + b.subrange(
                common as int,
                j as int,
            ),
        decreases to.len() - j,
    {
        let ghost before = vec_views(out@);
        let p = &to[j];
        out.push(slice(p, 0, p.len()));
        assert(p@.subrange(0, p@.len() as int) =~= p@);
        assert(vec_views(out@) =~= before.push(p@));
        assert(b[j as int] == p@);
        j += 1;
        assert(before.push(p@) =~= ups((from.len() - common) as nat) + b.subrange(
            common as int,
            j as int,
        ));
    }
    if out.len() == 0 {
        let mut dot: Vec<char> = Vec::new();
        dot.push('.');
        assert(dot@ =~= seq!['.']);
        out.push(dot);
        assert(vec_views(out@) =~= seq![seq!['.']]);
    }
    out
}

/// The last component of a path, if it names a file: `Path::file_name`.
pub open spec fn file_name_of(path: Seq<char>) -> Option<Seq<char>> {
    let c = components(path);
    if c.len() == 0 || c.last() == seq!['.', '.'] {
        None
    } else {
        Some(c.last())
    }
}

/// The last component of a path, if it names a file.
pub fn file_name(path: &Vec<char>) -> (r: Option<Vec<char>>)
    ensures
        match r {
            Some(name) => file_name_of(path@) == Some(name@),
            None => file_name_of(path@).is_none(),
        },
{
    let c = components_of(path);
    let n = c.len();
    if n == 0 {
        return None;
    }
    assert(vec_views(c@).last() == c@[n - 1]@);
    if is_dotdot(&c[n - 1]) {
        None
    } else {
        let p = &c[n - 1];
        let name = slice(p, 0, p.len());
        assert(p@.subrange(0, p@.len() as int) =~= p@);
        Some(name)
    }
}

} // verus!
