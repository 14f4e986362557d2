//! Choosing and ordering the fragments of a compilation.

use vstd::prelude::*;
use crate::date::{ymd_before};
use crate::fragment::{fragment_views, payload_text, FragmentView, TaggedContent};
use crate::paths::{components, components_of, file_name, file_name_of, rooted, split, split_on};
use crate::query::{holds, QueryView, TagQuery};
use crate::text::{blank, chars_of, contains, contains_seq, is_blank, same, string_of, vec_views};

verus! {

/// How a compilation is laid out.
#[derive(Debug, Clone, Copy, PartialEq, Eq)]
pub enum CompilationFormat {
    /// By date, undated fragments last.
    Chronological,
    /// By source file.
    Grouped,
}

/// How a date is written in a header of a compilation.
#[derive(Debug, Clone, Copy, PartialEq, Eq)]
pub enum CompilationDateStyle {
    /// The day alone.
    SingleDate,
    /// The day and the sixth day after it.
    WeekRange,
    /// The day and the last day of its month.
    MonthRange,
}

/// Puts compilations together.
pub struct TagCompiler;

// ---------------------------------------------------------------------------
// Filtering
// ---------------------------------------------------------------------------

/// The fragments of which the query holds, in order.
pub open spec fn matching(fs: Seq<FragmentView>, q: QueryView) -> Seq<FragmentView>
    decreases fs.len(),
{
    if fs.len() == 0 {
        seq![]
    } else if holds(q, fs.last().tags.to_set()) {
        matching(fs.drop_last(), q).push(fs.last())
    } else {
        matching(fs.drop_last(), q)
    }
}

/// The candidate repeats what the container says already: the container is
/// the body of a section of the same document, and its text holds the
/// candidate's text, which is not blank, and more.
pub open spec fn contained_in_section(candidate: FragmentView, container: FragmentView) -> bool {
    &&& container.context is Section
    &&& candidate.source_file == container.source_file
    &&& !is_blank(payload_text(candidate.payload))
    &&& payload_text(container.payload).len() > payload_text(candidate.payload).len()
    &&& contains_seq(payload_text(container.payload), payload_text(candidate.payload))
}

/// Some fragment of `kept` contains the candidate.
pub open spec fn subsumed(kept: Seq<FragmentView>, candidate: FragmentView) -> bool {
    exists|i: int| 0 <= i < kept.len() && contained_in_section(candidate, #[trigger] kept[i])
}

/// The fragments that stay when each one that a fragment kept before it
/// contains is dropped.
pub open spec fn deduped(fs: Seq<FragmentView>) -> Seq<FragmentView>
    decreases fs.len(),
{
    if fs.len() == 0 {
        seq![]
    } else {
        let kept = deduped(fs.drop_last());
        if subsumed(kept, fs.last()) {
            kept
        } else {
            kept.push(fs.last())
        }
    }
}

/// What is compiled for a query: the fragments of which it holds, without
/// those that an earlier kept section contains.
pub open spec fn filtered(fs: Seq<FragmentView>, q: QueryView) -> Seq<FragmentView> {
    deduped(matching(fs, q))
}

proof fn lemma_matching(fs: Seq<FragmentView>, q: QueryView)
    ensures
        matching(fs, q).len() <= fs.len(),
        forall|i: int|
            0 <= i < matching(fs, q).len() ==> holds(q, (#[trigger] matching(fs, q)[i]).tags.to_set())
                && fs.contains(matching(fs, q)[i]),
    decreases fs.len(),
{
    if fs.len() > 0 {
        let init = fs.drop_last();
        lemma_matching(init, q);
        let m = matching(fs, q);
        assert forall|i: int| 0 <= i < m.len() implies holds(q, (#[trigger] m[i]).tags.to_set())
            && fs.contains(m[i]) by {
            if i < matching(init, q).len() {
                let x = matching(init, q)[i];
                assert(m[i] == x);
                let j = choose|j: int| 0 <= j < init.len() && init[j] == x;
                assert(fs[j] == x);
            } else {
                assert(m[i] == fs[fs.len() - 1]);
            }
        }
    }
}

proof fn lemma_deduped(fs: Seq<FragmentView>)
    ensures
        deduped(fs).len() <= fs.len(),
        forall|i: int| 0 <= i < deduped(fs).len() ==> fs.contains(#[trigger] deduped(fs)[i]),
    decreases fs.len(),
{
    if fs.len() > 0 {
        let init = fs.drop_last();
        lemma_deduped(init);
        let d = deduped(fs);
        assert forall|i: int| 0 <= i < d.len() implies fs.contains(#[trigger] d[i]) by {
            if i < deduped(init).len() {
                let x = deduped(init)[i];
                assert(d[i] == x);
                let j = choose|j: int| 0 <= j < init.len() && init[j] == x;
                assert(fs[j] == x);
            } else {
                assert(d[i] == fs[fs.len() - 1]);
            }
        }
    }
}

/// Filtering invents nothing: every fragment that is kept was given, and
/// the query holds of its tags.
pub proof fn lemma_filtered_fragments_match(fs: Seq<FragmentView>, q: QueryView)
    ensures
        filtered(fs, q).len() <= fs.len(),
        forall|i: int|
            0 <= i < filtered(fs, q).len() ==> holds(q, (#[trigger] filtered(fs, q)[i]).tags.to_set())
                && fs.contains(filtered(fs, q)[i]),
{
    lemma_matching(fs, q);
    lemma_deduped(matching(fs, q));
    let m = matching(fs, q);
    let r = filtered(fs, q);
    assert forall|i: int| 0 <= i < r.len() implies holds(q, (#[trigger] r[i]).tags.to_set())
        && fs.contains(r[i]) by {
        let j = choose|j: int| 0 <= j < m.len() && m[j] == r[i];
        assert(holds(q, m[j].tags.to_set()));
    }
}

// ---------------------------------------------------------------------------
// Order
// ---------------------------------------------------------------------------

/// `a` comes before `b` in the order of the dictionary, character by
/// character from index `i` on.
pub open spec fn lex_before_from(a: Seq<char>, b: Seq<char>, i: int) -> bool
    decreases a.len() - i,
{
    if i < 0 || i >= b.len() {
        false
    } else if i >= a.len() {
        true
    } else if a[i] != b[i] {
        a[i] < b[i]
    } else {
        lex_before_from(a, b, i + 1)
    }
}

/// `a` comes before `b` in the order of the dictionary.
pub open spec fn lex_before(a: Seq<char>, b: Seq<char>) -> bool {
    lex_before_from(a, b, 0)
}

/// Whether one text comes before another, character by character.
pub fn text_before(a: &Vec<char>, b: &Vec<char>) -> (r: bool)
    ensures
        r == lex_before(a@, b@),
{
    let mut i: usize = 0;
    while i < a.len() && i < b.len() && a[i] == b[i]
        invariant
            i <= a.len(),
            i <= b.len(),
            lex_before(a@, b@) == lex_before_from(a@, b@, i as int),
        decreases a.len() - i,
    {
        i += 1;
    }
    if i >= b.len() {
        false
    } else if i >= a.len() {
        true
    } else {
        a[i] < b[i]
    }
}

/// The rank of a path component: `..` comes before every name.
pub open spec fn component_rank(c: Seq<char>) -> int {
    if c == seq!['.', '.'] {
        2
    } else {
        3
    }
}

/// One component comes before another: by rank, then by the dictionary.
pub open spec fn component_before(a: Seq<char>, b: Seq<char>) -> bool {
    component_rank(a) < component_rank(b) || (component_rank(a) == 3 && component_rank(b) == 3
        && lex_before(a, b))
}

/// One list of components comes before another, compared from index `i`.
pub open spec fn components_before_from(a: Seq<Seq<char>>, b: Seq<Seq<char>>, i: int) -> bool
    decreases a.len() - i,
{
    if i < 0 || i >= b.len() {
        false
    } else if i >= a.len() {
        true
    } else if a[i] != b[i] {
        component_before(a[i], b[i])
    } else {
        components_before_from(a, b, i + 1)
    }
}

/// How a path begins: at the root (0), with `.` (1), or with neither (4).
pub open spec fn path_head(path: Seq<char>) -> int {
    if rooted(path) {
        0
    } else if split_on(path, '/')[0] == seq!['.'] {
        1
    } else {
        4
    }
}

/// One path comes before another, as `std::path::Path` orders them:
/// component by component, the root before `.`, `.` before `..`, `..`
/// before names, names by the dictionary; a path before those that
/// continue it.
pub open spec fn path_before(a: Seq<char>, b: Seq<char>) -> bool {
    let ha = path_head(a);
    let hb = path_head(b);
    let ca = components(a);
    let cb = components(b);
    if ha == hb {
        components_before_from(ca, cb, 0)
    } else if ha == 4 {
        // `a` has no head: its first component, if any, meets the head of `b`
        ca.len() == 0
    } else if hb == 4 {
        cb.len() > 0
    } else {
        ha < hb
    }
}

fn head_of(path: &Vec<char>) -> (h: u8)
    ensures
        h == path_head(path@),
{
    if path.len() > 0 && path[0] == '/' {
        return 0;
    }
    let pieces = split(path, '/');
    proof {
        lemma_split_first(path@, 0, 0);
    }
    assert(vec_views(pieces@)[0] == pieces@[0]@);
    let first = &pieces[0];
    let dot = first.len() == 1 && first[0] == '.';
    if dot {
        assert(first@ =~= seq!['.']);
        1
    } else {
        4
    }
}

/// A split has at least one piece.
proof fn lemma_split_first(s: Seq<char>, start: int, i: int)
    requires
        0 <= start <= i <= s.len(),
    ensures
        crate::paths::split_scan(s, '/', start, i).len() >= 1,
    decreases s.len() - i,
{
    if i < s.len() && s[i] != '/' {
        lemma_split_first(s, start, i + 1);
    }
}

fn is_up(c: &Vec<char>) -> (r: bool)
    ensures
        r == (c@ == seq!['.', '.']),
{
    let r = c.len() == 2 && c[0] == '.' && c[1] == '.';
    if r {
        assert(c@ =~= seq!['.', '.']);
    }
    r
}

fn component_comes_before(a: &Vec<char>, b: &Vec<char>) -> (r: bool)
    ensures
        r == component_before(a@, b@),
{
    let ua = is_up(a);
    let ub = is_up(b);
    if ua {
        !ub
    } else if ub {
        false
    } else {
        text_before(a, b)
    }
}

/// Whether one path comes before another: see [`path_before`].
pub fn path_comes_before(a: &Vec<char>, b: &Vec<char>) -> (r: bool)
    ensures
        r == path_before(a@, b@),
{
    let ha = head_of(a);
    let hb = head_of(b);
    let ca = components_of(a);
    let cb = components_of(b);
    if ha == hb {
        let ghost va = vec_views(ca@);
        let ghost vb = vec_views(cb@);
        let mut i: usize = 0;
        while i < ca.len() && i < cb.len() && same(&ca[i], &cb[i])
            invariant
                i <= ca.len(),
                i <= cb.len(),
                va == vec_views(ca@),
                vb == vec_views(cb@),
                components_before_from(va, vb, 0) == components_before_from(va, vb, i as int),
            decreases ca.len() - i,
        {
            assert(va[i as int] == ca@[i as int]@);
            assert(vb[i as int] == cb@[i as int]@);
            i += 1;
        }
        if i >= cb.len() {
            false
        } else if i >= ca.len() {
            true
        } else {
            assert(va[i as int] == ca@[i as int]@);
            assert(vb[i as int] == cb@[i as int]@);
            component_comes_before(&ca[i], &cb[i])
        }
    } else if ha == 4 {
        ca.len() == 0
    } else if hb == 4 {
        cb.len() > 0
    } else {
        ha < hb
    }
}

/// One fragment comes before another in a chronological compilation: by
/// date, a dated fragment before an undated one, then by source file.
pub open spec fn comes_before(a: FragmentView, b: FragmentView) -> bool {
    match (a.date, b.date) {
        (Some(da), Some(db)) => ymd_before(da, db) || (da == db && path_before(
            a.source_file,
            b.source_file,
        )),
        (Some(_), None) => true,
        (None, Some(_)) => false,
        (None, None) => path_before(a.source_file, b.source_file),
    }
}

/// A list in order with one more fragment, which is put behind every
/// fragment that does not come after it.
pub open spec fn inserted(sorted: Seq<FragmentView>, x: FragmentView) -> Seq<FragmentView>
    decreases sorted.len(),
{
    if sorted.len() == 0 {
        seq![x]
    } else if comes_before(x, sorted.last()) {
        inserted(sorted.drop_last(), x).push(sorted.last())
    } else {
        sorted.push(x)
    }
}

/// The fragments in chronological order; fragments of which none comes
/// before the other keep the order in which they were given.
pub open spec fn chronological(fs: Seq<FragmentView>) -> Seq<FragmentView>
    decreases fs.len(),
{
    if fs.len() == 0 {
        seq![]
    } else {
        inserted(chronological(fs.drop_last()), fs.last())
    }
}

/// Where a fragment is inserted: behind the last fragment, counted from
/// `n` down, that it does not come before.
pub open spec fn insert_index(sorted: Seq<FragmentView>, x: FragmentView, n: int) -> int
    decreases n,
{
    if n <= 0 || n > sorted.len() || !comes_before(x, sorted[n - 1]) {
        n
    } else {
        insert_index(sorted, x, n - 1)
    }
}

/// Inserting by the rule is inserting at the index that the rule finds.
pub proof fn lemma_inserted_at(sorted: Seq<FragmentView>, x: FragmentView)
    ensures
        0 <= insert_index(sorted, x, sorted.len() as int) <= sorted.len(),
        inserted(sorted, x) == sorted.insert(insert_index(sorted, x, sorted.len() as int), x),
    decreases sorted.len(),
{
    if sorted.len() > 0 && comes_before(x, sorted.last()) {
        let init = sorted.drop_last();
        lemma_inserted_at(init, x);
        lemma_insert_index_prefix(sorted, x, init.len() as int);
        let k = insert_index(init, x, init.len() as int);
        assert(init.insert(k, x).push(sorted.last()) =~= sorted.insert(k, x));
    } else {
        assert(sorted.push(x) =~= sorted.insert(sorted.len() as int, x));
    }
}

proof fn lemma_insert_index_prefix(sorted: Seq<FragmentView>, x: FragmentView, n: int)
    requires
        0 <= n < sorted.len(),
    ensures
        insert_index(sorted, x, n) == insert_index(sorted.drop_last(), x, n),
        0 <= insert_index(sorted, x, n) <= n,
    decreases n,
{
    if n > 0 {
        assert(sorted.drop_last()[n - 1] == sorted[n - 1]);
        if comes_before(x, sorted[n - 1]) {
            lemma_insert_index_prefix(sorted, x, n - 1);
        }
    }
}

proof fn lemma_lex_one_way(a: Seq<char>, b: Seq<char>, i: int)
    requires
        0 <= i,
    ensures
        !(lex_before_from(a, b, i) && lex_before_from(b, a, i)),
    decreases a.len() - i,
{
    if i < a.len() && i < b.len() && a[i] == b[i] {
        lemma_lex_one_way(a, b, i + 1);
    }
}

proof fn lemma_components_one_way(a: Seq<Seq<char>>, b: Seq<Seq<char>>, i: int)
    requires
        0 <= i,
    ensures
        !(components_before_from(a, b, i) && components_before_from(b, a, i)),
    decreases a.len() - i,
{
    if i < a.len() && i < b.len() {
        if a[i] == b[i] {
            lemma_components_one_way(a, b, i + 1);
        } else {
            lemma_lex_one_way(a[i], b[i], 0);
        }
    }
}

/// Of two fragments at most one comes before the other.
pub proof fn lemma_comes_before_one_way(a: FragmentView, b: FragmentView)
    ensures
        !(comes_before(a, b) && comes_before(b, a)),
{
    lemma_components_one_way(components(a.source_file), components(b.source_file), 0);
}

/// Ordering loses and invents nothing, and leaves no fragment directly
/// behind one that it comes before.
pub proof fn lemma_chronological_orders(fs: Seq<FragmentView>)
    ensures
        chronological(fs).to_multiset() == fs.to_multiset(),
        chronological(fs).len() == fs.len(),
        forall|i: int, j: int|
            0 <= i && j == i + 1 && j < chronological(fs).len() ==> !comes_before(
                #[trigger] chronological(fs)[j],
                #[trigger] chronological(fs)[i],
            ),
    decreases fs.len(),
{
    if fs.len() == 0 {
        assert(fs =~= chronological(fs));
    } else {
        let init = fs.drop_last();
        let x = fs.last();
        lemma_chronological_orders(init);
        let sorted = chronological(init);
        lemma_inserted_at(sorted, x);
        let k = insert_index(sorted, x, sorted.len() as int);
        let r = sorted.insert(k, x);
        vstd::seq_lib::to_multiset_insert(sorted, k, x);
        assert(fs =~= init.push(x));
        vstd::seq_lib::to_multiset_build(init, x);
        lemma_insert_index_stops(sorted, x, sorted.len() as int);
        assert forall|i: int, j: int| 0 <= i && j == i + 1 && j < r.len() implies !comes_before(
            #[trigger] r[j],
            #[trigger] r[i],
        ) by {
            if j < k {
                assert(r[i] == sorted[i] && r[j] == sorted[j]);
            } else if j == k {
                assert(r[i] == sorted[k - 1] && r[j] == x);
            } else if i == k {
                assert(r[i] == x && r[j] == sorted[k]);
                lemma_comes_before_one_way(x, sorted[k]);
            } else {
                assert(r[i] == sorted[i - 1] && r[j] == sorted[j - 1]);
            }
        }

    }
}

/// Where the search for the place of a fragment stops: before the place
/// stands a fragment that it does not come before, behind it only fragments
/// that it comes before.
proof fn lemma_insert_index_stops(sorted: Seq<FragmentView>, x: FragmentView, n: int)
    requires
        0 <= n <= sorted.len(),
    ensures
        ({
            let k = insert_index(sorted, x, n);
            &&& 0 <= k <= n
            &&& k > 0 ==> !comes_before(x, sorted[k - 1])
            &&& forall|j: int| k <= j < n ==> comes_before(x, #[trigger] sorted[j])
        }),
    decreases n,
{
    if n > 0 && comes_before(x, sorted[n - 1]) {
        lemma_insert_index_stops(sorted, x, n - 1);
    }
}

fn fragment_comes_before(a: &TaggedContent, b: &TaggedContent) -> (r: bool)
    ensures
        r == comes_before(a@, b@),
{
    match (&a.date, &b.date) {
        (Some(da), Some(db)) => {
            if da.is_before(db) {
                true
            } else if da.same_day(db) {
                path_comes_before(
                    &chars_of(a.source_file.as_str()),
                    &chars_of(b.source_file.as_str()),
                )
            } else {
                false
            }
        },
        (Some(_), None) => true,
        (None, Some(_)) => false,
        (None, None) => path_comes_before(
            &chars_of(a.source_file.as_str()),
            &chars_of(b.source_file.as_str()),
        ),
    }
}

// ---------------------------------------------------------------------------
// Groups
// ---------------------------------------------------------------------------

/// The name under which a source file is shown: its file name, or `unknown`
/// where it has none.
pub open spec fn shown_name(path: Seq<char>) -> Seq<char> {
    match file_name_of(path) {
        Some(name) => name,
        None => "unknown"@,
    }
}

/// The fragments of one source file's name.
pub ghost struct GroupView {
    pub name: Seq<char>,
    pub items: Seq<FragmentView>,
}

/// Groups in the order of their names with one more fragment: it joins the
/// group of its name, or opens one in the right place.
pub open spec fn joined_group(groups: Seq<GroupView>, f: FragmentView) -> Seq<GroupView>
    decreases groups.len(),
{
    let name = shown_name(f.source_file);
    if groups.len() == 0 {
        seq![GroupView { name, items: seq![f] }]
    } else {
        let last = groups.last();
        if last.name == name {
            groups.drop_last().push(GroupView { name, items: last.items.push(f) })
        } else if lex_before(last.name, name) {
            groups.push(GroupView { name, items: seq![f] })
        } else {
            joined_group(groups.drop_last(), f).push(last)
        }
    }
}

/// The fragments grouped by the name of their source file: the groups in
/// the order of the names, the fragments of each group in the order given.
pub open spec fn grouped(fs: Seq<FragmentView>) -> Seq<GroupView>
    decreases fs.len(),
{
    if fs.len() == 0 {
        seq![]
    } else {
        joined_group(grouped(fs.drop_last()), fs.last())
    }
}

/// The view of a group: the name of its file and its fragments.
pub open spec fn group_view(g: (String, Vec<TaggedContent>)) -> GroupView {
    GroupView { name: g.0@, items: fragment_views(g.1@) }
}

/// The views of a list of groups.
pub open spec fn group_views(v: Seq<(String, Vec<TaggedContent>)>) -> Seq<GroupView> {
    Seq::new(v.len(), |i: int| group_view(v[i]))
}

/// Where a fragment joins: the index of the group of its name, or the index
/// at which a group for it is opened, found from `n` down.
pub open spec fn group_index(groups: Seq<GroupView>, name: Seq<char>, n: int) -> int
    decreases n,
{
    if n <= 0 || n > groups.len() || groups[n - 1].name == name || lex_before(
        groups[n - 1].name,
        name,
    ) {
        n
    } else {
        group_index(groups, name, n - 1)
    }
}

/// The fragment joins the group before index `k`.
pub open spec fn joins_at(groups: Seq<GroupView>, name: Seq<char>, k: int) -> bool {
    0 < k <= groups.len() && groups[k - 1].name == name
}

/// A fragment joins the group of its file, or opens a new group at the place
/// that the order of the names gives.
pub proof fn lemma_joined_at(groups: Seq<GroupView>, f: FragmentView)
    ensures
        ({
            let name = shown_name(f.source_file);
            let k = group_index(groups, name, groups.len() as int);
            &&& 0 <= k <= groups.len()
            &&& joins_at(groups, name, k) ==> joined_group(groups, f) == groups.update(
                k - 1,
                GroupView { name, items: groups[k - 1].items.push(f) },
            )
            &&& !joins_at(groups, name, k) ==> joined_group(groups, f) == groups.insert(
                k,
                GroupView { name, items: seq![f] },
            )
        }),
    decreases groups.len(),
{
    let name = shown_name(f.source_file);
    let n = groups.len() as int;
    if n == 0 {
        assert(seq![GroupView { name, items: seq![f] }] =~= groups.insert(
            0,
            GroupView { name, items: seq![f] },
        ));
    } else {
        let last = groups.last();
        if last.name == name {
            assert(groups.drop_last().push(GroupView { name, items: last.items.push(f) })
                =~= groups.update(n - 1, GroupView { name, items: last.items.push(f) }));
        } else if lex_before(last.name, name) {
            assert(groups.push(GroupView { name, items: seq![f] }) =~= groups.insert(
                n,
                GroupView { name, items: seq![f] },
            ));
        } else {
            let init = groups.drop_last();
            lemma_joined_at(init, f);
            lemma_group_index_prefix(groups, name, n - 1);
            let k = group_index(init, name, n - 1);
            if joins_at(init, name, k) {
                assert(init[k - 1] == groups[k - 1]);
                assert(init.update(
                    k - 1,
                    GroupView { name, items: init[k - 1].items.push(f) },
                ).push(last) =~= groups.update(
                    k - 1,
                    GroupView { name, items: groups[k - 1].items.push(f) },
                ));
            } else {
                if 0 < k {
                    assert(init[k - 1] == groups[k - 1]);
                }
                assert(init.insert(k, GroupView { name, items: seq![f] }).push(last)
                    =~= groups.insert(k, GroupView { name, items: seq![f] }));
            }
        }
    }
}

proof fn lemma_group_index_prefix(groups: Seq<GroupView>, name: Seq<char>, n: int)
    requires
        0 <= n < groups.len(),
    ensures
        group_index(groups, name, n) == group_index(groups.drop_last(), name, n),
        0 <= group_index(groups, name, n) <= n,
    decreases n,
{
    if n > 0 {
        assert(groups.drop_last()[n - 1] == groups[n - 1]);
        if !(groups[n - 1].name == name || lex_before(groups[n - 1].name, name)) {
            lemma_group_index_prefix(groups, name, n - 1);
        }
    }
}

impl TagCompiler {
    /// Keeps the fragments of which the query holds, and of those drops each
    /// one whose text a section kept before it, of the same document,
    /// contains and exceeds.
    pub fn filter(content: Vec<TaggedContent>, query: &TagQuery) -> (kept: Vec<TaggedContent>)
        ensures
            fragment_views(kept@) == filtered(fragment_views(content@), query@),
    {
        let ghost all = fragment_views(content@);
        let mut content = content;
        let mut matched: Vec<TaggedContent> = Vec::new();
        let mut i: usize = 0;
        let n = content.len();
        assert(all.take(0) =~= Seq::<FragmentView>::empty());
        assert(fragment_views(matched@) =~= Seq::<FragmentView>::empty());
        while i < n
            invariant
                i <= n,
                n == content.len(),
                all == fragment_views(content@),
                fragment_views(matched@) == matching(all.take(i as int), query@),
            decreases n - i,
        {
            let ghost next = all.take(i + 1);
            assert(next.drop_last() =~= all.take(i as int));
            assert(next.last() == content@[i as int]@);
            if query.matches(content[i].tags.as_slice()) {
                let ghost before = fragment_views(matched@);
                let f = content[i].copy();
                matched.push(f);
                assert(fragment_views(matched@) =~= before.push(f@));
            }
            i += 1;
        }
        assert(all.take(n as int) =~= all);
        TagCompiler::dedupe_contained_in_section(matched)
    }

    /// Drops each fragment that a fragment kept before it contains.
    pub fn dedupe_contained_in_section(content: Vec<TaggedContent>) -> (kept: Vec<TaggedContent>)
        ensures
            fragment_views(kept@) == deduped(fragment_views(content@)),
    {
        let ghost all = fragment_views(content@);
        let mut kept: Vec<TaggedContent> = Vec::new();
        let mut i: usize = 0;
        let n = content.len();
        assert(all.take(0) =~= Seq::<FragmentView>::empty());
        assert(fragment_views(kept@) =~= Seq::<FragmentView>::empty());
        while i < n
            invariant
                i <= n,
                n == content.len(),
                all == fragment_views(content@),
                fragment_views(kept@) == deduped(all.take(i as int)),
            decreases n - i,
        {
            let ghost next = all.take(i + 1);
            assert(next.drop_last() =~= all.take(i as int));
            assert(next.last() == content@[i as int]@);
            let ghost before = fragment_views(kept@);
            let candidate = &content[i];
            let mut found = false;
            let mut j: usize = 0;
            while j < kept.len() && !found
                invariant
                    j <= kept.len(),
                    before == fragment_views(kept@),
                    !found ==> forall|k: int|
                        0 <= k < j ==> !contained_in_section(candidate@, #[trigger] before[k]),
                    found ==> subsumed(before, candidate@),
                decreases kept.len() - j + (if found { 0int } else { 1int }),
            {
                assert(before[j as int] == kept@[j as int]@);
                if TagCompiler::is_contained_in_section(candidate, &kept[j]) {
                    found = true;
                } else {
                    j += 1;
                }
            }
            if !found {
                let f = candidate.copy();
                kept.push(f);
                assert(fragment_views(kept@) =~= before.push(f@));
            }
            i += 1;
        }
        assert(all.take(n as int) =~= all);
        kept
    }

    /// Whether `container` is a section of the same document whose text
    /// holds the candidate's text and more.
    pub fn is_contained_in_section(candidate: &TaggedContent, container: &TaggedContent) -> (r:
        bool)
        ensures
            r == contained_in_section(candidate@, container@),
    {
        if !container.context.is_section() {
            return false;
        }
        if candidate.source_file != container.source_file {
            return false;
        }
        let inner = candidate.raw_payload_content();
        if blank(&inner) {
            return false;
        }
        let outer = container.raw_payload_content();
        outer.len() > inner.len() && contains(&outer, &inner)
    }

    /// Puts the fragments in chronological order: by date, then by source
    /// file, undated fragments last. Fragments that are equal in this order
    /// stay as they were given.
    pub fn sort_chronological(content: Vec<TaggedContent>) -> (sorted: Vec<TaggedContent>)
        ensures
            fragment_views(sorted@) == chronological(fragment_views(content@)),
    {
        let ghost all = fragment_views(content@);
        let mut sorted: Vec<TaggedContent> = Vec::new();
        let mut i: usize = 0;
        let n = content.len();
        assert(all.take(0) =~= Seq::<FragmentView>::empty());
        assert(fragment_views(sorted@) =~= Seq::<FragmentView>::empty());
        while i < n
            invariant
                i <= n,
                n == content.len(),
                all == fragment_views(content@),
                fragment_views(sorted@) == chronological(all.take(i as int)),
            decreases n - i,
        {
            let ghost next = all.take(i + 1);
            assert(next.drop_last() =~= all.take(i as int));
            assert(next.last() == content@[i as int]@);
            let ghost before = fragment_views(sorted@);
            let x = content[i].copy();
            let mut pos: usize = sorted.len();
            while pos > 0 && fragment_comes_before(&x, &sorted[pos - 1])
                invariant
                    pos <= sorted.len(),
                    before == fragment_views(sorted@),
                    insert_index(before, x@, before.len() as int) == insert_index(
                        before,
                        x@,
                        pos as int,
                    ),
                decreases pos,
            {
                assert(before[pos - 1] == sorted@[pos - 1]@);
                pos -= 1;
            }
            assert(pos > 0 ==> before[pos - 1] == sorted@[pos - 1]@);
            proof {
                lemma_inserted_at(before, x@);
            }
            sorted.insert(pos, x);
            assert(fragment_views(sorted@) =~= before.insert(pos as int, x@));
            i += 1;
        }
        assert(all.take(n as int) =~= all);
        sorted
    }

    /// Groups the fragments by the name of their source file: the groups in
    /// the order of the names, the fragments of each group in the order given.
    pub fn group_by_file(content: Vec<TaggedContent>) -> (groups: Vec<(String, Vec<TaggedContent>)>)
        ensures
            group_views(groups@) == grouped(fragment_views(content@)),
    {
        let ghost all = fragment_views(content@);
        let mut groups: Vec<(String, Vec<TaggedContent>)> = Vec::new();
        let mut i: usize = 0;
        let n = content.len();
        assert(all.take(0) =~= Seq::<FragmentView>::empty());
        assert(group_views(groups@) =~= Seq::<GroupView>::empty());
        while i < n
            invariant
                i <= n,
                n == content.len(),
                all == fragment_views(content@),
                group_views(groups@) == grouped(all.take(i as int)),
            decreases n - i,
        {
            let ghost next = all.take(i + 1);
            assert(next.drop_last() =~= all.take(i as int));
            assert(next.last() == content@[i as int]@);
            let ghost before = group_views(groups@);
            let f = content[i].copy();
            let name = match file_name(&chars_of(f.source_file.as_str())) {
                Some(name) => name,
                None => chars_of("unknown"),
            };
            assert(name@ == shown_name(f@.source_file));
            let mut pos: usize = groups.len();
            let mut joins = false;
            while pos > 0
                invariant_except_break
                    pos <= groups.len(),
                    before == group_views(groups@),
                    !joins,
                    group_index(before, name@, before.len() as int) == group_index(
                        before,
                        name@,
                        pos as int,
                    ),
                ensures
                    pos <= groups.len(),
                    before == group_views(groups@),
                    pos == group_index(before, name@, before.len() as int),
                    joins == joins_at(before, name@, pos as int),
                decreases pos,
            {
                assert(before[pos - 1] == group_view(groups@[pos - 1]));
                let other = chars_of(groups[pos - 1].0.as_str());
                if same(&other, &name) {
                    joins = true;
                    break ;
                }
                if text_before(&other, &name) {
                    break ;
                }
                pos -= 1;
            }
            proof {
                lemma_joined_at(before, f@);
            }
            if joins {
                let (group_name, mut items) = groups.remove(pos - 1);
                let ghost old_items = fragment_views(items@);
                items.push(f);
                assert(fragment_views(items@) =~= old_items.push(f@));
                groups.insert(pos - 1, (group_name, items));
                assert(group_views(groups@) =~= before.update(
                    pos - 1,
                    GroupView { name: name@, items: before[pos - 1].items.push(f@) },
                ));
            } else {
                let mut items: Vec<TaggedContent> = Vec::new();
                items.push(f);
                assert(fragment_views(items@) =~= seq![f@]);
                groups.insert(pos, (string_of(&name), items));
                assert(group_views(groups@) =~= before.insert(
                    pos as int,
                    GroupView { name: name@, items: seq![f@] },
                ));
            }
            i += 1;
        }
        assert(all.take(n as int) =~= all);
        groups
    }
}

} // verus!
