//! The headings that enclose a point of a document, and the tags that they
//! hand down.

use vstd::prelude::*;
use crate::text::str_views;

verus! {

// ---------------------------------------------------------------------------
// Tag lists
// ---------------------------------------------------------------------------

/// `dest` followed by the tags of `tags` that are not yet in the list, each
/// where it first occurs.
pub open spec fn merged(dest: Seq<Seq<char>>, tags: Seq<Seq<char>>) -> Seq<Seq<char>>
    decreases tags.len(),
{
    if tags.len() == 0 {
        dest
    } else {
        let m = merged(dest, tags.drop_last());
        if m.contains(tags.last()) {
            m
        } else {
            m.push(tags.last())
        }
    }
}

/// The tags of a list, each once, in the order of first occurrence.
pub open spec fn unique(tags: Seq<Seq<char>>) -> Seq<Seq<char>> {
    merged(seq![], tags)
}

/// Merging adds no tag twice and loses none: the result has no duplicates
/// where `dest` has none, begins with `dest`, and holds the tags of both.
pub proof fn lemma_merged(dest: Seq<Seq<char>>, tags: Seq<Seq<char>>)
    ensures
        dest.no_duplicates() ==> merged(dest, tags).no_duplicates(),
        dest.is_prefix_of(merged(dest, tags)),
        forall|t: Seq<char>|
            merged(dest, tags).contains(t) <==> (dest.contains(t) || tags.contains(t)),
    decreases tags.len(),
{
    if tags.len() > 0 {
        let init = tags.drop_last();
        let last = tags.last();
        lemma_merged(dest, init);
        let m = merged(dest, init);
        assert forall|t: Seq<char>|
            merged(dest, tags).contains(t) <==> (dest.contains(t) || tags.contains(t)) by {
            if tags.contains(t) {
                let i = choose|i: int| 0 <= i < tags.len() && tags[i] == t;
                if i < tags.len() - 1 {
                    assert(init[i] == t);
                    assert(init.contains(t));
                } else {
                    assert(t == last);
                }
            }
            if init.contains(t) {
                let i = choose|i: int| 0 <= i < init.len() && init[i] == t;
                assert(tags[i] == t);
            }
            assert(tags[tags.len() - 1] == last);
            if !m.contains(last) {
                let r = m.push(last);
                assert(r[m.len() as int] == last);
                if m.contains(t) {
                    let i = choose|i: int| 0 <= i < m.len() && m[i] == t;
                    assert(r[i] == t);
                }
                if r.contains(t) {
                    let i = choose|i: int| 0 <= i < r.len() && r[i] == t;
                    if i < m.len() {
                        assert(m[i] == t);
                    }
                }
            }
        }
    }
}

/// Whether `tag` stands in `tags`.
pub fn list_has(tags: &Vec<String>, tag: &String) -> (r: bool)
    ensures
        r == str_views(tags@).contains(tag@),
{
    let mut i: usize = 0;
    while i < tags.len()
        invariant
            i <= tags.len(),
            forall|j: int| 0 <= j < i ==> tags@[j]@ != tag@,
        decreases tags.len() - i,
    {
        if tags[i] == *tag {
            assert(str_views(tags@)[i as int] == tag@);
            return true;
        }
        i += 1;
    }
    false
}

/// A copy of a list of tags.
pub fn clone_tags(tags: &Vec<String>) -> (out: Vec<String>)
    ensures
        str_views(out@) == str_views(tags@),
{
    let mut out: Vec<String> = Vec::new();
    let mut i: usize = 0;
    while i < tags.len()
        invariant
            i <= tags.len(),
            out.len() == i,
            forall|j: int| 0 <= j < i ==> out@[j]@ == tags@[j]@,
        decreases tags.len() - i,
    {
        out.push(tags[i].clone());
        i += 1;
    }
    assert(str_views(out@) =~= str_views(tags@));
    out
}

/// Appends to `dest` the tags of `tags` that it does not hold yet.
pub fn extend_unique(dest: &mut Vec<String>, tags: &Vec<String>)
    ensures
        str_views(final(dest)@) == merged(str_views(old(dest)@), str_views(tags@)),
{
    let mut i: usize = 0;
    assert(str_views(tags@).take(0) =~= Seq::<Seq<char>>::empty());
    while i < tags.len()
        invariant
            i <= tags.len(),
            str_views(dest@) == merged(str_views(old(dest)@), str_views(tags@).take(i as int)),
        decreases tags.len() - i,
    {
        let ghost before = str_views(dest@);
        let ghost next = str_views(tags@).take(i + 1);
        assert(next.drop_last() =~= str_views(tags@).take(i as int));
        assert(next.last() == tags@[i as int]@);
        if !list_has(dest, &tags[i]) {
            dest.push(tags[i].clone());
            assert(str_views(dest@) =~= before.push(tags@[i as int]@));
        }
        i += 1;
    }
    assert(str_views(tags@).take(tags.len() as int) =~= str_views(tags@));
}

// ---------------------------------------------------------------------------
// Contexts
// ---------------------------------------------------------------------------

/// Where a piece of content stands in its document.
#[derive(Debug, Clone, PartialEq)]
pub enum TagContext {
    /// Under a heading: the heading's text without its tags, and its level.
    Section { heading: String, level: usize },
    /// Under no heading at all.
    Paragraph,
}

/// The mathematical form of a context.
pub ghost enum ContextView {
    Section { heading: Seq<char>, level: nat },
    Paragraph,
}

impl View for TagContext {
    type V = ContextView;

    open spec fn view(&self) -> ContextView {
        match self {
            TagContext::Section { heading, level } => ContextView::Section {
                heading: heading@,
                level: *level as nat,
            },
            TagContext::Paragraph => ContextView::Paragraph,
        }
    }
}

impl TagContext {
    /// A copy of the context.
    pub fn copy(&self) -> (c: TagContext)
        ensures
            c@ == self@,
    {
        match self {
            TagContext::Section { heading, level } => TagContext::Section {
                heading: heading.clone(),
                level: *level,
            },
            TagContext::Paragraph => TagContext::Paragraph,
        }
    }

    /// Whether the context is that of a heading.
    pub fn is_section(&self) -> (r: bool)
        ensures
            r == (self@ is Section),
    {
        match self {
            TagContext::Section { .. } => true,
            TagContext::Paragraph => false,
        }
    }
}

// ---------------------------------------------------------------------------
// The stack of open sections
// ---------------------------------------------------------------------------

/// An open section: a heading with the tags that stand in it.
#[derive(Debug, Clone)]
pub struct Section {
    pub level: usize,
    pub heading: String,
    pub tags: Vec<String>,
}

/// The mathematical form of a section.
pub ghost struct SectionView {
    pub level: nat,
    pub heading: Seq<char>,
    pub tags: Seq<Seq<char>>,
}

impl View for Section {
    type V = SectionView;

    open spec fn view(&self) -> SectionView {
        SectionView { level: self.level as nat, heading: self.heading@, tags: str_views(self.tags@) }
    }
}

/// The levels grow strictly from the outermost section to the innermost.
pub open spec fn nested(stack: Seq<SectionView>) -> bool {
    forall|i: int, j: int| 0 <= i < j < stack.len() ==> stack[i].level < stack[j].level
}

/// The number of sections that stay open when a heading of `level` begins:
/// those at the bottom of the stack whose level is below `level`.
pub open spec fn kept_under(stack: Seq<SectionView>, level: nat) -> nat
    decreases stack.len(),
{
    if stack.len() > 0 && stack.last().level >= level {
        kept_under(stack.drop_last(), level)
    } else {
        stack.len()
    }
}

/// The stack after a heading: every section whose level reaches that of the
/// heading is closed, and the heading's own section is opened.
pub open spec fn after_heading(stack: Seq<SectionView>, section: SectionView) -> Seq<SectionView> {
    stack.take(kept_under(stack, section.level) as int).push(section)
}

/// What closing for a heading does to a stack whose levels grow: the sections
/// below the heading's level stay, those that reach it leave, and there is
/// nothing else.
pub proof fn lemma_kept_under(stack: Seq<SectionView>, level: nat)
    requires
        nested(stack),
    ensures
        kept_under(stack, level) <= stack.len(),
        forall|i: int| 0 <= i < kept_under(stack, level) ==> (#[trigger] stack[i]).level < level,
        forall|i: int|
            kept_under(stack, level) <= i < stack.len() ==> (#[trigger] stack[i]).level >= level,
    decreases stack.len(),
{
    if stack.len() > 0 && stack.last().level >= level {
        let init = stack.drop_last();
        assert(nested(init)) by {
            assert forall|i: int, j: int| 0 <= i < j < init.len() implies init[i].level
                < init[j].level by {
                assert(init[i] == stack[i] && init[j] == stack[j]);
            }
        }
        lemma_kept_under(init, level);
        assert forall|i: int| 0 <= i < kept_under(stack, level) implies (#[trigger] stack[i]).level
            < level by {
            assert(init[i] == stack[i]);
        }
        assert forall|i: int| kept_under(stack, level) <= i < stack.len() implies (
        #[trigger] stack[i]).level >= level by {
            if i < init.len() {
                assert(init[i] == stack[i]);
            }
        }
    } else if stack.len() > 0 {
        assert forall|i: int| 0 <= i < stack.len() implies (#[trigger] stack[i]).level < level by {
            if i < stack.len() - 1 {
                assert(stack[i].level < stack[stack.len() - 1].level);
            }
        }
    }
}

/// The growth of the levels outlasts a heading.
pub proof fn lemma_after_heading_nested(stack: Seq<SectionView>, section: SectionView)
    requires
        nested(stack),
    ensures
        nested(after_heading(stack, section)),
{
    lemma_kept_under(stack, section.level);
    let k = kept_under(stack, section.level) as int;
    let next = after_heading(stack, section);
    assert forall|i: int, j: int| 0 <= i < j < next.len() implies next[i].level
        < next[j].level by {
        assert(next[i] == stack[i]);
        if j < k {
            assert(next[j] == stack[j]);
        }
    }
}

/// A heading takes the place of the headings of its own level and deeper
/// that came before it: after a heading `b`, a heading `d` that is not
/// deeper than `b` leaves the stack as if `b` had never been. So a sibling
/// inherits the tags of the enclosing sections alone.
pub proof fn lemma_heading_replaces_deeper(
    stack: Seq<SectionView>,
    b: SectionView,
    d: SectionView,
)
    requires
        nested(stack),
        d.level <= b.level,
    ensures
        after_heading(after_heading(stack, b), d) == after_heading(stack, d),
{
    lemma_kept_under(stack, b.level);
    lemma_kept_under(stack, d.level);
    let kb = kept_under(stack, b.level) as int;
    let kd = kept_under(stack, d.level) as int;
    let mid = after_heading(stack, b);
    assert(kd <= kb) by {
        if kd > kb {
            assert(stack[kb].level < d.level);
            assert(stack[kb].level >= b.level);
        }
    }
    assert(mid.drop_last() =~= stack.take(kb));
    assert(mid.last() == b);
    lemma_kept_under_prefix(stack, d.level, kb);
    assert(mid.take(kd) =~= stack.take(kd));
}

/// Closing for a heading looks at the top of the stack alone: below a
/// section that stays, everything stays.
proof fn lemma_kept_under_prefix(stack: Seq<SectionView>, level: nat, n: int)
    requires
        nested(stack),
        kept_under(stack, level) <= n <= stack.len(),
    ensures
        kept_under(stack.take(n), level) == kept_under(stack, level),
    decreases stack.len() - n,
{
    lemma_kept_under(stack, level);
    if n < stack.len() {
        let longer = stack.take(n + 1);
        assert(longer.drop_last() =~= stack.take(n));
        assert(longer.last() == stack[n]);
        assert(stack[n].level >= level);
        lemma_kept_under_prefix(stack, level, n + 1);
    } else {
        assert(stack.take(n) =~= stack);
    }
}

/// The tags of all sections, from the outermost to the innermost.
pub open spec fn stacked_tags(stack: Seq<SectionView>) -> Seq<Seq<char>>
    decreases stack.len(),
{
    if stack.len() == 0 {
        seq![]
    } else {
        stacked_tags(stack.drop_last()) + stack.last().tags
    }
}

/// The tags that a point under the stacked sections inherits.
pub open spec fn inherited_tags(stack: Seq<SectionView>) -> Seq<Seq<char>> {
    unique(stacked_tags(stack))
}

/// Some section of the stack carries a tag of its own.
pub open spec fn any_tagged(stack: Seq<SectionView>) -> bool {
    exists|i: int| 0 <= i < stack.len() && (#[trigger] stack[i]).tags.len() > 0
}

/// The context of what stands under the open sections: the innermost
/// section, or plain prose where none is open.
pub open spec fn innermost(stack: Seq<SectionView>) -> ContextView {
    if stack.len() == 0 {
        ContextView::Paragraph
    } else {
        ContextView::Section { heading: stack.last().heading, level: stack.last().level }
    }
}

/// Merging in two steps is merging the whole.
pub proof fn lemma_merged_concat(dest: Seq<Seq<char>>, a: Seq<Seq<char>>, b: Seq<Seq<char>>)
    ensures
        merged(merged(dest, a), b) == merged(dest, a + b),
    decreases b.len(),
{
    if b.len() == 0 {
        assert(a + b =~= a);
    } else {
        assert((a + b).drop_last() =~= a + b.drop_last());
        assert((a + b).last() == b.last());
        lemma_merged_concat(dest, a, b.drop_last());
    }
}

/// The sections that enclose the current point of a document, the outermost
/// first.
#[derive(Debug)]
pub struct SectionStack {
    stack: Vec<Section>,
}

impl View for SectionStack {
    type V = Seq<SectionView>;

    closed spec fn view(&self) -> Seq<SectionView> {
        Seq::new(self.stack@.len(), |i: int| self.stack@[i]@)
    }
}

impl SectionStack {
    #[verifier::type_invariant]
    spec fn levels_grow(self) -> bool {
        nested(self@)
    }

    /// The stack of a document's beginning: no section is open.
    pub fn new() -> (s: SectionStack)
        ensures
            s@ == Seq::<SectionView>::empty(),
    {
        let s = SectionStack { stack: Vec::new() };
        assert(s@ =~= Seq::<SectionView>::empty());
        s
    }

    /// Enters a heading: closes every section of the same or a deeper level
    /// and opens the heading's own.
    pub fn push_heading(&mut self, level: usize, heading: &str, tags: Vec<String>)
        ensures
            final(self)@ == after_heading(
                old(self)@,
                SectionView { level: level as nat, heading: heading@, tags: str_views(tags@) },
            ),
            nested(final(self)@),
    {
        proof {
            use_type_invariant(&*self);
        }
        let ghost before = self@;
        let ghost section = SectionView {
            level: level as nat,
            heading: heading@,
            tags: str_views(tags@),
        };
        let mut stack: Vec<Section> = Vec::new();
        std::mem::swap(&mut stack, &mut self.stack);
        let ghost all = stack@;
        let mut n: usize = stack.len();
        assert(before.take(n as int) =~= before);
        while n > 0 && stack[n - 1].level >= level
            invariant
                n <= stack.len(),
                stack@ == all,
                before == Seq::new(all.len(), |i: int| all[i]@),
                kept_under(before, level as nat) == kept_under(before.take(n as int), level as nat),
            decreases n,
        {
            assert(before.take(n as int).drop_last() =~= before.take(n - 1));
            n -= 1;
        }
        assert(kept_under(before, level as nat) == n) by {
            let t = before.take(n as int);
            if n > 0 {
                assert(t.last() == all[n - 1]@);
            }
        }
        stack.truncate(n);
        stack.push(Section { level, heading: heading.to_owned(), tags });
        proof {
            let next = Seq::new(stack@.len(), |i: int| stack@[i]@);
            lemma_after_heading_nested(before, section);
            assert(next =~= after_heading(before, section));
        }
        self.stack = stack;
    }

    /// The tags that the open sections hand down, from the outermost section
    /// to the innermost, each tag once, where it first occurs.
    pub fn current_tags(&self) -> (tags: Vec<String>)
        ensures
            str_views(tags@) == inherited_tags(self@),
            str_views(tags@).no_duplicates(),
    {
        let mut out: Vec<String> = Vec::new();
        let mut i: usize = 0;
        assert(self@.take(0) =~= Seq::<SectionView>::empty());
        assert(str_views(out@) =~= Seq::<Seq<char>>::empty());
        while i < self.stack.len()
            invariant
                i <= self.stack.len(),
                self@.len() == self.stack.len(),
                str_views(out@) == inherited_tags(self@.take(i as int)),
            decreases self.stack.len() - i,
        {
            let ghost done = self@.take(i as int);
            let ghost next = self@.take(i + 1);
            assert(next.drop_last() =~= done);
            assert(next.last() == self.stack@[i as int]@);
            proof {
                lemma_merged_concat(seq![], stacked_tags(done), next.last().tags);
            }
            extend_unique(&mut out, &self.stack[i].tags);
            i += 1;
        }
        assert(self@.take(self.stack.len() as int) =~= self@);
        proof {
            lemma_merged(seq![], stacked_tags(self@));
        }
        out
    }

    /// The innermost open section as a context; plain prose where no
    /// section is open.
    pub fn current_context(&self) -> (c: TagContext)
        ensures
            c@ == innermost(self@),
    {
        let n = self.stack.len();
        if n == 0 {
            assert(self@.len() == 0);
            TagContext::Paragraph
        } else {
            let top = &self.stack[n - 1];
            assert(self@.last() == top@);
            TagContext::Section { heading: top.heading.clone(), level: top.level }
        }
    }

    /// Whether some open section carries a tag of its own.
    pub fn in_explicit_tagged_section(&self) -> (r: bool)
        ensures
            r == any_tagged(self@),
    {
        let mut i: usize = 0;
        while i < self.stack.len()
            invariant
                i <= self.stack.len(),
                self@.len() == self.stack.len(),
                forall|j: int| 0 <= j < i ==> (#[trigger] self@[j]).tags.len() == 0,
            decreases self.stack.len() - i,
        {
            if self.stack[i].tags.len() > 0 {
                assert(self@[i as int].tags.len() > 0);
                return true;
            }
            assert(self@[i as int].tags.len() == 0);
            i += 1;
        }
        false
    }

    /// The number of open sections.
    pub fn depth(&self) -> (n: usize)
        ensures
            n == self@.len(),
    {
        self.stack.len()
    }
}

} // verus!
