//! Lists as they are shown to the user.

use vstd::prelude::*;
use crate::date::{date_view, formatted_date, Date, Ymd};
use crate::text::{chars_of, extend_str, str_views, string_of};

verus! {

/// A note: the name of its file and the day that it stands for, if any.
#[derive(Debug, Clone, PartialEq, Eq)]
pub struct NoteEntry {
    pub filename: String,
    pub date: Option<Date>,
}

/// The mathematical form of a note.
pub ghost struct NoteView {
    pub filename: Seq<char>,
    pub date: Option<Ymd>,
}

impl View for NoteEntry {
    type V = NoteView;

    open spec fn view(&self) -> NoteView {
        NoteView { filename: self.filename@, date: date_view(self.date) }
    }
}

/// The views of a list of notes.
pub open spec fn note_views(v: Seq<NoteEntry>) -> Seq<NoteView> {
    Seq::new(v.len(), |i: int| v[i]@)
}

impl NoteEntry {
    /// The entry of a note file with its date.
    pub fn new(filename: String, date: Option<Date>) -> (note: NoteEntry)
        ensures
            note@ == (NoteView { filename: filename@, date: date_view(date) }),
    {
        NoteEntry { filename, date }
    }
}

/// The lines of a list of tags: each tag behind `#`.
pub open spec fn tag_lines(tags: Seq<Seq<char>>) -> Seq<char>
    decreases tags.len(),
{
    if tags.len() == 0 {
        seq![]
    } else {
        tag_lines(tags.drop_last()) + seq!['#'] + tags.last() + seq!['\n']
    }
}

/// A list of tags as it is shown.
pub open spec fn tag_list(tags: Seq<Seq<char>>) -> Seq<char> {
    if tags.len() == 0 {
        "No tags found"@
    } else {
        tag_lines(tags)
    }
}

/// Writes a list of tags: one line for each, or a notice where there is
/// none.
pub fn format_tag_list(tags: &[String]) -> (text: String)
    ensures
        text@ == tag_list(str_views(tags@)),
{
    if tags.len() == 0 {
        return string_of(&chars_of("No tags found"));
    }
    let ghost all = str_views(tags@);
    let mut out: Vec<char> = Vec::new();
    let mut i: usize = 0;
    assert(all.take(0) =~= Seq::<Seq<char>>::empty());
    while i < tags.len()
        invariant
            i <= tags.len(),
            all == str_views(tags@),
            out@ == tag_lines(all.take(i as int)),
        decreases tags.len() - i,
    {
        let ghost next = all.take(i + 1);
        assert(next.drop_last() =~= all.take(i as int));
        assert(next.last() == tags@[i as int]@);
        out.push('#');
        extend_str(&mut out, tags[i].as_str());
        out.push('\n');
        i += 1;
    }
    assert(all.take(tags.len() as int) =~= all);
    string_of(&out)
}

/// The line of a note: its date, as day, month and year, before its file
/// name; blanks of the same width where it has no date.
pub open spec fn note_line(note: NoteView) -> Seq<char> {
    match note.date {
        Some(d) => formatted_date(d.0, d.1, d.2, "%d-%m-%Y"@) + "  "@ + note.filename + seq!['\n'],
        None => "           "@ + note.filename + seq!['\n'],
    }
}

/// One line for each note, in order.
pub open spec fn note_lines(notes: Seq<NoteView>) -> Seq<char>
    decreases notes.len(),
{
    if notes.len() == 0 {
        seq![]
    } else {
        note_lines(notes.drop_last()) + note_line(notes.last())
    }
}

/// A list of notes as it is shown.
pub open spec fn note_list(notes: Seq<NoteView>) -> Seq<char> {
    if notes.len() == 0 {
        "No notes found"@
    } else {
        note_lines(notes)
    }
}

/// Writes a list of notes: one line for each, or a notice where there is
/// none.
pub fn format_note_list(notes: &[NoteEntry]) -> (text: String)
    ensures
        text@ == note_list(note_views(notes@)),
{
    if notes.len() == 0 {
        return string_of(&chars_of("No notes found"));
    }
    let ghost all = note_views(notes@);
    let mut out: Vec<char> = Vec::new();
    let mut i: usize = 0;
    assert(all.take(0) =~= Seq::<NoteView>::empty());
    while i < notes.len()
        invariant
            i <= notes.len(),
            all == note_views(notes@),
            out@ == note_lines(all.take(i as int)),
        decreases notes.len() - i,
    {
        let ghost next = all.take(i + 1);
        assert(next.drop_last() =~= all.take(i as int));
        assert(next.last() == notes@[i as int]@);
        let ghost before = out@;
        match &notes[i].date {
            Some(date) => {
                extend_str(&mut out, date.format("%d-%m-%Y").as_str());
                extend_str(&mut out, "  ");
            },
            None => {
                extend_str(&mut out, "           ");
            },
        }
        extend_str(&mut out, notes[i].filename.as_str());
        out.push('\n');
        assert(out@ =~= before + note_line(notes@[i as int]@));
        i += 1;
    }
    assert(all.take(notes.len() as int) =~= all);
    string_of(&out)
}

} // verus!
