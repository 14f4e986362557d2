//! Tagged fragments from markdown text.

use vstd::prelude::*;
use crate::date::{date_view, Date};
use crate::events::{event_views, markdown_events, read_events, EventView, MdEvent};
use crate::extractor::{extracted, lemma_step_headings, walked, Extractor, Setting};
use crate::extractor_laws::{clean_tags, lemma_fragments_have_no_tag_twice};
use crate::fragment::{fragment_views, TaggedContent};
use crate::outline::{extract_section_bodies_in_order, section_bodies};
use crate::text::{chars_of, vec_views};

verus! {

/// The view of a string slice that may be missing.
pub open spec fn opt_str_view(o: Option<&str>) -> Option<Seq<char>> {
    match o {
        Some(s) => Some(s@),
        None => None,
    }
}

/// The fragments of a document whose events and section bodies are given:
/// what the walk through the events finds. See [`crate::extractor::step`]
/// for what each event does. No fragment carries a tag twice.
pub fn extract_from_events(
    events: &Vec<MdEvent>,
    bodies: Vec<Vec<char>>,
    source_file: &str,
    date: Option<Date>,
    output_file: Option<&str>,
) -> (fragments: Vec<TaggedContent>)
    ensures
        fragment_views(fragments@) == extracted(
            Setting {
                bodies: vec_views(bodies@),
                source_file: source_file@,
                date: date_view(date),
                output: opt_str_view(output_file),
            },
            event_views(events@),
        ),
        clean_tags(fragment_views(fragments@)),
{
    let ghost cfg = Setting {
        bodies: vec_views(bodies@),
        source_file: source_file@,
        date: date_view(date),
        output: opt_str_view(output_file),
    };
    let ghost all = event_views(events@);
    let output = match output_file {
        Some(o) => Some(chars_of(o)),
        None => None,
    };
    let mut walk = Extractor::new(bodies, chars_of(source_file), date, output);
    let mut i: usize = 0;
    assert(all.take(0) =~= Seq::<EventView>::empty());
    while i < events.len()
        invariant
            i <= events.len(),
            all == event_views(events@),
            walk.setting() == cfg,
            walk@ == walked(cfg, all.take(i as int)),
            walk.heading_index <= i,
        decreases events.len() - i,
    {
        let ghost next = all.take(i + 1);
        assert(next.drop_last() =~= all.take(i as int));
        assert(next.last() == events@[i as int]@);
        proof {
            lemma_step_headings(cfg, walk@, events@[i as int]@);
        }
        walk.step(&events[i]);
        i += 1;
    }
    assert(all.take(events.len() as int) =~= all);
    proof {
        lemma_fragments_have_no_tag_twice(cfg, all);
    }
    let Extractor { results, .. } = walk;
    results
}

/// Finds the tagged fragments of markdown documents.
pub struct TagParser;

impl TagParser {
    /// The tagged fragments of a document, with the destinations of links
    /// and images as they stand in the source.
    pub fn extract_from_markdown(content: &str, source_file: &str, date: Option<Date>) -> (fragments:
        Vec<TaggedContent>)
        ensures
            fragment_views(fragments@) == extracted(
                Setting {
                    bodies: section_bodies(content@),
                    source_file: source_file@,
                    date: date_view(date),
                    output: None,
                },
                markdown_events(content@),
            ),
            clean_tags(fragment_views(fragments@)),
    {
        TagParser::extract_from_markdown_for_output(content, source_file, date, None)
    }

    /// The tagged fragments of a document. Where `output_file` is given, the
    /// destinations of links and images are rewritten so that they lead
    /// from that file where they led from `source_file`.
    ///
    /// The events of the document are those that `pulldown_cmark` reads
    /// from `content`; its section bodies are read from the text itself.
    pub fn extract_from_markdown_for_output(
        content: &str,
        source_file: &str,
        date: Option<Date>,
        output_file: Option<&str>,
    ) -> (fragments: Vec<TaggedContent>)
        ensures
            fragment_views(fragments@) == extracted(
                Setting {
                    bodies: section_bodies(content@),
                    source_file: source_file@,
                    date: date_view(date),
                    output: opt_str_view(output_file),
                },
                markdown_events(content@),
            ),
            clean_tags(fragment_views(fragments@)),
    {
        let text = chars_of(content);
        let bodies = extract_section_bodies_in_order(&text);
        let events = read_events(content);
        extract_from_events(&events, bodies, source_file, date, output_file)
    }
}

} // verus!
