use djour::{
    CompilationDateStyle, CompilationFormat, ContentPayload, Date, SectionStack, SourceSpan,
    TagCompiler, TagContext, TagParser, TagQuery, TaggedContent,
};
use std::sync::Arc;

fn tags(list: &[&str]) -> Vec<String> {
    list.iter().map(|t| t.to_string()).collect()
}

#[test]
fn printed_query_without_or_reads_back_with_same_meaning() {
    let sets: Vec<Vec<String>> = vec![
        tags(&[]),
        tags(&["work"]),
        tags(&["urgent"]),
        tags(&["meeting"]),
        tags(&["work", "urgent"]),
        tags(&["work", "meeting"]),
        tags(&["work", "urgent", "meeting"]),
    ];
    for text in ["work", "#Work AND urgent", "work AND NOT meeting", "NOT NOT work AND urgent AND not meeting"] {
        let query = TagQuery::parse(text).unwrap();
        let again = TagQuery::parse(&query.to_string()).unwrap();
        assert_eq!(again, query);
        for set in &sets {
            assert_eq!(again.matches(set), query.matches(set));
        }
    }
}

#[test]
fn printed_or_is_not_read_back() {
    let query = TagQuery::parse("a OR b").unwrap();
    assert_eq!(query.to_string(), "(#a OR #b)");
    assert!(TagQuery::parse(&query.to_string()).is_err());
}

#[test]
fn section_match_subsumes_interior_match() {
    let markdown = "## Notes #work\n\nText. #work\n\nMore of the section.\n";
    let fragments = TagParser::extract_from_markdown(markdown, "notes.md", None);
    assert_eq!(fragments.len(), 2);
    let query = TagQuery::parse("work").unwrap();
    let kept = TagCompiler::filter(fragments, &query);
    assert_eq!(kept.len(), 1);
    assert_eq!(kept[0].content(), "Text. #work\n\nMore of the section.");
    assert_eq!(
        kept[0].context,
        TagContext::Section {
            heading: "Notes".to_string(),
            level: 2
        }
    );
}

#[test]
fn section_of_the_same_text_does_not_subsume() {
    let markdown = "## Notes #work\n\nText. #work\n";
    let fragments = TagParser::extract_from_markdown(markdown, "notes.md", None);
    let query = TagQuery::parse("work").unwrap();
    let kept = TagCompiler::filter(fragments, &query);
    assert_eq!(kept.len(), 2);
}

#[test]
fn tags_are_inherited_along_the_headings() {
    let mut stack = SectionStack::new();
    stack.push_heading(1, "A", tags(&["a"]));
    assert_eq!(stack.current_tags(), vec!["a"]);
    stack.push_heading(2, "B", tags(&["b"]));
    assert_eq!(stack.current_tags(), vec!["a", "b"]);
    stack.push_heading(3, "C", tags(&["c"]));
    assert_eq!(stack.current_tags(), vec!["a", "b", "c"]);
    stack.push_heading(2, "D", tags(&["d"]));
    assert_eq!(stack.current_tags(), vec!["a", "d"]);
    assert_eq!(
        stack.current_context(),
        TagContext::Section {
            heading: "D".to_string(),
            level: 2
        }
    );
    assert!(stack.in_explicit_tagged_section());
}

#[test]
fn tags_are_inherited_in_a_document() {
    let markdown = "# A #a\n\none\n\n## B #b\n\ntwo\n\n### C #c\n\nthree\n\n## D #d\n\nfour\n";
    let fragments = TagParser::extract_from_markdown(markdown, "doc.md", None);
    let of = |heading: &str| -> Vec<String> {
        fragments
            .iter()
            .find(|f| matches!(&f.context, TagContext::Section { heading: h, .. } if h == heading))
            .unwrap()
            .tags
            .clone()
    };
    assert_eq!(of("A"), vec!["a"]);
    assert_eq!(of("B"), vec!["a", "b"]);
    assert_eq!(of("C"), vec!["a", "b", "c"]);
    assert_eq!(of("D"), vec!["a", "d"]);
}

#[test]
fn and_binds_tighter_than_or() {
    let query = TagQuery::parse("work AND urgent OR personal").unwrap();
    assert_eq!(
        query,
        TagQuery::Or(
            Box::new(TagQuery::And(
                Box::new(TagQuery::Single("work".to_string())),
                Box::new(TagQuery::Single("urgent".to_string()))
            )),
            Box::new(TagQuery::Single("personal".to_string()))
        )
    );
    assert!(query.matches(&tags(&["personal"])));
    assert!(query.matches(&tags(&["work", "urgent"])));
    assert!(!query.matches(&tags(&["work"])));
}

#[test]
fn meeting_section_is_compiled_once() {
    let input = "## Meeting #work #urgent\n\nDiscussed timeline.\n";
    let fragments = TagParser::extract_from_markdown(input, "meeting.md", None);
    let query = TagQuery::parse("work").unwrap();
    let kept = TagCompiler::filter(fragments, &query);
    let output = TagCompiler::to_markdown(
        kept,
        &query,
        CompilationFormat::Chronological,
        CompilationDateStyle::SingleDate,
        false,
    );
    assert!(output.lines().any(|line| line == "# Compilation: #work"));
    assert_eq!(output.matches("Discussed timeline.").count(), 1);
    assert_eq!(output, "# Compilation: #work\n\nDiscussed timeline.\n");
}

#[test]
fn neighbouring_spans_keep_their_gap() {
    let source: Arc<str> = Arc::from("- a\n- b");
    let span = |start: usize, end: usize| {
        TaggedContent::with_payload(
            tags(&["work"]),
            ContentPayload::Span {
                span: SourceSpan::new(start, end),
                source: Arc::clone(&source),
            },
            "list.md".to_string(),
            None,
            TagContext::Section {
                heading: "List".to_string(),
                level: 1,
            },
        )
    };
    let query = TagQuery::parse("work").unwrap();
    let output = TagCompiler::to_markdown(
        vec![span(0, 3), span(4, 7)],
        &query,
        CompilationFormat::Chronological,
        CompilationDateStyle::SingleDate,
        false,
    );
    assert!(output.contains("- a\n- b"));
    assert!(!output.contains("- a\n\n- b"));
    assert_eq!(output, "# Compilation: #work\n\n- a\n- b\n");
}

#[test]
fn relative_link_is_rewritten_for_the_compilation() {
    let markdown = "See [Doc](./docs/x.md) today. #work\n";
    let fragments = TagParser::extract_from_markdown_for_output(
        markdown,
        "notes/2025-01-15.md",
        Date::from_ymd_opt(2025, 1, 15),
        Some("compilations/work.md"),
    );
    assert_eq!(fragments.len(), 1);
    assert_eq!(fragments[0].content(), "See [Doc](../notes/docs/x.md) today. #work");
}

#[test]
fn no_open_section_gives_plain_context() {
    let stack = SectionStack::new();
    assert_eq!(stack.current_context(), TagContext::Paragraph);
    assert!(!stack.in_explicit_tagged_section());
    assert!(stack.current_tags().is_empty());
    assert_eq!(stack.depth(), 0);
}
