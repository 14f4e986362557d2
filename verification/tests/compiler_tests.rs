use djour::{
    CompilationDateStyle, CompilationFormat, ContentPayload, Date, SourceSpan, TagCompiler,
    TagContext, TagQuery, TaggedContent,
};
use std::sync::Arc;

fn create_test_content(
    tags: Vec<&str>,
    content: &str,
    filename: &str,
    date: Option<Date>,
) -> TaggedContent {
    TaggedContent::new(
        tags.iter().map(|s| s.to_string()).collect(),
        content.to_string(),
        filename.to_string(),
        date,
        TagContext::Paragraph,
    )
}

fn create_test_section_content(
    tags: Vec<&str>,
    content: &str,
    filename: &str,
    date: Option<Date>,
    heading: &str,
    level: usize,
) -> TaggedContent {
    TaggedContent::new(
        tags.iter().map(|s| s.to_string()).collect(),
        content.to_string(),
        filename.to_string(),
        date,
        TagContext::Section {
            heading: heading.to_string(),
            level,
        },
    )
}

fn create_test_span_content(
    tags: Vec<&str>,
    source: Arc<str>,
    span: SourceSpan,
    filename: &str,
    date: Option<Date>,
) -> TaggedContent {
    TaggedContent::with_payload(
        tags.iter().map(|s| s.to_string()).collect(),
        ContentPayload::Span { span, source },
        filename.to_string(),
        date,
        TagContext::Paragraph,
    )
}

#[test]
fn test_filter_single_tag() {
    let content = vec![
        create_test_content(vec!["work"], "Work content", "a.md", None),
        create_test_content(vec!["personal"], "Personal content", "b.md", None),
    ];

    let query = TagQuery::parse("work").unwrap();
    let filtered = TagCompiler::filter(content, &query);

    assert_eq!(filtered.len(), 1);
    assert_eq!(filtered[0].tags, vec!["work".to_string()]);
}

#[test]
fn test_filter_and_query() {
    let content = vec![
        create_test_content(vec!["work", "urgent"], "Urgent work", "a.md", None),
        create_test_content(vec!["work"], "Regular work", "b.md", None),
        create_test_content(vec!["urgent"], "Urgent personal", "c.md", None),
    ];

    let query = TagQuery::parse("work AND urgent").unwrap();
    let filtered = TagCompiler::filter(content, &query);

    assert_eq!(filtered.len(), 1);
    assert_eq!(filtered[0].content(), "Urgent work");
}

#[test]
fn test_filter_or_query() {
    let content = vec![
        create_test_content(vec!["work"], "Work content", "a.md", None),
        create_test_content(vec!["personal"], "Personal content", "b.md", None),
        create_test_content(vec!["hobby"], "Hobby content", "c.md", None),
    ];

    let query = TagQuery::parse("work OR personal").unwrap();
    let filtered = TagCompiler::filter(content, &query);

    assert_eq!(filtered.len(), 2);
}

#[test]
fn test_filter_not_query() {
    let content = vec![
        create_test_content(vec!["work", "meeting"], "Meeting", "a.md", None),
        create_test_content(vec!["work", "coding"], "Coding", "b.md", None),
        create_test_content(vec!["personal"], "Personal", "c.md", None),
    ];

    let query = TagQuery::parse("work AND NOT meeting").unwrap();
    let filtered = TagCompiler::filter(content, &query);

    assert_eq!(filtered.len(), 1);
    assert_eq!(filtered[0].content(), "Coding");
}

#[test]
fn test_filter_dedupes_content_contained_by_section() {
    let content = vec![
        create_test_section_content(
            vec!["work"],
            "Line one.\nLine two.",
            "a.md",
            None,
            "Work",
            2,
        ),
        create_test_content(vec!["work"], "Line one.", "a.md", None),
    ];

    let query = TagQuery::parse("work").unwrap();
    let filtered = TagCompiler::filter(content, &query);

    assert_eq!(filtered.len(), 1);
    assert_eq!(filtered[0].content(), "Line one.\nLine two.");
}

#[test]
fn test_filter_keeps_specific_match_when_section_does_not_match() {
    let content = vec![
        create_test_section_content(
            vec!["work"],
            "Line one.\nLine two.",
            "a.md",
            None,
            "Work",
            2,
        ),
        create_test_content(vec!["work", "note"], "Line one.", "a.md", None),
    ];

    let query = TagQuery::parse("work AND note").unwrap();
    let filtered = TagCompiler::filter(content, &query);

    assert_eq!(filtered.len(), 1);
    assert_eq!(filtered[0].content(), "Line one.");
}

#[test]
fn test_sort_chronological() {
    let content = vec![
        create_test_content(
            vec!["work"],
            "Content C",
            "c.md",
            Date::from_ymd_opt(2025, 1, 17),
        ),
        create_test_content(
            vec!["work"],
            "Content A",
            "a.md",
            Date::from_ymd_opt(2025, 1, 15),
        ),
        create_test_content(
            vec!["work"],
            "Content B",
            "b.md",
            Date::from_ymd_opt(2025, 1, 16),
        ),
    ];

    let sorted = TagCompiler::sort_chronological(content);

    assert_eq!(sorted[0].content(), "Content A");
    assert_eq!(sorted[1].content(), "Content B");
    assert_eq!(sorted[2].content(), "Content C");
}

#[test]
fn test_sort_chronological_with_none() {
    let content = vec![
        create_test_content(vec!["work"], "No date", "z.md", None),
        create_test_content(
            vec!["work"],
            "Has date",
            "a.md",
            Date::from_ymd_opt(2025, 1, 15),
        ),
    ];

    let sorted = TagCompiler::sort_chronological(content);

    // Dated items should come first
    assert_eq!(sorted[0].content(), "Has date");
    assert_eq!(sorted[1].content(), "No date");
}

#[test]
fn test_group_by_file() {
    let content = vec![
        create_test_content(vec!["work"], "Content 1", "a.md", None),
        create_test_content(vec!["work"], "Content 2", "b.md", None),
        create_test_content(vec!["work"], "Content 3", "a.md", None),
    ];

    let grouped = TagCompiler::group_by_file(content);

    assert_eq!(grouped.len(), 2);
    assert_eq!(grouped[0].0, "a.md");
    assert_eq!(grouped[0].1.len(), 2);
    assert_eq!(grouped[1].0, "b.md");
    assert_eq!(grouped[1].1.len(), 1);
}

#[test]
fn test_to_markdown_chronological() {
    let content = vec![create_test_content(
        vec!["work"],
        "Meeting notes",
        "2025-01-15.md",
        Date::from_ymd_opt(2025, 1, 15),
    )];

    let query = TagQuery::parse("work").unwrap();
    let markdown = TagCompiler::to_markdown(
        content,
        &query,
        CompilationFormat::Chronological,
        CompilationDateStyle::SingleDate,
        false,
    );

    assert!(markdown.contains("# Compilation: #work"));
    assert!(markdown.contains("## 15-01-2025"));
    assert!(markdown.contains("Meeting notes"));
}

#[test]
fn test_to_markdown_week_range() {
    let content = vec![create_test_content(
        vec!["work"],
        "Weekly notes",
        "2025-W03-2025-01-13.md",
        Date::from_ymd_opt(2025, 1, 13),
    )];

    let query = TagQuery::parse("work").unwrap();
    let markdown = TagCompiler::to_markdown(
        content,
        &query,
        CompilationFormat::Chronological,
        CompilationDateStyle::WeekRange,
        false,
    );

    assert!(markdown.contains("## 13-01-2025 to 19-01-2025"));
    assert!(markdown.contains("Weekly notes"));
}

#[test]
fn test_to_markdown_month_range() {
    let content = vec![create_test_content(
        vec!["work"],
        "Monthly notes",
        "2025-02.md",
        Date::from_ymd_opt(2025, 2, 1),
    )];

    let query = TagQuery::parse("work").unwrap();
    let markdown = TagCompiler::to_markdown(
        content,
        &query,
        CompilationFormat::Chronological,
        CompilationDateStyle::MonthRange,
        false,
    );

    assert!(markdown.contains("## 01-02-2025 to 28-02-2025"));
    assert!(markdown.contains("Monthly notes"));
}

#[test]
fn test_to_markdown_grouped() {
    let content = vec![create_test_content(
        vec!["work"],
        "Meeting notes",
        "2025-01-15.md",
        None,
    )];

    let query = TagQuery::parse("work").unwrap();
    let markdown = TagCompiler::to_markdown(
        content,
        &query,
        CompilationFormat::Grouped,
        CompilationDateStyle::SingleDate,
        false,
    );

    assert!(markdown.contains("# Compilation: #work"));
    assert!(markdown.contains("## From: 2025-01-15.md"));
    assert!(markdown.contains("Meeting notes"));
}

#[test]
fn test_to_markdown_empty() {
    let content = vec![];

    let query = TagQuery::parse("work").unwrap();
    let markdown = TagCompiler::to_markdown(
        content,
        &query,
        CompilationFormat::Chronological,
        CompilationDateStyle::SingleDate,
        false,
    );

    assert!(markdown.contains("# Compilation: #work"));
    assert!(markdown.contains("*No matching content found.*"));
}

#[test]
fn test_to_markdown_with_context() {
    let content = vec![create_test_section_content(
        vec!["work"],
        "Meeting notes",
        "2025-01-15.md",
        Date::from_ymd_opt(2025, 1, 15),
        "Work Notes",
        1,
    )];

    let query = TagQuery::parse("work").unwrap();
    let markdown = TagCompiler::to_markdown(
        content,
        &query,
        CompilationFormat::Chronological,
        CompilationDateStyle::SingleDate,
        true,
    );

    assert!(markdown.contains("### Work Notes")); // Level 1 + 2 = ###
    assert!(markdown.contains("Meeting notes"));
}

#[test]
fn test_to_markdown_multiple_dates() {
    let content = vec![
        create_test_content(
            vec!["work"],
            "First day",
            "a.md",
            Date::from_ymd_opt(2025, 1, 15),
        ),
        create_test_content(
            vec!["work"],
            "Second day",
            "b.md",
            Date::from_ymd_opt(2025, 1, 16),
        ),
    ];

    let query = TagQuery::parse("work").unwrap();
    let markdown = TagCompiler::to_markdown(
        content,
        &query,
        CompilationFormat::Chronological,
        CompilationDateStyle::SingleDate,
        false,
    );

    assert!(markdown.contains("## 15-01-2025"));
    assert!(markdown.contains("## 16-01-2025"));
    assert!(markdown.contains("First day"));
    assert!(markdown.contains("Second day"));
}

#[test]
fn test_to_markdown_no_trailing_blank_line() {
    let content = vec![create_test_content(
        vec!["work"],
        "Single line item",
        "2025-01-15.md",
        Date::from_ymd_opt(2025, 1, 15),
    )];

    let query = TagQuery::parse("work").unwrap();
    let markdown = TagCompiler::to_markdown(
        content,
        &query,
        CompilationFormat::Chronological,
        CompilationDateStyle::SingleDate,
        false,
    );

    assert!(!markdown.ends_with("\n\n"));
    assert!(markdown.ends_with('\n'));
}

#[test]
fn test_to_markdown_keeps_tight_spacing_for_list_items() {
    let date = Date::from_ymd_opt(2025, 1, 15);
    let content = vec![
        create_test_content(vec!["work"], "- bla", "2025-01-15.md", date),
        create_test_content(vec!["work"], "- bla1", "2025-01-15.md", date),
        create_test_content(vec!["work"], "- bla2", "2025-01-15.md", date),
    ];

    let query = TagQuery::parse("work").unwrap();
    let markdown = TagCompiler::to_markdown(
        content,
        &query,
        CompilationFormat::Chronological,
        CompilationDateStyle::SingleDate,
        false,
    );

    assert!(markdown.contains("- bla\n- bla1\n- bla2"));
    assert!(!markdown.contains("- bla\n\n- bla1"));
    assert!(!markdown.contains("- bla1\n\n- bla2"));
}

#[test]
fn test_to_markdown_keeps_paragraph_spacing() {
    let date = Date::from_ymd_opt(2025, 1, 15);
    let content = vec![
        create_test_content(vec!["work"], "first paragraph", "2025-01-15.md", date),
        create_test_content(vec!["work"], "second paragraph", "2025-01-15.md", date),
    ];

    let query = TagQuery::parse("work").unwrap();
    let markdown = TagCompiler::to_markdown(
        content,
        &query,
        CompilationFormat::Chronological,
        CompilationDateStyle::SingleDate,
        false,
    );

    assert!(markdown.contains("first paragraph\n\nsecond paragraph"));
}

#[test]
fn test_to_markdown_keeps_source_gap_for_adjacent_spans() {
    let date = Date::from_ymd_opt(2025, 1, 15);
    let source: Arc<str> = Arc::from("* first\n* second");
    let second_start = source.find("* second").unwrap();
    let content = vec![
        create_test_span_content(
            vec!["work"],
            Arc::clone(&source),
            SourceSpan::new(0, "* first".len()),
            "2025-01-15.md",
            date,
        ),
        create_test_span_content(
            vec!["work"],
            Arc::clone(&source),
            SourceSpan::new(second_start, second_start + "* second".len()),
            "2025-01-15.md",
            date,
        ),
    ];

    let query = TagQuery::parse("work").unwrap();
    let markdown = TagCompiler::to_markdown(
        content,
        &query,
        CompilationFormat::Chronological,
        CompilationDateStyle::SingleDate,
        false,
    );

    assert!(markdown.contains("* first\n* second"));
    assert!(!markdown.contains("* first\n\n* second"));
}

#[test]
fn test_to_markdown_supports_multiple_span_payloads() {
    let date = Date::from_ymd_opt(2025, 1, 15);
    let source: Arc<str> = Arc::from("from span #work");
    let second_source: Arc<str> = Arc::from("from second span #work");
    let content = vec![
        create_test_span_content(
            vec!["work"],
            source,
            SourceSpan::new(0, "from span #work".len()),
            "2025-01-15.md",
            date,
        ),
        create_test_span_content(
            vec!["work"],
            second_source,
            SourceSpan::new(0, "from second span #work".len()),
            "2025-01-15.md",
            date,
        ),
    ];

    let query = TagQuery::parse("work").unwrap();
    let markdown = TagCompiler::to_markdown(
        content,
        &query,
        CompilationFormat::Chronological,
        CompilationDateStyle::SingleDate,
        false,
    );

    assert!(markdown.contains("from span #work"));
    assert!(markdown.contains("from second span #work"));
}

#[test]
fn test_to_markdown_for_output_rewrites_span_links() {
        let source_file = "/tmp/journal/2025-01-15.md".to_string();
    let output_file = "/tmp/journal/.compilations/work.md";
    let source_text: Arc<str> = Arc::from("See [Doc](./docs/design.md). #work");
    let content = vec![TaggedContent::with_payload(
        vec!["work".to_string()],
        ContentPayload::Span {
            span: SourceSpan::new(0, source_text.len()),
            source: source_text,
        },
        source_file,
        Date::from_ymd_opt(2025, 1, 15),
        TagContext::Paragraph,
    )];

    let query = TagQuery::parse("work").unwrap();
    let markdown = TagCompiler::to_markdown_for_output(
        content,
        &query,
        CompilationFormat::Chronological,
        CompilationDateStyle::SingleDate,
        false,
        Some(output_file),
    );

    assert!(markdown.contains("[Doc](../docs/design.md)"));
}
