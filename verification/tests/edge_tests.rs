use djour::commands::{
    append_entry, archived_path, compile_notes, daily_note, default_output,
    is_current_weekly_filename, join_path, normalize_relative_path,
    note_entry_from_relative_path, parent_dir, parse_cli_date, parse_format, plan_migration,
    refuse_custom_templates, resolve_archive_dir, select_notes, MigrationStep, NoteText,
};
use djour::links::rewrite_link_target;
use djour::services::collect_tags;
use djour::{
    extract_tags, retag_markdown, strip_tags, CompilationDateStyle, CompilationFormat, Config,
    ConfigService, ContentPayload, Date, DjourError, FileSystemRepository, JournalMode, NoteEntry,
    RetagReport, SourceSpan, TagCompiler, TagContext, TagParser, TagQuery, TaggedContent,
};
use std::sync::Arc;

fn tags(list: &[&str]) -> Vec<String> {
    list.iter().map(|t| t.to_string()).collect()
}

fn day(y: i32, m: u32, d: u32) -> Date {
    Date::from_ymd_opt(y, m, d).unwrap()
}

fn config_message(r: Result<TagQuery, DjourError>) -> String {
    match r {
        Err(DjourError::Config(m)) => m,
        other => panic!("expected a configuration error, got {:?}", other),
    }
}

// ----- queries -----

#[test]
fn query_errors_name_what_is_wrong() {
    assert_eq!(config_message(TagQuery::parse("")), "Empty query");
    assert_eq!(config_message(TagQuery::parse(" \t\n")), "Empty query");
    assert_eq!(config_message(TagQuery::parse("#")), "Invalid tag: #");
    assert_eq!(config_message(TagQuery::parse("work AND # OR x")), "Invalid tag: #");
    assert_eq!(config_message(TagQuery::parse("work@email")), "Invalid tag: work@email");
    assert_eq!(config_message(TagQuery::parse("caf\u{e9}")), "Invalid tag: caf\u{e9}");
    assert_eq!(config_message(TagQuery::parse("(a")), "Invalid tag: (a");
    assert_eq!(config_message(TagQuery::parse("work AND")), "Unexpected end of query");
    assert_eq!(config_message(TagQuery::parse("NOT")), "Unexpected end of query");
    assert_eq!(config_message(TagQuery::parse("AND work")), "Expected tag, found And");
    assert_eq!(config_message(TagQuery::parse("work OR OR x")), "Expected tag, found Or");
    assert_eq!(config_message(TagQuery::parse("a AND NOT AND")), "Expected tag, found And");
    assert_eq!(
        config_message(TagQuery::parse("work urgent")),
        "Unexpected tokens after position 1"
    );
    assert_eq!(
        config_message(TagQuery::parse("a AND b NOT c")),
        "Unexpected tokens after position 3"
    );
}

#[test]
fn query_words_are_split_at_any_white_space() {
    let query = TagQuery::parse("  work\tand\u{a0}#Urgent\n").unwrap();
    assert_eq!(
        query,
        TagQuery::And(
            Box::new(TagQuery::Single("work".to_string())),
            Box::new(TagQuery::Single("urgent".to_string()))
        )
    );
}

#[test]
fn operators_behind_a_hash_are_tags() {
    let query = TagQuery::parse("#and OR #NOT").unwrap();
    assert_eq!(
        query,
        TagQuery::Or(
            Box::new(TagQuery::Single("and".to_string())),
            Box::new(TagQuery::Single("not".to_string()))
        )
    );
    assert_eq!(query.to_string(), "(#and OR #not)");
}

#[test]
fn query_printing_and_copying() {
    let query = TagQuery::parse("a AND NOT b OR NOT NOT c AND d").unwrap();
    assert_eq!(query.to_string(), "(#a AND NOT #b OR NOT NOT #c AND #d)");
    assert_eq!(query.clone(), query);
    assert!(query.matches(&tags(&["a"])));
    assert!(!query.matches(&tags(&["a", "b"])));
    assert!(query.matches(&tags(&["a", "b", "c", "d"])));
    assert!(!query.matches(&tags(&[])));
}

// ----- tags in text -----

#[test]
fn tags_are_found_and_stripped_and_nothing_else_is_lost() {
    assert_eq!(extract_tags("a ##b #c#d #-x_1 # #"), vec!["b", "c", "d", "-x_1"]);
    assert_eq!(strip_tags("a ##b #c#d #-x_1 # #"), "a #   # #");
    assert_eq!(strip_tags("  tab\t#t\tkept  "), "  tab\t\tkept  ");
    assert_eq!(extract_tags("#caf\u{e9} #\u{e9}t\u{e9}"), vec!["caf"]);
    assert_eq!(strip_tags("#caf\u{e9} #\u{e9}t\u{e9}"), "\u{e9} #\u{e9}t\u{e9}");
    assert_eq!(strip_tags("#only #tags"), " ");
    assert_eq!(strip_tags("a #b"), "a ");
    assert_eq!(extract_tags(""), Vec::<String>::new());
    let text = "Keep (this), #drop that; and #Drop-2 the rest.";
    let mut expected = String::new();
    for piece in ["Keep (this), ", " that; and ", " the rest."] {
        expected.push_str(piece);
    }
    assert_eq!(strip_tags(text), expected);
}

#[test]
fn retagging_counts_and_keeps_code() {
    let input = "#a `#a` #A-b #a\n\n```\n#a\n```\n\n    #a indented\n\nend #a";
    let result = retag_markdown(input, "A", "z");
    assert_eq!(
        result.content,
        "#z `#a` #A-b #z\n\n```\n#a\n```\n\n    #a indented\n\nend #z"
    );
    assert_eq!(result.replacements, 3);
    let same = retag_markdown("x #a", "a", "A");
    assert_eq!(same.content, "x #a");
    assert_eq!(same.replacements, 0);
    let empty = retag_markdown("", "a", "b");
    assert_eq!(empty.content, "");
    assert_eq!(empty.replacements, 0);
    let wide = retag_markdown("\u{e9}\u{e9} `#a` \u{1f600} #a", "a", "b");
    assert_eq!(wide.content, "\u{e9}\u{e9} `#a` \u{1f600} #b");
    assert_eq!(wide.replacements, 1);
}

// ----- links -----

#[test]
fn link_targets_are_rewritten_or_kept() {
    let source = "notes/2025-01-15.md";
    let out = Some("compilations/work.md");
    assert_eq!(rewrite_link_target("./docs/x.md", source, out), "../notes/docs/x.md");
    assert_eq!(rewrite_link_target("docs/x.md#part", source, out), "../notes/docs/x.md#part");
    assert_eq!(rewrite_link_target("../img/a.png?x=1#y", source, out), "../img/a.png?x=1#y");
    assert_eq!(rewrite_link_target("../compilations/b.md", source, out), "b.md");
    assert_eq!(rewrite_link_target("../compilations", source, out), ".");
    assert_eq!(rewrite_link_target("a/../../../up.md", source, out), "../../up.md");
    assert_eq!(rewrite_link_target("", source, out), "");
    assert_eq!(rewrite_link_target("#frag", source, out), "#frag");
    assert_eq!(rewrite_link_target("?q=1", source, out), "?q=1");
    assert_eq!(rewrite_link_target("/abs/x.md", source, out), "/abs/x.md");
    assert_eq!(rewrite_link_target("//host/x.md", source, out), "//host/x.md");
    assert_eq!(rewrite_link_target("\\\\share\\x", source, out), "\\\\share\\x");
    assert_eq!(rewrite_link_target("https://e.org/x", source, out), "https://e.org/x");
    assert_eq!(rewrite_link_target("mailto:a@b.c", source, out), "mailto:a@b.c");
    assert_eq!(rewrite_link_target("x+y-z.1:rest", source, out), "x+y-z.1:rest");
    assert_eq!(rewrite_link_target("1x:rest", source, out), "../notes/1x:rest");
    assert_eq!(rewrite_link_target("a\\b.md", source, out), "../notes/a/b.md");
    assert_eq!(rewrite_link_target("./docs/x.md", source, None), "./docs/x.md");
    assert_eq!(rewrite_link_target("x.md", "/abs/n.md", out), "x.md");
    assert_eq!(rewrite_link_target("x.md", "/abs/n.md", Some("/abs/out/w.md")), "../x.md");
    assert_eq!(rewrite_link_target("x.md", "n.md", Some("w.md")), "x.md");
}

#[test]
fn links_images_and_html_are_rebuilt_in_fragments() {
    let markdown = "See [Doc](docs/a.md \"The \\\"doc\\\"\") and ![Pic](p.png) here. #work\n\n<img src = \"i/one.png\" HREF='two.png' alt='#work'>\n";
    let fragments = TagParser::extract_from_markdown_for_output(
        markdown,
        "notes/n.md",
        None,
        Some("out/c.md"),
    );
    assert_eq!(fragments.len(), 2);
    assert_eq!(
        fragments[0].content(),
        "See [Doc](../notes/docs/a.md \"The \\\"doc\\\"\") and ![Pic](../notes/p.png) here. #work"
    );
    assert_eq!(
        fragments[1].content(),
        "<img src=\"../notes/i/one.png\" HREF='../notes/two.png' alt='#work'>"
    );
    assert_eq!(fragments[1].tags, vec!["work"]);
}

// ----- extraction -----

#[test]
fn units_without_text_are_not_fragments() {
    let markdown = "#lonely\n\n## Empty #tagged\n\n## Next\n\n- #itemtag\n";
    let fragments = TagParser::extract_from_markdown(markdown, "n.md", None);
    assert_eq!(fragments.len(), 0);
}

#[test]
fn a_paragraph_of_tags_hands_them_to_the_list_behind_it() {
    let markdown = "#shop\n\n- milk\n- eggs #fresh\n\nafter\n";
    let fragments = TagParser::extract_from_markdown(markdown, "n.md", None);
    assert_eq!(fragments.len(), 2);
    assert_eq!(fragments[0].content(), "- milk");
    assert_eq!(fragments[0].tags, vec!["shop"]);
    assert_eq!(fragments[0].context, TagContext::Paragraph);
    assert_eq!(fragments[1].content(), "- eggs #fresh");
    assert_eq!(fragments[1].tags, vec!["shop", "fresh"]);
}

#[test]
fn nested_items_come_behind_their_parent_with_their_indent() {
    let markdown = "- top #a\n  - inner one\n    - deep #b\n  - inner two\n- plain\n";
    let fragments = TagParser::extract_from_markdown(markdown, "n.md", None);
    let texts: Vec<String> = fragments.iter().map(|f| f.content()).collect();
    assert_eq!(
        texts,
        vec!["- top #a", "  - inner one", "    - deep #b", "  - inner two"]
    );
    assert_eq!(fragments[0].tags, vec!["a"]);
    assert_eq!(fragments[1].tags, vec!["a"]);
    assert_eq!(fragments[2].tags, vec!["a", "b"]);
    assert_eq!(fragments[3].tags, vec!["a"]);
}

#[test]
fn under_a_tagged_heading_only_units_with_tags_of_their_own_are_fragments() {
    let markdown = "# Top #t\n\nplain\n\nown #o\n\n## Sub\n\nplain two\n\n- item #i\n- bare\n";
    let fragments = TagParser::extract_from_markdown(markdown, "n.md", None);
    let texts: Vec<String> = fragments.iter().map(|f| f.content()).collect();
    assert_eq!(
        texts,
        vec![
            "plain\n\nown #o\n\n## Sub\n\nplain two\n\n- item #i\n- bare",
            "own #o",
            "- item #i"
        ]
    );
    assert_eq!(fragments[0].tags, vec!["t"]);
    assert_eq!(fragments[1].tags, vec!["t", "o"]);
    assert_eq!(
        fragments[1].context,
        TagContext::Section {
            heading: "Top".to_string(),
            level: 1
        }
    );
    assert_eq!(fragments[2].tags, vec!["t", "i"]);
    assert_eq!(
        fragments[2].context,
        TagContext::Section {
            heading: "Sub".to_string(),
            level: 2
        }
    );
}

#[test]
fn under_an_untagged_heading_nothing_is_inherited() {
    let markdown = "## Plain\n\nno tag here\n\ntagged #x\n";
    let fragments = TagParser::extract_from_markdown(markdown, "n.md", None);
    assert_eq!(fragments.len(), 1);
    assert_eq!(fragments[0].content(), "tagged #x");
    assert_eq!(
        fragments[0].context,
        TagContext::Section {
            heading: "Plain".to_string(),
            level: 2
        }
    );
}

#[test]
fn code_blocks_join_the_paragraph_or_item_before_them() {
    let markdown = "Caption #c\n\n```rust\nfn f() {}\n```\n\n- item #i\n\n  ```\n  x\n  ```\n";
    let fragments = TagParser::extract_from_markdown(markdown, "n.md", None);
    assert_eq!(fragments.len(), 2);
    assert_eq!(fragments[0].content(), "Caption #c\n\n```rust\nfn f() {}\n```");
    assert_eq!(fragments[1].content(), "- item #i\n\n  ```\n  x\n  ```");
}

#[test]
fn a_code_block_alone_is_a_fragment_under_inherited_tags() {
    let markdown = "## Code\n\n#snip\n\n- x\n\n```sh\nls\n```\n";
    let fragments = TagParser::extract_from_markdown(markdown, "n.md", None);
    let texts: Vec<String> = fragments.iter().map(|f| f.content()).collect();
    assert_eq!(texts, vec!["- x"]);
    let tagged = "# T #t\n\n```sh\nls\n```\n";
    let fragments = TagParser::extract_from_markdown(tagged, "n.md", None);
    let texts: Vec<String> = fragments.iter().map(|f| f.content()).collect();
    assert_eq!(texts, vec!["```sh\nls\n```"]);
}

#[test]
fn headings_in_code_fences_are_no_headings() {
    let markdown = "# A #a\n\n```\n# not a heading\n```\n\ntext\n\n# B #b\n\nmore\n";
    let fragments = TagParser::extract_from_markdown(markdown, "n.md", None);
    assert_eq!(fragments[0].content(), "```\n# not a heading\n```\n\ntext");
    assert_eq!(fragments.last().unwrap().content(), "more");
    assert_eq!(fragments.last().unwrap().tags, vec!["b"]);
}

// ----- compiling -----

fn literal(taglist: &[&str], text: &str, file: &str, date: Option<Date>) -> TaggedContent {
    TaggedContent::new(
        tags(taglist),
        text.to_string(),
        file.to_string(),
        date,
        TagContext::Paragraph,
    )
}

fn section(taglist: &[&str], text: &str, file: &str, heading: &str, level: usize) -> TaggedContent {
    TaggedContent::new(
        tags(taglist),
        text.to_string(),
        file.to_string(),
        None,
        TagContext::Section {
            heading: heading.to_string(),
            level,
        },
    )
}

#[test]
fn subsumption_depends_on_order_and_document() {
    let query = TagQuery::parse("w").unwrap();
    let body = "one\ntwo";
    let kept = TagCompiler::filter(
        vec![
            literal(&["w"], "one", "a.md", None),
            section(&["w"], body, "a.md", "H", 1),
            literal(&["w"], "two", "a.md", None),
            literal(&["w"], "two", "b.md", None),
            literal(&["w"], body, "a.md", None),
            literal(&["w"], "  ", "a.md", None),
        ],
        &query,
    );
    let texts: Vec<String> = kept.iter().map(|f| f.content()).collect();
    assert_eq!(texts, vec!["one", body, "two", body, "  "]);
    assert_eq!(kept[2].source_file, "b.md");
}

#[test]
fn chronological_layout_in_full() {
    let query = TagQuery::parse("w").unwrap();
    let content = vec![
        literal(&["w"], "undated z", "z.md", None),
        literal(&["w"], "- second", "b.md", Some(day(2025, 1, 16))),
        literal(&["w"], "first", "a.md", Some(day(2025, 1, 15))),
        literal(&["w"], "- third", "b.md", Some(day(2025, 1, 16))),
        literal(&["w"], "undated a", "a.md", None),
        section(&["w"], "under heading", "0.md", "Title", 2),
    ];
    let output = TagCompiler::to_markdown(
        content,
        &query,
        CompilationFormat::Chronological,
        CompilationDateStyle::SingleDate,
        true,
    );
    assert_eq!(
        output,
        "# Compilation: #w\n\n\n## 15-01-2025\n\nfirst\n\n\n## 16-01-2025\n\n- second\n- third\n\n\n## Undated\n\n#### Title\n\nunder heading\n\nundated a\n\nundated z\n"
    );
}

#[test]
fn grouped_layout_in_full() {
    let query = TagQuery::parse("w OR v").unwrap();
    let content = vec![
        literal(&["w"], "b one", "dir/b.md", None),
        literal(&["v"], "a one", "a.md", Some(day(2025, 2, 10))),
        literal(&["w"], "b two", "other/b.md", Some(day(2024, 12, 30))),
        literal(&["w"], "nameless", "..", None),
    ];
    let output = TagCompiler::to_markdown(
        content,
        &query,
        CompilationFormat::Grouped,
        CompilationDateStyle::MonthRange,
        false,
    );
    assert_eq!(
        output,
        "# Compilation: (#w OR #v)\n\n\n## From: a.md (10-02-2025 to 28-02-2025)\n\na one\n\n\n## From: b.md (30-12-2024 to 31-12-2024)\n\nb one\n\nb two\n\n\n## From: unknown\n\nnameless\n"
    );
}

#[test]
fn week_ranges_cross_months_and_years() {
    let query = TagQuery::parse("w").unwrap();
    let output = TagCompiler::to_markdown(
        vec![literal(&["w"], "x", "a.md", Some(day(2024, 12, 30)))],
        &query,
        CompilationFormat::Chronological,
        CompilationDateStyle::WeekRange,
        false,
    );
    assert_eq!(output, "# Compilation: #w\n\n\n## 30-12-2024 to 05-01-2025\n\nx\n");
    let leap = TagCompiler::end_of_month(&day(2024, 2, 3)).unwrap();
    assert_eq!((leap.year(), leap.month(), leap.day()), (2024, 2, 29));
    let december = TagCompiler::end_of_month(&day(2025, 12, 31)).unwrap();
    assert_eq!((december.year(), december.month(), december.day()), (2025, 12, 31));
}

#[test]
fn dates_at_the_end_of_the_calendar_have_no_range() {
    let query = TagQuery::parse("w").unwrap();
    let last = day(262142, 12, 31);
    assert!(TagCompiler::range_end_of(&last, CompilationDateStyle::WeekRange).is_none());
    assert!(TagCompiler::range_end_of(&last, CompilationDateStyle::MonthRange).is_none());
    assert!(TagCompiler::range_end_of(&last, CompilationDateStyle::SingleDate).is_some());
    let content = vec![literal(&["w"], "x", "a.md", Some(last))];
    assert!(TagCompiler::compile(
        content.clone(),
        &query,
        CompilationFormat::Chronological,
        CompilationDateStyle::WeekRange,
        false,
        None
    )
    .is_none());
    assert!(TagCompiler::compile(
        content,
        &query,
        CompilationFormat::Chronological,
        CompilationDateStyle::SingleDate,
        false,
        None
    )
    .is_some());
    assert!(Date::from_ymd_opt(262143, 1, 1).is_none());
    assert!(Date::from_ymd_opt(-262143, 1, 1).is_some());
    assert!(Date::from_ymd_opt(-262144, 12, 31).is_none());
    assert!(Date::from_ymd_opt(2023, 2, 29).is_none());
    assert!(Date::from_ymd_opt(2000, 2, 29).is_some());
    assert!(Date::from_ymd_opt(1900, 2, 29).is_none());
    assert!(Date::from_ymd_opt(2025, 4, 31).is_none());
    assert!(Date::from_ymd_opt(2025, 0, 1).is_none());
    assert!(Date::from_ymd_opt(2025, 13, 1).is_none());
    assert!(Date::from_ymd_opt(2025, 1, 0).is_none());
}

#[test]
fn spans_are_cut_by_bytes_and_gaps_must_be_blank() {
    let source: Arc<str> = Arc::from("\u{e9}t\u{e9} one\n\n\u{1f600} two\nrest three");
    let span = |start: usize, end: usize| {
        TaggedContent::with_payload(
            tags(&["w"]),
            ContentPayload::Span {
                span: SourceSpan::new(start, end),
                source: Arc::clone(&source),
            },
            "a.md".to_string(),
            None,
            TagContext::Paragraph,
        )
    };
    let first = span(0, 9);
    let second = span(11, 19);
    let third = span(25, 30);
    assert_eq!(first.content(), "\u{e9}t\u{e9} one");
    assert_eq!(second.content(), "\u{1f600} two");
    assert_eq!(third.content(), "three");
    assert_eq!(span(9, 2).content(), "");
    assert_eq!(span(25, 1000).content(), "three");
    assert_eq!(first.span_gap_to(&second), Some(vec!['\n', '\n']));
    assert_eq!(second.span_gap_to(&third), None);
    assert_eq!(second.span_gap_to(&first), None);
    let query = TagQuery::parse("w").unwrap();
    let output = TagCompiler::to_markdown(
        vec![first, second, third],
        &query,
        CompilationFormat::Chronological,
        CompilationDateStyle::SingleDate,
        false,
    );
    assert_eq!(
        output,
        "# Compilation: #w\n\n\u{e9}t\u{e9} one\n\n\u{1f600} two\n\nthree\n"
    );
}

#[test]
fn list_items_are_recognised_by_their_first_line() {
    for text in ["- a", "* a", "+ a", "  \n\t 1. a", "23) a", "\n- a\nmore"] {
        assert!(TagCompiler::looks_like_list_item(&text.chars().collect()), "{:?}", text);
    }
    for text in ["", "-a", "1.a", "a. b", ". a", "1 a", "text\n- a", "1.", "-"] {
        assert!(!TagCompiler::looks_like_list_item(&text.chars().collect()), "{:?}", text);
    }
}

// ----- commands -----

#[test]
fn compiling_notes_end_to_end() {
    let notes = vec![
        NoteText {
            filename: "2025-01-16.md".to_string(),
            date: Some(day(2025, 1, 16)),
            content: "later #w".to_string(),
        },
        NoteText {
            filename: "empty.md".to_string(),
            date: None,
            content: String::new(),
        },
        NoteText {
            filename: "2025-01-15.md".to_string(),
            date: Some(day(2025, 1, 15)),
            content: "## H #w\n\nearlier\n".to_string(),
        },
    ];
    let output = compile_notes(
        "w",
        "/journal",
        &notes,
        CompilationFormat::Chronological,
        JournalMode::Daily,
        true,
    )
    .unwrap();
    assert_eq!(
        output,
        "# Compilation: #w\n\n\n## 15-01-2025\n\n#### H\n\nearlier\n\n\n## 16-01-2025\n\nlater #w\n"
    );
    match compile_notes("x", "/journal", &notes, CompilationFormat::Grouped, JournalMode::Daily, false) {
        Err(DjourError::TagNotFound(m)) => assert_eq!(m, "No content found matching query: x"),
        other => panic!("{:?}", other),
    }
    match compile_notes("x", "/journal", &Vec::new(), CompilationFormat::Grouped, JournalMode::Daily, false) {
        Err(DjourError::TagNotFound(m)) => assert_eq!(m, "No notes found for query: x"),
        other => panic!("{:?}", other),
    }
    match compile_notes("x y", "/journal", &notes, CompilationFormat::Grouped, JournalMode::Daily, false) {
        Err(DjourError::Config(m)) => assert_eq!(m, "Unexpected tokens after position 1"),
        other => panic!("{:?}", other),
    }
    assert_eq!(default_output("Work AND #urgent!"), "compilations/work-and-_urgent.md");
    assert_eq!(join_path("/journal", "a.md"), "/journal/a.md");
    assert_eq!(join_path("/journal/", "a.md"), "/journal/a.md");
    assert_eq!(join_path("", "a.md"), "a.md");
    assert_eq!(join_path("/journal", "/abs.md"), "/abs.md");
}

#[test]
fn arguments_are_read() {
    let date = parse_cli_date(Some("17-01-2025".to_string())).unwrap().unwrap();
    assert_eq!((date.year(), date.month(), date.day()), (2025, 1, 17));
    assert!(parse_cli_date(None).unwrap().is_none());
    match parse_cli_date(Some("2025-01-17".to_string())) {
        Err(DjourError::Config(m)) => {
            assert_eq!(m, "Invalid date format: 2025-01-17. Use DD-MM-YYYY")
        }
        other => panic!("{:?}", other),
    }
    assert_eq!(parse_format("Grouped").unwrap(), CompilationFormat::Grouped);
    assert_eq!(parse_format("CHRONOLOGICAL").unwrap(), CompilationFormat::Chronological);
    match parse_format("table") {
        Err(DjourError::Config(m)) => {
            assert_eq!(m, "Invalid format: table. Use 'chronological' or 'grouped'")
        }
        other => panic!("{:?}", other),
    }
}

#[test]
fn notes_are_selected_and_ordered() {
    let notes = vec![
        NoteEntry::new("b.md".to_string(), None),
        NoteEntry::new("2025-01-10.md".to_string(), Some(day(2025, 1, 10))),
        NoteEntry::new("2025-01-20.md".to_string(), Some(day(2025, 1, 20))),
        NoteEntry::new("a.md".to_string(), None),
        NoteEntry::new("2025-01-15.md".to_string(), Some(day(2025, 1, 15))),
        NoteEntry::new("sub/2025-01-15.md".to_string(), Some(day(2025, 1, 15))),
    ];
    let names = |list: Vec<NoteEntry>| -> Vec<String> { list.into_iter().map(|n| n.filename).collect() };
    assert_eq!(
        names(select_notes(&notes, None, None, None)),
        vec!["2025-01-20.md", "2025-01-15.md", "sub/2025-01-15.md", "2025-01-10.md", "a.md", "b.md"]
    );
    assert_eq!(
        names(select_notes(&notes, Some(day(2025, 1, 15)), Some(day(2025, 1, 15)), None)),
        vec!["2025-01-15.md", "sub/2025-01-15.md", "a.md", "b.md"]
    );
    assert_eq!(
        names(select_notes(&notes, Some(day(2025, 1, 11)), None, Some(2))),
        vec!["2025-01-20.md", "2025-01-15.md"]
    );
    assert_eq!(names(select_notes(&notes, None, None, Some(0))), Vec::<String>::new());
    assert_eq!(select_notes(&notes, None, None, Some(100)).len(), 6);
}

#[test]
fn files_are_read_as_notes() {
    let note = note_entry_from_relative_path(JournalMode::Daily, "sub/2025-01-17.md").unwrap();
    assert_eq!(note.filename, "sub/2025-01-17.md");
    assert_eq!(note.date, Some(day(2025, 1, 17)));
    assert!(note_entry_from_relative_path(JournalMode::Daily, "2025-01-17.txt").is_none());
    assert!(note_entry_from_relative_path(JournalMode::Daily, "notes.md").is_none());
    assert!(note_entry_from_relative_path(JournalMode::Daily, "").is_none());
    let single = note_entry_from_relative_path(JournalMode::Single, "journal.md").unwrap();
    assert_eq!(single.date, None);
    assert!(note_entry_from_relative_path(JournalMode::Single, "2025-01-17.md").is_none());
    assert_eq!(normalize_relative_path("a//b/./c/"), "a/b/c");
    assert_eq!(normalize_relative_path("./a"), "./a");
    assert_eq!(normalize_relative_path("/a"), "//a");
    assert_eq!(parent_dir("/a/b"), Some("/a".to_string()));
    assert_eq!(parent_dir("/a"), Some("/".to_string()));
    assert_eq!(parent_dir("/"), None);
    assert_eq!(parent_dir(""), None);
    assert_eq!(parent_dir("a"), Some("".to_string()));
    assert_eq!(parent_dir("./a"), Some(".".to_string()));
    assert_eq!(parent_dir("."), Some("".to_string()));
    assert_eq!(parent_dir("a/b/"), Some("a".to_string()));
}

#[test]
fn small_decisions_of_the_commands() {
    assert_eq!(append_entry("", "new"), "new");
    assert_eq!(append_entry("old", "new"), "old\nnew");
    assert_eq!(archived_path("arch", "a.md"), "arch/a.md");
    assert_eq!(
        daily_note(day(2025, 1, 17), "\r\n\nbody\n").unwrap(),
        "# January 17, 2025\n\nbody\n"
    );
    assert!(daily_note(day(2025, 1, 17), "\n \n").is_none());
    assert!(is_current_weekly_filename("2025-W03-2025-01-13.md"));
    assert!(!is_current_weekly_filename("2025-W03.md"));
    assert!(!is_current_weekly_filename("2025-W3-2025-01-13.md"));
    assert!(!is_current_weekly_filename("2025-W03-2025-02-30.md"));
    assert!(!is_current_weekly_filename("2025-X03-2025-01-13.md"));
    assert!(!is_current_weekly_filename("2025-W03-2025-01-13.txt"));
    assert_eq!(
        plan_migration(JournalMode::Daily, JournalMode::Weekly).unwrap(),
        MigrationStep::DailyToWeekly
    );
    assert_eq!(
        plan_migration(JournalMode::Weekly, JournalMode::Daily).unwrap(),
        MigrationStep::WeeklyToDaily
    );
    assert_eq!(
        plan_migration(JournalMode::Single, JournalMode::Single).unwrap(),
        MigrationStep::Nothing
    );
    assert!(plan_migration(JournalMode::Daily, JournalMode::Monthly).is_err());
    assert!(refuse_custom_templates(false, false).is_ok());
    assert!(refuse_custom_templates(true, false).is_err());
    assert!(refuse_custom_templates(false, true).is_err());
    assert_eq!(resolve_archive_dir(Some("old"), "s").unwrap(), "old");
    assert_eq!(
        resolve_archive_dir(None, "20250117-101500").unwrap(),
        ".djour/archive/mode-migration-20250117-101500"
    );
    assert!(resolve_archive_dir(Some("/abs"), "s").is_err());
    let mut report = RetagReport::new(true);
    report.record("a.md", 0);
    report.record("b.md", 2);
    report.record("c.md", 3);
    assert_eq!(report.scanned_files, 3);
    assert_eq!(report.changed_files, 2);
    assert_eq!(report.total_replacements, 5);
    assert!(report.dry_run);
    assert_eq!(report.changes.len(), 2);
    assert_eq!(report.changes[1].filename, "c.md");
    assert_eq!(report.changes[1].replacements, 3);
    assert_eq!(
        collect_tags(&vec!["#b #a".to_string(), "x #c #A".to_string()]),
        vec!["a", "b", "c"]
    );
}

#[test]
fn configuration_keys() {
    let service = ConfigService::new(FileSystemRepository::new("/j".to_string()));
    let mut config = Config {
        mode: JournalMode::Weekly,
        editor: "vim".to_string(),
        created: "2025-01-17T10:00:00+00:00".to_string(),
    };
    assert_eq!(service.get(&config, "mode").unwrap(), "weekly");
    assert_eq!(service.get(&config, "editor").unwrap(), "vim");
    assert_eq!(service.get(&config, "created").unwrap(), "2025-01-17T10:00:00+00:00");
    match service.get(&config, "colour") {
        Err(DjourError::Config(m)) => {
            assert_eq!(m, "Unknown config key: 'colour'. Valid keys are: mode, editor, created")
        }
        other => panic!("{:?}", other),
    }
    service.set(&mut config, "mode", "Monthly").unwrap();
    assert_eq!(config.mode, JournalMode::Monthly);
    service.set(&mut config, "editor", "code -w").unwrap();
    assert_eq!(config.editor, "code -w");
    assert!(service.set(&mut config, "mode", "yearly").is_err());
    assert_eq!(config.mode, JournalMode::Monthly);
    match service.set(&mut config, "created", "now") {
        Err(DjourError::Config(m)) => assert_eq!(m, "Cannot modify 'created' field (read-only)"),
        other => panic!("{:?}", other),
    }
    match service.set(&mut config, "colour", "red") {
        Err(DjourError::Config(m)) => {
            assert_eq!(m, "Unknown config key: 'colour'. Valid keys are: mode, editor")
        }
        other => panic!("{:?}", other),
    }
    assert_eq!(JournalMode::default(), JournalMode::Daily);
    assert_eq!(DjourError::Config("x".to_string()).exit_code(), 1);
    assert_eq!(DjourError::NotDjourDirectory("x".to_string()).exit_code(), 2);
    assert_eq!(DjourError::InvalidTimeReference("x".to_string()).exit_code(), 3);
    assert_eq!(DjourError::TagNotFound("x".to_string()).exit_code(), 4);
    assert_eq!(DjourError::Io("disk".to_string()).to_string(), "IO error: disk");
}

// ----- dates as they are written -----

#[test]
fn dates_are_written_in_digits_and_english_names() {
    let d = Date::from_ymd_opt(2025, 1, 15).unwrap();
    assert_eq!(d.format("%d-%m-%Y"), "15-01-2025");
    assert_eq!(d.format("%Y-%m-%d"), "2025-01-15");
    assert_eq!(d.format("%Y-%m"), "2025-01");
    assert_eq!(d.format("%Y"), "2025");
    assert_eq!(d.format("%B"), "January");
    assert_eq!(d.format("%A"), "Wednesday");
    assert_eq!(d.format("%B %d, %Y"), "January 15, 2025");
    let names = [
        "January", "February", "March", "April", "May", "June", "July", "August", "September",
        "October", "November", "December",
    ];
    for (i, name) in names.iter().enumerate() {
        let first = Date::from_ymd_opt(2024, i as u32 + 1, 1).unwrap();
        assert_eq!(first.format("%B"), *name);
    }
    let days = ["Monday", "Tuesday", "Wednesday", "Thursday", "Friday", "Saturday", "Sunday"];
    for (i, name) in days.iter().enumerate() {
        let day = Date::from_ymd_opt(2025, 1, 13 + i as u32).unwrap();
        assert_eq!(day.weekday(), i as u32);
        assert_eq!(day.format("%A"), *name);
    }
}

#[test]
fn years_are_written_with_four_digits_or_a_sign() {
    assert_eq!(Date::from_ymd_opt(0, 1, 1).unwrap().format("%Y"), "0000");
    assert_eq!(Date::from_ymd_opt(5, 3, 4).unwrap().format("%Y-%m-%d"), "0005-03-04");
    assert_eq!(Date::from_ymd_opt(73, 3, 4).unwrap().format("%d-%m-%Y"), "04-03-0073");
    assert_eq!(Date::from_ymd_opt(999, 12, 31).unwrap().format("%Y-%m"), "0999-12");
    assert_eq!(Date::from_ymd_opt(1000, 1, 1).unwrap().format("%Y"), "1000");
    assert_eq!(Date::from_ymd_opt(9999, 12, 31).unwrap().format("%Y-%m-%d"), "9999-12-31");
    assert_eq!(Date::from_ymd_opt(10000, 1, 1).unwrap().format("%Y-%m-%d"), "+10000-01-01");
    assert_eq!(Date::from_ymd_opt(262142, 12, 31).unwrap().format("%Y"), "+262142");
    assert_eq!(Date::from_ymd_opt(-1, 12, 31).unwrap().format("%Y-%m-%d"), "-0001-12-31");
    assert_eq!(Date::from_ymd_opt(-45, 2, 9).unwrap().format("%B %d, %Y"), "February 09, -0045");
    assert_eq!(Date::from_ymd_opt(-999, 1, 1).unwrap().format("%Y"), "-0999");
    assert_eq!(Date::from_ymd_opt(-1000, 1, 1).unwrap().format("%Y"), "-1000");
    assert_eq!(Date::from_ymd_opt(-262143, 1, 1).unwrap().format("%Y-%m"), "-262143-01");
}

#[test]
fn a_week_of_a_year_that_no_date_has_has_no_monday() {
    assert!(Date::from_iso_week_monday(i32::MIN, 1).is_none());
    assert!(Date::from_iso_week_monday(i32::MAX, 1).is_none());
    assert!(Date::from_iso_week_monday(262143, 1).is_none());
    assert!(Date::from_iso_week_monday(-262144, 1).is_none());
    assert!(Date::from_iso_week_monday(2025, 0).is_none());
    assert!(Date::from_iso_week_monday(2025, 54).is_none());
    assert_eq!(
        Date::from_iso_week_monday(2025, 1),
        Some(Date::from_ymd_opt(2024, 12, 30).unwrap())
    );
    assert_eq!(
        JournalMode::Weekly.date_from_filename("-2147483648-W01.md"),
        None
    );
    assert_eq!(
        JournalMode::Weekly.date_from_filename("2025-W03.md"),
        Some(Date::from_ymd_opt(2025, 1, 13).unwrap())
    );
}

#[test]
fn a_compilation_ends_in_one_line_feed_in_both_layouts() {
    let query = TagQuery::parse("w").unwrap();
    for format in [CompilationFormat::Chronological, CompilationFormat::Grouped] {
        for style in [CompilationDateStyle::SingleDate, CompilationDateStyle::WeekRange] {
            let content = vec![
                literal(&["w"], "first", "b.md", Some(day(2025, 1, 1))),
                section(&["w"], "- second\n- third", "a.md", "Notes", 2),
                literal(&["w"], "last", "a.md", None),
            ];
            let text = TagCompiler::to_markdown(content, &query, format, style, true);
            assert!(text.ends_with('\n'));
            assert!(!text.ends_with("\n\n"));
        }
    }
}

#[test]
fn html_inside_running_text_stays_in_the_fragment() {
    let fragments =
        TagParser::extract_from_markdown("Press <kbd>Ctrl</kbd> now #tip\n", "n.md", None);
    assert_eq!(fragments.len(), 1);
    assert_eq!(fragments[0].content(), "Press <kbd>Ctrl</kbd> now #tip");
    assert_eq!(fragments[0].tags, vec!["tip"]);

    let fragments = TagParser::extract_from_markdown_for_output(
        "- See <img src=\"a.png\"> and <a href='b/c.md'>this</a> #work\n",
        "notes/n.md",
        None,
        Some("out/c.md"),
    );
    assert_eq!(fragments.len(), 1);
    assert_eq!(
        fragments[0].content(),
        "- See <img src=\"../notes/a.png\"> and <a href='../notes/b/c.md'>this</a> #work"
    );
}
