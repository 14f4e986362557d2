use djour::{extract_tags, strip_tags, Date, SectionStack, TagContext, TagParser, TaggedContent};

#[test]
fn test_extract_tags() {
    assert_eq!(extract_tags("Hello #world"), vec!["world"]);
    assert_eq!(extract_tags("#work #urgent"), vec!["work", "urgent"]);
    assert_eq!(
        extract_tags("#project-alpha #task_1"),
        vec!["project-alpha", "task_1"]
    );
    assert_eq!(extract_tags("#Work #WORK"), vec!["work", "work"]); // Case insensitive
    assert_eq!(extract_tags("No tags here"), Vec::<String>::new());
}

#[test]
fn test_strip_tags() {
    assert_eq!(strip_tags("Text #work #urgent"), "Text  ");
    assert_eq!(strip_tags("#work Meeting notes #urgent"), " Meeting notes ");
    assert_eq!(strip_tags("No tags"), "No tags");
}

#[test]
fn test_tagged_content_creation() {
    let tc = TaggedContent::new(
        vec!["work".to_string()],
        "Meeting notes".to_string(),
        "2025-01-17.md".to_string(),
        Some(Date::from_ymd_opt(2025, 1, 17).unwrap()),
        TagContext::Section {
            heading: "Daily Standup".to_string(),
            level: 2,
        },
    );

    assert_eq!(tc.tags, vec!["work"]);
    assert_eq!(tc.content(), "Meeting notes");
}

#[test]
fn test_section_stack() {
    let mut stack = SectionStack::new();

    // Push level 1 heading
    stack.push_heading(1, "Main", vec!["tag1".to_string()]);
    assert_eq!(stack.current_tags(), vec!["tag1"]);

    // Push level 2 heading - inherits from level 1
    stack.push_heading(2, "Sub", vec!["tag2".to_string()]);
    assert_eq!(stack.current_tags(), vec!["tag1", "tag2"]);

    // Push another level 2 - replaces previous level 2
    stack.push_heading(2, "Sub2", vec!["tag3".to_string()]);
    assert_eq!(stack.current_tags(), vec!["tag1", "tag3"]);

    // Push level 1 - clears all
    stack.push_heading(1, "Main2", vec!["tag4".to_string()]);
    assert_eq!(stack.current_tags(), vec!["tag4"]);
}

#[test]
fn test_section_stack_deduplication() {
    let mut stack = SectionStack::new();
    stack.push_heading(1, "Main", vec!["work".to_string(), "urgent".to_string()]);
    stack.push_heading(2, "Sub", vec!["urgent".to_string(), "meeting".to_string()]);

    let tags = stack.current_tags();
    assert_eq!(tags, vec!["work", "urgent", "meeting"]); // "urgent" not duplicated
}

    #[test]
    fn test_section_level_tags() {
        let markdown = r#"
## Meeting Notes #work #urgent

Discussed project timeline.
Action items assigned.
"#;

        let results = TagParser::extract_from_markdown(markdown, "test.md", None);

        let heading = results
            .iter()
            .find(|r| {
                matches!(&r.context, TagContext::Section { heading, .. } if heading == "Meeting Notes")
            })
            .unwrap();
        assert_eq!(heading.tags, vec!["work", "urgent"]);
        assert_eq!(
            heading.content(),
            "Discussed project timeline.\nAction items assigned."
        );
        assert_eq!(results.len(), 1);
    }

    #[test]
    fn test_paragraph_level_tags() {
        let markdown = r#"
This is a regular paragraph.

This paragraph has tags. #idea #garden
"#;

        let results = TagParser::extract_from_markdown(markdown, "test.md", None);

        assert_eq!(results.len(), 1);
        assert_eq!(results[0].tags, vec!["idea", "garden"]);
        assert_eq!(results[0].content(), "This paragraph has tags. #idea #garden");
        assert_eq!(results[0].context, TagContext::Paragraph);
    }

    #[test]
    fn test_tag_inheritance() {
        let markdown = r#"
# Project Alpha #project-alpha

## Sprint Planning #work

Planning for sprint 3.

### Tasks #urgent

Critical path items.
"#;

        let results = TagParser::extract_from_markdown(markdown, "test.md", None);

        let project = results
            .iter()
            .find(|r| {
                matches!(&r.context, TagContext::Section { heading, .. } if heading == "Project Alpha")
            })
            .unwrap();
        assert_eq!(project.tags, vec!["project-alpha"]);

        let sprint = results
            .iter()
            .find(|r| {
                matches!(&r.context, TagContext::Section { heading, .. } if heading == "Sprint Planning")
            })
            .unwrap();
        assert_eq!(sprint.tags, vec!["project-alpha", "work"]);

        let tasks = results
            .iter()
            .find(
                |r| matches!(&r.context, TagContext::Section { heading, .. } if heading == "Tasks"),
            )
            .unwrap();
        assert_eq!(tasks.tags, vec!["project-alpha", "work", "urgent"]);
    }

    #[test]
    fn test_sibling_sections() {
        let markdown = r#"
# Main #main

## Section A #tag-a

Content A.

## Section B #tag-b

Content B.
"#;

        let results = TagParser::extract_from_markdown(markdown, "test.md", None);

        // Find Section A and Section B headings
        let section_a = results
            .iter()
            .find(|r| {
                matches!(&r.context, TagContext::Section { heading, .. } if heading == "Section A")
            })
            .unwrap();

        let section_b = results
            .iter()
            .find(|r| {
                matches!(&r.context, TagContext::Section { heading, .. } if heading == "Section B")
            })
            .unwrap();

        // Section A should have main + tag-a
        assert_eq!(section_a.tags, vec!["main", "tag-a"]);

        // Section B should have main + tag-b (NOT tag-a)
        assert_eq!(section_b.tags, vec!["main", "tag-b"]);
    }

    #[test]
    fn test_paragraph_inherits_section_tags() {
        let markdown = r#"
## Work Notes #work

This paragraph should inherit work tag. #meeting
"#;

        let results = TagParser::extract_from_markdown(markdown, "test.md", None);

        // Find the paragraph
        let paragraph = results
            .iter()
            .find(|r| r.tags.contains(&"meeting".to_string()))
            .unwrap();

        // Should have both inherited #work and paragraph #meeting
        assert_eq!(paragraph.tags, vec!["work", "meeting"]);
    }

    #[test]
    fn test_case_insensitive_tags() {
        let markdown = r#"
## Notes #Work #URGENT #Project-Alpha

Content here.
"#;

        let results = TagParser::extract_from_markdown(markdown, "test.md", None);

        assert_eq!(results[0].tags, vec!["work", "urgent", "project-alpha"]);
    }

    #[test]
    fn test_no_tags() {
        let markdown = r#"
## Regular Heading

Regular paragraph with no tags.
"#;

        let results = TagParser::extract_from_markdown(markdown, "test.md", None);

        // Should have no tagged content
        assert_eq!(results.len(), 0);
    }

    #[test]
    fn test_empty_content_ignored() {
        let markdown = r#"
## Heading #tag

"#;

        let results = TagParser::extract_from_markdown(markdown, "test.md", None);

        // Tagged headings with no section body should not create empty entries.
        assert_eq!(results.len(), 0);
    }

    #[test]
    fn test_inline_code_preserved() {
        let markdown = r#"
Use the `git commit` command here. #git #tutorial
"#;

        let results = TagParser::extract_from_markdown(markdown, "test.md", None);

        assert_eq!(results.len(), 1);
        assert!(results[0].content().contains("`git commit`"));
    }

    #[test]
    fn test_markdown_link_preserved() {
        let markdown = r#"
See [Design Doc](./docs/design.md). #work
"#;

        let results = TagParser::extract_from_markdown(markdown, "test.md", None);

        assert_eq!(results.len(), 1);
        assert!(results[0]
            .content()
            .contains("[Design Doc](./docs/design.md)"));
    }

    #[test]
    fn test_markdown_image_preserved() {
        let markdown = r#"
![Diagram](./images/diagram.png) #work
"#;

        let results = TagParser::extract_from_markdown(markdown, "test.md", None);

        assert_eq!(results.len(), 1);
        assert!(results[0]
            .content()
            .contains("![Diagram](./images/diagram.png)"));
    }

    #[test]
    fn test_markdown_paths_rewritten_for_output_file() {
                let source = "/tmp/journal/2025-01-15.md";
        let output = "/tmp/journal/.compilations/work.md";
        let markdown = r#"
See [Design Doc](./docs/design.md). #work

![Diagram](./images/diagram.png) #work
"#;

        let results =
            TagParser::extract_from_markdown_for_output(markdown, source, None, Some(output));

        let combined = results
            .iter()
            .map(|r| r.content())
            .collect::<Vec<String>>()
            .join("\n");

        assert!(combined.contains("[Design Doc](../docs/design.md)"));
        assert!(combined.contains("![Diagram](../images/diagram.png)"));
    }

    #[test]
    fn test_external_link_not_rewritten() {
                let source = "/tmp/journal/2025-01-15.md";
        let output = "/tmp/journal/.compilations/work.md";
        let markdown = r#"
See [Website](https://example.com/docs). #work
"#;

        let results =
            TagParser::extract_from_markdown_for_output(markdown, source, None, Some(output));

        assert_eq!(results.len(), 1);
        assert!(results[0]
            .content()
            .contains("[Website](https://example.com/docs)"));
    }

#[test]
fn test_date_preserved() {
    let date = Some(Date::from_ymd_opt(2025, 1, 17).unwrap());
    let markdown = "## Notes #work\n\nBody content.";

    let results = TagParser::extract_from_markdown(markdown, "2025-01-17.md", date);

    assert_eq!(results.len(), 1);
    assert_eq!(results[0].date, date);
}

#[test]
fn test_multi_line_paragraph_with_tags() {
    // Test that SoftBreak (line continuation in source) is preserved
    let content = "Line one #tag\nLine two";
    let results = TagParser::extract_from_markdown(content, "test.md", None);

    assert_eq!(results.len(), 1);
    assert!(results[0].content().contains("Line one"));
    assert!(results[0].content().contains("Line two"));
    assert!(results[0].content().contains('\n')); // Newline preserved
    assert_eq!(results[0].tags, vec!["tag"]);
}

#[test]
fn test_multi_line_paragraph_tag_not_merged_with_next_line() {
    // Reproduces the bug where "#diary" merged with "I" to form "#diaryI"
    let content = "This was a very sad day. #tostos #diary\nI am planning to go.";
    let results = TagParser::extract_from_markdown(content, "test.md", None);

    assert_eq!(results.len(), 1);
    // Tags should be correctly extracted
    assert!(results[0].tags.contains(&"tostos".to_string()));
    assert!(results[0].tags.contains(&"diary".to_string()));
    // The "I" should not be consumed by the tag
    assert!(results[0].content().contains("I am planning"));
}

    #[test]
    fn test_heading_tag_applies_to_list_items() {
        let markdown = r#"
#tag
  - item 1
  - item 2
  - item 3
"#;

        let results = TagParser::extract_from_markdown(markdown, "test.md", None);

        let has_item_1 = results
            .iter()
            .any(|r| r.tags.contains(&"tag".to_string()) && r.content().contains("item 1"));
        let has_item_2 = results
            .iter()
            .any(|r| r.tags.contains(&"tag".to_string()) && r.content().contains("item 2"));
        let has_item_3 = results
            .iter()
            .any(|r| r.tags.contains(&"tag".to_string()) && r.content().contains("item 3"));

        assert!(has_item_1);
        assert!(has_item_2);
        assert!(has_item_3);
    }

    #[test]
    fn test_list_item_tag_applies_to_subitems() {
        let markdown = r#"
- #tag
  - item 1
  - item 2
  - item 3
"#;

        let results = TagParser::extract_from_markdown(markdown, "test.md", None);

        let tagged: Vec<&TaggedContent> = results
            .iter()
            .filter(|r| r.tags.contains(&"tag".to_string()))
            .collect();
        assert!(!tagged.is_empty());

        let combined = tagged
            .iter()
            .map(|r| r.content())
            .collect::<Vec<String>>()
            .join("\n");
        assert!(combined.contains("item 1"));
        assert!(combined.contains("item 2"));
        assert!(combined.contains("item 3"));
    }

    #[test]
    fn test_section_tag_preserves_nested_list_markdown_and_order() {
        let markdown = r#"
### #section

- parent
  - child
- sibling
"#;

        let results = TagParser::extract_from_markdown(markdown, "test.md", None);
        let section = String::from("section");
        let list_items: Vec<String> = results
            .iter()
            .filter(|r| r.tags.contains(&section))
            .map(|r| r.content())
            .collect();

        assert_eq!(
            list_items,
            vec!["- parent\n  - child\n- sibling".to_string()]
        );
    }

    #[test]
    fn test_section_tag_includes_untagged_paragraphs() {
        let markdown = r#"
### #crs

lskfjlskdjflksdjflk
lsdkfjlskdjflksdjflk
lksdjflksjdlfkjsldfkj
"#;

        let results = TagParser::extract_from_markdown(markdown, "test.md", None);

        let has_paragraph = results.iter().any(|r| {
            r.tags.contains(&"crs".to_string())
                && r.content().contains("lskfjlskdjflksdjflk")
                && r.content().contains("lsdkfjlskdjflksdjflk")
                && r.content().contains("lksdjflksjdlfkjsldfkj")
        });
        assert!(has_paragraph);
    }

    #[test]
    fn test_heading_only_tag_does_not_create_empty_content() {
        let markdown = r#"
### #codex

Some content under the heading.
"#;

        let results = TagParser::extract_from_markdown(markdown, "test.md", None);

        assert_eq!(results.len(), 1);
        assert!(results[0]
            .content()
            .contains("Some content under the heading."));
        assert!(!results[0].content().trim().is_empty());
    }
