use djour::retag_markdown;

#[test]
fn replaces_matching_tags_case_insensitively() {
    let input = "One #work, two #WORK, keep #workshop.";
    let result = retag_markdown(input, "work", "project");

    assert_eq!(
        result.content,
        "One #project, two #project, keep #workshop."
    );
    assert_eq!(result.replacements, 2);
}

#[test]
fn preserves_duplicate_tags() {
    let input = "#work #work #work";
    let result = retag_markdown(input, "work", "focus");

    assert_eq!(result.content, "#focus #focus #focus");
    assert_eq!(result.replacements, 3);
}

    #[test]
    fn skips_fenced_code_blocks() {
        let input = r#"
Outside #work

```rust
// #work
```
"#;

        let result = retag_markdown(input, "work", "focus");
        assert!(result.content.contains("Outside #focus"));
        assert!(result.content.contains("// #work"));
        assert_eq!(result.replacements, 1);
    }

#[test]
fn skips_inline_code_spans() {
    let input = "Use `#work` here, but change #work.";
    let result = retag_markdown(input, "work", "focus");

    assert_eq!(result.content, "Use `#work` here, but change #focus.");
    assert_eq!(result.replacements, 1);
}

#[test]
fn no_op_when_tags_identical() {
    let input = "Keep #work unchanged.";
    let result = retag_markdown(input, "work", "work");

    assert_eq!(result.content, input);
    assert_eq!(result.replacements, 0);
}
