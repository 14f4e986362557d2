use std::str::FromStr;

use djour::{
    collect_tags_from_text, format_note_list, format_tag_list, load_template,
    normalize_tag_argument, sanitize_filename, Date, EditorSession, FileSystemRepository,
    JournalMode, NoteEntry, Template,
};

#[test]
fn test_sanitize_filename() {
    assert_eq!(sanitize_filename("work"), "work");
    assert_eq!(sanitize_filename("work AND urgent"), "work-and-urgent");
    assert_eq!(sanitize_filename("work OR personal"), "work-or-personal");
    assert_eq!(sanitize_filename("work NOT meeting"), "work-not-meeting");
    assert_eq!(sanitize_filename("#project-alpha"), "project-alpha");
    assert_eq!(sanitize_filename("work@email"), "work_email");
}

#[test]
fn test_sanitize_filename_trim() {
    assert_eq!(sanitize_filename("_work_"), "work");
    assert_eq!(sanitize_filename("__work__"), "work");
}

#[test]
fn test_sanitize_filename_case() {
    assert_eq!(sanitize_filename("WORK AND URGENT"), "work-and-urgent");
    assert_eq!(sanitize_filename("Work"), "work");
}

#[test]
fn test_sanitize_filename_special_chars() {
    assert_eq!(sanitize_filename("work!urgent"), "work_urgent");
    assert_eq!(sanitize_filename("work(test)"), "work_test");
}

#[test]
fn collect_tags_normalizes_and_deduplicates() {
    let mut tags: Vec<String> = Vec::new();
    collect_tags_from_text("one #Work and #work and #team_ops", &mut tags);
    assert_eq!(
        tags,
        vec!["team_ops".to_string(), "work".to_string()]
    );
}

#[test]
fn collect_tags_supports_dash_and_numbers() {
    let mut tags: Vec<String> = Vec::new();
    collect_tags_from_text("Tasks: #project-alpha #task1", &mut tags);
    assert_eq!(
        tags,
        vec!["project-alpha".to_string(), "task1".to_string()]
    );
}

#[test]
fn normalize_tag_argument_accepts_hash_prefix() {
    assert_eq!(normalize_tag_argument("#Work").unwrap(), "work");
    assert_eq!(normalize_tag_argument("Work").unwrap(), "work");
}

#[test]
fn normalize_tag_argument_rejects_invalid() {
    assert!(normalize_tag_argument("work@email").is_err());
    assert!(normalize_tag_argument("#").is_err());
    assert!(normalize_tag_argument("##work").is_err());
}

#[test]
fn test_format_empty_list() {
    let notes: Vec<NoteEntry> = vec![];
    let output = format_note_list(&notes);
    assert_eq!(output, "No notes found");
}

#[test]
fn test_format_note_list() {
    let notes = vec![
        NoteEntry::new(
            "2025-01-17.md".to_string(),
            Some(Date::from_ymd_opt(2025, 1, 17).unwrap()),
        ),
        NoteEntry::new(
            "2025-01-16.md".to_string(),
            Some(Date::from_ymd_opt(2025, 1, 16).unwrap()),
        ),
    ];

    let output = format_note_list(&notes);
    assert!(output.contains("17-01-2025  2025-01-17.md"));
    assert!(output.contains("16-01-2025  2025-01-16.md"));
}

#[test]
fn test_format_single_mode_entry() {
    let notes = vec![NoteEntry::new("journal.md".to_string(), None)];

    let output = format_note_list(&notes);
    assert!(output.contains("journal.md"));
    // Should have spacing for alignment
    assert!(output.contains("           journal.md"));
}

#[test]
fn test_format_mixed_entries() {
    let notes = vec![
        NoteEntry::new(
            "2025-01-17.md".to_string(),
            Some(Date::from_ymd_opt(2025, 1, 17).unwrap()),
        ),
        NoteEntry::new("journal.md".to_string(), None),
    ];

    let output = format_note_list(&notes);
    assert!(output.contains("17-01-2025  2025-01-17.md"));
    assert!(output.contains("           journal.md"));
}

#[test]
fn test_format_empty_tag_list() {
    let tags: Vec<String> = vec![];
    let output = format_tag_list(&tags);
    assert_eq!(output, "No tags found");
}

#[test]
fn test_format_tag_list() {
    let tags = vec!["personal".to_string(), "work".to_string()];
    let output = format_tag_list(&tags);
    assert_eq!(output, "#personal\n#work\n");
}

#[test]
fn test_template_names() {
    assert_eq!(JournalMode::Daily.template_name(), "daily.md");
    assert_eq!(JournalMode::Weekly.template_name(), "weekly.md");
    assert_eq!(JournalMode::Monthly.template_name(), "monthly.md");
    assert_eq!(JournalMode::Single.template_name(), "entry.md");
}

#[test]
fn test_from_str_valid_modes() {
    assert_eq!(JournalMode::from_str("daily").unwrap(), JournalMode::Daily);
    assert_eq!(
        JournalMode::from_str("weekly").unwrap(),
        JournalMode::Weekly
    );
    assert_eq!(
        JournalMode::from_str("monthly").unwrap(),
        JournalMode::Monthly
    );
    assert_eq!(
        JournalMode::from_str("single").unwrap(),
        JournalMode::Single
    );
}

#[test]
fn test_from_str_case_insensitive() {
    assert_eq!(JournalMode::from_str("DAILY").unwrap(), JournalMode::Daily);
    assert_eq!(
        JournalMode::from_str("Weekly").unwrap(),
        JournalMode::Weekly
    );
    assert_eq!(
        JournalMode::from_str("MONTHLY").unwrap(),
        JournalMode::Monthly
    );
    assert_eq!(
        JournalMode::from_str("SiNgLe").unwrap(),
        JournalMode::Single
    );
}

#[test]
fn test_from_str_invalid() {
    assert!(JournalMode::from_str("invalid").is_err());
    assert!(JournalMode::from_str("day").is_err());
    assert!(JournalMode::from_str("").is_err());

    let err = JournalMode::from_str("invalid").unwrap_err();
    assert!(err.contains("Invalid mode"));
    assert!(err.contains("daily, weekly, monthly, single"));
}

#[test]
fn test_load_builtin_daily() {
    let template = Template::from_builtin("daily.md").unwrap();
    assert!(template.content().contains("# {DATE}"));
    assert!(!template.content().contains("## Morning"));
}

#[test]
fn test_load_builtin_weekly() {
    let template = Template::from_builtin("weekly.md").unwrap();
    assert!(template
        .content()
        .contains("# Week {WEEK_NUMBER}, {YEAR} ({WEEK_START_DATE} - {WEEK_END_DATE})"));
    assert!(template.content().contains("## Monday ({MONDAY_DATE})"));
    assert!(template.content().contains("## Sunday ({SUNDAY_DATE})"));
}

#[test]
fn test_load_builtin_monthly() {
    let template = Template::from_builtin("monthly.md").unwrap();
    assert!(template.content().contains("# {MONTH} {YEAR}"));
    assert!(template.content().contains("## Week 1"));
    assert!(template.content().contains("## Week 4"));
}

#[test]
fn test_load_builtin_entry() {
    let template = Template::from_builtin("entry.md").unwrap();
    assert!(template.content().contains("---"));
    assert!(template.content().contains("# {DATE}"));
}

#[test]
fn test_load_builtin_invalid() {
    let result = Template::from_builtin("invalid.md");
    assert!(result.is_err());
    assert!(result.unwrap_err().to_string().contains("Unknown template"));
}

#[test]
fn test_load_template_falls_back_to_builtin() {
    
    // No custom template, should load built-in
    let template = load_template(None, "daily.md").unwrap();
    assert!(template.content().contains("# {DATE}"));
}

#[test]
fn test_parse_command_simple() {
    let session = EditorSession::new("vim".to_string());
    let (program, args) = session.parse_command();

    assert_eq!(program, "vim");
    assert_eq!(args.len(), 0);
}

#[test]
fn test_parse_command_with_args() {
    let session = EditorSession::new("code -w".to_string());
    let (program, args) = session.parse_command();

    assert_eq!(program, "code");
    assert_eq!(args, vec!["-w"]);
}

#[test]
fn test_parse_command_multiple_args() {
    let session = EditorSession::new("vim +10 -c startinsert".to_string());
    let (program, args) = session.parse_command();

    assert_eq!(program, "vim");
    assert_eq!(args, vec!["+10", "-c", "startinsert"]);
}

#[test]
fn test_parse_command_empty() {
    let session = EditorSession::new("".to_string());
    let (program, args) = session.parse_command();

    // Empty command falls back to notepad
    assert_eq!(program, "notepad");
    assert_eq!(args.len(), 0);
}

#[test]
fn test_parse_command_with_spaces() {
    let session = EditorSession::new("  vim  -n  ".to_string());
    let (program, args) = session.parse_command();

    assert_eq!(program, "vim");
    assert_eq!(args, vec!["-n"]);
}

#[test]
fn test_new_repository() {
    let path = "/tmp/test".to_string();
    let repo = FileSystemRepository::new(path.clone());
    assert_eq!(repo.root, path);
}
