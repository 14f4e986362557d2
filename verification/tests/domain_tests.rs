use djour::{Date, DjourError, JournalMode, Template, TimeReference, Weekday};

#[test]
fn test_daily_filename() {
    let mode = JournalMode::Daily;
    let date = Date::from_ymd_opt(2025, 1, 17).unwrap();
    assert_eq!(mode.filename_for_date(date), "2025-01-17.md");
}

#[test]
fn test_weekly_filename() {
    let mode = JournalMode::Weekly;
    let date = Date::from_ymd_opt(2025, 1, 17).unwrap();
    // January 17, 2025 is in week 3
    assert_eq!(mode.filename_for_date(date), "2025-W03-2025-01-13.md");
}

#[test]
fn test_monthly_filename() {
    let mode = JournalMode::Monthly;
    let date = Date::from_ymd_opt(2025, 1, 17).unwrap();
    assert_eq!(mode.filename_for_date(date), "2025-01.md");
}

#[test]
fn test_single_filename() {
    let mode = JournalMode::Single;
    let date = Date::from_ymd_opt(2025, 1, 17).unwrap();
    assert_eq!(mode.filename_for_date(date), "journal.md");
}

#[test]
fn test_weekly_year_boundary() {
    let mode = JournalMode::Weekly;
    // December 30, 2024 is in 2025-W01 (ISO week date)
    let date = Date::from_ymd_opt(2024, 12, 30).unwrap();
    assert_eq!(mode.filename_for_date(date), "2025-W01-2024-12-30.md");
}

#[test]
fn test_date_from_filename_daily() {
    let mode = JournalMode::Daily;
    let date = mode.date_from_filename("2025-01-17.md").unwrap();
    assert_eq!(date, Date::from_ymd_opt(2025, 1, 17).unwrap());
}

#[test]
fn test_date_from_filename_daily_invalid() {
    let mode = JournalMode::Daily;
    assert!(mode.date_from_filename("2025-W03.md").is_none());
    assert!(mode.date_from_filename("invalid.md").is_none());
    assert!(mode.date_from_filename("2025-01-17.txt").is_none());
    assert!(mode.date_from_filename("2025-01-17").is_none()); // No .md extension
}

#[test]
fn test_date_from_filename_weekly() {
    let mode = JournalMode::Weekly;
    let date = mode.date_from_filename("2025-W03-2025-01-13.md").unwrap();
    // Week 3 of 2025 starts on Monday, Jan 13
    assert_eq!(date, Date::from_ymd_opt(2025, 1, 13).unwrap());
}

#[test]
fn test_date_from_filename_weekly_legacy() {
    let mode = JournalMode::Weekly;
    let date = mode.date_from_filename("2025-W03.md").unwrap();
    assert_eq!(date, Date::from_ymd_opt(2025, 1, 13).unwrap());
}

#[test]
fn test_date_from_filename_weekly_invalid() {
    let mode = JournalMode::Weekly;
    assert!(mode.date_from_filename("2025-01-17.md").is_none());
    assert!(mode.date_from_filename("2025-W.md").is_none());
    assert!(mode.date_from_filename("2025-W99.md").is_none()); // Week 99 doesn't exist
    assert!(mode.date_from_filename("2025-W03-2025-01-14.md").is_none()); // Date does not match ISO week
}

#[test]
fn test_date_from_filename_monthly() {
    let mode = JournalMode::Monthly;
    let date = mode.date_from_filename("2025-01.md").unwrap();
    assert_eq!(date, Date::from_ymd_opt(2025, 1, 1).unwrap());
}

#[test]
fn test_date_from_filename_monthly_invalid() {
    let mode = JournalMode::Monthly;
    assert!(mode.date_from_filename("2025-01-17.md").is_none());
    assert!(mode.date_from_filename("2025-W03.md").is_none());
    assert!(mode.date_from_filename("2025-13.md").is_none()); // Month 13 doesn't exist
}

#[test]
fn test_date_from_filename_single() {
    let mode = JournalMode::Single;
    assert!(mode.date_from_filename("journal.md").is_none());
    assert!(mode.date_from_filename("anything.md").is_none());
}

#[test]
fn test_filename_roundtrip() {
    // Verify that date_from_filename is inverse of filename_for_date
    let modes = [
        JournalMode::Daily,
        JournalMode::Weekly,
        JournalMode::Monthly,
    ];
    let test_date = Date::from_ymd_opt(2025, 1, 17).unwrap();

    for mode in modes {
        let filename = mode.filename_for_date(test_date);
        let parsed_date = mode.date_from_filename(&filename).unwrap();

        // For weekly/monthly, we get start of week/month
        // So regenerate filename from parsed date to verify consistency
        let roundtrip_filename = mode.filename_for_date(parsed_date);
        assert_eq!(filename, roundtrip_filename);
    }
}

#[test]
fn test_render_replaces_date() {
    let template = Template::from_builtin("daily.md").unwrap();
    let date = Date::from_ymd_opt(2025, 1, 17).unwrap();
    let rendered = template.render(date);

    assert!(rendered.contains("# January 17, 2025"));
    assert!(!rendered.contains("{DATE}"));
}

#[test]
fn test_render_replaces_all_variables() {
    let template = Template::new("{DATE} {ISO_DATE} {YEAR} {MONTH} {WEEK_NUMBER} {DAY_NAME}".to_string());

    let date = Date::from_ymd_opt(2025, 1, 17).unwrap();
    let rendered = template.render(date);

    assert!(rendered.contains("January 17, 2025"));
    assert!(rendered.contains("2025-01-17"));
    assert!(rendered.contains("2025"));
    assert!(rendered.contains("January"));
    assert!(rendered.contains("03")); // Week 3
    assert!(rendered.contains("Friday"));
}

#[test]
fn test_render_week_number_zero_padded() {
    let template = Template::new("Week {WEEK_NUMBER}".to_string());

    // Week 3 should be "03"
    let date = Date::from_ymd_opt(2025, 1, 17).unwrap();
    let rendered = template.render(date);
    assert!(rendered.contains("Week 03"));

    // Week 52 should be "52"
    let date2 = Date::from_ymd_opt(2024, 12, 25).unwrap();
    let rendered2 = template.render(date2);
    assert!(rendered2.contains("Week 52"));
}

#[test]
fn test_render_preserves_unknown_variables() {
    let template = Template::new("{DATE} {UNKNOWN}".to_string());

    let date = Date::from_ymd_opt(2025, 1, 17).unwrap();
    let rendered = template.render(date);

    assert!(rendered.contains("January 17, 2025"));
    assert!(rendered.contains("{UNKNOWN}")); // Unknown variables left unchanged
}

#[test]
fn test_parse_simple_refs() {
    assert_eq!(TimeReference::parse("today").unwrap(), TimeReference::Today);
    assert_eq!(TimeReference::parse("now").unwrap(), TimeReference::Today);
    assert_eq!(
        TimeReference::parse("yesterday").unwrap(),
        TimeReference::Yesterday
    );
    assert_eq!(
        TimeReference::parse("tomorrow").unwrap(),
        TimeReference::Tomorrow
    );
}

#[test]
fn test_parse_weekdays() {
    assert_eq!(
        TimeReference::parse("monday").unwrap(),
        TimeReference::Weekday(Weekday::Mon)
    );
    assert_eq!(
        TimeReference::parse("friday").unwrap(),
        TimeReference::Weekday(Weekday::Fri)
    );
}

#[test]
fn test_parse_last_weekdays() {
    assert_eq!(
        TimeReference::parse("last monday").unwrap(),
        TimeReference::LastWeekday(Weekday::Mon)
    );
    assert_eq!(
        TimeReference::parse("last friday").unwrap(),
        TimeReference::LastWeekday(Weekday::Fri)
    );
}

#[test]
fn test_parse_next_weekdays() {
    assert_eq!(
        TimeReference::parse("next monday").unwrap(),
        TimeReference::NextWeekday(Weekday::Mon)
    );
}

#[test]
fn test_parse_specific_date() {
    let expected = Date::from_ymd_opt(2025, 1, 17).unwrap();
    assert_eq!(
        TimeReference::parse("17-01-2025").unwrap(),
        TimeReference::SpecificDate(expected)
    );
}

#[test]
fn test_parse_invalid() {
    assert!(TimeReference::parse("invalid").is_err());
    assert!(TimeReference::parse("32-01-2025").is_err()); // Invalid day
    assert!(TimeReference::parse("01-13-2025").is_err()); // Invalid month
    assert!(TimeReference::parse("last invalidday").is_err());
}

#[test]
fn test_resolve_today() {
    let base = Date::from_ymd_opt(2025, 1, 17).unwrap();
    assert_eq!(TimeReference::Today.resolve(base), base);
}

#[test]
fn test_resolve_yesterday() {
    let base = Date::from_ymd_opt(2025, 1, 17).unwrap();
    let expected = Date::from_ymd_opt(2025, 1, 16).unwrap();
    assert_eq!(TimeReference::Yesterday.resolve(base), expected);
}

#[test]
fn test_resolve_tomorrow() {
    let base = Date::from_ymd_opt(2025, 1, 17).unwrap();
    let expected = Date::from_ymd_opt(2025, 1, 18).unwrap();
    assert_eq!(TimeReference::Tomorrow.resolve(base), expected);
}

#[test]
fn test_resolve_weekday_same_day() {
    // Friday, Jan 17, 2025
    let base = Date::from_ymd_opt(2025, 1, 17).unwrap();
    // "friday" when today is Friday should return today
    assert_eq!(TimeReference::Weekday(Weekday::Fri).resolve(base), base);
}

#[test]
fn test_resolve_weekday_past() {
    // Friday, Jan 17, 2025
    let base = Date::from_ymd_opt(2025, 1, 17).unwrap();
    // "monday" should return Monday, Jan 13, 2025
    let expected = Date::from_ymd_opt(2025, 1, 13).unwrap();
    assert_eq!(TimeReference::Weekday(Weekday::Mon).resolve(base), expected);
}

#[test]
fn test_resolve_last_weekday() {
    // Friday, Jan 17, 2025
    let base = Date::from_ymd_opt(2025, 1, 17).unwrap();
    // "last monday" should return Monday, Jan 13, 2025
    let expected = Date::from_ymd_opt(2025, 1, 13).unwrap();
    assert_eq!(
        TimeReference::LastWeekday(Weekday::Mon).resolve(base),
        expected
    );
}

#[test]
fn test_resolve_last_weekday_same_day() {
    // Friday, Jan 17, 2025
    let base = Date::from_ymd_opt(2025, 1, 17).unwrap();
    // "last friday" should return Friday, Jan 10, 2025
    let expected = Date::from_ymd_opt(2025, 1, 10).unwrap();
    assert_eq!(
        TimeReference::LastWeekday(Weekday::Fri).resolve(base),
        expected
    );
}

#[test]
fn test_resolve_last_weekday_future_in_week() {
    // Tuesday, Feb 3, 2026
    let base = Date::from_ymd_opt(2026, 2, 3).unwrap();
    // "last friday" should return Friday, Jan 30, 2026 (previous occurrence)
    let expected = Date::from_ymd_opt(2026, 1, 30).unwrap();
    assert_eq!(
        TimeReference::LastWeekday(Weekday::Fri).resolve(base),
        expected
    );
}

#[test]
fn test_resolve_next_weekday() {
    // Friday, Jan 17, 2025
    let base = Date::from_ymd_opt(2025, 1, 17).unwrap();
    // "next monday" should return Monday, Jan 20, 2025
    let expected = Date::from_ymd_opt(2025, 1, 20).unwrap();
    assert_eq!(
        TimeReference::NextWeekday(Weekday::Mon).resolve(base),
        expected
    );
}

#[test]
fn test_resolve_next_weekday_future_in_week() {
    // Tuesday, Feb 3, 2026
    let base = Date::from_ymd_opt(2026, 2, 3).unwrap();
    // "next friday" should return Friday, Feb 6, 2026 (same week)
    let expected = Date::from_ymd_opt(2026, 2, 6).unwrap();
    assert_eq!(
        TimeReference::NextWeekday(Weekday::Fri).resolve(base),
        expected
    );
}

#[test]
fn test_resolve_next_weekday_same_day() {
    // Friday, Jan 17, 2025
    let base = Date::from_ymd_opt(2025, 1, 17).unwrap();
    // "next friday" should return Friday, Jan 24, 2025
    let expected = Date::from_ymd_opt(2025, 1, 24).unwrap();
    assert_eq!(
        TimeReference::NextWeekday(Weekday::Fri).resolve(base),
        expected
    );
}

#[test]
fn test_resolve_specific_date() {
    let base = Date::from_ymd_opt(2025, 1, 17).unwrap();
    let target = Date::from_ymd_opt(2024, 12, 25).unwrap();
    assert_eq!(TimeReference::SpecificDate(target).resolve(base), target);
}

#[test]
fn test_not_djour_directory_suggestion() {
    let err = DjourError::NotDjourDirectory("/tmp/test".to_string());
    let msg = err.display_with_suggestions();
    assert!(msg.contains("djour init"));
    assert!(msg.contains("DJOUR_ROOT"));
    assert!(msg.contains("Suggestions"));
}

#[test]
fn test_invalid_time_reference_examples() {
    let err = DjourError::InvalidTimeReference("baddate".to_string());
    let msg = err.display_with_suggestions();
    assert!(msg.contains("today"));
    assert!(msg.contains("YYYY-MM-DD"));
    assert!(msg.contains("Examples"));
    assert!(msg.contains("djour today"));
}

#[test]
fn test_tag_not_found_suggestions() {
    let err = DjourError::TagNotFound("nonexistent".to_string());
    let msg = err.display_with_suggestions();
    assert!(msg.contains("djour list"));
    assert!(msg.contains("case-insensitive"));
    assert!(msg.contains("broader query"));
}

#[test]
fn test_editor_error_suggestions() {
    let err = DjourError::Editor("Editor not found".to_string());
    let msg = err.display_with_suggestions();
    assert!(msg.contains("EDITOR environment variable"));
    assert!(msg.contains("djour config editor"));
    assert!(msg.contains("PATH"));
}

#[test]
fn test_config_invalid_mode_suggestions() {
    let err = DjourError::Config("Invalid mode: xyz".to_string());
    let msg = err.display_with_suggestions();
    assert!(msg.contains("daily, weekly, monthly, single"));
    assert!(msg.contains("djour config mode weekly"));
}

#[test]
fn test_config_date_format_suggestions() {
    let err = DjourError::Config("Invalid date format: 2025-01-17".to_string());
    let msg = err.display_with_suggestions();
    assert!(msg.contains("DD-MM-YYYY"));
    assert!(msg.contains("17-01-2025"));
}

#[test]
fn test_other_errors_fallback() {
    let err = DjourError::Template("Template error".to_string());
    let msg = err.display_with_suggestions();
    // The message begins with the kind of the error
    assert_eq!(msg, "Template error: Template error");
}

#[test]
fn test_parse_invalid_time_reference() {
    let result = TimeReference::parse("invaliddate");
    assert!(result.is_err());
}
