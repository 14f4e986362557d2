use djour::migration::{
    daily_prefix, expected_weekly, inject_daily_into_weekly, parse_weekly, scan_lines,
    split_weekly_into_daily_bodies, strip_daily_prefix, try_expected_weekly,
    try_inject_daily_into_weekly, try_parse_weekly, try_split_weekly_into_daily_bodies,
    try_week_start, week_fits, week_start,
};
use djour::planning::{
    add_to_weeks, daily_entry, inject_entries, try_inject_entries, try_weekly_base,
    week_can_be_planned, weekly_notes_to_split, DailyEntry, WeekGroup,
};
use djour::{
    strip_migration_markers, validate_weekly_no_outside_content, Date, DjourError, JournalMode,
    NewlineStyle, NoteEntry, Template, TimeReference, Weekday,
};

const HEADER: &str = "# Week 03, 2025 (January 13, 2025 - January 19, 2025)";

const WEEKLY: &str = "# Week 03, 2025 (January 13, 2025 - January 19, 2025)\n\n## Monday (January 13, 2025)\n\n\n## Tuesday (January 14, 2025)\n\n\n## Wednesday (January 15, 2025)\n\n\n## Thursday (January 16, 2025)\n\n\n## Friday (January 17, 2025)\n\n\n## Saturday (January 18, 2025)\n\n\n## Sunday (January 19, 2025)\n\n";

fn day(y: i32, m: u32, d: u32) -> Date {
    Date::from_ymd_opt(y, m, d).unwrap()
}

fn monday() -> Date {
    day(2025, 1, 13)
}

fn config_error<T: std::fmt::Debug>(r: Result<T, DjourError>) -> String {
    match r {
        Err(DjourError::Config(m)) => m,
        other => panic!("expected a configuration error, got {:?}", other),
    }
}

#[test]
fn the_weekly_template_renders_to_the_expected_note() {
    let template = Template::from_builtin("weekly.md").unwrap();
    assert_eq!(template.render(day(2025, 1, 16)), WEEKLY);
    assert_eq!(template.try_render(day(2025, 1, 19)).unwrap(), WEEKLY);
    let all = Template::new(
        "{ISO_DATE}|{WEEK_START_ISO}|{WEEK_END_ISO}|{FRIDAY_ISO}|{SUNDAY_DATE}|{DAY_NAME}|{MONTH}|{YEAR}|{DATE}{DATE}"
            .to_string(),
    );
    assert_eq!(
        all.render(day(2024, 12, 31)),
        "2024-12-31|2024-12-30|2025-01-05|2025-01-03|January 05, 2025|Tuesday|December|2024|December 31, 2024December 31, 2024"
    );
    assert!(Template::new("x".to_string()).try_render(day(-262143, 1, 1)).is_none());
    assert!(Template::new("x".to_string()).try_render(day(262142, 12, 31)).is_none());
}

#[test]
fn weeks_and_their_headings() {
    let monday_of_friday = week_start(day(2025, 1, 17));
    assert_eq!(monday_of_friday, monday());
    assert_eq!(week_start(monday()), monday());
    assert_eq!(try_week_start(day(2025, 1, 19)), Some(monday()));
    assert_eq!(try_week_start(day(-262143, 1, 1)), None);
    assert!(week_fits(&monday()));
    assert!(!week_fits(&day(262142, 12, 26)));
    assert!(week_fits(&day(262142, 12, 25)));
    assert!(try_expected_weekly(day(262142, 12, 26)).is_none());
    let expected = expected_weekly(monday());
    assert_eq!(expected.header_variants, vec![HEADER]);
    assert_eq!(
        expected.weekday_headings,
        vec![
            "## Monday (January 13, 2025)",
            "## Tuesday (January 14, 2025)",
            "## Wednesday (January 15, 2025)",
            "## Thursday (January 16, 2025)",
            "## Friday (January 17, 2025)",
            "## Saturday (January 18, 2025)",
            "## Sunday (January 19, 2025)"
        ]
    );
    let turn = try_expected_weekly(day(2024, 12, 30)).unwrap();
    assert_eq!(
        turn.header_variants,
        vec![
            "# Week 01, 2024 (December 30, 2024 - January 05, 2025)",
            "# Week 01, 2025 (December 30, 2024 - January 05, 2025)"
        ]
    );
    assert_eq!(JournalMode::Weekly.try_filename_for_date(day(-262143, 1, 1)), None);
    assert_eq!(
        JournalMode::Weekly.try_filename_for_date(day(2025, 1, 17)).unwrap(),
        "2025-W03-2025-01-13.md"
    );
    assert_eq!(
        JournalMode::Daily.try_filename_for_date(day(-262143, 1, 1)).unwrap(),
        "-262143-01-01.md"
    );
    assert_eq!(TimeReference::Yesterday.try_resolve(day(-262143, 1, 1)), None);
    assert_eq!(
        TimeReference::Weekday(Weekday::Sun).try_resolve(day(2025, 1, 17)),
        Some(day(2025, 1, 12))
    );
    assert_eq!(
        TimeReference::LastWeekday(Weekday::Fri).try_resolve(day(2025, 1, 17)),
        Some(day(2025, 1, 10))
    );
    assert_eq!(
        TimeReference::NextWeekday(Weekday::Mon).try_resolve(day(2025, 1, 17)),
        Some(day(2025, 1, 20))
    );
    match TimeReference::parse(" Next Funday ") {
        Err(DjourError::InvalidTimeReference(m)) => assert_eq!(m, "last/next funday"),
        other => panic!("{:?}", other),
    }
    match TimeReference::parse(" soon ") {
        Err(DjourError::InvalidTimeReference(m)) => assert_eq!(m, " soon "),
        other => panic!("{:?}", other),
    }
    assert_eq!(
        TimeReference::parse("  SUNDAY\n").unwrap(),
        TimeReference::Weekday(Weekday::Sun)
    );
}

#[test]
fn lines_are_found_with_their_ends() {
    let text: Vec<char> = "ab\r\n\ncd\r".chars().collect();
    let lines: Vec<(usize, usize, usize)> = scan_lines(&text)
        .iter()
        .map(|l| (l.start, l.end, l.end_with_newline))
        .collect();
    assert_eq!(lines, vec![(0, 2, 4), (4, 4, 5), (5, 8, 8)]);
    let empty: Vec<char> = Vec::new();
    let lines: Vec<(usize, usize, usize)> = scan_lines(&empty)
        .iter()
        .map(|l| (l.start, l.end, l.end_with_newline))
        .collect();
    assert_eq!(lines, vec![(0, 0, 0)]);
}

#[test]
fn a_weekly_note_is_read_with_byte_offsets() {
    let parsed = parse_weekly(WEEKLY, monday()).unwrap();
    assert_eq!(parsed.newline, NewlineStyle::Lf);
    assert_eq!(parsed.header_line, HEADER);
    assert_eq!(parsed.header_start, 0);
    assert_eq!(parsed.header_end_with_newline, HEADER.len() + 1);
    assert_eq!(parsed.days.len(), 7);
    let monday_start = WEEKLY.find("## Monday").unwrap();
    let tuesday_start = WEEKLY.find("## Tuesday").unwrap();
    assert_eq!(parsed.days[0].heading, "## Monday (January 13, 2025)");
    assert_eq!(parsed.days[0].heading_start, monday_start);
    assert_eq!(
        parsed.days[0].heading_end_with_newline,
        monday_start + "## Monday (January 13, 2025)\n".len()
    );
    assert_eq!(parsed.days[0].content_start, parsed.days[0].heading_end_with_newline);
    assert_eq!(parsed.days[0].content_end, tuesday_start);
    assert_eq!(parsed.days[6].content_end, WEEKLY.len());
    assert!(validate_weekly_no_outside_content(WEEKLY, &parsed).is_ok());

    let wide = format!("\u{a0}\r\n{}", WEEKLY.replace('\n', "\r\n").replace("\r\n\r\n\r\n## Tuesday", "\r\n\u{e9}t\u{e9} \u{1f600}\r\n## Tuesday"));
    let parsed = parse_weekly(&wide, monday()).unwrap();
    assert_eq!(parsed.newline, NewlineStyle::Crlf);
    assert_eq!(parsed.header_start, 4);
    assert_eq!(parsed.header_end_with_newline, 4 + HEADER.len() + 2);
    assert_eq!(parsed.days[0].content_end, wide.find("## Tuesday").unwrap());
    assert_eq!(
        &wide[parsed.days[0].content_start..parsed.days[0].content_end],
        "\u{e9}t\u{e9} \u{1f600}\r\n"
    );
    assert!(validate_weekly_no_outside_content(&wide, &parsed).is_ok());
}

#[test]
fn a_weekly_note_that_is_not_as_expected_is_refused() {
    assert_eq!(
        config_error(parse_weekly(" \n\t\n", monday())),
        "Weekly note is empty; cannot migrate"
    );
    assert_eq!(
        config_error(parse_weekly("x\n", monday())),
        format!(
            "Weekly note header does not match built-in template for week starting 2025-01-13. Expected one of: [\"{}\"]. Found: 'x'",
            HEADER
        )
    );
    let twice = WEEKLY.replace("## Tuesday (January 14, 2025)", "## Monday (January 13, 2025)");
    let first = twice.find("## Monday").unwrap();
    let second = first + 1 + twice[first + 1..].find("## Monday").unwrap();
    assert_eq!(
        config_error(parse_weekly(&twice, monday())),
        format!(
            "Weekly note has duplicate weekday heading '## Monday (January 13, 2025)' at byte offsets {} and {}",
            first, second
        )
    );
    let missing = WEEKLY.replace("## Friday (January 17, 2025)", "## Friday");
    assert_eq!(
        config_error(parse_weekly(&missing, monday())),
        "Weekly note is missing expected heading '## Friday (January 17, 2025)'"
    );
    let swapped = WEEKLY
        .replace("## Tuesday (January 14, 2025)", "## T")
        .replace("## Monday (January 13, 2025)", "## Tuesday (January 14, 2025)")
        .replace("## T\n", "## Monday (January 13, 2025)\n");
    assert_eq!(
        config_error(parse_weekly(&swapped, monday())),
        "Weekly weekday headings are not in the expected order (Monday..Sunday)"
    );
    assert!(try_parse_weekly(WEEKLY, day(262142, 12, 26)).is_none());
    assert!(try_parse_weekly(WEEKLY, monday()).unwrap().is_ok());

    let before = format!("intro\n{}", WEEKLY);
    assert_eq!(
        config_error(parse_weekly(&before, monday())),
        format!(
            "Weekly note header does not match built-in template for week starting 2025-01-13. Expected one of: [\"{}\"]. Found: 'intro'",
            HEADER
        )
    );
    let between = WEEKLY.replace("\n\n## Monday", "\nnote\n## Monday");
    let parsed = parse_weekly(&between, monday()).unwrap();
    assert_eq!(
        config_error(validate_weekly_no_outside_content(&between, &parsed)),
        "Weekly note has content between the header and Monday section; aborting migration"
    );
    assert_eq!(
        config_error(split_weekly_into_daily_bodies(&between, monday())),
        "Weekly note has content between the header and Monday section; aborting migration"
    );
}

#[test]
fn daily_notes_go_into_their_day_and_come_out_again() {
    let start = "<!-- djour:migrated-from=2025-01-15.md:start -->";
    let end = "<!-- djour:migrated-from=2025-01-15.md:end -->";
    let once = inject_daily_into_weekly(
        WEEKLY,
        monday(),
        day(2025, 1, 15),
        "2025-01-15.md",
        "Did things.\r\nMore.\n\n",
    )
    .unwrap();
    let expected = WEEKLY.replace(
        "## Wednesday (January 15, 2025)\n",
        &format!(
            "## Wednesday (January 15, 2025)\n{}\nDid things.\nMore.\n{}\n",
            start, end
        ),
    );
    assert_eq!(once, expected);
    let again =
        inject_daily_into_weekly(&once, monday(), day(2025, 1, 15), "2025-01-15.md", "other")
            .unwrap();
    assert_eq!(again, once);

    let filled = WEEKLY.replace(
        "## Sunday (January 19, 2025)\n\n",
        "## Sunday (January 19, 2025)\nrest",
    );
    let sunday = inject_daily_into_weekly(&filled, monday(), day(2025, 1, 19), "s.md", "").unwrap();
    assert!(sunday.ends_with(
        "## Sunday (January 19, 2025)\nrest\n<!-- djour:migrated-from=s.md:start -->\n<!-- djour:migrated-from=s.md:end -->\n"
    ));
    let tight = WEEKLY.replace(
        "## Monday (January 13, 2025)\n\n\n",
        "## Monday (January 13, 2025)\nwork",
    );
    assert!(parse_weekly(&tight, monday()).is_err());
    let tight = WEEKLY.replace(
        "## Monday (January 13, 2025)\n\n\n",
        "## Monday (January 13, 2025)\nwork\n",
    );
    let injected = inject_daily_into_weekly(&tight, monday(), monday(), "m.md", "b").unwrap();
    assert!(injected.contains(
        "## Monday (January 13, 2025)\nwork\n<!-- djour:migrated-from=m.md:start -->\nb\n<!-- djour:migrated-from=m.md:end -->\n\n## Tuesday"
    ));

    let broken = once.replace(end, "");
    assert_eq!(
        config_error(inject_daily_into_weekly(
            &broken,
            monday(),
            day(2025, 1, 15),
            "2025-01-15.md",
            "x"
        )),
        "Weekly note contains start marker but missing end marker for '2025-01-15.md'"
    );
    assert!(try_inject_daily_into_weekly(WEEKLY, day(262142, 12, 26), monday(), "a", "b").is_none());

    let bodies = split_weekly_into_daily_bodies(&once, monday()).unwrap();
    assert_eq!(bodies.len(), 7);
    assert_eq!(bodies[0], (monday(), "\n\n".to_string()));
    assert_eq!(bodies[2], (day(2025, 1, 15), "Did things.\nMore.\n\n\n".to_string()));
    assert_eq!(bodies[6], (day(2025, 1, 19), "\n".to_string()));
    assert!(try_split_weekly_into_daily_bodies(&once, day(262142, 12, 26)).is_none());

    let crlf = WEEKLY.replace('\n', "\r\n");
    let injected = inject_daily_into_weekly(&crlf, monday(), monday(), "m.md", "a\nb").unwrap();
    assert!(injected.contains(
        "## Monday (January 13, 2025)\r\n<!-- djour:migrated-from=m.md:start -->\r\na\r\nb\r\n<!-- djour:migrated-from=m.md:end -->\r\n\r\n\r\n## Tuesday"
    ));
}

#[test]
fn daily_prefixes_and_markers() {
    assert_eq!(daily_prefix(day(2025, 1, 7)), "# January 07, 2025\n\n");
    assert_eq!(strip_daily_prefix("# January 07, 2025\n\nbody\n", day(2025, 1, 7)).unwrap(), "body\n");
    assert_eq!(
        strip_daily_prefix("# January 07, 2025\r\n\r\nbody", day(2025, 1, 7)).unwrap(),
        "body"
    );
    assert_eq!(
        config_error(strip_daily_prefix("# January 07, 2025\nbody", day(2025, 1, 7))),
        "Daily note '2025-01-07' does not start with the expected built-in header '# January 07, 2025'"
    );
    assert_eq!(
        strip_migration_markers("a\r\n  <!-- djour:migrated-from=x:start -->\t\r\nb\n<!-- djour:migrated-from= -->\n<!-- other -->"),
        "a\nb\n<!-- other -->\n"
    );
    assert_eq!(strip_migration_markers(""), "");
}

fn entry(name: &str, date: Date) -> DailyEntry {
    DailyEntry {
        filename: name.to_string(),
        date,
        body: format!("body of {}", name),
    }
}

#[test]
fn plans_group_entries_by_week_and_date() {
    let mut weeks: Vec<WeekGroup> = Vec::new();
    for (name, date) in [
        ("c", day(2025, 1, 22)),
        ("a2", day(2025, 1, 15)),
        ("a1", day(2025, 1, 13)),
        ("z", day(2024, 12, 31)),
        ("a3", day(2025, 1, 15)),
    ] {
        let week = try_week_start(date).unwrap();
        add_to_weeks(&mut weeks, entry(name, date), week);
    }
    let shape: Vec<(Date, Vec<&str>)> = weeks
        .iter()
        .map(|w| (w.week_start, w.entries.iter().map(|e| e.filename.as_str()).collect()))
        .collect();
    assert_eq!(
        shape,
        vec![
            (day(2024, 12, 30), vec!["z"]),
            (day(2025, 1, 13), vec!["a1", "a2", "a3"]),
            (day(2025, 1, 20), vec!["c"]),
        ]
    );

    let read = daily_entry("2025-01-15.md", Some(day(2025, 1, 15)), "# January 15, 2025\n\nhello").unwrap();
    assert_eq!(read.body, "hello");
    assert_eq!(
        config_error(daily_entry("x.md", None, "text")),
        "Daily note missing date: x.md"
    );
    assert!(daily_entry("x.md", Some(day(2025, 1, 15)), "text").is_err());

    assert!(week_can_be_planned(&monday()));
    assert!(!week_can_be_planned(&day(262142, 12, 26)));
    assert_eq!(try_weekly_base(None, monday()).unwrap().unwrap(), WEEKLY);
    assert_eq!(try_weekly_base(Some(WEEKLY), monday()).unwrap().unwrap(), WEEKLY);
    assert!(try_weekly_base(Some("x"), monday()).unwrap().is_err());
    assert!(try_weekly_base(None, day(262142, 12, 26)).is_none());

    let updated = inject_entries(WEEKLY.to_string(), monday(), &weeks[1].entries).unwrap();
    let monday_block = updated.find("migrated-from=a1:start").unwrap();
    let first = updated.find("migrated-from=a2:start").unwrap();
    let second = updated.find("migrated-from=a3:start").unwrap();
    assert!(monday_block < first && first < second);
    assert!(updated.contains(
        "<!-- djour:migrated-from=a2:end -->\n<!-- djour:migrated-from=a3:start -->\nbody of a3\n"
    ));
    assert!(try_inject_entries("x".to_string(), monday(), &weeks[1].entries).unwrap().is_err());
    assert!(try_inject_entries(WEEKLY.to_string(), day(262142, 12, 26), &Vec::new()).is_none());
}

#[test]
fn weekly_notes_are_put_in_the_order_of_their_weeks() {
    let notes = vec![
        NoteEntry::new("2025-W04-2025-01-20.md".to_string(), Some(day(2025, 1, 20))),
        NoteEntry::new("2025-W03.md".to_string(), Some(day(2025, 1, 13))),
        NoteEntry::new("notes.md".to_string(), None),
        NoteEntry::new("2025-W02-2025-01-06.md".to_string(), Some(day(2025, 1, 6))),
        NoteEntry::new("2025-W03-2025-01-13.md".to_string(), Some(day(2025, 1, 13))),
    ];
    let weekly = weekly_notes_to_split(&notes).unwrap();
    let names: Vec<String> = weekly.iter().map(|w| w.filename.clone()).collect();
    assert_eq!(
        names,
        vec!["2025-W02-2025-01-06.md", "2025-W03-2025-01-13.md", "2025-W04-2025-01-20.md"]
    );
    assert_eq!(weekly[0].week_start, day(2025, 1, 6));
    assert_eq!(weekly[2].week_start, day(2025, 1, 20));
    assert!(weekly_notes_to_split(&Vec::new()).unwrap().is_empty());
}

#[test]
fn a_weekly_note_without_a_date_is_refused() {
    let notes = vec![
        NoteEntry::new("2025-W04-2025-01-20.md".to_string(), Some(day(2025, 1, 20))),
        NoteEntry::new("2025-W03-2025-01-13.md".to_string(), None),
    ];
    match weekly_notes_to_split(&notes) {
        Err(DjourError::Config(msg)) => {
            assert_eq!(msg, "Weekly note missing date: 2025-W03-2025-01-13.md")
        }
        other => panic!("unexpected: {:?}", other),
    }
}

#[test]
fn two_weekly_notes_of_one_week_are_refused() {
    let notes = vec![
        NoteEntry::new("2025-W04-2025-01-20.md".to_string(), Some(day(2025, 1, 20))),
        NoteEntry::new("2025-W03-2025-01-13.md".to_string(), Some(day(2025, 1, 13))),
        NoteEntry::new("2025-W02-2025-01-06.md".to_string(), Some(day(2025, 1, 6))),
        NoteEntry::new("2025-W05-2025-01-27.md".to_string(), Some(day(2025, 1, 13))),
        NoteEntry::new("2025-W06-2025-02-03.md".to_string(), Some(day(2025, 1, 20))),
    ];
    match weekly_notes_to_split(&notes) {
        Err(DjourError::Config(msg)) => assert_eq!(
            msg,
            "Multiple weekly files found for week starting 2025-01-13: \
             [\"2025-W03-2025-01-13.md\", \"2025-W05-2025-01-27.md\"]. \
             Resolve manually and retry."
        ),
        other => panic!("unexpected: {:?}", other),
    }
}
