use djour::TagQuery;

#[test]
fn test_parse_single_tag() {
    let query = TagQuery::parse("work").unwrap();
    assert_eq!(query, TagQuery::Single("work".to_string()));
}

#[test]
fn test_parse_single_tag_with_hash() {
    let query = TagQuery::parse("#work").unwrap();
    assert_eq!(query, TagQuery::Single("work".to_string()));
}

#[test]
fn test_parse_and() {
    let query = TagQuery::parse("work AND urgent").unwrap();
    assert_eq!(
        query,
        TagQuery::And(
            Box::new(TagQuery::Single("work".to_string())),
            Box::new(TagQuery::Single("urgent".to_string()))
        )
    );
}

#[test]
fn test_parse_or() {
    let query = TagQuery::parse("work OR personal").unwrap();
    assert_eq!(
        query,
        TagQuery::Or(
            Box::new(TagQuery::Single("work".to_string())),
            Box::new(TagQuery::Single("personal".to_string()))
        )
    );
}

#[test]
fn test_parse_not() {
    let query = TagQuery::parse("NOT meeting").unwrap();
    assert_eq!(
        query,
        TagQuery::Not(Box::new(TagQuery::Single("meeting".to_string())))
    );
}

#[test]
fn test_parse_work_not_meeting() {
    let query = TagQuery::parse("work AND NOT meeting").unwrap();
    assert_eq!(
        query,
        TagQuery::And(
            Box::new(TagQuery::Single("work".to_string())),
            Box::new(TagQuery::Not(Box::new(TagQuery::Single(
                "meeting".to_string()
            ))))
        )
    );
}

#[test]
fn test_parse_complex() {
    // work AND urgent OR personal
    // Should parse as: work AND urgent OR personal (due to precedence)
    let query = TagQuery::parse("work AND urgent OR personal").unwrap();
    assert_eq!(
        query,
        TagQuery::Or(
            Box::new(TagQuery::And(
                Box::new(TagQuery::Single("work".to_string())),
                Box::new(TagQuery::Single("urgent".to_string()))
            )),
            Box::new(TagQuery::Single("personal".to_string()))
        )
    );
}

#[test]
fn test_parse_case_insensitive_operators() {
    let query1 = TagQuery::parse("work and urgent").unwrap();
    let query2 = TagQuery::parse("work AND urgent").unwrap();
    assert_eq!(query1, query2);
}

#[test]
fn test_parse_case_insensitive_tags() {
    let query = TagQuery::parse("WORK").unwrap();
    assert_eq!(query, TagQuery::Single("work".to_string()));
}

#[test]
fn test_parse_empty_query() {
    let result = TagQuery::parse("");
    assert!(result.is_err());
}

#[test]
fn test_parse_whitespace_only() {
    let result = TagQuery::parse("   ");
    assert!(result.is_err());
}

#[test]
fn test_parse_invalid_tag() {
    let result = TagQuery::parse("work@email");
    assert!(result.is_err());
}

#[test]
fn test_matches_single_tag() {
    let query = TagQuery::parse("work").unwrap();
    assert!(query.matches(&["work".to_string()]));
    assert!(!query.matches(&["personal".to_string()]));
}

#[test]
fn test_matches_and() {
    let query = TagQuery::parse("work AND urgent").unwrap();
    assert!(query.matches(&["work".to_string(), "urgent".to_string()]));
    assert!(!query.matches(&["work".to_string()]));
    assert!(!query.matches(&["urgent".to_string()]));
}

#[test]
fn test_matches_or() {
    let query = TagQuery::parse("work OR personal").unwrap();
    assert!(query.matches(&["work".to_string()]));
    assert!(query.matches(&["personal".to_string()]));
    assert!(query.matches(&["work".to_string(), "personal".to_string()]));
    assert!(!query.matches(&["other".to_string()]));
}

#[test]
fn test_matches_not() {
    let query = TagQuery::parse("work AND NOT meeting").unwrap();
    assert!(query.matches(&["work".to_string(), "urgent".to_string()]));
    assert!(!query.matches(&["work".to_string(), "meeting".to_string()]));
    assert!(!query.matches(&["personal".to_string()]));
}

#[test]
fn test_matches_complex() {
    let query = TagQuery::parse("work AND urgent OR personal").unwrap();
    // Should match: (work AND urgent) OR personal
    assert!(query.matches(&["work".to_string(), "urgent".to_string()]));
    assert!(query.matches(&["personal".to_string()]));
    assert!(!query.matches(&["work".to_string()]));
}

#[test]
fn test_to_string_single() {
    let query = TagQuery::parse("work").unwrap();
    assert_eq!(query.to_string(), "#work");
}

#[test]
fn test_to_string_and() {
    let query = TagQuery::parse("work AND urgent").unwrap();
    assert_eq!(query.to_string(), "#work AND #urgent");
}

#[test]
fn test_to_string_or() {
    let query = TagQuery::parse("work OR personal").unwrap();
    assert_eq!(query.to_string(), "(#work OR #personal)");
}

#[test]
fn test_to_string_not() {
    let query = TagQuery::parse("work AND NOT meeting").unwrap();
    assert_eq!(query.to_string(), "#work AND NOT #meeting");
}

#[test]
fn test_tags_with_hyphens_underscores() {
    let query = TagQuery::parse("project-alpha AND task_123").unwrap();
    assert!(query.matches(&["project-alpha".to_string(), "task_123".to_string()]));
}

#[test]
fn test_parse_multiple_ands() {
    let query = TagQuery::parse("work AND urgent AND important").unwrap();
    assert!(query.matches(&[
        "work".to_string(),
        "urgent".to_string(),
        "important".to_string()
    ]));
    assert!(!query.matches(&["work".to_string(), "urgent".to_string()]));
}

#[test]
fn test_parse_multiple_ors() {
    let query = TagQuery::parse("work OR personal OR hobby").unwrap();
    assert!(query.matches(&["work".to_string()]));
    assert!(query.matches(&["personal".to_string()]));
    assert!(query.matches(&["hobby".to_string()]));
    assert!(!query.matches(&["other".to_string()]));
}

#[test]
fn test_parse_double_not() {
    let query = TagQuery::parse("NOT NOT work").unwrap();
    // Double negation should match work
    assert!(query.matches(&["work".to_string()]));
    assert!(!query.matches(&["other".to_string()]));
}
