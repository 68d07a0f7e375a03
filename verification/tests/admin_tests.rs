use dsvn::admin::{chosen_uuid, commit_history_line, dump_range, history_line};

#[test]
fn dump_range_defaults_to_whole_history() {
    assert_eq!(dump_range(None, None, 5), Ok((0, 5)));
}

#[test]
fn dump_range_clamps_end_to_head() {
    assert_eq!(dump_range(Some(2), Some(9), 5), Ok((2, 5)));
    assert_eq!(dump_range(Some(2), Some(3), 5), Ok((2, 3)));
    assert_eq!(dump_range(Some(5), None, 5), Ok((5, 5)));
}

#[test]
fn dump_range_refuses_start_after_head() {
    assert_eq!(
        dump_range(Some(7), None, 5),
        Err("Start revision 7 exceeds HEAD (5)".to_string())
    );
}

#[test]
fn chosen_uuid_refuses_malformed_text() {
    assert_eq!(
        chosen_uuid(Some("not-a-uuid")),
        Err("Invalid UUID format: not-a-uuid".to_string())
    );
}

#[test]
fn chosen_uuid_keeps_a_valid_one() {
    let u = "550e8400-e29b-41d4-a716-446655440000";
    assert_eq!(chosen_uuid(Some(u)), Ok(u.to_string()));
}

#[test]
fn chosen_uuid_draws_a_fresh_one() {
    let a = chosen_uuid(None).unwrap();
    let b = chosen_uuid(None).unwrap();
    assert_eq!(a.len(), 36);
    assert_eq!(a.matches('-').count(), 4);
    assert_ne!(a, b);
}

#[test]
fn history_line_pads_and_cuts() {
    assert_eq!(
        history_line(3, "alice", "2024-01-02T03:04:05.000000Z", "Initial import"),
        "r3      | alice                | 2024-01-02T03:04:05 | Initial import"
    );
    let long = "a".repeat(61);
    let line = history_line(1234567, "an-author-with-a-long-name", "2024-01-02T03:04:05.000000Z", &long);
    assert_eq!(
        line,
        format!("r1234567 | an-author-with-a-long-name | 2024-01-02T03:04:05 | {}...", "a".repeat(57))
    );
    let sixty = "b".repeat(60);
    assert!(history_line(1, "x", "2024-01-02T03:04:05.000000Z", &sixty).ends_with(&sixty));
}

#[test]
fn commit_history_line_formats_the_date() {
    assert_eq!(
        commit_history_line(1, "bob", "m", 0),
        Some("r1      | bob                  | 1970-01-01T00:00:00 | m".to_string())
    );
    assert_eq!(
        commit_history_line(2, "bob", "m", 1_700_000_000),
        Some("r2      | bob                  | 2023-11-14T22:13:20 | m".to_string())
    );
}

#[test]
fn commit_history_line_refuses_what_cannot_be_cut() {
    assert_eq!(commit_history_line(1, "bob", "m", i64::MAX), None);
    let msg = format!("{}\u{e9}{}", "a".repeat(56), "b".repeat(10));
    assert_eq!(commit_history_line(1, "bob", &msg, 0), None);
}
