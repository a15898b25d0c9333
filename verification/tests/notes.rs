use idiomatic::notes::{parse_notes, Store, StoreError, STALE_AFTER};
use std::time::{SystemTime, UNIX_EPOCH};

const SECOND: u64 = 1_000_000_000;

fn at(secs: u64) -> u64 {
    secs * SECOND
}

fn text(s: &str) -> String {
    s.to_string()
}

fn now_ns() -> u64 {
    u64::try_from(SystemTime::now().duration_since(UNIX_EPOCH).unwrap().as_nanos()).unwrap()
}

#[test]
fn add_then_find_returns_the_note() {
    let mut store = Store::new();
    let id = store.add_note(&text("a"), &text("body"), 0, at(1));
    assert_eq!(store.find(id).map(|n| n.title.as_str()), Some("a"));
    assert!(store.find(999).is_none());
}

#[test]
fn titles_follow_insertion_order() {
    let mut store = Store::new();
    store.add_note(&text("first"), &text(""), 0, at(1));
    store.add_note(&text("second"), &text(""), 0, at(2));
    assert_eq!(store.titles(), vec!["first", "second"]);
    assert_eq!(store.get_notes().len(), 2);
}

#[test]
fn archived_notes_leave_the_tag_count_unless_asked_for() {
    let mut store = Store::new();
    let a = store.add_note(&text("a"), &text(""), 0, at(1));
    let b = store.add_note(&text("b"), &text(""), 0, at(2));
    store.add_tag(a, "work");
    store.add_tag(b, "work");
    store.set_status(b, "archived");
    assert_eq!(store.count_by_tag("work", false), 1);
    assert_eq!(store.count_by_tag("work", true), 2);
}

#[test]
fn archive_stale_archives_open_notes_older_than_a_week() {
    let mut store = Store::new();
    let eight_days_ago = now_ns() - 8 * 24 * 60 * 60 * SECOND;
    let old = store.add_note(&text("old"), &text(""), 0, eight_days_ago);
    let fresh = store.add_note(&text("fresh"), &text(""), 0, now_ns());
    assert_eq!(store.archive_stale(), 1);
    assert_eq!(store.find(old).unwrap().status, "archived");
    assert_eq!(store.find(fresh).unwrap().status, "open");
    assert_eq!(store.archive_stale(), 0);
}

#[test]
fn newest_is_the_most_recently_updated() {
    let mut store = Store::new();
    store.add_note(&text("older"), &text(""), 0, at(10));
    store.add_note(&text("newer"), &text(""), 0, at(20));
    assert_eq!(store.newest().title, "newer");
}

#[test]
fn newest_of_notes_updated_together_is_the_last() {
    let mut store = Store::new();
    store.add_note(&text("a"), &text(""), 0, at(5));
    store.add_note(&text("b"), &text(""), 0, at(5));
    store.add_note(&text("c"), &text(""), 0, at(1));
    assert_eq!(store.newest().title, "b");
}

#[test]
fn a_note_is_stale_only_after_more_than_a_week() {
    let mut store = Store::new();
    let exactly = store.add_note(&text("a"), &text(""), 0, 0);
    let over = store.add_note(&text("b"), &text(""), 0, 0);
    let future = store.add_note(&text("from the future"), &text(""), 0, STALE_AFTER * 3);
    store.set_status(over, "archived");
    store.set_status(over, "open");
    // at exactly one week the first note is not stale yet
    assert_eq!(store.archive_stale_at(u128::from(STALE_AFTER)), 0);
    assert_eq!(store.archive_stale_at(u128::from(STALE_AFTER) + 1), 2);
    assert_eq!(store.find(exactly).unwrap().status, "archived");
    assert_eq!(store.find(over).unwrap().status, "archived");
    assert_eq!(store.find(future).unwrap().status, "open");
    // archiving again at the same instant archives nothing
    assert_eq!(store.archive_stale_at(u128::from(STALE_AFTER) + 1), 0);
}

#[test]
fn an_archived_note_is_not_archived_again() {
    let mut store = Store::new();
    let id = store.add_note(&text("a"), &text(""), 0, 0);
    store.set_status(id, "archived");
    assert_eq!(store.archive_stale_at(u128::from(STALE_AFTER) * 2), 0);
}

#[test]
fn tags_and_parents_are_kept() {
    let mut store = Store::new();
    let a = store.add_note(&text("a"), &text("x"), 0, at(1));
    let b = store.add_note(&text("b"), &text("y"), a, at(2));
    store.add_tag(b, "one");
    store.add_tag(b, "two");
    let note = store.find(b).unwrap();
    assert_eq!(note.id, 2);
    assert_eq!(note.parent, 1);
    assert_eq!(note.tags, vec!["one", "two"]);
    assert_eq!(note.updated_at, at(2));
    assert_eq!(store.count_by_tag("three", true), 0);
    assert!(store.find(0).is_none());
}

#[test]
fn parse_notes_reads_one_note_per_line() {
    let store = parse_notes("a|body a\nb|body b\n", at(1)).unwrap();
    assert_eq!(store.titles(), vec!["a", "b"]);
    assert_eq!(store.find(2).unwrap().body, "body b");
    assert_eq!(store.find(1).unwrap().updated_at, at(1));
}

#[test]
fn parse_notes_names_the_first_line_without_a_separator() {
    let err = parse_notes("a|body a\nno separator here\nalso none\n", at(1)).unwrap_err();
    let StoreError::Parse(msg) = &err;
    assert_eq!(msg, "line 2 has no '|' separator: no separator here");
    assert!(err.describe().contains("line 2"));
    assert_eq!(err.describe(), "parse error: line 2 has no '|' separator: no separator here");
}

#[test]
fn parse_notes_splits_at_the_first_bar_and_keeps_empty_lines_as_errors() {
    let store = parse_notes("t|a|b\r\n|", 7).unwrap();
    assert_eq!(store.find(1).unwrap().title, "t");
    assert_eq!(store.find(1).unwrap().body, "a|b");
    assert_eq!(store.find(2).unwrap().title, "");
    assert_eq!(store.find(2).unwrap().body, "");
    assert!(parse_notes("a|b\n\nc|d", 7).is_err());
    assert_eq!(parse_notes("", 7).unwrap().get_notes().len(), 0);
}

#[test]
fn staleness_is_judged_past_the_last_instant_a_note_can_hold() {
    let mut store = Store::new();
    let last = store.add_note(&text("last"), &text(""), 0, u64::MAX);
    let week = u128::from(STALE_AFTER);
    assert_eq!(store.archive_stale_at(u128::from(u64::MAX) + week), 0);
    assert_eq!(store.archive_stale_at(u128::from(u64::MAX) + week + 1), 1);
    assert_eq!(store.find(last).unwrap().status, "archived");
}

#[test]
fn find_gives_the_note_with_that_id() {
    let mut store = Store::new();
    for k in 1..=3 {
        store.add_note(&text("n"), &text(""), 0, at(k));
    }
    for id in 1..=3 {
        assert_eq!(store.find(id).unwrap().id, id);
    }
}
