use sumer::host::paging::ResumeState;
use sumer::wire::page::{CursorResumable, PageRequest};
use sumer::wire::timestamp::Rfc3339;

fn cursor(s: &str) -> PageRequest {
    PageRequest::Cursor {
        cursor: s.to_owned(),
    }
}

#[test]
fn absent_start_means_from_the_beginning_of_history() {
    let state = ResumeState::new(None);
    assert!(state.next_request().is_none());
}

#[test]
fn exact_resumes_from_the_last_completed_pages_next() {
    let mut state = ResumeState::new(Some(cursor("height-0")));
    state.record(CursorResumable::Exact, Some(cursor("height-100")));
    match state.next_request() {
        Some(PageRequest::Cursor { cursor }) => assert_eq!(cursor, "height-100"),
        other => panic!("expected a cursor, got {other:?}"),
    }
}

#[test]
fn exact_reaches_a_terminal_none_when_drained() {
    let mut state = ResumeState::new(Some(cursor("height-0")));
    state.record(CursorResumable::Exact, Some(cursor("height-100")));
    state.record(CursorResumable::Exact, None);
    assert!(
        state.next_request().is_none(),
        "fully drained, nothing left to fetch"
    );
}

#[test]
fn batch_restart_always_resends_the_original_start_mid_batch() {
    let mut state = ResumeState::new(Some(cursor("batch-start")));
    state.record(
        CursorResumable::BatchRestart,
        Some(cursor("intermediate-1")),
    );
    state.record(
        CursorResumable::BatchRestart,
        Some(cursor("intermediate-2")),
    );
    match state.next_request() {
        Some(PageRequest::Cursor { cursor }) => assert_eq!(cursor, "batch-start"),
        other => panic!("expected the original batch start, got {other:?}"),
    }
}

#[test]
fn batch_restart_still_resends_start_once_the_batch_finishes() {
    let mut state = ResumeState::new(Some(cursor("batch-start")));
    state.record(CursorResumable::BatchRestart, Some(cursor("intermediate")));
    state.record(CursorResumable::BatchRestart, None);
    match state.next_request() {
        Some(PageRequest::Cursor { cursor }) => assert_eq!(cursor, "batch-start"),
        other => panic!("expected batch start, got {other:?}"),
    }
}

#[test]
fn none_resumable_always_resends_the_original_window() {
    let window = PageRequest::Window {
        resource_id: "acct1".to_owned(),
        asset: None,
        start: Rfc3339::new("2026-01-01T00:00:00Z").unwrap(),
        end: Rfc3339::new("2026-02-01T00:00:00Z").unwrap(),
    };
    let mut state = ResumeState::new(Some(window.clone()));
    state.record(CursorResumable::NotResumable, None);
    match state.next_request() {
        Some(PageRequest::Window { resource_id, .. }) => assert_eq!(resource_id, "acct1"),
        other => panic!("expected the original window, got {other:?}"),
    }
    let _ = window;
}

#[test]
fn a_batch_page_between_exact_pages_falls_back_to_the_start() {
    let mut state = ResumeState::new(Some(cursor("start")));
    state.record(CursorResumable::Exact, Some(cursor("one")));
    state.record(CursorResumable::BatchRestart, Some(cursor("two")));
    match state.next_request() {
        Some(PageRequest::Cursor { cursor }) => assert_eq!(cursor, "start"),
        other => panic!("expected the start, got {other:?}"),
    }
    state.record(CursorResumable::Exact, Some(cursor("three")));
    match state.next_request() {
        Some(PageRequest::Cursor { cursor }) => assert_eq!(cursor, "three"),
        other => panic!("expected the last exact cursor, got {other:?}"),
    }
}
