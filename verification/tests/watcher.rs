use clipboard_history::dedup::DedupEngine;
use clipboard_history::focus::FocusManager;
use clipboard_history::listener::{build_event, open_retry_delay_ms, ListenerState, SeqCheck};
use clipboard_history::text::source_app_info;
use clipboard_history::tray::{tray_action, TrayAction};

#[test]
fn unchanged_sequence_is_ignored() {
    let e = DedupEngine::new(50);
    let mut s = ListenerState::new();
    assert_eq!(s.last_sequence(), 0);
    assert_eq!(s.check_sequence_at(&e, 0, 1000), SeqCheck::Unchanged);
    s.mark_read(5);
    assert_eq!(s.check_sequence_at(&e, 5, 1000), SeqCheck::Unchanged);
    assert_eq!(s.last_sequence(), 5);
}

#[test]
fn own_write_is_consumed() {
    let mut e = DedupEngine::new(50);
    e.record_write(9, DedupEngine::compute_hash(b"x"));
    let mut s = ListenerState::new();
    assert_eq!(s.check_sequence_at(&e, 9, 0), SeqCheck::OwnWrite);
    assert_eq!(s.last_sequence(), 9);
    assert_eq!(s.check_sequence_at(&e, 9, 0), SeqCheck::Unchanged);
}

#[test]
fn debounce_then_change() {
    let e = DedupEngine::new(50);
    let mut s = ListenerState::new();
    assert_eq!(s.check_sequence_at(&e, 3, 10), SeqCheck::Debounce);
    assert_eq!(s.last_sequence(), 0);
    assert_eq!(s.check_sequence_at(&e, 3, 50), SeqCheck::Changed);
    assert_eq!(s.last_sequence(), 0);
}

#[test]
fn check_sequence_against_clock() {
    let e = DedupEngine::new(0);
    let mut s = ListenerState::new();
    assert_eq!(s.check_sequence(&e, 4), SeqCheck::Changed);
}

#[test]
fn event_carries_hash_of_raw_content() {
    let e = DedupEngine::new(50);
    let ev = build_event(
        &e,
        "hi".to_string(),
        "text".to_string(),
        Some(b"hi".to_vec()),
        6,
        "Notepad".to_string(),
        "Edit".to_string(),
    )
    .unwrap();
    assert_eq!(ev.content_hash, DedupEngine::compute_hash(b"hi"));
    assert_eq!(ev.text_preview, "hi");
    assert_eq!(ev.content_type, "text");
    assert_eq!(ev.raw_content, Some(b"hi".to_vec()));
    assert_eq!(ev.content_size, 6);
    assert_eq!(ev.source_app, "Notepad");
    assert_eq!(ev.source_class, "Edit");
}

#[test]
fn event_without_raw_hashes_preview() {
    let e = DedupEngine::new(50);
    let ev = build_event(
        &e,
        "预览".to_string(),
        "other".to_string(),
        None,
        0,
        String::new(),
        String::new(),
    )
    .unwrap();
    assert_eq!(ev.content_hash, DedupEngine::compute_hash("预览".as_bytes()));
}

#[test]
fn duplicate_of_own_write_is_dropped() {
    let mut e = DedupEngine::new(50);
    e.record_write(1, DedupEngine::compute_hash(b"same"));
    let ev = build_event(
        &e,
        "same".to_string(),
        "text".to_string(),
        Some(b"same".to_vec()),
        4,
        String::new(),
        String::new(),
    );
    assert!(ev.is_none());
}

#[test]
fn retry_delays_grow() {
    assert_eq!(open_retry_delay_ms(1, 3), Some(10));
    assert_eq!(open_retry_delay_ms(2, 3), Some(20));
    assert_eq!(open_retry_delay_ms(3, 3), None);
}

#[test]
fn focus_is_given_back() {
    let mut f = FocusManager::new();
    assert!(f.restore_foreground().is_none());
    f.save_current_foreground(0, 77);
    assert!(f.restore_foreground().is_none());
    f.save_current_foreground(1234, 0);
    let p = f.restore_foreground().unwrap();
    assert_eq!(p.hwnd, 1234);
    assert_eq!(p.allow_pid, None);
    f.save_current_foreground(99, 5);
    f.save_current_foreground(0, 6);
    let p = f.restore_foreground().unwrap();
    assert_eq!(p.hwnd, 99);
    assert_eq!(p.allow_pid, Some(5));
}

#[test]
fn tray_items() {
    assert_eq!(tray_action("open"), TrayAction::OpenPanel);
    assert_eq!(tray_action("clear"), TrayAction::ClearHistory);
    assert_eq!(tray_action("quit"), TrayAction::Quit);
    assert_eq!(tray_action("Quit"), TrayAction::Ignore);
    assert_eq!(tray_action(""), TrayAction::Ignore);
}

#[test]
fn excluded_change_is_not_read_nor_consumed() {
    let e = DedupEngine::new(50);
    let mut s = ListenerState::new();
    assert_eq!(s.poll_decision_at(&e, 7, 100, true), SeqCheck::Excluded);
    assert_eq!(s.last_sequence(), 0);
    assert_eq!(s.poll_decision_at(&e, 7, 100, false), SeqCheck::Changed);
    assert_eq!(s.poll_decision_at(&e, 7, 10, true), SeqCheck::Debounce);
    assert_eq!(s.poll_decision_at(&e, 0, 100, true), SeqCheck::Unchanged);
    let zero = DedupEngine::new(0);
    assert_eq!(s.poll_decision(&zero, 8, true), SeqCheck::Excluded);
    assert_eq!(s.poll_decision(&zero, 8, false), SeqCheck::Changed);
}

#[test]
fn failed_read_is_tried_again() {
    let e = DedupEngine::new(0);
    let mut s = ListenerState::new();
    assert_eq!(s.poll_decision_at(&e, 3, 0, false), SeqCheck::Changed);
    s.after_read(3, false);
    assert_eq!(s.last_sequence(), 0);
    assert_eq!(s.poll_decision_at(&e, 3, 0, false), SeqCheck::Changed);
    s.after_read(3, true);
    assert_eq!(s.last_sequence(), 3);
    assert_eq!(s.poll_decision_at(&e, 3, 0, false), SeqCheck::Unchanged);
}

#[test]
fn source_window_names() {
    let title: Vec<u16> = "记事本\0".encode_utf16().collect();
    let class: Vec<u16> = "Notepad".encode_utf16().collect();
    assert_eq!(
        source_app_info(false, 3, &title, 3, &class, 7),
        (String::new(), String::new())
    );
    assert_eq!(
        source_app_info(true, 0, &title, 3, &class, 7),
        (String::new(), String::new())
    );
    assert_eq!(
        source_app_info(true, 3, &title, 3, &class, 7),
        ("记事本".to_string(), "Notepad".to_string())
    );
    assert_eq!(
        source_app_info(true, 3, &title, -1, &class, 0),
        (String::new(), String::new())
    );
    assert_eq!(
        source_app_info(true, 3, &title, 99, &class, 3),
        ("记事本\0".to_string(), "Not".to_string())
    );
}
