use clipboard_history::dedup::DedupEngine;
use clipboard_history::models::ContentType;

#[test]
fn content_type_names_round_trip() {
    let all = [
        ContentType::Text,
        ContentType::Image,
        ContentType::Files,
        ContentType::Html,
        ContentType::Rtf,
        ContentType::Other,
    ];
    for t in all {
        assert_eq!(ContentType::from_str(t.as_str()), t);
    }
    assert_eq!(ContentType::Text.as_str(), "text");
    assert_eq!(ContentType::Image.as_str(), "image");
}

#[test]
fn unknown_content_type_is_other() {
    assert_eq!(ContentType::from_str("video"), ContentType::Other);
    assert_eq!(ContentType::from_str(""), ContentType::Other);
    assert_eq!(ContentType::from_str("TEXT"), ContentType::Other);
}

#[test]
fn hash_of_known_inputs() {
    assert_eq!(
        DedupEngine::compute_hash(b"abc"),
        "ba7816bf8f01cfea414140de5dae2223b00361a396177a9cb410ff61f20015ad"
    );
    assert_eq!(
        DedupEngine::compute_hash(b""),
        "e3b0c44298fc1c149afbf4c8996fb92427ae41e4649b934ca495991b7852b855"
    );
}

#[test]
fn hash_is_sixty_four_lowercase_hex_digits() {
    let h = DedupEngine::compute_hash("剪贴板".as_bytes());
    assert_eq!(h.chars().count(), 64);
    assert!(h.chars().all(|c| c.is_ascii_digit() || ('a'..='f').contains(&c)));
}

#[test]
fn fresh_engine_recognises_nothing() {
    let e = DedupEngine::new(50);
    assert!(!e.is_own_write_by_seq(0));
    assert!(!e.is_own_write_by_seq(7));
    assert!(!e.is_duplicate_hash(""));
    assert!(!e.is_duplicate_hash("abc"));
    assert_eq!(e.debounce_ms(), 50);
}

#[test]
fn recorded_write_is_recognised() {
    let mut e = DedupEngine::new(50);
    let h = DedupEngine::compute_hash(b"hello");
    e.record_write(42, h.clone());
    assert!(e.is_own_write_by_seq(42));
    assert!(!e.is_own_write_by_seq(43));
    assert!(e.is_duplicate_hash(&h));
    assert!(!e.is_duplicate_hash(&DedupEngine::compute_hash(b"world")));
}

#[test]
fn sequence_zero_and_empty_hash_are_never_own() {
    let mut e = DedupEngine::new(50);
    e.record_write(0, String::new());
    assert!(!e.is_own_write_by_seq(0));
    assert!(!e.is_duplicate_hash(""));
}

#[test]
fn debounce_window_bounds() {
    let e = DedupEngine::new(50);
    assert!(e.within_debounce(0));
    assert!(e.within_debounce(49));
    assert!(!e.within_debounce(50));
    assert!(!e.within_debounce(1000));
    let zero = DedupEngine::new(0);
    assert!(!zero.is_in_debounce_window());
    let long = DedupEngine::new(u64::MAX);
    assert!(long.is_in_debounce_window());
}

#[test]
fn write_time_restarts_debounce_window() {
    let mut e = DedupEngine::new(50);
    assert!(e.is_in_debounce_window_at(0));
    assert!(e.is_in_debounce_window_at(49));
    assert!(!e.is_in_debounce_window_at(50));
    assert_eq!(e.elapsed_at(70), 70);
    e.record_write_at(5, DedupEngine::compute_hash(b"w"), 1000);
    assert!(e.is_own_write_by_seq(5));
    assert_eq!(e.elapsed_at(1020), 20);
    assert_eq!(e.elapsed_at(900), 0);
    assert!(e.is_in_debounce_window_at(1020));
    assert!(e.is_in_debounce_window_at(1049));
    assert!(!e.is_in_debounce_window_at(1050));
}

#[test]
fn clock_readings_after_creation() {
    let mut e = DedupEngine::new(u64::MAX);
    let t = e.now_ms();
    assert!(e.now_ms() >= t);
    assert!(e.elapsed_since_write() <= e.now_ms());
    e.record_write(1, String::new());
    assert!(e.is_in_debounce_window());
}
