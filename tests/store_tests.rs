use rinton_store::store::{scan_window, MemoryStore, StoreError, StoredMessage, SCAN_WINDOW};
use rinton_store::text::{format_u64, parse_u64, split_field, text_starts_with};

#[test]
fn decimal_round_trip() {
    assert_eq!(format_u64(0), "0");
    assert_eq!(format_u64(12345), "12345");
    assert_eq!(format_u64(u64::MAX), "18446744073709551615");
    assert_eq!(parse_u64("42"), Some(42));
    assert_eq!(parse_u64("007"), Some(7));
    assert_eq!(parse_u64("18446744073709551615"), Some(u64::MAX));
}

#[test]
fn decimal_rejects_bad_text() {
    assert_eq!(parse_u64(""), None);
    assert_eq!(parse_u64("4a"), None);
    assert_eq!(parse_u64("-1"), None);
    assert_eq!(parse_u64("18446744073709551616"), None);
}

#[test]
fn split_at_first_separator() {
    assert_eq!(split_field("a b c"), ("a".to_string(), "b c".to_string()));
    assert_eq!(split_field("abc"), ("abc".to_string(), "".to_string()));
    assert_eq!(split_field(" x"), ("".to_string(), "x".to_string()));
    assert!(text_starts_with("todo 1 x", "todo "));
    assert!(!text_starts_with("tod", "todo "));
}

fn history(n: u64, matching: u64) -> Vec<StoredMessage> {
    // newest first: the first `matching` messages carry the tag
    (0..n)
        .map(|i| StoredMessage {
            handle: n - i,
            text: if i < matching { format!("todo {} m", i) } else { format!("other {}", i) },
        })
        .collect()
}

#[test]
fn scan_sees_at_most_the_window() {
    let msgs = history(150, 120);
    let r = scan_window(&msgs, "todo ");
    assert_eq!(r.len(), 100);
    assert_eq!(SCAN_WINDOW, 100);
    assert_eq!(r[0].handle, 150);
    assert_eq!(r[99].handle, 51);
}

#[test]
fn scan_misses_records_past_the_window() {
    // the 120 tagged messages are the oldest: only 70 of them are in view
    let msgs: Vec<StoredMessage> = (0..150u64)
        .map(|i| StoredMessage {
            handle: 150 - i,
            text: if i >= 30 { format!("todo {} m", i) } else { format!("other {}", i) },
        })
        .collect();
    let r = scan_window(&msgs, "todo ");
    assert_eq!(r.len(), 70);
    assert_eq!(r[0].handle, 120);
}

#[test]
fn memory_store_scan_window() {
    let mut s = MemoryStore::new();
    for i in 0..150 {
        let text = if i < 30 { format!("x {}", i) } else { format!("todo {} m", i) };
        assert!(s.append(text).is_ok());
    }
    assert_eq!(s.len(), 150);
    assert_eq!(s.scan("todo ").len(), 100);
    assert_eq!(s.scan("x ").len(), 0);
}

#[test]
fn append_and_delete() {
    let mut s = MemoryStore::new();
    assert_eq!(s.append("a 1".to_string()), Ok(1));
    assert_eq!(s.append("b 2".to_string()), Ok(2));
    assert_eq!(s.append("a 3".to_string()), Ok(3));
    let r = s.scan("a ");
    assert_eq!(r.len(), 2);
    assert_eq!(r[0].text, "a 3");
    assert_eq!(r[1].text, "a 1");
    s.delete(3);
    assert_eq!(s.len(), 2);
    s.delete(3);
    assert_eq!(s.len(), 2);
    s.delete_all(&vec![1, 2]);
    assert_eq!(s.len(), 0);
    assert!(s.can_append());
    let e: Result<u64, StoreError> = Err(StoreError::WriteFailed);
    assert_ne!(s.append("c".to_string()), e);
}
