use kvstore::store::{Creation, Store};
use kvstore::text::{bytes_start_with, same_text, text_starts_with};

#[test]
fn bytes_start_with_compares_leading_bytes() {
    assert!(bytes_start_with(b"hello", b"he"));
    assert!(bytes_start_with(b"hello", b"hello"));
    assert!(bytes_start_with(b"hello", b""));
    assert!(bytes_start_with(b"", b""));
    assert!(!bytes_start_with(b"hello", b"hello!"));
    assert!(!bytes_start_with(b"hello", b"el"));
    assert!(!bytes_start_with(b"hello", b"hx"));
    assert!(!bytes_start_with(b"", b"a"));
    assert!(bytes_start_with(&[0xff, 0x00, 0x80], &[0xff, 0x00]));
    assert!(!bytes_start_with(&[0xff, 0x00, 0x80], &[0xff, 0x01]));
}

#[test]
fn text_starts_with_is_exact() {
    assert!(text_starts_with("avocado", "av"));
    assert!(text_starts_with("avocado", ""));
    assert!(text_starts_with("avocado", "avocado"));
    assert!(!text_starts_with("avocado", "Av"));
    assert!(!text_starts_with("avocado", "avocados"));
    assert!(!text_starts_with("av", "avocado"));
    assert!(text_starts_with("日本語", "日本"));
    assert!(!text_starts_with("日本語", "本"));
    assert!(text_starts_with("é", "é"));
    assert!(!text_starts_with("é", "e"));
}

#[test]
fn same_text_tells_equal_texts_from_others() {
    assert!(same_text("", ""));
    assert!(same_text("key", "key"));
    assert!(!same_text("key", "kez"));
    assert!(!same_text("key", "ke"));
    assert!(!same_text("ke", "key"));
    assert!(!same_text("key", "Key"));
    assert!(same_text("日本", "日本"));
    assert!(!same_text("日本", "日"));
}

#[test]
fn store_with_capacity_starts_empty() {
    let mut store = Store::with_capacity(16);
    assert!(store.keys_with_prefix("").is_empty());
    assert_eq!(store.get("a"), None);
    assert_eq!(store.create_if_absent("a"), Creation::Created);
    assert_eq!(store.get("a"), Some(Vec::new()));
    let mut none = Store::with_capacity(0);
    assert_eq!(none.create_if_absent("a"), Creation::Created);
    let mut beyond = Store::with_capacity(usize::MAX);
    assert!(beyond.keys_with_prefix("").is_empty());
    assert_eq!(beyond.create_if_absent("a"), Creation::Created);
    assert_eq!(beyond.get("a"), Some(Vec::new()));
    let by_default = Store::default();
    assert!(by_default.keys_with_prefix("").is_empty());
}

#[test]
fn keys_that_share_a_start_are_held_apart() {
    let mut store = Store::new();
    for key in ["a", "ab", "abc", "b", ""] {
        assert_eq!(store.create_if_absent(key), Creation::Created);
    }
    for key in ["a", "ab", "abc", "b", ""] {
        assert_eq!(store.create_if_absent(key), Creation::AlreadyExists);
        store.append(key, key.as_bytes());
    }
    for key in ["a", "ab", "abc", "b", ""] {
        assert_eq!(store.get(key), Some(key.as_bytes().to_vec()));
    }
    assert_eq!(store.get("abcd"), None);
}
