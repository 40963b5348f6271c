use russd::snapshot::{load_snapshot, save_snapshot};
use russd::store::Store;
use russd::time::Timestamp;

fn store_of(entries: &[(&str, i64)]) -> Store {
    let mut st = Store::new();
    for (url, secs) in entries {
        st.set(&String::from(*url), Timestamp { secs: *secs });
    }
    st
}

fn assert_same_entries(a: &Store, b: &Store) {
    assert_eq!(a.entries.len(), b.entries.len());
    for i in 0..a.entries.len() {
        assert_eq!(a.entries[i].0, b.entries[i].0);
        assert_eq!(a.entries[i].1.secs, b.entries[i].1.secs);
    }
}

#[test]
fn save_then_load_is_identity() {
    let st = store_of(&[("https://one.example/feed", 1704067200), ("https://two.example/rss", 10)]);
    let text = save_snapshot(&st).expect("in range");
    let back = load_snapshot(text.as_str()).expect("own snapshot reloads");
    assert_same_entries(&st, &back);
}

#[test]
fn save_then_load_empty_store() {
    let st = Store::new();
    let text = save_snapshot(&st).expect("in range");
    assert_eq!(text.as_str(), "{}");
    let back = load_snapshot(text.as_str()).expect("own snapshot reloads");
    assert_eq!(back.entries.len(), 0);
}

#[test]
fn save_then_load_with_special_characters() {
    let st = store_of(&[("https://odd.example/a\"b\\c", 42)]);
    let text = save_snapshot(&st).expect("in range");
    let back = load_snapshot(text.as_str()).expect("own snapshot reloads");
    assert_same_entries(&st, &back);
}

#[test]
fn snapshot_text_is_json_like() {
    let st = store_of(&[("https://one.example/feed", 0)]);
    let text = save_snapshot(&st).expect("in range");
    assert_eq!(text.as_str(), "{\"https://one.example/feed\":\"1970-01-01T00:00:00+00:00\"}");
}

#[test]
fn load_rejects_garbage() {
    assert!(load_snapshot("not a snapshot").is_none());
    assert!(load_snapshot("").is_none());
    assert!(load_snapshot("{").is_none());
    assert!(load_snapshot("{\"a\":\"1970-01-01T00:00:00+00:00\"").is_none());
}

#[test]
fn load_rejects_bad_date() {
    assert!(load_snapshot("{\"a\":\"sometime\"}").is_none());
}

#[test]
fn load_rejects_duplicate_feed() {
    let text = "{\"a\":\"1970-01-01T00:00:10+00:00\",\"a\":\"1970-01-01T00:00:20+00:00\"}";
    assert!(load_snapshot(text).is_none());
}

#[test]
fn load_accepts_handwritten_snapshot() {
    let text = "{\"https://one.example/feed\":\"1970-01-01T00:01:40+00:00\"}";
    let st = load_snapshot(text).expect("well formed");
    assert_eq!(st.entries.len(), 1);
    assert_eq!(st.entries[0].0, "https://one.example/feed");
    assert_eq!(st.entries[0].1.secs, 100);
}

#[test]
fn save_fails_outside_printable_range() {
    let st = store_of(&[("https://one.example/feed", i64::MAX)]);
    assert!(save_snapshot(&st).is_none());
}

#[test]
fn unknown_feed_answers_epoch() {
    let st = Store::new();
    assert_eq!(st.get(&String::from("https://never.seen/feed")).secs, 0);
}

#[test]
fn set_replaces_earlier_entry() {
    let mut st = Store::new();
    let feed = String::from("https://one.example/feed");
    st.set(&feed, Timestamp { secs: 5 });
    st.set(&feed, Timestamp { secs: 9 });
    assert_eq!(st.get(&feed).secs, 9);
    assert_eq!(st.entries.len(), 1);
}
