use russd::feed::{RSSItem, poll_feed};
use russd::store::Store;
use russd::time::parse_rfc2822;

fn item(title: &str, date: &str) -> RSSItem {
    RSSItem {
        title: String::from(title),
        link: format!("https://example.com/{}", title),
        description: format!("about {}", title),
        pub_date: String::from(date),
    }
}

const D1: &str = "01 Jan 2024 00:00:00 +0000";
const D2: &str = "02 Jan 2024 00:00:00 +0000";
const D3: &str = "03 Jan 2024 00:00:00 +0000";

fn secs(d: &str) -> i64 {
    parse_rfc2822(d).expect("date should parse").secs
}

#[test]
fn exact_epoch_seconds() {
    assert_eq!(secs("01 Jan 1970 00:00:10 +0000"), 10);
}

#[test]
fn fresh_feed_surfaces_all() {
    let mut store = Store::new();
    let feed = String::from("https://example.com/feed");
    let items = vec![item("a", D1), item("b", D2), item("c", D3)];
    let (posts, wm) = poll_feed(&mut store, &feed, items);
    assert_eq!(posts.len(), 3);
    assert_eq!(posts[0].title, "a");
    assert_eq!(posts[1].title, "b");
    assert_eq!(posts[2].title, "c");
    assert_eq!(wm.secs, secs(D3));
    assert_eq!(store.get(&feed).secs, secs(D3));
}

#[test]
fn watermark_filters_older_and_equal() {
    let mut store = Store::new();
    let feed = String::from("https://example.com/feed");
    store.set(&feed, parse_rfc2822(D2).unwrap());
    let items = vec![item("a", D1), item("b", D2), item("c", D3)];
    let (posts, wm) = poll_feed(&mut store, &feed, items);
    assert_eq!(posts.len(), 1);
    assert_eq!(posts[0].title, "c");
    assert_eq!(wm.secs, secs(D3));
}

#[test]
fn zero_items_keeps_watermark() {
    let mut store = Store::new();
    let feed = String::from("https://example.com/feed");
    store.set(&feed, parse_rfc2822(D2).unwrap());
    let (posts, wm) = poll_feed(&mut store, &feed, Vec::new());
    assert!(posts.is_empty());
    assert_eq!(wm.secs, secs(D2));
    assert_eq!(store.get(&feed).secs, secs(D2));
}

#[test]
fn unparseable_dates_keep_watermark() {
    let mut store = Store::new();
    let feed = String::from("https://example.com/feed");
    store.set(&feed, parse_rfc2822(D2).unwrap());
    let items = vec![item("a", "not a date"), item("b", ""), item("c", "soon")];
    let (posts, wm) = poll_feed(&mut store, &feed, items);
    assert!(posts.is_empty());
    assert_eq!(wm.secs, secs(D2));
}

#[test]
fn unparseable_dates_never_surface() {
    let mut store = Store::new();
    let feed = String::from("https://example.com/feed");
    let items = vec![item("good", D1), item("bad", "garbage"), item("later", D3)];
    let (posts, wm) = poll_feed(&mut store, &feed, items);
    assert_eq!(posts.len(), 2);
    assert_eq!(posts[0].title, "good");
    assert_eq!(posts[1].title, "later");
    assert_eq!(wm.secs, secs(D3));
}

#[test]
fn surfaced_items_keep_feed_order() {
    let mut store = Store::new();
    let feed = String::from("https://example.com/feed");
    let items = vec![item("c", D3), item("a", D1), item("b", D2)];
    let (posts, wm) = poll_feed(&mut store, &feed, items);
    assert_eq!(posts.len(), 3);
    assert_eq!(posts[0].title, "c");
    assert_eq!(posts[1].title, "a");
    assert_eq!(posts[2].title, "b");
    assert_eq!(wm.secs, secs(D3));
}

#[test]
fn second_poll_surfaces_nothing_new() {
    let mut store = Store::new();
    let feed = String::from("https://example.com/feed");
    let items = vec![item("a", D1), item("b", D2)];
    let (first, _) = poll_feed(&mut store, &feed, items);
    assert_eq!(first.len(), 2);
    let again = vec![item("a", D1), item("b", D2)];
    let (second, wm) = poll_feed(&mut store, &feed, again);
    assert!(second.is_empty());
    assert_eq!(wm.secs, secs(D2));
}

#[test]
fn watermarks_are_per_feed() {
    let mut store = Store::new();
    let one = String::from("https://one.example/feed");
    let two = String::from("https://two.example/feed");
    let (_, _) = poll_feed(&mut store, &one, vec![item("a", D3)]);
    assert_eq!(store.get(&one).secs, secs(D3));
    assert_eq!(store.get(&two).secs, 0);
    let (posts, _) = poll_feed(&mut store, &two, vec![item("b", D1)]);
    assert_eq!(posts.len(), 1);
}
