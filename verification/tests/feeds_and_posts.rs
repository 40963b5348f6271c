use russd::config::parse_feed_list;
use russd::feed::{Post, RSSItem};
use russd::notify::build_notification;

#[test]
fn blank_feed_list_names_no_feed() {
    assert!(parse_feed_list("\n\n\n").is_empty());
    assert!(parse_feed_list("").is_empty());
    assert!(parse_feed_list("\r\n\r\n").is_empty());
}

#[test]
fn feed_list_keeps_order_and_drops_blanks() {
    let feeds = parse_feed_list("https://one.example/feed\n\nhttps://two.example/rss\n");
    assert_eq!(feeds.len(), 2);
    assert_eq!(feeds[0].as_str(), "https://one.example/feed");
    assert_eq!(feeds[1].as_str(), "https://two.example/rss");
}

#[test]
fn feed_list_takes_last_line_without_break() {
    let feeds = parse_feed_list("https://one.example/feed\nhttps://two.example/rss");
    assert_eq!(feeds.len(), 2);
    assert_eq!(feeds[1].as_str(), "https://two.example/rss");
}

#[test]
fn feed_list_strips_carriage_returns() {
    let feeds = parse_feed_list("https://one.example/feed\r\nhttps://two.example/rss\r\n");
    assert_eq!(feeds.len(), 2);
    assert_eq!(feeds[0].as_str(), "https://one.example/feed");
    assert_eq!(feeds[1].as_str(), "https://two.example/rss");
}

#[test]
fn post_carries_item_fields_and_icon() {
    let it = RSSItem {
        title: String::from("hello"),
        link: String::from("https://site.example/post"),
        description: String::from("a post"),
        pub_date: String::from("01 Jan 2024 00:00:00 +0000"),
    };
    let post = Post::from_item(it, String::from("/tmp/icons/key.png"));
    assert_eq!(post.title.as_str(), "hello");
    assert_eq!(post.link.as_str(), "https://site.example/post");
    assert_eq!(post.description.as_str(), "a post");
    assert_eq!(post.icon.as_str(), "/tmp/icons/key.png");
}

#[test]
fn notification_descriptor_fields() {
    let post = Post {
        title: String::from("hello"),
        description: String::from("a post"),
        link: String::from("https://site.example/post"),
        icon: String::from("/tmp/icons/key.png"),
    };
    let n = build_notification(&post);
    assert_eq!(n.summary.as_str(), "hello");
    assert_eq!(n.body.as_str(), "a post");
    assert_eq!(n.icon_ref.as_str(), "file:///tmp/icons/key.png");
    assert_eq!(n.action.as_str(), "default");
    assert_eq!(n.timeout_ms, 3000);
}
