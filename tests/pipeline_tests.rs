use rinton_store::clock::display_time;
use rinton_store::pipeline::{read_watermark, select_new, watermark_record, watermark_tag, FeedItem};
use rinton_store::rss_feed::collect_rss;
use rinton_store::social::{
    feed_items, login_body, session_token, Author, CreateSessionResponse, Feed, FeedResponse, Post, PostRecord,
};
use rinton_store::store::{MemoryStore, StoreError};

const T: i64 = 1704067200; // 2024-01-01 00:00:00 UTC

fn item(text: &str, at: i64) -> FeedItem {
    FeedItem { author: "a".to_string(), avatar: "".to_string(), text: text.to_string(), link: "".to_string(), created_at: at }
}

fn texts(v: &[FeedItem]) -> Vec<String> {
    v.iter().map(|i| i.text.clone()).collect()
}

#[test]
fn chrono_times() {
    let mut s = MemoryStore::new();
    s.append("x_last_date garbage".to_string()).unwrap();
    let recs = s.scan("x_last_date ");
    assert_eq!(read_watermark(&recs, "x_last_date ", 42), 42);
    assert_eq!(watermark_record("x", T + 61), Some("x_last_date 2024-01-01 00:01:01".to_string()));
    assert_eq!(watermark_record("x", i64::MAX), None);
    assert_eq!(display_time(T), Some("2024-01-01 09:00:00".to_string()));
    assert_eq!(display_time(i64::MAX), None);
}

#[test]
fn watermark_helpers() {
    assert_eq!(watermark_tag("atproto"), "atproto_last_date ");
    assert_eq!(watermark_record("rss", T), Some("rss_last_date 2024-01-01 00:00:00".to_string()));
    let mut s = MemoryStore::new();
    s.append("rss_last_date 2024-01-01 00:00:00".to_string()).unwrap();
    let recs = s.scan("rss_last_date ");
    assert_eq!(read_watermark(&recs, "rss_last_date ", 5), T);
    assert_eq!(read_watermark(&Vec::new(), "rss_last_date ", 5), 5);
}

#[test]
fn select_keeps_strictly_newer_in_order() {
    let items = vec![item("b", T + 5), item("x", T), item("a", T + 1), item("y", T - 1)];
    assert_eq!(texts(&select_new(&items, T)), vec!["b", "a"]);
    assert!(select_new(&Vec::new(), T).is_empty());
}

#[test]
fn cycle_delivers_items_past_watermark() {
    let mut s = MemoryStore::new();
    s.append("feed_last_date 2024-01-01 00:00:00".to_string()).unwrap();
    let items = vec![item("old", T - 1), item("same", T), item("new1", T + 1), item("new5", T + 5)];
    let now = T + 10;
    let out = s.run_cycle("feed", Ok(items), now).unwrap();
    assert_eq!(texts(&out), vec!["new1", "new5"]);
    let recs = s.scan("feed_last_date ");
    assert_eq!(recs.len(), 1);
    assert_eq!(recs[0].text, "feed_last_date 2024-01-01 00:00:10");
    assert!(read_watermark(&recs, "feed_last_date ", 0) >= T + 5);
}

#[test]
fn cycle_without_watermark_starts_from_now() {
    let mut s = MemoryStore::new();
    let items = vec![item("past", T - 100), item("future", T + 100)];
    let out = s.run_cycle("feed", Ok(items), T).unwrap();
    assert_eq!(texts(&out), vec!["future"]);
    assert_eq!(s.len(), 1);
}

#[test]
fn cycle_cleans_duplicate_watermarks() {
    let mut s = MemoryStore::new();
    s.append("feed_last_date 2024-01-01 00:00:00".to_string()).unwrap();
    s.append("feed_last_date 2024-01-01 00:00:00".to_string()).unwrap();
    s.append("todo 1 keep".to_string()).unwrap();
    s.run_cycle("feed", Ok(Vec::new()), T + 1).unwrap();
    assert_eq!(s.scan("feed_last_date ").len(), 1);
    assert_eq!(s.scan("todo ").len(), 1);
}

#[test]
fn failed_fetch_leaves_watermark() {
    let mut s = MemoryStore::new();
    s.append("feed_last_date 2024-01-01 00:00:00".to_string()).unwrap();
    let before: Vec<String> = s.scan("feed_last_date ").into_iter().map(|m| m.text).collect();
    let r = s.run_cycle("feed", Err(StoreError::FetchFailed), T + 10);
    assert_eq!(r.map(|v| v.len()), Err(StoreError::FetchFailed));
    let after: Vec<String> = s.scan("feed_last_date ").into_iter().map(|m| m.text).collect();
    assert_eq!(before, after);
    assert_eq!(s.len(), 1);
}

const GOOD: &str = r#"<?xml version="1.0"?><rss version="2.0"><channel><title>News</title><link>http://x</link><description>d</description>
<item><title>one</title><link>http://x/1</link><pubDate>Mon, 01 Jan 2024 00:00:05 GMT</pubDate></item>
<item><title>two</title><link>http://x/2</link><pubDate>bad date</pubDate></item>
</channel></rss>"#;

#[test]
fn rss_failed_source_is_isolated() {
    let bodies = vec![Some(b"<not rss".to_vec()), None, Some(GOOD.as_bytes().to_vec())];
    let items = collect_rss(&bodies);
    assert_eq!(texts(&items), vec!["one", "two"]);
    assert_eq!(items[0].author, "News");
    assert_eq!(items[0].link, "http://x/1");
    assert_eq!(items[0].created_at, T + 5);
    assert_eq!(items[1].created_at, 0);
}

#[test]
fn rss_poll_delivers_from_good_source() {
    let mut s = MemoryStore::new();
    s.append("rss_link http://bad".to_string()).unwrap();
    s.append("rss_link http://good".to_string()).unwrap();
    s.append("rss_last_date 2024-01-01 00:00:00".to_string()).unwrap();
    let urls = s.rss_sources();
    assert_eq!(urls, vec!["http://good".to_string(), "http://bad".to_string()]);
    let bodies = vec![Some(GOOD.as_bytes().to_vec()), Some(b"oops".to_vec())];
    let out = s.poll_rss(&bodies, T + 60).unwrap();
    assert_eq!(texts(&out), vec!["one"]);
}

fn post(text: &str, created_at: &str) -> Feed {
    Feed {
        post: Post {
            uri: "at://p".to_string(),
            cid: "c".to_string(),
            author: Author {
                handle: "h".to_string(),
                did: "d".to_string(),
                display_name: "Name".to_string(),
                avatar: "http://img".to_string(),
            },
            record: PostRecord { text: text.to_string(), created_at: created_at.to_string() },
        },
    }
}

#[test]
fn social_feed_converts_every_post() {
    let resp = FeedResponse { feed: vec![post("hi", "2024-01-01T00:00:07.000Z"), post("yo", "2024-01-01T00:00:01.500Z")] };
    let items = feed_items(&resp).unwrap();
    assert_eq!(texts(&items), vec!["hi", "yo"]);
    assert_eq!(items[0].author, "Name");
    assert_eq!(items[0].avatar, "http://img");
    assert_eq!(items[0].created_at, T + 7);
    assert_eq!(items[1].created_at, T + 1);
}

#[test]
fn social_malformed_post_aborts_cycle() {
    let resp = FeedResponse { feed: vec![post("hi", "2024-01-01T00:00:07.000Z"), post("bad", "yesterday")] };
    assert_eq!(feed_items(&resp).map(|v| v.len()), Err(StoreError::FetchFailed));
    let mut s = MemoryStore::new();
    s.append("atproto_last_date 2023-12-31 00:00:00".to_string()).unwrap();
    let r = s.poll_social(Ok(resp), T + 60);
    assert_eq!(r.map(|v| v.len()), Err(StoreError::FetchFailed));
    assert_eq!(s.len(), 1);
    assert_eq!(s.scan("atproto_last_date ")[0].text, "atproto_last_date 2023-12-31 00:00:00");
}

#[test]
fn social_poll_delivers_new_posts() {
    let resp = FeedResponse { feed: vec![post("new", "2024-01-01T00:00:07.000Z"), post("old", "2023-06-01T00:00:00.000Z")] };
    let mut s = MemoryStore::new();
    s.append("atproto_last_date 2024-01-01 00:00:00".to_string()).unwrap();
    let out = s.poll_social(Ok(resp), T + 60).unwrap();
    assert_eq!(texts(&out), vec!["new"]);
    assert_eq!(s.scan("atproto_last_date ")[0].text, "atproto_last_date 2024-01-01 00:01:00");
}

#[test]
fn session_helpers() {
    assert_eq!(login_body("me", "pw").unwrap(), r#"{"identifier":"me","password":"pw"}"#);
    assert_eq!(login_body("", "pw"), Err(StoreError::AuthFailed));
    assert_eq!(login_body("me", ""), Err(StoreError::AuthFailed));
    assert_eq!(session_token(&CreateSessionResponse { access_jwt: "tok".to_string() }), Ok("tok".to_string()));
    assert_eq!(session_token(&CreateSessionResponse { access_jwt: "".to_string() }), Err(StoreError::AuthFailed));
}
