//! The social-feed adapter: a session token obtained once, and a feed whose
//! posts all convert or the whole fetch fails.
use vstd::prelude::*;
use crate::clock::{parse_post_time, post_time};
use crate::pipeline::{newer_than, watermark_prefix, watermark_text, watermark_value, FeedItem};
use crate::rss_feed::{all_sources_items, body_views, collect_rss, item_view};
use crate::store::{handles_of, scan_spec, without_handles, MemoryStore, StoreError};

verus! {

/// The answer of the session endpoint.
pub struct CreateSessionResponse {
    pub access_jwt: String,
}

pub struct Author {
    pub handle: String,
    pub did: String,
    pub display_name: String,
    pub avatar: String,
}

pub struct PostRecord {
    pub text: String,
    pub created_at: String,
}

pub struct Post {
    pub uri: String,
    pub cid: String,
    pub author: Author,
    pub record: PostRecord,
}

pub struct Feed {
    pub post: Post,
}

/// The answer of the feed endpoint: its posts, newest first.
pub struct FeedResponse {
    pub feed: Vec<Feed>,
}

pub open spec fn login_json(identifier: Seq<char>, password: Seq<char>) -> Seq<char> {
    seq!['{', '"', 'i', 'd', 'e', 'n', 't', 'i', 'f', 'i', 'e', 'r', '"', ':', '"'] + identifier
        + seq!['"', ',', '"', 'p', 'a', 's', 's', 'w', 'o', 'r', 'd', '"', ':', '"'] + password
        + seq!['"', '}']
}

/// The body of the login request. Fails with `AuthFailed` where either
/// credential is missing (empty). The credentials are written as given.
pub fn login_body(identifier: &str, password: &str) -> (r: Result<String, StoreError>)
    ensures
        identifier@.len() == 0 || password@.len() == 0 ==> r == Err::<String, StoreError>(
            StoreError::AuthFailed,
        ),
        identifier@.len() > 0 && password@.len() > 0 ==> r.is_ok() && r.unwrap()@ == login_json(
            identifier@,
            password@,
        ),
{
    if identifier.unicode_len() == 0 || password.unicode_len() == 0 {
        return Err(StoreError::AuthFailed);
    }
    proof {
        reveal_strlit("{\"identifier\":\"");
        reveal_strlit("\",\"password\":\"");
        reveal_strlit("\"}");
    }
    let mut s = String::from_str("{\"identifier\":\"");
    s.append(identifier);
    s.append("\",\"password\":\"");
    s.append(password);
    s.append("\"}");
    assert(s@ =~= login_json(identifier@, password@));
    Ok(s)
}

/// The token that a session answer carries. Fails with `AuthFailed` where
/// the endpoint handed out none.
pub fn session_token(resp: &CreateSessionResponse) -> (r: Result<String, StoreError>)
    ensures
        resp.access_jwt@.len() == 0 ==> r == Err::<String, StoreError>(StoreError::AuthFailed),
        resp.access_jwt@.len() > 0 ==> r.is_ok() && r.unwrap()@ == resp.access_jwt@,
{
    if resp.access_jwt.as_str().unicode_len() == 0 {
        Err(StoreError::AuthFailed)
    } else {
        Ok(resp.access_jwt.clone())
    }
}

/// Every post's creation time can be read.
pub open spec fn all_times_read(resp: &FeedResponse) -> bool {
    forall|i: int| 0 <= i < resp.feed@.len() ==> (#[trigger] post_time(resp.feed@[i].post.record.created_at@)).is_some()
}

/// The item that a post becomes.
pub open spec fn post_item(f: Feed, i: FeedItem) -> bool {
    &&& i.author@ == f.post.author.display_name@
    &&& i.avatar@ == f.post.author.avatar@
    &&& i.text@ == f.post.record.text@
    &&& i.link@ == f.post.uri@
    &&& i.created_at == post_time(f.post.record.created_at@).unwrap()
}

/// The posts of a feed answer as items, in the answer's order. One post
/// whose time cannot be read fails the whole fetch with `FetchFailed`.
pub fn feed_items(resp: &FeedResponse) -> (r: Result<Vec<FeedItem>, StoreError>)
    ensures
        !all_times_read(resp) ==> r == Err::<Vec<FeedItem>, StoreError>(StoreError::FetchFailed),
        all_times_read(resp) ==> r.is_ok() && r.unwrap()@.len() == resp.feed@.len()
            && forall|i: int| 0 <= i < resp.feed@.len() ==> post_item(resp.feed@[i], #[trigger] r.unwrap()@[i]),
{
    let mut r: Vec<FeedItem> = Vec::new();
    let mut i: usize = 0;
    while i < resp.feed.len()
        invariant
            i <= resp.feed@.len(),
            r@.len() == i,
            forall|j: int| 0 <= j < i ==> (#[trigger] post_time(resp.feed@[j].post.record.created_at@)).is_some(),
            forall|j: int| 0 <= j < i ==> post_item(resp.feed@[j], #[trigger] r@[j]),
        decreases resp.feed@.len() - i,
    {
        let post = &resp.feed[i].post;
        let created_at = match parse_post_time(post.record.created_at.as_str()) {
            Some(t) => t,
            None => return Err(StoreError::FetchFailed),
        };
        r.push(FeedItem {
            author: post.author.display_name.clone(),
            avatar: post.author.avatar.clone(),
            text: post.record.text.clone(),
            link: post.uri.clone(),
            created_at,
        });
        i = i + 1;
    }
    Ok(r)
}

/// The name under which the social feed keeps its watermark.
pub open spec fn social_feed_name() -> Seq<char> {
    seq!['a', 't', 'p', 'r', 'o', 't', 'o']
}

/// The name under which the RSS sources keep their watermark.
pub open spec fn rss_feed_name() -> Seq<char> {
    seq!['r', 's', 's']
}

pub fn social_feed() -> (r: &'static str)
    ensures
        r@ == social_feed_name(),
{
    proof {
        reveal_strlit("atproto");
    }
    "atproto"
}

pub fn rss_feed() -> (r: &'static str)
    ensures
        r@ == rss_feed_name(),
{
    proof {
        reveal_strlit("rss");
    }
    "rss"
}

impl MemoryStore {
    /// One poll cycle of the social feed on what its endpoint answered. A
    /// failed request, or one post whose time cannot be read, aborts the
    /// cycle: nothing is delivered and the store is left as it was.
    pub fn poll_social(&mut self, answer: Result<FeedResponse, StoreError>, now: i64)
        -> (r: Result<Vec<FeedItem>, StoreError>)
        requires
            old(self).wf(),
        ensures
            final(self).wf(),
            match answer {
                Err(e) => r == Err::<Vec<FeedItem>, StoreError>(e) && *final(self) == *old(self),
                Ok(resp) => {
                    let sc = scan_spec(old(self).messages(), watermark_prefix(social_feed_name()));
                    let w = watermark_value(sc, watermark_prefix(social_feed_name()).len() as int, now);
                    if !all_times_read(&resp) {
                        r == Err::<Vec<FeedItem>, StoreError>(StoreError::FetchFailed) && *final(self) == *old(self)
                    } else if watermark_text(social_feed_name(), now).is_none()
                        || old(self).next_handle() == u64::MAX {
                        r == Err::<Vec<FeedItem>, StoreError>(StoreError::WriteFailed) && *final(self) == *old(self)
                    } else {
                        &&& r.is_ok()
                        &&& exists|items: Seq<FeedItem>| #![trigger items.filter(newer_than(w))]
                            items.len() == resp.feed@.len()
                            && (forall|i: int| 0 <= i < items.len() ==> post_item(resp.feed@[i], #[trigger] items[i]))
                            && r.unwrap()@ == items.filter(newer_than(w))
                        &&& final(self).messages().len() > 0
                        &&& final(self).messages()[0].handle == old(self).next_handle()
                        &&& final(self).messages()[0].text@ == watermark_text(social_feed_name(), now).unwrap()
                        &&& final(self).messages().drop_first()
                            == without_handles(old(self).messages(), handles_of(sc))
                    }
                },
            },
    {
        let fetched = match answer {
            Ok(resp) => feed_items(&resp),
            Err(e) => Err(e),
        };
        let r = self.run_cycle(social_feed(), fetched, now);
        r
    }

    /// One poll cycle of the RSS sources on the bodies fetched for them
    /// (nothing where a fetch failed). A source that failed contributes no
    /// item; the others are still delivered.
    pub fn poll_rss(&mut self, bodies: &Vec<Option<Vec<u8>>>, now: i64) -> (r: Result<Vec<FeedItem>, StoreError>)
        requires
            old(self).wf(),
        ensures
            final(self).wf(),
            watermark_text(rss_feed_name(), now).is_some() && old(self).next_handle() < u64::MAX
                <==> r.is_ok(),
            r.is_ok() ==> final(self).messages()[0].text@ == watermark_text(rss_feed_name(), now).unwrap()
                && final(self).messages().drop_first() == without_handles(
                    old(self).messages(),
                    handles_of(scan_spec(old(self).messages(), watermark_prefix(rss_feed_name()))),
                ),
            r.is_ok() ==> exists|all: Seq<FeedItem>|
                #![trigger all.filter(newer_than(watermark_value(
                    scan_spec(old(self).messages(), watermark_prefix(rss_feed_name())),
                    watermark_prefix(rss_feed_name()).len() as int,
                    now,
                )))]
                all.map_values(|i: FeedItem| item_view(i)) == all_sources_items(body_views(bodies@))
                && r.unwrap()@ == all.filter(newer_than(watermark_value(
                    scan_spec(old(self).messages(), watermark_prefix(rss_feed_name())),
                    watermark_prefix(rss_feed_name()).len() as int,
                    now,
                ))),
            r.is_err() ==> r == Err::<Vec<FeedItem>, StoreError>(StoreError::WriteFailed) && *final(self) == *old(self),
    {
        let items = collect_rss(bodies);
        let ghost all = items@;
        let r = self.run_cycle(rss_feed(), Ok(items), now);
        r
    }
}

} // verus!
