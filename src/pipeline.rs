//! One poll cycle of a feed: fetch, keep what is newer than the watermark,
//! deliver, and commit a new watermark to the record store.
use vstd::prelude::*;
use crate::clock::{format_wall_time, parse_wall_time, text_view, wall_time, wall_time_text};
use crate::store::{
    handles_of, scan_spec, without_handles, MemoryStore, StoreError, StoredMessage,
};
use crate::text::starts_with;

verus! {

/// An item of a feed in the shape that every adapter delivers.
pub struct FeedItem {
    pub author: String,
    pub avatar: String,
    pub text: String,
    pub link: String,
    /// Seconds since the epoch; 0 where the source's time could not be read.
    pub created_at: i64,
}

impl FeedItem {
    pub fn copy(&self) -> (r: FeedItem)
        ensures
            r == *self,
    {
        FeedItem {
            author: self.author.clone(),
            avatar: self.avatar.clone(),
            text: self.text.clone(),
            link: self.link.clone(),
            created_at: self.created_at,
        }
    }
}

pub open spec fn newer_than(w: i64) -> spec_fn(FeedItem) -> bool {
    |i: FeedItem| i.created_at > w
}

/// Keeps, in source order, the items strictly newer than `watermark`.
pub fn select_new(items: &Vec<FeedItem>, watermark: i64) -> (r: Vec<FeedItem>)
    ensures
        r@ == items@.filter(newer_than(watermark)),
{
    let ghost s = items@;
    let ghost pred = newer_than(watermark);
    let mut r: Vec<FeedItem> = Vec::new();
    let mut i: usize = 0;
    while i < items.len()
        invariant
            s == items@,
            pred == newer_than(watermark),
            i <= s.len(),
            r@ == s.take(i as int).filter(pred),
        decreases s.len() - i,
    {
        proof {
            reveal(Seq::filter);
            assert(s.take(i as int + 1).drop_last() =~= s.take(i as int));
            assert(pred(s[i as int]) == (s[i as int].created_at > watermark));
        }
        if items[i].created_at > watermark {
            r.push(items[i].copy());
        }
        i = i + 1;
    }
    assert(s.take(s.len() as int) =~= s);
    r
}

/// The tag of a feed's watermark record, with its separator.
pub open spec fn watermark_prefix(feed: Seq<char>) -> Seq<char> {
    feed + seq!['_', 'l', 'a', 's', 't', '_', 'd', 'a', 't', 'e', ' ']
}

/// The watermark that the scanned records `sc` hold: the time written in the
/// newest of them, or `now` where there is none or it cannot be read.
pub open spec fn watermark_value(sc: Seq<StoredMessage>, plen: int, now: i64) -> i64 {
    if sc.len() == 0 {
        now
    } else {
        match wall_time(sc[0].text@.skip(plen)) {
            Some(t) => t,
            None => now,
        }
    }
}

/// The text of the watermark record for `feed` stamped with `now`.
pub open spec fn watermark_text(feed: Seq<char>, now: i64) -> Option<Seq<char>> {
    match wall_time_text(now) {
        Some(t) => Some(watermark_prefix(feed) + t),
        None => None,
    }
}

/// The tag of `feed`'s watermark record.
pub fn watermark_tag(feed: &str) -> (r: String)
    ensures
        r@ == watermark_prefix(feed@),
{
    proof {
        reveal_strlit("_last_date ");
    }
    let mut s = String::from_str(feed);
    s.append("_last_date ");
    s
}

/// Reads the watermark from records scanned with `prefix`.
pub fn read_watermark(recs: &Vec<StoredMessage>, prefix: &str, now: i64) -> (r: i64)
    requires
        forall|i: int| 0 <= i < recs@.len() ==> starts_with(#[trigger] recs@[i].text@, prefix@),
    ensures
        r == watermark_value(recs@, prefix@.len() as int, now),
{
    if recs.len() == 0 {
        return now;
    }
    assert(starts_with(recs@[0].text@, prefix@));
    let text = recs[0].text.as_str();
    let stamp = text.substring_char(prefix.unicode_len(), text.unicode_len());
    assert(stamp@ =~= recs@[0].text@.skip(prefix@.len() as int));
    match parse_wall_time(stamp) {
        Some(t) => t,
        None => now,
    }
}

/// The watermark record for `feed` stamped with `now`; nothing where `now`
/// cannot be written as a calendar time.
pub fn watermark_record(feed: &str, now: i64) -> (r: Option<String>)
    ensures
        text_view(r) == watermark_text(feed@, now),
{
    match format_wall_time(now) {
        Some(t) => {
            let mut s = watermark_tag(feed);
            s.append(t.as_str());
            Some(s)
        },
        None => None,
    }
}

impl MemoryStore {
    /// Runs one poll cycle of `feed` on what its adapter fetched and returns
    /// the items to deliver, in source order. A failed fetch is handed back
    /// and touches nothing, so the next cycle retries from the same
    /// watermark. Otherwise the items newer than the watermark (`now` where
    /// none is recorded) are kept, every watermark record of the feed is
    /// deleted and one stamped with `now` is appended.
    pub fn run_cycle(&mut self, feed: &str, fetched: Result<Vec<FeedItem>, StoreError>, now: i64)
        -> (r: Result<Vec<FeedItem>, StoreError>)
        requires
            old(self).wf(),
        ensures
            final(self).wf(),
            match fetched {
                Err(e) => r == Err::<Vec<FeedItem>, StoreError>(e) && *final(self) == *old(self),
                Ok(items) => {
                    let sc = scan_spec(old(self).messages(), watermark_prefix(feed@));
                    let w = watermark_value(sc, watermark_prefix(feed@).len() as int, now);
                    if watermark_text(feed@, now).is_none() || old(self).next_handle() == u64::MAX {
                        r == Err::<Vec<FeedItem>, StoreError>(StoreError::WriteFailed)
                            && *final(self) == *old(self)
                    } else {
                        &&& r.is_ok()
                        &&& r.unwrap()@ == items@.filter(newer_than(w))
                        &&& final(self).messages().len() > 0
                        &&& final(self).messages()[0].handle == old(self).next_handle()
                        &&& final(self).messages()[0].text@ == watermark_text(feed@, now).unwrap()
                        &&& final(self).messages().drop_first()
                            == without_handles(old(self).messages(), handles_of(sc))
                    }
                },
            },
    {
        let items = match fetched {
            Ok(items) => items,
            Err(e) => return Err(e),
        };
        let prefix = watermark_tag(feed);
        let recs = self.scan(prefix.as_str());
        proof {
            broadcast use vstd::seq_lib::group_filter_ensures;
            let w = crate::store::window(self.messages());
            let p = crate::store::has_prefix(prefix@);
            assert forall|i: int| 0 <= i < recs@.len() implies starts_with(#[trigger] recs@[i].text@, prefix@) by {
                w.lemma_filter_pred(p, i);
            }
        }
        let watermark = read_watermark(&recs, prefix.as_str(), now);
        let record = match watermark_record(feed, now) {
            Some(t) => t,
            None => return Err(StoreError::WriteFailed),
        };
        if !self.can_append() {
            return Err(StoreError::WriteFailed);
        }
        let fresh = select_new(&items, watermark);
        let mut handles: Vec<u64> = Vec::new();
        let mut i: usize = 0;
        while i < recs.len()
            invariant
                i <= recs@.len(),
                handles@ == handles_of(recs@.take(i as int)),
            decreases recs@.len() - i,
        {
            handles.push(recs[i].handle);
            i = i + 1;
            assert(handles@ =~= handles_of(recs@.take(i as int)));
        }
        assert(recs@.take(recs@.len() as int) =~= recs@);
        self.delete_all(&handles);
        let ghost mid = self.messages();
        let _ = self.append(record);
        assert(self.messages().drop_first() =~= mid);
        Ok(fresh)
    }
}

/// A cycle whose watermark reads `t` and whose adapter returned items stamped
/// `t - 1`, `t`, `t + 1` and `t + 5` delivers exactly the last two, in that
/// order, and stamps its commit with a time at or past `t + 5` (the clock
/// reads no earlier than the newest item).
pub proof fn lemma_cycle_keeps_newer(
    sc: Seq<StoredMessage>,
    plen: int,
    items: Seq<FeedItem>,
    t: i64,
    now: i64,
)
    requires
        sc.len() > 0,
        wall_time(sc[0].text@.skip(plen)) == Some(t),
        i64::MIN < t <= i64::MAX - 5,
        items.len() == 4,
        items[0].created_at == t - 1,
        items[1].created_at == t,
        items[2].created_at == t + 1,
        items[3].created_at == t + 5,
        now >= items[3].created_at,
    ensures
        items.filter(newer_than(watermark_value(sc, plen, now))) == seq![items[2], items[3]],
        now >= t + 5,
{
    reveal_with_fuel(Seq::filter, 5);
    let p = newer_than(t);
    assert(items.drop_last().drop_last().drop_last().drop_last() =~= Seq::<FeedItem>::empty());
    assert(items.drop_last().drop_last().drop_last() =~= seq![items[0]]);
    assert(items.drop_last().drop_last() =~= seq![items[0], items[1]]);
    assert(items.drop_last() =~= seq![items[0], items[1], items[2]]);
    assert(seq![items[0]].filter(p) =~= Seq::<FeedItem>::empty());
    assert(seq![items[0], items[1]].filter(p) =~= Seq::<FeedItem>::empty());
    assert(seq![items[0], items[1], items[2]].filter(p) =~= seq![items[2]]);
    assert(items.filter(p) =~= seq![items[2], items[3]]);
}

} // verus!
