//! The RSS adapter: source URLs kept in the record store, documents read by
//! the `rss` crate, one source's failure isolated from the others.
use vstd::prelude::*;
use crate::clock::{parse_rss_time, rss_time};
use crate::pipeline::FeedItem;
use crate::store::{scan_spec, MemoryStore, StoredMessage};
use crate::text::{split_field, split_first, starts_with};

verus! {

pub struct RssEntry {
    pub title: Option<String>,
    pub link: Option<String>,
    pub pub_date: Option<String>,
}

pub struct RssDocument {
    pub title: String,
    pub entries: Vec<RssEntry>,
}

pub ghost struct RssEntryView {
    pub title: Option<Seq<char>>,
    pub link: Option<Seq<char>>,
    pub pub_date: Option<Seq<char>>,
}

pub ghost struct RssDocumentView {
    pub title: Seq<char>,
    pub entries: Seq<RssEntryView>,
}

pub open spec fn opt_text(o: Option<String>) -> Option<Seq<char>> {
    match o {
        Some(s) => Some(s@),
        None => None,
    }
}

impl View for RssEntry {
    type V = RssEntryView;

    open spec fn view(&self) -> RssEntryView {
        RssEntryView { title: opt_text(self.title), link: opt_text(self.link), pub_date: opt_text(self.pub_date) }
    }
}

impl View for RssDocument {
    type V = RssDocumentView;

    open spec fn view(&self) -> RssDocumentView {
        RssDocumentView { title: self.title@, entries: self.entries@.map_values(|e: RssEntry| e@) }
    }
}

pub open spec fn document_view(o: Option<RssDocument>) -> Option<RssDocumentView> {
    match o {
        Some(d) => Some(d@),
        None => None,
    }
}

/// What the `rss` crate reads from a document's bytes: the channel title and
/// each item's title, link and publication date; nothing where it fails.
pub uninterp spec fn rss_document(b: Seq<u8>) -> Option<RssDocumentView>;

/// Relies on `rss::Channel::read_from` to parse an RSS document, and on the
/// channel's and items' accessors to hand out their fields.
#[verifier::external_body]
fn read_rss(body: &[u8]) -> (r: Option<RssDocument>)
    ensures
        document_view(r) == rss_document(body@),
{
    match rss::Channel::read_from(body) {
        Ok(c) => Some(RssDocument {
            title: c.title().to_string(),
            entries: c.items().iter().map(|i| RssEntry {
                title: i.title().map(String::from),
                link: i.link().map(String::from),
                pub_date: i.pub_date().map(String::from),
            }).collect(),
        }),
        Err(_) => None,
    }
}

/// The view of a delivered item.
pub ghost struct ItemView {
    pub author: Seq<char>,
    pub avatar: Seq<char>,
    pub text: Seq<char>,
    pub link: Seq<char>,
    pub created_at: i64,
}

pub open spec fn item_view(i: FeedItem) -> ItemView {
    ItemView { author: i.author@, avatar: i.avatar@, text: i.text@, link: i.link@, created_at: i.created_at }
}

pub open spec fn or_empty(o: Option<Seq<char>>) -> Seq<char> {
    match o {
        Some(s) => s,
        None => Seq::empty(),
    }
}

/// An entry's time: its publication date as read, or the epoch where it has
/// none or it cannot be read, so that it is never newer than a watermark.
pub open spec fn entry_time(e: RssEntryView) -> i64 {
    match e.pub_date {
        Some(d) => match rss_time(d) {
            Some(t) => t,
            None => 0,
        },
        None => 0,
    }
}

/// The item that an entry of the channel titled `title` becomes.
pub open spec fn entry_item(title: Seq<char>, e: RssEntryView) -> ItemView {
    ItemView {
        author: title,
        avatar: Seq::empty(),
        text: or_empty(e.title),
        link: or_empty(e.link),
        created_at: entry_time(e),
    }
}

/// The items that one source contributes: none where it could not be
/// fetched or read.
pub open spec fn source_items(body: Option<Seq<u8>>) -> Seq<ItemView> {
    match body {
        Some(b) => match rss_document(b) {
            Some(d) => d.entries.map_values(|e: RssEntryView| entry_item(d.title, e)),
            None => Seq::empty(),
        },
        None => Seq::empty(),
    }
}

/// The items of all sources, source after source.
pub open spec fn all_sources_items(bodies: Seq<Option<Seq<u8>>>) -> Seq<ItemView>
    decreases bodies.len(),
{
    if bodies.len() == 0 {
        Seq::empty()
    } else {
        all_sources_items(bodies.drop_last()) + source_items(bodies.last())
    }
}

pub open spec fn body_views(bodies: Seq<Option<Vec<u8>>>) -> Seq<Option<Seq<u8>>> {
    bodies.map_values(|b: Option<Vec<u8>>| match b {
        Some(v) => Some(v@),
        None => None,
    })
}

fn copy_text(o: &Option<String>) -> (r: String)
    ensures
        r@ == or_empty(opt_text(*o)),
{
    match o {
        Some(s) => s.clone(),
        None => String::new(),
    }
}

/// The items of one read document, in document order.
pub fn document_items(doc: &RssDocument) -> (r: Vec<FeedItem>)
    ensures
        r@.map_values(|i: FeedItem| item_view(i))
            == doc@.entries.map_values(|e: RssEntryView| entry_item(doc@.title, e)),
{
    let mut r: Vec<FeedItem> = Vec::new();
    let mut i: usize = 0;
    while i < doc.entries.len()
        invariant
            i <= doc.entries@.len(),
            r@.len() == i,
            forall|j: int| 0 <= j < i ==> item_view(#[trigger] r@[j]) == entry_item(doc@.title, doc.entries@[j]@),
        decreases doc.entries@.len() - i,
    {
        let e = &doc.entries[i];
        let created_at = match &e.pub_date {
            Some(d) => match parse_rss_time(d.as_str()) {
                Some(t) => t,
                None => 0,
            },
            None => 0,
        };
        r.push(FeedItem {
            author: doc.title.clone(),
            avatar: String::new(),
            text: copy_text(&e.title),
            link: copy_text(&e.link),
            created_at,
        });
        i = i + 1;
    }
    assert(r@.map_values(|i: FeedItem| item_view(i))
        =~= doc@.entries.map_values(|e: RssEntryView| entry_item(doc@.title, e)));
    r
}

/// The items of every source that was fetched and reads as RSS, source
/// after source; a source that failed contributes nothing and stops nothing.
pub fn collect_rss(bodies: &Vec<Option<Vec<u8>>>) -> (r: Vec<FeedItem>)
    ensures
        r@.map_values(|i: FeedItem| item_view(i)) == all_sources_items(body_views(bodies@)),
{
    let ghost bv = body_views(bodies@);
    let mut r: Vec<FeedItem> = Vec::new();
    let mut k: usize = 0;
    while k < bodies.len()
        invariant
            k <= bodies@.len(),
            bv == body_views(bodies@),
            r@.map_values(|i: FeedItem| item_view(i)) == all_sources_items(bv.take(k as int)),
        decreases bodies@.len() - k,
    {
        let ghost before = r@;
        assert(bv.take(k as int + 1).drop_last() =~= bv.take(k as int));
        let mut got: Vec<FeedItem> = Vec::new();
        match &bodies[k] {
            Some(b) => match read_rss(b.as_slice()) {
                Some(doc) => {
                    got = document_items(&doc);
                },
                None => {},
            },
            None => {},
        }
        assert(got@.map_values(|i: FeedItem| item_view(i)) =~= source_items(bv[k as int]));
        r.append(&mut got);
        assert(r@.map_values(|i: FeedItem| item_view(i)) =~= before.map_values(|i: FeedItem| item_view(i))
            + source_items(bv[k as int]));
        k = k + 1;
    }
    assert(bv.take(bodies@.len() as int) =~= bv);
    r
}

/// With two sources of which the first failed, to be fetched or read, the
/// items are exactly those of the second.
pub proof fn lemma_failed_source_isolated(first: Option<Seq<u8>>, second: Option<Seq<u8>>)
    requires
        first.is_none() || rss_document(first.unwrap()).is_none(),
    ensures
        all_sources_items(seq![first, second]) == source_items(second),
{
    let b = seq![first, second];
    assert(b.drop_last() =~= seq![first]);
    assert(b.drop_last().drop_last() =~= Seq::<Option<Seq<u8>>>::empty());
    assert(source_items(first) =~= Seq::<ItemView>::empty());
    assert(all_sources_items(b.drop_last().drop_last()) =~= Seq::<ItemView>::empty());
    assert(all_sources_items(b.drop_last()) =~= Seq::<ItemView>::empty() + Seq::<ItemView>::empty());
    assert(all_sources_items(b) =~= source_items(second));
}

/// The tag of a record that names an RSS source, with its separator.
pub open spec fn source_prefix() -> Seq<char> {
    seq!['r', 's', 's', '_', 'l', 'i', 'n', 'k', ' ']
}

/// The URL that a source record names.
pub open spec fn source_url(text: Seq<char>) -> Seq<char> {
    split_first(text.skip(9)).0
}

pub fn source_tag() -> (r: &'static str)
    ensures
        r@ == source_prefix(),
{
    proof {
        reveal_strlit("rss_link ");
    }
    "rss_link "
}

/// The URLs that source records name, in order.
pub fn source_urls(recs: &Vec<StoredMessage>) -> (r: Vec<String>)
    requires
        forall|i: int| 0 <= i < recs@.len() ==> starts_with(#[trigger] recs@[i].text@, source_prefix()),
    ensures
        r@.len() == recs@.len(),
        forall|i: int| 0 <= i < r@.len() ==> #[trigger] r@[i]@ == source_url(recs@[i].text@),
{
    let mut r: Vec<String> = Vec::new();
    let mut i: usize = 0;
    while i < recs.len()
        invariant
            i <= recs@.len(),
            r@.len() == i,
            forall|j: int| 0 <= j < recs@.len() ==> starts_with(#[trigger] recs@[j].text@, source_prefix()),
            forall|j: int| 0 <= j < i ==> #[trigger] r@[j]@ == source_url(recs@[j].text@),
        decreases recs@.len() - i,
    {
        let text = recs[i].text.as_str();
        assert(starts_with(recs@[i as int].text@, source_prefix()));
        let rest = text.substring_char(9, text.unicode_len());
        assert(rest@ =~= recs@[i as int].text@.skip(9));
        let (url, _) = split_field(rest);
        r.push(url);
        i = i + 1;
    }
    r
}

impl MemoryStore {
    /// The RSS sources that the store names, newest record first.
    pub fn rss_sources(&self) -> (r: Vec<String>)
        ensures
            r@.len() == scan_spec(self.messages(), source_prefix()).len(),
            forall|i: int| 0 <= i < r@.len()
                ==> #[trigger] r@[i]@ == source_url(scan_spec(self.messages(), source_prefix())[i].text@),
    {
        let recs = self.scan(source_tag());
        proof {
            broadcast use vstd::seq_lib::group_filter_ensures;
            let w = crate::store::window(self.messages());
            let p = crate::store::has_prefix(source_prefix());
            assert forall|i: int| 0 <= i < recs@.len() implies starts_with(#[trigger] recs@[i].text@, source_prefix()) by {
                w.lemma_filter_pred(p, i);
            }
        }
        source_urls(&recs)
    }
}

} // verus!
