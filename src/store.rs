//! The record store: a channel's message history read through a bounded,
//! newest-first scan window and filtered by a tag prefix.
use vstd::prelude::*;
use crate::text::{starts_with, text_starts_with};

verus! {

/// How many of the most recent messages a scan can see.
pub const SCAN_WINDOW: usize = 100;

/// One message of the store channel: its handle and its text.
pub struct StoredMessage {
    pub handle: u64,
    pub text: String,
}

impl StoredMessage {
    pub fn copy(&self) -> (r: StoredMessage)
        ensures
            r == *self,
    {
        StoredMessage { handle: self.handle, text: self.text.clone() }
    }
}

/// Failures of the store and of what is built on it.
#[derive(Debug, Clone, Copy, PartialEq, Eq, Structural)]
pub enum StoreError {
    /// The channel could not be listed.
    StoreUnavailable,
    /// A message could not be sent or deleted, or no handle or id is left.
    WriteFailed,
    /// Credentials are missing or were rejected.
    AuthFailed,
    /// A remote feed could not be fetched or read.
    FetchFailed,
    /// No record matched the query.
    NotFound,
}

/// The part of a newest-first history that a scan can see.
pub open spec fn window(s: Seq<StoredMessage>) -> Seq<StoredMessage> {
    if s.len() <= SCAN_WINDOW {
        s
    } else {
        s.take(SCAN_WINDOW as int)
    }
}

pub open spec fn has_prefix(p: Seq<char>) -> spec_fn(StoredMessage) -> bool {
    |m: StoredMessage| starts_with(m.text@, p)
}

/// What `scan` returns: the messages of the window whose text starts with
/// `p`, newest first.
pub open spec fn scan_spec(s: Seq<StoredMessage>, p: Seq<char>) -> Seq<StoredMessage> {
    window(s).filter(has_prefix(p))
}

/// Keeps, of the first `SCAN_WINDOW` messages of a newest-first history,
/// those whose text starts with `prefix`, in order.
pub fn scan_window(msgs: &Vec<StoredMessage>, prefix: &str) -> (r: Vec<StoredMessage>)
    ensures
        r@ == scan_spec(msgs@, prefix@),
{
    let n = if msgs.len() <= SCAN_WINDOW { msgs.len() } else { SCAN_WINDOW };
    let ghost w = window(msgs@);
    assert(w.len() == n);
    let mut r: Vec<StoredMessage> = Vec::new();
    let mut i: usize = 0;
    while i < n
        invariant
            n == w.len(),
            w == window(msgs@),
            n <= msgs@.len(),
            i <= n,
            r@ == w.take(i as int).filter(has_prefix(prefix@)),
        decreases n - i,
    {
        proof {
            reveal(Seq::filter);
            assert(w.take(i as int + 1).drop_last() =~= w.take(i as int));
            assert(w[i as int] == msgs@[i as int]);
        }
        if text_starts_with(msgs[i].text.as_str(), prefix) {
            r.push(msgs[i].copy());
        }
        i = i + 1;
    }
    assert(w.take(n as int) =~= w);
    r
}

/// A scan never holds more messages than the window, however many match:
/// each one it returns lies in the window of the `SCAN_WINDOW` most recent
/// messages and carries the tag.
pub proof fn lemma_scan_bounded(s: Seq<StoredMessage>, p: Seq<char>)
    ensures
        scan_spec(s, p).len() <= SCAN_WINDOW,
        scan_spec(s, p).len() <= s.len(),
        window(s).len() <= SCAN_WINDOW,
        window(s) == s.take(window(s).len() as int),
        forall|i: int| 0 <= i < scan_spec(s, p).len() ==> window(s).contains(#[trigger] scan_spec(s, p)[i])
            && starts_with(scan_spec(s, p)[i].text@, p),
{
    broadcast use vstd::seq_lib::group_filter_ensures;
    let w = window(s);
    w.lemma_filter_len(has_prefix(p));
    if s.len() <= SCAN_WINDOW {
        assert(s.take(s.len() as int) =~= s);
    }
    assert forall|i: int| 0 <= i < scan_spec(s, p).len() implies w.contains(#[trigger] scan_spec(s, p)[i])
        && starts_with(scan_spec(s, p)[i].text@, p) by {
        w.lemma_filter_pred(has_prefix(p), i);
        w.lemma_filter_contains_rev(has_prefix(p), scan_spec(s, p)[i]);
    }
}

/// A store held in memory, newest message first.
pub struct MemoryStore {
    messages: Vec<StoredMessage>,
    next_handle: u64,
}

/// Removes the messages whose handle is among `hs`.
pub open spec fn without_handles(s: Seq<StoredMessage>, hs: Seq<u64>) -> Seq<StoredMessage> {
    s.filter(outside_handles(hs))
}

pub open spec fn outside_handles(hs: Seq<u64>) -> spec_fn(StoredMessage) -> bool {
    |m: StoredMessage| !hs.contains(m.handle)
}

/// The handles of `s`, in order.
pub open spec fn handles_of(s: Seq<StoredMessage>) -> Seq<u64> {
    s.map_values(|m: StoredMessage| m.handle)
}

/// Removes the messages that carry `h`.
pub open spec fn without_handle(s: Seq<StoredMessage>, h: u64) -> Seq<StoredMessage> {
    s.filter(other_handle(h))
}

pub open spec fn other_handle(h: u64) -> spec_fn(StoredMessage) -> bool {
    |m: StoredMessage| m.handle != h
}

impl MemoryStore {
    pub closed spec fn messages(&self) -> Seq<StoredMessage> {
        self.messages@
    }

    /// The handle that the next appended message gets.
    pub closed spec fn next_handle(&self) -> u64 {
        self.next_handle
    }

    /// Handles are unique and all below the next one.
    pub open spec fn wf(&self) -> bool {
        &&& forall|i: int| 0 <= i < self.messages().len()
            ==> #[trigger] self.messages()[i].handle < self.next_handle()
        &&& forall|i: int, j: int| 0 <= i < j < self.messages().len()
            ==> #[trigger] self.messages()[i].handle != #[trigger] self.messages()[j].handle
    }

    pub fn new() -> (r: MemoryStore)
        ensures
            r.wf(),
            r.messages().len() == 0,
            r.next_handle() == 1,
    {
        MemoryStore { messages: Vec::new(), next_handle: 1 }
    }

    /// Whether a message can still be appended.
    pub fn can_append(&self) -> (r: bool)
        ensures
            r == (self.next_handle() < u64::MAX),
    {
        self.next_handle < u64::MAX
    }

    /// The number of messages held.
    pub fn len(&self) -> (r: usize)
        ensures
            r == self.messages().len(),
    {
        self.messages.len()
    }

    /// The messages of the window whose text starts with `prefix`.
    pub fn scan(&self, prefix: &str) -> (r: Vec<StoredMessage>)
        ensures
            r@ == scan_spec(self.messages(), prefix@),
    {
        scan_window(&self.messages, prefix)
    }

    /// Sends `text` as the newest message. Fails, changing nothing, once the
    /// handles are used up.
    pub fn append(&mut self, text: String) -> (r: Result<u64, StoreError>)
        requires
            old(self).wf(),
        ensures
            final(self).wf(),
            old(self).next_handle() < u64::MAX ==> {
                &&& r == Ok::<u64, StoreError>(old(self).next_handle())
                &&& final(self).messages() == seq![StoredMessage { handle: old(self).next_handle(), text }]
                    + old(self).messages()
                &&& final(self).next_handle() == old(self).next_handle() + 1
            },
            old(self).next_handle() == u64::MAX ==> {
                &&& r == Err::<u64, StoreError>(StoreError::WriteFailed)
                &&& *final(self) == *old(self)
            },
    {
        if self.next_handle == u64::MAX {
            return Err(StoreError::WriteFailed);
        }
        let h = self.next_handle;
        let ghost t = text;
        self.messages.insert(0, StoredMessage { handle: h, text });
        self.next_handle = h + 1;
        assert(self.messages@ =~= seq![StoredMessage { handle: h, text: t }] + old(self).messages@);
        assert forall|i: int, j: int| 0 <= i < j < self.messages@.len()
            implies #[trigger] self.messages@[i].handle != #[trigger] self.messages@[j].handle by {
            assert(self.messages@[j] == old(self).messages@[j - 1]);
            assert(old(self).messages()[j - 1].handle < old(self).next_handle());
            if i > 0 {
                assert(self.messages@[i] == old(self).messages@[i - 1]);
                assert(old(self).messages()[i - 1].handle != old(self).messages()[j - 1].handle);
            }
        }
        assert forall|i: int| 0 <= i < self.messages@.len()
            implies #[trigger] self.messages@[i].handle < self.next_handle by {
            if i > 0 {
                assert(self.messages@[i] == old(self).messages@[i - 1]);
                assert(old(self).messages()[i - 1].handle < old(self).next_handle());
            }
        }
        Ok(h)
    }

    /// Removes the message at `handle`; a handle that is already gone
    /// changes nothing.
    pub fn delete(&mut self, handle: u64)
        requires
            old(self).wf(),
        ensures
            final(self).wf(),
            final(self).messages() == without_handle(old(self).messages(), handle),
            final(self).next_handle() == old(self).next_handle(),
    {
        let ghost s = self.messages@;
        let ghost pred = other_handle(handle);
        let mut kept: Vec<StoredMessage> = Vec::new();
        let n = self.messages.len();
        let mut i: usize = 0;
        while i < n
            invariant
                n == s.len(),
                s == self.messages@,
                pred == other_handle(handle),
                i <= n,
                kept@ == s.take(i as int).filter(pred),
            decreases n - i,
        {
            proof {
                lemma_filter_step(s, i as int, pred);
                assert(pred(s[i as int]) == (s[i as int].handle != handle));
            }
            if self.messages[i].handle != handle {
                kept.push(self.messages[i].copy());
            }
            i = i + 1;
        }
        assert(s.take(n as int) =~= s);
        self.messages = kept;
        proof {
            lemma_filter_keeps_order(s, pred);
            let f = s.filter(pred);
            assert forall|i: int| 0 <= i < f.len() implies #[trigger] f[i].handle < old(self).next_handle() by {
                let k = choose|k: int| #![trigger s[k]] 0 <= k < s.len() && s[k] == f[i] && pred(s[k]);
                assert(old(self).messages()[k].handle < old(self).next_handle());
            }
            assert forall|i: int, j: int| 0 <= i < j < f.len()
                implies #[trigger] f[i].handle != #[trigger] f[j].handle by {
                let (k, l) = choose|k: int, l: int| #![trigger s[k], s[l]]
                    0 <= k < l < s.len() && s[k] == f[i] && s[l] == f[j];
                assert(old(self).messages()[k].handle != old(self).messages()[l].handle);
            }
        }
    }
}

/// One more element of the source adds at most that element to a filter.
pub proof fn lemma_filter_step(s: Seq<StoredMessage>, i: int, pred: spec_fn(StoredMessage) -> bool)
    requires
        0 <= i < s.len(),
    ensures
        s.take(i + 1).filter(pred) == if pred(s[i]) {
            s.take(i).filter(pred).push(s[i])
        } else {
            s.take(i).filter(pred)
        },
{
    reveal(Seq::filter);
    assert(s.take(i + 1).drop_last() =~= s.take(i));
    assert(s.take(i + 1).last() == s[i]);
}

impl MemoryStore {
    /// Removes every message whose handle is among `handles`.
    pub fn delete_all(&mut self, handles: &Vec<u64>)
        requires
            old(self).wf(),
        ensures
            final(self).wf(),
            final(self).messages() == without_handles(old(self).messages(), handles@),
            final(self).next_handle() == old(self).next_handle(),
    {
        let ghost s = self.messages@;
        let ghost pred = outside_handles(handles@);
        let mut kept: Vec<StoredMessage> = Vec::new();
        let n = self.messages.len();
        let mut i: usize = 0;
        while i < n
            invariant
                n == s.len(),
                s == self.messages@,
                pred == outside_handles(handles@),
                i <= n,
                kept@ == s.take(i as int).filter(pred),
            decreases n - i,
        {
            let h = self.messages[i].handle;
            let mut found = false;
            let mut j: usize = 0;
            while j < handles.len()
                invariant
                    j <= handles@.len(),
                    found == exists|k: int| 0 <= k < j && handles@[k] == h,
                decreases handles@.len() - j,
            {
                if handles[j] == h {
                    found = true;
                }
                j = j + 1;
            }
            proof {
                lemma_filter_step(s, i as int, pred);
                if found {
                    let k = choose|k: int| 0 <= k < handles@.len() && handles@[k] == h;
                    assert(handles@.contains(h));
                } else {
                    assert(!handles@.contains(h));
                }
                assert(pred(s[i as int]) == !handles@.contains(s[i as int].handle));
            }
            if !found {
                kept.push(self.messages[i].copy());
            }
            i = i + 1;
        }
        assert(s.take(n as int) =~= s);
        self.messages = kept;
        proof {
            lemma_filter_keeps_order(s, pred);
            let f = s.filter(pred);
            assert forall|i: int| 0 <= i < f.len() implies #[trigger] f[i].handle < old(self).next_handle() by {
                let k = choose|k: int| #![trigger s[k]] 0 <= k < s.len() && s[k] == f[i] && pred(s[k]);
                assert(old(self).messages()[k].handle < old(self).next_handle());
            }
            assert forall|i: int, j: int| 0 <= i < j < f.len()
                implies #[trigger] f[i].handle != #[trigger] f[j].handle by {
                let (k, l) = choose|k: int, l: int| #![trigger s[k], s[l]]
                    0 <= k < l < s.len() && s[k] == f[i] && s[l] == f[j];
                assert(old(self).messages()[k].handle != old(self).messages()[l].handle);
            }
        }
    }
}

/// What a filter keeps comes from the filtered sequence, in the same relative order.
pub proof fn lemma_filter_keeps_order(s: Seq<StoredMessage>, pred: spec_fn(StoredMessage) -> bool)
    ensures
        forall|i: int| 0 <= i < s.filter(pred).len() ==> exists|k: int|
            #![trigger s[k]]
            0 <= k < s.len() && s[k] == #[trigger] s.filter(pred)[i] && pred(s[k]),
        forall|i: int, j: int| 0 <= i < j < s.filter(pred).len() ==> exists|k: int, l: int|
            #![trigger s[k], s[l]]
            0 <= k < l < s.len() && s[k] == #[trigger] s.filter(pred)[i] && s[l] == #[trigger] s.filter(pred)[j],
    decreases s.len(),
{
    reveal(Seq::filter);
    if s.len() > 0 {
        let d = s.drop_last();
        lemma_filter_keeps_order(d, pred);
        let f = s.filter(pred);
        let g = d.filter(pred);
        assert forall|i: int| 0 <= i < f.len() implies exists|k: int|
            #![trigger s[k]]
            0 <= k < s.len() && s[k] == #[trigger] f[i] && pred(s[k]) by {
            if i < g.len() {
                let k = choose|k: int| #![trigger d[k]] 0 <= k < d.len() && d[k] == g[i] && pred(d[k]);
                assert(s[k] == d[k]);
            } else {
                assert(s[s.len() - 1] == f[i]);
            }
        }
        assert forall|i: int, j: int| 0 <= i < j < f.len() implies exists|k: int, l: int|
            #![trigger s[k], s[l]]
            0 <= k < l < s.len() && s[k] == #[trigger] f[i] && s[l] == #[trigger] f[j] by {
            if j < g.len() {
                let (k, l) = choose|k: int, l: int| #![trigger d[k], d[l]]
                    0 <= k < l < d.len() && d[k] == g[i] && d[l] == g[j];
                assert(s[k] == d[k] && s[l] == d[l]);
            } else {
                let k = choose|k: int| #![trigger d[k]] 0 <= k < d.len() && d[k] == g[i] && pred(d[k]);
                assert(s[k] == d[k]);
                assert(s[s.len() - 1] == f[j]);
            }
        }
    }
}

} // verus!
