//! The todo list: entries `todo <id> <message>` kept in the record store.
use vstd::prelude::*;
use crate::store::{
    lemma_filter_keeps_order, other_handle, scan_spec, window, without_handle,
    has_prefix, MemoryStore, StoreError, StoredMessage, SCAN_WINDOW,
};
use crate::text::{
    decimal, format_u64, lemma_decimal_digits, lemma_parse_decimal, lemma_split_join, parse_decimal,
    parse_u64, split_field, split_first, starts_with, text_eq,
};

verus! {

/// The tag that starts every todo record, with its separator.
pub open spec fn todo_prefix() -> Seq<char> {
    seq!['t', 'o', 'd', 'o', ' ']
}

/// The id field and the message of a todo record's text.
pub open spec fn todo_fields(text: Seq<char>) -> (Seq<char>, Seq<char>) {
    split_first(text.skip(5))
}

/// The text of the todo record for `id` and `msg`.
pub open spec fn todo_record(id: u64, msg: Seq<char>) -> Seq<char> {
    todo_prefix() + decimal(id as nat) + seq![' '] + msg
}

/// A record matches a pair of keys when its id field or its message equals
/// either of them. Matching on both fields is ambiguous where one entry's
/// message reads like another entry's id; the first match in scan order wins.
pub open spec fn todo_matches(text: Seq<char>, a: Seq<char>, b: Seq<char>) -> bool {
    let (i, m) = todo_fields(text);
    i == a || m == a || i == b || m == b
}

/// The largest numeric id among the records (0 where none has one).
pub open spec fn max_id(recs: Seq<StoredMessage>) -> nat
    decreases recs.len(),
{
    if recs.len() == 0 {
        0
    } else {
        let rest = max_id(recs.drop_last());
        match parse_decimal(todo_fields(recs.last().text@).0) {
            Some(v) => if v > rest { v as nat } else { rest },
            None => rest,
        }
    }
}

/// `k` is the first position of `recs` whose record matches `a` or `b`.
pub open spec fn is_first_match(recs: Seq<StoredMessage>, a: Seq<char>, b: Seq<char>, k: int) -> bool {
    &&& 0 <= k < recs.len()
    &&& todo_matches(recs[k].text@, a, b)
    &&& forall|j: int| 0 <= j < k ==> !todo_matches(#[trigger] recs[j].text@, a, b)
}

pub open spec fn any_match(recs: Seq<StoredMessage>, a: Seq<char>, b: Seq<char>) -> bool {
    exists|k: int| 0 <= k < recs.len() && todo_matches(#[trigger] recs[k].text@, a, b)
}

/// The todo entries that a listing shows, newest first.
pub open spec fn todo_list(s: Seq<StoredMessage>) -> Seq<(Seq<char>, Seq<char>)> {
    scan_spec(s, todo_prefix()).map_values(|m: StoredMessage| todo_fields(m.text@))
}

/// One listed todo entry.
pub struct TodoEntry {
    pub id: String,
    pub message: String,
}

fn todo_tag() -> (r: &'static str)
    ensures
        r@ == todo_prefix(),
{
    proof {
        reveal_strlit("todo ");
    }
    "todo "
}

/// The id field and the message of a todo record.
pub fn record_fields(text: &str) -> (r: (String, String))
    requires
        starts_with(text@, todo_prefix()),
    ensures
        (r.0@, r.1@) == todo_fields(text@),
{
    let n = text.unicode_len();
    let rest = text.substring_char(5, n);
    assert(rest@ =~= text@.skip(5));
    split_field(rest)
}

/// The id that the next added entry gets: one past the largest id among
/// `recs`, or nothing where that would pass `u64::MAX`.
pub fn next_todo_id(recs: &Vec<StoredMessage>) -> (r: Option<u64>)
    requires
        forall|i: int| 0 <= i < recs@.len() ==> starts_with(#[trigger] recs@[i].text@, todo_prefix()),
    ensures
        max_id(recs@) < u64::MAX ==> r == Some((max_id(recs@) + 1) as u64),
        max_id(recs@) >= u64::MAX ==> r.is_none(),
{
    let mut best: u64 = 0;
    let mut i: usize = 0;
    while i < recs.len()
        invariant
            i <= recs@.len(),
            forall|j: int| 0 <= j < recs@.len() ==> starts_with(#[trigger] recs@[j].text@, todo_prefix()),
            best as nat == max_id(recs@.take(i as int)),
        decreases recs@.len() - i,
    {
        let ghost t = recs@.take(i as int + 1);
        assert(t.drop_last() =~= recs@.take(i as int));
        let (id_field, _) = record_fields(recs[i].text.as_str());
        match parse_u64(id_field.as_str()) {
            Some(v) => {
                if v > best {
                    best = v;
                }
            },
            None => {},
        }
        i = i + 1;
    }
    assert(recs@.take(recs@.len() as int) =~= recs@);
    if best == u64::MAX {
        None
    } else {
        Some(best + 1)
    }
}

/// The position of the first record that matches `a` or `b`.
pub fn find_todo(recs: &Vec<StoredMessage>, a: &str, b: &str) -> (r: Option<usize>)
    requires
        forall|i: int| 0 <= i < recs@.len() ==> starts_with(#[trigger] recs@[i].text@, todo_prefix()),
    ensures
        match r {
            Some(k) => k < recs@.len() && todo_matches(recs@[k as int].text@, a@, b@)
                && forall|j: int| 0 <= j < k ==> !todo_matches(#[trigger] recs@[j].text@, a@, b@),
            None => forall|j: int| 0 <= j < recs@.len() ==> !todo_matches(#[trigger] recs@[j].text@, a@, b@),
        },
{
    let mut i: usize = 0;
    while i < recs.len()
        invariant
            i <= recs@.len(),
            forall|j: int| 0 <= j < recs@.len() ==> starts_with(#[trigger] recs@[j].text@, todo_prefix()),
            forall|j: int| 0 <= j < i ==> !todo_matches(#[trigger] recs@[j].text@, a@, b@),
        decreases recs@.len() - i,
    {
        let (id_field, message) = record_fields(recs[i].text.as_str());
        if id_field == a.to_string() || message == a.to_string() || id_field == b.to_string()
            || message == b.to_string() {
            return Some(i);
        }
        i = i + 1;
    }
    None
}

/// The entries that `recs` hold, in order.
pub fn todo_entries(recs: &Vec<StoredMessage>) -> (r: Vec<TodoEntry>)
    requires
        forall|i: int| 0 <= i < recs@.len() ==> starts_with(#[trigger] recs@[i].text@, todo_prefix()),
    ensures
        r@.len() == recs@.len(),
        forall|i: int| 0 <= i < r@.len() ==> (#[trigger] r@[i].id@, r@[i].message@) == todo_fields(recs@[i].text@),
{
    let mut r: Vec<TodoEntry> = Vec::new();
    let mut i: usize = 0;
    while i < recs.len()
        invariant
            i <= recs@.len(),
            r@.len() == i,
            forall|j: int| 0 <= j < recs@.len() ==> starts_with(#[trigger] recs@[j].text@, todo_prefix()),
            forall|j: int| 0 <= j < i ==> (#[trigger] r@[j].id@, r@[j].message@) == todo_fields(recs@[j].text@),
        decreases recs@.len() - i,
    {
        let (id, message) = record_fields(recs[i].text.as_str());
        r.push(TodoEntry { id, message });
        i = i + 1;
    }
    r
}

/// The text of the todo record for `id` and `message`.
pub fn format_todo_record(id: u64, message: &str) -> (r: String)
    ensures
        r@ == todo_record(id, message@),
{
    let mut s = String::from_str(todo_tag());
    s.append(format_u64(id).as_str());
    s.append(" ");
    proof {
        reveal_strlit(" ");
    }
    s.append(message);
    s
}


/// The scanned todo records of `s` all carry the todo tag.
proof fn lemma_scan_tagged(s: Seq<StoredMessage>)
    ensures
        forall|i: int| 0 <= i < scan_spec(s, todo_prefix()).len()
            ==> starts_with(#[trigger] scan_spec(s, todo_prefix())[i].text@, todo_prefix()),
{
    broadcast use vstd::seq_lib::group_filter_ensures;
    let w = window(s);
    assert forall|i: int| 0 <= i < w.filter(has_prefix(todo_prefix())).len()
        implies starts_with(#[trigger] w.filter(has_prefix(todo_prefix()))[i].text@, todo_prefix()) by {
        w.lemma_filter_pred(has_prefix(todo_prefix()), i);
    }
}

impl MemoryStore {
    /// The todo entries in store order; an empty list means nothing to show.
    pub fn list_todos(&self) -> (r: Vec<TodoEntry>)
        ensures
            r@.len() == todo_list(self.messages()).len(),
            forall|i: int| 0 <= i < r@.len()
                ==> (#[trigger] r@[i].id@, r@[i].message@) == todo_list(self.messages())[i],
    {
        let recs = self.scan(todo_tag());
        proof {
            lemma_scan_tagged(self.messages());
        }
        todo_entries(&recs)
    }

    /// Adds an entry with one past the largest visible id (1 where there is
    /// none) and returns that id. Fails with `WriteFailed`, changing nothing,
    /// where no id or handle is left.
    pub fn add_todo(&mut self, message: &str) -> (r: Result<u64, StoreError>)
        requires
            old(self).wf(),
        ensures
            final(self).wf(),
            ({
                let id = max_id(scan_spec(old(self).messages(), todo_prefix())) + 1;
                if id <= u64::MAX && old(self).next_handle() < u64::MAX {
                    &&& r == Ok::<u64, StoreError>(id as u64)
                    &&& final(self).messages().len() == old(self).messages().len() + 1
                    &&& final(self).messages()[0].handle == old(self).next_handle()
                    &&& final(self).messages()[0].text@ == todo_record(id as u64, message@)
                    &&& final(self).messages().drop_first() == old(self).messages()
                    &&& final(self).next_handle() == old(self).next_handle() + 1
                } else {
                    r == Err::<u64, StoreError>(StoreError::WriteFailed) && *final(self) == *old(self)
                }
            }),
    {
        let recs = self.scan(todo_tag());
        proof {
            lemma_scan_tagged(self.messages());
        }
        let id = match next_todo_id(&recs) {
            Some(id) => id,
            None => return Err(StoreError::WriteFailed),
        };
        let text = format_todo_record(id, message);
        let ghost before = self.messages();
        let r = self.append(text);
        assert(r.is_ok() ==> self.messages().drop_first() =~= before);
        match r {
            Ok(_) => Ok(id),
            Err(e) => Err(e),
        }
    }

    /// Deletes the first entry whose id or message equals `query` and
    /// returns its handle. Fails with `NotFound`, changing nothing, where no
    /// entry matches.
    pub fn remove_todo(&mut self, query: &str) -> (r: Result<u64, StoreError>)
        requires
            old(self).wf(),
        ensures
            final(self).wf(),
            ({
                let sc = scan_spec(old(self).messages(), todo_prefix());
                if any_match(sc, query@, query@) {
                    exists|k: int| is_first_match(sc, query@, query@, k)
                        && r == Ok::<u64, StoreError>(#[trigger] sc[k].handle)
                        && final(self).messages() == without_handle(old(self).messages(), sc[k].handle)
                        && final(self).next_handle() == old(self).next_handle()
                } else {
                    r == Err::<u64, StoreError>(StoreError::NotFound) && *final(self) == *old(self)
                }
            }),
    {
        let recs = self.scan(todo_tag());
        proof {
            lemma_scan_tagged(self.messages());
        }
        match find_todo(&recs, query, query) {
            Some(k) => {
                let h = recs[k].handle;
                self.delete(h);
                assert(is_first_match(recs@, query@, query@, k as int));
                Ok(h)
            },
            None => Err(StoreError::NotFound),
        }
    }

    /// Replaces the first entry whose id or message equals `id` or `message`
    /// by the entry `id message`: the old record is deleted and the new one
    /// appended. Fails with `NotFound` where no entry matches and with
    /// `WriteFailed` where no handle is left; either way nothing changes.
    pub fn edit_todo(&mut self, id: u64, message: &str) -> (r: Result<(), StoreError>)
        requires
            old(self).wf(),
        ensures
            final(self).wf(),
            ({
                let sc = scan_spec(old(self).messages(), todo_prefix());
                let key = decimal(id as nat);
                if !any_match(sc, message@, key) {
                    r == Err::<(), StoreError>(StoreError::NotFound) && *final(self) == *old(self)
                } else if old(self).next_handle() == u64::MAX {
                    r == Err::<(), StoreError>(StoreError::WriteFailed) && *final(self) == *old(self)
                } else {
                    &&& r == Ok::<(), StoreError>(())
                    &&& final(self).messages().len() > 0
                    &&& final(self).messages()[0].handle == old(self).next_handle()
                    &&& final(self).messages()[0].text@ == todo_record(id, message@)
                    &&& exists|k: int| is_first_match(sc, message@, key, k)
                        && final(self).messages().drop_first()
                        == without_handle(old(self).messages(), #[trigger] sc[k].handle)
                }
            }),
    {
        let recs = self.scan(todo_tag());
        proof {
            lemma_scan_tagged(self.messages());
        }
        let key = format_u64(id);
        match find_todo(&recs, message, key.as_str()) {
            Some(k) => {
                if !self.can_append() {
                    return Err(StoreError::WriteFailed);
                }
                let h = recs[k].handle;
                self.delete(h);
                let ghost mid = self.messages();
                let text = format_todo_record(id, message);
                let _ = self.append(text);
                assert(self.messages().drop_first() =~= mid);
                assert(is_first_match(recs@, message@, key@, k as int));
                Ok(())
            },
            None => Err(StoreError::NotFound),
        }
    }
}

/// What a todo command asks of the store, decided from its arguments and
/// the scanned todo records.
pub enum TodoAction {
    /// Append the record `text` for the new entry `id`.
    Append { id: u64, text: String },
    /// Delete the record at `handle`.
    Delete { handle: u64 },
    /// Delete the record at `handle` and append `text`, the entry `id`.
    Replace { handle: u64, id: u64, text: String },
    /// Show these entries; none means an empty list.
    Show { entries: Vec<TodoEntry> },
    /// No entry matched.
    NotFound,
    /// No id is left to hand out.
    Exhausted,
    /// The operation is unknown, or `edit` was given no numeric id.
    Invalid,
}

/// Decides a todo command: `add` appends an entry with the next id, `rm`
/// deletes the first entry whose id or message equals `message` or `id`,
/// `ls` shows the entries, and `edit` replaces the first entry whose id or
/// message equals `id` or `message` by the entry `id message`.
pub fn plan_todo(operation: &str, message: &str, id: &str, recs: &Vec<StoredMessage>) -> (r: TodoAction)
    requires
        forall|i: int| 0 <= i < recs@.len() ==> starts_with(#[trigger] recs@[i].text@, todo_prefix()),
    ensures
        operation@ == "add"@ ==> if max_id(recs@) < u64::MAX {
            match r {
                TodoAction::Append { id: n, text } => n == max_id(recs@) + 1 && text@ == todo_record(n, message@),
                _ => false,
            }
        } else {
            r is Exhausted
        },
        operation@ == "rm"@ ==> if any_match(recs@, message@, id@) {
            match r {
                TodoAction::Delete { handle } => exists|k: int| is_first_match(recs@, message@, id@, k)
                    && handle == #[trigger] recs@[k].handle,
                _ => false,
            }
        } else {
            r is NotFound
        },
        operation@ == "ls"@ ==> match r {
            TodoAction::Show { entries } => entries@.len() == recs@.len()
                && forall|i: int| 0 <= i < recs@.len()
                    ==> (#[trigger] entries@[i].id@, entries@[i].message@) == todo_fields(recs@[i].text@),
            _ => false,
        },
        operation@ == "edit"@ ==> match parse_decimal(id@) {
            None => r is Invalid,
            Some(n) => if any_match(recs@, message@, decimal(n as nat)) {
                match r {
                    TodoAction::Replace { handle, id: m, text } => m == n && text@ == todo_record(n, message@)
                        && exists|k: int| is_first_match(recs@, message@, decimal(n as nat), k)
                            && handle == #[trigger] recs@[k].handle,
                    _ => false,
                }
            } else {
                r is NotFound
            },
        },
        operation@ != "add"@ && operation@ != "rm"@ && operation@ != "ls"@ && operation@ != "edit"@
            ==> r is Invalid,
{
    proof {
        reveal_strlit("add");
        reveal_strlit("rm");
        reveal_strlit("ls");
        reveal_strlit("edit");
        assert("add"@.len() == 3 && "rm"@.len() == 2 && "ls"@.len() == 2 && "edit"@.len() == 4);
        assert("rm"@[0] == 'r' && "ls"@[0] == 'l');
    }
    if text_eq(operation, "add") {
        match next_todo_id(recs) {
            Some(n) => TodoAction::Append { id: n, text: format_todo_record(n, message) },
            None => TodoAction::Exhausted,
        }
    } else if text_eq(operation, "rm") {
        match find_todo(recs, message, id) {
            Some(k) => {
                assert(is_first_match(recs@, message@, id@, k as int));
                TodoAction::Delete { handle: recs[k].handle }
            },
            None => TodoAction::NotFound,
        }
    } else if text_eq(operation, "ls") {
        TodoAction::Show { entries: todo_entries(recs) }
    } else if text_eq(operation, "edit") {
        match parse_u64(id) {
            None => TodoAction::Invalid,
            Some(n) => {
                let key = format_u64(n);
                match find_todo(recs, message, key.as_str()) {
                    Some(k) => {
                        assert(is_first_match(recs@, message@, key@, k as int));
                        TodoAction::Replace { handle: recs[k].handle, id: n, text: format_todo_record(n, message) }
                    },
                    None => TodoAction::NotFound,
                }
            },
        }
    } else {
        TodoAction::Invalid
    }
}

/// A record's numeric id never exceeds `max_id`.
proof fn lemma_max_id_bounds(recs: Seq<StoredMessage>, k: int)
    requires
        0 <= k < recs.len(),
        parse_decimal(todo_fields(recs[k].text@).0).is_some(),
    ensures
        parse_decimal(todo_fields(recs[k].text@).0).unwrap() <= max_id(recs),
    decreases recs.len(),
{
    if k < recs.len() - 1 {
        lemma_max_id_bounds(recs.drop_last(), k);
        assert(recs.drop_last()[k] == recs[k]);
    }
}

/// The fields of a record written for `id` and `msg`.
proof fn lemma_record_fields(id: u64, msg: Seq<char>)
    ensures
        starts_with(todo_record(id, msg), todo_prefix()),
        todo_fields(todo_record(id, msg)) == (decimal(id as nat), msg),
        parse_decimal(todo_fields(todo_record(id, msg)).0) == Some(id),
{
    let t = todo_record(id, msg);
    assert(t.take(5) =~= todo_prefix());
    assert(t.skip(5) =~= decimal(id as nat) + seq![' '] + msg);
    lemma_decimal_digits(id as nat);
    lemma_split_join(decimal(id as nat), msg);
    lemma_parse_decimal(id);
}

/// The newest message of a history, when it is a todo record, is the first
/// entry that a scan of todo records returns.
proof fn lemma_scan_front(s: Seq<StoredMessage>)
    requires
        s.len() > 0,
        starts_with(s[0].text@, todo_prefix()),
    ensures
        scan_spec(s, todo_prefix()).len() > 0,
        scan_spec(s, todo_prefix())[0] == s[0],
        scan_spec(s, todo_prefix()).drop_first() == window(s).drop_first().filter(has_prefix(todo_prefix())),
{
    reveal(Seq::filter);
    let w = window(s);
    let p = has_prefix(todo_prefix());
    assert(w =~= seq![s[0]] + w.drop_first());
    Seq::filter_distributes_over_add(seq![s[0]], w.drop_first(), p);
    let one = seq![s[0]];
    assert(one.drop_last() =~= Seq::<StoredMessage>::empty());
    assert(one.filter(p) == one.drop_last().filter(p).push(s[0]));
    assert(one.filter(p) =~= one);
    assert((one + w.drop_first().filter(p)).drop_first() =~= w.drop_first().filter(p));
}

/// Ids handed out by successive adds grow: once an add has returned `id`,
/// the id that the next add computes is larger.
pub proof fn lemma_add_ids_increase(
    before: Seq<StoredMessage>,
    after: Seq<StoredMessage>,
    id: u64,
    msg: Seq<char>,
)
    requires
        id == max_id(scan_spec(before, todo_prefix())) + 1,
        after.len() == before.len() + 1,
        after[0].text@ == todo_record(id, msg),
        after.drop_first() == before,
    ensures
        max_id(scan_spec(after, todo_prefix())) + 1 > id,
{
    lemma_record_fields(id, msg);
    lemma_scan_front(after);
    lemma_max_id_bounds(scan_spec(after, todo_prefix()), 0);
}

/// On a store that shows no todo entry, the first add hands out id 1.
pub proof fn lemma_first_id(s: Seq<StoredMessage>)
    requires
        scan_spec(s, todo_prefix()).len() == 0,
    ensures
        max_id(scan_spec(s, todo_prefix())) + 1 == 1,
{
}

/// After an edit of `id` to `msg` whose keys matched one entry only, the
/// listing shows the entry `id msg` first and no other entry with that id:
/// no duplicate survives. The history is short enough that the deletion
/// brings no older record into view.
pub proof fn lemma_edit_leaves_one(
    before: Seq<StoredMessage>,
    after: Seq<StoredMessage>,
    id: u64,
    msg: Seq<char>,
    k: int,
)
    requires
        before.len() < SCAN_WINDOW,
        is_first_match(scan_spec(before, todo_prefix()), msg, decimal(id as nat), k),
        forall|j: int| 0 <= j < scan_spec(before, todo_prefix()).len()
            && todo_matches(#[trigger] scan_spec(before, todo_prefix())[j].text@, msg, decimal(id as nat))
            ==> j == k,
        after.len() > 0,
        after[0].text@ == todo_record(id, msg),
        after.drop_first() == without_handle(before, scan_spec(before, todo_prefix())[k].handle),
    ensures
        todo_list(after).len() > 0,
        todo_list(after)[0] == (decimal(id as nat), msg),
        forall|j: int| 1 <= j < todo_list(after).len() ==> (#[trigger] todo_list(after)[j]).0 != decimal(id as nat),
{
    let p = has_prefix(todo_prefix());
    let sc = scan_spec(before, todo_prefix());
    let h = sc[k].handle;
    let rest = without_handle(before, h);
    lemma_record_fields(id, msg);
    lemma_scan_front(after);
    before.lemma_filter_len(other_handle(h));
    assert(window(after) == after);
    assert(window(before) == before);
    assert(window(after).drop_first() == rest);
    let sa = scan_spec(after, todo_prefix());
    assert forall|j: int| 1 <= j < todo_list(after).len() implies (#[trigger] todo_list(after)[j]).0 != decimal(id as nat) by {
        let e = sa[j];
        assert(sa.drop_first()[j - 1] == e);
        lemma_filter_keeps_order(rest, p);
        let a = choose|a: int| #![trigger rest[a]] 0 <= a < rest.len() && rest[a] == rest.filter(p)[j - 1] && p(rest[a]);
        lemma_filter_keeps_order(before, other_handle(h));
        let b = choose|b: int| #![trigger before[b]] 0 <= b < before.len()
            && before[b] == before.filter(other_handle(h))[a] && other_handle(h)(before[b]);
        assert(e == before[b]);
        assert(p(before[b]));
        broadcast use vstd::seq_lib::group_filter_ensures;
        before.lemma_filter_contains(p, b);
        assert(sc.contains(e));
        let c = choose|c: int| 0 <= c < sc.len() && sc[c] == e;
        if todo_fields(e.text@).0 == decimal(id as nat) {
            assert(todo_matches(sc[c].text@, msg, decimal(id as nat)));
            assert(c == k);
            assert(false);
        }
    }
}

} // verus!
