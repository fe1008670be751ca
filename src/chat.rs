//! Replies to mentions through a chat-completion API, and the expansion of
//! links to chat messages: the text work around those calls.
use vstd::prelude::*;
use crate::text::{parse_decimal, parse_u64};

verus! {

/// What the `regex` crate leaves of `s` once every user mention `<@!id>` is
/// replaced by nothing.
pub uninterp spec fn without_mentions(s: Seq<char>) -> Seq<char>;

/// The links to chat messages (`https://discord.com/channels/g/c/m`) that the
/// `regex` crate finds in `s`, left to right.
pub uninterp spec fn message_links_in(s: Seq<char>) -> Seq<Seq<char>>;

/// Relies on `regex::Regex::replace_all` with the pattern `<@!\d+>` and an
/// empty replacement.
#[verifier::external_body]
fn strip_mentions(s: &str) -> (r: String)
    ensures
        r@ == without_mentions(s@),
{
    match regex::Regex::new(r"<@!\d+>") {
        Ok(re) => re.replace_all(s, "").into_owned(),
        Err(_) => s.to_string(),
    }
}

/// Relies on `regex::Regex::find_iter` with the pattern
/// `https://discord.com/channels/\d+/\d+/\d+`.
#[verifier::external_body]
fn find_message_links(s: &str) -> (r: Vec<String>)
    ensures
        r@.map_values(|l: String| l@) == message_links_in(s@),
{
    match regex::Regex::new(r"https://discord.com/channels/\d+/\d+/\d+") {
        Ok(re) => re.find_iter(s).map(|m| m.as_str().to_string()).collect(),
        Err(_) => Vec::new(),
    }
}

pub open spec fn spaced(s: Seq<char>) -> Seq<char> {
    s.map_values(|c: char| if c == '\n' { ' ' } else { c })
}

/// `s` with every line break turned into a space.
pub fn newlines_to_spaces(s: &str) -> (r: String)
    ensures
        r@ == spaced(s@),
{
    let n = s.unicode_len();
    let mut r = String::new();
    let mut i: usize = 0;
    while i < n
        invariant
            n == s@.len(),
            i <= n,
            r@ == spaced(s@.take(i as int)),
        decreases n - i,
    {
        let ghost before = r@;
        let c = s.get_char(i);
        if c == '\n' {
            r.append(" ");
            proof {
                reveal_strlit(" ");
            }
            assert(" "@ =~= seq![' ']);
        } else {
            let one = s.substring_char(i, i + 1);
            assert(one@ =~= seq![c]);
            r.append(one);
        }
        assert(r@ =~= before + seq![if c == '\n' { ' ' } else { c }]);
        assert(spaced(s@.take(i as int + 1)) =~= spaced(s@.take(i as int)) + seq![if c == '\n' { ' ' } else { c }]);
        i = i + 1;
    }
    assert(s@.take(n as int) =~= s@);
    r
}

/// The question that a mention asks: the message without its mentions, on
/// one line.
pub fn mention_question(content: &str) -> (r: String)
    ensures
        r@ == spaced(without_mentions(content@)),
{
    let stripped = strip_mentions(content);
    newlines_to_spaces(stripped.as_str())
}

/// Whether `bot` is among the mentioned user ids.
pub fn mentions_bot(mentioned: &Vec<u64>, bot: u64) -> (r: bool)
    ensures
        r == mentioned@.contains(bot),
{
    let mut i: usize = 0;
    while i < mentioned.len()
        invariant
            i <= mentioned@.len(),
            forall|j: int| 0 <= j < i ==> mentioned@[j] != bot,
        decreases mentioned@.len() - i,
    {
        if mentioned[i] == bot {
            return true;
        }
        i = i + 1;
    }
    false
}

pub open spec fn system_part(p: Seq<char>) -> Seq<char> {
    "{ \"role\": \"system\", \"content\": \""@ + p + "\" },"@
}

/// The system prompts, each as one message of the request.
pub open spec fn system_parts(prompts: Seq<Seq<char>>) -> Seq<char>
    decreases prompts.len(),
{
    if prompts.len() == 0 {
        Seq::empty()
    } else {
        system_parts(prompts.drop_last()) + system_part(prompts.last())
    }
}

/// The body of a chat-completion request: the system prompts, then the
/// user's message. Text is written as given.
pub open spec fn chat_body(prompts: Seq<Seq<char>>, content: Seq<char>) -> Seq<char> {
    "{ \"model\": \"gpt-3.5-turbo\", \"messages\": ["@ + system_parts(prompts)
        + "{ \"role\": \"user\", \"content\": \""@ + content + "\" }] }"@
}

/// The body of the chat-completion request for `content` after `prompts`.
pub fn chat_request_body(content: &str, prompts: &Vec<String>) -> (r: String)
    ensures
        r@ == chat_body(prompts@.map_values(|p: String| p@), content@),
{
    let ghost ps = prompts@.map_values(|p: String| p@);
    let mut parts = String::new();
    let mut i: usize = 0;
    while i < prompts.len()
        invariant
            i <= prompts@.len(),
            ps == prompts@.map_values(|p: String| p@),
            parts@ == system_parts(ps.take(i as int)),
        decreases prompts@.len() - i,
    {
        parts.append("{ \"role\": \"system\", \"content\": \"");
        parts.append(prompts[i].as_str());
        parts.append("\" },");
        assert(ps.take(i as int + 1).drop_last() =~= ps.take(i as int));
        i = i + 1;
        assert(parts@ =~= system_parts(ps.take(i as int)));
    }
    assert(ps.take(prompts@.len() as int) =~= ps);
    let mut body = String::from_str("{ \"model\": \"gpt-3.5-turbo\", \"messages\": [");
    body.append(parts.as_str());
    body.append("{ \"role\": \"user\", \"content\": \"");
    body.append(content);
    body.append("\" }] }");
    assert(body@ =~= chat_body(ps, content@));
    body
}

pub struct ChatMessage {
    pub content: String,
}

pub struct ChatChoice {
    pub message: ChatMessage,
}

/// The answer of the chat-completion API.
pub struct ChatResponse {
    pub choices: Vec<ChatChoice>,
}

/// The text of the first choice; nothing where the answer holds none.
pub fn first_reply(resp: &ChatResponse) -> (r: Option<String>)
    ensures
        resp.choices@.len() == 0 ==> r.is_none(),
        resp.choices@.len() > 0 ==> r.is_some() && r.unwrap()@ == resp.choices@[0].message.content@,
{
    if resp.choices.len() == 0 {
        None
    } else {
        Some(resp.choices[0].message.content.clone())
    }
}

/// Splits at the first `c`: what precedes it, what follows it, and whether
/// there was one.
pub open spec fn split_on(s: Seq<char>, c: char) -> (Seq<char>, Seq<char>, bool)
    decreases s.len(),
{
    if s.len() == 0 {
        (s, s, false)
    } else if s[0] == c {
        (Seq::empty(), s.drop_first(), true)
    } else {
        let (h, t, f) = split_on(s.drop_first(), c);
        (seq![s[0]] + h, t, f)
    }
}

/// The `n`th of the parts of `s` between the `c`s, counting from 0.
pub open spec fn nth_part(s: Seq<char>, c: char, n: nat) -> Option<Seq<char>>
    decreases n,
{
    let (h, t, f) = split_on(s, c);
    if n == 0 {
        Some(h)
    } else if !f {
        None
    } else {
        nth_part(t, c, (n - 1) as nat)
    }
}

/// Splits at the first `c` (see `split_on`).
fn split_once(s: &str, c: char) -> (r: (String, String, bool))
    ensures
        (r.0@, r.1@, r.2) == split_on(s@, c),
{
    let n = s.unicode_len();
    let mut i: usize = 0;
    while i < n && s.get_char(i) != c
        invariant
            n == s@.len(),
            i <= n,
            forall|j: int| 0 <= j < i ==> s@[j] != c,
        decreases n - i,
    {
        i = i + 1;
    }
    proof {
        lemma_split_on_at(s@, c, i as int);
    }
    let head = String::from_str(s.substring_char(0, i));
    if i == n {
        (head, String::new(), false)
    } else {
        (head, String::from_str(s.substring_char(i + 1, n)), true)
    }
}

proof fn lemma_split_on_at(s: Seq<char>, c: char, i: int)
    requires
        0 <= i <= s.len(),
        forall|j: int| 0 <= j < i ==> s[j] != c,
        i < s.len() ==> s[i] == c,
    ensures
        split_on(s, c) == if i == s.len() {
            (s, Seq::<char>::empty(), false)
        } else {
            (s.take(i), s.skip(i + 1), true)
        },
    decreases i,
{
    if s.len() > 0 && i > 0 {
        let d = s.drop_first();
        assert forall|j: int| 0 <= j < i - 1 implies d[j] != c by {
            assert(d[j] == s[j + 1]);
        }
        lemma_split_on_at(d, c, i - 1);
        if i == s.len() {
            assert(seq![s[0]] + d =~= s);
            assert(d.skip(0) =~= d);
        } else {
            assert(seq![s[0]] + d.take(i - 1) =~= s.take(i));
            assert(d.skip(i) =~= s.skip(i + 1));
        }
    } else if s.len() > 0 {
        assert(s.take(0) =~= Seq::<char>::empty());
        assert(s.skip(1) =~= s.drop_first());
    }
}

/// The part of `s` between the `c`s at position `n`.
fn nth_part_of(s: &str, c: char, n: usize) -> (r: Option<String>)
    ensures
        match r {
            Some(p) => nth_part(s@, c, n as nat) == Some(p@),
            None => nth_part(s@, c, n as nat).is_none(),
        },
    decreases n,
{
    let (h, t, f) = split_once(s, c);
    if n == 0 {
        Some(h)
    } else if !f {
        None
    } else {
        nth_part_of(t.as_str(), c, n - 1)
    }
}

pub open spec fn part_number(s: Seq<char>, n: nat) -> Option<u64> {
    match nth_part(s, '/', n) {
        Some(p) => parse_decimal(p),
        None => None,
    }
}

/// The channel id and the message id that a message link names (its sixth
/// and seventh parts between slashes); nothing where either is missing or
/// not a number.
pub fn link_ids(url: &str) -> (r: Option<(u64, u64)>)
    ensures
        match (part_number(url@, 5), part_number(url@, 6)) {
            (Some(c), Some(m)) => r == Some((c, m)),
            _ => r.is_none(),
        },
{
    let channel = match nth_part_of(url, '/', 5) {
        Some(p) => parse_u64(p.as_str()),
        None => None,
    };
    let message = match nth_part_of(url, '/', 6) {
        Some(p) => parse_u64(p.as_str()),
        None => None,
    };
    match (channel, message) {
        (Some(c), Some(m)) => Some((c, m)),
        _ => None,
    }
}

/// The ids named by each link that can be read, in order; the others are
/// passed over.
pub open spec fn link_id_list(links: Seq<Seq<char>>) -> Seq<(u64, u64)>
    decreases links.len(),
{
    if links.len() == 0 {
        Seq::empty()
    } else {
        let r = link_id_list(links.drop_last());
        match (part_number(links.last(), 5), part_number(links.last(), 6)) {
            (Some(c), Some(m)) => r.push((c, m)),
            _ => r,
        }
    }
}

/// The channel and message ids of the message links in `text`, in order.
pub fn linked_message_ids(text: &str) -> (r: Vec<(u64, u64)>)
    ensures
        r@ == link_id_list(message_links_in(text@)),
{
    let links = find_message_links(text);
    let ghost ls = links@.map_values(|l: String| l@);
    let mut r: Vec<(u64, u64)> = Vec::new();
    let mut i: usize = 0;
    while i < links.len()
        invariant
            i <= links@.len(),
            ls == links@.map_values(|l: String| l@),
            r@ == link_id_list(ls.take(i as int)),
        decreases links@.len() - i,
    {
        assert(ls.take(i as int + 1).drop_last() =~= ls.take(i as int));
        assert(ls.take(i as int + 1).last() == links@[i as int]@);
        match link_ids(links[i].as_str()) {
            Some(ids) => r.push(ids),
            None => {},
        }
        i = i + 1;
    }
    assert(ls.take(links@.len() as int) =~= ls);
    r
}

} // verus!
