use rinton_store::chat::{
    chat_request_body, first_reply, link_ids, linked_message_ids, mention_question, mentions_bot, newlines_to_spaces,
    ChatChoice, ChatMessage, ChatResponse,
};

#[test]
fn mention_becomes_one_line_question() {
    assert_eq!(mention_question("<@!1097033145674649675> hello\nthere"), " hello there");
    assert_eq!(mention_question("no mention"), "no mention");
    assert_eq!(newlines_to_spaces("a\nb\n"), "a b ");
}

#[test]
fn bot_mention_detected() {
    assert!(mentions_bot(&vec![5, 1097033145674649675], 1097033145674649675));
    assert!(!mentions_bot(&vec![5, 6], 1097033145674649675));
    assert!(!mentions_bot(&Vec::new(), 1));
}

#[test]
fn chat_body_lists_prompts_then_user() {
    assert_eq!(
        chat_request_body("hi", &vec!["be kind".to_string()]),
        r#"{ "model": "gpt-3.5-turbo", "messages": [{ "role": "system", "content": "be kind" },{ "role": "user", "content": "hi" }] }"#
    );
    assert_eq!(
        chat_request_body("q", &Vec::new()),
        r#"{ "model": "gpt-3.5-turbo", "messages": [{ "role": "user", "content": "q" }] }"#
    );
}

#[test]
fn first_reply_of_answer() {
    let resp = ChatResponse {
        choices: vec![
            ChatChoice { message: ChatMessage { content: "one".to_string() } },
            ChatChoice { message: ChatMessage { content: "two".to_string() } },
        ],
    };
    assert_eq!(first_reply(&resp), Some("one".to_string()));
    assert_eq!(first_reply(&ChatResponse { choices: Vec::new() }), None);
}

#[test]
fn message_links_and_ids() {
    let text = "see https://discord.com/channels/1/22/333 and https://discord.com/channels/4/5/6.";
    assert_eq!(linked_message_ids(text), vec![(22, 333), (5, 6)]);
    let huge = "https://discord.com/channels/1/99999999999999999999/3 https://discord.com/channels/1/2/3";
    assert_eq!(linked_message_ids(huge), vec![(2, 3)]);
    assert_eq!(link_ids("https://discord.com/channels/1/22/333"), Some((22, 333)));
    assert_eq!(link_ids("https://discord.com/channels/1/x/3"), None);
    assert_eq!(link_ids("https://discord.com/channels/1"), None);
    assert!(linked_message_ids("nothing here").is_empty());
}
