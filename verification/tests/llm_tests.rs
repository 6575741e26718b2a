use teshi::chat::ChatMessage;
use teshi::llm::{bearer, chat_outcome, completions_url, request_messages, ChatOutcome};

fn msg(role: &str, content: &str) -> ChatMessage {
    ChatMessage { role: role.to_string(), content: content.to_string() }
}

fn pairs(v: &[ChatMessage]) -> Vec<(&str, &str)> {
    v.iter().map(|m| (m.role.as_str(), m.content.as_str())).collect()
}

#[test]
fn system_prompt_comes_first() {
    let conv = vec![msg("user", "hi"), msg("assistant", "hello")];
    let r = request_messages(Some("be brief".to_string()), &conv);
    assert_eq!(pairs(&r), vec![("system", "be brief"), ("user", "hi"), ("assistant", "hello")]);
    let r = request_messages(None, &conv);
    assert_eq!(pairs(&r), vec![("user", "hi"), ("assistant", "hello")]);
    assert!(request_messages(None, &vec![]).is_empty());
}

#[test]
fn completions_url_trims_trailing_slashes() {
    assert_eq!(completions_url("https://api.openai.com/v1"), "https://api.openai.com/v1/chat/completions");
    assert_eq!(completions_url("http://localhost:8080/v1//"), "http://localhost:8080/v1/chat/completions");
    assert_eq!(completions_url(""), "/chat/completions");
}

#[test]
fn authorization_header() {
    assert_eq!(bearer("SECRET-REDACTED"), "Bearer SECRET-REDACTED");
}

#[test]
fn reply_outcomes() {
    match chat_outcome(Some("answer".to_string()), Some("why".to_string()), Some("ignored".to_string())) {
        ChatOutcome::Reply { content, reasoning } => {
            assert_eq!(content, "answer");
            assert_eq!(reasoning, Some("why".to_string()));
        }
        other => panic!("unexpected {:?}", other),
    }
    match chat_outcome(None, None, Some("quota exceeded".to_string())) {
        ChatOutcome::Failure { message } => assert_eq!(message, "quota exceeded"),
        other => panic!("unexpected {:?}", other),
    }
    match chat_outcome(None, Some("why".to_string()), None) {
        ChatOutcome::Failure { message } => assert_eq!(message, "Unknown API error"),
        other => panic!("unexpected {:?}", other),
    }
}
