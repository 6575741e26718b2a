//! Requests to an OpenAI-compatible chat completion API: what is sent and
//! what a reply means.  Sending the request and reading its JSON is left to
//! the application.

use vstd::prelude::*;
use crate::chat::ChatMessage;
use crate::explorer::opt_str;
use crate::text::{chars_of, push_str, string_of, sub_chars};

verus! {

/// A message as plain values: role and content.
pub open spec fn message_view(m: ChatMessage) -> (Seq<char>, Seq<char>) {
    (m.role@, m.content@)
}

/// The views of messages.
pub open spec fn message_views(v: Seq<ChatMessage>) -> Seq<(Seq<char>, Seq<char>)> {
    Seq::new(v.len(), |i: int| message_view(v[i]))
}

/// The messages of a request: the system prompt first, when there is one,
/// then the conversation in order.
pub open spec fn request_messages_spec(system: Option<Seq<char>>, messages: Seq<(Seq<char>, Seq<char>)>) -> Seq<
    (Seq<char>, Seq<char>),
> {
    match system {
        Some(sys) => seq![("system"@, sys)] + messages,
        None => messages,
    }
}

/// The text without its trailing slashes (`trim_end_matches('/')`).
pub open spec fn trim_slashes(s: Seq<char>) -> Seq<char>
    decreases s.len(),
{
    if s.len() > 0 && s.last() == '/' {
        trim_slashes(s.drop_last())
    } else {
        s
    }
}

/// The endpoint of chat completions under an API base URL.
pub open spec fn completions_url_spec(base_url: Seq<char>) -> Seq<char> {
    trim_slashes(base_url) + "/chat/completions"@
}

/// What a chat completion reply comes to.
#[derive(Debug, Clone)]
pub enum ChatOutcome {
    /// The assistant's reply, and its reasoning when the API gives one.
    Reply { content: String, reasoning: Option<String> },
    /// An error message to show.
    Failure { message: String },
}

/// The messages to send: the system prompt first, when there is one, then
/// the conversation.
pub fn request_messages(system: Option<String>, messages: &Vec<ChatMessage>) -> (r: Vec<ChatMessage>)
    ensures
        message_views(r@) == request_messages_spec(opt_str(system), message_views(messages@)),
{
    let ghost sys = opt_str(system);
    let mut r: Vec<ChatMessage> = Vec::new();
    match system {
        Some(s) => {
            r.push(ChatMessage { role: String::from_str("system"), content: s });
        },
        None => {},
    }
    let ghost base = message_views(r@);
    assert(base =~= request_messages_spec(sys, Seq::empty()));
    let mut i: usize = 0;
    while i < messages.len()
        invariant
            i <= messages.len(),
            base == request_messages_spec(sys, Seq::empty()),
            message_views(r@) == base + message_views(messages@).take(i as int),
        decreases messages.len() - i,
    {
        let m = ChatMessage { role: messages[i].role.clone(), content: messages[i].content.clone() };
        let ghost prev = message_views(r@);
        r.push(m);
        assert(message_views(r@) =~= prev.push(message_view(messages@[i as int])));
        assert(message_views(messages@).take(i + 1) =~= message_views(messages@).take(i as int).push(
            message_view(messages@[i as int]),
        ));
        i += 1;
    }
    assert(message_views(messages@).take(messages.len() as int) =~= message_views(messages@));
    assert(message_views(r@) =~= request_messages_spec(sys, message_views(messages@)));
    r
}

/// The endpoint of chat completions under an API base URL: the base with
/// its trailing slashes removed, then `/chat/completions`.
pub fn completions_url(base_url: &str) -> (url: String)
    ensures
        url@ == completions_url_spec(base_url@),
{
    let cs = chars_of(base_url);
    let mut n: usize = cs.len();
    assert(cs@.take(n as int) =~= cs@);
    while n > 0 && cs[n - 1] == '/'
        invariant
            n <= cs.len(),
            trim_slashes(cs@.take(n as int)) == trim_slashes(cs@),
        decreases n,
    {
        assert(cs@.take(n as int).drop_last() =~= cs@.take(n - 1));
        n -= 1;
    }
    let mut url = string_of(&sub_chars(&cs, 0, n));
    push_str(&mut url, "/chat/completions");
    proof {
        assert(trim_slashes(cs@.take(n as int)) == cs@.take(n as int));
    }
    url
}

/// The value of the `Authorization` header for an API key.
pub fn bearer(api_key: &str) -> (header: String)
    ensures
        header@ == "Bearer "@ + api_key@,
{
    let mut h = String::from_str("Bearer ");
    push_str(&mut h, api_key);
    h
}

/// What a reply means, given what its JSON holds: the content of the first
/// choice's message and its reasoning, and the error message.  A reply with
/// content is the assistant's reply; otherwise its error message is shown,
/// or "Unknown API error" when it has none.
pub fn chat_outcome(
    content: Option<String>,
    reasoning: Option<String>,
    error_message: Option<String>,
) -> (outcome: ChatOutcome)
    ensures
        match content {
            Some(c) => outcome matches ChatOutcome::Reply { content: rc, reasoning: rr } && rc@ == c@
                && rr == reasoning,
            None => outcome matches ChatOutcome::Failure { message } && message@ == match error_message {
                Some(e) => e@,
                None => "Unknown API error"@,
            },
        },
{
    match content {
        Some(c) => ChatOutcome::Reply { content: c, reasoning },
        None => match error_message {
            Some(e) => ChatOutcome::Failure { message: e },
            None => ChatOutcome::Failure { message: String::from_str("Unknown API error") },
        },
    }
}

} // verus!
