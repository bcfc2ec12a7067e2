//! Requests of OpenAI-compatible chat completion APIs.
use vstd::prelude::*;
use crate::llm::{ContentPart, LlmInput, Message, Role};
use super::{copy_parts, part_views};

verus! {
/// The content of an OpenAI-style message: a plain string for a message
/// of one text part, otherwise the list of parts.
pub enum OpenAiContent {
    Text(String),
    Parts(Vec<ContentPart>),
}

/// A message of the OpenAI-compatible chat completions API.
pub struct OpenAiMessage {
    pub role: String,
    pub content: OpenAiContent,
}

/// The OpenAI role name of `r`.
pub open spec fn openai_role(r: Role) -> Seq<char> {
    match r {
        Role::System => "system"@,
        Role::User => "user"@,
        Role::Assistant => "assistant"@,
        Role::Tool => "tool"@,
    }
}

/// `o` is the OpenAI form of `m`.
pub open spec fn openai_message_of(o: OpenAiMessage, m: Message) -> bool {
    &&& o.role@ == openai_role(m.role)
    &&& if m.content@.len() == 1 && m.content@[0] is Text {
        o.content matches OpenAiContent::Text(t) && t@ == crate::llm::part_view(m.content@[0]).1
    } else {
        o.content matches OpenAiContent::Parts(ps) && part_views(ps@) == part_views(m.content@)
    }
}

fn openai_role_name(r: Role) -> (s: String)
    ensures
        s@ == openai_role(r),
{
    match r {
        Role::System => "system".to_owned(),
        Role::User => "user".to_owned(),
        Role::Assistant => "assistant".to_owned(),
        Role::Tool => "tool".to_owned(),
    }
}

/// Converts a message for the OpenAI-compatible chat completions API.
pub fn convert_message(msg: &Message) -> (o: OpenAiMessage)
    ensures
        openai_message_of(o, *msg),
{
    let role = openai_role_name(msg.role);
    if msg.content.len() == 1 {
        if let ContentPart::Text(t) = &msg.content[0] {
            return OpenAiMessage { role, content: OpenAiContent::Text(t.clone()) };
        }
    }
    OpenAiMessage { role, content: OpenAiContent::Parts(copy_parts(&msg.content)) }
}

/// `r` are the messages of an OpenAI-compatible request for `input`: the
/// system prompt as a system message when there is one, the history, then
/// the user input.
pub open spec fn openai_messages_of(r: Seq<OpenAiMessage>, input: LlmInput) -> bool {
    let off: int = if input.system_prompt is Some {
        1
    } else {
        0
    };
    &&& r.len() == off + input.history@.len() + 1
    &&& input.system_prompt matches Some(p) ==> r[0].role@ == "system"@
        && (r[0].content matches OpenAiContent::Text(t) && t@ == p@)
    &&& forall|i: int|
        0 <= i < input.history@.len() ==> openai_message_of(#[trigger] r[off + i], input.history@[i])
    &&& openai_message_of(r[off + input.history@.len()], input.user_input)
}

/// The messages of an OpenAI-compatible request: the system prompt as a
/// system message when there is one, the history, then the user input.
pub fn request_messages(input: &LlmInput) -> (r: Vec<OpenAiMessage>)
    ensures
        openai_messages_of(r@, *input),
{
    let mut r: Vec<OpenAiMessage> = Vec::new();
    let off: usize = match &input.system_prompt {
        Some(p) => {
            r.push(OpenAiMessage { role: "system".to_owned(), content: OpenAiContent::Text(p.clone()) });
            1
        },
        None => 0,
    };
    let mut i: usize = 0;
    while i < input.history.len()
        invariant
            off == (if input.system_prompt is Some {
                1usize
            } else {
                0usize
            }),
            i <= input.history@.len(),
            r@.len() == off + i,
            input.system_prompt matches Some(p) ==> r@[0].role@ == "system"@
                && (r@[0].content matches OpenAiContent::Text(t) && t@ == p@),
            forall|j: int| 0 <= j < i ==> openai_message_of(#[trigger] r@[off + j], input.history@[j]),
        decreases input.history@.len() - i,
    {
        r.push(convert_message(&input.history[i]));
        i += 1;
    }
    r.push(convert_message(&input.user_input));
    r
}

/// The body of an OpenAI-compatible chat completions request; `stream`
/// asks for the answer as server-sent events and is sent only when set.
pub struct OpenAiRequest {
    pub model: String,
    pub messages: Vec<OpenAiMessage>,
    pub stream: bool,
}

/// The request for `model` with the messages of `input`.
pub fn openai_request(model: &str, input: &LlmInput, stream: bool) -> (r: OpenAiRequest)
    ensures
        r.model@ == model@,
        openai_messages_of(r.messages@, *input),
        r.stream == stream,
{
    OpenAiRequest { model: model.to_owned(), messages: request_messages(input), stream }
}

} // verus!
