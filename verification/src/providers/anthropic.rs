//! Requests of the Anthropic messages API.
use vstd::prelude::*;
use crate::llm::{ContentPart, LlmInput, Message, Role};
use crate::text::{chars_of, find_from, find_sub, lemma_find_sub, string_of_range};
use super::{image_placeholder, lemma_find_sub_shift, placeholder, prefix_at_start};

verus! {
/// The media type and the data of a data URI `data:<mime>;base64,<data>`,
/// split at the first `;base64,`.
pub open spec fn data_uri_spec(u: Seq<char>) -> Option<(Seq<char>, Seq<char>)> {
    if "data:"@.is_prefix_of(u) {
        let rest = u.skip("data:"@.len() as int);
        match find_sub(rest, ";base64,"@, 0) {
            Some(k) => Some((rest.take(k), rest.skip(k + ";base64,"@.len()))),
            None => None,
        }
    } else {
        None
    }
}

/// Splits a data URI into its media type and its data.
pub fn parse_data_uri(uri: &str) -> (r: Option<(String, String)>)
    ensures
        match r {
            Some((m, d)) => data_uri_spec(uri@) == Some((m@, d@)),
            None => data_uri_spec(uri@) is None,
        },
{
    let v = chars_of(uri);
    let vlen = v.len();
    if !prefix_at_start(&v, "data:") {
        return None;
    }
    let plen = chars_of("data:").len();
    let ghost rest = v@.skip(plen as int);
    let sep = chars_of(";base64,");
    match find_from(&v, &sep, plen) {
        Some(k) => {
            proof {
                lemma_find_sub(v@, sep@, plen as int);
                lemma_find_sub_shift(v@, sep@, plen as int, 0);
            }
            let m = string_of_range(&v, plen, k);
            let d = string_of_range(&v, k + sep.len(), v.len());
            assert(m@ == rest.take(k - plen));
            assert(d@ == rest.skip(k - plen + sep@.len()));
            Some((m, d))
        },
        None => {
            proof {
                lemma_find_sub_shift(v@, sep@, plen as int, 0);
            }
            None
        },
    }
}

/// A content block of an Anthropic message.
pub enum AnthropicContent {
    Text { text: String },
    Image { source: AnthropicImageSource },
}

/// An inline image of an Anthropic message.
pub struct AnthropicImageSource {
    pub source_type: String,
    pub media_type: String,
    pub data: String,
}

/// A message in the Anthropic messages API.
pub struct AnthropicMessage {
    pub role: String,
    pub content: Vec<AnthropicContent>,
}

/// The Anthropic role of `r`: the system and tools speak as the user.
pub open spec fn anthropic_role(r: Role) -> Seq<char> {
    match r {
        Role::Assistant => "assistant"@,
        _ => "user"@,
    }
}

/// `c` is the Anthropic form of `p`.
pub open spec fn anthropic_block_of(c: AnthropicContent, p: ContentPart) -> bool {
    match p {
        ContentPart::Text(t) => c matches AnthropicContent::Text { text } && text@ == t@,
        ContentPart::ImageUrl(u) => match data_uri_spec(u@) {
            Some((m, d)) => c matches AnthropicContent::Image { source } && source.source_type@
                == "base64"@ && source.media_type@ == m && source.data@ == d,
            None => c matches AnthropicContent::Text { text } && text@ == image_placeholder(u@),
        },
    }
}

/// `a` is the Anthropic form of `m`.
pub open spec fn anthropic_message_of(a: AnthropicMessage, m: Message) -> bool {
    &&& a.role@ == anthropic_role(m.role)
    &&& a.content@.len() == m.content@.len()
    &&& forall|i: int|
        0 <= i < m.content@.len() ==> anthropic_block_of(#[trigger] a.content@[i], m.content@[i])
}

fn anthropic_role_name(r: Role) -> (s: String)
    ensures
        s@ == anthropic_role(r),
{
    match r {
        Role::Assistant => "assistant".to_owned(),
        _ => "user".to_owned(),
    }
}

/// Converts a message for the Anthropic messages API.
pub fn convert_message(msg: &Message) -> (a: AnthropicMessage)
    ensures
        anthropic_message_of(a, *msg),
{
    let mut content: Vec<AnthropicContent> = Vec::new();
    let mut i: usize = 0;
    while i < msg.content.len()
        invariant
            i <= msg.content@.len(),
            content@.len() == i,
            forall|j: int|
                0 <= j < i ==> anthropic_block_of(#[trigger] content@[j], msg.content@[j]),
        decreases msg.content@.len() - i,
    {
        let block = match &msg.content[i] {
            ContentPart::Text(t) => AnthropicContent::Text { text: t.clone() },
            ContentPart::ImageUrl(url) => match parse_data_uri(url.as_str()) {
                Some((media_type, data)) => AnthropicContent::Image {
                    source: AnthropicImageSource {
                        source_type: "base64".to_owned(),
                        media_type,
                        data,
                    },
                },
                None => AnthropicContent::Text { text: placeholder(url) },
            },
        };
        content.push(block);
        i += 1;
    }
    AnthropicMessage { role: anthropic_role_name(msg.role), content }
}

/// The messages of an Anthropic request: the history, then the user input.
/// The system prompt travels apart.
pub fn request_messages(input: &LlmInput) -> (r: Vec<AnthropicMessage>)
    ensures
        r@.len() == input.history@.len() + 1,
        forall|i: int|
            0 <= i < input.history@.len() ==> anthropic_message_of(
                #[trigger] r@[i],
                input.history@[i],
            ),
        anthropic_message_of(r@[input.history@.len() as int], input.user_input),
{
    let mut r: Vec<AnthropicMessage> = Vec::new();
    let mut i: usize = 0;
    while i < input.history.len()
        invariant
            i <= input.history@.len(),
            r@.len() == i,
            forall|j: int| 0 <= j < i ==> anthropic_message_of(#[trigger] r@[j], input.history@[j]),
        decreases input.history@.len() - i,
    {
        r.push(convert_message(&input.history[i]));
        i += 1;
    }
    r.push(convert_message(&input.user_input));
    r
}

/// The `max_tokens` of every Anthropic request.
pub const ANTHROPIC_MAX_TOKENS: u32 = 4096;

/// The body of an Anthropic messages request; `system` is sent only when
/// present and `stream` only when set.
pub struct AnthropicRequest {
    pub model: String,
    pub messages: Vec<AnthropicMessage>,
    pub system: Option<String>,
    pub max_tokens: u32,
    pub stream: bool,
}

/// The text of an optional string.
pub open spec fn opt_view(s: Option<String>) -> Option<Seq<char>> {
    match s {
        Some(t) => Some(t@),
        None => None,
    }
}

/// The request for `model` with the messages of `input`, its system prompt
/// apart, and at most 4096 answer tokens.
pub fn anthropic_request(model: &str, input: &LlmInput, stream: bool) -> (r: AnthropicRequest)
    ensures
        r.model@ == model@,
        r.messages@.len() == input.history@.len() + 1,
        forall|i: int|
            0 <= i < input.history@.len() ==> anthropic_message_of(
                #[trigger] r.messages@[i],
                input.history@[i],
            ),
        anthropic_message_of(r.messages@[input.history@.len() as int], input.user_input),
        opt_view(r.system) == opt_view(input.system_prompt),
        r.max_tokens == 4096,
        r.stream == stream,
{
    let system = match &input.system_prompt {
        Some(p) => Some(p.clone()),
        None => None,
    };
    AnthropicRequest {
        model: model.to_owned(),
        messages: request_messages(input),
        system,
        max_tokens: ANTHROPIC_MAX_TOKENS,
        stream,
    }
}

} // verus!
