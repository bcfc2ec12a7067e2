//! Chat data exchanged with the model providers, and their configuration.
use vstd::prelude::*;
use serde_json::Value;

verus! {

/// Who speaks in a chat message.
#[derive(Debug, Clone, Copy, PartialEq, Eq, Structural)]
pub enum Role {
    System,
    User,
    Assistant,
    Tool,
}

/// One part of a message: text, or an image given by URL or data URI.
#[derive(Debug, Clone, PartialEq)]
pub enum ContentPart {
    Text(String),
    ImageUrl(String),
}

/// A chat message.
#[derive(Debug, Clone, PartialEq)]
pub struct Message {
    pub role: Role,
    pub content: Vec<ContentPart>,
}

/// The view of a content part: `(is_image, text or URL)`.
pub open spec fn part_view(p: ContentPart) -> (bool, Seq<char>) {
    match p {
        ContentPart::Text(t) => (false, t@),
        ContentPart::ImageUrl(u) => (true, u@),
    }
}

impl Message {
    /// A message of one text part.
    pub fn new_text(role: Role, text: &str) -> (m: Message)
        ensures
            m.role == role,
            m.content@.len() == 1,
            part_view(m.content@[0]) == (false, text@),
    {
        let mut content: Vec<ContentPart> = Vec::new();
        content.push(ContentPart::Text(text.to_owned()));
        Message { role, content }
    }
}

/// What a chat request sends: an optional system prompt, the earlier
/// messages and the new user message.
#[derive(Debug, Clone)]
pub struct LlmInput {
    pub system_prompt: Option<String>,
    pub history: Vec<Message>,
    pub user_input: Message,
}

/// Token counts that a provider reports.
#[derive(Debug, Clone, Copy)]
pub struct TokenUsage {
    pub prompt_tokens: u32,
    pub completion_tokens: u32,
    pub total_tokens: u32,
}

/// What a chat request gives back; `raw` keeps provider data not read here.
#[derive(Debug, Clone)]
pub struct LlmOutput {
    pub content: Vec<ContentPart>,
    pub usage: Option<TokenUsage>,
    pub raw: Option<Value>,
}

/// One piece of a streamed answer.
#[derive(Debug, Clone)]
pub struct LlmStreamChunk {
    pub content: String,
    pub usage: Option<TokenUsage>,
}

/// The configuration of one chat service, by provider.
#[derive(Debug, Clone)]
pub enum LlmServiceConfig {
    Google(GoogleConfig),
    OpenAI(OpenAIConfig),
    Anthropic(AnthropicConfig),
    Ollama(OllamaConfig),
    LMStudio(LMStudioConfig),
    Custom(CustomConfig),
}

#[derive(Debug, Clone)]
pub struct GoogleConfig {
    pub api_key: String,
}

#[derive(Debug, Clone)]
pub struct OpenAIConfig {
    pub api_key: String,
}

#[derive(Debug, Clone)]
pub struct AnthropicConfig {
    pub api_key: String,
}

#[derive(Debug, Clone)]
pub struct OllamaConfig {
    pub base_url: String,
}

#[derive(Debug, Clone)]
pub struct LMStudioConfig {
    pub base_url: String,
    pub api_key: Option<String>,
}

#[derive(Debug, Clone)]
pub struct CustomConfig {
    pub name: String,
    pub base_url: String,
    pub api_key: Option<String>,
}

} // verus!
