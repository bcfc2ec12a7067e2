//! Endpoints of the model providers.
use vstd::prelude::*;
use crate::text::{concat, ends_with, strip_suffixes, trim_end_matches};

verus! {

/// A base URL without trailing slashes.
pub fn normalize_base_url(base_url: &str) -> (r: String)
    ensures
        r@ == strip_suffixes(base_url@, "/"@),
{
    trim_end_matches(base_url, "/")
}

/// The chat completions endpoint under an OpenAI-compatible base URL.
pub fn chat_completions_url(base: &str) -> (r: String)
    ensures
        r@ == base@ + "/chat/completions"@,
{
    concat(base, "/chat/completions")
}

/// The model list endpoint under an OpenAI base URL.
pub fn models_url(base: &str) -> (r: String)
    ensures
        r@ == base@ + "/models"@,
{
    concat(base, "/models")
}

/// The server root under a base URL: trailing slashes go, and when the
/// result ends with `/v1`, every trailing `/v1` goes too.
pub open spec fn server_root(base: Seq<char>) -> Seq<char> {
    let b = strip_suffixes(base, "/"@);
    if "/v1"@.is_suffix_of(b) {
        strip_suffixes(b, "/v1"@)
    } else {
        b
    }
}

fn root_of(base: &str) -> (r: String)
    ensures
        r@ == server_root(base@),
{
    let b = trim_end_matches(base, "/");
    if ends_with(b.as_str(), "/v1") {
        trim_end_matches(b.as_str(), "/v1")
    } else {
        b
    }
}

/// The Ollama model list endpoint (`/api/tags` under the server root).
pub fn ollama_tags_url(base: &str) -> (r: String)
    ensures
        r@ == server_root(base@) + "/api/tags"@,
{
    let root = root_of(base);
    concat(root.as_str(), "/api/tags")
}

/// The LM Studio model list endpoint (`/api/v0/models` under the server
/// root).
pub fn lmstudio_models_url(base: &str) -> (r: String)
    ensures
        r@ == server_root(base@) + "/api/v0/models"@,
{
    let root = root_of(base);
    concat(root.as_str(), "/api/v0/models")
}

/// The Gemini `generateContent` endpoint of `model`, keyed by `api_key`.
pub fn google_generate_url(model: &str, api_key: &str) -> (r: String)
    ensures
        r@ == "https://generativelanguage.googleapis.com/v1beta/models/"@ + model@
            + ":generateContent?key="@ + api_key@,
{
    let a = concat("https://generativelanguage.googleapis.com/v1beta/models/", model);
    let b = concat(a.as_str(), ":generateContent?key=");
    concat(b.as_str(), api_key)
}

/// The Gemini `batchEmbedContents` endpoint of `model` (a `models/...`
/// name), keyed by `api_key`.
pub fn google_batch_embed_url(model: &str, api_key: &str) -> (r: String)
    ensures
        r@ == "https://generativelanguage.googleapis.com/v1beta/"@ + model@
            + ":batchEmbedContents?key="@ + api_key@,
{
    let a = concat("https://generativelanguage.googleapis.com/v1beta/", model);
    let b = concat(a.as_str(), ":batchEmbedContents?key=");
    concat(b.as_str(), api_key)
}

/// The Bearer authorization header value for `key`.
pub fn bearer(key: &str) -> (r: String)
    ensures
        r@ == "Bearer "@ + key@,
{
    concat("Bearer ", key)
}

} // verus!
