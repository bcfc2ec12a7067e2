//! Requests of the Gemini `generateContent` API.
use vstd::prelude::*;
use crate::llm::{ContentPart, LlmInput, Message, Role};
use crate::text::{chars_of, concat, find_from, find_sub, lemma_find_sub, string_of_range};
use super::{image_placeholder, lemma_find_sub_shift, placeholder, prefix_at_start};

verus! {
/// Inline data of a Gemini message part.
pub struct GoogleInlineData {
    pub mime_type: String,
    pub data: String,
}

/// A part of a Gemini message: text or inline data.
pub struct GooglePart {
    pub text: Option<String>,
    pub inline_data: Option<GoogleInlineData>,
}

/// A message in the Gemini `generateContent` API.
pub struct GoogleContent {
    pub role: String,
    pub parts: Vec<GooglePart>,
}

/// The Gemini role of `r`.
pub open spec fn google_role(r: Role) -> Seq<char> {
    match r {
        Role::System => "user"@,
        Role::User => "user"@,
        Role::Assistant => "model"@,
        Role::Tool => "function"@,
    }
}

/// The media type and the data of an image data URI
/// `data:image/<type>;base64,<data>` that `;base64,` cuts into exactly two
/// pieces.
pub open spec fn google_inline_spec(u: Seq<char>) -> Option<(Seq<char>, Seq<char>)> {
    if "data:image/"@.is_prefix_of(u) {
        let b = u.skip("data:image/"@.len() as int);
        let sep = ";base64,"@;
        match find_sub(b, sep, 0) {
            Some(k) => match find_sub(b, sep, k + sep.len()) {
                None => Some(("image/"@ + b.take(k), b.skip(k + sep.len()))),
                Some(_) => None,
            },
            None => None,
        }
    } else {
        None
    }
}

/// `g` is the Gemini form of `p`.
pub open spec fn google_part_of(g: GooglePart, p: ContentPart) -> bool {
    match p {
        ContentPart::Text(t) => g.inline_data is None && (g.text matches Some(x) && x@ == t@),
        ContentPart::ImageUrl(u) => match google_inline_spec(u@) {
            Some((m, d)) => g.text is None && (g.inline_data matches Some(x) && x.mime_type@ == m
                && x.data@ == d),
            None => g.inline_data is None && (g.text matches Some(x) && x@ == image_placeholder(
                u@,
            )),
        },
    }
}

/// `g` is the Gemini form of `m`.
pub open spec fn google_content_of(g: GoogleContent, m: Message) -> bool {
    &&& g.role@ == google_role(m.role)
    &&& g.parts@.len() == m.content@.len()
    &&& forall|i: int| 0 <= i < m.content@.len() ==> google_part_of(#[trigger] g.parts@[i], m.content@[i])
}

fn google_role_name(r: Role) -> (s: String)
    ensures
        s@ == google_role(r),
{
    match r {
        Role::System => "user".to_owned(),
        Role::User => "user".to_owned(),
        Role::Assistant => "model".to_owned(),
        Role::Tool => "function".to_owned(),
    }
}

fn google_inline(url: &String) -> (r: Option<(String, String)>)
    ensures
        match r {
            Some((m, d)) => google_inline_spec(url@) == Some((m@, d@)),
            None => google_inline_spec(url@) is None,
        },
{
    let v = chars_of(url.as_str());
    let vlen = v.len();
    if !prefix_at_start(&v, "data:image/") {
        return None;
    }
    let plen = chars_of("data:image/").len();
    let ghost b = v@.skip(plen as int);
    let sep = chars_of(";base64,");
    proof {
        lemma_find_sub_shift(v@, sep@, plen as int, 0);
    }
    match find_from(&v, &sep, plen) {
        Some(k) => {
            proof {
                lemma_find_sub(v@, sep@, plen as int);
                lemma_find_sub_shift(v@, sep@, plen as int, k - plen + sep@.len());
            }
            match find_from(&v, &sep, k + sep.len()) {
                Some(_) => None,
                None => {
                    let t = string_of_range(&v, plen, k);
                    let m = concat("image/", t.as_str());
                    let d = string_of_range(&v, k + sep.len(), v.len());
                    assert(t@ == b.take(k - plen));
                    assert(d@ == b.skip(k - plen + sep@.len()));
                    Some((m, d))
                },
            }
        },
        None => None,
    }
}

/// Converts a message for the Gemini `generateContent` API.
pub fn convert_message(msg: &Message) -> (g: GoogleContent)
    ensures
        google_content_of(g, *msg),
{
    let mut parts: Vec<GooglePart> = Vec::new();
    let mut i: usize = 0;
    while i < msg.content.len()
        invariant
            i <= msg.content@.len(),
            parts@.len() == i,
            forall|j: int| 0 <= j < i ==> google_part_of(#[trigger] parts@[j], msg.content@[j]),
        decreases msg.content@.len() - i,
    {
        let part = match &msg.content[i] {
            ContentPart::Text(t) => GooglePart { text: Some(t.clone()), inline_data: None },
            ContentPart::ImageUrl(url) => match google_inline(url) {
                Some((mime_type, data)) => GooglePart {
                    text: None,
                    inline_data: Some(GoogleInlineData { mime_type, data }),
                },
                None => GooglePart { text: Some(placeholder(url)), inline_data: None },
            },
        };
        parts.push(part);
        i += 1;
    }
    GoogleContent { role: google_role_name(msg.role), parts }
}

/// The contents of a Gemini request: the history, then the user input.
pub fn request_contents(input: &LlmInput) -> (r: Vec<GoogleContent>)
    ensures
        r@.len() == input.history@.len() + 1,
        forall|i: int|
            0 <= i < input.history@.len() ==> google_content_of(#[trigger] r@[i], input.history@[i]),
        google_content_of(r@[input.history@.len() as int], input.user_input),
{
    let mut r: Vec<GoogleContent> = Vec::new();
    let mut i: usize = 0;
    while i < input.history.len()
        invariant
            i <= input.history@.len(),
            r@.len() == i,
            forall|j: int| 0 <= j < i ==> google_content_of(#[trigger] r@[j], input.history@[j]),
        decreases input.history@.len() - i,
    {
        r.push(convert_message(&input.history[i]));
        i += 1;
    }
    r.push(convert_message(&input.user_input));
    r
}

/// The system instruction of a Gemini request: the system prompt as one
/// text part spoken by the user.
pub fn system_instruction(input: &LlmInput) -> (r: Option<GoogleContent>)
    ensures
        match input.system_prompt {
            None => r is None,
            Some(p) => r matches Some(g) && g.role@ == "user"@ && g.parts@.len() == 1
                && g.parts@[0].inline_data is None && (g.parts@[0].text matches Some(t) && t@
                == p@),
        },
{
    match &input.system_prompt {
        None => None,
        Some(p) => {
            let mut parts: Vec<GooglePart> = Vec::new();
            parts.push(GooglePart { text: Some(p.clone()), inline_data: None });
            Some(GoogleContent { role: "user".to_owned(), parts })
        },
    }
}

} // verus!
