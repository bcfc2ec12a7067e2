//! Prompts of the on-device Apple model.
use vstd::prelude::*;
use crate::llm::{ContentPart, Message};
use crate::text::concat;
use crate::version::{decimal_i32, signed_decimal};

verus! {
/// The prompt text that the on-device Apple model gets: the text parts of
/// the user input joined by single spaces.
pub open spec fn apple_prompt_spec(parts: Seq<ContentPart>) -> Seq<char>
    decreases parts.len(),
{
    if parts.len() == 0 {
        seq![]
    } else {
        let prev = apple_prompt_spec(parts.drop_last());
        let texts_before = text_count(parts.drop_last());
        match parts.last() {
            ContentPart::Text(t) => if texts_before == 0 {
                t@
            } else {
                prev + seq![' '] + t@
            },
            ContentPart::ImageUrl(_) => prev,
        }
    }
}

/// How many text parts `parts` has.
pub open spec fn text_count(parts: Seq<ContentPart>) -> nat
    decreases parts.len(),
{
    if parts.len() == 0 {
        0
    } else {
        text_count(parts.drop_last()) + if parts.last() is Text {
            1nat
        } else {
            0nat
        }
    }
}

/// Joins the text parts of `msg` with single spaces.
pub fn apple_prompt_text(msg: &Message) -> (r: String)
    ensures
        r@ == apple_prompt_spec(msg.content@),
{
    let ghost parts = msg.content@;
    let mut r = String::new();
    let mut seen: usize = 0;
    let mut i: usize = 0;
    while i < msg.content.len()
        invariant
            parts == msg.content@,
            i <= parts.len(),
            r@ == apple_prompt_spec(parts.take(i as int)),
            seen == text_count(parts.take(i as int)),
            seen <= i,
        decreases parts.len() - i,
    {
        assert(parts.take(i + 1).drop_last() == parts.take(i as int));
        assert(parts.take(i + 1).last() == parts[i as int]);
        match &msg.content[i] {
            ContentPart::Text(t) => {
                if seen == 0 {
                    r = t.clone();
                } else {
                    let mut with_space = r;
                    crate::text::push_char(&mut with_space, ' ');
                    r = concat(with_space.as_str(), t.as_str());
                }
                seen += 1;
            },
            ContentPart::ImageUrl(_) => {},
        }
        i += 1;
    }
    assert(parts.take(parts.len() as int) == parts);
    r
}


/// Whether the on-device model can answer: the system reports availability
/// code 1.
pub fn apple_available(availability: i32) -> (r: bool)
    ensures
        r == (availability == 1),
{
    availability == 1
}

/// The reason text of an unavailable model: the system's reason, or a
/// generic one when the system gives none.
pub open spec fn reason_text(reason: Option<String>) -> Seq<char> {
    match reason {
        Some(t) => t@,
        None => "Unknown availability error"@,
    }
}

/// The error of a completion refused because the model is unavailable.
pub fn apple_unavailable_message(availability: i32, reason: Option<String>) -> (r: String)
    ensures
        r@ == "Apple Intelligence not available: "@ + reason_text(reason) + " (Code: "@
            + signed_decimal(availability as int) + ")"@,
{
    let why = match reason {
        Some(t) => t,
        None => "Unknown availability error".to_owned(),
    };
    let code = decimal_i32(availability);
    let a = concat("Apple Intelligence not available: ", why.as_str());
    let b = concat(a.as_str(), " (Code: ");
    let c = concat(b.as_str(), code.as_str());
    concat(c.as_str(), ")")
}

/// The error of a stream refused because the model is unavailable.
pub fn apple_stream_unavailable_message(availability: i32) -> (r: String)
    ensures
        r@ == "Apple Intelligence not available. Code: "@ + signed_decimal(availability as int),
{
    let code = decimal_i32(availability);
    concat("Apple Intelligence not available. Code: ", code.as_str())
}

} // verus!
