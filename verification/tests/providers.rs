use greego::llm::{ContentPart, LlmInput, Message, Role};
use greego::providers::anthropic::{self, AnthropicContent};
use greego::providers::apple::{
    apple_available, apple_prompt_text, apple_stream_unavailable_message, apple_unavailable_message,
};
use greego::providers::google;
use greego::providers::openai::{self, OpenAiContent};

fn msg(role: Role, parts: Vec<ContentPart>) -> Message {
    Message { role, content: parts }
}

#[test]
fn new_text_makes_one_text_part() {
    let m = Message::new_text(Role::User, "Hello");
    assert_eq!(m.role, Role::User);
    assert_eq!(m.content, vec![ContentPart::Text("Hello".to_string())]);
}

#[test]
fn parse_data_uri_splits_media_type_and_data() {
    assert_eq!(
        anthropic::parse_data_uri("data:image/png;base64,AAAA"),
        Some(("image/png".to_string(), "AAAA".to_string()))
    );
    assert_eq!(
        anthropic::parse_data_uri("data:a;base64,x;base64,y"),
        Some(("a".to_string(), "x;base64,y".to_string()))
    );
    assert_eq!(anthropic::parse_data_uri("http://example.com/a.png"), None);
    assert_eq!(anthropic::parse_data_uri("data:image/png,AAAA"), None);
}

#[test]
fn anthropic_conversion() {
    let m = msg(
        Role::Tool,
        vec![
            ContentPart::Text("hi".into()),
            ContentPart::ImageUrl("data:image/jpeg;base64,QUJD".into()),
            ContentPart::ImageUrl("https://x/y.png".into()),
        ],
    );
    let a = anthropic::convert_message(&m);
    assert_eq!(a.role, "user");
    assert!(matches!(&a.content[0], AnthropicContent::Text { text } if text == "hi"));
    match &a.content[1] {
        AnthropicContent::Image { source } => {
            assert_eq!(source.source_type, "base64");
            assert_eq!(source.media_type, "image/jpeg");
            assert_eq!(source.data, "QUJD");
        }
        _ => panic!("expected an image block"),
    }
    assert!(
        matches!(&a.content[2], AnthropicContent::Text { text } if text == "[Image: https://x/y.png]")
    );
    assert_eq!(anthropic::convert_message(&msg(Role::Assistant, vec![])).role, "assistant");
    assert_eq!(anthropic::convert_message(&msg(Role::System, vec![])).role, "user");
}

#[test]
fn anthropic_request_messages_end_with_user_input() {
    let input = LlmInput {
        system_prompt: Some("sys".into()),
        history: vec![Message::new_text(Role::Assistant, "earlier")],
        user_input: Message::new_text(Role::User, "now"),
    };
    let ms = anthropic::request_messages(&input);
    assert_eq!(ms.len(), 2);
    assert_eq!(ms[0].role, "assistant");
    assert_eq!(ms[1].role, "user");
}

#[test]
fn google_conversion() {
    let m = msg(
        Role::Assistant,
        vec![
            ContentPart::Text("t".into()),
            ContentPart::ImageUrl("data:image/png;base64,AAAA".into()),
            ContentPart::ImageUrl("data:image/png;base64,AA;base64,BB".into()),
            ContentPart::ImageUrl("data:text/plain;base64,AAAA".into()),
        ],
    );
    let g = google::convert_message(&m);
    assert_eq!(g.role, "model");
    assert_eq!(g.parts[0].text.as_deref(), Some("t"));
    let inline = g.parts[1].inline_data.as_ref().unwrap();
    assert_eq!(inline.mime_type, "image/png");
    assert_eq!(inline.data, "AAAA");
    assert!(g.parts[1].text.is_none());
    assert_eq!(
        g.parts[2].text.as_deref(),
        Some("[Image: data:image/png;base64,AA;base64,BB]")
    );
    assert_eq!(
        g.parts[3].text.as_deref(),
        Some("[Image: data:text/plain;base64,AAAA]")
    );
    assert_eq!(google::convert_message(&msg(Role::Tool, vec![])).role, "function");
    assert_eq!(google::convert_message(&msg(Role::System, vec![])).role, "user");
}

#[test]
fn google_system_instruction_is_one_user_text() {
    let input = LlmInput {
        system_prompt: Some("be brief".into()),
        history: vec![],
        user_input: Message::new_text(Role::User, "q"),
    };
    let s = google::system_instruction(&input).unwrap();
    assert_eq!(s.role, "user");
    assert_eq!(s.parts.len(), 1);
    assert_eq!(s.parts[0].text.as_deref(), Some("be brief"));
    assert_eq!(google::request_contents(&input).len(), 1);
    let none = LlmInput { system_prompt: None, ..input };
    assert!(google::system_instruction(&none).is_none());
}

#[test]
fn openai_conversion() {
    let simple = openai::convert_message(&Message::new_text(Role::Tool, "x"));
    assert_eq!(simple.role, "tool");
    assert!(matches!(&simple.content, OpenAiContent::Text(t) if t == "x"));
    let multi = openai::convert_message(&msg(
        Role::User,
        vec![ContentPart::Text("a".into()), ContentPart::ImageUrl("u".into())],
    ));
    match &multi.content {
        OpenAiContent::Parts(ps) => assert_eq!(
            ps,
            &vec![ContentPart::Text("a".into()), ContentPart::ImageUrl("u".into())]
        ),
        _ => panic!("expected parts"),
    }
    let image_only = openai::convert_message(&msg(Role::User, vec![ContentPart::ImageUrl("u".into())]));
    assert!(matches!(&image_only.content, OpenAiContent::Parts(ps) if ps.len() == 1));
}

#[test]
fn openai_request_messages_put_system_first() {
    let input = LlmInput {
        system_prompt: Some("You are a helpful assistant.".into()),
        history: vec![Message::new_text(Role::User, "a"), Message::new_text(Role::Assistant, "b")],
        user_input: Message::new_text(Role::User, "c"),
    };
    let ms = openai::request_messages(&input);
    let roles: Vec<&str> = ms.iter().map(|m| m.role.as_str()).collect();
    assert_eq!(roles, vec!["system", "user", "assistant", "user"]);
    assert!(matches!(&ms[0].content, OpenAiContent::Text(t) if t == "You are a helpful assistant."));
    assert!(matches!(&ms[3].content, OpenAiContent::Text(t) if t == "c"));
}

#[test]
fn apple_prompt_joins_text_parts() {
    let m = msg(
        Role::User,
        vec![
            ContentPart::Text("Tell".into()),
            ContentPart::ImageUrl("u".into()),
            ContentPart::Text("me".into()),
        ],
    );
    assert_eq!(apple_prompt_text(&m), "Tell me");
    assert_eq!(apple_prompt_text(&msg(Role::User, vec![])), "");
}

#[test]
fn openai_request_fields() {
    let input = LlmInput {
        system_prompt: Some("sys".into()),
        history: vec![],
        user_input: Message::new_text(Role::User, "hi"),
    };
    let r = openai::openai_request("gpt-4o", &input, true);
    assert_eq!(r.model, "gpt-4o");
    assert!(r.stream);
    assert_eq!(r.messages.len(), 2);
    assert_eq!(r.messages[0].role, "system");
    assert!(matches!(&r.messages[1].content, OpenAiContent::Text(t) if t == "hi"));
    assert!(!openai::openai_request("m", &input, false).stream);
}

#[test]
fn anthropic_request_fields() {
    let input = LlmInput {
        system_prompt: Some("sys".into()),
        history: vec![Message::new_text(Role::Assistant, "before")],
        user_input: Message::new_text(Role::User, "hi"),
    };
    let r = anthropic::anthropic_request("sonnet-model", &input, false);
    assert_eq!(r.model, "sonnet-model");
    assert_eq!(r.max_tokens, 4096);
    assert_eq!(r.system.as_deref(), Some("sys"));
    assert!(!r.stream);
    assert_eq!(r.messages.len(), 2);
    assert_eq!(r.messages[0].role, "assistant");
    assert_eq!(r.messages[1].role, "user");
    let no_system = LlmInput { system_prompt: None, history: vec![], user_input: Message::new_text(Role::User, "x") };
    let s = anthropic::anthropic_request("m", &no_system, true);
    assert!(s.system.is_none());
    assert!(s.stream);
}

#[test]
fn apple_availability_messages() {
    assert!(apple_available(1));
    assert!(!apple_available(0));
    assert_eq!(
        apple_unavailable_message(0, None),
        "Apple Intelligence not available: Unknown availability error (Code: 0)"
    );
    assert_eq!(
        apple_unavailable_message(-12, Some("device not eligible".into())),
        "Apple Intelligence not available: device not eligible (Code: -12)"
    );
    assert_eq!(apple_stream_unavailable_message(305), "Apple Intelligence not available. Code: 305");
}
