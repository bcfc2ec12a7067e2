use greego::commands::{
    answer_of, chat_placement, ChatPlacement,
    chat_input, chat_output, parse_parent_id, parse_provider, parse_record_id, registration_key,
    relation_for, required_model, split_model_id, ChatRelation, LlmProvider,
};
use greego::llm::{ContentPart, Role};

#[test]
fn record_ids_split_at_first_colon() {
    let r = parse_record_id("canvas:abc:def").unwrap();
    assert_eq!(r.table, "canvas");
    assert_eq!(r.id, "abc:def");
    assert_eq!(
        parse_record_id("canvas").unwrap_err(),
        "Invalid ID format. Expected 'table:id'"
    );
    assert_eq!(
        parse_parent_id("node").unwrap_err(),
        "Invalid Parent ID format. Expected 'table:id'"
    );
    let p = parse_parent_id("node:1").unwrap();
    assert_eq!((p.table.as_str(), p.id.as_str()), ("node", "1"));
}

#[test]
fn model_ids_split_at_first_slash() {
    assert_eq!(
        split_model_id("ollama/gemma3:4b"),
        ("ollama".to_string(), "gemma3:4b".to_string())
    );
    assert_eq!(split_model_id("apple"), ("apple".to_string(), String::new()));
    assert_eq!(split_model_id("a/b/c"), ("a".to_string(), "b/c".to_string()));
}

#[test]
fn relation_choice() {
    assert_eq!(relation_for(Some("sequence")), ChatRelation::Sequence);
    assert_eq!(relation_for(Some("derive")), ChatRelation::Derive);
    assert_eq!(relation_for(Some("other")), ChatRelation::Derive);
    assert_eq!(relation_for(None), ChatRelation::Derive);
}

#[test]
fn chat_request_and_output() {
    let input = chat_input("What is Rust?");
    assert_eq!(input.system_prompt.as_deref(), Some("You are a helpful assistant."));
    assert!(input.history.is_empty());
    assert_eq!(input.user_input.role, Role::User);
    assert_eq!(input.user_input.content, vec![ContentPart::Text("What is Rust?".into())]);
    let out = chat_output("Answer".to_string());
    assert_eq!(out.content, vec![ContentPart::Text("Answer".into())]);
    assert!(out.usage.is_none() && out.raw.is_none());
}

#[test]
fn providers_and_registration() {
    assert_eq!(parse_provider("lmstudio").unwrap(), LlmProvider::LMStudio);
    assert_eq!(parse_provider("ollama").unwrap_err(), "Unknown provider: ollama");
    assert_eq!(required_model(LlmProvider::Apple, None).unwrap(), "Apple Foundation Model");
    assert_eq!(
        required_model(LlmProvider::OpenAI, None).unwrap_err(),
        "Missing model in config"
    );
    assert_eq!(required_model(LlmProvider::Google, Some("g".into())).unwrap(), "g");
    assert_eq!(registration_key(LlmProvider::Apple, "m", "n"), "apple");
    assert_eq!(registration_key(LlmProvider::Custom, "m", "n"), "n");
    assert_eq!(registration_key(LlmProvider::Anthropic, "m", "n"), "m");
}

#[test]
fn chat_placement_by_parent_and_relation() {
    assert!(matches!(chat_placement(None, Some("sequence")), Ok(ChatPlacement::Root)));
    match chat_placement(Some("node:abc"), Some("sequence")) {
        Ok(ChatPlacement::Sequenced(r)) => {
            assert_eq!(r.table, "node");
            assert_eq!(r.id, "abc");
        }
        other => panic!("unexpected {:?}", other),
    }
    match chat_placement(Some("node:a:b"), None) {
        Ok(ChatPlacement::Derived(r)) => {
            assert_eq!(r.table, "node");
            assert_eq!(r.id, "a:b");
        }
        other => panic!("unexpected {:?}", other),
    }
    assert!(matches!(chat_placement(Some("node:x"), Some("other")), Ok(ChatPlacement::Derived(_))));
    match chat_placement(Some("nocolon"), Some("sequence")) {
        Err(e) => assert_eq!(e, "Invalid Parent ID format. Expected 'table:id'"),
        other => panic!("unexpected {:?}", other),
    }
}

#[test]
fn answer_joins_received_pieces() {
    let pieces = vec![Ok("Hel".to_string()), Err("lost".to_string()), Ok("lo".to_string())];
    let out = answer_of(&pieces);
    assert_eq!(out.content, vec![ContentPart::Text("Hello".into())]);
    assert!(out.usage.is_none());
    assert!(out.raw.is_none());
    let empty = answer_of(&vec![]);
    assert_eq!(empty.content, vec![ContentPart::Text(String::new())]);
}
