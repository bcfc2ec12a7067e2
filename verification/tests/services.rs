use greego::registry::ServiceRegistry;
use greego::responses::{
    anthropic_output, apple_available_models, google_output, merge_model_lists, openai_output,
};
use greego::llm::{ContentPart, TokenUsage};

#[test]
fn registry_read_after_write() {
    let mut reg: ServiceRegistry<u32> = ServiceRegistry::new();
    reg.add_service("openai".to_string(), 1);
    reg.add_service("ollama".to_string(), 2);
    assert_eq!(*reg.lookup("openai").unwrap(), 1);
    reg.add_service("openai".to_string(), 3);
    assert_eq!(*reg.lookup("openai").unwrap(), 3);
    let mut names = reg.list_services();
    names.sort();
    assert_eq!(names, vec!["ollama", "openai"]);
    reg.delete_service("openai");
    assert_eq!(reg.lookup("openai").unwrap_err(), "Service not found");
    assert_eq!(*reg.lookup("ollama").unwrap(), 2);
    reg.delete_service("missing");
    assert_eq!(reg.list_services(), vec!["ollama"]);
}

#[test]
fn model_lists_are_qualified_and_sorted() {
    let lists = vec![
        ("openai".to_string(), vec!["gpt-4o".to_string(), "gpt-3.5".to_string()]),
        ("apple".to_string(), vec!["Apple Foundation Model".to_string()]),
        ("empty".to_string(), vec![]),
    ];
    assert_eq!(
        merge_model_lists(&lists),
        vec!["apple/Apple Foundation Model", "openai/gpt-3.5", "openai/gpt-4o"]
    );
}

#[test]
fn provider_outputs() {
    let a = anthropic_output(vec!["x".into(), "y".into()], 3, 4);
    assert_eq!(a.content, vec![ContentPart::Text("x".into()), ContentPart::Text("y".into())]);
    let u = a.usage.unwrap();
    assert_eq!((u.prompt_tokens, u.completion_tokens, u.total_tokens), (3, 4, 7));

    let usage = TokenUsage { prompt_tokens: 1, completion_tokens: 2, total_tokens: 3 };
    let g = google_output(Some(vec![Some("p".into()), None, Some("q".into())]), Some(usage));
    assert_eq!(g.content, vec![ContentPart::Text("p".into()), ContentPart::Text("q".into())]);
    assert_eq!(g.usage.unwrap().total_tokens, 3);
    assert!(google_output(None, None).content.is_empty());

    let raw: serde_json::Value = serde_json::from_str(r#"{"id": "x"}"#).unwrap();
    let o = openai_output(Some(Some("hi".into())), None, raw.clone());
    assert_eq!(o.content, vec![ContentPart::Text("hi".into())]);
    assert_eq!(o.raw, Some(raw.clone()));
    assert!(openai_output(Some(None), None, raw.clone()).content.is_empty());
    assert!(openai_output(None, None, raw).content.is_empty());

    assert_eq!(apple_available_models(1), vec!["Apple Foundation Model"]);
    assert!(apple_available_models(0).is_empty());
}
