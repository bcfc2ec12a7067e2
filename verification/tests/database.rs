use greego::db::{
    batches, collect_text, default_canvas_fields, embedding_plan, embedding_plan_for, is_blank, needs_default_canvas,
    store_node_query, ChatNodeData, ChunkSource, DatabaseConfig, DatabaseConnectionConfig,
    NodeRelation,
};
use greego::llm::{ContentPart, LlmInput, LlmOutput, Message, Role};

#[test]
fn store_node_query_shapes() {
    let (plain, idx) = store_node_query(None);
    assert_eq!(idx, 3);
    assert_eq!(
        plain,
        "\n        let $node = (CREATE node CONTENT $node_data);\n        let $node_id = $node[0].id;\n        RELATE $canvas_id -> holds -> $node_id;\n        \n        RETURN $node[0];\n    "
    );
    let (derived, idx) = store_node_query(Some(NodeRelation::Derives));
    assert_eq!(idx, 4);
    assert!(derived.contains("RELATE $from -> derives -> $node_id SET canvas = $canvas_id;"));
    let (seq, _) = store_node_query(Some(NodeRelation::Sequences));
    assert!(seq.contains("RELATE $from -> sequences -> $node_id"));
}

#[test]
fn embedding_plan_picks_non_blank_sides() {
    let data = ChatNodeData {
        model_id: None,
        input: LlmInput {
            system_prompt: None,
            history: vec![],
            user_input: Message {
                role: Role::User,
                content: vec![ContentPart::Text("Hello".into()), ContentPart::ImageUrl("u".into()), ContentPart::Text("world".into())],
            },
        },
        output: Some(LlmOutput { content: vec![ContentPart::Text("  ".into())], usage: None, raw: None }),
    };
    let plan = embedding_plan(&data);
    assert_eq!(plan, vec![(ChunkSource::Question, "Hello\nworld\n".to_string())]);
    assert_eq!(collect_text(&vec![ContentPart::Text("a".into())]), "a\n");
    assert!(is_blank(" \n\t"));
    assert!(!is_blank(" x "));
    let answered = ChatNodeData {
        output: Some(LlmOutput { content: vec![ContentPart::Text("Yes".into())], usage: None, raw: None }),
        ..data
    };
    assert_eq!(embedding_plan(&answered).len(), 2);
    assert_eq!(embedding_plan(&answered)[1], (ChunkSource::Answer, "Yes\n".to_string()));
}

#[test]
fn default_canvas_decisions() {
    assert!(needs_default_canvas(false, true));
    assert!(!needs_default_canvas(false, false));
    assert!(!needs_default_canvas(true, true));
    let config = DatabaseConfig {
        connection: DatabaseConnectionConfig::InMemory,
        default_first_canvas_title: "My Default Canvas".to_string(),
    };
    let (title, embedding) = default_canvas_fields(&config);
    assert_eq!(title, "My Default Canvas");
    assert_eq!(embedding, Some("local".to_string()));
}

#[test]
fn batches_cover_documents_in_order() {
    let docs: Vec<String> = (0..250).map(|i| format!("d{}", i)).collect();
    let b = batches(&docs, 100);
    assert_eq!(b.iter().map(|x| x.len()).collect::<Vec<_>>(), vec![100, 100, 50]);
    assert_eq!(b.concat(), docs);
    assert!(batches(&vec![], 100).is_empty());
    assert_eq!(batches(&docs[..100].to_vec(), 100).len(), 1);
}

#[test]
fn embedding_needs_an_id_and_a_service() {
    let data = ChatNodeData {
        model_id: None,
        input: LlmInput {
            system_prompt: None,
            history: vec![],
            user_input: Message { role: Role::User, content: vec![ContentPart::Text("Question?".into())] },
        },
        output: Some(LlmOutput { content: vec![ContentPart::Text("Answer.".into())], usage: None, raw: None }),
    };
    assert!(embedding_plan_for(&data, None, true).is_empty());
    assert!(embedding_plan_for(&data, Some("emb"), false).is_empty());
    assert!(embedding_plan_for(&data, None, false).is_empty());
    assert_eq!(
        embedding_plan_for(&data, Some("emb"), true),
        vec![
            (ChunkSource::Question, "Question?\n".to_string()),
            (ChunkSource::Answer, "Answer.\n".to_string()),
        ]
    );
}
