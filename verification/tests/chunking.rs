use greego::chunking::{check_embedding_count, group_sentences, sentences_to_embed, split_sentences};
use simsimd::SpatialSimilarity;
use std::collections::HashMap;

fn cosine_similarity(a: &[f32], b: &[f32]) -> f32 {
    match f32::cosine(a, b) {
        Some(distance) => 1.0 - distance as f32,
        None => 0.0,
    }
}

/// Semantic chunking over the library's decisions, with embeddings looked up
/// by sentence in place of an embedding service.
fn chunk_with(
    text: &str,
    embeddings: &HashMap<String, Vec<f32>>,
    threshold: f32,
) -> Result<Vec<String>, String> {
    let sentences = match sentences_to_embed(text) {
        Some(s) => s,
        None => return Ok(vec![]),
    };
    let vectors: Vec<Vec<f32>> = sentences
        .iter()
        .filter_map(|s| embeddings.get(s).cloned())
        .collect();
    check_embedding_count(sentences.len(), vectors.len())?;
    let keep: Vec<bool> = (1..sentences.len())
        .map(|i| cosine_similarity(&vectors[i - 1], &vectors[i]) >= threshold)
        .collect();
    Ok(group_sentences(&sentences, &keep))
}

#[test]
fn test_split_sentences() {
    let text = "Hello world. This is a test! Is it working?";
    let sentences = split_sentences(text);
    assert_eq!(
        sentences,
        vec!["Hello world.", "This is a test!", "Is it working?"]
    );
}

#[test]
fn test_split_sentences_no_punctuation() {
    let text = "Hello world";
    let sentences = split_sentences(text);
    assert_eq!(sentences, vec!["Hello world"]);
}

#[test]
fn test_chunking() {
    let mut embeddings = HashMap::new();
    embeddings.insert("Sentence A1.".to_string(), vec![1.0, 0.0, 0.0]);
    embeddings.insert("Sentence A2.".to_string(), vec![0.99, 0.05, 0.0]);
    embeddings.insert("Sentence B1.".to_string(), vec![0.0, 1.0, 0.0]);
    embeddings.insert("Sentence B2.".to_string(), vec![0.0, 0.95, 0.05]);

    let text = "Sentence A1. Sentence A2. Sentence B1. Sentence B2.";
    let chunks = chunk_with(text, &embeddings, 0.9).unwrap();

    assert_eq!(chunks.len(), 2);
    assert_eq!(chunks[0], "Sentence A1. Sentence A2.");
    assert_eq!(chunks[1], "Sentence B1. Sentence B2.");
}

#[test]
fn split_keeps_text_after_last_terminator() {
    assert_eq!(split_sentences("One. Two and more"), vec!["One.", "Two and more"]);
}

#[test]
fn split_needs_space_or_end_after_terminator() {
    assert_eq!(split_sentences("Version 1.5 is out."), vec!["Version 1.5 is out."]);
    assert_eq!(split_sentences("a.b. c"), vec!["a.b.", "c"]);
}

#[test]
fn split_of_blank_text_is_empty() {
    assert!(split_sentences("").is_empty());
    assert!(split_sentences("   \n\t ").is_empty());
}

#[test]
fn split_trims_leading_whitespace() {
    assert_eq!(split_sentences("   Hi!   There?  "), vec!["Hi!", "There?"]);
}

#[test]
fn sentence_does_not_cross_line_breaks() {
    // The text before the line break never ends a sentence and is dropped.
    assert_eq!(split_sentences("abc\n  def. ghi"), vec!["def.", "ghi"]);
    assert_eq!(split_sentences("One.\nTwo."), vec!["One.", "Two."]);
}

#[test]
fn split_handles_unicode_whitespace() {
    assert_eq!(split_sentences("Un.\u{3000}Deux."), vec!["Un.", "Deux."]);
}

#[test]
fn grouping_keeps_text() {
    let sentences: Vec<String> = vec!["a.".into(), "b.".into(), "c.".into(), "d.".into()];
    let chunks = group_sentences(&sentences, &vec![true, false, true]);
    assert_eq!(chunks, vec!["a. b.", "c. d."]);
    assert_eq!(chunks.join(" "), sentences.join(" "));
    let all = group_sentences(&sentences, &vec![true, true, true]);
    assert_eq!(all, vec!["a. b. c. d."]);
    let none = group_sentences(&sentences, &vec![false, false, false]);
    assert_eq!(none, sentences);
    assert!(group_sentences(&vec![], &vec![]).is_empty());
}

#[test]
fn chunking_without_sentences_asks_for_nothing() {
    assert!(sentences_to_embed("   ").is_none());
    assert_eq!(chunk_with("", &HashMap::new(), 0.5), Ok(vec![]));
}

#[test]
fn chunking_refuses_missing_embeddings() {
    let mut embeddings = HashMap::new();
    embeddings.insert("One.".to_string(), vec![1.0, 0.0]);
    assert_eq!(
        chunk_with("One. Two.", &embeddings, 0.5),
        Err("Mismatch between sentences count and embeddings count".to_string())
    );
    assert_eq!(check_embedding_count(2, 2), Ok(()));
}
