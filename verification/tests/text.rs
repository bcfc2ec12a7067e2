use greego::text::{ends_with, split_once, trim_end_matches, trimmed};
use greego::urls::{
    bearer, chat_completions_url, google_batch_embed_url, google_generate_url, lmstudio_models_url,
    models_url, normalize_base_url, ollama_tags_url,
};
use greego::version::{apple_model_supported, decimal_i32, decimal_u32, parse_u32, parse_version};

#[test]
fn trimming_and_suffixes() {
    assert_eq!(trimmed("\u{a0} x y \n"), "x y");
    assert_eq!(trim_end_matches("a/v1/v1", "/v1"), "a");
    assert_eq!(trim_end_matches("abc", ""), "abc");
    assert!(ends_with("http://h/v1", "/v1"));
    assert!(!ends_with("v1", "/v1"));
    let (a, b) = split_once("k:v:w", ':').unwrap();
    assert_eq!((a.as_str(), b.as_str()), ("k", "v:w"));
    assert!(split_once("kv", ':').is_none());
}

#[test]
fn provider_urls() {
    assert_eq!(normalize_base_url("http://localhost:1234/v1///"), "http://localhost:1234/v1");
    assert_eq!(
        chat_completions_url("https://api.openai.com/v1"),
        "https://api.openai.com/v1/chat/completions"
    );
    assert_eq!(models_url("https://api.openai.com/v1"), "https://api.openai.com/v1/models");
    assert_eq!(ollama_tags_url("http://localhost:11434/v1"), "http://localhost:11434/api/tags");
    assert_eq!(ollama_tags_url("http://localhost:11434/"), "http://localhost:11434/api/tags");
    assert_eq!(
        lmstudio_models_url("http://192.168.0.130:1234/v1/"),
        "http://192.168.0.130:1234/api/v0/models"
    );
    assert_eq!(
        google_generate_url("gemini-pro", "K"),
        "https://generativelanguage.googleapis.com/v1beta/models/gemini-pro:generateContent?key=K"
    );
    assert_eq!(
        google_batch_embed_url("models/text-embedding-004", "K"),
        "https://generativelanguage.googleapis.com/v1beta/models/text-embedding-004:batchEmbedContents?key=K"
    );
    assert_eq!(bearer("sk"), "Bearer sk");
}

#[test]
fn numbers_and_versions() {
    assert_eq!(parse_u32("42"), Some(42));
    assert_eq!(parse_u32("+7"), Some(7));
    assert_eq!(parse_u32("4294967295"), Some(u32::MAX));
    assert_eq!(parse_u32("4294967296"), None);
    assert_eq!(parse_u32("-1"), None);
    assert_eq!(parse_u32("+"), None);
    assert_eq!(parse_u32(""), None);
    assert_eq!(parse_u32("1a"), None);
    for s in ["0", "007", "123456", "+99", "x", " 1"] {
        assert_eq!(parse_u32(s), s.parse::<u32>().ok(), "{}", s);
    }
    assert_eq!(parse_version("26.1.2"), Some((26, 1)));
    assert_eq!(parse_version("15"), Some((15, 0)));
    assert_eq!(parse_version("15."), None);
    assert_eq!(parse_version("a.1"), None);
    assert!(apple_model_supported("26.0"));
    assert!(!apple_model_supported("15.6.1"));
    assert!(!apple_model_supported("beta"));
}


#[test]
fn decimal_printing() {
    assert_eq!(decimal_u32(0), "0");
    assert_eq!(decimal_u32(7), "7");
    assert_eq!(decimal_u32(1020), "1020");
    assert_eq!(decimal_u32(u32::MAX), "4294967295");
    assert_eq!(decimal_i32(-5), "-5");
    assert_eq!(decimal_i32(i32::MIN), "-2147483648");
    assert_eq!(decimal_i32(i32::MAX), "2147483647");
}

#[test]
fn printed_versions_parse_back() {
    for (a, b) in [(0u32, 0u32), (26, 1), (15, 10), (u32::MAX, 3), (7, u32::MAX)] {
        let joined = format!("{}.{}", decimal_u32(a), decimal_u32(b));
        assert_eq!(parse_version(&joined), Some((a, b)));
        assert_eq!(parse_version(&decimal_u32(a)), Some((a, 0)));
    }
}
