use tiny_agent_trainer::dataset::{WGSLDataset, WGSLExample};
use tiny_agent_trainer::WGSLTokenizer;

#[test]
fn test_save_load_roundtrip_preserves_vocabulary() {
    let mut tokenizer = WGSLTokenizer::new(256, false);
    tokenizer.fit(
        &vec![
            "fn main() -> vec4<f32> { return vec4<f32>(1.0, 0.0, 0.0, 1.0); }".to_string(),
            "@compute @workgroup_size(8, 8, 1)".to_string(),
        ],
        1,
    );

    let doc = tokenizer.to_document();
    let restored = WGSLTokenizer::from_document(doc.as_str()).expect("saved document must parse");

    assert_eq!(restored.vocab_size(), tokenizer.vocab_size());
    assert_eq!(restored.max_length, tokenizer.max_length);
    assert_eq!(restored.lowercase, tokenizer.lowercase);
    assert_eq!(restored.vocab, tokenizer.vocab);

    // every string-to-id and id-to-string mapping survives
    let tokens = tokenizer.tokenize("fn main ( ) -> vec4<f32>");
    assert_eq!(restored.encode(&tokens), tokenizer.encode(&tokens));
    let ids: Vec<usize> = (0..tokenizer.vocab_size()).collect();
    assert_eq!(restored.decode(&ids), tokenizer.decode(&ids));
}

#[test]
fn test_roundtrip_with_awkward_tokens() {
    // a type-specifier token may contain a space; the format must keep it
    let mut tokenizer = WGSLTokenizer::new(64, false);
    tokenizer.fit(&vec!["var p: ptr<storage, read> = q;".to_string()], 1);
    assert!(tokenizer.vocab.contains(&"ptr<storage, read>".to_string()));

    let doc = tokenizer.to_document();
    let restored = WGSLTokenizer::from_document(doc.as_str()).unwrap();
    assert_eq!(restored.vocab, tokenizer.vocab);
}

#[test]
fn test_malformed_documents_are_rejected() {
    assert!(WGSLTokenizer::from_document("").is_none());
    assert!(WGSLTokenizer::from_document("maxlen ").is_none());
    assert!(WGSLTokenizer::from_document("maxlen 12\nlower 2\ncount 0\n").is_none());
    assert!(WGSLTokenizer::from_document("maxlen 12\nlower 1\ncount 1\n").is_none());
    // trailing garbage after the advertised entries
    assert!(
        WGSLTokenizer::from_document("maxlen 12\nlower 0\ncount 1\n2 fn\nextra").is_none()
    );
}

#[test]
fn test_empty_vocabulary_document() {
    let doc = "maxlen 9\nlower 1\ncount 0\n";
    let restored = WGSLTokenizer::from_document(doc).unwrap();
    assert_eq!(restored.vocab_size(), 0);
    assert_eq!(restored.max_length, 9);
    assert!(restored.lowercase);
}

#[test]
fn test_dataset_new_len_split() {
    let mut data = WGSLDataset::new();
    assert!(data.is_empty());
    for i in 0..10 {
        data.examples.push(WGSLExample {
            natural_language: format!("prompt {}", i),
            wgsl_code: format!("code {}", i),
        });
    }
    assert_eq!(data.len(), 10);
    let (train, val, test) = data.split_at(8, 1);
    assert_eq!(train.len(), 8);
    assert_eq!(val.len(), 1);
    assert_eq!(test.len(), 1);
    assert_eq!(train.examples[0].natural_language, "prompt 0");
    assert_eq!(val.examples[0].natural_language, "prompt 8");
    assert_eq!(test.examples[0].natural_language, "prompt 9");
}
