use tiny_agent_trainer::tokenizer::{SpecialToken, WGSLTokenizer};

#[test]
fn test_special_tokens() {
    assert_eq!(SpecialToken::Padding.as_str(), "<pad>");
    assert_eq!(SpecialToken::Unknown.token_id(), 1);
}

#[test]
fn test_tokenizer_creation() {
    let tokenizer = WGSLTokenizer::new(512, false);
    assert_eq!(tokenizer.vocab_size(), 4);
    assert_eq!(tokenizer.max_length, 512);
}

#[test]
fn test_wgsl_tokenization() {
    let tokenizer = WGSLTokenizer::new(512, false);
    let code = "fn main() -> vec4<f32> { return vec4<f32>(1.0, 0.0, 0.0, 1.0); }";
    let tokens = tokenizer.tokenize(code);

    assert!(tokens.contains(&"fn".to_string()));
    assert!(tokens.contains(&"main".to_string()));
    assert!(tokens.contains(&"vec4<f32>".to_string()));
    assert!(tokens.contains(&"return".to_string()));
    assert!(tokens.contains(&"1.0".to_string()));
}

#[test]
fn test_attribute_tokenization() {
    let tokenizer = WGSLTokenizer::new(512, false);
    let code = "@compute @workgroup_size(8, 8, 1)";
    let tokens = tokenizer.tokenize(code);

    assert!(tokens.contains(&"@compute".to_string()));
    assert!(tokens.contains(&"@workgroup_size".to_string()));
}

#[test]
fn test_fit_and_encode() {
    let mut tokenizer = WGSLTokenizer::new(512, false);
    let texts = vec!["fn test() { }".to_string(), "var x: f32 = 1.0;".to_string()];

    tokenizer.fit(&texts, 1);

    let tokens = tokenizer.tokenize("fn test");
    let ids = tokenizer.encode(&tokens);

    assert!(ids.len() > 0);
    assert_ne!(ids[0], SpecialToken::Unknown.token_id());

    let decoded = tokenizer.decode(&ids);
    assert_eq!(decoded, tokens);
}

#[test]
fn test_encode_decode_text() {
    let mut tokenizer = WGSLTokenizer::new(512, false);
    let text = "fn main() {}";

    tokenizer.fit(&vec![text.to_string()], 1);

    let ids = tokenizer.encode_text(text);
    let decoded = tokenizer.decode_to_text(&ids);

    assert!(decoded.contains("fn"));
    assert!(decoded.contains("main"));
}

#[test]
fn test_keyword_needs_boundary() {
    let tokenizer = WGSLTokenizer::new(512, false);
    let tokens = tokenizer.tokenize("fnx constant for");
    assert_eq!(tokens, vec!["fnx", "constant", "for"]);
}

#[test]
fn test_number_forms() {
    let tokenizer = WGSLTokenizer::new(512, false);
    assert_eq!(tokenizer.tokenize("0x1F"), vec!["0x1F"]);
    assert_eq!(tokenizer.tokenize("1.0e-5f"), vec!["1.0e-5f"]);
    assert_eq!(tokenizer.tokenize("42u 7f 3."), vec!["42u", "7f", "3."]);
    assert_eq!(tokenizer.tokenize("0xg"), vec!["0", "xg"]);
}

#[test]
fn test_operator_runs_are_single_tokens() {
    let tokenizer = WGSLTokenizer::new(512, false);
    assert_eq!(tokenizer.tokenize("a->b"), vec!["a", "->", "b"]);
    assert_eq!(tokenizer.tokenize("x <<= y"), vec!["x", "<<=", "y"]);
}

#[test]
fn test_unmatched_characters_are_skipped() {
    let tokenizer = WGSLTokenizer::new(512, false);
    let tokens = tokenizer.tokenize("#fn $main");
    assert_eq!(tokens, vec!["fn", "main"]);
}

#[test]
fn test_type_specifiers_stay_whole() {
    let tokenizer = WGSLTokenizer::new(512, false);
    assert_eq!(
        tokenizer.tokenize("texture_2d_array<f32>"),
        vec!["texture_2d_array<f32>"]
    );
    assert_eq!(
        tokenizer.tokenize("sampler_comparison<x>"),
        vec!["sampler_comparison<x>"]
    );
    // the angle-bracket argument ends at the first closing bracket
    assert_eq!(
        tokenizer.tokenize("array<vec4<f32>>"),
        vec!["array<vec4<f32>", ">"]
    );
}

#[test]
fn test_empty_input_yields_no_tokens() {
    let tokenizer = WGSLTokenizer::new(512, false);
    assert!(tokenizer.tokenize("").is_empty());
    assert!(tokenizer.tokenize("   \t\n").is_empty());
}

#[test]
fn test_lowercase_flag_lowers_input() {
    let tokenizer = WGSLTokenizer::new(512, true);
    let tokens = tokenizer.tokenize("FN MAIN");
    assert_eq!(tokens, vec!["fn", "main"]);
}

#[test]
fn test_unseen_token_encodes_to_unknown() {
    let mut tokenizer = WGSLTokenizer::new(512, false);
    tokenizer.fit(&vec!["fn test".to_string()], 1);
    let ids = tokenizer.encode(&vec!["nowhere".to_string()]);
    assert_eq!(ids, vec![SpecialToken::Unknown.token_id()]);
}

#[test]
fn test_min_frequency_floor() {
    let mut tokenizer = WGSLTokenizer::new(512, false);
    // "fn" appears twice, "rare" once
    tokenizer.fit(&vec!["fn fn rare".to_string()], 2);
    let ids = tokenizer.encode(&vec!["fn".to_string(), "rare".to_string()]);
    assert_ne!(ids[0], SpecialToken::Unknown.token_id());
    assert_eq!(ids[1], SpecialToken::Unknown.token_id());
}

#[test]
fn test_fit_keeps_earlier_ids() {
    let mut tokenizer = WGSLTokenizer::new(512, false);
    tokenizer.fit(&vec!["fn".to_string()], 1);
    let first = tokenizer.encode(&vec!["fn".to_string()])[0];
    tokenizer.fit(&vec!["var".to_string()], 1);
    assert_eq!(tokenizer.encode(&vec!["fn".to_string()])[0], first);
    assert!(tokenizer.vocab_size() == 6);
}

#[test]
fn test_decode_drops_unmapped_ids() {
    let tokenizer = WGSLTokenizer::new(512, false);
    let decoded = tokenizer.decode(&vec![0, 99, 3]);
    assert_eq!(decoded, vec!["<pad>", "<eos>"]);
}
