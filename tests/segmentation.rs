use parrotnlp::{CRFModel, FastCRFSequenceTagger, SequenceTagger, TokenType, VietnameseTokenizer,
    VietnameseWordSegmenter};

#[test]
fn regex_tokenize_test_basic_tokenization() {
    let tokenizer = VietnameseTokenizer::new();
    let text = "Xin chào, tôi là Minh.";
    let tokens = tokenizer.tokenize(text);
    assert!(!tokens.is_empty());
    println!("Tokens: {:?}", tokens);
}

#[test]
fn regex_tokenize_test_url_tokenization() {
    let tokenizer = VietnameseTokenizer::new();
    let text = "Visit https://example.com for more info.";
    let tokens = tokenizer.tokenize_with_tags(text, true);
    let has_url = tokens.iter().any(|t| t.token_type == TokenType::Url);
    assert!(has_url, "Should detect URL token");
}

#[test]
fn regex_tokenize_test_email_tokenization() {
    let tokenizer = VietnameseTokenizer::new();
    let text = "Contact me at test@example.com";
    let tokens = tokenizer.tokenize_with_tags(text, true);
    let has_email = tokens.iter().any(|t| t.token_type == TokenType::Email);
    assert!(has_email, "Should detect email token");
}

#[test]
fn regex_tokenize_test_number_tokenization() {
    let tokenizer = VietnameseTokenizer::new();
    let text = "Giá là 1.000.000 đồng";
    let tokens = tokenizer.tokenize_with_tags(text, true);
    let has_number = tokens.iter().any(|t| t.token_type == TokenType::Number);
    assert!(has_number, "Should detect number token");
}

#[test]
fn regex_tokenize_test_fixed_words() {
    let fixed_words = vec!["Viện nghiên cứu".to_string()];
    let tokenizer = VietnameseTokenizer::with_fixed_words(&fixed_words);
    let text = "Viện nghiên cứu khoa học";
    let tokens = tokenizer.tokenize_with_tags(text, true);
    let has_fixed = tokens.iter().any(|t| t.token_type == TokenType::FixedWords);
    assert!(has_fixed, "Should detect fixed words token");
}

#[test]
fn word_tokenize_test_basic_tokenization() {
    let tokenizer = VietnameseTokenizer::new();
    let text = "Xin chào, tôi là Minh.";
    let tokens = tokenizer.tokenize(text);
    assert!(!tokens.is_empty());
    println!("Tokens: {:?}", tokens);
}

#[test]
fn word_tokenize_test_url_tokenization() {
    let tokenizer = VietnameseTokenizer::new();
    let text = "Visit https://example.com for more info.";
    let tokens = tokenizer.tokenize_with_tags(text, true);
    let has_url = tokens.iter().any(|t| t.token_type == TokenType::Url);
    assert!(has_url, "Should detect URL token");
}

#[test]
fn word_tokenize_test_email_tokenization() {
    let tokenizer = VietnameseTokenizer::new();
    let text = "Contact me at test@example.com";
    let tokens = tokenizer.tokenize_with_tags(text, true);
    let has_email = tokens.iter().any(|t| t.token_type == TokenType::Email);
    assert!(has_email, "Should detect email token");
}

#[test]
fn word_tokenize_test_number_tokenization() {
    let tokenizer = VietnameseTokenizer::new();
    let text = "Giá là 1.000.000 đồng";
    let tokens = tokenizer.tokenize_with_tags(text, true);
    let has_number = tokens.iter().any(|t| t.token_type == TokenType::Number);
    assert!(has_number, "Should detect number token");
}

#[test]
fn word_tokenize_test_fixed_words() {
    let fixed_words = vec!["Viện nghiên cứu".to_string()];
    let tokenizer = VietnameseTokenizer::with_fixed_words(&fixed_words);
    let text = "Viện nghiên cứu khoa học";
    let tokens = tokenizer.tokenize_with_tags(text, true);
    let has_fixed = tokens.iter().any(|t| t.token_type == TokenType::FixedWords);
    assert!(has_fixed, "Should detect fixed words token");
}

#[test]
fn test_word_segmentation_basic() {
    let segmenter = VietnameseWordSegmenter::new();
    let sentence = "Bác sĩ bây giờ có thể thản nhiên";
    let words = segmenter.word_tokenize(sentence);
    assert!(!words.is_empty());
    println!("Word segmentation: {:?}", words);
    let has_multi_char_words = words.iter().any(|w| w.contains(' '));
    println!("Has multi-character words: {}", has_multi_char_words);
}

#[test]
fn test_word_segmentation_text_format() {
    let segmenter = VietnameseWordSegmenter::new();
    let sentence = "Bác sĩ bây giờ có thể";
    let text = segmenter.word_tokenize_as_text(sentence);
    assert!(!text.is_empty());
    println!("Text format: {}", text);
}

#[test]
fn test_word_segmentation_with_fixed_words() {
    let fixed_words = vec!["bác sĩ".to_string()];
    let segmenter = VietnameseWordSegmenter::with_fixed_words(&fixed_words);
    let sentence = "bác sĩ bây giờ";
    let words = segmenter.word_tokenize(sentence);
    println!("With fixed words: {:?}", words);
}

#[test]
fn test_crf_model_basic() {
    let mut model = FastCRFSequenceTagger::new();
    // No weight table is available: the built-in one is used.
    model.load(None);
    let features = vec![
        vec!["Bác".to_string()],
        vec!["sĩ".to_string()],
        vec!["bây".to_string()],
        vec!["giờ".to_string()],
    ];
    let tags = model.predict(&features);
    assert_eq!(tags.len(), 4);
    println!("Predicted tags: {:?}", tags);
    for tag in tags {
        assert!(tag == "B-W" || tag == "I-W", "Invalid tag: {}", tag);
    }
}

#[test]
fn test_feature_extraction() {
    let model = CRFModel::new();
    let tokens = vec!["Bác".to_string(), "sĩ".to_string(), "bây".to_string()];
    let features_0 = model.extract_features(&tokens, 0);
    let features_1 = model.extract_features(&tokens, 1);
    println!("Features for position 0: {:?}", features_0);
    println!("Features for position 1: {:?}", features_1);
    assert!(features_0.iter().any(|f| f.contains("token=Bác")));
    assert!(features_1.iter().any(|f| f.contains("token=sĩ")));
    assert!(features_0.iter().any(|f| f.contains("prev_token=<BOS>")));
    assert!(features_1.iter().any(|f| f.contains("prev_token=Bác")));
}
