use parrotnlp::{CRFModel, FastCRFSequenceTagger, Label, SequenceTagger, VietnameseWordSegmenter};

fn heads(tokens: &[&str]) -> Vec<Vec<String>> {
    tokens.iter().map(|t| vec![t.to_string()]).collect()
}

#[test]
fn default_model_labels() {
    let mut model = FastCRFSequenceTagger::new();
    model.load(None);
    let tags = model.predict(&heads(&["Bác", "sĩ", "bây", "giờ"]));
    assert_eq!(tags, vec!["B-W", "I-W", "B-W", "I-W"]);
}

#[test]
fn empty_input_gives_no_labels() {
    let mut model = CRFModel::new();
    model.load(None);
    assert!(model.predict(&[]).is_empty());
}

#[test]
fn predict_is_deterministic() {
    let mut model = FastCRFSequenceTagger::new();
    model.load(None);
    let input = heads(&["có", "thể", "thản", "nhiên"]);
    assert_eq!(model.predict(&input), model.predict(&input));
}

#[test]
fn ties_go_to_begin() {
    let mut model = CRFModel::new();
    model.load(Some(vec![]));
    assert_eq!(model.predict(&heads(&["x", "y", "z"])), vec!["B-W", "B-W", "B-W"]);
}

#[test]
fn loaded_table_decides() {
    let mut model = CRFModel::new();
    model.load(Some(vec![("token=y#I-W".to_string(), 5), ("token=z#B-W".to_string(), -1)]));
    assert_eq!(model.predict(&heads(&["x", "y", "z"])), vec!["B-W", "I-W", "I-W"]);
    assert_eq!(model.viterbi_decode(&["x".to_string(), "y".to_string()]), vec!["B-W", "I-W"]);
}

#[test]
fn scores_of_labellings() {
    let mut model = CRFModel::new();
    model.load(None);
    let toks = vec!["Bác".to_string(), "sĩ".to_string()];
    assert_eq!(model.score_sequence(&toks, &[Label::Begin, Label::Inside]), 20 + 10 + 15);
    assert_eq!(model.score_sequence(&toks, &[Label::Begin, Label::Begin]), 20 + 3);
    assert_eq!(model.score_sequence(&toks, &[]), 0);
}

#[test]
fn all_features() {
    let model = CRFModel::new();
    let tokens = vec!["AB".to_string(), "12".to_string(), "sĩ".to_string()];
    assert_eq!(
        model.extract_features(&tokens, 1),
        vec![
            "token=12", "length=2", "is_upper=false", "is_digit=true", "first_char=1",
            "last_char=2", "prev_token=AB", "next_token=sĩ", "prev_current=AB_12",
            "current_next=12_sĩ",
        ]
    );
    assert_eq!(
        model.extract_features(&tokens, 0)[..4].to_vec(),
        vec!["token=AB", "length=2", "is_upper=true", "is_digit=false"]
    );
    assert_eq!(model.extract_features(&tokens, 2)[7], "next_token=<EOS>");
    let long = vec!["abcdefghijkl".to_string()];
    assert_eq!(model.extract_features(&long, 0)[1], "length=12");
}

#[test]
fn words_from_labels() {
    let segmenter = VietnameseWordSegmenter::new();
    assert_eq!(segmenter.word_tokenize("Bác sĩ bây giờ"), vec!["Bác sĩ", "bây giờ"]);
    assert_eq!(segmenter.word_tokenize_as_text("Bác sĩ bây giờ"), "Bác_sĩ bây_giờ");
}

#[test]
fn word_count_matches_openings() {
    let mut model = CRFModel::new();
    model.load(None);
    let toks = ["sĩ", "giờ", "Bác", "x"];
    let tags = model.predict(&heads(&toks));
    let openings = tags.iter().enumerate().filter(|(i, t)| *i == 0 || *t == "B-W").count();
    let words = VietnameseWordSegmenter::new().word_tokenize("sĩ giờ Bác x");
    assert_eq!(words.len(), openings);
}

#[test]
fn first_token_opens_a_word() {
    let segmenter = VietnameseWordSegmenter::with_model(Some(vec![("token=a#I-W".to_string(), 9)]));
    assert_eq!(segmenter.word_tokenize("a b"), vec!["a", "b"]);
}

#[test]
fn missing_model_still_segments() {
    let segmenter = VietnameseWordSegmenter::with_model(None);
    assert!(!segmenter.word_tokenize("thản nhiên").is_empty());
    assert!(segmenter.word_tokenize("   ").is_empty());
}

#[test]
fn options_override_fixed_words_and_format() {
    let segmenter = VietnameseWordSegmenter::new();
    let fixed = vec!["bác sĩ".to_string()];
    let words = segmenter.word_tokenize_with_options("bác sĩ bây giờ", false, true, &fixed);
    assert_eq!(words[0], "bác sĩ");
    let text = segmenter.word_tokenize_with_options("bác sĩ bây giờ", true, true, &fixed);
    assert_eq!(text.len(), 1);
    assert!(text[0].starts_with("bác_sĩ"));
}
