use parrotnlp::{
    character_normalize, normalize_characters_in_text, text_normalize, token_normalize,
    utf8_normalize, Rules, TextNormalizer, VietnameseTokenizer,
};

fn rules(chars: &[(&str, &str)], tokens: &[(&str, &str)]) -> TextNormalizer {
    TextNormalizer::new(Rules {
        character_map: chars.iter().map(|(a, b)| (a.to_string(), b.to_string())).collect(),
        token_map: tokens.iter().map(|(a, b)| (a.to_string(), b.to_string())).collect(),
    })
}

#[test]
fn nfc_composes() {
    assert_eq!(utf8_normalize("a\u{300}"), "\u{e0}");
    assert_eq!(utf8_normalize("đã"), "đã");
}

#[test]
fn substitutions_apply_in_order() {
    let n = rules(&[("òa", "oà"), ("ab", "x"), ("x", "y")], &[]);
    assert_eq!(character_normalize("hòa abab", &n), "hoà yy");
}

#[test]
fn substitution_does_not_overlap() {
    let n = rules(&[("aa", "b")], &[]);
    assert_eq!(character_normalize("aaa", &n), "ba");
}

#[test]
fn empty_key_replaces_nothing() {
    let n = rules(&[("", "z")], &[]);
    assert_eq!(character_normalize("abc", &n), "abc");
}

#[test]
fn substitution_twice_is_once() {
    let n = rules(&[("ò", "o"), ("ð", "đ")], &[]);
    let once = character_normalize("ðò òa", &n);
    let twice = character_normalize(&once, &n);
    assert_eq!(once, "đo oa");
    assert_eq!(once, twice);
}

#[test]
fn longer_keys_twice_is_once() {
    let n = rules(&[("òa", "oà"), ("ð", "đ"), ("uy", "uý")], &[]);
    let once = character_normalize("hòa ðòa tuy", &n);
    assert_eq!(once, "hoà đoà tuý");
    assert_eq!(character_normalize(&once, &n), once);
}

#[test]
fn full_normalization() {
    let n = rules(&[("\u{e0}", "A")], &[]);
    assert_eq!(normalize_characters_in_text("a\u{300}b", &n), "Ab");
}

#[test]
fn token_map_applies_to_short_tokens() {
    let n = rules(&[], &[("ko", "không"), ("dc", "được")]);
    assert_eq!(token_normalize("ko", true, &n), "không");
    assert_eq!(token_normalize("dc", false, &n), "được");
    assert_eq!(token_normalize("xyz", true, &n), "xyz");
}

#[test]
fn long_tokens_are_kept() {
    let n = rules(&[("a", "b")], &[("abcdefg", "z")]);
    assert_eq!(token_normalize("abcdefg", true, &n), "abcdefg");
    assert_eq!(token_normalize("abcdef", true, &n), "bbcdef");
    assert_eq!(token_normalize("nghiêng", true, &n), "nghiêng");
}

#[test]
fn text_normalize_by_spaces() {
    let n = rules(&[], &[("ko", "không")]);
    assert_eq!(text_normalize("  tôi ko   biết ", "space", &n), "tôi không biết");
}

#[test]
fn text_normalize_with_tokenizer() {
    let n = rules(&[], &[("ko", "không")]);
    assert_eq!(text_normalize("tôi ko biết, 1.000", "underthesea", &n), "tôi không biết , 1.000");
}

#[test]
fn tokenizer_uses_rules() {
    let mut t = VietnameseTokenizer::new();
    t.set_normalizer(rules(&[], &[("ko", "không")]));
    assert_eq!(t.tokenize_as_text("ko sao"), "không sao");
    t.set_token_normalize(false);
    assert_eq!(t.tokenize_as_text("ko sao"), "ko sao");
}

#[test]
fn tokenizer_without_character_normalization() {
    let mut t = VietnameseTokenizer::new();
    t.set_character_normalize(false);
    assert_eq!(t.tokenize("a\u{300}"), vec!["a\u{300}".to_string()]);
    t.set_character_normalize(true);
    assert_eq!(t.tokenize("a\u{300}"), vec!["\u{e0}".to_string()]);
}
