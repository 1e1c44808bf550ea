use parrotnlp::{classify, Token, TokenType};

fn pairs(tokens: &[Token]) -> Vec<(String, TokenType)> {
    tokens.iter().map(|t| (t.text.clone(), t.token_type)).collect()
}

fn one(text: &str) -> (String, TokenType) {
    let tokens = classify(text, &[]);
    assert_eq!(tokens.len(), 1, "{:?}", pairs(&tokens));
    (tokens[0].text.clone(), tokens[0].token_type)
}

#[test]
fn email_is_one_token() {
    assert_eq!(one("test@example.com"), ("test@example.com".to_string(), TokenType::Email));
}

#[test]
fn url_is_one_token() {
    assert_eq!(one("https://example.com"), ("https://example.com".to_string(), TokenType::Url));
}

#[test]
fn grouped_number_keeps_separators() {
    assert_eq!(one("1.000.000"), ("1.000.000".to_string(), TokenType::Number));
}

#[test]
fn fixed_phrase_comes_first() {
    let fixed = vec!["bác sĩ".to_string()];
    let tokens = classify("bác sĩ bây giờ", &fixed);
    assert_eq!(
        pairs(&tokens),
        vec![
            ("bác sĩ".to_string(), TokenType::FixedWords),
            ("bây".to_string(), TokenType::Word),
            ("giờ".to_string(), TokenType::Word),
        ]
    );
}

#[test]
fn fixed_phrase_needs_word_boundaries() {
    let fixed = vec!["bác".to_string()];
    let tokens = classify("bácsĩ", &fixed);
    assert_eq!(pairs(&tokens), vec![("bácsĩ".to_string(), TokenType::Word)]);
}

#[test]
fn empty_fixed_phrase_is_ignored() {
    let fixed = vec!["".to_string()];
    let tokens = classify("a b", &fixed);
    assert_eq!(
        pairs(&tokens),
        vec![("a".to_string(), TokenType::Word), ("b".to_string(), TokenType::Word)]
    );
}

#[test]
fn tokens_cover_all_non_whitespace() {
    let text = "Xin chào, tôi là Minh. Giá 1.000.000 đồng (khoảng) => OK!";
    let tokens = classify(text, &[]);
    let joined: String = tokens.iter().map(|t| t.text.as_str()).collect::<String>();
    let strip = |s: &str| s.chars().filter(|c| !c.is_whitespace()).collect::<String>();
    assert_eq!(strip(&joined), strip(text));
}

#[test]
fn empty_and_blank_texts_have_no_tokens() {
    assert!(classify("", &[]).is_empty());
    assert!(classify(" \t\n ", &[]).is_empty());
}

#[test]
fn sentence_tokens() {
    let tokens = classify("Xin chào, tôi là Minh.", &[]);
    assert_eq!(
        pairs(&tokens),
        vec![
            ("Xin".to_string(), TokenType::Word),
            ("chào".to_string(), TokenType::Word),
            (",".to_string(), TokenType::Punct),
            ("tôi".to_string(), TokenType::Word),
            ("là".to_string(), TokenType::Word),
            ("Minh".to_string(), TokenType::Word),
            (".".to_string(), TokenType::Punct),
        ]
    );
}

#[test]
fn specials() {
    assert_eq!(one("=>").1, TokenType::Special);
    assert_eq!(one("==>").1, TokenType::Special);
    assert_eq!(one("...").1, TokenType::Special);
    assert_eq!(one("---").1, TokenType::Special);
    assert_eq!(one("3x4"), ("3x4".to_string(), TokenType::Special));
    assert_eq!(one("v.v..."), ("v.v...".to_string(), TokenType::Special));
    assert_eq!(one("°C"), ("°C".to_string(), TokenType::Special));
}

#[test]
fn abbreviations() {
    assert_eq!(one("AT&T"), ("AT&T".to_string(), TokenType::Abbreviation));
    assert_eq!(one("U.S.A."), ("U.S.A.".to_string(), TokenType::Abbreviation));
    assert_eq!(one("Mr."), ("Mr.".to_string(), TokenType::Abbreviation));
    assert_eq!(one("Dr."), ("Dr.".to_string(), TokenType::Abbreviation));
    assert_eq!(one("T.Ư"), ("T.Ư".to_string(), TokenType::Abbreviation));
    assert_eq!(one("NĐ-CP"), ("NĐ-CP".to_string(), TokenType::Abbreviation));
    assert_eq!(one("e-mail"), ("e-mail".to_string(), TokenType::Abbreviation));
    assert_eq!(one("don't"), ("don't".to_string(), TokenType::Abbreviation));
    assert_eq!(one("12ABC-34"), ("12ABC-34".to_string(), TokenType::Abbreviation));
}

#[test]
fn urls() {
    assert_eq!(one("example.com"), ("example.com".to_string(), TokenType::Url));
    assert_eq!(one("ftp://files.vn/a"), ("ftp://files.vn/a".to_string(), TokenType::Url));
    assert_eq!(one("vnexpress.net/tin-tuc"), ("vnexpress.net/tin-tuc".to_string(), TokenType::Url));
    let tokens = classify("https://example.com.", &[]);
    assert_eq!(
        pairs(&tokens),
        vec![
            ("https://example.com".to_string(), TokenType::Url),
            (".".to_string(), TokenType::Punct),
        ]
    );
}

#[test]
fn phones_dates_names() {
    assert_eq!(one("090-123-4567"), ("090-123-4567".to_string(), TokenType::Phone));
    assert_eq!(one("12/05/2023"), ("12/05/2023".to_string(), TokenType::DateTime));
    assert_eq!(one("2023/05/12"), ("2023/05/12".to_string(), TokenType::DateTime));
    assert_eq!(one("12:30:45"), ("12:30:45".to_string(), TokenType::DateTime));
    assert_eq!(one("5-2023"), ("5-2023".to_string(), TokenType::DateTime));
    assert_eq!(one("12A"), ("12A".to_string(), TokenType::Name));
    assert_eq!(one("3B4"), ("3B4".to_string(), TokenType::Name));
}

#[test]
fn numbers() {
    assert_eq!(one("1.000,5"), ("1.000,5".to_string(), TokenType::Number));
    assert_eq!(one("1,000,000"), ("1,000,000".to_string(), TokenType::Number));
    assert_eq!(one("3_5"), ("3_5".to_string(), TokenType::Number));
    assert_eq!(one("42"), ("42".to_string(), TokenType::Number));
}

#[test]
fn emoji_punct_symbols() {
    assert_eq!(one(":)))"), (":)))".to_string(), TokenType::Emoji));
    assert_eq!(one("=))"), ("=))".to_string(), TokenType::Emoji));
    assert_eq!(one("<3"), ("<3".to_string(), TokenType::Emoji));
    assert_eq!(one(":DD"), (":DD".to_string(), TokenType::Emoji));
    assert_eq!(one(","), (",".to_string(), TokenType::Punct));
    assert_eq!(one("+"), ("+".to_string(), TokenType::Symbol));
    assert_eq!(one("::"), ("::".to_string(), TokenType::Symbol));
    assert_eq!(one("_"), ("_".to_string(), TokenType::Symbol));
    assert_eq!(one("@"), ("@".to_string(), TokenType::NonWord));
    assert_eq!(one("!"), ("!".to_string(), TokenType::NonWord));
}

#[test]
fn hyphenated_words() {
    assert_eq!(one("cà-phê"), ("cà-phê".to_string(), TokenType::WordHyphen));
    let tokens = classify("a-+", &[]);
    assert_eq!(
        pairs(&tokens),
        vec![
            ("a".to_string(), TokenType::Word),
            ("-".to_string(), TokenType::Symbol),
            ("+".to_string(), TokenType::Symbol),
        ]
    );
}
