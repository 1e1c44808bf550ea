//! The tokenizer: character normalization, classification, then
//! canonicalization of each token's text.
use vstd::prelude::*;
use crate::classify::{classify_chars, spans, Token, TokenType};
use crate::normalize::{
    canonical, normalize_characters_in_text, normalized, token_normalize, TextNormalizer,
};
use crate::text::{
    append_chars, char_vecs, chars_of, is_space, is_space_char, run, run_len, string_of, texts,
    CharClass,
};

verus! {

/// The text that is classified: `text` itself, or its normalized form.
pub open spec fn prepared(text: Seq<char>, use_character_normalize: bool, n: TextNormalizer) -> Seq<
    char,
> {
    if use_character_normalize {
        normalized(text, n)
    } else {
        text
    }
}

/// The text of the token spanning `sp` in `s`, canonicalized when asked.
pub open spec fn token_text(
    s: Seq<char>,
    sp: (int, int, TokenType),
    use_token_normalize: bool,
    use_character_normalize: bool,
    n: TextNormalizer,
) -> Seq<char> {
    let raw = s.subrange(sp.0, sp.1);
    if use_token_normalize {
        canonical(raw, use_character_normalize, n)
    } else {
        raw
    }
}

/// `toks` are the tokens of `text`: the spans of the prepared text, each with
/// its (possibly canonicalized) text and its category.
pub open spec fn tokenized(
    text: Seq<char>,
    fixed: Seq<Seq<char>>,
    use_character_normalize: bool,
    use_token_normalize: bool,
    n: TextNormalizer,
    toks: Seq<Token>,
) -> bool {
    let s = prepared(text, use_character_normalize, n);
    let sp = spans(s, fixed);
    &&& toks.len() == sp.len()
    &&& forall|k: int|
        0 <= k < sp.len() ==> (#[trigger] toks[k]).text@ == token_text(
            s,
            sp[k],
            use_token_normalize,
            use_character_normalize,
            n,
        ) && toks[k].token_type == sp[k].2
}

/// The token texts of `text`.
pub open spec fn token_texts(
    text: Seq<char>,
    fixed: Seq<Seq<char>>,
    use_character_normalize: bool,
    use_token_normalize: bool,
    n: TextNormalizer,
) -> Seq<Seq<char>> {
    let s = prepared(text, use_character_normalize, n);
    spans(s, fixed).map_values(
        |sp: (int, int, TokenType)|
            token_text(s, sp, use_token_normalize, use_character_normalize, n),
    )
}

pub open spec fn token_strings(toks: Seq<Token>) -> Seq<Seq<char>> {
    toks.map_values(|t: Token| t.text@)
}

/// `parts` joined with `sep` between consecutive parts.
pub open spec fn join(parts: Seq<Seq<char>>, sep: Seq<char>) -> Seq<char>
    decreases parts.len(),
{
    if parts.len() == 0 {
        seq![]
    } else if parts.len() == 1 {
        parts[0]
    } else {
        join(parts.drop_last(), sep) + sep + parts.last()
    }
}

/// The whitespace-separated words of `s[i..]`.
pub open spec fn split_space_from(s: Seq<char>, i: int) -> Seq<Seq<char>>
    decreases s.len() - i,
{
    if i < 0 || i >= s.len() {
        seq![]
    } else if is_space(s[i]) {
        split_space_from(s, i + 1)
    } else {
        let r = run(s, i, CharClass::NotSpace);
        if i + r <= s.len() {
            seq![s.subrange(i, i + r)] + split_space_from(s, i + r)
        } else {
            seq![]
        }
    }
}

/// Joins `parts` with `sep`.
pub fn join_strings(parts: &Vec<String>, sep: &str) -> (r: String)
    ensures
        r@ == join(texts(parts@), sep@),
{
    let ghost tp = texts(parts@);
    let sepc = chars_of(sep);
    let mut out: Vec<char> = Vec::new();
    let mut k: usize = 0;
    while k < parts.len()
        invariant
            k <= parts@.len(),
            tp == texts(parts@),
            sepc@ == sep@,
            out@ == join(tp.subrange(0, k as int), sep@),
        decreases parts@.len() - k,
    {
        let p = chars_of(parts[k].as_str());
        let ghost before = out@;
        if k > 0 {
            append_chars(&mut out, sepc.as_slice());
        }
        append_chars(&mut out, p.as_slice());
        assert(tp.subrange(0, k + 1).drop_last() =~= tp.subrange(0, k as int));
        if k == 0 {
            assert(before =~= seq![]);
            assert(out@ =~= p@);
        }
        k += 1;
    }
    assert(tp.subrange(0, parts@.len() as int) =~= tp);
    string_of(out.as_slice(), 0, out.len())
}

/// Splits `text` at whitespace.
pub fn split_whitespace(text: &str) -> (r: Vec<String>)
    ensures
        texts(r@) == split_space_from(text@, 0),
{
    let s = chars_of(text);
    let n = s.len();
    let mut out: Vec<String> = Vec::new();
    let mut i: usize = 0;
    while i < n
        invariant
            i <= n,
            n == s@.len(),
            s@ == text@,
            texts(out@) + split_space_from(s@, i as int) == split_space_from(s@, 0),
        decreases n - i,
    {
        let ghost before = texts(out@);
        if is_space_char(s[i]) {
            i += 1;
        } else {
            let r = run_len(s.as_slice(), i, CharClass::NotSpace);
            proof {
                crate::text::lemma_run_bound(s@, i as int, CharClass::NotSpace);
            }
            let w = string_of(s.as_slice(), i, i + r);
            out.push(w);
            assert(texts(out@) =~= before.push(w@));
            assert(before + split_space_from(s@, i as int) =~= texts(out@) + split_space_from(
                s@,
                (i + r) as int,
            ));
            i = i + r;
        }
    }
    assert(texts(out@) + split_space_from(s@, n as int) =~= texts(out@));
    out
}

/// Splits text into classified tokens, normalizing characters first and
/// canonicalizing each token's text afterwards, each step when enabled.
#[derive(Clone)]
pub struct VietnameseTokenizer {
    fixed_words: Vec<String>,
    normalizer: TextNormalizer,
    use_character_normalize: bool,
    use_token_normalize: bool,
}

impl VietnameseTokenizer {
    pub closed spec fn fixed(&self) -> Seq<Seq<char>> {
        texts(self.fixed_words@)
    }

    pub closed spec fn rules(&self) -> TextNormalizer {
        self.normalizer
    }

    pub closed spec fn character_normalize(&self) -> bool {
        self.use_character_normalize
    }

    pub closed spec fn token_normalize(&self) -> bool {
        self.use_token_normalize
    }

    /// The fixed phrases.
    pub fn fixed_words(&self) -> (r: &[String])
        ensures
            texts(r@) == self.fixed(),
    {
        self.fixed_words.as_slice()
    }

    /// No fixed phrases, empty normalization tables, both normalizations on.
    pub fn new() -> (r: Self)
        ensures
            r.fixed().len() == 0,
            r.rules().character_map@.len() == 0,
            r.rules().token_map@.len() == 0,
            r.character_normalize(),
            r.token_normalize(),
    {
        VietnameseTokenizer {
            fixed_words: Vec::new(),
            normalizer: TextNormalizer::empty(),
            use_character_normalize: true,
            use_token_normalize: true,
        }
    }

    /// Like `new`, with the fixed phrases `fixed_words`, which take priority
    /// over every other category.
    pub fn with_fixed_words(fixed_words: &[String]) -> (r: Self)
        ensures
            r.fixed() == texts(fixed_words@),
            r.rules().character_map@.len() == 0,
            r.rules().token_map@.len() == 0,
            r.character_normalize(),
            r.token_normalize(),
    {
        let mut words: Vec<String> = Vec::new();
        let mut k: usize = 0;
        while k < fixed_words.len()
            invariant
                k <= fixed_words@.len(),
                words@.len() == k,
                forall|j: int| 0 <= j < k ==> (#[trigger] words@[j])@ == fixed_words@[j]@,
            decreases fixed_words@.len() - k,
        {
            let w = fixed_words[k].clone();
            words.push(w);
            k += 1;
        }
        assert(texts(words@) =~= texts(fixed_words@));
        VietnameseTokenizer {
            fixed_words: words,
            normalizer: TextNormalizer::empty(),
            use_character_normalize: true,
            use_token_normalize: true,
        }
    }

    /// Replaces the normalization tables.
    pub fn set_normalizer(&mut self, normalizer: TextNormalizer)
        ensures
            final(self).rules() == normalizer,
            final(self).fixed() == old(self).fixed(),
            final(self).character_normalize() == old(self).character_normalize(),
            final(self).token_normalize() == old(self).token_normalize(),
    {
        self.normalizer = normalizer;
    }

    pub fn set_character_normalize(&mut self, enabled: bool)
        ensures
            final(self).character_normalize() == enabled,
            final(self).fixed() == old(self).fixed(),
            final(self).rules() == old(self).rules(),
            final(self).token_normalize() == old(self).token_normalize(),
    {
        self.use_character_normalize = enabled;
    }

    pub fn set_token_normalize(&mut self, enabled: bool)
        ensures
            final(self).token_normalize() == enabled,
            final(self).fixed() == old(self).fixed(),
            final(self).rules() == old(self).rules(),
            final(self).character_normalize() == old(self).character_normalize(),
    {
        self.use_token_normalize = enabled;
    }

    /// The tokens of `text` under this tokenizer's tables and character
    /// setting, with `fixed` as the fixed phrases and `use_token_normalize`
    /// deciding canonicalization.
    pub fn tokens_with(&self, text: &str, use_token_normalize: bool, fixed: &[String]) -> (r: Vec<
        Token,
    >)
        ensures
            tokenized(
                text@,
                texts(fixed@),
                self.character_normalize(),
                use_token_normalize,
                self.rules(),
                r@,
            ),
    {
        tokenize_text(text, fixed, self.use_character_normalize, use_token_normalize, &self.normalizer)
    }

    /// The tokens of `text`, with their categories.
    pub fn tokenize_with_tags(&self, text: &str, _include_tags: bool) -> (r: Vec<Token>)
        ensures
            tokenized(
                text@,
                self.fixed(),
                self.character_normalize(),
                self.token_normalize(),
                self.rules(),
                r@,
            ),
    {
        self.tokens_with(text, self.use_token_normalize, self.fixed_words.as_slice())
    }

    /// The token texts of `text`.
    pub fn tokenize(&self, text: &str) -> (r: Vec<String>)
        ensures
            texts(r@) == token_texts(
                text@,
                self.fixed(),
                self.character_normalize(),
                self.token_normalize(),
                self.rules(),
            ),
    {
        let toks = self.tokenize_with_tags(text, false);
        token_texts_of(&toks)
    }

    /// The token texts of `text`, joined by single spaces.
    pub fn tokenize_as_text(&self, text: &str) -> (r: String)
        ensures
            r@ == join(
                token_texts(
                    text@,
                    self.fixed(),
                    self.character_normalize(),
                    self.token_normalize(),
                    self.rules(),
                ),
                " "@,
            ),
    {
        let toks = self.tokenize(text);
        join_strings(&toks, " ")
    }
}

/// The tokens of `text` with the fixed phrases `fixed`: normalized first when
/// `use_char` holds, canonicalized afterwards when `use_token_normalize` holds.
pub fn tokenize_text(
    text: &str,
    fixed: &[String],
    use_char: bool,
    use_token_normalize: bool,
    normalizer: &TextNormalizer,
) -> (r: Vec<Token>)
    ensures
        tokenized(text@, texts(fixed@), use_char, use_token_normalize, *normalizer, r@),
{
    let prepared_text = if use_char {
        normalize_characters_in_text(text, normalizer)
    } else {
        text.to_owned()
    };
    let s = chars_of(prepared_text.as_str());
    let ph = char_vecs(fixed);
    assert(ph.deep_view() =~= texts(fixed@));
    let raw = classify_chars(s.as_slice(), ph.as_slice());
    let ghost sp = spans(s@, texts(fixed@));
    let mut out: Vec<Token> = Vec::new();
    let mut k: usize = 0;
    while k < raw.len()
        invariant
            k <= raw@.len(),
            raw@.len() == sp.len(),
            s@ == prepared(text@, use_char, *normalizer),
            forall|j: int|
                0 <= j < sp.len() ==> (#[trigger] raw@[j]).text@ == s@.subrange(
                    sp[j].0,
                    sp[j].1,
                ) && raw@[j].token_type == sp[j].2,
            out@.len() == k,
            forall|j: int|
                0 <= j < k ==> (#[trigger] out@[j]).text@ == token_text(
                    s@,
                    sp[j],
                    use_token_normalize,
                    use_char,
                    *normalizer,
                ) && out@[j].token_type == sp[j].2,
        decreases raw@.len() - k,
    {
        let t = &raw[k];
        let text_k = if use_token_normalize {
            token_normalize(t.text.as_str(), use_char, normalizer)
        } else {
            t.text.clone()
        };
        out.push(Token { text: text_k, token_type: t.token_type });
        k += 1;
    }
    out
}

/// The texts of `toks`, in order.
pub fn token_texts_of(toks: &Vec<Token>) -> (r: Vec<String>)
    ensures
        texts(r@) == token_strings(toks@),
{
    let mut out: Vec<String> = Vec::new();
    let mut k: usize = 0;
    while k < toks.len()
        invariant
            k <= toks@.len(),
            out@.len() == k,
            forall|j: int| 0 <= j < k ==> (#[trigger] out@[j])@ == toks@[j].text@,
        decreases toks@.len() - k,
    {
        out.push(toks[k].text.clone());
        k += 1;
    }
    assert(texts(out@) =~= token_strings(toks@));
    out
}

} // verus!
