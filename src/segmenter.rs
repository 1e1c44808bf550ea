//! The word segmenter: tokenizes, labels the tokens with the tagger, and
//! merges each token labelled `I-W` into the word before it.
use vstd::prelude::*;
use crate::classify::{first_match, lemma_no_match_is_space, spans_from};
use crate::crf::{
    default_weights, label_name, label_names, viterbi, weight_table, FastCRFSequenceTagger, Label,
    SequenceTagger,
};
use crate::normalize::{canonical, replace_all, replace_chars, token_normalize, TextNormalizer};
use crate::text::{chars_eq, chars_of, concat_chars, is_space, string_of, texts};
use crate::tokenizer::{
    join, join_strings, prepared, split_space_from, split_whitespace, token_texts, token_texts_of,
    tokenize_text, VietnameseTokenizer,
};

verus! {

/// The words formed by the first `i` tokens: a token labelled `I-W` extends
/// the current word (joined by a space), any other token starts a new one;
/// the first token always starts a word.
pub open spec fn merge_upto(toks: Seq<Seq<char>>, tags: Seq<Seq<char>>, i: int) -> Seq<Seq<char>>
    decreases i,
{
    if i <= 0 {
        seq![]
    } else {
        let prev = merge_upto(toks, tags, i - 1);
        if tags[i - 1] == "I-W"@ && prev.len() > 0 {
            prev.update(prev.len() - 1, prev.last() + " "@ + toks[i - 1])
        } else {
            prev.push(toks[i - 1])
        }
    }
}

pub open spec fn merge(toks: Seq<Seq<char>>, tags: Seq<Seq<char>>) -> Seq<Seq<char>> {
    merge_upto(toks, tags, toks.len() as int)
}

/// How many of the first `i` labels open a word: the first one, and every
/// later `Begin`.
pub open spec fn openings(labels: Seq<Label>, i: int) -> nat
    decreases i,
{
    if i <= 0 {
        0
    } else {
        openings(labels, i - 1) + if i == 1 || labels[i - 1] == Label::Begin {
            1nat
        } else {
            0nat
        }
    }
}

/// The words of `text`: its token texts, merged as the tagger labels them.
pub open spec fn segment(
    text: Seq<char>,
    tk: VietnameseTokenizer,
    use_token_normalize: bool,
    fixed: Seq<Seq<char>>,
    w: Seq<(Seq<char>, int)>,
) -> Seq<Seq<char>> {
    let toks = token_texts(text, fixed, tk.character_normalize(), use_token_normalize, tk.rules());
    merge(toks, label_names(viterbi(w, toks)))
}

/// `s` has a character that is not whitespace.
pub open spec fn has_text(s: Seq<char>) -> bool {
    exists|j: int| 0 <= j < s.len() && !is_space(#[trigger] s[j])
}

/// Words joined by single spaces, the spaces inside each word written as `_`.
pub open spec fn render(words: Seq<Seq<char>>) -> Seq<char> {
    join(words.map_values(|x: Seq<char>| replace_all(x, " "@, "_"@)), " "@)
}

proof fn lemma_merge_count(toks: Seq<Seq<char>>, labels: Seq<Label>, i: int)
    requires
        0 <= i <= labels.len(),
        toks.len() == labels.len(),
    ensures
        merge_upto(toks, label_names(labels), i).len() == openings(labels, i),
        i > 0 ==> merge_upto(toks, label_names(labels), i).len() > 0,
    decreases i,
{
    reveal_strlit("B-W");
    reveal_strlit("I-W");
    if i > 0 {
        lemma_merge_count(toks, labels, i - 1);
        assert(label_names(labels)[i - 1] == label_name(labels[i - 1]));
        if labels[i - 1] == Label::Begin {
            assert(label_name(Label::Begin)[0] == 'B');
        }
    }
}

/// The number of words equals the number of `Begin` labels, except that the
/// first token always opens a word, even when labelled `Inside`.
pub proof fn lemma_word_count(toks: Seq<Seq<char>>, labels: Seq<Label>)
    requires
        toks.len() == labels.len(),
    ensures
        merge(toks, label_names(labels)).len() == openings(labels, labels.len() as int),
{
    lemma_merge_count(toks, labels, labels.len() as int);
}

/// Decoding depends on nothing but the tokens and the weight table: equal
/// inputs give equal labels.
pub proof fn lemma_predict_deterministic(
    w1: Seq<(Seq<char>, int)>,
    t1: Seq<Seq<char>>,
    w2: Seq<(Seq<char>, int)>,
    t2: Seq<Seq<char>>,
)
    requires
        w1 == w2,
        t1 == t2,
    ensures
        viterbi(w1, t1) == viterbi(w2, t2),
{
}

/// Text with a non-whitespace character at or after `i` yields at least one token.
pub proof fn lemma_spans_nonempty(s: Seq<char>, i: int, ph: Seq<Seq<char>>, j: int)
    requires
        0 <= i <= j < s.len(),
        !is_space(s[j]),
    ensures
        spans_from(s, i, ph).len() > 0,
    decreases s.len() - i,
{
    match first_match(s, i, ph) {
        Some(_) => {},
        None => {
            lemma_no_match_is_space(s, i, ph);
            lemma_spans_nonempty(s, i + 1, ph, j);
        },
    }
}

fn merge_words(toks: &Vec<String>, tags: &Vec<String>) -> (r: Vec<String>)
    requires
        toks@.len() == tags@.len(),
    ensures
        texts(r@) == merge(texts(toks@), texts(tags@)),
{
    let ghost tt = texts(toks@);
    let ghost gg = texts(tags@);
    let inside = chars_of("I-W");
    let space = chars_of(" ");
    let mut out: Vec<String> = Vec::new();
    let mut i: usize = 0;
    while i < toks.len()
        invariant
            i <= toks@.len() == tags@.len(),
            tt == texts(toks@),
            gg == texts(tags@),
            inside@ == "I-W"@,
            space@ == " "@,
            texts(out@) == merge_upto(tt, gg, i as int),
        decreases toks@.len() - i,
    {
        let tag = chars_of(tags[i].as_str());
        let tok = chars_of(toks[i].as_str());
        let ghost before = texts(out@);
        if chars_eq(tag.as_slice(), inside.as_slice()) && out.len() > 0 {
            let last = out.pop().unwrap();
            let a = chars_of(last.as_str());
            let b = concat_chars(a.as_slice(), space.as_slice());
            let c = concat_chars(b.as_slice(), tok.as_slice());
            out.push(string_of(c.as_slice(), 0, c.len()));
            assert(c@.subrange(0, c@.len() as int) =~= c@);
            assert(texts(out@) =~= before.update(before.len() - 1, before.last() + " "@ + tt[i as int]));
        } else {
            out.push(toks[i].clone());
            assert(texts(out@) =~= before.push(tt[i as int]));
        }
        i += 1;
    }
    out
}

/// Each word with its spaces written as `_`, the words joined by single spaces.
fn render_words(words: &Vec<String>) -> (r: String)
    ensures
        r@ == render(texts(words@)),
{
    let space = chars_of(" ");
    let under = chars_of("_");
    let mut parts: Vec<String> = Vec::new();
    let mut k: usize = 0;
    while k < words.len()
        invariant
            k <= words@.len(),
            space@ == " "@,
            under@ == "_"@,
            parts@.len() == k,
            forall|j: int|
                0 <= j < k ==> (#[trigger] parts@[j])@ == replace_all(words@[j]@, " "@, "_"@),
        decreases words@.len() - k,
    {
        let w = chars_of(words[k].as_str());
        let x = replace_chars(w.as_slice(), space.as_slice(), under.as_slice());
        parts.push(string_of(x.as_slice(), 0, x.len()));
        assert(x@.subrange(0, x@.len() as int) =~= x@);
        k += 1;
    }
    assert(texts(parts@) =~= texts(words@).map_values(|x: Seq<char>| replace_all(x, " "@, "_"@)));
    join_strings(&parts, " ")
}

/// Splits sentences into words: tokens from a `VietnameseTokenizer`, labels
/// from a loaded tagger.
pub struct VietnameseWordSegmenter {
    tokenizer: VietnameseTokenizer,
    tagger: FastCRFSequenceTagger,
}

impl VietnameseWordSegmenter {
    /// The tagger always has a weight table.
    #[verifier::type_invariant]
    spec fn loaded(&self) -> bool {
        self.tagger.ready()
    }

    pub closed spec fn tokenizer(&self) -> VietnameseTokenizer {
        self.tokenizer
    }

    pub closed spec fn weights(&self) -> Seq<(Seq<char>, int)> {
        self.tagger.weights()
    }

    /// A segmenter with the given weight table, or the built-in one when there is none.
    pub fn with_model(table: Option<Vec<(String, i32)>>) -> (r: Self)
        ensures
            r.weights() == match table {
                Some(t) => weight_table(t@),
                None => default_weights(),
            },
            r.tokenizer().fixed().len() == 0,
            r.tokenizer().rules().character_map@.len() == 0,
            r.tokenizer().rules().token_map@.len() == 0,
            r.tokenizer().character_normalize(),
            r.tokenizer().token_normalize(),
    {
        let mut tagger = FastCRFSequenceTagger::new();
        tagger.load(table);
        VietnameseWordSegmenter { tokenizer: VietnameseTokenizer::new(), tagger }
    }

    /// A segmenter with the built-in weight table.
    pub fn new() -> (r: Self)
        ensures
            r.weights() == default_weights(),
            r.tokenizer().fixed().len() == 0,
            r.tokenizer().rules().character_map@.len() == 0,
            r.tokenizer().rules().token_map@.len() == 0,
            r.tokenizer().character_normalize(),
            r.tokenizer().token_normalize(),
    {
        Self::with_model(None)
    }

    /// A segmenter with the built-in weight table and the fixed phrases `fixed_words`.
    pub fn with_fixed_words(fixed_words: &[String]) -> (r: Self)
        ensures
            r.weights() == default_weights(),
            r.tokenizer().fixed() == texts(fixed_words@),
            r.tokenizer().rules().character_map@.len() == 0,
            r.tokenizer().rules().token_map@.len() == 0,
            r.tokenizer().character_normalize(),
            r.tokenizer().token_normalize(),
    {
        let mut tagger = FastCRFSequenceTagger::new();
        tagger.load(None);
        VietnameseWordSegmenter { tokenizer: VietnameseTokenizer::with_fixed_words(fixed_words), tagger }
    }

    /// A segmenter from a tokenizer and a loaded tagger.
    pub fn with_parts(tokenizer: VietnameseTokenizer, tagger: FastCRFSequenceTagger) -> (r: Self)
        requires
            tagger.ready(),
        ensures
            r.tokenizer() == tokenizer,
            r.weights() == tagger.weights(),
    {
        VietnameseWordSegmenter { tokenizer, tagger }
    }

    /// The words of `sentence`, or, with `format_as_text`, one string that
    /// renders them. `fixed_words`, when not empty, replaces the tokenizer's
    /// fixed phrases; `use_token_normalize` decides canonicalization.
    pub fn word_tokenize_with_options(
        &self,
        sentence: &str,
        format_as_text: bool,
        use_token_normalize: bool,
        fixed_words: &[String],
    ) -> (r: Vec<String>)
        ensures
            ({
                let fixed = if fixed_words@.len() == 0 {
                    self.tokenizer().fixed()
                } else {
                    texts(fixed_words@)
                };
                let words = segment(
                    sentence@,
                    self.tokenizer(),
                    use_token_normalize,
                    fixed,
                    self.weights(),
                );
                texts(r@) == if format_as_text {
                    seq![render(words)]
                } else {
                    words
                }
            }),
            has_text(
                prepared(
                    sentence@,
                    self.tokenizer().character_normalize(),
                    self.tokenizer().rules(),
                ),
            ) ==> r@.len() > 0,
    {
        proof {
            use_type_invariant(self);
        }
        let ghost tk = self.tokenizer;
        let ghost fixed = if fixed_words@.len() == 0 {
            tk.fixed()
        } else {
            texts(fixed_words@)
        };
        let toks = if fixed_words.len() == 0 {
            self.tokenizer.tokens_with(sentence, use_token_normalize, self.tokenizer.fixed_words())
        } else {
            self.tokenizer.tokens_with(sentence, use_token_normalize, fixed_words)
        };
        let strs = token_texts_of(&toks);
        let ghost tt = texts(strs@);
        assert(tt =~= token_texts(
            sentence@,
            fixed,
            tk.character_normalize(),
            use_token_normalize,
            tk.rules(),
        ));
        let mut features: Vec<Vec<String>> = Vec::new();
        let mut k: usize = 0;
        while k < strs.len()
            invariant
                k <= strs@.len(),
                features@.len() == k,
                forall|j: int|
                    0 <= j < k ==> (#[trigger] features@[j])@.len() == 1 && features@[j]@[0]
                        == strs@[j],
            decreases strs@.len() - k,
        {
            let mut f: Vec<String> = Vec::new();
            f.push(strs[k].clone());
            features.push(f);
            k += 1;
        }
        assert(crate::crf::heads(features@) =~= tt);
        let tags = self.tagger.predict(features.as_slice());
        proof {
            crate::crf::lemma_viterbi_len(self.weights(), tt);
        }
        assert(texts(tags@).len() == tt.len());
        let words = merge_words(&strs, &tags);
        proof {
            let p = prepared(sentence@, tk.character_normalize(), tk.rules());
            if has_text(p) {
                let j = choose|j: int| 0 <= j < p.len() && !is_space(#[trigger] p[j]);
                lemma_spans_nonempty(p, 0, fixed, j);
                let labels = viterbi(self.weights(), tt);
                lemma_merge_count(tt, labels, tt.len() as int);
            }
        }
        if format_as_text {
            let mut one: Vec<String> = Vec::new();
            one.push(render_words(&words));
            assert(texts(one@) =~= seq![render(texts(words@))]);
            one
        } else {
            words
        }
    }

    /// The words of `sentence`.
    pub fn word_tokenize(&self, sentence: &str) -> (r: Vec<String>)
        ensures
            texts(r@) == segment(
                sentence@,
                self.tokenizer(),
                true,
                self.tokenizer().fixed(),
                self.weights(),
            ),
            has_text(
                prepared(
                    sentence@,
                    self.tokenizer().character_normalize(),
                    self.tokenizer().rules(),
                ),
            ) ==> r@.len() > 0,
    {
        let none: Vec<String> = Vec::new();
        self.word_tokenize_with_options(sentence, false, true, none.as_slice())
    }

    /// The words of `sentence` as one string (see `render`).
    pub fn word_tokenize_as_text(&self, sentence: &str) -> (r: String)
        ensures
            r@ == render(
                segment(sentence@, self.tokenizer(), true, self.tokenizer().fixed(), self.weights()),
            ),
    {
        let words = self.word_tokenize(sentence);
        render_words(&words)
    }
}

/// Normalizes `text` token by token: tokens come from the tokenizer when
/// `tokenizer` is `"underthesea"` and from splitting at whitespace otherwise;
/// each is canonicalized with character normalization, and the results are
/// joined by single spaces.
pub fn text_normalize(text: &str, tokenizer: &str, normalizer: &TextNormalizer) -> (r: String)
    ensures
        ({
            let toks = if tokenizer@ == "underthesea"@ {
                token_texts(text@, seq![], true, true, *normalizer)
            } else {
                split_space_from(text@, 0)
            };
            r@ == join(toks.map_values(|t: Seq<char>| canonical(t, true, *normalizer)), " "@)
        }),
{
    let name = chars_of(tokenizer);
    let under = chars_of("underthesea");
    let none: Vec<String> = Vec::new();
    let toks = if chars_eq(name.as_slice(), under.as_slice()) {
        let t = tokenize_text(text, none.as_slice(), true, true, normalizer);
        assert(texts(none@) =~= seq![]);
        let v = token_texts_of(&t);
        assert(texts(v@) =~= token_texts(text@, seq![], true, true, *normalizer));
        v
    } else {
        split_whitespace(text)
    };
    let ghost tt = texts(toks@);
    let mut out: Vec<String> = Vec::new();
    let mut k: usize = 0;
    while k < toks.len()
        invariant
            k <= toks@.len(),
            tt == texts(toks@),
            out@.len() == k,
            forall|j: int|
                0 <= j < k ==> (#[trigger] out@[j])@ == canonical(tt[j], true, *normalizer),
        decreases toks@.len() - k,
    {
        out.push(token_normalize(toks[k].as_str(), true, normalizer));
        k += 1;
    }
    assert(texts(out@) =~= tt.map_values(|t: Seq<char>| canonical(t, true, *normalizer)));
    join_strings(&out, " ")
}

} // verus!
