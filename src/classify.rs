//! The token classifier: a left-to-right scan that, at each offset, tries the
//! categories of the grammar in priority order and takes the first match.
use vstd::prelude::*;
use crate::grammar::{
    abbr_len, datetime_len, email_len, emoji_len, fixed_len, hyphen_len, match_abbr,
    match_datetime, match_email, match_emoji, match_fixed, match_hyphen, match_name, match_nonword,
    match_number, match_phone, match_punct, match_special, match_symbol, match_url, name_len,
    nonword_len, number_len, phone_len, punct_len, special_len, symbol_len, url_len, word_len,
};
use crate::text::{char_vecs, chars_of, is_space, lemma_run_bound, run_len, string_of, CharClass};

verus! {

/// The lexical categories, highest priority first (fixed phrases, when given,
/// come before all others).
#[derive(Debug, Clone, Copy, PartialEq, Eq, Structural)]
pub enum TokenType {
    Special,
    Abbreviation,
    Url,
    Email,
    Phone,
    DateTime,
    Name,
    Number,
    Emoji,
    Punct,
    WordHyphen,
    Word,
    Symbol,
    NonWord,
    FixedWords,
}

/// A classified span of text.
#[derive(Debug, Clone)]
pub struct Token {
    pub text: String,
    pub token_type: TokenType,
}

/// `n` is a usable match length at `i`: non-empty and inside `s`.
pub open spec fn fits(s: Seq<char>, i: int, n: nat) -> bool {
    0 < n && i + n <= s.len()
}

/// The token that starts at `i`: the first category, in priority order, that
/// matches there, with the length of its match.
#[verifier::opaque]
pub open spec fn first_match(s: Seq<char>, i: int, ph: Seq<Seq<char>>) -> Option<(nat, TokenType)> {
    if fits(s, i, fixed_len(s, i, ph, 0)) {
        Some((fixed_len(s, i, ph, 0), TokenType::FixedWords))
    } else if fits(s, i, special_len(s, i)) {
        Some((special_len(s, i), TokenType::Special))
    } else if fits(s, i, abbr_len(s, i)) {
        Some((abbr_len(s, i), TokenType::Abbreviation))
    } else if fits(s, i, url_len(s, i)) {
        Some((url_len(s, i), TokenType::Url))
    } else if fits(s, i, email_len(s, i)) {
        Some((email_len(s, i), TokenType::Email))
    } else if fits(s, i, phone_len(s, i)) {
        Some((phone_len(s, i), TokenType::Phone))
    } else if fits(s, i, datetime_len(s, i)) {
        Some((datetime_len(s, i), TokenType::DateTime))
    } else if fits(s, i, name_len(s, i)) {
        Some((name_len(s, i), TokenType::Name))
    } else if fits(s, i, number_len(s, i)) {
        Some((number_len(s, i), TokenType::Number))
    } else if fits(s, i, emoji_len(s, i)) {
        Some((emoji_len(s, i), TokenType::Emoji))
    } else if fits(s, i, punct_len(s, i)) {
        Some((punct_len(s, i), TokenType::Punct))
    } else if fits(s, i, hyphen_len(s, i)) {
        Some((hyphen_len(s, i), TokenType::WordHyphen))
    } else if fits(s, i, word_len(s, i)) {
        Some((word_len(s, i), TokenType::Word))
    } else if fits(s, i, symbol_len(s, i)) {
        Some((symbol_len(s, i), TokenType::Symbol))
    } else if fits(s, i, nonword_len(s, i)) {
        Some((nonword_len(s, i), TokenType::NonWord))
    } else {
        None
    }
}

/// The spans `(start, end, category)` of the tokens of `s` from offset `i` on:
/// where a category matches, its token is taken and the scan resumes after it;
/// where none does, one character is dropped.
pub open spec fn spans_from(s: Seq<char>, i: int, ph: Seq<Seq<char>>) -> Seq<(int, int, TokenType)>
    decreases s.len() - i,
    via spans_from_decreases
{
    if i < 0 || i >= s.len() {
        seq![]
    } else {
        match first_match(s, i, ph) {
            Some((n, t)) => seq![(i, i + n, t)] + spans_from(s, i + n, ph),
            None => spans_from(s, i + 1, ph),
        }
    }
}

#[via_fn]
proof fn spans_from_decreases(s: Seq<char>, i: int, ph: Seq<Seq<char>>) {
    lemma_first_match_fits(s, i, ph);
}

/// A match is never empty and never runs past the end of the text.
pub proof fn lemma_first_match_fits(s: Seq<char>, i: int, ph: Seq<Seq<char>>)
    ensures
        first_match(s, i, ph) matches Some((n, _)) ==> fits(s, i, n),
{
    reveal(first_match);
}

/// The tokens of `s`, with fixed phrases `ph`.
pub open spec fn spans(s: Seq<char>, ph: Seq<Seq<char>>) -> Seq<(int, int, TokenType)> {
    spans_from(s, 0, ph)
}

/// `toks` holds, in order, the text and category of each span of `sp` over `s`.
pub open spec fn tokens_of(s: Seq<char>, sp: Seq<(int, int, TokenType)>, toks: Seq<Token>) -> bool {
    &&& toks.len() == sp.len()
    &&& forall|k: int|
        0 <= k < sp.len() ==> (#[trigger] toks[k]).text@ == s.subrange(sp[k].0, sp[k].1)
            && toks[k].token_type == sp[k].2
}

/// `s` without its whitespace.
pub open spec fn strip_space(s: Seq<char>) -> Seq<char> {
    s.filter(|c: char| !is_space(c))
}

/// The texts of the spans `sp` over `s`, concatenated in order.
pub open spec fn joined(s: Seq<char>, sp: Seq<(int, int, TokenType)>) -> Seq<char>
    decreases sp.len(),
{
    if sp.len() == 0 {
        seq![]
    } else {
        s.subrange(sp[0].0, sp[0].1) + joined(s, sp.drop_first())
    }
}

/// Where no category matches, the character is whitespace: `Word` takes every
/// word character and `NonWord` every other non-whitespace one.
pub proof fn lemma_no_match_is_space(s: Seq<char>, i: int, ph: Seq<Seq<char>>)
    requires
        0 <= i < s.len(),
        first_match(s, i, ph) is None,
    ensures
        is_space(s[i]),
{
    reveal(first_match);
    lemma_run_bound(s, i, CharClass::Word);
}

proof fn lemma_spans_from_cover(s: Seq<char>, i: int, ph: Seq<Seq<char>>)
    requires
        0 <= i <= s.len(),
    ensures
        strip_space(joined(s, spans_from(s, i, ph))) == strip_space(s.subrange(i, s.len() as int)),
    decreases s.len() - i,
{
    let pred = |c: char| !is_space(c);
    if i == s.len() {
        assert(s.subrange(i, s.len() as int) =~= seq![]);
        assert(strip_space(seq![]) =~= seq![]);
    } else {
        match first_match(s, i, ph) {
            Some((n, t)) => {
                lemma_first_match_fits(s, i, ph);
                let rest = spans_from(s, i + n, ph);
                let sp = seq![(i, i + n, t)] + rest;
                assert(sp.drop_first() =~= rest);
                lemma_spans_from_cover(s, i + n, ph);
                let a = s.subrange(i, i + n);
                let b = s.subrange(i + n, s.len() as int);
                assert(joined(s, sp) == a + joined(s, rest));
                Seq::filter_distributes_over_add(a, joined(s, rest), pred);
                Seq::filter_distributes_over_add(a, b, pred);
                assert(a + b =~= s.subrange(i, s.len() as int));
            },
            None => {
                lemma_no_match_is_space(s, i, ph);
                lemma_spans_from_cover(s, i + 1, ph);
                let a = seq![s[i]];
                let b = s.subrange(i + 1, s.len() as int);
                Seq::filter_distributes_over_add(a, b, pred);
                assert(a + b =~= s.subrange(i, s.len() as int));
                reveal_with_fuel(Seq::filter, 2);
                assert(a.drop_last() =~= seq![]);
                assert(a.filter(pred) =~= seq![]);
            },
        }
    }
}

/// Every non-whitespace character of the input lies in exactly one token:
/// the token texts, concatenated in order and stripped of whitespace, are the
/// input stripped of whitespace.
pub proof fn lemma_tokens_cover_input(s: Seq<char>, ph: Seq<Seq<char>>)
    ensures
        strip_space(joined(s, spans(s, ph))) == strip_space(s),
{
    lemma_spans_from_cover(s, 0, ph);
    assert(s.subrange(0, s.len() as int) =~= s);
}

pub fn match_at(s: &[char], i: usize, ph: &[Vec<char>]) -> (r: Option<(usize, TokenType)>)
    requires
        i < s@.len(),
    ensures
        first_match(s@, i as int, ph.deep_view()) == match r {
            Some((n, t)) => Some((n as nat, t)),
            None => None,
        },
        r matches Some((n, _)) ==> 0 < n && i + n <= s@.len(),
{
    reveal(first_match);
    let n = match_fixed(s, i, ph);
    if n > 0 {
        return Some((n, TokenType::FixedWords));
    }
    let n = match_special(s, i);
    if n > 0 {
        return Some((n, TokenType::Special));
    }
    let n = match_abbr(s, i);
    if n > 0 {
        return Some((n, TokenType::Abbreviation));
    }
    let n = match_url(s, i);
    if n > 0 {
        return Some((n, TokenType::Url));
    }
    let n = match_email(s, i);
    if n > 0 {
        return Some((n, TokenType::Email));
    }
    let n = match_phone(s, i);
    if n > 0 {
        return Some((n, TokenType::Phone));
    }
    let n = match_datetime(s, i);
    if n > 0 {
        return Some((n, TokenType::DateTime));
    }
    let n = match_name(s, i);
    if n > 0 {
        return Some((n, TokenType::Name));
    }
    let n = match_number(s, i);
    if n > 0 {
        return Some((n, TokenType::Number));
    }
    let n = match_emoji(s, i);
    if n > 0 {
        return Some((n, TokenType::Emoji));
    }
    let n = match_punct(s, i);
    if n > 0 {
        return Some((n, TokenType::Punct));
    }
    let n = match_hyphen(s, i);
    if n > 0 {
        return Some((n, TokenType::WordHyphen));
    }
    let n = run_len(s, i, CharClass::Word);
    if n > 0 {
        return Some((n, TokenType::Word));
    }
    let n = match_symbol(s, i);
    if n > 0 {
        return Some((n, TokenType::Symbol));
    }
    let n = match_nonword(s, i);
    if n > 0 {
        return Some((n, TokenType::NonWord));
    }
    None
}

/// Classifies `s` with the fixed phrases `ph`.
pub fn classify_chars(s: &[char], ph: &[Vec<char>]) -> (r: Vec<Token>)
    ensures
        tokens_of(s@, spans(s@, ph.deep_view()), r@),
{
    let ghost pv = ph.deep_view();
    let n = s.len();
    let mut out: Vec<Token> = Vec::new();
    let ghost mut done: Seq<(int, int, TokenType)> = seq![];
    let mut i: usize = 0;
    assert(done + spans_from(s@, 0, pv) =~= spans_from(s@, 0, pv));
    while i < n
        invariant
            i <= n,
            n == s@.len(),
            pv == ph.deep_view(),
            done + spans_from(s@, i as int, pv) == spans_from(s@, 0, pv),
            tokens_of(s@, done, out@),
        decreases n - i,
    {
        match match_at(s, i, ph) {
            Some((m, t)) => {
                let text = string_of(s, i, i + m);
                let ghost x = (i as int, (i + m) as int, t);
                assert(spans_from(s@, i as int, pv) == seq![x] + spans_from(
                    s@,
                    (i + m) as int,
                    pv,
                ));
                assert(done.push(x) + spans_from(s@, (i + m) as int, pv) =~= done + (seq![x]
                    + spans_from(s@, (i + m) as int, pv)));
                out.push(Token { text, token_type: t });
                proof {
                    done = done.push(x);
                }
                i = i + m;
            },
            None => {
                i = i + 1;
            },
        }
    }
    assert(done + spans_from(s@, n as int, pv) =~= done);
    out
}

/// Splits `text` into classified tokens. Fixed phrases take priority over all
/// other categories; whitespace between tokens is dropped.
pub fn classify(text: &str, fixed_words: &[String]) -> (r: Vec<Token>)
    ensures
        tokens_of(text@, spans(text@, fixed_words.deep_view()), r@),
{
    let s = chars_of(text);
    let ph = char_vecs(fixed_words);
    classify_chars(s.as_slice(), ph.as_slice())
}

} // verus!
