//! Character classes and small text primitives shared by the normalizer,
//! the token classifier and the tagger. Text is handled as a sequence of
//! Unicode scalar values (`Seq<char>` in specifications, `&[char]` at run time).
use vstd::prelude::*;

verus! {

/// Unicode `White_Space`.
pub open spec fn is_space(c: char) -> bool {
    ('\u{9}' <= c && c <= '\u{d}') || c == ' ' || c == '\u{85}' || c == '\u{a0}' || c == '\u{1680}'
        || ('\u{2000}' <= c && c <= '\u{200a}') || c == '\u{2028}' || c == '\u{2029}' || c
        == '\u{202f}' || c == '\u{205f}' || c == '\u{3000}'
}

pub fn is_space_char(c: char) -> (r: bool)
    ensures
        r == is_space(c),
{
    ('\u{9}' <= c && c <= '\u{d}') || c == ' ' || c == '\u{85}' || c == '\u{a0}' || c == '\u{1680}'
        || ('\u{2000}' <= c && c <= '\u{200a}') || c == '\u{2028}' || c == '\u{2029}' || c
        == '\u{202f}' || c == '\u{205f}' || c == '\u{3000}'
}

pub open spec fn is_digit(c: char) -> bool {
    '0' <= c && c <= '9'
}

pub open spec fn is_ascii_upper(c: char) -> bool {
    'A' <= c && c <= 'Z'
}

pub open spec fn is_ascii_lower(c: char) -> bool {
    'a' <= c && c <= 'z'
}

/// Upper-case Vietnamese letters outside ASCII: the accented vowels of
/// Latin-1, the letters Ă Đ Ĩ Ũ Ơ Ư, and the even code points of the
/// Vietnamese range U+1EA0..U+1EF9.
pub open spec fn is_viet_upper(c: char) -> bool {
    ('\u{c0}' <= c && c <= '\u{c3}') || ('\u{c8}' <= c && c <= '\u{ca}') || c == '\u{cc}' || c
        == '\u{cd}' || ('\u{d2}' <= c && c <= '\u{d5}') || c == '\u{d9}' || c == '\u{da}' || c
        == '\u{dd}' || c == '\u{102}' || c == '\u{110}' || c == '\u{128}' || c == '\u{168}' || c
        == '\u{1a0}' || c == '\u{1af}' || ('\u{1ea0}' <= c && c <= '\u{1ef8}' && (c as u32) % 2
        == 0)
}

/// Lower-case Vietnamese letters outside ASCII, the partners of `is_viet_upper`.
pub open spec fn is_viet_lower(c: char) -> bool {
    ('\u{e0}' <= c && c <= '\u{e3}') || ('\u{e8}' <= c && c <= '\u{ea}') || c == '\u{ec}' || c
        == '\u{ed}' || ('\u{f2}' <= c && c <= '\u{f5}') || c == '\u{f9}' || c == '\u{fa}' || c
        == '\u{fd}' || c == '\u{103}' || c == '\u{111}' || c == '\u{129}' || c == '\u{169}' || c
        == '\u{1a1}' || c == '\u{1b0}' || ('\u{1ea1}' <= c && c <= '\u{1ef9}' && (c as u32) % 2
        == 1)
}

/// The combining marks that spell Vietnamese tones and vowel shapes in
/// decomposed text (grave, acute, circumflex, tilde, breve, hook, horn, dot below).
pub open spec fn is_viet_mark(c: char) -> bool {
    c == '\u{300}' || c == '\u{301}' || c == '\u{302}' || c == '\u{303}' || c == '\u{306}' || c
        == '\u{309}' || c == '\u{31b}' || c == '\u{323}'
}

/// Upper-case letters: ASCII and Vietnamese.
pub open spec fn is_upper(c: char) -> bool {
    is_ascii_upper(c) || is_viet_upper(c)
}

/// Word characters: ASCII letters and digits, the Vietnamese letters and their marks.
pub open spec fn is_word(c: char) -> bool {
    is_ascii_upper(c) || is_ascii_lower(c) || is_digit(c) || is_viet_upper(c) || is_viet_lower(c)
        || is_viet_mark(c)
}

pub fn is_viet_upper_char(c: char) -> (r: bool)
    ensures
        r == is_viet_upper(c),
{
    ('\u{c0}' <= c && c <= '\u{c3}') || ('\u{c8}' <= c && c <= '\u{ca}') || c == '\u{cc}' || c
        == '\u{cd}' || ('\u{d2}' <= c && c <= '\u{d5}') || c == '\u{d9}' || c == '\u{da}' || c
        == '\u{dd}' || c == '\u{102}' || c == '\u{110}' || c == '\u{128}' || c == '\u{168}' || c
        == '\u{1a0}' || c == '\u{1af}' || ('\u{1ea0}' <= c && c <= '\u{1ef8}' && (c as u32) % 2
        == 0)
}

pub fn is_viet_lower_char(c: char) -> (r: bool)
    ensures
        r == is_viet_lower(c),
{
    ('\u{e0}' <= c && c <= '\u{e3}') || ('\u{e8}' <= c && c <= '\u{ea}') || c == '\u{ec}' || c
        == '\u{ed}' || ('\u{f2}' <= c && c <= '\u{f5}') || c == '\u{f9}' || c == '\u{fa}' || c
        == '\u{fd}' || c == '\u{103}' || c == '\u{111}' || c == '\u{129}' || c == '\u{169}' || c
        == '\u{1a1}' || c == '\u{1b0}' || ('\u{1ea1}' <= c && c <= '\u{1ef9}' && (c as u32) % 2
        == 1)
}

pub fn is_word_char(c: char) -> (r: bool)
    ensures
        r == is_word(c),
{
    ('A' <= c && c <= 'Z') || ('a' <= c && c <= 'z') || ('0' <= c && c <= '9')
        || is_viet_upper_char(c) || is_viet_lower_char(c) || c == '\u{300}' || c == '\u{301}' || c
        == '\u{302}' || c == '\u{303}' || c == '\u{306}' || c == '\u{309}' || c == '\u{31b}' || c
        == '\u{323}'
}

/// The character sets that the token grammar is written over.
#[derive(Clone, Copy)]
pub enum CharClass {
    /// `0-9`
    Digit,
    /// `A-Z`
    AsciiUpper,
    /// `A-Z` and `Đ`
    AsciiUpperOrDd,
    /// `a-z`
    AsciiLower,
    /// `a-z0-9`
    LowerAlnum,
    /// Upper-case letters, ASCII and Vietnamese.
    Upper,
    /// Word characters.
    Word,
    /// Word characters, `+` and `-`.
    WordPlusMinus,
    /// `a-z0-9.-`: the host part of a domain written before a path.
    Host,
    /// Anything but whitespace and `()<>{}[]`: the body of a URL.
    UrlBody,
    /// What a URL may end with: no whitespace, brackets, quotes or sentence punctuation.
    UrlEnd,
    /// `a-zA-Z0-9_.+-`: the local part of an e-mail address.
    MailLocal,
    /// `a-zA-Z0-9-`: the first label of an e-mail domain.
    MailDomain,
    /// `a-zA-Z0-9.-`: the rest of an e-mail domain.
    MailTail,
    /// Anything but whitespace.
    NotSpace,
    /// Exactly this character.
    Is(char),
}

pub open spec fn class_has(k: CharClass, c: char) -> bool {
    match k {
        CharClass::Digit => is_digit(c),
        CharClass::AsciiUpper => is_ascii_upper(c),
        CharClass::AsciiUpperOrDd => is_ascii_upper(c) || c == '\u{110}',
        CharClass::AsciiLower => is_ascii_lower(c),
        CharClass::LowerAlnum => is_ascii_lower(c) || is_digit(c),
        CharClass::Upper => is_upper(c),
        CharClass::Word => is_word(c),
        CharClass::WordPlusMinus => is_word(c) || c == '+' || c == '-',
        CharClass::Host => is_ascii_lower(c) || is_digit(c) || c == '.' || c == '-',
        CharClass::UrlBody => !is_space(c) && c != '(' && c != ')' && c != '<' && c != '>' && c
            != '{' && c != '}' && c != '[' && c != ']',
        CharClass::UrlEnd => !is_space(c) && c != '`' && c != '!' && c != '(' && c != ')' && c
            != '[' && c != ']' && c != '{' && c != '}' && c != ';' && c != ':' && c != '\'' && c
            != '"' && c != '.' && c != ',' && c != '<' && c != '>' && c != '?' && c != '\u{ab}'
            && c != '\u{bb}',
        CharClass::MailLocal => is_ascii_upper(c) || is_ascii_lower(c) || is_digit(c) || c == '_'
            || c == '.' || c == '+' || c == '-',
        CharClass::MailDomain => is_ascii_upper(c) || is_ascii_lower(c) || is_digit(c) || c
            == '-',
        CharClass::MailTail => is_ascii_upper(c) || is_ascii_lower(c) || is_digit(c) || c == '-'
            || c == '.',
        CharClass::NotSpace => !is_space(c),
        CharClass::Is(x) => c == x,
    }
}

pub fn in_class(k: CharClass, c: char) -> (r: bool)
    ensures
        r == class_has(k, c),
{
    match k {
        CharClass::Digit => '0' <= c && c <= '9',
        CharClass::AsciiUpper => 'A' <= c && c <= 'Z',
        CharClass::AsciiUpperOrDd => ('A' <= c && c <= 'Z') || c == '\u{110}',
        CharClass::AsciiLower => 'a' <= c && c <= 'z',
        CharClass::LowerAlnum => ('a' <= c && c <= 'z') || ('0' <= c && c <= '9'),
        CharClass::Upper => ('A' <= c && c <= 'Z') || is_viet_upper_char(c),
        CharClass::Word => is_word_char(c),
        CharClass::WordPlusMinus => is_word_char(c) || c == '+' || c == '-',
        CharClass::Host => ('a' <= c && c <= 'z') || ('0' <= c && c <= '9') || c == '.' || c
            == '-',
        CharClass::UrlBody => !is_space_char(c) && c != '(' && c != ')' && c != '<' && c != '>'
            && c != '{' && c != '}' && c != '[' && c != ']',
        CharClass::UrlEnd => !is_space_char(c) && c != '`' && c != '!' && c != '(' && c != ')'
            && c != '[' && c != ']' && c != '{' && c != '}' && c != ';' && c != ':' && c != '\''
            && c != '"' && c != '.' && c != ',' && c != '<' && c != '>' && c != '?' && c
            != '\u{ab}' && c != '\u{bb}',
        CharClass::MailLocal => ('A' <= c && c <= 'Z') || ('a' <= c && c <= 'z') || ('0' <= c
            && c <= '9') || c == '_' || c == '.' || c == '+' || c == '-',
        CharClass::MailDomain => ('A' <= c && c <= 'Z') || ('a' <= c && c <= 'z') || ('0' <= c
            && c <= '9') || c == '-',
        CharClass::MailTail => ('A' <= c && c <= 'Z') || ('a' <= c && c <= 'z') || ('0' <= c
            && c <= '9') || c == '-' || c == '.',
        CharClass::NotSpace => !is_space_char(c),
        CharClass::Is(x) => c == x,
    }
}

/// The character sequences of `v`.
pub open spec fn texts(v: Seq<String>) -> Seq<Seq<char>> {
    v.map_values(|s: String| s@)
}

/// `s[i]` exists and is `c`.
pub open spec fn ch(s: Seq<char>, i: int, c: char) -> bool {
    0 <= i < s.len() && s[i] == c
}

/// `s[i]` exists and belongs to `k`.
pub open spec fn cls(s: Seq<char>, i: int, k: CharClass) -> bool {
    0 <= i < s.len() && class_has(k, s[i])
}

/// `s[i]` exists and is a word character.
pub open spec fn word_at(s: Seq<char>, i: int) -> bool {
    cls(s, i, CharClass::Word)
}

/// A word boundary at offset `i`: a word character on exactly one side.
pub open spec fn boundary(s: Seq<char>, i: int) -> bool {
    word_at(s, i - 1) != word_at(s, i)
}

/// The length of the longest run of `k` characters that starts at `i`.
pub open spec fn run(s: Seq<char>, i: int, k: CharClass) -> nat
    decreases s.len() - i,
{
    if 0 <= i < s.len() && class_has(k, s[i]) {
        1 + run(s, i + 1, k)
    } else {
        0
    }
}

/// The largest end `e`, with `lo <= e <= hi`, such that `s[e - 1]` belongs to `k`; 0 if none.
pub open spec fn last_in(s: Seq<char>, lo: int, hi: int, k: CharClass) -> nat
    decreases hi - lo,
{
    if hi < lo || hi < 1 {
        0
    } else if cls(s, hi - 1, k) {
        hi as nat
    } else if hi == lo {
        0
    } else {
        last_in(s, lo, hi - 1, k)
    }
}

/// Whether `p` occurs in `s` at offset `i`: its length if so, else 0.
pub open spec fn lit(s: Seq<char>, i: int, p: Seq<char>) -> nat {
    if 0 <= i && i + p.len() <= s.len() && s.subrange(i, i + p.len()) == p {
        p.len()
    } else {
        0
    }
}

pub proof fn lemma_run_bound(s: Seq<char>, i: int, k: CharClass)
    requires
        0 <= i,
    ensures
        i + run(s, i, k) <= s.len() || run(s, i, k) == 0,
        run(s, i, k) > 0 ==> i < s.len() && class_has(k, s[i]),
    decreases s.len() - i,
{
    if 0 <= i < s.len() && class_has(k, s[i]) {
        lemma_run_bound(s, i + 1, k);
    }
}

pub proof fn lemma_last_in_bound(s: Seq<char>, lo: int, hi: int, k: CharClass)
    ensures
        last_in(s, lo, hi, k) > 0 ==> lo <= last_in(s, lo, hi, k) <= hi && cls(
            s,
            last_in(s, lo, hi, k) - 1,
            k,
        ),
    decreases hi - lo,
{
    if hi >= lo && hi >= 1 && !cls(s, hi - 1, k) && hi != lo {
        lemma_last_in_bound(s, lo, hi - 1, k);
    }
}

pub fn ch_at(s: &[char], i: usize, c: char) -> (r: bool)
    ensures
        r == ch(s@, i as int, c),
{
    i < s.len() && s[i] == c
}

pub fn cls_at(s: &[char], i: usize, k: CharClass) -> (r: bool)
    ensures
        r == cls(s@, i as int, k),
{
    i < s.len() && in_class(k, s[i])
}

pub fn boundary_at(s: &[char], i: usize) -> (r: bool)
    requires
        i <= s@.len(),
    ensures
        r == boundary(s@, i as int),
{
    let before = i > 0 && cls_at(s, i - 1, CharClass::Word);
    let after = cls_at(s, i, CharClass::Word);
    before != after
}

pub fn run_len(s: &[char], i: usize, k: CharClass) -> (r: usize)
    requires
        i <= s@.len(),
    ensures
        r == run(s@, i as int, k),
        i + r <= s@.len(),
{
    let n = s.len();
    let mut j = i;
    while j < n && in_class(k, s[j])
        invariant
            i <= j <= n,
            n == s@.len(),
            run(s@, i as int, k) == (j - i) + run(s@, j as int, k),
        decreases n - j,
    {
        j += 1;
    }
    j - i
}

pub fn last_in_range(s: &[char], lo: usize, hi: usize, k: CharClass) -> (r: usize)
    requires
        hi <= s@.len(),
    ensures
        r == last_in(s@, lo as int, hi as int, k),
        r <= hi,
{
    let mut e = hi;
    while e >= lo && e >= 1
        invariant
            e <= hi,
            hi <= s@.len(),
            last_in(s@, lo as int, hi as int, k) == last_in(s@, lo as int, e as int, k),
        decreases e,
    {
        if cls_at(s, e - 1, k) {
            return e;
        }
        if e == lo {
            return 0;
        }
        e -= 1;
    }
    0
}

pub fn lit_len(s: &[char], i: usize, p: &[char]) -> (r: usize)
    ensures
        r == lit(s@, i as int, p@),
        r > 0 ==> i + r <= s@.len(),
{
    let n = s.len();
    if i > n || p.len() > n - i {
        return 0;
    }
    let mut j: usize = 0;
    while j < p.len()
        invariant
            j <= p@.len(),
            i + p@.len() <= s@.len(),
            n == s@.len(),
            forall|t: int| 0 <= t < j ==> s@[i + t] == p@[t],
        decreases p@.len() - j,
    {
        if s[i + j] != p[j] {
            assert(s@.subrange(i as int, i + p@.len())[j as int] != p@[j as int]);
            return 0;
        }
        j += 1;
    }
    assert(s@.subrange(i as int, i + p@.len()) =~= p@);
    p.len()
}

pub fn append_chars(out: &mut Vec<char>, v: &[char])
    ensures
        final(out)@ == old(out)@ + v@,
{
    let mut j: usize = 0;
    while j < v.len()
        invariant
            j <= v@.len(),
            out@ == old(out)@ + v@.subrange(0, j as int),
        decreases v@.len() - j,
    {
        out.push(v[j]);
        j += 1;
        assert(out@ =~= old(out)@ + v@.subrange(0, j as int));
    }
    assert(v@.subrange(0, v@.len() as int) =~= v@);
}

/// The characters of each of `words`.
pub fn char_vecs(words: &[String]) -> (r: Vec<Vec<char>>)
    ensures
        r.deep_view() == words.deep_view(),
        r@.len() == words@.len(),
{
    let mut out: Vec<Vec<char>> = Vec::new();
    let mut k: usize = 0;
    while k < words.len()
        invariant
            k <= words@.len(),
            out@.len() == k,
            forall|j: int| 0 <= j < k ==> (#[trigger] out@[j]).deep_view() == words@[j]@,
        decreases words@.len() - k,
    {
        let v = chars_of(words[k].as_str());
        assert(v.deep_view() =~= v@);
        out.push(v);
        k += 1;
    }
    assert(out.deep_view() =~= words.deep_view());
    out
}

/// `a` followed by `b`.
pub fn concat_chars(a: &[char], b: &[char]) -> (r: Vec<char>)
    ensures
        r@ == a@ + b@,
{
    let mut out: Vec<char> = Vec::new();
    append_chars(&mut out, a);
    append_chars(&mut out, b);
    assert(out@ =~= a@ + b@);
    out
}

pub fn chars_eq(a: &[char], b: &[char]) -> (r: bool)
    ensures
        r == (a@ == b@),
{
    if a.len() != b.len() {
        return false;
    }
    let mut j: usize = 0;
    while j < a.len()
        invariant
            j <= a@.len(),
            a@.len() == b@.len(),
            forall|t: int| 0 <= t < j ==> a@[t] == b@[t],
        decreases a@.len() - j,
    {
        if a[j] != b[j] {
            return false;
        }
        j += 1;
    }
    assert(a@ =~= b@);
    true
}

/// Relies on `str::chars`, collected into a `Vec`: the characters of `s`, in order.
#[verifier::external_body]
pub(crate) fn chars_of(s: &str) -> (r: Vec<char>)
    ensures
        r@ == s@,
{
    s.chars().collect()
}

/// Relies on `String`'s `FromIterator<char>`: the string of the characters
/// `cs[from..to]`.
#[verifier::external_body]
pub(crate) fn string_of(cs: &[char], from: usize, to: usize) -> (r: String)
    requires
        from <= to <= cs@.len(),
    ensures
        r@ == cs@.subrange(from as int, to as int),
{
    cs[from..to].iter().collect()
}

} // verus!
