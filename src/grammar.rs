//! The token grammar: one matcher per category. Each matcher is stated as a
//! spec function giving the length of the token that starts at offset `i`
//! (0 when the category does not match there), and implemented by an
//! executable function proved equal to it. Within a category the
//! alternatives are tried in order and the first that matches wins;
//! repetition is greedy.
use vstd::prelude::*;
use crate::text::{
    boundary, boundary_at, ch, ch_at, cls, cls_at, is_space, is_space_char, is_word, is_word_char,
    last_in, last_in_range, lemma_last_in_bound, lit, lit_len, run, run_len,
    word_at, CharClass,
};

verus! {

/// Total length of the greedy repetition of (`sep`, then a non-empty run of `k`) at `j`.
pub open spec fn groups(s: Seq<char>, j: int, sep: char, k: CharClass) -> nat
    decreases s.len() - j,
{
    if ch(s, j, sep) && run(s, j + 1, k) > 0 && j + 1 + run(s, j + 1, k) <= s.len() {
        1 + run(s, j + 1, k) + groups(s, j + 1 + run(s, j + 1, k), sep, k)
    } else {
        0
    }
}

/// Length of the run of `k` characters that ends just before `j`, not reaching below `lo`.
pub open spec fn back_run(s: Seq<char>, lo: int, j: int, k: CharClass) -> nat
    decreases j - lo,
{
    if j > lo && cls(s, j - 1, k) {
        1 + back_run(s, lo, j - 1, k)
    } else {
        0
    }
}

/// Arrows, ellipses, dash runs, `NxM` dimensions, `v.v` forms and degree markers.
pub open spec fn special_len(s: Seq<char>, i: int) -> nat {
    let dots = run(s, i, CharClass::Is('.'));
    let dashes = run(s, i, CharClass::Is('-'));
    let d1 = run(s, i, CharClass::Digit);
    let d2 = run(s, i + d1 + 1, CharClass::Digit);
    if lit(s, i, seq!['=', '>']) > 0 {
        2
    } else if lit(s, i, seq!['=', '=', '>']) > 0 {
        3
    } else if lit(s, i, seq!['-', '>']) > 0 {
        2
    } else if dots >= 2 {
        dots
    } else if dashes >= 2 {
        dashes
    } else if lit(s, i, seq!['>', '>']) > 0 {
        2
    } else if d1 > 0 && ch(s, i + d1, 'x') && d2 > 0 {
        d1 + 1 + d2
    } else if lit(s, i, seq!['v', '.', 'v', '.', '.', '.']) > 0 {
        6
    } else if lit(s, i, seq!['v', '.', 'v', '.']) > 0 {
        4
    } else if lit(s, i, seq!['v', '.', 'v']) > 0 {
        3
    } else if ch(s, i, '\u{b0}') && (ch(s, i + 1, 'C') || ch(s, i + 1, 'F')) {
        2
    } else {
        0
    }
}

/// Acronyms joined by `&`, dotted acronym chains, contractions, honorifics and
/// administrative codes.
pub open spec fn abbr_len(s: Seq<char>, i: int) -> nat {
    let a = run(s, i, CharClass::AsciiUpperOrDd);
    let b = run(s, i + a + 1, CharClass::AsciiUpperOrDd);
    let u = run(s, i, CharClass::Upper);
    let g = groups(s, i + u, '.', CharClass::Word);
    let w1 = run(s, i, CharClass::Word);
    let w2 = run(s, i + w1 + 1, CharClass::Word);
    let d1 = run(s, i, CharClass::Digit);
    let a2 = run(s, i + d1, CharClass::AsciiUpper);
    let d2 = run(s, i + d1 + a2, CharClass::Digit);
    let d3 = run(s, i + d1 + a2 + d2 + 1, CharClass::Digit);
    if a > 0 && ch(s, i + a, '&') && b > 0 {
        a + 1 + b
    } else if lit(s, i, seq!['T', '.', '\u{1af}']) > 0 {
        3
    } else if u > 0 && g > 0 {
        u + g + if ch(s, i + u + g, '.') {
            1nat
        } else {
            0nat
        }
    } else if w1 > 0 && ch(s, i + w1, '\'') && w2 > 0 {
        w1 + 1 + w2
    } else if a > 0 && ch(s, i + a, '.') {
        a + 1
    } else if lit(s, i, seq!['T', 'p', '.']) > 0 {
        3
    } else if lit(s, i, seq!['M', 'r', '.']) > 0 {
        3
    } else if lit(s, i, seq!['M', 'r', 's', '.']) > 0 {
        4
    } else if lit(s, i, seq!['M', 's', '.']) > 0 {
        3
    } else if lit(s, i, seq!['D', 'r', '.']) > 0 {
        3
    } else if lit(s, i, seq!['T', 'h', 'S', '.']) > 0 {
        4
    } else if lit(s, i, seq!['T', 'h', '.', 'S']) > 0 {
        4
    } else if lit(s, i, seq!['T', 'h', '.', 's']) > 0 {
        4
    } else if lit(s, i, seq!['e', '-', 'm', 'a', 'i', 'l']) > 0 {
        6
    } else if d1 > 0 && a2 > 0 && ch(s, i + d1 + a2 + d2, '-') && d3 > 0 {
        d1 + a2 + d2 + 1 + d3
    } else if lit(s, i, seq!['N', '\u{110}', '-', 'C', 'P']) > 0 {
        5
    } else {
        0
    }
}

/// `http:`, `https:`, `ftp:` or `ftps:` at `i`: its length, else 0.
pub open spec fn scheme_len(s: Seq<char>, i: int) -> nat {
    if lit(s, i, seq!['h', 't', 't', 'p', 's', ':']) > 0 {
        6
    } else if lit(s, i, seq!['h', 't', 't', 'p', ':']) > 0 {
        5
    } else if lit(s, i, seq!['f', 't', 'p', 's', ':']) > 0 {
        5
    } else if lit(s, i, seq!['f', 't', 'p', ':']) > 0 {
        4
    } else {
        0
    }
}

/// A URL with a scheme: the scheme, then at least three body characters that
/// start with `/` or `[a-z0-9%]`, ending at the last character that may end a URL.
pub open spec fn url_scheme_len(s: Seq<char>, i: int) -> nat {
    let c = i + scheme_len(s, i);
    let e = last_in(s, c + 3, c + run(s, c, CharClass::UrlBody), CharClass::UrlEnd);
    if scheme_len(s, i) > 0 && (ch(s, c, '/') || cls(s, c, CharClass::LowerAlnum) || ch(
        s,
        c,
        '%',
    )) && e > 0 {
        (e - i) as nat
    } else {
        0
    }
}

/// A URL written as `host.tld/` and a path of at least two characters.
pub open spec fn url_host_len(s: Seq<char>, i: int) -> nat {
    let h = run(s, i, CharClass::Host);
    let p = i + h;
    let m = back_run(s, i, p, CharClass::AsciiLower);
    let e = last_in(s, p + 3, p + 1 + run(s, p + 1, CharClass::UrlBody), CharClass::UrlEnd);
    if ch(s, p, '/') && 2 <= m <= 13 && h >= m + 2 && ch(s, p - m - 1, '.') && e > 0 {
        (e - i) as nat
    } else {
        0
    }
}

/// The end of the chain `[a-z0-9]+([.-][a-z0-9]+)*` that starts at `j`.
pub open spec fn chain_end(s: Seq<char>, j: int) -> int
    decreases s.len() - j,
{
    let x = run(s, j, CharClass::LowerAlnum);
    if (ch(s, j + x, '.') || ch(s, j + x, '-')) && run(s, j + x + 1, CharClass::LowerAlnum) > 0 {
        chain_end(s, j + x + 1)
    } else {
        j + x
    }
}

/// A top-level domain at `p`: a dot after a letter or digit, then 2 to 13
/// lower-case letters that end at a word boundary.
pub open spec fn tld_at(s: Seq<char>, p: int) -> bool {
    let t = run(s, p + 1, CharClass::AsciiLower);
    ch(s, p, '.') && cls(s, p - 1, CharClass::LowerAlnum) && 2 <= t <= 13 && !word_at(
        s,
        p + 1 + t,
    )
}

/// The last `p`, with `lo < p <= hi`, at which a top-level domain starts; 0 if none.
pub open spec fn last_tld(s: Seq<char>, lo: int, hi: int) -> int
    decreases hi - lo,
{
    if hi <= lo {
        0
    } else if tld_at(s, hi) {
        hi
    } else {
        last_tld(s, lo, hi - 1)
    }
}

/// A bare domain name such as `example.com`, with an optional trailing `/`.
pub open spec fn url_domain_len(s: Seq<char>, i: int) -> nat {
    let p = last_tld(s, i, chain_end(s, i));
    let q = p + 1 + run(s, p + 1, CharClass::AsciiLower);
    if run(s, i, CharClass::LowerAlnum) > 0 && p > 0 {
        (q - i) as nat + if ch(s, q, '/') {
            1nat
        } else {
            0nat
        }
    } else {
        0
    }
}

pub open spec fn url_len(s: Seq<char>, i: int) -> nat {
    if url_scheme_len(s, i) > 0 {
        url_scheme_len(s, i)
    } else if url_host_len(s, i) > 0 {
        url_host_len(s, i)
    } else {
        url_domain_len(s, i)
    }
}

/// `local@domain.tail`.
pub open spec fn email_len(s: Seq<char>, i: int) -> nat {
    let l = run(s, i, CharClass::MailLocal);
    let d = run(s, i + l + 1, CharClass::MailDomain);
    let t = run(s, i + l + d + 2, CharClass::MailTail);
    if l > 0 && ch(s, i + l, '@') && d > 0 && ch(s, i + l + 1 + d, '.') && t > 0 {
        l + d + t + 2
    } else {
        0
    }
}

/// Three dash-separated digit groups of at least 2, 3 and 3 digits.
pub open spec fn phone_len(s: Seq<char>, i: int) -> nat {
    let a = run(s, i, CharClass::Digit);
    let b = run(s, i + a + 1, CharClass::Digit);
    let c = run(s, i + a + b + 2, CharClass::Digit);
    if a >= 2 && ch(s, i + a, '-') && b >= 3 && ch(s, i + a + 1 + b, '-') && c >= 3 {
        a + b + c + 2
    } else {
        0
    }
}

/// A digit run of one or two digits at `j`: its length, else 0.
pub open spec fn d12(s: Seq<char>, j: int) -> nat {
    let r = run(s, j, CharClass::Digit);
    if 1 <= r <= 2 {
        r
    } else {
        0
    }
}

/// `dd<sep>dd<sep>d+`, each `dd` one or two digits.
pub open spec fn dmy_len(s: Seq<char>, i: int, sep: char) -> nat {
    let a = d12(s, i);
    let b = d12(s, i + a + 1);
    let c = run(s, i + a + b + 2, CharClass::Digit);
    if a > 0 && ch(s, i + a, sep) && b > 0 && ch(s, i + a + 1 + b, sep) && c > 0 {
        a + b + c + 2
    } else {
        0
    }
}

/// `dd<sep>` and then up to four digits.
pub open spec fn dm_len(s: Seq<char>, i: int, sep: char) -> nat {
    let a = d12(s, i);
    let r = run(s, i + a + 1, CharClass::Digit);
    let c: nat = if r > 4 {
        4
    } else {
        r
    };
    if a > 0 && ch(s, i + a, sep) && c > 0 {
        a + 1 + c
    } else {
        0
    }
}

/// `yyyy/mm/dd`, the day taking at most two digits.
pub open spec fn ymd_len(s: Seq<char>, i: int) -> nat {
    let b = d12(s, i + 5);
    let r = run(s, i + 6 + b, CharClass::Digit);
    let c: nat = if r > 2 {
        2
    } else {
        r
    };
    if run(s, i, CharClass::Digit) == 4 && ch(s, i + 4, '/') && b > 0 && ch(s, i + 5 + b, '/')
        && c > 0 {
        6 + b + c
    } else {
        0
    }
}

/// `hh:mm:ss`.
pub open spec fn hms_len(s: Seq<char>, i: int) -> nat {
    if run(s, i, CharClass::Digit) == 2 && ch(s, i + 2, ':') && run(s, i + 3, CharClass::Digit)
        == 2 && ch(s, i + 5, ':') && run(s, i + 6, CharClass::Digit) >= 2 {
        8
    } else {
        0
    }
}

pub open spec fn datetime_len(s: Seq<char>, i: int) -> nat {
    if dmy_len(s, i, '/') > 0 {
        dmy_len(s, i, '/')
    } else if dm_len(s, i, '/') > 0 {
        dm_len(s, i, '/')
    } else if dmy_len(s, i, '-') > 0 {
        dmy_len(s, i, '-')
    } else if dm_len(s, i, '-') > 0 {
        dm_len(s, i, '-')
    } else if dmy_len(s, i, '.') > 0 {
        dmy_len(s, i, '.')
    } else if ymd_len(s, i) > 0 {
        ymd_len(s, i)
    } else {
        hms_len(s, i)
    }
}

/// Digits, capital letters, then optional digits (ward and lot codes).
pub open spec fn name_len(s: Seq<char>, i: int) -> nat {
    let d = run(s, i, CharClass::Digit);
    let a = run(s, i + d, CharClass::AsciiUpper);
    if d > 0 && a > 0 {
        d + a + run(s, i + d + a, CharClass::Digit)
    } else {
        0
    }
}

/// Numerals with `.`-grouped thousands and an optional `,` decimal part,
/// `,`-grouped numerals, and a digit run with at most one `.`, `,` or `_` part.
pub open spec fn number_len(s: Seq<char>, i: int) -> nat {
    let d = run(s, i, CharClass::Digit);
    let g = groups(s, i + d, '.', CharClass::Digit);
    let e = run(s, i + d + g + 1, CharClass::Digit);
    let cg = groups(s, i + d, ',', CharClass::Digit);
    let f = run(s, i + d + 1, CharClass::Digit);
    if d == 0 {
        0
    } else if g > 0 && ch(s, i + d + g, ',') && e > 0 {
        d + g + 1 + e
    } else if g > 0 {
        d + g
    } else if cg > 0 {
        d + cg
    } else if (ch(s, i + d, '.') || ch(s, i + d, ',') || ch(s, i + d, '_')) && f > 0 {
        d + 1 + f
    } else {
        d
    }
}

/// Emoticons: `:)))`, `=))`, `♥‿♥`, `:DD` before whitespace or at the end, `<3`.
pub open spec fn emoji_len(s: Seq<char>, i: int) -> nat {
    let p = run(s, i + 2, CharClass::Is(')'));
    let dd = run(s, i + 1, CharClass::Is('D'));
    if ch(s, i, ':') && ch(s, i + 1, ')') {
        2 + p
    } else if ch(s, i, '=') && ch(s, i + 1, ')') && p > 0 {
        2 + p
    } else if lit(s, i, seq!['\u{2665}', '\u{203f}', '\u{2665}']) > 0 {
        3
    } else if ch(s, i, ':') && dd > 0 && 0 <= i + 1 + dd < s.len() && is_space(s[i + 1 + dd]) {
        dd + 2
    } else if ch(s, i, ':') && dd > 0 && i + 1 + dd == s.len() {
        dd + 1
    } else if lit(s, i, seq!['<', '3']) > 0 {
        2
    } else {
        0
    }
}

pub open spec fn punct_len(s: Seq<char>, i: int) -> nat {
    if ch(s, i, '.') || ch(s, i, ',') || ch(s, i, '(') || ch(s, i, ')') || ch(s, i, '\u{2ba}') {
        1
    } else {
        0
    }
}

/// Word characters, a hyphen, then word characters, `+` and `-`, ending in a word character.
pub open spec fn hyphen_len(s: Seq<char>, i: int) -> nat {
    let w = run(s, i, CharClass::Word);
    let h = run(s, i + w + 1, CharClass::WordPlusMinus);
    let e = last_in(s, i + w + 2, i + w + 1 + h, CharClass::Word);
    if boundary(s, i) && w > 0 && ch(s, i + w, '-') && e > 0 {
        (e - i) as nat
    } else {
        0
    }
}

pub open spec fn word_len(s: Seq<char>, i: int) -> nat {
    run(s, i, CharClass::Word)
}

/// A run of colons, or one of `+ × - ÷ % $ > < = ^ _`.
pub open spec fn symbol_len(s: Seq<char>, i: int) -> nat {
    if ch(s, i, ':') {
        run(s, i, CharClass::Is(':'))
    } else if ch(s, i, '+') || ch(s, i, '\u{d7}') || ch(s, i, '-') || ch(s, i, '\u{f7}') || ch(
        s,
        i,
        '%',
    ) || ch(s, i, '$') || ch(s, i, '>') || ch(s, i, '<') || ch(s, i, '=') || ch(s, i, '^') || ch(
        s,
        i,
        '_',
    ) {
        1
    } else {
        0
    }
}

/// Any single character that is neither a word character nor whitespace.
pub open spec fn nonword_len(s: Seq<char>, i: int) -> nat {
    if 0 <= i < s.len() && !is_word(s[i]) && !is_space(s[i]) {
        1
    } else {
        0
    }
}

/// The first non-empty phrase of `ph`, from index `k` on, that occurs at `i`
/// between word boundaries: its length, else 0.
pub open spec fn fixed_len(s: Seq<char>, i: int, ph: Seq<Seq<char>>, k: int) -> nat
    decreases ph.len() - k,
{
    if k < 0 || k >= ph.len() {
        0
    } else if ph[k].len() > 0 && boundary(s, i) && lit(s, i, ph[k]) > 0 && boundary(
        s,
        i + ph[k].len(),
    ) {
        ph[k].len()
    } else {
        fixed_len(s, i, ph, k + 1)
    }
}

pub fn groups_len(s: &[char], j: usize, sep: char, k: CharClass) -> (r: usize)
    requires
        j <= s@.len(),
    ensures
        r == groups(s@, j as int, sep, k),
        j + r <= s@.len(),
{
    let n = s.len();
    let mut p = j;
    while ch_at(s, p, sep) && run_len(s, p + 1, k) > 0
        invariant
            j <= p <= n,
            n == s@.len(),
            groups(s@, j as int, sep, k) == (p - j) + groups(s@, p as int, sep, k),
        decreases n - p,
    {
        let r = run_len(s, p + 1, k);
        p = p + 1 + r;
    }
    p - j
}

pub fn back_run_len(s: &[char], lo: usize, j: usize, k: CharClass) -> (r: usize)
    requires
        j <= s@.len(),
    ensures
        r == back_run(s@, lo as int, j as int, k),
        r <= j,
        lo <= j ==> r <= j - lo,
{
    let mut q = j;
    while q > lo && cls_at(s, q - 1, k)
        invariant
            q <= j,
            lo <= j ==> lo <= q,
            back_run(s@, lo as int, j as int, k) == (j - q) + back_run(s@, lo as int, q as int, k),
        decreases q,
    {
        q -= 1;
    }
    j - q
}

pub fn match_special(s: &[char], i: usize) -> (r: usize)
    requires
        i < s@.len(),
    ensures
        r == special_len(s@, i as int),
        i + r <= s@.len(),
{
    let n = s.len();
    if lit_len(s, i, ['=', '>'].as_slice()) > 0 {
        return 2;
    }
    if lit_len(s, i, ['=', '=', '>'].as_slice()) > 0 {
        return 3;
    }
    if lit_len(s, i, ['-', '>'].as_slice()) > 0 {
        return 2;
    }
    let dots = run_len(s, i, CharClass::Is('.'));
    if dots >= 2 {
        return dots;
    }
    let dashes = run_len(s, i, CharClass::Is('-'));
    if dashes >= 2 {
        return dashes;
    }
    if lit_len(s, i, ['>', '>'].as_slice()) > 0 {
        return 2;
    }
    let d1 = run_len(s, i, CharClass::Digit);
    if d1 > 0 && ch_at(s, i + d1, 'x') {
        let d2 = run_len(s, i + d1 + 1, CharClass::Digit);
        if d2 > 0 {
            return d1 + 1 + d2;
        }
    }
    if lit_len(s, i, ['v', '.', 'v', '.', '.', '.'].as_slice()) > 0 {
        return 6;
    }
    if lit_len(s, i, ['v', '.', 'v', '.'].as_slice()) > 0 {
        return 4;
    }
    if lit_len(s, i, ['v', '.', 'v'].as_slice()) > 0 {
        return 3;
    }
    if ch_at(s, i, '\u{b0}') && (ch_at(s, i + 1, 'C') || ch_at(s, i + 1, 'F')) {
        return 2;
    }
    0
}

pub fn match_abbr(s: &[char], i: usize) -> (r: usize)
    requires
        i < s@.len(),
    ensures
        r == abbr_len(s@, i as int),
        i + r <= s@.len(),
{
    let n = s.len();
    let a = run_len(s, i, CharClass::AsciiUpperOrDd);
    if a > 0 && ch_at(s, i + a, '&') {
        let b = run_len(s, i + a + 1, CharClass::AsciiUpperOrDd);
        if b > 0 {
            return a + 1 + b;
        }
    }
    if lit_len(s, i, ['T', '.', '\u{1af}'].as_slice()) > 0 {
        return 3;
    }
    let u = run_len(s, i, CharClass::Upper);
    let g = groups_len(s, i + u, '.', CharClass::Word);
    if u > 0 && g > 0 {
        if ch_at(s, i + u + g, '.') {
            return u + g + 1;
        }
        return u + g;
    }
    let w1 = run_len(s, i, CharClass::Word);
    if w1 > 0 && ch_at(s, i + w1, '\'') {
        let w2 = run_len(s, i + w1 + 1, CharClass::Word);
        if w2 > 0 {
            return w1 + 1 + w2;
        }
    }
    if a > 0 && ch_at(s, i + a, '.') {
        return a + 1;
    }
    if lit_len(s, i, ['T', 'p', '.'].as_slice()) > 0 {
        return 3;
    }
    if lit_len(s, i, ['M', 'r', '.'].as_slice()) > 0 {
        return 3;
    }
    if lit_len(s, i, ['M', 'r', 's', '.'].as_slice()) > 0 {
        return 4;
    }
    if lit_len(s, i, ['M', 's', '.'].as_slice()) > 0 {
        return 3;
    }
    if lit_len(s, i, ['D', 'r', '.'].as_slice()) > 0 {
        return 3;
    }
    if lit_len(s, i, ['T', 'h', 'S', '.'].as_slice()) > 0 {
        return 4;
    }
    if lit_len(s, i, ['T', 'h', '.', 'S'].as_slice()) > 0 {
        return 4;
    }
    if lit_len(s, i, ['T', 'h', '.', 's'].as_slice()) > 0 {
        return 4;
    }
    if lit_len(s, i, ['e', '-', 'm', 'a', 'i', 'l'].as_slice()) > 0 {
        return 6;
    }
    let d1 = run_len(s, i, CharClass::Digit);
    let a2 = run_len(s, i + d1, CharClass::AsciiUpper);
    let d2 = run_len(s, i + d1 + a2, CharClass::Digit);
    if d1 > 0 && a2 > 0 && ch_at(s, i + d1 + a2 + d2, '-') {
        let d3 = run_len(s, i + d1 + a2 + d2 + 1, CharClass::Digit);
        if d3 > 0 {
            return d1 + a2 + d2 + 1 + d3;
        }
    }
    if lit_len(s, i, ['N', '\u{110}', '-', 'C', 'P'].as_slice()) > 0 {
        return 5;
    }
    0
}

pub fn match_scheme(s: &[char], i: usize) -> (r: usize)
    requires
        i < s@.len(),
    ensures
        r == scheme_len(s@, i as int),
        i + r <= s@.len(),
{
    if lit_len(s, i, ['h', 't', 't', 'p', 's', ':'].as_slice()) > 0 {
        6
    } else if lit_len(s, i, ['h', 't', 't', 'p', ':'].as_slice()) > 0 {
        5
    } else if lit_len(s, i, ['f', 't', 'p', 's', ':'].as_slice()) > 0 {
        5
    } else if lit_len(s, i, ['f', 't', 'p', ':'].as_slice()) > 0 {
        4
    } else {
        0
    }
}

pub fn match_url_scheme(s: &[char], i: usize) -> (r: usize)
    requires
        i < s@.len(),
    ensures
        r == url_scheme_len(s@, i as int),
        i + r <= s@.len(),
{
    let n = s.len();
    let sl = match_scheme(s, i);
    if sl == 0 {
        return 0;
    }
    let c = i + sl;
    if !(ch_at(s, c, '/') || cls_at(s, c, CharClass::LowerAlnum) || ch_at(s, c, '%')) {
        return 0;
    }
    let body = run_len(s, c, CharClass::UrlBody);
    if body < 3 {
        return 0;
    }
    let e = last_in_range(s, c + 3, c + body, CharClass::UrlEnd);
    proof {
        lemma_last_in_bound(s@, c + 3, c + body, CharClass::UrlEnd);
    }
    if e > 0 {
        e - i
    } else {
        0
    }
}

pub fn match_url_host(s: &[char], i: usize) -> (r: usize)
    requires
        i < s@.len(),
    ensures
        r == url_host_len(s@, i as int),
        i + r <= s@.len(),
{
    let n = s.len();
    let h = run_len(s, i, CharClass::Host);
    let p = i + h;
    if !ch_at(s, p, '/') {
        return 0;
    }
    let m = back_run_len(s, i, p, CharClass::AsciiLower);
    if !(2 <= m && m <= 13 && h >= m + 2 && ch_at(s, p - m - 1, '.')) {
        return 0;
    }
    let body = run_len(s, p + 1, CharClass::UrlBody);
    if body < 2 {
        return 0;
    }
    let e = last_in_range(s, p + 3, p + 1 + body, CharClass::UrlEnd);
    proof {
        lemma_last_in_bound(s@, p + 3, p + 1 + body, CharClass::UrlEnd);
    }
    if e > 0 {
        e - i
    } else {
        0
    }
}

pub fn chain_end_at(s: &[char], j: usize) -> (r: usize)
    requires
        j <= s@.len(),
    ensures
        r == chain_end(s@, j as int),
        j <= r <= s@.len(),
{
    let n = s.len();
    let mut q = j;
    loop
        invariant
            j <= q <= n,
            n == s@.len(),
            chain_end(s@, j as int) == chain_end(s@, q as int),
        decreases n - q,
    {
        let x = run_len(s, q, CharClass::LowerAlnum);
        if (ch_at(s, q + x, '.') || ch_at(s, q + x, '-')) && run_len(
            s,
            q + x + 1,
            CharClass::LowerAlnum,
        ) > 0 {
            q = q + x + 1;
        } else {
            return q + x;
        }
    }
}

pub fn tld_at_exec(s: &[char], p: usize) -> (r: bool)
    requires
        p <= s@.len(),
    ensures
        r == tld_at(s@, p as int),
{
    let n = s.len();
    if !(ch_at(s, p, '.') && p >= 1 && cls_at(s, p - 1, CharClass::LowerAlnum)) {
        return false;
    }
    let t = run_len(s, p + 1, CharClass::AsciiLower);
    2 <= t && t <= 13 && !cls_at(s, p + 1 + t, CharClass::Word)
}

pub fn last_tld_at(s: &[char], lo: usize, hi: usize) -> (r: usize)
    requires
        hi <= s@.len(),
    ensures
        r == last_tld(s@, lo as int, hi as int),
        r > 0 ==> lo < r <= hi && tld_at(s@, r as int),
{
    let mut q = hi;
    while q > lo
        invariant
            q <= hi,
            hi <= s@.len(),
            last_tld(s@, lo as int, hi as int) == last_tld(s@, lo as int, q as int),
        decreases q,
    {
        if tld_at_exec(s, q) {
            return q;
        }
        q -= 1;
    }
    0
}

pub fn match_url_domain(s: &[char], i: usize) -> (r: usize)
    requires
        i < s@.len(),
    ensures
        r == url_domain_len(s@, i as int),
        i + r <= s@.len(),
{
    let n = s.len();
    if run_len(s, i, CharClass::LowerAlnum) == 0 {
        return 0;
    }
    let ce = chain_end_at(s, i);
    let p = last_tld_at(s, i, ce);
    if p == 0 {
        return 0;
    }
    assert(tld_at(s@, p as int));
    let q = p + 1 + run_len(s, p + 1, CharClass::AsciiLower);
    if ch_at(s, q, '/') {
        q - i + 1
    } else {
        q - i
    }
}

pub fn match_url(s: &[char], i: usize) -> (r: usize)
    requires
        i < s@.len(),
    ensures
        r == url_len(s@, i as int),
        i + r <= s@.len(),
{
    let a = match_url_scheme(s, i);
    if a > 0 {
        return a;
    }
    let b = match_url_host(s, i);
    if b > 0 {
        return b;
    }
    match_url_domain(s, i)
}

pub fn match_email(s: &[char], i: usize) -> (r: usize)
    requires
        i < s@.len(),
    ensures
        r == email_len(s@, i as int),
        i + r <= s@.len(),
{
    let n = s.len();
    let l = run_len(s, i, CharClass::MailLocal);
    if !(l > 0 && ch_at(s, i + l, '@')) {
        return 0;
    }
    let d = run_len(s, i + l + 1, CharClass::MailDomain);
    if !(d > 0 && ch_at(s, i + l + 1 + d, '.')) {
        return 0;
    }
    let t = run_len(s, i + l + d + 2, CharClass::MailTail);
    if t > 0 {
        l + d + t + 2
    } else {
        0
    }
}

pub fn match_phone(s: &[char], i: usize) -> (r: usize)
    requires
        i < s@.len(),
    ensures
        r == phone_len(s@, i as int),
        i + r <= s@.len(),
{
    let n = s.len();
    let a = run_len(s, i, CharClass::Digit);
    if !(a >= 2 && ch_at(s, i + a, '-')) {
        return 0;
    }
    let b = run_len(s, i + a + 1, CharClass::Digit);
    if !(b >= 3 && ch_at(s, i + a + 1 + b, '-')) {
        return 0;
    }
    let c = run_len(s, i + a + b + 2, CharClass::Digit);
    if c >= 3 {
        a + b + c + 2
    } else {
        0
    }
}

pub fn d12_at(s: &[char], j: usize) -> (r: usize)
    requires
        j <= s@.len(),
    ensures
        r == d12(s@, j as int),
        j + r <= s@.len(),
{
    let r = run_len(s, j, CharClass::Digit);
    if 1 <= r && r <= 2 {
        r
    } else {
        0
    }
}

pub fn match_dmy(s: &[char], i: usize, sep: char) -> (r: usize)
    requires
        i < s@.len(),
    ensures
        r == dmy_len(s@, i as int, sep),
        i + r <= s@.len(),
{
    let n = s.len();
    let a = d12_at(s, i);
    if !(a > 0 && ch_at(s, i + a, sep)) {
        return 0;
    }
    let b = d12_at(s, i + a + 1);
    if !(b > 0 && ch_at(s, i + a + 1 + b, sep)) {
        return 0;
    }
    let c = run_len(s, i + a + b + 2, CharClass::Digit);
    if c > 0 {
        a + b + c + 2
    } else {
        0
    }
}

pub fn match_dm(s: &[char], i: usize, sep: char) -> (r: usize)
    requires
        i < s@.len(),
    ensures
        r == dm_len(s@, i as int, sep),
        i + r <= s@.len(),
{
    let n = s.len();
    let a = d12_at(s, i);
    if !(a > 0 && ch_at(s, i + a, sep)) {
        return 0;
    }
    let r = run_len(s, i + a + 1, CharClass::Digit);
    let c = if r > 4 {
        4
    } else {
        r
    };
    if c > 0 {
        a + 1 + c
    } else {
        0
    }
}

pub fn match_ymd(s: &[char], i: usize) -> (r: usize)
    requires
        i < s@.len(),
    ensures
        r == ymd_len(s@, i as int),
        i + r <= s@.len(),
{
    let n = s.len();
    if !(run_len(s, i, CharClass::Digit) == 4 && ch_at(s, i + 4, '/')) {
        return 0;
    }
    let b = d12_at(s, i + 5);
    if !(b > 0 && ch_at(s, i + 5 + b, '/')) {
        return 0;
    }
    let r = run_len(s, i + 6 + b, CharClass::Digit);
    let c = if r > 2 {
        2
    } else {
        r
    };
    if c > 0 {
        6 + b + c
    } else {
        0
    }
}

pub fn match_hms(s: &[char], i: usize) -> (r: usize)
    requires
        i < s@.len(),
    ensures
        r == hms_len(s@, i as int),
        i + r <= s@.len(),
{
    let n = s.len();
    if run_len(s, i, CharClass::Digit) == 2 && ch_at(s, i + 2, ':') && run_len(
        s,
        i + 3,
        CharClass::Digit,
    ) == 2 && ch_at(s, i + 5, ':') && run_len(s, i + 6, CharClass::Digit) >= 2 {
        8
    } else {
        0
    }
}

pub fn match_datetime(s: &[char], i: usize) -> (r: usize)
    requires
        i < s@.len(),
    ensures
        r == datetime_len(s@, i as int),
        i + r <= s@.len(),
{
    let a = match_dmy(s, i, '/');
    if a > 0 {
        return a;
    }
    let b = match_dm(s, i, '/');
    if b > 0 {
        return b;
    }
    let c = match_dmy(s, i, '-');
    if c > 0 {
        return c;
    }
    let d = match_dm(s, i, '-');
    if d > 0 {
        return d;
    }
    let e = match_dmy(s, i, '.');
    if e > 0 {
        return e;
    }
    let f = match_ymd(s, i);
    if f > 0 {
        return f;
    }
    match_hms(s, i)
}

pub fn match_name(s: &[char], i: usize) -> (r: usize)
    requires
        i < s@.len(),
    ensures
        r == name_len(s@, i as int),
        i + r <= s@.len(),
{
    let n = s.len();
    let d = run_len(s, i, CharClass::Digit);
    let a = run_len(s, i + d, CharClass::AsciiUpper);
    if d > 0 && a > 0 {
        d + a + run_len(s, i + d + a, CharClass::Digit)
    } else {
        0
    }
}

pub fn match_number(s: &[char], i: usize) -> (r: usize)
    requires
        i < s@.len(),
    ensures
        r == number_len(s@, i as int),
        i + r <= s@.len(),
{
    let n = s.len();
    let d = run_len(s, i, CharClass::Digit);
    if d == 0 {
        return 0;
    }
    let g = groups_len(s, i + d, '.', CharClass::Digit);
    if g > 0 && ch_at(s, i + d + g, ',') {
        let e = run_len(s, i + d + g + 1, CharClass::Digit);
        if e > 0 {
            return d + g + 1 + e;
        }
    }
    if g > 0 {
        return d + g;
    }
    let cg = groups_len(s, i + d, ',', CharClass::Digit);
    if cg > 0 {
        return d + cg;
    }
    if ch_at(s, i + d, '.') || ch_at(s, i + d, ',') || ch_at(s, i + d, '_') {
        let f = run_len(s, i + d + 1, CharClass::Digit);
        if f > 0 {
            return d + 1 + f;
        }
    }
    d
}

pub fn match_emoji(s: &[char], i: usize) -> (r: usize)
    requires
        i < s@.len(),
    ensures
        r == emoji_len(s@, i as int),
        i + r <= s@.len(),
{
    let n = s.len();
    if ch_at(s, i, ':') && ch_at(s, i + 1, ')') {
        return 2 + run_len(s, i + 2, CharClass::Is(')'));
    }
    if ch_at(s, i, '=') && ch_at(s, i + 1, ')') {
        let p = run_len(s, i + 2, CharClass::Is(')'));
        if p > 0 {
            return 2 + p;
        }
    }
    if lit_len(s, i, ['\u{2665}', '\u{203f}', '\u{2665}'].as_slice()) > 0 {
        return 3;
    }
    if ch_at(s, i, ':') {
        let dd = run_len(s, i + 1, CharClass::Is('D'));
        if dd > 0 && i + 1 + dd < n && is_space_char(s[i + 1 + dd]) {
            return dd + 2;
        }
        if dd > 0 && i + 1 + dd == n {
            return dd + 1;
        }
    }
    if lit_len(s, i, ['<', '3'].as_slice()) > 0 {
        return 2;
    }
    0
}

pub fn match_punct(s: &[char], i: usize) -> (r: usize)
    requires
        i < s@.len(),
    ensures
        r == punct_len(s@, i as int),
        i + r <= s@.len(),
{
    let c = s[i];
    if c == '.' || c == ',' || c == '(' || c == ')' || c == '\u{2ba}' {
        1
    } else {
        0
    }
}

pub fn match_hyphen(s: &[char], i: usize) -> (r: usize)
    requires
        i < s@.len(),
    ensures
        r == hyphen_len(s@, i as int),
        i + r <= s@.len(),
{
    let n = s.len();
    if !boundary_at(s, i) {
        return 0;
    }
    let w = run_len(s, i, CharClass::Word);
    if !(w > 0 && ch_at(s, i + w, '-')) {
        return 0;
    }
    let h = run_len(s, i + w + 1, CharClass::WordPlusMinus);
    if h == 0 {
        return 0;
    }
    let e = last_in_range(s, i + w + 2, i + w + 1 + h, CharClass::Word);
    proof {
        lemma_last_in_bound(s@, i + w + 2, i + w + 1 + h, CharClass::Word);
    }
    if e > 0 {
        e - i
    } else {
        0
    }
}

pub fn match_symbol(s: &[char], i: usize) -> (r: usize)
    requires
        i < s@.len(),
    ensures
        r == symbol_len(s@, i as int),
        i + r <= s@.len(),
{
    let c = s[i];
    if c == ':' {
        run_len(s, i, CharClass::Is(':'))
    } else if c == '+' || c == '\u{d7}' || c == '-' || c == '\u{f7}' || c == '%' || c == '$' || c
        == '>' || c == '<' || c == '=' || c == '^' || c == '_' {
        1
    } else {
        0
    }
}

pub fn match_nonword(s: &[char], i: usize) -> (r: usize)
    requires
        i < s@.len(),
    ensures
        r == nonword_len(s@, i as int),
        i + r <= s@.len(),
{
    if !is_word_char(s[i]) && !is_space_char(s[i]) {
        1
    } else {
        0
    }
}

pub fn match_fixed(s: &[char], i: usize, ph: &[Vec<char>]) -> (r: usize)
    requires
        i < s@.len(),
    ensures
        r == fixed_len(s@, i as int, ph.deep_view(), 0),
        i + r <= s@.len(),
{
    let n = s.len();
    let mut k: usize = 0;
    while k < ph.len()
        invariant
            k <= ph@.len(),
            n == s@.len(),
            i < n,
            fixed_len(s@, i as int, ph.deep_view(), 0) == fixed_len(
                s@,
                i as int,
                ph.deep_view(),
                k as int,
            ),
        decreases ph@.len() - k,
    {
        let p = &ph[k];
        proof {
            assert(ph.deep_view()[k as int] == p@);
        }
        let m = lit_len(s, i, p.as_slice());
        if p.len() > 0 && m > 0 && boundary_at(s, i) && boundary_at(s, i + m) {
            return m;
        }
        k += 1;
    }
    0
}

} // verus!
