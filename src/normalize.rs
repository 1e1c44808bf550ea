//! Text normalization: canonical Unicode composition, a literal substitution
//! table for non-standard character sequences, and a lookup table that
//! rewrites short tokens to their canonical spelling.
use vstd::prelude::*;
use crate::text::{append_chars, chars_of, lit, lit_len, string_of};
use unicode_normalization::UnicodeNormalization;

verus! {

/// The Unicode NFC form of `s`.
pub uninterp spec fn nfc_of(s: Seq<char>) -> Seq<char>;

/// Relies on `unicode_normalization::UnicodeNormalization::nfc`: the NFC form
/// of `s`, which depends on the characters of `s` alone.
#[verifier::external_body]
fn nfc_string(s: &str) -> (r: String)
    ensures
        r@ == nfc_of(s@),
{
    s.nfc().collect()
}

/// The two normalization tables, as pairs in the order they are applied or searched.
#[derive(Clone)]
pub struct Rules {
    pub character_map: Vec<(String, String)>,
    pub token_map: Vec<(String, String)>,
}

/// Holds the substitution table (`character_map`, applied in order) and the
/// short-token table (`token_map`, where the first entry with a key wins).
#[derive(Clone)]
pub struct TextNormalizer {
    pub character_map: Vec<(String, String)>,
    pub token_map: Vec<(String, String)>,
}

/// A table of string pairs, as character sequences.
pub open spec fn table(m: Seq<(String, String)>) -> Seq<(Seq<char>, Seq<char>)> {
    m.map_values(|p: (String, String)| (p.0@, p.1@))
}

impl TextNormalizer {
    pub open spec fn chars_table(&self) -> Seq<(Seq<char>, Seq<char>)> {
        table(self.character_map@)
    }

    pub open spec fn tokens_table(&self) -> Seq<(Seq<char>, Seq<char>)> {
        table(self.token_map@)
    }

    pub fn new(rules: Rules) -> (r: Self)
        ensures
            r.character_map@ == rules.character_map@,
            r.token_map@ == rules.token_map@,
    {
        TextNormalizer { character_map: rules.character_map, token_map: rules.token_map }
    }

    /// A normalizer with empty tables: only NFC composition applies.
    pub fn empty() -> (r: Self)
        ensures
            r.character_map@.len() == 0,
            r.token_map@.len() == 0,
    {
        TextNormalizer { character_map: Vec::new(), token_map: Vec::new() }
    }
}

/// `s[i..]` with every occurrence of `k` replaced by `v`, scanning left to
/// right without overlap. An empty `k` replaces nothing.
pub open spec fn replace_from(s: Seq<char>, i: int, k: Seq<char>, v: Seq<char>) -> Seq<char>
    decreases s.len() - i,
{
    if i < 0 || i >= s.len() {
        seq![]
    } else if k.len() > 0 && lit(s, i, k) > 0 {
        v + replace_from(s, i + k.len(), k, v)
    } else {
        seq![s[i]] + replace_from(s, i + 1, k, v)
    }
}

pub open spec fn replace_all(s: Seq<char>, k: Seq<char>, v: Seq<char>) -> Seq<char> {
    replace_from(s, 0, k, v)
}

/// Applies the substitutions `m[j..]` to `s`, one after the other.
pub open spec fn subst_from(s: Seq<char>, m: Seq<(Seq<char>, Seq<char>)>, j: int) -> Seq<char>
    decreases m.len() - j,
{
    if j < 0 || j >= m.len() {
        s
    } else {
        subst_from(replace_all(s, m[j].0, m[j].1), m, j + 1)
    }
}

/// The substitution pass of the normalizer.
pub open spec fn subst(s: Seq<char>, m: Seq<(Seq<char>, Seq<char>)>) -> Seq<char> {
    subst_from(s, m, 0)
}

/// The value of the first entry of `m[j..]` whose key is `key`.
pub open spec fn lookup_from(m: Seq<(Seq<char>, Seq<char>)>, j: int, key: Seq<char>) -> Option<
    Seq<char>,
>
    decreases m.len() - j,
{
    if j < 0 || j >= m.len() {
        None
    } else if m[j].0 == key {
        Some(m[j].1)
    } else {
        lookup_from(m, j + 1, key)
    }
}

/// Full character normalization: NFC, then the substitution table.
pub open spec fn normalized(s: Seq<char>, n: TextNormalizer) -> Seq<char> {
    subst(nfc_of(s), n.chars_table())
}

/// The canonical form of a token. Tokens longer than six characters are kept
/// as they are; shorter ones are optionally normalized and then looked up in
/// the token table.
pub open spec fn canonical(t: Seq<char>, use_character_normalize: bool, n: TextNormalizer) -> Seq<
    char,
> {
    if t.len() > 6 {
        t
    } else {
        let u = if use_character_normalize {
            normalized(t, n)
        } else {
            t
        };
        match lookup_from(n.tokens_table(), 0, u) {
            Some(v) => v,
            None => u,
        }
    }
}

/// Substitution keys and values are non-empty, and no value holds a
/// character of any key: no substitution can produce, nor complete, a key.
pub open spec fn separate_keys(m: Seq<(Seq<char>, Seq<char>)>) -> bool {
    &&& forall|a: int| 0 <= a < m.len() ==> (#[trigger] m[a]).0.len() > 0 && m[a].1.len() > 0
    &&& forall|a: int, b: int, c: int|
        0 <= a < m.len() && 0 <= b < m.len() && 0 <= c < m[b].0.len() ==> !(#[trigger] m[a].1.contains(
            m[b].0[c],
        ))
}

/// `x` occurs in `s` at some offset `i` or later.
pub open spec fn occurs_from(s: Seq<char>, i: int, x: Seq<char>) -> bool {
    exists|j: int| i <= j && #[trigger] lit(s, j, x) > 0
}

/// No character of `x` occurs in `v`.
pub open spec fn apart(x: Seq<char>, v: Seq<char>) -> bool {
    forall|c: int| 0 <= c < x.len() ==> !v.contains(#[trigger] x[c])
}

proof fn lemma_replace_prefix(s: Seq<char>, i: int, k: Seq<char>, v: Seq<char>, m: int)
    requires
        0 <= i <= s.len(),
        v.len() > 0,
        0 <= m <= replace_from(s, i, k, v).len(),
        forall|q: int| 0 <= q < m ==> !v.contains(#[trigger] replace_from(s, i, k, v)[q]),
    ensures
        i + m <= s.len(),
        replace_from(s, i, k, v).subrange(0, m) == s.subrange(i, i + m),
    decreases m,
{
    let t = replace_from(s, i, k, v);
    if m > 0 {
        assert(i < s.len());
        if k.len() > 0 && lit(s, i, k) > 0 {
            assert(t[0] == v[0]);
            assert(v.contains(v[0]));
        } else {
            let rest = replace_from(s, i + 1, k, v);
            assert(t == seq![s[i]] + rest);
            assert forall|q: int| 0 <= q < m - 1 implies !v.contains(#[trigger] rest[q]) by {
                assert(rest[q] == t[q + 1]);
            }
            lemma_replace_prefix(s, i + 1, k, v, m - 1);
            assert(t.subrange(0, m) =~= seq![s[i]] + rest.subrange(0, m - 1));
            assert(s.subrange(i, i + m) =~= seq![s[i]] + s.subrange(i + 1, i + m));
        }
    } else {
        assert(t.subrange(0, 0) =~= s.subrange(i, i));
    }
}

/// An occurrence of `x` after replacing `k` by `v` was already in the text,
/// and `k` itself no longer occurs.
proof fn lemma_replace_occurs(s: Seq<char>, i: int, k: Seq<char>, v: Seq<char>, x: Seq<char>, p: int)
    requires
        0 <= i <= s.len(),
        v.len() > 0,
        x.len() > 0,
        apart(x, v),
        0 <= p,
        lit(replace_from(s, i, k, v), p, x) > 0,
    ensures
        x != k,
        occurs_from(s, i, x),
    decreases s.len() - i,
{
    let t = replace_from(s, i, k, v);
    assert(t.subrange(p, p + x.len()) == x);
    assert(t[p] == x[0]);
    if i < s.len() {
        if k.len() > 0 && lit(s, i, k) > 0 {
            let rest = replace_from(s, i + k.len(), k, v);
            assert(t == v + rest);
            if p < v.len() {
                assert(v.contains(t[p]));
            } else {
                assert(rest.subrange(p - v.len(), p - v.len() + x.len()) =~= t.subrange(
                    p,
                    p + x.len(),
                ));
                lemma_replace_occurs(s, i + k.len(), k, v, x, p - v.len());
            }
        } else {
            let rest = replace_from(s, i + 1, k, v);
            assert(t == seq![s[i]] + rest);
            if p == 0 {
                let m = x.len() - 1;
                assert forall|q: int| 0 <= q < m implies !v.contains(#[trigger] rest[q]) by {
                    assert(rest[q] == t[q + 1]);
                    assert(t[q + 1] == x[q + 1]);
                }
                lemma_replace_prefix(s, i + 1, k, v, m);
                assert(x =~= seq![s[i]] + rest.subrange(0, m));
                assert(s.subrange(i, i + x.len()) =~= seq![s[i]] + s.subrange(i + 1, i + 1 + m));
                assert(lit(s, i, x) > 0);
            } else {
                assert(rest.subrange(p - 1, p - 1 + x.len()) =~= t.subrange(p, p + x.len()));
                lemma_replace_occurs(s, i + 1, k, v, x, p - 1);
            }
        }
    }
}

proof fn lemma_replace_absent(s: Seq<char>, i: int, k: Seq<char>, v: Seq<char>)
    requires
        0 <= i <= s.len(),
        !occurs_from(s, i, k),
    ensures
        replace_from(s, i, k, v) == s.subrange(i, s.len() as int),
    decreases s.len() - i,
{
    if i < s.len() {
        assert(!(lit(s, i, k) > 0));
        lemma_replace_absent(s, i + 1, k, v);
        assert(seq![s[i]] + s.subrange(i + 1, s.len() as int) =~= s.subrange(i, s.len() as int));
    } else {
        assert(s.subrange(i, s.len() as int) =~= seq![]);
    }
}

proof fn lemma_subst_frees(s: Seq<char>, m: Seq<(Seq<char>, Seq<char>)>, j: int)
    requires
        separate_keys(m),
        0 <= j <= m.len(),
        forall|a: int| 0 <= a < j ==> !occurs_from(s, 0, (#[trigger] m[a]).0),
    ensures
        forall|a: int|
            0 <= a < m.len() ==> !occurs_from(subst_from(s, m, j), 0, (#[trigger] m[a]).0),
    decreases m.len() - j,
{
    if j < m.len() {
        let t = replace_all(s, m[j].0, m[j].1);
        assert forall|a: int| 0 <= a < j + 1 implies !occurs_from(t, 0, (#[trigger] m[a]).0) by {
            if occurs_from(t, 0, m[a].0) {
                let p = choose|p: int| 0 <= p && #[trigger] lit(t, p, m[a].0) > 0;
                assert forall|c: int| 0 <= c < m[a].0.len() implies !m[j].1.contains(
                    #[trigger] m[a].0[c],
                ) by {
                    assert(!m[j].1.contains(m[a].0[c]));
                }
                lemma_replace_occurs(s, 0, m[j].0, m[j].1, m[a].0, p);
            }
        }
        lemma_subst_frees(t, m, j + 1);
    }
}

proof fn lemma_subst_keeps(s: Seq<char>, m: Seq<(Seq<char>, Seq<char>)>, j: int)
    requires
        0 <= j <= m.len(),
        forall|a: int| 0 <= a < m.len() ==> !occurs_from(s, 0, (#[trigger] m[a]).0),
    ensures
        subst_from(s, m, j) == s,
    decreases m.len() - j,
{
    if j < m.len() {
        lemma_replace_absent(s, 0, m[j].0, m[j].1);
        assert(s.subrange(0, s.len() as int) =~= s);
        lemma_subst_keeps(s, m, j + 1);
    }
}

/// Applying the substitution table twice gives what applying it once gives,
/// when keys and values are non-empty and no value holds a key character.
pub proof fn lemma_character_normalize_idempotent(s: Seq<char>, m: Seq<(Seq<char>, Seq<char>)>)
    requires
        separate_keys(m),
    ensures
        subst(subst(s, m), m) == subst(s, m),
{
    lemma_subst_frees(s, m, 0);
    lemma_subst_keeps(subst(s, m), m, 0);
}

pub fn replace_chars(s: &[char], k: &[char], v: &[char]) -> (r: Vec<char>)
    ensures
        r@ == replace_all(s@, k@, v@),
{
    let n = s.len();
    let mut out: Vec<char> = Vec::new();
    let mut i: usize = 0;
    while i < n
        invariant
            i <= n,
            n == s@.len(),
            out@ + replace_from(s@, i as int, k@, v@) == replace_all(s@, k@, v@),
        decreases n - i,
    {
        let ghost before = out@;
        if k.len() > 0 && lit_len(s, i, k) > 0 {
            append_chars(&mut out, v);
            assert(before + replace_from(s@, i as int, k@, v@) =~= out@ + replace_from(
                s@,
                i + k@.len(),
                k@,
                v@,
            ));
            i = i + k.len();
        } else {
            out.push(s[i]);
            assert(before + replace_from(s@, i as int, k@, v@) =~= out@ + replace_from(
                s@,
                i + 1,
                k@,
                v@,
            ));
            i = i + 1;
        }
    }
    assert(out@ + replace_from(s@, n as int, k@, v@) =~= out@);
    out
}

fn subst_chars(s: Vec<char>, m: &Vec<(String, String)>) -> (r: Vec<char>)
    ensures
        r@ == subst(s@, table(m@)),
{
    let ghost t = table(m@);
    let mut cur = s;
    let mut j: usize = 0;
    while j < m.len()
        invariant
            j <= m@.len(),
            t == table(m@),
            subst(s@, t) == subst_from(cur@, t, j as int),
        decreases m@.len() - j,
    {
        let k = chars_of(m[j].0.as_str());
        let v = chars_of(m[j].1.as_str());
        cur = replace_chars(cur.as_slice(), k.as_slice(), v.as_slice());
        j += 1;
    }
    cur
}

/// Applies the substitution table of `normalizer` to `text`.
pub fn character_normalize(text: &str, normalizer: &TextNormalizer) -> (r: String)
    ensures
        r@ == subst(text@, normalizer.chars_table()),
{
    let s = chars_of(text);
    let out = subst_chars(s, &normalizer.character_map);
    assert(out@.subrange(0, out@.len() as int) =~= out@);
    string_of(out.as_slice(), 0, out.len())
}

/// The NFC form of `text`.
pub fn utf8_normalize(text: &str) -> (r: String)
    ensures
        r@ == nfc_of(text@),
{
    nfc_string(text)
}

/// NFC composition, then the substitution table.
pub fn normalize_characters_in_text(text: &str, normalizer: &TextNormalizer) -> (r: String)
    ensures
        r@ == normalized(text@, *normalizer),
{
    let composed = utf8_normalize(text);
    character_normalize(composed.as_str(), normalizer)
}

fn lookup(m: &Vec<(String, String)>, key: &String) -> (r: Option<String>)
    ensures
        lookup_from(table(m@), 0, key@) == match r {
            Some(v) => Some(v@),
            None => None,
        },
{
    let ghost t = table(m@);
    let mut j: usize = 0;
    while j < m.len()
        invariant
            j <= m@.len(),
            t == table(m@),
            lookup_from(t, 0, key@) == lookup_from(t, j as int, key@),
        decreases m@.len() - j,
    {
        if m[j].0 == *key {
            return Some(m[j].1.clone());
        }
        j += 1;
    }
    None
}

/// The canonical form of one token (see `canonical`).
pub fn token_normalize(token: &str, use_character_normalize: bool, normalizer: &TextNormalizer) -> (r: String)
    ensures
        r@ == canonical(token@, use_character_normalize, *normalizer),
{
    let cs = chars_of(token);
    assert(cs@.subrange(0, cs@.len() as int) =~= cs@);
    if cs.len() > 6 {
        return string_of(cs.as_slice(), 0, cs.len());
    }
    let u = if use_character_normalize {
        normalize_characters_in_text(token, normalizer)
    } else {
        string_of(cs.as_slice(), 0, cs.len())
    };
    match lookup(&normalizer.token_map, &u) {
        Some(v) => v,
        None => u,
    }
}

} // verus!
