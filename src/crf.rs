//! The sequence tagger: local features of each token, a weight table over
//! feature/label and label/label keys, and Viterbi decoding over the two
//! labels `B-W` (a token begins a word) and `I-W` (it continues one).
//!
//! Weights are integers on a fixed scale chosen by whoever builds the table;
//! the built-in table is in tenths. Scores are exact sums of weights.
use vstd::prelude::*;
use crate::text::{char_vecs, chars_eq, chars_of, concat_chars, is_digit, string_of, texts};

verus! {

/// Unicode's `Uppercase` property.
pub uninterp spec fn uppercase(c: char) -> bool;

/// Relies on `char::is_uppercase`: whether `c` has Unicode's `Uppercase` property.
#[verifier::external_body]
fn is_uppercase(c: char) -> (r: bool)
    ensures
        r == uppercase(c),
{
    c.is_uppercase()
}

/// The two labels, in the order the decoder tries them.
#[derive(Debug, Clone, Copy, PartialEq, Eq, Structural)]
pub enum Label {
    /// `B-W`: the token begins a word.
    Begin,
    /// `I-W`: the token continues the word before it.
    Inside,
}

pub open spec fn label_name(l: Label) -> Seq<char> {
    match l {
        Label::Begin => "B-W"@,
        Label::Inside => "I-W"@,
    }
}

pub open spec fn label_names(ls: Seq<Label>) -> Seq<Seq<char>> {
    ls.map_values(|l: Label| label_name(l))
}

pub open spec fn digit_char(d: int) -> char {
    if d == 0 {
        '0'
    } else if d == 1 {
        '1'
    } else if d == 2 {
        '2'
    } else if d == 3 {
        '3'
    } else if d == 4 {
        '4'
    } else if d == 5 {
        '5'
    } else if d == 6 {
        '6'
    } else if d == 7 {
        '7'
    } else if d == 8 {
        '8'
    } else {
        '9'
    }
}

/// The decimal digits of `n`.
pub open spec fn decimal(n: nat) -> Seq<char>
    decreases n,
{
    if n < 10 {
        seq![digit_char(n as int)]
    } else {
        decimal(n / 10) + seq![digit_char((n % 10) as int)]
    }
}

pub open spec fn bool_text(b: bool) -> Seq<char> {
    if b {
        "true"@
    } else {
        "false"@
    }
}

pub open spec fn all_upper(t: Seq<char>) -> bool {
    forall|j: int| 0 <= j < t.len() ==> uppercase(#[trigger] t[j])
}

pub open spec fn all_digits(t: Seq<char>) -> bool {
    forall|j: int| 0 <= j < t.len() ==> is_digit(#[trigger] t[j])
}

/// The features of the token at `i`: its text, length in characters, whether
/// it is all upper case and all digits, its first and last characters (when
/// it has any), the tokens before and after it (`<BOS>` and `<EOS>` at the
/// ends), and the bigrams it forms with them.
#[verifier::opaque]
pub open spec fn features(toks: Seq<Seq<char>>, i: int) -> Seq<Seq<char>> {
    let t = toks[i];
    let last = i == toks.len() - 1;
    let base = seq![
        "token="@ + t,
        "length="@ + decimal(t.len()),
        "is_upper="@ + bool_text(all_upper(t)),
        "is_digit="@ + bool_text(all_digits(t)),
    ];
    let chars = if t.len() > 0 {
        base.push("first_char="@ + seq![t[0]]).push("last_char="@ + seq![t[t.len() - 1]])
    } else {
        base
    };
    let ctx = chars.push(
        if i > 0 {
            "prev_token="@ + toks[i - 1]
        } else {
            "prev_token=<BOS>"@
        },
    ).push(
        if !last {
            "next_token="@ + toks[i + 1]
        } else {
            "next_token=<EOS>"@
        },
    );
    let with_prev = if i > 0 {
        ctx.push("prev_current="@ + toks[i - 1] + "_"@ + t)
    } else {
        ctx
    };
    if !last {
        with_prev.push("current_next="@ + t + "_"@ + toks[i + 1])
    } else {
        with_prev
    }
}

/// The weight of the first entry of `w[j..]` with key `key`; 0 if there is none.
pub open spec fn weight_from(w: Seq<(Seq<char>, int)>, j: int, key: Seq<char>) -> int
    decreases w.len() - j,
{
    if j < 0 || j >= w.len() {
        0
    } else if w[j].0 == key {
        w[j].1
    } else {
        weight_from(w, j + 1, key)
    }
}

pub open spec fn weight(w: Seq<(Seq<char>, int)>, key: Seq<char>) -> int {
    weight_from(w, 0, key)
}

/// The sum of the weights of `feature#label` over the features `fs[j..]`.
pub open spec fn emission_from(w: Seq<(Seq<char>, int)>, fs: Seq<Seq<char>>, j: int, l: Label) -> int
    decreases fs.len() - j,
{
    if j < 0 || j >= fs.len() {
        0
    } else {
        weight(w, fs[j] + "#"@ + label_name(l)) + emission_from(w, fs, j + 1, l)
    }
}

pub open spec fn emission(w: Seq<(Seq<char>, int)>, toks: Seq<Seq<char>>, i: int, l: Label) -> int {
    emission_from(w, features(toks, i), 0, l)
}

pub open spec fn transition(w: Seq<(Seq<char>, int)>, p: Label, l: Label) -> int {
    weight(w, label_name(p) + "#"@ + label_name(l))
}

/// Through label `p` at `i - 1` to label `l` at `i`: the best score up to
/// `i - 1` ending in `p`, plus the transition.
pub open spec fn via(w: Seq<(Seq<char>, int)>, toks: Seq<Seq<char>>, i: nat, p: Label, l: Label) -> int
    recommends
        i > 0,
{
    score(w, toks, (i - 1) as nat, p) + transition(w, p, l)
}

/// The label at `i - 1` on the best path to `l` at `i`; `Begin` on a tie.
#[verifier::opaque]
pub open spec fn back(w: Seq<(Seq<char>, int)>, toks: Seq<Seq<char>>, i: nat, l: Label) -> Label {
    if via(w, toks, i, Label::Inside, l) > via(w, toks, i, Label::Begin, l) {
        Label::Inside
    } else {
        Label::Begin
    }
}

/// The best score of a labelling of positions `0..=i` that ends in `l`.
#[verifier::opaque]
pub open spec fn score(w: Seq<(Seq<char>, int)>, toks: Seq<Seq<char>>, i: nat, l: Label) -> int
    decreases i,
{
    if i == 0 {
        emission(w, toks, 0, l)
    } else {
        let b = score(w, toks, (i - 1) as nat, Label::Begin) + transition(w, Label::Begin, l);
        let n = score(w, toks, (i - 1) as nat, Label::Inside) + transition(w, Label::Inside, l);
        (if n > b {
            n
        } else {
            b
        }) + emission(w, toks, i as int, l)
    }
}

/// The labels of positions `0..=i` on the best path that ends in `l` at `i`.
#[verifier::opaque]
pub open spec fn path(w: Seq<(Seq<char>, int)>, toks: Seq<Seq<char>>, i: nat, l: Label) -> Seq<Label>
    decreases i,
{
    if i == 0 {
        seq![l]
    } else {
        path(w, toks, (i - 1) as nat, back(w, toks, i, l)).push(l)
    }
}

/// The label of the last position on the best path; `Begin` on a tie.
pub open spec fn final_label(w: Seq<(Seq<char>, int)>, toks: Seq<Seq<char>>) -> Label {
    let n = (toks.len() - 1) as nat;
    if score(w, toks, n, Label::Inside) > score(w, toks, n, Label::Begin) {
        Label::Inside
    } else {
        Label::Begin
    }
}

/// The Viterbi labelling of `toks`.
pub open spec fn viterbi(w: Seq<(Seq<char>, int)>, toks: Seq<Seq<char>>) -> Seq<Label> {
    if toks.len() == 0 {
        seq![]
    } else {
        path(w, toks, (toks.len() - 1) as nat, final_label(w, toks))
    }
}

/// The score of the labelling `tags` of the first `i` positions: the
/// emissions of each position under its label, plus the transitions between
/// consecutive labels.
pub open spec fn seq_score(w: Seq<(Seq<char>, int)>, toks: Seq<Seq<char>>, tags: Seq<Label>, i: int) -> int
    decreases i,
{
    if i <= 0 {
        0
    } else {
        seq_score(w, toks, tags, i - 1) + emission(w, toks, i - 1, tags[i - 1]) + if i > 1 {
            transition(w, tags[i - 2], tags[i - 1])
        } else {
            0
        }
    }
}

/// The first item of each feature list: the tokens the tagger reads.
pub open spec fn heads(fs: Seq<Vec<String>>) -> Seq<Seq<char>> {
    fs.map_values(|f: Vec<String>| f@[0]@)
}


/// Largest magnitude of one position's contribution to a score: ten feature
/// weights and one transition weight, each an `i32`.
#[verifier::inline]
pub open spec fn step_bound() -> int {
    11 * 0x8000_0000int
}

/// The built-in weight table, used when no model table is available.
pub open spec fn default_weights() -> Seq<(Seq<char>, int)> {
    seq![
        ("token=Bác#B-W"@, 20),
        ("token=sĩ#I-W"@, 15),
        ("token=bây#B-W"@, 18),
        ("token=giờ#I-W"@, 13),
        ("token=có#B-W"@, 19),
        ("token=thể#I-W"@, 14),
        ("B-W#I-W"@, 10),
        ("I-W#B-W"@, 5),
        ("B-W#B-W"@, 3),
        ("I-W#I-W"@, 8),
    ]
}

pub open spec fn weight_table(v: Seq<(String, i32)>) -> Seq<(Seq<char>, int)> {
    v.map_values(|p: (String, i32)| (p.0@, p.1 as int))
}

pub proof fn lemma_path_shape(w: Seq<(Seq<char>, int)>, toks: Seq<Seq<char>>, i: nat, l: Label)
    ensures
        path(w, toks, i, l).len() == i + 1,
        path(w, toks, i, l)[i as int] == l,
        forall|j: int|
            1 <= j <= i ==> path(w, toks, i, l)[j - 1] == back(
                w,
                toks,
                j as nat,
                #[trigger] path(w, toks, i, l)[j],
            ),
    decreases i,
{
    reveal(path);
    if i > 0 {
        let b = back(w, toks, i, l);
        let q = path(w, toks, (i - 1) as nat, b);
        lemma_path_shape(w, toks, (i - 1) as nat, b);
        let pp = path(w, toks, i, l);
        assert(pp == q.push(l));
        assert forall|j: int| 1 <= j <= i implies pp[j - 1] == back(
            w,
            toks,
            j as nat,
            #[trigger] pp[j],
        ) by {
            if j < i {
                assert(pp[j] == q[j]);
                assert(pp[j - 1] == q[j - 1]);
            } else {
                assert(pp[j - 1] == q[i - 1]);
            }
        }
    }
}

/// One label per token.
pub proof fn lemma_viterbi_len(w: Seq<(Seq<char>, int)>, toks: Seq<Seq<char>>)
    ensures
        viterbi(w, toks).len() == toks.len(),
{
    if toks.len() > 0 {
        lemma_path_shape(w, toks, (toks.len() - 1) as nat, final_label(w, toks));
    }
}

proof fn lemma_seq_score_prefix(
    w: Seq<(Seq<char>, int)>,
    toks: Seq<Seq<char>>,
    a: Seq<Label>,
    b: Seq<Label>,
    i: int,
)
    requires
        0 <= i <= a.len(),
        i <= b.len(),
        forall|j: int| 0 <= j < i ==> a[j] == b[j],
    ensures
        seq_score(w, toks, a, i) == seq_score(w, toks, b, i),
    decreases i,
{
    if i > 0 {
        lemma_seq_score_prefix(w, toks, a, b, i - 1);
    }
}

proof fn lemma_score_bounds_labelling(
    w: Seq<(Seq<char>, int)>,
    toks: Seq<Seq<char>>,
    tags: Seq<Label>,
    i: int,
)
    requires
        0 <= i < tags.len(),
    ensures
        seq_score(w, toks, tags, i + 1) <= score(w, toks, i as nat, tags[i]),
    decreases i,
{
    reveal(score);
    let l = tags[i];
    if i > 0 {
        lemma_score_bounds_labelling(w, toks, tags, i - 1);
        let p = tags[i - 1];
        assert(seq_score(w, toks, tags, i + 1) == seq_score(w, toks, tags, i) + emission(
            w,
            toks,
            i,
            l,
        ) + transition(w, p, l));
        assert(score(w, toks, i as nat, l) >= score(w, toks, (i - 1) as nat, p) + transition(
            w,
            p,
            l,
        ) + emission(w, toks, i, l));
    } else {
        assert(seq_score(w, toks, tags, 1) == seq_score(w, toks, tags, 0) + emission(
            w,
            toks,
            0,
            l,
        ));
    }
}

proof fn lemma_path_ends(w: Seq<(Seq<char>, int)>, toks: Seq<Seq<char>>, i: nat, l: Label)
    ensures
        path(w, toks, i, l).len() == i + 1,
        path(w, toks, i, l)[i as int] == l,
    decreases i,
{
    reveal(path);
    if i > 0 {
        lemma_path_ends(w, toks, (i - 1) as nat, back(w, toks, i, l));
    }
}

proof fn lemma_back_attains(w: Seq<(Seq<char>, int)>, toks: Seq<Seq<char>>, i: nat, l: Label)
    requires
        i > 0,
    ensures
        score(w, toks, i, l) == score(w, toks, (i - 1) as nat, back(w, toks, i, l)) + transition(
            w,
            back(w, toks, i, l),
            l,
        ) + emission(w, toks, i as int, l),
{
    reveal(score);
    reveal(back);
}

proof fn lemma_path_attains(w: Seq<(Seq<char>, int)>, toks: Seq<Seq<char>>, i: nat, l: Label)
    ensures
        seq_score(w, toks, path(w, toks, i, l), i + 1int) == score(w, toks, i, l),
    decreases i,
{
    if i > 0 {
        let b = back(w, toks, i, l);
        let q = path(w, toks, (i - 1) as nat, b);
        let p = path(w, toks, i, l);
        assert(p == q.push(l)) by {
            reveal(path);
        }
        lemma_path_ends(w, toks, (i - 1) as nat, b);
        lemma_path_attains(w, toks, (i - 1) as nat, b);
        lemma_seq_score_prefix(w, toks, p, q, i as int);
        lemma_back_attains(w, toks, i, l);
        assert(p[i - 1] == b);
        assert(p[i as int] == l);
        assert(seq_score(w, toks, p, i + 1int) == seq_score(w, toks, p, i as int) + emission(
            w,
            toks,
            i as int,
            l,
        ) + transition(w, b, l));
    } else {
        assert(path(w, toks, 0, l) == seq![l]) by {
            reveal(path);
        }
        assert(score(w, toks, 0, l) == emission(w, toks, 0, l)) by {
            reveal(score);
        }
        assert(seq_score(w, toks, seq![l], 1) == seq_score(w, toks, seq![l], 0) + emission(
            w,
            toks,
            0,
            l,
        ));
    }
}

/// The Viterbi labelling is optimal: no labelling of the same tokens scores
/// higher.
pub proof fn lemma_viterbi_optimal(w: Seq<(Seq<char>, int)>, toks: Seq<Seq<char>>, tags: Seq<Label>)
    requires
        tags.len() == toks.len(),
    ensures
        seq_score(w, toks, viterbi(w, toks), toks.len() as int) >= seq_score(
            w,
            toks,
            tags,
            toks.len() as int,
        ),
{
    if toks.len() > 0 {
        let n = (toks.len() - 1) as nat;
        let last = final_label(w, toks);
        lemma_path_attains(w, toks, n, last);
        lemma_score_bounds_labelling(w, toks, tags, n as int);
    }
}

proof fn lemma_backtrack(
    w: Seq<(Seq<char>, int)>,
    tv: Seq<Seq<char>>,
    n: nat,
    last: Label,
    bb: Seq<Label>,
    bi: Seq<Label>,
)
    requires
        n >= 1,
        bb.len() == n,
        bi.len() == n,
        forall|j: int|
            1 <= j < n ==> bb[j] == back(w, tv, j as nat, Label::Begin) && bi[j] == back(
                w,
                tv,
                j as nat,
                Label::Inside,
            ),
    ensures
        path(w, tv, (n - 1) as nat, last).len() == n,
        path(w, tv, (n - 1) as nat, last)[n - 1] == last,
        forall|k: int|
            1 <= k < n ==> path(w, tv, (n - 1) as nat, last)[k - 1] == (if #[trigger] path(
                w,
                tv,
                (n - 1) as nat,
                last,
            )[k] == Label::Begin {
                bb[k]
            } else {
                bi[k]
            }),
{
    let p = path(w, tv, (n - 1) as nat, last);
    lemma_path_shape(w, tv, (n - 1) as nat, last);
    assert forall|k: int| 1 <= k < n implies p[k - 1] == (if #[trigger] p[k] == Label::Begin {
        bb[k]
    } else {
        bi[k]
    }) by {
        let x = p[k];
        assert(p[k - 1] == back(w, tv, k as nat, x));
        if x == Label::Begin {
            assert(bb[k] == back(w, tv, k as nat, Label::Begin));
        } else {
            assert(bi[k] == back(w, tv, k as nat, Label::Inside));
        }
    }
}

fn digit(d: usize) -> (r: char)
    requires
        d < 10,
    ensures
        r == digit_char(d as int),
{
    if d == 0 {
        '0'
    } else if d == 1 {
        '1'
    } else if d == 2 {
        '2'
    } else if d == 3 {
        '3'
    } else if d == 4 {
        '4'
    } else if d == 5 {
        '5'
    } else if d == 6 {
        '6'
    } else if d == 7 {
        '7'
    } else if d == 8 {
        '8'
    } else {
        '9'
    }
}

fn decimal_chars(n: usize) -> (r: Vec<char>)
    ensures
        r@ == decimal(n as nat),
    decreases n,
{
    if n < 10 {
        let mut v: Vec<char> = Vec::new();
        v.push(digit(n));
        assert(v@ =~= seq![digit_char(n as int)]);
        v
    } else {
        let mut v = decimal_chars(n / 10);
        v.push(digit(n % 10));
        v
    }
}

fn bool_chars(b: bool) -> (r: Vec<char>)
    ensures
        r@ == bool_text(b),
{
    if b {
        chars_of("true")
    } else {
        chars_of("false")
    }
}

fn is_all_upper(t: &[char]) -> (r: bool)
    ensures
        r == all_upper(t@),
{
    let mut j: usize = 0;
    while j < t.len()
        invariant
            j <= t@.len(),
            forall|k: int| 0 <= k < j ==> uppercase(#[trigger] t@[k]),
        decreases t@.len() - j,
    {
        if !is_uppercase(t[j]) {
            return false;
        }
        j += 1;
    }
    true
}

fn is_all_digits(t: &[char]) -> (r: bool)
    ensures
        r == all_digits(t@),
{
    let mut j: usize = 0;
    while j < t.len()
        invariant
            j <= t@.len(),
            forall|k: int| 0 <= k < j ==> is_digit(#[trigger] t@[k]),
        decreases t@.len() - j,
    {
        if !('0' <= t[j] && t[j] <= '9') {
            return false;
        }
        j += 1;
    }
    true
}

fn push_feature(out: &mut Vec<Vec<char>>, f: Vec<char>)
    ensures
        final(out).deep_view() == old(out).deep_view().push(f@),
{
    let ghost before = out.deep_view();
    assert(f.deep_view() =~= f@);
    out.push(f);
    assert(out.deep_view() =~= before.push(f@));
}

fn prefixed(prefix: &str, t: &[char]) -> (r: Vec<char>)
    ensures
        r@ == prefix@ + t@,
{
    let p = chars_of(prefix);
    concat_chars(p.as_slice(), t)
}

fn bigram(prefix: &str, a: &[char], b: &[char]) -> (r: Vec<char>)
    ensures
        r@ == prefix@ + a@ + "_"@ + b@,
{
    let x = prefixed(prefix, a);
    let u = chars_of("_");
    let y = concat_chars(x.as_slice(), u.as_slice());
    concat_chars(y.as_slice(), b)
}

/// The features of the token at `i` (see `features`).
pub fn features_of(toks: &[Vec<char>], i: usize) -> (r: Vec<Vec<char>>)
    requires
        i < toks@.len(),
    ensures
        r.deep_view() == features(toks.deep_view(), i as int),
        r@.len() <= 10,
{
    let ghost tv = toks.deep_view();
    assert forall|j: int| 0 <= j < toks@.len() implies tv[j] == (#[trigger] toks@[j])@ by {
        assert(toks@[j].deep_view() =~= toks@[j]@);
    }
    let n = toks.len();
    let t = toks[i].as_slice();
    let ghost ts = tv[i as int];
    assert(t@ == ts);
    let mut out: Vec<Vec<char>> = Vec::new();
    assert(out.deep_view() =~= seq![]);
    push_feature(&mut out, prefixed("token=", t));
    let d = decimal_chars(t.len());
    push_feature(&mut out, prefixed("length=", d.as_slice()));
    let u = bool_chars(is_all_upper(t));
    push_feature(&mut out, prefixed("is_upper=", u.as_slice()));
    let g = bool_chars(is_all_digits(t));
    push_feature(&mut out, prefixed("is_digit=", g.as_slice()));
    assert(out.deep_view() =~= seq![
        "token="@ + ts,
        "length="@ + decimal(ts.len()),
        "is_upper="@ + bool_text(all_upper(ts)),
        "is_digit="@ + bool_text(all_digits(ts)),
    ]);
    if t.len() > 0 {
        let first = [t[0]];
        assert(first@ =~= seq![ts[0]]);
        push_feature(&mut out, prefixed("first_char=", first.as_slice()));
        let last = [t[t.len() - 1]];
        assert(last@ =~= seq![ts[ts.len() - 1]]);
        push_feature(&mut out, prefixed("last_char=", last.as_slice()));
    }
    if i > 0 {
        push_feature(&mut out, prefixed("prev_token=", toks[i - 1].as_slice()));
    } else {
        push_feature(&mut out, chars_of("prev_token=<BOS>"));
    }
    if i < n - 1 {
        push_feature(&mut out, prefixed("next_token=", toks[i + 1].as_slice()));
    } else {
        push_feature(&mut out, chars_of("next_token=<EOS>"));
    }
    if i > 0 {
        push_feature(&mut out, bigram("prev_current=", toks[i - 1].as_slice(), t));
    }
    if i < n - 1 {
        push_feature(&mut out, bigram("current_next=", t, toks[i + 1].as_slice()));
    }
    assert(out.deep_view() =~= features(tv, i as int)) by {
        reveal(features);
    }
    out
}

fn label_chars(l: Label) -> (r: Vec<char>)
    ensures
        r@ == label_name(l),
{
    match l {
        Label::Begin => chars_of("B-W"),
        Label::Inside => chars_of("I-W"),
    }
}

fn label_string(l: Label) -> (r: String)
    ensures
        r@ == label_name(l),
{
    match l {
        Label::Begin => "B-W".to_owned(),
        Label::Inside => "I-W".to_owned(),
    }
}

/// A linear-chain CRF over the labels `B-W` and `I-W`.
pub struct CRFModel {
    weights: Vec<(Vec<char>, i32)>,
    loaded: bool,
}

impl CRFModel {
    /// The weight table, as keys and weights.
    pub closed spec fn table(&self) -> Seq<(Seq<char>, int)> {
        self.weights@.map_values(|p: (Vec<char>, i32)| (p.0@, p.1 as int))
    }

    /// Whether a weight table has been loaded.
    pub closed spec fn is_loaded(&self) -> bool {
        self.loaded
    }

    /// A model with an empty table, not yet loaded.
    pub fn new() -> (r: Self)
        ensures
            r.table().len() == 0,
            !r.is_loaded(),
    {
        let r = CRFModel { weights: Vec::new(), loaded: false };
        assert(r.table() =~= seq![]);
        r
    }

    /// Installs `table` as the weight table and marks the model loaded.
    pub fn load_table(&mut self, table: &Vec<(String, i32)>)
        ensures
            final(self).table() == weight_table(table@),
            final(self).is_loaded(),
    {
        let mut ws: Vec<(Vec<char>, i32)> = Vec::new();
        let mut j: usize = 0;
        while j < table.len()
            invariant
                j <= table@.len(),
                ws@.len() == j,
                forall|t: int|
                    0 <= t < j ==> (#[trigger] ws@[t]).0@ == table@[t].0@ && ws@[t].1
                        == table@[t].1,
            decreases table@.len() - j,
        {
            let k = chars_of(table[j].0.as_str());
            ws.push((k, table[j].1));
            j += 1;
        }
        self.weights = ws;
        self.loaded = true;
        assert(self.table() =~= weight_table(table@));
    }

    /// Installs the built-in weight table and marks the model loaded.
    pub fn load_default(&mut self)
        ensures
            final(self).table() == default_weights(),
            final(self).is_loaded(),
    {
        let table: Vec<(String, i32)> = vec![
            ("token=Bác#B-W".to_owned(), 20),
            ("token=sĩ#I-W".to_owned(), 15),
            ("token=bây#B-W".to_owned(), 18),
            ("token=giờ#I-W".to_owned(), 13),
            ("token=có#B-W".to_owned(), 19),
            ("token=thể#I-W".to_owned(), 14),
            ("B-W#I-W".to_owned(), 10),
            ("I-W#B-W".to_owned(), 5),
            ("B-W#B-W".to_owned(), 3),
            ("I-W#I-W".to_owned(), 8),
        ];
        assert(weight_table(table@) =~= default_weights());
        self.load_table(&table);
    }

    fn weight_of(&self, key: &[char]) -> (r: i32)
        ensures
            r as int == weight(self.table(), key@),
    {
        let ghost w = self.table();
        let mut j: usize = 0;
        while j < self.weights.len()
            invariant
                j <= self.weights@.len(),
                w == self.table(),
                weight(w, key@) == weight_from(w, j as int, key@),
            decreases self.weights@.len() - j,
        {
            if chars_eq(self.weights[j].0.as_slice(), key) {
                return self.weights[j].1;
            }
            j += 1;
        }
        0
    }

    fn emission_of(&self, fs: &Vec<Vec<char>>, l: Label) -> (r: i64)
        requires
            fs@.len() <= 10,
        ensures
            r as int == emission_from(self.table(), fs.deep_view(), 0, l),
            -10 * 0x8000_0000 <= r <= 10 * 0x8000_0000,
    {
        let ghost w = self.table();
        let name = label_chars(l);
        let hash = chars_of("#");
        let mut acc: i64 = 0;
        let mut j: usize = fs.len();
        while j > 0
            invariant
                j <= fs@.len() <= 10,
                w == self.table(),
                name@ == label_name(l),
                hash@ == "#"@,
                acc as int == emission_from(w, fs.deep_view(), j as int, l),
                -(fs@.len() - j) * 0x8000_0000 <= acc <= (fs@.len() - j) * 0x8000_0000,
            decreases j,
        {
            j -= 1;
            let f = fs[j].as_slice();
            assert(fs.deep_view()[j as int] =~= f@);
            let k1 = concat_chars(f, hash.as_slice());
            let key = concat_chars(k1.as_slice(), name.as_slice());
            let x = self.weight_of(key.as_slice());
            acc = acc + x as i64;
        }
        acc
    }

    fn transition_of(&self, p: Label, l: Label) -> (r: i32)
        ensures
            r as int == transition(self.table(), p, l),
    {
        let a = label_chars(p);
        let hash = chars_of("#");
        let b = label_chars(l);
        let k1 = concat_chars(a.as_slice(), hash.as_slice());
        let key = concat_chars(k1.as_slice(), b.as_slice());
        self.weight_of(key.as_slice())
    }

    /// The forward pass: the best score of each position under each label,
    /// and the best predecessor of each label from position 1 on.
    fn forward(&self, toks: &[Vec<char>]) -> (r: (Vec<i128>, Vec<i128>, Vec<Label>, Vec<Label>))
        requires
            toks@.len() > 0,
        ensures
            r.0@.len() == toks@.len(),
            r.1@.len() == toks@.len(),
            r.2@.len() == toks@.len(),
            r.3@.len() == toks@.len(),
            forall|j: int|
                0 <= j < toks@.len() ==> r.0@[j] == score(
                    self.table(),
                    toks.deep_view(),
                    j as nat,
                    Label::Begin,
                ) && r.1@[j] == score(self.table(), toks.deep_view(), j as nat, Label::Inside),
            forall|j: int|
                1 <= j < toks@.len() ==> r.2@[j] == back(
                    self.table(),
                    toks.deep_view(),
                    j as nat,
                    Label::Begin,
                ) && r.3@[j] == back(self.table(), toks.deep_view(), j as nat, Label::Inside),
    {
        let ghost w = self.table();
        let ghost tv = toks.deep_view();
        let n = toks.len();
        let tbb = self.transition_of(Label::Begin, Label::Begin) as i128;
        let tib = self.transition_of(Label::Inside, Label::Begin) as i128;
        let tbi = self.transition_of(Label::Begin, Label::Inside) as i128;
        let tii = self.transition_of(Label::Inside, Label::Inside) as i128;
        let f0 = features_of(toks, 0);
        let mut sb: Vec<i128> = Vec::new();
        let mut si: Vec<i128> = Vec::new();
        let mut bb: Vec<Label> = Vec::new();
        let mut bi: Vec<Label> = Vec::new();
        proof {
            reveal(score);
        }
        sb.push(self.emission_of(&f0, Label::Begin) as i128);
        si.push(self.emission_of(&f0, Label::Inside) as i128);
        bb.push(Label::Begin);
        bi.push(Label::Begin);
        let mut i: usize = 1;
        while i < n
            invariant
                1 <= i <= n,
                n == toks@.len(),
                w == self.table(),
                tv == toks.deep_view(),
                sb@.len() == i,
                si@.len() == i,
                bb@.len() == i,
                bi@.len() == i,
                tbb as int == transition(w, Label::Begin, Label::Begin),
                tib as int == transition(w, Label::Inside, Label::Begin),
                tbi as int == transition(w, Label::Begin, Label::Inside),
                tii as int == transition(w, Label::Inside, Label::Inside),
                -0x8000_0000 <= tbb < 0x8000_0000,
                -0x8000_0000 <= tib < 0x8000_0000,
                -0x8000_0000 <= tbi < 0x8000_0000,
                -0x8000_0000 <= tii < 0x8000_0000,
                forall|j: int|
                    0 <= j < i ==> sb@[j] == score(w, tv, j as nat, Label::Begin) && si@[j] == score(
                        w,
                        tv,
                        j as nat,
                        Label::Inside,
                    ),
                forall|j: int|
                    1 <= j < i ==> bb@[j] == back(w, tv, j as nat, Label::Begin) && bi@[j] == back(
                        w,
                        tv,
                        j as nat,
                        Label::Inside,
                    ),
                -(i as int) * step_bound() <= sb@[i - 1] <= i * step_bound(),
                -(i as int) * step_bound() <= si@[i - 1] <= i * step_bound(),
            decreases n - i,
        {
            let f = features_of(toks, i);
            let eb = self.emission_of(&f, Label::Begin) as i128;
            let ei = self.emission_of(&f, Label::Inside) as i128;
            let pb = sb[i - 1];
            let pi = si[i - 1];
            let vb = pb + tbb;
            let vi = pi + tib;
            let (nb, kb) = if vi > vb {
                (vi + eb, Label::Inside)
            } else {
                (vb + eb, Label::Begin)
            };
            let wb = pb + tbi;
            let wi = pi + tii;
            let (ni, ki) = if wi > wb {
                (wi + ei, Label::Inside)
            } else {
                (wb + ei, Label::Begin)
            };
            proof {
                reveal(score);
                reveal(back);
                assert(nb == score(w, tv, i as nat, Label::Begin));
                assert(ni == score(w, tv, i as nat, Label::Inside));
                assert(kb == back(w, tv, i as nat, Label::Begin));
                assert(ki == back(w, tv, i as nat, Label::Inside));
            }
            sb.push(nb);
            si.push(ni);
            bb.push(kb);
            bi.push(ki);
            i += 1;
        }
        (sb, si, bb, bi)
    }

    /// The Viterbi labelling of `toks`: positions are scored left to right,
    /// each label keeping its best predecessor (`Begin` on a tie), and the
    /// best final label (`Begin` on a tie) is traced back.
    pub fn decode(&self, toks: &[Vec<char>]) -> (r: Vec<Label>)
        ensures
            r@ == viterbi(self.table(), toks.deep_view()),
    {
        let ghost w = self.table();
        let ghost tv = toks.deep_view();
        let n = toks.len();
        if n == 0 {
            return Vec::new();
        }
        let (sb, si, bb, bi) = self.forward(toks);
        let last = if si[n - 1] > sb[n - 1] {
            Label::Inside
        } else {
            Label::Begin
        };
        let ghost p = path(w, tv, (n - 1) as nat, last);
        proof {
            lemma_backtrack(w, tv, n as nat, last, bb@, bi@);
        }
        let mut res: Vec<Label> = Vec::new();
        res.push(last);
        let mut j: usize = n - 1;
        let mut cur = last;
        assert(res@ =~= p.subrange(j as int, n as int));
        while j > 0
            invariant
                j < n,
                bb@.len() == n,
                bi@.len() == n,
                p.len() == n,
                forall|k: int|
                    1 <= k < n ==> p[k - 1] == (if #[trigger] p[k] == Label::Begin {
                        bb@[k]
                    } else {
                        bi@[k]
                    }),
                res@ == p.subrange(j as int, n as int),
                cur == p[j as int],
            decreases j,
        {
            let prev = match cur {
                Label::Begin => bb[j],
                Label::Inside => bi[j],
            };
            res.insert(0, prev);
            j -= 1;
            cur = prev;
            assert(res@ =~= p.subrange(j as int, n as int));
        }
        assert(p.subrange(0, n as int) =~= p);
        res
    }

    /// The score of labelling `tokens` with `tags`, position by position.
    pub fn score_sequence(&self, tokens: &[String], tags: &[Label]) -> (r: i128)
        requires
            tags@.len() <= tokens@.len(),
        ensures
            r as int == seq_score(self.table(), tokens.deep_view(), tags@, tags@.len() as int),
    {
        let toks = char_vecs(tokens);
        let ghost w = self.table();
        let ghost tv = tokens.deep_view();
        let mut acc: i128 = 0;
        let mut i: usize = 0;
        while i < tags.len()
            invariant
                i <= tags@.len() <= toks@.len(),
                toks.deep_view() == tv,
                w == self.table(),
                acc as int == seq_score(w, tv, tags@, i as int),
                -(i as int) * step_bound() <= acc <= i * step_bound(),
            decreases tags@.len() - i,
        {
            let f = features_of(toks.as_slice(), i);
            let e = self.emission_of(&f, tags[i]) as i128;
            let t = if i > 0 {
                self.transition_of(tags[i - 1], tags[i]) as i128
            } else {
                0
            };
            acc = acc + e + t;
            i += 1;
        }
        acc
    }

    /// The features of the token at `position` (see `features`).
    pub fn extract_features(&self, tokens: &[String], position: usize) -> (r: Vec<String>)
        requires
            position < tokens@.len(),
        ensures
            texts(r@) == features(tokens.deep_view(), position as int),
    {
        let toks = char_vecs(tokens);
        let fs = features_of(toks.as_slice(), position);
        let mut out: Vec<String> = Vec::new();
        let mut j: usize = 0;
        while j < fs.len()
            invariant
                j <= fs@.len(),
                out@.len() == j,
                forall|k: int| 0 <= k < j ==> (#[trigger] out@[k])@ == fs.deep_view()[k],
            decreases fs@.len() - j,
        {
            let f = fs[j].as_slice();
            assert(fs.deep_view()[j as int] =~= f@);
            out.push(string_of(f, 0, f.len()));
            assert(f@.subrange(0, f@.len() as int) =~= f@);
            j += 1;
        }
        assert(texts(out@) =~= fs.deep_view());
        out
    }

    /// The Viterbi labels of `tokens`, as `B-W` / `I-W`.
    pub fn viterbi_decode(&self, tokens: &[String]) -> (r: Vec<String>)
        ensures
            texts(r@) == label_names(viterbi(self.table(), tokens.deep_view())),
    {
        let toks = char_vecs(tokens);
        let ls = self.decode(toks.as_slice());
        label_strings(&ls)
    }
}

/// The names of the labels `ls`.
fn label_strings(ls: &Vec<Label>) -> (r: Vec<String>)
    ensures
        texts(r@) == label_names(ls@),
{
    let mut out: Vec<String> = Vec::new();
    let mut j: usize = 0;
    while j < ls.len()
        invariant
            j <= ls@.len(),
            out@.len() == j,
            forall|k: int| 0 <= k < j ==> (#[trigger] out@[k])@ == label_name(ls@[k]),
        decreases ls@.len() - j,
    {
        out.push(label_string(ls[j]));
        j += 1;
    }
    assert(texts(out@) =~= label_names(ls@));
    out
}

/// A tagger that labels each token `B-W` or `I-W`.
pub trait SequenceTagger {
    /// Whether a weight table is in place.
    spec fn ready(&self) -> bool;

    /// The weight table in use.
    spec fn weights(&self) -> Seq<(Seq<char>, int)>;

    /// Installs `table`, or the built-in table when there is none.
    fn load(&mut self, table: Option<Vec<(String, i32)>>)
        ensures
            final(self).ready(),
            final(self).weights() == match table {
                Some(t) => weight_table(t@),
                None => default_weights(),
            },
    ;

    /// The Viterbi labels of the tokens that head each feature list.
    fn predict(&self, features: &[Vec<String>]) -> (r: Vec<String>)
        requires
            self.ready(),
            forall|i: int| 0 <= i < features@.len() ==> (#[trigger] features@[i])@.len() > 0,
        ensures
            texts(r@) == label_names(viterbi(self.weights(), heads(features@))),
    ;
}

impl SequenceTagger for CRFModel {
    open spec fn ready(&self) -> bool {
        self.is_loaded()
    }

    open spec fn weights(&self) -> Seq<(Seq<char>, int)> {
        self.table()
    }

    fn load(&mut self, table: Option<Vec<(String, i32)>>) {
        match table {
            Some(t) => self.load_table(&t),
            None => self.load_default(),
        }
    }

    fn predict(&self, features: &[Vec<String>]) -> (r: Vec<String>) {
        let mut toks: Vec<Vec<char>> = Vec::new();
        let mut j: usize = 0;
        while j < features.len()
            invariant
                j <= features@.len(),
                toks@.len() == j,
                forall|i: int| 0 <= i < features@.len() ==> (#[trigger] features@[i])@.len() > 0,
                forall|k: int| 0 <= k < j ==> (#[trigger] toks@[k]).deep_view() == features@[k]@[0]@,
            decreases features@.len() - j,
        {
            let v = chars_of(features[j][0].as_str());
            assert(v.deep_view() =~= v@);
            toks.push(v);
            j += 1;
        }
        assert(toks.deep_view() =~= heads(features@));
        let ls = self.decode(toks.as_slice());
        label_strings(&ls)
    }
}

/// The tagger used by the word segmenter: a `CRFModel` behind the tagger interface.
pub struct FastCRFSequenceTagger {
    model: CRFModel,
}

impl FastCRFSequenceTagger {
    pub fn new() -> (r: Self)
        ensures
            !r.ready(),
            r.weights().len() == 0,
    {
        FastCRFSequenceTagger { model: CRFModel::new() }
    }
}

impl SequenceTagger for FastCRFSequenceTagger {
    closed spec fn ready(&self) -> bool {
        self.model.is_loaded()
    }

    closed spec fn weights(&self) -> Seq<(Seq<char>, int)> {
        self.model.table()
    }

    fn load(&mut self, table: Option<Vec<(String, i32)>>) {
        self.model.load(table)
    }

    fn predict(&self, features: &[Vec<String>]) -> (r: Vec<String>) {
        self.model.predict(features)
    }
}

} // verus!
