//! Text handling: character classes, token splitting, and the
//! canonical rendering of token runs.
//!
//! Every piece of source text the engine touches is a `Vec<char>`.  A
//! type is identified by its *canonical text*: the text of its tokens
//! joined back together with a single space exactly where two word
//! tokens would otherwise fuse.  Two types are equal to the engine iff
//! their canonical texts are equal.

use vstd::prelude::*;
use vstd::std_specs::iter::IteratorSpec;

verus! {

/// Characters that may form a word token (identifier or number).
pub open spec fn is_word_char(c: char) -> bool {
    ('a' <= c && c <= 'z') || ('A' <= c && c <= 'Z') || ('0' <= c && c <= '9') || c == '_'
}

/// Whitespace skipped between tokens.
pub open spec fn is_space_char(c: char) -> bool {
    c == ' ' || c == '\t' || c == '\n' || c == '\r'
}

/// Executable mirror of `is_word_char`.
pub fn word_char(c: char) -> (r: bool)
    ensures
        r == is_word_char(c),
{
    ('a' <= c && c <= 'z') || ('A' <= c && c <= 'Z') || ('0' <= c && c <= '9') || c == '_'
}

/// Executable mirror of `is_space_char`.
pub fn space_char(c: char) -> (r: bool)
    ensures
        r == is_space_char(c),
{
    c == ' ' || c == '\t' || c == '\n' || c == '\r'
}

/// The end of the word token that starts at or before `i`: the first
/// index at or after `i` whose character is not a word character.
pub open spec fn scan_word(s: Seq<char>, i: int) -> int
    decreases s.len() - i,
{
    if i < 0 || i >= s.len() || !is_word_char(s[i]) {
        i
    } else {
        scan_word(s, i + 1)
    }
}

pub proof fn lemma_scan_word_bounds(s: Seq<char>, i: int)
    requires
        0 <= i <= s.len(),
    ensures
        i <= scan_word(s, i) <= s.len(),
    decreases s.len() - i,
{
    if i < s.len() && is_word_char(s[i]) {
        lemma_scan_word_bounds(s, i + 1);
    }
}

/// One token: its text and the offset of its first character.
pub struct Tok {
    pub text: Vec<char>,
    pub pos: usize,
}

/// Spec-level shape of a token.
pub open spec fn tok_view(t: Tok) -> (Seq<char>, int) {
    (t.text@, t.pos as int)
}

/// Spec-level shape of a token sequence.
pub open spec fn toks_view(ts: Seq<Tok>) -> Seq<(Seq<char>, int)> {
    ts.map(|i: int, t: Tok| tok_view(t))
}

/// The token stream of `s` from offset `i` on: maximal word-character
/// runs are word tokens, every other non-space character is a token of
/// its own, whitespace separates.
pub open spec fn tokenize_from(s: Seq<char>, i: int) -> Seq<(Seq<char>, int)>
    decreases s.len() - i, 1int,
    when 0 <= i
    via tokenize_from_decreases
{
    if i >= s.len() {
        Seq::empty()
    } else if is_space_char(s[i]) {
        tokenize_from(s, i + 1)
    } else if is_word_char(s[i]) {
        seq![(s.subrange(i, scan_word(s, i)), i)] + tokenize_from(s, scan_word(s, i))
    } else {
        seq![(seq![s[i]], i)] + tokenize_from(s, i + 1)
    }
}

#[via_fn]
proof fn tokenize_from_decreases(s: Seq<char>, i: int) {
    if 0 <= i < s.len() && !is_space_char(s[i]) && is_word_char(s[i]) {
        lemma_scan_word_bounds(s, i + 1);
        assert(scan_word(s, i) == scan_word(s, i + 1));
        assert(scan_word(s, i) >= i + 1);
    }
}

/// Splits `s` into its tokens, with their offsets.
pub fn tokenize(s: &Vec<char>) -> (r: Vec<Tok>)
    ensures
        toks_view(r@) == tokenize_from(s@, 0),
{
    let n = s.len();
    let mut out: Vec<Tok> = Vec::new();
    let mut i: usize = 0;
    while i < n
        invariant
            i <= n,
            n == s@.len(),
            toks_view(out@) + tokenize_from(s@, i as int) == tokenize_from(s@, 0),
        decreases n - i,
    {
        let c = s[i];
        if space_char(c) {
            i = i + 1;
        } else if word_char(c) {
            let ghost j = scan_word(s@, i as int);
            proof {
                lemma_scan_word_bounds(s@, i as int);
            }
            let mut text: Vec<char> = Vec::new();
            let start = i;
            let mut k: usize = i;
            while k < n && word_char(s[k])
                invariant
                    start <= k <= n,
                    n == s@.len(),
                    text@ == s@.subrange(start as int, k as int),
                    scan_word(s@, start as int) == scan_word(s@, k as int),
                decreases n - k,
            {
                let ghost before = text@;
                text.push(s[k]);
                proof {
                    assert(text@ =~= s@.subrange(start as int, k + 1int));
                }
                k = k + 1;
            }
            proof {
                assert(scan_word(s@, k as int) == k as int);
                assert(k as int == j);
                let ghost prior = toks_view(out@);
                let ghost tokv = (s@.subrange(start as int, j), start as int);
                assert(toks_view(out@.push(Tok { text, pos: start })) =~= prior.push(tokv));
                assert(prior.push(tokv) + tokenize_from(s@, j) =~= prior + tokenize_from(
                    s@,
                    start as int,
                ));
            }
            out.push(Tok { text, pos: start });
            i = k;
        } else {
            let mut text: Vec<char> = Vec::new();
            text.push(c);
            proof {
                let ghost prior = toks_view(out@);
                let ghost tokv = (seq![s@[i as int]], i as int);
                assert(text@ =~= seq![s@[i as int]]);
                assert(toks_view(out@.push(Tok { text, pos: i })) =~= prior.push(tokv));
                assert(prior.push(tokv) + tokenize_from(s@, i + 1int) =~= prior + tokenize_from(
                    s@,
                    i as int,
                ));
            }
            out.push(Tok { text, pos: i });
            i = i + 1;
        }
    }
    proof {
        assert(toks_view(out@) + tokenize_from(s@, n as int) =~= toks_view(out@));
    }
    out
}

/// The separator the canonical rendering puts between an already
/// rendered prefix and the next token: one space iff the prefix ends
/// with a word character and the token starts with one.
pub open spec fn canon_sep(prefix: Seq<char>, next: Seq<char>) -> Seq<char> {
    if prefix.len() > 0 && is_word_char(prefix.last()) && next.len() > 0 && is_word_char(next[0]) {
        seq![' ']
    } else {
        Seq::empty()
    }
}

/// Canonical text of a run of token texts: the texts joined, with a
/// single space wherever two word tokens would otherwise fuse.
pub open spec fn canon_cat(ts: Seq<Seq<char>>) -> Seq<char>
    decreases ts.len(),
{
    if ts.len() == 0 {
        Seq::empty()
    } else {
        let front = canon_cat(ts.drop_last());
        front + canon_sep(front, ts.last()) + ts.last()
    }
}

/// Appends one token text to a canonical rendering in progress.
pub fn canon_push(out: &mut Vec<char>, text: &Vec<char>)
    ensures
        final(out)@ == old(out)@ + canon_sep(old(out)@, text@) + text@,
{
    let ghost prior = out@;
    if out.len() > 0 && word_char(out[out.len() - 1]) && text.len() > 0 && word_char(text[0]) {
        out.push(' ');
    }
    let mut k: usize = 0;
    while k < text.len()
        invariant
            k <= text@.len(),
            out@ == prior + canon_sep(prior, text@) + text@.subrange(0, k as int),
        decreases text@.len() - k,
    {
        out.push(text[k]);
        proof {
            assert(prior + canon_sep(prior, text@) + text@.subrange(0, k as int) + seq![
                text@[k as int],
            ] =~= prior + canon_sep(prior, text@) + text@.subrange(0, k + 1int));
        }
        k = k + 1;
    }
    proof {
        assert(text@.subrange(0, text@.len() as int) =~= text@);
    }
}

/// Canonical text of the token texts `ts[lo..hi]`.
pub open spec fn canon_range(ts: Seq<(Seq<char>, int)>, lo: int, hi: int) -> Seq<char> {
    canon_cat(ts.subrange(lo, hi).map(|i: int, t: (Seq<char>, int)| t.0))
}

pub proof fn lemma_canon_range_extend(ts: Seq<(Seq<char>, int)>, lo: int, hi: int)
    requires
        0 <= lo <= hi < ts.len(),
    ensures
        canon_range(ts, lo, hi + 1) == canon_range(ts, lo, hi) + canon_sep(
            canon_range(ts, lo, hi),
            ts[hi].0,
        ) + ts[hi].0,
{
    let a = ts.subrange(lo, hi + 1).map(|i: int, t: (Seq<char>, int)| t.0);
    let b = ts.subrange(lo, hi).map(|i: int, t: (Seq<char>, int)| t.0);
    assert(a.drop_last() =~= b);
    assert(a.last() == ts[hi].0);
}

/// Renders the canonical text of the tokens `ts[lo..hi]`.
pub fn canon_of_range(ts: &Vec<Tok>, lo: usize, hi: usize) -> (r: Vec<char>)
    requires
        lo <= hi <= ts@.len(),
    ensures
        r@ == canon_range(toks_view(ts@), lo as int, hi as int),
{
    let mut out: Vec<char> = Vec::new();
    let mut k: usize = lo;
    proof {
        assert(toks_view(ts@).subrange(lo as int, lo as int).map(
            |i: int, t: (Seq<char>, int)| t.0,
        ) =~= Seq::<Seq<char>>::empty());
    }
    while k < hi
        invariant
            lo <= k <= hi <= ts@.len(),
            out@ == canon_range(toks_view(ts@), lo as int, k as int),
        decreases hi - k,
    {
        proof {
            lemma_canon_range_extend(toks_view(ts@), lo as int, k as int);
        }
        canon_push(&mut out, &ts[k].text);
        k = k + 1;
    }
    out
}

/// Whether a canonical type text is a pattern type variable: an
/// upper-case letter followed by upper-case letters, digits or
/// underscores.
pub open spec fn is_generic_text(t: Seq<char>) -> bool {
    t.len() > 0 && 'A' <= t[0] && t[0] <= 'Z' && forall|k: int|
        1 <= k < t.len() ==> (('A' <= t[k] && t[k] <= 'Z') || ('0' <= t[k] && t[k] <= '9')
            || t[k] == '_')
}

/// Executable mirror of `is_generic_text`.
pub fn generic_text(t: &Vec<char>) -> (r: bool)
    ensures
        r == is_generic_text(t@),
{
    if t.len() == 0 {
        return false;
    }
    let c0 = t[0];
    if !('A' <= c0 && c0 <= 'Z') {
        return false;
    }
    let mut k: usize = 1;
    while k < t.len()
        invariant
            1 <= k <= t@.len(),
            'A' <= t@[0] && t@[0] <= 'Z',
            forall|j: int|
                1 <= j < k ==> (('A' <= t@[j] && t@[j] <= 'Z') || ('0' <= t@[j] && t@[j] <= '9')
                    || t@[j] == '_'),
        decreases t@.len() - k,
    {
        let c = t[k];
        if !(('A' <= c && c <= 'Z') || ('0' <= c && c <= '9') || c == '_') {
            return false;
        }
        k = k + 1;
    }
    true
}

/// Whether a canonical type text is the inference wildcard `_`.
pub open spec fn is_infer_text(t: Seq<char>) -> bool {
    t == seq!['_']
}

/// Executable mirror of `is_infer_text`.
pub fn infer_text(t: &Vec<char>) -> (r: bool)
    ensures
        r == is_infer_text(t@),
{
    let r = t.len() == 1 && t[0] == '_';
    proof {
        if r {
            assert(t@ =~= seq!['_']);
        }
    }
    r
}

/// The characters of a string slice, as a text.
pub fn text_of(s: &str) -> (r: Vec<char>)
    ensures
        r@ == s@,
{
    broadcast use vstd::string::axiom_spec_iter;

    let mut out: Vec<char> = Vec::new();
    for c in it: s.chars()
        invariant
            it.seq() == s@,
            out@ == it.seq().subrange(0, it.index() as int),
    {
        let ghost idx = it.index();
        out.push(c);
        proof {
            assert(it.seq().subrange(0, idx as int).push(it.seq()[idx as int]) =~= it.seq().subrange(
                0,
                idx + 1int,
            ));
        }
    }
    proof {
        assert(s@.subrange(0, s@.len() as int) =~= s@);
    }
    out
}

/// The token view has one entry per token.
pub broadcast proof fn lemma_toks_view_len(ts: Seq<Tok>)
    ensures
        (#[trigger] toks_view(ts)).len() == ts.len(),
{
}

/// Indexing the token view gives the token's own view.
pub broadcast proof fn lemma_toks_view_index(ts: Seq<Tok>, q: int)
    requires
        0 <= q < ts.len(),
    ensures
        #[trigger] toks_view(ts)[q] == tok_view(ts[q]),
{
}

/// The deep view of a text is its view.
pub broadcast proof fn lemma_text_deep_view(v: Vec<char>)
    ensures
        #[trigger] v.deep_view() == v@,
{
    assert(v.deep_view() =~= v@);
}

/// The deep view of a list of texts is the sequence of their views.
pub broadcast proof fn lemma_texts_deep_view(v: Vec<Vec<char>>)
    ensures
        #[trigger] v.deep_view() == v@.map(|i: int, t: Vec<char>| t@),
        v.deep_view().len() == v@.len(),
        forall|i: int| 0 <= i < v@.len() ==> v.deep_view()[i] == v@[i]@,
{
    broadcast use lemma_text_deep_view;

    assert(v.deep_view() =~= v@.map(|i: int, t: Vec<char>| t@));
}

/// Compares two texts for equality of their character sequences.
pub fn text_eq(a: &Vec<char>, b: &Vec<char>) -> (r: bool)
    ensures
        r == (a@ == b@),
{
    if a.len() != b.len() {
        return false;
    }
    let mut k: usize = 0;
    while k < a.len()
        invariant
            k <= a@.len(),
            a@.len() == b@.len(),
            forall|j: int| 0 <= j < k ==> a@[j] == b@[j],
        decreases a@.len() - k,
    {
        if a[k] != b[k] {
            return false;
        }
        k = k + 1;
    }
    proof {
        assert(a@ =~= b@);
    }
    true
}

/// Copies a text.
pub fn copy_text(a: &Vec<char>) -> (r: Vec<char>)
    ensures
        r@ == a@,
{
    let r = a.clone();
    proof {
        assert(forall|i: int|
            0 <= i < a@.len() ==> vstd::prelude::cloned::<char>(a@[i], #[trigger] r@[i]));
        assert(r@ =~= a@);
    }
    r
}

/// Copies an optional text.
pub fn copy_opt_text(a: &Option<Vec<char>>) -> (r: Option<Vec<char>>)
    ensures
        match a {
            Some(t) => r is Some && r->0@ == t@,
            None => r is None,
        },
{
    match a {
        Some(t) => Some(copy_text(t)),
        None => None,
    }
}

} // verus!
