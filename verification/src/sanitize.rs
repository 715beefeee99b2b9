//! Sanitization of transcript excerpts.
//!
//! An excerpt goes through two passes before it may appear in a tracker
//! comment. The first strips non-content markup (scripts, disallowed tags
//! and attributes); an outside sanitizer does that work, and its output is
//! named here, not restated. The second pass neutralizes user mentions: every
//! token `@` + word characters is wrapped in an inline code span, so that
//! posting the excerpt cannot ping unrelated tracker users. A token that
//! already sits at the end of a code span is left alone, which makes the
//! pass idempotent; that law is proved below.
use vstd::prelude::*;

use crate::text;

verus! {

/// The bytes of `<code>`.
pub open spec fn code_open() -> Seq<u8> {
    seq![60u8, 99u8, 111u8, 100u8, 101u8, 62u8]
}

/// The bytes of `</code>`.
pub open spec fn code_close() -> Seq<u8> {
    seq![60u8, 47u8, 99u8, 111u8, 100u8, 101u8, 62u8]
}

/// A word byte: ASCII letter, digit or underscore. Multi-byte UTF-8
/// sequences never contain these values, so byte-level matching is exact.
pub open spec fn is_word_byte(b: u8) -> bool {
    (48 <= b <= 57) || (65 <= b <= 90) || (97 <= b <= 122) || b == 95
}

/// Length of the run of word bytes starting at `j`.
pub open spec fn word_run(s: Seq<u8>, j: int) -> int
    decreases s.len() - j when j >= 0
{
    if 0 <= j < s.len() && is_word_byte(s[j]) {
        1 + word_run(s, j + 1)
    } else {
        0
    }
}

/// A mention token starts at `i`: an `@` immediately followed by at least
/// one word byte.
pub open spec fn token_at(s: Seq<u8>, i: int) -> bool {
    0 <= i && i + 1 < s.len() && s[i] == 64 && is_word_byte(s[i + 1])
}

/// One past the last byte of the token starting at `i`.
pub open spec fn tok_end(s: Seq<u8>, i: int) -> int {
    i + 1 + word_run(s, i + 1)
}

/// The bytes of `</code>` follow position `e`.
pub open spec fn closed_after(s: Seq<u8>, e: int) -> bool {
    0 <= e && e + 7 <= s.len() && s.subrange(e, e + 7) == code_close()
}

proof fn lemma_word_run_le(s: Seq<u8>, j: int)
    requires
        0 <= j,
    ensures
        0 <= word_run(s, j),
        j + word_run(s, j) <= s.len() || j >= s.len(),
    decreases s.len() - j,
{
    if 0 <= j < s.len() && is_word_byte(s[j]) {
        lemma_word_run_le(s, j + 1);
    }
}

/// Every byte of the run is a word byte, and the run is maximal.
proof fn lemma_word_run_words(s: Seq<u8>, j: int)
    requires
        0 <= j,
    ensures
        forall|k: int| j <= k < j + word_run(s, j) ==> is_word_byte(#[trigger] s[k]),
        j + word_run(s, j) < s.len() ==> !is_word_byte(s[j + word_run(s, j)]),
        j < s.len() && !is_word_byte(s[j]) ==> word_run(s, j) == 0,
    decreases s.len() - j,
{
    lemma_word_run_le(s, j);
    if 0 <= j < s.len() && is_word_byte(s[j]) {
        lemma_word_run_words(s, j + 1);
    }
}

/// A maximal run of word bytes determines `word_run`.
proof fn lemma_word_run_char(s: Seq<u8>, j: int, stop: int)
    requires
        0 <= j <= stop <= s.len(),
        forall|k: int| j <= k < stop ==> is_word_byte(#[trigger] s[k]),
        stop == s.len() || !is_word_byte(s[stop]),
    ensures
        word_run(s, j) == stop - j,
    decreases stop - j,
{
    if j < stop {
        lemma_word_run_char(s, j + 1, stop);
    }
}

/// The escaping pass from position `i` on: copy bytes, except that a
/// mention token not already followed by `</code>` is wrapped in a code
/// span.
pub open spec fn esc_from(s: Seq<u8>, i: int) -> Seq<u8>
    decreases s.len() - i when i >= 0 via esc_from_decreases
{
    if !(0 <= i < s.len()) {
        Seq::empty()
    } else if token_at(s, i) {
        let e = tok_end(s, i);
        if closed_after(s, e) {
            s.subrange(i, e) + esc_from(s, e)
        } else {
            code_open() + s.subrange(i, e) + code_close() + esc_from(s, e)
        }
    } else {
        seq![s[i]] + esc_from(s, i + 1)
    }
}

#[via_fn]
proof fn esc_from_decreases(s: Seq<u8>, i: int) {
    if 0 <= i < s.len() && token_at(s, i) {
        lemma_word_run_le(s, i + 1);
    }
}

/// The mention-escaping pass over a whole byte string.
pub open spec fn at_escape(s: Seq<u8>) -> Seq<u8> {
    esc_from(s, 0)
}

/// What the outside sanitizer returns for the given bytes; a function of
/// the input alone.
pub uninterp spec fn clean_of(s: Seq<u8>) -> Seq<u8>;

/// Relies on ammonia::clean: strips non-content markup (script and style
/// contents, disallowed tags and attributes, comments) with its default
/// conservative settings; the result depends on the input alone.
#[verifier::external_body]
fn clean_html(b: &Vec<u8>) -> (r: Vec<u8>)
    ensures
        r@ == clean_of(b@),
{
    ammonia::clean(&String::from_utf8_lossy(b)).into_bytes()
}

/// The full sanitization: the outside cleaning pass, then mention escaping.
pub open spec fn sanitize_spec(s: Seq<u8>) -> Seq<u8> {
    at_escape(clean_of(s))
}

fn code_open_bytes() -> (r: Vec<u8>)
    ensures
        r@ == code_open(),
{
    let mut v: Vec<u8> = Vec::new();
    v.push(60);
    v.push(99);
    v.push(111);
    v.push(100);
    v.push(101);
    v.push(62);
    assert(v@ =~= code_open());
    v
}

fn code_close_bytes() -> (r: Vec<u8>)
    ensures
        r@ == code_close(),
{
    let mut v: Vec<u8> = Vec::new();
    v.push(60);
    v.push(47);
    v.push(99);
    v.push(111);
    v.push(100);
    v.push(101);
    v.push(62);
    assert(v@ =~= code_close());
    v
}

fn is_word_byte_exec(b: u8) -> (r: bool)
    ensures
        r == is_word_byte(b),
{
    (48 <= b && b <= 57) || (65 <= b && b <= 90) || (97 <= b && b <= 122) || b == 95
}

/// Wrap every mention token of `s` in a code span, leaving alone the
/// tokens already closed by one.
#[verifier::loop_isolation(false)]
#[verifier::rlimit(60)]
pub fn escape_at_words(s: &Vec<u8>) -> (r: Vec<u8>)
    ensures
        r@ == at_escape(s@),
{
    let n = s.len();
    let close = code_close_bytes();
    let mut out: Vec<u8> = Vec::new();
    let mut i: usize = 0;
    proof {
        assert(out@ + esc_from(s@, 0) =~= esc_from(s@, 0));
    }
    while i < n
        invariant
            0 <= i <= n,
            esc_from(s@, 0) == out@ + esc_from(s@, i as int),
        decreases n - i,
    {
        let b = s[i];
        if b == 64 && i + 1 < n && is_word_byte_exec(s[i + 1]) {
            // A token: find the end of its word run.
            let mut e = i + 1;
            while e < n && is_word_byte_exec(s[e])
                invariant
                    i + 1 <= e <= n,
                    forall|k: int| i + 1 <= k < e ==> is_word_byte(#[trigger] s@[k]),
                decreases n - e,
            {
                e += 1;
            }
            proof {
                lemma_word_run_char(s@, i + 1, e as int);
                assert(tok_end(s@, i as int) == e);
            }
            let ghost out0 = out@;
            let closed = close.len() <= n - e && text::matches_at(s, &close, e);
            proof {
                if e + 7 <= s@.len() {
                    assert(text::sub_at(s@, code_close(), e as int) == (s@.subrange(
                        e as int,
                        e + 7,
                    ) == code_close()));
                }
                assert(closed == closed_after(s@, e as int));
            }
            if !closed {
                let open = code_open_bytes();
                text::push_all(&mut out, &open);
            }
            let tok = text::copy_range(s, i, e);
            text::push_all(&mut out, &tok);
            if !closed {
                text::push_all(&mut out, &close);
            }
            proof {
                if closed {
                    assert(out@ =~= out0 + s@.subrange(i as int, e as int));
                } else {
                    assert(out@ =~= out0 + (code_open() + s@.subrange(i as int, e as int)
                        + code_close()));
                }
                assert(out@ + esc_from(s@, e as int) =~= esc_from(s@, 0));
            }
            i = e;
        } else {
            out.push(b);
            proof {
                assert(!token_at(s@, i as int));
                assert(out@ + esc_from(s@, i + 1) =~= esc_from(s@, 0));
            }
            i += 1;
        }
    }
    proof {
        assert(out@ + Seq::<u8>::empty() =~= out@);
    }
    out
}

/// Every mention token of `t` is immediately followed by a closing code
/// tag.
pub open spec fn all_tokens_closed(t: Seq<u8>) -> bool {
    forall|p: int| #[trigger] token_at(t, p) ==> closed_after(t, tok_end(t, p))
}

proof fn lemma_word_run_shift(x: Seq<u8>, y: Seq<u8>, q: int)
    requires
        x.len() <= q <= x.len() + y.len(),
    ensures
        word_run(x + y, q) == word_run(y, q - x.len()),
    decreases x.len() + y.len() - q,
{
    let o = x + y;
    if q < o.len() && is_word_byte(o[q]) {
        lemma_word_run_shift(x, y, q + 1);
    }
}

proof fn lemma_token_shift(x: Seq<u8>, y: Seq<u8>, p: int)
    requires
        x.len() <= p,
    ensures
        token_at(x + y, p) == token_at(y, p - x.len()),
{
    let o = x + y;
    if token_at(o, p) {
        assert(y[p - x.len()] == o[p]);
        assert(y[p + 1 - x.len()] == o[p + 1]);
    }
    if token_at(y, p - x.len()) {
        assert(o[p] == y[p - x.len()]);
        assert(o[p + 1] == y[p + 1 - x.len()]);
    }
}

proof fn lemma_closed_shift(x: Seq<u8>, y: Seq<u8>, e: int)
    requires
        x.len() <= e,
    ensures
        closed_after(x + y, e) == closed_after(y, e - x.len()),
{
    let o = x + y;
    if e + 7 <= o.len() {
        assert(o.subrange(e, e + 7) =~= y.subrange(e - x.len(), e - x.len() + 7));
    }
}

proof fn lemma_esc_first(s: Seq<u8>, j: int)
    requires
        0 <= j < s.len(),
    ensures
        esc_from(s, j).len() >= 1,
        esc_from(s, j)[0] == s[j] || esc_from(s, j)[0] == 60,
{
    if token_at(s, j) {
        lemma_word_run_le(s, j + 1);
        let e = tok_end(s, j);
        assert(s.subrange(j, e)[0] == s[j]);
    }
}

proof fn lemma_esc_copies_close(s: Seq<u8>, e: int)
    requires
        closed_after(s, e),
    ensures
        esc_from(s, e) == code_close() + esc_from(s, e + 7),
{
    let c = s.subrange(e, e + 7);
    assert(s[e] == c[0] && s[e + 1] == c[1] && s[e + 2] == c[2] && s[e + 3] == c[3] && s[e + 4]
        == c[4] && s[e + 5] == c[5] && s[e + 6] == c[6]);
    assert(esc_from(s, e) == seq![s[e]] + esc_from(s, e + 1));
    assert(esc_from(s, e + 1) == seq![s[e + 1]] + esc_from(s, e + 2));
    assert(esc_from(s, e + 2) == seq![s[e + 2]] + esc_from(s, e + 3));
    assert(esc_from(s, e + 3) == seq![s[e + 3]] + esc_from(s, e + 4));
    assert(esc_from(s, e + 4) == seq![s[e + 4]] + esc_from(s, e + 5));
    assert(esc_from(s, e + 5) == seq![s[e + 5]] + esc_from(s, e + 6));
    assert(esc_from(s, e + 6) == seq![s[e + 6]] + esc_from(s, e + 7));
    assert(esc_from(s, e) =~= code_close() + esc_from(s, e + 7));
}

/// When every token of `t` is already closed, the escaping pass copies `t`
/// unchanged from any position on.
proof fn lemma_esc_identity_from(t: Seq<u8>, i: int)
    requires
        all_tokens_closed(t),
        0 <= i <= t.len(),
    ensures
        esc_from(t, i) == t.subrange(i, t.len() as int),
    decreases t.len() - i,
{
    if i == t.len() {
        assert(t.subrange(i, t.len() as int) =~= Seq::<u8>::empty());
    } else if token_at(t, i) {
        let e = tok_end(t, i);
        assert(closed_after(t, e));
        lemma_word_run_le(t, i + 1);
        lemma_esc_identity_from(t, e);
        assert(t.subrange(i, e) + t.subrange(e, t.len() as int) =~= t.subrange(
            i,
            t.len() as int,
        ));
    } else {
        lemma_esc_identity_from(t, i + 1);
        assert(seq![t[i]] + t.subrange(i + 1, t.len() as int) =~= t.subrange(i, t.len() as int));
    }
}

/// Every token in the output of the escaping pass is closed: wrapped
/// tokens by the tag just inserted, copied tokens by the tag that allowed
/// the copy.
#[verifier::rlimit(100)]
#[verifier::spinoff_prover]
proof fn lemma_esc_closed_from(s: Seq<u8>, i: int)
    requires
        0 <= i <= s.len(),
    ensures
        all_tokens_closed(esc_from(s, i)),
    decreases s.len() - i,
{
    if i == s.len() {
        let o = esc_from(s, i);
        assert(o.len() == 0);
        assert forall|p: int| #[trigger] token_at(o, p) implies closed_after(o, tok_end(o, p)) by {
            assert(!(p + 1 < o.len()));
        }
    } else if token_at(s, i) {
        let e = tok_end(s, i);
        lemma_word_run_le(s, i + 1);
        lemma_word_run_words(s, i + 1);
        lemma_esc_closed_from(s, e);
        let r = esc_from(s, e);
        let tok = s.subrange(i, e);
        assert(tok.len() == e - i >= 2);
        assert(tok[0] == 64);
        assert(forall|k: int| 1 <= k < e - i ==> is_word_byte(#[trigger] tok[k]));
        if closed_after(s, e) {
            lemma_esc_copies_close(s, e);
            let o = esc_from(s, i);
            assert(o == tok + r);
            assert(r.len() >= 7);
            assert(r[0] == code_close()[0]);
            assert forall|p: int| #[trigger] token_at(o, p) implies closed_after(
                o,
                tok_end(o, p),
            ) by {
                if p >= tok.len() {
                    lemma_token_shift(tok, r, p);
                    assert(token_at(r, p - tok.len()));
                    assert(closed_after(r, tok_end(r, p - tok.len())));
                    lemma_word_run_le(r, p - tok.len() + 1);
                    lemma_word_run_shift(tok, r, p + 1);
                    lemma_closed_shift(tok, r, tok_end(o, p));
                } else if p == 0 {
                    assert(o[e - i] == r[0]);
                    assert(!is_word_byte(o[e - i]));
                    assert(forall|k: int| 1 <= k < e - i ==> o[k] == tok[k]);
                    lemma_word_run_char(o, 1, e - i);
                    assert(tok_end(o, 0) == e - i);
                    assert(o.subrange(e - i, e - i + 7) =~= code_close());
                } else {
                    assert(o[p] == tok[p]);
                    assert(is_word_byte(o[p]) && o[p] != 64);
                    assert(false);
                }
            }
        } else {
            let o = esc_from(s, i);
            let a = code_open() + tok + code_close();
            assert(o == a + r);
            assert(a.len() == 13 + (e - i));
            assert forall|p: int| #[trigger] token_at(o, p) implies closed_after(
                o,
                tok_end(o, p),
            ) by {
                if p >= a.len() {
                    lemma_token_shift(a, r, p);
                    assert(token_at(r, p - a.len()));
                    assert(closed_after(r, tok_end(r, p - a.len())));
                    lemma_word_run_le(r, p - a.len() + 1);
                    lemma_word_run_shift(a, r, p + 1);
                    lemma_closed_shift(a, r, tok_end(o, p));
                } else if p == 6 {
                    assert(forall|k: int| 7 <= k < 6 + (e - i) ==> o[k] == tok[k - 6]);
                    assert(o[6 + (e - i)] == code_close()[0]);
                    assert(!is_word_byte(o[6 + (e - i)]));
                    lemma_word_run_char(o, 7, 6 + (e - i));
                    assert(tok_end(o, 6) == 6 + (e - i));
                    assert(o.subrange(6 + (e - i), 6 + (e - i) + 7) =~= code_close());
                } else {
                    if p < 6 {
                        assert(o[p] == code_open()[p]);
                        assert(o[p] != 64);
                    } else if p < 6 + (e - i) {
                        assert(o[p] == tok[p - 6]);
                        assert(is_word_byte(o[p]) && o[p] != 64);
                    } else {
                        assert(o[p] == code_close()[p - 6 - (e - i)]);
                        assert(o[p] != 64);
                    }
                    assert(false);
                }
            }
        }
    } else {
        lemma_esc_closed_from(s, i + 1);
        let r = esc_from(s, i + 1);
        let c = seq![s[i]];
        let o = esc_from(s, i);
        assert(o == c + r);
        assert forall|p: int| #[trigger] token_at(o, p) implies closed_after(o, tok_end(o, p)) by {
            if p >= 1 {
                lemma_token_shift(c, r, p);
                assert(token_at(r, p - 1));
                assert(closed_after(r, tok_end(r, p - 1)));
                lemma_word_run_le(r, p);
                lemma_word_run_shift(c, r, p + 1);
                lemma_closed_shift(c, r, tok_end(o, p));
            } else {
                assert(p == 0);
                assert(o[0] == s[i]);
                assert(s[i] == 64);
                if i + 1 < s.len() {
                    lemma_esc_first(s, i + 1);
                    assert(o[1] == r[0]);
                    assert(!is_word_byte(s[i + 1]));
                    assert(!is_word_byte(o[1]));
                    assert(false);
                } else {
                    assert(r.len() == 0);
                    assert(o.len() == 1);
                    assert(false);
                }
            }
        }
    }
}

/// The mention-escaping pass is idempotent: escaping already-escaped text
/// changes nothing.
pub proof fn lemma_escape_idempotent(s: Seq<u8>)
    ensures
        at_escape(at_escape(s)) == at_escape(s),
{
    lemma_esc_closed_from(s, 0);
    lemma_esc_identity_from(at_escape(s), 0);
    assert(at_escape(s).subrange(0, at_escape(s).len() as int) =~= at_escape(s));
}

/// Sanitization is idempotent whenever the outside cleaning pass leaves
/// the already-sanitized text unchanged; the escaping half of that law is
/// proved unconditionally above.
pub proof fn lemma_sanitize_idempotent(x: Seq<u8>)
    requires
        clean_of(at_escape(clean_of(x))) == at_escape(clean_of(x)),
    ensures
        sanitize_spec(sanitize_spec(x)) == sanitize_spec(x),
{
    lemma_escape_idempotent(clean_of(x));
}

/// Sanitize an excerpt: strip non-content markup, then escape mentions.
pub fn sanitize(b: &Vec<u8>) -> (r: Vec<u8>)
    ensures
        r@ == sanitize_spec(b@),
{
    let cleaned = clean_html(b);
    escape_at_words(&cleaned)
}

} // verus!
