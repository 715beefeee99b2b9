//! Byte-string utilities: substring search, concatenation, splitting,
//! replacement, and decimal rendering of integers.
//!
//! All text handled by this crate is kept as UTF-8 bytes in `Vec<u8>`;
//! every ASCII-level decision (delimiters, digits) is made on single bytes,
//! which is sound because UTF-8 never reuses ASCII values in multi-byte
//! sequences.
use vstd::prelude::*;

verus! {

use vstd::string::StrSliceExecFns;
use vstd::string::StringSliceAdditionalSpecFns;

/// The needle `n` occurs in `h` at position `i`.
pub open spec fn sub_at(h: Seq<u8>, n: Seq<u8>, i: int) -> bool {
    0 <= i && i + n.len() <= h.len() && h.subrange(i, i + n.len() as int) == n
}

/// The needle `n` occurs somewhere in `h`.
pub open spec fn has_sub(h: Seq<u8>, n: Seq<u8>) -> bool {
    exists|i: int| sub_at(h, n, i)
}

/// Compare the slice of `h` starting at `i` with the whole of `n`.
pub fn matches_at(h: &Vec<u8>, n: &Vec<u8>, i: usize) -> (r: bool)
    requires
        i + n@.len() <= h@.len(),
    ensures
        r == sub_at(h@, n@, i as int),
{
    let h_len = h.len();
    let mut j: usize = 0;
    while j < n.len()
        invariant
            0 <= j <= n@.len(),
            h_len == h@.len(),
            i + n@.len() <= h@.len(),
            forall|k: int| 0 <= k < j ==> h@[i + k] == n@[k],
        decreases n@.len() - j,
    {
        if h[i + j] != n[j] {
            assert(h@.subrange(i as int, i + n@.len() as int)[j as int] != n@[j as int]);
            return false;
        }
        j += 1;
    }
    assert(h@.subrange(i as int, i + n@.len() as int) =~= n@);
    true
}

/// Position of the first occurrence of `n` in `h`, if any.
pub fn find_sub(h: &Vec<u8>, n: &Vec<u8>) -> (r: Option<usize>)
    ensures
        match r {
            Some(i) => sub_at(h@, n@, i as int) && forall|j: int|
                0 <= j < i ==> !sub_at(h@, n@, j),
            None => !has_sub(h@, n@),
        },
{
    if n.len() > h.len() {
        assert(forall|j: int| !sub_at(h@, n@, j));
        return None;
    }
    let last = h.len() - n.len();
    let mut i: usize = 0;
    while i < last
        invariant
            0 <= i <= last,
            last == h@.len() - n@.len(),
            forall|j: int| 0 <= j < i ==> !sub_at(h@, n@, j),
        decreases last - i,
    {
        if matches_at(h, n, i) {
            return Some(i);
        }
        i += 1;
    }
    if matches_at(h, n, last) {
        return Some(last);
    }
    assert(forall|j: int| sub_at(h@, n@, j) ==> j <= last);
    None
}

/// Whether `n` occurs in `h`.
pub fn contains_sub(h: &Vec<u8>, n: &Vec<u8>) -> (r: bool)
    ensures
        r == has_sub(h@, n@),
{
    find_sub(h, n).is_some()
}

/// Append all of `src` to `dst`.
pub fn push_all(dst: &mut Vec<u8>, src: &Vec<u8>)
    ensures
        final(dst)@ == old(dst)@ + src@,
{
    let mut j: usize = 0;
    while j < src.len()
        invariant
            0 <= j <= src@.len(),
            dst@ == old(dst)@ + src@.subrange(0, j as int),
        decreases src@.len() - j,
    {
        dst.push(src[j]);
        assert(old(dst)@ + src@.subrange(0, j as int) + seq![src@[j as int]] =~= old(dst)@
            + src@.subrange(0, j + 1));
        j += 1;
    }
    assert(src@.subrange(0, src@.len() as int) =~= src@);
}

/// `s` ends with `t`.
pub open spec fn ends_with(s: Seq<u8>, t: Seq<u8>) -> bool {
    t.len() <= s.len() && s.subrange(s.len() - t.len(), s.len() as int) == t
}

/// An owned copy of the bytes of `v` in the range `[from, to)`.
pub fn copy_range(v: &Vec<u8>, from: usize, to: usize) -> (r: Vec<u8>)
    requires
        from <= to <= v@.len(),
    ensures
        r@ == v@.subrange(from as int, to as int),
{
    let mut r: Vec<u8> = Vec::new();
    let mut j: usize = from;
    while j < to
        invariant
            from <= j <= to <= v@.len(),
            r@ == v@.subrange(from as int, j as int),
        decreases to - j,
    {
        r.push(v[j]);
        assert(v@.subrange(from as int, j as int) + seq![v@[j as int]] =~= v@.subrange(
            from as int,
            j + 1,
        ));
        j += 1;
    }
    r
}

/// Result of replacing, left to right, every occurrence of `pat` by `rep`.
pub open spec fn replace_all(s: Seq<u8>, pat: Seq<u8>, rep: Seq<u8>) -> Seq<u8>
    decreases s.len(),
{
    if pat.len() == 0 || s.len() == 0 {
        s
    } else if pat.len() <= s.len() && s.subrange(0, pat.len() as int) == pat {
        rep + replace_all(s.subrange(pat.len() as int, s.len() as int), pat, rep)
    } else {
        seq![s[0]] + replace_all(s.subrange(1, s.len() as int), pat, rep)
    }
}

/// Replace every occurrence of `pat` in `s` by `rep`, scanning left to right.
pub fn substitute(s: &Vec<u8>, pat: &Vec<u8>, rep: &Vec<u8>) -> (r: Vec<u8>)
    requires
        pat@.len() > 0,
    ensures
        r@ == replace_all(s@, pat@, rep@),
{
    let mut out: Vec<u8> = Vec::new();
    let mut i: usize = 0;
    proof {
        assert(s@.subrange(0, s@.len() as int) =~= s@);
        assert(out@ + replace_all(s@, pat@, rep@) =~= replace_all(s@, pat@, rep@));
    }
    while i < s.len()
        invariant
            0 <= i <= s@.len(),
            pat@.len() > 0,
            replace_all(s@, pat@, rep@) == out@ + replace_all(
                s@.subrange(i as int, s@.len() as int),
                pat@,
                rep@,
            ),
        decreases s@.len() - i,
    {
        let ghost suffix = s@.subrange(i as int, s@.len() as int);
        if pat.len() <= s.len() - i && matches_at(s, pat, i) {
            assert(suffix.subrange(0, pat@.len() as int) =~= s@.subrange(
                i as int,
                i + pat@.len(),
            ));
            push_all(&mut out, rep);
            assert(suffix.subrange(pat@.len() as int, suffix.len() as int) =~= s@.subrange(
                i + pat@.len(),
                s@.len() as int,
            ));
            i += pat.len();
            proof {
                let tail = s@.subrange(i as int, s@.len() as int);
                assert(out@ + replace_all(tail, pat@, rep@) =~= replace_all(s@, pat@, rep@));
            }
        } else {
            proof {
                if pat@.len() <= suffix.len() {
                    assert(!sub_at(s@, pat@, i as int));
                    assert(suffix.subrange(0, pat@.len() as int) =~= s@.subrange(
                        i as int,
                        i + pat@.len(),
                    ));
                    assert(suffix.subrange(0, pat@.len() as int) != pat@);
                }
            }
            out.push(s[i]);
            assert(suffix.subrange(1, suffix.len() as int) =~= s@.subrange(
                i + 1,
                s@.len() as int,
            ));
            i += 1;
            proof {
                let tail = s@.subrange(i as int, s@.len() as int);
                assert(out@ + replace_all(tail, pat@, rep@) =~= replace_all(s@, pat@, rep@));
            }
        }
    }
    assert(s@.subrange(s@.len() as int, s@.len() as int) =~= Seq::<u8>::empty());
    assert(replace_all(Seq::<u8>::empty(), pat@, rep@) == Seq::<u8>::empty());
    assert(out@ + Seq::<u8>::empty() =~= out@);
    out
}

/// Index of the first occurrence of `sep` in `s`, or a negative value when
/// `sep` does not occur.
pub open spec fn first_sep(s: Seq<u8>, sep: u8) -> int
    decreases s.len(),
{
    if s.len() == 0 {
        -1
    } else if s[0] == sep {
        0
    } else {
        let r = first_sep(s.subrange(1, s.len() as int), sep);
        if r < 0 {
            -1
        } else {
            r + 1
        }
    }
}

pub proof fn lemma_first_sep_range(s: Seq<u8>, sep: u8)
    ensures
        -1 <= first_sep(s, sep) < s.len(),
        first_sep(s, sep) >= 0 ==> s[first_sep(s, sep)] == sep,
        first_sep(s, sep) < 0 ==> forall|k: int| 0 <= k < s.len() ==> s[k] != sep,
        forall|k: int| 0 <= k < first_sep(s, sep) ==> s[k] != sep,
    decreases s.len(),
{
    if s.len() > 0 && s[0] != sep {
        let t = s.subrange(1, s.len() as int);
        lemma_first_sep_range(t, sep);
        assert(forall|k: int| 1 <= k < s.len() ==> s[k] == t[k - 1]);
    }
}

/// Position of the first occurrence of the byte `b` in `s`, if any.
pub fn find_byte(s: &Vec<u8>, b: u8) -> (r: Option<usize>)
    ensures
        match r {
            Some(i) => first_sep(s@, b) == i as int,
            None => first_sep(s@, b) < 0,
        },
{
    proof {
        lemma_first_sep_range(s@, b);
    }
    let mut i: usize = 0;
    while i < s.len()
        invariant
            0 <= i <= s@.len(),
            forall|k: int| 0 <= k < i ==> s@[k] != b,
        decreases s@.len() - i,
    {
        if s[i] == b {
            proof {
                lemma_first_sep_range(s@, b);
            }
            return Some(i);
        }
        i += 1;
    }
    None
}

/// The pieces of `s` delimited by `sep`; empty pieces are kept, and a string
/// without any separator yields itself as the only piece.
pub open spec fn split_on(s: Seq<u8>, sep: u8) -> Seq<Seq<u8>>
    decreases s.len(),
    via split_on_decreases
{
    if first_sep(s, sep) < 0 {
        seq![s]
    } else {
        let f = first_sep(s, sep);
        seq![s.subrange(0, f)] + split_on(s.subrange(f + 1, s.len() as int), sep)
    }
}

#[via_fn]
proof fn split_on_decreases(s: Seq<u8>, sep: u8) {
    lemma_first_sep_range(s, sep);
}

/// `ss` with `c` prepended to its first piece.
pub open spec fn prefix_first(ss: Seq<Seq<u8>>, c: Seq<u8>) -> Seq<Seq<u8>> {
    seq![c + ss[0]] + ss.subrange(1, ss.len() as int)
}

proof fn lemma_split_step(s: Seq<u8>, sep: u8)
    requires
        s.len() > 0,
        s[0] != sep,
    ensures
        split_on(s, sep) == prefix_first(
            split_on(s.subrange(1, s.len() as int), sep),
            s.subrange(0, 1),
        ),
{
    let t = s.subrange(1, s.len() as int);
    lemma_first_sep_range(s, sep);
    lemma_first_sep_range(t, sep);
    let r = first_sep(t, sep);
    if r < 0 {
        assert(split_on(s, sep) == seq![s]);
        assert(split_on(t, sep) == seq![t]);
        assert(s.subrange(0, 1) + t =~= s);
        assert(prefix_first(seq![t], s.subrange(0, 1)) =~~= seq![s]);
    } else {
        assert(first_sep(s, sep) == r + 1);
        assert(s.subrange(0, 1) + t.subrange(0, r) =~= s.subrange(0, r + 1));
        assert(t.subrange(r + 1, t.len() as int) =~= s.subrange(r + 2, s.len() as int));
        assert(split_on(s, sep) == seq![s.subrange(0, r + 1)] + split_on(
            s.subrange(r + 2, s.len() as int),
            sep,
        ));
        assert(prefix_first(split_on(t, sep), s.subrange(0, 1)) =~~= seq![s.subrange(0, r + 1)]
            + split_on(s.subrange(r + 2, s.len() as int), sep));
    }
}

/// Split `s` at every occurrence of `sep`, keeping empty pieces.
pub fn split_bytes(s: &Vec<u8>, sep: u8) -> (r: Vec<Vec<u8>>)
    ensures
        r@.map_values(|p: Vec<u8>| p@) == split_on(s@, sep),
{
    let mut pieces: Vec<Vec<u8>> = Vec::new();
    let mut cur: Vec<u8> = Vec::new();
    let mut i: usize = 0;
    proof {
        assert(s@.subrange(0, s@.len() as int) =~= s@);
        assert(pieces@.map_values(|p: Vec<u8>| p@) =~= Seq::<Seq<u8>>::empty());
        lemma_first_sep_range(s@, sep);
        assert(split_on(s@, sep).len() >= 1);
        assert(prefix_first(split_on(s@, sep), cur@) =~~= split_on(s@, sep));
        assert(Seq::<Seq<u8>>::empty() + prefix_first(split_on(s@, sep), cur@) =~= prefix_first(
            split_on(s@, sep),
            cur@,
        ));
    }
    while i < s.len()
        invariant
            0 <= i <= s@.len(),
            split_on(s@, sep) == pieces@.map_values(|p: Vec<u8>| p@) + prefix_first(
                split_on(s@.subrange(i as int, s@.len() as int), sep),
                cur@,
            ),
        decreases s@.len() - i,
    {
        let ghost suffix = s@.subrange(i as int, s@.len() as int);
        let ghost tail = s@.subrange(i + 1, s@.len() as int);
        let ghost pieces_pre = pieces@.map_values(|p: Vec<u8>| p@);
        let ghost rest = split_on(tail, sep);
        proof {
            lemma_first_sep_range(tail, sep);
            assert(rest.len() >= 1);
            assert(suffix.subrange(1, suffix.len() as int) =~= tail);
        }
        if s[i] == sep {
            proof {
                assert(suffix[0] == sep);
                assert(first_sep(suffix, sep) == 0);
                assert(suffix.subrange(0, 0) =~= Seq::<u8>::empty());
                assert(split_on(suffix, sep) == seq![Seq::<u8>::empty()] + rest);
                assert(prefix_first(split_on(suffix, sep), cur@) =~~= seq![cur@] + prefix_first(
                    rest,
                    Seq::<u8>::empty(),
                ));
                assert(prefix_first(rest, Seq::<u8>::empty()) =~~= rest);
            }
            let ghost cur0 = cur@;
            pieces.push(cur);
            cur = Vec::new();
            proof {
                assert(cur@ =~= Seq::<u8>::empty());
                assert(pieces@.map_values(|p: Vec<u8>| p@) =~= pieces_pre + seq![cur0]);
                assert(pieces_pre + (seq![cur0] + prefix_first(rest, cur@)) =~= (pieces_pre
                    + seq![cur0]) + prefix_first(rest, cur@));
            }
        } else {
            let ghost cur0 = cur@;
            proof {
                assert(suffix[0] != sep);
                lemma_split_step(suffix, sep);
            }
            let b = s[i];
            cur.push(b);
            proof {
                assert(cur@ =~= cur0 + suffix.subrange(0, 1));
                assert(prefix_first(split_on(suffix, sep), cur0) =~~= prefix_first(rest, cur@));
            }
        }
        i += 1;
    }
    proof {
        let empty = s@.subrange(s@.len() as int, s@.len() as int);
        assert(empty =~= Seq::<u8>::empty());
        assert(split_on(empty, sep) == seq![empty]);
        assert(prefix_first(seq![empty], cur@) =~~= seq![cur@]);
    }
    let ghost pieces_pre = pieces@.map_values(|p: Vec<u8>| p@);
    pieces.push(cur);
    proof {
        assert(pieces@.map_values(|p: Vec<u8>| p@) =~= pieces_pre + seq![cur@]);
        assert(pieces_pre + seq![cur@] =~~= split_on(s@, sep));
    }
    pieces
}

/// Decimal rendering of `n`, most significant digit first, no padding.
pub open spec fn dec(n: nat) -> Seq<u8>
    decreases n,
{
    if n < 10 {
        seq![(48 + n) as u8]
    } else {
        dec(n / 10) + seq![(48 + n % 10) as u8]
    }
}

/// Decimal rendering of `n` padded with a leading zero to at least two digits.
pub open spec fn dec_pad2(n: nat) -> Seq<u8> {
    if n < 10 {
        seq![48u8] + dec(n)
    } else {
        dec(n)
    }
}

/// Append the decimal rendering of `n` to `v`.
pub fn push_dec(v: &mut Vec<u8>, n: u32)
    ensures
        final(v)@ == old(v)@ + dec(n as nat),
    decreases n,
{
    if n < 10 {
        v.push(48 + n as u8);
        assert(v@ =~= old(v)@ + dec(n as nat));
    } else {
        push_dec(v, n / 10);
        v.push(48 + (n % 10) as u8);
        assert(v@ =~= old(v)@ + dec(n as nat));
    }
}

/// Append the two-digit-padded decimal rendering of `n` to `v`.
pub fn push_dec_pad2(v: &mut Vec<u8>, n: u32)
    ensures
        final(v)@ == old(v)@ + dec_pad2(n as nat),
{
    if n < 10 {
        v.push(48u8);
    }
    push_dec(v, n);
    assert(v@ =~= old(v)@ + dec_pad2(n as nat));
}

/// The UTF-8 bytes of a string slice, as an owned byte string.
pub fn lit(s: &str) -> (r: Vec<u8>)
    ensures
        r@ == s.spec_bytes(),
{
    s.as_bytes_vec()
}

/// Equality of two byte strings.
pub fn bytes_eq(a: &Vec<u8>, b: &Vec<u8>) -> (r: bool)
    ensures
        r == (a@ == b@),
{
    if a.len() != b.len() {
        return false;
    }
    let mut j: usize = 0;
    while j < a.len()
        invariant
            0 <= j <= a@.len(),
            a@.len() == b@.len(),
            forall|k: int| 0 <= k < j ==> a@[k] == b@[k],
        decreases a@.len() - j,
    {
        if a[j] != b[j] {
            return false;
        }
        j += 1;
    }
    assert(a@ =~= b@);
    true
}

} // verus!
