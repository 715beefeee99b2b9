//! Parsing hyperlink targets into structured issue references.
//!
//! A reference is a URL ending in `//github.com/<owner>/<repo>/<seg>/<digits>`
//! where `<seg>` is one of `issues`, `pull` or `#`, `<owner>` and `<repo>` are
//! non-empty and free of `/`, and `<digits>` is a non-empty decimal numeral
//! whose value is positive and fits in 64 bits. Anything else is not a
//! reference; that is the normal case for most hyperlinks and not an error.
use vstd::prelude::*;

use crate::text;

verus! {

use vstd::string::StringSliceAdditionalSpecFns;

/// A parsed reference to a tracker issue or pull request.
#[derive(Clone, Debug)]
pub struct Issue {
    /// The hyperlink target the reference was parsed from.
    pub url: Vec<u8>,
    /// Login of the organization or user owning the repository.
    pub owner: Vec<u8>,
    /// Name of the repository.
    pub repo: Vec<u8>,
    /// Issue or pull-request number.
    pub id: u64,
}

/// The abstract content of a parsed reference.
pub ghost struct RefParts {
    pub owner: Seq<u8>,
    pub repo: Seq<u8>,
    pub id: u64,
}

/// ASCII decimal digit.
pub open spec fn is_digit(b: u8) -> bool {
    48 <= b <= 57
}

/// Number of consecutive digits at the end of `s`.
pub open spec fn trailing_digits(s: Seq<u8>) -> int
    decreases s.len(),
{
    if s.len() == 0 || !is_digit(s.last()) {
        0
    } else {
        1 + trailing_digits(s.drop_last())
    }
}

/// Number of consecutive bytes other than `/` at the end of `s`.
pub open spec fn trailing_nonslash(s: Seq<u8>) -> int
    decreases s.len(),
{
    if s.len() == 0 || s.last() == 47 {
        0
    } else {
        1 + trailing_nonslash(s.drop_last())
    }
}

/// Numeric value of a decimal numeral.
pub open spec fn digits_val(s: Seq<u8>) -> nat
    decreases s.len(),
{
    if s.len() == 0 {
        0
    } else {
        digits_val(s.drop_last()) * 10 + (if is_digit(s.last()) {
            (s.last() - 48) as nat
        } else {
            0
        })
    }
}

/// Length of the path segment that `rest` ends with, out of `issues`,
/// `pull` and `#`; negative when it ends with none of them.
pub open spec fn seg_len_of(rest: Seq<u8>) -> int {
    if text::ends_with(rest, "issues".spec_bytes()) {
        "issues".spec_bytes().len() as int
    } else if text::ends_with(rest, "pull".spec_bytes()) {
        "pull".spec_bytes().len() as int
    } else if text::ends_with(rest, "#".spec_bytes()) {
        "#".spec_bytes().len() as int
    } else {
        -1
    }
}

/// The reference denoted by `u`, parsed from the end of the string:
/// the digit run, the path segment, the repository, the owner, and finally
/// the literal `//github.com/` that must precede the owner.
pub open spec fn parse_ref(u: Seq<u8>) -> Option<RefParts> {
    let n = u.len() as int;
    let k = trailing_digits(u);
    let dstart = n - k;
    if k == 0 || dstart < 1 || u[dstart - 1] != 47 {
        None
    } else {
        let rest2 = u.subrange(0, dstart - 1);
        let sl = seg_len_of(rest2);
        if sl < 0 {
            None
        } else {
            let sstart = dstart - 1 - sl;
            if sstart < 1 || u[sstart - 1] != 47 {
                None
            } else {
                let rstop = sstart - 1;
                let rk = trailing_nonslash(u.subrange(0, rstop));
                if rk == 0 || rstop - rk < 1 {
                    None
                } else {
                    let rstart = rstop - rk;
                    let ostop = rstart - 1;
                    let ok = trailing_nonslash(u.subrange(0, ostop));
                    if ok == 0 {
                        None
                    } else {
                        let ostart = ostop - ok;
                        if !text::ends_with(u.subrange(0, ostart), "//github.com/".spec_bytes()) {
                            None
                        } else {
                            let v = digits_val(u.subrange(dstart, n));
                            if v == 0 || v > u64::MAX {
                                None
                            } else {
                                Some(
                                    RefParts {
                                        owner: u.subrange(ostart, ostop),
                                        repo: u.subrange(rstart, rstop),
                                        id: v as u64,
                                    },
                                )
                            }
                        }
                    }
                }
            }
        }
    }
}

proof fn lemma_trailing_digits_char(s: Seq<u8>, q: int)
    requires
        0 <= q <= s.len(),
        forall|i: int| q <= i < s.len() ==> is_digit(#[trigger] s[i]),
        q > 0 ==> !is_digit(s[q - 1]),
    ensures
        trailing_digits(s) == s.len() - q,
    decreases s.len(),
{
    if s.len() == 0 {
    } else if q == s.len() {
    } else {
        assert(is_digit(s.last()));
        lemma_trailing_digits_char(s.drop_last(), q);
    }
}

proof fn lemma_trailing_nonslash_char(s: Seq<u8>, q: int)
    requires
        0 <= q <= s.len(),
        forall|i: int| q <= i < s.len() ==> #[trigger] s[i] != 47,
        q > 0 ==> s[q - 1] == 47,
    ensures
        trailing_nonslash(s) == s.len() - q,
    decreases s.len(),
{
    if s.len() == 0 {
    } else if q == s.len() {
    } else {
        lemma_trailing_nonslash_char(s.drop_last(), q);
    }
}

proof fn lemma_digits_val_prefix(s: Seq<u8>, i: int)
    requires
        0 <= i <= s.len(),
    ensures
        digits_val(s.subrange(0, i)) <= digits_val(s),
    decreases s.len() - i,
{
    if i == s.len() {
        assert(s.subrange(0, i) =~= s);
    } else {
        let a = s.subrange(0, i);
        let b = s.subrange(0, i + 1);
        assert(b.drop_last() =~= a);
        assert(digits_val(b) == digits_val(a) * 10 + (if is_digit(b.last()) {
            (b.last() - 48) as nat
        } else {
            0
        }));
        assert(digits_val(a) * 10 >= digits_val(a));
        lemma_digits_val_prefix(s, i + 1);
    }
}

impl Issue {
    /// Parse a hyperlink target into a reference, or report that it is none.
    #[verifier::rlimit(100)]
    #[verifier::spinoff_prover]
    #[verifier::loop_isolation(false)]
    pub fn try_from_url(url: &Vec<u8>) -> (r: Option<Issue>)
        ensures
            match r {
                Some(iss) => {
                    &&& parse_ref(url@) matches Some(p)
                    &&& iss.owner@ == p.owner
                    &&& iss.repo@ == p.repo
                    &&& iss.id == p.id
                    &&& iss.url@ == url@
                },
                None => parse_ref(url@) is None,
            },
    {
        let n = url.len();
        // Digit run at the end.
        let mut dstart = n;
        while dstart > 0 && 48 <= url[dstart - 1] && url[dstart - 1] <= 57
            invariant
                0 <= dstart <= n == url@.len(),
                forall|i: int| dstart <= i < n ==> is_digit(#[trigger] url@[i]),
            decreases dstart,
        {
            dstart -= 1;
        }
        proof {
            lemma_trailing_digits_char(url@, dstart as int);
        }
        if dstart == n || dstart == 0 || url[dstart - 1] != 47 {
            return None;
        }
        // Path segment before the digits.
        let r2end = dstart - 1;
        let ghost rest2 = url@.subrange(0, r2end as int);
        let seg_issues = text::lit("issues");
        let seg_pull = text::lit("pull");
        let seg_hash = text::lit("#");
        let sl: usize;
        if seg_issues.len() <= r2end && text::matches_at(url, &seg_issues, r2end
            - seg_issues.len()) {
            sl = seg_issues.len();
            proof {
                assert(rest2.subrange(r2end - sl, r2end as int) =~= url@.subrange(
                    r2end - sl,
                    r2end as int,
                ));
                assert(text::ends_with(rest2, "issues".spec_bytes()));
            }
        } else if seg_pull.len() <= r2end && text::matches_at(url, &seg_pull, r2end
            - seg_pull.len()) {
            sl = seg_pull.len();
            proof {
                lemma_not_ends_with(url@, r2end as int, "issues".spec_bytes());
                assert(rest2.subrange(r2end - sl, r2end as int) =~= url@.subrange(
                    r2end - sl,
                    r2end as int,
                ));
                assert(text::ends_with(rest2, "pull".spec_bytes()));
            }
        } else if seg_hash.len() <= r2end && text::matches_at(url, &seg_hash, r2end
            - seg_hash.len()) {
            sl = seg_hash.len();
            proof {
                lemma_not_ends_with(url@, r2end as int, "issues".spec_bytes());
                lemma_not_ends_with(url@, r2end as int, "pull".spec_bytes());
                assert(rest2.subrange(r2end - sl, r2end as int) =~= url@.subrange(
                    r2end - sl,
                    r2end as int,
                ));
                assert(text::ends_with(rest2, "#".spec_bytes()));
            }
        } else {
            proof {
                lemma_not_ends_with(url@, r2end as int, "issues".spec_bytes());
                lemma_not_ends_with(url@, r2end as int, "pull".spec_bytes());
                lemma_not_ends_with(url@, r2end as int, "#".spec_bytes());
            }
            return None;
        }
        assert(seg_len_of(rest2) == sl);
        // Slash before the segment.
        if r2end < sl + 1 || url[r2end - sl - 1] != 47 {
            return None;
        }
        let sstart = r2end - sl;
        // Repository name.
        let rstop = sstart - 1;
        let mut rstart = rstop;
        while rstart > 0 && url[rstart - 1] != 47
            invariant
                0 <= rstart <= rstop <= url@.len(),
                forall|i: int| rstart <= i < rstop ==> #[trigger] url@[i] != 47,
            decreases rstart,
        {
            rstart -= 1;
        }
        proof {
            let pre = url@.subrange(0, rstop as int);
            assert(forall|i: int| rstart <= i < rstop ==> #[trigger] pre[i] != 47);
            lemma_trailing_nonslash_char(pre, rstart as int);
        }
        if rstart == rstop || rstart == 0 {
            return None;
        }
        // Owner.
        let ostop = rstart - 1;
        let mut ostart = ostop;
        while ostart > 0 && url[ostart - 1] != 47
            invariant
                0 <= ostart <= ostop <= url@.len(),
                forall|i: int| ostart <= i < ostop ==> #[trigger] url@[i] != 47,
            decreases ostart,
        {
            ostart -= 1;
        }
        proof {
            let pre = url@.subrange(0, ostop as int);
            assert(forall|i: int| ostart <= i < ostop ==> #[trigger] pre[i] != 47);
            lemma_trailing_nonslash_char(pre, ostart as int);
        }
        if ostart == ostop {
            return None;
        }
        // Host prefix before the owner.
        let gh = text::lit("//github.com/");
        let ghost prefix = url@.subrange(0, ostart as int);
        if ostart < gh.len() || !text::matches_at(url, &gh, ostart - gh.len()) {
            proof {
                if ostart >= gh@.len() {
                    assert(prefix.subrange(ostart - gh@.len(), ostart as int) =~= url@.subrange(
                        ostart - gh@.len(),
                        ostart as int,
                    ));
                }
            }
            return None;
        }
        assert(prefix.subrange(ostart - gh@.len(), ostart as int) =~= url@.subrange(
            ostart - gh@.len(),
            ostart as int,
        ));
        assert(text::ends_with(prefix, "//github.com/".spec_bytes()));
        // Numeric value of the digit run.
        let ghost digits = url@.subrange(dstart as int, n as int);
        let mut v: u64 = 0;
        let mut i = dstart;
        assert(digits.subrange(0, 0) =~= url@.subrange(dstart as int, dstart as int));
        while i < n
            invariant
                dstart <= i <= n == url@.len(),
                digits == url@.subrange(dstart as int, n as int),
                forall|j: int| dstart <= j < n ==> is_digit(#[trigger] url@[j]),
                v == digits_val(url@.subrange(dstart as int, i as int)),
            decreases n - i,
        {
            let ghost sofar = url@.subrange(dstart as int, i as int);
            let ghost upto = url@.subrange(dstart as int, i + 1);
            proof {
                assert(upto.drop_last() =~= sofar);
                assert(upto.last() == url@[i as int]);
            }
            let d = url[i] - 48;
            let overflowed: bool;
            match v.checked_mul(10) {
                Some(x) => {
                    match x.checked_add(d as u64) {
                        Some(y) => {
                            v = y;
                            overflowed = false;
                        },
                        None => {
                            overflowed = true;
                        },
                    }
                },
                None => {
                    overflowed = true;
                },
            }
            if overflowed {
                proof {
                    assert(digits_val(upto) > u64::MAX);
                    assert(upto =~= digits.subrange(0, i + 1 - dstart));
                    lemma_digits_val_prefix(digits, i + 1 - dstart);
                    assert(digits_val(digits) > u64::MAX);
                }
                return None;
            }
            i += 1;
        }
        assert(digits =~= url@.subrange(dstart as int, i as int));
        if v == 0 {
            return None;
        }
        // Assemble the reference.
        let owner = text::copy_range(url, ostart, ostop);
        let repo = text::copy_range(url, rstart, rstop);
        let url_copy = text::copy_range(url, 0, n);
        proof {
            assert(url@.subrange(0, n as int) =~= url@);
        }
        Some(Issue { url: url_copy, owner, repo, id: v })
    }
}

/// When the bytes of `s` before `stop` do not end with `t`, neither does the
/// prefix of `s` of length `stop`.
proof fn lemma_not_ends_with(s: Seq<u8>, stop: int, t: Seq<u8>)
    requires
        0 <= stop <= s.len(),
        !(t.len() <= stop && text::sub_at(s, t, stop - t.len())),
    ensures
        !text::ends_with(s.subrange(0, stop), t),
{
    let pre = s.subrange(0, stop);
    if t.len() <= stop {
        assert(pre.subrange(stop - t.len(), stop) =~= s.subrange(stop - t.len(), stop));
    }
}

} // verus!
