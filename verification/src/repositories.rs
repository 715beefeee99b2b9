//! Repositories owned by a group, and the ownership test for a reference.
//!
//! The ownership list is retrieved by the caller as JSON records of
//! `{ name, owner: { login } }`; here each record is held as plain bytes and
//! used only for exact, case-sensitive comparison against a reference.
use vstd::prelude::*;

use crate::issue::Issue;
use crate::text;

verus! {

use vstd::string::StringSliceAdditionalSpecFns;

/// The owner of a repository.
#[derive(Clone, Debug)]
pub struct Owner {
    /// The tracker login of this owner.
    pub login: Vec<u8>,
}

/// A repository in the ownership list.
#[derive(Clone, Debug)]
pub struct Repository {
    /// The name (identifier) of this repository.
    pub name: Vec<u8>,
    /// The owner of this repository.
    pub owner: Owner,
}

/// The reference points into this repository.
pub open spec fn repo_contains(r: Repository, iss: Issue) -> bool {
    iss.owner@ == r.owner.login@ && iss.repo@ == r.name@
}

/// Some repository of `repos` contains the reference.
pub open spec fn owned_by_any(repos: Seq<Repository>, iss: Issue) -> bool {
    exists|k: int| 0 <= k < repos.len() && #[trigger] repo_contains(repos[k], iss)
}

/// The ownership decision: with no list configured every reference is owned,
/// with a list the reference must match one of its entries exactly.
pub open spec fn owns_spec(repos: Option<Seq<Repository>>, iss: Issue) -> bool {
    match repos {
        Option::None => true,
        Option::Some(rs) => owned_by_any(rs, iss),
    }
}

/// The abstract content of an optional ownership list.
pub open spec fn repos_view(repos: Option<Vec<Repository>>) -> Option<Seq<Repository>> {
    match repos {
        Option::Some(rs) => Option::Some(rs@),
        Option::None => Option::None,
    }
}

impl Repository {
    /// Whether a given reference is part of this repository,
    /// by exact string comparison without case normalization.
    pub fn contains(&self, issue: &Issue) -> (r: bool)
        ensures
            r == repo_contains(*self, *issue),
    {
        text::bytes_eq(&issue.owner, &self.owner.login) && text::bytes_eq(&issue.repo, &self.name)
    }

    /// Parse a repository slug: either `owner/name`, or a bare `name` whose
    /// owner defaults to `w3c`.
    pub fn from_slug(slug: &Vec<u8>) -> (r: Repository)
        ensures
            ({
                let f = text::first_sep(slug@, 47);
                if f < 0 {
                    r.owner.login@ == "w3c".spec_bytes() && r.name@ == slug@
                } else {
                    r.owner.login@ == slug@.subrange(0, f) && r.name@ == slug@.subrange(
                        f + 1,
                        slug@.len() as int,
                    )
                }
            }),
    {
        proof {
            text::lemma_first_sep_range(slug@, 47);
        }
        match text::find_byte(slug, 47) {
            Option::Some(f) => {
                let n = slug.len();
                assert(f < slug@.len());
                let owner = text::copy_range(slug, 0, f);
                let name = text::copy_range(slug, f + 1, n);
                Repository { name, owner: Owner { login: owner } }
            },
            Option::None => {
                let login = text::lit("w3c");
                let name = text::copy_range(slug, 0, slug.len());
                proof {
                    assert(slug@.subrange(0, slug@.len() as int) =~= slug@);
                }
                Repository { name, owner: Owner { login } }
            },
        }
    }
}

/// The ownership filter of the engine: true when `repos` is absent or when
/// one of its entries contains the reference.
#[verifier::loop_isolation(false)]
pub fn owns(repos: &Option<Vec<Repository>>, issue: &Issue) -> (r: bool)
    ensures
        r == owns_spec(repos_view(*repos), *issue),
{
    match repos {
        Option::None => true,
        Option::Some(rs) => {
            let mut k: usize = 0;
            while k < rs.len()
                invariant
                    0 <= k <= rs@.len(),
                    forall|j: int| 0 <= j < k ==> !repo_contains(rs@[j], *issue),
                decreases rs@.len() - k,
            {
                if rs[k].contains(issue) {
                    proof {
                        assert(repo_contains(rs@[k as int], *issue));
                    }
                    return true;
                }
                k += 1;
            }
            false
        },
    }
}

} // verus!
