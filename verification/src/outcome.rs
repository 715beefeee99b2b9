//! The typed outcome reported for each reference processed by the engine,
//! and the narration a chat front end gives for it.
use vstd::prelude::*;

use crate::issue::Issue;
use crate::text;

verus! {

use vstd::string::StringSliceAdditionalSpecFns;

/// What happened to one reference: a closed five-way union, matched
/// exhaustively by every consumer.
#[derive(Clone, Debug)]
pub enum OutcomeKind {
    /// A comment was created for this issue (URL of the comment).
    Created(Vec<u8>),
    /// A comment was not created because of simulation mode.
    Faked,
    /// Skipped: a comment pointing to the minutes already exists
    /// (URL of that comment).
    Duplicate(Vec<u8>),
    /// Skipped: the issue is not in a repository owned by the current group.
    NotOwned,
    /// A tracker call failed (description of the cause).
    Error(Vec<u8>),
}

/// The outcome for one reference, carrying the reference's source URL
/// for display.
#[derive(Clone, Debug)]
pub struct Outcome {
    pub kind: OutcomeKind,
    pub issue: Vec<u8>,
}

impl Outcome {
    /// A comment was posted; `comment` is its URL.
    pub fn created(issue: &Issue, comment: Vec<u8>) -> (r: Self)
        ensures
            r.kind matches OutcomeKind::Created(c) && c@ == comment@,
            r.issue@ == issue.url@,
    {
        Self { kind: OutcomeKind::Created(comment), issue: text::copy_range(&issue.url, 0, issue.url.len()) }
    }

    /// Simulation mode: no comment was posted.
    pub fn faked(issue: &Issue) -> (r: Self)
        ensures
            r.kind is Faked,
            r.issue@ == issue.url@,
    {
        Self { kind: OutcomeKind::Faked, issue: text::copy_range(&issue.url, 0, issue.url.len()) }
    }

    /// A comment with the same deep link was already there.
    pub fn duplicate(issue: &Issue, comment: Vec<u8>) -> (r: Self)
        ensures
            r.kind matches OutcomeKind::Duplicate(c) && c@ == comment@,
            r.issue@ == issue.url@,
    {
        Self { kind: OutcomeKind::Duplicate(comment), issue: text::copy_range(&issue.url, 0, issue.url.len()) }
    }

    /// The reference is outside the owned repositories.
    pub fn not_owned(issue: &Issue) -> (r: Self)
        ensures
            r.kind is NotOwned,
            r.issue@ == issue.url@,
    {
        Self { kind: OutcomeKind::NotOwned, issue: text::copy_range(&issue.url, 0, issue.url.len()) }
    }

    /// A tracker call failed.
    pub fn error(issue: &Issue, cause: Vec<u8>) -> (r: Self)
        ensures
            r.kind matches OutcomeKind::Error(c) && c@ == cause@,
            r.issue@ == issue.url@,
    {
        Self { kind: OutcomeKind::Error(cause), issue: text::copy_range(&issue.url, 0, issue.url.len()) }
    }
}

/// The chat narration for an outcome.
pub open spec fn narration(o: Outcome) -> Seq<u8> {
    match o.kind {
        OutcomeKind::Created(c) => "comment created: ".spec_bytes() + c@,
        OutcomeKind::Faked => "comment would have been created for: ".spec_bytes() + o.issue@,
        OutcomeKind::Duplicate(c) => "comment already there: ".spec_bytes() + c@,
        OutcomeKind::NotOwned => "issue ".spec_bytes() + o.issue@
            + " not owned by current group(s)".spec_bytes(),
        OutcomeKind::Error(_) => "a problem occurred when processing ".spec_bytes() + o.issue@,
    }
}

/// Render the narration for `o`, one line per outcome.
pub fn narrate(o: &Outcome) -> (r: Vec<u8>)
    ensures
        r@ == narration(*o),
{
    let mut out: Vec<u8>;
    match &o.kind {
        OutcomeKind::Created(c) => {
            out = text::lit("comment created: ");
            text::push_all(&mut out, c);
        },
        OutcomeKind::Faked => {
            out = text::lit("comment would have been created for: ");
            text::push_all(&mut out, &o.issue);
        },
        OutcomeKind::Duplicate(c) => {
            out = text::lit("comment already there: ");
            text::push_all(&mut out, c);
        },
        OutcomeKind::NotOwned => {
            out = text::lit("issue ");
            text::push_all(&mut out, &o.issue);
            let tail = text::lit(" not owned by current group(s)");
            text::push_all(&mut out, &tail);
        },
        OutcomeKind::Error(_) => {
            out = text::lit("a problem occurred when processing ");
            text::push_all(&mut out, &o.issue);
        },
    }
    out
}

/// The narration given when a whole run yielded no reference at all.
pub fn nothing_to_do() -> (r: Vec<u8>)
    ensures
        r@ == "nothing to do (no issue in the (sub)topics)".spec_bytes(),
{
    text::lit("nothing to do (no issue in the (sub)topics)")
}

} // verus!
