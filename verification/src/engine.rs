//! The minutes linking engine: one traversal of the transcript document
//! yields the citable references in document order; each is then taken
//! through the commenting protocol — permit, ownership, duplicate check,
//! composition, creation — as a state machine that emits one typed outcome
//! per reference.
//!
//! The engine itself performs no network call and never waits: every
//! outside interaction is an `Action` handed to the caller, whose result
//! comes back as an `Event`. The caller may stop requesting actions at any
//! point, so a consumer that stops early costs no further tracker calls.
use vstd::prelude::*;

use crate::config::EngineConfig;
use crate::doc_fragment::DocFragment;
use crate::dom::{self, Document};
use crate::issue::{self, Issue};
use crate::outcome::{Outcome, OutcomeKind};
use crate::repositories;
use crate::sanitize;
use crate::text;

verus! {

use vstd::string::StringSliceAdditionalSpecFns;

/// One comment already present on a tracker issue, as the duplicate
/// detector sees it: its body, if any, and its own URL.
#[derive(Clone, Debug)]
pub struct Comment {
    pub body: Option<Vec<u8>>,
    pub html_url: Vec<u8>,
}

/// The comment's body contains `link` verbatim.
pub open spec fn comment_matches(c: Comment, link: Seq<u8>) -> bool {
    match c.body {
        Option::Some(b) => text::has_sub(b@, link),
        Option::None => false,
    }
}

/// `j` is the first position in `cs` whose comment contains `link`.
pub open spec fn is_first_match(cs: Seq<Comment>, link: Seq<u8>, j: int) -> bool {
    &&& 0 <= j < cs.len()
    &&& comment_matches(cs[j], link)
    &&& forall|k: int| 0 <= k < j ==> !comment_matches(#[trigger] cs[k], link)
}

/// The duplicate detector's decision: the first comment, in the order the
/// tracker returned them, whose body contains the candidate link verbatim.
#[verifier::loop_isolation(false)]
pub fn comment_to_link(comments: &Vec<Comment>, link: &Vec<u8>) -> (r: Option<usize>)
    ensures
        match r {
            Some(j) => is_first_match(comments@, link@, j as int),
            None => forall|k: int|
                0 <= k < comments@.len() ==> !comment_matches(#[trigger] comments@[k], link@),
        },
{
    let mut j: usize = 0;
    while j < comments.len()
        invariant
            0 <= j <= comments@.len(),
            forall|k: int| 0 <= k < j ==> !comment_matches(#[trigger] comments@[k], link@),
        decreases comments@.len() - j,
    {
        let hit = match &comments[j].body {
            Option::Some(b) => text::contains_sub(b, link),
            Option::None => false,
        };
        if hit {
            return Some(j);
        }
        j += 1;
    }
    None
}

/// Transpose a pair on its second component.
pub fn transpose_2nd<T, U>(pair: (T, Option<U>)) -> (r: Option<(T, U)>)
    ensures
        match r {
            Some(p) => pair.1 matches Some(b) && p.0 == pair.0 && p.1 == b,
            None => pair.1 is None,
        },
{
    match pair {
        (_, Option::None) => Option::None,
        (a, Option::Some(b)) => Option::Some((a, b)),
    }
}

/// Extract the fragment owned by the boundary at `h`: its identifier and
/// the sanitized rendering of its excerpt.
pub fn extract_fragment(d: &Document, h: usize) -> (r: DocFragment)
    requires
        d.wf(),
        h < d.nodes@.len(),
        dom::is_boundary(d.nodes@[h as int]),
    ensures
        r.id@ == dom::boundary_id(d.nodes@[h as int]),
        r.content@ == sanitize::sanitize_spec(dom::raw_excerpt(*d, h as int)),
{
    let raw = dom::raw_excerpt_exec(d, h);
    let content = sanitize::sanitize(&raw);
    let id = match &d.nodes[h].data {
        dom::NodeData::Element { id: Option::Some(v), .. } => text::copy_range(v, 0, v.len()),
        _ => Vec::new(),
    };
    proof {
        assert(id@ =~= dom::boundary_id(d.nodes@[h as int]));
    }
    DocFragment { id, content }
}

/// Find the nearest citable heading before the anchor at `i` and return
/// its fragment; the content is extracted only when `content` is set,
/// otherwise it is left empty.
pub fn find_closest_hn_id(d: &Document, i: usize, content: bool) -> (r: Option<DocFragment>)
    requires
        d.wf(),
        i < d.nodes@.len(),
    ensures
        match r {
            Some(frag) => {
                &&& dom::resolve_anchor(*d, i as int) matches Some(h)
                &&& frag.id@ == dom::boundary_id(d.nodes@[h])
                &&& frag.content@ == if content {
                    sanitize::sanitize_spec(dom::raw_excerpt(*d, h))
                } else {
                    Seq::<u8>::empty()
                }
            },
            None => dom::resolve_anchor(*d, i as int) is None,
        },
{
    match dom::resolve_anchor_exec(d, i) {
        Some(h) => {
            proof {
                lemma_resolved_is_boundary(*d, i as int);
            }
            if content {
                Some(extract_fragment(d, h))
            } else {
                let id = match &d.nodes[h].data {
                    dom::NodeData::Element { id: Option::Some(v), .. } => text::copy_range(
                        v,
                        0,
                        v.len(),
                    ),
                    _ => Vec::new(),
                };
                proof {
                    assert(id@ =~= dom::boundary_id(d.nodes@[h as int]));
                }
                Some(DocFragment::dummy(id))
            }
        },
        None => None,
    }
}

/// What a resolution returns is always a boundary node.
pub proof fn lemma_resolve_prev_is_boundary(d: Document, i: int)
    ensures
        dom::resolve_prev(d, i) matches Some(h) ==> 0 <= h < d.nodes.len() && dom::is_boundary(
            d.nodes[h],
        ),
    decreases i,
{
    if 0 <= i < d.nodes.len() && !dom::is_boundary(d.nodes[i]) {
        match d.nodes[i].prev {
            Option::Some(p) => {
                if (p as int) < i {
                    lemma_resolve_prev_is_boundary(d, p as int);
                }
            },
            Option::None => {},
        }
    }
}

/// What anchor resolution returns is always a boundary node.
pub proof fn lemma_resolved_is_boundary(d: Document, i: int)
    ensures
        dom::resolve_anchor(d, i) matches Some(h) ==> 0 <= h < d.nodes.len() && dom::is_boundary(
            d.nodes[h],
        ),
    decreases i,
{
    if 0 <= i < d.nodes.len() {
        lemma_resolve_prev_is_boundary(d, i);
        if dom::resolve_prev(d, i) is None {
            match d.nodes[i].parent {
                Option::Some(p) => {
                    if (p as int) < i {
                        lemma_resolved_is_boundary(d, p as int);
                    }
                },
                Option::None => {},
            }
        }
    }
}

/// Resolution is a function of the document and the anchor alone: two
/// resolutions of the same anchor yield the same heading.
pub proof fn lemma_resolution_deterministic(
    d: Document,
    i: int,
    r1: Option<int>,
    r2: Option<int>,
)
    requires
        r1 == dom::resolve_anchor(d, i),
        r2 == dom::resolve_anchor(d, i),
    ensures
        r1 == r2,
{
}

/// The abstract content of one citable reference.
pub ghost struct CitationSpec {
    /// The hyperlink target that named the issue.
    pub url: Seq<u8>,
    pub owner: Seq<u8>,
    pub repo: Seq<u8>,
    pub id: u64,
    /// The deep link: transcript URL, `#`, heading identifier.
    pub link: Seq<u8>,
    /// Sanitized excerpt, or empty when excerpts are disabled.
    pub content: Seq<u8>,
}

/// One citable reference: a parsed issue reference together with the deep
/// link into the transcript and the excerpt to quote.
#[derive(Clone, Debug)]
pub struct Citation {
    pub issue: Issue,
    pub link: Vec<u8>,
    pub content: Vec<u8>,
}

impl View for Citation {
    type V = CitationSpec;

    open spec fn view(&self) -> CitationSpec {
        CitationSpec {
            url: self.issue.url@,
            owner: self.issue.owner@,
            repo: self.issue.repo@,
            id: self.issue.id,
            link: self.link@,
            content: self.content@,
        }
    }
}

/// The citation arising at node `i`, if that node is an anchor whose
/// target parses as a reference and which resolves to a citable heading.
pub open spec fn citation_at(d: Document, url: Seq<u8>, transcript: bool, i: int) -> Option<
    CitationSpec,
> {
    match dom::anchor_href(d.nodes[i]) {
        Option::Some(href) => match issue::parse_ref(href) {
            Option::Some(p) => match dom::resolve_anchor(d, i) {
                Option::Some(h) => Option::Some(
                    CitationSpec {
                        url: href,
                        owner: p.owner,
                        repo: p.repo,
                        id: p.id,
                        link: url + seq![35u8] + dom::boundary_id(d.nodes[h]),
                        content: if transcript {
                            sanitize::sanitize_spec(dom::raw_excerpt(d, h))
                        } else {
                            Seq::empty()
                        },
                    },
                ),
                Option::None => Option::None,
            },
            Option::None => Option::None,
        },
        Option::None => Option::None,
    }
}

/// All citations from node `i` on, in document order.
pub open spec fn citations_from(d: Document, url: Seq<u8>, transcript: bool, i: int) -> Seq<
    CitationSpec,
>
    decreases d.nodes.len() - i,
{
    if !(0 <= i < d.nodes.len()) {
        Seq::empty()
    } else {
        match citation_at(d, url, transcript, i) {
            Option::Some(c) => seq![c] + citations_from(d, url, transcript, i + 1),
            Option::None => citations_from(d, url, transcript, i + 1),
        }
    }
}

/// Collect, in document order, every anchor whose target parses as an
/// issue reference and which resolves to a citable heading.
#[verifier::loop_isolation(false)]
pub fn issues_with_link(d: &Document, url: &Vec<u8>, transcript: bool) -> (r: Vec<Citation>)
    requires
        d.wf(),
    ensures
        r@.map_values(|c: Citation| c@) == citations_from(*d, url@, transcript, 0),
{
    let n = d.nodes.len();
    let mut out: Vec<Citation> = Vec::new();
    let mut i: usize = 0;
    proof {
        assert(out@.map_values(|c: Citation| c@) =~= Seq::<CitationSpec>::empty());
    }
    while i < n
        invariant
            0 <= i <= n == d.nodes@.len(),
            citations_from(*d, url@, transcript, 0) == out@.map_values(|c: Citation| c@)
                + citations_from(*d, url@, transcript, i as int),
        decreases n - i,
    {
        let ghost pre = out@.map_values(|c: Citation| c@);
        let href: Option<&Vec<u8>> = match &d.nodes[i].data {
            dom::NodeData::Element { name, href: Option::Some(h), .. } => {
                let a = text::lit("a");
                if text::bytes_eq(name, &a) {
                    Some(h)
                } else {
                    None
                }
            },
            _ => None,
        };
        let mut emitted: bool = false;
        match href {
            Some(h) => {
                assert(dom::anchor_href(d.nodes@[i as int]) == Option::Some(h@));
                match Issue::try_from_url(h) {
                    Some(iss) => {
                        match find_closest_hn_id(d, i, transcript) {
                            Some(frag) => {
                                let mut link = text::copy_range(url, 0, url.len());
                                link.push(35);
                                text::push_all(&mut link, &frag.id);
                                let c = Citation { issue: iss, link, content: frag.content };
                                proof {
                                    let spec_c = citation_at(*d, url@, transcript, i as int)->Some_0;
                                    assert(url@.subrange(0, url@.len() as int) =~= url@);
                                    assert(c@.link =~= url@ + seq![35u8] + frag.id@);
                                    assert(c@.link == spec_c.link);
                                    assert(c@ == spec_c);
                                }
                                out.push(c);
                                emitted = true;
                                proof {
                                    assert(out@.map_values(|cc: Citation| cc@) =~= pre + seq![
                                        citation_at(*d, url@, transcript, i as int)->Some_0,
                                    ]);
                                }
                            },
                            None => {
                                assert(citation_at(*d, url@, transcript, i as int) is None);
                            },
                        }
                    },
                    None => {
                        assert(citation_at(*d, url@, transcript, i as int) is None);
                    },
                }
            },
            None => {
                assert(dom::anchor_href(d.nodes@[i as int]) is None);
                assert(citation_at(*d, url@, transcript, i as int) is None);
            },
        }
        proof {
            if emitted {
                assert(pre + (seq![citation_at(*d, url@, transcript, i as int)->Some_0]
                    + citations_from(*d, url@, transcript, i + 1)) =~= (pre + seq![
                    citation_at(*d, url@, transcript, i as int)->Some_0,
                ]) + citations_from(*d, url@, transcript, i + 1));
            }
        }
        i += 1;
    }
    out
}

/// The comment body: the template with every `%URL%` replaced by the deep
/// link and, when excerpts are enabled, the excerpt appended in a
/// collapsible section.
pub open spec fn composed_message(
    template: Seq<u8>,
    link: Seq<u8>,
    transcript: bool,
    content: Seq<u8>,
) -> Seq<u8> {
    let base = text::replace_all(template, "%URL%".spec_bytes(), link);
    if transcript {
        base + "\n\n<details><summary><i>View the transcript</i></summary>\n\n".spec_bytes()
            + content + "\n<hr /></details>".spec_bytes()
    } else {
        base
    }
}

/// Compose the comment body for one reference.
pub fn compose_comment(
    template: &Vec<u8>,
    link: &Vec<u8>,
    transcript: bool,
    content: &Vec<u8>,
) -> (r: Vec<u8>)
    ensures
        r@ == composed_message(template@, link@, transcript, content@),
{
    let pat_str = "%URL%";
    proof {
        reveal_strlit("%URL%");
        assert(vstd::string::is_ascii(pat_str));
        vstd::string::is_ascii_spec_bytes(pat_str);
        assert(pat_str.spec_bytes().len() == 5);
    }
    let pat = text::lit(pat_str);
    let mut out = text::substitute(template, &pat, link);
    if transcript {
        let open = text::lit("\n\n<details><summary><i>View the transcript</i></summary>\n\n");
        text::push_all(&mut out, &open);
        text::push_all(&mut out, content);
        let close = text::lit("\n<hr /></details>");
        text::push_all(&mut out, &close);
        assert(out@ =~= composed_message(template@, link@, transcript, content@));
    }
    out
}

/// Where the engine stands in the protocol for the current reference.
#[derive(Clone, Copy, Debug)]
pub enum Phase {
    /// Ready to take up the next reference (or to finish).
    Ready,
    /// A permit was requested from the pacer.
    AwaitingPermit,
    /// The existing comments of the current issue were requested.
    AwaitingComments,
    /// The creation of a comment was requested.
    AwaitingCreate,
    /// Every reference has been processed.
    Done,
}

/// What the caller reports back to the engine.
pub enum Event {
    /// Ask for the next action.
    Proceed,
    /// The pacer granted its permit (after the caller waited).
    PermitGranted,
    /// The tracker returned the issue's recent comments, or failed.
    CommentsListed(Result<Vec<Comment>, Vec<u8>>),
    /// The tracker created the comment (its URL), or failed.
    CommentCreated(Result<Vec<u8>, Vec<u8>>),
}

/// What the engine asks the caller to do next.
pub enum Action {
    /// Wait for the pacer, then report `PermitGranted`.
    RequestPermit,
    /// List the recent comments of the given issue, then report
    /// `CommentsListed`.
    ListComments { owner: Vec<u8>, repo: Vec<u8>, id: u64 },
    /// Create a comment with this body on the given issue, then report
    /// `CommentCreated`.
    CreateComment { owner: Vec<u8>, repo: Vec<u8>, id: u64, body: Vec<u8> },
    /// Deliver this outcome, then report `Proceed`.
    Emit(Outcome),
    /// The run is over.
    Finished,
}

/// Which event answers which phase.
pub open spec fn event_allowed(phase: Phase, ev: Event) -> bool {
    match phase {
        Phase::Ready => ev is Proceed,
        Phase::Done => ev is Proceed,
        Phase::AwaitingPermit => ev is PermitGranted,
        Phase::AwaitingComments => ev is CommentsListed,
        Phase::AwaitingCreate => ev is CommentCreated,
    }
}

/// The engine: configuration, the citations of one document traversal in
/// document order, and the protocol position.
pub struct Engine {
    pub config: EngineConfig,
    pub citations: Vec<Citation>,
    pub pos: usize,
    pub phase: Phase,
}

impl Engine {
    /// The protocol position always points at a real reference while one
    /// is being processed.
    pub open spec fn inv(self) -> bool {
        &&& self.pos <= self.citations@.len()
        &&& (self.phase is AwaitingPermit ==> self.pos < self.citations@.len())
        &&& (self.phase is AwaitingComments ==> self.pos < self.citations@.len())
        &&& (self.phase is AwaitingCreate ==> self.pos < self.citations@.len())
    }

    /// Create an engine over a parsed document: one traversal collects the
    /// citable references in document order.
    pub fn new(config: EngineConfig, doc: &Document) -> (r: Engine)
        requires
            doc.wf(),
        ensures
            r.inv(),
            r.config == config,
            r.pos == 0,
            r.phase is Ready,
            r.citations@.map_values(|c: Citation| c@) == citations_from(
                *doc,
                config.url@,
                config.transcript,
                0,
            ),
    {
        let citations = issues_with_link(doc, &config.url, config.transcript);
        Engine { config, citations, pos: 0, phase: Phase::Ready }
    }

    /// Feed one event and get the next action; see `step_rel` for the
    /// complete transition relation.
    pub fn step(&mut self, event: Event) -> (act: Action)
        requires
            old(self).inv(),
            event_allowed(old(self).phase, event),
        ensures
            final(self).inv(),
            step_rel(*old(self), event, *final(self), act),
            final(self).pos >= old(self).pos,
    {
        let n = self.citations.len();
        match event {
            Event::Proceed => {
                match self.phase {
                    Phase::Ready => {
                        if self.pos < self.citations.len() {
                            self.phase = Phase::AwaitingPermit;
                            Action::RequestPermit
                        } else {
                            self.phase = Phase::Done;
                            Action::Finished
                        }
                    },
                    _ => Action::Finished,
                }
            },
            Event::PermitGranted => {
                let owned = repositories::owns(&self.config.repos, &self.citations[self.pos].issue);
                if !owned {
                    let o = Outcome::not_owned(&self.citations[self.pos].issue);
                    self.pos += 1;
                    self.phase = Phase::Ready;
                    Action::Emit(o)
                } else {
                    let iss = &self.citations[self.pos].issue;
                    let owner = text::copy_range(&iss.owner, 0, iss.owner.len());
                    let repo = text::copy_range(&iss.repo, 0, iss.repo.len());
                    let id = iss.id;
                    proof {
                        assert(owner@ =~= iss.owner@);
                        assert(repo@ =~= iss.repo@);
                    }
                    self.phase = Phase::AwaitingComments;
                    Action::ListComments { owner, repo, id }
                }
            },
            Event::CommentsListed(res) => {
                match res {
                    Result::Err(msg) => {
                        let mut cause = text::lit("Fetching comments: ");
                        text::push_all(&mut cause, &msg);
                        let o = Outcome::error(&self.citations[self.pos].issue, cause);
                        self.pos += 1;
                        self.phase = Phase::Ready;
                        Action::Emit(o)
                    },
                    Result::Ok(comments) => {
                        match comment_to_link(&comments, &self.citations[self.pos].link) {
                            Some(j) => {
                                let u = text::copy_range(
                                    &comments[j].html_url,
                                    0,
                                    comments[j].html_url.len(),
                                );
                                proof {
                                    assert(u@ =~= comments@[j as int].html_url@);
                                }
                                let o = Outcome::duplicate(&self.citations[self.pos].issue, u);
                                self.pos += 1;
                                self.phase = Phase::Ready;
                                Action::Emit(o)
                            },
                            None => {
                                proof {
                                    let link = self.citations@[self.pos as int].link@;
                                    assert forall|j: int| !is_first_match(comments@, link, j) by {
                                        if 0 <= j < comments@.len() {
                                            assert(!comment_matches(comments@[j], link));
                                        }
                                    }
                                }
                                if self.config.dry_run {
                                    let o = Outcome::faked(&self.citations[self.pos].issue);
                                    self.pos += 1;
                                    self.phase = Phase::Ready;
                                    Action::Emit(o)
                                } else {
                                    let body = compose_comment(
                                        &self.config.message_template,
                                        &self.citations[self.pos].link,
                                        self.config.transcript,
                                        &self.citations[self.pos].content,
                                    );
                                    let iss = &self.citations[self.pos].issue;
                                    let owner = text::copy_range(&iss.owner, 0, iss.owner.len());
                                    let repo = text::copy_range(&iss.repo, 0, iss.repo.len());
                                    let id = iss.id;
                                    proof {
                                        assert(owner@ =~= iss.owner@);
                                        assert(repo@ =~= iss.repo@);
                                    }
                                    self.phase = Phase::AwaitingCreate;
                                    Action::CreateComment { owner, repo, id, body }
                                }
                            },
                        }
                    },
                }
            },
            Event::CommentCreated(res) => {
                match res {
                    Result::Err(msg) => {
                        let mut cause = text::lit("Posting comment: ");
                        text::push_all(&mut cause, &msg);
                        let o = Outcome::error(&self.citations[self.pos].issue, cause);
                        self.pos += 1;
                        self.phase = Phase::Ready;
                        Action::Emit(o)
                    },
                    Result::Ok(u) => {
                        let o = Outcome::created(&self.citations[self.pos].issue, u);
                        self.pos += 1;
                        self.phase = Phase::Ready;
                        Action::Emit(o)
                    },
                }
            },
        }
    }
}

/// The complete transition relation of the engine: for each phase and
/// event, which action comes out and how the state moves. Ownership is
/// decided right after the permit; a reference that is not owned is
/// reported and skipped without any tracker call — in particular the
/// duplicate detector is never consulted for it.
pub open spec fn step_rel(pre: Engine, ev: Event, post: Engine, act: Action) -> bool {
    let unchanged = post.config == pre.config && post.citations == pre.citations;
    let c = pre.citations@[pre.pos as int];
    match pre.phase {
        Phase::Ready => {
            &&& ev is Proceed
            &&& unchanged
            &&& post.pos == pre.pos
            &&& if pre.pos < pre.citations@.len() {
                post.phase is AwaitingPermit && act is RequestPermit
            } else {
                post.phase is Done && act is Finished
            }
        },
        Phase::Done => {
            &&& ev is Proceed
            &&& unchanged
            &&& post.pos == pre.pos
            &&& post.phase is Done
            &&& act is Finished
        },
        Phase::AwaitingPermit => {
            &&& ev is PermitGranted
            &&& unchanged
            &&& if !repositories::owns_spec(repositories::repos_view(pre.config.repos), c.issue) {
                &&& post.phase is Ready
                &&& post.pos == pre.pos + 1
                &&& (act matches Action::Emit(o) && o.kind is NotOwned && o.issue@
                    == c.issue.url@)
            } else {
                &&& post.phase is AwaitingComments
                &&& post.pos == pre.pos
                &&& (act matches Action::ListComments { owner, repo, id } && owner@
                    == c.issue.owner@ && repo@ == c.issue.repo@ && id == c.issue.id)
            }
        },
        Phase::AwaitingComments => {
            &&& unchanged
            &&& match ev {
                Event::CommentsListed(res) => match res {
                    Result::Err(msg) => {
                        &&& post.phase is Ready
                        &&& post.pos == pre.pos + 1
                        &&& (act matches Action::Emit(o) && o.issue@ == c.issue.url@
                            && (o.kind matches OutcomeKind::Error(m) && m@
                            == "Fetching comments: ".spec_bytes() + msg@))
                    },
                    Result::Ok(comments) => {
                        if exists|j: int| is_first_match(comments@, c.link@, j) {
                            &&& post.phase is Ready
                            &&& post.pos == pre.pos + 1
                            &&& (act matches Action::Emit(o) && o.issue@ == c.issue.url@
                                && (o.kind matches OutcomeKind::Duplicate(u) && exists|j: int|
                                #[trigger] is_first_match(comments@, c.link@, j) && u@
                                    == comments@[j].html_url@))
                        } else if pre.config.dry_run {
                            &&& post.phase is Ready
                            &&& post.pos == pre.pos + 1
                            &&& (act matches Action::Emit(o) && o.kind is Faked && o.issue@
                                == c.issue.url@)
                        } else {
                            &&& post.phase is AwaitingCreate
                            &&& post.pos == pre.pos
                            &&& (act matches Action::CreateComment { owner, repo, id, body }
                                && owner@ == c.issue.owner@ && repo@ == c.issue.repo@ && id
                                == c.issue.id && body@ == composed_message(
                                pre.config.message_template@,
                                c.link@,
                                pre.config.transcript,
                                c.content@,
                            ))
                        }
                    },
                },
                _ => false,
            }
        },
        Phase::AwaitingCreate => {
            &&& unchanged
            &&& match ev {
                Event::CommentCreated(res) => {
                    &&& post.phase is Ready
                    &&& post.pos == pre.pos + 1
                    &&& match res {
                        Result::Err(msg) => (act matches Action::Emit(o) && o.issue@
                            == c.issue.url@ && (o.kind matches OutcomeKind::Error(m) && m@
                            == "Posting comment: ".spec_bytes() + msg@)),
                        Result::Ok(u) => (act matches Action::Emit(o) && o.issue@ == c.issue.url@
                            && (o.kind matches OutcomeKind::Created(cu) && cu@ == u@)),
                    }
                },
                _ => false,
            }
        },
    }
}

} // verus!
