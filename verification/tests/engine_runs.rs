//! End-to-end runs of the engine state machine on small documents.
use minutes_to_gh::config::EngineConfig;
use minutes_to_gh::date::Date;
use minutes_to_gh::dom::{Document, Node, NodeData};
use minutes_to_gh::engine::{Action, Comment, Engine, Event};
use minutes_to_gh::outcome::{Outcome, OutcomeKind};
use minutes_to_gh::repositories::{Owner, Repository};

fn b(s: &str) -> Vec<u8> {
    s.as_bytes().to_vec()
}

fn element(
    name: &str,
    id: Option<&str>,
    href: Option<&str>,
    markup: &str,
    parent: Option<usize>,
    prev: Option<usize>,
    next: Option<usize>,
) -> Node {
    Node {
        parent,
        prev,
        next,
        data: NodeData::Element {
            name: b(name),
            id: id.map(b),
            href: href.map(b),
            markup: b(markup),
        },
    }
}

/// One heading `id="item1"` containing one anchor to an issue.
fn one_reference_doc() -> Document {
    Document {
        nodes: vec![
            element("h1", Some("item1"), None, "<h1>topic</h1>", None, None, None),
            element(
                "a",
                None,
                Some("https://github.com/acme/widgets/issues/5"),
                "<a>#5</a>",
                Some(0),
                None,
                None,
            ),
        ],
    }
}

fn config(dry_run: bool, repos: Option<Vec<Repository>>) -> EngineConfig {
    EngineConfig {
        url: b("https://www.w3.org/2025/03/05-chan-minutes.html"),
        message_template: b("This was discussed during the [#chan meeting on 05 March 2025](%URL%)."),
        transcript: false,
        dry_run,
        min_date: Date { year: 2025, month: 3, day: 4 },
        repos,
    }
}

fn contains(haystack: &[u8], needle: &[u8]) -> bool {
    haystack.windows(needle.len()).any(|w| w == needle)
}

/// Empty comment history, real mode: exactly one comment is created, whose
/// body carries the deep link into the transcript.
#[test]
fn creates_one_comment_with_deep_link() {
    let doc = one_reference_doc();
    let mut e = Engine::new(config(false, None), &doc);
    let mut outcomes: Vec<Outcome> = Vec::new();
    let mut created_bodies: Vec<Vec<u8>> = Vec::new();

    let act = e.step(Event::Proceed);
    assert!(matches!(act, Action::RequestPermit));
    let act = e.step(Event::PermitGranted);
    match act {
        Action::ListComments { owner, repo, id } => {
            assert_eq!(owner, b("acme"));
            assert_eq!(repo, b("widgets"));
            assert_eq!(id, 5);
        },
        _ => panic!("expected a comment listing"),
    }
    let act = e.step(Event::CommentsListed(Ok(vec![])));
    match act {
        Action::CreateComment { id, body, .. } => {
            assert_eq!(id, 5);
            assert!(contains(&body, b("https://www.w3.org/2025/03/05-chan-minutes.html#item1").as_slice()));
            created_bodies.push(body);
        },
        _ => panic!("expected a comment creation"),
    }
    let act = e.step(Event::CommentCreated(Ok(b("https://github.com/acme/widgets/issues/5#c1"))));
    match act {
        Action::Emit(o) => outcomes.push(o),
        _ => panic!("expected an outcome"),
    }
    let act = e.step(Event::Proceed);
    assert!(matches!(act, Action::Finished));

    assert_eq!(outcomes.len(), 1);
    assert!(matches!(&outcomes[0].kind, OutcomeKind::Created(u) if *u == b("https://github.com/acme/widgets/issues/5#c1")));
    assert_eq!(created_bodies.len(), 1);
    assert_eq!(
        created_bodies[0],
        b("This was discussed during the [#chan meeting on 05 March 2025](https://www.w3.org/2025/03/05-chan-minutes.html#item1).")
    );
}

/// The issue already carries a comment with the exact deep link: exactly
/// one Duplicate outcome, and no comment creation is ever requested.
#[test]
fn duplicate_link_creates_nothing() {
    let doc = one_reference_doc();
    let mut e = Engine::new(config(false, None), &doc);

    assert!(matches!(e.step(Event::Proceed), Action::RequestPermit));
    assert!(matches!(e.step(Event::PermitGranted), Action::ListComments { .. }));
    let existing = vec![
        Comment { body: Some(b("unrelated")), html_url: b("https://c/0") },
        Comment {
            body: Some(b("see https://www.w3.org/2025/03/05-chan-minutes.html#item1 there")),
            html_url: b("https://c/1"),
        },
    ];
    let act = e.step(Event::CommentsListed(Ok(existing)));
    match act {
        Action::Emit(o) => {
            assert!(matches!(&o.kind, OutcomeKind::Duplicate(u) if *u == b("https://c/1")));
            assert_eq!(o.issue, b("https://github.com/acme/widgets/issues/5"));
        },
        _ => panic!("expected a duplicate outcome"),
    }
    assert!(matches!(e.step(Event::Proceed), Action::Finished));
}

/// Simulation mode: exactly one Faked outcome and no creation request.
#[test]
fn simulation_mode_fakes_the_comment() {
    let doc = one_reference_doc();
    let mut e = Engine::new(config(true, None), &doc);

    assert!(matches!(e.step(Event::Proceed), Action::RequestPermit));
    assert!(matches!(e.step(Event::PermitGranted), Action::ListComments { .. }));
    let act = e.step(Event::CommentsListed(Ok(vec![])));
    match act {
        Action::Emit(o) => assert!(matches!(o.kind, OutcomeKind::Faked)),
        _ => panic!("expected a faked outcome"),
    }
    assert!(matches!(e.step(Event::Proceed), Action::Finished));
}

/// A reference outside the owned repositories is reported as NotOwned and
/// the duplicate detector is never consulted for it.
#[test]
fn unowned_reference_skips_all_tracker_calls() {
    let doc = Document {
        nodes: vec![
            element("h1", Some("x"), None, "<h1>t</h1>", None, None, None),
            element(
                "a",
                None,
                Some("https://github.com/other-org/other-repo/issues/1"),
                "<a>#1</a>",
                Some(0),
                None,
                None,
            ),
        ],
    };
    let repos = vec![Repository { name: b("widgets"), owner: Owner { login: b("acme") } }];
    let mut e = Engine::new(config(false, Some(repos)), &doc);

    assert!(matches!(e.step(Event::Proceed), Action::RequestPermit));
    let act = e.step(Event::PermitGranted);
    match act {
        Action::Emit(o) => {
            assert!(matches!(o.kind, OutcomeKind::NotOwned));
            assert_eq!(o.issue, b("https://github.com/other-org/other-repo/issues/1"));
        },
        _ => panic!("the ownership filter must act before any tracker call"),
    }
    assert!(matches!(e.step(Event::Proceed), Action::Finished));
}

/// A failing tracker call folds into an Error outcome and the run goes on
/// with the next reference, in document order.
#[test]
fn errors_are_local_and_order_is_kept() {
    let doc = Document {
        nodes: vec![
            element("h1", Some("s1"), None, "<h1>a</h1>", None, None, Some(2)),
            element(
                "a",
                None,
                Some("https://github.com/acme/widgets/issues/1"),
                "<a>#1</a>",
                Some(0),
                None,
                None,
            ),
            element("h1", Some("s2"), None, "<h1>b</h1>", None, Some(0), None),
            element(
                "a",
                None,
                Some("https://github.com/acme/widgets/issues/2"),
                "<a>#2</a>",
                Some(2),
                None,
                None,
            ),
        ],
    };
    let mut e = Engine::new(config(true, None), &doc);
    let mut outcomes: Vec<Outcome> = Vec::new();

    assert!(matches!(e.step(Event::Proceed), Action::RequestPermit));
    assert!(matches!(e.step(Event::PermitGranted), Action::ListComments { .. }));
    match e.step(Event::CommentsListed(Err(b("boom")))) {
        Action::Emit(o) => outcomes.push(o),
        _ => panic!("expected an error outcome"),
    }
    assert!(matches!(e.step(Event::Proceed), Action::RequestPermit));
    assert!(matches!(e.step(Event::PermitGranted), Action::ListComments { .. }));
    match e.step(Event::CommentsListed(Ok(vec![]))) {
        Action::Emit(o) => outcomes.push(o),
        _ => panic!("expected a faked outcome"),
    }
    assert!(matches!(e.step(Event::Proceed), Action::Finished));

    assert_eq!(outcomes.len(), 2);
    assert!(matches!(&outcomes[0].kind, OutcomeKind::Error(m) if *m == b("Fetching comments: boom")));
    assert_eq!(outcomes[0].issue, b("https://github.com/acme/widgets/issues/1"));
    assert!(matches!(outcomes[1].kind, OutcomeKind::Faked));
    assert_eq!(outcomes[1].issue, b("https://github.com/acme/widgets/issues/2"));
}

/// With excerpts enabled the created comment carries the collapsible
/// transcript section, sanitized.
#[test]
fn transcript_section_is_appended() {
    let doc = Document {
        nodes: vec![
            element("h2", Some("item1"), None, "<h2>topic</h2>", None, None, Some(2)),
            element(
                "a",
                None,
                Some("https://github.com/acme/widgets/issues/5"),
                "<a>#5</a>",
                Some(0),
                None,
                None,
            ),
            element("p", None, None, "<p>done by @dan</p>", None, Some(0), None),
        ],
    };
    let mut cfg = config(false, None);
    cfg.transcript = true;
    let mut e = Engine::new(cfg, &doc);

    assert!(matches!(e.step(Event::Proceed), Action::RequestPermit));
    assert!(matches!(e.step(Event::PermitGranted), Action::ListComments { .. }));
    match e.step(Event::CommentsListed(Ok(vec![]))) {
        Action::CreateComment { body, .. } => {
            let expected_tail = b("\n\n<details><summary><i>View the transcript</i></summary>\n\n<h2>topic</h2><p>done by <code>@dan</code></p>\n<hr /></details>");
            assert!(body.ends_with(&expected_tail));
            assert!(contains(&body, b("#item1").as_slice()));
        },
        _ => panic!("expected a comment creation"),
    }
}

/// An anchor whose target is no issue reference yields nothing at all.
#[test]
fn non_reference_anchors_are_silent() {
    let doc = Document {
        nodes: vec![
            element("h1", Some("x"), None, "<h1>t</h1>", None, None, None),
            element("a", None, Some("https://example.com/"), "<a>e</a>", Some(0), None, None),
        ],
    };
    let mut e = Engine::new(config(false, None), &doc);
    assert!(matches!(e.step(Event::Proceed), Action::Finished));
}
