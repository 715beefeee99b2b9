//! Tests for fragment resolution and excerpt extraction.
use minutes_to_gh::dom::{Document, Node, NodeData};
use minutes_to_gh::engine::{extract_fragment, find_closest_hn_id};

fn b(s: &str) -> Vec<u8> {
    s.as_bytes().to_vec()
}

fn element(
    name: &str,
    id: Option<&str>,
    href: Option<&str>,
    markup: &str,
    parent: Option<usize>,
    prev: Option<usize>,
    next: Option<usize>,
) -> Node {
    Node {
        parent,
        prev,
        next,
        data: NodeData::Element {
            name: b(name),
            id: id.map(b),
            href: href.map(b),
            markup: b(markup),
        },
    }
}

fn text_node(text: &str, parent: Option<usize>, prev: Option<usize>, next: Option<usize>) -> Node {
    Node { parent, prev, next, data: NodeData::Text(b(text)) }
}

/// Two headings before an anchor: the nearest one wins, and resolving
/// twice gives the same identifier.
#[test]
fn nearest_heading_wins_and_resolution_is_repeatable() {
    let doc = Document {
        nodes: vec![
            element("h1", Some("a"), None, "<h1>one</h1>", None, None, Some(1)),
            element("h2", Some("b"), None, "<h2>two</h2>", None, Some(0), Some(2)),
            element("p", None, None, "<p>...</p>", None, Some(1), None),
            element("a", None, Some("https://example.com/"), "<a>x</a>", Some(2), None, None),
        ],
    };
    let first = find_closest_hn_id(&doc, 3, false).expect("resolves");
    let second = find_closest_hn_id(&doc, 3, false).expect("resolves");
    assert_eq!(first.id, b("b"));
    assert_eq!(second.id, first.id);
    assert_eq!(first.content, b(""));
}

/// An anchor with no identified heading anywhere before it resolves to
/// nothing.
#[test]
fn no_identified_heading_means_no_fragment() {
    let doc = Document {
        nodes: vec![
            element("p", None, None, "<p>intro</p>", None, None, Some(1)),
            element("p", None, None, "<p>...</p>", None, Some(0), None),
            element("a", None, Some("https://example.com/"), "<a>x</a>", Some(1), None, None),
        ],
    };
    assert!(find_closest_hn_id(&doc, 2, false).is_none());
}

/// A heading with an empty identifier is not citable; a level-5 heading
/// is not recognized.
#[test]
fn unrecognized_boundaries_are_skipped() {
    let doc = Document {
        nodes: vec![
            element("h2", Some(""), None, "<h2>x</h2>", None, None, Some(1)),
            element("h5", Some("deep"), None, "<h5>y</h5>", None, Some(0), Some(2)),
            element("a", None, Some("https://example.com/"), "<a>x</a>", None, Some(1), None),
        ],
    };
    assert!(find_closest_hn_id(&doc, 2, false).is_none());
}

/// The excerpt is the heading's own markup plus every following sibling
/// up to the next boundary, sanitized.
#[test]
fn excerpt_stops_at_next_boundary_and_is_sanitized() {
    let doc = Document {
        nodes: vec![
            element("h2", Some("s1"), None, "<h2>topic</h2>", None, None, Some(1)),
            element("p", None, None, "<p>hi @bob</p>", None, Some(0), Some(2)),
            text_node("between", None, Some(1), Some(3)),
            element("h2", Some("s2"), None, "<h2>next</h2>", None, Some(2), None),
        ],
    };
    let frag = extract_fragment(&doc, 0);
    assert_eq!(frag.id, b("s1"));
    assert_eq!(frag.content, b("<h2>topic</h2><p>hi <code>@bob</code></p>between"));
}

/// Uppercase heading names are recognized, like the lowercase ones.
#[test]
fn uppercase_headings_are_boundaries() {
    let doc = Document {
        nodes: vec![
            element("H3", Some("up"), None, "<h3>t</h3>", None, None, None),
            element("a", None, Some("x"), "<a>x</a>", Some(0), None, None),
        ],
    };
    let frag = find_closest_hn_id(&doc, 1, false).expect("resolves");
    assert_eq!(frag.id, b("up"));
}
