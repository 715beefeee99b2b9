//! The transcript document model: a flat, immutable tree of nodes in
//! document (pre-)order, with parent and sibling links by index.
//!
//! The engine never inspects HTML syntax here; the caller parses the
//! transcript and hands over one node per parse-tree node, carrying the
//! few plain values the engine reads: the tag name, the `id` and `href`
//! attributes, the serialized markup of an element, and the text of a text
//! node. Resolution then walks the structure: for each ancestor of an
//! anchor, innermost first and including the anchor itself, it scans the
//! preceding siblings, nearest first and including the ancestor itself, and
//! stops at the first heading of level 1 to 4 with a non-empty identifier.
use vstd::prelude::*;

verus! {

use vstd::string::StringSliceAdditionalSpecFns;

/// What a node holds.
#[derive(Clone, Debug)]
pub enum NodeData {
    /// An element with its tag name, its `id` and `href` attributes when
    /// present, and its serialized markup including all descendants.
    Element { name: Vec<u8>, id: Option<Vec<u8>>, href: Option<Vec<u8>>, markup: Vec<u8> },
    /// A text node with its text.
    Text(Vec<u8>),
    /// Any other node kind (comment, processing instruction, ...).
    Other,
}

/// One node of the document tree. Links are indices into the node table;
/// a node's parent and previous sibling always come earlier in document
/// order, its next sibling later.
#[derive(Clone, Debug)]
pub struct Node {
    pub parent: Option<usize>,
    pub prev: Option<usize>,
    pub next: Option<usize>,
    pub data: NodeData,
}

/// A parsed transcript document: its nodes in document order.
#[derive(Clone, Debug)]
pub struct Document {
    pub nodes: Vec<Node>,
}

/// The tag name is a heading of level 1 to 4 (`h1`..`h4`, case-insensitive).
pub open spec fn heading_name(name: Seq<u8>) -> bool {
    name.len() == 2 && (name[0] == 104 || name[0] == 72) && 49 <= name[1] <= 52
}

/// A fragment boundary: a heading of a recognized level carrying a
/// non-empty identifier.
pub open spec fn is_boundary(n: Node) -> bool {
    match n.data {
        NodeData::Element { name, id, .. } => heading_name(name@) && match id {
            Option::Some(v) => v@.len() > 0,
            Option::None => false,
        },
        _ => false,
    }
}

/// The identifier of a boundary node.
pub open spec fn boundary_id(n: Node) -> Seq<u8> {
    match n.data {
        NodeData::Element { id: Option::Some(v), .. } => v@,
        _ => Seq::empty(),
    }
}

/// The hyperlink target of an anchor element, when the node is one.
pub open spec fn anchor_href(n: Node) -> Option<Seq<u8>> {
    match n.data {
        NodeData::Element { name, href: Option::Some(h), .. } => if name@ == "a".spec_bytes() {
            Option::Some(h@)
        } else {
            Option::None
        },
        _ => Option::None,
    }
}

/// What a node contributes to an excerpt: an element its markup, a text
/// node its text, anything else nothing.
pub open spec fn piece(n: Node) -> Seq<u8> {
    match n.data {
        NodeData::Element { markup, .. } => markup@,
        NodeData::Text(t) => t@,
        NodeData::Other => Seq::empty(),
    }
}

impl Document {
    /// Links of the node at `i` point backward (parent, previous sibling)
    /// or forward (next sibling) as document order demands.
    pub open spec fn wf_at(self, i: int) -> bool {
        &&& (self.nodes[i].parent matches Option::Some(p) ==> (p as int) < i)
        &&& (self.nodes[i].prev matches Option::Some(p) ==> (p as int) < i)
        &&& (self.nodes[i].next matches Option::Some(nx) ==> i < (nx as int) < self.nodes.len())
    }

    /// A well-formed document: every link respects document order.
    pub open spec fn wf(self) -> bool {
        forall|i: int| 0 <= i < self.nodes.len() ==> #[trigger] self.wf_at(i)
    }
}

/// The nearest boundary in the preceding-sibling chain of `i`, including
/// `i` itself.
pub open spec fn resolve_prev(d: Document, i: int) -> Option<int>
    decreases i,
{
    if !(0 <= i < d.nodes.len()) {
        None
    } else if is_boundary(d.nodes[i]) {
        Some(i)
    } else {
        match d.nodes[i].prev {
            Option::Some(p) => if (p as int) < i {
                resolve_prev(d, p as int)
            } else {
                None
            },
            Option::None => None,
        }
    }
}

/// The nearest boundary for the anchor at `i`: the first hit when scanning,
/// for each ancestor of `i` (innermost first, `i` included), its preceding
/// siblings (nearest first, the ancestor included).
pub open spec fn resolve_anchor(d: Document, i: int) -> Option<int>
    decreases i,
{
    if !(0 <= i < d.nodes.len()) {
        None
    } else {
        match resolve_prev(d, i) {
            Some(h) => Some(h),
            None => match d.nodes[i].parent {
                Option::Some(p) => if (p as int) < i {
                    resolve_anchor(d, p as int)
                } else {
                    None
                },
                Option::None => None,
            },
        }
    }
}

/// The concatenated pieces of the siblings following `i`, up to but not
/// including the next boundary.
pub open spec fn excerpt_tail(d: Document, i: int) -> Seq<u8>
    decreases d.nodes.len() - i,
{
    if !(0 <= i < d.nodes.len()) {
        Seq::empty()
    } else {
        match d.nodes[i].next {
            Option::Some(nx) => if i < (nx as int) < d.nodes.len() {
                if is_boundary(d.nodes[nx as int]) {
                    Seq::empty()
                } else {
                    piece(d.nodes[nx as int]) + excerpt_tail(d, nx as int)
                }
            } else {
                Seq::empty()
            },
            Option::None => Seq::empty(),
        }
    }
}

/// The raw (unsanitized) excerpt owned by the boundary at `h`: its own
/// markup followed by the pieces of its following siblings up to the next
/// boundary.
pub open spec fn raw_excerpt(d: Document, h: int) -> Seq<u8> {
    piece(d.nodes[h]) + excerpt_tail(d, h)
}

/// Whether this node is a fragment boundary.
pub fn is_boundary_exec(n: &Node) -> (r: bool)
    ensures
        r == is_boundary(*n),
{
    match &n.data {
        NodeData::Element { name, id, .. } => {
            if name.len() != 2 {
                return false;
            }
            let b0 = name[0];
            let b1 = name[1];
            if !((b0 == 104 || b0 == 72) && 49 <= b1 && b1 <= 52) {
                return false;
            }
            match id {
                Option::Some(v) => v.len() > 0,
                Option::None => false,
            }
        },
        _ => false,
    }
}

/// Walk the preceding-sibling chain of `i`, nearest first and `i` included,
/// to the first boundary.
pub fn resolve_prev_exec(d: &Document, i: usize) -> (r: Option<usize>)
    requires
        d.wf(),
        i < d.nodes@.len(),
    ensures
        match r {
            Some(h) => resolve_prev(*d, i as int) == Some(h as int) && h < d.nodes@.len(),
            None => resolve_prev(*d, i as int) is None,
        },
    decreases i,
{
    assert(d.wf_at(i as int));
    if is_boundary_exec(&d.nodes[i]) {
        return Some(i);
    }
    match d.nodes[i].prev {
        Option::Some(p) => resolve_prev_exec(d, p),
        Option::None => None,
    }
}

/// Resolve the nearest citable heading for the anchor at `i`.
pub fn resolve_anchor_exec(d: &Document, i: usize) -> (r: Option<usize>)
    requires
        d.wf(),
        i < d.nodes@.len(),
    ensures
        match r {
            Some(h) => resolve_anchor(*d, i as int) == Some(h as int) && h < d.nodes@.len(),
            None => resolve_anchor(*d, i as int) is None,
        },
    decreases i,
{
    assert(d.wf_at(i as int));
    match resolve_prev_exec(d, i) {
        Some(h) => Some(h),
        None => {
            match d.nodes[i].parent {
                Option::Some(p) => resolve_anchor_exec(d, p),
                Option::None => None,
            }
        },
    }
}

/// Collect the raw excerpt owned by the boundary at `h`.
#[verifier::loop_isolation(false)]
pub fn raw_excerpt_exec(d: &Document, h: usize) -> (r: Vec<u8>)
    requires
        d.wf(),
        h < d.nodes@.len(),
    ensures
        r@ == raw_excerpt(*d, h as int),
{
    let mut out: Vec<u8> = Vec::new();
    match &d.nodes[h].data {
        NodeData::Element { markup, .. } => {
            crate::text::push_all(&mut out, markup);
        },
        NodeData::Text(t) => {
            crate::text::push_all(&mut out, t);
        },
        NodeData::Other => {},
    }
    assert(out@ =~= piece(d.nodes@[h as int]));
    let mut i = h;
    loop
        invariant
            i < d.nodes@.len(),
            raw_excerpt(*d, h as int) == out@ + excerpt_tail(*d, i as int),
        decreases d.nodes@.len() - i,
    {
        assert(d.wf_at(i as int));
        match d.nodes[i].next {
            Option::Some(nx) => {
                if is_boundary_exec(&d.nodes[nx]) {
                    break;
                }
                match &d.nodes[nx].data {
                    NodeData::Element { markup, .. } => {
                        crate::text::push_all(&mut out, markup);
                    },
                    NodeData::Text(t) => {
                        crate::text::push_all(&mut out, t);
                    },
                    NodeData::Other => {},
                }
                proof {
                    assert(excerpt_tail(*d, i as int) == piece(d.nodes@[nx as int])
                        + excerpt_tail(*d, nx as int));
                    assert(out@ + excerpt_tail(*d, nx as int) =~= raw_excerpt(*d, h as int));
                }
                i = nx;
            },
            Option::None => {
                break;
            },
        }
    }
    proof {
        assert(out@ + Seq::<u8>::empty() =~= out@);
    }
    out
}

} // verus!
