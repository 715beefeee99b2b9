//! A heading identifier together with the rendering of the transcript
//! fragment that the heading introduces.
use vstd::prelude::*;

verus! {

/// Combines an identifier from the document with the sanitized rendering of
/// the fragment reachable from it; the rendering is empty when excerpt
/// extraction is disabled.
#[derive(Clone, Debug)]
pub struct DocFragment {
    pub id: Vec<u8>,
    pub content: Vec<u8>,
}

impl DocFragment {
    /// A fragment with an identifier and no content, used when excerpts
    /// are not requested.
    pub fn dummy(id: Vec<u8>) -> (r: Self)
        ensures
            r.id@ == id@,
            r.content@ == Seq::<u8>::empty(),
    {
        let content: Vec<u8> = Vec::new();
        Self { id, content }
    }
}

} // verus!
