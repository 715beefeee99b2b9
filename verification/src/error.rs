//! Typed load failures raised while an engine is being created: they are
//! fatal to the whole run and surface before any reference is processed.
use vstd::prelude::*;

use crate::text;

verus! {

use vstd::string::StringSliceAdditionalSpecFns;

/// Why an engine could not be created.
#[derive(Clone, Debug)]
pub enum EngineCreationError {
    /// The transcript URL answered with "not found" (the URL is carried
    /// for display).
    MinutesNotFound(Vec<u8>),
    /// Any other transport failure while loading the transcript.
    MinutesHttp,
    /// The transcript could not be read from a local file.
    MinutesFile,
    /// The ownership list could not be loaded or parsed.
    W3cApi,
    /// The tracker client could not be built.
    GitHub,
}

impl EngineCreationError {
    /// Classify a transcript-loading failure from its HTTP status:
    /// a 404 names the URL that was missing, anything else is a plain
    /// transport failure.
    pub fn minutes(status: Option<u16>, url: Vec<u8>) -> (r: Self)
        ensures
            status == Some(404u16) ==> (r matches EngineCreationError::MinutesNotFound(u) && u@
                == url@),
            status != Some(404u16) ==> r is MinutesHttp,
    {
        match status {
            Option::Some(s) => {
                if s == 404 {
                    EngineCreationError::MinutesNotFound(url)
                } else {
                    EngineCreationError::MinutesHttp
                }
            },
            Option::None => EngineCreationError::MinutesHttp,
        }
    }

    /// An ownership-list failure.
    pub fn w3c_api() -> (r: Self)
        ensures
            r is W3cApi,
    {
        EngineCreationError::W3cApi
    }

    /// The display text of this failure.
    pub fn message(&self) -> (r: Vec<u8>)
        ensures
            match *self {
                EngineCreationError::MinutesNotFound(ref u) => r@ == "Minutes not found <".spec_bytes()
                    + u@ + ">".spec_bytes(),
                EngineCreationError::MinutesHttp => r@ == "Error loading minutes".spec_bytes(),
                EngineCreationError::MinutesFile => r@
                    == "Failed loading minutes from file".spec_bytes(),
                EngineCreationError::W3cApi => r@ == "W3C API error".spec_bytes(),
                EngineCreationError::GitHub => r@ == "GitHub API error".spec_bytes(),
            },
    {
        match self {
            EngineCreationError::MinutesNotFound(u) => {
                let mut out = text::lit("Minutes not found <");
                text::push_all(&mut out, u);
                let tail = text::lit(">");
                text::push_all(&mut out, &tail);
                out
            },
            EngineCreationError::MinutesHttp => text::lit("Error loading minutes"),
            EngineCreationError::MinutesFile => text::lit("Failed loading minutes from file"),
            EngineCreationError::W3cApi => text::lit("W3C API error"),
            EngineCreationError::GitHub => text::lit("GitHub API error"),
        }
    }
}

} // verus!
