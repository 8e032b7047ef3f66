//! The outcome of loading the document, decided from what the file system
//! and the text extractor reported.

use vstd::prelude::*;
use crate::error::LoadError;

verus! {

/// What was found at the document's path.
pub enum Probe {
    /// No file is there.
    Missing,
    /// A file is there but the extractor failed; holds its account.
    Unreadable(String),
    /// The text that the extractor produced.
    Text(String),
}

/// Turns a probe of `path` into the document text or the reason there is
/// none. Extraction is all or nothing: text comes back only from
/// `Probe::Text`, and then whole.
pub fn load_outcome(path: &str, probe: Probe) -> (r: Result<String, LoadError>)
    ensures
        match probe {
            Probe::Missing => match r {
                Err(LoadError::NotFound(p)) => p@ == path@,
                _ => false,
            },
            Probe::Unreadable(detail) => match r {
                Err(LoadError::ExtractionFailed(d)) => d@ == detail@,
                _ => false,
            },
            Probe::Text(text) => match r {
                Ok(t) => t@ == text@,
                _ => false,
            },
        },
{
    match probe {
        Probe::Missing => Err(LoadError::NotFound(path.to_owned())),
        Probe::Unreadable(detail) => Err(LoadError::ExtractionFailed(detail)),
        Probe::Text(text) => Ok(text),
    }
}

} // verus!
