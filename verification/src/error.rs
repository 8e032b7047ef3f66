//! What can go wrong, and the message shown for each failure.

use vstd::prelude::*;
use vstd::string::*;
use crate::text::{occurs_in, lemma_occurs_between};

verus! {

/// Why the document could not be loaded.
pub enum LoadError {
    /// No file at the path held here.
    NotFound(String),
    /// The file is there but gave no text; holds the extractor's account.
    ExtractionFailed(String),
}

/// A failure before the first prompt. Always fatal.
pub enum StartupError {
    /// The service client could not be made.
    Client(String),
    /// The document could not be loaded.
    Load(LoadError),
    /// The document could not be embedded or indexed.
    Embedding(String),
}

/// A failure while answering one question. The session goes on.
pub enum TurnError {
    /// The question could not be embedded.
    Embedding(String),
    /// The completion service gave no answer.
    Completion(String),
}

impl LoadError {
    /// The message for this failure. A missing file is named by its path.
    pub open spec fn message_spec(self) -> Seq<char> {
        match self {
            LoadError::NotFound(path) => "File '"@ + path@
                + "' not found! Please place it in the project folder."@,
            LoadError::ExtractionFailed(detail) => "Failed to extract text from PDF: "@ + detail@,
        }
    }

    /// The message for this failure.
    pub fn message(&self) -> (r: String)
        ensures
            r@ == self.message_spec(),
    {
        match self {
            LoadError::NotFound(path) => {
                let mut m: String = "File '".to_owned();
                m.append(path.as_str());
                m.append("' not found! Please place it in the project folder.");
                m
            },
            LoadError::ExtractionFailed(detail) => {
                let mut m: String = "Failed to extract text from PDF: ".to_owned();
                m.append(detail.as_str());
                m
            },
        }
    }
}

impl StartupError {
    /// The message for this failure.
    pub open spec fn message_spec(self) -> Seq<char> {
        match self {
            StartupError::Client(detail) => "Failed to create Ollama client: "@ + detail@,
            StartupError::Load(e) => e.message_spec(),
            StartupError::Embedding(detail) => "Failed to build embeddings: "@ + detail@,
        }
    }

    /// The message for this failure.
    pub fn message(&self) -> (r: String)
        ensures
            r@ == self.message_spec(),
    {
        match self {
            StartupError::Client(detail) => {
                let mut m: String = "Failed to create Ollama client: ".to_owned();
                m.append(detail.as_str());
                m
            },
            StartupError::Load(e) => e.message(),
            StartupError::Embedding(detail) => {
                let mut m: String = "Failed to build embeddings: ".to_owned();
                m.append(detail.as_str());
                m
            },
        }
    }
}

impl TurnError {
    /// The message for this failure.
    pub open spec fn message_spec(self) -> Seq<char> {
        match self {
            TurnError::Embedding(detail) => "Failed to embed the question: "@ + detail@,
            TurnError::Completion(detail) => "Completion failed: "@ + detail@,
        }
    }

    /// The message for this failure.
    pub fn message(&self) -> (r: String)
        ensures
            r@ == self.message_spec(),
    {
        match self {
            TurnError::Embedding(detail) => {
                let mut m: String = "Failed to embed the question: ".to_owned();
                m.append(detail.as_str());
                m
            },
            TurnError::Completion(detail) => {
                let mut m: String = "Completion failed: ".to_owned();
                m.append(detail.as_str());
                m
            },
        }
    }
}

/// The message for a missing file holds the path, letter for letter.
pub proof fn lemma_not_found_names_path(path: String)
    ensures
        occurs_in(LoadError::NotFound(path).message_spec(), path@),
        occurs_in(StartupError::Load(LoadError::NotFound(path)).message_spec(), path@),
{
    lemma_occurs_between(
        "File '"@,
        path@,
        "' not found! Please place it in the project folder."@,
    );
}

} // verus!
