//! The error kinds of the pipeline.

use vstd::prelude::*;

verus! {

/// What went wrong, and where in the pipeline.
#[derive(Debug)]
pub enum Error {
    /// A required setting is missing; fatal before any work is done.
    Configuration(String),
    /// An ignore rule is malformed; fatal at matcher construction.
    Pattern(String),
    /// A directory entry could not be read; logged and skipped, never fatal
    /// to the walk.
    Traversal(String),
    /// The embedding model could not be resolved; fatal at worker startup.
    ModelLoad(String),
    /// A fragment's inference call failed; fatal to its whole request.
    Embedding(String),
    /// The upsert collaborator failed; fatal to the run.
    Upsert(String),
}

impl Error {
    /// A short label naming the error kind.
    pub fn kind(&self) -> (r: &'static str)
        ensures
            r@ == self.kind_spec(),
    {
        match self {
            Error::Configuration(_) => "configuration",
            Error::Pattern(_) => "pattern",
            Error::Traversal(_) => "traversal",
            Error::ModelLoad(_) => "model_load",
            Error::Embedding(_) => "embedding",
            Error::Upsert(_) => "upsert",
        }
    }

    /// The label for each error kind.
    pub open spec fn kind_spec(&self) -> Seq<char> {
        match self {
            Error::Configuration(_) => "configuration"@,
            Error::Pattern(_) => "pattern"@,
            Error::Traversal(_) => "traversal"@,
            Error::ModelLoad(_) => "model_load"@,
            Error::Embedding(_) => "embedding"@,
            Error::Upsert(_) => "upsert"@,
        }
    }

    /// The detail text the error was created with.
    pub fn message(&self) -> (r: &String)
        ensures
            r@ == self.message_spec(),
    {
        match self {
            Error::Configuration(m) => m,
            Error::Pattern(m) => m,
            Error::Traversal(m) => m,
            Error::ModelLoad(m) => m,
            Error::Embedding(m) => m,
            Error::Upsert(m) => m,
        }
    }

    /// The detail text of each error kind.
    pub open spec fn message_spec(&self) -> Seq<char> {
        match self {
            Error::Configuration(m) => m@,
            Error::Pattern(m) => m@,
            Error::Traversal(m) => m@,
            Error::ModelLoad(m) => m@,
            Error::Embedding(m) => m@,
            Error::Upsert(m) => m@,
        }
    }
}

} // verus!
