//! The generator's error type. Causes coming from outside libraries are
//! carried as rendered text so that the core stays free of foreign types.

use vstd::prelude::*;

verus! {

#[derive(Debug, Clone)]
pub enum TechouError {
    /// A file could not be read or written.
    IO { context: String },
    /// A document's front matter block is missing or malformed.
    FrontMatter { issue: String },
    /// A template could not be rendered.
    Templating { context: String },
    /// A configuration file could not be parsed.
    TOML { context: String },
    Other { issue: String },
    /// A serialized value could not be read or written.
    JSON { context: String },
}

impl TechouError {
    /// A short human-readable account of the error.
    pub fn message(&self) -> (r: String)
        ensures
            match self {
                TechouError::IO { context } => r@ == context@,
                TechouError::FrontMatter { issue } => r@ == issue@,
                TechouError::Templating { context } => r@ == context@,
                TechouError::TOML { context } => r@ == context@,
                TechouError::Other { issue } => r@ == issue@,
                TechouError::JSON { context } => r@ == context@,
            },
    {
        match self {
            TechouError::IO { context } => context.clone(),
            TechouError::FrontMatter { issue } => issue.clone(),
            TechouError::Templating { context } => context.clone(),
            TechouError::TOML { context } => context.clone(),
            TechouError::Other { issue } => issue.clone(),
            TechouError::JSON { context } => context.clone(),
        }
    }
}

} // verus!
