use vstd::prelude::*;

verus! {

/// The kinds of failure that the library reports, each with its message.
#[derive(Debug, Clone, PartialEq, Eq)]
pub enum CirupError {
    /// A malformed file; the message preserves the parser's cause.
    Parse(String),
    /// A missing path, an unreadable file or a failed write.
    Io(String),
    /// A missing or unknown configuration value.
    Config(String),
    /// An input that the library refuses, such as an invalid table name.
    Validation(String),
    /// A failure of a query backend.
    Backend(String),
    /// A version-control command that failed.
    Subprocess(String),
    /// An operation that this variant does not offer.
    Unsupported(String),
}

impl CirupError {
    /// The message carried by the error.
    pub fn message(&self) -> (s: &String)
        ensures
            s == match self {
                CirupError::Parse(m) => m,
                CirupError::Io(m) => m,
                CirupError::Config(m) => m,
                CirupError::Validation(m) => m,
                CirupError::Backend(m) => m,
                CirupError::Subprocess(m) => m,
                CirupError::Unsupported(m) => m,
            },
    {
        match self {
            CirupError::Parse(m) => m,
            CirupError::Io(m) => m,
            CirupError::Config(m) => m,
            CirupError::Validation(m) => m,
            CirupError::Backend(m) => m,
            CirupError::Subprocess(m) => m,
            CirupError::Unsupported(m) => m,
        }
    }
}

} // verus!
