//! Errors reported while loading and generating the configuration.
use vstd::prelude::*;

verus! {

/// Why a configuration could not be loaded or generated.
///
/// `Io` and `Yaml` carry the message of the underlying I/O or YAML error,
/// which are raised at the program's edge.
#[derive(Debug)]
pub enum NixError {
    Validation(String),
    Io(String),
    Yaml(String),
    Generate(String),
}

/// Result of a configuration step.
pub type Result<T> = core::result::Result<T, NixError>;

impl NixError {
    /// A validation error with message `msg`.
    pub fn validation(msg: String) -> (e: Self)
        ensures
            e == NixError::Validation(msg),
    {
        NixError::Validation(msg)
    }

    /// A generator error with message `msg`.
    pub fn generate(msg: String) -> (e: Self)
        ensures
            e == NixError::Generate(msg),
    {
        NixError::Generate(msg)
    }

    /// The error's message, as the CLI prints it.
    pub fn message(&self) -> (s: String)
        ensures
            s@ == self.spec_message(),
    {
        let mut s = String::new();
        match self {
            NixError::Validation(m) => {
                s.append(m.as_str());
            },
            NixError::Io(m) => {
                s.append("I/O error: ");
                s.append(m.as_str());
            },
            NixError::Yaml(m) => {
                s.append("YAML error: ");
                s.append(m.as_str());
            },
            NixError::Generate(m) => {
                s.append("Generator error: ");
                s.append(m.as_str());
            },
        }
        s
    }

    pub open spec fn spec_message(&self) -> Seq<char> {
        match self {
            NixError::Validation(m) => m@,
            NixError::Io(m) => "I/O error: "@ + m@,
            NixError::Yaml(m) => "YAML error: "@ + m@,
            NixError::Generate(m) => "Generator error: "@ + m@,
        }
    }
}

} // verus!
