//! The ways in which building the list can fail.

use vstd::prelude::*;
use crate::text::push_str;

verus! {

/// A failure, with what is needed to say what went wrong.
#[derive(Debug)]
pub enum Error {
    /// A remote source could not be reached or answered without success; the
    /// text is the transport's own account of it.
    Transport(String),
    /// The report could not be read, created or appended to; the text is the
    /// storage's own account of it.
    Storage(String),
    /// The response from this address did not have the expected shape.
    Deserialization(String),
    /// The repository address does not start with the code host's address.
    MalformedRepositoryUrl,
    /// The report does not start with the heading and the divider.
    InvalidHeadings,
    /// The dependency tree was not UTF-8 text.
    InvalidUtf8,
    /// This line of the dependency tree did not describe a dependency.
    InvalidDependency(String),
    /// The dependency tree could not be had, for this reason.
    CargoTree(String),
    /// What was being done when the second failure happened.
    Context(String, Box<Error>),
}

impl Error {
    /// The failure in words. For a failure with a context, the context alone.
    pub open spec fn message_text(self) -> Seq<char> {
        match self {
            Error::Transport(reason) => reason@,
            Error::Storage(reason) => reason@,
            Error::Deserialization(url) => "failed to deserialize response from: "@ + url@,
            Error::MalformedRepositoryUrl => "could not extract owner and name from repository url"@,
            Error::InvalidHeadings => "invalid headings in trust list"@,
            Error::InvalidUtf8 => "cargo tree output contained invalid utf8"@,
            Error::InvalidDependency(line) => "could not deserialize a dependency: "@ + line@,
            Error::CargoTree(reason) => "failed to call cargo tree: "@ + reason@,
            Error::Context(doing, _) => doing@,
        }
    }

    /// The failure under every context.
    pub open spec fn root(self) -> Error
        decreases self,
    {
        match self {
            Error::Context(_, cause) => cause.root(),
            _ => self,
        }
    }

    /// The failure in words.
    pub fn message(&self) -> (text: String)
        ensures
            text@ == self.message_text(),
    {
        let mut text = String::new();
        match self {
            Error::Transport(reason) => push_str(&mut text, reason.as_str()),
            Error::Storage(reason) => push_str(&mut text, reason.as_str()),
            Error::Deserialization(url) => {
                push_str(&mut text, "failed to deserialize response from: ");
                push_str(&mut text, url.as_str());
            },
            Error::MalformedRepositoryUrl => push_str(
                &mut text,
                "could not extract owner and name from repository url",
            ),
            Error::InvalidHeadings => push_str(&mut text, "invalid headings in trust list"),
            Error::InvalidUtf8 => push_str(&mut text, "cargo tree output contained invalid utf8"),
            Error::InvalidDependency(line) => {
                push_str(&mut text, "could not deserialize a dependency: ");
                push_str(&mut text, line.as_str());
            },
            Error::CargoTree(reason) => {
                push_str(&mut text, "failed to call cargo tree: ");
                push_str(&mut text, reason.as_str());
            },
            Error::Context(doing, _) => push_str(&mut text, doing.as_str()),
        }
        text
    }

    /// The failure under every context.
    pub fn root_cause(&self) -> (cause: &Error)
        ensures
            *cause == self.root(),
        decreases self,
    {
        match self {
            Error::Context(_, cause) => cause.root_cause(),
            _ => self,
        }
    }
}

} // verus!
