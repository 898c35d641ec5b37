//! Errors of a migration.
use vstd::prelude::*;
use crate::text::{chars_of, contains, contains_chars, push_str};

verus! {

/// What went wrong during a migration.
#[derive(Debug)]
pub enum Error {
    /// I/O errors (file access, permissions, etc.)
    Io(String),
    /// TOML parsing errors
    Toml(String),
    /// TOML serialization/deserialization errors
    TomlSerde(String),
    /// Errors from UV command execution
    UvCommand(String),
    /// Errors related to project detection
    ProjectDetection(String),
    /// Errors related to dependency parsing
    DependencyParsing(String),
    /// Errors related to file operations
    FileOperation { path: String, message: String },
    /// General errors
    General(String),
}

pub enum ErrorView {
    Io(Seq<char>),
    Toml(Seq<char>),
    TomlSerde(Seq<char>),
    UvCommand(Seq<char>),
    ProjectDetection(Seq<char>),
    DependencyParsing(Seq<char>),
    FileOperation { path: Seq<char>, message: Seq<char> },
    General(Seq<char>),
}

impl View for Error {
    type V = ErrorView;

    open spec fn view(&self) -> ErrorView {
        match self {
            Error::Io(m) => ErrorView::Io(m@),
            Error::Toml(m) => ErrorView::Toml(m@),
            Error::TomlSerde(m) => ErrorView::TomlSerde(m@),
            Error::UvCommand(m) => ErrorView::UvCommand(m@),
            Error::ProjectDetection(m) => ErrorView::ProjectDetection(m@),
            Error::DependencyParsing(m) => ErrorView::DependencyParsing(m@),
            Error::FileOperation { path, message } => ErrorView::FileOperation {
                path: path@,
                message: message@,
            },
            Error::General(m) => ErrorView::General(m@),
        }
    }
}

/// The text with which an error is shown to the user.
pub open spec fn error_text(e: ErrorView) -> Seq<char> {
    match e {
        ErrorView::Io(m) => "I/O error: "@ + m,
        ErrorView::Toml(m) => "TOML parsing error: "@ + m,
        ErrorView::TomlSerde(m) => "TOML serialization error: "@ + m,
        ErrorView::UvCommand(m) => "UV command failed: "@ + m,
        ErrorView::ProjectDetection(m) => "Project detection error: "@ + m,
        ErrorView::DependencyParsing(m) => "Dependency parsing error: "@ + m,
        ErrorView::FileOperation { path, message } => "File operation error on "@ + path + ": "@
            + message,
        ErrorView::General(m) => m,
    }
}

impl Error {
    /// The text with which this error is shown to the user.
    pub fn message(&self) -> (r: String)
        ensures
            r@ == error_text(self@),
    {
        let mut r = String::new();
        match self {
            Error::Io(m) => {
                push_str(&mut r, "I/O error: ");
                push_str(&mut r, m.as_str());
            },
            Error::Toml(m) => {
                push_str(&mut r, "TOML parsing error: ");
                push_str(&mut r, m.as_str());
            },
            Error::TomlSerde(m) => {
                push_str(&mut r, "TOML serialization error: ");
                push_str(&mut r, m.as_str());
            },
            Error::UvCommand(m) => {
                push_str(&mut r, "UV command failed: ");
                push_str(&mut r, m.as_str());
            },
            Error::ProjectDetection(m) => {
                push_str(&mut r, "Project detection error: ");
                push_str(&mut r, m.as_str());
            },
            Error::DependencyParsing(m) => {
                push_str(&mut r, "Dependency parsing error: ");
                push_str(&mut r, m.as_str());
            },
            Error::FileOperation { path, message } => {
                push_str(&mut r, "File operation error on ");
                push_str(&mut r, path.as_str());
                push_str(&mut r, ": ");
                push_str(&mut r, message.as_str());
            },
            Error::General(m) => {
                push_str(&mut r, m.as_str());
            },
        }
        r
    }

    /// An equal copy of this error.
    pub fn copy(&self) -> (r: Error)
        ensures
            r@ == self@,
    {
        match self {
            Error::Io(m) => Error::Io(m.clone()),
            Error::Toml(m) => Error::Toml(m.clone()),
            Error::TomlSerde(m) => Error::TomlSerde(m.clone()),
            Error::UvCommand(m) => Error::UvCommand(m.clone()),
            Error::ProjectDetection(m) => Error::ProjectDetection(m.clone()),
            Error::DependencyParsing(m) => Error::DependencyParsing(m.clone()),
            Error::FileOperation { path, message } => Error::FileOperation {
                path: path.clone(),
                message: message.clone(),
            },
            Error::General(m) => Error::General(m.clone()),
        }
    }

    /// Check if the error message contains a specific string
    pub fn contains(&self, needle: &str) -> (r: bool)
        ensures
            r == match self@ {
                ErrorView::FileOperation { message, .. } => contains(message, needle@),
                e => contains(error_text(e), needle@),
            },
    {
        let n = chars_of(needle);
        match self {
            Error::FileOperation { message, .. } => {
                let m = chars_of(message.as_str());
                contains_chars(m.as_slice(), n.as_slice())
            },
            _ => {
                let t = self.message();
                let m = chars_of(t.as_str());
                contains_chars(m.as_slice(), n.as_slice())
            },
        }
    }
}

} // verus!
