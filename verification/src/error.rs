//! What can go wrong, and what is said about it.

use vstd::prelude::*;

verus! {

/// What can go wrong.
#[derive(Debug)]
pub enum AppError {
    /// No file was named.
    MissingPath,
    /// There is no such file.
    MissingFile(String),
    /// The file is not of a kind that can be read.
    UnsupportedFormat(String),
    /// The file was read, and what it holds makes no layout.
    Parse(String),
    /// Drawing could not be set up.
    Render(String),
}

/// A text and what follows it.
pub fn joined(head: &str, tail: &str) -> (text: String)
    ensures
        text@ == head@ + tail@,
{
    let mut text = String::from_str(head);
    text.append(tail);
    text
}

impl AppError {
    /// What is said about the error.
    pub open spec fn text(self) -> Seq<char> {
        match self {
            AppError::MissingPath => "layout path is not configured"@,
            AppError::MissingFile(path) => "layout file does not exist: "@ + path@,
            AppError::UnsupportedFormat(path) => "unsupported layout format: "@ + path@,
            AppError::Parse(detail) => "layout parse failed: "@ + detail@,
            AppError::Render(detail) => "render setup failed: "@ + detail@,
        }
    }

    /// What is said about the error.
    pub fn message(&self) -> (message: String)
        ensures
            message@ == self.text(),
    {
        match self {
            AppError::MissingPath => String::from_str("layout path is not configured"),
            AppError::MissingFile(path) => joined("layout file does not exist: ", path.as_str()),
            AppError::UnsupportedFormat(path) => joined(
                "unsupported layout format: ",
                path.as_str(),
            ),
            AppError::Parse(detail) => joined("layout parse failed: ", detail.as_str()),
            AppError::Render(detail) => joined("render setup failed: ", detail.as_str()),
        }
    }
}

} // verus!
