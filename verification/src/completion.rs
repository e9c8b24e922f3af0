//! The completion provider, as the memory engine sees it: a prompt goes in, a
//! response or a failure comes out.

use vstd::prelude::*;
use vstd::string::*;

verus! {

/// Why a completion failed.
#[derive(Clone, Debug)]
pub enum CompletionError {
    /// The provider answered with an error; the text is the provider's.
    ApiError(String),
    /// The provider could not be reached, or its answer could not be read.
    Other(String),
}

impl CompletionError {
    /// The error as a line of text.
    pub open spec fn message_text(self) -> Seq<char> {
        match self {
            CompletionError::ApiError(text) => "API Error: "@ + text@,
            CompletionError::Other(text) => "Error: "@ + text@,
        }
    }

    /// The error as a line of text.
    pub fn message(&self) -> (text: String)
        ensures
            text@ == self.message_text(),
    {
        match self {
            CompletionError::ApiError(detail) => {
                let mut text = String::from_str("API Error: ");
                text.append(detail.as_str());
                text
            },
            CompletionError::Other(detail) => {
                let mut text = String::from_str("Error: ");
                text.append(detail.as_str());
                text
            },
        }
    }
}

/// A service that completes a prompt.
pub trait CompletionProvider {
    /// How the service fails.
    type Error;

    /// The response to `prompt`.
    fn complete(&self, prompt: &str) -> Result<String, Self::Error>;
}

} // verus!
