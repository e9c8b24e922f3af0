//! Reading the answer of the completion service.

use vstd::prelude::*;
use vstd::string::*;
use crate::json::{parsed_json, Json};

verus! {

/// Why the answer of the completion service was of no use.
#[derive(Clone, Debug)]
pub struct DeepSeekError {
    pub message: String,
}

/// The content of a completion: the string at `choices[0].message.content`
/// of the answer, where there is one.
pub open spec fn content_of(answer: Json) -> Option<Seq<char>> {
    match answer.member("choices"@) {
        Some(choices) => match choices.item(0) {
            Some(choice) => match choice.member("message"@) {
                Some(message) => match message.member("content"@) {
                    Some(content) => content.text(),
                    None => None,
                },
                None => None,
            },
            None => None,
        },
        None => None,
    }
}

/// What is said of an answer that holds no content.
pub open spec fn no_content_text(answer_text: Seq<char>) -> Seq<char> {
    "Failed to extract content from response: "@ + answer_text
}

/// The content of the completion that the answer `answer` holds.
pub fn content_in(answer: &Json) -> (content: Option<String>)
    ensures
        match content {
            Some(text) => content_of(*answer) == Some(text@),
            None => content_of(*answer) is None,
        },
{
    match answer.get("choices") {
        Some(choices) => match choices.at(0) {
            Some(choice) => match choice.get("message") {
                Some(message) => match message.get("content") {
                    Some(Json::Text(text)) => Some(text.clone()),
                    _ => None,
                },
                None => None,
            },
            None => None,
        },
        None => None,
    }
}

/// The content of the completion in the body `answer_text` of the service's
/// answer: an error where the body is no JSON, with the reader's message, or
/// holds no content, with the body itself.
pub fn completion_content(answer_text: &str) -> (result: Result<String, DeepSeekError>)
    ensures
        match result {
            Ok(content) => parsed_json(answer_text@) is Some && content_of(
                parsed_json(answer_text@)->0,
            ) == Some(content@),
            Err(e) => match parsed_json(answer_text@) {
                Some(answer) => content_of(answer) is None && e.message@ == no_content_text(
                    answer_text@,
                ),
                None => true,
            },
        },
{
    match Json::parse(answer_text) {
        Ok(answer) => match content_in(&answer) {
            Some(content) => Ok(content),
            None => {
                let mut message = String::from_str("Failed to extract content from response: ");
                message.append(answer_text);
                Err(DeepSeekError { message })
            },
        },
        Err(e) => Err(DeepSeekError { message: e.message() }),
    }
}

} // verus!
