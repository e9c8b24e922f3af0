//! JSON documents as plain data, read and written by `serde_json`.

use vstd::prelude::*;
use vstd::string::*;

verus! {

/// A JSON value. A number is held as the text that writes it.
#[derive(Debug)]
pub enum Json {
    Null,
    Bool(bool),
    Number(String),
    Text(String),
    Array(Vec<Json>),
    Object(Vec<Member>),
}

/// One member of a JSON object. Where a key stands twice in an object, the
/// later member counts.
#[derive(Debug)]
pub struct Member {
    pub key: String,
    pub value: Json,
}

/// `serde_json::Value`, of which nothing is seen here: it only passes from
/// the reader and to the writer.
#[verifier::external_type_specification]
#[verifier::external_body]
pub struct ExValue(serde_json::Value);

/// `serde_json::Error`, of which only the message is read.
#[verifier::external_type_specification]
#[verifier::external_body]
pub struct ExError(serde_json::Error);

/// What `serde_json::from_str` makes of `text`: the value it reads, or `None`
/// where it reports an error.
pub uninterp spec fn parsed_json(text: Seq<char>) -> Option<Json>;

/// What `serde_json::to_string` writes for `value`, or `None` where the value
/// cannot be written.
pub uninterp spec fn compact_text(value: Json) -> Option<Seq<char>>;

/// What `serde_json::to_string_pretty` writes for `value`, or `None` where the
/// value cannot be written.
pub uninterp spec fn pretty_text(value: Json) -> Option<Seq<char>>;

/// Turns a `serde_json::Value` into a `Json`, variant by variant; a number
/// becomes the text that `Number`'s `Display` writes.
#[verifier::external_body]
fn json_from_value(value: &serde_json::Value) -> Json {
    match value {
        serde_json::Value::Null => Json::Null,
        serde_json::Value::Bool(b) => Json::Bool(*b),
        serde_json::Value::Number(n) => Json::Number(n.to_string()),
        serde_json::Value::String(s) => Json::Text(s.clone()),
        serde_json::Value::Array(items) => Json::Array(items.iter().map(json_from_value).collect()),
        serde_json::Value::Object(map) => Json::Object(
            map.iter().map(|(k, v)| Member { key: k.clone(), value: json_from_value(v) }).collect(),
        ),
    }
}

/// Turns a `Json` into a `serde_json::Value`, variant by variant; a number is
/// read back from its text by `serde_json::from_str`, and the whole is `None`
/// where some number's text is no JSON number. Members go into the object in
/// order, so a later one replaces an earlier one of the same key.
#[verifier::external_body]
fn value_from_json(json: &Json) -> Option<serde_json::Value> {
    Some(match json {
        Json::Null => serde_json::Value::Null,
        Json::Bool(b) => serde_json::Value::Bool(*b),
        Json::Number(n) => serde_json::Value::Number(serde_json::from_str(n).ok()?),
        Json::Text(s) => serde_json::Value::String(s.clone()),
        Json::Array(items) => serde_json::Value::Array(
            items.iter().map(value_from_json).collect::<Option<Vec<_>>>()?,
        ),
        Json::Object(members) => serde_json::Value::Object(
            members.iter().map(|m| Some((m.key.clone(), value_from_json(&m.value)?))).collect::<Option<_>>()?,
        ),
    })
}

/// Calls `serde_json::from_str` for a `Value` and hands the value over as a
/// `Json`. The contract only names the result: it depends on the text alone.
#[verifier::external_body]
fn read_json(text: &str) -> (result: Result<Json, serde_json::Error>)
    ensures
        match result {
            Ok(json) => parsed_json(text@) == Some(json),
            Err(_) => parsed_json(text@) is None,
        },
{
    serde_json::from_str::<serde_json::Value>(text).map(|v| json_from_value(&v))
}

/// Calls `Display` for a `serde_json::Error`: the message of the error.
#[verifier::external_body]
fn error_message(error: &serde_json::Error) -> String {
    error.to_string()
}

/// Calls `serde_json::to_string` on the value that `json` stands for. The
/// contract only names the result: it depends on the value alone.
#[verifier::external_body]
fn write_compact(json: &Json) -> (text: Option<String>)
    ensures
        match text {
            Some(t) => compact_text(*json) == Some(t@),
            None => compact_text(*json) is None,
        },
{
    value_from_json(json).and_then(|v| serde_json::to_string(&v).ok())
}

/// Calls `serde_json::to_string_pretty` on the value that `json` stands for.
/// The contract only names the result: it depends on the value alone.
#[verifier::external_body]
fn write_pretty(json: &Json) -> (text: Option<String>)
    ensures
        match text {
            Some(t) => pretty_text(*json) == Some(t@),
            None => pretty_text(*json) is None,
        },
{
    value_from_json(json).and_then(|v| serde_json::to_string_pretty(&v).ok())
}

/// Why a document could not be read or written.
#[derive(Debug)]
pub enum JsonError {
    /// The text is no JSON document; the message says where and why.
    Malformed(String),
    /// The value holds a number whose text is no JSON number.
    Unwritable,
    /// The document is well-formed JSON, but not of the shape that was asked for.
    WrongShape,
}

impl JsonError {
    /// What the error says.
    pub open spec fn message_text(self) -> Seq<char> {
        match self {
            JsonError::Malformed(message) => message@,
            JsonError::Unwritable => "a number of the document is no JSON number"@,
            JsonError::WrongShape => "the document is not of the expected shape"@,
        }
    }

    /// What the error says.
    pub fn message(&self) -> (text: String)
        ensures
            text@ == self.message_text(),
    {
        match self {
            JsonError::Malformed(message) => message.clone(),
            JsonError::Unwritable => String::from_str("a number of the document is no JSON number"),
            JsonError::WrongShape => String::from_str("the document is not of the expected shape"),
        }
    }
}

/// The member of `members` that counts for `key`: the last one with that key.
pub open spec fn lookup(members: Seq<Member>, key: Seq<char>) -> Option<Json>
    decreases members.len(),
{
    if members.len() == 0 {
        None
    } else if members.last().key@ == key {
        Some(members.last().value)
    } else {
        lookup(members.drop_last(), key)
    }
}

impl Json {
    /// The member that counts for `key`, where this value is an object that has one.
    pub open spec fn member(self, key: Seq<char>) -> Option<Json> {
        match self {
            Json::Object(members) => lookup(members@, key),
            _ => None,
        }
    }

    /// The item at `index`, where this value is an array that has one.
    pub open spec fn item(self, index: int) -> Option<Json> {
        match self {
            Json::Array(items) => if 0 <= index < items@.len() {
                Some(items@[index])
            } else {
                None
            },
            _ => None,
        }
    }

    /// The text of this value, where it is a string.
    pub open spec fn text(self) -> Option<Seq<char>> {
        match self {
            Json::Text(s) => Some(s@),
            _ => None,
        }
    }

    /// Reads a JSON document.
    pub fn parse(text: &str) -> (result: Result<Json, JsonError>)
        ensures
            match result {
                Ok(json) => parsed_json(text@) == Some(json),
                Err(e) => parsed_json(text@) is None && e is Malformed,
            },
    {
        match read_json(text) {
            Ok(json) => Ok(json),
            Err(e) => Err(JsonError::Malformed(error_message(&e))),
        }
    }

    /// Writes this value on one line.
    pub fn to_compact(&self) -> (result: Result<String, JsonError>)
        ensures
            match result {
                Ok(t) => compact_text(*self) == Some(t@),
                Err(e) => compact_text(*self) is None && e is Unwritable,
            },
    {
        match write_compact(self) {
            Some(t) => Ok(t),
            None => Err(JsonError::Unwritable),
        }
    }

    /// Writes this value over several lines, indented.
    pub fn to_pretty(&self) -> (result: Result<String, JsonError>)
        ensures
            match result {
                Ok(t) => pretty_text(*self) == Some(t@),
                Err(e) => pretty_text(*self) is None && e is Unwritable,
            },
    {
        match write_pretty(self) {
            Some(t) => Ok(t),
            None => Err(JsonError::Unwritable),
        }
    }

    /// The item at `index`, where this value is an array that has one.
    pub fn at(&self, index: usize) -> (found: Option<&Json>)
        ensures
            match found {
                Some(value) => self.item(index as int) == Some(*value),
                None => self.item(index as int) is None,
            },
    {
        match self {
            Json::Array(items) => if index < items.len() {
                Some(&items[index])
            } else {
                None
            },
            _ => None,
        }
    }

    /// The text of this value, where it is a string.
    pub fn as_text(&self) -> (found: Option<&str>)
        ensures
            match found {
                Some(text) => self.text() == Some(text@),
                None => self.text() is None,
            },
    {
        match self {
            Json::Text(text) => Some(text.as_str()),
            _ => None,
        }
    }

    /// The member that counts for `key`, where this value is an object that has one.
    pub fn get(&self, key: &str) -> (found: Option<&Json>)
        ensures
            match found {
                Some(value) => self.member(key@) == Some(*value),
                None => self.member(key@) is None,
            },
    {
        match self {
            Json::Object(members) => {
                let wanted = String::from_str(key);
                let mut i: usize = members.len();
                assert(members@.take(i as int) == members@);
                while i > 0
                    invariant
                        i <= members.len(),
                        wanted@ == key@,
                        self.member(key@) == lookup(members@, key@),
                        lookup(members@, key@) == lookup(members@.take(i as int), key@),
                    decreases i,
                {
                    proof {
                        assert(members@.take(i as int).last() == members@[i - 1]);
                        assert(members@.take(i as int).drop_last() == members@.take(i - 1));
                    }
                    if members[i - 1].key == wanted {
                        return Some(&members[i - 1].value);
                    }
                    i -= 1;
                }
                None
            },
            _ => None,
        }
    }
}

} // verus!
