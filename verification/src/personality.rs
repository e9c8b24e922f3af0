//! Personalities of the assistant: the built-in ones, and profiles that are
//! read from JSON and turned into a system prompt.

use vstd::prelude::*;
use vstd::string::*;
use crate::json::{lookup, parsed_json, Json, JsonError, Member};
use crate::text::{join, join_strings, lowercase, strings_view, to_lowercase};

verus! {

/// A built-in personality.
#[derive(Clone, Copy, Debug, PartialEq, Eq, Structural)]
pub enum Personality {
    HelpfulAssistant,
    FriendlyAssistant,
    ExpertAssistant,
}

/// The personality that a word names, whatever its case: `helpful`,
/// `friendly` or `expert`.
pub open spec fn named_personality(input: Seq<char>) -> Option<Personality> {
    if lowercase(input) == "helpful"@ {
        Some(Personality::HelpfulAssistant)
    } else if lowercase(input) == "friendly"@ {
        Some(Personality::FriendlyAssistant)
    } else if lowercase(input) == "expert"@ {
        Some(Personality::ExpertAssistant)
    } else {
        None
    }
}

impl Personality {
    /// The name of the personality, for display.
    pub open spec fn name_text(self) -> Seq<char> {
        match self {
            Personality::HelpfulAssistant => "Helpful Assistant"@,
            Personality::FriendlyAssistant => "Friendly Assistant"@,
            Personality::ExpertAssistant => "Expert Assistant"@,
        }
    }

    /// The system message that sets the assistant to the personality.
    pub open spec fn system_text(self) -> Seq<char> {
        match self {
            Personality::HelpfulAssistant => "You are a helpful assistant. Provide clear and concise answers."@,
            Personality::FriendlyAssistant => "You are a friendly assistant. Be warm and engaging in your responses."@,
            Personality::ExpertAssistant => "You are an expert assistant. Provide detailed and accurate information."@,
        }
    }

    /// The personality that `input` names, if it names one.
    pub fn from_input(input: &str) -> (personality: Option<Self>)
        ensures
            personality == named_personality(input@),
    {
        let lower = to_lowercase(input);
        if lower == String::from_str("helpful") {
            Some(Personality::HelpfulAssistant)
        } else if lower == String::from_str("friendly") {
            Some(Personality::FriendlyAssistant)
        } else if lower == String::from_str("expert") {
            Some(Personality::ExpertAssistant)
        } else {
            None
        }
    }

    /// The system message that sets the assistant to the personality.
    pub fn system_message(&self) -> (message: String)
        ensures
            message@ == self.system_text(),
    {
        match self {
            Personality::HelpfulAssistant => String::from_str(
                "You are a helpful assistant. Provide clear and concise answers.",
            ),
            Personality::FriendlyAssistant => String::from_str(
                "You are a friendly assistant. Be warm and engaging in your responses.",
            ),
            Personality::ExpertAssistant => String::from_str(
                "You are an expert assistant. Provide detailed and accurate information.",
            ),
        }
    }

    /// The name of the personality, for display.
    pub fn name(&self) -> (name: String)
        ensures
            name@ == self.name_text(),
    {
        match self {
            Personality::HelpfulAssistant => String::from_str("Helpful Assistant"),
            Personality::FriendlyAssistant => String::from_str("Friendly Assistant"),
            Personality::ExpertAssistant => String::from_str("Expert Assistant"),
        }
    }
}

/// A personality read from a JSON object: its name, and whatever else the
/// object says of it.
#[derive(Debug)]
pub struct PersonalityProfile {
    pub name: String,
    /// The members of the object besides the name, as an object.
    pub attributes: Json,
}

/// The members of `members` whose key is not `name`, in order.
pub open spec fn other_members(members: Seq<Member>) -> Seq<Member>
    decreases members.len(),
{
    if members.len() == 0 {
        Seq::empty()
    } else if members.last().key@ == "name"@ {
        other_members(members.drop_last())
    } else {
        other_members(members.drop_last()).push(members.last())
    }
}

/// The name that a profile document gives: the text of its member `name`,
/// where the document is an object and that member is a string.
pub open spec fn document_name(document: Json) -> Option<Seq<char>> {
    match document {
        Json::Object(members) => match lookup(members@, "name"@) {
            Some(Json::Text(text)) => Some(text@),
            _ => None,
        },
        _ => None,
    }
}

/// Whether `attributes` is the object of the members that the object
/// `document` has besides the name.
pub open spec fn holds_rest(document: Json, attributes: Json) -> bool {
    match (document, attributes) {
        (Json::Object(members), Json::Object(rest)) => rest@ == other_members(members@),
        _ => false,
    }
}

/// The texts of the strings among `items`, in order.
pub open spec fn string_items(items: Seq<Json>) -> Seq<Seq<char>>
    decreases items.len(),
{
    if items.len() == 0 {
        Seq::empty()
    } else {
        match items.last() {
            Json::Text(text) => string_items(items.drop_last()).push(text@),
            _ => string_items(items.drop_last()),
        }
    }
}

/// The text of the attribute `key`, where it is a string.
pub open spec fn attribute_text(attributes: Json, key: Seq<char>) -> Option<Seq<char>> {
    match attributes.member(key) {
        Some(Json::Text(text)) => Some(text@),
        _ => None,
    }
}

/// The items of the attribute `key`, where it is an array.
pub open spec fn attribute_items(attributes: Json, key: Seq<char>) -> Option<Seq<Json>> {
    match attributes.member(key) {
        Some(Json::Array(items)) => Some(items@),
        _ => None,
    }
}

/// A line of the prompt that lists the strings of an array attribute behind
/// `intro`; nothing where the attribute is no array or has no strings.
pub open spec fn listed(intro: Seq<char>, items: Option<Seq<Json>>) -> Seq<char> {
    match items {
        Some(list) => if string_items(list).len() > 0 {
            intro + join(string_items(list), ", "@)
        } else {
            Seq::empty()
        },
        None => Seq::empty(),
    }
}

/// Who the personality is: its name, and its emoji where it has one.
pub open spec fn identity_part(name: Seq<char>, attributes: Json) -> Seq<char> {
    "You are "@ + name + match attribute_text(attributes, "emoji"@) {
        Some(emoji) => " "@ + emoji + " "@,
        None => Seq::empty(),
    }
}

/// What the personality is and how it speaks.
pub open spec fn manner_part(attributes: Json) -> Seq<char> {
    ", "@ + (match attribute_text(attributes, "description"@) {
        Some(description) => description,
        None => "an AI assistant"@,
    }) + ". Your communication style is "@ + (match attribute_text(attributes, "style"@) {
        Some(style) => style,
        None => "helpful and professional"@,
    }) + "."@
}

/// The motto of the personality, where it has one.
pub open spec fn motto_part(attributes: Json) -> Seq<char> {
    match attribute_text(attributes, "motto"@) {
        Some(motto) => "\nYour motto is: \""@ + motto + "\""@,
        None => Seq::empty(),
    }
}

/// The system prompt of a personality with the given name and attributes:
/// who it is, what it is and how it speaks, its motto, its traits and its
/// interests, and the call to stay in character.
pub open spec fn system_prompt(name: Seq<char>, attributes: Json) -> Seq<char> {
    identity_part(name, attributes) + manner_part(attributes) + motto_part(attributes) + listed(
        "\nYour key traits are: "@,
        attribute_items(attributes, "traits"@),
    ) + listed("\nYour interests include: "@, attribute_items(attributes, "interests"@))
        + "\nAlways stay in character and respond as this personality would."@
}

/// The strings among `items`.
pub fn collect_strings(items: &Vec<Json>) -> (texts: Vec<String>)
    ensures
        strings_view(texts@) == string_items(items@),
{
    let mut texts: Vec<String> = Vec::new();
    assert(strings_view(texts@) =~= string_items(items@.take(0)));
    for i in 0..items.len()
        invariant
            strings_view(texts@) == string_items(items@.take(i as int)),
    {
        proof {
            assert(items@.take(i + 1).drop_last() == items@.take(i as int));
            assert(items@.take(i + 1).last() == items@[i as int]);
        }
        match &items[i] {
            Json::Text(text) => {
                let ghost before = strings_view(texts@);
                texts.push(text.clone());
                assert(strings_view(texts@) =~= before.push(text@));
            },
            _ => {},
        }
    }
    assert(items@.take(items.len() as int) == items@);
    texts
}

impl PersonalityProfile {
    /// Reads a profile from the text of a JSON object that has a string
    /// member `name`: an error where the text is no JSON, or no such object.
    pub fn from_json(json_str: &str) -> (result: Result<Self, JsonError>)
        ensures
            match result {
                Ok(profile) => parsed_json(json_str@) is Some && document_name(
                    parsed_json(json_str@)->0,
                ) == Some(profile.name@) && holds_rest(
                    parsed_json(json_str@)->0,
                    profile.attributes,
                ),
                Err(JsonError::Malformed(_)) => parsed_json(json_str@) is None,
                Err(JsonError::WrongShape) => parsed_json(json_str@) is Some && document_name(
                    parsed_json(json_str@)->0,
                ) is None,
                Err(JsonError::Unwritable) => false,
            },
    {
        match Json::parse(json_str) {
            Ok(Json::Object(members)) => {
                let mut members = members;
                let ghost all = members@;
                let mut name: Option<String> = None;
                let mut rest: Vec<Member> = Vec::new();
                let mut i: usize = 0;
                let n = members.len();
                assert(rest@ =~= other_members(all.take(0)));
                while members.len() > 0
                    invariant
                        i + members.len() == n,
                        n == all.len(),
                        members@ == all.skip(i as int),
                        rest@ == other_members(all.take(i as int)),
                        match lookup(all.take(i as int), "name"@) {
                            Some(Json::Text(text)) => name == Some(text),
                            _ => name is None,
                        },
                    decreases members.len(),
                {
                    let member = members.remove(0);
                    proof {
                        assert(all.take(i + 1).drop_last() == all.take(i as int));
                        assert(all.take(i + 1).last() == member);
                        assert(all.skip(i as int).remove(0) == all.skip(i + 1));
                    }
                    if member.key == String::from_str("name") {
                        name = match member.value {
                            Json::Text(text) => Some(text),
                            _ => None,
                        };
                    } else {
                        rest.push(member);
                    }
                    i += 1;
                }
                assert(all.take(i as int) == all);
                match name {
                    Some(name) => Ok(PersonalityProfile { name, attributes: Json::Object(rest) }),
                    None => Err(JsonError::WrongShape),
                }
            },
            Ok(_) => Err(JsonError::WrongShape),
            Err(e) => Err(e),
        }
    }

    /// The text of the attribute `key`, where it is a string.
    pub fn get_str(&self, key: &str) -> (found: Option<&str>)
        ensures
            match found {
                Some(text) => attribute_text(self.attributes, key@) == Some(text@),
                None => attribute_text(self.attributes, key@) is None,
            },
    {
        match self.attributes.get(key) {
            Some(Json::Text(text)) => Some(text.as_str()),
            _ => None,
        }
    }

    /// The items of the attribute `key`, where it is an array.
    pub fn get_array(&self, key: &str) -> (found: Option<&Vec<Json>>)
        ensures
            match found {
                Some(items) => attribute_items(self.attributes, key@) == Some(items@),
                None => attribute_items(self.attributes, key@) is None,
            },
    {
        match self.attributes.get(key) {
            Some(Json::Array(items)) => Some(items),
            _ => None,
        }
    }

    /// The members of the attribute `key`, where it is an object.
    pub fn get_object(&self, key: &str) -> (found: Option<&Vec<Member>>)
        ensures
            match found {
                Some(members) => self.attributes.member(key@) == Some(Json::Object(*members)),
                None => !(self.attributes.member(key@) matches Some(Json::Object(_))),
            },
    {
        match self.attributes.get(key) {
            Some(Json::Object(members)) => Some(members),
            _ => None,
        }
    }

    /// The line of the prompt that lists the strings of the array attribute
    /// `key` behind `intro`.
    fn list_line(&self, intro: &str, key: &str) -> (line: String)
        ensures
            line@ == listed(intro@, attribute_items(self.attributes, key@)),
    {
        match self.get_array(key) {
            Some(items) => {
                let texts = collect_strings(items);
                if texts.len() > 0 {
                    let mut line = String::from_str(intro);
                    line.append(join_strings(&texts, ", ").as_str());
                    line
                } else {
                    String::new()
                }
            },
            None => String::new(),
        }
    }

    /// Who the personality is.
    fn identity(&self) -> (part: String)
        ensures
            part@ == identity_part(self.name@, self.attributes),
    {
        let mut part = String::from_str("You are ");
        part.append(self.name.as_str());
        match self.get_str("emoji") {
            Some(emoji) => {
                part.append(" ");
                part.append(emoji);
                part.append(" ");
            },
            None => {},
        }
        part
    }

    /// What the personality is and how it speaks.
    fn manner(&self) -> (part: String)
        ensures
            part@ == manner_part(self.attributes),
    {
        let mut part = String::from_str(", ");
        part.append(
            match self.get_str("description") {
                Some(description) => description,
                None => "an AI assistant",
            },
        );
        part.append(". Your communication style is ");
        part.append(
            match self.get_str("style") {
                Some(style) => style,
                None => "helpful and professional",
            },
        );
        part.append(".");
        part
    }

    /// The motto of the personality, where it has one.
    fn motto(&self) -> (part: String)
        ensures
            part@ == motto_part(self.attributes),
    {
        match self.get_str("motto") {
            Some(motto) => {
                let mut part = String::from_str("\nYour motto is: \"");
                part.append(motto);
                part.append("\"");
                part
            },
            None => String::new(),
        }
    }

    /// The system prompt that sets the assistant to this personality: who it
    /// is, how it speaks, and, where the profile says so, its motto, traits
    /// and interests.
    pub fn generate_system_prompt(&self) -> (prompt: String)
        ensures
            prompt@ == system_prompt(self.name@, self.attributes),
    {
        let mut prompt = self.identity();
        prompt.append(self.manner().as_str());
        prompt.append(self.motto().as_str());
        prompt.append(self.list_line("\nYour key traits are: ", "traits").as_str());
        prompt.append(self.list_line("\nYour interests include: ", "interests").as_str());
        prompt.append("\nAlways stay in character and respond as this personality would.");
        prompt
    }
}

} // verus!
