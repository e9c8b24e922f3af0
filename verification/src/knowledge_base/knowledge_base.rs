//! The knowledge base: entries found by keyword, loaded once, and a shared
//! JSON document of string fields that is read and rewritten as a whole.

use vstd::prelude::*;
use vstd::string::*;
use crate::json::{lookup, parsed_json, pretty_text, Json, JsonError, Member};
use crate::text::{
    holds_text, join, join_strings, lowercase, split_words, strings_view, to_lowercase, words,
};

verus! {

/// One entry of the knowledge base: a text, and the keywords that call it up.
#[derive(Clone, Debug)]
pub struct KnowledgeEntry {
    pub keywords: Vec<String>,
    pub content: String,
}

/// What a `KnowledgeEntry` holds, as mathematical values.
pub struct KnowledgeEntryView {
    pub keywords: Seq<Seq<char>>,
    pub content: Seq<char>,
}

impl View for KnowledgeEntry {
    type V = KnowledgeEntryView;

    open spec fn view(&self) -> KnowledgeEntryView {
        KnowledgeEntryView { keywords: strings_view(self.keywords@), content: self.content@ }
    }
}

/// The views of a list of entries.
pub open spec fn entries_view(v: Seq<KnowledgeEntry>) -> Seq<KnowledgeEntryView> {
    Seq::new(v.len(), |i: int| v[i]@)
}

/// The words of a query, each in lower case.
pub open spec fn query_words(query: Seq<char>) -> Seq<Seq<char>> {
    Seq::new(words(query).len(), |i: int| lowercase(words(query)[i]))
}

/// Whether an entry answers a query: whether one of its keywords, in lower
/// case, is one of the query's words.
pub open spec fn entry_matches(entry: KnowledgeEntryView, wanted: Seq<Seq<char>>) -> bool {
    exists|k: int|
        0 <= k < entry.keywords.len() && wanted.contains(lowercase(#[trigger] entry.keywords[k]))
}

/// The contents of the entries that answer a query, in the order of the entries.
pub open spec fn matching_contents(
    entries: Seq<KnowledgeEntryView>,
    wanted: Seq<Seq<char>>,
) -> Seq<Seq<char>>
    decreases entries.len(),
{
    if entries.len() == 0 {
        Seq::empty()
    } else {
        let before = matching_contents(entries.drop_last(), wanted);
        if entry_matches(entries.last(), wanted) {
            before.push(entries.last().content)
        } else {
            before
        }
    }
}

/// What the knowledge base has to say on a query: the contents of the entries
/// that answer it, one per line.
pub open spec fn information_of(entries: Seq<KnowledgeEntryView>, query: Seq<char>) -> Seq<char> {
    join(matching_contents(entries, query_words(query)), "\n"@)
}

/// Whether `entry` answers a query with the words `wanted`.
fn answers(entry: &KnowledgeEntry, wanted: &Vec<String>) -> (found: bool)
    ensures
        found == entry_matches(entry@, strings_view(wanted@)),
{
    let ghost keywords = strings_view(entry.keywords@);
    for k in 0..entry.keywords.len()
        invariant
            keywords == strings_view(entry.keywords@),
            keywords == entry@.keywords,
            forall|j: int|
                0 <= j < k ==> !strings_view(wanted@).contains(lowercase(#[trigger] keywords[j])),
    {
        let lower = to_lowercase(entry.keywords[k].as_str());
        if holds_text(wanted, &lower) {
            assert(strings_view(wanted@).contains(lowercase(keywords[k as int])));
            return true;
        }
    }
    false
}

/// The text of the member `key` of `document`, where `document` is an object
/// that has such a member and the member is a string.
pub open spec fn entry_text(document: Json, key: Seq<char>) -> Option<Seq<char>> {
    match document.member(key) {
        Some(value) => value.text(),
        None => None,
    }
}

/// Whether `updated` is `document` with the string `value` stored under
/// `key`: an object gains or replaces that one member and keeps the others;
/// any other document stays as it is.
pub open spec fn is_updated(document: Json, key: Seq<char>, value: Seq<char>, updated: Json) -> bool {
    if document is Object {
        &&& updated is Object
        &&& entry_text(updated, key) == Some(value)
        &&& forall|other: Seq<char>| other != key ==> updated.member(other) == document.member(other)
    } else {
        updated == document
    }
}

/// The text stored under `key` in `document`, if there is one.
pub fn entry_of(document: &Json, key: &str) -> (found: Option<String>)
    ensures
        match found {
            Some(text) => entry_text(*document, key@) == Some(text@),
            None => entry_text(*document, key@) is None,
        },
{
    match document.get(key) {
        Some(Json::Text(text)) => Some(text.clone()),
        _ => None,
    }
}

/// `document` with `value` stored under `key`.
pub fn with_entry(document: Json, key: &str, value: &str) -> (updated: Json)
    ensures
        is_updated(document, key@, value@, updated),
{
    match document {
        Json::Object(members) => {
            let mut members = members;
            let ghost before = members@;
            let member = Member { key: String::from_str(key), value: Json::Text(String::from_str(value)) };
            members.push(member);
            proof {
                assert(members@.drop_last() == before);
                assert forall|other: Seq<char>| other != key@ implies lookup(members@, other)
                    == lookup(before, other) by {}
            }
            Json::Object(members)
        },
        other => other,
    }
}

/// The knowledge base.
#[derive(Clone, Debug)]
pub struct KnowledgeBaseHandler {
    knowledge_base: Vec<KnowledgeEntry>,
    file_path: String,
}

impl KnowledgeBaseHandler {
    /// The entries of the knowledge base, in order.
    pub closed spec fn entries(&self) -> Seq<KnowledgeEntryView> {
        entries_view(self.knowledge_base@)
    }

    /// The path of the shared document.
    pub closed spec fn path(&self) -> Seq<char> {
        self.file_path@
    }

    /// A knowledge base with the given entries, whose shared document lies at
    /// `file_path`.
    pub fn new(knowledge_base: Vec<KnowledgeEntry>, file_path: &str) -> (handler: Self)
        ensures
            handler.entries() == entries_view(knowledge_base@),
            handler.path() == file_path@,
    {
        KnowledgeBaseHandler { knowledge_base, file_path: String::from_str(file_path) }
    }

    /// The path of the shared document.
    pub fn file_path(&self) -> (path: &str)
        ensures
            path@ == self.path(),
    {
        self.file_path.as_str()
    }

    /// What the knowledge base has to say on `query`: the content of every
    /// entry with a keyword that, in lower case, is one of the query's words
    /// in lower case; one content per line, in the order of the entries.
    pub fn retrieve_information(&self, query: &str) -> (information: String)
        ensures
            information@ == information_of(self.entries(), query@),
    {
        let raw = split_words(query);
        let mut wanted: Vec<String> = Vec::new();
        for i in 0..raw.len()
            invariant
                strings_view(raw@) == words(query@),
                wanted@.len() == i,
                forall|j: int| 0 <= j < i ==> (#[trigger] wanted@[j])@ == lowercase(words(query@)[j]),
        {
            assert(strings_view(raw@)[i as int] == raw@[i as int]@);
            wanted.push(to_lowercase(raw[i].as_str()));
        }
        assert(strings_view(wanted@) =~= query_words(query@));
        let ghost all = self.entries();
        let mut contents: Vec<String> = Vec::new();
        for i in 0..self.knowledge_base.len()
            invariant
                all == entries_view(self.knowledge_base@),
                strings_view(wanted@) == query_words(query@),
                strings_view(contents@) == matching_contents(
                    all.take(i as int),
                    query_words(query@),
                ),
        {
            proof {
                assert(all.take(i + 1).drop_last() == all.take(i as int));
                assert(all.take(i + 1).last() == self.knowledge_base@[i as int]@);
            }
            if answers(&self.knowledge_base[i], &wanted) {
                let ghost before = strings_view(contents@);
                contents.push(self.knowledge_base[i].content.clone());
                assert(strings_view(contents@) =~= before.push(self.knowledge_base@[i as int].content@));
            }
        }
        assert(all.take(self.knowledge_base.len() as int) == all);
        join_strings(&contents, "\n")
    }

    /// The text stored under `key` in the shared document, whose text is
    /// `document`: an error where the text is no JSON; `None` where the
    /// document is no object, has no such member, or the member is no string.
    pub fn get_entry(&self, document: &str, key: &str) -> (result: Result<Option<String>, JsonError>)
        ensures
            match result {
                Ok(Some(text)) => parsed_json(document@) is Some && entry_text(
                    parsed_json(document@)->0,
                    key@,
                ) == Some(text@),
                Ok(None) => parsed_json(document@) is Some && entry_text(
                    parsed_json(document@)->0,
                    key@,
                ) is None,
                Err(e) => parsed_json(document@) is None && e is Malformed,
            },
    {
        match Json::parse(document) {
            Ok(json) => Ok(entry_of(&json, key)),
            Err(e) => Err(e),
        }
    }

    /// The new text of the shared document, whose text is `document`, after
    /// `value` was stored under `key`: an error where the text is no JSON. An
    /// object gains or replaces the member; any other document is written
    /// back as it is.
    pub fn add_entry(&self, document: &str, key: &str, value: &str) -> (result: Result<
        String,
        JsonError,
    >)
        ensures
            match result {
                Ok(text) => parsed_json(document@) is Some && exists|updated: Json|
                    is_updated(parsed_json(document@)->0, key@, value@, updated) && pretty_text(
                        updated,
                    ) == Some(text@),
                Err(JsonError::Malformed(_)) => parsed_json(document@) is None,
                Err(JsonError::Unwritable) => parsed_json(document@) is Some && exists|updated: Json|
                    is_updated(parsed_json(document@)->0, key@, value@, updated) && pretty_text(
                        updated,
                    ) == None::<Seq<char>>,
                Err(JsonError::WrongShape) => false,
            },
    {
        match Json::parse(document) {
            Ok(json) => {
                let ghost before = json;
                let updated = with_entry(json, key, value);
                let result = updated.to_pretty();
                proof {
                    assert(is_updated(before, key@, value@, updated));
                    if result is Err {
                        assert(pretty_text(updated) == None::<Seq<char>>);
                    }
                }
                result
            },
            Err(e) => Err(e),
        }
    }

    /// The same as `add_entry`: the value replaces what was stored, it is not
    /// merged with it.
    pub fn update_entry(&self, document: &str, key: &str, value: &str) -> (result: Result<
        String,
        JsonError,
    >)
        ensures
            match result {
                Ok(text) => parsed_json(document@) is Some && exists|updated: Json|
                    is_updated(parsed_json(document@)->0, key@, value@, updated) && pretty_text(
                        updated,
                    ) == Some(text@),
                Err(JsonError::Malformed(_)) => parsed_json(document@) is None,
                Err(JsonError::Unwritable) => parsed_json(document@) is Some && exists|updated: Json|
                    is_updated(parsed_json(document@)->0, key@, value@, updated) && pretty_text(
                        updated,
                    ) == None::<Seq<char>>,
                Err(JsonError::WrongShape) => false,
            },
    {
        self.add_entry(document, key, value)
    }
}

} // verus!
