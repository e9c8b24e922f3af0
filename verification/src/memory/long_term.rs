//! The long-term store: a durable map from keys to values, kept as one JSON
//! object whose members are all strings.

use vstd::prelude::*;
use vstd::string::*;
use crate::clock::now_seconds;
use crate::json::{compact_text, parsed_json, Json, JsonError, Member};
use crate::text::{
    exchange_text, push_signed_decimal, push_str, render_exchange, signed_decimal,
    string_from_chars,
};

verus! {

/// One stored pair.
#[derive(Clone, Debug)]
pub struct Entry {
    pub key: String,
    pub value: String,
}

/// The map that a list of pairs stands for: a later pair replaces an earlier
/// one of the same key.
pub open spec fn entries_map(entries: Seq<Entry>) -> Map<Seq<char>, Seq<char>>
    decreases entries.len(),
{
    if entries.len() == 0 {
        Map::empty()
    } else {
        entries_map(entries.drop_last()).insert(entries.last().key@, entries.last().value@)
    }
}

/// The map that the members of a JSON object stand for, where all of them are
/// strings; `None` where one is not.
pub open spec fn string_fields(members: Seq<Member>) -> Option<Map<Seq<char>, Seq<char>>>
    decreases members.len(),
{
    if members.len() == 0 {
        Some(Map::empty())
    } else {
        match (string_fields(members.drop_last()), members.last().value) {
            (Some(m), Json::Text(s)) => Some(m.insert(members.last().key@, s@)),
            _ => None,
        }
    }
}

/// The map that a JSON document stands for: that of its members, where it is
/// an object of strings.
pub open spec fn decoded(document: Json) -> Option<Map<Seq<char>, Seq<char>>> {
    match document {
        Json::Object(members) => string_fields(members@),
        _ => None,
    }
}

/// Whether `members` writes down `entries`: pair by pair, each value a string.
pub open spec fn members_encode(members: Seq<Member>, entries: Seq<Entry>) -> bool {
    &&& members.len() == entries.len()
    &&& forall|i: int|
        0 <= i < members.len() ==> (#[trigger] members[i]).key@ == entries[i].key@
            && members[i].value.text() == Some(entries[i].value@)
}

/// The key under which an exchange recorded at `seconds` is remembered.
pub open spec fn memory_key(seconds: int) -> Seq<char> {
    "memory_"@ + signed_decimal(seconds)
}

/// The long-term store.
#[derive(Clone, Debug)]
pub struct LongTermMemory {
    entries: Vec<Entry>,
}

impl View for LongTermMemory {
    type V = Map<Seq<char>, Seq<char>>;

    closed spec fn view(&self) -> Map<Seq<char>, Seq<char>> {
        entries_map(self.entries@)
    }
}

/// Replacing the value of the last pair that has a key is inserting into the map.
proof fn lemma_replace_last(entries: Seq<Entry>, i: int, e: Entry)
    requires
        0 <= i < entries.len(),
        entries[i].key@ == e.key@,
        forall|j: int| i < j < entries.len() ==> entries[j].key@ != e.key@,
    ensures
        entries_map(entries.update(i, e)) == entries_map(entries).insert(e.key@, e.value@),
    decreases entries.len(),
{
    let updated = entries.update(i, e);
    if i == entries.len() - 1 {
        assert(updated.drop_last() == entries.drop_last());
        assert(entries_map(updated) =~= entries_map(entries).insert(e.key@, e.value@));
    } else {
        lemma_replace_last(entries.drop_last(), i, e);
        assert(updated.drop_last() == entries.drop_last().update(i, e));
        assert(updated.last() == entries.last());
        assert(entries_map(updated) =~= entries_map(entries).insert(e.key@, e.value@));
    }
}

/// A key that no pair has is not in the map.
proof fn lemma_absent_key(entries: Seq<Entry>, key: Seq<char>)
    requires
        forall|j: int| 0 <= j < entries.len() ==> entries[j].key@ != key,
    ensures
        !entries_map(entries).contains_key(key),
    decreases entries.len(),
{
    if entries.len() > 0 {
        lemma_absent_key(entries.drop_last(), key);
    }
}

/// The last pair that has a key gives the map's value for it.
proof fn lemma_last_pair_counts(entries: Seq<Entry>, i: int)
    requires
        0 <= i < entries.len(),
        forall|j: int| i < j < entries.len() ==> entries[j].key@ != entries[i].key@,
    ensures
        entries_map(entries).contains_key(entries[i].key@),
        entries_map(entries)[entries[i].key@] == entries[i].value@,
    decreases entries.len(),
{
    if i < entries.len() - 1 {
        lemma_last_pair_counts(entries.drop_last(), i);
    }
}

/// The members that write down a list of pairs read back as the map of the pairs.
pub proof fn lemma_members_round_trip(members: Seq<Member>, entries: Seq<Entry>)
    requires
        members_encode(members, entries),
    ensures
        string_fields(members) == Some(entries_map(entries)),
    decreases members.len(),
{
    if members.len() > 0 {
        assert(members_encode(members.drop_last(), entries.drop_last())) by {
            assert forall|i: int| 0 <= i < members.len() - 1 implies (#[trigger] members.drop_last()[i]).key@
                == entries.drop_last()[i].key@ && members.drop_last()[i].value.text() == Some(
                entries.drop_last()[i].value@,
            ) by {
                assert(members[i].key@ == entries[i].key@);
            }
        }
        lemma_members_round_trip(members.drop_last(), entries.drop_last());
        assert(members[members.len() - 1].key@ == entries[members.len() - 1].key@);
    }
}

impl LongTermMemory {
    /// Whether `document` is this store written as a JSON object: one string
    /// member for each stored pair, in the store's order.
    pub closed spec fn written_as(&self, document: Json) -> bool {
        match document {
            Json::Object(members) => members_encode(members@, self.entries@),
            _ => false,
        }
    }

    /// An empty store.
    pub fn new() -> (memory: Self)
        ensures
            memory@ == Map::<Seq<char>, Seq<char>>::empty(),
    {
        LongTermMemory { entries: Vec::new() }
    }

    /// Stores `value` under `key`, in place of what was stored there before.
    pub fn store(&mut self, key: String, value: String)
        ensures
            final(self)@ == old(self)@.insert(key@, value@),
    {
        let mut i: usize = self.entries.len();
        while i > 0
            invariant
                i <= self.entries.len(),
                self.entries@ == old(self).entries@,
                forall|j: int| i <= j < self.entries.len() ==> self.entries@[j].key@ != key@,
            decreases i,
        {
            if self.entries[i - 1].key == key {
                let entry = Entry { key, value };
                proof {
                    lemma_replace_last(self.entries@, i - 1, entry);
                }
                self.entries.set(i - 1, entry);
                return ;
            }
            i -= 1;
        }
        let entry = Entry { key, value };
        self.entries.push(entry);
        assert(self.entries@.drop_last() == old(self).entries@);
    }

    /// Remembers an exchange under a key made of the current time.
    pub fn add_memory(&mut self, user_input: &str, ai_response: &str)
        ensures
            exists|seconds: i64|
                final(self)@ == old(self)@.insert(
                    memory_key(seconds as int),
                    exchange_text(user_input@, ai_response@),
                ),
    {
        let seconds = now_seconds();
        self.add_memory_at(user_input, ai_response, seconds);
    }

    /// Remembers an exchange that took place `seconds` after the Unix epoch:
    /// under the key `memory_` and that number, as the two lines of the exchange.
    pub fn add_memory_at(&mut self, user_input: &str, ai_response: &str, seconds: i64)
        ensures
            final(self)@ == old(self)@.insert(
                memory_key(seconds as int),
                exchange_text(user_input@, ai_response@),
            ),
    {
        let mut key: Vec<char> = Vec::new();
        push_str(&mut key, "memory_");
        push_signed_decimal(&mut key, seconds);
        let value = render_exchange(user_input, ai_response);
        self.store(string_from_chars(&key), value);
    }

    /// The value stored under `key`, if there is one.
    pub fn retrieve(&self, key: &str) -> (found: Option<&String>)
        ensures
            match found {
                Some(value) => self@.contains_key(key@) && self@[key@] == value@,
                None => !self@.contains_key(key@),
            },
    {
        let wanted = String::from_str(key);
        let mut i: usize = self.entries.len();
        while i > 0
            invariant
                i <= self.entries.len(),
                wanted@ == key@,
                forall|j: int| i <= j < self.entries.len() ==> self.entries@[j].key@ != key@,
            decreases i,
        {
            if self.entries[i - 1].key == wanted {
                proof {
                    lemma_last_pair_counts(self.entries@, i - 1);
                }
                return Some(&self.entries[i - 1].value);
            }
            i -= 1;
        }
        proof {
            lemma_absent_key(self.entries@, key@);
        }
        None
    }

    /// This store as a JSON object of strings.
    pub fn to_document(&self) -> (document: Json)
        ensures
            self.written_as(document),
            decoded(document) == Some(self@),
    {
        let mut members: Vec<Member> = Vec::new();
        for i in 0..self.entries.len()
            invariant
                members_encode(members@, self.entries@.take(i as int)),
        {
            let member = Member {
                key: self.entries[i].key.clone(),
                value: Json::Text(self.entries[i].value.clone()),
            };
            members.push(member);
        }
        assert(self.entries@.take(self.entries.len() as int) == self.entries@);
        proof {
            lemma_members_round_trip(members@, self.entries@);
        }
        Json::Object(members)
    }

    /// The store that a JSON document stands for: `Some` exactly where the
    /// document is an object whose members are all strings.
    pub fn from_document(document: &Json) -> (memory: Option<Self>)
        ensures
            match memory {
                Some(m) => decoded(*document) == Some(m@),
                None => decoded(*document) is None,
            },
    {
        match document {
            Json::Object(members) => {
                let mut entries: Vec<Entry> = Vec::new();
                for i in 0..members.len()
                    invariant
                        decoded(*document) == string_fields(members@),
                        string_fields(members@.take(i as int)) == Some(entries_map(entries@)),
                {
                    proof {
                        assert(members@.take(i + 1).drop_last() == members@.take(i as int));
                        assert(members@.take(i + 1).last() == members@[i as int]);
                    }
                    match &members[i].value {
                        Json::Text(s) => {
                            let ghost before = entries@;
                            entries.push(Entry { key: members[i].key.clone(), value: s.clone() });
                            assert(entries@.drop_last() == before);
                        },
                        _ => {
                            proof {
                                lemma_fields_fail_later(members@, i + 1);
                            }
                            return None;
                        },
                    }
                }
                assert(members@.take(members.len() as int) == members@);
                Some(LongTermMemory { entries })
            },
            _ => None,
        }
    }

    /// Writes the whole store as one JSON text.
    pub fn to_json(&self) -> (result: Result<String, JsonError>)
        ensures
            match result {
                Ok(text) => exists|document: Json|
                    self.written_as(document) && compact_text(document) == Some(text@),
                Err(e) => e is Unwritable && exists|document: Json|
                    self.written_as(document) && compact_text(document) == None::<Seq<char>>,
            },
    {
        let document = self.to_document();
        document.to_compact()
    }

    /// Reads a whole store from one JSON text: an error where the text is no
    /// JSON, or no object of strings.
    pub fn from_json(text: &str) -> (result: Result<Self, JsonError>)
        ensures
            match result {
                Ok(memory) => parsed_json(text@) is Some && decoded(parsed_json(text@)->0) == Some(
                    memory@,
                ),
                Err(JsonError::Malformed(_)) => parsed_json(text@) is None,
                Err(JsonError::WrongShape) => parsed_json(text@) is Some && decoded(
                    parsed_json(text@)->0,
                ) is None,
                Err(JsonError::Unwritable) => false,
            },
    {
        match Json::parse(text) {
            Ok(document) => match Self::from_document(&document) {
                Some(memory) => Ok(memory),
                None => Err(JsonError::WrongShape),
            },
            Err(e) => Err(e),
        }
    }
}

/// Once a prefix of the members fails to be all strings, so does the whole.
proof fn lemma_fields_fail_later(members: Seq<Member>, n: int)
    requires
        0 <= n <= members.len(),
        string_fields(members.take(n)) is None,
    ensures
        string_fields(members) is None,
    decreases members.len() - n,
{
    if n < members.len() {
        assert(members.take(n + 1).drop_last() == members.take(n));
        lemma_fields_fail_later(members, n + 1);
    } else {
        assert(members.take(n) == members);
    }
}

/// What a store writes as a document reads back as the same map.
pub proof fn lemma_document_round_trip(memory: LongTermMemory, document: Json)
    requires
        memory.written_as(document),
    ensures
        decoded(document) == Some(memory@),
{
    match document {
        Json::Object(members) => {
            lemma_members_round_trip(members@, memory.entries@);
        },
        _ => {},
    }
}

/// The round trip through a text: where a store is written as the text
/// `text`, and the JSON reader makes of that text the document that the JSON
/// writer was given, reading the text gives a store equal to the one written.
pub proof fn lemma_text_round_trip(memory: LongTermMemory, document: Json, text: Seq<char>)
    requires
        memory.written_as(document),
        compact_text(document) == Some(text),
        parsed_json(text) == Some(document),
    ensures
        parsed_json(text) is Some,
        decoded(parsed_json(text)->0) == Some(memory@),
{
    lemma_document_round_trip(memory, document);
}

} // verus!
