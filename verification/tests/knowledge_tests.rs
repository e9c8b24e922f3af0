use agent_memory::json::{Json, JsonError, Member};
use agent_memory::knowledge_base::knowledge_base::{
    entry_of, with_entry, KnowledgeBaseHandler, KnowledgeEntry,
};

fn entry(keywords: &[&str], content: &str) -> KnowledgeEntry {
    KnowledgeEntry {
        keywords: keywords.iter().map(|s| s.to_string()).collect(),
        content: content.to_string(),
    }
}

fn handler() -> KnowledgeBaseHandler {
    KnowledgeBaseHandler::new(
        vec![
            entry(&["rust", "lang"], "Rust is a systems language."),
            entry(&["Python"], "Python is a scripting language."),
            entry(&["lang", "compiler"], "Compilers translate languages."),
        ],
        "data/knowledge_base.json",
    )
}

#[test]
fn a_keyword_of_the_query_calls_up_its_entry() {
    let kb = KnowledgeBaseHandler::new(
        vec![entry(&["rust", "lang"], "Rust is a systems language.")],
        "knowledge.json",
    );
    assert_eq!(kb.retrieve_information("tell me about rust"), "Rust is a systems language.");
}

#[test]
fn matching_ignores_case() {
    assert_eq!(handler().retrieve_information("RUST rocks"), "Rust is a systems language.");
    assert_eq!(handler().retrieve_information("i like python"), "Python is a scripting language.");
}

#[test]
fn matching_entries_come_one_per_line() {
    assert_eq!(
        handler().retrieve_information("which lang has a compiler"),
        "Rust is a systems language.\nCompilers translate languages."
    );
}

#[test]
fn a_query_matches_whole_words_only() {
    assert_eq!(handler().retrieve_information("rusty language"), "");
    assert_eq!(handler().retrieve_information("rust?"), "");
    assert_eq!(handler().retrieve_information(""), "");
}

#[test]
fn the_handler_keeps_its_path() {
    assert_eq!(handler().file_path(), "data/knowledge_base.json");
}

#[test]
fn an_entry_is_read_from_the_document() {
    let kb = handler();
    let document = "{\"greeting\": \"hello\", \"count\": 3, \"nested\": {\"greeting\": \"no\"}}";
    assert_eq!(kb.get_entry(document, "greeting").unwrap(), Some("hello".to_string()));
    assert_eq!(kb.get_entry(document, "count").unwrap(), None);
    assert_eq!(kb.get_entry(document, "nested").unwrap(), None);
    assert_eq!(kb.get_entry(document, "missing").unwrap(), None);
    assert_eq!(kb.get_entry("[\"greeting\"]", "greeting").unwrap(), None);
    assert_eq!(kb.get_entry("\"greeting\"", "greeting").unwrap(), None);
}

#[test]
fn a_document_that_is_no_json_is_an_error() {
    let kb = handler();
    match kb.get_entry("{oops", "greeting") {
        Err(JsonError::Malformed(message)) => assert!(!message.is_empty()),
        other => panic!("unexpected: {:?}", other),
    }
    assert!(matches!(kb.add_entry("", "a", "b"), Err(JsonError::Malformed(_))));
    assert!(matches!(kb.update_entry("{\"a\": }", "a", "b"), Err(JsonError::Malformed(_))));
}

#[test]
fn an_entry_is_added_to_the_document() {
    let kb = handler();
    assert_eq!(kb.add_entry("{}", "a", "x").unwrap(), "{\n  \"a\": \"x\"\n}");
    assert_eq!(
        kb.add_entry("{\"b\": \"y\"}", "a", "x").unwrap(),
        "{\n  \"a\": \"x\",\n  \"b\": \"y\"\n}"
    );
}

#[test]
fn an_entry_replaces_what_was_stored() {
    let kb = handler();
    assert_eq!(kb.add_entry("{\"a\": \"old\"}", "a", "new").unwrap(), "{\n  \"a\": \"new\"\n}");
    assert_eq!(kb.add_entry("{\"a\": 17}", "a", "new").unwrap(), "{\n  \"a\": \"new\"\n}");
    assert_eq!(kb.update_entry("{\"a\": \"old\"}", "a", "new").unwrap(), "{\n  \"a\": \"new\"\n}");
    assert_eq!(
        kb.update_entry("{\"a\": \"old\"}", "b", "new").unwrap(),
        kb.add_entry("{\"a\": \"old\"}", "b", "new").unwrap()
    );
}

#[test]
fn other_members_are_kept_as_they_are() {
    let kb = handler();
    let document = "{\"n\": 1.5, \"big\": 12345678901234567890, \"neg\": -3, \"t\": true, \
                    \"z\": null, \"arr\": [1, \"two\", []], \"o\": {\"k\": \"v\"}, \"e\": 1e300}";
    assert_eq!(
        kb.add_entry(document, "s", "text").unwrap(),
        "{\n  \"arr\": [\n    1,\n    \"two\",\n    []\n  ],\n  \"big\": 12345678901234567890,\n  \
         \"e\": 1e+300,\n  \"n\": 1.5,\n  \"neg\": -3,\n  \"o\": {\n    \"k\": \"v\"\n  },\n  \
         \"s\": \"text\",\n  \"t\": true,\n  \"z\": null\n}"
    );
}

#[test]
fn a_document_that_is_no_object_is_written_back() {
    let kb = handler();
    assert_eq!(kb.add_entry("[1, 2]", "a", "x").unwrap(), "[\n  1,\n  2\n]");
    assert_eq!(kb.add_entry("\"text\"", "a", "x").unwrap(), "\"text\"");
    assert_eq!(kb.add_entry("null", "a", "x").unwrap(), "null");
}

#[test]
fn what_was_added_is_read_back() {
    let kb = handler();
    let first = kb.add_entry("{}", "rust language", "Rust is fast.").unwrap();
    let second = kb.add_entry(&first, "other topic", "line one\nline \"two\"").unwrap();
    assert_eq!(kb.get_entry(&second, "rust language").unwrap(), Some("Rust is fast.".to_string()));
    assert_eq!(
        kb.get_entry(&second, "other topic").unwrap(),
        Some("line one\nline \"two\"".to_string())
    );
}

#[test]
fn entries_of_a_document_in_memory() {
    let document = Json::Object(vec![
        Member { key: "a".to_string(), value: Json::Text("first".to_string()) },
        Member { key: "n".to_string(), value: Json::Number("7".to_string()) },
        Member { key: "a".to_string(), value: Json::Text("second".to_string()) },
    ]);
    assert_eq!(entry_of(&document, "a"), Some("second".to_string()));
    assert_eq!(entry_of(&document, "n"), None);
    assert_eq!(entry_of(&document, "b"), None);
    let updated = with_entry(document, "n", "seven");
    assert_eq!(entry_of(&updated, "n"), Some("seven".to_string()));
    assert_eq!(entry_of(&updated, "a"), Some("second".to_string()));
    assert_eq!(updated.to_compact().unwrap(), "{\"a\":\"second\",\"n\":\"seven\"}");
    let untouched = with_entry(Json::Array(vec![Json::Null]), "a", "x");
    assert_eq!(untouched.to_compact().unwrap(), "[null]");
}

#[test]
fn json_is_read_and_written() {
    let json = Json::parse(" {\"b\": [true, false, null, -2, 0.25, \"s\"], \"a\": {}} ").unwrap();
    assert_eq!(json.to_compact().unwrap(), "{\"a\":{},\"b\":[true,false,null,-2,0.25,\"s\"]}");
    assert_eq!(
        json.to_pretty().unwrap(),
        "{\n  \"a\": {},\n  \"b\": [\n    true,\n    false,\n    null,\n    -2,\n    0.25,\n    \"s\"\n  ]\n}"
    );
    match json.get("b") {
        Some(Json::Array(items)) => {
            assert_eq!(items.len(), 6);
            assert!(matches!(&items[0], Json::Bool(true)));
            assert!(matches!(&items[2], Json::Null));
            assert!(matches!(&items[3], Json::Number(n) if n == "-2"));
            assert!(matches!(&items[5], Json::Text(s) if s == "s"));
        },
        other => panic!("unexpected: {:?}", other),
    }
    assert!(json.get("c").is_none());
    assert!(Json::Null.get("a").is_none());
}

#[test]
fn a_number_that_is_no_number_cannot_be_written() {
    let bad = Json::Array(vec![Json::Number("seven".to_string())]);
    assert!(matches!(bad.to_compact(), Err(JsonError::Unwritable)));
    assert!(matches!(bad.to_pretty(), Err(JsonError::Unwritable)));
    let good = Json::Array(vec![Json::Number("7".to_string())]);
    assert_eq!(good.to_compact().unwrap(), "[7]");
}
