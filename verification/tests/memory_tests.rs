use agent_memory::json::JsonError;
use agent_memory::memory::{LongTermMemory, ShortTermMemory};

#[test]
fn test_short_term_memory() {
    let mut stm = ShortTermMemory::new();

    stm.add_interaction(
        "What is machine learning?",
        "Machine learning is a branch of AI that enables systems to learn from data.",
    );
    stm.add_interaction(
        "Tell me about neural networks",
        "Neural networks are computing systems inspired by biological neural networks.",
    );

    let context = stm.get_context("");
    assert!(context.contains("machine learning"));
    assert!(context.contains("neural networks"));

    assert_eq!(stm.conversation_count(), 2);
}

#[test]
fn new_store_is_empty() {
    let stm = ShortTermMemory::new();
    assert_eq!(stm.conversation_count(), 0);
    assert_eq!(stm.get_context("anything at all"), "");
}

#[test]
fn add_interaction_stamps_the_current_time() {
    let mut stm = ShortTermMemory::new();
    stm.add_interaction("hello", "world");
    let retained = stm.conversations();
    assert_eq!(retained.len(), 1);
    assert!(retained[0].timestamp > 1_600_000_000);
    assert_eq!(retained[0].user_input, "hello");
    assert_eq!(retained[0].ai_response, "world");
}

#[test]
fn store_of_two_keeps_the_two_most_recent() {
    let mut stm = ShortTermMemory::with_max_size(2);
    stm.add_interaction_at("a", "x", 100);
    stm.add_interaction_at("b", "y", 200);
    stm.add_interaction_at("c", "z", 300);
    let retained = stm.conversations();
    assert_eq!(retained.len(), 2);
    assert_eq!(retained[0].user_input, "c");
    assert_eq!(retained[0].ai_response, "z");
    assert_eq!(retained[1].user_input, "b");
    assert_eq!(retained[1].ai_response, "y");
}

#[test]
fn store_never_exceeds_its_bound() {
    let mut stm = ShortTermMemory::with_max_size(3);
    for i in 0..10 {
        stm.add_interaction_at(&format!("question number {}", i), "an answer", i);
        assert!(stm.conversation_count() <= 3);
    }
    assert_eq!(stm.conversation_count(), 3);
}

#[test]
fn store_of_none_keeps_nothing() {
    let mut stm = ShortTermMemory::with_max_size(0);
    stm.add_interaction_at("a", "x", 1);
    assert_eq!(stm.conversation_count(), 0);
}

#[test]
fn one_too_many_evicts_the_lowest_score() {
    let mut stm = ShortTermMemory::with_max_size(2);
    stm.add_interaction_at("newest", "x", 300);
    stm.add_interaction_at("oldest", "y", 100);
    stm.add_interaction_at("middle", "z", 200);
    let retained = stm.conversations();
    assert_eq!(retained.len(), 2);
    assert_eq!(retained[0].timestamp, 300);
    assert_eq!(retained[1].timestamp, 200);
}

#[test]
fn relevance_breaks_a_tie_of_time() {
    let mut stm = ShortTermMemory::with_max_size(2);
    stm.add_interaction_at("machine learning", "", 10);
    stm.add_interaction_at("machine learning", "", 10);
    stm.add_interaction_at("c", "z", 10);
    let retained = stm.conversations();
    assert_eq!(retained.len(), 2);
    assert_eq!(retained[0].relevance_score, 6);
    assert_eq!(retained[1].relevance_score, 5);
    assert_eq!(retained[0].user_input, "machine learning");
    assert_eq!(retained[1].user_input, "machine learning");
}

#[test]
fn topics_and_relevance_of_an_exchange() {
    let mut stm = ShortTermMemory::new();
    stm.add_interaction_at("machine learning rocks", "indeed machine learning rocks", 1);
    stm.add_interaction_at("machine learning rocks", "indeed machine learning rocks", 2);
    let retained = stm.conversations();
    let expected = vec![
        "indeed machine".to_string(),
        "learning rocks".to_string(),
        "machine learning".to_string(),
        "rocks indeed".to_string(),
    ];
    assert_eq!(retained[0].topics, expected);
    assert_eq!(retained[0].relevance_score, 5);
    assert_eq!(retained[1].topics, expected);
    assert_eq!(retained[1].relevance_score, 9);
}

#[test]
fn relevance_is_capped() {
    let words: Vec<String> = (0..23).map(|i| format!("word{:02}", i)).collect();
    let text = words.join(" ");
    let mut stm = ShortTermMemory::new();
    stm.add_interaction_at(&text, "", 1);
    stm.add_interaction_at(&text, "", 2);
    let retained = stm.conversations();
    assert_eq!(retained[0].topics.len(), 22);
    assert_eq!(retained[0].relevance_score, 5);
    assert_eq!(retained[1].relevance_score, 25);
}

#[test]
fn relevance_counts_only_the_last_five() {
    let mut stm = ShortTermMemory::new();
    stm.add_interaction_at("machine learning", "", 1);
    for i in 0..5 {
        stm.add_interaction_at("x", "y", 2 + i);
    }
    stm.add_interaction_at("machine learning", "", 10);
    let retained = stm.conversations();
    assert_eq!(retained[6].relevance_score, 5);
    stm.add_interaction_at("machine learning", "", 11);
    assert_eq!(stm.conversations()[7].relevance_score, 6);
}

#[test]
fn context_ranks_by_shared_topics_and_age() {
    let mut stm = ShortTermMemory::new();
    stm.add_interaction_at("rust language", "fast", 100);
    stm.add_interaction_at("b", "y", 200);
    stm.add_interaction_at("c", "z", 300);
    assert_eq!(
        stm.get_context("rust language"),
        "User: c\nAssistant: z\n\nUser: rust language\nAssistant: fast\n\nUser: b\nAssistant: y"
    );
    assert_eq!(
        stm.get_context(""),
        "User: c\nAssistant: z\n\nUser: b\nAssistant: y\n\nUser: rust language\nAssistant: fast"
    );
}

#[test]
fn context_holds_at_most_ten() {
    let mut stm = ShortTermMemory::new();
    for i in 0..12 {
        stm.add_interaction_at(&format!("q{}", i), &format!("a{}", i), i);
    }
    let context = stm.get_context("");
    assert_eq!(context.matches("User: ").count(), 10);
    assert!(context.starts_with("User: q11\nAssistant: a11\n\nUser: q10\nAssistant: a10"));
    assert!(context.ends_with("User: q2\nAssistant: a2"));
    assert!(!context.contains("User: q1\n"));
    assert!(!context.contains("User: q0\n"));
}

#[test]
fn context_is_the_same_when_asked_twice() {
    let mut stm = ShortTermMemory::new();
    stm.add_interaction_at("rust language", "fast", 100);
    stm.add_interaction_at("garbage collection pauses", "slow", 200);
    let first = stm.get_context("rust language");
    let second = stm.get_context("rust language");
    assert_eq!(first, second);
    assert_eq!(stm.conversation_count(), 2);
}

#[test]
fn stats_of_an_empty_store() {
    let stm = ShortTermMemory::new();
    assert_eq!(
        stm.get_memory_stats(),
        "Memory Stats:\n- Total Conversations: 0\n- Unique Topics: 0\n- Average Relevance: NaN\n- Oldest Conversation: None\n- Most Recent: None"
    );
}

#[test]
fn stats_of_two_conversations() {
    let mut stm = ShortTermMemory::new();
    stm.add_interaction_at("What is machine learning?", "Machine learning is powerful", 1431648060);
    stm.add_interaction_at("short", "text", 1431648000);
    assert_eq!(
        stm.get_memory_stats(),
        "Memory Stats:\n- Total Conversations: 2\n- Unique Topics: 4\n- Average Relevance: 1.00\n- Oldest Conversation: 2015-05-15 00:00:00\n- Most Recent: 2015-05-15 00:01:00"
    );
}

#[test]
fn stats_round_the_average() {
    let mut stm = ShortTermMemory::new();
    stm.add_interaction_at("machine learning rocks", "indeed machine learning rocks", 1);
    stm.add_interaction_at("a", "b", 2);
    stm.add_interaction_at("machine learning rocks", "indeed machine learning rocks", 3);
    let stats = stm.get_memory_stats();
    assert!(stats.contains("- Total Conversations: 3\n"));
    assert!(stats.contains("- Unique Topics: 4\n"));
    assert!(stats.contains("- Average Relevance: 1.27\n"));
    assert!(stats.contains("- Oldest Conversation: 1970-01-01 00:00:01\n"));
    assert!(stats.ends_with("- Most Recent: 1970-01-01 00:00:03"));
}

#[test]
fn stats_count_topics_after_pruning() {
    let mut stm = ShortTermMemory::with_max_size(1);
    stm.add_interaction_at("machine learning", "", 1);
    stm.add_interaction_at("neural networks", "", 2);
    let stats = stm.get_memory_stats();
    assert!(stats.contains("- Total Conversations: 1\n"));
    assert!(stats.contains("- Unique Topics: 1\n"));
    assert_eq!(stm.conversations()[0].user_input, "neural networks");
}

#[test]
fn stats_show_a_time_beyond_the_calendar_as_none() {
    let mut stm = ShortTermMemory::new();
    stm.add_interaction_at("a", "b", i64::MAX);
    let stats = stm.get_memory_stats();
    assert!(stats.ends_with("- Oldest Conversation: None\n- Most Recent: None"));
}

#[test]
fn long_term_store_and_retrieve() {
    let mut ltm = LongTermMemory::new();
    assert!(ltm.retrieve("name").is_none());
    ltm.store("name".to_string(), "Ada".to_string());
    ltm.store("city".to_string(), "London".to_string());
    assert_eq!(ltm.retrieve("name"), Some(&"Ada".to_string()));
    assert_eq!(ltm.retrieve("city"), Some(&"London".to_string()));
    ltm.store("name".to_string(), "Grace".to_string());
    assert_eq!(ltm.retrieve("name"), Some(&"Grace".to_string()));
    assert_eq!(ltm.retrieve("city"), Some(&"London".to_string()));
    assert!(ltm.retrieve("Name").is_none());
}

#[test]
fn long_term_remembers_an_exchange_under_its_time() {
    let mut ltm = LongTermMemory::new();
    ltm.add_memory_at("hi", "hello", 1700000000);
    assert_eq!(
        ltm.retrieve("memory_1700000000"),
        Some(&"User: hi\nAssistant: hello".to_string())
    );
    ltm.add_memory_at("early", "days", -5);
    assert_eq!(ltm.retrieve("memory_-5"), Some(&"User: early\nAssistant: days".to_string()));
    ltm.add_memory_at("zero", "hour", 0);
    assert_eq!(ltm.retrieve("memory_0"), Some(&"User: zero\nAssistant: hour".to_string()));
}

#[test]
fn long_term_remembers_an_exchange_now() {
    let mut ltm = LongTermMemory::new();
    ltm.add_memory("How do I implement a binary search?", "Here's how to implement binary search...");
    let text = ltm.to_json().unwrap();
    assert!(text.starts_with("{\"memory_1"));
    assert!(text.contains("User: How do I implement a binary search?\\nAssistant: Here's how"));
}

#[test]
fn long_term_writes_json() {
    let mut ltm = LongTermMemory::new();
    assert_eq!(ltm.to_json().unwrap(), "{}");
    ltm.store("b".to_string(), "2".to_string());
    ltm.store("a".to_string(), "say \"hi\"\n".to_string());
    ltm.store("b".to_string(), "3".to_string());
    assert_eq!(ltm.to_json().unwrap(), "{\"a\":\"say \\\"hi\\\"\\n\",\"b\":\"3\"}");
}

#[test]
fn long_term_round_trip() {
    let mut ltm = LongTermMemory::new();
    ltm.store("conversation_summary".to_string(), "We spoke of Rust.".to_string());
    ltm.store("quote".to_string(), "she said \"no\" \\ twice\n\tünïcode ✓".to_string());
    ltm.store("".to_string(), "".to_string());
    ltm.add_memory_at("hi", "hello", 42);
    let saved = ltm.to_json().unwrap();
    let loaded = LongTermMemory::from_json(&saved).unwrap();
    for key in ["conversation_summary", "quote", "", "memory_42"] {
        assert_eq!(loaded.retrieve(key), ltm.retrieve(key));
        assert!(loaded.retrieve(key).is_some());
    }
    assert!(loaded.retrieve("absent").is_none());
    assert_eq!(loaded.to_json().unwrap(), saved);
}

#[test]
fn long_term_reads_json() {
    let loaded = LongTermMemory::from_json("{\"k\": \"v\", \"k2\": \"v2\", \"k\": \"w\"}").unwrap();
    assert_eq!(loaded.retrieve("k"), Some(&"w".to_string()));
    assert_eq!(loaded.retrieve("k2"), Some(&"v2".to_string()));
}

#[test]
fn long_term_rejects_what_is_no_map_of_strings() {
    assert!(matches!(LongTermMemory::from_json("not json"), Err(JsonError::Malformed(_))));
    assert!(matches!(LongTermMemory::from_json(""), Err(JsonError::Malformed(_))));
    assert!(matches!(LongTermMemory::from_json("[1, 2]"), Err(JsonError::WrongShape)));
    assert!(matches!(LongTermMemory::from_json("{\"a\": 1}"), Err(JsonError::WrongShape)));
    assert!(matches!(LongTermMemory::from_json("\"text\""), Err(JsonError::WrongShape)));
}

#[test]
fn long_term_document_round_trip() {
    let mut ltm = LongTermMemory::new();
    ltm.store("a".to_string(), "1".to_string());
    ltm.store("b".to_string(), "2".to_string());
    let document = ltm.to_document();
    let back = LongTermMemory::from_document(&document).unwrap();
    assert_eq!(back.retrieve("a"), Some(&"1".to_string()));
    assert_eq!(back.retrieve("b"), Some(&"2".to_string()));
}
