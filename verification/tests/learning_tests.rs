use agent_memory::json::JsonError;
use agent_memory::knowledge_base::knowledge_base::KnowledgeBaseHandler;
use agent_memory::learning::{
    insight_key, topic_key, Insight, LearningContext, LearningManager, LoggedInsight,
};

const USER: &str = "Explain caching strategies please";
const RESPONSE: &str =
    "Caching stores results for reuse. Short one. It works well for repeated expensive queries!";

fn manager() -> LearningManager {
    LearningManager::new(KnowledgeBaseHandler::new(Vec::new(), "knowledge.json"))
}

#[test]
fn a_new_context_holds_nothing() {
    let context = LearningContext::new();
    assert!(context.insights.is_empty());
    assert!(context.related_topics.is_empty());
    assert!(context.metadata.is_empty());
}

#[test]
fn an_interaction_teaches_insights() {
    let context = LearningContext::extract_from_interaction_at(USER, RESPONSE, 1700000000);
    assert_eq!(
        context.related_topics,
        vec![
            "Explain caching".to_string(),
            "caching strategies".to_string(),
            "strategies please".to_string()
        ]
    );
    assert_eq!(context.insights.len(), 5);
    for (i, topic) in context.related_topics.iter().enumerate() {
        let insight = &context.insights[i];
        assert_eq!(&insight.topic, topic);
        assert_eq!(insight.context, USER);
        assert_eq!(insight.confidence, 70);
        assert_eq!(insight.source, "user_input");
        assert_eq!(insight.timestamp, 1700000000);
    }
    assert_eq!(context.insights[3].topic, "Caching");
    assert_eq!(context.insights[3].context, "Caching stores results for reuse");
    assert_eq!(context.insights[3].confidence, 80);
    assert_eq!(context.insights[3].source, "ai_response");
    assert_eq!(context.insights[3].timestamp, 1700000000);
    assert_eq!(context.insights[4].topic, "It");
    assert_eq!(context.insights[4].context, "It works well for repeated expensive queries");
    assert!(context.metadata.is_empty());
}

#[test]
fn a_sentence_must_be_longer_than_twenty_characters() {
    let twenty = "12345678901234567890";
    let context = LearningContext::extract_from_interaction_at("hi", &format!("{}.", twenty), 0);
    assert!(context.insights.is_empty());
    let context = LearningContext::extract_from_interaction_at("hi", &format!("  {}1  ?", twenty), 0);
    assert_eq!(context.insights.len(), 1);
    assert_eq!(context.insights[0].topic, "123456789012345678901");
    assert_eq!(context.insights[0].context, "123456789012345678901");
    let context = LearningContext::extract_from_interaction_at("hi", "no terminator but long enough", 0);
    assert_eq!(context.insights.len(), 1);
    assert_eq!(context.insights[0].topic, "no");
}

#[test]
fn an_interaction_now_is_stamped_with_the_current_time() {
    let context = LearningContext::extract_from_interaction(USER, RESPONSE);
    assert_eq!(context.insights.len(), 5);
    assert!(context.insights[0].timestamp > 1_600_000_000);
    assert_eq!(context.insights[0].timestamp, context.insights[4].timestamp);
}

#[test]
fn keys_of_the_log() {
    let insight = Insight {
        topic: "caching strategies".to_string(),
        context: "text".to_string(),
        confidence: 70,
        source: "user_input".to_string(),
        timestamp: 1700000000,
    };
    assert_eq!(insight_key(&insight), "insight:caching strategies:1700000000");
    assert_eq!(topic_key("caching strategies"), "topic:caching strategies");
}

#[test]
fn learning_says_what_to_write_down() {
    let mut manager = manager();
    let record = manager.learn_from_interaction_at(USER, RESPONSE, 1700000000, "{}").unwrap();
    assert_eq!(record.context.insights.len(), 5);
    let keys: Vec<&str> = record.log.iter().map(|entry| entry.key.as_str()).collect();
    assert_eq!(
        keys,
        vec![
            "insight:Explain caching:1700000000",
            "insight:caching strategies:1700000000",
            "insight:strategies please:1700000000",
            "insight:Caching:1700000000",
            "insight:It:1700000000",
        ]
    );
    assert_eq!(record.log[3].insight.context, "Caching stores results for reuse");
    let document = record.document.unwrap();
    let kb = manager.knowledge_base();
    for topic in ["Explain caching", "caching strategies", "strategies please"] {
        assert_eq!(kb.get_entry(&document, topic).unwrap(), Some(RESPONSE.to_string()));
    }
    assert_eq!(kb.get_entry(&document, "Caching").unwrap(), None);
}

#[test]
fn learning_again_appends_to_the_entry() {
    let mut manager = manager();
    let first = manager
        .learn_from_interaction_at(USER, "First answer.", 1, "{\"kept\": 1}")
        .unwrap()
        .document
        .unwrap();
    let second = manager
        .learn_from_interaction_at("caching strategies matter", "Second answer.", 2, &first)
        .unwrap()
        .document
        .unwrap();
    let kb = manager.knowledge_base();
    assert_eq!(
        kb.get_entry(&second, "caching strategies").unwrap(),
        Some("First answer.\nSecond answer.".to_string())
    );
    assert_eq!(kb.get_entry(&second, "Explain caching").unwrap(), Some("First answer.".to_string()));
    assert_eq!(
        kb.get_entry(&second, "strategies matter").unwrap(),
        Some("Second answer.".to_string())
    );
    assert!(second.contains("\"kept\": 1"));
}

#[test]
fn what_was_learned_is_recalled() {
    let mut manager = manager();
    let record = manager.learn_from_interaction_at(USER, RESPONSE, 1700000000, "{}").unwrap();
    let document = record.document.unwrap();
    let context = manager.get_relevant_context("caching strategies", &Vec::new(), &document).unwrap();
    assert_eq!(
        context,
        vec![
            USER.to_string(),
            USER.to_string(),
            USER.to_string(),
            "Caching stores results for reuse".to_string(),
            "It works well for repeated expensive queries".to_string(),
            RESPONSE.to_string(),
        ]
    );
    assert!(!context.is_empty());
    assert!(context.contains(&RESPONSE.to_string()));
}

#[test]
fn the_log_comes_between_cache_and_knowledge() {
    let mut manager = manager();
    let document = manager
        .learn_from_interaction_at("caching strategies", "Answer.", 5, "{}")
        .unwrap()
        .document
        .unwrap();
    let logged = vec![
        LoggedInsight {
            key: "topic:other topic".to_string(),
            insight: Insight {
                topic: "other topic".to_string(),
                context: "not asked for".to_string(),
                confidence: 80,
                source: "ai_response".to_string(),
                timestamp: 1,
            },
        },
        LoggedInsight {
            key: "topic:caching strategies".to_string(),
            insight: Insight {
                topic: "caching strategies".to_string(),
                context: "from the log".to_string(),
                confidence: 80,
                source: "ai_response".to_string(),
                timestamp: 2,
            },
        },
        LoggedInsight {
            key: "topic:caching strategies".to_string(),
            insight: Insight {
                topic: "caching strategies".to_string(),
                context: "a later row".to_string(),
                confidence: 80,
                source: "ai_response".to_string(),
                timestamp: 3,
            },
        },
    ];
    let context = manager.get_relevant_context("caching strategies", &logged, &document).unwrap();
    assert_eq!(
        context,
        vec!["caching strategies".to_string(), "from the log".to_string(), "Answer.".to_string()]
    );
}

#[test]
fn a_query_of_one_word_has_no_topics_and_brings_nothing() {
    let mut manager = manager();
    let record = manager
        .learn_from_interaction_at("What is caching?", "Caching stores results for reuse.", 7, "{}")
        .unwrap();
    assert!(record.context.related_topics.is_empty());
    assert_eq!(record.context.insights.len(), 1);
    assert_eq!(record.context.insights[0].topic, "Caching");
    assert!(record.document.is_none());
    let context = manager.get_relevant_context("caching", &Vec::new(), "{}").unwrap();
    assert!(context.is_empty());
}

#[test]
fn a_later_interaction_replaces_the_cached_context() {
    let mut manager = manager();
    manager.learn_from_interaction_at("caching strategies", "One.", 1, "{}").unwrap();
    manager.learn_from_interaction_at("caching strategies again", "Two.", 2, "{}").unwrap();
    let context = manager.get_relevant_context("caching strategies", &Vec::new(), "{}").unwrap();
    assert_eq!(
        context,
        vec!["caching strategies again".to_string(), "caching strategies again".to_string()]
    );
}

#[test]
fn learning_needs_a_readable_document_only_where_topics_are_touched() {
    let mut manager = manager();
    assert!(matches!(
        manager.learn_from_interaction_at(USER, RESPONSE, 1, "not json"),
        Err(JsonError::Malformed(_))
    ));
    assert_eq!(
        manager.get_learning_summary(),
        "Learning Summary:\n\nTopics Learned: \n\nTotal Insights: 0\n"
    );
    let record = manager.learn_from_interaction_at("hi", RESPONSE, 1, "not json").unwrap();
    assert!(record.document.is_none());
    assert_eq!(record.log.len(), 2);
    assert!(matches!(
        manager.get_relevant_context("caching strategies", &Vec::new(), "not json"),
        Err(JsonError::Malformed(_))
    ));
    assert!(manager.get_relevant_context("caching", &Vec::new(), "not json").unwrap().is_empty());
}

#[test]
fn a_document_that_is_no_object_learns_nothing() {
    let mut manager = manager();
    let record = manager.learn_from_interaction_at(USER, RESPONSE, 1, "[1]").unwrap();
    assert_eq!(record.document.unwrap(), "[\n  1\n]");
}

#[test]
fn the_summary_lists_topics_and_counts_insights() {
    let mut manager = manager();
    manager.learn_from_interaction_at(USER, RESPONSE, 1700000000, "{}").unwrap();
    assert_eq!(
        manager.get_learning_summary(),
        "Learning Summary:\n\nTopics Learned: Explain caching, caching strategies, strategies please\n\nTotal Insights: 15\n"
    );
    manager.learn_from_interaction_at("caching strategies", "Ok.", 1700000001, "{}").unwrap();
    assert_eq!(
        manager.get_learning_summary(),
        "Learning Summary:\n\nTopics Learned: Explain caching, caching strategies, strategies please\n\nTotal Insights: 11\n"
    );
}

#[test]
fn learning_now_caches_the_context() {
    let mut manager = manager();
    let record = manager.learn_from_interaction(USER, RESPONSE, "{}").unwrap();
    assert!(record.log[0].key.starts_with("insight:Explain caching:1"));
    let document = record.document.unwrap();
    let context = manager.get_relevant_context(USER, &Vec::new(), &document).unwrap();
    assert_eq!(context.len(), 18);
    assert!(context.contains(&RESPONSE.to_string()));
}
