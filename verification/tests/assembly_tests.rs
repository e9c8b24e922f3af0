use agent_memory::assembler::assemble_context;
use agent_memory::completion::{CompletionError, CompletionProvider};
use agent_memory::providers::twitter::TweetComposer;
use agent_memory::knowledge_base::knowledge_base::{KnowledgeBaseHandler, KnowledgeEntry};
use agent_memory::memory::{LongTermMemory, ShortTermMemory};
use agent_memory::personality::Personality;

fn knowledge() -> KnowledgeBaseHandler {
    KnowledgeBaseHandler::new(
        vec![KnowledgeEntry {
            keywords: vec!["rust".to_string()],
            content: "Rust is a systems language.".to_string(),
        }],
        "knowledge.json",
    )
}

#[test]
fn context_is_summary_then_history_then_knowledge() {
    let mut long_term = LongTermMemory::new();
    long_term.store("conversation_summary".to_string(), "We spoke of languages.".to_string());
    long_term.store("other".to_string(), "ignored".to_string());
    let mut short_term = ShortTermMemory::new();
    short_term.add_interaction_at("hello", "hi there", 1);
    assert_eq!(
        assemble_context(&long_term, &short_term, &knowledge(), "tell me about rust"),
        "We spoke of languages.User: hello\nAssistant: hi thereRust is a systems language."
    );
}

#[test]
fn context_without_a_summary() {
    let long_term = LongTermMemory::new();
    let mut short_term = ShortTermMemory::new();
    short_term.add_interaction_at("hello", "hi there", 1);
    assert_eq!(
        assemble_context(&long_term, &short_term, &knowledge(), "tell me about go"),
        "User: hello\nAssistant: hi there"
    );
    assert_eq!(
        assemble_context(&long_term, &ShortTermMemory::new(), &knowledge(), "nothing known"),
        ""
    );
}

#[test]
fn a_completion_error_as_text() {
    assert_eq!(CompletionError::ApiError("rate limited".to_string()).message(), "API Error: rate limited");
    assert_eq!(CompletionError::Other("connection reset".to_string()).message(), "Error: connection reset");
}

struct Echo;

impl CompletionProvider for Echo {
    type Error = CompletionError;

    fn complete(&self, prompt: &str) -> Result<String, CompletionError> {
        if prompt.is_empty() {
            Err(CompletionError::ApiError("empty prompt".to_string()))
        } else {
            Ok(format!("echo: {}", prompt))
        }
    }
}

#[test]
fn a_provider_completes_the_assembled_context() {
    let mut short_term = ShortTermMemory::new();
    short_term.add_interaction_at("hello", "hi there", 1);
    let context = assemble_context(&LongTermMemory::new(), &short_term, &knowledge(), "rust");
    assert_eq!(
        Echo.complete(&context).unwrap(),
        "echo: User: hello\nAssistant: hi thereRust is a systems language."
    );
    assert_eq!(Echo.complete("").unwrap_err().message(), "API Error: empty prompt");
}

#[test]
fn tokens_are_counted() {
    assert_eq!(TweetComposer::count_tokens(""), 0);
    assert_eq!(TweetComposer::count_tokens("hello"), 1);
    assert_eq!(TweetComposer::count_tokens("Hello, world! How's it going?"), 6);
    assert_eq!(TweetComposer::count_tokens("  ...  "), 0);
    assert_eq!(TweetComposer::count_tokens("a-b_c d\te"), 5);
    assert_eq!(TweetComposer::count_tokens("naïve café"), 2);
}

#[test]
fn content_is_cut_to_the_length_of_a_post() {
    assert_eq!(TweetComposer::truncate_content("short".to_string()), "short");
    let long: String = "a".repeat(300);
    assert_eq!(TweetComposer::truncate_content(long), "a".repeat(280));
    let exact: String = "b".repeat(280);
    assert_eq!(TweetComposer::truncate_content(exact.clone()), exact);
    let wide: String = "é".repeat(281);
    assert_eq!(TweetComposer::truncate_content(wide), "é".repeat(280));
}

#[test]
fn a_word_names_a_personality() {
    assert_eq!(Personality::from_input("helpful"), Some(Personality::HelpfulAssistant));
    assert_eq!(Personality::from_input("FRIENDLY"), Some(Personality::FriendlyAssistant));
    assert_eq!(Personality::from_input("Expert"), Some(Personality::ExpertAssistant));
    assert_eq!(Personality::from_input("helpful "), None);
    assert_eq!(Personality::from_input(""), None);
    assert_eq!(
        Personality::HelpfulAssistant.system_message(),
        "You are a helpful assistant. Provide clear and concise answers."
    );
    assert_eq!(
        Personality::FriendlyAssistant.system_message(),
        "You are a friendly assistant. Be warm and engaging in your responses."
    );
    assert_eq!(
        Personality::ExpertAssistant.system_message(),
        "You are an expert assistant. Provide detailed and accurate information."
    );
    assert_eq!(Personality::HelpfulAssistant.name(), "Helpful Assistant");
    assert_eq!(Personality::FriendlyAssistant.name(), "Friendly Assistant");
    assert_eq!(Personality::ExpertAssistant.name(), "Expert Assistant");
}
