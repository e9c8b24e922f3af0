use agent_memory::commands::{
    character_command, character_name, chat_prompt, route_command, web_command,
    CharacterCommand, CommandRoute, LoggedExchange, WebCommand,
};
use agent_memory::providers::deepseek::completion_content;

#[test]
fn an_empty_line_goes_nowhere() {
    assert_eq!(route_command(""), CommandRoute::Nothing);
    assert_eq!(route_command("   \t"), CommandRoute::Nothing);
}

#[test]
fn single_words_are_commands_in_any_case() {
    assert_eq!(route_command("help"), CommandRoute::Help);
    assert_eq!(route_command("  HELP "), CommandRoute::Help);
    assert_eq!(route_command("exit"), CommandRoute::Exit);
    assert_eq!(route_command("Quit"), CommandRoute::Exit);
    assert_eq!(route_command("chars"), CommandRoute::Character);
    assert_eq!(route_command("Characters"), CommandRoute::Character);
    assert_eq!(route_command("LOAD"), CommandRoute::Character);
    assert_eq!(route_command("tweet"), CommandRoute::TweetUsage);
    assert_eq!(route_command("TWEET"), CommandRoute::TweetUsage);
    assert_eq!(route_command("autopost"), CommandRoute::AutopostUsage);
    assert_eq!(route_command("analyze"), CommandRoute::AnalyzeUsage);
    assert_eq!(route_command("Research"), CommandRoute::ResearchUsage);
    assert_eq!(route_command("LINKS"), CommandRoute::LinksUsage);
}

#[test]
fn commands_with_arguments_are_in_lower_case() {
    assert_eq!(route_command("load ada"), CommandRoute::Character);
    assert_eq!(route_command("Load ada"), CommandRoute::Chat);
    assert_eq!(route_command("tweet hello"), CommandRoute::Twitter);
    assert_eq!(route_command("Tweet hello"), CommandRoute::Chat);
    assert_eq!(route_command("autopost start 5"), CommandRoute::Twitter);
    assert_eq!(route_command("reply 1 hi"), CommandRoute::Twitter);
    assert_eq!(route_command("dm @bob: hi"), CommandRoute::Twitter);
    assert_eq!(route_command("analyze http://x"), CommandRoute::Web);
    assert_eq!(route_command("research rust"), CommandRoute::Web);
    assert_eq!(route_command("  links http://x  "), CommandRoute::Web);
}

#[test]
fn anything_else_is_chat() {
    assert_eq!(route_command("hello there"), CommandRoute::Chat);
    assert_eq!(route_command("logs"), CommandRoute::Chat);
    assert_eq!(route_command("topic"), CommandRoute::Chat);
    assert_eq!(route_command("helpful"), CommandRoute::Chat);
    assert_eq!(route_command("tweets"), CommandRoute::Chat);
}

#[test]
fn character_commands() {
    assert!(matches!(character_command("chars"), CharacterCommand::List));
    assert!(matches!(character_command("CHARACTERS"), CharacterCommand::List));
    assert!(matches!(character_command("load"), CharacterCommand::LoadUsage));
    assert!(matches!(character_command("Load"), CharacterCommand::LoadUsage));
    assert!(matches!(character_command("load "), CharacterCommand::LoadUsage));
    assert!(matches!(character_command("load ada"), CharacterCommand::Load(name) if name == "ada"));
    assert!(matches!(character_command("load   ada  "), CharacterCommand::Load(name) if name == "ada"));
    assert!(matches!(character_command("load load ada"), CharacterCommand::Load(name) if name == "ada"));
    assert!(matches!(character_command("load my file.json"), CharacterCommand::Load(name) if name == "my file.json"));
    assert!(matches!(character_command("Load ada"), CharacterCommand::Unknown));
    assert!(matches!(character_command("other"), CharacterCommand::Unknown));
}

#[test]
fn a_character_file_names_its_character() {
    assert_eq!(character_name("ada.json"), Some("ada".to_string()));
    assert_eq!(character_name("ada.json.json"), Some("ada".to_string()));
    assert_eq!(character_name(".json"), Some(String::new()));
    assert_eq!(character_name("ada.txt"), None);
    assert_eq!(character_name("json"), None);
    assert_eq!(character_name(""), None);
}

#[test]
fn web_commands() {
    assert!(matches!(web_command("analyze http://x"), WebCommand::Analyze(url) if url == "http://x"));
    assert!(matches!(web_command("analyze   http://x  "), WebCommand::Analyze(url) if url == "http://x"));
    assert!(matches!(web_command("analyze  "), WebCommand::AnalyzeUsage));
    assert!(matches!(web_command("research rust lang"), WebCommand::Research(topic) if topic == "rust lang"));
    assert!(matches!(web_command("research "), WebCommand::ResearchUsage));
    assert!(matches!(web_command("links http://x"), WebCommand::Links(url) if url == "http://x"));
    assert!(matches!(web_command("links \t"), WebCommand::LinksUsage));
    assert!(matches!(web_command("analyze"), WebCommand::Unknown));
    assert!(matches!(web_command("foo"), WebCommand::Unknown));
}

fn exchange(user: &str, ai: &str, personality: &str) -> LoggedExchange {
    LoggedExchange {
        timestamp: "2024-01-01 00:00:00".to_string(),
        user_input: user.to_string(),
        ai_response: ai.to_string(),
        personality: personality.to_string(),
    }
}

#[test]
fn a_chat_prompt_recalls_what_the_personality_said() {
    let recent = vec![
        exchange("hi", "hello", "Ada"),
        exchange("x", "y", "Bob"),
        exchange("more", "sure", "Ada"),
    ];
    assert_eq!(
        chat_prompt(&recent, "Ada", "how?"),
        "Previous conversation:\nUser: hi\nAI: hello\nUser: more\nAI: sure\n\n\nCurrent message: how?"
    );
    assert_eq!(chat_prompt(&recent, "Eve", "how?"), "how?");
    assert_eq!(chat_prompt(&Vec::new(), "Ada", "how?"), "how?");
}

#[test]
fn the_content_of_a_completion() {
    assert_eq!(
        completion_content("{\"choices\":[{\"message\":{\"role\":\"assistant\",\"content\":\"Hello\"}}]}")
            .unwrap(),
        "Hello"
    );
    assert_eq!(
        completion_content("{\"choices\":[{\"message\":{\"content\":\"first\"}},{\"message\":{\"content\":\"second\"}}]}")
            .unwrap(),
        "first"
    );
}

#[test]
fn an_answer_without_content_is_an_error() {
    for answer in [
        "{\"choices\":[]}",
        "{\"choices\":{}}",
        "{\"choices\":[{\"message\":{\"content\":7}}]}",
        "{\"choices\":[{\"message\":\"text\"}]}",
        "{\"error\":\"busy\"}",
        "[]",
    ] {
        assert_eq!(
            completion_content(answer).unwrap_err().message,
            format!("Failed to extract content from response: {}", answer)
        );
    }
    let malformed = completion_content("busy").unwrap_err().message;
    assert!(!malformed.is_empty());
    assert!(!malformed.starts_with("Failed to extract"));
}
