use agent_memory::json::Json;
use agent_memory::personality::PersonalityProfile;
use agent_memory::providers::twitter::{
    latest_first, log_entry, mentions_of, tweet_status, twitter_command, LogType, TweetComposer,
    TwitterCommand,
};

const SHARE: &str = "\n\nShare your insights naturally, as if talking to fellow professionals. Mix up your style between:\n- Technical observations\n- Problem-solving stories\n- Industry reflections\n- Tips and best practices\n";
const TOPIC_TASK: &str = "\nTask: Generate a topic for a tweet that aligns with your expertise and interests. The topic should be something you would genuinely want to discuss given your background and personality.\n\nTopic:";

fn ada() -> PersonalityProfile {
    PersonalityProfile::from_json(
        "{\"name\": \"Ada\", \"description\": \"a mathematician\", \"style\": \"precise\", \
          \"traits\": [\"curious\", \"bold\"], \"interests\": [\"engines\"], \
          \"communication_preferences\": {\"primary_style\": \"direct\", \"complexity\": 7}, \
          \"example_tweets\": [\"one\", \"two\", 3, \"three\", \"four\", \"five\", \"six\"]}",
    )
    .unwrap()
}

fn bob() -> PersonalityProfile {
    PersonalityProfile::from_json("{\"name\": \"Bob\"}").unwrap()
}

#[test]
fn posting_commands() {
    assert!(matches!(twitter_command("tweet"), TwitterCommand::GenerateTweet));
    assert!(matches!(twitter_command("  tweet  "), TwitterCommand::GenerateTweet));
    assert!(matches!(twitter_command("tweet hello world"), TwitterCommand::Tweet(text) if text == "hello world"));
    assert!(matches!(twitter_command("tweet   spaced  out "), TwitterCommand::Tweet(text) if text == "spaced  out"));
    assert!(matches!(twitter_command("tweet tweet hi"), TwitterCommand::Tweet(text) if text == "hi"));
    assert!(matches!(twitter_command("topic"), TwitterCommand::Topic));
    assert!(matches!(twitter_command("Tweet"), TwitterCommand::Help));
    assert!(matches!(twitter_command("whatever"), TwitterCommand::Help));
    assert!(matches!(twitter_command(""), TwitterCommand::Help));
}

#[test]
fn autopost_commands() {
    assert!(matches!(twitter_command("autopost start 30"), TwitterCommand::AutopostStart(30)));
    assert!(matches!(twitter_command("autopost start   007 "), TwitterCommand::AutopostStart(7)));
    assert!(matches!(twitter_command("autopost start +5"), TwitterCommand::AutopostStart(5)));
    assert!(matches!(twitter_command("autopost start 0"), TwitterCommand::AutopostStart(0)));
    assert!(matches!(
        twitter_command("autopost start 18446744073709551615"),
        TwitterCommand::AutopostStart(u64::MAX)
    ));
    assert!(matches!(
        twitter_command("autopost start 18446744073709551616"),
        TwitterCommand::InvalidMinutes
    ));
    assert!(matches!(twitter_command("autopost start x"), TwitterCommand::InvalidMinutes));
    assert!(matches!(twitter_command("autopost start -5"), TwitterCommand::InvalidMinutes));
    assert!(matches!(twitter_command("autopost start 5 6"), TwitterCommand::InvalidMinutes));
    assert!(matches!(twitter_command("autopost start +"), TwitterCommand::InvalidMinutes));
    assert!(matches!(twitter_command("autopost start 1_000"), TwitterCommand::InvalidMinutes));
    assert!(matches!(twitter_command("autopost start"), TwitterCommand::Help));
    assert!(matches!(twitter_command("autopost stop"), TwitterCommand::AutopostStop));
}

#[test]
fn reply_and_message_commands() {
    assert!(matches!(
        twitter_command("reply 123 nice post"),
        TwitterCommand::Reply { tweet_id, content } if tweet_id == "123" && content == "nice post"
    ));
    assert!(matches!(
        twitter_command("reply 123  two spaces"),
        TwitterCommand::Reply { tweet_id, content } if tweet_id == "123" && content == " two spaces"
    ));
    assert!(matches!(twitter_command("reply 123"), TwitterCommand::InvalidReply));
    assert!(matches!(
        twitter_command("dm @bob: hello: there"),
        TwitterCommand::DirectMessage { username, message } if username == "bob" && message == "hello: there"
    ));
    assert!(matches!(twitter_command("dm @bob hello"), TwitterCommand::InvalidDirectMessage));
    assert!(matches!(twitter_command("dm @bob:hello"), TwitterCommand::InvalidDirectMessage));
}

#[test]
fn log_commands() {
    assert!(matches!(twitter_command("logs"), TwitterCommand::RecentLogs));
    assert!(matches!(twitter_command("log"), TwitterCommand::RecentLogs));
    assert!(matches!(twitter_command("logs 20"), TwitterCommand::Logs(20)));
    assert!(matches!(twitter_command("logs x"), TwitterCommand::InvalidLogCount));
    assert!(matches!(
        twitter_command("logs 99999999999999999999999999"),
        TwitterCommand::InvalidLogCount
    ));
}

#[test]
fn composing_commands() {
    assert!(matches!(
        twitter_command("autoreply 5 some text here"),
        TwitterCommand::AutoReply { tweet_id, tweet_text } if tweet_id == "5" && tweet_text == "some text here"
    ));
    assert!(matches!(twitter_command("autoreply 5"), TwitterCommand::InvalidAutoReply));
    assert!(matches!(
        twitter_command("autodm @amy: any context"),
        TwitterCommand::AutoDirectMessage { username } if username == "amy"
    ));
    assert!(matches!(twitter_command("autodm @amy"), TwitterCommand::InvalidAutoDirectMessage));
    assert!(matches!(
        twitter_command("automention @amy hello there"),
        TwitterCommand::AutoMention { username, mention_text } if username == "@amy" && mention_text == "hello there"
    ));
    assert!(matches!(twitter_command("automention @amy"), TwitterCommand::InvalidAutoMention));
}

#[test]
fn the_prompt_for_a_topic() {
    assert_eq!(
        TweetComposer::topic_prompt(&ada()),
        format!(
            "You are Ada\nRole: a mathematician\nStyle: precise\nTraits: curious, bold\n\
             Expert in: engines\nCommunication style: direct\nTechnical level: \n{}",
            TOPIC_TASK
        )
    );
    assert_eq!(
        TweetComposer::topic_prompt(&bob()),
        format!("You are Bob\nRole: \nStyle: \n{}", TOPIC_TASK)
    );
}

#[test]
fn the_prompt_for_a_post() {
    assert_eq!(
        TweetComposer::tweet_prompt(&ada(), "Engines"),
        "You are Ada\nRole: a mathematician\nStyle: precise\nTraits: curious, bold\n\
         Expert in: engines\nCommunication style: direct\nTechnical level: \n\n\
         Example tweets:\none\ntwo\nthree\n\n\
         Task: Write a tweet about the following topic in your unique voice: \"Engines\"\n\n\
         The tweet should reflect your expertise level and personality. Keep it under 280 characters.\n\nTweet:"
    );
    assert_eq!(
        TweetComposer::tweet_prompt(&bob(), "x"),
        "You are Bob\nRole: \nStyle: \n\n\
         Task: Write a tweet about the following topic in your unique voice: \"x\"\n\n\
         The tweet should reflect your expertise level and personality. Keep it under 280 characters.\n\nTweet:"
    );
}

#[test]
fn the_system_message_of_the_composer() {
    assert_eq!(
        TweetComposer::system_message(&ada()),
        format!(
            "You are Ada - a mathematician\nYour expertise: engines\nVoice: precise{}\n\
             Reference tweets (use only as style guide, do not copy):\n\
             1. one\n2. two\n3. three\n4. four\n5. five\n",
            SHARE
        )
    );
    assert_eq!(
        TweetComposer::system_message(&bob()),
        format!(
            "You are Bob - an AI assistant\nYour expertise: technology, science, innovation\nVoice: professional{}",
            SHARE
        )
    );
}

#[test]
fn prompts_for_replies_and_messages() {
    assert_eq!(
        TweetComposer::reply_prompt("Ada", "Rust is fun"),
        "As Ada, create a thoughtful reply to this tweet: 'Rust is fun' Maintain your unique voice while adding value to the conversation."
    );
    assert_eq!(
        TweetComposer::dm_prompt("Ada", "bob"),
        "As Ada, write a professional direct message to @bob. Keep it friendly yet professional, reflecting your personality."
    );
    assert_eq!(
        TweetComposer::mention_prompt("Ada", "@ada hi"),
        "As Ada, respond to this mention: '@ada hi' Keep your response engaging and authentic to your character."
    );
}

#[test]
fn an_answer_is_cleaned_of_its_frame() {
    assert_eq!(TweetComposer::clean_answer("  Topic:\"Rust ownership\"  ", "Topic:"), "Rust ownership");
    assert_eq!(TweetComposer::clean_answer("\"\"Quoted\"\"", "Tweet:"), "Quoted");
    assert_eq!(TweetComposer::clean_answer("Tweet:Tweet: plain text ", "Tweet:"), "plain text");
    assert_eq!(
        TweetComposer::clean_answer("Topic: \"Rust ownership\"", "Topic:"),
        "\"Rust ownership"
    );
    assert_eq!(TweetComposer::clean_answer("   ", "Topic:"), "");
}

#[test]
fn the_status_of_a_sent_post() {
    let answer = "{\"data\":{\"create_tweet\":{\"tweet_results\":{\"result\":{\"rest_id\":\"12345\"}}}}}";
    let status = tweet_status(answer);
    assert_eq!(status.tweet_id, "12345");
    assert_eq!(status.url, "https://twitter.com/i/status/12345");
    let odd = "{\"data\":{\"create_tweet\":{\"tweet_results\":{\"result\":{\"rest_id\":12345}}}}}";
    assert_eq!(tweet_status(odd).tweet_id, odd);
    assert_eq!(tweet_status(odd).url, format!("https://twitter.com/i/status/{}", odd));
    assert_eq!(tweet_status("{\"errors\":[]}").tweet_id, "{\"errors\":[]}");
    assert_eq!(tweet_status("gone").url, "https://twitter.com/i/status/gone");
}

#[test]
fn mentions_begin_with_an_at_sign() {
    let tweets = vec![
        Json::parse("{\"text\": \"@bob hi\", \"id_str\": \"1\"}").unwrap(),
        Json::parse("{\"text\": \"hello @bob\", \"id_str\": \"2\"}").unwrap(),
        Json::parse("{\"text\": \"@x\"}").unwrap(),
        Json::parse("{\"id_str\": \"4\"}").unwrap(),
        Json::parse("{\"text\": 5, \"id_str\": \"5\"}").unwrap(),
        Json::parse("{\"text\": \"@y\", \"id_str\": 6}").unwrap(),
    ];
    let mentions = mentions_of(&tweets);
    assert_eq!(mentions.len(), 3);
    assert_eq!(mentions[0].id, Some("1".to_string()));
    assert_eq!(mentions[0].text, "@bob hi");
    assert_eq!(mentions[1].id, Some(String::new()));
    assert_eq!(mentions[1].text, "@x");
    assert_eq!(mentions[2].id, Some(String::new()));
    assert_eq!(mentions[2].text, "@y");
}

#[test]
fn the_log_shows_the_latest_first() {
    let lines: Vec<String> = ["a", "b", "c"].iter().map(|s| s.to_string()).collect();
    assert_eq!(latest_first(&lines, 2), vec!["c".to_string(), "b".to_string()]);
    assert_eq!(latest_first(&lines, 3), vec!["c".to_string(), "b".to_string(), "a".to_string()]);
    assert_eq!(latest_first(&lines, 5), vec!["c".to_string(), "b".to_string(), "a".to_string()]);
    assert_eq!(latest_first(&lines, 0), Vec::<String>::new());
    assert_eq!(latest_first(&Vec::new(), 3), Vec::<String>::new());
}

#[test]
fn a_line_of_the_log() {
    assert_eq!(
        log_entry("2024-01-01 00:00:00", LogType::Tweet, "hi"),
        "[2024-01-01 00:00:00] [TWEET] hi"
    );
    assert_eq!(LogType::AutoTweet.name(), "AUTO-TWEET");
    assert_eq!(LogType::Reply.name(), "REPLY");
    assert_eq!(LogType::DM.name(), "DM");
    assert_eq!(LogType::Error.name(), "ERROR");
    assert_eq!(LogType::Info.name(), "INFO");
    assert_eq!(LogType::System.name(), "SYSTEM");
}
