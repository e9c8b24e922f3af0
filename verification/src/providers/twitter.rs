//! What posting needs computed: measures for composed posts, the status of
//! a post that was sent, the mentions among fetched posts, and the lines of
//! the activity log.

use vstd::prelude::*;
use vstd::string::*;
use crate::commands::argument_of;
use crate::json::{parsed_json, Json};
use crate::personality::{
    attribute_items, attribute_text, collect_strings, string_items, PersonalityProfile,
};
use crate::providers::web_crawler::{numbered, numbered_item};
use crate::text::{
    char_is_whitespace, chars_of, first_of, has_prefix, join, join_strings, parse_unsigned,
    parsed_unsigned, split_at_first, split_once, starts_with, string_from_chars, strings_view,
    strip_leading, strip_trailing, take_first, trim_chars, trimmed, whitespace, without_leading,
    without_trailing,
};

verus! {

/// The most characters that a post may have.
pub const MAX_TWEET_LENGTH: usize = 280;

/// Whether `c` is an ASCII punctuation character: one of
/// `! " # $ % & ' ( ) * + , - . /`, `: ; < = > ? @`, `[ \ ] ^ _` and the
/// grave accent, `{ | } ~`.
pub open spec fn ascii_punctuation(c: char) -> bool {
    ||| '!' <= c <= '/'
    ||| ':' <= c <= '@'
    ||| '[' <= c <= '`'
    ||| '{' <= c <= '~'
}

/// Whether `c` parts tokens: white space and ASCII punctuation do.
pub open spec fn parts_tokens(c: char) -> bool {
    whitespace(c) || ascii_punctuation(c)
}

/// The number of tokens of `s`: of its maximal runs of characters that part
/// no tokens.
pub open spec fn token_count(s: Seq<char>) -> nat
    decreases s.len(),
{
    if s.len() == 0 {
        0
    } else if !parts_tokens(s.last()) && (s.len() == 1 || parts_tokens(s[s.len() - 2])) {
        token_count(s.drop_last()) + 1
    } else {
        token_count(s.drop_last())
    }
}

/// The first `limit` characters of `s`, or all of it where it has no more.
pub open spec fn truncated(s: Seq<char>, limit: nat) -> Seq<char> {
    if s.len() <= limit {
        s
    } else {
        s.take(limit as int)
    }
}

fn is_ascii_punctuation(c: char) -> (b: bool)
    ensures
        b == ascii_punctuation(c),
{
    ('!' <= c && c <= '/') || (':' <= c && c <= '@') || ('[' <= c && c <= '`') || ('{' <= c && c
        <= '~')
}

/// Composes posts.
pub struct TweetComposer;

impl TweetComposer {
    /// A rough count of the tokens of `text`: the pieces that white space and
    /// ASCII punctuation leave of it.
    pub fn count_tokens(text: &str) -> (count: usize)
        ensures
            count == token_count(text@),
    {
        let chars = chars_of(text);
        let mut count: usize = 0;
        let mut inside = false;
        for i in 0..chars.len()
            invariant
                count <= i,
                count == token_count(chars@.take(i as int)),
                inside == (i > 0 && !parts_tokens(chars@[i - 1])),
        {
            proof {
                assert(chars@.take(i + 1).drop_last() == chars@.take(i as int));
                assert(chars@.take(i + 1).last() == chars@[i as int]);
                if i > 0 {
                    assert(chars@.take(i + 1)[i - 1] == chars@[i - 1]);
                }
            }
            let c = chars[i];
            let parting = char_is_whitespace(c) || is_ascii_punctuation(c);
            if !parting && !inside {
                count += 1;
            }
            inside = !parting;
        }
        assert(chars@.take(chars.len() as int) == chars@);
        count
    }

    /// `content` cut to the length of a post.
    pub fn truncate_content(content: String) -> (cut: String)
        ensures
            cut@ == truncated(content@, MAX_TWEET_LENGTH as nat),
    {
        let chars = chars_of(content.as_str());
        if chars.len() <= MAX_TWEET_LENGTH {
            return content;
        }
        let mut kept: Vec<char> = Vec::new();
        for i in 0..MAX_TWEET_LENGTH
            invariant
                chars.len() > MAX_TWEET_LENGTH,
                kept@ == chars@.take(i as int),
        {
            kept.push(chars[i]);
            assert(chars@.take(i + 1) == chars@.take(i as int).push(chars@[i as int]));
        }
        string_from_chars(&kept)
    }
}

/// A post that was sent: its identifier and its address.
#[derive(Clone, Debug)]
pub struct TweetStatus {
    pub tweet_id: String,
    pub url: String,
}

/// The kinds of entries of the activity log.
#[derive(Clone, Copy, Debug, PartialEq, Eq, Structural)]
pub enum LogType {
    Tweet,
    AutoTweet,
    Reply,
    DM,
    Error,
    Info,
    System,
}

/// A post that mentions the account.
#[derive(Clone, Debug)]
pub struct Mention {
    pub id: Option<String>,
    pub text: String,
}

/// The identifier that the service's answer gives the new post: the string at
/// `data.create_tweet.tweet_results.result.rest_id`, where there is one.
pub open spec fn rest_id_of(answer: Json) -> Option<Seq<char>> {
    match answer.member("data"@) {
        Some(data) => match data.member("create_tweet"@) {
            Some(created) => match created.member("tweet_results"@) {
                Some(results) => match results.member("result"@) {
                    Some(result) => match result.member("rest_id"@) {
                        Some(id) => id.text(),
                        None => None,
                    },
                    None => None,
                },
                None => None,
            },
            None => None,
        },
        None => None,
    }
}

/// The identifier of the post whose sending was answered with the text
/// `answer_text`: the one that the answer gives, or else the whole answer.
pub open spec fn tweet_id_of(answer_text: Seq<char>) -> Seq<char> {
    match parsed_json(answer_text) {
        Some(answer) => match rest_id_of(answer) {
            Some(id) => id,
            None => answer_text,
        },
        None => answer_text,
    }
}

/// The address of the post with the identifier `id`.
pub open spec fn tweet_url(id: Seq<char>) -> Seq<char> {
    "https://twitter.com/i/status/"@ + id
}

/// The text of the member `key` of `value`, or nothing where it is no string.
pub open spec fn text_or_empty(value: Json, key: Seq<char>) -> Seq<char> {
    match value.member(key) {
        Some(Json::Text(text)) => text@,
        _ => Seq::empty(),
    }
}

/// Whether the fetched post `tweet` is a mention: whether its text begins
/// with `@`.
pub open spec fn is_mention(tweet: Json) -> bool {
    text_or_empty(tweet, "text"@).len() > 0 && text_or_empty(tweet, "text"@)[0] == '@'
}

/// The mentions among fetched posts, in order: identifier and text of each.
pub open spec fn mentions_among(tweets: Seq<Json>) -> Seq<(Seq<char>, Seq<char>)>
    decreases tweets.len(),
{
    if tweets.len() == 0 {
        Seq::empty()
    } else if is_mention(tweets.last()) {
        mentions_among(tweets.drop_last()).push(
            (text_or_empty(tweets.last(), "id_str"@), text_or_empty(tweets.last(), "text"@)),
        )
    } else {
        mentions_among(tweets.drop_last())
    }
}

/// The latest `count` of `lines`, the last line first; all of them where
/// there are no more.
pub open spec fn latest_lines(lines: Seq<Seq<char>>, count: nat) -> Seq<Seq<char>> {
    Seq::new(
        if lines.len() <= count {
            lines.len()
        } else {
            count
        },
        |i: int| lines[lines.len() - 1 - i],
    )
}

/// A line of the activity log.
pub open spec fn log_line(timestamp: Seq<char>, kind: LogType, message: Seq<char>) -> Seq<char> {
    "["@ + timestamp + "] ["@ + kind.name_text() + "] "@ + message
}

impl LogType {
    /// The name of the kind, as the log writes it.
    pub open spec fn name_text(self) -> Seq<char> {
        match self {
            LogType::Tweet => "TWEET"@,
            LogType::AutoTweet => "AUTO-TWEET"@,
            LogType::Reply => "REPLY"@,
            LogType::DM => "DM"@,
            LogType::Error => "ERROR"@,
            LogType::Info => "INFO"@,
            LogType::System => "SYSTEM"@,
        }
    }

    /// The name of the kind, as the log writes it.
    pub fn name(&self) -> (name: String)
        ensures
            name@ == self.name_text(),
    {
        match self {
            LogType::Tweet => String::from_str("TWEET"),
            LogType::AutoTweet => String::from_str("AUTO-TWEET"),
            LogType::Reply => String::from_str("REPLY"),
            LogType::DM => String::from_str("DM"),
            LogType::Error => String::from_str("ERROR"),
            LogType::Info => String::from_str("INFO"),
            LogType::System => String::from_str("SYSTEM"),
        }
    }
}

/// The line that the activity log gets for `message`, written at `timestamp`.
pub fn log_entry(timestamp: &str, kind: LogType, message: &str) -> (line: String)
    ensures
        line@ == log_line(timestamp@, kind, message@),
{
    let mut line = String::from_str("[");
    line.append(timestamp);
    line.append("] [");
    line.append(kind.name().as_str());
    line.append("] ");
    line.append(message);
    line
}

/// The latest `count` lines of the log `lines`, the last line first.
pub fn latest_first(lines: &Vec<String>, count: usize) -> (latest: Vec<String>)
    ensures
        strings_view(latest@) == latest_lines(strings_view(lines@), count as nat),
{
    let n = lines.len();
    let take: usize = if n <= count {
        n
    } else {
        count
    };
    let mut latest: Vec<String> = Vec::new();
    for i in 0..take
        invariant
            take <= n,
            n == lines.len(),
            latest@.len() == i,
            forall|j: int| 0 <= j < i ==> (#[trigger] latest@[j])@ == lines@[n - 1 - j]@,
    {
        latest.push(lines[n - 1 - i].clone());
    }
    assert(strings_view(latest@) =~= latest_lines(strings_view(lines@), count as nat));
    latest
}

/// The identifier that the answer `answer` gives the new post.
fn rest_id_in(answer: &Json) -> (id: Option<String>)
    ensures
        match id {
            Some(text) => rest_id_of(*answer) == Some(text@),
            None => rest_id_of(*answer) is None,
        },
{
    match answer.get("data") {
        Some(data) => match data.get("create_tweet") {
            Some(created) => match created.get("tweet_results") {
                Some(results) => match results.get("result") {
                    Some(result) => match result.get("rest_id") {
                        Some(Json::Text(text)) => Some(text.clone()),
                        _ => None,
                    },
                    None => None,
                },
                None => None,
            },
            None => None,
        },
        None => None,
    }
}

/// The status of the post whose sending the service answered with
/// `answer_text`: the identifier that the answer gives, or else the whole
/// answer, and the address made of it.
pub fn tweet_status(answer_text: &str) -> (status: TweetStatus)
    ensures
        status.tweet_id@ == tweet_id_of(answer_text@),
        status.url@ == tweet_url(tweet_id_of(answer_text@)),
{
    let found = match Json::parse(answer_text) {
        Ok(answer) => rest_id_in(&answer),
        Err(_) => None,
    };
    let tweet_id = match found {
        Some(id) => id,
        None => String::from_str(answer_text),
    };
    let mut url = String::from_str("https://twitter.com/i/status/");
    url.append(tweet_id.as_str());
    TweetStatus { tweet_id, url }
}

/// The text of the member `key` of `value`, or nothing where it is no string.
fn member_text(value: &Json, key: &str) -> (text: String)
    ensures
        text@ == text_or_empty(*value, key@),
{
    match value.get(key) {
        Some(Json::Text(text)) => text.clone(),
        _ => String::new(),
    }
}

/// The mentions among the fetched posts `tweets`: those whose text begins
/// with `@`, each with its identifier and its text.
pub fn mentions_of(tweets: &Vec<Json>) -> (mentions: Vec<Mention>)
    ensures
        mentions@.len() == mentions_among(tweets@).len(),
        forall|i: int|
            0 <= i < mentions@.len() ==> (#[trigger] mentions@[i]).id is Some && mentions@[i].id->0@
                == mentions_among(tweets@)[i].0 && mentions@[i].text@ == mentions_among(
                tweets@,
            )[i].1,
{
    let mut mentions: Vec<Mention> = Vec::new();
    for k in 0..tweets.len()
        invariant
            mentions@.len() == mentions_among(tweets@.take(k as int)).len(),
            forall|i: int|
                0 <= i < mentions@.len() ==> (#[trigger] mentions@[i]).id is Some
                    && mentions@[i].id->0@ == mentions_among(tweets@.take(k as int))[i].0
                    && mentions@[i].text@ == mentions_among(tweets@.take(k as int))[i].1,
    {
        proof {
            assert(tweets@.take(k + 1).drop_last() == tweets@.take(k as int));
            assert(tweets@.take(k + 1).last() == tweets@[k as int]);
        }
        let text = member_text(&tweets[k], "text");
        let first = chars_of(text.as_str());
        if first.len() > 0 && first[0] == '@' {
            mentions.push(Mention { id: Some(member_text(&tweets[k], "id_str")), text });
        }
    }
    assert(tweets@.take(tweets.len() as int) == tweets@);
    mentions
}

/// What a Twitter command asks for.
#[derive(Clone, Debug)]
pub enum TwitterCommand {
    /// A post is to be composed and, on consent, sent.
    GenerateTweet,
    /// A post with this text is to be sent.
    Tweet(String),
    /// `tweet` came with no text.
    EmptyTweet,
    /// Posts are to be composed and sent every so many minutes.
    AutopostStart(u64),
    /// `autopost start` came with no number of minutes.
    InvalidMinutes,
    /// Automatic posting is to stop.
    AutopostStop,
    /// A reply is to be sent to the post; both parts are as written.
    Reply { tweet_id: String, content: String },
    /// `reply` came without a post and a text.
    InvalidReply,
    /// A direct message is to be sent; both parts are as written.
    DirectMessage { username: String, message: String },
    /// `dm` came without a user and a message.
    InvalidDirectMessage,
    /// The latest entries of the log are to be shown, as many as is usual.
    RecentLogs,
    /// The latest entries of the log are to be shown, so many of them.
    Logs(usize),
    /// `logs` came with no number.
    InvalidLogCount,
    /// A reply to the post is to be composed; both parts are as written.
    AutoReply { tweet_id: String, tweet_text: String },
    /// `autoreply` came without a post and its text.
    InvalidAutoReply,
    /// A direct message to the user is to be composed; the name is as written.
    AutoDirectMessage { username: String },
    /// `autodm` came without a user.
    InvalidAutoDirectMessage,
    /// An answer to a mention is to be composed; both parts are as written.
    AutoMention { username: String, mention_text: String },
    /// `automention` came without a user and a text.
    InvalidAutoMention,
    /// A topic for a post is to be composed.
    Topic,
    /// The line is none of the commands: the help is shown.
    Help,
}

/// How many log entries are shown where no number is asked for.
pub const DEFAULT_LOG_COUNT: usize = 10;

/// Whether `command` is what the trimmed line `line` asks for. The commands
/// are tried in the order in which they stand here.
pub open spec fn is_twitter_command(line: Seq<char>, command: TwitterCommand) -> bool {
    if line == "tweet"@ {
        command is GenerateTweet
    } else if starts_with(line, "tweet "@) {
        if argument_of(line, "tweet "@).len() == 0 {
            command is EmptyTweet
        } else {
            command matches TwitterCommand::Tweet(text) && text@ == argument_of(line, "tweet "@)
        }
    } else if starts_with(line, "autopost start "@) {
        match parsed_unsigned(argument_of(line, "autopost start "@), u64::MAX as int) {
            Some(minutes) => command matches TwitterCommand::AutopostStart(m) && m == minutes,
            None => command is InvalidMinutes,
        }
    } else if line == "autopost stop"@ {
        command is AutopostStop
    } else if starts_with(line, "reply "@) {
        match split_once(without_leading(line, "reply "@), " "@) {
            Some(parts) => command matches TwitterCommand::Reply { tweet_id, content }
                && tweet_id@ == parts.0 && content@ == parts.1,
            None => command is InvalidReply,
        }
    } else if starts_with(line, "dm @"@) {
        match split_once(without_leading(line, "dm @"@), ": "@) {
            Some(parts) => command matches TwitterCommand::DirectMessage { username, message }
                && username@ == parts.0 && message@ == parts.1,
            None => command is InvalidDirectMessage,
        }
    } else if line == "logs"@ || line == "log"@ {
        command is RecentLogs
    } else if starts_with(line, "logs "@) {
        match parsed_unsigned(argument_of(line, "logs "@), usize::MAX as int) {
            Some(wanted) => command matches TwitterCommand::Logs(count) && count == wanted,
            None => command is InvalidLogCount,
        }
    } else if starts_with(line, "autoreply "@) {
        match split_once(without_leading(line, "autoreply "@), " "@) {
            Some(parts) => command matches TwitterCommand::AutoReply { tweet_id, tweet_text }
                && tweet_id@ == parts.0 && tweet_text@ == parts.1,
            None => command is InvalidAutoReply,
        }
    } else if starts_with(line, "autodm @"@) {
        match split_once(without_leading(line, "autodm @"@), ": "@) {
            Some(parts) => command matches TwitterCommand::AutoDirectMessage { username }
                && username@ == parts.0,
            None => command is InvalidAutoDirectMessage,
        }
    } else if starts_with(line, "automention "@) {
        match split_once(without_leading(line, "automention "@), " "@) {
            Some(parts) => command matches TwitterCommand::AutoMention { username, mention_text }
                && username@ == parts.0 && mention_text@ == parts.1,
            None => command is InvalidAutoMention,
        }
    } else if line == "topic"@ {
        command is Topic
    } else {
        command is Help
    }
}

/// Whether `line` is the word `word`.
fn is_line(line: &Vec<char>, word: &str) -> (same: bool)
    ensures
        same == (line@ == word@),
{
    string_from_chars(line) == String::from_str(word)
}

/// What stands behind the command `command` in `line`, trimmed.
fn command_rest(line: &Vec<char>, command: &str) -> (rest: Vec<char>)
    ensures
        rest@ == argument_of(line@, command@),
{
    trim_chars(&strip_leading(line, command))
}

/// The two parts that `delimiter` makes of what stands behind `command`.
fn command_parts(line: &Vec<char>, command: &str, delimiter: &str) -> (parts: Option<
    (String, String),
>)
    ensures
        match parts {
            Some((first, second)) => split_once(without_leading(line@, command@), delimiter@)
                == Some((first@, second@)),
            None => split_once(without_leading(line@, command@), delimiter@) is None,
        },
{
    match split_at_first(&strip_leading(line, command), delimiter) {
        Some((first, second)) => Some((string_from_chars(&first), string_from_chars(&second))),
        None => None,
    }
}

/// What the Twitter command `input` asks for. The line is trimmed first.
pub fn twitter_command(input: &str) -> (command: TwitterCommand)
    ensures
        is_twitter_command(trimmed(input@), command),
{
    let line = trim_chars(&chars_of(input));
    if is_line(&line, "tweet") {
        TwitterCommand::GenerateTweet
    } else if has_prefix(&line, "tweet ") {
        let text = command_rest(&line, "tweet ");
        if text.len() == 0 {
            TwitterCommand::EmptyTweet
        } else {
            TwitterCommand::Tweet(string_from_chars(&text))
        }
    } else if has_prefix(&line, "autopost start ") {
        match parse_unsigned(&command_rest(&line, "autopost start "), u64::MAX) {
            Some(minutes) => TwitterCommand::AutopostStart(minutes),
            None => TwitterCommand::InvalidMinutes,
        }
    } else if is_line(&line, "autopost stop") {
        TwitterCommand::AutopostStop
    } else if has_prefix(&line, "reply ") {
        match command_parts(&line, "reply ", " ") {
            Some((tweet_id, content)) => TwitterCommand::Reply { tweet_id, content },
            None => TwitterCommand::InvalidReply,
        }
    } else if has_prefix(&line, "dm @") {
        match command_parts(&line, "dm @", ": ") {
            Some((username, message)) => TwitterCommand::DirectMessage { username, message },
            None => TwitterCommand::InvalidDirectMessage,
        }
    } else if is_line(&line, "logs") || is_line(&line, "log") {
        TwitterCommand::RecentLogs
    } else if has_prefix(&line, "logs ") {
        match parse_unsigned(&command_rest(&line, "logs "), usize::MAX as u64) {
            Some(count) => TwitterCommand::Logs(count as usize),
            None => TwitterCommand::InvalidLogCount,
        }
    } else if has_prefix(&line, "autoreply ") {
        match command_parts(&line, "autoreply ", " ") {
            Some((tweet_id, tweet_text)) => TwitterCommand::AutoReply { tweet_id, tweet_text },
            None => TwitterCommand::InvalidAutoReply,
        }
    } else if has_prefix(&line, "autodm @") {
        match command_parts(&line, "autodm @", ": ") {
            Some((username, _)) => TwitterCommand::AutoDirectMessage { username },
            None => TwitterCommand::InvalidAutoDirectMessage,
        }
    } else if has_prefix(&line, "automention ") {
        match command_parts(&line, "automention ", " ") {
            Some((username, mention_text)) => TwitterCommand::AutoMention { username, mention_text },
            None => TwitterCommand::InvalidAutoMention,
        }
    } else if is_line(&line, "topic") {
        TwitterCommand::Topic
    } else {
        TwitterCommand::Help
    }
}

/// The strings of the array attribute `key`; none where it is no array.
pub open spec fn profile_strings(attributes: Json, key: Seq<char>) -> Seq<Seq<char>> {
    match attribute_items(attributes, key) {
        Some(items) => string_items(items),
        None => Seq::empty(),
    }
}

/// `found`, or `fallback` where there is none.
pub open spec fn text_or(found: Option<Seq<char>>, fallback: Seq<char>) -> Seq<char> {
    match found {
        Some(text) => text,
        None => fallback,
    }
}

/// The line that lists `items` behind `intro`; no line where there are none.
pub open spec fn list_lines(intro: Seq<char>, items: Seq<Seq<char>>) -> Seq<Seq<char>> {
    if items.len() > 0 {
        seq![intro + join(items, ", "@)]
    } else {
        Seq::empty()
    }
}

/// The line for the preference `key` behind `intro`: its text, or nothing
/// where it is no string; no line where the preference is not given.
pub open spec fn preference_line(preferences: Json, key: Seq<char>, intro: Seq<char>) -> Seq<
    Seq<char>,
> {
    match preferences.member(key) {
        Some(value) => seq![intro + text_or(value.text(), Seq::empty())],
        None => Seq::empty(),
    }
}

/// The lines on how the personality wants to communicate.
pub open spec fn preference_lines(attributes: Json) -> Seq<Seq<char>> {
    match attributes.member("communication_preferences"@) {
        Some(preferences) => if preferences is Object {
            preference_line(preferences, "primary_style"@, "Communication style: "@)
                + preference_line(preferences, "complexity"@, "Technical level: "@)
        } else {
            Seq::empty()
        },
        None => Seq::empty(),
    }
}

/// The lines that introduce a personality to the completion service.
pub open spec fn persona_lines(name: Seq<char>, attributes: Json) -> Seq<Seq<char>> {
    seq![
        "You are "@ + name,
        "Role: "@ + text_or(attribute_text(attributes, "description"@), Seq::empty()),
        "Style: "@ + text_or(attribute_text(attributes, "style"@), Seq::empty()),
    ] + list_lines("Traits: "@, profile_strings(attributes, "traits"@)) + list_lines(
        "Expert in: "@,
        profile_strings(attributes, "interests"@),
    ) + preference_lines(attributes)
}

/// The task that asks for a topic.
pub open spec fn topic_task() -> Seq<char> {
    "\nTask: Generate a topic for a tweet that aligns with your expertise and interests. The topic should be something you would genuinely want to discuss given your background and personality.\n\nTopic:"@
}

/// The task that asks for a post on `topic`.
pub open spec fn tweet_task(topic: Seq<char>) -> Seq<char> {
    "\nTask: Write a tweet about the following topic in your unique voice: \""@ + topic
        + "\"\n\nThe tweet should reflect your expertise level and personality. Keep it under 280 characters.\n\nTweet:"@
}

/// The lines with up to three example posts; none where the profile has none.
pub open spec fn example_lines(attributes: Json) -> Seq<Seq<char>> {
    if profile_strings(attributes, "example_tweets"@).len() > 0 {
        seq![
            "\nExample tweets:\n"@ + join(
                first_of(profile_strings(attributes, "example_tweets"@), 3),
                "\n"@,
            ),
        ]
    } else {
        Seq::empty()
    }
}

/// The prompt that asks the personality for a topic.
pub open spec fn topic_prompt_text(name: Seq<char>, attributes: Json) -> Seq<char> {
    join(persona_lines(name, attributes) + seq![topic_task()], "\n"@)
}

/// The prompt that asks the personality for a post on `topic`.
pub open spec fn tweet_prompt_text(name: Seq<char>, attributes: Json, topic: Seq<char>) -> Seq<
    char,
> {
    join(
        persona_lines(name, attributes) + example_lines(attributes) + seq![tweet_task(topic)],
        "\n"@,
    )
}

/// The system message with which the composer's completion service is set up.
pub open spec fn composer_message_text(name: Seq<char>, attributes: Json) -> Seq<char> {
    "You are "@ + name + " - "@ + text_or(
        attribute_text(attributes, "description"@),
        "an AI assistant"@,
    ) + "\nYour expertise: "@ + (if join(profile_strings(attributes, "interests"@), ", "@).len() > 0 {
        join(profile_strings(attributes, "interests"@), ", "@)
    } else {
        "technology, science, innovation"@
    }) + "\nVoice: "@ + text_or(attribute_text(attributes, "style"@), "professional"@)
        + "\n\nShare your insights naturally, as if talking to fellow professionals. Mix up your style between:\n- Technical observations\n- Problem-solving stories\n- Industry reflections\n- Tips and best practices\n"@
        + (if profile_strings(attributes, "example_tweets"@).len() > 0 {
        "\nReference tweets (use only as style guide, do not copy):\n"@ + join(
            numbered(first_of(profile_strings(attributes, "example_tweets"@), 5)),
            "\n"@,
        ) + "\n"@
    } else {
        Seq::empty()
    })
}

/// The answer of the completion service without what frames it: trimmed,
/// without the label it may begin with, without the quotation marks around
/// it, and trimmed again.
pub open spec fn cleaned(answer: Seq<char>, label: Seq<char>) -> Seq<char> {
    trimmed(
        without_trailing(
            without_leading(without_leading(trimmed(answer), label), "\""@),
            "\""@,
        ),
    )
}

/// The strings of the array attribute `key` of `profile`.
fn strings_of(profile: &PersonalityProfile, key: &str) -> (texts: Vec<String>)
    ensures
        strings_view(texts@) == profile_strings(profile.attributes, key@),
{
    match profile.get_array(key) {
        Some(items) => collect_strings(items),
        None => {
            let texts: Vec<String> = Vec::new();
            assert(strings_view(texts@) =~= Seq::<Seq<char>>::empty());
            texts
        },
    }
}

/// A text made of two.
fn glue(head: &str, tail: &str) -> (text: String)
    ensures
        text@ == head@ + tail@,
{
    let mut text = String::from_str(head);
    text.append(tail);
    text
}

/// Adds the line that lists `items` behind `intro`, where there are any.
fn push_list_line(lines: &mut Vec<String>, intro: &str, items: &Vec<String>)
    ensures
        strings_view(final(lines)@) == strings_view(old(lines)@) + list_lines(
            intro@,
            strings_view(items@),
        ),
{
    let ghost before = strings_view(lines@);
    if items.len() > 0 {
        lines.push(glue(intro, join_strings(items, ", ").as_str()));
        assert(strings_view(lines@) =~= before + list_lines(intro@, strings_view(items@)));
    } else {
        assert(strings_view(lines@) =~= before + list_lines(intro@, strings_view(items@)));
    }
}

/// Adds the line for the preference `key` behind `intro`, where it is given.
fn push_preference_line(lines: &mut Vec<String>, preferences: &Json, key: &str, intro: &str)
    ensures
        strings_view(final(lines)@) == strings_view(old(lines)@) + preference_line(
            *preferences,
            key@,
            intro@,
        ),
{
    let ghost before = strings_view(lines@);
    match preferences.get(key) {
        Some(value) => {
            let text = match value.as_text() {
                Some(text) => text,
                None => "",
            };
            proof {
                reveal_strlit("");
                assert(""@ =~= Seq::<char>::empty());
            }
            lines.push(glue(intro, text));
            assert(strings_view(lines@) =~= before + preference_line(*preferences, key@, intro@));
        },
        None => {
            assert(strings_view(lines@) =~= before + preference_line(*preferences, key@, intro@));
        },
    }
}

/// The lines that introduce `profile` to the completion service.
fn persona(profile: &PersonalityProfile) -> (lines: Vec<String>)
    ensures
        strings_view(lines@) == persona_lines(profile.name@, profile.attributes),
{
    let mut lines: Vec<String> = Vec::new();
    proof {
        reveal_strlit("");
        assert(""@ =~= Seq::<char>::empty());
    }
    lines.push(glue("You are ", profile.name.as_str()));
    lines.push(
        glue(
            "Role: ",
            match profile.get_str("description") {
                Some(text) => text,
                None => "",
            },
        ),
    );
    lines.push(
        glue(
            "Style: ",
            match profile.get_str("style") {
                Some(text) => text,
                None => "",
            },
        ),
    );
    let ghost head = strings_view(lines@);
    assert(head =~= seq![
        "You are "@ + profile.name@,
        "Role: "@ + text_or(attribute_text(profile.attributes, "description"@), Seq::empty()),
        "Style: "@ + text_or(attribute_text(profile.attributes, "style"@), Seq::empty()),
    ]);
    push_list_line(&mut lines, "Traits: ", &strings_of(profile, "traits"));
    push_list_line(&mut lines, "Expert in: ", &strings_of(profile, "interests"));
    let ghost listed = strings_view(lines@);
    match profile.attributes.get("communication_preferences") {
        Some(preferences) => {
            if matches!(preferences, Json::Object(_)) {
                push_preference_line(
                    &mut lines,
                    preferences,
                    "primary_style",
                    "Communication style: ",
                );
                push_preference_line(&mut lines, preferences, "complexity", "Technical level: ");
                assert(strings_view(lines@) =~= listed + preference_lines(profile.attributes));
            } else {
                assert(strings_view(lines@) =~= listed + preference_lines(profile.attributes));
            }
        },
        None => {
            assert(strings_view(lines@) =~= listed + preference_lines(profile.attributes));
        },
    }
    lines
}

impl TweetComposer {
    /// The prompt that asks `profile` for a topic to post on.
    pub fn topic_prompt(profile: &PersonalityProfile) -> (prompt: String)
        ensures
            prompt@ == topic_prompt_text(profile.name@, profile.attributes),
    {
        let mut lines = persona(profile);
        let ghost before = strings_view(lines@);
        lines.push(
            String::from_str(
                "\nTask: Generate a topic for a tweet that aligns with your expertise and interests. The topic should be something you would genuinely want to discuss given your background and personality.\n\nTopic:",
            ),
        );
        assert(strings_view(lines@) =~= before + seq![topic_task()]);
        join_strings(&lines, "\n")
    }

    /// The prompt that asks `profile` for a post on `topic`.
    pub fn tweet_prompt(profile: &PersonalityProfile, topic: &str) -> (prompt: String)
        ensures
            prompt@ == tweet_prompt_text(profile.name@, profile.attributes, topic@),
    {
        let mut lines = persona(profile);
        let ghost before = strings_view(lines@);
        let examples = strings_of(profile, "example_tweets");
        if examples.len() > 0 {
            lines.push(
                glue("\nExample tweets:\n", join_strings(&take_first(&examples, 3), "\n").as_str()),
            );
        }
        assert(strings_view(lines@) =~= before + example_lines(profile.attributes));
        let ghost middle = strings_view(lines@);
        let mut task = String::from_str(
            "\nTask: Write a tweet about the following topic in your unique voice: \"",
        );
        task.append(topic);
        task.append(
            "\"\n\nThe tweet should reflect your expertise level and personality. Keep it under 280 characters.\n\nTweet:",
        );
        lines.push(task);
        assert(strings_view(lines@) =~= middle + seq![tweet_task(topic@)]);
        join_strings(&lines, "\n")
    }

    /// The system message with which the composer's completion service is
    /// set up for `profile`.
    pub fn system_message(profile: &PersonalityProfile) -> (message: String)
        ensures
            message@ == composer_message_text(profile.name@, profile.attributes),
    {
        let mut message = String::from_str("You are ");
        message.append(profile.name.as_str());
        message.append(" - ");
        message.append(
            match profile.get_str("description") {
                Some(text) => text,
                None => "an AI assistant",
            },
        );
        message.append("\nYour expertise: ");
        let interests = join_strings(&strings_of(profile, "interests"), ", ");
        if interests.as_str().unicode_len() == 0 {
            message.append("technology, science, innovation");
        } else {
            message.append(interests.as_str());
        }
        message.append("\nVoice: ");
        message.append(
            match profile.get_str("style") {
                Some(text) => text,
                None => "professional",
            },
        );
        message.append(
            "\n\nShare your insights naturally, as if talking to fellow professionals. Mix up your style between:\n- Technical observations\n- Problem-solving stories\n- Industry reflections\n- Tips and best practices\n",
        );
        let examples = take_first(&strings_of(profile, "example_tweets"), 5);
        if examples.len() > 0 {
            let ghost wanted = strings_view(examples@);
            let mut lines: Vec<String> = Vec::new();
            for i in 0..examples.len()
                invariant
                    wanted == strings_view(examples@),
                    lines@.len() == i,
                    forall|j: int| 0 <= j < i ==> (#[trigger] lines@[j])@ == numbered(wanted)[j],
            {
                lines.push(numbered_item(i, examples[i].as_str()));
            }
            assert(strings_view(lines@) =~= numbered(wanted));
            message.append("\nReference tweets (use only as style guide, do not copy):\n");
            message.append(join_strings(&lines, "\n").as_str());
            message.append("\n");
        }
        message
    }

    /// The prompt that asks the personality `name` for a reply to a post.
    pub fn reply_prompt(name: &str, tweet: &str) -> (prompt: String)
        ensures
            prompt@ == "As "@ + name@ + ", create a thoughtful reply to this tweet: '"@ + tweet@
                + "' Maintain your unique voice while adding value to the conversation."@,
    {
        let mut prompt = String::from_str("As ");
        prompt.append(name);
        prompt.append(", create a thoughtful reply to this tweet: '");
        prompt.append(tweet);
        prompt.append("' Maintain your unique voice while adding value to the conversation.");
        prompt
    }

    /// The prompt that asks the personality `name` for a direct message.
    pub fn dm_prompt(name: &str, recipient: &str) -> (prompt: String)
        ensures
            prompt@ == "As "@ + name@ + ", write a professional direct message to @"@ + recipient@
                + ". Keep it friendly yet professional, reflecting your personality."@,
    {
        let mut prompt = String::from_str("As ");
        prompt.append(name);
        prompt.append(", write a professional direct message to @");
        prompt.append(recipient);
        prompt.append(". Keep it friendly yet professional, reflecting your personality.");
        prompt
    }

    /// The prompt that asks the personality `name` for an answer to a mention.
    pub fn mention_prompt(name: &str, mention: &str) -> (prompt: String)
        ensures
            prompt@ == "As "@ + name@ + ", respond to this mention: '"@ + mention@
                + "' Keep your response engaging and authentic to your character."@,
    {
        let mut prompt = String::from_str("As ");
        prompt.append(name);
        prompt.append(", respond to this mention: '");
        prompt.append(mention);
        prompt.append("' Keep your response engaging and authentic to your character.");
        prompt
    }

    /// The answer of the completion service without what frames it.
    pub fn clean_answer(answer: &str, label: &str) -> (clean: String)
        ensures
            clean@ == cleaned(answer@, label@),
    {
        let trimmed_answer = trim_chars(&chars_of(answer));
        let unlabelled = strip_leading(&trimmed_answer, label);
        let opened = strip_leading(&unlabelled, "\"");
        let closed = strip_trailing(&opened, "\"");
        string_from_chars(&trim_chars(&closed))
    }
}

} // verus!
