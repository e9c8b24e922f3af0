//! The rules of the command line: where a line of input goes, what the
//! character and web commands ask for, and what is handed to the completion
//! service for a chat message.

use vstd::prelude::*;
use vstd::string::*;
use crate::text::{
    chars_of, has_prefix, lowercase, matches_ignoring_case, same_ignoring_ascii_case,
    ends_with, stands_at, starts_with, string_from_chars, strip_leading, strip_trailing,
    to_lowercase, trim_chars, trimmed, without_leading, without_trailing,
};

verus! {

/// One exchange as the conversation log holds it.
#[derive(Clone, Debug)]
pub struct LoggedExchange {
    pub timestamp: String,
    pub user_input: String,
    pub ai_response: String,
    /// The name of the personality that answered.
    pub personality: String,
}

/// What a `LoggedExchange` holds, as mathematical values.
pub struct LoggedExchangeView {
    pub timestamp: Seq<char>,
    pub user_input: Seq<char>,
    pub ai_response: Seq<char>,
    pub personality: Seq<char>,
}

impl View for LoggedExchange {
    type V = LoggedExchangeView;

    open spec fn view(&self) -> LoggedExchangeView {
        LoggedExchangeView {
            timestamp: self.timestamp@,
            user_input: self.user_input@,
            ai_response: self.ai_response@,
            personality: self.personality@,
        }
    }
}

/// The views of a list of logged exchanges.
pub open spec fn exchanges_view(v: Seq<LoggedExchange>) -> Seq<LoggedExchangeView> {
    Seq::new(v.len(), |i: int| v[i]@)
}

/// The earlier conversation with the personality `personality`, as the
/// prompt shows it: the exchanges that it answered, in the order given, each
/// as a user line and an AI line.
pub open spec fn earlier_conversation(
    recent: Seq<LoggedExchangeView>,
    personality: Seq<char>,
) -> Seq<char>
    decreases recent.len(),
{
    if recent.len() == 0 {
        Seq::empty()
    } else {
        earlier_conversation(recent.drop_last(), personality) + if recent.last().personality
            == personality {
            "User: "@ + recent.last().user_input + "\nAI: "@ + recent.last().ai_response + "\n"@
        } else {
            Seq::empty()
        }
    }
}

/// The prompt for a chat message: the message alone, or, where the
/// personality has spoken before, the earlier conversation and then the
/// message.
pub open spec fn chat_prompt_text(
    recent: Seq<LoggedExchangeView>,
    personality: Seq<char>,
    input: Seq<char>,
) -> Seq<char> {
    if earlier_conversation(recent, personality).len() == 0 {
        input
    } else {
        "Previous conversation:\n"@ + earlier_conversation(recent, personality)
            + "\n\nCurrent message: "@ + input
    }
}

/// The prompt for the chat message `input`, where `recent` are the latest
/// exchanges of the log and `personality` names the personality that is to
/// answer.
pub fn chat_prompt(recent: &Vec<LoggedExchange>, personality: &str, input: &str) -> (prompt: String)
    ensures
        prompt@ == chat_prompt_text(exchanges_view(recent@), personality@, input@),
{
    let ghost all = exchanges_view(recent@);
    let wanted = String::from_str(personality);
    let mut context = String::new();
    let mut empty = true;
    assert(context@ =~= earlier_conversation(all.take(0), personality@));
    for i in 0..recent.len()
        invariant
            all == exchanges_view(recent@),
            wanted@ == personality@,
            context@ == earlier_conversation(all.take(i as int), personality@),
            empty == (context@.len() == 0),
    {
        proof {
            assert(all.take(i + 1).drop_last() == all.take(i as int));
            assert(all.take(i + 1).last() == recent@[i as int]@);
        }
        if recent[i].personality == wanted {
            context.append("User: ");
            context.append(recent[i].user_input.as_str());
            context.append("\nAI: ");
            context.append(recent[i].ai_response.as_str());
            context.append("\n");
            empty = false;
            proof {
                reveal_strlit("\n");
            }
        }
    }
    assert(all.take(recent.len() as int) == all);
    if empty {
        String::from_str(input)
    } else {
        let mut prompt = String::from_str("Previous conversation:\n");
        prompt.append(context.as_str());
        prompt.append("\n\nCurrent message: ");
        prompt.append(input);
        prompt
    }
}

/// Where a line of input goes.
#[derive(Clone, Copy, Debug, PartialEq, Eq, Structural)]
pub enum CommandRoute {
    /// The line is empty: nothing is done.
    Nothing,
    /// The help is shown.
    Help,
    /// The program ends.
    Exit,
    /// The line is a character command.
    Character,
    /// The line is `tweet` alone: its usage is shown.
    TweetUsage,
    /// The line is `autopost` alone: its usage is shown.
    AutopostUsage,
    /// The line is a Twitter command.
    Twitter,
    /// The line is `analyze` alone: its usage is shown.
    AnalyzeUsage,
    /// The line is `research` alone: its usage is shown.
    ResearchUsage,
    /// The line is `links` alone: its usage is shown.
    LinksUsage,
    /// The line is a web command.
    Web,
    /// The line is a chat message.
    Chat,
}

/// Whether a trimmed line goes to Twitter.
pub open spec fn is_twitter_line(t: Seq<char>) -> bool {
    ||| starts_with(t, "tweet "@)
    ||| starts_with(t, "autopost "@)
    ||| same_ignoring_ascii_case(t, "tweet"@)
    ||| same_ignoring_ascii_case(t, "autopost"@)
    ||| starts_with(t, "reply "@)
    ||| starts_with(t, "dm @"@)
}

/// Whether a trimmed line goes to the web crawler.
pub open spec fn is_web_line(t: Seq<char>) -> bool {
    ||| starts_with(t, "analyze "@)
    ||| same_ignoring_ascii_case(t, "analyze"@)
    ||| starts_with(t, "research "@)
    ||| same_ignoring_ascii_case(t, "research"@)
    ||| starts_with(t, "links "@)
    ||| same_ignoring_ascii_case(t, "links"@)
}

/// Where the line `input` goes. The line is trimmed; a word that is a command
/// by itself counts in any case; a command with an argument must be written
/// in lower case; what is no command is a chat message.
pub open spec fn route_of(input: Seq<char>) -> CommandRoute {
    let t = trimmed(input);
    let lower = lowercase(t);
    if input.len() == 0 {
        CommandRoute::Nothing
    } else if lower == "help"@ {
        CommandRoute::Help
    } else if lower == "exit"@ || lower == "quit"@ {
        CommandRoute::Exit
    } else if lower == "chars"@ || lower == "characters"@ || lower == "load"@ {
        CommandRoute::Character
    } else if lower == ""@ {
        CommandRoute::Nothing
    } else if starts_with(t, "load "@) {
        CommandRoute::Character
    } else if is_twitter_line(t) {
        if same_ignoring_ascii_case(t, "tweet"@) {
            CommandRoute::TweetUsage
        } else if same_ignoring_ascii_case(t, "autopost"@) {
            CommandRoute::AutopostUsage
        } else {
            CommandRoute::Twitter
        }
    } else if is_web_line(t) {
        if lower == "analyze"@ {
            CommandRoute::AnalyzeUsage
        } else if lower == "research"@ {
            CommandRoute::ResearchUsage
        } else if lower == "links"@ {
            CommandRoute::LinksUsage
        } else {
            CommandRoute::Web
        }
    } else {
        CommandRoute::Chat
    }
}

/// Whether `text` is the word `word`.
fn is_word(text: &String, word: &str) -> (same: bool)
    ensures
        same == (text@ == word@),
{
    *text == String::from_str(word)
}

/// Where the line `input` goes.
pub fn route_command(input: &str) -> (route: CommandRoute)
    ensures
        route == route_of(input@),
{
    let chars = chars_of(input);
    if chars.len() == 0 {
        return CommandRoute::Nothing;
    }
    let t = trim_chars(&chars);
    let lower = to_lowercase(string_from_chars(&t).as_str());
    if is_word(&lower, "help") {
        CommandRoute::Help
    } else if is_word(&lower, "exit") || is_word(&lower, "quit") {
        CommandRoute::Exit
    } else if is_word(&lower, "chars") || is_word(&lower, "characters") || is_word(&lower, "load") {
        CommandRoute::Character
    } else if is_word(&lower, "") {
        CommandRoute::Nothing
    } else if has_prefix(&t, "load ") {
        CommandRoute::Character
    } else if has_prefix(&t, "tweet ") || has_prefix(&t, "autopost ") || matches_ignoring_case(
        &t,
        "tweet",
    ) || matches_ignoring_case(&t, "autopost") || has_prefix(&t, "reply ") || has_prefix(
        &t,
        "dm @",
    ) {
        if matches_ignoring_case(&t, "tweet") {
            CommandRoute::TweetUsage
        } else if matches_ignoring_case(&t, "autopost") {
            CommandRoute::AutopostUsage
        } else {
            CommandRoute::Twitter
        }
    } else if has_prefix(&t, "analyze ") || matches_ignoring_case(&t, "analyze") || has_prefix(
        &t,
        "research ",
    ) || matches_ignoring_case(&t, "research") || has_prefix(&t, "links ")
        || matches_ignoring_case(&t, "links") {
        if is_word(&lower, "analyze") {
            CommandRoute::AnalyzeUsage
        } else if is_word(&lower, "research") {
            CommandRoute::ResearchUsage
        } else if is_word(&lower, "links") {
            CommandRoute::LinksUsage
        } else {
            CommandRoute::Web
        }
    } else {
        CommandRoute::Chat
    }
}

/// The argument of a command line that begins with `command`: what stands
/// behind the command, trimmed.
pub open spec fn argument_of(line: Seq<char>, command: Seq<char>) -> Seq<char> {
    trimmed(without_leading(line, command))
}

/// The argument of the command line `line`, which begins with `command`.
pub fn command_argument(line: &Vec<char>, command: &str) -> (argument: String)
    ensures
        argument@ == argument_of(line@, command@),
{
    let rest = strip_leading(line, command);
    string_from_chars(&trim_chars(&rest))
}

/// What a character command asks for.
#[derive(Clone, Debug)]
pub enum CharacterCommand {
    /// The characters are to be listed.
    List,
    /// No character was named: the usage is shown.
    LoadUsage,
    /// The character of this name is to be loaded.
    Load(String),
    /// The line is no character command.
    Unknown,
}

/// Whether `command` is what the line `line` asks for.
pub open spec fn is_character_command(line: Seq<char>, command: CharacterCommand) -> bool {
    if same_ignoring_ascii_case(line, "chars"@) || same_ignoring_ascii_case(line, "characters"@) {
        command is List
    } else if same_ignoring_ascii_case(line, "load"@) {
        command is LoadUsage
    } else if starts_with(line, "load "@) {
        if argument_of(line, "load "@).len() == 0 {
            command is LoadUsage
        } else {
            command matches CharacterCommand::Load(name) && name@ == argument_of(line, "load "@)
        }
    } else {
        command is Unknown
    }
}

/// What the character command `input` asks for.
pub fn character_command(input: &str) -> (command: CharacterCommand)
    ensures
        is_character_command(input@, command),
{
    let line = chars_of(input);
    if matches_ignoring_case(&line, "chars") || matches_ignoring_case(&line, "characters") {
        CharacterCommand::List
    } else if matches_ignoring_case(&line, "load") {
        CharacterCommand::LoadUsage
    } else if has_prefix(&line, "load ") {
        let name = command_argument(&line, "load ");
        if name.as_str().unicode_len() == 0 {
            CharacterCommand::LoadUsage
        } else {
            CharacterCommand::Load(name)
        }
    } else {
        CharacterCommand::Unknown
    }
}

/// The name of the character that the file `file_name` holds: the file's
/// name without `.json` at its end, where it ends so.
pub open spec fn character_of_file(file_name: Seq<char>) -> Option<Seq<char>> {
    if ends_with(file_name, ".json"@) {
        Some(without_trailing(file_name, ".json"@))
    } else {
        None
    }
}

/// The name of the character that the file `file_name` holds, if it holds one.
pub fn character_name(file_name: &str) -> (name: Option<String>)
    ensures
        match name {
            Some(text) => character_of_file(file_name@) == Some(text@),
            None => character_of_file(file_name@) is None,
        },
{
    let chars = chars_of(file_name);
    let suffix = chars_of(".json");
    if chars.len() >= suffix.len() && stands_at(&chars, chars.len() - suffix.len(), &suffix) {
        assert(chars@.subrange(chars@.len() - suffix@.len(), chars@.len() as int) == chars@.skip(
            chars@.len() - suffix@.len(),
        ));
        Some(string_from_chars(&strip_trailing(&chars, ".json")))
    } else {
        proof {
            if suffix@.len() <= chars@.len() {
                assert(chars@.subrange(chars@.len() - suffix@.len(), chars@.len() as int)
                    == chars@.skip(chars@.len() - suffix@.len()));
            }
        }
        None
    }
}

/// What a web command asks for.
#[derive(Clone, Debug)]
pub enum WebCommand {
    /// The page at this address is to be analyzed.
    Analyze(String),
    /// No address was given to analyze: the usage is shown.
    AnalyzeUsage,
    /// This topic is to be researched.
    Research(String),
    /// No topic was given: the usage is shown.
    ResearchUsage,
    /// The links of the page at this address are to be listed.
    Links(String),
    /// No address was given to list links of: the usage is shown.
    LinksUsage,
    /// The line is no web command.
    Unknown,
}

/// Whether `command` is what the line `line` asks for.
pub open spec fn is_web_command(line: Seq<char>, command: WebCommand) -> bool {
    if starts_with(line, "analyze "@) {
        if argument_of(line, "analyze "@).len() == 0 {
            command is AnalyzeUsage
        } else {
            command matches WebCommand::Analyze(url) && url@ == argument_of(line, "analyze "@)
        }
    } else if starts_with(line, "research "@) {
        if argument_of(line, "research "@).len() == 0 {
            command is ResearchUsage
        } else {
            command matches WebCommand::Research(topic) && topic@ == argument_of(
                line,
                "research "@,
            )
        }
    } else if starts_with(line, "links "@) {
        if argument_of(line, "links "@).len() == 0 {
            command is LinksUsage
        } else {
            command matches WebCommand::Links(url) && url@ == argument_of(line, "links "@)
        }
    } else {
        command is Unknown
    }
}

/// What the web command `input` asks for.
pub fn web_command(input: &str) -> (command: WebCommand)
    ensures
        is_web_command(input@, command),
{
    let line = chars_of(input);
    if has_prefix(&line, "analyze ") {
        let url = command_argument(&line, "analyze ");
        if url.as_str().unicode_len() == 0 {
            WebCommand::AnalyzeUsage
        } else {
            WebCommand::Analyze(url)
        }
    } else if has_prefix(&line, "research ") {
        let topic = command_argument(&line, "research ");
        if topic.as_str().unicode_len() == 0 {
            WebCommand::ResearchUsage
        } else {
            WebCommand::Research(topic)
        }
    } else if has_prefix(&line, "links ") {
        let url = command_argument(&line, "links ");
        if url.as_str().unicode_len() == 0 {
            WebCommand::LinksUsage
        } else {
            WebCommand::Links(url)
        }
    } else {
        WebCommand::Unknown
    }
}

} // verus!
