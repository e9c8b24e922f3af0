//! The context assembler: what is handed to the completion provider for one turn.

use vstd::prelude::*;
use vstd::string::*;
use crate::knowledge_base::knowledge_base::{information_of, KnowledgeBaseHandler, KnowledgeEntryView};
use crate::memory::long_term::LongTermMemory;
use crate::memory::short_term::{context_of, ConversationView, ShortTermMemory};

verus! {

/// The key under which the long-term store keeps the summary of the conversation.
pub open spec fn summary_key() -> Seq<char> {
    "conversation_summary"@
}

/// The prompt context for `current_input`: the long-term summary, where
/// there is one; then the short-term context for the input; then what the
/// knowledge base has to say on it.
pub open spec fn assembled(
    long_term: Map<Seq<char>, Seq<char>>,
    conversations: Seq<ConversationView>,
    entries: Seq<KnowledgeEntryView>,
    current_input: Seq<char>,
) -> Seq<char> {
    (if long_term.contains_key(summary_key()) {
        long_term[summary_key()]
    } else {
        Seq::empty()
    }) + context_of(conversations, current_input) + information_of(entries, current_input)
}

/// Assembles the prompt context for `current_input` from the three stores.
pub fn assemble_context(
    long_term: &LongTermMemory,
    short_term: &ShortTermMemory,
    knowledge: &KnowledgeBaseHandler,
    current_input: &str,
) -> (context: String)
    ensures
        context@ == assembled(long_term@, short_term@, knowledge.entries(), current_input@),
{
    let mut context = String::new();
    match long_term.retrieve("conversation_summary") {
        Some(summary) => {
            context.append(summary.as_str());
        },
        None => {},
    }
    context.append(short_term.get_context(current_input).as_str());
    context.append(knowledge.retrieve_information(current_input).as_str());
    context
}

} // verus!
