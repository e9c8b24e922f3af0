//! The logic of a conversational agent. Its core is the agent's contextual
//! memory: topic extraction, a bounded short-term store with its topic index,
//! a persistent long-term store, a knowledge base, and the learning manager
//! that ties them together. Around it stand the rules of the command line and
//! what the agent's outside services need computed: prompts, reports, and the
//! reading of their answers.

pub mod assembler;
pub mod clock;
pub mod commands;
pub mod completion;
pub mod json;
pub mod knowledge_base;
pub mod learning;
pub mod memory;
pub mod personality;
pub mod providers;
pub mod ranking;
pub mod text;
pub mod topics;
