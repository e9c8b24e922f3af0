//! The agent's memory: the short-term store and the long-term store.

pub mod long_term;
pub mod short_term;

pub use long_term::LongTermMemory;
pub use short_term::ShortTermMemory;
