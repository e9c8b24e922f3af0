//! The knowledge base.

pub mod knowledge_base;
