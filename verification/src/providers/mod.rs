//! What the agent's outside services need computed: the reading of a
//! completion, commands, prompts and measures for posting, and the reports and
//! search addresses of the web crawler.

pub mod deepseek;
pub mod twitter;
pub mod web_crawler;
