//! Protocol clients: the packets each protocol sends, and the parsing of what
//! the server answers.
pub mod bedrock;
pub mod legacy;
pub mod query;
pub mod java;
