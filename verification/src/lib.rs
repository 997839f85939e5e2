//! Query Minecraft servers for their status and capabilities: the wire
//! formats, response parsing and MOTD handling of the Java (1.7+), legacy
//! Java, Bedrock and GS4 Query protocols.
pub mod error;
pub mod text;
pub mod buffer;
pub mod io;
pub mod motd;
pub mod json;
pub mod address;
pub mod protocol;
pub mod response;
pub mod server;
pub mod util;
pub mod dns;
