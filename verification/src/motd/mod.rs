//! MOTD (Message of the Day) parsing and transformation.
//!
//! Parses raw MOTD strings or JSON chat components into structured component
//! lists, and transforms them into various output formats (plain text, HTML,
//! ANSI, Minecraft section-sign format).
pub mod components;
pub mod simplify;
pub mod transform;
pub mod motd_impl;

pub use motd_impl::{Motd, MotdRaw};
