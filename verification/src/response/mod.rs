//! Response data models for Minecraft server queries.
//!
//! Each protocol variant produces its own response type with the relevant
//! data fields.
pub mod bedrock;
pub mod legacy;
pub mod raw;
pub mod query;
pub mod forge;
pub mod java;
