//! Verified core of `cargo furnish`: README generation and checks, doc-include
//! injection, workspace manifest reading, and the text handling they share.

pub mod check;
pub mod doc_injection;
pub mod readme;
pub mod source;
pub mod text;
pub mod toml;
pub mod update;
pub mod workspace;
