//! A verified engine for rewriting version strings inside JSON and TOML
//! documents, addressed by a small selector language, together with the
//! release bookkeeping around it: conventional-commit classification, tag
//! templates, workflow rendering and scaffolding decisions.

pub mod cli;
pub mod config;
pub mod doc;
pub mod hb;
pub mod init;
pub mod jsonio;
pub mod laws;
pub mod pathord;
pub mod release;
pub mod resolve;
pub mod selector;
pub mod semverio;
pub mod tag_template;
pub mod template;
pub mod textutil;
pub mod tomlio;
pub mod update;
pub mod workflow;
