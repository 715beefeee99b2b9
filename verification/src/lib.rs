//! Minutes linking library: locates references to issue-tracker items inside
//! an HTML transcript of a meeting, resolves for each the nearest citable
//! heading, and drives a rate-limited commenting protocol that reports a
//! typed outcome per reference.
pub mod chat;
pub mod config;
pub mod date;
pub mod engine;
pub mod error;
pub mod doc_fragment;
pub mod dom;
pub mod limiter;
pub mod issue;
pub mod outcome;
pub mod repositories;
pub mod sanitize;
pub mod text;
