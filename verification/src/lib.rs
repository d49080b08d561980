//! Verified core of a local-first desktop mail client.
pub mod commands;
pub mod credentials;
pub mod error;
pub mod mail;
pub mod models;
pub mod outgoing;
pub mod rows;
pub mod seqs;
pub mod store;
pub mod text;
