//! Verified core of a local dictation and meeting-notes application.

pub mod bridge;
pub mod cli;
pub mod clocks;
pub mod config_apply;
pub mod controller;
pub mod dictionary;
pub mod digest;
pub mod engine;
pub mod files;
pub mod history;
pub mod instance;
pub mod json;
pub mod learning;
pub mod licensing;
pub mod lines;
pub mod live;
pub mod locks;
pub mod migration;
pub mod model_setup;
pub mod presence;
pub mod prompt;
pub mod recognition;
pub mod record;
pub mod recovery;
pub mod reminder;
pub mod rules_file;
pub mod seqs;
pub mod settings;
pub mod sorting;
pub mod text;
pub mod transaction;
pub mod transcript;
pub mod update;
