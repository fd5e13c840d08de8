//! Decision core of a chat assistant that lives in Matrix rooms: what it stores, what it reads
//! from and writes to its model backends, and how it answers.

pub mod attachment;
pub mod audio;
pub mod commands;
pub mod compaction;
pub mod config;
pub mod files;
pub mod history;
pub mod html;
pub mod json;
pub mod llm;
pub mod markdown;
pub mod mcp;
pub mod memory;
pub mod metrics;
pub mod names;
pub mod paths;
pub mod response;
pub mod room_profiles;
pub mod room_workdirs;
pub mod scheduler;
pub mod search;
pub mod skills;
pub mod sorting;
pub mod state;
pub mod text;
pub mod tools;
pub mod turn;
pub mod web;
pub mod workers;
