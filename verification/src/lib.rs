//! Core logic of a terminal coding assistant: text scanning, tool-call
//! parsing, the multi-line input editor, the agent pipeline as a state
//! machine, and the chat state that reacts to keys and agent events.

pub mod text;
pub mod ai;
pub mod args;
pub mod planner;
pub mod pipeline;
pub mod input;
pub mod clock;
pub mod app;
pub mod session;
pub mod config;
pub mod tools;
pub mod state;
pub mod ui;
pub mod agent;
