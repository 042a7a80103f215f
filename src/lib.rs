//! Core of a menubar terminal: pseudoterminal geometry rules, a registry of
//! live shell sessions, the decisions of each session's output reader, a
//! decoder that reassembles UTF-8 text split across raw read chunks, and how a
//! session's shell is started. Around it: checks and completion for one-shot
//! commands, screen identifiers, the window's open state and settings bounds.

pub mod text;
pub mod size;
pub mod utf8_stream;
pub mod registry;
pub mod reader;
pub mod events;
pub mod launch;
pub mod commands;
pub mod window;
pub mod screen;
pub mod settings;
pub mod completion;
