//! The values that the core hands to the presentation layer.

use vstd::prelude::*;

verus! {

/// Decoded text that a session's shell produced.
#[derive(Debug, Clone)]
pub struct PtyOutput {
    pub session_id: String,
    pub data: String,
}

/// The end of a session: the last event for its identifier.
#[derive(Debug, Clone)]
pub struct PtyExit {
    pub session_id: String,
    pub exit_code: Option<i32>,
}

/// What a one-shot command printed, and how it ended.
#[derive(Debug, Clone)]
pub struct CommandResult {
    pub stdout: String,
    pub stderr: String,
    pub exit_code: i32,
}

/// A piece of a streamed command's output.
#[derive(Debug, Clone)]
pub struct StreamChunk {
    pub chunk: String,
    pub is_stderr: bool,
}

} // verus!
