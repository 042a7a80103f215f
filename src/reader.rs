//! The decisions of a session's background reader: whether to read again,
//! what a read gives to emit, and how the session's end is reported.

use vstd::prelude::*;
use crate::utf8_stream::{
    step_carry,
    step_dropped,
    step_text,
    DecodedChunk,
    Utf8BoundaryDecoder,
    MAX_CARRY,
};

verus! {

/// What one read from the pseudoterminal gave. No bytes means end of input.
pub enum ReadOutcome {
    Bytes(Vec<u8>),
    Failed(String),
}

/// What the reader does after a read.
pub enum ReaderAction {
    /// Emit the decoded text (and warn when bytes were dropped), then read again.
    Emit(DecodedChunk),
    /// Leave the loop, logging the message when there is one.
    Finish(Option<String>),
}

/// The message logged for a read error that no close asked for.
pub open spec fn read_error_message(detail: Seq<char>) -> Seq<char> {
    "PTY read error: "@ + detail
}

/// The state of one session's reader loop.
pub struct OutputReader {
    decoder: Utf8BoundaryDecoder,
    finished: bool,
}

impl OutputReader {
    /// The bytes held back for the next read.
    pub closed spec fn carry(&self) -> Seq<u8> {
        self.decoder@
    }

    /// Whether the loop has ended.
    pub closed spec fn is_finished(&self) -> bool {
        self.finished
    }

    /// The bytes held back never exceed one character's encoding.
    pub closed spec fn wf(&self) -> bool {
        self.decoder.wf()
    }

    /// What `wf` promises callers: at most one character's bytes are held.
    pub proof fn lemma_carry_bounded(&self)
        requires
            self.wf(),
        ensures
            self.carry().len() <= MAX_CARRY,
    {
    }

    /// A reader before its first read.
    pub fn new() -> (r: Self)
        ensures
            r.wf(),
            r.carry() == Seq::<u8>::empty(),
            !r.is_finished(),
    {
        OutputReader { decoder: Utf8BoundaryDecoder::new(), finished: false }
    }

    /// Whether to read again: not once the loop has ended, and not once a
    /// shutdown was asked for, which is checked before every read.
    pub fn should_read(&self, shutdown_requested: bool) -> (r: bool)
        ensures
            r == (!shutdown_requested && !self.is_finished()),
    {
        !shutdown_requested && !self.finished
    }

    /// Whether the loop has ended.
    pub fn finished(&self) -> (r: bool)
        ensures
            r == self.is_finished(),
    {
        self.finished
    }

    /// Handles one read. No bytes ends the loop quietly. An error ends it,
    /// with a message to log unless a shutdown was asked for. Bytes are
    /// decoded together with those held back, and the text is emitted.
    pub fn on_read(&mut self, outcome: ReadOutcome, shutdown_requested: bool) -> (r: ReaderAction)
        requires
            old(self).wf(),
            !old(self).is_finished(),
            outcome matches ReadOutcome::Bytes(b) ==> b@.len() <= usize::MAX - MAX_CARRY,
        ensures
            final(self).wf(),
            final(self).carry().len() <= MAX_CARRY,
            match outcome {
                ReadOutcome::Bytes(b) => if b@.len() == 0 {
                    &&& r matches ReaderAction::Finish(None)
                    &&& final(self).is_finished()
                    &&& final(self).carry() == old(self).carry()
                } else {
                    &&& r matches ReaderAction::Emit(c)
                    &&& c.text@ == step_text(old(self).carry(), b@)
                    &&& c.dropped as nat == step_dropped(old(self).carry(), b@)
                    &&& final(self).carry() == step_carry(old(self).carry(), b@)
                    &&& !final(self).is_finished()
                },
                ReadOutcome::Failed(detail) => {
                    &&& final(self).is_finished()
                    &&& final(self).carry() == old(self).carry()
                    &&& if shutdown_requested {
                        r matches ReaderAction::Finish(None)
                    } else {
                        r matches ReaderAction::Finish(Some(m)) && m@ == read_error_message(detail@)
                    }
                },
            },
    {
        match outcome {
            ReadOutcome::Bytes(b) => {
                if b.len() == 0 {
                    self.finished = true;
                    ReaderAction::Finish(None)
                } else {
                    let c = self.decoder.push(b.as_slice());
                    ReaderAction::Emit(c)
                }
            },
            ReadOutcome::Failed(detail) => {
                self.finished = true;
                if shutdown_requested {
                    ReaderAction::Finish(None)
                } else {
                    let mut m = String::from_str("PTY read error: ");
                    m.append(detail.as_str());
                    ReaderAction::Finish(Some(m))
                }
            },
        }
    }
}

/// Whether, after the loop, the reader waits for the child to learn its exit
/// status: only when no close asked for the shutdown (a close kills the child
/// and joins the reader itself).
pub fn wants_exit_status(shutdown_requested: bool) -> (r: bool)
    ensures
        r == !shutdown_requested,
{
    !shutdown_requested
}

/// The exit code reported for a session, from whether its child exited
/// successfully (`None` when that is unknown). Any failure is reported as 1:
/// the process handle does not always give the real code.
pub fn exit_code(success: Option<bool>) -> (r: Option<i32>)
    ensures
        r == match success {
            Some(true) => Some(0i32),
            Some(false) => Some(1i32),
            None => None::<i32>,
        },
{
    match success {
        Some(true) => Some(0),
        Some(false) => Some(1),
        None => None,
    }
}

} // verus!
