//! Running the tools that an edit needs: what is said when one does not start, and when
//! to stop one.

use vstd::prelude::*;
use vstd::string::StringExecFns;

use crate::sources::{EditError, ErrorModel};
use crate::text::{begins_with, strip_prefix};

verus! {

/// The failure to start a program.
pub fn tool_not_started(program: &str, not_found: bool, reason: &str) -> (result: EditError)
    ensures
        result@ == ErrorModel::Failed(
            if not_found {
                program@ + " was not found in PATH."@
            } else {
                "Could not start "@ + program@ + ": "@ + reason@
            },
        ),
{
    if not_found {
        let mut message = program.to_owned();
        message.append(" was not found in PATH.");
        return EditError::Failed(message);
    }
    let mut message = "Could not start ".to_owned();
    message.append(program);
    message.append(": ");
    message.append(reason);
    EditError::Failed(message)
}

/// The failure to start the program that writes the media.
pub fn remux_not_started(not_found: bool, reason: &str) -> (result: EditError)
    ensures
        result@ == ErrorModel::Failed(
            if not_found {
                "ffmpeg was not found in PATH. Install FFmpeg to edit media."@
            } else {
                "Could not start ffmpeg: "@ + reason@
            },
        ),
{
    if not_found {
        return EditError::Failed(
            "ffmpeg was not found in PATH. Install FFmpeg to edit media.".to_owned(),
        );
    }
    let mut message = "Could not start ffmpeg: ".to_owned();
    message.append(reason);
    EditError::Failed(message)
}

/// What a look at a running program shows.
#[derive(Clone, Copy, Debug, Eq, PartialEq, Structural)]
pub enum ToolState {
    Running,
    Exited,
    Lost,
}

/// What to do with a running program.
#[derive(Clone, Copy, Debug, Eq, PartialEq, Structural)]
pub enum ToolAction {
    /// Stop it: the edit was cancelled.
    Stop,
    /// Look again after a pause.
    Wait,
    /// Take what it wrote.
    Collect,
    /// Stop it: it cannot be waited for.
    GiveUp,
}

/// Decides what to do with a running program. A cancelled edit stops it, whatever it does.
pub fn poll_tool(cancelled: bool, state: ToolState) -> (result: ToolAction)
    ensures
        result == (if cancelled {
            ToolAction::Stop
        } else {
            match state {
                ToolState::Running => ToolAction::Wait,
                ToolState::Exited => ToolAction::Collect,
                ToolState::Lost => ToolAction::GiveUp,
            }
        }),
{
    if cancelled {
        return ToolAction::Stop;
    }
    match state {
        ToolState::Running => ToolAction::Wait,
        ToolState::Exited => ToolAction::Collect,
        ToolState::Lost => ToolAction::GiveUp,
    }
}

/// The time that a progress line of the remux gives, as it is written.
pub fn progress_time(line: &str) -> (result: Option<&str>)
    ensures
        match result {
            Some(time) => begins_with(line@, "out_time_us="@) && time@ == line@.skip(
                "out_time_us="@.len() as int,
            ),
            None => !begins_with(line@, "out_time_us="@),
        },
{
    strip_prefix(line, "out_time_us=")
}

/// The failure to wait for a program.
pub fn tool_lost(program: &str, reason: &str) -> (result: EditError)
    ensures
        result@ == ErrorModel::Failed("Could not wait for "@ + program@ + ": "@ + reason@),
{
    let mut message = "Could not wait for ".to_owned();
    message.append(program);
    message.append(": ");
    message.append(reason);
    EditError::Failed(message)
}

/// How far the copy of a file has come, in bytes.
#[derive(Clone, Copy, Debug, Eq, PartialEq, Structural)]
pub struct CopyProgress {
    pub copied: u64,
    pub total: u64,
}

/// What to do next in the copy of a file.
#[derive(Clone, Copy, Debug, Eq, PartialEq, Structural)]
pub enum CopyAction {
    /// Stop: the edit was cancelled.
    Interrupt,
    /// Everything is copied.
    Finish,
    /// Write what was read, and say how far the copy has come where that is known.
    Write { progress: CopyProgress, report: bool },
}

impl CopyProgress {
    /// Decides what to do after some bytes were read, of which there are none at the end
    /// of the file. A cancelled edit stops the copy. The size of an empty file is no
    /// measure.
    pub fn next(self, cancelled: bool, read: u64) -> (result: CopyAction)
        ensures
            result == (if cancelled {
                CopyAction::Interrupt
            } else if read == 0 {
                CopyAction::Finish
            } else {
                CopyAction::Write {
                    progress: CopyProgress {
                        copied: (if self.copied + read > u64::MAX {
                            u64::MAX
                        } else {
                            (self.copied + read) as u64
                        }),
                        total: self.total,
                    },
                    report: self.total > 0,
                }
            }),
    {
        if cancelled {
            return CopyAction::Interrupt;
        }
        if read == 0 {
            return CopyAction::Finish;
        }
        let copied: u64 = if read > u64::MAX - self.copied {
            u64::MAX
        } else {
            self.copied + read
        };
        CopyAction::Write {
            progress: CopyProgress { copied, total: self.total },
            report: self.total > 0,
        }
    }
}

/// The failure of a copy: an interrupted one is a cancelled edit.
pub fn copy_edit_error(context: &str, interrupted: bool, reason: &str) -> (result: EditError)
    ensures
        result@ == (if interrupted {
            ErrorModel::Cancelled
        } else {
            ErrorModel::Failed(context@ + ": "@ + reason@)
        }),
{
    if interrupted {
        return EditError::Cancelled;
    }
    let mut message = context.to_owned();
    message.append(": ");
    message.append(reason);
    EditError::Failed(message)
}

} // verus!
