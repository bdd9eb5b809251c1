//! The gateway handler's own decisions: which messages in the command
//! channel are removed, and the exit code the process ends with.

use vstd::prelude::*;

verus! {

/// Whether a message is one the command channel moderates: it was posted
/// there by a person (not a bot, not a webhook) and is not a slash command.
/// A moderated message is deleted unless its author is an administrator.
pub fn moderates_message(
    command_channel: Option<u64>,
    channel_id: u64,
    from_bot: bool,
    from_webhook: bool,
    is_command: bool,
) -> (b: bool)
    ensures
        b == (command_channel == Some(channel_id) && !from_bot && !from_webhook && !is_command),
{
    match command_channel {
        Some(c) => c == channel_id && !from_bot && !from_webhook && !is_command,
        None => false,
    }
}

/// Why the bot stopped.
#[derive(Debug, Clone, Copy, PartialEq, Eq)]
pub enum ShutdownReason {
    /// Ctrl-C arrived.
    Signal,
    /// Listening for Ctrl-C failed.
    SignalFailed,
    /// The Discord client stopped on its own.
    ClientFinished,
}

/// How the Discord client's task ended.
#[derive(Debug, Clone, Copy, PartialEq, Eq)]
pub enum ClientOutcome {
    /// It returned without error.
    Clean,
    /// It returned an error.
    Failed,
    /// The task could not be joined.
    JoinFailed,
}

/// The exit status after stopping for `reason`.
pub open spec fn exit_status(reason: ShutdownReason) -> int {
    if reason == ShutdownReason::Signal {
        130
    } else {
        1
    }
}

/// The process exit code: 130 after Ctrl-C, 1 otherwise; a client or
/// archive task that ended badly after Ctrl-C raises it to at least 1.
pub fn exit_code(reason: ShutdownReason, client: ClientOutcome, archive_joined: bool) -> (code: i32)
    ensures
        code == exit_status(reason),
{
    let mut code: i32 = match reason {
        ShutdownReason::Signal => 130,
        ShutdownReason::SignalFailed => 1,
        ShutdownReason::ClientFinished => 1,
    };
    if reason != ShutdownReason::ClientFinished {
        match client {
            ClientOutcome::Clean => {},
            ClientOutcome::Failed | ClientOutcome::JoinFailed => {
                if code < 1 {
                    code = 1;
                }
            },
        }
    }
    if !archive_joined && code < 1 {
        code = 1;
    }
    code
}

/// The bot never exits with success: it runs until stopped, and every way
/// of stopping is reported as a failure or as an interruption.
pub proof fn law_exit_code_never_success(reason: ShutdownReason)
    ensures
        exit_status(reason) != 0,
        exit_status(reason) == 130 <==> reason == ShutdownReason::Signal,
{
}

} // verus!
