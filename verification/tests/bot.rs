use kyodoku::bot::{exit_code, moderates_message, ClientOutcome, ShutdownReason};

#[test]
fn only_plain_messages_in_the_command_channel_are_moderated() {
    assert!(moderates_message(Some(5), 5, false, false, false));
    assert!(!moderates_message(Some(5), 6, false, false, false));
    assert!(!moderates_message(None, 5, false, false, false));
    assert!(!moderates_message(Some(5), 5, true, false, false));
    assert!(!moderates_message(Some(5), 5, false, true, false));
    assert!(!moderates_message(Some(5), 5, false, false, true));
}

#[test]
fn exit_codes() {
    assert_eq!(exit_code(ShutdownReason::Signal, ClientOutcome::Clean, true), 130);
    assert_eq!(exit_code(ShutdownReason::Signal, ClientOutcome::Failed, false), 130);
    assert_eq!(exit_code(ShutdownReason::SignalFailed, ClientOutcome::Clean, true), 1);
    assert_eq!(exit_code(ShutdownReason::ClientFinished, ClientOutcome::Clean, true), 1);
    assert_eq!(exit_code(ShutdownReason::ClientFinished, ClientOutcome::JoinFailed, false), 1);
}
