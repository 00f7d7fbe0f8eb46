use novawm::command::{starts_by_default, LogLevel, Verbosity};
use novawm::error::WmError;

#[test]
fn verbosity_picks_the_log_level() {
    assert_eq!(Verbosity { verbose: true, quiet: false }.level(), LogLevel::Debug);
    assert_eq!(Verbosity { verbose: true, quiet: true }.level(), LogLevel::Debug);
    assert_eq!(Verbosity { verbose: false, quiet: true }.level(), LogLevel::Error);
    assert_eq!(Verbosity { verbose: false, quiet: false }.level(), LogLevel::Info);
}

#[test]
fn errors_have_messages() {
    assert_eq!(WmError::NoDropWorkspace.message(), "Couldn't find workspace for window drop.");
    assert_eq!(WmError::NoNearestMonitor.message(), "Failed to get workspace of nearest monitor.");
}

#[test]
fn only_a_bare_program_name_starts_by_default() {
    assert!(starts_by_default(1));
    assert!(!starts_by_default(0));
    assert!(!starts_by_default(2));
}
