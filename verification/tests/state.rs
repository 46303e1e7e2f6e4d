use shellcore::eval::ExecutionError;
use shellcore::state::{ShellError, ShellState};
use shellcore::tokenizer::TokenizationError;

#[test]
fn new_session_is_running_with_status_zero() {
    let state = ShellState::new("config".to_string());
    assert_eq!(state.status, 0);
    assert!(state.running);
    assert_eq!(state.config, "config");
    assert!(state.stdout.is_empty());
    assert!(state.stderr.is_empty());
}

#[test]
fn execution_error_keeps_status_and_message() {
    let err = ExecutionError::new(127, "ls: command not found".to_string());
    assert_eq!(err.status, 127);
    assert_eq!(err.details, "ls: command not found");
}

#[test]
fn shell_error_wraps_an_execution_error() {
    let err = ExecutionError::new(1, "invalid syntax".to_string());
    assert_eq!(ShellError::from(err.clone()), ShellError::Execution(err));
}

#[test]
fn shell_error_wraps_a_tokenization_error() {
    assert_eq!(
        ShellError::from(TokenizationError::UnterminatedQuote),
        ShellError::Tokenization(TokenizationError::UnterminatedQuote)
    );
}
