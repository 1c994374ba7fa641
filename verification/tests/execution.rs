use neoclr::execution::{cancellation_outcome, CancellationToken, ExecutionOptions, Limits};

fn limits() -> Limits {
    Limits { array_elements: 16, array_bytes: 64 }
}

#[test]
fn a_clear_flag_lets_execution_continue() {
    assert!(cancellation_outcome(false, "Main", 3).is_ok());
}

#[test]
fn a_set_flag_gives_a_located_fault() {
    let f = cancellation_outcome(true, "Main", 3).unwrap_err();
    assert_eq!(f.message, "execution cancelled");
    assert_eq!(f.function, Some("Main".to_string()));
    assert_eq!(f.instruction, Some(3));
}

#[test]
fn options_without_a_token_never_cancel() {
    let o = ExecutionOptions::from_limits(limits());
    assert!(o.check_cancellation("Main", 0).is_ok());
}

#[test]
fn cancelling_a_clone_cancels_every_handle() {
    let token = CancellationToken::new();
    assert!(!token.is_cancelled());
    let other = token.clone();
    other.cancel();
    assert!(token.is_cancelled());
    let o = ExecutionOptions { limits: limits(), cancellation: Some(token) };
    let f = o.check_cancellation("Work", 7).unwrap_err();
    assert_eq!(f.message, "execution cancelled");
    assert_eq!(f.instruction, Some(7));
}
