use tokio_fsm::TaskError;
use tokio_fsm::Transition;

struct TestContext;

#[test]
fn test_transition_to() {
    let t = Transition::to(42);
    assert!(!t.has_error());
    assert_eq!(t.into_state(), 42);
}

#[test]
fn test_transition_to_with_data() {
    let err = "test error".to_string();
    let t = Transition::to_with_data(42, err);
    assert!(t.has_error());
    assert_eq!(t.into_state(), 42);
}

#[test]
fn test_basic() {
    // Just test that it compiles
    let _context = TestContext;
}

#[test]
fn transition_with_data_keeps_message() {
    let t = Transition::to_with_data(7u64, "boom".to_string());
    match t {
        Transition::ToWithData(state, msg) => {
            assert_eq!(state, 7);
            assert_eq!(msg, "boom");
        }
        Transition::To(_) => panic!("expected error data"),
    }
}

#[test]
fn task_error_variants_are_distinct() {
    let fsm: TaskError<String> = TaskError::Fsm("logic".to_string());
    let join: TaskError<String> = TaskError::Join("cancelled".to_string());
    assert!(matches!(fsm, TaskError::Fsm(_)));
    assert!(matches!(join, TaskError::Join(_)));
}
