use gpui_play::async_tasks::{heavy_computation, AsyncDemo, TaskStatus};

// -- Pure state tests --

#[test]
fn test_async_demo_initial_state() {
    let demo = AsyncDemo::new();
    assert_eq!(demo.status(), &TaskStatus::Idle);
    assert!(demo.result().is_none());
}

#[test]
fn test_start_sets_running() {
    let mut demo = AsyncDemo::new();
    demo.start();
    assert_eq!(demo.status(), &TaskStatus::Running);
}

#[test]
fn test_complete_sets_result() {
    let mut demo = AsyncDemo::new();
    demo.start();
    demo.complete("done".to_string());
    assert_eq!(demo.status(), &TaskStatus::Complete);
    assert_eq!(demo.result(), Some("done"));
}

#[test]
fn test_cancel_sets_cancelled() {
    let mut demo = AsyncDemo::new();
    demo.start();
    demo.cancel();
    assert_eq!(demo.status(), &TaskStatus::Cancelled);
    assert!(demo.result().is_none());
}

#[test]
fn test_heavy_computation_returns_result() {
    let result = heavy_computation(42);
    assert!(!result.is_empty());
    assert!(result.contains("42"));
}

#[test]
fn test_heavy_computation_exact_text() {
    assert_eq!(heavy_computation(42), "computed result for 42");
    assert_eq!(heavy_computation(7), "computed result for 7");
    assert_eq!(heavy_computation(0), "computed result for 0");
    assert_eq!(heavy_computation(-15), "computed result for -15");
    assert_eq!(heavy_computation(i32::MIN), "computed result for -2147483648");
    assert_eq!(heavy_computation(i32::MAX), "computed result for 2147483647");
}

#[test]
fn test_complete_after_cancel_keeps_latest_result() {
    let mut demo = AsyncDemo::new();
    demo.complete("first".to_string());
    demo.cancel();
    assert_eq!(demo.status(), &TaskStatus::Cancelled);
    assert_eq!(demo.result(), Some("first"));
    demo.complete("second".to_string());
    assert_eq!(demo.result(), Some("second"));
}
