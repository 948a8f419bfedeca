use fence_chip::timing::time_operation;
use std::time::Duration;

#[test]
fn time_operation_hands_back_the_result() {
    let (result, duration) = time_operation(|| 6 * 7);
    assert_eq!(result, 42);
    assert!(duration < Duration::from_secs(10));
}

#[test]
fn time_operation_runs_the_operation_once() {
    let mut calls = Vec::new();
    let (result, _) = time_operation(|| {
        calls.push(1);
        String::from("done")
    });
    assert_eq!(result, "done");
    assert_eq!(calls.len(), 1);
}
