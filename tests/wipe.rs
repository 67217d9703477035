use ygramul::wipe::{DeleteOutcome, RetryState, WipeStep, MAX_RETRIES};

#[test]
fn always_succeeding_store_grows_batches_until_empty() {
    let mut state = RetryState::initial();
    let mut sizes = vec![state.batch_size];
    for _ in 0..6 {
        match state.step(DeleteOutcome::Deleted) {
            WipeStep::Continue(next) => {
                assert!(next.batch_size > state.batch_size);
                assert_eq!(next.consecutive_failures, 0);
                state = next;
                sizes.push(state.batch_size);
            }
            other => panic!("unexpected {other:?}"),
        }
    }
    assert_eq!(sizes, vec![1, 2, 3, 4, 5, 6, 7]);
    assert_eq!(state.step(DeleteOutcome::NothingLeft), WipeStep::Done);
}

#[test]
fn growth_is_geometric_for_large_batches() {
    let state = RetryState { batch_size: 100, consecutive_failures: 3 };
    assert_eq!(
        state.step(DeleteOutcome::Deleted),
        WipeStep::Continue(RetryState { batch_size: 111, consecutive_failures: 0 })
    );
}

#[test]
fn always_failing_store_gives_up_at_the_ceiling() {
    let mut state = RetryState { batch_size: 50, consecutive_failures: 0 };
    let mut attempts = 0;
    loop {
        attempts += 1;
        match state.step(DeleteOutcome::Failed) {
            WipeStep::Continue(next) => {
                assert!(next.batch_size < state.batch_size || next.batch_size == 1);
                if state.batch_size == 1 {
                    assert_eq!(next.consecutive_failures, state.consecutive_failures + 1);
                }
                state = next;
            }
            WipeStep::RetryExhausted => break,
            WipeStep::Done => panic!("a failing store never empties"),
        }
        assert!(attempts < 100);
    }
    assert_eq!(state.batch_size, 1);
    assert_eq!(state.consecutive_failures, MAX_RETRIES - 1);
}

#[test]
fn failures_at_batch_one_count_to_exactly_ten() {
    let mut state = RetryState::initial();
    for k in 1..MAX_RETRIES {
        match state.step(DeleteOutcome::Failed) {
            WipeStep::Continue(next) => {
                assert_eq!(next, RetryState { batch_size: 1, consecutive_failures: k });
                state = next;
            }
            other => panic!("stopped early: {other:?}"),
        }
    }
    assert_eq!(state.step(DeleteOutcome::Failed), WipeStep::RetryExhausted);
}

#[test]
fn shrinking_keeps_failure_count() {
    let state = RetryState { batch_size: 20, consecutive_failures: 4 };
    assert_eq!(
        state.step(DeleteOutcome::Failed),
        WipeStep::Continue(RetryState { batch_size: 17, consecutive_failures: 4 })
    );
}
