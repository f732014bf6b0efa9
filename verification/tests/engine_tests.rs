use work_server::engine::{WorkError, WorkQueue};
use work_server::rpc::generating_flag;

fn root(b: u8) -> Vec<u8> {
    vec![b; 32]
}

fn threshold() -> Vec<u8> {
    vec![0xFFu8; 32]
}

#[test]
fn enqueue_promotes_immediately_when_idle() {
    let mut q = WorkQueue::new(1, false);
    let id = q.enqueue(root(1), threshold());
    assert_eq!(id, 0);
    let (queue_size, generating) = q.status();
    assert_eq!(queue_size, 0);
    assert!(generating);
}

#[test]
fn fifo_promotion_follows_enqueue_order() {
    let mut q = WorkQueue::new(1, false);
    let a = q.enqueue(root(1), threshold());
    let b = q.enqueue(root(2), threshold());
    let c = q.enqueue(root(3), threshold());
    assert_eq!((a, b, c), (0, 1, 2));
    // A is active; B and C pending in order.
    let done_a = q.complete(&root(1), &vec![0u8; 8]).unwrap();
    assert_eq!(done_a.sink, a);
    assert_eq!(done_a.outcome.as_ref().unwrap(), &vec![0u8; 8]);
    // B must have been promoted, not C.
    let done_b = q.complete(&root(2), &vec![1u8; 8]).unwrap();
    assert_eq!(done_b.sink, b);
    let done_c = q.complete(&root(3), &vec![2u8; 8]).unwrap();
    assert_eq!(done_c.sink, c);
    let (queue_size, generating) = q.status();
    assert_eq!((queue_size, generating), (0, false));
}

#[test]
fn complete_with_stale_root_is_ignored() {
    let mut q = WorkQueue::new(1, false);
    let _ = q.enqueue(root(1), threshold());
    assert!(q.complete(&root(9), &vec![0u8; 8]).is_none());
    let (_, generating) = q.status();
    assert!(generating);
}

#[test]
fn cancel_pending_leaves_others_running() {
    let mut q = WorkQueue::new(1, false);
    let _a = q.enqueue(root(1), threshold());
    let b = q.enqueue(root(2), threshold());
    let _c = q.enqueue(root(3), threshold());
    let completions = q.cancel_work(&root(2));
    assert_eq!(completions.len(), 1);
    assert_eq!(completions[0].sink, b);
    assert_eq!(*completions[0].outcome.as_ref().unwrap_err(), WorkError::Canceled);
    // A still active, C still pending.
    let (queue_size, generating) = q.status();
    assert_eq!((queue_size, generating), (1, true));
}

#[test]
fn cancel_active_promotes_next_and_is_idempotent() {
    let mut q = WorkQueue::new(1, false);
    let a = q.enqueue(root(1), threshold());
    let completions = q.cancel_work(&root(1));
    assert_eq!(completions.len(), 1);
    assert_eq!(completions[0].sink, a);
    assert_eq!(*completions[0].outcome.as_ref().unwrap_err(), WorkError::Canceled);
    let (queue_size, generating) = q.status();
    assert_eq!((queue_size, generating), (0, false));
    assert_eq!(generating_flag(generating), "0");
    // Cancelling again changes nothing and signals nobody.
    let again = q.cancel_work(&root(1));
    assert!(again.is_empty());
    let (queue_size, generating) = q.status();
    assert_eq!((queue_size, generating), (0, false));
}

#[test]
fn cancel_hits_pending_and_active_with_same_root() {
    let mut q = WorkQueue::new(1, false);
    let a = q.enqueue(root(1), threshold());
    let b = q.enqueue(root(1), threshold());
    let c = q.enqueue(root(2), threshold());
    let completions = q.cancel_work(&root(1));
    // Both requests with root 1: one pending, one active.
    assert_eq!(completions.len(), 2);
    let mut sinks: Vec<u64> = completions.iter().map(|x| x.sink).collect();
    sinks.sort();
    assert_eq!(sinks, vec![a, b]);
    assert!(completions.iter().all(|x| x.outcome.as_ref().unwrap_err() == &WorkError::Canceled));
    // The unrelated request was promoted.
    let done = q.complete(&root(2), &vec![0u8; 8]).unwrap();
    assert_eq!(done.sink, c);
}

#[test]
fn sinks_are_minted_exactly_once() {
    let mut q = WorkQueue::new(1, false);
    let a = q.enqueue(root(1), threshold());
    let completions = q.cancel_work(&root(1));
    assert_eq!(completions.len(), 1);
    // A later request never reuses the signalled identifier.
    let b = q.enqueue(root(1), threshold());
    assert!(b != a);
    let completions = q.cancel_work(&root(1));
    assert_eq!(completions.len(), 1);
    assert_eq!(completions[0].sink, b);
}

#[test]
fn all_workers_failing_errors_the_job() {
    let mut q = WorkQueue::new(2, false);
    let a = q.enqueue(root(1), threshold());
    let b = q.enqueue(root(2), threshold());
    assert!(q.report_failure(&root(1)).is_none());
    // A stale root does not count toward the failure tally.
    assert!(q.report_failure(&root(9)).is_none());
    let errored = q.report_failure(&root(1)).unwrap();
    assert_eq!(errored.sink, a);
    assert_eq!(*errored.outcome.as_ref().unwrap_err(), WorkError::Errored);
    // The next request was promoted and starts with a clean tally.
    assert!(q.report_failure(&root(2)).is_none());
    let errored_b = q.report_failure(&root(2)).unwrap();
    assert_eq!(errored_b.sink, b);
}

#[test]
fn status_with_one_pending_and_one_active() {
    let mut q = WorkQueue::new(1, false);
    let _ = q.enqueue(root(1), threshold());
    let _ = q.enqueue(root(2), threshold());
    let (queue_size, generating) = q.status();
    assert_eq!(queue_size, 1);
    assert!(generating);
    assert_eq!(generating_flag(generating), "1");
}

#[test]
fn random_mode_still_promotes_exactly_one() {
    let mut q = WorkQueue::new(1, true);
    let _ = q.enqueue(root(1), threshold());
    let _ = q.enqueue(root(2), threshold());
    let _ = q.enqueue(root(3), threshold());
    let (queue_size, generating) = q.status();
    assert_eq!((queue_size, generating), (2, true));
    // Whichever job is active can be cancelled through its root.
    let task = q.current_task().unwrap();
    let completions = q.cancel_work(&task.0);
    assert_eq!(completions.len(), 1);
    let (queue_size, generating) = q.status();
    assert_eq!((queue_size, generating), (1, true));
}
