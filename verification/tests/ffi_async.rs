use diskann_provider::ffi_async::{AddToBillionState, ContextHandle, PollStep, SpinState};
use std::sync::atomic::{AtomicUsize, Ordering};
use std::sync::Arc;
use std::task::{Wake, Waker};

struct CountingWaker(AtomicUsize);

impl Wake for CountingWaker {
    fn wake(self: Arc<Self>) {
        self.0.fetch_add(1, Ordering::SeqCst);
    }
    fn wake_by_ref(self: &Arc<Self>) {
        self.0.fetch_add(1, Ordering::SeqCst);
    }
}

#[test]
fn handle_without_waker_wakes_nothing() {
    let handle = ContextHandle::default();
    assert!(handle.waker.is_none());
    handle.wake_task();
}

#[test]
fn handle_wakes_its_waker() {
    let counter = Arc::new(CountingWaker(AtomicUsize::new(0)));
    let mut handle = ContextHandle::default();
    handle.set_waker(Waker::from(counter.clone()));
    assert!(handle.waker.is_some());
    handle.wake_task();
    assert_eq!(counter.0.load(Ordering::SeqCst), 1);
    handle.wake_task();
    assert_eq!(counter.0.load(Ordering::SeqCst), 2);
}

#[test]
fn set_waker_replaces_the_waker() {
    let first = Arc::new(CountingWaker(AtomicUsize::new(0)));
    let second = Arc::new(CountingWaker(AtomicUsize::new(0)));
    let mut handle = ContextHandle::default();
    handle.set_waker(Waker::from(first.clone()));
    handle.set_waker(Waker::from(second.clone()));
    handle.wake_task();
    assert_eq!(first.0.load(Ordering::SeqCst), 0);
    assert_eq!(second.0.load(Ordering::SeqCst), 1);
}

#[test]
fn spin_future_starts_then_completes() {
    let mut state = SpinState { is_done: false };
    assert_eq!(state.poll_step(), PollStep::Start);
    assert!(state.is_done);
    assert_eq!(state.poll_step(), PollStep::Ready(()));
    assert_eq!(state.poll_step(), PollStep::Ready(()));
}

#[test]
fn add_to_billion_completes_with_the_sum() {
    let mut state = AddToBillionState::default();
    assert_eq!(state.sum, 0);
    assert!(!state.is_done);
    assert_eq!(state.poll_step(), PollStep::Start);
    // the foreign code writes the sum of 0..1_000_000_000 before calling back
    state.sum = (1_000_000_000u64 / 2) * 999_999_999u64;
    assert_eq!(state.poll_step(), PollStep::Ready((1_000_000_000u64 / 2) * 999_999_999u64));
    assert_eq!(state.poll_step(), PollStep::Ready(499_999_999_500_000_000));
}
