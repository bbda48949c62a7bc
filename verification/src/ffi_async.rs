//! The Rust side of futures whose work is done by foreign code that calls
//! back when it is finished: the handle that holds the waker to call, and the
//! poll decisions of the futures.
use vstd::prelude::*;

verus! {

#[verifier::external_type_specification]
#[verifier::external_body]
pub struct ExWaker(std::task::Waker);

/// Calls `std::task::Waker::wake_by_ref`: it asks the executor to poll the
/// task again. Nothing of the library's state changes, so nothing is stated.
#[verifier::external_body]
fn wake_by_ref(waker: &std::task::Waker) {
    waker.wake_by_ref();
}

/// Holds the waker of the task that waits on foreign work.
pub struct ContextHandle {
    pub waker: Option<std::task::Waker>,
}

impl Default for ContextHandle {
    fn default() -> (h: Self)
        ensures
            h.waker is None,
    {
        ContextHandle { waker: None }
    }
}

impl ContextHandle {
    /// Remembers `waker` as the one to wake.
    pub fn set_waker(&mut self, waker: std::task::Waker)
        ensures
            final(self).waker == Some(waker),
    {
        self.waker = Some(waker);
    }

    /// Wakes the remembered waker, if there is one.
    pub fn wake_task(&self) {
        if let Some(waker) = &self.waker {
            wake_by_ref(waker);
        }
    }
}

/// What a poll of a callback-driven future does.
#[derive(Debug, PartialEq, Eq, Structural)]
pub enum PollStep<T> {
    /// The foreign work has finished: the future completes with this value.
    Ready(T),
    /// Register the waker, start the foreign work, and report `Pending`.
    Start,
}

/// State of a future that waits for foreign code to spin and call back.
#[derive(Debug, Clone, Copy)]
pub struct SpinState {
    pub is_done: bool,
}

impl SpinState {
    pub open spec fn step(self) -> PollStep<()> {
        if self.is_done {
            PollStep::Ready(())
        } else {
            PollStep::Start
        }
    }

    pub open spec fn after(self) -> SpinState {
        SpinState { is_done: true }
    }

    /// Decides one poll and moves to the next state.
    pub fn poll_step(&mut self) -> (step: PollStep<()>)
        ensures
            step == old(self).step(),
            *final(self) == old(self).after(),
    {
        if self.is_done {
            PollStep::Ready(())
        } else {
            self.is_done = true;
            PollStep::Start
        }
    }
}

/// State of a future that lets foreign code add up numbers into `sum` and
/// call back.
#[derive(Debug, Clone, Copy)]
pub struct AddToBillionState {
    pub sum: u64,
    pub is_done: bool,
}

impl Default for AddToBillionState {
    fn default() -> (s: Self)
        ensures
            s.sum == 0,
            !s.is_done,
    {
        AddToBillionState { sum: 0, is_done: false }
    }
}

impl AddToBillionState {
    pub open spec fn step(self) -> PollStep<u64> {
        if self.is_done {
            PollStep::Ready(self.sum)
        } else {
            PollStep::Start
        }
    }

    pub open spec fn after(self) -> AddToBillionState {
        AddToBillionState { sum: self.sum, is_done: true }
    }

    /// Decides one poll and moves to the next state.
    pub fn poll_step(&mut self) -> (step: PollStep<u64>)
        ensures
            step == old(self).step(),
            *final(self) == old(self).after(),
    {
        if self.is_done {
            PollStep::Ready(self.sum)
        } else {
            self.is_done = true;
            PollStep::Start
        }
    }
}

/// A future that has started its foreign work completes at its next poll,
/// and a completed one stays completed.
pub proof fn lemma_spin_completes_after_start(s: SpinState)
    ensures
        s.after().step() == PollStep::Ready(()),
        s.after().after() == s.after(),
{
}

/// After the foreign work has started, the next poll completes with the sum
/// as it then stands, and every later poll gives it again.
pub proof fn lemma_add_completes_after_start(s: AddToBillionState, sum_after_work: u64)
    ensures
        (AddToBillionState { sum: sum_after_work, ..s.after() }).step() == PollStep::Ready(sum_after_work),
        (AddToBillionState { sum: sum_after_work, ..s.after() }).after()
            == (AddToBillionState { sum: sum_after_work, ..s.after() }),
{
}

} // verus!
