//! The I/O worker with a polling executor.
//!
//! The front end, the tasks and the worker are those of `fs`. What changes is the
//! executor thread: instead of blocking on the result channel, it waits on a
//! readiness event that the worker raises after each result it sends. On that
//! event it drains the result channel without blocking, then re-arms the
//! one-shot registration and waits again.
use vstd::prelude::*;
use crate::channel::Received;
pub use crate::fs::{Fs, Task, TaskResult, WorkerStep, worker_step};

verus! {

/// What the polling executor does with one non-blocking receive while draining.
pub enum DrainStep<F, S> {
    /// Run the open callback with the file, then receive again.
    CallOpen(F),
    /// Run the read callback with the string, then receive again.
    CallRead(String, S),
    /// `Exit` arrived: leave the event loop without error.
    Stop,
    /// Nothing left: re-arm the registration and poll for the next event.
    Rearm,
    /// Every sender is gone: leave the event loop with an error.
    Fail,
}

/// True when the drain goes on receiving after this step.
pub open spec fn keeps_draining<F, S>(step: DrainStep<F, S>) -> bool {
    step is CallOpen || step is CallRead
}

/// What the polling executor does with one non-blocking receive.
pub open spec fn drain_reaction<F, S>(received: Received<TaskResult<F, S>>) -> DrainStep<F, S> {
    match received {
        Received::Message(TaskResult::Exit) => DrainStep::Stop,
        Received::Message(TaskResult::Open(f)) => DrainStep::CallOpen(f),
        Received::Message(TaskResult::ReadToString(v, s)) => DrainStep::CallRead(v, s),
        Received::Empty => DrainStep::Rearm,
        Received::Disconnected => DrainStep::Fail,
    }
}

/// The polling executor's decision on one non-blocking receive.
pub fn drain_step<F, S>(received: Received<TaskResult<F, S>>) -> (step: DrainStep<F, S>)
    ensures
        step == drain_reaction(received),
{
    match received {
        Received::Message(result) => match result {
            TaskResult::Exit => DrainStep::Stop,
            TaskResult::Open(f) => DrainStep::CallOpen(f),
            TaskResult::ReadToString(v, s) => DrainStep::CallRead(v, s),
        },
        Received::Empty => DrainStep::Rearm,
        Received::Disconnected => DrainStep::Fail,
    }
}

/// The `Exit` the worker forwards ends the polling executor without error, and an
/// empty channel always leads back to waiting for the next readiness event.
pub proof fn exit_ends_polling_executor<O, R, F, S>()
    ensures
        drain_reaction(Received::<TaskResult<F, S>>::Message(TaskResult::Exit)) is Stop,
        drain_reaction(Received::<TaskResult<F, S>>::Empty) is Rearm,
        crate::fs::worker_reaction(Some(Task::<O, R>::Exit)) is ForwardExit,
{
}

/// Every callback result the drain receives runs its callback, with exactly what
/// was received, and the drain goes on; only `Exit`, an empty channel and a closed
/// one end it.
pub proof fn every_received_result_runs_its_callback<F, S>(f: F, v: String, s: S)
    ensures
        drain_reaction(Received::Message(TaskResult::<F, S>::Open(f))) == DrainStep::<F, S>::CallOpen(f),
        drain_reaction(Received::Message(TaskResult::<F, S>::ReadToString(v, s)))
            == DrainStep::<F, S>::CallRead(v, s),
        keeps_draining(drain_reaction(Received::Message(TaskResult::<F, S>::Open(f)))),
        keeps_draining(drain_reaction(Received::Message(TaskResult::<F, S>::ReadToString(v, s)))),
        drain_reaction(Received::<TaskResult<F, S>>::Disconnected) is Fail,
{
}

/// True when the drain ends on this receive.
pub open spec fn ends_drain<F, S>(received: Received<TaskResult<F, S>>) -> bool {
    !keeps_draining(drain_reaction(received))
}

/// The steps of one drain for the receives it makes, in order, up to and including
/// the first that ends it (`Exit`, an empty channel, or a closed one).
pub open spec fn drain_run<F, S>(received: Seq<Received<TaskResult<F, S>>>) -> Seq<DrainStep<F, S>>
    decreases received.len(),
{
    if received.len() == 0 {
        Seq::empty()
    } else {
        let before = drain_run(received.drop_last());
        if exists|i: int| 0 <= i < received.len() - 1 && ends_drain(#[trigger] received[i]) {
            before
        } else {
            before.push(drain_reaction(received.last()))
        }
    }
}

proof fn lemma_drain_run_prefix<F, S>(received: Seq<Received<TaskResult<F, S>>>, k: int)
    requires
        0 <= k < received.len(),
        ends_drain(received[k]),
        forall|i: int| 0 <= i < k ==> !ends_drain(#[trigger] received[i]),
    ensures
        drain_run(received) == received.take(k).map_values(
            |r: Received<TaskResult<F, S>>| drain_reaction(r),
        ).push(drain_reaction(received[k])),
    decreases received.len(),
{
    if received.len() > k + 1 {
        let rest = received.drop_last();
        assert(rest.take(k) =~= received.take(k));
        lemma_drain_run_prefix(rest, k);
        assert(rest[k] == received[k]);
    } else {
        lemma_drain_run_no_end(received.take(k));
        assert(received.drop_last() =~= received.take(k));
        assert(received.last() == received[k]);
        assert(received.take(k).map_values(|r: Received<TaskResult<F, S>>| drain_reaction(r))
            == drain_run(received.take(k)));
    }
}

proof fn lemma_drain_run_no_end<F, S>(received: Seq<Received<TaskResult<F, S>>>)
    requires
        forall|i: int| 0 <= i < received.len() ==> !ends_drain(#[trigger] received[i]),
    ensures
        drain_run(received) == received.map_values(
            |r: Received<TaskResult<F, S>>| drain_reaction(r),
        ),
    decreases received.len(),
{
    if received.len() > 0 {
        let rest = received.drop_last();
        assert forall|i: int| 0 <= i < rest.len() implies !ends_drain(#[trigger] rest[i]) by {
            assert(rest[i] == received[i]);
        }
        lemma_drain_run_no_end(rest);
        assert(!(exists|i: int| 0 <= i < received.len() - 1 && ends_drain(#[trigger] received[i])));
        assert(received.map_values(|r: Received<TaskResult<F, S>>| drain_reaction(r))
            =~= rest.map_values(|r: Received<TaskResult<F, S>>| drain_reaction(r)).push(
            drain_reaction(received.last()),
        ));
    } else {
        assert(received.map_values(|r: Received<TaskResult<F, S>>| drain_reaction(r))
            =~= Seq::empty());
    }
}

/// One drain runs the callback of every result it receives once, in order, and ends
/// on the first receive that is not a callback's result: on `Exit` it leaves the
/// event loop, on an empty channel it re-arms, on a closed one it fails; nothing
/// behind that receive is looked at.
pub proof fn drain_runs_callbacks_once_in_order<F, S>(
    received: Seq<Received<TaskResult<F, S>>>,
    k: int,
)
    requires
        0 <= k < received.len(),
        ends_drain(received[k]),
        forall|i: int| 0 <= i < k ==> !ends_drain(#[trigger] received[i]),
    ensures
        drain_run(received).len() == k + 1,
        forall|i: int|
            0 <= i < k ==> #[trigger] drain_run(received)[i] == drain_reaction(received[i])
                && keeps_draining(drain_run(received)[i]),
        drain_run(received)[k] == drain_reaction(received[k]),
        received[k] == Received::<TaskResult<F, S>>::Message(TaskResult::Exit) ==> drain_run(
            received,
        )[k] is Stop,
{
    lemma_drain_run_prefix(received, k);
    let run = drain_run(received);
    assert forall|i: int| 0 <= i < k implies #[trigger] run[i] == drain_reaction(received[i])
        && keeps_draining(run[i]) by {
        assert(received.take(k)[i] == received[i]);
    }
}

} // verus!
