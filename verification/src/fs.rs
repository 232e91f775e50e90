//! Asynchronous file-system tasks run by an I/O worker thread.
//!
//! `Fs` is the front end: it queues tasks into the worker's channel. The worker
//! takes the tasks one by one and does the blocking work (printing, opening a
//! file, reading it); for each task that has a callback it sends a result to the
//! executor thread, which runs the callback. `close` queues `Exit`: the worker
//! forwards it and stops, and the executor stops when it sees it.
//!
//! Callbacks and files cannot be seen by the verifier; they travel as payloads:
//! `O` is what an `Open` task carries (its callback), `R` what a `ReadToString`
//! task carries (the file and its callback), and likewise `F` and `S` for the
//! results. Threads and the blocking work are done by the caller; this module
//! queues the tasks and decides, at each step of either thread, what comes next.
use vstd::prelude::*;
use crate::channel::Outbox;

verus! {

/// A task for the I/O worker.
pub enum Task<O, R> {
    /// Forward `Exit` to the executor and stop.
    Exit,
    /// Print the line.
    Println(String),
    /// Open the file at the path, then hand it to the payload's callback.
    Open(String, O),
    /// Read the payload's file to a string, then hand it to the payload's callback.
    ReadToString(R),
}

/// A result for the executor thread.
pub enum TaskResult<F, S> {
    /// Stop.
    Exit,
    /// An opened file with its callback.
    Open(F),
    /// A file's contents with its callback.
    ReadToString(String, S),
}

/// What the I/O worker does with what it received.
pub enum WorkerStep<O, R> {
    /// Print the line, then take the next task.
    Print(String),
    /// Open the file at the path, send the result, take the next task.
    Open(String, O),
    /// Read the file to a string, send the result, take the next task.
    Read(R),
    /// Send `TaskResult::Exit`, then stop.
    ForwardExit,
    /// The task channel is closed: stop.
    Stop,
}

/// What the executor thread does with what it received.
pub enum ExecutorStep<F, S> {
    /// Run the open callback with the file.
    CallOpen(F),
    /// Run the read callback with the string.
    CallRead(String, S),
    /// `Exit` arrived: stop without error.
    Stop,
    /// The result channel is closed: stop with an error.
    Fail,
}

/// The front end of the I/O worker: a sender into its task channel.
#[verifier::reject_recursive_types(O)]
#[verifier::reject_recursive_types(R)]
pub struct Fs<O, R> {
    tasks: Outbox<Task<O, R>>,
}

/// True when the worker ends after this step.
pub open spec fn ends_worker<O, R>(step: WorkerStep<O, R>) -> bool {
    step is ForwardExit || step is Stop
}

/// True when the executor thread ends after this step.
pub open spec fn ends_executor<F, S>(step: ExecutorStep<F, S>) -> bool {
    step is Stop || step is Fail
}

impl<O, R> Clone for Fs<O, R> {
    /// Another front end for the same worker, that has queued nothing yet.
    fn clone(&self) -> (fs: Self)
        ensures
            fs.queued() == Seq::<Task<O, R>>::empty(),
    {
        Fs { tasks: self.tasks.clone_handle() }
    }
}

impl<O, R> Fs<O, R> {
    /// The tasks the worker's channel accepted from this front end, in order.
    pub closed spec fn queued(&self) -> Seq<Task<O, R>> {
        self.tasks.accepted()
    }

    /// Every task this front end handed to the worker's channel, in order, with
    /// whether the channel accepted it.
    pub closed spec fn handed(&self) -> Seq<(Task<O, R>, bool)> {
        self.tasks.attempts()
    }

    /// The front end that queues into `task_sender`, with nothing queued yet.
    pub fn from_sender(task_sender: crossbeam_channel::Sender<Task<O, R>>) -> (fs: Self)
        ensures
            fs.queued() == Seq::<Task<O, R>>::empty(),
    {
        Fs { tasks: Outbox::from_sender(task_sender) }
    }

    /// Queues a line to print. On `Ok` the line is queued behind the earlier tasks;
    /// when the worker is gone the task comes back in `Err` and nothing is queued.
    pub fn println(&mut self, string: String) -> (r: Result<(), Task<O, R>>)
        ensures
            r is Ok ==> final(self).queued() == old(self).queued().push(Task::Println(string)),
            r matches Err(t) ==> t == Task::<O, R>::Println(string) && final(self).queued()
                == old(self).queued(),
            handed_to_channel(*old(self), *final(self), Task::Println(string), r),
    {
        self.tasks.send(Task::Println(string))
    }

    /// Queues the opening of the file at `path`; `payload` carries the callback
    /// that gets the file. On `Ok` the task is queued behind the earlier tasks; when
    /// the worker is gone the task comes back in `Err` and nothing is queued.
    pub fn open(&mut self, path: &str, payload: O) -> (r: Result<(), Task<O, R>>)
        ensures
            r is Ok ==> {
                &&& final(self).queued().len() == old(self).queued().len() + 1
                &&& final(self).queued().drop_last() == old(self).queued()
                &&& final(self).queued().last() matches Task::Open(p, o) && p@ == path@ && o
                    == payload
            },
            r matches Err(t) ==> t matches Task::Open(p, o) && p@ == path@ && o == payload
                && final(self).queued() == old(self).queued(),
            exists|p: String|
                p@ == path@ && #[trigger] handed_to_channel(
                    *old(self),
                    *final(self),
                    Task::Open(p, payload),
                    r,
                ),
    {
        let path_string = path.to_owned();
        let ghost p = path_string;
        let r = self.tasks.send(Task::Open(path_string, payload));
        assert(handed_to_channel(*old(self), *self, Task::Open(p, payload), r));
        r
    }

    /// Queues the reading of a file to a string; `payload` carries the file and
    /// the callback that gets the string. On `Ok` the task is queued behind the
    /// earlier tasks; when the worker is gone the task comes back in `Err` and
    /// nothing is queued.
    pub fn read_to_string(&mut self, payload: R) -> (r: Result<(), Task<O, R>>)
        ensures
            r is Ok ==> final(self).queued() == old(self).queued().push(Task::ReadToString(payload)),
            r matches Err(t) ==> t == Task::<O, R>::ReadToString(payload) && final(self).queued()
                == old(self).queued(),
            handed_to_channel(*old(self), *final(self), Task::ReadToString(payload), r),
    {
        self.tasks.send(Task::ReadToString(payload))
    }

    /// Queues `Exit`: the worker forwards it to the executor and both stop. On
    /// `Ok` it is queued behind the earlier tasks; when the worker is gone the task
    /// comes back in `Err` and nothing is queued.
    pub fn close(&mut self) -> (r: Result<(), Task<O, R>>)
        ensures
            r is Ok ==> final(self).queued() == old(self).queued().push(Task::Exit),
            r matches Err(t) ==> t == Task::<O, R>::Exit && final(self).queued() == old(
                self,
            ).queued(),
            handed_to_channel(*old(self), *final(self), Task::Exit, r),
    {
        self.tasks.send(Task::Exit)
    }
}

/// The front end went from `before` to `after` by handing `task` to the worker's
/// channel once, and `r` is the channel's answer: `Ok` when it accepted the task,
/// which is then queued behind the earlier ones, and `Err` with the task back when
/// it refused it.
pub open spec fn handed_to_channel<O, R>(
    before: Fs<O, R>,
    after: Fs<O, R>,
    task: Task<O, R>,
    r: Result<(), Task<O, R>>,
) -> bool {
    &&& after.handed() == before.handed().push((task, r is Ok))
    &&& r is Ok ==> after.queued() == before.queued().push(task)
    &&& r matches Err(t) ==> t == task && after.queued() == before.queued()
}

/// A front end's answer is the channel's: a task is handed to the channel on every
/// call, whatever it holds, and the call fails only when the channel refused that
/// task; when the channel accepts it, it is queued last.
pub proof fn a_call_fails_only_when_the_channel_refuses<O, R>(
    before: Fs<O, R>,
    after: Fs<O, R>,
    task: Task<O, R>,
    r: Result<(), Task<O, R>>,
)
    requires
        handed_to_channel(before, after, task, r),
    ensures
        after.handed().len() == before.handed().len() + 1,
        after.handed().last().0 == task,
        r is Err <==> !after.handed().last().1,
        after.handed().last().1 ==> after.queued().last() == task,
{
}

/// What the I/O worker does with what it received: `None` when the task channel
/// is closed.
pub open spec fn worker_reaction<O, R>(received: Option<Task<O, R>>) -> WorkerStep<O, R> {
    match received {
        None => WorkerStep::Stop,
        Some(Task::Exit) => WorkerStep::ForwardExit,
        Some(Task::Println(s)) => WorkerStep::Print(s),
        Some(Task::Open(p, o)) => WorkerStep::Open(p, o),
        Some(Task::ReadToString(r)) => WorkerStep::Read(r),
    }
}

/// The I/O worker's decision on what it received: `None` when the task channel
/// is closed.
pub fn worker_step<O, R>(received: Option<Task<O, R>>) -> (step: WorkerStep<O, R>)
    ensures
        step == worker_reaction(received),
{
    match received {
        None => WorkerStep::Stop,
        Some(task) => match task {
            Task::Exit => WorkerStep::ForwardExit,
            Task::Println(s) => WorkerStep::Print(s),
            Task::Open(p, o) => WorkerStep::Open(p, o),
            Task::ReadToString(r) => WorkerStep::Read(r),
        },
    }
}

/// What the executor thread does with what it received: `None` when the result
/// channel is closed.
pub open spec fn executor_reaction<F, S>(received: Option<TaskResult<F, S>>) -> ExecutorStep<F, S> {
    match received {
        None => ExecutorStep::Fail,
        Some(TaskResult::Exit) => ExecutorStep::Stop,
        Some(TaskResult::Open(f)) => ExecutorStep::CallOpen(f),
        Some(TaskResult::ReadToString(v, s)) => ExecutorStep::CallRead(v, s),
    }
}

/// The executor thread's decision on what it received: `None` when the result
/// channel is closed.
pub fn executor_step<F, S>(received: Option<TaskResult<F, S>>) -> (step: ExecutorStep<F, S>)
    ensures
        step == executor_reaction(received),
{
    match received {
        None => ExecutorStep::Fail,
        Some(result) => match result {
            TaskResult::Exit => ExecutorStep::Stop,
            TaskResult::Open(f) => ExecutorStep::CallOpen(f),
            TaskResult::ReadToString(v, s) => ExecutorStep::CallRead(v, s),
        },
    }
}

/// The steps the I/O worker takes for the tasks it receives, in order, up to and
/// including the first `Exit`.
pub open spec fn worker_run<O, R>(tasks: Seq<Task<O, R>>) -> Seq<WorkerStep<O, R>>
    decreases tasks.len(),
{
    if tasks.len() == 0 {
        Seq::empty()
    } else {
        let before = worker_run(tasks.drop_last());
        if tasks.drop_last().contains(Task::Exit) {
            before
        } else {
            before.push(worker_reaction(Some(tasks.last())))
        }
    }
}

/// `Exit` ends both threads cleanly: the worker forwards it and stops, and the
/// executor thread stops without error when it gets it; no other task ends the worker.
pub proof fn exit_ends_both_threads<O, R, F, S>(task: Task<O, R>, result: TaskResult<F, S>)
    ensures
        worker_reaction(Some(Task::<O, R>::Exit)) is ForwardExit,
        executor_reaction(Some(TaskResult::<F, S>::Exit)) is Stop,
        ends_worker(worker_reaction(Some(task))) <==> task is Exit,
        ends_executor(executor_reaction(Some(result))) <==> result is Exit,
{
}

/// The worker carries out every task it receives as it was queued: a line is
/// printed as it is, a file is opened at exactly the queued path with its payload,
/// a read gets exactly its payload, and none of these stops the worker.
pub proof fn every_task_is_carried_out<O, R>(line: String, path: String, o: O, r: R)
    ensures
        worker_reaction(Some(Task::<O, R>::Println(line))) == WorkerStep::<O, R>::Print(line),
        worker_reaction(Some(Task::<O, R>::Open(path, o))) == WorkerStep::<O, R>::Open(path, o),
        worker_reaction(Some(Task::<O, R>::ReadToString(r))) == WorkerStep::<O, R>::Read(r),
        worker_reaction(None::<Task<O, R>>) is Stop,
{
}

/// The blocking executor runs the callback of every result it receives, with
/// exactly what was received, and goes on; a closed result channel makes it fail.
pub proof fn every_result_runs_its_callback<F, S>(f: F, v: String, s: S)
    ensures
        executor_reaction(Some(TaskResult::<F, S>::Open(f))) == ExecutorStep::<F, S>::CallOpen(f),
        executor_reaction(Some(TaskResult::<F, S>::ReadToString(v, s)))
            == ExecutorStep::<F, S>::CallRead(v, s),
        executor_reaction(None::<TaskResult<F, S>>) is Fail,
{
}

/// A task queued after `close` is never carried out: the worker's steps end with
/// the forwarded `Exit`, whatever was queued behind it.
pub proof fn nothing_runs_after_exit<O, R>(tasks: Seq<Task<O, R>>, k: int)
    requires
        0 <= k < tasks.len(),
        tasks[k] is Exit,
        !tasks.take(k).contains(Task::Exit),
    ensures
        worker_run(tasks) == worker_run(tasks.take(k + 1)),
        worker_run(tasks).len() == k + 1,
        worker_run(tasks).last() is ForwardExit,
    decreases tasks.len(),
{
    if tasks.len() > k + 1 {
        let rest = tasks.drop_last();
        assert(rest.take(k) =~= tasks.take(k));
        assert(rest.take(k + 1) =~= tasks.take(k + 1));
        nothing_runs_after_exit(rest, k);
        assert(rest[k] == Task::<O, R>::Exit);
        assert(rest.contains(Task::Exit));
    } else {
        assert(tasks.take(k + 1) =~= tasks);
        lemma_worker_run_without_exit(tasks.take(k));
        assert(tasks.drop_last() =~= tasks.take(k));
        assert(tasks[k] == Task::<O, R>::Exit);
    }
}

/// Without `Exit`, the worker takes one step per task: the step of that task.
proof fn lemma_worker_run_without_exit<O, R>(tasks: Seq<Task<O, R>>)
    requires
        !tasks.contains(Task::Exit),
    ensures
        worker_run(tasks) == tasks.map_values(|t: Task<O, R>| worker_reaction(Some(t))),
        worker_run(tasks).len() == tasks.len(),
    decreases tasks.len(),
{
    if tasks.len() > 0 {
        let rest = tasks.drop_last();
        assert(!rest.contains(Task::Exit)) by {
            if rest.contains(Task::Exit) {
                let i = choose|i: int| 0 <= i < rest.len() && rest[i] == Task::<O, R>::Exit;
                assert(tasks[i] == Task::<O, R>::Exit);
            }
        }
        lemma_worker_run_without_exit(rest);
        assert(tasks.map_values(|t: Task<O, R>| worker_reaction(Some(t))) =~= rest.map_values(
            |t: Task<O, R>| worker_reaction(Some(t)),
        ).push(worker_reaction(Some(tasks.last()))));
    } else {
        assert(tasks.map_values(|t: Task<O, R>| worker_reaction(Some(t))) =~= Seq::empty());
    }
}

/// The lines of the `Println` tasks among `tasks`, in order.
pub open spec fn queued_lines<O, R>(tasks: Seq<Task<O, R>>) -> Seq<String>
    decreases tasks.len(),
{
    if tasks.len() == 0 {
        Seq::empty()
    } else {
        match tasks.last() {
            Task::Println(line) => queued_lines(tasks.drop_last()).push(line),
            _ => queued_lines(tasks.drop_last()),
        }
    }
}

/// The lines the worker prints along `steps`, in order.
pub open spec fn printed_lines<O, R>(steps: Seq<WorkerStep<O, R>>) -> Seq<String>
    decreases steps.len(),
{
    if steps.len() == 0 {
        Seq::empty()
    } else {
        match steps.last() {
            WorkerStep::Print(line) => printed_lines(steps.drop_last()).push(line),
            _ => printed_lines(steps.drop_last()),
        }
    }
}

proof fn lemma_printed_lines_of_reactions<O, R>(tasks: Seq<Task<O, R>>)
    ensures
        printed_lines(tasks.map_values(|t: Task<O, R>| worker_reaction(Some(t)))) == queued_lines(
            tasks,
        ),
    decreases tasks.len(),
{
    let steps = tasks.map_values(|t: Task<O, R>| worker_reaction(Some(t)));
    if tasks.len() > 0 {
        let rest = tasks.drop_last();
        lemma_printed_lines_of_reactions(rest);
        assert(steps.drop_last() =~= rest.map_values(|t: Task<O, R>| worker_reaction(Some(t))));
        assert(steps.last() == worker_reaction(Some(tasks.last())));
    }
}

/// Every queued line is printed once, in the order it was queued, and no line
/// queued after `close` is printed: the worker prints exactly the lines of the
/// `Println` tasks ahead of the first `Exit`.
pub proof fn lines_print_once_in_order<O, R>(tasks: Seq<Task<O, R>>, k: int)
    requires
        0 <= k < tasks.len(),
        tasks[k] is Exit,
        !tasks.take(k).contains(Task::Exit),
    ensures
        printed_lines(worker_run(tasks)) == queued_lines(tasks.take(k)),
{
    nothing_runs_after_exit(tasks, k);
    lemma_worker_run_without_exit(tasks.take(k));
    lemma_printed_lines_of_reactions(tasks.take(k));
    let t1 = tasks.take(k + 1);
    assert(t1.drop_last() =~= tasks.take(k));
    assert(t1.last() == Task::<O, R>::Exit);
    let run = worker_run(tasks);
    assert(run == worker_run(tasks.take(k)).push(WorkerStep::ForwardExit));
    assert(run.drop_last() =~= worker_run(tasks.take(k)));
}

/// While no `Exit` is queued, every queued line is printed once, in order.
pub proof fn lines_print_once_in_order_before_close<O, R>(tasks: Seq<Task<O, R>>)
    requires
        !tasks.contains(Task::Exit),
    ensures
        printed_lines(worker_run(tasks)) == queued_lines(tasks),
{
    lemma_worker_run_without_exit(tasks);
    lemma_printed_lines_of_reactions(tasks);
}

/// The steps the blocking executor thread takes for the results it receives, in
/// order, up to and including the first `Exit`.
pub open spec fn executor_run<F, S>(results: Seq<TaskResult<F, S>>) -> Seq<ExecutorStep<F, S>>
    decreases results.len(),
{
    if results.len() == 0 {
        Seq::empty()
    } else {
        let before = executor_run(results.drop_last());
        if results.drop_last().contains(TaskResult::Exit) {
            before
        } else {
            before.push(executor_reaction(Some(results.last())))
        }
    }
}

proof fn lemma_executor_run_without_exit<F, S>(results: Seq<TaskResult<F, S>>)
    requires
        !results.contains(TaskResult::Exit),
    ensures
        executor_run(results) == results.map_values(
            |r: TaskResult<F, S>| executor_reaction(Some(r)),
        ),
    decreases results.len(),
{
    if results.len() > 0 {
        let rest = results.drop_last();
        assert(!rest.contains(TaskResult::Exit)) by {
            if rest.contains(TaskResult::Exit) {
                let i = choose|i: int| 0 <= i < rest.len() && rest[i] == TaskResult::<F, S>::Exit;
                assert(results[i] == TaskResult::<F, S>::Exit);
            }
        }
        lemma_executor_run_without_exit(rest);
        assert(results.map_values(|r: TaskResult<F, S>| executor_reaction(Some(r)))
            =~= rest.map_values(|r: TaskResult<F, S>| executor_reaction(Some(r))).push(
            executor_reaction(Some(results.last())),
        ));
    } else {
        assert(results.map_values(|r: TaskResult<F, S>| executor_reaction(Some(r)))
            =~= Seq::empty());
    }
}

proof fn lemma_executor_run_stays_stopped<F, S>(results: Seq<TaskResult<F, S>>, k: int)
    requires
        0 <= k < results.len(),
        results[k] is Exit,
    ensures
        executor_run(results) == executor_run(results.take(k + 1)),
    decreases results.len(),
{
    if results.len() > k + 1 {
        let rest = results.drop_last();
        assert(rest.take(k + 1) =~= results.take(k + 1));
        lemma_executor_run_stays_stopped(rest, k);
        assert(rest[k] == TaskResult::<F, S>::Exit);
        assert(rest.contains(TaskResult::Exit));
    } else {
        assert(results.take(k + 1) =~= results);
    }
}

/// The blocking executor runs the callback of every result ahead of the first
/// `Exit` once, in the order the results came, then stops on `Exit`; results
/// behind it are never looked at.
pub proof fn callbacks_run_once_in_order<F, S>(results: Seq<TaskResult<F, S>>, k: int)
    requires
        0 <= k < results.len(),
        results[k] is Exit,
        !results.take(k).contains(TaskResult::Exit),
    ensures
        executor_run(results) == results.take(k).map_values(
            |r: TaskResult<F, S>| executor_reaction(Some(r)),
        ).push(ExecutorStep::Stop),
        forall|i: int| 0 <= i < k ==> !ends_executor(#[trigger] executor_run(results)[i]),
{
    lemma_executor_run_stays_stopped(results, k);
    lemma_executor_run_without_exit(results.take(k));
    let t1 = results.take(k + 1);
    assert(t1.drop_last() =~= results.take(k));
    assert(t1.last() == TaskResult::<F, S>::Exit);
    let run = executor_run(results);
    assert forall|i: int| 0 <= i < k implies !ends_executor(#[trigger] executor_run(results)[i]) by {
        assert(run[i] == executor_reaction(Some(results.take(k)[i])));
        assert(results.take(k)[i] != TaskResult::<F, S>::Exit) by {
            if results.take(k)[i] == TaskResult::<F, S>::Exit {
                assert(results.take(k).contains(TaskResult::Exit));
            }
        }
    }
}

} // verus!

