//! Reading a file as a future.
//!
//! `read_to_string` hands a blocking task to the block-task worker and returns the
//! state of a future. The worker opens and reads the file, sends the outcome into
//! a one-slot channel and raises the readiness of a mio registration. Polling the
//! future registers that readiness with the executor once, then looks into the
//! channel without blocking.
use vstd::prelude::*;
use crate::channel::{bounded, Inbox, Outbox, Received};

verus! {

/// `mio::Registration`, carried through as an opaque value.
#[verifier::external_type_specification]
#[verifier::external_body]
pub struct ExRegistration(mio::Registration);

/// `mio::SetReadiness`, carried through as an opaque value.
#[verifier::external_type_specification]
#[verifier::external_body]
pub struct ExSetReadiness(mio::SetReadiness);

/// `std::io::Error`, carried through as an opaque value.
#[verifier::external_type_specification]
#[verifier::external_body]
pub struct ExIoError(std::io::Error);

/// `mio::Registration::new2`: a fresh registration and the handle that raises its
/// readiness. Nothing is stated of the pair.
#[verifier::external_body]
fn new_registration() -> (r: (mio::Registration, mio::SetReadiness)) {
    mio::Registration::new2()
}

/// `s` with every leading `c` removed.
pub open spec fn trim_start_char(s: Seq<char>, c: char) -> Seq<char>
    decreases s.len(),
{
    if s.len() > 0 && s[0] == c {
        trim_start_char(s.drop_first(), c)
    } else {
        s
    }
}

/// `s` with every trailing `c` removed.
pub open spec fn trim_end_char(s: Seq<char>, c: char) -> Seq<char>
    decreases s.len(),
{
    if s.len() > 0 && s.last() == c {
        trim_end_char(s.drop_last(), c)
    } else {
        s
    }
}

/// `s` with every leading and every trailing `c` removed.
pub open spec fn trim_char(s: Seq<char>, c: char) -> Seq<char> {
    trim_end_char(trim_start_char(s, c), c)
}

/// std's `str::trim_matches` with a `char` pattern: as its documentation says, the
/// string with all prefixes and suffixes that match the pattern repeatedly removed.
#[verifier::external_body]
fn trim_matches_char(s: &str, c: char) -> (r: &str)
    ensures
        r@ == trim_char(s@, c),
{
    s.trim_matches(c)
}

/// A blocking file read for the block-task worker.
pub struct ReadFileTask {
    /// The name of the file, as typed; surrounding line feeds are not part of it.
    pub file_name: String,
    /// Where the worker sends the contents, or the error it met.
    pub string_sender: Outbox<Result<String, std::io::Error>>,
    /// What the worker raises once it has sent.
    pub set_readiness: mio::SetReadiness,
}

impl ReadFileTask {
    /// The path the worker opens: the file name without leading or trailing line feeds.
    pub fn file_path(&self) -> (p: &str)
        ensures
            p@ == trim_char(self.file_name@, '\n'),
    {
        trim_matches_char(self.file_name.as_str(), '\n')
    }
}

/// The sending end of the block-task worker's queue.
#[verifier::reject_recursive_types(T)]
pub struct BlockTaskWorker<T> {
    tasks: Outbox<T>,
}

impl<T> BlockTaskWorker<T> {
    /// The worker front end that queues into `task_sender`, with nothing queued yet.
    pub fn from_sender(task_sender: crossbeam_channel::Sender<T>) -> (w: Self)
        ensures
            w.queued() == Seq::<T>::empty(),
    {
        BlockTaskWorker { tasks: Outbox::from_sender(task_sender) }
    }

    /// The tasks the worker's queue accepted from this front end, in order.
    pub closed spec fn queued(&self) -> Seq<T> {
        self.tasks.accepted()
    }

    /// Every task this front end handed to the worker's queue, in order, with
    /// whether the queue accepted it.
    pub closed spec fn handed(&self) -> Seq<(T, bool)> {
        self.tasks.attempts()
    }
}

/// Queues a blocking task for the worker. On `Ok` the task is queued behind the
/// earlier ones; when the worker is gone, the task comes back in `Err` and nothing
/// is queued.
pub fn send_block_task<T>(worker: &mut BlockTaskWorker<T>, task: T) -> (r: Result<(), T>)
    ensures
        r is Ok ==> final(worker).queued() == old(worker).queued().push(task),
        r matches Err(t) ==> t == task && final(worker).queued() == old(worker).queued(),
        final(worker).handed() == old(worker).handed().push((task, r is Ok)),
{
    worker.tasks.send(task)
}

/// A poll's answer.
pub enum PollState<T> {
    Ready(T),
    Pending,
}

/// Why reading a file as a future failed.
pub enum ReadError<E> {
    /// Registering the readiness with the executor failed.
    Register(E),
    /// Opening or reading the file failed.
    Io(std::io::Error),
    /// The worker dropped the channel without sending.
    Disconnected,
}

/// The state of a file read as a future.
pub struct ReadFileState {
    source_token: Option<usize>,
    registration: Option<mio::Registration>,
    string_receiver: Inbox<Result<String, std::io::Error>>,
}

/// What the read has taken from its channel after a poll that answered `r`, given
/// what it had taken before: the contents or the read error that the answer
/// carries, or nothing.
pub open spec fn received_after<E>(
    before: Seq<Result<String, std::io::Error>>,
    r: PollState<Result<String, ReadError<E>>>,
) -> Seq<Result<String, std::io::Error>> {
    match r {
        PollState::Ready(Ok(v)) => before.push(Ok(v)),
        PollState::Ready(Err(ReadError::Io(e))) => before.push(Err(e)),
        _ => before,
    }
}

/// True when the poll answer is one that looking into the channel gives.
pub open spec fn is_receive_answer<E>(r: PollState<Result<String, ReadError<E>>>) -> bool {
    r is Pending || r matches PollState::Ready(Ok(_)) || r matches PollState::Ready(Err(ReadError::Io(_)))
        || r matches PollState::Ready(Err(ReadError::Disconnected))
}

/// The poll answer for what a look into the channel found.
pub open spec fn receive_answer<E>(found: Received<Result<String, std::io::Error>>) -> PollState<
    Result<String, ReadError<E>>,
> {
    match found {
        Received::Message(Ok(v)) => PollState::Ready(Ok(v)),
        Received::Message(Err(e)) => PollState::Ready(Err(ReadError::Io(e))),
        Received::Empty => PollState::Pending,
        Received::Disconnected => PollState::Ready(Err(ReadError::Disconnected)),
    }
}

/// A read answers from what its look into the channel found, and from nothing
/// else: it waits exactly when the channel is empty, it ends with `Disconnected`
/// exactly when the worker dropped the channel, and otherwise it hands over the
/// contents, or the read error, that it took.
pub proof fn answer_follows_the_look<E>(found: Received<Result<String, std::io::Error>>)
    ensures
        receive_answer::<E>(found) is Pending <==> found is Empty,
        receive_answer::<E>(found) == PollState::<Result<String, ReadError<E>>>::Ready(
            Err(ReadError::Disconnected),
        ) <==> found is Disconnected,
        found matches Received::Message(Ok(v)) ==> receive_answer::<E>(found) == PollState::<
            Result<String, ReadError<E>>,
        >::Ready(Ok(v)),
        found matches Received::Message(Err(e)) ==> receive_answer::<E>(found) == PollState::<
            Result<String, ReadError<E>>,
        >::Ready(Err(ReadError::Io(e))),
        !(receive_answer::<E>(found) matches PollState::Ready(Err(ReadError::Register(_)))),
{
}

/// The poll answer for what a look into the channel found.
pub fn poll_outcome<E>(received: Received<Result<String, std::io::Error>>) -> (r: PollState<
    Result<String, ReadError<E>>,
>)
    ensures
        match received {
            Received::Message(Ok(v)) => r == PollState::<Result<String, ReadError<E>>>::Ready(Ok(v)),
            Received::Message(Err(e)) => r == PollState::<Result<String, ReadError<E>>>::Ready(
                Err(ReadError::Io(e)),
            ),
            Received::Empty => r is Pending,
            Received::Disconnected => r == PollState::<Result<String, ReadError<E>>>::Ready(
                Err(ReadError::Disconnected),
            ),
        },
        is_receive_answer(r),
        r == receive_answer::<E>(received),
{
    match received {
        Received::Message(read) => match read {
            Ok(v) => PollState::Ready(Ok(v)),
            Err(e) => PollState::Ready(Err(ReadError::Io(e))),
        },
        Received::Empty => PollState::Pending,
        Received::Disconnected => PollState::Ready(Err(ReadError::Disconnected)),
    }
}

impl ReadFileState {
    /// The executor token of the registered readiness, once registered.
    pub closed spec fn token(&self) -> Option<usize> {
        self.source_token
    }

    /// The readiness registration, until it is handed to the executor.
    pub closed spec fn registration(&self) -> Option<mio::Registration> {
        self.registration
    }

    /// What every look of the read into its channel found, in order.
    pub closed spec fn looked(&self) -> Seq<Received<Result<String, std::io::Error>>> {
        self.string_receiver.looks()
    }

    /// What the read took from its channel so far, in order.
    pub closed spec fn received(&self) -> Seq<Result<String, std::io::Error>> {
        self.string_receiver.received()
    }

    /// True when the state can be polled: registered, or still holding what to register.
    pub open spec fn can_poll(&self) -> bool {
        self.token() is Some || self.registration() is Some
    }

    /// True when the state can be polled: registered, or still holding what to register.
    pub fn is_pollable(&self) -> (b: bool)
        ensures
            b == self.can_poll(),
    {
        self.source_token.is_some() || self.registration.is_some()
    }

    /// Polls the read. On the first poll the registration is handed to `register`,
    /// which registers it with the executor and gives back its token; when that
    /// fails the read ends with the error. Then the channel is looked into: the
    /// contents or the read error end the read, an empty channel leaves it pending,
    /// a dropped channel ends it with `Disconnected`.
    pub fn poll<E, G: FnOnce(mio::Registration) -> Result<usize, E>>(&mut self, register: G) -> (r:
        PollState<Result<String, ReadError<E>>>)
        requires
            old(self).can_poll(),
            forall|g: mio::Registration| register.requires((g,)),
        ensures
            old(self).token() is Some ==> {
                &&& final(self).token() == old(self).token()
                &&& final(self).registration() == old(self).registration()
                &&& is_receive_answer(r)
            },
            old(self).token() is None ==> {
                &&& final(self).registration() is None
                &&& match r {
                    PollState::Ready(Err(ReadError::Register(e))) => {
                        &&& final(self).token() is None
                        &&& register.ensures((old(self).registration()->0,), Err(e))
                    },
                    _ => {
                        &&& final(self).token() matches Some(t) && register.ensures(
                            (old(self).registration()->0,),
                            Ok(t),
                        )
                        &&& is_receive_answer(r)
                    },
                }
            },
            final(self).can_poll() <==> !(r matches PollState::Ready(Err(ReadError::Register(_)))),
            final(self).received() == received_after(old(self).received(), r),
            r matches PollState::Ready(Err(ReadError::Register(_))) ==> final(self).looked() == old(
                self,
            ).looked(),
            !(r matches PollState::Ready(Err(ReadError::Register(_)))) ==> {
                &&& final(self).looked().len() == old(self).looked().len() + 1
                &&& final(self).looked().drop_last() == old(self).looked()
                &&& r == receive_answer::<E>(final(self).looked().last())
            },
    {
        if self.source_token.is_none() {
            let registration = self.registration.take().unwrap();
            match register(registration) {
                Ok(token) => {
                    self.source_token = Some(token);
                },
                Err(e) => {
                    return PollState::Ready(Err(ReadError::Register(e)));
                },
            }
        }
        poll_outcome(self.string_receiver.try_receive())
    }
}

/// Starts reading the file `file_name` as a future: queues a `ReadFileTask` for it,
/// wrapped by `into_task`, on the block-task worker, and returns the future's
/// state, not yet registered and with nothing received. When the worker is gone,
/// the wrapped task comes back in `Err` and nothing is queued.
pub fn read_to_string<T, F: FnOnce(ReadFileTask) -> T>(
    worker: &mut BlockTaskWorker<T>,
    file_name: String,
    into_task: F,
) -> (r: Result<ReadFileState, T>)
    requires
        forall|task: ReadFileTask| into_task.requires((task,)),
    ensures
        r matches Ok(state) ==> {
            &&& state.token() is None
            &&& state.registration() is Some
            &&& state.received() == Seq::<Result<String, std::io::Error>>::empty()
            &&& exists|task: ReadFileTask, t: T|
                task.file_name@ == file_name@ && #[trigger] into_task.ensures((task,), t)
                    && final(worker).queued() == old(worker).queued().push(t)
        },
        r is Err ==> {
            &&& exists|task: ReadFileTask|
                task.file_name@ == file_name@ && #[trigger] into_task.ensures((task,), r->Err_0)
            &&& final(worker).queued() == old(worker).queued()
        },
        final(worker).handed().len() == old(worker).handed().len() + 1,
        final(worker).handed().drop_last() == old(worker).handed(),
        final(worker).handed().last().1 == (r is Ok),
{
    let ghost wrap = into_task;
    let (registration, set_readiness) = new_registration();
    let (sender, receiver) = bounded(1);
    let string_sender = Outbox::from_sender(sender);
    let string_receiver = Inbox::from_receiver(receiver);
    let task = ReadFileTask { file_name, string_sender, set_readiness };
    let ghost sent = task;
    let wrapped = into_task(task);
    let sent_result = send_block_task(worker, wrapped);
    if let Err(t) = sent_result {
        let r: Result<ReadFileState, T> = Err(t);
        assert(wrap.ensures((sent,), r->Err_0));
        return r;
    }
    Ok(ReadFileState { source_token: None, registration: Some(registration), string_receiver })
}

/// Trimming removes leading `c`s only: what remains is a suffix of `s` that does not
/// start with `c`, and everything before it is `c`.
proof fn lemma_trim_start(s: Seq<char>, c: char)
    ensures
        trim_start_char(s, c).len() <= s.len(),
        trim_start_char(s, c) == s.subrange(s.len() - trim_start_char(s, c).len(), s.len() as int),
        forall|i: int| 0 <= i < s.len() - trim_start_char(s, c).len() ==> s[i] == c,
        trim_start_char(s, c).len() > 0 ==> trim_start_char(s, c)[0] != c,
    decreases s.len(),
{
    if s.len() > 0 && s[0] == c {
        let rest = s.drop_first();
        lemma_trim_start(rest, c);
        let t = trim_start_char(s, c);
        assert(t == trim_start_char(rest, c));
        assert(rest.subrange(rest.len() - t.len(), rest.len() as int) =~= s.subrange(
            s.len() - t.len(),
            s.len() as int,
        ));
        assert forall|i: int| 0 <= i < s.len() - t.len() implies s[i] == c by {
            if i > 0 {
                assert(s[i] == rest[i - 1]);
            }
        }
    } else {
        assert(s.subrange(0, s.len() as int) =~= s);
    }
}

/// Trimming removes trailing `c`s only: what remains is a prefix of `s` that does
/// not end with `c`, and everything after it is `c`.
proof fn lemma_trim_end(s: Seq<char>, c: char)
    ensures
        trim_end_char(s, c).len() <= s.len(),
        trim_end_char(s, c) == s.subrange(0, trim_end_char(s, c).len() as int),
        forall|i: int| trim_end_char(s, c).len() <= i < s.len() ==> s[i] == c,
        trim_end_char(s, c).len() > 0 ==> trim_end_char(s, c).last() != c,
    decreases s.len(),
{
    if s.len() > 0 && s.last() == c {
        let rest = s.drop_last();
        lemma_trim_end(rest, c);
        let t = trim_end_char(s, c);
        assert(t == trim_end_char(rest, c));
        assert(rest.subrange(0, t.len() as int) =~= s.subrange(0, t.len() as int));
        assert forall|i: int| t.len() <= i < s.len() implies s[i] == c by {
            if i < s.len() - 1 {
                assert(s[i] == rest[i]);
            }
        }
    } else {
        assert(s.subrange(0, s.len() as int) =~= s);
    }
}

/// The path the block-task worker opens is the file name with the line feeds
/// around it cut off, and nothing else: it starts and ends with no line feed, it
/// stands in the name as one piece, and all the name holds outside it is line feeds.
pub proof fn file_path_is_name_without_surrounding_newlines(name: Seq<char>)
    ensures
        trim_char(name, '\n').len() > 0 ==> trim_char(name, '\n')[0] != '\n' && trim_char(
            name,
            '\n',
        ).last() != '\n',
        exists|i: int|
            0 <= i && i + trim_char(name, '\n').len() <= name.len() && #[trigger] name.subrange(
                i,
                i + trim_char(name, '\n').len(),
            ) == trim_char(name, '\n') && (forall|k: int|
                0 <= k < name.len() && !(i <= k < i + trim_char(name, '\n').len()) ==> name[k]
                    == '\n'),
{
    let c = '\n';
    let a = trim_start_char(name, c);
    let t = trim_end_char(a, c);
    lemma_trim_start(name, c);
    lemma_trim_end(a, c);
    let i = name.len() - a.len();
    if t.len() > 0 {
        assert(t[0] == a[0]);
    }
    assert(name.subrange(i, i + t.len()) =~= t);
    assert forall|k: int| 0 <= k < name.len() && !(i <= k < i + t.len()) implies name[k] == c by {
        if k >= i + t.len() {
            assert(name[k] == a[k - i]);
        }
    }
}

/// Trimming twice cuts nothing more than trimming once.
pub proof fn trimming_the_path_again_changes_nothing(name: Seq<char>, c: char)
    ensures
        trim_char(trim_char(name, c), c) == trim_char(name, c),
{
    let t = trim_char(name, c);
    lemma_trim_start(name, c);
    lemma_trim_end(trim_start_char(name, c), c);
    if t.len() > 0 {
        assert(t[0] == trim_start_char(name, c)[0]);
        assert(t[0] != c);
    }
    assert(trim_start_char(t, c) == t);
    assert(trim_end_char(t, c) == t);
}

} // verus!
