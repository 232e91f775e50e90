//! The dispatch core of the callback executor.
//!
//! An executor keeps, in registration order, the handlers that were registered
//! with a token each. The run loop polls for events; for every event it either
//! stops (the event carries the exit token, set by `shutdown`) or invokes every
//! handler registered under the event's token, in registration order.
//! The polling itself is I/O and is done by the caller; this module decides
//! which handlers run, and when the loop ends.
use vstd::prelude::*;

verus! {

/// The token reserved for the shutdown registration: an event carrying it ends the run loop.
pub const EXIT_TOKEN: usize = 0;

/// A registered handler: the token it listens to and the action to run.
pub struct Handler<A> {
    pub token: usize,
    pub action: A,
}

/// What the run loop does with one event.
pub enum Dispatch {
    /// The event carries the exit token: the loop ends.
    Exit,
    /// Run these handlers (indices into the registration order), in this order.
    Invoke(Vec<usize>),
}

/// The handler table of an executor.
pub struct Executor<A> {
    handlers: Vec<Handler<A>>,
}

/// Indices of the handlers of `hs` registered under `token`, in registration order.
pub open spec fn matching_handlers<A>(hs: Seq<Handler<A>>, token: usize) -> Seq<usize>
    decreases hs.len(),
{
    if hs.len() == 0 {
        Seq::empty()
    } else {
        let rest = matching_handlers(hs.drop_last(), token);
        if hs.last().token == token {
            rest.push((hs.len() - 1) as usize)
        } else {
            rest
        }
    }
}

/// The calls the run loop makes for one event, as (event index, handler index) pairs.
pub open spec fn event_calls<A>(hs: Seq<Handler<A>>, event: int, token: usize) -> Seq<(usize, usize)> {
    matching_handlers(hs, token).map_values(|h: usize| (event as usize, h))
}

/// The calls the run loop makes for a batch of event tokens, and whether the batch
/// held the exit token. Events after the first exit token are not looked at.
pub open spec fn batch_plan<A>(hs: Seq<Handler<A>>, events: Seq<usize>) -> (Seq<(usize, usize)>, bool)
    decreases events.len(),
{
    if events.len() == 0 {
        (Seq::empty(), false)
    } else {
        let (calls, stopped) = batch_plan(hs, events.drop_last());
        if stopped {
            (calls, true)
        } else if events.last() == EXIT_TOKEN {
            (calls, true)
        } else {
            (calls + event_calls(hs, events.len() - 1, events.last()), false)
        }
    }
}

impl<A> View for Executor<A> {
    type V = Seq<Handler<A>>;

    closed spec fn view(&self) -> Seq<Handler<A>> {
        self.handlers@
    }
}

impl<A> Executor<A> {
    /// An executor with no handler.
    pub fn new() -> (e: Self)
        ensures
            e@ == Seq::<Handler<A>>::empty(),
    {
        Executor { handlers: Vec::new() }
    }

    /// Adds a handler for `token` after all earlier ones.
    pub fn register(&mut self, token: usize, action: A)
        ensures
            final(self)@ == old(self)@.push(Handler { token, action }),
    {
        self.handlers.push(Handler { token, action });
    }

    /// The number of registered handlers.
    pub fn len(&self) -> (n: usize)
        ensures
            n == self@.len(),
    {
        self.handlers.len()
    }

    /// The handler registered at position `index`.
    pub fn handler(&self, index: usize) -> (h: &Handler<A>)
        requires
            index < self@.len(),
        ensures
            *h == self@[index as int],
    {
        &self.handlers[index]
    }

    /// Indices of the handlers registered under `token`, in registration order.
    fn handlers_for(&self, token: usize) -> (v: Vec<usize>)
        ensures
            v@ == matching_handlers(self@, token),
    {
        let mut v: Vec<usize> = Vec::new();
        let mut i: usize = 0;
        while i < self.handlers.len()
            invariant
                i <= self.handlers@.len(),
                v@ == matching_handlers(self.handlers@.take(i as int), token),
            decreases self.handlers@.len() - i,
        {
            let ghost prefix = self.handlers@.take(i as int);
            assert(self.handlers@.take(i + 1).drop_last() =~= prefix);
            if self.handlers[i].token == token {
                v.push(i);
            }
            i = i + 1;
        }
        assert(self.handlers@.take(i as int) =~= self.handlers@);
        v
    }

    /// What the run loop does with an event carrying `token`.
    pub fn dispatch(&self, token: usize) -> (d: Dispatch)
        ensures
            d is Exit <==> token == EXIT_TOKEN,
            d matches Dispatch::Invoke(v) ==> v@ == matching_handlers(self@, token),
    {
        if token == EXIT_TOKEN {
            Dispatch::Exit
        } else {
            Dispatch::Invoke(self.handlers_for(token))
        }
    }

    /// The calls the run loop makes for one polled batch of events, given their
    /// tokens in the order the poll returned them: (event index, handler index)
    /// pairs in call order, and whether the loop ends after them.
    pub fn plan_batch(&self, events: &Vec<usize>) -> (r: (Vec<(usize, usize)>, bool))
        ensures
            (r.0@, r.1) == batch_plan(self@, events@),
            forall|k: int|
                0 <= k < r.0@.len() ==> {
                    let (e, h) = #[trigger] r.0@[k];
                    e < events@.len() && h < self@.len() && self@[h as int].token == events@[e as int]
                },
    {
        let mut calls: Vec<(usize, usize)> = Vec::new();
        let mut stopped = false;
        let mut i: usize = 0;
        while i < events.len() && !stopped
            invariant
                i <= events@.len(),
                (calls@, stopped) == batch_plan(self@, events@.take(i as int)),
            decreases events@.len() - i,
        {
            assert(events@.take(i + 1).drop_last() =~= events@.take(i as int));
            let token = events[i];
            match self.dispatch(token) {
                Dispatch::Exit => {
                    stopped = true;
                },
                Dispatch::Invoke(hs) => {
                    let ghost before = calls@;
                    let mut j: usize = 0;
                    while j < hs.len()
                        invariant
                            j <= hs@.len(),
                            calls@ == before + hs@.take(j as int).map_values(
                                |h: usize| (i as usize, h),
                            ),
                        decreases hs@.len() - j,
                    {
                        let ghost old_calls = calls@;
                        calls.push((i, hs[j]));
                        assert(hs@.take(j + 1).map_values(|h: usize| (i as usize, h))
                            =~= hs@.take(j as int).map_values(|h: usize| (i as usize, h)).push(
                            (i, hs@[j as int]),
                        ));
                        j = j + 1;
                    }
                    assert(hs@.take(j as int) =~= hs@);
                    assert(calls@ =~= before + event_calls(self@, i as int, token));
                },
            }
            i = i + 1;
        }
        proof {
            if stopped {
                lemma_batch_plan_stays_stopped(self@, events@, i as int);
            } else {
                assert(events@.take(i as int) =~= events@);
            }
            assert(self.handlers.len() <= usize::MAX);
            batch_calls_pair_events_with_their_handlers(self@, events@);
        }
        (calls, stopped)
    }
}

/// Once a prefix of a batch holds the exit token, later events change nothing.
proof fn lemma_batch_plan_stays_stopped<A>(hs: Seq<Handler<A>>, events: Seq<usize>, k: int)
    requires
        0 <= k <= events.len(),
        batch_plan(hs, events.take(k)).1,
    ensures
        batch_plan(hs, events) == batch_plan(hs, events.take(k)),
    decreases events.len() - k,
{
    if k < events.len() {
        assert(events.take(k + 1).drop_last() =~= events.take(k));
        lemma_batch_plan_stays_stopped(hs, events, k + 1);
    } else {
        assert(events.take(k) =~= events);
    }
}

/// Dispatch is exact: an event runs a handler if and only if the handler was
/// registered under the event's token, each such handler once, in registration order.
pub proof fn dispatch_runs_exactly_matching_handlers<A>(hs: Seq<Handler<A>>, token: usize)
    requires
        hs.len() <= usize::MAX,
    ensures
        forall|k: int|
            0 <= k < matching_handlers(hs, token).len() ==> #[trigger] matching_handlers(hs, token)[k]
                < hs.len() && hs[matching_handlers(hs, token)[k] as int].token == token,
        forall|i: usize|
            i < hs.len() && hs[i as int].token == token ==> matching_handlers(hs, token).contains(i),
        forall|k: int, l: int|
            0 <= k < l < matching_handlers(hs, token).len() ==> matching_handlers(hs, token)[k]
                < matching_handlers(hs, token)[l],
    decreases hs.len(),
{
    if hs.len() > 0 {
        let rest = hs.drop_last();
        dispatch_runs_exactly_matching_handlers(rest, token);
        let m = matching_handlers(hs, token);
        let mr = matching_handlers(rest, token);
        if hs.last().token == token {
            assert(m == mr.push((hs.len() - 1) as usize));
        } else {
            assert(m == mr);
        }
        assert forall|k: int| 0 <= k < m.len() implies m[k] < hs.len() && hs[m[k] as int].token
            == token by {
            if k < mr.len() {
                assert(m[k] == mr[k]);
                assert(mr[k] < rest.len());
                assert(rest[mr[k] as int] == hs[mr[k] as int]);
            } else {
                assert(hs.last().token == token);
                assert(m[k] == (hs.len() - 1) as usize);
                assert(hs.last() == hs[hs.len() - 1]);
            }
        }
        assert forall|k: int, l: int| 0 <= k < l < m.len() implies m[k] < m[l] by {
            assert(m[k] == mr[k]);
            if l < mr.len() {
                assert(m[l] == mr[l]);
            } else {
                assert(hs.last().token == token);
                assert(m[l] == (hs.len() - 1) as usize);
                assert(mr[k] < rest.len());
            }
        }
        assert forall|i: usize| i < hs.len() && hs[i as int].token == token implies m.contains(i) by {
            if i < rest.len() {
                assert(rest[i as int] == hs[i as int]);
                assert(mr.contains(i));
                let k = choose|k: int| 0 <= k < mr.len() && mr[k] == i;
                assert(k < m.len() && m[k] == mr[k]);
                assert(m[k] == i);
            } else {
                assert(hs.last() == hs[i as int]);
                assert(m[m.len() - 1] == i);
            }
        }
    }
}

/// Registering a handler under `h.token` adds it, last, to what events with that
/// token run, and leaves what every other token runs unchanged.
pub proof fn register_extends_dispatch<A>(hs: Seq<Handler<A>>, h: Handler<A>, token: usize)
    ensures
        token == h.token ==> matching_handlers(hs.push(h), token) == matching_handlers(hs, token).push(
            hs.len() as usize,
        ),
        token != h.token ==> matching_handlers(hs.push(h), token) == matching_handlers(hs, token),
{
    assert(hs.push(h).drop_last() =~= hs);
}

/// The exit token ends a batch: once an event carries it, the batch makes no
/// further call, whatever events follow.
pub proof fn batch_ends_at_exit<A>(hs: Seq<Handler<A>>, events: Seq<usize>, k: int)
    requires
        0 <= k < events.len(),
        events[k] == EXIT_TOKEN,
    ensures
        batch_plan(hs, events).1,
        batch_plan(hs, events) == batch_plan(hs, events.take(k + 1)),
        batch_plan(hs, events).0 == batch_plan(hs, events.take(k)).0,
{
    assert(events.take(k + 1).drop_last() =~= events.take(k));
    assert(events.take(k + 1).last() == EXIT_TOKEN);
    lemma_batch_plan_stays_stopped(hs, events, k + 1);
}

/// Every call of a batch pairs an event of the batch with a handler registered
/// under that event's token.
pub proof fn batch_calls_pair_events_with_their_handlers<A>(hs: Seq<Handler<A>>, events: Seq<usize>)
    requires
        hs.len() <= usize::MAX,
        events.len() <= usize::MAX,
    ensures
        forall|k: int|
            0 <= k < batch_plan(hs, events).0.len() ==> {
                let (e, h) = #[trigger] batch_plan(hs, events).0[k];
                e < events.len() && h < hs.len() && hs[h as int].token == events[e as int]
            },
    decreases events.len(),
{
    if events.len() > 0 {
        let rest = events.drop_last();
        batch_calls_pair_events_with_their_handlers(hs, rest);
        let (calls, stopped) = batch_plan(hs, rest);
        let plan = batch_plan(hs, events).0;
        if !stopped && events.last() != EXIT_TOKEN {
            let token = events.last();
            let e = (events.len() - 1) as int;
            dispatch_runs_exactly_matching_handlers(hs, token);
            let m = matching_handlers(hs, token);
            assert(plan == calls + event_calls(hs, e, token));
            assert forall|k: int| 0 <= k < plan.len() implies {
                let (e1, h1) = #[trigger] plan[k];
                e1 < events.len() && h1 < hs.len() && hs[h1 as int].token == events[e1 as int]
            } by {
                if k < calls.len() {
                    assert(plan[k] == calls[k]);
                    assert(rest[calls[k].0 as int] == events[calls[k].0 as int]);
                } else {
                    let j = k - calls.len();
                    assert(plan[k] == event_calls(hs, e, token)[j]);
                    assert(event_calls(hs, e, token)[j] == (e as usize, m[j]));
                    assert(events[e] == token);
                }
            }
        } else {
            assert forall|k: int| 0 <= k < plan.len() implies {
                let (e1, h1) = #[trigger] plan[k];
                e1 < events.len() && h1 < hs.len() && hs[h1 as int].token == events[e1 as int]
            } by {
                assert(plan[k] == calls[k]);
                assert(rest[calls[k].0 as int] == events[calls[k].0 as int]);
            }
        }
    }
}

/// A batch without the exit token runs, event by event, what each event dispatches to.
pub proof fn batch_without_exit_runs_every_event<A>(hs: Seq<Handler<A>>, events: Seq<usize>, e: usize)
    requires
        !events.contains(EXIT_TOKEN),
    ensures
        !batch_plan(hs, events).1,
        batch_plan(hs, events.push(e)).0 == if e == EXIT_TOKEN {
            batch_plan(hs, events).0
        } else {
            batch_plan(hs, events).0 + event_calls(hs, events.len() as int, e)
        },
    decreases events.len(),
{
    if events.len() > 0 {
        let rest = events.drop_last();
        assert(!rest.contains(EXIT_TOKEN)) by {
            if rest.contains(EXIT_TOKEN) {
                let k = choose|k: int| 0 <= k < rest.len() && rest[k] == EXIT_TOKEN;
                assert(events[k] == EXIT_TOKEN);
            }
        }
        batch_without_exit_runs_every_event(hs, rest, events.last());
        assert(events.last() != EXIT_TOKEN) by {
            assert(events[events.len() - 1] == events.last());
        }
    }
    assert(events.push(e).drop_last() =~= events);
}

} // verus!
