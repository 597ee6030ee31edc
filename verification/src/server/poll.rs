//! What the server waits for, and what it does with a batch of events.

use vstd::prelude::*;

verus! {

/// The most events that one wait hands out.
pub const EPOLL_MAXEVENTS: usize = 2;

/// How long one wait lasts, in milliseconds; a negative time is no limit:
/// the server waits until a source is ready.
pub const EPOLL_TIMEOUT: isize = -1;

/// The sources that the server waits on.
#[derive(Clone, Copy, Debug, PartialEq, Eq, Structural)]
pub enum PollId {
    /// The listening socket: a connection is waiting to be accepted.
    Listener,
    /// The wake descriptor: the server was asked to shut down.
    Signal,
}

impl PollId {
    /// The number that an event of this source carries.
    pub open spec fn number(self) -> u64 {
        match self {
            PollId::Listener => 0,
            PollId::Signal => 1,
        }
    }

    /// The number to register this source under.
    pub fn to_u64(self) -> (n: u64)
        ensures
            n == self.number(),
    {
        match self {
            PollId::Listener => 0,
            PollId::Signal => 1,
        }
    }

    /// The source that an event's number names, if any.
    pub fn from_u64(n: u64) -> (id: Option<PollId>)
        ensures
            match id {
                Some(id) => id.number() == n,
                None => n > 1,
            },
    {
        if n == 0 {
            Some(PollId::Listener)
        } else if n == 1 {
            Some(PollId::Signal)
        } else {
            None
        }
    }
}

/// What to do with the events of one wait.
#[derive(Clone, Copy, Debug, PartialEq, Eq, Structural)]
pub struct Batch {
    /// How many connections to accept and serve, each until its peer is
    /// done.
    pub accepts: usize,
    /// Whether to leave the loop once the connections have been served.
    pub shutdown: bool,
}

/// How many of the first `n` events are the listener's.
pub open spec fn listener_events(events: Seq<u64>, n: int) -> nat
    decreases n,
{
    if n <= 0 {
        0
    } else {
        listener_events(events, n - 1) + if events[n - 1] == PollId::Listener.number() {
            1nat
        } else {
            0nat
        }
    }
}

/// Whether every event names a source.
pub open spec fn all_known(events: Seq<u64>) -> bool {
    forall|i: int| 0 <= i < events.len() ==> #[trigger] events[i] <= 1
}

/// Plans a batch: the listener's events come first, so that connections
/// that are waiting are served, and a shutdown request among the events is
/// honoured after them.  Gives `None` if an event names no source.
pub fn plan_batch(events: &[u64]) -> (plan: Option<Batch>)
    ensures
        match plan {
            Some(batch) => {
                &&& all_known(events@)
                &&& batch.accepts == listener_events(events@, events@.len() as int)
                &&& batch.shutdown == events@.contains(PollId::Signal.number())
            },
            None => !all_known(events@),
        },
{
    let mut batch = Batch { accepts: 0, shutdown: false };
    let mut i: usize = 0;
    while i < events.len()
        invariant
            i <= events.len(),
            batch.accepts == listener_events(events@, i as int),
            batch.accepts <= i,
            batch.shutdown == events@.take(i as int).contains(PollId::Signal.number()),
            forall|j: int| 0 <= j < i ==> #[trigger] events@[j] <= 1,
        decreases events.len() - i,
    {
        let ghost seen = events@.take(i as int);
        match PollId::from_u64(events[i]) {
            Some(PollId::Listener) => {
                batch.accepts = batch.accepts + 1;
            },
            Some(PollId::Signal) => {
                batch.shutdown = true;
            },
            None => {
                return None;
            },
        }
        proof {
            let next = events@.take(i + 1);
            assert(next =~= seen.push(events@[i as int]));
            assert(next[i as int] == events@[i as int]);
            if seen.contains(PollId::Signal.number()) {
                let j = choose|j: int| 0 <= j < seen.len() && seen[j] == PollId::Signal.number();
                assert(next[j] == PollId::Signal.number());
            }
            if next.contains(PollId::Signal.number()) && events@[i as int] != 1 {
                let j = choose|j: int| 0 <= j < next.len() && next[j] == PollId::Signal.number();
                assert(seen[j] == PollId::Signal.number());
            }
        }
        i = i + 1;
    }
    proof {
        assert(events@.take(i as int) =~= events@);
    }
    Some(batch)
}

} // verus!
