//! Sending a queue of requests a few at a time: open as many as may be
//! open at once, wait for all of them to end, and begin again until the
//! queue is empty.

use vstd::prelude::*;
use crate::pq::{Prioritized, PriorityQueue};
use crate::requests::Requestable;
use crate::types::{HttpResponseType, NetError};
use crate::vecmap::VecMap;

verus! {

/// What a queue of requests has come to so far.
#[derive(Debug)]
pub struct BatchedRequestsResult<T> {
    /// The open requests, by the ID of the event that follows each.
    pub remaining: VecMap<usize, T>,
    /// The requests that were answered, each with its answer.
    pub succeeded: VecMap<T, Option<HttpResponseType>>,
    pub errors: VecMap<T, NetError>,
    /// The peers that failed, by event ID.
    pub faulty_peers: VecMap<usize, String>,
}

impl<T: Requestable> BatchedRequestsResult<T> {
    pub open spec fn wf(&self) -> bool {
        &&& self.remaining.wf()
        &&& self.succeeded.wf()
        &&& self.errors.wf()
        &&& self.faulty_peers.wf()
        &&& forall|i: int|
            0 <= i < self.remaining.entries@.len() ==> (#[trigger] self.remaining.entries@[i]).1.comparable()
        &&& forall|i: int|
            0 <= i < self.succeeded.entries@.len() ==> (#[trigger] self.succeeded.entries@[i]).0.comparable()
    }

    /// Whether `r` is one of the requests the tables hold.
    pub open spec fn holds(&self, r: T) -> bool {
        ||| exists|i: int|
            0 <= i < self.remaining.entries@.len() && #[trigger] self.remaining.entries@[i].1 == r
        ||| exists|i: int|
            0 <= i < self.succeeded.entries@.len() && #[trigger] self.succeeded.entries@[i].0 == r
    }

    /// How many requests the tables hold.
    pub open spec fn total(&self) -> nat {
        self.remaining.entries@.len() + self.succeeded.entries@.len()
    }

    pub fn new(remaining: VecMap<usize, T>) -> (r: BatchedRequestsResult<T>)
        ensures
            r.remaining == remaining,
            r.succeeded.entries@.len() == 0,
            r.errors.entries@.len() == 0,
            r.faulty_peers.entries@.len() == 0,
            r.succeeded.wf(),
            r.errors.wf(),
            r.faulty_peers.wf(),
    {
        BatchedRequestsResult {
            remaining,
            succeeded: VecMap::new(),
            errors: VecMap::new(),
            faulty_peers: VecMap::new(),
        }
    }

    pub fn empty() -> (r: BatchedRequestsResult<T>)
        ensures
            r.wf(),
            r.remaining.entries@.len() == 0,
            r.succeeded.entries@.len() == 0,
            r.errors.entries@.len() == 0,
            r.faulty_peers.entries@.len() == 0,
    {
        BatchedRequestsResult {
            remaining: VecMap::new(),
            succeeded: VecMap::new(),
            errors: VecMap::new(),
            faulty_peers: VecMap::new(),
        }
    }
}

/// What became of one open request.
#[derive(Debug)]
pub enum RequestPoll {
    /// The connection is still being made.
    Connecting,
    /// The connection could not be made.
    ConnectFailed,
    /// The peer has not answered yet.
    Waiting,
    /// The peer answered.
    Response(HttpResponseType),
}

/// What happened outside since the last step.
#[derive(Debug)]
pub enum RequestsEvent {
    /// For each request begun, in the order asked for, the ID of the event
    /// that will follow it, or `None` where no connection could be begun.
    Begun(Vec<Option<usize>>),
    /// For each open request, in the order of `remaining`, what became of it.
    Polled(Vec<RequestPoll>),
}

/// What the machine needs done outside before its next step.
#[derive(Clone, Copy, Debug, PartialEq, Eq, Structural)]
pub enum RequestsAction {
    /// Begin the first `count` requests of the queue.
    Begin { count: usize },
    /// Look at each of the open requests.
    Poll,
    /// Nothing: the machine is done.
    Nothing,
}

/// The machine that sends a queue of requests: the queue that is left,
/// and what the requests sent have come to.
#[derive(Debug)]
pub enum BatchedRequestsState<T> {
    BeginRequests(PriorityQueue<T>, BatchedRequestsResult<T>),
    PollRequests(PriorityQueue<T>, BatchedRequestsResult<T>),
    Done(BatchedRequestsResult<T>),
}

/// How many requests are begun at once from a queue of `queued`.
pub open spec fn begin_count(queued: nat, max_inflight: u64) -> nat {
    if queued <= max_inflight {
        queued
    } else {
        max_inflight as nat
    }
}

/// The open requests after the first `n` of `items` were begun: each is
/// filed under the ID it was given, and dropped where it was given none.
pub open spec fn begin_all<T>(
    remaining: Map<usize, T>,
    items: Seq<T>,
    ids: Seq<Option<usize>>,
    n: int,
) -> Map<usize, T>
    decreases n,
{
    if n <= 0 {
        remaining
    } else {
        let m = begin_all(remaining, items, ids, n - 1);
        match ids[n - 1] {
            Some(e) => m.insert(e, items[n - 1]),
            None => m,
        }
    }
}

/// The tables a round of polling fills.
pub struct PollTables<T: Requestable> {
    /// The requests that stay open.
    pub pending: Map<usize, T>,
    pub succeeded: Map<T::V, Option<HttpResponseType>>,
    pub faulty_peers: Map<usize, String>,
}

/// The tables after the request `request`, open under `event_id`, was
/// looked at: it stays open while it connects or waits, its peer is
/// faulty where the connection failed or the answer is `NotFound`, and any
/// other answer is filed as a success.
pub open spec fn poll_request<T: Requestable>(
    t: PollTables<T>,
    event_id: usize,
    request: T,
    reply: RequestPoll,
) -> PollTables<T> {
    match reply {
        RequestPoll::Connecting => PollTables { pending: t.pending.insert(event_id, request), ..t },
        RequestPoll::Waiting => PollTables { pending: t.pending.insert(event_id, request), ..t },
        RequestPoll::ConnectFailed => PollTables {
            faulty_peers: t.faulty_peers.insert(event_id, request.url_spec()),
            ..t
        },
        RequestPoll::Response(HttpResponseType::NotFound) => PollTables {
            faulty_peers: t.faulty_peers.insert(event_id, request.url_spec()),
            ..t
        },
        RequestPoll::Response(response) => PollTables {
            succeeded: t.succeeded.insert(request@, Some(response)),
            ..t
        },
    }
}

/// The tables after all open requests were looked at, from the last to
/// the first.
pub open spec fn poll_all<T: Requestable>(
    t: PollTables<T>,
    open: Seq<(usize, T)>,
    replies: Seq<RequestPoll>,
) -> PollTables<T>
    decreases open.len(),
{
    if open.len() == 0 || replies.len() == 0 {
        t
    } else {
        poll_all(
            poll_request(t, open.last().0, open.last().1, replies.last()),
            open.drop_last(),
            replies.drop_last(),
        )
    }
}

/// How one step takes `fsm` to `next` on `event`. An event that does not
/// answer what the state asked for changes nothing.
pub open spec fn requests_step<T: Requestable>(
    fsm: BatchedRequestsState<T>,
    event: RequestsEvent,
    max_inflight: u64,
    next: BatchedRequestsState<T>,
) -> bool {
    match fsm {
        BatchedRequestsState::BeginRequests(queue, results) => match event {
            RequestsEvent::Begun(ids) => {
                let k = begin_count(queue.items@.len(), max_inflight);
                if ids@.len() == k {
                    &&& next matches BatchedRequestsState::PollRequests(q, r)
                    &&& q.items@ == queue.items@.subrange(k as int, queue.items@.len() as int)
                    &&& r.remaining@ == begin_all(results.remaining@, queue.items@, ids@, k as int)
                    &&& r.succeeded == results.succeeded
                    &&& r.errors == results.errors
                    &&& r.faulty_peers == results.faulty_peers
                } else {
                    next == fsm
                }
            },
            _ => next == fsm,
        },
        BatchedRequestsState::PollRequests(queue, results) => match event {
            RequestsEvent::Polled(replies) => if replies@.len() == results.remaining.entries@.len() {
                let t = poll_all(
                    PollTables {
                        pending: Map::empty(),
                        succeeded: results.succeeded@,
                        faulty_peers: results.faulty_peers@,
                    },
                    results.remaining.entries@,
                    replies@,
                );
                let filed = |r: BatchedRequestsResult<T>|
                    {
                        &&& r.remaining@ == t.pending
                        &&& r.succeeded@ == t.succeeded
                        &&& r.faulty_peers@ == t.faulty_peers
                        &&& r.errors == results.errors
                    };
                if t.pending.dom() != Set::<usize>::empty() {
                    &&& next matches BatchedRequestsState::PollRequests(q, r)
                    &&& q == queue
                    &&& filed(r)
                } else if queue.items@.len() == 0 {
                    &&& next matches BatchedRequestsState::Done(r)
                    &&& filed(r)
                } else {
                    &&& next matches BatchedRequestsState::BeginRequests(q, r)
                    &&& q == queue
                    &&& filed(r)
                }
            } else {
                next == fsm
            },
            _ => next == fsm,
        },
        BatchedRequestsState::Done(_) => next == fsm,
    }
}

/// What `state` needs done outside before its next step.
pub open spec fn requests_action_for<T>(
    state: BatchedRequestsState<T>,
    max_inflight: u64,
) -> RequestsAction {
    match state {
        BatchedRequestsState::BeginRequests(q, _) => RequestsAction::Begin {
            count: begin_count(q.items@.len(), max_inflight) as usize,
        },
        BatchedRequestsState::PollRequests(_, _) => RequestsAction::Poll,
        BatchedRequestsState::Done(_) => RequestsAction::Nothing,
    }
}

impl<T: Requestable> BatchedRequestsState<T> {
    pub open spec fn wf(&self) -> bool {
        match self {
            BatchedRequestsState::BeginRequests(q, r) => q.wf() && r.wf(),
            BatchedRequestsState::PollRequests(q, r) => q.wf() && r.wf(),
            BatchedRequestsState::Done(r) => r.wf(),
        }
    }

    /// Whether `r` is one of the requests the machine holds.
    pub open spec fn holds(&self, r: T) -> bool {
        match self {
            BatchedRequestsState::BeginRequests(q, res) => q.items@.contains(r) || res.holds(r),
            BatchedRequestsState::PollRequests(q, res) => q.items@.contains(r) || res.holds(r),
            BatchedRequestsState::Done(res) => res.holds(r),
        }
    }

    /// How many requests the machine holds.
    pub open spec fn total(&self) -> nat {
        match self {
            BatchedRequestsState::BeginRequests(q, res) => q.items@.len() + res.total(),
            BatchedRequestsState::PollRequests(q, res) => q.items@.len() + res.total(),
            BatchedRequestsState::Done(res) => res.total(),
        }
    }

    /// The machine that is to send the requests of `queue`.
    pub fn new(queue: PriorityQueue<T>) -> (r: BatchedRequestsState<T>)
        requires
            queue.wf(),
        ensures
            r.wf(),
            r matches BatchedRequestsState::BeginRequests(q, res) && q == queue
                && res.remaining.entries@.len() == 0 && res.succeeded.entries@.len() == 0
                && res.faulty_peers.entries@.len() == 0 && res.errors.entries@.len() == 0,
    {
        BatchedRequestsState::BeginRequests(queue, BatchedRequestsResult::empty())
    }

    /// What has to happen outside before the next step.
    pub fn next_action(&self, max_inflight: u64) -> (a: RequestsAction)
        ensures
            a == requests_action_for(*self, max_inflight),
    {
        match self {
            BatchedRequestsState::BeginRequests(q, _) => {
                let n: usize = q.len();
                let count: usize = if n as u64 <= max_inflight {
                    n
                } else {
                    max_inflight as usize
                };
                RequestsAction::Begin { count }
            },
            BatchedRequestsState::PollRequests(_, _) => RequestsAction::Poll,
            BatchedRequestsState::Done(_) => RequestsAction::Nothing,
        }
    }

    /// One step of the machine. From `BeginRequests`, the requests at the
    /// head of the queue, as many as may be open at once, become open
    /// requests. From `PollRequests`, each open request is looked at; when
    /// none stays open, the machine begins again, or is `Done` once the
    /// queue is empty. No request is made up: every request held after
    /// the step was held before it.
    pub fn try_proceed(fsm: BatchedRequestsState<T>, event: RequestsEvent, max_inflight: u64) -> (next:
        BatchedRequestsState<T>)
        requires
            fsm.wf(),
            !(fsm is Done),
        ensures
            next.wf(),
            requests_step(fsm, event, max_inflight, next),
            next.total() <= fsm.total(),
            forall|r: T| next.holds(r) ==> fsm.holds(r),
    {
        match fsm {
            BatchedRequestsState::BeginRequests(queue, results) => {
                match event {
                    RequestsEvent::Begun(ids) => {
                        let n: usize = queue.len();
                        let k: usize = if n as u64 <= max_inflight {
                            n
                        } else {
                            max_inflight as usize
                        };
                        if ids.len() != k {
                            return BatchedRequestsState::BeginRequests(queue, results);
                        }
                        let ghost items0 = queue.items@;
                        let ghost rem0 = results.remaining;
                        let mut queue = queue;
                        let mut results = results;
                        let mut j: usize = 0;
                        while j < k
                            invariant
                                j <= k <= n,
                                n == items0.len(),
                                ids@.len() == k,
                                queue.wf(),
                                queue.items@ == items0.subrange(j as int, n as int),
                                results.wf(),
                                results.remaining@ == begin_all(rem0@, items0, ids@, j as int),
                                results.succeeded == fsm->BeginRequests_1.succeeded,
                                results.errors == fsm->BeginRequests_1.errors,
                                results.faulty_peers == fsm->BeginRequests_1.faulty_peers,
                                rem0 == fsm->BeginRequests_1.remaining,
                                results.remaining.entries@.len() <= rem0.entries@.len() + j,
                                forall|i: int|
                                    0 <= i < results.remaining.entries@.len() ==> {
                                        ||| exists|a: int|
                                            0 <= a < rem0.entries@.len() && #[trigger] rem0.entries@[a].1
                                                == results.remaining.entries@[i].1
                                        ||| items0.contains(
                                            (#[trigger] results.remaining.entries@[i]).1,
                                        )
                                    },
                            decreases k - j,
                        {
                            let ghost before = results.remaining.entries@;
                            let request = queue.pop().unwrap();
                            assert(request == items0[j as int]);
                            match ids[j] {
                                Some(event_id) => {
                                    results.remaining.insert(event_id, request);
                                    assert forall|i: int|
                                        0 <= i < results.remaining.entries@.len() implies {
                                        ||| exists|a: int|
                                            0 <= a < rem0.entries@.len() && #[trigger] rem0.entries@[a].1
                                                == results.remaining.entries@[i].1
                                        ||| items0.contains(
                                            (#[trigger] results.remaining.entries@[i]).1,
                                        )
                                    } by {
                                        if results.remaining.entries@[i].1 == request {
                                        } else {
                                            assert(i < before.len());
                                            assert(results.remaining.entries@[i] == before[i]);
                                        }
                                    }
                                    assert forall|i: int|
                                        0 <= i < results.remaining.entries@.len() implies (
                                    #[trigger] results.remaining.entries@[i]).1.comparable() by {
                                        if results.remaining.entries@[i].1 == request {
                                        } else {
                                            assert(results.remaining.entries@[i] == before[i]);
                                        }
                                    }
                                },
                                None => {},
                            }
                            j += 1;
                            assert(queue.items@ =~= items0.subrange(j as int, n as int));
                        }
                        let next = BatchedRequestsState::PollRequests(queue, results);
                        proof {
                            assert forall|r: T| next.holds(r) implies fsm.holds(r) by {
                                if queue.items@.contains(r) {
                                    let a = choose|a: int|
                                        0 <= a < queue.items@.len() && queue.items@[a] == r;
                                    assert(items0[a + k] == r);
                                } else if exists|i: int|
                                    0 <= i < results.remaining.entries@.len()
                                        && #[trigger] results.remaining.entries@[i].1 == r {
                                    let i = choose|i: int|
                                        0 <= i < results.remaining.entries@.len()
                                            && #[trigger] results.remaining.entries@[i].1 == r;
                                    assert(results.remaining.entries@[i].1 == r);
                                }
                            }
                        }
                        next
                    },
                    RequestsEvent::Polled(replies) => BatchedRequestsState::BeginRequests(
                        queue,
                        results,
                    ),
                }
            },
            BatchedRequestsState::PollRequests(queue, results) => {
                match event {
                    RequestsEvent::Polled(replies) => {
                        if replies.len() != results.remaining.entries.len() {
                            return BatchedRequestsState::PollRequests(queue, results);
                        }
                        let ghost results0 = results;
                        let ghost replies0 = replies@;
                        let ghost t0 = PollTables::<T> {
                            pending: Map::empty(),
                            succeeded: results.succeeded@,
                            faulty_peers: results.faulty_peers@,
                        };
                        let BatchedRequestsResult { remaining, succeeded, errors, faulty_peers } =
                            results;
                        let mut open: Vec<(usize, T)> = remaining.entries;
                        let mut replies = replies;
                        let mut succeeded = succeeded;
                        let mut faulty_peers = faulty_peers;
                        let mut pending: VecMap<usize, T> = VecMap::new();
                        let ghost open0 = open@;
                        while open.len() > 0
                            invariant
                                open@.len() == replies@.len(),
                                open@.len() <= open0.len(),
                                open@ == open0.subrange(0, open@.len() as int),
                                open0 == results0.remaining.entries@,
                                results0.wf(),
                                pending.wf(),
                                succeeded.wf(),
                                faulty_peers.wf(),
                                poll_all(
                                    PollTables {
                                        pending: pending@,
                                        succeeded: succeeded@,
                                        faulty_peers: faulty_peers@,
                                    },
                                    open@,
                                    replies@,
                                ) == poll_all(t0, open0, replies0),
                                pending.entries@.len() + succeeded.entries@.len() + open@.len()
                                    <= open0.len() + results0.succeeded.entries@.len(),
                                forall|i: int|
                                    0 <= i < pending.entries@.len() ==> (
                                    #[trigger] pending.entries@[i]).1.comparable() && exists|a: int|
                                        0 <= a < open0.len() && #[trigger] open0[a].1
                                            == pending.entries@[i].1,
                                forall|i: int|
                                    0 <= i < succeeded.entries@.len() ==> (
                                    #[trigger] succeeded.entries@[i]).0.comparable() && results0.holds(
                                        succeeded.entries@[i].0,
                                    ),
                            decreases open@.len(),
                        {
                            let ghost open_before = open@;
                            let ghost replies_before = replies@;
                            let ghost pending_before = pending.entries@;
                            let ghost succeeded_before = succeeded.entries@;
                            let (event_id, request) = open.pop().unwrap();
                            let reply = replies.pop().unwrap();
                            assert(open@ =~= open_before.drop_last());
                            assert(replies@ =~= replies_before.drop_last());
                            assert(request == open0[open@.len() as int].1);
                            assert(request.comparable());
                            assert(results0.holds(request));
                            match reply {
                                RequestPoll::Connecting => {
                                    pending.insert(event_id, request);
                                    assert forall|i: int| 0 <= i < pending.entries@.len() implies (
                                    #[trigger] pending.entries@[i]).1.comparable() && exists|a: int|
                                        0 <= a < open0.len() && #[trigger] open0[a].1
                                            == pending.entries@[i].1 by {
                                        if pending.entries@[i].1 != request {
                                            assert(pending.entries@[i] == pending_before[i]);
                                        }
                                    }
                                },
                                RequestPoll::Waiting => {
                                    pending.insert(event_id, request);
                                    assert forall|i: int| 0 <= i < pending.entries@.len() implies (
                                    #[trigger] pending.entries@[i]).1.comparable() && exists|a: int|
                                        0 <= a < open0.len() && #[trigger] open0[a].1
                                            == pending.entries@[i].1 by {
                                        if pending.entries@[i].1 != request {
                                            assert(pending.entries@[i] == pending_before[i]);
                                        }
                                    }
                                },
                                RequestPoll::ConnectFailed => {
                                    let peer_url: String = request.get_url().clone();
                                    faulty_peers.insert(event_id, peer_url);
                                },
                                RequestPoll::Response(HttpResponseType::NotFound) => {
                                    let peer_url: String = request.get_url().clone();
                                    faulty_peers.insert(event_id, peer_url);
                                },
                                RequestPoll::Response(response) => {
                                    succeeded.insert(request, Some(response));
                                    assert forall|i: int| 0 <= i < succeeded.entries@.len() implies (
                                    #[trigger] succeeded.entries@[i]).0.comparable() && results0.holds(
                                        succeeded.entries@[i].0,
                                    ) by {
                                        if succeeded.entries@[i].0 != request {
                                            assert(succeeded.entries@[i] == succeeded_before[i]);
                                        }
                                    }
                                },
                            }
                        }
                        let ghost t = poll_all(t0, open0, replies0);
                        assert(t.pending == pending@);
                        let any_pending: bool = pending.len() > 0;
                        proof {
                            if pending.entries@.len() > 0 {
                                crate::vecmap::lemma_key_index(pending.entries@, 0);
                                assert(pending@.dom().contains(pending.entries@[0].0@));
                            } else {
                                assert(pending@.dom() =~= Set::<usize>::empty());
                            }
                        }
                        let results = BatchedRequestsResult {
                            remaining: pending,
                            succeeded,
                            errors,
                            faulty_peers,
                        };
                        assert forall|r: T| results.holds(r) implies results0.holds(r) by {
                            if exists|i: int|
                                0 <= i < results.remaining.entries@.len()
                                    && #[trigger] results.remaining.entries@[i].1 == r {
                                let i = choose|i: int|
                                    0 <= i < results.remaining.entries@.len()
                                        && #[trigger] results.remaining.entries@[i].1 == r;
                                assert(results.remaining.entries@[i].1 == r);
                            } else {
                                let i = choose|i: int|
                                    0 <= i < results.succeeded.entries@.len()
                                        && #[trigger] results.succeeded.entries@[i].0 == r;
                                assert(results.succeeded.entries@[i].0 == r);
                            }
                        }
                        if any_pending {
                            BatchedRequestsState::PollRequests(queue, results)
                        } else if queue.len() == 0 {
                            BatchedRequestsState::Done(results)
                        } else {
                            BatchedRequestsState::BeginRequests(queue, results)
                        }
                    },
                    RequestsEvent::Begun(ids) => BatchedRequestsState::PollRequests(queue, results),
                }
            },
            BatchedRequestsState::Done(results) => BatchedRequestsState::Done(results),
        }
    }
}

} // verus!
