//! Per-connection decision logic for a WebSocket subscriber.
//!
//! The connection task owns the socket, the broadcast receiver and the
//! timers; each thing that happens to it is handed to [`WsSession::step`],
//! which updates the subscriber's filters, queue, drop-burst window and
//! heartbeat deadline, and says what to send and whether to close.
//!
//! Delivery semantics: a bounded per-subscriber queue drops its oldest event
//! on overflow; more than ten drops within a minute disconnects the
//! subscriber so it reconciles over REST. A ping goes out every 30 s and the
//! peer has 10 s to answer it. Times are monotonic nanoseconds.

use vstd::prelude::*;

use crate::events::Event;
use crate::ws::filter::{filter_matches, name_views, requested, sub_views, Filter, Subscription, SubscriptionSet};
use crate::ws::queue::DropOldestQueue;
use crate::events::event_name;

verus! {

/// How often the connection sends a heartbeat ping (a `Tick`).
pub const PING_PERIOD_NANOS: u64 = 30_000_000_000;

/// How long the peer has to answer a ping.
pub const PONG_GRACE_NANOS: u64 = 10_000_000_000;

/// Length of the drop-burst window.
pub const DROP_WINDOW_NANOS: u64 = 60_000_000_000;

/// Drops tolerated within one window.
pub const MAX_DROPS_PER_WINDOW: u64 = 10;

/// Client → server frame.
pub enum ClientFrame {
    Subscribe { events: Vec<String>, filter: Filter },
    Unsubscribe { events: Vec<String> },
    Ping,
}

/// Server → client control frame (events are sent as themselves).
pub enum ServerFrame {
    Subscribed { active_filters: Vec<Subscription> },
    Unsubscribed { active_filters: Vec<Subscription> },
    Error { message: String },
}

/// Why the connection closed.
#[derive(Debug)]
pub enum Closed {
    PeerClosed,
    PeerError(String),
    SendFailed(String),
    InvalidFrame(String),
    HealthcheckTimeout,
    DropBurst,
}

/// Something that happened to the connection.
pub enum WsInput {
    /// An event arrived on the broadcast bus.
    Bus(Event),
    /// The bus skipped this many events before the subscriber read them.
    BusLagged(u64),
    /// The bus is gone.
    BusClosed,
    /// The peer's stream ended.
    PeerEnded,
    /// Reading from the peer failed.
    PeerFailed(String),
    /// A well-formed client frame.
    Frame(ClientFrame),
    /// A text frame that is not a client frame; carries the parse error.
    BadFrame(String),
    Pong,
    Ping(Vec<u8>),
    Close,
    Binary,
    /// The heartbeat timer fired.
    Tick,
    /// The heartbeat ping could not be sent.
    PingFailed,
    /// The pong deadline passed.
    DeadlineElapsed,
    /// A queued event could not be sent.
    SendFailed(String),
}

/// What to do after an input.
pub struct WsStep {
    /// A control frame to send.
    pub reply: Option<ServerFrame>,
    /// A pong to send, with this payload.
    pub pong: Option<Vec<u8>>,
    /// Send a heartbeat ping.
    pub send_ping: bool,
    /// Events lost for this subscriber (to count and report).
    pub dropped: u64,
    /// Close the connection for this reason.
    pub close: Option<Closed>,
}

pub struct WsSession {
    subs: SubscriptionSet,
    queue: DropOldestQueue,
    window_start: u64,
    drops_in_window: u64,
    pong_deadline: Option<u64>,
}

pub open spec fn quiet(s: WsStep) -> bool {
    &&& s.reply is None
    &&& s.pong is None
    &&& !s.send_ping
    &&& s.dropped == 0
    &&& s.close is None
}

/// A step that sends nothing but ends the connection with `c`.
pub open spec fn closes_only(s: WsStep, c: Closed) -> bool {
    &&& s.reply is None
    &&& s.pong is None
    &&& !s.send_ping
    &&& s.dropped == 0
    &&& s.close == Some(c)
}

/// Everything a step can change but the pending pong deadline is as it was:
/// subscriptions, queued events, the drop window and its count.
pub open spec fn keeps_all_but_deadline(before: WsSession, after: WsSession) -> bool {
    &&& after.subscriptions() == before.subscriptions()
    &&& after.queued() == before.queued()
    &&& after.drops() == before.drops()
    &&& after.window_start_at() == before.window_start_at()
}

/// The session is as it was, pending pong deadline included.
pub open spec fn keeps_state(before: WsSession, after: WsSession) -> bool {
    &&& keeps_all_but_deadline(before, after)
    &&& after.deadline() == before.deadline()
}

/// Does some subscription in `subs` accept `e`: same event name, and a
/// filter that lets it through?
pub open spec fn wants(subs: Set<(Seq<char>, Filter)>, e: Event) -> bool {
    exists|x: (Seq<char>, Filter)| subs.contains(x) && x.0 == event_name(e) && filter_matches(x.1, e)
}

/// What `WsSession::step` does: the session `before` receives `input` at
/// time `now`, becomes `after` and answers `r`.
pub open spec fn step_post(before: WsSession, input: WsInput, now: u64, after: WsSession, r: WsStep) -> bool {
    &&& after.queue_capacity() == before.queue_capacity()
    &&& match input {
        WsInput::Bus(e) => {
            let wanted = wants(before.subscriptions(), e);
            let full = before.queued().len() == before.queue_capacity();
            &&& after.subscriptions() == before.subscriptions()
            &&& after.deadline() == before.deadline()
            &&& r.reply is None && r.pong is None && !r.send_ping
            &&& !wanted ==> {
                &&& quiet(r)
                &&& after.queued() == before.queued()
                &&& after.drops() == before.drops()
                &&& after.window_start_at() == before.window_start_at()
            }
            &&& (wanted && !full) ==> {
                &&& quiet(r)
                &&& after.queued() == before.queued().push(e)
                &&& after.drops() == before.drops()
                &&& after.window_start_at() == before.window_start_at()
            }
            &&& (wanted && full) ==> {
                let expired = now >= before.window_start_at()
                    && now - before.window_start_at() > DROP_WINDOW_NANOS;
                let count = if expired { 1 } else { before.drops() + 1 };
                &&& after.queued() == before.queued().drop_first().push(e)
                &&& r.dropped == 1
                &&& after.window_start_at() == (if expired { now } else { before.window_start_at() })
                &&& (count > MAX_DROPS_PER_WINDOW ==> r.close == Some(Closed::DropBurst)
                    && after.drops() == before.drops())
                &&& (count <= MAX_DROPS_PER_WINDOW ==> r.close is None && after.drops() == count)
            }
        },
        WsInput::BusLagged(n) => r.dropped == n && r.close is None && r.reply is None
            && r.pong is None && !r.send_ping && keeps_state(before, after),
        WsInput::BusClosed => closes_only(r, Closed::PeerClosed) && keeps_state(before, after),
        WsInput::PeerEnded => closes_only(r, Closed::PeerClosed) && keeps_state(before, after),
        WsInput::PeerFailed(m) => r.close matches Some(Closed::PeerError(c)) && c@ == m@
            && r.reply is None && r.pong is None && !r.send_ping && r.dropped == 0
            && keeps_state(before, after),
        WsInput::Frame(ClientFrame::Subscribe { events, filter }) => {
            &&& after.subscriptions() == before.subscriptions().union(requested(events@, filter))
            &&& r.reply matches Some(ServerFrame::Subscribed { active_filters })
                && sub_views(active_filters@).to_set() == after.subscriptions()
                && sub_views(active_filters@).no_duplicates()
            &&& r.close is None && r.pong is None && !r.send_ping && r.dropped == 0
            &&& after.queued() == before.queued()
            &&& after.drops() == before.drops()
            &&& after.window_start_at() == before.window_start_at()
            &&& after.deadline() == before.deadline()
        },
        WsInput::Frame(ClientFrame::Unsubscribe { events }) => {
            &&& after.subscriptions() == before.subscriptions().filter(
                |x: (Seq<char>, Filter)| !name_views(events@).contains(x.0))
            &&& r.reply matches Some(ServerFrame::Unsubscribed { active_filters })
                && sub_views(active_filters@).to_set() == after.subscriptions()
                && sub_views(active_filters@).no_duplicates()
            &&& r.close is None && r.pong is None && !r.send_ping && r.dropped == 0
            &&& after.queued() == before.queued()
            &&& after.drops() == before.drops()
            &&& after.window_start_at() == before.window_start_at()
            &&& after.deadline() == before.deadline()
        },
        WsInput::Frame(ClientFrame::Ping) => r.pong matches Some(p) && p@.len() == 0
            && r.close is None && r.reply is None && !r.send_ping && r.dropped == 0
            && keeps_state(before, after),
        WsInput::BadFrame(err) => r.reply matches Some(ServerFrame::Error { message })
            && message@ == "invalid frame: "@ + err@ && r.close is None
            && r.pong is None && !r.send_ping && r.dropped == 0
            && keeps_state(before, after),
        WsInput::Pong => after.deadline() is None && quiet(r)
            && keeps_all_but_deadline(before, after),
        WsInput::Ping(p) => r.pong matches Some(q) && q@ == p@ && r.close is None
            && r.reply is None && !r.send_ping && r.dropped == 0
            && keeps_state(before, after),
        WsInput::Close => closes_only(r, Closed::PeerClosed) && keeps_state(before, after),
        WsInput::Binary => {
            &&& r.reply matches Some(ServerFrame::Error { message })
                && message@ == "binary frames unsupported"@
            &&& r.close matches Some(Closed::InvalidFrame(c)) && c@ == "binary"@
            &&& r.pong is None && !r.send_ping && r.dropped == 0
            &&& keeps_state(before, after)
        },
        WsInput::Tick => r.send_ping && r.close is None && r.reply is None && r.pong is None
            && r.dropped == 0 && after.deadline() == Some(
            if now > u64::MAX - PONG_GRACE_NANOS { u64::MAX } else { (now + PONG_GRACE_NANOS) as u64 },
        ) && keeps_all_but_deadline(before, after),
        WsInput::PingFailed => closes_only(r, Closed::PeerClosed) && keeps_state(before, after),
        WsInput::DeadlineElapsed => closes_only(r, Closed::HealthcheckTimeout)
            && keeps_state(before, after),
        WsInput::SendFailed(m) => r.close matches Some(Closed::SendFailed(c)) && c@ == m@
            && r.reply is None && r.pong is None && !r.send_ping && r.dropped == 0
            && keeps_state(before, after),
    }
}

/// What `WsSession::next_outgoing` does: `before` hands out `r` and becomes
/// `after`.
pub open spec fn pull_post(before: WsSession, after: WsSession, r: Option<Event>) -> bool {
    &&& after.subscriptions() == before.subscriptions()
    &&& after.drops() == before.drops()
    &&& after.window_start_at() == before.window_start_at()
    &&& after.deadline() == before.deadline()
    &&& after.queue_capacity() == before.queue_capacity()
    &&& match r {
        Some(e) => before.queued().len() > 0 && e == before.queued()[0]
            && after.queued() == before.queued().drop_first(),
        None => before.queued().len() == 0 && after.queued() == before.queued(),
    }
}

impl WsSession {
    pub closed spec fn subscriptions(&self) -> Set<(Seq<char>, Filter)> {
        self.subs@
    }

    pub closed spec fn queued(&self) -> Seq<Event> {
        self.queue.contents()
    }

    pub closed spec fn queue_capacity(&self) -> nat {
        self.queue.capacity()
    }

    pub closed spec fn window_start_at(&self) -> u64 {
        self.window_start
    }

    pub closed spec fn drops(&self) -> u64 {
        self.drops_in_window
    }

    pub closed spec fn deadline(&self) -> Option<u64> {
        self.pong_deadline
    }

    pub closed spec fn wf(&self) -> bool {
        &&& self.subs.wf()
        &&& self.queue.wf()
        &&& self.drops_in_window <= MAX_DROPS_PER_WINDOW
    }

    /// A fresh connection: no subscriptions, an empty queue of
    /// `queue_depth` slots (at least one), the drop window opening `now`.
    pub fn new(queue_depth: usize, now: u64) -> (r: WsSession)
        ensures
            r.wf(),
            r.subscriptions() == Set::<(Seq<char>, Filter)>::empty(),
            r.queued() == Seq::<Event>::empty(),
            r.queue_capacity() == (if queue_depth == 0 { 1 } else { queue_depth }),
            r.window_start_at() == now,
            r.drops() == 0,
            r.deadline() is None,
    {
        WsSession {
            subs: SubscriptionSet::new(),
            queue: DropOldestQueue::new(queue_depth),
            window_start: now,
            drops_in_window: 0,
            pong_deadline: None,
        }
    }

    /// The next event to send, oldest first.
    pub fn next_outgoing(&mut self) -> (r: Option<Event>)
        requires
            old(self).wf(),
        ensures
            final(self).wf(),
            pull_post(*old(self), *final(self), r),
    {
        self.queue.pop()
    }

    /// When the outstanding ping must have been answered, if one is.
    pub fn pong_deadline(&self) -> (r: Option<u64>)
        ensures
            r == self.deadline(),
    {
        self.pong_deadline
    }

    fn nothing() -> (r: WsStep)
        ensures
            quiet(r),
    {
        WsStep { reply: None, pong: None, send_ping: false, dropped: 0, close: None }
    }

    fn closing(c: Closed) -> (r: WsStep)
        ensures
            r.close == Some(c),
            r.reply is None,
            r.pong is None,
            !r.send_ping,
            r.dropped == 0,
    {
        WsStep { reply: None, pong: None, send_ping: false, dropped: 0, close: Some(c) }
    }

    /// Handle one input at monotonic time `now`.
    pub fn step(&mut self, input: WsInput, now: u64) -> (r: WsStep)
        requires
            old(self).wf(),
        ensures
            final(self).wf(),
            step_post(*old(self), input, now, *final(self), r),
    {
        match input {
            WsInput::Bus(event) => {
                if !self.subs.matches(&event) {
                    return Self::nothing();
                }
                let overflowed = self.queue.push(event);
                if !overflowed {
                    return Self::nothing();
                }
                let mut count = self.drops_in_window + 1;
                if now >= self.window_start && now - self.window_start > DROP_WINDOW_NANOS {
                    self.window_start = now;
                    count = 1;
                }
                if count > MAX_DROPS_PER_WINDOW {
                    return WsStep { reply: None, pong: None, send_ping: false, dropped: 1, close: Some(Closed::DropBurst) };
                }
                self.drops_in_window = count;
                WsStep { reply: None, pong: None, send_ping: false, dropped: 1, close: None }
            },
            WsInput::BusLagged(n) => WsStep { reply: None, pong: None, send_ping: false, dropped: n, close: None },
            WsInput::BusClosed => Self::closing(Closed::PeerClosed),
            WsInput::PeerEnded => Self::closing(Closed::PeerClosed),
            WsInput::PeerFailed(m) => Self::closing(Closed::PeerError(m)),
            WsInput::Frame(ClientFrame::Subscribe { events, filter }) => {
                self.subs.subscribe(events, filter);
                let active_filters = self.subs.active();
                WsStep {
                    reply: Some(ServerFrame::Subscribed { active_filters }),
                    pong: None,
                    send_ping: false,
                    dropped: 0,
                    close: None,
                }
            },
            WsInput::Frame(ClientFrame::Unsubscribe { events }) => {
                self.subs.unsubscribe(events);
                let active_filters = self.subs.active();
                WsStep {
                    reply: Some(ServerFrame::Unsubscribed { active_filters }),
                    pong: None,
                    send_ping: false,
                    dropped: 0,
                    close: None,
                }
            },
            WsInput::Frame(ClientFrame::Ping) => {
                WsStep { reply: None, pong: Some(Vec::new()), send_ping: false, dropped: 0, close: None }
            },
            WsInput::BadFrame(err) => {
                let mut message = "invalid frame: ".to_owned();
                message.append(err.as_str());
                WsStep {
                    reply: Some(ServerFrame::Error { message }),
                    pong: None,
                    send_ping: false,
                    dropped: 0,
                    close: None,
                }
            },
            WsInput::Pong => {
                self.pong_deadline = None;
                Self::nothing()
            },
            WsInput::Ping(p) => WsStep { reply: None, pong: Some(p), send_ping: false, dropped: 0, close: None },
            WsInput::Close => Self::closing(Closed::PeerClosed),
            WsInput::Binary => WsStep {
                reply: Some(ServerFrame::Error { message: "binary frames unsupported".to_owned() }),
                pong: None,
                send_ping: false,
                dropped: 0,
                close: Some(Closed::InvalidFrame("binary".to_owned())),
            },
            WsInput::Tick => {
                self.pong_deadline = Some(now.saturating_add(PONG_GRACE_NANOS));
                WsStep { reply: None, pong: None, send_ping: true, dropped: 0, close: None }
            },
            WsInput::PingFailed => Self::closing(Closed::PeerClosed),
            WsInput::DeadlineElapsed => Self::closing(Closed::HealthcheckTimeout),
            WsInput::SendFailed(m) => Self::closing(Closed::SendFailed(m)),
        }
    }
}

/// One thing that happens to a connection, as the connection task sees it.
pub enum WsMove {
    /// `step` received this input at this time and answered this.
    Input(WsInput, u64, WsStep),
    /// `next_outgoing` handed out this, to be written to the peer.
    Pull(Option<Event>),
}

/// `after` is what `before` becomes through `mv`.
pub open spec fn move_post(before: WsSession, mv: WsMove, after: WsSession) -> bool {
    match mv {
        WsMove::Input(input, now, r) => step_post(before, input, now, after, r),
        WsMove::Pull(r) => pull_post(before, after, r),
    }
}

/// `states` is a run of one connection through `moves`: `states[i + 1]` is
/// what `states[i]` becomes through `moves[i]`.
pub open spec fn is_run(states: Seq<WsSession>, moves: Seq<WsMove>) -> bool {
    &&& states.len() == moves.len() + 1
    &&& forall|i: int| 0 <= i < moves.len() ==> move_post(states[i], #[trigger] moves[i], states[i + 1])
}

/// The events written to the peer, in order.
pub open spec fn written(moves: Seq<WsMove>) -> Seq<Event>
    decreases moves.len(),
{
    if moves.len() == 0 {
        Seq::empty()
    } else {
        let w = written(moves.drop_last());
        match moves.last() {
            WsMove::Pull(Some(e)) => w.push(e),
            _ => w,
        }
    }
}

/// The bus events that some subscription accepted when they arrived, in
/// bus order; `states[i]` is the session when `moves[i]` happened.
pub open spec fn accepted(states: Seq<WsSession>, moves: Seq<WsMove>) -> Seq<Event>
    decreases moves.len(),
{
    if moves.len() == 0 {
        Seq::empty()
    } else {
        let a = accepted(states, moves.drop_last());
        match moves.last() {
            WsMove::Input(WsInput::Bus(e), _, _) => if wants(states[moves.len() - 1].subscriptions(), e) {
                a.push(e)
            } else {
                a
            },
            _ => a,
        }
    }
}

/// A bus event that found the subscriber's queue full.
pub open spec fn overflowed(mv: WsMove) -> bool {
    match mv {
        WsMove::Input(WsInput::Bus(_), _, r) => r.dropped > 0,
        _ => false,
    }
}

proof fn lemma_run_prefix_delivers(states: Seq<WsSession>, moves: Seq<WsMove>, k: int)
    requires
        is_run(states, moves),
        forall|i: int| 0 <= i < moves.len() ==> !overflowed(#[trigger] moves[i]),
        0 <= k <= moves.len(),
    ensures
        written(moves.take(k)) + states[k].queued() == states[0].queued() + accepted(states, moves.take(k)),
    decreases k,
{
    if k == 0 {
        assert(moves.take(0) =~= Seq::<WsMove>::empty());
        assert(written(moves.take(0)) + states[0].queued() =~= states[0].queued());
        assert(states[0].queued() + accepted(states, moves.take(0)) =~= states[0].queued());
    } else {
        let j = k - 1;
        lemma_run_prefix_delivers(states, moves, j);
        let pre = moves.take(j);
        let cur = moves.take(k);
        assert(cur.drop_last() =~= pre);
        assert(cur.last() == moves[j]);
        let w = written(pre);
        let a = accepted(states, pre);
        let q = states[j].queued();
        let q2 = states[k].queued();
        let i0 = states[0].queued();
        assert(w + q == i0 + a);
        assert(move_post(states[j], moves[j], states[j + 1]));
        assert(!overflowed(moves[j]));
        match moves[j] {
            WsMove::Input(input, now, r) => {
                assert(written(cur) == w);
                match input {
                    WsInput::Bus(e) => {
                        if wants(states[j].subscriptions(), e) {
                            assert(accepted(states, cur) == a.push(e));
                            assert(q2 == q.push(e));
                            assert(w + q2 =~= (w + q).push(e));
                            assert(i0 + a.push(e) =~= (i0 + a).push(e));
                        } else {
                            assert(accepted(states, cur) == a);
                        }
                    },
                    _ => {
                        assert(accepted(states, cur) == a);
                        assert(q2 == q);
                    },
                }
            },
            WsMove::Pull(r) => {
                assert(accepted(states, cur) == a);
                match r {
                    Some(e) => {
                        assert(written(cur) == w.push(e));
                        assert(w.push(e) + q2 =~= w + q);
                    },
                    None => {
                        assert(written(cur) == w);
                        assert(q2 == q);
                    },
                }
            },
        }
    }
}

/// Events reach the peer in bus order, and only those a subscription
/// accepted when they arrived: over any run of a connection in which no
/// event found the queue full, the events written so far followed by those
/// still queued are the events queued at the start followed by every
/// accepted bus event, in the order the bus delivered them.
pub proof fn lemma_run_delivers_accepted_in_order(states: Seq<WsSession>, moves: Seq<WsMove>)
    requires
        is_run(states, moves),
        forall|i: int| 0 <= i < moves.len() ==> !overflowed(#[trigger] moves[i]),
    ensures
        written(moves) + states.last().queued() == states[0].queued() + accepted(states, moves),
{
    lemma_run_prefix_delivers(states, moves, moves.len() as int);
    assert(moves.take(moves.len() as int) =~= moves);
}

/// `f` places each element of `a` at a position of `b` holding the same
/// event, in increasing order.
pub open spec fn embeds(a: Seq<Event>, b: Seq<Event>, f: spec_fn(int) -> int) -> bool {
    &&& forall|i: int| 0 <= i < a.len() ==> 0 <= #[trigger] f(i) < b.len() && a[i] == b[f(i)]
    &&& forall|i: int, j: int| 0 <= i < j < a.len() ==> #[trigger] f(i) < #[trigger] f(j)
}

/// `a` is `b` with some events left out, the rest in the same order.
pub open spec fn is_subsequence(a: Seq<Event>, b: Seq<Event>) -> bool {
    exists|f: spec_fn(int) -> int| embeds(a, b, f)
}

proof fn lemma_subsequence_push(a: Seq<Event>, b: Seq<Event>, e: Event)
    requires
        is_subsequence(a, b),
    ensures
        is_subsequence(a.push(e), b.push(e)),
{
    let f = choose|f: spec_fn(int) -> int| embeds(a, b, f);
    let g = |i: int| if i < a.len() { f(i) } else { b.len() as int };
    assert(embeds(a.push(e), b.push(e), g));
}

proof fn lemma_subsequence_remove(a: Seq<Event>, b: Seq<Event>, k: int)
    requires
        is_subsequence(a, b),
        0 <= k < a.len(),
    ensures
        is_subsequence(a.remove(k), b),
{
    let f = choose|f: spec_fn(int) -> int| embeds(a, b, f);
    let g = |i: int| if i < k { f(i) } else { f(i + 1) };
    let a2 = a.remove(k);
    assert forall|i: int| 0 <= i < a2.len() implies 0 <= #[trigger] g(i) < b.len() && a2[i] == b[g(i)] by {
        if i < k {
            assert(a2[i] == a[i]);
        } else {
            assert(a2[i] == a[i + 1]);
        }
    }
    assert forall|i: int, j: int| 0 <= i < j < a2.len() implies #[trigger] g(i) < #[trigger] g(j) by {
        let i0 = if i < k { i } else { i + 1 };
        let j0 = if j < k { j } else { j + 1 };
        assert(f(i0) < f(j0));
    }
    assert(embeds(a2, b, g));
}

proof fn lemma_run_prefix_subsequence(states: Seq<WsSession>, moves: Seq<WsMove>, k: int)
    requires
        is_run(states, moves),
        forall|i: int| 0 <= i < states.len() ==> #[trigger] states[i].wf(),
        0 <= k <= moves.len(),
    ensures
        is_subsequence(written(moves.take(k)) + states[k].queued(), states[0].queued() + accepted(states, moves.take(k))),
    decreases k,
{
    if k == 0 {
        let x = written(moves.take(0)) + states[0].queued();
        assert(moves.take(0) =~= Seq::<WsMove>::empty());
        assert(x =~= states[0].queued());
        assert(states[0].queued() + accepted(states, moves.take(0)) =~= states[0].queued());
        let id = |i: int| i;
        assert(embeds(x, x, id));
    } else {
        let j = k - 1;
        lemma_run_prefix_subsequence(states, moves, j);
        let pre = moves.take(j);
        let cur = moves.take(k);
        assert(cur.drop_last() =~= pre);
        assert(cur.last() == moves[j]);
        let w = written(pre);
        let a = accepted(states, pre);
        let q = states[j].queued();
        let q2 = states[k].queued();
        let i0 = states[0].queued();
        assert(move_post(states[j], moves[j], states[j + 1]));
        assert(states[j].wf());
        lemma_session_bounded(states[j]);
        match moves[j] {
            WsMove::Input(input, now, r) => {
                assert(written(cur) == w);
                match input {
                    WsInput::Bus(e) => {
                        if wants(states[j].subscriptions(), e) {
                            assert(accepted(states, cur) == a.push(e));
                            assert(i0 + a.push(e) =~= (i0 + a).push(e));
                            if q.len() == states[j].queue_capacity() {
                                assert(w + q2 =~= (w + q).remove(w.len() as int).push(e));
                                lemma_subsequence_remove(w + q, i0 + a, w.len() as int);
                                lemma_subsequence_push((w + q).remove(w.len() as int), i0 + a, e);
                            } else {
                                assert(w + q2 =~= (w + q).push(e));
                                lemma_subsequence_push(w + q, i0 + a, e);
                            }
                        } else {
                            assert(accepted(states, cur) == a);
                        }
                    },
                    _ => {
                        assert(accepted(states, cur) == a);
                        assert(q2 == q);
                    },
                }
            },
            WsMove::Pull(r) => {
                assert(accepted(states, cur) == a);
                match r {
                    Some(e) => {
                        assert(written(cur) == w.push(e));
                        assert(w.push(e) + q2 =~= w + q);
                    },
                    None => {
                        assert(written(cur) == w);
                        assert(q2 == q);
                    },
                }
            },
        }
    }
}

/// Whatever overflows, events reach the peer in bus order and only if a
/// subscription accepted them when they arrived: over any run of a
/// connection, the events written so far followed by those still queued
/// are the events queued at the start followed by the accepted bus events,
/// with some left out (those the queue dropped), in the same order.
pub proof fn lemma_run_delivers_subsequence(states: Seq<WsSession>, moves: Seq<WsMove>)
    requires
        is_run(states, moves),
        forall|i: int| 0 <= i < states.len() ==> #[trigger] states[i].wf(),
    ensures
        is_subsequence(written(moves) + states.last().queued(), states[0].queued() + accepted(states, moves)),
{
    lemma_run_prefix_subsequence(states, moves, moves.len() as int);
    assert(moves.take(moves.len() as int) =~= moves);
}

/// The pong deadline after a heartbeat ping sent at `t`.
pub open spec fn pong_due(t: u64) -> u64 {
    if t > u64::MAX - PONG_GRACE_NANOS { u64::MAX } else { (t + PONG_GRACE_NANOS) as u64 }
}

/// An input that answers or renews the heartbeat: a pong, or the next tick.
pub open spec fn renews_heartbeat(mv: WsMove) -> bool {
    match mv {
        WsMove::Input(WsInput::Pong, _, _) => true,
        WsMove::Input(WsInput::Tick, _, _) => true,
        _ => false,
    }
}

/// An unanswered ping times out: after the heartbeat tick at `t` sends a
/// ping, and until a pong arrives (or the next tick), the session keeps the
/// deadline `t` plus the grace period; when it elapses, the session closes
/// with `HealthcheckTimeout`.
pub proof fn lemma_unanswered_ping_times_out(states: Seq<WsSession>, moves: Seq<WsMove>, j: int, t: u64)
    requires
        is_run(states, moves),
        0 <= j < moves.len(),
        moves[j] matches WsMove::Input(WsInput::Tick, now, _) && now == t,
        forall|i: int| j < i < moves.len() ==> !renews_heartbeat(#[trigger] moves[i]),
    ensures
        moves[j] matches WsMove::Input(_, _, r) && r.send_ping,
        forall|i: int| j < i <= moves.len() ==> #[trigger] states[i].deadline() == Some(pong_due(t)),
        forall|i: int| j < i < moves.len() ==> (#[trigger] moves[i] matches WsMove::Input(WsInput::DeadlineElapsed, _, r)
            ==> r.close == Some(Closed::HealthcheckTimeout)),
{
    assert(move_post(states[j], moves[j], states[j + 1]));
    assert forall|i: int| j < i <= moves.len() implies #[trigger] states[i].deadline() == Some(pong_due(t)) by {
        lemma_deadline_holds(states, moves, j, t, i);
    }
    assert forall|i: int| j < i < moves.len() implies (#[trigger] moves[i] matches WsMove::Input(WsInput::DeadlineElapsed, _, r)
        ==> r.close == Some(Closed::HealthcheckTimeout)) by {
        assert(move_post(states[i], moves[i], states[i + 1]));
    }
}

proof fn lemma_deadline_holds(states: Seq<WsSession>, moves: Seq<WsMove>, j: int, t: u64, i: int)
    requires
        is_run(states, moves),
        0 <= j < moves.len(),
        moves[j] matches WsMove::Input(WsInput::Tick, now, _) && now == t,
        forall|k: int| j < k < moves.len() ==> !renews_heartbeat(#[trigger] moves[k]),
        j < i <= moves.len(),
    ensures
        states[i].deadline() == Some(pong_due(t)),
    decreases i - j,
{
    assert(move_post(states[i - 1], moves[i - 1], states[i]));
    if i > j + 1 {
        lemma_deadline_holds(states, moves, j, t, i - 1);
        assert(!renews_heartbeat(moves[i - 1]));
    }
}

/// However the connection goes, a subscriber never has more events queued
/// than its queue holds, nor more tolerated drops in the current window
/// than the burst limit.
pub proof fn lemma_session_bounded(s: WsSession)
    requires
        s.wf(),
    ensures
        1 <= s.queue_capacity(),
        s.queued().len() <= s.queue_capacity(),
        s.drops() <= MAX_DROPS_PER_WINDOW,
{
    crate::ws::queue::lemma_queue_bounded(s.queue);
}

} // verus!
