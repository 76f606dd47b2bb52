//! The life of one client connection, as a state machine: the service feeds
//! it what happened on the connection and performs the action it answers.
use vstd::prelude::*;

verus! {

/// Bytes in one page of a message.
pub const PAGE_SIZE: usize = 32768;

/// Most pages that a message from a client may span.
pub const INCOMING_MAX_PAGES: usize = 4;

/// The number of pages that a message of `len` bytes is counted as.
pub open spec fn pages(len: nat) -> nat {
    len / 32768 + 1
}

/// The page count is exact: `len` bytes span the `p`-th page of 32768
/// bytes, counting from one; that is, `(p - 1) * 32768 <= len < p * 32768`.
pub proof fn law_pages_exact(len: nat)
    ensures
        pages(len) >= 1,
        (pages(len) - 1) * 32768 <= len,
        len < pages(len) * 32768,
{
    let q = len / 32768;
    assert(q * 32768 <= len < (q + 1) * 32768) by (nonlinear_arith)
        requires
            q == len / 32768,
    ;
}

/// The number of pages that a message of `len` bytes is counted as.
pub fn message_pages(len: usize) -> (p: usize)
    ensures
        p == pages(len as nat),
{
    len / PAGE_SIZE + 1
}

/// Where a connection is in its life.
#[derive(PartialEq, Eq, Structural, Clone, Copy, Debug)]
pub enum Phase {
    /// The client's upgrade request is being checked.
    Handshake,
    /// The backend accepted the connection; the upgrade is being completed.
    Upgrading,
    /// The backend refused the connection; it is answered without the
    /// upgrade and is never registered.
    Refused,
    /// The connection is open and registered.
    Open,
    /// The connection has ended.
    Closed,
}

/// What happened on a connection.
#[derive(PartialEq, Eq, Structural, Clone, Copy, Debug)]
pub enum SessionEvent {
    /// The backend answered the connection request: accepted or not.
    Authorized(bool),
    /// The WebSocket upgrade completed.
    Established,
    /// The client sent a message of this many bytes.
    Incoming(usize),
    /// The client's stream ended, or forwarding to it stopped.
    Ended,
}

/// What the service does next.
#[derive(PartialEq, Eq, Structural, Clone, Copy, Debug)]
pub enum SessionAction {
    /// Complete the upgrade as asked.
    AcceptUpgrade,
    /// Answer the upgrade without its `upgrade` header.
    RefuseUpgrade,
    /// Record the connection so that messages can be pushed to it.
    Register,
    /// Hand the message to the backend.
    Forward,
    /// Drop the message: it spans too many pages.
    RefuseTooLong,
    /// Forget the connection and tell the backend that it closed.
    Unregister,
    /// Close the socket of a refused connection, without registering it.
    Drop,
    /// Nothing to do.
    Ignore,
}

/// The next phase, and the action, when `event` happens in `phase`.
pub open spec fn transition(phase: Phase, event: SessionEvent) -> (Phase, SessionAction) {
    match (phase, event) {
        (Phase::Handshake, SessionEvent::Authorized(ok)) => if ok {
            (Phase::Upgrading, SessionAction::AcceptUpgrade)
        } else {
            (Phase::Refused, SessionAction::RefuseUpgrade)
        },
        (Phase::Upgrading, SessionEvent::Established) => (Phase::Open, SessionAction::Register),
        (Phase::Refused, SessionEvent::Established) => (Phase::Closed, SessionAction::Drop),
        (Phase::Open, SessionEvent::Incoming(len)) => (
            Phase::Open,
            if pages(len as nat) > 4 {
                SessionAction::RefuseTooLong
            } else {
                SessionAction::Forward
            },
        ),
        (Phase::Open, SessionEvent::Ended) => (Phase::Closed, SessionAction::Unregister),
        _ => (phase, SessionAction::Ignore),
    }
}

/// What an open connection does with a client's message: forwards it to
/// the backend when it has fewer than `4 * 32768` bytes (at most four
/// pages), and refuses it as too long otherwise; the connection stays open.
pub proof fn law_incoming_decision(len: usize)
    ensures
        transition(Phase::Open, SessionEvent::Incoming(len)) == (
            Phase::Open,
            if len < 131072 {
                SessionAction::Forward
            } else {
                SessionAction::RefuseTooLong
            },
        ),
{
    law_pages_exact(len as nat);
    let p = pages(len as nat);
    if len < 131072 {
        assert(p <= 4) by (nonlinear_arith)
            requires
                len < 131072,
                (p - 1) * 32768 <= len,
        ;
    } else {
        assert(p > 4) by (nonlinear_arith)
            requires
                len >= 131072,
                len < p * 32768,
        ;
    }
}

/// One client connection.
pub struct Session {
    id: String,
    timeout: u16,
    phase: Phase,
}

impl Session {
    /// The connection's identifier.
    pub closed spec fn id_text(self) -> Seq<char> {
        self.id@
    }

    /// The timeout announced to the backend.
    pub closed spec fn timeout_value(self) -> u16 {
        self.timeout
    }

    /// Where the connection is in its life.
    pub closed spec fn current(self) -> Phase {
        self.phase
    }

    /// A connection whose upgrade request is about to be checked.
    pub fn new(id: String, timeout: u16) -> (s: Session)
        ensures
            s.id_text() == id@,
            s.timeout_value() == timeout,
            s.current() == Phase::Handshake,
    {
        Session { id, timeout, phase: Phase::Handshake }
    }

    /// The connection's identifier.
    pub fn id(&self) -> (id: &String)
        ensures
            id@ == self.id_text(),
    {
        &self.id
    }

    /// The timeout announced to the backend.
    pub fn timeout(&self) -> (t: u16)
        ensures
            t == self.timeout_value(),
    {
        self.timeout
    }

    /// Where the connection is in its life.
    pub fn phase(&self) -> (p: Phase)
        ensures
            p == self.current(),
    {
        self.phase
    }

    /// Takes in what happened and answers what to do.
    pub fn step(&mut self, event: SessionEvent) -> (action: SessionAction)
        ensures
            (final(self).current(), action) == transition(old(self).current(), event),
            final(self).id_text() == old(self).id_text(),
            final(self).timeout_value() == old(self).timeout_value(),
    {
        match (self.phase, event) {
            (Phase::Handshake, SessionEvent::Authorized(ok)) => {
                if ok {
                    self.phase = Phase::Upgrading;
                    SessionAction::AcceptUpgrade
                } else {
                    self.phase = Phase::Refused;
                    SessionAction::RefuseUpgrade
                }
            },
            (Phase::Refused, SessionEvent::Established) => {
                self.phase = Phase::Closed;
                SessionAction::Drop
            },
            (Phase::Upgrading, SessionEvent::Established) => {
                self.phase = Phase::Open;
                SessionAction::Register
            },
            (Phase::Open, SessionEvent::Incoming(len)) => {
                if message_pages(len) > INCOMING_MAX_PAGES {
                    SessionAction::RefuseTooLong
                } else {
                    SessionAction::Forward
                }
            },
            (Phase::Open, SessionEvent::Ended) => {
                self.phase = Phase::Closed;
                SessionAction::Unregister
            },
            _ => SessionAction::Ignore,
        }
    }
}

/// The value of the `Authorization` header passed on to the backend: the
/// client's own, or `none` when it sent none.
pub fn authorization_or_none(header: Option<String>) -> (value: String)
    ensures
        value@ == match header {
            Some(h) => h@,
            None => "none"@,
        },
{
    match header {
        Some(h) => h,
        None => String::from_str("none"),
    }
}

// ---------------------------------------------------------------------------
// Runs of the machine over a sequence of events.

/// The phase reached, and the actions answered, when `events` happen in
/// order to a new connection.
#[verifier::opaque]
pub open spec fn run(events: Seq<SessionEvent>) -> (Phase, Seq<SessionAction>)
    decreases events.len(),
{
    if events.len() == 0 {
        (Phase::Handshake, Seq::<SessionAction>::empty())
    } else {
        let (p, acts) = run(events.drop_last());
        let (q, a) = transition(p, events.last());
        (q, acts.push(a))
    }
}

/// How far along its life a phase is.
pub open spec fn rank(p: Phase) -> int {
    match p {
        Phase::Handshake => 0,
        Phase::Upgrading => 1,
        Phase::Refused => 1,
        Phase::Open => 2,
        Phase::Closed => 3,
    }
}

/// The phase after the first `i` events.
pub open spec fn phase_after(events: Seq<SessionEvent>, i: int) -> Phase {
    run(events.take(i)).0
}

/// A run answers one action per event, and the action for event `i` is the
/// one that the machine answers in the phase reached after the events before it.
proof fn lemma_run_step(events: Seq<SessionEvent>, i: int)
    requires
        0 <= i < events.len(),
    ensures
        run(events).1.len() == events.len(),
        run(events).1[i] == transition(phase_after(events, i), events[i]).1,
        phase_after(events, i + 1) == transition(phase_after(events, i), events[i]).0,
    decreases events.len(),
{
    reveal(run);
    lemma_run_len(events);
    let n = events.len() as int;
    assert(events.take(i + 1).drop_last() =~= events.take(i));
    assert(events.take(i + 1).last() == events[i]);
    if i < n - 1 {
        lemma_run_step(events.drop_last(), i);
        assert(events.drop_last().take(i) =~= events.take(i));
        assert(events.drop_last().take(i + 1) =~= events.take(i + 1));
    } else {
        assert(events.take(n) =~= events);
        assert(events.take(n - 1) =~= events.drop_last());
    }
}

/// A run answers one action per event.
proof fn lemma_run_len(events: Seq<SessionEvent>)
    ensures
        run(events).1.len() == events.len(),
    decreases events.len(),
{
    reveal(run);
    if events.len() > 0 {
        lemma_run_len(events.drop_last());
    }
}

/// A step never moves a connection back in its life; registering,
/// forgetting and forwarding happen only from the phases that allow them.
proof fn lemma_transition_rank(p: Phase, e: SessionEvent)
    ensures
        ({
            let (q, a) = transition(p, e);
            &&& rank(p) <= rank(q)
            &&& rank(q) == 0 ==> q == Phase::Handshake
            &&& a == SessionAction::Register ==> p == Phase::Upgrading && q == Phase::Open
            &&& a == SessionAction::Unregister ==> p == Phase::Open && q == Phase::Closed
            &&& a == SessionAction::Forward ==> p == Phase::Open && q == Phase::Open
            &&& q == Phase::Open ==> p == Phase::Open || a == SessionAction::Register
            &&& a == SessionAction::RefuseUpgrade ==> p == Phase::Handshake && q == Phase::Refused
            &&& (p == Phase::Refused || p == Phase::Closed) ==> (q == Phase::Refused || q == Phase::Closed)
        }),
{
}

/// The phase never moves back along a run.
proof fn lemma_rank_monotone(events: Seq<SessionEvent>, i: int, j: int)
    requires
        0 <= i <= j <= events.len(),
    ensures
        rank(phase_after(events, i)) <= rank(phase_after(events, j)),
    decreases j - i,
{
    if i < j {
        lemma_rank_monotone(events, i, j - 1);
        lemma_run_step(events, j - 1);
        lemma_transition_rank(phase_after(events, j - 1), events[j - 1]);
    }
}

/// A run starts in the handshake.
proof fn lemma_start(events: Seq<SessionEvent>)
    ensures
        phase_after(events, 0) == Phase::Handshake,
{
    reveal(run);
    assert(events.take(0) =~= Seq::<SessionEvent>::empty());
}

/// Once a run is open, it registered the connection before.
proof fn lemma_open_was_registered(events: Seq<SessionEvent>, j: int)
    requires
        0 <= j <= events.len(),
        phase_after(events, j) == Phase::Open,
    ensures
        exists|i: int| 0 <= i < j && #[trigger] run(events).1[i] == SessionAction::Register,
    decreases j,
{
    lemma_start(events);
    let p = phase_after(events, j - 1);
    lemma_run_step(events, j - 1);
    lemma_transition_rank(p, events[j - 1]);
    if p == Phase::Open {
        lemma_open_was_registered(events, j - 1);
    } else {
        assert(run(events).1[j - 1] == SessionAction::Register);
    }
}

/// Two events of a run that both register the connection are the same event.
proof fn lemma_register_once(events: Seq<SessionEvent>, i: int, j: int)
    requires
        0 <= i < events.len(),
        0 <= j < events.len(),
        run(events).1[i] == SessionAction::Register,
        run(events).1[j] == SessionAction::Register,
    ensures
        i == j,
{
    lemma_run_step(events, i);
    lemma_run_step(events, j);
    lemma_transition_rank(phase_after(events, i), events[i]);
    lemma_transition_rank(phase_after(events, j), events[j]);
    if i < j {
        lemma_rank_monotone(events, i + 1, j);
    } else if j < i {
        lemma_rank_monotone(events, j + 1, i);
    }
}

/// Two events of a run that both forget the connection are the same event.
proof fn lemma_unregister_once(events: Seq<SessionEvent>, i: int, j: int)
    requires
        0 <= i < events.len(),
        0 <= j < events.len(),
        run(events).1[i] == SessionAction::Unregister,
        run(events).1[j] == SessionAction::Unregister,
    ensures
        i == j,
{
    lemma_run_step(events, i);
    lemma_run_step(events, j);
    lemma_transition_rank(phase_after(events, i), events[i]);
    lemma_transition_rank(phase_after(events, j), events[j]);
    if i < j {
        lemma_rank_monotone(events, i + 1, j);
    } else if j < i {
        lemma_rank_monotone(events, j + 1, i);
    }
}

/// An event that forgets the connection comes after one that registered it.
proof fn lemma_unregister_after_register(events: Seq<SessionEvent>, j: int)
    requires
        0 <= j < events.len(),
        run(events).1[j] == SessionAction::Unregister,
    ensures
        exists|i: int| 0 <= i < j && #[trigger] run(events).1[i] == SessionAction::Register,
{
    lemma_run_step(events, j);
    lemma_transition_rank(phase_after(events, j), events[j]);
    lemma_open_was_registered(events, j);
}

/// A message is forwarded only after the connection was registered, before
/// it is forgotten, and only when it spans at most four pages.
proof fn lemma_forward_while_open(events: Seq<SessionEvent>, j: int)
    requires
        0 <= j < events.len(),
        run(events).1[j] == SessionAction::Forward,
    ensures
        exists|i: int| 0 <= i < j && #[trigger] run(events).1[i] == SessionAction::Register,
        forall|k: int| 0 <= k < j ==> #[trigger] run(events).1[k] != SessionAction::Unregister,
        events[j] matches SessionEvent::Incoming(len) && pages(len as nat) <= 4,
{
    lemma_run_step(events, j);
    lemma_transition_rank(phase_after(events, j), events[j]);
    lemma_open_was_registered(events, j);
    assert forall|k: int| 0 <= k < j implies #[trigger] run(events).1[k] != SessionAction::Unregister by {
        lemma_run_step(events, k);
        lemma_transition_rank(phase_after(events, k), events[k]);
        if run(events).1[k] == SessionAction::Unregister {
            lemma_rank_monotone(events, k + 1, j);
        }
    }
}

/// A run answers exactly one action per event.
pub proof fn law_one_action_per_event(events: Seq<SessionEvent>)
    ensures
        run(events).1.len() == events.len(),
{
    lemma_run_len(events);
}

/// Over a connection's whole life, whatever happens on it and in whatever
/// order, the service registers the connection at most once.
pub proof fn law_registered_at_most_once(events: Seq<SessionEvent>)
    ensures
        forall|i: int, j: int|
            0 <= i < events.len() && 0 <= j < events.len() && #[trigger] run(events).1[i]
                == SessionAction::Register && #[trigger] run(events).1[j]
                == SessionAction::Register ==> i == j,
{
    assert forall|i: int, j: int|
        0 <= i < events.len() && 0 <= j < events.len() && #[trigger] run(events).1[i]
            == SessionAction::Register && #[trigger] run(events).1[j]
            == SessionAction::Register implies i == j by {
        lemma_register_once(events, i, j);
    }
}

/// Over a connection's whole life the service forgets the connection at
/// most once.
pub proof fn law_unregistered_at_most_once(events: Seq<SessionEvent>)
    ensures
        forall|i: int, j: int|
            0 <= i < events.len() && 0 <= j < events.len() && #[trigger] run(events).1[i]
                == SessionAction::Unregister && #[trigger] run(events).1[j]
                == SessionAction::Unregister ==> i == j,
{
    assert forall|i: int, j: int|
        0 <= i < events.len() && 0 <= j < events.len() && #[trigger] run(events).1[i]
            == SessionAction::Unregister && #[trigger] run(events).1[j]
            == SessionAction::Unregister implies i == j by {
        lemma_unregister_once(events, i, j);
    }
}

/// The service forgets a connection (and tells the backend it closed) only
/// after it registered that connection.
pub proof fn law_unregistered_only_after_registered(events: Seq<SessionEvent>)
    ensures
        forall|j: int|
            0 <= j < events.len() && #[trigger] run(events).1[j] == SessionAction::Unregister
                ==> exists|i: int| 0 <= i < j && #[trigger] run(events).1[i] == SessionAction::Register,
{
    assert forall|j: int|
        0 <= j < events.len() && #[trigger] run(events).1[j] == SessionAction::Unregister implies
        exists|i: int| 0 <= i < j && #[trigger] run(events).1[i] == SessionAction::Register by {
        lemma_unregister_after_register(events, j);
    }
}

/// The service hands a client's message to the backend only while the
/// connection is registered, and only when the message spans at most four pages.
pub proof fn law_forwarded_only_while_open(events: Seq<SessionEvent>)
    ensures
        forall|j: int|
            0 <= j < events.len() && #[trigger] run(events).1[j] == SessionAction::Forward ==> {
                &&& exists|i: int| 0 <= i < j && #[trigger] run(events).1[i] == SessionAction::Register
                &&& forall|k: int| 0 <= k < j ==> #[trigger] run(events).1[k] != SessionAction::Unregister
                &&& events[j] matches SessionEvent::Incoming(len) && pages(len as nat) <= 4
            },
{
    assert forall|j: int|
        0 <= j < events.len() && #[trigger] run(events).1[j] == SessionAction::Forward implies {
            &&& exists|i: int| 0 <= i < j && #[trigger] run(events).1[i] == SessionAction::Register
            &&& forall|k: int| 0 <= k < j ==> #[trigger] run(events).1[k] != SessionAction::Unregister
            &&& events[j] matches SessionEvent::Incoming(len) && pages(len as nat) <= 4
        } by {
        lemma_forward_while_open(events, j);
    }
}

/// Once a run is refused, it stays refused or closed.
proof fn lemma_stays_refused(events: Seq<SessionEvent>, i: int, k: int)
    requires
        0 <= i <= k <= events.len(),
        phase_after(events, i) == Phase::Refused,
    ensures
        phase_after(events, k) == Phase::Refused || phase_after(events, k) == Phase::Closed,
    decreases k - i,
{
    if i < k {
        lemma_stays_refused(events, i, k - 1);
        lemma_run_step(events, k - 1);
        lemma_transition_rank(phase_after(events, k - 1), events[k - 1]);
    }
}

/// No event of a run that refused the connection is followed or preceded
/// by one that registers it.
proof fn lemma_refused_not_registered(events: Seq<SessionEvent>, i: int, j: int)
    requires
        0 <= i < events.len(),
        0 <= j < events.len(),
        run(events).1[i] == SessionAction::RefuseUpgrade,
    ensures
        run(events).1[j] != SessionAction::Register,
{
    lemma_run_len(events);
    lemma_run_step(events, i);
    lemma_run_step(events, j);
    lemma_transition_rank(phase_after(events, i), events[i]);
    lemma_transition_rank(phase_after(events, j), events[j]);
    if j < i {
        lemma_rank_monotone(events, j, i);
    } else if j > i {
        lemma_stays_refused(events, i + 1, j);
    }
}

/// A connection that the backend refuses is never registered, so nothing
/// can be pushed to it and it is never reported as closed.
pub proof fn law_refused_never_registered(events: Seq<SessionEvent>)
    ensures
        forall|i: int, j: int|
            0 <= i < events.len() && 0 <= j < events.len() && #[trigger] run(events).1[i]
                == SessionAction::RefuseUpgrade ==> #[trigger] run(events).1[j]
                != SessionAction::Register,
{
    assert forall|i: int, j: int|
        0 <= i < events.len() && 0 <= j < events.len() && #[trigger] run(events).1[i]
            == SessionAction::RefuseUpgrade implies #[trigger] run(events).1[j]
            != SessionAction::Register by {
        lemma_refused_not_registered(events, i, j);
    }
}

/// The events of an accepted connection: the backend accepts it, the
/// upgrade completes, and then the client sends messages of the lengths `xs`.
pub open spec fn accepted_life(xs: Seq<usize>) -> Seq<SessionEvent> {
    seq![SessionEvent::Authorized(true), SessionEvent::Established] + xs.map_values(
        |l: usize| SessionEvent::Incoming(l),
    )
}

/// What an open connection answers to a message of `l` bytes.
pub open spec fn message_answer(l: usize) -> SessionAction {
    if l < 131072 {
        SessionAction::Forward
    } else {
        SessionAction::RefuseTooLong
    }
}

proof fn lemma_accepted_life(xs: Seq<usize>)
    ensures
        run(accepted_life(xs)) == (
            Phase::Open,
            seq![SessionAction::AcceptUpgrade, SessionAction::Register] + xs.map_values(
                |l: usize| message_answer(l),
            ),
        ),
    decreases xs.len(),
{
    reveal_with_fuel(run, 3);
    let ev = accepted_life(xs);
    if xs.len() == 0 {
        assert(ev =~= seq![SessionEvent::Authorized(true), SessionEvent::Established]);
        assert(ev.drop_last() =~= seq![SessionEvent::Authorized(true)]);
        assert(ev.drop_last().drop_last() =~= Seq::<SessionEvent>::empty());
        assert(xs.map_values(|l: usize| message_answer(l)) =~= Seq::<SessionAction>::empty());
        assert(seq![SessionAction::AcceptUpgrade, SessionAction::Register] + Seq::<SessionAction>::empty()
            =~= seq![SessionAction::AcceptUpgrade].push(SessionAction::Register));
        assert(Seq::<SessionAction>::empty().push(SessionAction::AcceptUpgrade) =~= seq![
            SessionAction::AcceptUpgrade,
        ]);
    } else {
        let ys = xs.drop_last();
        lemma_accepted_life(ys);
        assert(ev.drop_last() =~= accepted_life(ys));
        assert(ev.last() == SessionEvent::Incoming(xs.last()));
        law_incoming_decision(xs.last());
        assert(seq![SessionAction::AcceptUpgrade, SessionAction::Register] + xs.map_values(
            |l: usize| message_answer(l),
        ) =~= (seq![SessionAction::AcceptUpgrade, SessionAction::Register] + ys.map_values(
            |l: usize| message_answer(l),
        )).push(message_answer(xs.last())));
    }
}

/// The life of an accepted connection, whatever its client sends: the
/// upgrade is accepted, the connection registered, each message forwarded
/// exactly when it has fewer than `4 * 32768` bytes (refused as too long
/// otherwise), and when the stream ends the connection is forgotten and the
/// backend told; the connection is then closed.
pub proof fn law_accepted_life(xs: Seq<usize>)
    ensures
        run(accepted_life(xs)).1 == seq![SessionAction::AcceptUpgrade, SessionAction::Register]
            + xs.map_values(|l: usize| message_answer(l)),
        run(accepted_life(xs).push(SessionEvent::Ended)).1 == seq![
            SessionAction::AcceptUpgrade,
            SessionAction::Register,
        ] + xs.map_values(|l: usize| message_answer(l)) + seq![SessionAction::Unregister],
        run(accepted_life(xs).push(SessionEvent::Ended)).0 == Phase::Closed,
{
    lemma_accepted_life(xs);
    law_steps_follow_run(accepted_life(xs), SessionEvent::Ended);
    assert((seq![SessionAction::AcceptUpgrade, SessionAction::Register] + xs.map_values(
        |l: usize| message_answer(l),
    )).push(SessionAction::Unregister) =~= seq![
        SessionAction::AcceptUpgrade,
        SessionAction::Register,
    ] + xs.map_values(|l: usize| message_answer(l)) + seq![SessionAction::Unregister]);
}

/// A connection that the backend refuses is answered without the upgrade
/// and, once the upgrade completes, dropped and closed, never registered.
pub proof fn law_refused_life()
    ensures
        run(seq![SessionEvent::Authorized(false), SessionEvent::Established]) == (
            Phase::Closed,
            seq![SessionAction::RefuseUpgrade, SessionAction::Drop],
        ),
{
    reveal_with_fuel(run, 3);
    let ev = seq![SessionEvent::Authorized(false), SessionEvent::Established];
    assert(ev.drop_last() =~= seq![SessionEvent::Authorized(false)]);
    assert(ev.drop_last().drop_last() =~= Seq::<SessionEvent>::empty());
    assert(Seq::<SessionAction>::empty().push(SessionAction::RefuseUpgrade).push(SessionAction::Drop)
        =~= seq![SessionAction::RefuseUpgrade, SessionAction::Drop]);
}

/// Stepping a connection through events one by one answers the actions
/// that `run` gives for them.
pub proof fn law_steps_follow_run(events: Seq<SessionEvent>, e: SessionEvent)
    ensures
        run(events.push(e)).1 == run(events).1.push(transition(run(events).0, e).1),
        run(events.push(e)).0 == transition(run(events).0, e).0,
{
    reveal(run);
    assert(events.push(e).drop_last() =~= events);
}

} // verus!
