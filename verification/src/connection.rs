//! The connection manager: a registry of live sessions with a command
//! surface (`connect`, `send`, `disconnect`, `destroy`), the read-side
//! pump that classifies session events into UI-visible state changes,
//! and the FIFO outbound frame queue drained by the write side.
//!
//! Network I/O itself stays outside: the session's events come in as
//! plain values, and the frames to write and events to emit go out as
//! plain values.

use vstd::prelude::*;

use crate::text::str_eq_str;

verus! {

/// The externally observable state of a connection, reported to the UI
/// through emitted state events.
#[derive(Debug, Clone, Copy, PartialEq, Eq, Structural)]
pub enum ConnectionState {
    Connected,
    Disconnected,
    AuthenticationFailure,
    ConnectionError,
    ConnectionTimeout,
}

/// Failure modes of `connect`.
#[derive(Debug, Clone, Copy, PartialEq, Eq, Structural)]
pub enum ConnectError {
    /// Invalid JID, cannot connect.
    InvalidJid,
    /// Connection identifier already exists.
    ConnectionAlreadyExists,
}

/// Failure modes of `send` and `disconnect`.
#[derive(Debug, Clone, Copy, PartialEq, Eq, Structural)]
pub enum SendError {
    /// Failure to write on sender.
    CannotWrite,
    /// Failure to parse stanza to send.
    CannotParse,
    /// Connection does not exist.
    ConnectionDoesNotExist,
}

/// `disconnect` fails in a subset of the ways `send` does.
pub type DisconnectError = SendError;

/// How the read-side pump reports its termination.
#[derive(Debug, Clone, Copy, PartialEq, Eq, Structural)]
pub enum PollInputError {
    /// Authentication error.
    AuthenticationError,
    /// Connection error.
    ConnectionError,
    /// Other error.
    OtherError,
}

/// How the write-side pump reports its termination.
#[derive(Debug, Clone, Copy, PartialEq, Eq, Structural)]
pub enum PollOutputError {
    /// Packet send error.
    PacketSendError,
}

/// The cause a session gives when it disconnects.
#[derive(Debug, Clone, Copy, PartialEq, Eq, Structural)]
pub enum DisconnectCause {
    /// Clean closure, by the peer or by our own stream end.
    Clean,
    /// The server rejected authentication.
    Auth,
    /// A transport-level failure (reset, timeout).
    Transport,
    /// Any other disconnection cause.
    Other,
}

/// One event produced by the session's inbound side.
#[derive(Debug, Clone, PartialEq)]
pub enum SessionEvent {
    /// The session reached its authenticated, established state.
    Online,
    /// An application payload arrived, in canonical textual form.
    Stanza(String),
    /// The session disconnected for the carried cause and produces no
    /// further events.
    Disconnected(DisconnectCause),
}

/// One event emitted toward the UI layer.
#[derive(Debug, Clone, PartialEq)]
pub enum ConnectionEvent {
    /// A connection state change.
    State(ConnectionState),
    /// An inbound payload, in canonical textual form.
    Receive(String),
}

/// An outbound frame: an application payload to transmit, or the
/// stream-termination marker requesting graceful close.
#[derive(Debug, Clone, PartialEq)]
pub enum Frame {
    /// A payload, in its textual form.
    Stanza(String),
    /// The stream-termination marker.
    StreamEnd,
}

/// A name for whether `jid::FullJid::new` accepts the given characters
/// as a full Jabber identifier.
pub uninterp spec fn jid_accepts(s: Seq<char>) -> bool;

/// Relies on `jid::FullJid::new`: parsing either succeeds or reports an
/// error, decided by the given characters alone.
#[verifier::external_body]
fn parse_full_jid(s: &str) -> (r: bool)
    ensures
        r == jid_accepts(s@),
{
    jid::FullJid::new(s).is_ok()
}

/// A name for whether `minidom::Element::from_str` accepts the given
/// characters as a well-formed XML element.
pub uninterp spec fn stanza_accepts(s: Seq<char>) -> bool;

/// Relies on `minidom::Element::from_str`: parsing either succeeds or
/// reports an error, decided by the given characters alone.
#[verifier::external_body]
fn parse_stanza(s: &str) -> (r: bool)
    ensures
        r == stanza_accepts(s@),
{
    s.parse::<minidom::Element>().is_ok()
}

/// The state event announcing a given disconnection cause.
pub open spec fn abort_state_of(cause: DisconnectCause) -> ConnectionState {
    match cause {
        DisconnectCause::Clean => ConnectionState::Disconnected,
        DisconnectCause::Auth => ConnectionState::AuthenticationFailure,
        DisconnectCause::Transport => ConnectionState::ConnectionTimeout,
        DisconnectCause::Other => ConnectionState::ConnectionError,
    }
}

/// How the read-side pump reports a given disconnection cause to its
/// caller context: success on clean closure, an error otherwise.
pub open spec fn poll_input_outcome_of(cause: DisconnectCause) -> Result<(), PollInputError> {
    match cause {
        DisconnectCause::Clean => Ok(()),
        DisconnectCause::Auth => Err(PollInputError::AuthenticationError),
        DisconnectCause::Transport => Err(PollInputError::ConnectionError),
        DisconnectCause::Other => Err(PollInputError::OtherError),
    }
}

/// The state events announcing a terminal state: the state itself,
/// followed by a synthetic `Disconnected` so the UI never believes a
/// dead connection alive — unless the state already is `Disconnected`.
pub open spec fn abort_events(state: ConnectionState) -> Seq<ConnectionEvent> {
    if state == ConnectionState::Disconnected {
        seq![ConnectionEvent::State(state)]
    } else {
        seq![
            ConnectionEvent::State(state),
            ConnectionEvent::State(ConnectionState::Disconnected),
        ]
    }
}

/// The state events the pump emits when it terminates: as `abort_events`,
/// except that the synthetic `Disconnected` is withheld when the
/// connection was never observed connected — the UI never believed it
/// live, so no correction is owed.
pub open spec fn pump_abort_events(state: ConnectionState, was_connected: bool) -> Seq<
    ConnectionEvent,
> {
    if was_connected {
        abort_events(state)
    } else {
        seq![ConnectionEvent::State(state)]
    }
}

/// The events the pump emits for one inbound session event, given
/// whether a `Connected` state was already observed.
pub open spec fn step_events(was_connected: bool, event: SessionEvent) -> Seq<ConnectionEvent> {
    match event {
        SessionEvent::Online => seq![ConnectionEvent::State(ConnectionState::Connected)],
        SessionEvent::Stanza(s) => seq![ConnectionEvent::Receive(s)],
        SessionEvent::Disconnected(cause) => pump_abort_events(
            abort_state_of(cause),
            was_connected,
        ),
    }
}

/// Whether the pump stops on this event, and how it then reports.
pub open spec fn step_outcome(event: SessionEvent) -> Option<Result<(), PollInputError>> {
    match event {
        SessionEvent::Disconnected(cause) => Some(poll_input_outcome_of(cause)),
        _ => None,
    }
}

/// The "was ever connected" flag after processing one event.
pub open spec fn step_flag(was_connected: bool, event: SessionEvent) -> bool {
    was_connected || event is Online
}

/// Every event the pump emits over a whole inbound event sequence,
/// starting from the given flag; events after a disconnection are never
/// processed.
pub open spec fn inbound_trace(was_connected: bool, events: Seq<SessionEvent>) -> Seq<
    ConnectionEvent,
>
    decreases events.len(),
{
    if events.len() == 0 {
        Seq::<ConnectionEvent>::empty()
    } else if step_outcome(events[0]) is Some {
        step_events(was_connected, events[0])
    } else {
        step_events(was_connected, events[0]) + inbound_trace(
            step_flag(was_connected, events[0]),
            events.skip(1),
        )
    }
}

/// How the pump reports after a whole inbound event sequence: success
/// when the sequence ends without a disconnection or with a clean one.
pub open spec fn inbound_result(events: Seq<SessionEvent>) -> Result<(), PollInputError>
    decreases events.len(),
{
    if events.len() == 0 {
        Ok(())
    } else if step_outcome(events[0]) is Some {
        step_outcome(events[0]).unwrap()
    } else {
        inbound_result(events.skip(1))
    }
}

/// The read-side pump state for one connection: classifies inbound
/// session events into emitted UI events, tracking whether the
/// connection was ever observed connected.
pub struct InboundPump {
    /// Whether a `Connected` state was observed in this session's
    /// lifetime.
    pub was_connected: bool,
}

impl InboundPump {
    /// A pump for a session that has not connected yet.
    pub fn new() -> (r: Self)
        ensures
            !r.was_connected,
    {
        InboundPump { was_connected: false }
    }

    /// Classifies one inbound session event: returns the events to emit,
    /// in order, and — when the pump terminates on this event — how it
    /// reports to its caller context.
    pub fn step(&mut self, event: &SessionEvent) -> (r: (
        Vec<ConnectionEvent>,
        Option<Result<(), PollInputError>>,
    ))
        ensures
            r.0@ == step_events(old(self).was_connected, *event),
            r.1 == step_outcome(*event),
            final(self).was_connected == step_flag(old(self).was_connected, *event),
    {
        match event {
            SessionEvent::Online => {
                self.was_connected = true;
                let mut out: Vec<ConnectionEvent> = Vec::new();
                out.push(ConnectionEvent::State(ConnectionState::Connected));
                proof {
                    assert(out@ =~= step_events(old(self).was_connected, *event));
                }
                (out, None)
            },
            SessionEvent::Stanza(s) => {
                let mut out: Vec<ConnectionEvent> = Vec::new();
                out.push(ConnectionEvent::Receive(s.clone()));
                proof {
                    assert(out@ =~= step_events(old(self).was_connected, *event));
                }
                (out, None)
            },
            SessionEvent::Disconnected(cause) => {
                let state = match cause {
                    DisconnectCause::Clean => ConnectionState::Disconnected,
                    DisconnectCause::Auth => ConnectionState::AuthenticationFailure,
                    DisconnectCause::Transport => ConnectionState::ConnectionTimeout,
                    DisconnectCause::Other => ConnectionState::ConnectionError,
                };
                let outcome = match cause {
                    DisconnectCause::Clean => Ok(()),
                    DisconnectCause::Auth => Err(PollInputError::AuthenticationError),
                    DisconnectCause::Transport => Err(PollInputError::ConnectionError),
                    DisconnectCause::Other => Err(PollInputError::OtherError),
                };
                let out = abort_event_list(state, self.was_connected);
                (out, Some(outcome))
            },
        }
    }
}

/// The terminal state events, as `pump_abort_events` describes them.
fn abort_event_list(state: ConnectionState, was_connected: bool) -> (r: Vec<ConnectionEvent>)
    ensures
        r@ == pump_abort_events(state, was_connected),
{
    let mut out: Vec<ConnectionEvent> = Vec::new();
    out.push(ConnectionEvent::State(state));
    if was_connected && !(state == ConnectionState::Disconnected) {
        out.push(ConnectionEvent::State(ConnectionState::Disconnected));
    }
    proof {
        assert(out@ =~= pump_abort_events(state, was_connected));
    }
    out
}

/// Runs the read-side pump over the inbound events a session produced,
/// in order: returns every emitted event and how the pump reported when
/// it stopped. Events after a disconnection are never processed.
pub fn poll_input_events(events: &Vec<SessionEvent>) -> (r: (
    Vec<ConnectionEvent>,
    Result<(), PollInputError>,
))
    ensures
        r.0@ == inbound_trace(false, events@),
        r.1 == inbound_result(events@),
{
    let mut pump = InboundPump::new();
    let mut emitted: Vec<ConnectionEvent> = Vec::new();
    let mut outcome: Result<(), PollInputError> = Ok(());
    let mut stopped = false;
    let mut i: usize = 0;
    proof {
        assert(events@.skip(0) =~= events@);
    }
    while i < events.len() && !stopped
        invariant
            i <= events@.len(),
            !stopped ==> emitted@ + inbound_trace(pump.was_connected, events@.skip(i as int))
                == inbound_trace(false, events@),
            !stopped ==> inbound_result(events@.skip(i as int)) == inbound_result(events@),
            !stopped ==> outcome == Ok::<(), PollInputError>(()),
            stopped ==> emitted@ == inbound_trace(false, events@) && outcome == inbound_result(
                events@,
            ),
        decreases events@.len() - i,
    {
        proof {
            assert(events@.skip(i as int)[0] == events@[i as int]);
            assert(events@.skip(i as int).skip(1) =~= events@.skip(i + 1));
        }
        let (mut evs, stop) = pump.step(&events[i]);
        emitted.append(&mut evs);
        i += 1;
        match stop {
            Some(res) => {
                outcome = res;
                stopped = true;
            },
            None => {},
        }
    }
    proof {
        if !stopped {
            assert(events@.skip(events@.len() as int) =~= Seq::<SessionEvent>::empty());
            assert(emitted@ + inbound_trace(pump.was_connected, events@.skip(i as int)) =~= emitted@);
        }
    }
    (emitted, outcome)
}

/// The pure model of one registered connection.
pub struct EntryView {
    /// The identifier the connection is registered under.
    pub id: Seq<char>,
    /// The outbound frames enqueued and not yet drained, oldest first.
    pub queue: Seq<Frame>,
    /// Whether the outbound queue still has its receiving side.
    pub writer_open: bool,
    /// Whether the read pump task is still running.
    pub read_live: bool,
    /// Whether the write pump task is still running.
    pub write_live: bool,
}

/// One live connection registered under an identifier: the handle owned
/// by the registry — its outbound queue and the state of its two pump
/// tasks.
pub struct ConnectionEntry {
    /// The identifier the connection is registered under.
    pub id: String,
    /// The outbound frames enqueued and not yet drained, oldest first.
    pub queue: Vec<Frame>,
    /// Whether the outbound queue still has its receiving side: false
    /// once the write pump has exited.
    pub writer_open: bool,
    /// Whether the read pump task is still running.
    pub read_live: bool,
    /// Whether the write pump task is still running.
    pub write_live: bool,
}

impl View for ConnectionEntry {
    type V = EntryView;

    open spec fn view(&self) -> EntryView {
        EntryView {
            id: self.id@,
            queue: self.queue@,
            writer_open: self.writer_open,
            read_live: self.read_live,
            write_live: self.write_live,
        }
    }
}

/// Whether some entry is registered under `id`.
pub open spec fn contains_id(entries: Seq<EntryView>, id: Seq<char>) -> bool {
    exists|k: int| 0 <= k < entries.len() && entries[k].id == id
}

/// The position of the entry registered under `id`.
pub open spec fn index_of_id(entries: Seq<EntryView>, id: Seq<char>) -> int {
    choose|k: int| 0 <= k < entries.len() && entries[k].id == id
}

/// The entry registered under `id`.
pub open spec fn entry_of(entries: Seq<EntryView>, id: Seq<char>) -> EntryView {
    entries[index_of_id(entries, id)]
}

/// At most one live handle per identifier.
pub open spec fn distinct_ids(entries: Seq<EntryView>) -> bool {
    forall|j: int, k: int| 0 <= j < k < entries.len() ==> entries[j].id != entries[k].id
}

/// The registry without any entry registered under `id`, order kept.
pub open spec fn without_id(entries: Seq<EntryView>, id: Seq<char>) -> Seq<EntryView>
    decreases entries.len(),
{
    if entries.len() == 0 {
        entries
    } else if entries[0].id == id {
        without_id(entries.skip(1), id)
    } else {
        seq![entries[0]] + without_id(entries.skip(1), id)
    }
}

/// The registry with the entry under `id` replaced by `e`.
pub open spec fn with_entry(entries: Seq<EntryView>, id: Seq<char>, e: EntryView) -> Seq<
    EntryView,
> {
    entries.update(index_of_id(entries, id), e)
}

/// The handle `connect` registers: empty queue, both pumps running.
pub open spec fn fresh_entry(id: Seq<char>) -> EntryView {
    EntryView {
        id: id,
        queue: Seq::<Frame>::empty(),
        writer_open: true,
        read_live: true,
        write_live: true,
    }
}

/// The entry with one more frame enqueued.
pub open spec fn enqueued_entry(e: EntryView, frame: Frame) -> EntryView {
    EntryView { queue: e.queue.push(frame), ..e }
}

/// The entry after a graceful disconnect request: the termination
/// marker enqueued and the read pump aborted.
pub open spec fn disconnected_entry(e: EntryView) -> EntryView {
    EntryView { queue: e.queue.push(Frame::StreamEnd), read_live: false, ..e }
}

/// The entry after stale-handle recovery: both pump tasks aborted.
pub open spec fn recovered_entry(e: EntryView) -> EntryView {
    EntryView { read_live: false, write_live: false, ..e }
}

/// The entry once the write pump has exited on its own.
pub open spec fn writer_closed_entry(e: EntryView) -> EntryView {
    EntryView { writer_open: false, write_live: false, ..e }
}

/// The entry with the oldest enqueued frame handed out.
pub open spec fn popped_entry(e: EntryView) -> EntryView {
    EntryView { queue: e.queue.drop_first(), ..e }
}

/// What `connect` returns: rejected when the identifier is taken or the
/// identity does not parse as a full JID, successful otherwise.
pub open spec fn connect_result(entries: Seq<EntryView>, id: Seq<char>, jid: Seq<char>) -> Result<
    (),
    ConnectError,
> {
    if contains_id(entries, id) {
        Err(ConnectError::ConnectionAlreadyExists)
    } else if !jid_accepts(jid) {
        Err(ConnectError::InvalidJid)
    } else {
        Ok(())
    }
}

/// The registry after `connect`: one fresh entry appended on success.
pub open spec fn connect_transition(entries: Seq<EntryView>, id: Seq<char>, jid: Seq<char>) -> Seq<
    EntryView,
> {
    if connect_result(entries, id, jid) is Ok {
        entries.push(fresh_entry(id))
    } else {
        entries
    }
}

/// What `send` returns: the identifier must be registered, the payload
/// must parse, and the queue must still have its receiving side.
pub open spec fn send_result(entries: Seq<EntryView>, id: Seq<char>, stanza: Seq<char>) -> Result<
    (),
    SendError,
> {
    if !contains_id(entries, id) {
        Err(SendError::ConnectionDoesNotExist)
    } else if !stanza_accepts(stanza) {
        Err(SendError::CannotParse)
    } else if !entry_of(entries, id).writer_open {
        Err(SendError::CannotWrite)
    } else {
        Ok(())
    }
}

/// The registry after `send`: the payload frame enqueued on success,
/// both pumps aborted on a stale handle, unchanged otherwise.
pub open spec fn send_transition(
    entries: Seq<EntryView>,
    id: Seq<char>,
    stanza: String,
) -> Seq<EntryView> {
    match send_result(entries, id, stanza@) {
        Ok(_) => with_entry(
            entries,
            id,
            enqueued_entry(entry_of(entries, id), Frame::Stanza(stanza)),
        ),
        Err(SendError::CannotWrite) => with_entry(
            entries,
            id,
            recovered_entry(entry_of(entries, id)),
        ),
        Err(_) => entries,
    }
}

/// The events `send` emits: the stale-handle recovery events on
/// `CannotWrite`, nothing otherwise.
pub open spec fn send_events(entries: Seq<EntryView>, id: Seq<char>, stanza: Seq<char>) -> Seq<
    ConnectionEvent,
> {
    if send_result(entries, id, stanza) == Err::<(), SendError>(SendError::CannotWrite) {
        abort_events(ConnectionState::ConnectionError)
    } else {
        Seq::<ConnectionEvent>::empty()
    }
}

/// What `disconnect` returns: the identifier must be registered and the
/// queue must still have its receiving side.
pub open spec fn disconnect_result(entries: Seq<EntryView>, id: Seq<char>) -> Result<
    (),
    SendError,
> {
    if !contains_id(entries, id) {
        Err(SendError::ConnectionDoesNotExist)
    } else if !entry_of(entries, id).writer_open {
        Err(SendError::CannotWrite)
    } else {
        Ok(())
    }
}

/// The registry after `disconnect`: the termination marker enqueued and
/// the read pump aborted on success, both pumps aborted on a stale
/// handle, unchanged otherwise. The handle stays registered either way.
pub open spec fn disconnect_transition(entries: Seq<EntryView>, id: Seq<char>) -> Seq<EntryView> {
    match disconnect_result(entries, id) {
        Ok(_) => with_entry(entries, id, disconnected_entry(entry_of(entries, id))),
        Err(SendError::CannotWrite) => with_entry(
            entries,
            id,
            recovered_entry(entry_of(entries, id)),
        ),
        Err(_) => entries,
    }
}

/// The events `disconnect` emits: `Disconnected` immediately on success
/// — without waiting for the peer — and the stale-handle recovery
/// events on `CannotWrite`.
pub open spec fn disconnect_events(entries: Seq<EntryView>, id: Seq<char>) -> Seq<
    ConnectionEvent,
> {
    match disconnect_result(entries, id) {
        Ok(_) => abort_events(ConnectionState::Disconnected),
        Err(SendError::CannotWrite) => abort_events(ConnectionState::ConnectionError),
        Err(_) => Seq::<ConnectionEvent>::empty(),
    }
}

/// The connection registry: a mapping from caller-supplied identifiers
/// to live connection handles, at most one per identifier.
pub struct ConnectionClientState {
    /// The registered connections.
    pub connections: Vec<ConnectionEntry>,
}

impl View for ConnectionClientState {
    type V = Seq<EntryView>;

    open spec fn view(&self) -> Seq<EntryView> {
        self.connections@.map_values(|e: ConnectionEntry| e@)
    }
}

proof fn lemma_index_of(entries: Seq<EntryView>, id: Seq<char>, k: int)
    requires
        distinct_ids(entries),
        0 <= k < entries.len(),
        entries[k].id == id,
    ensures
        contains_id(entries, id),
        index_of_id(entries, id) == k,
{
    assert(contains_id(entries, id));
    let k2 = index_of_id(entries, id);
    assert(0 <= k2 < entries.len() && entries[k2].id == id);
    if k2 < k {
        assert(entries[k2].id != entries[k].id);
    } else if k < k2 {
        assert(entries[k].id != entries[k2].id);
    }
}

proof fn lemma_without_id_absent(entries: Seq<EntryView>, id: Seq<char>)
    requires
        !contains_id(entries, id),
    ensures
        without_id(entries, id) == entries,
    decreases entries.len(),
{
    if entries.len() > 0 {
        assert(entries[0].id != id);
        assert(!contains_id(entries.skip(1), id)) by {
            if contains_id(entries.skip(1), id) {
                let k = choose|k: int|
                    0 <= k < entries.skip(1).len() && entries.skip(1)[k].id == id;
                assert(entries[k + 1].id == id);
            }
        }
        lemma_without_id_absent(entries.skip(1), id);
        assert(without_id(entries, id) =~= entries);
    }
}

proof fn lemma_without_id_at(entries: Seq<EntryView>, id: Seq<char>, k: int)
    requires
        distinct_ids(entries),
        0 <= k < entries.len(),
        entries[k].id == id,
    ensures
        without_id(entries, id) == entries.remove(k),
    decreases entries.len(),
{
    if k == 0 {
        assert(!contains_id(entries.skip(1), id)) by {
            if contains_id(entries.skip(1), id) {
                let j = choose|j: int|
                    0 <= j < entries.skip(1).len() && entries.skip(1)[j].id == id;
                assert(entries[j + 1].id == id);
                assert(entries[0].id != entries[j + 1].id);
            }
        }
        lemma_without_id_absent(entries.skip(1), id);
        assert(without_id(entries, id) =~= entries.remove(0));
    } else {
        assert(entries[0].id != id);
        assert(distinct_ids(entries.skip(1))) by {
            assert(forall|i: int, j: int|
                0 <= i < j < entries.skip(1).len() ==> entries.skip(1)[i].id != entries.skip(
                    1,
                )[j].id);
        }
        assert(entries.skip(1)[k - 1].id == id);
        lemma_without_id_at(entries.skip(1), id, k - 1);
        assert(without_id(entries, id) =~= entries.remove(k));
    }
}

impl Default for ConnectionClientState {
    /// The empty registry.
    fn default() -> (r: Self)
        ensures
            r.wf(),
            r@ == Seq::<EntryView>::empty(),
    {
        let r = ConnectionClientState { connections: Vec::new() };
        proof {
            assert(r@ =~= Seq::<EntryView>::empty());
        }
        r
    }
}

impl ConnectionClientState {
    /// At most one live handle per identifier at any time.
    pub open spec fn wf(&self) -> bool {
        distinct_ids(self@)
    }

    /// The empty registry.
    pub fn new() -> (r: Self)
        ensures
            r.wf(),
            r@ == Seq::<EntryView>::empty(),
    {
        Self::default()
    }

    /// The position of the entry registered under `id`, if any.
    fn find_index(&self, id: &str) -> (r: Option<usize>)
        requires
            self.wf(),
        ensures
            match r {
                Some(k) => k < self@.len() && self@[k as int].id == id@ && contains_id(
                    self@,
                    id@,
                ) && index_of_id(self@, id@) == k,
                None => !contains_id(self@, id@),
            },
    {
        let n = self.connections.len();
        let mut j: usize = 0;
        while j < n
            invariant
                j <= n,
                n == self.connections@.len(),
                self.wf(),
                self@.len() == n,
                forall|i: int| 0 <= i < j ==> self@[i].id != id@,
            decreases n - j,
        {
            proof {
                assert(self@[j as int] == self.connections@[j as int]@);
            }
            let e = &self.connections[j];
            if str_eq_str(e.id.as_str(), id) {
                proof {
                    lemma_index_of(self@, id@, j as int);
                }
                return Some(j);
            }
            j += 1;
        }
        proof {
            if contains_id(self@, id@) {
                let k = index_of_id(self@, id@);
                assert(0 <= k < self@.len() && self@[k].id == id@);
            }
        }
        None
    }

    /// Registers a connection under `id` for the identity `jid`: fails
    /// when the identifier is already registered or the identity does
    /// not parse as a full JID; on success exactly one fresh entry is
    /// appended, with an empty queue and both pumps to be spawned.
    pub fn connect(&mut self, id: &str, jid: &str, _password: &str) -> (r: Result<
        (),
        ConnectError,
    >)
        requires
            old(self).wf(),
        ensures
            final(self).wf(),
            r == connect_result(old(self)@, id@, jid@),
            final(self)@ == connect_transition(old(self)@, id@, jid@),
            r is Ok ==> contains_id(final(self)@, id@) && entry_of(final(self)@, id@)
                == fresh_entry(id@),
    {
        if self.find_index(id).is_some() {
            return Err(ConnectError::ConnectionAlreadyExists);
        }
        if !parse_full_jid(jid) {
            return Err(ConnectError::InvalidJid);
        }
        let ghost before = self@;
        let entry = ConnectionEntry {
            id: id.to_owned(),
            queue: Vec::new(),
            writer_open: true,
            read_live: true,
            write_live: true,
        };
        self.connections.push(entry);
        proof {
            assert(self@ =~= before.push(fresh_entry(id@)));
            assert(distinct_ids(self@)) by {
                assert(forall|i: int| 0 <= i < before.len() ==> self@[i] == before[i]);
                assert(self@[before.len() as int].id == id@);
            }
            lemma_index_of(self@, id@, before.len() as int);
        }
        Ok(())
    }

    /// Parses `stanza` and enqueues it for the write side of `id`, in
    /// FIFO order. Fails with `ConnectionDoesNotExist` when `id` is not
    /// registered, `CannotParse` when the payload is not a well-formed
    /// stanza (nothing is then enqueued), and `CannotWrite` when the
    /// write pump has already exited — the stale handle's pumps are then
    /// aborted and the recovery events returned for emission.
    pub fn send(&mut self, id: &str, stanza: String) -> (r: (
        Result<(), SendError>,
        Vec<ConnectionEvent>,
    ))
        requires
            old(self).wf(),
        ensures
            final(self).wf(),
            r.0 == send_result(old(self)@, id@, stanza@),
            final(self)@ == send_transition(old(self)@, id@, stanza),
            r.1@ == send_events(old(self)@, id@, stanza@),
    {
        let k = match self.find_index(id) {
            None => {
                return (Err(SendError::ConnectionDoesNotExist), Vec::new());
            },
            Some(k) => k,
        };
        if !parse_stanza(stanza.as_str()) {
            return (Err(SendError::CannotParse), Vec::new());
        }
        let ghost before = self@;
        let e = &mut self.connections[k];
        if e.writer_open {
            e.queue.push(Frame::Stanza(stanza));
            proof {
                assert(self@ =~= with_entry(
                    before,
                    id@,
                    enqueued_entry(entry_of(before, id@), Frame::Stanza(stanza)),
                ));
                assert(distinct_ids(self@));
            }
            (Ok(()), Vec::new())
        } else {
            e.read_live = false;
            e.write_live = false;
            proof {
                assert(self@ =~= with_entry(before, id@, recovered_entry(entry_of(before, id@))));
                assert(distinct_ids(self@));
            }
            let events = abort_event_list(ConnectionState::ConnectionError, true);
            (Err(SendError::CannotWrite), events)
        }
    }

    /// Requests graceful termination of `id`: enqueues the stream
    /// termination marker, aborts the read pump, and reports
    /// `Disconnected` immediately — without waiting on the peer's
    /// acknowledgement. Fails with `ConnectionDoesNotExist` when `id` is
    /// not registered and `CannotWrite` on a stale handle. The handle
    /// stays registered; reclaiming it is `destroy`'s job.
    pub fn disconnect(&mut self, id: &str) -> (r: (
        Result<(), DisconnectError>,
        Vec<ConnectionEvent>,
    ))
        requires
            old(self).wf(),
        ensures
            final(self).wf(),
            r.0 == disconnect_result(old(self)@, id@),
            final(self)@ == disconnect_transition(old(self)@, id@),
            r.1@ == disconnect_events(old(self)@, id@),
    {
        let k = match self.find_index(id) {
            None => {
                return (Err(SendError::ConnectionDoesNotExist), Vec::new());
            },
            Some(k) => k,
        };
        let ghost before = self@;
        let e = &mut self.connections[k];
        if e.writer_open {
            e.read_live = false;
            e.queue.push(Frame::StreamEnd);
            proof {
                assert(self@ =~= with_entry(
                    before,
                    id@,
                    disconnected_entry(entry_of(before, id@)),
                ));
                assert(distinct_ids(self@));
            }
            let events = abort_event_list(ConnectionState::Disconnected, true);
            (Ok(()), events)
        } else {
            e.read_live = false;
            e.write_live = false;
            proof {
                assert(self@ =~= with_entry(before, id@, recovered_entry(entry_of(before, id@))));
                assert(distinct_ids(self@));
            }
            let events = abort_event_list(ConnectionState::ConnectionError, true);
            (Err(SendError::CannotWrite), events)
        }
    }

    /// Removes the entry under `id` and aborts both its pump tasks.
    /// Idempotent: absence is not an error but a no-op, so a caller
    /// racing an already-completed teardown loses nothing. Never touches
    /// the network.
    pub fn destroy(&mut self, id: &str) -> (r: Result<(), ()>)
        requires
            old(self).wf(),
        ensures
            final(self).wf(),
            r == Ok::<(), ()>(()),
            final(self)@ == without_id(old(self)@, id@),
            !contains_id(final(self)@, id@),
    {
        let ghost before = self@;
        proof {
            lemma_without_id_removes(before, id@);
        }
        match self.find_index(id) {
            Some(k) => {
                self.connections.remove(k);
                proof {
                    assert(self@ =~= before.remove(k as int));
                    lemma_without_id_at(before, id@, k as int);
                    assert(distinct_ids(self@));
                }
            },
            None => {
                proof {
                    lemma_without_id_absent(before, id@);
                }
            },
        }
        Ok(())
    }

    /// Hands the write side the oldest enqueued frame for `id`, if any:
    /// frames come out in FIFO enqueue order.
    pub fn pop_outbound(&mut self, id: &str) -> (r: Option<Frame>)
        requires
            old(self).wf(),
        ensures
            final(self).wf(),
            match r {
                Some(frame) => contains_id(old(self)@, id@) && entry_of(old(self)@, id@).queue.len()
                    > 0 && frame == entry_of(old(self)@, id@).queue[0] && final(self)@ == with_entry(
                    old(self)@,
                    id@,
                    popped_entry(entry_of(old(self)@, id@)),
                ),
                None => (!contains_id(old(self)@, id@) || entry_of(old(self)@, id@).queue.len()
                    == 0) && final(self)@ == old(self)@,
            },
    {
        let k = match self.find_index(id) {
            None => {
                return None;
            },
            Some(k) => k,
        };
        let ghost before = self@;
        proof {
            assert(self@[k as int] == self.connections@[k as int]@);
        }
        if self.connections[k].queue.len() == 0 {
            return None;
        }
        let e = &mut self.connections[k];
        let frame = e.queue.remove(0);
        proof {
            assert(final(e)@.queue =~= entry_of(before, id@).queue.drop_first());
            assert(self@ =~= with_entry(before, id@, popped_entry(entry_of(before, id@))));
            assert(distinct_ids(self@));
        }
        Some(frame)
    }

    /// Records that the write pump of `id` has exited: its queue's
    /// receiving side is gone, so a later `send` or `disconnect` on the
    /// handle fails with `CannotWrite`.
    pub fn mark_writer_closed(&mut self, id: &str)
        requires
            old(self).wf(),
        ensures
            final(self).wf(),
            contains_id(old(self)@, id@) ==> final(self)@ == with_entry(
                old(self)@,
                id@,
                writer_closed_entry(entry_of(old(self)@, id@)),
            ),
            !contains_id(old(self)@, id@) ==> final(self)@ == old(self)@,
    {
        let k = match self.find_index(id) {
            None => {
                return ;
            },
            Some(k) => k,
        };
        let ghost before = self@;
        let e = &mut self.connections[k];
        e.writer_open = false;
        e.write_live = false;
        proof {
            assert(self@ =~= with_entry(before, id@, writer_closed_entry(entry_of(before, id@))));
            assert(distinct_ids(self@));
        }
    }
}

/// How many establishment events an inbound event sequence holds.
pub open spec fn online_count(events: Seq<SessionEvent>) -> nat
    decreases events.len(),
{
    if events.len() == 0 {
        0
    } else {
        (if events[0] is Online {
            1nat
        } else {
            0nat
        }) + online_count(events.skip(1))
    }
}

/// How many state events an emitted trace holds.
pub open spec fn state_count(trace: Seq<ConnectionEvent>) -> nat
    decreases trace.len(),
{
    if trace.len() == 0 {
        0
    } else {
        (if trace[0] is State {
            1nat
        } else {
            0nat
        }) + state_count(trace.skip(1))
    }
}

/// How many `Connected` state events an emitted trace holds.
pub open spec fn connected_count(trace: Seq<ConnectionEvent>) -> nat
    decreases trace.len(),
{
    if trace.len() == 0 {
        0
    } else {
        (if trace[0] == ConnectionEvent::State(ConnectionState::Connected) {
            1nat
        } else {
            0nat
        }) + connected_count(trace.skip(1))
    }
}

proof fn lemma_state_count_concat(a: Seq<ConnectionEvent>, b: Seq<ConnectionEvent>)
    ensures
        state_count(a + b) == state_count(a) + state_count(b),
    decreases a.len(),
{
    if a.len() == 0 {
        assert(a + b =~= b);
    } else {
        assert((a + b).skip(1) =~= a.skip(1) + b);
        lemma_state_count_concat(a.skip(1), b);
    }
}

proof fn lemma_connected_count_concat(a: Seq<ConnectionEvent>, b: Seq<ConnectionEvent>)
    ensures
        connected_count(a + b) == connected_count(a) + connected_count(b),
    decreases a.len(),
{
    if a.len() == 0 {
        assert(a + b =~= b);
    } else {
        assert((a + b).skip(1) =~= a.skip(1) + b);
        lemma_connected_count_concat(a.skip(1), b);
    }
}

proof fn lemma_count_small_traces(e: ConnectionEvent, e2: ConnectionEvent)
    ensures
        state_count(seq![e]) == (if e is State {
            1nat
        } else {
            0nat
        }),
        connected_count(seq![e]) == (if e == ConnectionEvent::State(ConnectionState::Connected) {
            1nat
        } else {
            0nat
        }),
        state_count(seq![e, e2]) == (if e is State {
            1nat
        } else {
            0nat
        }) + (if e2 is State {
            1nat
        } else {
            0nat
        }),
        connected_count(seq![e, e2]) == (if e == ConnectionEvent::State(
            ConnectionState::Connected,
        ) {
            1nat
        } else {
            0nat
        }) + (if e2 == ConnectionEvent::State(ConnectionState::Connected) {
            1nat
        } else {
            0nat
        }),
{
    assert(seq![e].skip(1) =~= Seq::<ConnectionEvent>::empty());
    assert(seq![e, e2].skip(1) =~= seq![e2]);
    assert(state_count(Seq::<ConnectionEvent>::empty()) == 0);
    assert(connected_count(Seq::<ConnectionEvent>::empty()) == 0);
    assert(state_count(seq![e].skip(1)) == 0);
    assert(connected_count(seq![e].skip(1)) == 0);
    assert(seq![e2].skip(1) =~= Seq::<ConnectionEvent>::empty());
    assert(state_count(seq![e2].skip(1)) == 0);
    assert(connected_count(seq![e2].skip(1)) == 0);
    assert(state_count(seq![e, e2].skip(1)) == state_count(seq![e2]));
    assert(connected_count(seq![e, e2].skip(1)) == connected_count(seq![e2]));
}

/// A second `connect` under an identifier, issued before any `destroy`
/// of it, is rejected with `ConnectionAlreadyExists`, whatever identity
/// it offers.
pub proof fn lemma_connect_twice_rejected(
    entries: Seq<EntryView>,
    id: Seq<char>,
    jid1: Seq<char>,
    jid2: Seq<char>,
)
    requires
        connect_result(entries, id, jid1) is Ok,
    ensures
        connect_result(connect_transition(entries, id, jid1), id, jid2) == Err::<(), ConnectError>(
            ConnectError::ConnectionAlreadyExists,
        ),
{
    let after = connect_transition(entries, id, jid1);
    assert(after[entries.len() as int].id == id);
}

/// For an identifier not present in the registry: `send` and
/// `disconnect` fail with `ConnectionDoesNotExist`, and `destroy`
/// leaves the registry unchanged (and, by its contract, still succeeds).
pub proof fn lemma_absent_identifier(entries: Seq<EntryView>, id: Seq<char>, stanza: Seq<char>)
    requires
        !contains_id(entries, id),
    ensures
        send_result(entries, id, stanza) == Err::<(), SendError>(SendError::ConnectionDoesNotExist),
        disconnect_result(entries, id) == Err::<(), SendError>(SendError::ConnectionDoesNotExist),
        without_id(entries, id) == entries,
{
    lemma_without_id_absent(entries, id);
}

proof fn lemma_without_id_removes(entries: Seq<EntryView>, id: Seq<char>)
    ensures
        !contains_id(without_id(entries, id), id),
    decreases entries.len(),
{
    if entries.len() > 0 {
        lemma_without_id_removes(entries.skip(1), id);
        if entries[0].id != id {
            let rest = without_id(entries.skip(1), id);
            if contains_id(without_id(entries, id), id) {
                let k = choose|k: int|
                    0 <= k < without_id(entries, id).len() && without_id(entries, id)[k].id == id;
                if k == 0 {
                    assert(without_id(entries, id)[0] == entries[0]);
                } else {
                    assert(without_id(entries, id)[k] == rest[k - 1]);
                    assert(contains_id(rest, id));
                }
            }
        }
    }
}

/// `destroy` is idempotent: removing an identifier a second time, with
/// no `connect` in between, changes nothing — and by `destroy`'s
/// contract both calls succeed.
pub proof fn lemma_destroy_idempotent(entries: Seq<EntryView>, id: Seq<char>)
    ensures
        without_id(without_id(entries, id), id) == without_id(entries, id),
{
    lemma_without_id_removes(entries, id);
    lemma_without_id_absent(without_id(entries, id), id);
}

/// Replacing the entry under `id` touches no other entry: uniqueness is
/// kept, the entry under `id` becomes `e`, and every other identifier
/// keeps its entry.
pub proof fn lemma_with_entry(entries: Seq<EntryView>, id: Seq<char>, e: EntryView)
    requires
        distinct_ids(entries),
        contains_id(entries, id),
        e.id == id,
    ensures
        distinct_ids(with_entry(entries, id, e)),
        contains_id(with_entry(entries, id, e), id),
        entry_of(with_entry(entries, id, e), id) == e,
        with_entry(entries, id, e).len() == entries.len(),
        forall|other: Seq<char>|
            other != id ==> contains_id(with_entry(entries, id, e), other) == contains_id(
                entries,
                other,
            ),
        forall|other: Seq<char>|
            other != id && contains_id(entries, other) ==> entry_of(
                with_entry(entries, id, e),
                other,
            ) == entry_of(entries, other),
{
    let k = index_of_id(entries, id);
    assert(0 <= k < entries.len() && entries[k].id == id);
    let updated = with_entry(entries, id, e);
    lemma_index_of(updated, id, k);
    assert forall|other: Seq<char>| other != id implies contains_id(updated, other)
        == contains_id(entries, other) by {
        if contains_id(entries, other) {
            let j = choose|j: int| 0 <= j < entries.len() && entries[j].id == other;
            assert(updated[j].id == other);
        }
        if contains_id(updated, other) {
            let j = choose|j: int| 0 <= j < updated.len() && updated[j].id == other;
            assert(entries[j].id == other);
        }
    }
    assert forall|other: Seq<char>| other != id && contains_id(entries, other) implies entry_of(
        updated,
        other,
    ) == entry_of(entries, other) by {
        let j = index_of_id(entries, other);
        assert(0 <= j < entries.len() && entries[j].id == other);
        assert(j != k);
        lemma_index_of(updated, other, j);
    }
}

/// Outbound frames keep their order: sending one payload and then
/// another on the same connection leaves the first strictly before the
/// second on the outbound queue — and `pop_outbound` hands frames out
/// front-first, so the first is written to the transport first.
pub proof fn lemma_send_order(entries: Seq<EntryView>, id: Seq<char>, s1: String, s2: String)
    requires
        distinct_ids(entries),
        send_result(entries, id, s1@) is Ok,
        send_result(send_transition(entries, id, s1), id, s2@) is Ok,
    ensures
        entry_of(send_transition(send_transition(entries, id, s1), id, s2), id).queue == entry_of(
            entries,
            id,
        ).queue + seq![Frame::Stanza(s1), Frame::Stanza(s2)],
{
    let e0 = entry_of(entries, id);
    let t1 = send_transition(entries, id, s1);
    lemma_with_entry(entries, id, enqueued_entry(e0, Frame::Stanza(s1)));
    let e1 = entry_of(t1, id);
    let t2 = send_transition(t1, id, s2);
    lemma_with_entry(t1, id, enqueued_entry(e1, Frame::Stanza(s2)));
    assert(entry_of(t2, id).queue =~= e0.queue + seq![Frame::Stanza(s1), Frame::Stanza(s2)]);
}

/// Abort symmetry: when the pump terminates for any cause other than a
/// clean closure, after the connection was observed connected, the
/// specific failure event is followed immediately by a synthetic
/// `Disconnected`; a clean closure announces `Disconnected` alone.
pub proof fn lemma_abort_symmetry(cause: DisconnectCause)
    ensures
        cause == DisconnectCause::Clean ==> step_events(true, SessionEvent::Disconnected(cause))
            =~= seq![ConnectionEvent::State(ConnectionState::Disconnected)],
        cause != DisconnectCause::Clean ==> step_events(true, SessionEvent::Disconnected(cause))
            =~= seq![
            ConnectionEvent::State(abort_state_of(cause)),
            ConnectionEvent::State(ConnectionState::Disconnected),
        ],
{
}

/// After a successful `connect`, a state event is eventually observed:
/// whenever the session produces any establishment or disconnection
/// event, the pump's trace holds at least one state event.
pub proof fn lemma_pump_emits_state(was_connected: bool, events: Seq<SessionEvent>)
    requires
        exists|k: int| 0 <= k < events.len() && !(events[k] is Stanza),
    ensures
        state_count(inbound_trace(was_connected, events)) >= 1,
    decreases events.len(),
{
    let k = choose|k: int| 0 <= k < events.len() && !(events[k] is Stanza);
    let head = events[0];
    let emitted = step_events(was_connected, head);
    match head {
        SessionEvent::Online => {
            lemma_count_small_traces(
                ConnectionEvent::State(ConnectionState::Connected),
                ConnectionEvent::State(ConnectionState::Connected),
            );
            if step_outcome(head) is None {
                lemma_state_count_concat(
                    emitted,
                    inbound_trace(step_flag(was_connected, head), events.skip(1)),
                );
            }
        },
        SessionEvent::Stanza(s) => {
            assert(k >= 1);
            assert(events.skip(1)[k - 1] == events[k]);
            lemma_pump_emits_state(step_flag(was_connected, head), events.skip(1));
            lemma_count_small_traces(
                ConnectionEvent::Receive(s),
                ConnectionEvent::Receive(s),
            );
            lemma_state_count_concat(
                emitted,
                inbound_trace(step_flag(was_connected, head), events.skip(1)),
            );
        },
        SessionEvent::Disconnected(cause) => {
            let state = abort_state_of(cause);
            if was_connected && state != ConnectionState::Disconnected {
                lemma_count_small_traces(
                    ConnectionEvent::State(state),
                    ConnectionEvent::State(ConnectionState::Disconnected),
                );
            } else {
                lemma_count_small_traces(
                    ConnectionEvent::State(state),
                    ConnectionEvent::State(state),
                );
            }
        },
    }
}

/// The pump emits no more `Connected` events than the session produced
/// establishment events; a single-use session establishes at most once,
/// so its trace never holds two `Connected` without an intervening
/// terminal event.
pub proof fn lemma_connected_at_most_online(was_connected: bool, events: Seq<SessionEvent>)
    ensures
        connected_count(inbound_trace(was_connected, events)) <= online_count(events),
    decreases events.len(),
{
    if events.len() > 0 {
        let head = events[0];
        let emitted = step_events(was_connected, head);
        assert(events.skip(1).len() == events.len() - 1);
        match head {
            SessionEvent::Online => {
                lemma_count_small_traces(
                    ConnectionEvent::State(ConnectionState::Connected),
                    ConnectionEvent::State(ConnectionState::Connected),
                );
                lemma_connected_count_concat(
                    emitted,
                    inbound_trace(step_flag(was_connected, head), events.skip(1)),
                );
                lemma_connected_at_most_online(step_flag(was_connected, head), events.skip(1));
            },
            SessionEvent::Stanza(s) => {
                lemma_count_small_traces(
                    ConnectionEvent::Receive(s),
                    ConnectionEvent::Receive(s),
                );
                lemma_connected_count_concat(
                    emitted,
                    inbound_trace(step_flag(was_connected, head), events.skip(1)),
                );
                lemma_connected_at_most_online(step_flag(was_connected, head), events.skip(1));
            },
            SessionEvent::Disconnected(cause) => {
                let state = abort_state_of(cause);
                lemma_count_small_traces(
                    ConnectionEvent::State(state),
                    ConnectionEvent::State(ConnectionState::Disconnected),
                );
                lemma_count_small_traces(ConnectionEvent::State(state), ConnectionEvent::State(state));
            },
        }
    }
}

} // verus!
