use prose_shell::connection::ConnectError;
use prose_shell::connection::ConnectionClientState;
use prose_shell::connection::ConnectionEvent;
use prose_shell::connection::ConnectionState;
use prose_shell::connection::DisconnectCause;
use prose_shell::connection::Frame;
use prose_shell::connection::InboundPump;
use prose_shell::connection::PollInputError;
use prose_shell::connection::SendError;
use prose_shell::connection::SessionEvent;
use prose_shell::connection::poll_input_events;

const JID: &str = "user@example.org/desktop";
const STANZA_A: &str = "<message xmlns='jabber:client'><body>first</body></message>";
const STANZA_B: &str = "<message xmlns='jabber:client'><body>second</body></message>";

#[test]
fn test_connect_twice_fails() {
    let mut state = ConnectionClientState::new();
    assert_eq!(state.connect("a", JID, "pw"), Ok(()));
    assert_eq!(
        state.connect("a", JID, "pw"),
        Err(ConnectError::ConnectionAlreadyExists)
    );
    // After destroying the identifier a fresh connect succeeds again.
    assert_eq!(state.destroy("a"), Ok(()));
    assert_eq!(state.connect("a", JID, "pw"), Ok(()));
}

#[test]
fn test_connect_invalid_jid() {
    let mut state = ConnectionClientState::new();
    assert_eq!(
        state.connect("a", "not a valid jid", "pw"),
        Err(ConnectError::InvalidJid)
    );
    // A bare JID misses the resource part, so it is no full JID.
    assert_eq!(
        state.connect("a", "user@example.org", "pw"),
        Err(ConnectError::InvalidJid)
    );
    // The rejected connect registered nothing.
    assert_eq!(
        state.send("a", STANZA_A.to_string()).0,
        Err(SendError::ConnectionDoesNotExist)
    );
}

#[test]
fn test_missing_identifier() {
    let mut state = ConnectionClientState::new();
    let (send_result, send_events) = state.send("ghost", STANZA_A.to_string());
    assert_eq!(send_result, Err(SendError::ConnectionDoesNotExist));
    assert!(send_events.is_empty());
    let (disc_result, disc_events) = state.disconnect("ghost");
    assert_eq!(disc_result, Err(SendError::ConnectionDoesNotExist));
    assert!(disc_events.is_empty());
    assert_eq!(state.destroy("ghost"), Ok(()));
}

#[test]
fn test_destroy_idempotent() {
    let mut state = ConnectionClientState::new();
    assert_eq!(state.connect("a", JID, "pw"), Ok(()));
    assert_eq!(state.destroy("a"), Ok(()));
    assert_eq!(state.destroy("a"), Ok(()));
}

#[test]
fn test_send_order() {
    let mut state = ConnectionClientState::new();
    assert_eq!(state.connect("a", JID, "pw"), Ok(()));
    assert_eq!(state.send("a", STANZA_A.to_string()).0, Ok(()));
    assert_eq!(state.send("a", STANZA_B.to_string()).0, Ok(()));
    assert_eq!(
        state.pop_outbound("a"),
        Some(Frame::Stanza(STANZA_A.to_string()))
    );
    assert_eq!(
        state.pop_outbound("a"),
        Some(Frame::Stanza(STANZA_B.to_string()))
    );
    assert_eq!(state.pop_outbound("a"), None);
}

#[test]
fn test_send_malformed_payload() {
    let mut state = ConnectionClientState::new();
    assert_eq!(state.connect("a", JID, "pw"), Ok(()));
    let (result, events) = state.send("a", "<<not-well-formed".to_string());
    assert_eq!(result, Err(SendError::CannotParse));
    assert!(events.is_empty());
    // Nothing was enqueued: a later well-formed send is first in queue order.
    assert_eq!(state.send("a", STANZA_A.to_string()).0, Ok(()));
    assert_eq!(
        state.pop_outbound("a"),
        Some(Frame::Stanza(STANZA_A.to_string()))
    );
    assert_eq!(state.pop_outbound("a"), None);
}

#[test]
fn test_forced_disconnect() {
    // The session reaches Connected, then the transport resets: the pump
    // announces the failure and follows it immediately with Disconnected.
    let events = vec![
        SessionEvent::Online,
        SessionEvent::Disconnected(DisconnectCause::Transport),
    ];
    let (emitted, outcome) = poll_input_events(&events);
    assert_eq!(
        emitted,
        vec![
            ConnectionEvent::State(ConnectionState::Connected),
            ConnectionEvent::State(ConnectionState::ConnectionTimeout),
            ConnectionEvent::State(ConnectionState::Disconnected),
        ]
    );
    assert_eq!(outcome, Err(PollInputError::ConnectionError));

    // The write pump died with the transport: send now fails with
    // CannotWrite and the stale handle is implicitly disconnected.
    let mut state = ConnectionClientState::new();
    assert_eq!(state.connect("a", JID, "pw"), Ok(()));
    state.mark_writer_closed("a");
    let (result, recovery) = state.send("a", STANZA_A.to_string());
    assert_eq!(result, Err(SendError::CannotWrite));
    assert_eq!(
        recovery,
        vec![
            ConnectionEvent::State(ConnectionState::ConnectionError),
            ConnectionEvent::State(ConnectionState::Disconnected),
        ]
    );
}

#[test]
fn test_graceful_disconnect() {
    let mut state = ConnectionClientState::new();
    assert_eq!(state.connect("a", JID, "pw"), Ok(()));
    let (result, events) = state.disconnect("a");
    assert_eq!(result, Ok(()));
    // Disconnected is reported immediately, without any network round-trip.
    assert_eq!(
        events,
        vec![ConnectionEvent::State(ConnectionState::Disconnected)]
    );
    // The termination marker went onto the outbound queue.
    assert_eq!(state.pop_outbound("a"), Some(Frame::StreamEnd));
    // The handle stays registered until destroy.
    assert_eq!(
        state.connect("a", JID, "pw"),
        Err(ConnectError::ConnectionAlreadyExists)
    );
    assert_eq!(state.destroy("a"), Ok(()));
}

#[test]
fn test_disconnect_stale_handle() {
    let mut state = ConnectionClientState::new();
    assert_eq!(state.connect("a", JID, "pw"), Ok(()));
    state.mark_writer_closed("a");
    let (result, events) = state.disconnect("a");
    assert_eq!(result, Err(SendError::CannotWrite));
    assert_eq!(
        events,
        vec![
            ConnectionEvent::State(ConnectionState::ConnectionError),
            ConnectionEvent::State(ConnectionState::Disconnected),
        ]
    );
}

#[test]
fn test_pump_clean_session() {
    let events = vec![
        SessionEvent::Online,
        SessionEvent::Stanza("<presence xmlns='jabber:client'/>".to_string()),
        SessionEvent::Disconnected(DisconnectCause::Clean),
    ];
    let (emitted, outcome) = poll_input_events(&events);
    assert_eq!(
        emitted,
        vec![
            ConnectionEvent::State(ConnectionState::Connected),
            ConnectionEvent::Receive("<presence xmlns='jabber:client'/>".to_string()),
            ConnectionEvent::State(ConnectionState::Disconnected),
        ]
    );
    assert_eq!(outcome, Ok(()));
}

#[test]
fn test_pump_auth_failure_before_connected() {
    // The connection never reached Connected, so no synthetic
    // Disconnected is owed: the UI never believed it live.
    let events = vec![SessionEvent::Disconnected(DisconnectCause::Auth)];
    let (emitted, outcome) = poll_input_events(&events);
    assert_eq!(
        emitted,
        vec![ConnectionEvent::State(ConnectionState::AuthenticationFailure)]
    );
    assert_eq!(outcome, Err(PollInputError::AuthenticationError));
}

#[test]
fn test_pump_other_failure_after_connected() {
    let events = vec![
        SessionEvent::Online,
        SessionEvent::Disconnected(DisconnectCause::Other),
    ];
    let (emitted, outcome) = poll_input_events(&events);
    assert_eq!(
        emitted,
        vec![
            ConnectionEvent::State(ConnectionState::Connected),
            ConnectionEvent::State(ConnectionState::ConnectionError),
            ConnectionEvent::State(ConnectionState::Disconnected),
        ]
    );
    assert_eq!(outcome, Err(PollInputError::OtherError));
}

#[test]
fn test_pump_stops_at_disconnection() {
    // Events after the disconnection are never processed.
    let events = vec![
        SessionEvent::Disconnected(DisconnectCause::Clean),
        SessionEvent::Online,
    ];
    let (emitted, outcome) = poll_input_events(&events);
    assert_eq!(
        emitted,
        vec![ConnectionEvent::State(ConnectionState::Disconnected)]
    );
    assert_eq!(outcome, Ok(()));
}

#[test]
fn test_pump_step_by_step() {
    let mut pump = InboundPump::new();
    let (events, stop) = pump.step(&SessionEvent::Online);
    assert_eq!(
        events,
        vec![ConnectionEvent::State(ConnectionState::Connected)]
    );
    assert_eq!(stop, None);
    let (events, stop) = pump.step(&SessionEvent::Disconnected(DisconnectCause::Transport));
    assert_eq!(
        events,
        vec![
            ConnectionEvent::State(ConnectionState::ConnectionTimeout),
            ConnectionEvent::State(ConnectionState::Disconnected),
        ]
    );
    assert_eq!(stop, Some(Err(PollInputError::ConnectionError)));
}

#[test]
fn test_independent_connections() {
    // A failed connection does not affect other live connections.
    let mut state = ConnectionClientState::new();
    assert_eq!(state.connect("a", JID, "pw"), Ok(()));
    assert_eq!(state.connect("b", JID, "pw"), Ok(()));
    state.mark_writer_closed("a");
    assert_eq!(
        state.send("a", STANZA_A.to_string()).0,
        Err(SendError::CannotWrite)
    );
    assert_eq!(state.send("b", STANZA_B.to_string()).0, Ok(()));
    assert_eq!(state.destroy("a"), Ok(()));
    assert_eq!(
        state.pop_outbound("b"),
        Some(Frame::Stanza(STANZA_B.to_string()))
    );
}

#[test]
fn test_pump_empty_session() {
    let events: Vec<SessionEvent> = vec![];
    let (emitted, outcome) = poll_input_events(&events);
    assert!(emitted.is_empty());
    assert_eq!(outcome, Ok(()));
}

#[test]
fn test_pump_payloads_without_terminal() {
    let events = vec![
        SessionEvent::Online,
        SessionEvent::Stanza("<iq xmlns='jabber:client' type='get'/>".to_string()),
    ];
    let (emitted, outcome) = poll_input_events(&events);
    assert_eq!(
        emitted,
        vec![
            ConnectionEvent::State(ConnectionState::Connected),
            ConnectionEvent::Receive("<iq xmlns='jabber:client' type='get'/>".to_string()),
        ]
    );
    assert_eq!(outcome, Ok(()));
}
