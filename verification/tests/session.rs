use reference_orbit::codec::decode_result;
use reference_orbit::engine::PrecisionContext;
use reference_orbit::orbit::OrbitError;
use reference_orbit::session::{
    convey, perform_calculation, registration, Action, Awaited, CalculationRequest,
    ConnectionConfirmation, Ending, Event, Outbound, SessionConfig, SessionState, WireFormat,
    BACKOFF_SECONDS, MAX_RETRIES, WORKER_PRECISION,
};

fn advance(state: SessionState, event: Event, ctx: &mut PrecisionContext) -> (SessionState, Action) {
    reference_orbit::session::advance(state, event, ctx, &SessionConfig::default())
}

fn context() -> PrecisionContext {
    PrecisionContext::new(WORKER_PRECISION).expect("context")
}

fn request(kind: &str, x: &str, y: &str, max_iter: u32) -> CalculationRequest {
    CalculationRequest { kind: kind.to_string(), x: x.to_string(), y: y.to_string(), max_iter }
}

fn confirmation(kind: &str) -> Event {
    Event::Confirmation(ConnectionConfirmation { kind: kind.to_string(), message: "welcome".to_string() })
}

fn stopped(step: &(SessionState, Action), ending: Ending) -> bool {
    step.0 == SessionState::Terminated && matches!(&step.1, Action::Stop(e) if *e == ending)
}

fn receives(step: &(SessionState, Action), state: SessionState, awaited: Awaited) -> bool {
    step.0 == state && matches!(&step.1, Action::Receive(a) if *a == awaited)
}

#[test]
fn a_session_connects_registers_and_becomes_active() {
    let mut ctx = context();
    let step = advance(SessionState::Disconnected, Event::Start, &mut ctx);
    assert!(step.0 == SessionState::Connecting(0) && matches!(step.1, Action::Connect));
    let step = advance(step.0, Event::ConnectSucceeded, &mut ctx);
    assert!(step.0 == SessionState::Connected && matches!(step.1, Action::SendRegister));
    let step = advance(step.0, Event::Sent, &mut ctx);
    assert!(receives(&step, SessionState::Registering, Awaited::Confirmation));
    let step = advance(step.0, confirmation("connection_confirmation"), &mut ctx);
    assert!(receives(&step, SessionState::Active, Awaited::Request));
}

#[test]
fn connecting_is_retried_up_to_the_cap() {
    let mut ctx = context();
    assert_eq!((MAX_RETRIES, BACKOFF_SECONDS), (5, 3));
    let mut state = SessionState::Connecting(0);
    for failures in 1..5u32 {
        let step = advance(state, Event::ConnectFailed, &mut ctx);
        assert!(step.0 == SessionState::Connecting(failures));
        assert!(matches!(step.1, Action::RetryAfter(3)));
        state = step.0;
    }
    let step = advance(state, Event::ConnectFailed, &mut ctx);
    assert!(stopped(&step, Ending::Transport));
    let step = advance(SessionState::Connecting(u32::MAX), Event::ConnectFailed, &mut ctx);
    assert!(stopped(&step, Ending::Transport));
    let step = advance(SessionState::Connecting(2), Event::ConnectSucceeded, &mut ctx);
    assert!(step.0 == SessionState::Connected);
}

#[test]
fn a_wrong_first_message_ends_the_session_cleanly() {
    let mut ctx = context();
    let wrong = || {
        vec![
            confirmation("calculation_request"),
            confirmation(""),
            confirmation("Connection_Confirmation"),
            Event::Request(request("calculation_request", "0", "0", 5)),
            Event::Unreadable,
            Event::NonText,
            Event::Closed,
        ]
    };
    for event in wrong() {
        let step = advance(SessionState::Registering, event, &mut ctx);
        assert!(stopped(&step, Ending::Clean));
        // whatever comes later, nothing is computed or sent
        for later in wrong() {
            let after = advance(step.0, later, &mut ctx);
            assert!(stopped(&after, Ending::Clean));
        }
        let after = advance(step.0, Event::Request(request("calculation_request", "0", "0", 5)), &mut ctx);
        assert!(stopped(&after, Ending::Clean));
    }
    let step = advance(SessionState::Registering, Event::TransportError, &mut ctx);
    assert!(stopped(&step, Ending::Transport));
}

#[test]
fn a_request_is_answered_with_the_frame_of_its_orbit() {
    let mut ctx = context();
    let step = advance(
        SessionState::Active,
        Event::Request(request("calculation_request", "1", "0", 10)),
        &mut ctx,
    );
    assert!(step.0 == SessionState::Active);
    let frame = match step.1 {
        Action::SendResult(Outbound::Frame(frame)) => frame,
        _ => panic!("no result"),
    };
    assert_eq!(frame[0], 0x03);
    assert_eq!(frame.len(), 1 + 4 * 8);
    let doubles: Vec<f64> =
        decode_result(&frame).expect("a frame").iter().map(|b| f64::from_bits(*b)).collect();
    assert_eq!(doubles, vec![0.0, 0.0, 1.0, 0.0]);
    let step = advance(step.0, Event::Sent, &mut ctx);
    assert!(receives(&step, SessionState::Active, Awaited::Request));
}

#[test]
fn the_origin_gives_six_samples_on_the_wire() {
    let mut ctx = context();
    let step = advance(
        SessionState::Active,
        Event::Request(request("calculation_request", "0", "0", 5)),
        &mut ctx,
    );
    match step.1 {
        Action::SendResult(Outbound::Frame(frame)) => {
            let mut expected = vec![0x03u8];
            expected.extend_from_slice(&[0u8; 96]);
            assert_eq!(frame, expected);
        }
        _ => panic!("no result"),
    }
}

#[test]
fn other_messages_are_passed_over() {
    let mut ctx = context();
    for event in [
        Event::Request(request("connection_confirmation", "0", "0", 5)),
        Event::Request(request("", "0", "0", 5)),
        Event::Unreadable,
        Event::NonText,
    ] {
        let step = advance(SessionState::Active, event, &mut ctx);
        assert!(receives(&step, SessionState::Active, Awaited::Request));
    }
}

#[test]
fn a_malformed_center_gets_no_result() {
    let mut ctx = context();
    for (x, y) in [("abc", "0"), ("0", "abc"), ("", ""), ("1e999999999999", "0")] {
        let step = advance(
            SessionState::Active,
            Event::Request(request("calculation_request", x, y, 5)),
            &mut ctx,
        );
        assert!(receives(&step, SessionState::Active, Awaited::Request));
    }
    let r = perform_calculation(&mut ctx, &request("calculation_request", "abc", "0", 5));
    assert!(matches!(r, Err(OrbitError::Parse(_))));
}

#[test]
fn an_active_session_ends_with_its_connection() {
    let mut ctx = context();
    let step = advance(SessionState::Active, Event::Closed, &mut ctx);
    assert!(stopped(&step, Ending::Clean));
    let step = advance(SessionState::Active, Event::TransportError, &mut ctx);
    assert!(stopped(&step, Ending::Transport));
    let step = advance(SessionState::Active, Event::Start, &mut ctx);
    assert!(stopped(&step, Ending::Protocol));
}

#[test]
fn events_out_of_place_end_the_session() {
    let mut ctx = context();
    let step = advance(SessionState::Disconnected, Event::Sent, &mut ctx);
    assert!(stopped(&step, Ending::Protocol));
    let step = advance(SessionState::Connecting(0), Event::NonText, &mut ctx);
    assert!(stopped(&step, Ending::Protocol));
    let step = advance(SessionState::Connected, confirmation("connection_confirmation"), &mut ctx);
    assert!(stopped(&step, Ending::Protocol));
    let step = advance(SessionState::Connected, Event::TransportError, &mut ctx);
    assert!(stopped(&step, Ending::Transport));
    let step = advance(SessionState::Terminated, Event::Start, &mut ctx);
    assert!(stopped(&step, Ending::Clean));
}

#[test]
fn a_calculation_hands_the_doubles_over() {
    let mut ctx = context();
    let doubles = perform_calculation(&mut ctx, &request("calculation_request", "-1", "0", 3))
        .expect("orbit");
    let values: Vec<f64> = doubles.iter().map(|b| f64::from_bits(*b)).collect();
    assert_eq!(values, vec![0.0, 0.0, -1.0, 0.0, 0.0, 0.0, -1.0, 0.0]);
    assert_eq!(ctx.precision(), 1000);
}

#[test]
fn a_session_in_text_form_answers_with_an_envelope() {
    let mut ctx = context();
    let config = SessionConfig { format: WireFormat::Json, ..SessionConfig::default() };
    let step = reference_orbit::session::advance(
        SessionState::Active,
        Event::Request(request("calculation_request", "1", "0", 10)),
        &mut ctx,
        &config,
    );
    assert!(step.0 == SessionState::Active);
    match step.1 {
        Action::SendResult(Outbound::Envelope(message)) => {
            assert_eq!(message.kind, "calculation_result");
            let values: Vec<f64> = message.ref_orbit.iter().map(|b| f64::from_bits(*b)).collect();
            assert_eq!(values, vec![0.0, 0.0, 1.0, 0.0]);
            assert!(message.bla_table.is_empty());
        }
        _ => panic!("no envelope"),
    }
}

#[test]
fn the_registration_names_a_calculation_client() {
    assert_eq!(registration().kind, "register_calculation_client");
}

#[test]
fn doubles_are_conveyed_in_the_chosen_form() {
    match convey(vec![1, 2], WireFormat::Binary) {
        Outbound::Frame(frame) => {
            assert_eq!(frame, vec![3, 1, 0, 0, 0, 0, 0, 0, 0, 2, 0, 0, 0, 0, 0, 0, 0])
        }
        _ => panic!("no frame"),
    }
    match convey(vec![1, 2], WireFormat::Json) {
        Outbound::Envelope(message) => assert_eq!(message.ref_orbit, vec![1, 2]),
        _ => panic!("no envelope"),
    }
}

#[test]
fn the_configuration_by_default() {
    let config = SessionConfig::default();
    assert_eq!(config.max_retries, 5);
    assert_eq!(config.backoff_seconds, 3);
    assert!(config.format == WireFormat::Binary);
}

#[test]
fn the_cap_and_the_wait_follow_the_configuration() {
    let mut ctx = context();
    let config = SessionConfig { max_retries: 2, backoff_seconds: 7, format: WireFormat::Binary };
    let step = reference_orbit::session::advance(
        SessionState::Connecting(0),
        Event::ConnectFailed,
        &mut ctx,
        &config,
    );
    assert!(step.0 == SessionState::Connecting(1) && matches!(step.1, Action::RetryAfter(7)));
    let step =
        reference_orbit::session::advance(step.0, Event::ConnectFailed, &mut ctx, &config);
    assert!(stopped(&step, Ending::Transport));
    let none = SessionConfig { max_retries: 0, ..config };
    let step = reference_orbit::session::advance(
        SessionState::Connecting(0),
        Event::ConnectFailed,
        &mut ctx,
        &none,
    );
    assert!(stopped(&step, Ending::Transport));
}
