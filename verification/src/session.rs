//! The rules of a worker session: which action follows each event in each
//! state. The caller owns the connection; it performs the action that is
//! handed out and reports what happened as the next event.
//!
//! A request whose payload is unreadable, whose center does not parse or
//! whose arithmetic fails gets no result, and the session goes on to the
//! next message.

use vstd::prelude::*;
use crate::codec::{encode_result, encoded};
use crate::engine::PrecisionContext;
use crate::literal::decimal_literal;
use crate::orbit::{calc_spec, resource_failure, OrbitError};

verus! {

/// Failed attempts to connect after which a session gives up, by default.
pub const MAX_RETRIES: u32 = 5;

/// Seconds to wait before the next attempt to connect, by default.
pub const BACKOFF_SECONDS: u64 = 3;

/// Precision, in bits, at which a worker computes.
pub const WORKER_PRECISION: usize = 1000;

/// A request for an orbit: its type tag, the center as decimal literals and
/// the bound on the iteration count.
pub struct CalculationRequest {
    pub kind: String,
    pub x: String,
    pub y: String,
    pub max_iter: u32,
}

/// The answer to a registration: its type tag and a message for the log.
pub struct ConnectionConfirmation {
    pub kind: String,
    pub message: String,
}

/// The envelope of a result in its text form: its type tag, the doubles of
/// the orbit as bit patterns, and the table derived from them, which is left
/// empty here.
pub struct CalculationResult {
    pub kind: String,
    pub ref_orbit: Vec<u64>,
    pub bla_table: Vec<u64>,
}

/// The registration that a worker sends first.
pub struct RegisterMessage {
    pub kind: String,
}

/// How results are put on the wire, chosen once for a session.
#[derive(Clone, Copy, Debug, PartialEq, Eq, Structural)]
pub enum WireFormat {
    /// A tag byte and the doubles, eight bytes each.
    Binary,
    /// A text envelope that names its type.
    Json,
}

/// What is fixed for a session: the cap on failed attempts to connect, the
/// wait between attempts, and the form of results.
#[derive(Clone, Copy, Debug, PartialEq, Eq, Structural)]
pub struct SessionConfig {
    pub max_retries: u32,
    pub backoff_seconds: u64,
    pub format: WireFormat,
}

/// The configuration by default: five attempts, three seconds apart, and
/// results in binary form.
pub open spec fn standard_config() -> SessionConfig {
    SessionConfig {
        max_retries: MAX_RETRIES,
        backoff_seconds: BACKOFF_SECONDS,
        format: WireFormat::Binary,
    }
}

impl Default for SessionConfig {
    fn default() -> (config: SessionConfig)
        ensures
            config == standard_config(),
    {
        SessionConfig {
            max_retries: MAX_RETRIES,
            backoff_seconds: BACKOFF_SECONDS,
            format: WireFormat::Binary,
        }
    }
}

/// A result on its way out, in the form that the session's format asks for.
pub enum Outbound {
    Frame(Vec<u8>),
    Envelope(CalculationResult),
}

/// Where a session stands.
#[derive(Clone, Copy, Debug, PartialEq, Eq, Structural)]
pub enum SessionState {
    Disconnected,
    /// Connecting, after this many failed attempts.
    Connecting(u32),
    /// Connected; the registration is on its way.
    Connected,
    /// Registered; waiting for the confirmation.
    Registering,
    /// Confirmed; serving requests, one at a time.
    Active,
    Terminated,
}

/// What the caller reports.
pub enum Event {
    /// The session is to begin.
    Start,
    /// The transport was established.
    ConnectSucceeded,
    /// The transport could not be established.
    ConnectFailed,
    /// The message handed out last has been sent.
    Sent,
    /// A text message that reads as a confirmation.
    Confirmation(ConnectionConfirmation),
    /// A text message that reads as a request.
    Request(CalculationRequest),
    /// A text message that does not read as what was awaited.
    Unreadable,
    /// A message that is not text.
    NonText,
    /// The coordinator closed the connection.
    Closed,
    /// Reading or writing failed.
    TransportError,
}

/// What a message is to be read as.
#[derive(Clone, Copy, Debug, PartialEq, Eq, Structural)]
pub enum Awaited {
    Confirmation,
    Request,
}

/// How a session ended.
#[derive(Clone, Copy, Debug, PartialEq, Eq, Structural)]
pub enum Ending {
    /// A normal end: the coordinator closed, or withheld its confirmation.
    Clean,
    /// The transport failed, at the last attempt to connect or later.
    Transport,
    /// An event came that has no place in the state it came in.
    Protocol,
}

/// What the caller is to do next.
pub enum Action {
    /// Try to establish the transport.
    Connect,
    /// Wait this many seconds, then try to establish the transport.
    RetryAfter(u64),
    /// Send the registration.
    SendRegister,
    /// Read one message.
    Receive(Awaited),
    /// Send this, the result of the request just read.
    SendResult(Outbound),
    /// Tear the connection down and stop.
    Stop(Ending),
}

/// An action without the bytes of a result.
pub enum Plan {
    Connect,
    RetryAfter(u64),
    SendRegister,
    Receive(Awaited),
    /// Compute the orbit of the request and answer or pass.
    Compute,
    Stop(Ending),
}

/// Whether a confirmation carries the expected type tag.
pub open spec fn confirms(c: ConnectionConfirmation) -> bool {
    c.kind@ == "connection_confirmation"@
}

/// Whether `out` is the orbit `doubles` in the form that `format` asks for.
pub open spec fn conveys(out: Outbound, doubles: Seq<u64>, format: WireFormat) -> bool {
    match out {
        Outbound::Frame(frame) => format == WireFormat::Binary && frame@ == encoded(doubles),
        Outbound::Envelope(message) => format == WireFormat::Json && message.kind@
            == "calculation_result"@ && message.ref_orbit@ == doubles && message.bla_table@
            == Seq::<u64>::empty(),
    }
}

/// Whether a request carries the type tag of a calculation request.
pub open spec fn requests(r: CalculationRequest) -> bool {
    r.kind@ == "calculation_request"@
}

/// The state that follows `event` in `state`.
pub open spec fn transition(state: SessionState, event: Event, config: SessionConfig) -> SessionState {
    match (state, event) {
        (SessionState::Disconnected, Event::Start) => SessionState::Connecting(0),
        (SessionState::Connecting(_), Event::ConnectSucceeded) => SessionState::Connected,
        (SessionState::Connecting(failures), Event::ConnectFailed) => if failures + 1
            >= config.max_retries {
            SessionState::Terminated
        } else {
            SessionState::Connecting((failures + 1) as u32)
        },
        (SessionState::Connected, Event::Sent) => SessionState::Registering,
        (SessionState::Registering, Event::Confirmation(c)) => if confirms(c) {
            SessionState::Active
        } else {
            SessionState::Terminated
        },
        (SessionState::Active, Event::Request(_)) => SessionState::Active,
        (SessionState::Active, Event::Sent) => SessionState::Active,
        (SessionState::Active, Event::Unreadable) => SessionState::Active,
        (SessionState::Active, Event::NonText) => SessionState::Active,
        _ => SessionState::Terminated,
    }
}

/// The action that follows `event` in `state`, but for the bytes of a result.
pub open spec fn plan(state: SessionState, event: Event, config: SessionConfig) -> Plan {
    match (state, event) {
        (SessionState::Disconnected, Event::Start) => Plan::Connect,
        (SessionState::Connecting(_), Event::ConnectSucceeded) => Plan::SendRegister,
        (SessionState::Connecting(failures), Event::ConnectFailed) => if failures + 1
            >= config.max_retries {
            Plan::Stop(Ending::Transport)
        } else {
            Plan::RetryAfter(config.backoff_seconds)
        },
        (SessionState::Connecting(_), _) => Plan::Stop(Ending::Protocol),
        (SessionState::Connected, Event::Sent) => Plan::Receive(Awaited::Confirmation),
        (SessionState::Connected, Event::TransportError) => Plan::Stop(Ending::Transport),
        (SessionState::Connected, Event::Closed) => Plan::Stop(Ending::Transport),
        (SessionState::Connected, _) => Plan::Stop(Ending::Protocol),
        (SessionState::Registering, Event::Confirmation(c)) => if confirms(c) {
            Plan::Receive(Awaited::Request)
        } else {
            Plan::Stop(Ending::Clean)
        },
        (SessionState::Registering, Event::TransportError) => Plan::Stop(Ending::Transport),
        (SessionState::Registering, _) => Plan::Stop(Ending::Clean),
        (SessionState::Active, Event::Request(r)) => if requests(r) {
            Plan::Compute
        } else {
            Plan::Receive(Awaited::Request)
        },
        (SessionState::Active, Event::Sent) => Plan::Receive(Awaited::Request),
        (SessionState::Active, Event::Unreadable) => Plan::Receive(Awaited::Request),
        (SessionState::Active, Event::NonText) => Plan::Receive(Awaited::Request),
        (SessionState::Active, Event::Closed) => Plan::Stop(Ending::Clean),
        (SessionState::Active, Event::TransportError) => Plan::Stop(Ending::Transport),
        (SessionState::Active, _) => Plan::Stop(Ending::Protocol),
        (SessionState::Disconnected, _) => Plan::Stop(Ending::Protocol),
        (SessionState::Terminated, _) => Plan::Stop(Ending::Clean),
    }
}

/// Whether `action` carries out `plan`. Where the plan is to compute, a
/// result is sent only for a request whose orbit exists at `precision` bits,
/// and then it is that orbit in the session's format; otherwise the next
/// message is read.
pub open spec fn carries_out(
    action: Action,
    plan: Plan,
    event: Event,
    precision: nat,
    format: WireFormat,
) -> bool {
    match plan {
        Plan::Connect => action is Connect,
        Plan::RetryAfter(seconds) => action == Action::RetryAfter(seconds),
        Plan::SendRegister => action is SendRegister,
        Plan::Receive(awaited) => action == Action::Receive(awaited),
        Plan::Stop(ending) => action == Action::Stop(ending),
        Plan::Compute => event matches Event::Request(request) && (match action {
            Action::SendResult(out) => doubles_spec(
                request.x@,
                request.y@,
                request.max_iter as nat,
                precision,
            ) matches Ok(doubles) && conveys(out, doubles, format),
            Action::Receive(awaited) => awaited == Awaited::Request,
            _ => false,
        }),
    }
}

/// The state in which the `k`-th of `events` arrives, counting from zero,
/// for a session that is in `state` when the first arrives.
pub open spec fn state_before(
    state: SessionState,
    events: Seq<Event>,
    config: SessionConfig,
    k: nat,
) -> SessionState
    decreases k,
{
    if k == 0 {
        state
    } else {
        transition(state_before(state, events, config, (k - 1) as nat), events[k - 1], config)
    }
}

/// A terminated session stays terminated and is never asked to compute.
pub proof fn lemma_terminated_is_final(events: Seq<Event>, config: SessionConfig, k: nat)
    requires
        k <= events.len(),
    ensures
        state_before(SessionState::Terminated, events, config, k) == SessionState::Terminated,
        k < events.len() ==> plan(
            state_before(SessionState::Terminated, events, config, k),
            events[k as int],
            config,
        ) == Plan::Stop(Ending::Clean),
    decreases k,
{
    if k > 0 {
        lemma_terminated_is_final(events, config, (k - 1) as nat);
    }
}

/// Conformance of the handshake. A session that waits for its confirmation
/// and receives, first, anything but a confirmation with the expected type
/// tag is terminated by it, and no event, that one or a later one, makes it
/// compute: it sends no result.
pub proof fn lemma_unconfirmed_session_sends_nothing(
    events: Seq<Event>,
    config: SessionConfig,
    k: nat,
)
    requires
        events.len() >= 1,
        !(events[0] matches Event::Confirmation(c) && confirms(c)),
        k < events.len(),
    ensures
        k >= 1 ==> state_before(SessionState::Registering, events, config, k)
            == SessionState::Terminated,
        !(plan(state_before(SessionState::Registering, events, config, k), events[k as int], config)
            is Compute),
    decreases k,
{
    if k >= 2 {
        lemma_unconfirmed_session_sends_nothing(events, config, (k - 1) as nat);
    } else if k == 1 {
        assert(state_before(SessionState::Registering, events, config, 0)
            == SessionState::Registering);
    }
}

/// A session is told to stop exactly when it becomes terminated.
pub proof fn lemma_stop_means_terminated(state: SessionState, event: Event, config: SessionConfig)
    ensures
        plan(state, event, config) is Stop <==> transition(state, event, config)
            == SessionState::Terminated,
{
}

/// Only an active session computes, and only for a calculation request.
pub proof fn lemma_compute_only_when_active(
    state: SessionState,
    event: Event,
    config: SessionConfig,
)
    ensures
        plan(state, event, config) is Compute <==> state == SessionState::Active && (
        event matches Event::Request(r) && requests(r)),
{
}

/// Whether `kind` is the tag `tag`.
fn tagged(kind: &String, tag: &str) -> (r: bool)
    ensures
        r == (kind@ == tag@),
{
    let expected = tag.to_owned();
    *kind == expected
}

/// The doubles that a request gives, memory permitting: those of its orbit.
pub open spec fn doubles_spec(x: Seq<char>, y: Seq<char>, max_iter: nat, precision: nat) -> Result<
    Seq<u64>,
    OrbitError,
> {
    match calc_spec(x, y, max_iter, precision) {
        Ok(orbit) => Ok(orbit.samples),
        Err(e) => Err(e),
    }
}

/// The doubles of a result.
pub open spec fn doubles_model(r: Result<Vec<u64>, OrbitError>) -> Result<Seq<u64>, OrbitError> {
    match r {
        Ok(v) => Ok(v@),
        Err(e) => Err(e),
    }
}

/// Computes the orbit that `req` asks for and hands its doubles over.
pub fn perform_calculation(ctx: &mut PrecisionContext, req: &CalculationRequest) -> (r: Result<
    Vec<u64>,
    OrbitError,
>)
    ensures
        final(ctx).bits() == old(ctx).bits(),
        (r matches Err(e) && resource_failure(e)) || doubles_model(r) == doubles_spec(
            req.x@,
            req.y@,
            req.max_iter as nat,
            old(ctx).bits(),
        ),
        !decimal_literal(req.x@) || !decimal_literal(req.y@) ==> r matches Err(
            OrbitError::Parse(_),
        ),
        r matches Ok(doubles) ==> 2 <= doubles@.len() <= 2 * (req.max_iter + 1) && doubles@.len()
            % 2 == 0,
{
    match crate::orbit::calc(ctx, req.x.as_str(), req.y.as_str(), req.max_iter as usize) {
        Ok(orbit) => Ok(orbit.into_doubles()),
        Err(e) => Err(e),
    }
}

/// The registration message.
pub fn registration() -> (message: RegisterMessage)
    ensures
        message.kind@ == "register_calculation_client"@,
{
    RegisterMessage { kind: "register_calculation_client".to_owned() }
}

/// Puts the doubles of an orbit in the form that `format` asks for.
pub fn convey(doubles: Vec<u64>, format: WireFormat) -> (out: Outbound)
    ensures
        conveys(out, doubles@, format),
{
    match format {
        WireFormat::Binary => Outbound::Frame(encode_result(&doubles)),
        WireFormat::Json => Outbound::Envelope(
            CalculationResult {
                kind: "calculation_result".to_owned(),
                ref_orbit: doubles,
                bla_table: Vec::new(),
            },
        ),
    }
}

/// The action that follows `event` in `state`, with the state that follows.
/// A calculation request is computed here, before the action is handed out.
pub fn advance(
    state: SessionState,
    event: Event,
    ctx: &mut PrecisionContext,
    config: &SessionConfig,
) -> (r: (SessionState, Action))
    ensures
        final(ctx).bits() == old(ctx).bits(),
        r.0 == transition(state, event, *config),
        carries_out(r.1, plan(state, event, *config), event, old(ctx).bits(), config.format),
{
    match state {
        SessionState::Disconnected => match event {
            Event::Start => (SessionState::Connecting(0), Action::Connect),
            _ => (SessionState::Terminated, Action::Stop(Ending::Protocol)),
        },
        SessionState::Connecting(failures) => match event {
            Event::ConnectSucceeded => (SessionState::Connected, Action::SendRegister),
            Event::ConnectFailed => if failures == u32::MAX || failures + 1 >= config.max_retries {
                (SessionState::Terminated, Action::Stop(Ending::Transport))
            } else {
                (
                    SessionState::Connecting(failures + 1),
                    Action::RetryAfter(config.backoff_seconds),
                )
            },
            _ => (SessionState::Terminated, Action::Stop(Ending::Protocol)),
        },
        SessionState::Connected => match event {
            Event::Sent => (SessionState::Registering, Action::Receive(Awaited::Confirmation)),
            Event::TransportError => (SessionState::Terminated, Action::Stop(Ending::Transport)),
            Event::Closed => (SessionState::Terminated, Action::Stop(Ending::Transport)),
            _ => (SessionState::Terminated, Action::Stop(Ending::Protocol)),
        },
        SessionState::Registering => match event {
            Event::Confirmation(c) => if tagged(&c.kind, "connection_confirmation") {
                (SessionState::Active, Action::Receive(Awaited::Request))
            } else {
                (SessionState::Terminated, Action::Stop(Ending::Clean))
            },
            Event::TransportError => (SessionState::Terminated, Action::Stop(Ending::Transport)),
            _ => (SessionState::Terminated, Action::Stop(Ending::Clean)),
        },
        SessionState::Active => match event {
            Event::Request(request) => if tagged(&request.kind, "calculation_request") {
                match perform_calculation(ctx, &request) {
                    Ok(doubles) => (SessionState::Active, Action::SendResult(convey(doubles, config.format))),
                    Err(_) => (SessionState::Active, Action::Receive(Awaited::Request)),
                }
            } else {
                (SessionState::Active, Action::Receive(Awaited::Request))
            },
            Event::Sent => (SessionState::Active, Action::Receive(Awaited::Request)),
            Event::Unreadable => (SessionState::Active, Action::Receive(Awaited::Request)),
            Event::NonText => (SessionState::Active, Action::Receive(Awaited::Request)),
            Event::Closed => (SessionState::Terminated, Action::Stop(Ending::Clean)),
            Event::TransportError => (SessionState::Terminated, Action::Stop(Ending::Transport)),
            _ => (SessionState::Terminated, Action::Stop(Ending::Protocol)),
        },
        SessionState::Terminated => (SessionState::Terminated, Action::Stop(Ending::Clean)),
    }
}

} // verus!
