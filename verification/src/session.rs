//! Session orchestrator: the order in which a stream is brought up.
//!
//! The orchestrator is a state machine. It asks for one action at a time;
//! the caller performs the action and reports how it ended. A stream goes
//! through the phases idle, validating, announcing and streaming, or fails
//! on the way with the error of the step that failed.

use crate::codec::{validated, CodecConfig, ConfigError};
use crate::wire::StreamFormat;
use vstd::prelude::*;

verus! {

/// How many times the header is sent before capture starts.
pub const ANNOUNCE_COUNT: u8 = 5;

/// Pause after each announcement of the header, in milliseconds.
pub const ANNOUNCE_DELAY_MS: u64 = 50;

/// Pause between the last announcement and the start of capture, in
/// milliseconds.
pub const SETTLE_DELAY_MS: u64 = 100;

/// What the caller asks of a session.
#[derive(Clone, Copy, Debug, PartialEq, Eq, Structural)]
pub struct SessionConfig {
    pub use_compression: bool,
    pub broadcast: bool,
}

/// Why a session did not reach streaming.
#[derive(Clone, Copy, Debug, PartialEq, Eq, Structural)]
pub enum SessionError {
    /// The destination address could not be resolved.
    InvalidDestination,
    /// The device format cannot be compressed.
    Config(ConfigError),
    /// The socket could not be bound.
    SocketBind,
    /// Broadcast could not be enabled on the socket.
    BroadcastEnable,
    /// There is no default output device.
    NoOutputDevice,
    /// The device did not report its native format.
    DeviceConfig,
    /// The compressor could not be created.
    EncoderInit,
    /// An announcement of the header could not be sent.
    HeaderSend,
    /// The socket could not be duplicated for the capture callback.
    SocketClone,
    /// The capture stream could not be built.
    BuildStream,
    /// The capture stream could not be started.
    PlayStream,
}

/// The two classes of fatal errors.
#[derive(Clone, Copy, Debug, PartialEq, Eq, Structural)]
pub enum ErrorClass {
    /// The request cannot be served as configured.
    Configuration,
    /// A socket, a device or the compressor could not be acquired.
    ResourceAcquisition,
}

/// The phases of a session.
#[derive(Clone, Copy, Debug, PartialEq, Eq, Structural)]
pub enum Phase {
    Idle,
    Validating,
    Announcing,
    Streaming,
    Failed,
}

/// Where a session stands: the action it waits for, with what it knows.
#[derive(Clone, Copy, Debug, PartialEq, Eq, Structural)]
pub enum State {
    /// Nothing was asked for yet.
    Idle,
    /// The destination address is being resolved.
    Resolving,
    /// The socket is being bound.
    Binding,
    /// Broadcast is being enabled.
    EnablingBroadcast,
    /// The default output device is being opened and asked for its format.
    OpeningDevice,
    /// The compressor is being created for a format that it accepts.
    CreatingEncoder { format: StreamFormat },
    /// The header is being sent; `sent` announcements went out before.
    SendingHeader { format: StreamFormat, sent: u8 },
    /// The pause after the `sent`-th announcement.
    Pausing { format: StreamFormat, sent: u8 },
    /// The pause before capture starts.
    Settling { format: StreamFormat },
    /// The socket is being duplicated for the capture callback.
    CloningSocket { format: StreamFormat },
    /// The capture stream is being built.
    BuildingStream { format: StreamFormat },
    /// The capture stream is being started.
    StartingStream { format: StreamFormat },
    /// Capture runs; the session makes no further step.
    Streaming { format: StreamFormat },
    /// The session failed; it makes no further step.
    Failed { error: SessionError },
}

/// What the caller reports to a session.
#[derive(Clone, Copy, Debug, PartialEq, Eq, Structural)]
pub enum Event {
    /// The caller wants the stream to start.
    Start,
    /// The action asked for was carried out.
    Done,
    /// The action asked for failed.
    Failed,
    /// The device was opened and reports this native format.
    DeviceFound { sample_rate: u32, channel_count: u16 },
    /// There is no default output device.
    DeviceMissing,
}

/// What a session asks of the caller.
#[derive(Clone, Copy, Debug, PartialEq, Eq, Structural)]
pub enum Action {
    /// Resolve the destination address.
    ResolveDestination,
    /// Bind a socket to an ephemeral local port.
    BindSocket,
    /// Enable broadcast on the socket.
    EnableBroadcast,
    /// Open the default output device and read its native format.
    OpenDevice,
    /// Create the compressor for this configuration.
    CreateEncoder(CodecConfig),
    /// Send the header that announces this format.
    SendHeader(StreamFormat),
    /// Wait for this many milliseconds.
    Sleep(u64),
    /// Duplicate the socket for the capture callback.
    CloneSocket,
    /// Build the capture stream and register the callback for this format.
    BuildStream(StreamFormat),
    /// Start the capture stream.
    PlayStream,
    /// Keep the stream alive until the process ends.
    Block,
    /// Give up and report this error.
    Fail(SessionError),
}

/// The step into failure.
pub open spec fn fail(error: SessionError) -> Option<(State, Action)> {
    Some((State::Failed { error }, Action::Fail(error)))
}

/// The first announcement of a format.
pub open spec fn announce(format: StreamFormat) -> Option<(State, Action)> {
    Some((State::SendingHeader { format, sent: 0 }, Action::SendHeader(format)))
}

/// The step that a session takes on an event: the next state and the action
/// asked for, or `None` when the state does not expect the event.
pub open spec fn transition(config: SessionConfig, state: State, event: Event) -> Option<
    (State, Action),
> {
    match (state, event) {
        (State::Idle, Event::Start) => Some((State::Resolving, Action::ResolveDestination)),
        (State::Resolving, Event::Done) => Some((State::Binding, Action::BindSocket)),
        (State::Resolving, Event::Failed) => fail(SessionError::InvalidDestination),
        (State::Binding, Event::Done) => if config.broadcast {
            Some((State::EnablingBroadcast, Action::EnableBroadcast))
        } else {
            Some((State::OpeningDevice, Action::OpenDevice))
        },
        (State::Binding, Event::Failed) => fail(SessionError::SocketBind),
        (State::EnablingBroadcast, Event::Done) => Some((State::OpeningDevice, Action::OpenDevice)),
        (State::EnablingBroadcast, Event::Failed) => fail(SessionError::BroadcastEnable),
        (State::OpeningDevice, Event::DeviceFound { sample_rate, channel_count }) => {
            let format = StreamFormat {
                sample_rate,
                channel_count,
                compression_enabled: config.use_compression,
            };
            if config.use_compression {
                match validated(sample_rate, channel_count) {
                    Ok(codec) => Some(
                        (State::CreatingEncoder { format }, Action::CreateEncoder(codec)),
                    ),
                    Err(e) => fail(SessionError::Config(e)),
                }
            } else {
                announce(format)
            }
        },
        (State::OpeningDevice, Event::DeviceMissing) => fail(SessionError::NoOutputDevice),
        (State::OpeningDevice, Event::Failed) => fail(SessionError::DeviceConfig),
        (State::CreatingEncoder { format }, Event::Done) => announce(format),
        (State::CreatingEncoder { format }, Event::Failed) => fail(SessionError::EncoderInit),
        (State::SendingHeader { format, sent }, Event::Done) => Some(
            (
                State::Pausing { format, sent: (sent + 1) as u8 },
                Action::Sleep(ANNOUNCE_DELAY_MS),
            ),
        ),
        (State::SendingHeader { format, sent }, Event::Failed) => fail(SessionError::HeaderSend),
        (State::Pausing { format, sent }, Event::Done) => if sent < ANNOUNCE_COUNT {
            Some((State::SendingHeader { format, sent }, Action::SendHeader(format)))
        } else {
            Some((State::Settling { format }, Action::Sleep(SETTLE_DELAY_MS)))
        },
        (State::Settling { format }, Event::Done) => Some(
            (State::CloningSocket { format }, Action::CloneSocket),
        ),
        (State::CloningSocket { format }, Event::Done) => Some(
            (State::BuildingStream { format }, Action::BuildStream(format)),
        ),
        (State::CloningSocket { format }, Event::Failed) => fail(SessionError::SocketClone),
        (State::BuildingStream { format }, Event::Done) => Some(
            (State::StartingStream { format }, Action::PlayStream),
        ),
        (State::BuildingStream { format }, Event::Failed) => fail(SessionError::BuildStream),
        (State::StartingStream { format }, Event::Done) => Some(
            (State::Streaming { format }, Action::Block),
        ),
        (State::StartingStream { format }, Event::Failed) => fail(SessionError::PlayStream),
        _ => None,
    }
}

/// The announcements that a state counts are within the five to make.
pub open spec fn state_wf(state: State) -> bool {
    match state {
        State::SendingHeader { format, sent } => sent < ANNOUNCE_COUNT,
        State::Pausing { format, sent } => 1 <= sent <= ANNOUNCE_COUNT,
        _ => true,
    }
}

impl SessionError {
    /// The class of the error.
    pub open spec fn spec_class(self) -> ErrorClass {
        match self {
            SessionError::InvalidDestination => ErrorClass::Configuration,
            SessionError::Config(_) => ErrorClass::Configuration,
            _ => ErrorClass::ResourceAcquisition,
        }
    }

    /// The class of the error: a configuration error for a destination that
    /// does not resolve and for a format that cannot be compressed, a
    /// resource-acquisition error for everything else.
    #[verifier::when_used_as_spec(spec_class)]
    pub fn class(self) -> (class: ErrorClass)
        ensures
            class == self.spec_class(),
    {
        match self {
            SessionError::InvalidDestination => ErrorClass::Configuration,
            SessionError::Config(_) => ErrorClass::Configuration,
            _ => ErrorClass::ResourceAcquisition,
        }
    }
}

impl State {
    /// The phase that the state belongs to.
    pub open spec fn spec_phase(self) -> Phase {
        match self {
            State::Idle => Phase::Idle,
            State::Resolving
            | State::Binding
            | State::EnablingBroadcast
            | State::OpeningDevice
            | State::CreatingEncoder { .. } => Phase::Validating,
            State::SendingHeader { .. }
            | State::Pausing { .. }
            | State::Settling { .. }
            | State::CloningSocket { .. }
            | State::BuildingStream { .. }
            | State::StartingStream { .. } => Phase::Announcing,
            State::Streaming { .. } => Phase::Streaming,
            State::Failed { .. } => Phase::Failed,
        }
    }

    /// The phase that the state belongs to.
    #[verifier::when_used_as_spec(spec_phase)]
    pub fn phase(self) -> (phase: Phase)
        ensures
            phase == self.spec_phase(),
    {
        match self {
            State::Idle => Phase::Idle,
            State::Resolving
            | State::Binding
            | State::EnablingBroadcast
            | State::OpeningDevice
            | State::CreatingEncoder { .. } => Phase::Validating,
            State::SendingHeader { .. }
            | State::Pausing { .. }
            | State::Settling { .. }
            | State::CloningSocket { .. }
            | State::BuildingStream { .. }
            | State::StartingStream { .. } => Phase::Announcing,
            State::Streaming { .. } => Phase::Streaming,
            State::Failed { .. } => Phase::Failed,
        }
    }
}

/// A session: the request and where the bring-up stands.
#[derive(Clone, Copy, Debug)]
pub struct Session {
    config: SessionConfig,
    state: State,
}

impl Session {
    /// The request that the session serves.
    pub closed spec fn spec_config(&self) -> SessionConfig {
        self.config
    }

    /// Where the session stands.
    pub closed spec fn spec_state(&self) -> State {
        self.state
    }

    /// The state is one that a session can reach.
    pub open spec fn wf(&self) -> bool {
        state_wf(self.spec_state())
    }

    /// An idle session for a request.
    pub fn new(config: SessionConfig) -> (session: Session)
        ensures
            session.wf(),
            session.spec_config() == config,
            session.spec_state() == State::Idle,
    {
        Session { config, state: State::Idle }
    }

    /// The request that the session serves.
    pub fn config(&self) -> (config: SessionConfig)
        ensures
            config == self.spec_config(),
    {
        self.config
    }

    /// Where the session stands.
    pub fn state(&self) -> (state: State)
        ensures
            state == self.spec_state(),
    {
        self.state
    }

    /// Takes an event. When the state expects it, the session moves on and
    /// asks for the next action; else nothing changes and `None` comes back.
    pub fn handle(&mut self, event: Event) -> (action: Option<Action>)
        requires
            old(self).wf(),
        ensures
            final(self).wf(),
            final(self).spec_config() == old(self).spec_config(),
            match transition(old(self).spec_config(), old(self).spec_state(), event) {
                Some((state, asked)) => final(self).spec_state() == state && action == Some(asked),
                None => final(self).spec_state() == old(self).spec_state() && action is None,
            },
    {
        let step: Option<(State, Action)> = match (self.state, event) {
            (State::Idle, Event::Start) => Some((State::Resolving, Action::ResolveDestination)),
            (State::Resolving, Event::Done) => Some((State::Binding, Action::BindSocket)),
            (State::Resolving, Event::Failed) => Self::failed(SessionError::InvalidDestination),
            (State::Binding, Event::Done) => if self.config.broadcast {
                Some((State::EnablingBroadcast, Action::EnableBroadcast))
            } else {
                Some((State::OpeningDevice, Action::OpenDevice))
            },
            (State::Binding, Event::Failed) => Self::failed(SessionError::SocketBind),
            (State::EnablingBroadcast, Event::Done) => Some(
                (State::OpeningDevice, Action::OpenDevice),
            ),
            (State::EnablingBroadcast, Event::Failed) => Self::failed(
                SessionError::BroadcastEnable,
            ),
            (State::OpeningDevice, Event::DeviceFound { sample_rate, channel_count }) => {
                let format = StreamFormat {
                    sample_rate,
                    channel_count,
                    compression_enabled: self.config.use_compression,
                };
                if self.config.use_compression {
                    match CodecConfig::new(sample_rate, channel_count) {
                        Ok(codec) => Some(
                            (State::CreatingEncoder { format }, Action::CreateEncoder(codec)),
                        ),
                        Err(e) => Self::failed(SessionError::Config(e)),
                    }
                } else {
                    Self::announcing(format)
                }
            },
            (State::OpeningDevice, Event::DeviceMissing) => Self::failed(
                SessionError::NoOutputDevice,
            ),
            (State::OpeningDevice, Event::Failed) => Self::failed(SessionError::DeviceConfig),
            (State::CreatingEncoder { format }, Event::Done) => Self::announcing(format),
            (State::CreatingEncoder { .. }, Event::Failed) => Self::failed(
                SessionError::EncoderInit,
            ),
            (State::SendingHeader { format, sent }, Event::Done) => Some(
                (State::Pausing { format, sent: sent + 1 }, Action::Sleep(ANNOUNCE_DELAY_MS)),
            ),
            (State::SendingHeader { .. }, Event::Failed) => Self::failed(SessionError::HeaderSend),
            (State::Pausing { format, sent }, Event::Done) => if sent < ANNOUNCE_COUNT {
                Some((State::SendingHeader { format, sent }, Action::SendHeader(format)))
            } else {
                Some((State::Settling { format }, Action::Sleep(SETTLE_DELAY_MS)))
            },
            (State::Settling { format }, Event::Done) => Some(
                (State::CloningSocket { format }, Action::CloneSocket),
            ),
            (State::CloningSocket { format }, Event::Done) => Some(
                (State::BuildingStream { format }, Action::BuildStream(format)),
            ),
            (State::CloningSocket { .. }, Event::Failed) => Self::failed(
                SessionError::SocketClone,
            ),
            (State::BuildingStream { format }, Event::Done) => Some(
                (State::StartingStream { format }, Action::PlayStream),
            ),
            (State::BuildingStream { .. }, Event::Failed) => Self::failed(
                SessionError::BuildStream,
            ),
            (State::StartingStream { format }, Event::Done) => Some(
                (State::Streaming { format }, Action::Block),
            ),
            (State::StartingStream { .. }, Event::Failed) => Self::failed(
                SessionError::PlayStream,
            ),
            _ => None,
        };
        match step {
            Some((state, asked)) => {
                self.state = state;
                Some(asked)
            },
            None => None,
        }
    }

    fn failed(error: SessionError) -> (step: Option<(State, Action)>)
        ensures
            step == fail(error),
    {
        Some((State::Failed { error }, Action::Fail(error)))
    }

    fn announcing(format: StreamFormat) -> (step: Option<(State, Action)>)
        ensures
            step == announce(format),
    {
        Some((State::SendingHeader { format, sent: 0 }, Action::SendHeader(format)))
    }
}

/// The state that a session is in after a run of events, those that it did
/// not expect being ignored.
pub open spec fn state_after(config: SessionConfig, state: State, events: Seq<Event>) -> State
    decreases events.len(),
{
    if events.len() == 0 {
        state
    } else {
        let before = state_after(config, state, events.drop_last());
        match transition(config, before, events.last()) {
            Some((next, _)) => next,
            None => before,
        }
    }
}

/// The actions that a session asks for during a run of events, in order.
pub open spec fn actions_of(config: SessionConfig, state: State, events: Seq<Event>) -> Seq<Action>
    decreases events.len(),
{
    if events.len() == 0 {
        Seq::empty()
    } else {
        let prior = actions_of(config, state, events.drop_last());
        let before = state_after(config, state, events.drop_last());
        match transition(config, before, events.last()) {
            Some((_, asked)) => prior.push(asked),
            None => prior,
        }
    }
}

/// How many of the actions ask for the header to be sent.
pub open spec fn headers_in(actions: Seq<Action>) -> nat
    decreases actions.len(),
{
    if actions.len() == 0 {
        0
    } else {
        headers_in(actions.drop_last()) + if actions.last() is SendHeader {
            1nat
        } else {
            0nat
        }
    }
}

/// Whether an action belongs to the start of capture, which follows the
/// announcements.
pub open spec fn starts_capture(action: Action) -> bool {
    action is CloneSocket || action is BuildStream || action is PlayStream || action is Block
}

/// Whether an action puts something on the network or touches the capture
/// stream or the compressor.
pub open spec fn commits(action: Action) -> bool {
    action is SendHeader || action is CreateEncoder || starts_capture(action)
}

/// The number of announcements that went out when a session is in a state
/// that is not the failed one.
pub open spec fn announced(state: State) -> nat {
    match state {
        State::SendingHeader { format, sent } => (sent + 1) as nat,
        State::Pausing { format, sent } => sent as nat,
        State::Settling { .. }
        | State::CloningSocket { .. }
        | State::BuildingStream { .. }
        | State::StartingStream { .. }
        | State::Streaming { .. } => ANNOUNCE_COUNT as nat,
        _ => 0,
    }
}

/// The format of the stream, once a session knows it and has not failed.
pub open spec fn format_of(state: State) -> Option<StreamFormat> {
    match state {
        State::CreatingEncoder { format }
        | State::SendingHeader { format, .. }
        | State::Pausing { format, .. }
        | State::Settling { format }
        | State::CloningSocket { format }
        | State::BuildingStream { format }
        | State::StartingStream { format }
        | State::Streaming { format } => Some(format),
        _ => None,
    }
}

/// A list of actions that counts no request to send the header holds none.
proof fn lemma_no_headers(actions: Seq<Action>, i: int)
    requires
        headers_in(actions) == 0,
        0 <= i < actions.len(),
    ensures
        !(actions[i] is SendHeader),
    decreases actions.len(),
{
    if i < actions.len() - 1 {
        lemma_no_headers(actions.drop_last(), i);
    }
}

/// What holds of every run of a session from the idle state.
proof fn lemma_run(config: SessionConfig, events: Seq<Event>)
    ensures
        state_wf(state_after(config, State::Idle, events)),
        headers_in(actions_of(config, State::Idle, events)) <= ANNOUNCE_COUNT,
        !(state_after(config, State::Idle, events) is Failed) ==> headers_in(
            actions_of(config, State::Idle, events),
        ) == announced(state_after(config, State::Idle, events)),
        forall|i: int|
            0 <= i < actions_of(config, State::Idle, events).len() && starts_capture(
                #[trigger] actions_of(config, State::Idle, events)[i],
            ) ==> headers_in(actions_of(config, State::Idle, events).take(i)) == ANNOUNCE_COUNT,
        format_of(state_after(config, State::Idle, events)) matches Some(format)
            ==> format.compression_enabled == config.use_compression,
        forall|i: int|
            0 <= i < actions_of(config, State::Idle, events).len() ==> (#[trigger] actions_of(
                config,
                State::Idle,
                events,
            )[i] matches Action::SendHeader(format) ==> {
                &&& format.compression_enabled == config.use_compression
                &&& format_of(state_after(config, State::Idle, events)) matches Some(current)
                    ==> format == current
            }),
        forall|i: int, j: int|
            0 <= i < actions_of(config, State::Idle, events).len() && 0 <= j < actions_of(
                config,
                State::Idle,
                events,
            ).len() && (#[trigger] actions_of(config, State::Idle, events)[i]) is SendHeader
                && (#[trigger] actions_of(config, State::Idle, events)[j]) is SendHeader
                ==> actions_of(config, State::Idle, events)[i] == actions_of(
                config,
                State::Idle,
                events,
            )[j],
    decreases events.len(),
{
    if events.len() > 0 {
        let earlier = events.drop_last();
        lemma_run(config, earlier);
        let before = state_after(config, State::Idle, earlier);
        let prior = actions_of(config, State::Idle, earlier);
        let actions = actions_of(config, State::Idle, events);
        match transition(config, before, events.last()) {
            Some((next, asked)) => {
                assert(actions == prior.push(asked));
                assert(actions.drop_last() =~= prior);
                assert(actions.take(prior.len() as int) =~= prior);
                assert forall|i: int| 0 <= i < prior.len() implies #[trigger] actions.take(i)
                    == prior.take(i) by {
                    assert(actions.take(i) =~= prior.take(i));
                }
                assert forall|i: int|
                    0 <= i < actions.len() && starts_capture(
                        #[trigger] actions[i],
                    ) implies headers_in(actions.take(i)) == ANNOUNCE_COUNT by {
                    if i < prior.len() {
                        assert(actions[i] == prior[i]);
                        assert(actions.take(i) == prior.take(i));
                    }
                }
                assert forall|i: int| 0 <= i < actions.len() implies (#[trigger] actions[i] matches Action::SendHeader(
                    format,
                ) ==> {
                    &&& format.compression_enabled == config.use_compression
                    &&& format_of(next) matches Some(current) ==> format == current
                }) by {
                    if i < prior.len() {
                        assert(actions[i] == prior[i]);
                        if format_of(before) is None {
                            lemma_no_headers(prior, i);
                        }
                    }
                }
                assert forall|i: int, j: int|
                    0 <= i < actions.len() && 0 <= j < actions.len() && (
                    #[trigger] actions[i]) is SendHeader && (
                    #[trigger] actions[j]) is SendHeader implies actions[i] == actions[j] by {
                    if i < prior.len() {
                        assert(actions[i] == prior[i]);
                        if format_of(before) is None {
                            lemma_no_headers(prior, i);
                        }
                    }
                    if j < prior.len() {
                        assert(actions[j] == prior[j]);
                        if format_of(before) is None {
                            lemma_no_headers(prior, j);
                        }
                    }
                }
            },
            None => {},
        }
    }
}

/// The header is announced exactly five times before capture starts: in
/// every run of a session from the idle state, five requests to send the
/// header precede each request that belongs to the start of capture, and no
/// run holds more than five.
pub proof fn lemma_five_announcements_before_capture(
    config: SessionConfig,
    events: Seq<Event>,
    i: int,
)
    requires
        0 <= i < actions_of(config, State::Idle, events).len(),
        starts_capture(actions_of(config, State::Idle, events)[i]),
    ensures
        headers_in(actions_of(config, State::Idle, events).take(i)) == ANNOUNCE_COUNT,
        headers_in(actions_of(config, State::Idle, events)) == ANNOUNCE_COUNT,
{
    lemma_run(config, events);
    lemma_headers_monotonic(actions_of(config, State::Idle, events), i);
}

/// A prefix of a list of actions holds no more requests to send the header
/// than the list.
proof fn lemma_headers_monotonic(actions: Seq<Action>, i: int)
    requires
        0 <= i <= actions.len(),
    ensures
        headers_in(actions.take(i)) <= headers_in(actions),
    decreases actions.len(),
{
    if i == actions.len() {
        assert(actions.take(i) =~= actions);
    } else {
        lemma_headers_monotonic(actions.drop_last(), i);
        assert(actions.drop_last().take(i) =~= actions.take(i));
    }
}

/// The announced format is fixed: all headers that a session asks to send
/// in one run announce the same format, with the compression flag of the
/// request, and it is the format that the session goes on with.
pub proof fn lemma_announced_format(config: SessionConfig, events: Seq<Event>, i: int, j: int)
    requires
        0 <= i < actions_of(config, State::Idle, events).len(),
        0 <= j < actions_of(config, State::Idle, events).len(),
        actions_of(config, State::Idle, events)[i] is SendHeader,
        actions_of(config, State::Idle, events)[j] is SendHeader,
    ensures
        actions_of(config, State::Idle, events)[i] == actions_of(config, State::Idle, events)[j],
        actions_of(config, State::Idle, events)[i]->SendHeader_0.compression_enabled
            == config.use_compression,
        format_of(state_after(config, State::Idle, events)) matches Some(current) ==> actions_of(
            config,
            State::Idle,
            events,
        )[i] == Action::SendHeader(current),
{
    lemma_run(config, events);
}

/// Whether each format that the device reports in a run of events is one
/// that the compressor rejects.
pub open spec fn only_unsupported_formats(events: Seq<Event>) -> bool {
    forall|i: int|
        0 <= i < events.len() ==> (#[trigger] events[i] matches Event::DeviceFound {
            sample_rate,
            channel_count,
        } ==> validated(sample_rate, channel_count) is Err)
}

/// A session that is asked to compress a format that the compressor rejects
/// fails before anything is sent: no run of such a session asks for a
/// header, for the compressor or for the start of capture, and it never
/// gets beyond validating.
pub proof fn lemma_unsupported_format_commits_nothing(config: SessionConfig, events: Seq<Event>)
    requires
        config.use_compression,
        only_unsupported_formats(events),
    ensures
        forall|i: int|
            0 <= i < actions_of(config, State::Idle, events).len() ==> !commits(
                #[trigger] actions_of(config, State::Idle, events)[i],
            ),
        state_after(config, State::Idle, events).spec_phase() == Phase::Idle || state_after(
            config,
            State::Idle,
            events,
        ).spec_phase() == Phase::Validating || state_after(
            config,
            State::Idle,
            events,
        ).spec_phase() == Phase::Failed,
        !(state_after(config, State::Idle, events) is CreatingEncoder),
    decreases events.len(),
{
    if events.len() > 0 {
        let earlier = events.drop_last();
        assert(only_unsupported_formats(earlier)) by {
            assert forall|i: int| 0 <= i < earlier.len() implies (#[trigger] earlier[i] matches Event::DeviceFound {
                sample_rate,
                channel_count,
            } ==> validated(sample_rate, channel_count) is Err) by {
                assert(earlier[i] == events[i]);
            }
        }
        lemma_unsupported_format_commits_nothing(config, earlier);
        let prior = actions_of(config, State::Idle, earlier);
        let actions = actions_of(config, State::Idle, events);
        let last = events.last();
        assert(last == events[events.len() - 1]);
        assert forall|i: int| 0 <= i < actions.len() implies !commits(#[trigger] actions[i]) by {
            if i < prior.len() {
                assert(actions[i] == prior[i]);
            }
        }
    }
}

/// Whether broadcast was asked for before the `i`-th action.
pub open spec fn broadcast_enabled_before(actions: Seq<Action>, i: int) -> bool {
    exists|j: int| 0 <= j < i && #[trigger] actions[j] == Action::EnableBroadcast
}

/// Whether the compressor was asked for before the `i`-th action.
pub open spec fn encoder_created_before(actions: Seq<Action>, i: int) -> bool {
    exists|j: int| 0 <= j < i && (#[trigger] actions[j]) is CreateEncoder
}

/// Whether a session that is still on its way has come to the step that
/// enables broadcast, or beyond it.
pub open spec fn reached_broadcast(state: State) -> bool {
    state is EnablingBroadcast || state is OpeningDevice || format_of(state) is Some
}

/// Whether a session that is still on its way has come to the step that
/// creates the compressor, or beyond it.
pub open spec fn reached_encoder(state: State) -> bool {
    format_of(state) is Some
}

/// What holds of the order of the actions in every run from the idle state.
proof fn lemma_order(config: SessionConfig, events: Seq<Event>)
    ensures
        config.broadcast && reached_broadcast(state_after(config, State::Idle, events))
            ==> broadcast_enabled_before(
            actions_of(config, State::Idle, events),
            actions_of(config, State::Idle, events).len() as int,
        ),
        config.use_compression && reached_encoder(state_after(config, State::Idle, events))
            ==> encoder_created_before(
            actions_of(config, State::Idle, events),
            actions_of(config, State::Idle, events).len() as int,
        ),
        forall|i: int|
            0 <= i < actions_of(config, State::Idle, events).len() && config.broadcast && (
            #[trigger] actions_of(config, State::Idle, events)[i]) is SendHeader
                ==> broadcast_enabled_before(actions_of(config, State::Idle, events), i),
        forall|i: int|
            0 <= i < actions_of(config, State::Idle, events).len() && config.use_compression && (
            (#[trigger] actions_of(config, State::Idle, events)[i]) is SendHeader || actions_of(
                config,
                State::Idle,
                events,
            )[i] is BuildStream) ==> encoder_created_before(
                actions_of(config, State::Idle, events),
                i,
            ),
    decreases events.len(),
{
    if events.len() > 0 {
        let earlier = events.drop_last();
        lemma_order(config, earlier);
        let before = state_after(config, State::Idle, earlier);
        let prior = actions_of(config, State::Idle, earlier);
        let actions = actions_of(config, State::Idle, events);
        let n = prior.len() as int;
        match transition(config, before, events.last()) {
            Some((next, asked)) => {
                assert(actions == prior.push(asked));
                assert(actions[n] == asked);
                if broadcast_enabled_before(prior, n) {
                    let j = choose|j: int| 0 <= j < n && #[trigger] prior[j] == Action::EnableBroadcast;
                    assert(actions[j] == Action::EnableBroadcast);
                }
                if encoder_created_before(prior, n) {
                    let j = choose|j: int| 0 <= j < n && (#[trigger] prior[j]) is CreateEncoder;
                    assert(actions[j] is CreateEncoder);
                }
                assert forall|i: int|
                    0 <= i < actions.len() && config.broadcast && (
                    #[trigger] actions[i]) is SendHeader implies broadcast_enabled_before(
                    actions,
                    i,
                ) by {
                    if i < n {
                        assert(actions[i] == prior[i]);
                        let j = choose|j: int|
                            0 <= j < i && #[trigger] prior[j] == Action::EnableBroadcast;
                        assert(actions[j] == Action::EnableBroadcast);
                    }
                }
                assert forall|i: int|
                    0 <= i < actions.len() && config.use_compression && ((
                    #[trigger] actions[i]) is SendHeader
                        || actions[i] is BuildStream) implies encoder_created_before(
                    actions,
                    i,
                ) by {
                    if i < n {
                        assert(actions[i] == prior[i]);
                        let j = choose|j: int| 0 <= j < i && (#[trigger] prior[j]) is CreateEncoder;
                        assert(actions[j] is CreateEncoder);
                    }
                }
            },
            None => {},
        }
    }
}

/// Broadcast is enabled before anything is sent, and the compressor exists
/// before anything is sent or captured: in every run of a session from the
/// idle state, a request to send the header follows the request to enable
/// broadcast if the caller asked for broadcast, and it and the request to
/// build the capture stream follow the request to create the compressor if
/// the caller asked for compression.
pub proof fn lemma_prepared_before_sending(config: SessionConfig, events: Seq<Event>, i: int)
    requires
        0 <= i < actions_of(config, State::Idle, events).len(),
        actions_of(config, State::Idle, events)[i] is SendHeader || actions_of(
            config,
            State::Idle,
            events,
        )[i] is BuildStream,
    ensures
        config.broadcast && actions_of(config, State::Idle, events)[i] is SendHeader
            ==> broadcast_enabled_before(actions_of(config, State::Idle, events), i),
        config.use_compression ==> encoder_created_before(
            actions_of(config, State::Idle, events),
            i,
        ),
{
    lemma_order(config, events);
}

/// A device format that the compressor rejects makes a session that was
/// asked to compress fail at once, with the reason for the rejection.
pub proof fn lemma_unsupported_format_fails(
    config: SessionConfig,
    sample_rate: u32,
    channel_count: u16,
)
    requires
        config.use_compression,
        validated(sample_rate, channel_count) is Err,
    ensures
        transition(config, State::OpeningDevice, Event::DeviceFound { sample_rate, channel_count })
            == fail(SessionError::Config(validated(sample_rate, channel_count)->Err_0)),
{
}

} // verus!
