use syncwave_core::codec::{Channels, CodecConfig, ConfigError, SampleRate};
use syncwave_core::session::{
    Action, ErrorClass, Event, Phase, Session, SessionConfig, SessionError, State,
    ANNOUNCE_COUNT, ANNOUNCE_DELAY_MS, SETTLE_DELAY_MS,
};
use syncwave_core::stream::Transmitter;
use syncwave_core::wire::{encode_header, StreamFormat};

fn run(session: &mut Session, events: &[Event]) -> Vec<Action> {
    let mut actions = Vec::new();
    for &event in events {
        if let Some(action) = session.handle(event) {
            actions.push(action);
        }
    }
    actions
}

fn up_to_device(broadcast: bool) -> Vec<Event> {
    let mut events = vec![Event::Start, Event::Done, Event::Done];
    if broadcast {
        events.push(Event::Done);
    }
    events
}

#[test]
fn raw_session_sends_five_headers_before_the_first_data() {
    let config = SessionConfig { use_compression: false, broadcast: false };
    let mut session = Session::new(config);
    assert_eq!(session.config(), config);
    assert_eq!(session.state(), State::Idle);
    assert_eq!(session.state().phase(), Phase::Idle);
    let format = StreamFormat { sample_rate: 44100, channel_count: 2, compression_enabled: false };

    // What goes out on the socket, as the caller would put it there.
    let mut sent: Vec<Vec<u8>> = Vec::new();
    let mut actions: Vec<Action> = Vec::new();
    let mut event = Event::Start;
    let mut transmitter: Option<Transmitter> = None;
    loop {
        let action = session.handle(event).expect("the session expects the event");
        actions.push(action);
        event = match action {
            Action::OpenDevice => Event::DeviceFound { sample_rate: 44100, channel_count: 2 },
            Action::SendHeader(announced) => {
                sent.push(encode_header(&announced));
                Event::Done
            }
            Action::BuildStream(announced) => {
                transmitter = Some(Transmitter::new(announced).unwrap());
                Event::Done
            }
            Action::Block => break,
            Action::Fail(error) => panic!("unexpected failure: {:?}", error),
            _ => Event::Done,
        };
    }
    assert_eq!(
        actions,
        vec![
            Action::ResolveDestination,
            Action::BindSocket,
            Action::OpenDevice,
            Action::SendHeader(format),
            Action::Sleep(50),
            Action::SendHeader(format),
            Action::Sleep(50),
            Action::SendHeader(format),
            Action::Sleep(50),
            Action::SendHeader(format),
            Action::Sleep(50),
            Action::SendHeader(format),
            Action::Sleep(50),
            Action::Sleep(100),
            Action::CloneSocket,
            Action::BuildStream(format),
            Action::PlayStream,
            Action::Block,
        ]
    );
    assert_eq!(session.state(), State::Streaming { format });
    assert_eq!(session.state().phase(), Phase::Streaming);

    // The capture device delivers chunks of different lengths.
    let mut transmitter = transmitter.unwrap();
    for len in [441usize, 0, 882, 7] {
        let chunk: Vec<u32> = (0..len).map(|i| (i as f32 / 1000.0).to_bits()).collect();
        let out = transmitter.on_samples(&chunk);
        assert!(out.frames.is_empty());
        sent.extend(out.datagrams);
    }
    assert_eq!(sent.len(), 9);
    let header = encode_header(&format);
    for datagram in &sent[0..5] {
        assert_eq!(datagram, &header);
    }
    for (datagram, len) in sent[5..].iter().zip([441usize, 0, 882, 7]) {
        assert_eq!(datagram[0], 0);
        assert_eq!(u16::from_le_bytes([datagram[9], datagram[10]]) as usize, 4 * len);
        assert_eq!(datagram.len(), 11 + 4 * len);
    }
}

#[test]
fn compression_with_an_unsupported_rate_fails_before_anything_is_sent() {
    let config = SessionConfig { use_compression: true, broadcast: false };
    let mut session = Session::new(config);
    let mut events = up_to_device(false);
    events.push(Event::DeviceFound { sample_rate: 44100, channel_count: 2 });
    events.extend([Event::Done, Event::Done, Event::Start, Event::Failed, Event::DeviceMissing]);
    let actions = run(&mut session, &events);
    let error = SessionError::Config(ConfigError::UnsupportedSampleRate(44100));
    assert_eq!(
        actions,
        vec![
            Action::ResolveDestination,
            Action::BindSocket,
            Action::OpenDevice,
            Action::Fail(error),
        ]
    );
    assert_eq!(session.state(), State::Failed { error });
    assert_eq!(session.state().phase(), Phase::Failed);
    assert_eq!(error.class(), ErrorClass::Configuration);
}

#[test]
fn compression_with_unsupported_channels_fails_before_anything_is_sent() {
    let config = SessionConfig { use_compression: true, broadcast: true };
    let mut session = Session::new(config);
    let mut events = up_to_device(true);
    events.push(Event::DeviceFound { sample_rate: 48000, channel_count: 3 });
    events.push(Event::Done);
    let actions = run(&mut session, &events);
    let error = SessionError::Config(ConfigError::UnsupportedChannelCount(3));
    assert_eq!(
        actions,
        vec![
            Action::ResolveDestination,
            Action::BindSocket,
            Action::EnableBroadcast,
            Action::OpenDevice,
            Action::Fail(error),
        ]
    );
    assert_eq!(session.state(), State::Failed { error });
}

#[test]
fn compressed_session_creates_the_encoder_before_it_announces() {
    let config = SessionConfig { use_compression: true, broadcast: true };
    let mut session = Session::new(config);
    let format = StreamFormat { sample_rate: 48000, channel_count: 2, compression_enabled: true };
    let mut events = up_to_device(true);
    events.push(Event::DeviceFound { sample_rate: 48000, channel_count: 2 });
    let actions = run(&mut session, &events);
    assert_eq!(
        actions,
        vec![
            Action::ResolveDestination,
            Action::BindSocket,
            Action::EnableBroadcast,
            Action::OpenDevice,
            Action::CreateEncoder(CodecConfig {
                sample_rate: SampleRate::Hz48000,
                channels: Channels::Stereo
            }),
        ]
    );
    assert_eq!(session.state(), State::CreatingEncoder { format });
    assert_eq!(session.state().phase(), Phase::Validating);
    assert_eq!(session.handle(Event::Done), Some(Action::SendHeader(format)));
    assert_eq!(session.state(), State::SendingHeader { format, sent: 0 });
    assert_eq!(session.state().phase(), Phase::Announcing);
    let rest = run(&mut session, &[Event::Done; 14]);
    let headers = rest.iter().filter(|a| matches!(a, Action::SendHeader(_))).count();
    assert_eq!(headers, 4);
    assert_eq!(rest.last(), Some(&Action::Block));
    assert_eq!(rest[rest.len() - 5], Action::Sleep(SETTLE_DELAY_MS));
    assert_eq!(rest[0], Action::Sleep(ANNOUNCE_DELAY_MS));
    assert_eq!(ANNOUNCE_COUNT, 5);
    assert_eq!(ANNOUNCE_DELAY_MS, 50);
    assert_eq!(SETTLE_DELAY_MS, 100);
    assert_eq!(session.state(), State::Streaming { format });
    // A streaming session takes no further step.
    for event in [Event::Start, Event::Done, Event::Failed, Event::DeviceMissing] {
        assert_eq!(session.handle(event), None);
        assert_eq!(session.state(), State::Streaming { format });
    }
}

#[test]
fn each_step_fails_with_its_own_error() {
    let found = Event::DeviceFound { sample_rate: 48000, channel_count: 2 };
    let done = Event::Done;
    let cases: Vec<(bool, bool, Vec<Event>, Event, SessionError, ErrorClass)> = vec![
        (false, false, vec![Event::Start], Event::Failed, SessionError::InvalidDestination,
            ErrorClass::Configuration),
        (false, false, vec![Event::Start, done], Event::Failed, SessionError::SocketBind,
            ErrorClass::ResourceAcquisition),
        (false, true, vec![Event::Start, done, done], Event::Failed,
            SessionError::BroadcastEnable, ErrorClass::ResourceAcquisition),
        (false, false, vec![Event::Start, done, done], Event::DeviceMissing,
            SessionError::NoOutputDevice, ErrorClass::ResourceAcquisition),
        (false, true, vec![Event::Start, done, done, done], Event::Failed,
            SessionError::DeviceConfig, ErrorClass::ResourceAcquisition),
        (true, false, vec![Event::Start, done, done, found], Event::Failed,
            SessionError::EncoderInit, ErrorClass::ResourceAcquisition),
        (false, false, vec![Event::Start, done, done, found], Event::Failed,
            SessionError::HeaderSend, ErrorClass::ResourceAcquisition),
        (true, false, vec![Event::Start, done, done, found, done, done, done], Event::Failed,
            SessionError::HeaderSend, ErrorClass::ResourceAcquisition),
    ];
    for (use_compression, broadcast, prefix, last, error, class) in cases {
        let mut session = Session::new(SessionConfig { use_compression, broadcast });
        let before = run(&mut session, &prefix);
        assert_eq!(before.len(), prefix.len());
        assert_eq!(session.handle(last), Some(Action::Fail(error)));
        assert_eq!(session.state(), State::Failed { error });
        assert_eq!(error.class(), class);
        assert_eq!(session.handle(Event::Done), None);
        assert_eq!(session.handle(Event::Start), None);
    }
}

#[test]
fn capture_start_fails_with_the_step_that_failed() {
    let found = Event::DeviceFound { sample_rate: 8000, channel_count: 1 };
    for (extra, error) in [
        (0usize, SessionError::SocketClone),
        (1, SessionError::BuildStream),
        (2, SessionError::PlayStream),
    ] {
        let mut session = Session::new(SessionConfig { use_compression: false, broadcast: false });
        let mut events = vec![Event::Start, Event::Done, Event::Done, found];
        // Five sends, five pauses and the settle delay.
        events.extend([Event::Done; 11]);
        events.extend(vec![Event::Done; extra]);
        let actions = run(&mut session, &events);
        assert_eq!(actions.len(), events.len());
        let headers = actions.iter().filter(|a| matches!(a, Action::SendHeader(_))).count();
        assert_eq!(headers, 5);
        assert_eq!(session.state().phase(), Phase::Announcing);
        assert_eq!(session.handle(Event::Failed), Some(Action::Fail(error)));
        assert_eq!(error.class(), ErrorClass::ResourceAcquisition);
    }
}

#[test]
fn events_that_a_state_does_not_expect_change_nothing() {
    let mut session = Session::new(SessionConfig { use_compression: false, broadcast: false });
    for event in [
        Event::Done,
        Event::Failed,
        Event::DeviceMissing,
        Event::DeviceFound { sample_rate: 48000, channel_count: 2 },
    ] {
        assert_eq!(session.handle(event), None);
        assert_eq!(session.state(), State::Idle);
    }
    assert_eq!(session.handle(Event::Start), Some(Action::ResolveDestination));
    assert_eq!(session.handle(Event::Start), None);
    assert_eq!(session.state(), State::Resolving);
    assert_eq!(session.handle(Event::Done), Some(Action::BindSocket));
    assert_eq!(session.handle(Event::Done), Some(Action::OpenDevice));
    assert_eq!(session.handle(Event::Done), None);
    assert_eq!(session.state(), State::OpeningDevice);
    let found = Event::DeviceFound { sample_rate: 22050, channel_count: 1 };
    let format = StreamFormat { sample_rate: 22050, channel_count: 1, compression_enabled: false };
    assert_eq!(session.handle(found), Some(Action::SendHeader(format)));
    assert_eq!(session.handle(Event::Done), Some(Action::Sleep(50)));
    // A pause cannot fail.
    assert_eq!(session.handle(Event::Failed), None);
    assert_eq!(session.state(), State::Pausing { format, sent: 1 });
}
