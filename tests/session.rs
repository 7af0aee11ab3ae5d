use ws_hub::channel::Payload;
use ws_hub::endpoint::{echo_step, route, EchoStep, Endpoint};
use ws_hub::session::{read_step, Inbound, Phase, ReaderStep, Session, SessionCommand, SessionEvent};

#[test]
fn reader_steps() {
    assert_eq!(
        read_step(Inbound::Text("hi".to_string())),
        ReaderStep::Forward(Payload::Text("hi".to_string()))
    );
    assert_eq!(
        read_step(Inbound::Binary(vec![1, 2])),
        ReaderStep::Forward(Payload::Binary(vec![1, 2]))
    );
    assert_eq!(read_step(Inbound::Close), ReaderStep::Stop { acknowledge: true });
    assert_eq!(read_step(Inbound::Failed), ReaderStep::Stop { acknowledge: false });
    assert_eq!(read_step(Inbound::Control), ReaderStep::Skip);
}

#[test]
fn session_reader_ends_first() {
    let mut s = Session::new();
    assert_eq!(s.phase, Phase::Connecting);
    assert_eq!(s.on_event(SessionEvent::ReaderExited), SessionCommand::Nothing);
    assert_eq!(s.on_event(SessionEvent::Registered), SessionCommand::StartLoops);
    assert_eq!(s.phase, Phase::Active);
    assert_eq!(s.on_event(SessionEvent::Registered), SessionCommand::Nothing);
    assert_eq!(s.on_event(SessionEvent::ReaderExited), SessionCommand::Deregister);
    assert_eq!(s.phase, Phase::Closing);
    assert_eq!(s.on_event(SessionEvent::ReaderExited), SessionCommand::Nothing);
    assert_eq!(s.on_event(SessionEvent::WriterExited), SessionCommand::Release);
    assert_eq!(s.phase, Phase::Closed);
    assert!(s.deregistered);
    assert_eq!(s.on_event(SessionEvent::WriterExited), SessionCommand::Nothing);
}

#[test]
fn session_writer_ends_first() {
    let mut s = Session::new();
    s.on_event(SessionEvent::Registered);
    assert_eq!(s.on_event(SessionEvent::WriterExited), SessionCommand::CloseConnection);
    assert_eq!(s.phase, Phase::Closing);
    assert!(!s.deregistered);
    assert_eq!(s.on_event(SessionEvent::ReaderExited), SessionCommand::Deregister);
    assert_eq!(s.phase, Phase::Closed);
    assert!(s.deregistered);
}

#[test]
fn routes() {
    assert_eq!(route("/echo"), Endpoint::Echo);
    assert_eq!(route("/math"), Endpoint::Math);
    assert_eq!(route("/global-chat"), Endpoint::GlobalChat);
    assert_eq!(route("/echo/"), Endpoint::Unknown);
    assert_eq!(route(""), Endpoint::Unknown);
    assert_eq!(route("/global-chat?x=1"), Endpoint::Unknown);
}

#[test]
fn echo_steps() {
    assert_eq!(
        echo_step(Inbound::Text("hi".to_string())),
        EchoStep::Reply(Payload::Text("Echo: hi".to_string()))
    );
    assert_eq!(
        echo_step(Inbound::Binary(vec![7])),
        EchoStep::Reply(Payload::Binary(vec![7]))
    );
    assert_eq!(echo_step(Inbound::Close), EchoStep::Stop { acknowledge: true });
    assert_eq!(echo_step(Inbound::Failed), EchoStep::Stop { acknowledge: false });
    assert_eq!(echo_step(Inbound::Control), EchoStep::Skip);
}
