use pipe_ingest::decode::DecodeError;
use pipe_ingest::ingest::{is_blank_line, Action, Event, Fatal, IngestLoop, LineOutcome, LoopState};
use pipe_ingest::message::{Company, Message, MessageData, Person};

fn data(s: &str) -> Event {
    Event::Read(LineOutcome::Data(s.to_string()))
}

fn opened_loop() -> IngestLoop {
    let (mut l, a) = IngestLoop::new();
    assert_eq!(a, Action::Open);
    assert_eq!(l.handle(Event::Opened), Action::ReadLine);
    l
}

#[test]
fn blank_lines() {
    assert!(is_blank_line(""));
    assert!(is_blank_line("  \t\r\n"));
    assert!(is_blank_line("\u{a0}\u{3000}\n"));
    assert!(!is_blank_line(" x \n"));
}

#[test]
fn blank_line_reopens_without_decoding() {
    let mut l = opened_loop();
    assert_eq!(l.handle(data("   \n")), Action::Open);
    assert_eq!(l.state, LoopState::Reconnecting);
    assert_eq!(l.handle(data("")), Action::Open);
    assert_eq!(l.handle(Event::Opened), Action::ReadLine);
    assert_eq!(l.state, LoopState::Reading);
}

#[test]
fn end_of_stream_reopens_transparently() {
    let mut l = opened_loop();
    let a = l.handle(data("{\"type\":\"Person\",\"data\":{\"person_id\":1,\"name\":\"Ada\"}}\n"));
    assert_eq!(
        a,
        Action::Forward(Message {
            type_: "Person".to_string(),
            data: MessageData::Person(Person { person_id: 1, name: "Ada".to_string() }),
        })
    );
    assert_eq!(l.handle(Event::Read(LineOutcome::EndOfStream)), Action::Open);
    assert_eq!(l.handle(Event::Opened), Action::ReadLine);
    let a = l.handle(data("{\"type\":\"Company\",\"data\":{\"company_id\":2,\"company_name\":\"Acme\"}}\n"));
    assert_eq!(
        a,
        Action::Forward(Message {
            type_: "Company".to_string(),
            data: MessageData::Company(Company {
                company_id: 2,
                company_name: "Acme".to_string(),
                headcount: None,
            }),
        })
    );
    assert_eq!(l.state, LoopState::Reading);
}

#[test]
fn malformed_line_is_reported_and_reading_goes_on() {
    let mut l = opened_loop();
    assert_eq!(l.handle(data("not json\n")), Action::Report(DecodeError::MalformedSyntax));
    assert_eq!(l.state, LoopState::Reading);
    let a = l.handle(data("{\"type\":\"Person\",\"data\":{\"person_id\":2,\"name\":\"Bo\"}}\n"));
    assert!(matches!(a, Action::Forward(_)));
}

#[test]
fn unknown_variant_is_reported_and_reading_goes_on() {
    let mut l = opened_loop();
    assert_eq!(
        l.handle(data("{\"type\":\"Bogus\",\"data\":{}}\n")),
        Action::Report(DecodeError::UnknownVariant)
    );
    assert_eq!(l.state, LoopState::Reading);
}

#[test]
fn initial_open_error_terminates() {
    let (mut l, _) = IngestLoop::new();
    let a = l.handle(Event::OpenFailed("no such file".to_string()));
    assert_eq!(a, Action::Stop(Fatal::OpenError("no such file".to_string())));
    assert!(l.is_terminated());
    assert_eq!(l.handle(data("{\"type\":\"Bogus\",\"data\":{}}")), Action::Halt);
}

#[test]
fn io_failure_terminates() {
    let mut l = opened_loop();
    let a = l.handle(Event::Read(LineOutcome::IoFailure("denied".to_string())));
    assert_eq!(a, Action::Stop(Fatal::IoFailure("denied".to_string())));
    assert_eq!(l.state, LoopState::Terminated);
}

#[test]
fn reopen_failure_terminates() {
    let mut l = opened_loop();
    assert_eq!(l.handle(Event::Read(LineOutcome::EndOfStream)), Action::Open);
    let a = l.handle(Event::OpenFailed("gone".to_string()));
    assert_eq!(a, Action::Stop(Fatal::OpenError("gone".to_string())));
    assert!(l.is_terminated());
}

#[test]
fn out_of_turn_events_change_nothing() {
    let mut l = opened_loop();
    assert_eq!(l.handle(Event::Opened), Action::ReadLine);
    assert_eq!(l.state, LoopState::Reading);
    assert_eq!(l.handle(Event::Read(LineOutcome::EndOfStream)), Action::Open);
    assert_eq!(l.handle(data("x")), Action::Open);
    assert_eq!(l.state, LoopState::Reconnecting);
}
