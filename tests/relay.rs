use ship_relay::relay::{route_line, Action, Event, Failure, Phase, Relay};

fn line(text: &str) -> Event {
    Event::Line(text.to_string())
}

fn forwarded(action: &Action) -> Option<Vec<u8>> {
    match action {
        Action::Forward(bytes) => Some(bytes.clone()),
        _ => None,
    }
}

#[test]
fn own_line_is_written_with_newline() {
    let mut relay = Relay::new("alpha".to_string());
    let action = relay.step(line(":alpha;!open_valve"));
    assert_eq!(forwarded(&action), Some(b"open_valve\n".to_vec()));
    assert_eq!(relay.phase(), Phase::Writing);
    assert!(matches!(relay.step(Event::WriteDone), Action::ReadNext));
    assert_eq!(relay.phase(), Phase::AwaitingLine);
}

#[test]
fn line_for_other_unit_is_skipped_by_name() {
    let mut relay = Relay::new("alpha".to_string());
    match relay.step(line(":beta;!open_valve")) {
        Action::Skip(other) => assert_eq!(other, "beta"),
        other => panic!("unexpected action {:?}", other),
    }
    assert_eq!(relay.phase(), Phase::AwaitingLine);
}

#[test]
fn line_without_colon_is_discarded() {
    let mut relay = Relay::new("alpha".to_string());
    assert!(matches!(relay.step(line("hello world")), Action::Discard));
    assert_eq!(relay.phase(), Phase::AwaitingLine);
}

#[test]
fn line_without_bang_is_discarded() {
    let mut relay = Relay::new("alpha".to_string());
    assert!(matches!(relay.step(line(":alpha;open_valve")), Action::Discard));
    assert_eq!(relay.phase(), Phase::AwaitingLine);
}

#[test]
fn stream_end_before_any_line_finishes_cleanly() {
    let mut relay = Relay::new("alpha".to_string());
    assert!(matches!(relay.step(Event::StreamEnded), Action::Finish));
    assert_eq!(relay.phase(), Phase::Closed);
    assert!(!relay.expects(&Event::WriteDone));
    assert!(!relay.expects(&line(":alpha;!x")));
}

#[test]
fn read_failure_is_fatal() {
    let mut relay = Relay::new("alpha".to_string());
    assert!(matches!(relay.step(Event::ReadFailed), Action::Fail(Failure::Read)));
    assert_eq!(relay.phase(), Phase::Closed);
}

#[test]
fn write_failure_is_fatal() {
    let mut relay = Relay::new("alpha".to_string());
    relay.step(line(":alpha;!x"));
    assert!(matches!(relay.step(Event::WriteFailed), Action::Fail(Failure::Write)));
    assert_eq!(relay.phase(), Phase::Closed);
}

#[test]
fn expected_events_follow_the_phase() {
    let mut relay = Relay::new("alpha".to_string());
    assert!(relay.expects(&line("x")));
    assert!(relay.expects(&Event::StreamEnded));
    assert!(relay.expects(&Event::ReadFailed));
    assert!(!relay.expects(&Event::WriteDone));
    assert!(!relay.expects(&Event::WriteFailed));
    relay.step(line(":alpha;!x"));
    assert!(relay.expects(&Event::WriteDone));
    assert!(relay.expects(&Event::WriteFailed));
    assert!(!relay.expects(&line("x")));
    assert!(!relay.expects(&Event::StreamEnded));
}

#[test]
fn identity_is_kept_across_steps() {
    let mut relay = Relay::new("alpha".to_string());
    relay.step(line(":beta;!x"));
    relay.step(line(":alpha;!y"));
    relay.step(Event::WriteDone);
    assert_eq!(relay.unit(), "alpha");
}

#[test]
fn messages_are_forwarded_in_arrival_order() {
    let mut relay = Relay::new("alpha".to_string());
    let mut written: Vec<u8> = Vec::new();
    for text in [":alpha;!one", ":beta;!skip", "noise", ":alpha;!two"] {
        if let Some(bytes) = forwarded(&relay.step(line(text))) {
            written.extend(bytes);
            relay.step(Event::WriteDone);
        }
    }
    assert_eq!(written, b"one\ntwo\n".to_vec());
}

#[test]
fn route_frames_non_ascii_payload_as_utf8() {
    let unit = "ü".to_string();
    let action = route_line(&unit, ":ü;!é");
    assert_eq!(forwarded(&action), Some(vec![0xc3, 0xa9, 10]));
}

#[test]
fn route_matches_identity_exactly() {
    let unit = "alpha".to_string();
    assert!(matches!(route_line(&unit, ":alph;!x"), Action::Skip(_)));
    assert!(matches!(route_line(&unit, ":alpha ;!x"), Action::Skip(_)));
    assert!(matches!(route_line(&unit, "::alpha;!x"), Action::Forward(_)));
    assert_eq!(forwarded(&route_line(&unit, ":alpha;!")), Some(vec![10]));
}
