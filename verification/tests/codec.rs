use mbell::ipc::{
    decode_command_line, encode_command, encode_response, parse_command, parse_response, Command,
    IpcClient, Response, StatusInfo,
};

#[test]
fn commands_encode_to_their_tagged_lines() {
    assert_eq!(encode_command(&Command::Pause), "{\"type\":\"Pause\"}");
    assert_eq!(encode_command(&Command::Resume), "{\"type\":\"Resume\"}");
    assert_eq!(encode_command(&Command::Stop), "{\"type\":\"Stop\"}");
    assert_eq!(encode_command(&Command::Status), "{\"type\":\"Status\"}");
    assert_eq!(encode_command(&Command::Ring), "{\"type\":\"Ring\"}");
    assert_eq!(encode_command(&Command::Reload), "{\"type\":\"Reload\"}");
}

#[test]
fn commands_round_trip_through_their_lines() {
    let all = [
        Command::Pause,
        Command::Resume,
        Command::Stop,
        Command::Status,
        Command::Ring,
        Command::Reload,
    ];
    for c in all {
        let mut line = encode_command(&c);
        line.push('\n');
        assert_eq!(parse_command(&line), Some(c));
    }
}

#[test]
fn command_parsing_tolerates_surrounding_whitespace() {
    assert_eq!(parse_command("  {\"type\":\"Pause\"}\r\n"), Some(Command::Pause));
    assert_eq!(parse_command("\t{\"type\":\"Stop\"} \n"), Some(Command::Stop));
}

#[test]
fn malformed_request_lines_yield_the_error_message() {
    for bad in ["", "\n", "pause", "{\"type\":\"pause\"}", "{\"type\":\"Halt\"}", "{}"] {
        assert_eq!(parse_command(bad), None, "accepted {:?}", bad);
        match decode_command_line(bad) {
            Err(m) => assert_eq!(m, "invalid command: unrecognized request"),
            Ok(c) => panic!("decoded {:?} from {:?}", c, bad),
        }
    }
}

#[test]
fn ok_response_encodes_to_its_line() {
    assert_eq!(encode_response(&Response::Okay), "{\"type\":\"Ok\"}");
}

#[test]
fn error_response_encodes_with_escaping() {
    let r = Response::Error(String::from("boom"));
    assert_eq!(encode_response(&r), "{\"type\":\"Error\",\"data\":\"boom\"}");
    let tricky = Response::Error(String::from("a\"b\\c\nd\te"));
    assert_eq!(
        encode_response(&tricky),
        "{\"type\":\"Error\",\"data\":\"a\\\"b\\\\c\\nd\\te\"}"
    );
    let control = Response::Error(String::from("x\u{1}y"));
    assert_eq!(encode_response(&control), "{\"type\":\"Error\",\"data\":\"x\\u0001y\"}");
}

#[test]
fn status_response_encodes_all_fields() {
    let r = Response::Status(StatusInfo {
        state: String::from("running"),
        next_bell_secs: Some(540),
        interval_mins: 10,
        total_bells_session: 3,
    });
    assert_eq!(
        encode_response(&r),
        "{\"type\":\"Status\",\"data\":{\"state\":\"running\",\"next_bell_secs\":540,\"interval_mins\":10,\"total_bells_session\":3}}"
    );
    let paused = Response::Status(StatusInfo {
        state: String::from("paused"),
        next_bell_secs: None,
        interval_mins: 1,
        total_bells_session: 0,
    });
    assert_eq!(
        encode_response(&paused),
        "{\"type\":\"Status\",\"data\":{\"state\":\"paused\",\"next_bell_secs\":null,\"interval_mins\":1,\"total_bells_session\":0}}"
    );
}

#[test]
fn responses_round_trip_through_their_lines() {
    let samples = vec![
        Response::Okay,
        Response::Error(String::from("")),
        Response::Error(String::from("daemon not responding")),
        Response::Error(String::from("quote \" slash \\ newline \n tab \t done")),
        Response::Error(String::from("ctl \u{2} and \u{1f} here")),
        Response::Status(StatusInfo {
            state: String::from("running"),
            next_bell_secs: Some(0),
            interval_mins: 10,
            total_bells_session: 42,
        }),
        Response::Status(StatusInfo {
            state: String::from("locked"),
            next_bell_secs: None,
            interval_mins: u64::MAX,
            total_bells_session: u64::MAX,
        }),
    ];
    for r in samples {
        let mut line = encode_response(&r);
        line.push('\n');
        assert_eq!(parse_response(&line), Some(r.clone()), "round trip of {:?}", r);
    }
}

#[test]
fn handwritten_status_line_parses_exactly() {
    let line = "{\"type\":\"Status\",\"data\":{\"state\":\"running\",\"next_bell_secs\":59,\"interval_mins\":1,\"total_bells_session\":7}}\n";
    let parsed = parse_response(line).expect("canonical line must parse");
    match parsed {
        Response::Status(si) => {
            assert_eq!(si.state, "running");
            assert_eq!(si.next_bell_secs, Some(59));
            assert_eq!(si.interval_mins, 1);
            assert_eq!(si.total_bells_session, 7);
        },
        other => panic!("expected status, got {:?}", other),
    }
}

#[test]
fn non_canonical_response_lines_are_rejected() {
    let bad = [
        "",
        "ok",
        "{\"type\":\"Ok\"} trailing",
        "{\"type\":\"Error\",\"data\":\"unterminated}",
        "{\"type\":\"Error\",\"data\":\"x\"}}",
        "{\"type\":\"Status\",\"data\":{\"state\":\"r\",\"next_bell_secs\":01,\"interval_mins\":1,\"total_bells_session\":0}}",
        "{\"type\":\"Status\",\"data\":{\"state\":\"r\",\"next_bell_secs\":null,\"interval_mins\":18446744073709551616,\"total_bells_session\":0}}",
        "{\"type\":\"Status\",\"data\":{\"state\":\"r\",\"next_bell_secs\":null,\"interval_mins\":1,\"total_bells_session\":}}",
    ];
    for line in bad {
        assert_eq!(parse_response(line), None, "accepted {:?}", line);
    }
}

#[test]
fn escaped_error_messages_round_trip_without_loss() {
    let msg = String::from("path \"C:\\tmp\"\r\nline two\u{8}");
    let r = Response::Error(msg.clone());
    let line = encode_response(&r);
    // The frame stays on one line.
    assert!(!line.contains('\n'));
    match parse_response(&line) {
        Some(Response::Error(back)) => assert_eq!(back, msg),
        other => panic!("expected the error back, got {:?}", other),
    }
}

#[test]
fn missing_endpoint_means_no_daemon() {
    assert!(!IpcClient::is_daemon_running("/nonexistent/surely/mbell.sock"));
}

#[test]
fn unreachable_daemon_response_text() {
    let r = mbell::ipc::daemon_not_responding();
    assert_eq!(r, Response::Error(String::from("daemon not responding")));
    assert_eq!(encode_response(&r), "{\"type\":\"Error\",\"data\":\"daemon not responding\"}");
}
