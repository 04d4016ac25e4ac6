use smtp_adapter::session::{Response, SessionError, SessionState};

#[test]
fn greeting_moves_to_greeted() {
    let mut state = SessionState::Initial;
    let r = state.handle(b"HELO yo.dog\n").unwrap();
    assert_eq!(
        r,
        Response::Reply("250 Hello yo.dog, I am glad to meet you".to_owned())
    );
    assert_eq!(state, SessionState::Greeted);
}

#[test]
fn data_cannot_be_invoked_without_helo() {
    let mut state = SessionState::Initial;
    let err = state.handle(b"DATA\n").unwrap_err();
    assert_eq!(
        err,
        SessionError::OutOfOrder {
            reply: "500 You haven't said hello yet!".to_owned()
        }
    );
    // The refusal leaves the state untouched: a greeting still succeeds.
    assert_eq!(state, SessionState::Initial);
    let r = state.handle(b"HELO yo.dog\n").unwrap();
    assert_eq!(
        r,
        Response::Reply("250 Hello yo.dog, I am glad to meet you".to_owned())
    );
    assert_eq!(state, SessionState::Greeted);
}

#[test]
fn envelope_commands_need_a_greeting_first() {
    let mut state = SessionState::Initial;
    let err = state.handle(b"MAIL FROM:<alice@yo.dog>\n").unwrap_err();
    assert_eq!(
        err,
        SessionError::OutOfOrder {
            reply: "500 You haven't said hello yet!".to_owned()
        }
    );
    assert_eq!(state, SessionState::Initial);
}

#[test]
fn second_greeting_is_refused() {
    let mut state = SessionState::Greeted;
    let err = state.handle(b"EHLO yo.dog\n").unwrap_err();
    assert_eq!(
        err,
        SessionError::OutOfOrder {
            reply: "500 You already said hello...".to_owned()
        }
    );
    assert_eq!(state, SessionState::Greeted);
}

#[test]
fn envelope_commands_are_accepted_after_greeting() {
    let mut state = SessionState::Greeted;
    let r = state.handle(b"MAIL FROM:<alice@yo.dog>\n").unwrap();
    assert_eq!(r, Response::Reply("250 Ok".to_owned()));
    let r = state.handle(b"RCPT TO:<bob@yo.dog>\n").unwrap();
    assert_eq!(r, Response::Reply("250 Ok".to_owned()));
    assert_eq!(state, SessionState::Greeted);
}

#[test]
fn data_block_collects_lines_until_the_terminator() {
    let mut state = SessionState::Greeted;
    let r = state.handle(b"DATA\n").unwrap();
    assert_eq!(
        r,
        Response::Reply("354 End data with <CR><LF>.<CR><LF>".to_owned())
    );
    assert_eq!(state.handle(b"Line 1\n").unwrap(), Response::Continue);
    assert_eq!(state.handle(b"Line 2\n").unwrap(), Response::Continue);
    assert_eq!(state.handle(b"Line 3\n").unwrap(), Response::Continue);
    assert_eq!(
        state,
        SessionState::ReadingData {
            data: b"Line 1\nLine 2\nLine 3\n".to_vec()
        }
    );
    assert_eq!(
        state.handle(b".\n").unwrap(),
        Response::Reply("250 Ok".to_owned())
    );
    // Completing a DATA block deliberately returns to Initial, not Greeted.
    assert_eq!(state, SessionState::Initial);
}

#[test]
fn data_block_ignores_command_lookalikes() {
    let mut state = SessionState::ReadingData { data: Vec::new() };
    assert_eq!(state.handle(b"QUIT\n").unwrap(), Response::Continue);
    assert_eq!(state.handle(b"..\n").unwrap(), Response::Continue);
    assert_eq!(state.handle(b".").unwrap(), Response::Continue);
    assert_eq!(
        state,
        SessionState::ReadingData {
            data: b"QUIT\n..\n.".to_vec()
        }
    );
}

#[test]
fn data_block_terminator_accepts_a_carriage_return() {
    let mut state = SessionState::ReadingData { data: Vec::new() };
    assert_eq!(
        state.handle(b".\r\n").unwrap(),
        Response::Reply("250 Ok".to_owned())
    );
    assert_eq!(state, SessionState::Initial);
}

#[test]
fn after_a_data_block_the_envelope_needs_a_new_greeting() {
    let mut state = SessionState::ReadingData { data: Vec::new() };
    state.handle(b".\n").unwrap();
    let err = state.handle(b"MAIL FROM:<alice@yo.dog>\n").unwrap_err();
    assert_eq!(
        err,
        SessionError::OutOfOrder {
            reply: "500 You haven't said hello yet!".to_owned()
        }
    );
}

#[test]
fn quit_is_accepted_in_any_command_state() {
    let mut state = SessionState::Initial;
    assert_eq!(state.handle(b"QUIT\n").unwrap(), Response::Quit);
    let mut state = SessionState::Greeted;
    assert_eq!(state.handle(b"quit\r\n").unwrap(), Response::Quit);
}

#[test]
fn malformed_lines_are_reported_and_leave_the_state_alone() {
    let mut state = SessionState::Greeted;
    let err = state.handle(b"NOOP\n").unwrap_err();
    assert_eq!(
        err,
        SessionError::Malformed {
            reply: "could not parse command from 'NOOP\n': unrecognized command keyword"
                .to_owned()
        }
    );
    assert_eq!(state, SessionState::Greeted);
}
