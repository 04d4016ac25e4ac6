use smtp_adapter::driver::{greeting_banner, Directive};
use smtp_adapter::session::SessionState;

#[test]
fn banner_is_fixed() {
    assert_eq!(greeting_banner(), "220 smtp.worse.email ESMTP Postfix");
}

#[test]
fn smoke_test() {
    let mut state = SessionState::Initial;
    let d = state.on_read(b"HELO yo.dog\n");
    assert_eq!(
        d,
        Directive::Send("250 Hello yo.dog, I am glad to meet you".to_owned())
    );
}

#[test]
fn quit_test() {
    let mut state = SessionState::Initial;
    // QUIT closes the connection with nothing further written.
    assert_eq!(state.on_read(b"QUIT\n"), Directive::Close);
    let mut state = SessionState::Greeted;
    assert_eq!(state.on_read(b"QUIT\n"), Directive::Close);
}

#[test]
fn data_test() {
    let mut state = SessionState::Initial;
    assert_eq!(
        state.on_read(b"HELO yo.dog\n"),
        Directive::Send("250 Hello yo.dog, I am glad to meet you".to_owned())
    );
    assert_eq!(
        state.on_read(b"DATA\n"),
        Directive::Send("354 End data with <CR><LF>.<CR><LF>".to_owned())
    );
    assert_eq!(state.on_read(b"Line 1\n"), Directive::Proceed);
    assert_eq!(state.on_read(b"Line 2\n"), Directive::Proceed);
    assert_eq!(state.on_read(b"Line 3\n"), Directive::Proceed);
    assert_eq!(state.on_read(b".\n"), Directive::Send("250 Ok".to_owned()));
    assert_eq!(state.on_read(b"QUIT\n"), Directive::Close);
}

#[test]
fn end_of_stream_closes_without_writing() {
    let mut state = SessionState::Initial;
    assert_eq!(state.on_read(b""), Directive::Close);
    assert_eq!(state, SessionState::Initial);
    let mut state = SessionState::ReadingData { data: b"x".to_vec() };
    assert_eq!(state.on_read(b""), Directive::Close);
}

#[test]
fn protocol_errors_are_reported_and_the_session_resumes() {
    let mut state = SessionState::Initial;
    assert_eq!(
        state.on_read(b"DATA\n"),
        Directive::Send("500 You haven't said hello yet!".to_owned())
    );
    // The error is not fatal: the session resumes in the same state.
    assert_eq!(
        state.on_read(b"HELO yo.dog\n"),
        Directive::Send("250 Hello yo.dog, I am glad to meet you".to_owned())
    );
    let mut state = SessionState::Greeted;
    assert_eq!(
        state.on_read(b"NOOP\n"),
        Directive::Send(
            "could not parse command from 'NOOP\n': unrecognized command keyword".to_owned()
        )
    );
    assert_eq!(
        state.on_read(b"MAIL FROM:<alice@yo.dog>\n"),
        Directive::Send("250 Ok".to_owned())
    );
}
