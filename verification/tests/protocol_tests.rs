use smtp_adapter::protocol::{parse_command, Command};

#[test]
fn test_mail_from() {
    let cmd = parse_command(b"MAIL FROM:<alice@yo.dog>").unwrap();
    assert_eq!(
        cmd,
        Command::MailFrom {
            address: "alice@yo.dog".to_owned()
        }
    );
}

#[test]
fn test_mail_from_with_space() {
    let cmd = parse_command(b"MAIL FROM:   <alice@yo.dog>").unwrap();
    assert_eq!(
        cmd,
        Command::MailFrom {
            address: "alice@yo.dog".to_owned()
        }
    );
}

#[test]
fn helo_with_newline() {
    let cmd = parse_command(b"HELO yo.dog\n").unwrap();
    assert_eq!(
        cmd,
        Command::Helo {
            domain: "yo.dog".to_owned()
        }
    );
}

#[test]
fn helo_any_case_and_extra_whitespace() {
    let cmd = parse_command(b"hElO   Example.COM \r\n").unwrap();
    assert_eq!(
        cmd,
        Command::Helo {
            domain: "Example.COM".to_owned()
        }
    );
}

#[test]
fn helo_with_no_separating_space() {
    // The grammar is deliberately loose: zero spaces after the keyword parse.
    let cmd = parse_command(b"HELOyo.dog\n").unwrap();
    assert_eq!(
        cmd,
        Command::Helo {
            domain: "yo.dog".to_owned()
        }
    );
}

#[test]
fn ehlo_parses() {
    let cmd = parse_command(b"EHLO mx1.example.org\n").unwrap();
    assert_eq!(
        cmd,
        Command::Ehlo {
            domain: "mx1.example.org".to_owned()
        }
    );
}

#[test]
fn rcpt_to_parses() {
    let cmd = parse_command(b"rcpt to:<bob@yo.dog>\r\n").unwrap();
    assert_eq!(
        cmd,
        Command::RcptTo {
            address: "bob@yo.dog".to_owned()
        }
    );
}

#[test]
fn data_and_quit_parse_in_any_case() {
    assert_eq!(parse_command(b"DATA\n").unwrap(), Command::Data);
    assert_eq!(parse_command(b"data\r\n").unwrap(), Command::Data);
    assert_eq!(parse_command(b"QUIT\n").unwrap(), Command::Quit);
    assert_eq!(parse_command(b"quit").unwrap(), Command::Quit);
}

#[test]
fn helo_without_domain_fails() {
    let err = parse_command(b"HELO \n").unwrap_err();
    assert_eq!(
        err.message,
        "could not parse command from 'HELO \n': expected a domain of letters, digits and dots, then end of line"
    );
}

#[test]
fn helo_with_trailing_garbage_fails() {
    assert!(parse_command(b"HELO yo.dog extra\n").is_err());
}

#[test]
fn mail_from_without_brackets_fails() {
    let err = parse_command(b"MAIL FROM:alice@yo.dog\n").unwrap_err();
    assert_eq!(
        err.message,
        "could not parse command from 'MAIL FROM:alice@yo.dog\n': expected an address in angle brackets, then end of line"
    );
}

#[test]
fn mail_from_with_empty_address_fails() {
    assert!(parse_command(b"MAIL FROM:<>\n").is_err());
}

#[test]
fn quit_with_trailing_garbage_fails() {
    let err = parse_command(b"QUIT now\n").unwrap_err();
    assert_eq!(
        err.message,
        "could not parse command from 'QUIT now\n': unexpected input after the command"
    );
}

#[test]
fn unknown_keyword_fails() {
    let err = parse_command(b"NOOP\n").unwrap_err();
    assert_eq!(
        err.message,
        "could not parse command from 'NOOP\n': unrecognized command keyword"
    );
}

#[test]
fn empty_line_fails() {
    assert!(parse_command(b"").is_err());
    assert!(parse_command(b"\n").is_err());
}

#[test]
fn invalid_utf8_is_replaced_in_the_error() {
    let err = parse_command(b"HELO \xff\xfe\n").unwrap_err();
    assert_eq!(
        err.message,
        "could not parse command from 'HELO \u{fffd}\u{fffd}\n': expected a domain of letters, digits and dots, then end of line"
    );
}

#[test]
fn valid_utf8_is_kept_in_the_error() {
    // An accented domain attempt is not a valid domain, and the error echoes
    // it back as it was written.
    let err = parse_command(b"HELO caf\xc3\xa9.com\n").unwrap_err();
    assert_eq!(
        err.message,
        "could not parse command from 'HELO caf\u{e9}.com\n': expected a domain of letters, digits and dots, then end of line"
    );
}
