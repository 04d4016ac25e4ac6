//! The session state machine: it consumes one line at a time, enforces the
//! legal ordering of commands, and produces the reply a client must see.
//!
//! Protocol errors are values that carry the literal reply text, so the one
//! write-on-error path stays uniform whatever the kind of error.

use vstd::prelude::*;
use vstd::string::StringExecFns;

use crate::protocol::{parse_command, parse_error_text, spec_parse, Command, CommandView};

verus! {

// ---------------------------------------------------------------------------
// Reply texts
// ---------------------------------------------------------------------------

/// The greeting reply, with the client's own domain echoed back.
pub open spec fn greet_text(domain: Seq<char>) -> Seq<char> {
    "250 Hello "@ + domain + ", I am glad to meet you"@
}

/// The reply to an accepted envelope command and to a completed body.
pub open spec fn ok_text() -> Seq<char> {
    "250 Ok"@
}

/// The reply that opens a DATA block.
pub open spec fn data_go_text() -> Seq<char> {
    "354 End data with <CR><LF>.<CR><LF>"@
}

/// The refusal of an envelope or DATA command before any greeting.
pub open spec fn no_hello_text() -> Seq<char> {
    "500 You haven't said hello yet!"@
}

/// The refusal of a second greeting.
pub open spec fn already_hello_text() -> Seq<char> {
    "500 You already said hello..."@
}

// ---------------------------------------------------------------------------
// States, responses, errors
// ---------------------------------------------------------------------------

/// Per-connection state: no greeting yet, greeting exchanged, or inside a
/// DATA block with the body collected so far.
#[derive(PartialEq, Eq, Debug)]
pub enum SessionState {
    Initial,
    Greeted,
    ReadingData { data: Vec<u8> },
}

/// What the machine asks of its driver: close the connection, read on without
/// writing, or transmit one reply line.
#[derive(PartialEq, Eq, Debug)]
pub enum Response {
    Quit,
    Continue,
    Reply(String),
}

/// A protocol error; the reply text inside is what the client must be shown.
#[derive(PartialEq, Eq, Debug)]
pub enum SessionError {
    /// The line could not be parsed as a command at all.
    Malformed { reply: String },
    /// The line parsed, but the command is illegal in the current state.
    OutOfOrder { reply: String },
}

/// The state at the level of the model: the body is a byte sequence.
pub enum StateView {
    Initial,
    Greeted,
    ReadingData { body: Seq<u8> },
}

impl View for SessionState {
    type V = StateView;

    open spec fn view(&self) -> StateView {
        match self {
            SessionState::Initial => StateView::Initial,
            SessionState::Greeted => StateView::Greeted,
            SessionState::ReadingData { data } => StateView::ReadingData { body: data@ },
        }
    }
}

/// Everything one step can come to, responses and errors alike.
pub enum StepOutcome {
    Quit,
    Continue,
    Reply(Seq<char>),
    Malformed(Seq<char>),
    OutOfOrder(Seq<char>),
}

/// The outcome that an executable result stands for.
pub open spec fn outcome_of(r: Result<Response, SessionError>) -> StepOutcome {
    match r {
        Ok(Response::Quit) => StepOutcome::Quit,
        Ok(Response::Continue) => StepOutcome::Continue,
        Ok(Response::Reply(t)) => StepOutcome::Reply(t@),
        Err(SessionError::Malformed { reply }) => StepOutcome::Malformed(reply@),
        Err(SessionError::OutOfOrder { reply }) => StepOutcome::OutOfOrder(reply@),
    }
}

// ---------------------------------------------------------------------------
// The transition table
// ---------------------------------------------------------------------------

/// The exact terminator of a DATA block: a line holding a single dot, with an
/// optional carriage return before the line feed.
pub open spec fn is_terminator(line: Seq<u8>) -> bool {
    line == seq![46u8, 10u8] || line == seq![46u8, 13u8, 10u8]
}

/// The whole transition table: the state and the outcome that one line
/// produces. Inside a DATA block the grammar is bypassed: any line short of
/// the terminator is body content. Completing a block returns the state to
/// `Initial`, not `Greeted`: a deliberate quirk of this design, kept as it
/// stands. On an error the state never changes.
pub open spec fn step(s: StateView, line: Seq<u8>) -> (StateView, StepOutcome) {
    match s {
        StateView::Initial => match spec_parse(line) {
            None => (s, StepOutcome::Malformed(parse_error_text(line))),
            Some(cmd) => match cmd {
                CommandView::Quit => (s, StepOutcome::Quit),
                CommandView::Helo { domain } => (
                    StateView::Greeted,
                    StepOutcome::Reply(greet_text(domain)),
                ),
                CommandView::Ehlo { domain } => (
                    StateView::Greeted,
                    StepOutcome::Reply(greet_text(domain)),
                ),
                CommandView::MailFrom { .. } => (s, StepOutcome::OutOfOrder(no_hello_text())),
                CommandView::RcptTo { .. } => (s, StepOutcome::OutOfOrder(no_hello_text())),
                CommandView::Data => (s, StepOutcome::OutOfOrder(no_hello_text())),
            },
        },
        StateView::Greeted => match spec_parse(line) {
            None => (s, StepOutcome::Malformed(parse_error_text(line))),
            Some(cmd) => match cmd {
                CommandView::Quit => (s, StepOutcome::Quit),
                CommandView::Helo { .. } => (s, StepOutcome::OutOfOrder(already_hello_text())),
                CommandView::Ehlo { .. } => (s, StepOutcome::OutOfOrder(already_hello_text())),
                CommandView::MailFrom { .. } => (s, StepOutcome::Reply(ok_text())),
                CommandView::RcptTo { .. } => (s, StepOutcome::Reply(ok_text())),
                CommandView::Data => (
                    StateView::ReadingData { body: Seq::empty() },
                    StepOutcome::Reply(data_go_text()),
                ),
            },
        },
        StateView::ReadingData { body } => {
            if is_terminator(line) {
                (StateView::Initial, StepOutcome::Reply(ok_text()))
            } else {
                (StateView::ReadingData { body: body + line }, StepOutcome::Continue)
            }
        },
    }
}

// ---------------------------------------------------------------------------
// Executable helpers
// ---------------------------------------------------------------------------

fn greet_reply(domain: &String) -> (r: String)
    ensures
        r@ == greet_text(domain@),
{
    let mut r = String::from_str("250 Hello ");
    r.append(domain.as_str());
    r.append(", I am glad to meet you");
    r
}

fn is_terminator_line(line: &[u8]) -> (r: bool)
    ensures
        r == is_terminator(line@),
{
    if line.len() == 2 && line[0] == 46 && line[1] == 10 {
        proof {
            assert(line@ =~= seq![46u8, 10u8]);
        }
        true
    } else if line.len() == 3 && line[0] == 46 && line[1] == 13 && line[2] == 10 {
        proof {
            assert(line@ =~= seq![46u8, 13u8, 10u8]);
        }
        true
    } else {
        proof {
            assert(seq![46u8, 10u8].len() == 2);
            assert(seq![46u8, 13u8, 10u8].len() == 3);
            assert(!is_terminator(line@));
        }
        false
    }
}

fn append_bytes(dst: &mut Vec<u8>, src: &[u8])
    ensures
        final(dst)@ == old(dst)@ + src@,
{
    let mut i: usize = 0;
    proof {
        assert(dst@ =~= dst@ + src@.subrange(0, 0));
    }
    while i < src.len()
        invariant
            i <= src@.len(),
            dst@ == old(dst)@ + src@.subrange(0, i as int),
        decreases src@.len() - i,
    {
        dst.push(src[i]);
        proof {
            assert(dst@ =~= old(dst)@ + src@.subrange(0, i as int + 1));
        }
        i = i + 1;
    }
    proof {
        assert(old(dst)@ + src@.subrange(0, src@.len() as int) =~= old(dst)@ + src@);
    }
}

// ---------------------------------------------------------------------------
// The state machine
// ---------------------------------------------------------------------------

impl SessionState {
    /// Consume one full line: parse it (unless inside a DATA block), apply
    /// the transition table, and hand back the response or the error reply.
    /// The new state and the outcome are exactly those of `step`.
    pub fn handle(&mut self, line: &[u8]) -> (r: Result<Response, SessionError>)
        ensures
            final(self)@ == step(old(self)@, line@).0,
            outcome_of(r) == step(old(self)@, line@).1,
    {
        match self {
            SessionState::Initial => match parse_command(line) {
                Err(e) => Err(SessionError::Malformed { reply: e.message }),
                Ok(cmd) => match cmd {
                    Command::Quit => Ok(Response::Quit),
                    Command::Helo { domain } => {
                        let reply = greet_reply(&domain);
                        *self = SessionState::Greeted;
                        Ok(Response::Reply(reply))
                    },
                    Command::Ehlo { domain } => {
                        let reply = greet_reply(&domain);
                        *self = SessionState::Greeted;
                        Ok(Response::Reply(reply))
                    },
                    Command::MailFrom { .. } => Err(
                        SessionError::OutOfOrder {
                            reply: String::from_str("500 You haven't said hello yet!"),
                        },
                    ),
                    Command::RcptTo { .. } => Err(
                        SessionError::OutOfOrder {
                            reply: String::from_str("500 You haven't said hello yet!"),
                        },
                    ),
                    Command::Data => Err(
                        SessionError::OutOfOrder {
                            reply: String::from_str("500 You haven't said hello yet!"),
                        },
                    ),
                },
            },
            SessionState::Greeted => match parse_command(line) {
                Err(e) => Err(SessionError::Malformed { reply: e.message }),
                Ok(cmd) => match cmd {
                    Command::Quit => Ok(Response::Quit),
                    Command::Helo { .. } => Err(
                        SessionError::OutOfOrder {
                            reply: String::from_str("500 You already said hello..."),
                        },
                    ),
                    Command::Ehlo { .. } => Err(
                        SessionError::OutOfOrder {
                            reply: String::from_str("500 You already said hello..."),
                        },
                    ),
                    Command::MailFrom { .. } => Ok(Response::Reply(String::from_str("250 Ok"))),
                    Command::RcptTo { .. } => Ok(Response::Reply(String::from_str("250 Ok"))),
                    Command::Data => {
                        *self = SessionState::ReadingData { data: Vec::new() };
                        Ok(Response::Reply(String::from_str("354 End data with <CR><LF>.<CR><LF>")))
                    },
                },
            },
            SessionState::ReadingData { data } => {
                if is_terminator_line(line) {
                    *self = SessionState::Initial;
                    Ok(Response::Reply(String::from_str("250 Ok")))
                } else {
                    append_bytes(data, line);
                    Ok(Response::Continue)
                }
            },
        }
    }
}

// ---------------------------------------------------------------------------
// Laws
// ---------------------------------------------------------------------------

/// The states and outcomes of feeding several lines in order, first to last.
pub open spec fn run_session(s: StateView, lines: Seq<Seq<u8>>) -> (StateView, Seq<StepOutcome>)
    decreases lines.len(),
{
    if lines.len() == 0 {
        (s, Seq::empty())
    } else {
        let first = step(s, lines.first());
        let rest = run_session(first.0, lines.drop_first());
        (rest.0, seq![first.1] + rest.1)
    }
}

/// All the given lines, joined in order.
pub open spec fn concat_all(lines: Seq<Seq<u8>>) -> Seq<u8>
    decreases lines.len(),
{
    if lines.len() == 0 {
        Seq::empty()
    } else {
        lines.first() + concat_all(lines.drop_first())
    }
}

/// Law: an envelope or DATA command before any greeting is refused as out of
/// order, the state stays `Initial`, and a greeting sent next still succeeds
/// normally.
pub proof fn lemma_data_before_greeting(l1: Seq<u8>, l2: Seq<u8>, domain: Seq<char>)
    requires
        spec_parse(l1) == Some(CommandView::Data),
        spec_parse(l2) == Some((CommandView::Helo { domain })),
    ensures
        step(StateView::Initial, l1) == (
            StateView::Initial,
            StepOutcome::OutOfOrder(no_hello_text()),
        ),
        step(step(StateView::Initial, l1).0, l2) == (
            StateView::Greeted,
            StepOutcome::Reply(greet_text(domain)),
        ),
{
}

/// Law: a second greeting while already greeted is refused as out of order
/// and the state stays `Greeted`.
pub proof fn lemma_second_greeting(l: Seq<u8>, domain: Seq<char>)
    requires
        spec_parse(l) == Some((CommandView::Helo { domain })) || spec_parse(l) == Some(
            (CommandView::Ehlo { domain }),
        ),
    ensures
        step(StateView::Greeted, l) == (
            StateView::Greeted,
            StepOutcome::OutOfOrder(already_hello_text()),
        ),
{
}

/// Law: inside a DATA block, N lines short of the terminator give exactly N
/// `Continue` outcomes and grow the body by exactly their concatenation; the
/// terminator line then yields the ok reply and returns the state to
/// `Initial`.
pub proof fn lemma_data_block(body: Seq<u8>, lines: Seq<Seq<u8>>, term: Seq<u8>)
    requires
        forall|i: int| 0 <= i < lines.len() ==> !is_terminator(lines[i]),
        is_terminator(term),
    ensures
        run_session(StateView::ReadingData { body }, lines).0 == (StateView::ReadingData {
            body: body + concat_all(lines),
        }),
        run_session(StateView::ReadingData { body }, lines).1.len() == lines.len(),
        forall|i: int|
            0 <= i < lines.len() ==> run_session(StateView::ReadingData { body }, lines).1[i]
                == StepOutcome::Continue,
        step(StateView::ReadingData { body: body + concat_all(lines) }, term) == (
            StateView::Initial,
            StepOutcome::Reply(ok_text()),
        ),
    decreases lines.len(),
{
    if lines.len() == 0 {
        assert(body + concat_all(lines) =~= body);
    } else {
        assert(!is_terminator(lines.first()));
        lemma_data_block(body + lines.first(), lines.drop_first(), term);
        assert((body + lines.first()) + concat_all(lines.drop_first()) =~= body + concat_all(
            lines,
        ));
        let outs = run_session(StateView::ReadingData { body }, lines).1;
        let rest_outs = run_session(
            StateView::ReadingData { body: body + lines.first() },
            lines.drop_first(),
        ).1;
        assert forall|i: int| 0 <= i < lines.len() implies outs[i] == StepOutcome::Continue by {
            if i > 0 {
                assert(rest_outs[i - 1] == StepOutcome::Continue);
            }
        }
    }
}

} // verus!

