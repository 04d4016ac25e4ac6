//! The per-line driver logic: what to write and when to close, for every
//! line read from the stream and for end-of-stream.
//!
//! The surrounding I/O loop owns the transport. It writes the banner first,
//! then reads one line at a time (delimiter kept) and follows the directive
//! this module hands back: each reply line is written followed by a line
//! terminator, and a `Close` ends the connection with nothing written.
//! Protocol errors are never fatal: their reply text is written like any
//! other and reading goes on; only transport failure, QUIT, or end-of-stream
//! ends a connection.

use vstd::prelude::*;
use vstd::string::StringExecFns;

use crate::session::{step, Response, SessionError, SessionState, StateView, StepOutcome};

verus! {

/// The greeting banner, written once before anything is read.
pub open spec fn banner_text() -> Seq<char> {
    "220 smtp.worse.email ESMTP Postfix"@
}

/// The banner line a connection opens with.
pub fn greeting_banner() -> (r: String)
    ensures
        r@ == banner_text(),
{
    String::from_str("220 smtp.worse.email ESMTP Postfix")
}

/// What the I/O loop must do after one read: stop with nothing written, read
/// on with nothing written, or write one reply line and read on.
#[derive(PartialEq, Eq, Debug)]
pub enum Directive {
    Close,
    Proceed,
    Send(String),
}

/// A directive at the level of the model.
pub enum DirectiveView {
    Close,
    Proceed,
    Send(Seq<char>),
}

impl View for Directive {
    type V = DirectiveView;

    open spec fn view(&self) -> DirectiveView {
        match self {
            Directive::Close => DirectiveView::Close,
            Directive::Proceed => DirectiveView::Proceed,
            Directive::Send(t) => DirectiveView::Send(t@),
        }
    }
}

/// The driver's decision for one read. A read of zero bytes is end-of-stream:
/// the session ends cleanly with nothing further written. A quit closes with
/// nothing written. A protocol error is only reported: its reply text is
/// written and reading goes on, in the same state, which `step` has left
/// untouched.
pub open spec fn drive(s: StateView, line: Seq<u8>) -> (StateView, DirectiveView) {
    if line.len() == 0 {
        (s, DirectiveView::Close)
    } else {
        let stepped = step(s, line);
        let directive = match stepped.1 {
            StepOutcome::Quit => DirectiveView::Close,
            StepOutcome::Continue => DirectiveView::Proceed,
            StepOutcome::Reply(t) => DirectiveView::Send(t),
            StepOutcome::Malformed(t) => DirectiveView::Send(t),
            StepOutcome::OutOfOrder(t) => DirectiveView::Send(t),
        };
        (stepped.0, directive)
    }
}

impl SessionState {
    /// One turn of the driver: take what one read yielded (the line with its
    /// delimiter, or nothing at end-of-stream), advance the session, and say
    /// what to write and whether to go on reading.
    pub fn on_read(&mut self, line: &[u8]) -> (d: Directive)
        ensures
            final(self)@ == drive(old(self)@, line@).0,
            d@ == drive(old(self)@, line@).1,
    {
        if line.len() == 0 {
            return Directive::Close;
        }
        match self.handle(line) {
            Ok(Response::Quit) => Directive::Close,
            Ok(Response::Continue) => Directive::Proceed,
            Ok(Response::Reply(t)) => Directive::Send(t),
            Err(SessionError::Malformed { reply }) => Directive::Send(reply),
            Err(SessionError::OutOfOrder { reply }) => Directive::Send(reply),
        }
    }
}

/// Law: a line that parses as QUIT, in any state outside a DATA block, closes
/// the session with nothing further written.
pub proof fn lemma_quit_closes(s: StateView, line: Seq<u8>)
    requires
        !(s is ReadingData),
        crate::protocol::spec_parse(line) == Some(crate::protocol::CommandView::Quit),
    ensures
        drive(s, line) == (s, DirectiveView::Close),
{
    assert(line.len() >= 4);
}

/// Law: a protocol error is never fatal: when a line draws a malformed or
/// out-of-order outcome, the driver reports the error's reply text as one
/// line, the state is unchanged, and reading goes on.
pub proof fn lemma_errors_not_fatal(s: StateView, line: Seq<u8>)
    requires
        line.len() > 0,
    ensures
        (step(s, line).1 matches StepOutcome::Malformed(t) ==> drive(s, line) == (
            s,
            DirectiveView::Send(t),
        )),
        (step(s, line).1 matches StepOutcome::OutOfOrder(t) ==> drive(s, line) == (
            s,
            DirectiveView::Send(t),
        )),
{
}

/// Law: end-of-stream (a zero-byte read) closes the session from any state,
/// with nothing further written.
pub proof fn lemma_eof_closes(s: StateView)
    ensures
        drive(s, Seq::empty()) == (s, DirectiveView::Close),
{
}

} // verus!
