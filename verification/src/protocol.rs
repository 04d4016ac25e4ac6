//! The command grammar: one raw line of bytes is turned into a structured
//! command, or into a parse error that carries the rendered input and a note
//! on where matching failed.
//!
//! A line is a keyword (matched without regard to case), optional whitespace,
//! the keyword's argument if it takes one, and trailing whitespace; nothing
//! else may remain, so a malformed suffix is a hard failure rather than a
//! partial command.

use vstd::prelude::*;
use vstd::slice::slice_subrange;
use vstd::string::StringExecFns;

verus! {

// ---------------------------------------------------------------------------
// Byte classes
// ---------------------------------------------------------------------------

/// Whitespace accepted between tokens and at the end of a line:
/// space, tab, line feed, carriage return.
pub open spec fn is_ws(b: u8) -> bool {
    b == 32 || b == 9 || b == 10 || b == 13
}

/// An ASCII letter or digit.
pub open spec fn is_alnum(b: u8) -> bool {
    (48 <= b && b <= 57) || (65 <= b && b <= 90) || (97 <= b && b <= 122)
}

/// A byte legal inside a domain token: a letter, a digit, or a dot.
pub open spec fn is_domain_byte(b: u8) -> bool {
    is_alnum(b) || b == 46
}

/// A byte legal inside an address token: a letter, a digit, a dot, or `@`.
pub open spec fn is_addr_byte(b: u8) -> bool {
    is_alnum(b) || b == 46 || b == 64
}

/// An ASCII lowercase letter mapped to its uppercase form; anything else kept.
pub open spec fn upper(b: u8) -> u8 {
    if 97 <= b && b <= 122 {
        (b - 32) as u8
    } else {
        b
    }
}

/// The characters a run of ASCII bytes stands for, one per byte.
pub open spec fn chars_of(s: Seq<u8>) -> Seq<char> {
    s.map(|i: int, b: u8| b as char)
}

// ---------------------------------------------------------------------------
// Scanning
// ---------------------------------------------------------------------------

/// Index of the first byte at or after `i` that is not whitespace.
pub open spec fn ws_end(line: Seq<u8>, i: int) -> int
    recommends
        0 <= i <= line.len(),
    decreases line.len() - i when 0 <= i <= line.len()
{
    if i < line.len() && is_ws(line[i]) {
        ws_end(line, i + 1)
    } else {
        i
    }
}

/// Index of the first byte at or after `i` that is not a domain byte.
pub open spec fn domain_end(line: Seq<u8>, i: int) -> int
    recommends
        0 <= i <= line.len(),
    decreases line.len() - i when 0 <= i <= line.len()
{
    if i < line.len() && is_domain_byte(line[i]) {
        domain_end(line, i + 1)
    } else {
        i
    }
}

/// Index of the first byte at or after `i` that is not an address byte.
pub open spec fn addr_end(line: Seq<u8>, i: int) -> int
    recommends
        0 <= i <= line.len(),
    decreases line.len() - i when 0 <= i <= line.len()
{
    if i < line.len() && is_addr_byte(line[i]) {
        addr_end(line, i + 1)
    } else {
        i
    }
}

/// Everything from `i` to the end of the line is whitespace.
pub open spec fn rest_is_ws(line: Seq<u8>, i: int) -> bool {
    ws_end(line, i) == line.len()
}

pub proof fn lemma_ws_end_reaches(line: Seq<u8>, i: int, j: int)
    requires
        0 <= i <= j <= line.len(),
        forall|k: int| i <= k < j ==> is_ws(line[k]),
        j == line.len() || !is_ws(line[j]),
    ensures
        ws_end(line, i) == j,
    decreases j - i,
{
    if i < j {
        lemma_ws_end_reaches(line, i + 1, j);
    }
}

pub proof fn lemma_domain_end_props(line: Seq<u8>, i: int)
    requires
        0 <= i <= line.len(),
    ensures
        i <= domain_end(line, i) <= line.len(),
        forall|j: int| i <= j < domain_end(line, i) ==> is_domain_byte(line[j]),
        domain_end(line, i) < line.len() ==> !is_domain_byte(line[domain_end(line, i)]),
    decreases line.len() - i,
{
    if i < line.len() && is_domain_byte(line[i]) {
        lemma_domain_end_props(line, i + 1);
    }
}

pub proof fn lemma_domain_end_reaches(line: Seq<u8>, i: int, j: int)
    requires
        0 <= i <= j <= line.len(),
        forall|k: int| i <= k < j ==> is_domain_byte(line[k]),
        j == line.len() || !is_domain_byte(line[j]),
    ensures
        domain_end(line, i) == j,
    decreases j - i,
{
    if i < j {
        lemma_domain_end_reaches(line, i + 1, j);
    }
}

pub proof fn lemma_addr_end_props(line: Seq<u8>, i: int)
    requires
        0 <= i <= line.len(),
    ensures
        i <= addr_end(line, i) <= line.len(),
        forall|j: int| i <= j < addr_end(line, i) ==> is_addr_byte(line[j]),
        addr_end(line, i) < line.len() ==> !is_addr_byte(line[addr_end(line, i)]),
    decreases line.len() - i,
{
    if i < line.len() && is_addr_byte(line[i]) {
        lemma_addr_end_props(line, i + 1);
    }
}

pub proof fn lemma_addr_end_reaches(line: Seq<u8>, i: int, j: int)
    requires
        0 <= i <= j <= line.len(),
        forall|k: int| i <= k < j ==> is_addr_byte(line[k]),
        j == line.len() || !is_addr_byte(line[j]),
    ensures
        addr_end(line, i) == j,
    decreases j - i,
{
    if i < j {
        lemma_addr_end_reaches(line, i + 1, j);
    }
}

// ---------------------------------------------------------------------------
// Keywords
// ---------------------------------------------------------------------------

/// The line opens with `HELO` in any case.
pub open spec fn has_kw_helo(line: Seq<u8>) -> bool {
    line.len() >= 4 && upper(line[0]) == 72 && upper(line[1]) == 69 && upper(line[2]) == 76
        && upper(line[3]) == 79
}

/// The line opens with `EHLO` in any case.
pub open spec fn has_kw_ehlo(line: Seq<u8>) -> bool {
    line.len() >= 4 && upper(line[0]) == 69 && upper(line[1]) == 72 && upper(line[2]) == 76
        && upper(line[3]) == 79
}

/// The line opens with `MAIL FROM:` in any case.
pub open spec fn has_kw_mail_from(line: Seq<u8>) -> bool {
    line.len() >= 10 && upper(line[0]) == 77 && upper(line[1]) == 65 && upper(line[2]) == 73
        && upper(line[3]) == 76 && upper(line[4]) == 32 && upper(line[5]) == 70
        && upper(line[6]) == 82 && upper(line[7]) == 79 && upper(line[8]) == 77
        && upper(line[9]) == 58
}

/// The line opens with `RCPT TO:` in any case.
pub open spec fn has_kw_rcpt_to(line: Seq<u8>) -> bool {
    line.len() >= 8 && upper(line[0]) == 82 && upper(line[1]) == 67 && upper(line[2]) == 80
        && upper(line[3]) == 84 && upper(line[4]) == 32 && upper(line[5]) == 84
        && upper(line[6]) == 79 && upper(line[7]) == 58
}

/// The line opens with `DATA` in any case.
pub open spec fn has_kw_data(line: Seq<u8>) -> bool {
    line.len() >= 4 && upper(line[0]) == 68 && upper(line[1]) == 65 && upper(line[2]) == 84
        && upper(line[3]) == 65
}

/// The line opens with `QUIT` in any case.
pub open spec fn has_kw_quit(line: Seq<u8>) -> bool {
    line.len() >= 4 && upper(line[0]) == 81 && upper(line[1]) == 85 && upper(line[2]) == 73
        && upper(line[3]) == 84
}

// ---------------------------------------------------------------------------
// The grammar
// ---------------------------------------------------------------------------

/// A command as the state machine sees it, at the level of character
/// sequences.
pub enum CommandView {
    Helo { domain: Seq<char> },
    Ehlo { domain: Seq<char> },
    MailFrom { address: Seq<char> },
    RcptTo { address: Seq<char> },
    Data,
    Quit,
}

/// After the keyword ends at `k`: optional whitespace, then a non-empty run
/// of domain bytes, then nothing but whitespace.
pub open spec fn parse_domain_arg(line: Seq<u8>, k: int) -> Option<Seq<char>>
    recommends
        0 <= k <= line.len(),
{
    let a = ws_end(line, k);
    let b = domain_end(line, a);
    if b > a && rest_is_ws(line, b) {
        Some(chars_of(line.subrange(a, b)))
    } else {
        None
    }
}

/// After the keyword ends at `k`: optional whitespace, then `<`, a non-empty
/// run of address bytes, `>`, then nothing but whitespace.
pub open spec fn parse_addr_arg(line: Seq<u8>, k: int) -> Option<Seq<char>>
    recommends
        0 <= k <= line.len(),
{
    let a = ws_end(line, k);
    if a < line.len() && line[a] == 60 {
        let b = addr_end(line, a + 1);
        if b > a + 1 && b < line.len() && line[b] == 62 && rest_is_ws(line, b + 1) {
            Some(chars_of(line.subrange(a + 1, b)))
        } else {
            None
        }
    } else {
        None
    }
}

/// What a whole line means: the command it parses to, or nothing.
/// The entire line must be consumed, trailing whitespace aside.
pub open spec fn spec_parse(line: Seq<u8>) -> Option<CommandView> {
    if has_kw_helo(line) {
        match parse_domain_arg(line, 4) {
            Some(d) => Some(CommandView::Helo { domain: d }),
            None => None,
        }
    } else if has_kw_ehlo(line) {
        match parse_domain_arg(line, 4) {
            Some(d) => Some(CommandView::Ehlo { domain: d }),
            None => None,
        }
    } else if has_kw_mail_from(line) {
        match parse_addr_arg(line, 10) {
            Some(a) => Some(CommandView::MailFrom { address: a }),
            None => None,
        }
    } else if has_kw_rcpt_to(line) {
        match parse_addr_arg(line, 8) {
            Some(a) => Some(CommandView::RcptTo { address: a }),
            None => None,
        }
    } else if has_kw_data(line) {
        if rest_is_ws(line, 4) {
            Some(CommandView::Data)
        } else {
            None
        }
    } else if has_kw_quit(line) {
        if rest_is_ws(line, 4) {
            Some(CommandView::Quit)
        } else {
            None
        }
    } else {
        None
    }
}

// ---------------------------------------------------------------------------
// Parse errors
// ---------------------------------------------------------------------------

/// The offending line rendered as text: what a lossy UTF-8 decode of the
/// bytes yields, valid sequences kept, invalid ones replaced. The rendering
/// is a function of the bytes alone; of ASCII bytes it is known exactly to be
/// one character per byte.
pub uninterp spec fn rendered(line: Seq<u8>) -> Seq<char>;

/// A short note on where matching failed.
pub open spec fn fail_reason(line: Seq<u8>) -> Seq<char> {
    if has_kw_helo(line) || has_kw_ehlo(line) {
        "expected a domain of letters, digits and dots, then end of line"@
    } else if has_kw_mail_from(line) || has_kw_rcpt_to(line) {
        "expected an address in angle brackets, then end of line"@
    } else if has_kw_data(line) || has_kw_quit(line) {
        "unexpected input after the command"@
    } else {
        "unrecognized command keyword"@
    }
}

/// The full text of a parse error, as the client sees it.
pub open spec fn parse_error_text(line: Seq<u8>) -> Seq<char> {
    "could not parse command from '"@ + rendered(line) + "': "@ + fail_reason(line)
}

/// A line the grammar rejected: the message carries the rendered input and
/// where matching failed, ready to be sent back verbatim.
#[derive(Debug)]
pub struct ParseError {
    pub message: String,
}

impl View for ParseError {
    type V = Seq<char>;

    open spec fn view(&self) -> Seq<char> {
        self.message@
    }
}

// ---------------------------------------------------------------------------
// Commands
// ---------------------------------------------------------------------------

/// A structured command, only ever built from a single fully consumed line.
#[derive(PartialEq, Eq, Debug)]
pub enum Command {
    Helo { domain: String },
    Ehlo { domain: String },
    MailFrom { address: String },
    RcptTo { address: String },
    Data,
    Quit,
}

impl View for Command {
    type V = CommandView;

    open spec fn view(&self) -> CommandView {
        match self {
            Command::Helo { domain } => CommandView::Helo { domain: domain@ },
            Command::Ehlo { domain } => CommandView::Ehlo { domain: domain@ },
            Command::MailFrom { address } => CommandView::MailFrom { address: address@ },
            Command::RcptTo { address } => CommandView::RcptTo { address: address@ },
            Command::Data => CommandView::Data,
            Command::Quit => CommandView::Quit,
        }
    }
}

// ---------------------------------------------------------------------------
// Executable parsing
// ---------------------------------------------------------------------------

/// Relies on `core::str::from_utf8`: bytes below 0x80 are ASCII, hence valid
/// UTF-8 that decodes to one `char` per byte, each with the byte's value.
#[verifier::external_body]
fn ascii_to_string(bytes: &[u8]) -> (r: String)
    requires
        forall|i: int| 0 <= i < bytes@.len() ==> bytes@[i] < 0x80,
    ensures
        r@ == chars_of(bytes@),
{
    core::str::from_utf8(bytes).unwrap().to_string()
}

fn upper_byte(b: u8) -> (r: u8)
    ensures
        r == upper(b),
{
    if 97 <= b && b <= 122 {
        b - 32
    } else {
        b
    }
}

fn skip_ws_from(line: &[u8], k: usize) -> (r: usize)
    requires
        k <= line@.len(),
    ensures
        r == ws_end(line@, k as int),
        k <= r <= line@.len(),
{
    let mut i: usize = k;
    while i < line.len() && (line[i] == 32 || line[i] == 9 || line[i] == 10 || line[i] == 13)
        invariant
            k <= i <= line@.len(),
            ws_end(line@, k as int) == ws_end(line@, i as int),
        decreases line@.len() - i,
    {
        i = i + 1;
    }
    i
}

fn scan_domain_from(line: &[u8], k: usize) -> (r: usize)
    requires
        k <= line@.len(),
    ensures
        r == domain_end(line@, k as int),
        k <= r <= line@.len(),
{
    let mut i: usize = k;
    while i < line.len() && ((48 <= line[i] && line[i] <= 57) || (65 <= line[i] && line[i] <= 90)
        || (97 <= line[i] && line[i] <= 122) || line[i] == 46)
        invariant
            k <= i <= line@.len(),
            domain_end(line@, k as int) == domain_end(line@, i as int),
        decreases line@.len() - i,
    {
        i = i + 1;
    }
    i
}

fn scan_addr_from(line: &[u8], k: usize) -> (r: usize)
    requires
        k <= line@.len(),
    ensures
        r == addr_end(line@, k as int),
        k <= r <= line@.len(),
{
    let mut i: usize = k;
    while i < line.len() && ((48 <= line[i] && line[i] <= 57) || (65 <= line[i] && line[i] <= 90)
        || (97 <= line[i] && line[i] <= 122) || line[i] == 46 || line[i] == 64)
        invariant
            k <= i <= line@.len(),
            addr_end(line@, k as int) == addr_end(line@, i as int),
        decreases line@.len() - i,
    {
        i = i + 1;
    }
    i
}

fn rest_ws_from(line: &[u8], k: usize) -> (r: bool)
    requires
        k <= line@.len(),
    ensures
        r == rest_is_ws(line@, k as int),
{
    let e = skip_ws_from(line, k);
    e == line.len()
}

fn starts_helo(line: &[u8]) -> (r: bool)
    ensures
        r == has_kw_helo(line@),
{
    line.len() >= 4 && upper_byte(line[0]) == 72 && upper_byte(line[1]) == 69 && upper_byte(
        line[2],
    ) == 76 && upper_byte(line[3]) == 79
}

fn starts_ehlo(line: &[u8]) -> (r: bool)
    ensures
        r == has_kw_ehlo(line@),
{
    line.len() >= 4 && upper_byte(line[0]) == 69 && upper_byte(line[1]) == 72 && upper_byte(
        line[2],
    ) == 76 && upper_byte(line[3]) == 79
}

fn starts_mail_from(line: &[u8]) -> (r: bool)
    ensures
        r == has_kw_mail_from(line@),
{
    line.len() >= 10 && upper_byte(line[0]) == 77 && upper_byte(line[1]) == 65 && upper_byte(
        line[2],
    ) == 73 && upper_byte(line[3]) == 76 && upper_byte(line[4]) == 32 && upper_byte(line[5]) == 70
        && upper_byte(line[6]) == 82 && upper_byte(line[7]) == 79 && upper_byte(line[8]) == 77
        && upper_byte(line[9]) == 58
}

fn starts_rcpt_to(line: &[u8]) -> (r: bool)
    ensures
        r == has_kw_rcpt_to(line@),
{
    line.len() >= 8 && upper_byte(line[0]) == 82 && upper_byte(line[1]) == 67 && upper_byte(
        line[2],
    ) == 80 && upper_byte(line[3]) == 84 && upper_byte(line[4]) == 32 && upper_byte(line[5]) == 84
        && upper_byte(line[6]) == 79 && upper_byte(line[7]) == 58
}

fn starts_data(line: &[u8]) -> (r: bool)
    ensures
        r == has_kw_data(line@),
{
    line.len() >= 4 && upper_byte(line[0]) == 68 && upper_byte(line[1]) == 65 && upper_byte(
        line[2],
    ) == 84 && upper_byte(line[3]) == 65
}

fn starts_quit(line: &[u8]) -> (r: bool)
    ensures
        r == has_kw_quit(line@),
{
    line.len() >= 4 && upper_byte(line[0]) == 81 && upper_byte(line[1]) == 85 && upper_byte(
        line[2],
    ) == 73 && upper_byte(line[3]) == 84
}

fn parse_domain_from(line: &[u8], k: usize) -> (r: Option<String>)
    requires
        k <= line@.len(),
    ensures
        match r {
            Some(s) => parse_domain_arg(line@, k as int) == Some(s@),
            None => parse_domain_arg(line@, k as int) is None,
        },
{
    let a = skip_ws_from(line, k);
    let b = scan_domain_from(line, a);
    if b > a && rest_ws_from(line, b) {
        proof {
            lemma_domain_end_props(line@, a as int);
        }
        let s = ascii_to_string(slice_subrange(line, a, b));
        Some(s)
    } else {
        None
    }
}

fn parse_addr_from(line: &[u8], k: usize) -> (r: Option<String>)
    requires
        k <= line@.len(),
    ensures
        match r {
            Some(s) => parse_addr_arg(line@, k as int) == Some(s@),
            None => parse_addr_arg(line@, k as int) is None,
        },
{
    let a = skip_ws_from(line, k);
    if a < line.len() && line[a] == 60 {
        let b = scan_addr_from(line, a + 1);
        if b > a + 1 && b < line.len() && line[b] == 62 && rest_ws_from(line, b + 1) {
            proof {
                lemma_addr_end_props(line@, a as int + 1);
            }
            let s = ascii_to_string(slice_subrange(line, a + 1, b));
            Some(s)
        } else {
            None
        }
    } else {
        None
    }
}

/// Relies on `String::from_utf8_lossy`: the result depends on the bytes
/// alone — valid UTF-8 is decoded as it stands and invalid sequences are
/// replaced — and ASCII bytes, valid UTF-8 themselves, decode to one `char`
/// per byte, each with the byte's value.
#[verifier::external_body]
fn render_line(line: &[u8]) -> (r: String)
    ensures
        r@ == rendered(line@),
        (forall|i: int| 0 <= i < line@.len() ==> line@[i] < 0x80) ==> r@ == chars_of(line@),
{
    String::from_utf8_lossy(line).into_owned()
}

fn parse_error_for(line: &[u8]) -> (r: ParseError)
    ensures
        r@ == parse_error_text(line@),
{
    let mut message = String::from_str("could not parse command from '");
    let shown = render_line(line);
    message.append(shown.as_str());
    message.append("': ");
    let reason: &str = if starts_helo(line) || starts_ehlo(line) {
        "expected a domain of letters, digits and dots, then end of line"
    } else if starts_mail_from(line) || starts_rcpt_to(line) {
        "expected an address in angle brackets, then end of line"
    } else if starts_data(line) || starts_quit(line) {
        "unexpected input after the command"
    } else {
        "unrecognized command keyword"
    };
    message.append(reason);
    ParseError { message }
}

/// Turn one full line into a command, or fail with a message that shows the
/// rendered input and where matching failed. The whole line must be consumed,
/// trailing whitespace aside; success and failure are pinned, case by case,
/// by `spec_parse`.
pub fn parse_command(line: &[u8]) -> (r: Result<Command, ParseError>)
    ensures
        match r {
            Ok(cmd) => spec_parse(line@) == Some(cmd@),
            Err(e) => spec_parse(line@) is None && e@ == parse_error_text(line@),
        },
{
    if starts_helo(line) {
        match parse_domain_from(line, 4) {
            Some(domain) => Ok(Command::Helo { domain }),
            None => Err(parse_error_for(line)),
        }
    } else if starts_ehlo(line) {
        match parse_domain_from(line, 4) {
            Some(domain) => Ok(Command::Ehlo { domain }),
            None => Err(parse_error_for(line)),
        }
    } else if starts_mail_from(line) {
        match parse_addr_from(line, 10) {
            Some(address) => Ok(Command::MailFrom { address }),
            None => Err(parse_error_for(line)),
        }
    } else if starts_rcpt_to(line) {
        match parse_addr_from(line, 8) {
            Some(address) => Ok(Command::RcptTo { address }),
            None => Err(parse_error_for(line)),
        }
    } else if starts_data(line) {
        if rest_ws_from(line, 4) {
            Ok(Command::Data)
        } else {
            Err(parse_error_for(line))
        }
    } else if starts_quit(line) {
        if rest_ws_from(line, 4) {
            Ok(Command::Quit)
        } else {
            Err(parse_error_for(line))
        }
    } else {
        Err(parse_error_for(line))
    }
}

// ---------------------------------------------------------------------------
// Laws
// ---------------------------------------------------------------------------

/// Law: a HELO keyword in any case, any run of whitespace (also none), a
/// valid domain, and trailing whitespace parse to `Helo` with exactly that
/// domain.
pub proof fn lemma_parse_helo(kw: Seq<u8>, mid: Seq<u8>, d: Seq<u8>, tail: Seq<u8>)
    requires
        kw.len() == 4,
        upper(kw[0]) == 72,
        upper(kw[1]) == 69,
        upper(kw[2]) == 76,
        upper(kw[3]) == 79,
        forall|i: int| 0 <= i < mid.len() ==> is_ws(mid[i]),
        d.len() >= 1,
        forall|i: int| 0 <= i < d.len() ==> is_domain_byte(d[i]),
        forall|i: int| 0 <= i < tail.len() ==> is_ws(tail[i]),
    ensures
        spec_parse(kw + mid + d + tail) == Some((CommandView::Helo { domain: chars_of(d) })),
{
    let line = kw + mid + d + tail;
    assert(has_kw_helo(line));
    let a = 4 + mid.len() as int;
    let b = a + d.len() as int;
    assert forall|k: int| 4 <= k < a implies is_ws(line[k]) by {
        assert(line[k] == mid[k - 4]);
    }
    assert(line[a] == d[0]);
    lemma_ws_end_reaches(line, 4, a);
    assert forall|k: int| a <= k < b implies is_domain_byte(line[k]) by {
        assert(line[k] == d[k - a]);
    }
    if b < line.len() {
        assert(line[b] == tail[0]);
    }
    lemma_domain_end_reaches(line, a, b);
    assert forall|k: int| b <= k < line.len() implies is_ws(line[k]) by {
        assert(line[k] == tail[k - b]);
    }
    lemma_ws_end_reaches(line, b, line.len() as int);
    assert(line.subrange(a, b) =~= d);
}

/// Law: a MAIL FROM keyword in any case, any run of whitespace (also none),
/// and a valid address in angle brackets parse to `MailFrom` with exactly
/// that address.
pub proof fn lemma_parse_mail_from(kw: Seq<u8>, mid: Seq<u8>, addr: Seq<u8>, tail: Seq<u8>)
    requires
        kw.len() == 10,
        upper(kw[0]) == 77,
        upper(kw[1]) == 65,
        upper(kw[2]) == 73,
        upper(kw[3]) == 76,
        upper(kw[4]) == 32,
        upper(kw[5]) == 70,
        upper(kw[6]) == 82,
        upper(kw[7]) == 79,
        upper(kw[8]) == 77,
        upper(kw[9]) == 58,
        forall|i: int| 0 <= i < mid.len() ==> is_ws(mid[i]),
        addr.len() >= 1,
        forall|i: int| 0 <= i < addr.len() ==> is_addr_byte(addr[i]),
        forall|i: int| 0 <= i < tail.len() ==> is_ws(tail[i]),
    ensures
        spec_parse(kw + mid + seq![60u8] + addr + seq![62u8] + tail) == Some(
            (CommandView::MailFrom { address: chars_of(addr) }),
        ),
{
    let line = kw + mid + seq![60u8] + addr + seq![62u8] + tail;
    assert(!has_kw_helo(line) && !has_kw_ehlo(line));
    assert(has_kw_mail_from(line));
    let a = 10 + mid.len() as int;
    let b = a + 1 + addr.len() as int;
    assert forall|k: int| 10 <= k < a implies is_ws(line[k]) by {
        assert(line[k] == mid[k - 10]);
    }
    assert(line[a] == 60);
    lemma_ws_end_reaches(line, 10, a);
    assert forall|k: int| a + 1 <= k < b implies is_addr_byte(line[k]) by {
        assert(line[k] == addr[k - (a + 1)]);
    }
    assert(line[b] == 62);
    lemma_addr_end_reaches(line, a + 1, b);
    assert forall|k: int| b + 1 <= k < line.len() implies is_ws(line[k]) by {
        assert(line[k] == tail[k - (b + 1)]);
    }
    lemma_ws_end_reaches(line, b + 1, line.len() as int);
    assert(line.subrange(a + 1, b) =~= addr);
}

} // verus!
