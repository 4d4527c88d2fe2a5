//! The HTTP side of the WebRTC session handshake: recognizing a session request, passing its
//! body on line by line, and framing the response header.

use vstd::prelude::*;

verus! {

/// The bytes of the request line prefix of a session request: `POST /new_rtc_session`.
pub open spec fn session_request_prefix() -> Seq<u8> {
    seq![80u8, 79, 83, 84, 32, 47, 110, 101, 119, 95, 114, 116, 99, 95, 115, 101, 115, 115, 105, 111, 110]
}

/// How far a session request's head has been read.
#[derive(Clone, Copy, Debug, PartialEq, Eq, Structural)]
pub enum SessionRequestState {
    /// No line has been read.
    AwaitingRequestLine,
    /// The request line was a session request; header lines are being skipped.
    ReadingHeaders,
    /// The blank line after the headers was read: the body follows.
    Accepted,
    /// The request line was not a session request.
    Rejected,
}

/// The state after one more line of the request head.
pub open spec fn next_session_state(state: SessionRequestState, line: Seq<u8>) -> SessionRequestState {
    match state {
        SessionRequestState::AwaitingRequestLine => if session_request_prefix().is_prefix_of(line) {
            SessionRequestState::ReadingHeaders
        } else {
            SessionRequestState::Rejected
        },
        SessionRequestState::ReadingHeaders => if line.len() == 0 {
            SessionRequestState::Accepted
        } else {
            SessionRequestState::ReadingHeaders
        },
        other => other,
    }
}

/// Whether `line` starts with `prefix`.
fn starts_with(line: &[u8], prefix: &Vec<u8>) -> (starts: bool)
    ensures
        starts == prefix@.is_prefix_of(line@),
{
    if prefix.len() > line.len() {
        return false;
    }
    let mut i: usize = 0;
    while i < prefix.len()
        invariant
            prefix.len() <= line@.len(),
            i <= prefix.len(),
            forall|j: int| 0 <= j < i ==> prefix@[j] == line@[j],
        decreases prefix.len() - i,
    {
        if prefix[i] != line[i] {
            return false;
        }
        i = i + 1;
    }
    proof {
        assert(prefix@ =~= line@.subrange(0, prefix@.len() as int));
    }
    true
}

impl SessionRequestState {
    /// Reads one more line of the request head: the first line must start with
    /// `POST /new_rtc_session`, after which header lines are skipped up to the blank line
    /// that ends the head. Once accepted or rejected, further lines change nothing.
    pub fn on_line(self, line: &[u8]) -> (next: SessionRequestState)
        ensures
            next == next_session_state(self, line@),
    {
        match self {
            SessionRequestState::AwaitingRequestLine => {
                let prefix: Vec<u8> = vec![80u8, 79, 83, 84, 32, 47, 110, 101, 119, 95, 114, 116, 99, 95, 115, 101, 115, 115, 105, 111, 110];
                proof {
                    assert(prefix@ =~= session_request_prefix());
                }
                if starts_with(line, &prefix) {
                    SessionRequestState::ReadingHeaders
                } else {
                    SessionRequestState::Rejected
                }
            },
            SessionRequestState::ReadingHeaders => {
                if line.len() == 0 {
                    SessionRequestState::Accepted
                } else {
                    SessionRequestState::ReadingHeaders
                }
            },
            other => other,
        }
    }
}

/// The state after reading a sequence of lines from the start.
pub open spec fn session_state_after(lines: Seq<Seq<u8>>) -> SessionRequestState
    decreases lines.len(),
{
    if lines.len() == 0 {
        SessionRequestState::AwaitingRequestLine
    } else {
        next_session_state(session_state_after(lines.drop_last()), lines.last())
    }
}

/// Law: a request head is accepted exactly when its first line starts with the session
/// request prefix and a later line is blank; the body starts after the first blank line.
pub proof fn lemma_session_accepted(lines: Seq<Seq<u8>>)
    ensures
        session_state_after(lines) == SessionRequestState::Accepted <==> (lines.len() > 0
            && session_request_prefix().is_prefix_of(lines[0])
            && exists|j: int| 1 <= j < lines.len() && #[trigger] lines[j].len() == 0),
    decreases lines.len(),
{
    reveal_with_fuel(session_state_after, 2);
    if lines.len() > 1 {
        let prefix = lines.drop_last();
        lemma_session_accepted(prefix);
        lemma_session_rejected_or_waiting(prefix);
        assert(prefix[0] == lines[0]);
        if exists|j: int| 1 <= j < prefix.len() && #[trigger] prefix[j].len() == 0 {
            let j = choose|j: int| 1 <= j < prefix.len() && #[trigger] prefix[j].len() == 0;
            assert(lines[j] == prefix[j]);
        }
        if exists|j: int| 1 <= j < lines.len() && #[trigger] lines[j].len() == 0 {
            let j = choose|j: int| 1 <= j < lines.len() && #[trigger] lines[j].len() == 0;
            if j < prefix.len() {
                assert(prefix[j] == lines[j]);
            } else {
                assert(lines.last() == lines[j]);
            }
        }
    } else if lines.len() == 1 {
        assert(lines.drop_last().len() == 0);
        assert(lines.last() == lines[0]);
    }
}

proof fn lemma_session_rejected_or_waiting(lines: Seq<Seq<u8>>)
    ensures
        lines.len() > 0 && session_request_prefix().is_prefix_of(lines[0])
            ==> session_state_after(lines) != SessionRequestState::Rejected
            && session_state_after(lines) != SessionRequestState::AwaitingRequestLine,
        lines.len() > 0 && !session_request_prefix().is_prefix_of(lines[0])
            ==> session_state_after(lines) == SessionRequestState::Rejected,
    decreases lines.len(),
{
    reveal_with_fuel(session_state_after, 2);
    if lines.len() > 1 {
        let prefix = lines.drop_last();
        lemma_session_rejected_or_waiting(prefix);
        assert(prefix[0] == lines[0]);
    } else if lines.len() == 1 {
        assert(lines.drop_last().len() == 0);
        assert(lines.last() == lines[0]);
    }
}

/// Whether the request body stream owes a line break after the line it passed on last.
pub struct RequestBuffer {
    add_newline: bool,
}

/// What the request body stream does when polled.
#[derive(Clone, Copy, Debug, PartialEq, Eq, Structural)]
pub enum RequestBufferStep {
    /// Yield a line break.
    Newline,
    /// Poll the underlying lines and pass on what comes.
    NextLine,
}

impl RequestBuffer {
    pub closed spec fn spec_owes_newline(&self) -> bool {
        self.add_newline
    }

    /// A stream that owes nothing yet.
    pub fn new() -> (buffer: RequestBuffer)
        ensures
            !buffer.spec_owes_newline(),
    {
        RequestBuffer { add_newline: false }
    }

    /// Decides a poll: a line break is owed after each line passed on (and yielding it pays
    /// the debt); otherwise the next underlying line is polled.
    pub fn poll_step(&mut self) -> (step: RequestBufferStep)
        ensures
            old(self).spec_owes_newline() ==> step == RequestBufferStep::Newline && !final(self).spec_owes_newline(),
            !old(self).spec_owes_newline() ==> step == RequestBufferStep::NextLine && !final(self).spec_owes_newline(),
    {
        if self.add_newline {
            self.add_newline = false;
            RequestBufferStep::Newline
        } else {
            RequestBufferStep::NextLine
        }
    }

    /// Records that an underlying line was passed on: a line break is owed next.
    pub fn line_passed(&mut self)
        ensures
            final(self).spec_owes_newline(),
    {
        self.add_newline = true;
    }
}

/// The ASCII decimal digits of a three-digit status code.
pub open spec fn code_digits(code: u16) -> Seq<u8> {
    seq![(48 + code / 100) as u8, (48 + (code / 10) % 10) as u8, (48 + code % 10) as u8]
}

/// The bytes of one header line: the name, `": "`, the value and CRLF.
pub open spec fn header_line(header: (Seq<u8>, Seq<u8>)) -> Seq<u8> {
    header.0 + seq![58u8, 32u8] + header.1 + seq![13u8, 10u8]
}

/// The header lines of a list of headers, in order.
pub open spec fn header_lines(headers: Seq<(Seq<u8>, Seq<u8>)>) -> Seq<u8>
    decreases headers.len(),
{
    if headers.len() == 0 {
        seq![]
    } else {
        header_lines(headers.drop_last()) + header_line(headers.last())
    }
}

/// Law: no header lines for no headers.
pub proof fn lemma_header_lines_empty()
    ensures
        header_lines(Seq::<(Seq<u8>, Seq<u8>)>::empty()) == Seq::<u8>::empty(),
{
}

/// Law: one more header adds exactly its line after the lines of the others: its name, a
/// colon and a space, its value and CRLF. So every header is written, in order, and nothing
/// else is.
pub proof fn lemma_header_lines_push(headers: Seq<(Seq<u8>, Seq<u8>)>, header: (Seq<u8>, Seq<u8>))
    ensures
        header_lines(headers.push(header))
            == header_lines(headers) + header.0 + seq![58u8, 32u8] + header.1 + seq![13u8, 10u8],
{
    assert(headers.push(header).drop_last() =~= headers);
    assert(header_lines(headers.push(header)) =~= header_lines(headers) + header.0 + seq![58u8, 32u8] + header.1 + seq![13u8, 10u8]);
}

/// Law: the header lines take, per header, its name, its value and four bytes more.
pub proof fn lemma_header_lines_len(headers: Seq<(Seq<u8>, Seq<u8>)>)
    ensures
        header_lines(headers).len() == headers_size(headers),
    decreases headers.len(),
{
    if headers.len() > 0 {
        lemma_header_lines_len(headers.drop_last());
        lemma_header_lines_push(headers.drop_last(), headers.last());
        assert(headers.drop_last().push(headers.last()) =~= headers);
    }
}

/// The sum over the headers of their name's length, their value's length and four.
pub open spec fn headers_size(headers: Seq<(Seq<u8>, Seq<u8>)>) -> int
    decreases headers.len(),
{
    if headers.len() == 0 {
        0
    } else {
        headers_size(headers.drop_last()) + headers.last().0.len() + headers.last().1.len() + 4
    }
}

/// The bytes of an HTTP/1.1 response head: the status line `HTTP/1.1 <code> <reason>`, one
/// line per header, and the blank line that ends the head.
pub open spec fn response_header_bytes(code_text: Seq<u8>, reason: Seq<u8>, headers: Seq<(Seq<u8>, Seq<u8>)>) -> Seq<u8> {
    seq![72u8, 84, 84, 80, 47, 49, 46, 49, 32] + code_text + seq![32u8] + reason + seq![13u8, 10u8] + header_lines(headers) + seq![13u8, 10u8]
}

fn extend(out: &mut Vec<u8>, bytes: &[u8])
    ensures
        final(out)@ == old(out)@ + bytes@,
{
    let mut i: usize = 0;
    while i < bytes.len()
        invariant
            i <= bytes.len(),
            out@ == old(out)@ + bytes@.subrange(0, i as int),
        decreases bytes.len() - i,
    {
        out.push(bytes[i]);
        i = i + 1;
        proof {
            assert(bytes@.subrange(0, i as int) =~= bytes@.subrange(0, i - 1).push(bytes@[i - 1]));
        }
    }
    proof {
        assert(bytes@.subrange(0, bytes.len() as int) =~= bytes@);
    }
}

/// Writes a response head after what `out` holds and gives back how many bytes it wrote.
pub fn write_response_header(code_text: &[u8], reason: &[u8], headers: &Vec<(Vec<u8>, Vec<u8>)>, out: &mut Vec<u8>) -> (written: usize)
    ensures
        final(out)@ == old(out)@ + response_header_bytes(
            code_text@,
            reason@,
            headers@.map_values(|h: (Vec<u8>, Vec<u8>)| (h.0@, h.1@)),
        ),
        written == final(out)@.len() - old(out)@.len(),
        written == 9 + code_text@.len() + 1 + reason@.len() + 2
            + headers_size(headers@.map_values(|h: (Vec<u8>, Vec<u8>)| (h.0@, h.1@))) + 2,
{
    let ghost hs = headers@.map_values(|h: (Vec<u8>, Vec<u8>)| (h.0@, h.1@));
    let start = out.len();
    let status_prefix: Vec<u8> = vec![72u8, 84, 84, 80, 47, 49, 46, 49, 32];
    let space: Vec<u8> = vec![32u8];
    let crlf: Vec<u8> = vec![13u8, 10u8];
    let colon: Vec<u8> = vec![58u8, 32u8];
    extend(out, status_prefix.as_slice());
    extend(out, code_text);
    extend(out, space.as_slice());
    extend(out, reason);
    extend(out, crlf.as_slice());
    let ghost head = out@;
    let mut i: usize = 0;
    while i < headers.len()
        invariant
            i <= headers.len(),
            hs == headers@.map_values(|h: (Vec<u8>, Vec<u8>)| (h.0@, h.1@)),
            crlf@ == seq![13u8, 10u8],
            colon@ == seq![58u8, 32u8],
            out@ == head + header_lines(hs.subrange(0, i as int)),
        decreases headers.len() - i,
    {
        extend(out, headers[i].0.as_slice());
        extend(out, colon.as_slice());
        extend(out, headers[i].1.as_slice());
        extend(out, crlf.as_slice());
        proof {
            let sub = hs.subrange(0, i as int + 1);
            assert(sub.drop_last() =~= hs.subrange(0, i as int));
            assert(sub.last() == (headers@[i as int].0@, headers@[i as int].1@));
        }
        i = i + 1;
    }
    extend(out, crlf.as_slice());
    proof {
        assert(hs.subrange(0, headers.len() as int) =~= hs);
        assert(out@ =~= old(out)@ + response_header_bytes(code_text@, reason@, hs));
        lemma_header_lines_len(hs);
    }
    out.len() - start
}

/// An HTTP response of the `http` crate, carried through opaquely.
#[verifier::external_type_specification]
#[verifier::external_body]
#[verifier::reject_recursive_types(T)]
pub struct ExResponse<T>(http::Response<T>);

/// The status code of a response, from http's `Response::status` and
/// `StatusCode::as_u16`. A `StatusCode` only holds codes from 100 to 999 (`from_u16`
/// refuses the others); which code a given response holds is not stated, as the response
/// is opaque here.
#[verifier::external_body]
fn response_status<T>(response: &http::Response<T>) -> (code: u16)
    ensures
        100 <= code <= 999,
{
    response.status().as_u16()
}

/// The text of a status code, from http's `StatusCode::as_str`, which gives the code's
/// three ASCII decimal digits.
#[verifier::external_body]
fn status_code_text(code: u16) -> (text: Vec<u8>)
    requires
        100 <= code <= 999,
    ensures
        text@ == code_digits(code),
{
    http::StatusCode::from_u16(code).unwrap().as_str().as_bytes().to_vec()
}

/// The canonical reason phrase of a status code, as http's `StatusCode::canonical_reason`
/// gives it from its table of registered codes (`None` for an unregistered code).
pub uninterp spec fn canonical_reason_of(code: u16) -> Option<Seq<u8>>;

/// The canonical reason phrase of a status code, from http's
/// `StatusCode::canonical_reason`.
#[verifier::external_body]
fn canonical_reason(code: u16) -> (reason: Option<Vec<u8>>)
    requires
        100 <= code <= 999,
    ensures
        match reason {
            Some(r) => canonical_reason_of(code) == Some(r@),
            None => canonical_reason_of(code) is None,
        },
{
    http::StatusCode::from_u16(code).unwrap().canonical_reason().map(|r| r.as_bytes().to_vec())
}

/// The headers of a response as name and value bytes, from http's `Response::headers`
/// iterated in the header map's own order, names as `HeaderName::as_str` and values as
/// `HeaderValue::as_bytes`. Nothing is stated of them: the response is opaque here.
#[verifier::external_body]
fn response_headers<T>(response: &http::Response<T>) -> (headers: Vec<(Vec<u8>, Vec<u8>)>)
{
    response.headers().iter().map(|(n, v)| (n.as_str().as_bytes().to_vec(), v.as_bytes().to_vec())).collect()
}

/// The reason phrase of a status line: the canonical one, or `Unknown`.
pub open spec fn status_reason(code: u16) -> Seq<u8> {
    match canonical_reason_of(code) {
        Some(r) => r,
        None => unknown_reason(),
    }
}

/// The head of an HTTP response as plain values: its status code, and its headers' names
/// and values in order.
pub struct ResponseHead {
    pub status: u16,
    pub headers: Vec<(Vec<u8>, Vec<u8>)>,
}

impl ResponseHead {
    /// The head of an `http` response: its status code and its headers, in the order of its
    /// header map.
    pub fn from_response<T>(response: &http::Response<T>) -> (head: ResponseHead)
        ensures
            100 <= head.status <= 999,
    {
        ResponseHead { status: response_status(response), headers: response_headers(response) }
    }
}

/// Frames the head of a response: its status line with the code's canonical reason (or
/// `Unknown`), its headers and the blank line that ends the head.
pub fn response_header_to_vec(head: &ResponseHead) -> (bytes: Vec<u8>)
    requires
        100 <= head.status <= 999,
    ensures
        bytes@ == response_header_bytes(
            code_digits(head.status),
            status_reason(head.status),
            head.headers@.map_values(|h: (Vec<u8>, Vec<u8>)| (h.0@, h.1@)),
        ),
{
    let code = head.status;
    let text = status_code_text(code);
    let reason = reason_or_unknown(canonical_reason(code));
    let mut out: Vec<u8> = Vec::new();
    let _written = write_response_header(text.as_slice(), reason.as_slice(), &head.headers, &mut out);
    proof {
        assert(out@ =~= response_header_bytes(
            code_digits(code),
            status_reason(code),
            head.headers@.map_values(|h: (Vec<u8>, Vec<u8>)| (h.0@, h.1@)),
        ));
    }
    out
}

/// The reason phrase written when a status code has no canonical one: `Unknown`.
pub open spec fn unknown_reason() -> Seq<u8> {
    seq![85u8, 110, 107, 110, 111, 119, 110]
}

/// The reason phrase of a status line: the code's canonical reason, or `Unknown`.
pub fn reason_or_unknown(canonical: Option<Vec<u8>>) -> (reason: Vec<u8>)
    ensures
        match canonical {
            Some(r) => reason@ == r@,
            None => reason@ == unknown_reason(),
        },
{
    match canonical {
        Some(r) => r,
        None => {
            let unknown: Vec<u8> = vec![85u8, 110, 107, 110, 111, 119, 110];
            proof {
                assert(unknown@ =~= unknown_reason());
            }
            unknown
        },
    }
}

} // verus!
