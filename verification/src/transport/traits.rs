//! The transport interface and the rule for when a response is complete.
use vstd::prelude::*;

use crate::at::parser::{detect_status_spec, parse_response, utf8_lossy};
use crate::at::response::{status_is_success, status_is_terminal, AtStatus, StatusView};
use crate::clock::{clock_now, millis_since};
use crate::error::AtctlError;
use crate::text::text_lines;

verus! {

broadcast use vstd::string::group_string_axioms;

/// When to stop reading a response.
#[derive(Debug, Clone, PartialEq, Eq)]
pub enum ResponseMatcher {
    /// A final result line arrived.
    Terminal,
    /// The text occurred.
    Contains(String),
    /// The text occurred, or a final result line that is not a success.
    ContainsOrErrorTerminal(String),
    /// A final result line arrived, or the text occurred.
    TerminalOrContains(String),
}

/// Whether `needle` occurs in `raw`; never for an empty needle.
pub open spec fn bytes_contain(raw: Seq<u8>, needle: Seq<u8>) -> bool {
    needle.len() > 0 && exists|i: int|
        0 <= i && i + needle.len() <= raw.len() && #[trigger] raw.subrange(i, i + needle.len())
            == needle
}

/// The status of the raw bytes received so far.
pub open spec fn raw_status(raw: Seq<u8>) -> StatusView {
    detect_status_spec(text_lines(utf8_lossy(raw)))
}

/// Whether the bytes received so far complete the response.
pub open spec fn matches_response(m: ResponseMatcher, raw: Seq<u8>) -> bool {
    match m {
        ResponseMatcher::Terminal => status_is_terminal(raw_status(raw)),
        ResponseMatcher::Contains(n) => bytes_contain(raw, vstd::utf8::encode_utf8(n@)),
        ResponseMatcher::ContainsOrErrorTerminal(n) => bytes_contain(raw, vstd::utf8::encode_utf8(n@)) || (
        status_is_terminal(raw_status(raw)) && !status_is_success(raw_status(raw))),
        ResponseMatcher::TerminalOrContains(n) => status_is_terminal(raw_status(raw))
            || bytes_contain(raw, vstd::utf8::encode_utf8(n@)),
    }
}

/// Whether `needle` occurs in `raw`.
pub fn raw_contains(raw: &[u8], needle: &[u8]) -> (b: bool)
    ensures
        b == bytes_contain(raw@, needle@),
{
    if needle.len() == 0 || needle.len() > raw.len() {
        return false;
    }
    let last = raw.len() - needle.len();
    let mut i: usize = 0;
    loop
        invariant
            0 < needle.len() <= raw.len(),
            last == raw.len() - needle.len(),
            i <= last,
            forall|j: int| 0 <= j < i ==> #[trigger] raw@.subrange(j, j + needle.len()) != needle@,
        decreases last - i,
    {
        let mut k: usize = 0;
        let mut same = true;
        while k < needle.len()
            invariant
                i <= last,
                last == raw.len() - needle.len(),
                k <= needle.len(),
                same == forall|q: int| 0 <= q < k ==> raw@[i + q] == needle@[q],
            decreases needle.len() - k,
        {
            if raw[i + k] != needle[k] {
                same = false;
            }
            k += 1;
        }
        if same {
            assert(raw@.subrange(i as int, i + needle.len()) =~= needle@);
            return true;
        }
        proof {
            let w = choose|q: int| 0 <= q < needle.len() && raw@[i + q] != needle@[q];
            assert(raw@.subrange(i as int, i + needle.len())[w] != needle@[w]);
        }
        if i == last {
            proof {
                assert forall|j: int| 0 <= j && j + needle.len() <= raw.len() implies #[trigger] raw@.subrange(j, j + needle.len()) != needle@ by {
                    assert(j <= last);
                }
            }
            return false;
        }
        i += 1;
    }
}

impl ResponseMatcher {
    /// Whether the bytes received so far complete the response.
    pub fn is_match(&self, raw: &[u8]) -> (b: bool)
        ensures
            b == matches_response(*self, raw@),
    {
        match self {
            ResponseMatcher::Terminal => parse_response(raw).status.is_terminal(),
            ResponseMatcher::Contains(needle) => raw_contains(raw, needle.as_str().as_bytes()),
            ResponseMatcher::ContainsOrErrorTerminal(needle) => {
                if raw_contains(raw, needle.as_str().as_bytes()) {
                    true
                } else {
                    let status = parse_response(raw).status;
                    status.is_terminal() && !status.is_success()
                }
            },
            ResponseMatcher::TerminalOrContains(needle) => {
                parse_response(raw).status.is_terminal() || raw_contains(
                    raw,
                    needle.as_str().as_bytes(),
                )
            },
        }
    }
}

/// A link to a modem that sends AT commands and reads responses.
pub trait AtTransport {
    fn open(&mut self) -> Result<(), AtctlError>;

    fn close(&mut self) -> Result<(), AtctlError>;

    fn write_command(&mut self, command: &str) -> Result<(), AtctlError>;

    /// Reads whatever arrives within `timeout_ms`; an empty read means
    /// nothing arrived.
    fn read_response(&mut self, timeout_ms: u64) -> Result<Vec<u8>, AtctlError>;

    /// Waits `millis` before the engine polls again.
    fn pause(&mut self, millis: u64);

    /// Reads until `matcher` is satisfied; a read that returns nothing, or
    /// running out of time, is a timeout.
    fn read_until(&mut self, timeout_ms: u64, matcher: ResponseMatcher) -> (r: Result<
        Vec<u8>,
        AtctlError,
    >)
        default_ensures
            r matches Ok(raw) ==> matches_response(matcher, raw@),
    {
        let started = clock_now();
        let mut raw: Vec<u8> = Vec::new();
        let mut reads: u64 = 0;
        loop
            decreases u64::MAX - reads,
        {
            let elapsed = millis_since(&started);
            if elapsed >= timeout_ms {
                return Err(AtctlError::Timeout);
            }
            let remaining = timeout_ms - elapsed;
            let chunk = match self.read_response(remaining) {
                Ok(c) => c,
                Err(e) => return Err(e),
            };
            if chunk.len() == 0 {
                return Err(AtctlError::Timeout);
            }
            let mut k: usize = 0;
            while k < chunk.len()
                decreases chunk.len() - k,
            {
                raw.push(chunk[k]);
                k += 1;
            }
            if matcher.is_match(raw.as_slice()) {
                return Ok(raw);
            }
            if reads == u64::MAX {
                return Err(AtctlError::Timeout);
            }
            reads += 1;
        }
    }
}

/// One call made through an [`AtLink`]: opening, closing, writing a
/// command, a single read, or a read until a matcher (with what came back,
/// nothing when the call failed).
pub enum TransportEvent {
    Open,
    Close,
    Write(Seq<char>),
    Read(Option<Seq<u8>>),
    ReadUntil(ResponseMatcher, Option<Seq<u8>>),
}

pub open spec fn read_result(r: Result<Vec<u8>, AtctlError>) -> Option<Seq<u8>> {
    match r {
        Ok(v) => Some(v@),
        Err(_) => None,
    }
}

/// Whether `after` is `before` with more calls recorded after it.
pub open spec fn extends(before: Seq<TransportEvent>, after: Seq<TransportEvent>) -> bool {
    after.len() >= before.len() && after.take(before.len() as int) == before
}

/// Whether the first call recorded after `before` wrote `command`.
pub open spec fn first_write(
    before: Seq<TransportEvent>,
    after: Seq<TransportEvent>,
    command: Seq<char>,
) -> bool {
    after.len() > before.len() && after[before.len() as int] == TransportEvent::Write(command)
}

/// The calls recorded after the first `n`.
pub open spec fn since(evs: Seq<TransportEvent>, n: int) -> Seq<TransportEvent> {
    evs.skip(n)
}

/// The commands written in the recorded calls, in order.
pub open spec fn writes(evs: Seq<TransportEvent>) -> Seq<Seq<char>>
    decreases evs.len(),
{
    if evs.len() == 0 {
        Seq::empty()
    } else {
        writes(evs.drop_last()) + match evs.last() {
            TransportEvent::Write(c) => seq![c],
            _ => Seq::empty(),
        }
    }
}

/// A transport together with the record of every call made on it through
/// the library: what was opened, written, read and closed, in order.
pub struct AtLink<T: AtTransport> {
    transport: T,
    history: Ghost<Seq<TransportEvent>>,
    failures: Ghost<Seq<AtctlError>>,
}

/// The failures recorded after a call that gave `r`: its error added.
pub open spec fn failures_after<X>(before: Seq<AtctlError>, r: Result<X, AtctlError>) -> Seq<AtctlError> {
    match r {
        Ok(_) => before,
        Err(e) => before.push(e),
    }
}

impl<T: AtTransport> AtLink<T> {
    /// The calls made so far.
    pub closed spec fn history(&self) -> Seq<TransportEvent> {
        self.history@
    }

    /// The errors the transport's calls returned so far, in order.
    pub closed spec fn failures(&self) -> Seq<AtctlError> {
        self.failures@
    }

    /// A link over `transport` with no calls recorded.
    pub fn new(transport: T) -> (r: Self)
        ensures
            r.history() == Seq::<TransportEvent>::empty(),
            r.failures() == Seq::<AtctlError>::empty(),
    {
        AtLink { transport, history: Ghost(Seq::empty()), failures: Ghost(Seq::empty()) }
    }

    /// The transport itself.
    pub fn transport(&self) -> &T {
        &self.transport
    }

    /// Gives the transport back.
    pub fn into_transport(self) -> T {
        self.transport
    }

    pub fn open(&mut self) -> (r: Result<(), AtctlError>)
        ensures
            final(self).failures() == failures_after(old(self).failures(), r),
            final(self).history() == old(self).history().push(TransportEvent::Open),
    {
        let r = self.transport.open();
        proof {
            self.history@ = self.history@.push(TransportEvent::Open);
            self.failures@ = failures_after(self.failures@, r);
        }
        r
    }

    pub fn close(&mut self) -> (r: Result<(), AtctlError>)
        ensures
            final(self).failures() == failures_after(old(self).failures(), r),
            final(self).history() == old(self).history().push(TransportEvent::Close),
    {
        let r = self.transport.close();
        proof {
            self.history@ = self.history@.push(TransportEvent::Close);
            self.failures@ = failures_after(self.failures@, r);
        }
        r
    }

    pub fn write_command(&mut self, command: &str) -> (r: Result<(), AtctlError>)
        ensures
            final(self).failures() == failures_after(old(self).failures(), r),
            final(self).history() == old(self).history().push(TransportEvent::Write(command@)),
    {
        let r = self.transport.write_command(command);
        proof {
            self.history@ = self.history@.push(TransportEvent::Write(command@));
            self.failures@ = failures_after(self.failures@, r);
        }
        r
    }

    pub fn read_response(&mut self, timeout_ms: u64) -> (r: Result<Vec<u8>, AtctlError>)
        ensures
            final(self).failures() == failures_after(old(self).failures(), r),
            final(self).history() == old(self).history().push(TransportEvent::Read(read_result(r))),
    {
        let r = self.transport.read_response(timeout_ms);
        proof {
            self.history@ = self.history@.push(TransportEvent::Read(read_result(r)));
            self.failures@ = failures_after(self.failures@, r);
        }
        r
    }

    pub fn read_until(&mut self, timeout_ms: u64, matcher: ResponseMatcher) -> (r: Result<
        Vec<u8>,
        AtctlError,
    >)
        ensures
            final(self).failures() == failures_after(old(self).failures(), r),
            final(self).history() == old(self).history().push(
                TransportEvent::ReadUntil(matcher, read_result(r)),
            ),
    {
        let ghost m = matcher;
        let r = self.transport.read_until(timeout_ms, matcher);
        proof {
            self.history@ = self.history@.push(TransportEvent::ReadUntil(m, read_result(r)));
            self.failures@ = failures_after(self.failures@, r);
        }
        r
    }

    pub fn pause(&mut self, millis: u64)
        ensures
            final(self).history() == old(self).history(),
            final(self).failures() == old(self).failures(),
    {
        self.transport.pause(millis)
    }
}

} // verus!
