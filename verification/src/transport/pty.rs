//! The decisions of the PTY bridge: how typed bytes become command lines,
//! what each line asks for (a confirmation, a command, a payload), and
//! what is sent, recorded and shown for it.
use vstd::prelude::*;

use crate::at::command::{command_with_terminator, normalized, with_terminator};
use crate::at::mask::{mask_identifier, mask_sensitive_values, masked_identifier, masked_text};
use crate::at::parser::{parse_response, utf8_lossy};
use crate::at::response::AtStatus;
use crate::at::risk::{
    classify_direct_command, classify_spec, is_prompt_required, is_prompt_required_command,
    needs_confirmation, risk_name, RiskClassification, RiskLevel,
};
use crate::clock::{clock_now, millis_since};
use crate::error::AtctlError;
use crate::log::raw::{RawLogConfig, RawLogExchange, RawLogRecorder, RawLogTransportError};
use crate::sequences::display::{replace_all, replace_all_exec};
use crate::text::{chars_of, push_str, strings_view, string_of, trim, trim_str};
use crate::transport::traits::{extends, first_write, since, AtLink, AtTransport, ResponseMatcher, TransportEvent};
use crate::transport::usb::UsbAtTransportConfig;

verus! {

broadcast use vstd::string::group_string_axioms;

/// How the PTY bridge is set up.
#[derive(Debug, Clone, PartialEq, Eq)]
pub struct PtyBridgeConfig {
    pub symlink: String,
    pub replace_symlink: bool,
    pub raw_log: Option<RawLogConfig>,
    pub usb: UsbAtTransportConfig,
    pub command_timeout_ms: u64,
}

// ---------------------------------------------------------------------
// Client disconnects
// ---------------------------------------------------------------------
#[verifier::external_type_specification]
#[verifier::external_body]
pub struct ExIoError(std::io::Error);

/// The kinds of I/O failure that mean the other end went away.
#[derive(Debug, Copy, Clone, PartialEq, Eq, Structural)]
pub enum IoFailureKind {
    BrokenPipe,
    ConnectionReset,
    NotConnected,
    Other,
}

/// `io::Error::kind`, sorted into the kinds that mean a lost connection
/// and the rest. What an opaque error holds cannot be named here, so the
/// contract leaves the kind unsaid.
#[verifier::external_body]
fn io_failure_kind(error: &std::io::Error) -> IoFailureKind {
    match error.kind() {
        std::io::ErrorKind::BrokenPipe => IoFailureKind::BrokenPipe,
        std::io::ErrorKind::ConnectionReset => IoFailureKind::ConnectionReset,
        std::io::ErrorKind::NotConnected => IoFailureKind::NotConnected,
        _ => IoFailureKind::Other,
    }
}

/// `io::Error::raw_os_error`: the operating system's error code, if the
/// error came from one. What an opaque error holds cannot be named here,
/// so the contract leaves the code unsaid.
#[verifier::external_body]
fn io_raw_os_error(error: &std::io::Error) -> Option<i32> {
    error.raw_os_error()
}

/// Whether an I/O failure kind and OS code mean the PTY client went away:
/// a broken pipe, a reset or lost connection, or `EIO` (5).
pub open spec fn client_disconnect(kind: IoFailureKind, raw_os_error: Option<i32>) -> bool {
    kind is BrokenPipe || kind is ConnectionReset || kind is NotConnected || raw_os_error == Some(
        5i32,
    )
}

/// Whether an I/O failure of this kind and OS code means the client went
/// away.
pub fn is_client_disconnect(kind: IoFailureKind, raw_os_error: Option<i32>) -> (b: bool)
    ensures
        b == client_disconnect(kind, raw_os_error),
{
    match kind {
        IoFailureKind::BrokenPipe | IoFailureKind::ConnectionReset | IoFailureKind::NotConnected => true,
        IoFailureKind::Other => match raw_os_error {
            Some(c) => c == 5,
            None => false,
        },
    }
}

/// Whether a PTY read or write failed because the client went away: the
/// error's kind and OS code, read from the error, decide as
/// [`is_client_disconnect`] does.
pub fn is_pty_client_disconnect(error: &std::io::Error) -> bool {
    is_client_disconnect(io_failure_kind(error), io_raw_os_error(error))
}

/// `io::Error`'s `Display`: its message as text. What an opaque error
/// holds cannot be named here, so the contract leaves the text unsaid.
#[verifier::external_body]
fn io_error_message(error: &std::io::Error) -> String {
    format!("{error}")
}

/// A failed PTY write or flush as the bridge reads it: the kind, the
/// operating system's code and the message of the error.
#[derive(Debug, Clone, PartialEq, Eq)]
pub struct PtyIoFailure {
    pub kind: IoFailureKind,
    pub raw_os_error: Option<i32>,
    pub message: String,
}

/// The kind, code and message of an I/O error.
pub fn pty_io_failure(error: &std::io::Error) -> PtyIoFailure {
    PtyIoFailure {
        kind: io_failure_kind(error),
        raw_os_error: io_raw_os_error(error),
        message: io_error_message(error),
    }
}

/// What a failed PTY `stage` (`write` or `flush`) means: the bridge stops
/// when the client went away, and fails with a transport error otherwise.
pub fn pty_failure_action(stage: &str, failure: &PtyIoFailure) -> (r: Result<
    BridgeLoopAction,
    AtctlError,
>)
    ensures
        client_disconnect(failure.kind, failure.raw_os_error) ==> r == Ok::<
            BridgeLoopAction,
            AtctlError,
        >(BridgeLoopAction::Stop),
        !client_disconnect(failure.kind, failure.raw_os_error) ==> (r matches Err(
            AtctlError::Transport(m),
        ) && m@ == "failed to "@ + stage@ + " PTY: "@ + failure.message@),
{
    if is_client_disconnect(failure.kind, failure.raw_os_error) {
        return Ok(BridgeLoopAction::Stop);
    }
    let mut m = chars_of("failed to ");
    push_str(&mut m, stage);
    push_str(&mut m, " PTY: ");
    push_str(&mut m, failure.message.as_str());
    Err(AtctlError::Transport(string_of(&m)))
}

// ---------------------------------------------------------------------
// Line decoding
// ---------------------------------------------------------------------
/// A finished line: the decoded bytes, trimmed, kept unless empty.
pub open spec fn push_line(acc: Seq<Seq<char>>, piece: Seq<u8>) -> Seq<Seq<char>> {
    if trim(utf8_lossy(piece)).len() > 0 {
        acc.push(trim(utf8_lossy(piece)))
    } else {
        acc
    }
}

/// The lines finished and the bytes still pending after reading `bytes`
/// with `pending` already buffered: CR and LF end a line.
pub open spec fn decode_lines(pending: Seq<u8>, bytes: Seq<u8>) -> (Seq<Seq<char>>, Seq<u8>)
    decreases bytes.len(),
{
    if bytes.len() == 0 {
        (Seq::empty(), pending)
    } else {
        let prev = decode_lines(pending, bytes.drop_last());
        if bytes.last() == 13u8 || bytes.last() == 10u8 {
            (push_line(prev.0, prev.1), Seq::empty())
        } else {
            (prev.0, prev.1.push(bytes.last()))
        }
    }
}

/// Splits typed bytes into command lines.
#[derive(Debug)]
pub struct PtyLineDecoder {
    buffer: Vec<u8>,
}

impl PtyLineDecoder {
    /// The bytes of the unfinished line.
    pub closed spec fn pending(&self) -> Seq<u8> {
        self.buffer@
    }

    pub fn new() -> (r: Self)
        ensures
            r.pending() == Seq::<u8>::empty(),
    {
        PtyLineDecoder { buffer: Vec::new() }
    }

    /// Reads bytes and returns the lines they finish.
    pub fn push(&mut self, bytes: &[u8]) -> (r: Vec<String>)
        ensures
            strings_view(r@) == decode_lines(old(self).pending(), bytes@).0,
            final(self).pending() == decode_lines(old(self).pending(), bytes@).1,
    {
        let ghost start = self.buffer@;
        let mut lines: Vec<String> = Vec::new();
        let mut i: usize = 0;
        assert(bytes@.take(0) =~= Seq::<u8>::empty());
        while i < bytes.len()
            invariant
                i <= bytes.len(),
                strings_view(lines@) == decode_lines(start, bytes@.take(i as int)).0,
                self.buffer@ == decode_lines(start, bytes@.take(i as int)).1,
            decreases bytes.len() - i,
        {
            let b = bytes[i];
            assert(bytes@.take(i + 1).drop_last() =~= bytes@.take(i as int));
            if b == 13u8 || b == 10u8 {
                let ghost before = strings_view(lines@);
                match self.finish_line() {
                    Some(line) => {
                        lines.push(line);
                        assert(strings_view(lines@) =~= before.push(line@));
                    },
                    None => {},
                }
            } else {
                self.buffer.push(b);
            }
            i += 1;
        }
        assert(bytes@.take(i as int) =~= bytes@);
        lines
    }

    /// The unfinished line, as when the input ends.
    pub fn flush(&mut self) -> (r: Option<String>)
        ensures
            push_line(Seq::empty(), old(self).pending()) == match r {
                Some(l) => seq![l@],
                None => Seq::<Seq<char>>::empty(),
            },
            final(self).pending() == Seq::<u8>::empty(),
    {
        self.finish_line()
    }

    fn finish_line(&mut self) -> (r: Option<String>)
        ensures
            match r {
                Some(l) => trim(utf8_lossy(old(self).buffer@)).len() > 0 && l@ == trim(
                    utf8_lossy(old(self).buffer@),
                ),
                None => trim(utf8_lossy(old(self).buffer@)).len() == 0,
            },
            final(self).buffer@ == Seq::<u8>::empty(),
    {
        let text = crate::at::parser::decode_utf8_lossy(self.buffer.as_slice());
        let line = trim_str(text.as_str());
        self.buffer.clear();
        if line.len() > 0 {
            Some(string_of(&line))
        } else {
            None
        }
    }
}

impl Default for PtyLineDecoder {
    fn default() -> (r: Self)
        ensures
            r.pending() == Seq::<u8>::empty(),
    {
        PtyLineDecoder::new()
    }
}

// ---------------------------------------------------------------------
// Bridge decisions
// ---------------------------------------------------------------------
/// Whether the bridge goes on reading lines.
#[derive(Debug, Copy, Clone, PartialEq, Eq, Structural)]
pub enum BridgeLoopAction {
    Continue,
    Stop,
}

/// A risky command waiting for its risk label.
#[derive(Debug)]
pub struct PendingConfirmation {
    pub command: String,
    pub classification: RiskClassification,
}

/// A prompt command waiting for its payload line.
#[derive(Debug)]
pub struct PendingPayload {
    pub command: String,
    pub classification: RiskClassification,
}

/// What the bridge is waiting for.
#[derive(Debug)]
pub struct BridgeCommandState {
    pub pending_confirmation: Option<PendingConfirmation>,
    pub pending_payload: Option<PendingPayload>,
}

impl Default for BridgeCommandState {
    fn default() -> (r: Self)
        ensures
            r.pending_confirmation is None && r.pending_payload is None,
    {
        BridgeCommandState { pending_confirmation: None, pending_payload: None }
    }
}

/// What one typed line asks the bridge to do.
#[derive(Debug)]
pub enum BridgeStep {
    /// Ask for the risk label of a risky command.
    AskConfirmation { command: String, classification: RiskClassification },
    /// Tell the user a pending command was cancelled.
    Cancel { risk: RiskLevel },
    /// Send a command and show its response.
    Run { command: String, classification: RiskClassification },
    /// Send a prompt command and wait for its `>` prompt.
    RunPrompt { command: String, classification: RiskClassification },
    /// Send a payload line, with Ctrl-Z, for a prompt command.
    SendPayload { command: String, payload: String, classification: RiskClassification },
}

/// The classification of a typed line.
pub open spec fn classified(c: RiskClassification, line: Seq<char>) -> bool {
    c.normalized_command@ == normalized(line) && c.risk == classify_spec(normalized(line)).0
        && c.reason@ == classify_spec(normalized(line)).1
}

/// Sending `command` now: with its prompt when it needs a payload.
pub open spec fn run_step(step: BridgeStep, command: Seq<char>, c: RiskClassification) -> bool {
    if is_prompt_required(normalized(command)) {
        step matches BridgeStep::RunPrompt { command: cmd, classification } && cmd@ == command
            && classification == c
    } else {
        step matches BridgeStep::Run { command: cmd, classification } && cmd@ == command
            && classification == c
    }
}

/// The step a typed line makes: a pending payload takes the line as its
/// payload; a pending confirmation runs its command on the exact risk
/// label and is cancelled by anything else; otherwise the line is a
/// command, which waits for a confirmation when its risk needs one.
pub open spec fn bridge_step(
    payload: Option<PendingPayload>,
    confirmation: Option<PendingConfirmation>,
    line: Seq<char>,
    step: BridgeStep,
) -> bool {
    match payload {
        Some(p) => step matches BridgeStep::SendPayload { command, payload: pl, classification }
            && command == p.command && pl@ == line && classification == p.classification,
        None => match confirmation {
            Some(p) => if trim(line) == risk_name(p.classification.risk) {
                run_step(step, p.command@, p.classification)
            } else {
                step == BridgeStep::Cancel { risk: p.classification.risk }
            },
            None => match step {
                BridgeStep::AskConfirmation { command, classification } => command@ == line
                    && classified(classification, line) && needs_confirmation(classification.risk),
                BridgeStep::Run { command, classification } => command@ == line && classified(
                    classification,
                    line,
                ) && !needs_confirmation(classification.risk) && !is_prompt_required(normalized(line)),
                BridgeStep::RunPrompt { command, classification } => command@ == line && classified(
                    classification,
                    line,
                ) && !needs_confirmation(classification.risk) && is_prompt_required(normalized(line)),
                _ => false,
            },
        },
    }
}

fn run_or_prompt(command: String, classification: RiskClassification) -> (step: BridgeStep)
    ensures
        run_step(step, command@, classification),
{
    if is_prompt_required_command(command.as_str()) {
        BridgeStep::RunPrompt { command, classification }
    } else {
        BridgeStep::Run { command, classification }
    }
}

/// Decides what a typed line asks for, and takes what it answers off the
/// state.
pub fn next_bridge_step(state: &mut BridgeCommandState, line: String) -> (step: BridgeStep)
    ensures
        bridge_step(old(state).pending_payload, old(state).pending_confirmation, line@, step),
        final(state).pending_payload is None,
        final(state).pending_confirmation == if old(state).pending_payload is Some {
            old(state).pending_confirmation
        } else {
            None
        },
{
    let mut payload: Option<PendingPayload> = None;
    std::mem::swap(&mut payload, &mut state.pending_payload);
    if let Some(pending) = payload {
        return BridgeStep::SendPayload {
            command: pending.command,
            payload: line,
            classification: pending.classification,
        };
    }
    let mut confirmation: Option<PendingConfirmation> = None;
    std::mem::swap(&mut confirmation, &mut state.pending_confirmation);
    if let Some(pending) = confirmation {
        let typed = trim_str(line.as_str());
        if crate::text::eq_str(&typed, pending.classification.risk.as_str()) {
            return run_or_prompt(pending.command, pending.classification);
        }
        return BridgeStep::Cancel { risk: pending.classification.risk };
    }
    let classification = classify_direct_command(line.as_str());
    if classification.requires_confirmation() {
        return BridgeStep::AskConfirmation { command: line, classification };
    }
    run_or_prompt(line, classification)
}

/// A command is sent only when it needs no confirmation, or when the line
/// right after its confirmation prompt was exactly its risk label; a
/// payload is sent only for a prompt command that is waiting for one.
pub proof fn law_bridge_sends_only_confirmed_commands(
    payload: Option<PendingPayload>,
    confirmation: Option<PendingConfirmation>,
    line: Seq<char>,
    step: BridgeStep,
)
    requires
        bridge_step(payload, confirmation, line, step),
    ensures
        step matches BridgeStep::Run { command, classification } ==> payload is None && ((
        confirmation is None && command@ == line && !needs_confirmation(classification.risk)) || (
        confirmation matches Some(p) && command@ == p.command@ && trim(line) == risk_name(
            p.classification.risk,
        ))),
        step matches BridgeStep::RunPrompt { command, classification } ==> payload is None && ((
        confirmation is None && command@ == line && !needs_confirmation(classification.risk)) || (
        confirmation matches Some(p) && command@ == p.command@ && trim(line) == risk_name(
            p.classification.risk,
        ))),
        step is SendPayload ==> payload is Some,
        step is AskConfirmation ==> payload is None && confirmation is None,
{
}

// ---------------------------------------------------------------------
// Bridge output and execution
// ---------------------------------------------------------------------
/// The bridge's PTY output: each text is written and flushed, and `Stop`
/// comes back when the client has gone away.
pub trait PtyWriter {
    fn write_text(&mut self, text: &str) -> Result<BridgeLoopAction, AtctlError>;
}

/// A PTY writer together with the record of every text handed to it
/// through the library, in order.
pub struct PtyLink<W: PtyWriter> {
    writer: W,
    shown: Ghost<Seq<Seq<char>>>,
}

impl<W: PtyWriter> PtyLink<W> {
    /// The texts written so far.
    pub closed spec fn shown(&self) -> Seq<Seq<char>> {
        self.shown@
    }

    /// A link over `writer` with nothing written.
    pub fn new(writer: W) -> (r: Self)
        ensures
            r.shown() == Seq::<Seq<char>>::empty(),
    {
        PtyLink { writer, shown: Ghost(Seq::empty()) }
    }

    /// The writer itself.
    pub fn writer(&self) -> &W {
        &self.writer
    }

    /// Gives the writer back.
    pub fn into_writer(self) -> W {
        self.writer
    }

    pub fn write_text(&mut self, text: &str) -> (r: Result<BridgeLoopAction, AtctlError>)
        ensures
            final(self).shown() == old(self).shown().push(text@),
    {
        let r = self.writer.write_text(text);
        proof {
            self.shown@ = self.shown@.push(text@);
        }
        r
    }
}

/// The texts written after the first `n`.
pub open spec fn shown_since(shown: Seq<Seq<char>>, n: int) -> Seq<Seq<char>> {
    shown.skip(n)
}

/// A response as written: the text, then a line end unless it ends one.
pub open spec fn shown_response(shown: Seq<Seq<char>>, text: Seq<char>) -> bool {
    shown == seq![text] || shown == seq![text, "\r\n"@]
}

/// What the bridge tells the user when a pending command is cancelled.
pub open spec fn cancel_notice(risk: RiskLevel) -> Seq<char> {
    "atctl: command cancelled; required confirmation risk="@ + risk_name(risk) + "\r\n"@
}

/// What the bridge tells the user once a prompt command's `>` arrived.
pub open spec fn payload_notice() -> Seq<char> {
    "atctl: enter payload line; Ctrl-Z will be appended.\r\n"@
}

/// A command sent and read once, its response shown masked.
pub open spec fn command_shown(evs: Seq<TransportEvent>, shown: Seq<Seq<char>>, command: Seq<char>) -> bool {
    evs.len() == 2 && evs[0] == TransportEvent::Write(with_terminator(command)) && match evs[1] {
        TransportEvent::Read(Some(raw)) => shown_response(shown, masked_text(utf8_lossy(raw))),
        _ => false,
    }
}

/// A prompt command sent and read up to its `>`, the reply shown masked and
/// then the payload notice.
pub open spec fn prompt_command_shown(
    evs: Seq<TransportEvent>,
    shown: Seq<Seq<char>>,
    command: Seq<char>,
) -> bool {
    evs.len() == 2 && evs[0] == TransportEvent::Write(with_terminator(command)) && match evs[1] {
        TransportEvent::ReadUntil(_, Some(raw)) => shown.len() >= 1 && shown.last() == payload_notice()
            && shown_response(shown.drop_last(), masked_text(utf8_lossy(raw))),
        _ => false,
    }
}

/// A payload sent with Ctrl-Z and read once, its response shown masked with
/// the payload masked too.
pub open spec fn payload_shown(evs: Seq<TransportEvent>, shown: Seq<Seq<char>>, payload: Seq<char>) -> bool {
    evs.len() == 2 && evs[0] == TransportEvent::Write(payload.push('\u{1a}')) && match evs[1] {
        TransportEvent::Read(Some(raw)) => shown_response(
            shown,
            payload_response_text(utf8_lossy(raw), payload),
        ),
        _ => false,
    }
}

/// Writes a response and ends its line when it does not end one.
fn write_response_text<W: PtyWriter>(writer: &mut PtyLink<W>, text: &str) -> (r: Result<
    BridgeLoopAction,
    AtctlError,
>)
    ensures
        old(writer).shown().is_prefix_of(final(writer).shown()),
        shown_response(shown_since(final(writer).shown(), old(writer).shown().len() as int), text@),
{
    let ghost s0 = writer.shown();
    let first = writer.write_text(text);
    proof {
        assert(shown_since(writer.shown(), s0.len() as int) =~= seq![text@]);
        assert(s0.is_prefix_of(writer.shown())) by {
            assert(writer.shown().take(s0.len() as int) =~= s0);
        }
    }
    match first? {
        BridgeLoopAction::Stop => return Ok(BridgeLoopAction::Stop),
        BridgeLoopAction::Continue => {},
    }
    let v = chars_of(text);
    if v.len() > 0 && (v[v.len() - 1] == '\n' || v[v.len() - 1] == '\r') {
        Ok(BridgeLoopAction::Continue)
    } else {
        let r = writer.write_text("\r\n");
        proof {
            assert(shown_since(writer.shown(), s0.len() as int) =~= seq![text@, "\r\n"@]);
            assert(writer.shown().take(s0.len() as int) =~= s0);
        }
        r
    }
}

/// The confirmation prompt of a risky command.
pub open spec fn confirmation_prompt_lines(c: RiskClassification) -> Seq<Seq<char>> {
    prompt_lines_of(c.normalized_command@, c.risk, c.reason@)
}

/// The confirmation prompt for a command, its risk and the reason.
pub open spec fn prompt_lines_of(command: Seq<char>, risk: RiskLevel, reason: Seq<char>) -> Seq<Seq<char>> {
    seq![
        "\r\nCommand requires confirmation before sending.\r\n"@,
        "Command: "@ + command + "\r\n"@,
        "Risk: "@ + risk_name(risk) + "\r\n"@,
        "Reason: "@ + reason + "\r\n"@,
        "Type `"@ + risk_name(risk) + "` to continue, or send any other line to cancel.\r\n"@,
    ]
}

/// What sending `command` shows: the masked response, and for a prompt
/// command the reply up to `>` and the payload notice.
pub open spec fn sent_output(
    command: Seq<char>,
    evs: Seq<TransportEvent>,
    shown: Seq<Seq<char>>,
    ok: bool,
    go_on: bool,
) -> bool {
    if is_prompt_required(normalized(command)) {
        go_on ==> prompt_command_shown(evs, shown, command)
    } else {
        ok ==> command_shown(evs, shown, command)
    }
}

/// What a typed line shows on the PTY: the masked response of what was
/// sent; the risk prompt of a risky command, in full once it is pending;
/// or the cancel notice when a pending command did not get its label.
pub open spec fn bridge_output(
    payload: Option<PendingPayload>,
    confirmation: Option<PendingConfirmation>,
    line: Seq<char>,
    evs: Seq<TransportEvent>,
    shown: Seq<Seq<char>>,
    ok: bool,
    go_on: bool,
) -> bool {
    match payload {
        Some(_) => ok ==> payload_shown(evs, shown, line),
        None => match confirmation {
            Some(p) => if trim(line) == risk_name(p.classification.risk) {
                sent_output(p.command@, evs, shown, ok, go_on)
            } else {
                shown == seq![cancel_notice(p.classification.risk)]
            },
            None => {
                let k = classify_spec(normalized(line));
                if needs_confirmation(k.0) {
                    &&& shown.len() > 0
                    &&& shown.is_prefix_of(prompt_lines_of(normalized(line), k.0, k.1))
                    &&& go_on ==> shown == prompt_lines_of(normalized(line), k.0, k.1)
                } else {
                    sent_output(line, evs, shown, ok, go_on)
                }
            },
        },
    }
}

/// The lines of the confirmation prompt, in order.
pub fn confirmation_prompt(classification: &RiskClassification) -> (r: Vec<String>)
    ensures
        strings_view(r@) == confirmation_prompt_lines(*classification),
{
    let mut r: Vec<String> = Vec::new();
    r.push("\r\nCommand requires confirmation before sending.\r\n".to_owned());
    let mut a = chars_of("Command: ");
    push_str(&mut a, classification.normalized_command.as_str());
    push_str(&mut a, "\r\n");
    r.push(string_of(&a));
    let mut b = chars_of("Risk: ");
    push_str(&mut b, classification.risk.as_str());
    push_str(&mut b, "\r\n");
    r.push(string_of(&b));
    let mut c = chars_of("Reason: ");
    push_str(&mut c, classification.reason);
    push_str(&mut c, "\r\n");
    r.push(string_of(&c));
    let mut d = chars_of("Type `");
    push_str(&mut d, classification.risk.as_str());
    push_str(&mut d, "` to continue, or send any other line to cancel.\r\n");
    r.push(string_of(&d));
    assert(strings_view(r@) =~= confirmation_prompt_lines(*classification));
    r
}

fn write_confirmation_prompt<W: PtyWriter>(
    writer: &mut PtyLink<W>,
    classification: &RiskClassification,
) -> (r: Result<BridgeLoopAction, AtctlError>)
    ensures
        old(writer).shown().is_prefix_of(final(writer).shown()),
        shown_since(final(writer).shown(), old(writer).shown().len() as int).len() > 0,
        shown_since(final(writer).shown(), old(writer).shown().len() as int).is_prefix_of(
            confirmation_prompt_lines(*classification),
        ),
        r == Ok::<BridgeLoopAction, AtctlError>(BridgeLoopAction::Continue) ==> shown_since(
            final(writer).shown(),
            old(writer).shown().len() as int,
        ) == confirmation_prompt_lines(*classification),
{
    let ghost s0 = writer.shown();
    let ghost n0 = s0.len() as int;
    let lines = confirmation_prompt(classification);
    let ghost all = strings_view(lines@);
    let mut i: usize = 0;
    assert(shown_since(writer.shown(), n0) =~= all.take(0));
    assert(writer.shown().take(n0) =~= s0);
    while i < lines.len()
        invariant
            i <= lines.len(),
            all == strings_view(lines@),
            all == confirmation_prompt_lines(*classification),
            n0 == s0.len(),
            s0 == old(writer).shown(),
            writer.shown().take(n0) == s0,
            writer.shown().len() >= n0,
            shown_since(writer.shown(), n0) == all.take(i as int),
        decreases lines.len() - i,
    {
        let ghost before = writer.shown();
        let w = writer.write_text(lines[i].as_str());
        proof {
            assert(all[i as int] == lines@[i as int]@);
            assert(writer.shown() == before.push(lines@[i as int]@));
            assert(shown_since(writer.shown(), n0) =~= shown_since(before, n0).push(all[i as int]));
            assert(writer.shown().take(n0) =~= s0);
            assert(shown_since(writer.shown(), n0) =~= all.take(i + 1));
        }
        match w? {
            BridgeLoopAction::Stop => return Ok(BridgeLoopAction::Stop),
            BridgeLoopAction::Continue => {},
        }
        i += 1;
    }
    assert(all.take(i as int) =~= all);
    Ok(BridgeLoopAction::Continue)
}

/// The response to a payload as shown: masked, and with the payload itself
/// masked wherever it is echoed.
pub open spec fn payload_response_text(text: Seq<char>, payload: Seq<char>) -> Seq<char> {
    if payload.len() == 0 {
        masked_text(text)
    } else {
        replace_all(masked_text(text), payload, masked_identifier(payload))
    }
}

pub fn mask_bridge_payload_response(text: &str, payload: &str) -> (r: String)
    ensures
        r@ == payload_response_text(text@, payload@),
{
    let masked = mask_sensitive_values(text);
    let p = chars_of(payload);
    if p.len() == 0 {
        masked
    } else {
        let rep = chars_of(mask_identifier(payload).as_str());
        string_of(&replace_all_exec(&chars_of(masked.as_str()), &p, &rep))
    }
}

/// Records a transport failure, tells the client, and fails with it.
fn bridge_transport_failure<W: PtyWriter, L: RawLogRecorder>(
    raw_log: &mut L,
    writer: &mut PtyLink<W>,
    command: &str,
    risk: RiskLevel,
    duration_ms: u64,
    stage: &str,
    error: AtctlError,
    tx: &str,
) -> (r: Result<BridgeLoopAction, AtctlError>)
    ensures
        r is Err,
        old(writer).shown().is_prefix_of(final(writer).shown()),
{
    let ghost s0 = writer.shown();
    assert(s0.take(s0.len() as int) =~= s0);
    raw_log.append_transport_error(
        RawLogTransportError {
            command_name: None,
            command: command.to_owned(),
            risk,
            duration_ms,
            stage: stage.to_owned(),
            error: error.message(),
            tx_bytes: vstd::slice::slice_to_vec(tx.as_bytes()),
            rx_bytes: Vec::new(),
        },
    )?;
    let mut m = chars_of("atctl: bridge stopping after transport error: ");
    push_str(&mut m, error.message().as_str());
    push_str(&mut m, "\r\n");
    let w = writer.write_text(string_of(&m).as_str());
    assert(writer.shown().take(s0.len() as int) =~= s0);
    w?;
    Err(error)
}

fn execute_bridge_command<T: AtTransport, W: PtyWriter, L: RawLogRecorder>(
    transport: &mut AtLink<T>,
    writer: &mut PtyLink<W>,
    command: &str,
    timeout_ms: u64,
    risk: RiskLevel,
    raw_log: &mut L,
) -> (r: Result<BridgeLoopAction, AtctlError>)
    ensures
        extends(old(transport).history(), final(transport).history()),
        final(transport).history().len() > old(transport).history().len(),
        final(transport).history()[old(transport).history().len() as int] == TransportEvent::Write(
            with_terminator(command@),
        ),
        old(writer).shown().is_prefix_of(final(writer).shown()),
        r is Ok ==> command_shown(
            since(final(transport).history(), old(transport).history().len() as int),
            shown_since(final(writer).shown(), old(writer).shown().len() as int),
            command@,
        ),
{
    let ghost h0 = transport.history();
    let ghost s0 = writer.shown();
    let started = clock_now();
    let tx = command_with_terminator(command);
    let write_result = transport.write_command(tx.as_str());
    assert(transport.history().take(h0.len() as int) =~= h0);
    if let Err(error) = write_result {
        let r = bridge_transport_failure(
            raw_log,
            writer,
            command,
            risk,
            millis_since(&started),
            "write_command",
            error,
            tx.as_str(),
        );
        return r;
    }
    let read_r = transport.read_response(timeout_ms);
    assert(transport.history().take(h0.len() as int) =~= h0);
    let raw = match read_r {
        Ok(raw) => raw,
        Err(error) => {
            return bridge_transport_failure(
                raw_log,
                writer,
                command,
                risk,
                millis_since(&started),
                "read_response",
                error,
                tx.as_str(),
            );
        },
    };
    let response = parse_response(raw.as_slice());
    let duration_ms = millis_since(&started);
    raw_log.append_exchange(
        RawLogExchange {
            command_name: None,
            command: command.to_owned(),
            risk,
            status: response.status.duplicate(),
            duration_ms,
            tx_bytes: vstd::slice::slice_to_vec(tx.as_str().as_bytes()),
            rx_bytes: vstd::slice::slice_to_vec(response.raw.as_slice()),
        },
    )?;
    let shown = mask_sensitive_values(response.text.as_str());
    let ghost s1 = writer.shown();
    let r = write_response_text(writer, shown.as_str());
    proof {
        assert(since(transport.history(), h0.len() as int) =~= seq![
            TransportEvent::Write(with_terminator(command@)),
            TransportEvent::Read(Some(raw@)),
        ]);
        assert(s1 == s0);
    }
    r
}

fn execute_bridge_prompt_command<T: AtTransport, W: PtyWriter, L: RawLogRecorder>(
    transport: &mut AtLink<T>,
    writer: &mut PtyLink<W>,
    command: &str,
    timeout_ms: u64,
    risk: RiskLevel,
    raw_log: &mut L,
) -> (r: Result<BridgeLoopAction, AtctlError>)
    ensures
        extends(old(transport).history(), final(transport).history()),
        final(transport).history().len() > old(transport).history().len(),
        final(transport).history()[old(transport).history().len() as int] == TransportEvent::Write(
            with_terminator(command@),
        ),
        old(writer).shown().is_prefix_of(final(writer).shown()),
        r == Ok::<BridgeLoopAction, AtctlError>(BridgeLoopAction::Continue) ==> prompt_command_shown(
            since(final(transport).history(), old(transport).history().len() as int),
            shown_since(final(writer).shown(), old(writer).shown().len() as int),
            command@,
        ),
{
    let ghost h0 = transport.history();
    let ghost s0 = writer.shown();
    let started = clock_now();
    let tx = command_with_terminator(command);
    let write_result = transport.write_command(tx.as_str());
    assert(transport.history().take(h0.len() as int) =~= h0);
    if let Err(error) = write_result {
        return bridge_transport_failure(
            raw_log,
            writer,
            command,
            risk,
            millis_since(&started),
            "write_command",
            error,
            tx.as_str(),
        );
    }
    let read_r = transport.read_until(timeout_ms, ResponseMatcher::Contains(">".to_owned()));
    assert(transport.history().take(h0.len() as int) =~= h0);
    let raw = match read_r {
        Ok(raw) => raw,
        Err(error) => {
            return bridge_transport_failure(
                raw_log,
                writer,
                command,
                risk,
                millis_since(&started),
                "read_prompt",
                error,
                tx.as_str(),
            );
        },
    };
    let response = parse_response(raw.as_slice());
    let duration_ms = millis_since(&started);
    raw_log.append_exchange(
        RawLogExchange {
            command_name: None,
            command: command.to_owned(),
            risk,
            status: AtStatus::OK,
            duration_ms,
            tx_bytes: vstd::slice::slice_to_vec(tx.as_str().as_bytes()),
            rx_bytes: vstd::slice::slice_to_vec(response.raw.as_slice()),
        },
    )?;
    let shown = mask_sensitive_values(response.text.as_str());
    let w = write_response_text(writer, shown.as_str());
    let ghost s1 = writer.shown();
    proof {
        assert(s1.take(s0.len() as int) =~= s0);
    }
    match w? {
        BridgeLoopAction::Stop => return Ok(BridgeLoopAction::Stop),
        BridgeLoopAction::Continue => {},
    }
    let r = writer.write_text("atctl: enter payload line; Ctrl-Z will be appended.\r\n");
    proof {
        assert(writer.shown().take(s0.len() as int) =~= s0);
        assert(shown_since(writer.shown(), s0.len() as int).drop_last() =~= shown_since(s1, s0.len() as int));
        assert(since(transport.history(), h0.len() as int) =~= seq![
            TransportEvent::Write(with_terminator(command@)),
            transport.history().last(),
        ]);
    }
    r
}

fn execute_bridge_payload<T: AtTransport, W: PtyWriter, L: RawLogRecorder>(
    transport: &mut AtLink<T>,
    writer: &mut PtyLink<W>,
    command: &str,
    payload: &str,
    timeout_ms: u64,
    risk: RiskLevel,
    raw_log: &mut L,
) -> (r: Result<BridgeLoopAction, AtctlError>)
    ensures
        extends(old(transport).history(), final(transport).history()),
        final(transport).history().len() > old(transport).history().len(),
        final(transport).history()[old(transport).history().len() as int] == TransportEvent::Write(
            payload@.push('\u{1a}'),
        ),
        old(writer).shown().is_prefix_of(final(writer).shown()),
        r is Ok ==> payload_shown(
            since(final(transport).history(), old(transport).history().len() as int),
            shown_since(final(writer).shown(), old(writer).shown().len() as int),
            payload@,
        ),
{
    let ghost h0 = transport.history();
    let ghost s0 = writer.shown();
    let started = clock_now();
    let mut txv = chars_of(payload);
    txv.push('\u{1a}');
    let tx = string_of(&txv);
    let write_result = transport.write_command(tx.as_str());
    assert(transport.history().take(h0.len() as int) =~= h0);
    if let Err(error) = write_result {
        return bridge_transport_failure(
            raw_log,
            writer,
            command,
            risk,
            millis_since(&started),
            "write_payload",
            error,
            tx.as_str(),
        );
    }
    let read_r = transport.read_response(timeout_ms);
    assert(transport.history().take(h0.len() as int) =~= h0);
    let raw = match read_r {
        Ok(raw) => raw,
        Err(error) => {
            return bridge_transport_failure(
                raw_log,
                writer,
                command,
                risk,
                millis_since(&started),
                "read_payload_response",
                error,
                tx.as_str(),
            );
        },
    };
    let response = parse_response(raw.as_slice());
    let duration_ms = millis_since(&started);
    raw_log.append_exchange(
        RawLogExchange {
            command_name: None,
            command: command.to_owned(),
            risk,
            status: response.status.duplicate(),
            duration_ms,
            tx_bytes: vstd::slice::slice_to_vec(tx.as_str().as_bytes()),
            rx_bytes: vstd::slice::slice_to_vec(response.raw.as_slice()),
        },
    )?;
    let masked = mask_bridge_payload_response(response.text.as_str(), payload);
    let r = write_response_text(writer, masked.as_str());
    proof {
        assert(since(transport.history(), h0.len() as int) =~= seq![
            TransportEvent::Write(payload@.push('\u{1a}')),
            TransportEvent::Read(Some(raw@)),
        ]);
    }
    r
}

/// Handles one typed line: decides what it asks for, then asks for a
/// confirmation, runs a command, sends a payload or reports a cancel. A
/// risky command is remembered only once its prompt was shown, and a prompt
/// command waits for its payload only once its `>` prompt arrived and was
/// shown.
pub fn handle_bridge_line<T: AtTransport, W: PtyWriter, L: RawLogRecorder>(
    state: &mut BridgeCommandState,
    transport: &mut AtLink<T>,
    writer: &mut PtyLink<W>,
    line: String,
    command_timeout_ms: u64,
    raw_log: &mut L,
) -> (r: Result<BridgeLoopAction, AtctlError>)
    requires
        !(old(state).pending_payload is Some && old(state).pending_confirmation is Some),
    ensures
        !(final(state).pending_payload is Some && final(state).pending_confirmation is Some),
        final(state).pending_confirmation matches Some(p) ==> old(state).pending_payload is None
            && old(state).pending_confirmation is None && p.command@ == line@ && classified(
            p.classification,
            line@,
        ) && needs_confirmation(p.classification.risk) && r == Ok::<
            BridgeLoopAction,
            AtctlError,
        >(BridgeLoopAction::Continue),
        final(state).pending_payload matches Some(p) ==> old(state).pending_payload is None
            && is_prompt_required(normalized(p.command@)) && r == Ok::<
            BridgeLoopAction,
            AtctlError,
        >(BridgeLoopAction::Continue) && match old(state).pending_confirmation {
            Some(c) => p.command@ == c.command@ && trim(line@) == risk_name(c.classification.risk),
            None => p.command@ == line@ && classified(p.classification, line@) && !needs_confirmation(
                p.classification.risk,
            ),
        },
        extends(old(transport).history(), final(transport).history()),
        old(state).pending_payload is None && old(state).pending_confirmation is None
            && needs_confirmation(classify_spec(normalized(line@)).0) ==> final(transport).history()
            == old(transport).history(),
        old(state).pending_payload is None && old(state).pending_confirmation is None
            && !needs_confirmation(classify_spec(normalized(line@)).0) ==> first_write(
            old(transport).history(),
            final(transport).history(),
            with_terminator(line@),
        ),
        old(state).pending_payload is None ==> match old(state).pending_confirmation {
            Some(p) => if trim(line@) == risk_name(p.classification.risk) {
                first_write(
                    old(transport).history(),
                    final(transport).history(),
                    with_terminator(p.command@),
                )
            } else {
                final(transport).history() == old(transport).history()
            },
            None => true,
        },
        old(state).pending_payload is Some ==> first_write(
            old(transport).history(),
            final(transport).history(),
            line@.push('\u{1a}'),
        ),
        old(writer).shown().is_prefix_of(final(writer).shown()),
        bridge_output(
            old(state).pending_payload,
            old(state).pending_confirmation,
            line@,
            since(final(transport).history(), old(transport).history().len() as int),
            shown_since(final(writer).shown(), old(writer).shown().len() as int),
            r is Ok,
            r == Ok::<BridgeLoopAction, AtctlError>(BridgeLoopAction::Continue),
        ),
{
    let ghost old_payload = state.pending_payload;
    let ghost old_confirmation = state.pending_confirmation;
    let ghost h0 = transport.history();
    assert(h0.take(h0.len() as int) =~= h0);
    let step = next_bridge_step(state, line);
    proof {
        law_bridge_sends_only_confirmed_commands(old_payload, old_confirmation, line@, step);
    }
    match step {
        BridgeStep::SendPayload { command, payload, classification } => {
            execute_bridge_payload(
                transport,
                writer,
                command.as_str(),
                payload.as_str(),
                command_timeout_ms,
                classification.risk,
                raw_log,
            )
        },
        BridgeStep::Cancel { risk } => {
            let mut m = chars_of("atctl: command cancelled; required confirmation risk=");
            push_str(&mut m, risk.as_str());
            push_str(&mut m, "\r\n");
            let ghost s0 = writer.shown();
            let r = writer.write_text(string_of(&m).as_str());
            proof {
                assert(shown_since(writer.shown(), s0.len() as int) =~= seq![m@]);
                assert(writer.shown().take(s0.len() as int) =~= s0);
            }
            r
        },
        BridgeStep::AskConfirmation { command, classification } => {
            let action = write_confirmation_prompt(writer, &classification)?;
            if action == BridgeLoopAction::Stop {
                return Ok(BridgeLoopAction::Stop);
            }
            state.pending_confirmation = Some(PendingConfirmation { command, classification });
            Ok(BridgeLoopAction::Continue)
        },
        BridgeStep::Run { command, classification } => {
            execute_bridge_command(
                transport,
                writer,
                command.as_str(),
                command_timeout_ms,
                classification.risk,
                raw_log,
            )
        },
        BridgeStep::RunPrompt { command, classification } => {
            let action = execute_bridge_prompt_command(
                transport,
                writer,
                command.as_str(),
                command_timeout_ms,
                classification.risk,
                raw_log,
            )?;
            if action == BridgeLoopAction::Continue {
                state.pending_payload = Some(PendingPayload { command, classification });
            }
            Ok(action)
        },
    }
}

} // verus!
