//! Raw diagnostic export: what each exchange records, how bytes are
//! encoded in the export, and the acknowledgement that enables it.
use vstd::prelude::*;

use crate::at::response::AtStatus;
use crate::at::risk::RiskLevel;
use crate::error::AtctlError;
use crate::log::session::now_timestamp;
use crate::text::{chars_of, push_str, string_of};
use crate::transport::traits::failures_after;

verus! {

broadcast use vstd::string::group_string_axioms;

/// The value that acknowledges a raw diagnostic export.
pub const RAW_LOG_ACK: &'static str = "raw-log";

/// The warning written at the top of every raw diagnostic export.
pub const RAW_LOG_WARNING: &'static str = "This raw diagnostic export may contain sensitive modem, subscriber, network, APN, or PDP authentication values.";

/// One command and its response, unmasked.
#[derive(Debug, Clone, PartialEq, Eq)]
pub struct RawLogExchange {
    pub command_name: Option<String>,
    pub command: String,
    pub risk: RiskLevel,
    pub status: AtStatus,
    pub duration_ms: u64,
    pub tx_bytes: Vec<u8>,
    pub rx_bytes: Vec<u8>,
}

/// A transport failure while sending a command or reading its response.
#[derive(Debug, Clone, PartialEq, Eq)]
pub struct RawLogTransportError {
    pub command_name: Option<String>,
    pub command: String,
    pub risk: RiskLevel,
    pub duration_ms: u64,
    pub stage: String,
    pub error: String,
    pub tx_bytes: Vec<u8>,
    pub rx_bytes: Vec<u8>,
}

/// Where raw exchanges go: a raw diagnostic export file, or nowhere.
pub trait RawLogRecorder {
    fn append_exchange(&mut self, exchange: RawLogExchange) -> Result<(), AtctlError>;

    fn append_transport_error(&mut self, error: RawLogTransportError) -> Result<(), AtctlError>;
}

/// One line handed to a recorder.
pub enum RawLogEntry {
    Exchange(RawLogExchange),
    TransportError(RawLogTransportError),
}

/// A recorder together with the record of every line handed to it through
/// the library, in order.
pub struct RawLogLink<L: RawLogRecorder> {
    recorder: L,
    entries: Ghost<Seq<RawLogEntry>>,
    failures: Ghost<Seq<AtctlError>>,
}

impl<L: RawLogRecorder> RawLogLink<L> {
    /// The lines handed over so far.
    pub closed spec fn entries(&self) -> Seq<RawLogEntry> {
        self.entries@
    }

    /// The errors the recorder returned so far, in order.
    pub closed spec fn failures(&self) -> Seq<AtctlError> {
        self.failures@
    }

    /// A link over `recorder` with nothing recorded.
    pub fn new(recorder: L) -> (r: Self)
        ensures
            r.entries() == Seq::<RawLogEntry>::empty(),
            r.failures() == Seq::<AtctlError>::empty(),
    {
        RawLogLink { recorder, entries: Ghost(Seq::empty()), failures: Ghost(Seq::empty()) }
    }

    /// The recorder itself.
    pub fn recorder(&self) -> &L {
        &self.recorder
    }

    /// Gives the recorder back.
    pub fn into_recorder(self) -> L {
        self.recorder
    }

    pub fn append_exchange(&mut self, exchange: RawLogExchange) -> (r: Result<(), AtctlError>)
        ensures
            final(self).entries() == old(self).entries().push(RawLogEntry::Exchange(exchange)),
            final(self).failures() == failures_after(old(self).failures(), r),
    {
        let ghost e = exchange;
        let r = self.recorder.append_exchange(exchange);
        proof {
            self.entries@ = self.entries@.push(RawLogEntry::Exchange(e));
            self.failures@ = failures_after(self.failures@, r);
        }
        r
    }

    pub fn append_transport_error(&mut self, error: RawLogTransportError) -> (r: Result<(), AtctlError>)
        ensures
            final(self).entries() == old(self).entries().push(RawLogEntry::TransportError(error)),
            final(self).failures() == failures_after(old(self).failures(), r),
    {
        let ghost e = error;
        let r = self.recorder.append_transport_error(error);
        proof {
            self.entries@ = self.entries@.push(RawLogEntry::TransportError(e));
            self.failures@ = failures_after(self.failures@, r);
        }
        r
    }
}

/// The recorder used when no raw diagnostic export was asked for.
pub struct NoRawLog;

impl RawLogRecorder for NoRawLog {
    fn append_exchange(&mut self, exchange: RawLogExchange) -> Result<(), AtctlError> {
        Ok(())
    }

    fn append_transport_error(&mut self, error: RawLogTransportError) -> Result<(), AtctlError> {
        Ok(())
    }
}

/// Where a raw diagnostic export goes, and which surface and source it
/// records.
#[derive(Debug, Clone, PartialEq, Eq)]
pub struct RawLogConfig {
    pub path: String,
    pub surface: String,
    pub source: String,
}

impl RawLogConfig {
    pub fn new(path: &str, surface: &str, source: &str) -> (r: Self)
        ensures
            r.path@ == path@,
            r.surface@ == surface@,
            r.source@ == source@,
    {
        RawLogConfig { path: path.to_owned(), surface: surface.to_owned(), source: source.to_owned() }
    }
}

/// The files of raw diagnostic exports: a target must not exist yet, and
/// creating an export writes its header and yields where exchanges go.
pub trait RawLogFiles {
    type Sink: RawLogRecorder;

    /// Fails when something already exists at `path`.
    fn validate_target(&mut self, path: &str) -> Result<(), AtctlError>;

    /// Creates the export file and writes its header.
    fn create(&mut self, config: &RawLogConfig) -> Result<Self::Sink, AtctlError>;
}

/// Raw export files for a run that writes none: every target is free and
/// every export records nothing.
pub struct NoRawLogFiles;

impl RawLogFiles for NoRawLogFiles {
    type Sink = NoRawLog;

    fn validate_target(&mut self, path: &str) -> Result<(), AtctlError> {
        Ok(())
    }

    fn create(&mut self, config: &RawLogConfig) -> Result<NoRawLog, AtctlError> {
        Ok(NoRawLog)
    }
}

// ---------------------------------------------------------------------
// Export lines
// ---------------------------------------------------------------------
/// One line of a raw diagnostic export.
#[derive(Debug, Clone, PartialEq, Eq)]
pub enum RawLogLine {
    Header {
        schema_version: u8,
        created_at: String,
        surface: String,
        source: String,
        warning: String,
    },
    Exchange {
        schema_version: u8,
        sequence: u64,
        timestamp: String,
        surface: String,
        source: String,
        command_name: Option<String>,
        command: String,
        risk: RiskLevel,
        status: AtStatus,
        duration_ms: u64,
        tx_base64: String,
        tx_preview: String,
        rx_base64: String,
        rx_preview: String,
    },
    TransportError {
        schema_version: u8,
        sequence: u64,
        timestamp: String,
        surface: String,
        source: String,
        command_name: Option<String>,
        command: String,
        risk: RiskLevel,
        duration_ms: u64,
        stage: String,
        error: String,
        tx_base64: String,
        tx_preview: String,
        rx_base64: String,
        rx_preview: String,
    },
}

/// Where the lines of an export are written: a new file that must not
/// exist yet, and lines appended to it.
pub trait RawLogLineWriter {
    /// Fails when something already exists at `path`.
    fn validate_target(&mut self, path: &str) -> Result<(), AtctlError>;

    /// Creates the file at `path` with `line` as its first line.
    fn create_line(&mut self, path: &str, line: &RawLogLine) -> Result<(), AtctlError>;

    /// Appends `line` to the file at `path`.
    fn append_line(&mut self, path: &str, line: &RawLogLine) -> Result<(), AtctlError>;
}

/// An open raw diagnostic export: a header, then one numbered line per
/// exchange or transport failure.
pub struct RawLogSink<W: RawLogLineWriter> {
    path: String,
    surface: String,
    source: String,
    next_sequence: u64,
    writer: W,
    written: Ghost<Seq<RawLogLine>>,
}

/// Whether `line` is the header of an export from `surface` and `source`.
pub open spec fn header_line(line: RawLogLine, surface: Seq<char>, source: Seq<char>) -> bool {
    line matches RawLogLine::Header { schema_version, surface: su, source: so, warning, .. }
        && schema_version == 1 && su@ == surface && so@ == source && warning@ == RAW_LOG_WARNING@
}

/// Whether `line` records `exchange` as line number `sequence` of an export
/// from `surface` and `source`.
pub open spec fn exchange_line(
    line: RawLogLine,
    exchange: RawLogExchange,
    sequence: u64,
    surface: Seq<char>,
    source: Seq<char>,
) -> bool {
    line matches RawLogLine::Exchange {
        schema_version,
        sequence: n,
        surface: su,
        source: so,
        command_name,
        command,
        risk,
        status,
        duration_ms,
        tx_base64,
        tx_preview,
        rx_base64,
        rx_preview,
        ..
    } && schema_version == 1 && n == sequence && su@ == surface && so@ == source && command_name
        == exchange.command_name && command@ == exchange.command@ && risk == exchange.risk && status@
        == exchange.status@ && duration_ms == exchange.duration_ms && tx_base64@ == base64(
        exchange.tx_bytes@,
    ) && tx_preview@ == preview(exchange.tx_bytes@) && rx_base64@ == base64(exchange.rx_bytes@)
        && rx_preview@ == preview(exchange.rx_bytes@)
}

/// Whether `line` records the transport failure `error` as line number
/// `sequence` of an export from `surface` and `source`.
pub open spec fn transport_error_line(
    line: RawLogLine,
    error: RawLogTransportError,
    sequence: u64,
    surface: Seq<char>,
    source: Seq<char>,
) -> bool {
    line matches RawLogLine::TransportError {
        schema_version,
        sequence: n,
        surface: su,
        source: so,
        command_name,
        command,
        risk,
        duration_ms,
        stage,
        error: e,
        tx_base64,
        tx_preview,
        rx_base64,
        rx_preview,
        ..
    } && schema_version == 1 && n == sequence && su@ == surface && so@ == source && command_name
        == error.command_name && command@ == error.command@ && risk == error.risk && duration_ms
        == error.duration_ms && stage@ == error.stage@ && e@ == error.error@ && tx_base64@ == base64(
        error.tx_bytes@,
    ) && tx_preview@ == preview(error.tx_bytes@) && rx_base64@ == base64(error.rx_bytes@)
        && rx_preview@ == preview(error.rx_bytes@)
}

/// The number a line carries: none for the header.
pub open spec fn line_number(line: RawLogLine) -> Option<u64> {
    match line {
        RawLogLine::Header { .. } => None,
        RawLogLine::Exchange { sequence, .. } => Some(sequence),
        RawLogLine::TransportError { sequence, .. } => Some(sequence),
    }
}

/// An export as every sequence of appends keeps it: the header first, then
/// lines numbered 1, 2, 3, ... in order, and the next number one past the
/// last line's.
pub open spec fn numbered_in_order(lines: Seq<RawLogLine>, next: u64) -> bool {
    &&& lines.len() >= 1
    &&& lines[0] is Header
    &&& next == lines.len()
    &&& forall|i: int| 1 <= i < lines.len() ==> line_number(#[trigger] lines[i]) == Some(i as u64)
}

/// One append to an export, whatever its outcome: the path, surface and
/// source stay; either nothing changed, or one line numbered with the next
/// number was added and the number moved on.
pub open spec fn one_append<W: RawLogLineWriter>(a: RawLogSink<W>, b: RawLogSink<W>) -> bool {
    &&& b.path_spec() == a.path_spec()
    &&& b.surface_spec() == a.surface_spec()
    &&& b.source_spec() == a.source_spec()
    &&& {
        ||| b.next_number() == a.next_number() && b.lines() == a.lines()
        ||| b.next_number() == a.next_number().wrapping_add(1) && b.lines() == a.lines().push(b.lines().last())
            && line_number(b.lines().last()) == Some(a.next_number())
    }
}

/// However many appends follow the creation of an export, it keeps its
/// path, surface and source, and its lines stay the header followed by lines
/// numbered 1, 2, 3, ... in order, the next number one past the last line's.
pub proof fn law_appends_keep_numbering<W: RawLogLineWriter>(states: Seq<RawLogSink<W>>)
    requires
        1 <= states.len() < u64::MAX,
        states[0].next_number() == 1,
        states[0].lines().len() == 1,
        states[0].lines()[0] is Header,
        forall|i: int| 0 <= i < states.len() - 1 ==> one_append(#[trigger] states[i], states[i + 1]),
    ensures
        forall|i: int|
            0 <= i < states.len() ==> (#[trigger] states[i]).path_spec() == states[0].path_spec()
                && states[i].surface_spec() == states[0].surface_spec() && states[i].source_spec()
                == states[0].source_spec() && numbered_in_order(states[i].lines(), states[i].next_number())
                && states[i].next_number() <= i + 1,
    decreases states.len(),
{
    if states.len() > 1 {
        let prev = states.drop_last();
        assert forall|i: int| 0 <= i < prev.len() - 1 implies one_append(#[trigger] prev[i], prev[i + 1]) by {
            assert(prev[i] == states[i] && prev[i + 1] == states[i + 1]);
        }
        law_appends_keep_numbering(prev);
        let n = states.len() - 1;
        assert(prev[n - 1] == states[n - 1]);
        assert(one_append(states[n - 1], states[n]));
        let a = states[n - 1];
        let b = states[n];
        assert(numbered_in_order(a.lines(), a.next_number()));
        if b.next_number() != a.next_number() || b.lines() != a.lines() {
            assert(a.next_number().wrapping_add(1) == a.next_number() + 1);
            assert forall|i: int| 1 <= i < b.lines().len() implies line_number(#[trigger] b.lines()[i]) == Some(i as u64) by {
                if i < a.lines().len() {
                    assert(b.lines()[i] == a.lines()[i]);
                }
            }
        }
        assert forall|i: int| 0 <= i < states.len() implies (#[trigger] states[i]).path_spec() == states[0].path_spec()
            && states[i].surface_spec() == states[0].surface_spec() && states[i].source_spec()
            == states[0].source_spec() && numbered_in_order(states[i].lines(), states[i].next_number())
            && states[i].next_number() <= i + 1 by {
            if i < n {
                assert(prev[i] == states[i]);
                assert(prev[0] == states[0]);
            }
        }
    } else {
        assert forall|i: int| 0 <= i < states.len() implies (#[trigger] states[i]).path_spec() == states[0].path_spec()
            && numbered_in_order(states[i].lines(), states[i].next_number()) by {
            assert(i == 0);
        }
    }
}

impl<W: RawLogLineWriter> RawLogSink<W> {
    /// The number the next line gets.
    pub closed spec fn next_number(&self) -> u64 {
        self.next_sequence
    }

    /// The lines the writer has taken, header first.
    pub closed spec fn lines(&self) -> Seq<RawLogLine> {
        self.written@
    }

    pub closed spec fn path_spec(&self) -> Seq<char> {
        self.path@
    }

    pub closed spec fn surface_spec(&self) -> Seq<char> {
        self.surface@
    }

    pub closed spec fn source_spec(&self) -> Seq<char> {
        self.source@
    }

    /// Creates the export: the target must be free, and the header is the
    /// first line; the first exchange is then numbered 1.
    pub fn create(config: RawLogConfig, writer: W) -> (r: Result<Self, AtctlError>)
        ensures
            r matches Ok(s) ==> s.next_number() == 1 && s.path_spec() == config.path@
                && s.surface_spec() == config.surface@ && s.source_spec() == config.source@
                && s.lines().len() == 1 && header_line(s.lines()[0], config.surface@, config.source@)
                && numbered_in_order(s.lines(), s.next_number()),
    {
        let mut writer = writer;
        writer.validate_target(config.path.as_str())?;
        let header = RawLogLine::Header {
            schema_version: 1,
            created_at: now_timestamp().display().to_owned(),
            surface: config.surface.clone(),
            source: config.source.clone(),
            warning: RAW_LOG_WARNING.to_owned(),
        };
        writer.create_line(config.path.as_str(), &header)?;
        let written: Ghost<Seq<RawLogLine>> = Ghost(Seq::empty().push(header));
        Ok(
            RawLogSink {
                path: config.path,
                surface: config.surface,
                source: config.source,
                next_sequence: 1,
                writer,
                written,
            },
        )
    }

    /// Where the export is written.
    pub fn path(&self) -> (r: &str)
        ensures
            r@ == self.path_spec(),
    {
        self.path.as_str()
    }

    /// The line that records an exchange as the next line.
    pub fn line_for_exchange(&self, exchange: &RawLogExchange) -> (r: RawLogLine)
        ensures
            exchange_line(
                r,
                *exchange,
                self.next_number(),
                self.surface_spec(),
                self.source_spec(),
            ),
    {
        let timestamp = now_timestamp().display().to_owned();
        let surface = self.surface.clone();
        let source = self.source.clone();
        let command_name = clone_opt_string(&exchange.command_name);
        let command = exchange.command.clone();
        let status = exchange.status.duplicate();
        let tx_base64 = base64_encode(exchange.tx_bytes.as_slice());
        let tx_preview = bytes_preview(exchange.tx_bytes.as_slice());
        let rx_base64 = base64_encode(exchange.rx_bytes.as_slice());
        let rx_preview = bytes_preview(exchange.rx_bytes.as_slice());
        RawLogLine::Exchange {
            schema_version: 1,
            sequence: self.next_sequence,
            timestamp,
            surface,
            source,
            command_name,
            command,
            risk: exchange.risk,
            status,
            duration_ms: exchange.duration_ms,
            tx_base64,
            tx_preview,
            rx_base64,
            rx_preview,
        }
    }

    /// The line that records a transport failure as the next line.
    pub fn line_for_transport_error(&self, error: &RawLogTransportError) -> (r: RawLogLine)
        ensures
            transport_error_line(
                r,
                *error,
                self.next_number(),
                self.surface_spec(),
                self.source_spec(),
            ),
    {
        let timestamp = now_timestamp().display().to_owned();
        let surface = self.surface.clone();
        let source = self.source.clone();
        let command_name = clone_opt_string(&error.command_name);
        let command = error.command.clone();
        let stage = error.stage.clone();
        let message = error.error.clone();
        let tx_base64 = base64_encode(error.tx_bytes.as_slice());
        let tx_preview = bytes_preview(error.tx_bytes.as_slice());
        let rx_base64 = base64_encode(error.rx_bytes.as_slice());
        let rx_preview = bytes_preview(error.rx_bytes.as_slice());
        RawLogLine::TransportError {
            schema_version: 1,
            sequence: self.next_sequence,
            timestamp,
            surface,
            source,
            command_name,
            command,
            risk: error.risk,
            duration_ms: error.duration_ms,
            stage,
            error: message,
            tx_base64,
            tx_preview,
            rx_base64,
            rx_preview,
        }
    }

    /// Appends an exchange; the numbering moves on only when it was
    /// written.
    pub fn append_exchange(&mut self, exchange: RawLogExchange) -> (r: Result<(), AtctlError>)
        ensures
            one_append(*old(self), *final(self)),
            final(self).path_spec() == old(self).path_spec(),
            final(self).surface_spec() == old(self).surface_spec(),
            final(self).source_spec() == old(self).source_spec(),
            final(self).next_number() == if r is Ok {
                old(self).next_number().wrapping_add(1)
            } else {
                old(self).next_number()
            },
            r is Err ==> final(self).lines() == old(self).lines(),
            numbered_in_order(old(self).lines(), old(self).next_number()) && old(self).next_number()
                < u64::MAX ==> numbered_in_order(final(self).lines(), final(self).next_number()),
            r is Ok ==> final(self).lines().len() == old(self).lines().len() + 1
                && final(self).lines().drop_last() == old(self).lines() && exchange_line(
                final(self).lines().last(),
                exchange,
                old(self).next_number(),
                old(self).surface_spec(),
                old(self).source_spec(),
            ),
    {
        let line = self.line_for_exchange(&exchange);
        self.writer.append_line(self.path.as_str(), &line)?;
        self.next_sequence = self.next_sequence.wrapping_add(1);
        proof {
            self.written@ = self.written@.push(line);
        }
        assert(self.written@.drop_last() =~= old(self).written@);
        assert(self.written@ =~= old(self).written@.push(self.written@.last()));
        Ok(())
    }

    /// Appends a transport failure; the numbering moves on only when it was
    /// written.
    pub fn append_transport_error(&mut self, error: RawLogTransportError) -> (r: Result<
        (),
        AtctlError,
    >)
        ensures
            one_append(*old(self), *final(self)),
            final(self).path_spec() == old(self).path_spec(),
            final(self).surface_spec() == old(self).surface_spec(),
            final(self).source_spec() == old(self).source_spec(),
            final(self).next_number() == if r is Ok {
                old(self).next_number().wrapping_add(1)
            } else {
                old(self).next_number()
            },
            r is Err ==> final(self).lines() == old(self).lines(),
            numbered_in_order(old(self).lines(), old(self).next_number()) && old(self).next_number()
                < u64::MAX ==> numbered_in_order(final(self).lines(), final(self).next_number()),
            r is Ok ==> final(self).lines().len() == old(self).lines().len() + 1
                && final(self).lines().drop_last() == old(self).lines() && transport_error_line(
                final(self).lines().last(),
                error,
                old(self).next_number(),
                old(self).surface_spec(),
                old(self).source_spec(),
            ),
    {
        let line = self.line_for_transport_error(&error);
        self.writer.append_line(self.path.as_str(), &line)?;
        self.next_sequence = self.next_sequence.wrapping_add(1);
        proof {
            self.written@ = self.written@.push(line);
        }
        assert(self.written@.drop_last() =~= old(self).written@);
        assert(self.written@ =~= old(self).written@.push(self.written@.last()));
        Ok(())
    }
}

impl<W: RawLogLineWriter> RawLogRecorder for RawLogSink<W> {
    fn append_exchange(&mut self, exchange: RawLogExchange) -> (r: Result<(), AtctlError>)
        ensures
            final(self).path_spec() == old(self).path_spec(),
            final(self).surface_spec() == old(self).surface_spec(),
            final(self).source_spec() == old(self).source_spec(),
            final(self).next_number() == if r is Ok {
                old(self).next_number().wrapping_add(1)
            } else {
                old(self).next_number()
            },
            r is Err ==> final(self).lines() == old(self).lines(),
            numbered_in_order(old(self).lines(), old(self).next_number()) && old(self).next_number()
                < u64::MAX ==> numbered_in_order(final(self).lines(), final(self).next_number()),
            r is Ok ==> final(self).lines().len() == old(self).lines().len() + 1
                && final(self).lines().drop_last() == old(self).lines() && exchange_line(
                final(self).lines().last(),
                exchange,
                old(self).next_number(),
                old(self).surface_spec(),
                old(self).source_spec(),
            ),
    {
        RawLogSink::append_exchange(self, exchange)
    }

    fn append_transport_error(&mut self, error: RawLogTransportError) -> (r: Result<(), AtctlError>)
        ensures
            final(self).path_spec() == old(self).path_spec(),
            final(self).surface_spec() == old(self).surface_spec(),
            final(self).source_spec() == old(self).source_spec(),
            final(self).next_number() == if r is Ok {
                old(self).next_number().wrapping_add(1)
            } else {
                old(self).next_number()
            },
            r is Err ==> final(self).lines() == old(self).lines(),
            numbered_in_order(old(self).lines(), old(self).next_number()) && old(self).next_number()
                < u64::MAX ==> numbered_in_order(final(self).lines(), final(self).next_number()),
            r is Ok ==> final(self).lines().len() == old(self).lines().len() + 1
                && final(self).lines().drop_last() == old(self).lines() && transport_error_line(
                final(self).lines().last(),
                error,
                old(self).next_number(),
                old(self).surface_spec(),
                old(self).source_spec(),
            ),
    {
        RawLogSink::append_transport_error(self, error)
    }
}

fn clone_opt_string(o: &Option<String>) -> (r: Option<String>)
    ensures
        r == *o,
{
    match o {
        Some(s) => Some(s.clone()),
        None => None,
    }
}

/// Raw export is allowed only with the exact acknowledgement `raw-log`.
pub fn require_raw_log_ack(ack: Option<&str>) -> (r: Result<(), AtctlError>)
    ensures
        match ack {
            None => r == Err::<(), AtctlError>(AtctlError::RawLogAckRequired),
            Some(a) => if a@ == RAW_LOG_ACK@ {
                r is Ok
            } else {
                r matches Err(AtctlError::RawLogAckMismatch { acknowledged }) && acknowledged@
                    == a@
            },
        },
{
    match ack {
        None => Err(AtctlError::RawLogAckRequired),
        Some(a) => {
            let v = chars_of(a);
            if crate::text::eq_str(&v, RAW_LOG_ACK) {
                Ok(())
            } else {
                Err(AtctlError::RawLogAckMismatch { acknowledged: a.to_owned() })
            }
        },
    }
}

// ---------------------------------------------------------------------
// Byte previews
// ---------------------------------------------------------------------
pub open spec fn hex_upper(d: nat) -> char {
    if d < 10 {
        (('0' as u32) + d) as char
    } else {
        (('A' as u32) + d - 10) as char
    }
}

/// How one byte shows in a preview: escapes for CR, LF, tab, backslash and
/// double quote, printable ASCII as itself, anything else as `\xHH`.
pub open spec fn byte_preview(b: u8) -> Seq<char> {
    if b == 13 {
        seq!['\\', 'r']
    } else if b == 10 {
        seq!['\\', 'n']
    } else if b == 9 {
        seq!['\\', 't']
    } else if b == 92 {
        seq!['\\', '\\']
    } else if b == 34 {
        seq!['\\', '"']
    } else if 0x20 <= b <= 0x7e {
        seq![b as char]
    } else {
        seq!['\\', 'x', hex_upper((b / 16) as nat), hex_upper((b % 16) as nat)]
    }
}

pub open spec fn preview(bytes: Seq<u8>) -> Seq<char>
    decreases bytes.len(),
{
    if bytes.len() == 0 {
        Seq::empty()
    } else {
        preview(bytes.drop_last()) + byte_preview(bytes.last())
    }
}

fn hex_upper_exec(d: u8) -> (c: char)
    requires
        d < 16,
    ensures
        c == hex_upper(d as nat),
{
    if d < 10 {
        (48u8 + d) as char
    } else {
        (55u8 + d) as char
    }
}

/// A printable, escaped preview of raw bytes.
pub fn bytes_preview(bytes: &[u8]) -> (r: String)
    ensures
        r@ == preview(bytes@),
{
    let mut out: Vec<char> = Vec::new();
    let mut i: usize = 0;
    while i < bytes.len()
        invariant
            i <= bytes.len(),
            out@ == preview(bytes@.take(i as int)),
        decreases bytes.len() - i,
    {
        assert(bytes@.take(i + 1).drop_last() =~= bytes@.take(i as int));
        let b = bytes[i];
        let ghost before = out@;
        if b == 13 {
            out.push('\\');
            out.push('r');
        } else if b == 10 {
            out.push('\\');
            out.push('n');
        } else if b == 9 {
            out.push('\\');
            out.push('t');
        } else if b == 92 {
            out.push('\\');
            out.push('\\');
        } else if b == 34 {
            out.push('\\');
            out.push('"');
        } else if 0x20 <= b && b <= 0x7e {
            out.push(b as char);
        } else {
            out.push('\\');
            out.push('x');
            out.push(hex_upper_exec(b / 16));
            out.push(hex_upper_exec(b % 16));
        }
        assert(out@ =~= before + byte_preview(bytes@[i as int]));
        i += 1;
    }
    assert(bytes@.take(i as int) =~= bytes@);
    string_of(&out)
}

// ---------------------------------------------------------------------
// Base64
// ---------------------------------------------------------------------
/// The standard base64 alphabet.
pub open spec fn b64_char(i: nat) -> char {
    if i < 26 {
        (('A' as u32) + i) as char
    } else if i < 52 {
        (('a' as u32) + i - 26) as char
    } else if i < 62 {
        (('0' as u32) + i - 52) as char
    } else if i == 62 {
        '+'
    } else {
        '/'
    }
}

/// The four characters for a group of one to three bytes, padded with `=`.
pub open spec fn b64_group(c: Seq<u8>) -> Seq<char> {
    let b0 = c[0] as nat;
    let b1 = if c.len() > 1 {
        c[1] as nat
    } else {
        0
    };
    let b2 = if c.len() > 2 {
        c[2] as nat
    } else {
        0
    };
    seq![
        b64_char(b0 / 4),
        b64_char((b0 % 4) * 16 + b1 / 16),
        if c.len() > 1 {
            b64_char((b1 % 16) * 4 + b2 / 64)
        } else {
            '='
        },
        if c.len() > 2 {
            b64_char(b2 % 64)
        } else {
            '='
        },
    ]
}

/// Standard padded base64.
pub open spec fn base64(bytes: Seq<u8>) -> Seq<char>
    decreases bytes.len(),
{
    if bytes.len() == 0 {
        Seq::empty()
    } else if bytes.len() <= 3 {
        b64_group(bytes)
    } else {
        b64_group(bytes.take(3)) + base64(bytes.skip(3))
    }
}

fn b64_char_exec(i: u8) -> (c: char)
    requires
        i < 64,
    ensures
        c == b64_char(i as nat),
{
    if i < 26 {
        (65u8 + i) as char
    } else if i < 52 {
        (97u8 + i - 26) as char
    } else if i < 62 {
        (48u8 + i - 52) as char
    } else if i == 62 {
        '+'
    } else {
        '/'
    }
}

/// Standard padded base64 of raw bytes.
pub fn base64_encode(bytes: &[u8]) -> (r: String)
    ensures
        r@ == base64(bytes@),
{
    let mut out: Vec<char> = Vec::new();
    let mut i: usize = 0;
    assert(bytes@.skip(0) =~= bytes@);
    while i < bytes.len()
        invariant
            i <= bytes.len(),
            out@ + base64(bytes@.skip(i as int)) == base64(bytes@),
        decreases bytes.len() - i,
    {
        let ghost rest = bytes@.skip(i as int);
        let n = bytes.len() - i;
        let b0 = bytes[i];
        let b1: u8 = if n > 1 {
            bytes[i + 1]
        } else {
            0
        };
        let b2: u8 = if n > 2 {
            bytes[i + 2]
        } else {
            0
        };
        let ghost before = out@;
        out.push(b64_char_exec(b0 / 4));
        out.push(b64_char_exec((b0 % 4) * 16 + b1 / 16));
        if n > 1 {
            out.push(b64_char_exec((b1 % 16) * 4 + b2 / 64));
        } else {
            out.push('=');
        }
        if n > 2 {
            out.push(b64_char_exec(b2 % 64));
        } else {
            out.push('=');
        }
        let step: usize = if n > 3 {
            3
        } else {
            n
        };
        proof {
            let g = if rest.len() <= 3 {
                rest
            } else {
                rest.take(3)
            };
            assert(g[0] == b0);
            if n > 1 {
                assert(g[1] == b1);
            }
            if n > 2 {
                assert(g[2] == b2);
            }
            assert(out@ =~= before + b64_group(g));
            if rest.len() > 3 {
                assert(rest.skip(3) =~= bytes@.skip(i + 3));
            } else {
                assert(bytes@.skip(i + step) =~= Seq::<u8>::empty());
            }
        }
        i += step;
    }
    assert(bytes@.skip(i as int) =~= Seq::<u8>::empty());
    assert(out@ + Seq::<char>::empty() =~= out@);
    string_of(&out)
}

} // verus!
