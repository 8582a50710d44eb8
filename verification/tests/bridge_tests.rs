use std::collections::VecDeque;

use atctl::at::risk::classify_direct_command;
use atctl::error::AtctlError;
use atctl::log::raw::{NoRawLog, RawLogConfig, RawLogLine, RawLogLineWriter, RawLogSink};
use atctl::transport::pty::{
    handle_bridge_line, is_client_disconnect, is_pty_client_disconnect,
    mask_bridge_payload_response, pty_failure_action, pty_io_failure, BridgeCommandState, BridgeLoopAction, IoFailureKind,
    PendingPayload, PtyLineDecoder, PtyLink, PtyWriter,
};
use atctl::transport::traits::{AtLink, AtTransport};

#[derive(Debug, Default)]
struct MockTransport {
    opened: bool,
    written: Vec<String>,
    responses: VecDeque<Vec<u8>>,
}

impl MockTransport {
    fn with_response(response: Vec<u8>) -> Self {
        Self::with_responses([response])
    }

    fn with_responses<I>(responses: I) -> Self
    where
        I: IntoIterator<Item = Vec<u8>>,
    {
        Self {
            opened: true,
            written: Vec::new(),
            responses: responses.into_iter().collect(),
        }
    }

    fn written_commands(&self) -> &[String] {
        &self.written
    }
}

impl AtTransport for MockTransport {
    fn open(&mut self) -> Result<(), AtctlError> {
        self.opened = true;
        Ok(())
    }

    fn close(&mut self) -> Result<(), AtctlError> {
        self.opened = false;
        Ok(())
    }

    fn write_command(&mut self, command: &str) -> Result<(), AtctlError> {
        if !self.opened {
            return Err(AtctlError::Transport("mock transport is closed".into()));
        }
        self.written.push(command.to_string());
        Ok(())
    }

    fn read_response(&mut self, _timeout_ms: u64) -> Result<Vec<u8>, AtctlError> {
        if !self.opened {
            return Err(AtctlError::Transport("mock transport is closed".into()));
        }
        self.responses.pop_front().ok_or(AtctlError::Timeout)
    }

    fn pause(&mut self, _millis: u64) {}
}

/// PTY output collected in memory.
#[derive(Default)]
struct Output {
    text: String,
}

impl PtyWriter for Output {
    fn write_text(&mut self, text: &str) -> Result<BridgeLoopAction, AtctlError> {
        self.text.push_str(text);
        Ok(BridgeLoopAction::Continue)
    }
}

/// A PTY whose client has gone away.
struct BrokenPipeWriter;

impl PtyWriter for BrokenPipeWriter {
    fn write_text(&mut self, _text: &str) -> Result<BridgeLoopAction, AtctlError> {
        Ok(BridgeLoopAction::Stop)
    }
}

impl PtyWriter for &mut Output {
    fn write_text(&mut self, text: &str) -> Result<BridgeLoopAction, AtctlError> {
        (**self).write_text(text)
    }
}

impl PtyWriter for &mut BrokenPipeWriter {
    fn write_text(&mut self, text: &str) -> Result<BridgeLoopAction, AtctlError> {
        (**self).write_text(text)
    }
}

#[derive(Default)]
struct MemoryLines {
    lines: Vec<RawLogLine>,
}

impl RawLogLineWriter for &mut MemoryLines {
    fn validate_target(&mut self, _path: &str) -> Result<(), AtctlError> {
        Ok(())
    }

    fn create_line(&mut self, _path: &str, line: &RawLogLine) -> Result<(), AtctlError> {
        self.lines.push(line.clone());
        Ok(())
    }

    fn append_line(&mut self, _path: &str, line: &RawLogLine) -> Result<(), AtctlError> {
        self.lines.push(line.clone());
        Ok(())
    }
}

#[test]
fn line_decoder_splits_cr_lf_and_ignores_empty_lines() {
    let mut decoder = PtyLineDecoder::default();

    let lines = decoder.push(b"AT\r\n\nAT+CIMI\rpartial");
    assert_eq!(lines, ["AT", "AT+CIMI"]);
    assert_eq!(decoder.flush(), Some("partial".to_owned()));
    assert_eq!(decoder.flush(), None);
}

#[test]
fn safe_command_executes_and_masks_response() {
    let mut state = BridgeCommandState::default();
    let mut transport = AtLink::new(MockTransport::with_response(b"AT+CIMI\r\r\n295050912389644\r\n\r\nOK\r\n".to_vec()));
    let mut output = Output::default();

    let action = handle_bridge_line(
        &mut state,
        &mut transport,
        &mut PtyLink::new(&mut output),
        "AT+CIMI".to_owned(),
        30_000,
        &mut NoRawLog,
    )
    .unwrap();

    assert_eq!(action, BridgeLoopAction::Continue);
    assert_eq!(transport.transport().written_commands(), ["AT+CIMI\r"]);
    assert!(output.text.contains("29505091******"));
    assert!(!output.text.contains("295050912389644"));
}

#[test]
fn pty_client_disconnect_during_response_stops_without_transport_error() {
    let mut state = BridgeCommandState::default();
    let mut transport = AtLink::new(MockTransport::with_response(b"AT\r\r\nOK\r\n".to_vec()));
    let mut writer = BrokenPipeWriter;

    let action = handle_bridge_line(
        &mut state,
        &mut transport,
        &mut PtyLink::new(&mut writer),
        "AT".to_owned(),
        30_000,
        &mut NoRawLog,
    )
    .unwrap();

    assert_eq!(action, BridgeLoopAction::Stop);
    assert_eq!(transport.transport().written_commands(), ["AT\r"]);
}

#[test]
fn pty_client_disconnect_during_confirmation_prompt_does_not_leave_pending_command() {
    let mut state = BridgeCommandState::default();
    let mut transport = AtLink::new(MockTransport::with_response(b"ATE0\r\r\nOK\r\n".to_vec()));
    let mut writer = BrokenPipeWriter;

    let action = handle_bridge_line(
        &mut state,
        &mut transport,
        &mut PtyLink::new(&mut writer),
        "ATE0".to_owned(),
        30_000,
        &mut NoRawLog,
    )
    .unwrap();

    assert_eq!(action, BridgeLoopAction::Stop);
    assert!(state.pending_confirmation.is_none());
    assert!(transport.transport().written_commands().is_empty());
}

#[test]
fn pty_eio_is_treated_as_client_disconnect() {
    let error = std::io::Error::from_raw_os_error(5);

    assert!(is_pty_client_disconnect(&error));
}

#[test]
fn disconnect_kinds_and_other_failures_are_told_apart() {
    assert!(is_client_disconnect(IoFailureKind::BrokenPipe, None));
    assert!(is_client_disconnect(IoFailureKind::NotConnected, Some(107)));
    assert!(!is_client_disconnect(IoFailureKind::Other, Some(13)));
    assert!(!is_client_disconnect(IoFailureKind::Other, None));
    assert!(is_pty_client_disconnect(&std::io::Error::new(
        std::io::ErrorKind::BrokenPipe,
        "client closed"
    )));
    assert!(!is_pty_client_disconnect(&std::io::Error::new(
        std::io::ErrorKind::PermissionDenied,
        "denied"
    )));
}

#[test]
fn confirmation_required_command_waits_for_exact_risk_label() {
    let mut state = BridgeCommandState::default();
    let mut transport = AtLink::new(MockTransport::with_response(b"ATE0\r\r\nOK\r\n".to_vec()));
    let mut output = Output::default();

    handle_bridge_line(
        &mut state,
        &mut transport,
        &mut PtyLink::new(&mut output),
        "ATE0".to_owned(),
        30_000,
        &mut NoRawLog,
    )
    .unwrap();

    assert!(output.text.contains("Risk: write"));
    assert!(transport.transport().written_commands().is_empty());

    handle_bridge_line(
        &mut state,
        &mut transport,
        &mut PtyLink::new(&mut output),
        "write".to_owned(),
        30_000,
        &mut NoRawLog,
    )
    .unwrap();

    assert_eq!(transport.transport().written_commands(), ["ATE0\r"]);
}

#[test]
fn wrong_confirmation_cancels_without_sending() {
    let mut state = BridgeCommandState::default();
    let mut transport = AtLink::new(MockTransport::with_response(b"ATE0\r\r\nOK\r\n".to_vec()));
    let mut output = Output::default();

    handle_bridge_line(
        &mut state,
        &mut transport,
        &mut PtyLink::new(&mut output),
        "ATE0".to_owned(),
        30_000,
        &mut NoRawLog,
    )
    .unwrap();
    handle_bridge_line(
        &mut state,
        &mut transport,
        &mut PtyLink::new(&mut output),
        "abc".to_owned(),
        30_000,
        &mut NoRawLog,
    )
    .unwrap();

    assert!(transport.transport().written_commands().is_empty());
    assert!(output.text.contains("command cancelled"));
    assert!(output
        .text
        .contains("atctl: command cancelled; required confirmation risk=write\r\n"));
}

#[test]
fn prompt_required_command_waits_for_payload_line_and_appends_ctrl_z() {
    let mut state = BridgeCommandState::default();
    let mut transport = AtLink::new(MockTransport::with_responses([
        b"\r\n> ".to_vec(),
        b"\r\n+CMGS: 12\r\n\r\nOK\r\n".to_vec(),
    ]));
    let mut output = Output::default();

    handle_bridge_line(
        &mut state,
        &mut transport,
        &mut PtyLink::new(&mut output),
        "AT+CMGS=\"+819012345678\"".to_owned(),
        30_000,
        &mut NoRawLog,
    )
    .unwrap();
    assert!(state.pending_confirmation.is_some());
    assert!(state.pending_payload.is_none());
    assert!(transport.transport().written_commands().is_empty());

    handle_bridge_line(
        &mut state,
        &mut transport,
        &mut PtyLink::new(&mut output),
        "write".to_owned(),
        30_000,
        &mut NoRawLog,
    )
    .unwrap();
    assert!(state.pending_confirmation.is_none());
    assert!(state.pending_payload.is_some());
    assert_eq!(
        transport.transport().written_commands(),
        ["AT+CMGS=\"+819012345678\"\r"]
    );
    assert!(output.text.contains(">"));
    assert!(output.text.contains("enter payload"));

    handle_bridge_line(
        &mut state,
        &mut transport,
        &mut PtyLink::new(&mut output),
        "hello from atctl".to_owned(),
        30_000,
        &mut NoRawLog,
    )
    .unwrap();

    assert!(state.pending_payload.is_none());
    assert_eq!(
        transport.transport().written_commands(),
        [
            "AT+CMGS=\"+819012345678\"\r".to_owned(),
            "hello from atctl\u{1a}".to_owned()
        ]
    );
    assert!(output.text.contains("+CMGS: 12"));
    assert!(output.text.contains("OK"));
}

#[test]
fn prompt_payload_echo_is_masked_in_pty_output() {
    let mut state = BridgeCommandState {
        pending_confirmation: None,
        pending_payload: Some(PendingPayload {
            command: "AT+CMGS=\"+819012345678\"".to_owned(),
            classification: classify_direct_command("AT+CMGS=\"+819012345678\""),
        }),
    };
    let mut transport = AtLink::new(MockTransport::with_response(
        b"\r\nhello from atctl\r\n+CMGS: 12\r\n\r\nOK\r\n".to_vec(),
    ));
    let mut output = Output::default();

    handle_bridge_line(
        &mut state,
        &mut transport,
        &mut PtyLink::new(&mut output),
        "hello from atctl".to_owned(),
        30_000,
        &mut NoRawLog,
    )
    .unwrap();

    assert!(output.text.contains("hell**********tl"));
    assert!(!output.text.contains("hello from atctl"));
}

#[test]
fn payload_masking_leaves_text_without_the_payload_alone() {
    assert_eq!(mask_bridge_payload_response("\r\nOK\r\n", "hi"), "\r\nOK\r\n");
    assert_eq!(mask_bridge_payload_response("ok ok", ""), "ok ok");
    assert_eq!(mask_bridge_payload_response("say hello", "hello"), "say he***");
}

#[test]
fn bridge_raw_log_writes_exchange_without_unmasking_pty_output() {
    let mut state = BridgeCommandState::default();
    let mut transport = AtLink::new(MockTransport::with_response(b"AT+CIMI\r\r\n295050912389644\r\n\r\nOK\r\n".to_vec()));
    let mut output = Output::default();
    let mut lines = MemoryLines::default();
    {
        let mut raw_log =
            RawLogSink::create(RawLogConfig::new("bridge.rawlog", "bridge", "bridge"), &mut lines)
                .unwrap();

        let action = handle_bridge_line(
            &mut state,
            &mut transport,
            &mut PtyLink::new(&mut output),
            "AT+CIMI".to_owned(),
            30_000,
            &mut raw_log,
        )
        .unwrap();
        assert_eq!(action, BridgeLoopAction::Continue);
    }

    assert!(output.text.contains("29505091******"));
    assert!(!output.text.contains("295050912389644"));
    assert!(matches!(
        &lines.lines[0],
        RawLogLine::Header { surface, .. } if surface == "bridge"
    ));
    assert!(matches!(
        &lines.lines[1],
        RawLogLine::Exchange { sequence: 1, rx_preview, surface, .. }
            if rx_preview.contains("295050912389644") && surface == "bridge"
    ));
}

#[test]
fn pty_client_disconnect_during_flush_stops_without_transport_error() {
    let error = std::io::Error::from(std::io::ErrorKind::BrokenPipe);

    let action = pty_failure_action("flush", &pty_io_failure(&error)).unwrap();

    assert_eq!(action, BridgeLoopAction::Stop);
}

#[test]
fn other_pty_flush_failure_is_a_transport_error() {
    let error = std::io::Error::new(std::io::ErrorKind::PermissionDenied, "denied");

    let result = pty_failure_action("flush", &pty_io_failure(&error));

    assert_eq!(result, Err(AtctlError::Transport("failed to flush PTY: denied".to_owned())));
}
