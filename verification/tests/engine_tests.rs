use std::collections::VecDeque;

use atctl::at::response::AtStatus;
use atctl::error::AtctlError;
use atctl::log::raw::{
    require_raw_log_ack, NoRawLog, RawLogLink, RawLogConfig, RawLogLine, RawLogLineWriter, RawLogSink,
    RAW_LOG_ACK,
};
use atctl::sequences::builtin::builtins;
use atctl::sequences::engine::{
    execute_sequence, validate_and_bind_params, value_candidate_sets_from_text,
    SequenceParamValue,
};
use atctl::at::risk::RiskLevel;
use atctl::sequences::engine::render_sequence_review;
use atctl::sequences::model::{
    Sequence, SequenceCandidateSource, SequenceOrigin, SequenceParam, SequenceParamSource,
    SequenceReviewItem, SequenceStep, StepTerminator,
};
use atctl::transport::traits::{AtLink, AtTransport};

#[derive(Debug, Default)]
struct MockTransport {
    opened: bool,
    written: Vec<String>,
    responses: VecDeque<Vec<u8>>,
}

impl MockTransport {
    fn with_responses<I>(responses: I) -> Self
    where
        I: IntoIterator<Item = Vec<u8>>,
    {
        Self {
            opened: true,
            written: Vec::new(),
            responses: responses.into_iter().collect(),
        }
    }
}

impl AtTransport for MockTransport {
    fn open(&mut self) -> Result<(), AtctlError> {
        self.opened = true;
        Ok(())
    }

    fn close(&mut self) -> Result<(), AtctlError> {
        self.opened = false;
        Ok(())
    }

    fn write_command(&mut self, command: &str) -> Result<(), AtctlError> {
        if !self.opened {
            return Err(AtctlError::Transport("mock transport is closed".into()));
        }
        self.written.push(command.to_string());
        Ok(())
    }

    fn read_response(&mut self, _timeout_ms: u64) -> Result<Vec<u8>, AtctlError> {
        if !self.opened {
            return Err(AtctlError::Transport("mock transport is closed".into()));
        }
        self.responses.pop_front().ok_or(AtctlError::Timeout)
    }

    fn pause(&mut self, _millis: u64) {}
}

#[derive(Default)]
struct MemoryLines {
    lines: Vec<RawLogLine>,
}

impl RawLogLineWriter for &mut MemoryLines {
    fn validate_target(&mut self, _path: &str) -> Result<(), AtctlError> {
        Ok(())
    }

    fn create_line(&mut self, _path: &str, line: &RawLogLine) -> Result<(), AtctlError> {
        self.lines.push(line.clone());
        Ok(())
    }

    fn append_line(&mut self, _path: &str, line: &RawLogLine) -> Result<(), AtctlError> {
        self.lines.push(line.clone());
        Ok(())
    }
}

fn builtin(name: &str) -> Sequence {
    builtins()
        .into_iter()
        .find(|sequence| sequence.name == name)
        .unwrap()
}

fn param(name: &str, value: &str) -> SequenceParamValue {
    SequenceParamValue {
        name: name.to_owned(),
        value: value.to_owned(),
    }
}

#[test]
fn sms_send_sequence_waits_for_prompt_writes_payload_and_masks_params() {
    let sequence = builtin("sms-send-check");
    let mut transport = AtLink::new(MockTransport::with_responses([
        b"\r\nOK\r\n".to_vec(),
        b"\r\n> ".to_vec(),
        b"\r\n+CMGS: 12\r\n\r\nOK\r\n".to_vec(),
    ]));
    let params = vec![
        param("recipient", "+819012345678"),
        param("message", "hello from atctl"),
    ];
    let execution =
        execute_sequence(&sequence, &params, &mut transport, 30_000, true, &mut RawLogLink::new(NoRawLog)).unwrap();

    assert_eq!(execution.status, AtStatus::OK);
    assert!(execution.masked_transcript.contains("+819*******78"));
    assert!(!execution.masked_transcript.contains("+819012345678"));
    assert!(!execution.masked_transcript.contains("hello from atctl"));
    assert!(execution.masked_transcript.contains("+CMGS"));
    assert!(execution.masked_transcript.contains("submit evidence"));
    assert!(execution.masked_transcript.contains("Command:"));
    assert!(execution.masked_transcript.contains("Payload:"));
    assert!(execution.masked_transcript.contains("Modem response:"));
    assert!(execution.masked_transcript.contains("Notes:"));
    assert!(execution
        .masked_transcript
        .contains("Step 1/3 Set SMS text mode\n\nCommand:\n> AT+CMGF=1\n\nModem response:"));
    assert!(execution.masked_transcript.contains(
        "Notes:\n- +CMGS plus OK is SMS submit evidence, not destination handset receipt proof.\n\nResult: OK duration="
    ));
    assert!(!execution.masked_transcript.contains("Command:\n\n>"));
    assert!(!execution.masked_transcript.contains("\n\n\n"));
    assert!(!execution.masked_transcript.contains("-----"));
    assert!(!execution.masked_transcript.contains("Evidence:"));
}

#[test]
fn sms_read_sequence_decodes_ucs2_body_and_masks_normal_output() {
    let sequence = builtin("sms-read-message");
    let mut transport = AtLink::new(MockTransport::with_responses([
        b"\r\nOK\r\n".to_vec(),
        b"\r\n+CMGR: \"REC READ\",\"901001\",,\"26/06/23,06:03:02+00\"\r\n00680065006C006C006F002100200073006F007200610063006F006D\r\n\r\nOK\r\n"
            .to_vec(),
    ]));
    let params = vec![param("index", "3")];
    let execution =
        execute_sequence(&sequence, &params, &mut transport, 30_000, true, &mut RawLogLink::new(NoRawLog)).unwrap();

    assert!(execution
        .raw_transcript
        .contains("SMS body (ucs2): hello! soracom"));
    assert!(execution.raw_transcript.contains("Decoded SMS:"));
    assert!(!execution.raw_transcript.contains("Decoded SMS body"));
    assert!(!execution.raw_transcript.contains("00680065006C006C"));
    assert!(execution
        .masked_transcript
        .contains("SMS body (ucs2): <masked sensitive body>"));
    assert!(execution.masked_transcript.contains("Decoded SMS:"));
    assert!(!execution.masked_transcript.contains("Evidence:"));
    assert!(!execution.masked_transcript.contains("hello! soracom"));
    assert!(!execution.masked_transcript.contains("00680065006C006C"));
}

#[test]
fn sms_receive_sequence_decodes_listed_bodies_in_unmasked_transcript() {
    let sequence = builtin("sms-receive-check");
    let mut transport = AtLink::new(MockTransport::with_responses([
        b"\r\nOK\r\n".to_vec(),
        b"\r\n+CMGL: 3,\"REC UNREAD\",\"901001\",,\"26/06/23,06:03:02+00\"\r\n00680065006C006C006F002100200073006F007200610063006F006D\r\n\r\nOK\r\n"
            .to_vec(),
    ]));
    let execution =
        execute_sequence(&sequence, &[], &mut transport, 30_000, true, &mut RawLogLink::new(NoRawLog)).unwrap();

    assert!(execution
        .raw_transcript
        .contains("SMS body (ucs2): hello! soracom"));
    assert!(!execution.raw_transcript.contains("00680065006C006C"));
    assert!(execution
        .masked_transcript
        .contains("SMS body (ucs2): <masked sensitive body>"));
    assert!(execution.masked_transcript.contains("Decoded SMS:"));
    assert!(!execution.masked_transcript.contains("Evidence:"));
    assert!(!execution.masked_transcript.contains("hello! soracom"));
    assert!(!execution.masked_transcript.contains("00680065006C006C"));
    let candidate_set = execution
        .value_candidate_sets
        .iter()
        .find(|set| set.candidate == SequenceCandidateSource::SmsMessage)
        .expect("sms candidate set");
    assert_eq!(candidate_set.candidates.len(), 1);
    let candidate = &candidate_set.candidates[0];
    assert_eq!(candidate.value, "3");
    assert!(candidate.raw_label.contains("REC UNREAD"));
    assert!(candidate.raw_label.contains("901001"));
    assert!(candidate.raw_label.contains("26/06/23,06:03:02+00"));
    assert!(candidate.raw_label.contains("hello! soracom"));
    assert!(candidate.masked_label.contains("90****"));
    assert!(candidate.masked_label.contains("<masked sensitive body>"));
}

#[test]
fn value_candidate_sets_extract_sms_and_standard_pdp_candidates() {
    let text = "AT+CGACT?\r\n\
+CGACT: 1,1\r\n\
+CGACT: 2,0\r\n\
AT+CGDCONT?\r\n\
+CGDCONT: 1,\"IP\",\"soracom.io\",\"0.0.0.0\",0,0,0,0\r\n\
OK\r\n";

    let sets = value_candidate_sets_from_text(text);
    let pdp = sets
        .iter()
        .find(|set| set.candidate == SequenceCandidateSource::PdpContext)
        .expect("pdp candidates");
    assert!(pdp.candidates.iter().any(|candidate| {
        candidate.value == "1"
            && candidate.raw_label.contains("active")
            && candidate.raw_label.contains("soracom.io")
    }));
    assert!(pdp
        .candidates
        .iter()
        .any(|candidate| { candidate.value == "2" && candidate.raw_label.contains("inactive") }));
}

#[test]
fn sms_reply_sequence_reads_sender_before_submit() {
    let sequence = builtin("sms-reply-check");
    let mut transport = AtLink::new(MockTransport::with_responses([
        b"\r\nOK\r\n".to_vec(),
        b"\r\n+CMGR: \"REC READ\",\"901001\",,\"26/06/23,06:03:02+00\"\r\n0074006500730074\r\n\r\nOK\r\n"
            .to_vec(),
        b"\r\n> ".to_vec(),
        b"\r\n+CMGS: 12\r\n\r\nOK\r\n".to_vec(),
    ]));
    let params = vec![param("index", "3"), param("message", "reply text")];
    let execution =
        execute_sequence(&sequence, &params, &mut transport, 30_000, true, &mut RawLogLink::new(NoRawLog)).unwrap();

    assert!(execution.raw_transcript.contains("> AT+CMGR=3"));
    assert!(execution.raw_transcript.contains("> AT+CMGS=\"901001\""));
    assert!(!execution.masked_transcript.contains("> AT+CMGS=\"901001\""));
    assert!(execution
        .masked_transcript
        .contains("Reply recipient is the sender extracted"));
}

#[test]
fn missing_required_param_is_rejected_before_transport() {
    let sequence = builtin("sms-send-check");

    let error = validate_and_bind_params(&sequence, &[]).unwrap_err();

    assert!(matches!(
        error,
        AtctlError::MissingSequenceParam { param, .. } if param == "recipient"
    ));
}

#[test]
fn missing_select_param_includes_resolution_hint() {
    let sequence = builtin("sms-read-message");

    let error = validate_and_bind_params(&sequence, &[]).unwrap_err();

    assert!(error.message().contains("sms-receive-check"));
    assert!(error.message().contains("AT+CMGL"));
}

#[test]
fn raw_log_records_each_sequence_exchange() {
    let sequence = builtin("sms-send-check");
    let mut transport = AtLink::new(MockTransport::with_responses([
        b"\r\nOK\r\n".to_vec(),
        b"\r\n> ".to_vec(),
        b"\r\n+CMGS: 12\r\n\r\nOK\r\n".to_vec(),
    ]));
    let params = vec![
        param("recipient", "+819012345678"),
        param("message", "hello from atctl"),
    ];
    let mut lines = MemoryLines::default();
    {
        let raw_log = RawLogSink::create(
            RawLogConfig::new("case.rawlog", "cli", "sequence:sms"),
            &mut lines,
        )
        .unwrap();
        execute_sequence(&sequence, &params, &mut transport, 30_000, true, &mut RawLogLink::new(raw_log)).unwrap();
    }

    let names = lines
        .lines
        .iter()
        .filter_map(|line| match line {
            RawLogLine::Exchange { command_name, .. } => command_name.clone(),
            _ => None,
        })
        .collect::<Vec<_>>();
    assert!(matches!(lines.lines[0], RawLogLine::Header { .. }));
    assert!(names.contains(&"set-text-mode".to_owned()));
    assert!(names.contains(&"write-message".to_owned()));
    assert!(lines.lines.iter().any(|line| matches!(
        line,
        RawLogLine::Exchange { tx_preview, .. } if tx_preview.contains("hello from atctl")
    )));
}

#[test]
fn sequence_transport_failure_surfaces_the_transport_error() {
    let sequence = builtin("sms-receive-check");
    let mut transport = AtLink::new(MockTransport::with_responses([b"\r\nOK\r\n".to_vec()]));

    let result = execute_sequence(&sequence, &[], &mut transport, 30_000, true, &mut RawLogLink::new(NoRawLog));

    match result {
        Ok(execution) => assert_ne!(execution.status, AtStatus::OK),
        Err(error) => assert!(matches!(error, AtctlError::Timeout)),
    }
}

#[test]
fn raw_log_ack_requires_exact_value() {
    assert!(require_raw_log_ack(Some(RAW_LOG_ACK)).is_ok());
    assert!(matches!(require_raw_log_ack(None), Err(AtctlError::RawLogAckRequired)));
    assert!(matches!(
        require_raw_log_ack(Some("yes")),
        Err(AtctlError::RawLogAckMismatch { .. })
    ));
}

// The Quectel and SORACOM example sequences, written out as values.

fn blank_step(id: &str, label: &str) -> SequenceStep {
    SequenceStep {
        id: id.to_owned(),
        label: Some(label.to_owned()),
        ensure_pdp_context_active: None,
        send: None,
        expect: None,
        expect_prompt: None,
        expect_urc: None,
        payload: None,
        terminator: StepTerminator::NoTerminator,
        require_tcp_ack: false,
        require_ping_success: false,
        timeout_secs: None,
        evidence: None,
        cleanup_on_failure: None,
    }
}

fn pdp_step(context: &str) -> SequenceStep {
    SequenceStep {
        ensure_pdp_context_active: Some(context.to_owned()),
        ..blank_step("ensure-pdp-context", "Ensure PDP context")
    }
}

fn sequence_param(name: &str, label: &str, sensitive: bool, default_value: Option<&str>) -> SequenceParam {
    SequenceParam {
        name: name.to_owned(),
        label: label.to_owned(),
        required: default_value.is_none(),
        sensitive,
        default_value: default_value.map(str::to_owned),
        source: SequenceParamSource::User,
        candidate: None,
        hint: None,
    }
}

fn example_sequence(
    name: &str,
    title: &str,
    params: Vec<SequenceParam>,
    review_items: Vec<SequenceReviewItem>,
    steps: Vec<SequenceStep>,
) -> Sequence {
    Sequence {
        name: name.to_owned(),
        summary: format!("{name} example"),
        declared_risk: RiskLevel::Write,
        risk: RiskLevel::Write,
        origin: SequenceOrigin::File {
            title: title.to_owned(),
            path: "examples/sequences".to_owned(),
            description: None,
        },
        categories: vec!["network".to_owned()],
        timeout_secs: None,
        before_running: Vec::new(),
        params,
        review_items,
        success_notes: Vec::new(),
        steps,
    }
}

fn tcp_steps() -> Vec<SequenceStep> {
    vec![
        pdp_step("{{context_id}}"),
        SequenceStep {
            send: Some("AT+QIOPEN={{context_id}},{{connect_id}},\"TCP\",\"{{host}}\",{{port}},0,0".to_owned()),
            expect: Some("OK".to_owned()),
            expect_urc: Some("+QIOPEN: {{connect_id}},0".to_owned()),
            cleanup_on_failure: Some("AT+QICLOSE={{connect_id}}".to_owned()),
            ..blank_step("open-socket", "Open TCP socket")
        },
        SequenceStep {
            send: Some("AT+QISEND={{connect_id}},{{payload_len}}".to_owned()),
            expect_prompt: Some(">".to_owned()),
            ..blank_step("start-send", "Start TCP send")
        },
        SequenceStep {
            payload: Some("{{payload}}".to_owned()),
            expect: Some("SEND OK".to_owned()),
            evidence: Some(
                "SEND OK means the Quectel module accepted the payload for sending; the peer's acknowledgement is checked next."
                    .to_owned(),
            ),
            ..blank_step("write-payload", "Write payload")
        },
        SequenceStep {
            send: Some("AT+QISEND={{connect_id}},0".to_owned()),
            expect: Some("+QISEND:".to_owned()),
            require_tcp_ack: true,
            ..blank_step("check-ack", "Check TCP acknowledgement")
        },
        SequenceStep {
            send: Some("AT+QIRD={{connect_id}},{{read_length}}".to_owned()),
            expect: Some("OK".to_owned()),
            ..blank_step("read-response", "Read TCP response")
        },
        SequenceStep {
            send: Some("AT+QICLOSE={{connect_id}}".to_owned()),
            expect: Some("OK".to_owned()),
            ..blank_step("close-socket", "Close TCP socket")
        },
    ]
}

fn quectel_tcp_sequence() -> Sequence {
    example_sequence(
        "quectel-tcp-send-check",
        "Quectel sequences",
        vec![
            sequence_param("context_id", "PDP context id", false, None),
            sequence_param("connect_id", "Socket id", false, None),
            sequence_param("host", "Host", false, None),
            sequence_param("port", "Port", false, None),
            sequence_param("payload", "Payload", true, None),
            sequence_param("read_length", "Read length", false, None),
        ],
        Vec::new(),
        tcp_steps(),
    )
}

fn ping_step(host: &str) -> SequenceStep {
    SequenceStep {
        send: Some(format!("AT+QPING=1,\"{host}\",4,4")),
        expect_urc: Some("+QPING:".to_owned()),
        require_ping_success: true,
        ..blank_step("ping", "Ping host")
    }
}

fn quectel_ping_sequence() -> Sequence {
    example_sequence(
        "quectel-ping-check",
        "Quectel sequences",
        vec![sequence_param("host", "Host", false, None)],
        Vec::new(),
        vec![pdp_step("1"), ping_step("{{host}}")],
    )
}

fn soracom_ping_sequence() -> Sequence {
    example_sequence(
        "soracom-ping-check",
        "SORACOM sequences",
        Vec::new(),
        Vec::new(),
        vec![pdp_step("1"), ping_step("pong.soracom.io")],
    )
}

fn soracom_unified_endpoint_sequence() -> Sequence {
    let mut steps = tcp_steps();
    steps[1].send = Some(
        "AT+QIOPEN={{context_id}},{{connect_id}},\"TCP\",\"unified.soracom.io\",23080,0,0".to_owned(),
    );
    example_sequence(
        "soracom-unified-endpoint-tcp-send-check",
        "SORACOM sequences",
        vec![
            sequence_param("context_id", "PDP context id", false, Some("1")),
            sequence_param("connect_id", "Socket id", false, Some("0")),
            sequence_param("payload", "Payload", true, None),
            sequence_param("read_length", "Read length", false, Some("1500")),
        ],
        vec![
            SequenceReviewItem {
                label: "Destination".to_owned(),
                value: "unified.soracom.io:23080".to_owned(),
                sensitive: false,
            },
            SequenceReviewItem {
                label: "Read length".to_owned(),
                value: "{{read_length}}".to_owned(),
                sensitive: false,
            },
        ],
        steps,
    )
}

fn tcp_params() -> Vec<SequenceParamValue> {
    vec![
        param("context_id", "1"),
        param("connect_id", "0"),
        param("host", "192.0.2.1"),
        param("port", "8009"),
        param("payload", "ping"),
        param("read_length", "1500"),
    ]
}

#[test]
fn quectel_sequence_waits_for_urc_and_send_ok() {
    let sequence = quectel_tcp_sequence();
    let mut transport = AtLink::new(MockTransport::with_responses([
        b"\r\n+QIACT: 1,1,1,\"10.0.0.1\"\r\n\r\nOK\r\n".to_vec(),
        b"\r\nOK\r\n\r\n+QIOPEN: 0,0\r\n".to_vec(),
        b"\r\n> ".to_vec(),
        b"\r\nSEND OK\r\n".to_vec(),
        b"\r\n+QISEND: 4,4,0\r\n\r\nOK\r\n".to_vec(),
        b"\r\n+QIRD: 0\r\n\r\nOK\r\n".to_vec(),
        b"\r\nOK\r\n".to_vec(),
    ]));
    let execution =
        execute_sequence(&sequence, &tcp_params(), &mut transport, 30_000, true, &mut RawLogLink::new(NoRawLog)).unwrap();

    assert!(execution.masked_transcript.contains("+QIOPEN: 0,0"));
    assert!(execution.raw_transcript.contains("> AT+QIACT?"));
    assert!(!execution.raw_transcript.contains("> AT+QIACT=1"));
    assert!(execution.masked_transcript.contains("Quectel PDP context 1 is already active"));
    assert!(execution.masked_transcript.contains("SEND OK"));
    assert!(execution
        .masked_transcript
        .contains("TCP send counters: total=4 acknowledged=4 unacknowledged=0"));
    assert!(execution.masked_transcript.contains("TCP receive data: no buffered response data"));
    assert!(execution.masked_transcript.contains("Analysis:"));
    assert!(!execution.masked_transcript.contains("Evidence:"));
    assert!(!execution.masked_transcript.contains("ping"));
}

#[test]
fn quectel_sequence_retries_until_tcp_ack_is_complete() {
    let sequence = quectel_tcp_sequence();
    let mut transport = AtLink::new(MockTransport::with_responses([
        b"\r\n+QIACT: 1,1,1,\"10.0.0.1\"\r\n\r\nOK\r\n".to_vec(),
        b"\r\nOK\r\n\r\n+QIOPEN: 0,0\r\n".to_vec(),
        b"\r\n> ".to_vec(),
        b"\r\nSEND OK\r\n".to_vec(),
        b"\r\n+QISEND: 4,0,4\r\n\r\nOK\r\n".to_vec(),
        b"\r\n+QISEND: 4,4,0\r\n\r\nOK\r\n".to_vec(),
        b"\r\n+QIRD: 0\r\n\r\nOK\r\n".to_vec(),
        b"\r\nOK\r\n".to_vec(),
    ]));
    let execution =
        execute_sequence(&sequence, &tcp_params(), &mut transport, 30_000, true, &mut RawLogLink::new(NoRawLog)).unwrap();

    assert_eq!(execution.status, AtStatus::OK);
    assert!(execution
        .raw_transcript
        .contains("TCP send counters: total=4 acknowledged=0 unacknowledged=4"));
    assert!(execution
        .raw_transcript
        .contains("TCP send counters: total=4 acknowledged=4 unacknowledged=0"));
    assert_eq!(execution.raw_transcript.matches("Command:\n> AT+QISEND=0,0").count(), 2);
}

#[test]
fn quectel_sequence_fails_when_tcp_ack_remains_incomplete() {
    let sequence = quectel_tcp_sequence();
    let mut transport = AtLink::new(MockTransport::with_responses([
        b"\r\n+QIACT: 1,1,1,\"10.0.0.1\"\r\n\r\nOK\r\n".to_vec(),
        b"\r\nOK\r\n\r\n+QIOPEN: 0,0\r\n".to_vec(),
        b"\r\n> ".to_vec(),
        b"\r\nSEND OK\r\n".to_vec(),
        b"\r\n+QISEND: 4,0,4\r\n\r\nOK\r\n".to_vec(),
        b"\r\nOK\r\n".to_vec(),
    ]));
    let execution =
        execute_sequence(&sequence, &tcp_params(), &mut transport, 1_000, true, &mut RawLogLink::new(NoRawLog)).unwrap();

    assert_eq!(execution.status, AtStatus::Error);
    assert!(execution.raw_transcript.contains("TCP acknowledgement incomplete for payload_len=4"));
    assert!(execution.raw_transcript.contains("Result: failed duration="));
    assert!(execution.raw_transcript.contains("Cleanup after Open TCP socket"));
    assert!(execution.raw_transcript.contains("> AT+QICLOSE=0"));
}

#[test]
fn quectel_ping_sequence_reports_received_replies() {
    let sequence = quectel_ping_sequence();
    let mut transport = AtLink::new(MockTransport::with_responses([
        b"\r\n+QIACT: 1,1,1,\"10.0.0.1\"\r\n\r\nOK\r\n".to_vec(),
        b"\r\nOK\r\n".to_vec(),
        b"\r\n+QPING: 0,\"93.184.216.34\",32,120,255\r\n\r\n+QPING: 0,4,1,3,120,120,120\r\n\r\nOK\r\n"
            .to_vec(),
    ]));
    let params = vec![param("host", "example.com")];
    let execution =
        execute_sequence(&sequence, &params, &mut transport, 30_000, true, &mut RawLogLink::new(NoRawLog)).unwrap();

    assert_eq!(execution.status, AtStatus::OK);
    assert!(execution.raw_transcript.contains("> AT+QPING=1,\"example.com\",4,4"));
    assert!(execution
        .raw_transcript
        .contains("Ping reply: host=93.184.216.34 bytes=32 time_ms=120 ttl=255"));
    assert!(execution.raw_transcript.contains("Ping summary: sent=4 received=1 lost=3"));
}

#[test]
fn quectel_ping_sequence_fails_without_received_replies() {
    let sequence = quectel_ping_sequence();
    let mut transport = AtLink::new(MockTransport::with_responses([
        b"\r\n+QIACT: 1,1,1,\"10.0.0.1\"\r\n\r\nOK\r\n".to_vec(),
        b"\r\n+QPING: 0,4,0,4,0,0,0\r\n\r\nOK\r\n".to_vec(),
    ]));
    let params = vec![param("host", "example.com")];
    let execution =
        execute_sequence(&sequence, &params, &mut transport, 30_000, true, &mut RawLogLink::new(NoRawLog)).unwrap();

    assert_eq!(execution.status, AtStatus::Error);
    assert!(execution
        .raw_transcript
        .contains("ping received no replies sent=4 received=0 lost=4"));
    assert!(execution.raw_transcript.contains("Result: failed duration="));
}

#[test]
fn soracom_ping_sequence_uses_ping_response_service() {
    let sequence = soracom_ping_sequence();
    let mut transport = AtLink::new(MockTransport::with_responses([
        b"\r\n+QIACT: 1,1,1,\"10.0.0.1\"\r\n\r\nOK\r\n".to_vec(),
        b"\r\n+QPING: 0,\"100.127.100.127\",32,88,255\r\n\r\n+QPING: 0,4,1,3,88,88,88\r\n\r\nOK\r\n"
            .to_vec(),
    ]));
    let execution =
        execute_sequence(&sequence, &[], &mut transport, 30_000, true, &mut RawLogLink::new(NoRawLog)).unwrap();

    assert_eq!(execution.status, AtStatus::OK);
    assert!(execution.raw_transcript.contains("> AT+QPING=1,\"pong.soracom.io\",4,4"));
    assert!(!execution.raw_transcript.contains("beam.soracom.io"));
}

#[test]
fn quectel_sequence_activates_inactive_pdp_context_before_socket_open() {
    let sequence = quectel_tcp_sequence();
    let mut transport = AtLink::new(MockTransport::with_responses([
        b"\r\n+QIACT: 1,0,1,\"0.0.0.0\"\r\n\r\nOK\r\n".to_vec(),
        b"\r\nOK\r\n".to_vec(),
        b"\r\nOK\r\n\r\n+QIOPEN: 0,0\r\n".to_vec(),
        b"\r\n> ".to_vec(),
        b"\r\nSEND OK\r\n".to_vec(),
        b"\r\n+QISEND: 4,4,0\r\n\r\nOK\r\n".to_vec(),
        b"\r\n+QIRD: 0\r\n\r\nOK\r\n".to_vec(),
        b"\r\nOK\r\n".to_vec(),
    ]));
    let execution =
        execute_sequence(&sequence, &tcp_params(), &mut transport, 30_000, true, &mut RawLogLink::new(NoRawLog)).unwrap();

    assert_eq!(execution.status, AtStatus::OK);
    assert!(execution.raw_transcript.contains("> AT+QIACT?"));
    assert!(execution.raw_transcript.contains("> AT+QIACT=1"));
    assert!(execution.masked_transcript.contains("AT+QIACT=1 activated it"));
}

#[test]
fn quectel_sequence_cleans_up_open_socket_after_later_failure() {
    let sequence = quectel_tcp_sequence();
    let mut transport = AtLink::new(MockTransport::with_responses([
        b"\r\n+QIACT: 1,1,1,\"10.0.0.1\"\r\n\r\nOK\r\n".to_vec(),
        b"\r\nOK\r\n\r\n+QIOPEN: 0,0\r\n".to_vec(),
        b"\r\n> ".to_vec(),
        b"\r\nERROR\r\n".to_vec(),
        b"\r\nOK\r\n".to_vec(),
    ]));
    let execution =
        execute_sequence(&sequence, &tcp_params(), &mut transport, 30_000, true, &mut RawLogLink::new(NoRawLog)).unwrap();

    assert_eq!(execution.status, AtStatus::Error);
    assert!(execution.raw_transcript.contains("Step 4/7 Write payload"));
    assert!(execution.raw_transcript.contains("Modem response:\nERROR"));
    assert!(execution.raw_transcript.contains("Cleanup after Open TCP socket"));
    assert!(execution.raw_transcript.contains("> AT+QICLOSE=0"));
    assert!(execution.raw_transcript.contains("Result: failed duration="));
    assert!(execution
        .raw_transcript
        .contains("step `write-payload` did not produce expected marker `SEND OK`"));
    assert!(!execution
        .raw_transcript
        .contains("SEND OK means the Quectel module accepted"));
    let written = &transport.transport().written;
    let close_at = written.iter().position(|w| w == "AT+QICLOSE=0\r").unwrap();
    assert_eq!(close_at, written.len() - 1);
}

#[test]
fn quectel_sequence_surfaces_socket_open_terminal_error_in_transcript() {
    let sequence = quectel_tcp_sequence();
    let mut transport = AtLink::new(MockTransport::with_responses([
        b"\r\n+QIACT: 1,1,1,\"10.0.0.1\"\r\n\r\nOK\r\n".to_vec(),
        b"\r\nERROR\r\n".to_vec(),
    ]));
    let execution =
        execute_sequence(&sequence, &tcp_params(), &mut transport, 30_000, true, &mut RawLogLink::new(NoRawLog)).unwrap();

    assert_eq!(execution.status, AtStatus::Error);
    assert!(execution.raw_transcript.contains("Step 2/7 Open TCP socket"));
    assert!(execution.raw_transcript.contains("Modem response:\nERROR"));
    assert!(execution
        .raw_transcript
        .contains("step `open-socket` did not produce expected marker `+QIOPEN: 0,0`"));
    assert!(!execution.raw_transcript.contains("failed before response"));
}

#[test]
fn sequence_defaults_are_bound_before_review_and_execution() {
    let sequence = soracom_unified_endpoint_sequence();
    let params = vec![param("payload", "hello")];

    let bindings = validate_and_bind_params(&sequence, &params).unwrap();

    assert_eq!(bindings.get("context_id").unwrap().value, "1");
    assert_eq!(bindings.get("connect_id").unwrap().value, "0");
    assert_eq!(bindings.get("read_length").unwrap().value, "1500");
    let review = render_sequence_review(&sequence, &params).unwrap();
    assert!(review
        .iter()
        .any(|item| item.label == "Destination" && item.value == "unified.soracom.io:23080"));
    assert!(review.iter().any(|item| item.label == "Read length" && item.value == "1500"));
}

#[test]
fn tcp_sequence_fixed_length_payload_does_not_append_ctrl_z() {
    let sequence = quectel_tcp_sequence();
    let mut transport = AtLink::new(MockTransport::with_responses([
        b"\r\n+QIACT: 1,1,1,\"10.0.0.1\"\r\n\r\nOK\r\n".to_vec(),
        b"\r\nOK\r\n\r\n+QIOPEN: 0,0\r\n".to_vec(),
        b"\r\n> ".to_vec(),
        b"\r\nSEND OK\r\n".to_vec(),
        b"\r\n+QISEND: 4,4,0\r\n\r\nOK\r\n".to_vec(),
        b"\r\n+QIRD: 0\r\n\r\nOK\r\n".to_vec(),
        b"\r\nOK\r\n".to_vec(),
    ]));
    let mut lines = MemoryLines::default();
    {
        let raw_log = RawLogSink::create(
            RawLogConfig::new("case.rawlog", "cli", "sequence:tcp"),
            &mut lines,
        )
        .unwrap();
        execute_sequence(&sequence, &tcp_params(), &mut transport, 30_000, true, &mut RawLogLink::new(raw_log)).unwrap();
    }

    assert!(lines.lines.iter().any(|line| matches!(
        line,
        RawLogLine::Exchange { command_name: Some(name), tx_preview, .. }
            if name == "write-payload" && tx_preview == "ping"
    )));
    assert!(!lines.lines.iter().any(|line| matches!(
        line,
        RawLogLine::Exchange { tx_preview, .. } if tx_preview.contains("\\x1A")
    )));
    assert!(transport.transport().written.contains(&"ping".to_owned()));
}

#[test]
fn pdp_candidate_labels_list_state_type_and_apn_in_order() {
    let text = "AT+CGACT?\r\n+CGACT: 1,1\r\n+CGACT: 2,0\r\nAT+CGDCONT?\r\n+CGDCONT: 1,\"IP\",\"soracom.io\",\"0.0.0.0\",0,0,0,0\r\nOK\r\n";
    let sets = value_candidate_sets_from_text(text);
    assert_eq!(sets.len(), 1);
    assert_eq!(sets[0].candidate, SequenceCandidateSource::PdpContext);
    let labels = sets[0]
        .candidates
        .iter()
        .map(|c| (c.value.as_str(), c.raw_label.as_str(), c.masked_label.as_str()))
        .collect::<Vec<_>>();
    assert_eq!(
        labels,
        vec![
            ("1", "1  IP  active  soracom.io", "1  IP  active  soracom.io"),
            ("2", "2  inactive", "2  inactive"),
        ]
    );
    assert!(value_candidate_sets_from_text("OK\r\n").is_empty());
}
