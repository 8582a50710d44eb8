use std::collections::VecDeque;

use atctl::at::response::AtStatus;
use atctl::at::risk::{parse_risk_level, DirectSendConfirmation, RiskClassification, RiskLevel};
use atctl::cli::{
    execute_command_with_confirmation, execute_send_with_confirmation, PromptLink,
    execute_send_with_transport, external_preset_source, find_preset, format_preset_list,
    format_send_export_text, format_sequence_export_text, format_sequence_list, load_presets,
    load_sequences, notice_external_definition_without_interactive_confirmation,
    parse_decimal_u8, parse_hex_u16, parse_hex_u8, parse_sequence_param_value,
    preset_classification, prepare_raw_log_config, send_args_from_preset, send_status_result,
    ConfirmationPrompt, DefinitionFiles, DefinitionLink, ExternalDefinitionSource, PresetFileLocationOptions,
    PresetRunArgs, SendArgs, SequenceFileLocationOptions, UsbOptions,
    DEFAULT_COMMAND_TIMEOUT_SECS,
};
use atctl::error::AtctlError;
use atctl::log::raw::{
    NoRawLog, NoRawLogFiles, RawLogConfig, RawLogExchange, RawLogFiles, RawLogRecorder,
    RawLogTransportError, RAW_LOG_ACK,
};
use atctl::presets::model::{Preset, PresetOrigin};
use atctl::sequences::builtin::builtins as sequence_builtins;
use atctl::sequences::engine::SequenceExecution;
use atctl::sequences::model::Sequence;
use atctl::transport::traits::{AtLink, AtTransport};

#[derive(Debug, Default)]
struct MockTransport {
    opened: bool,
    written: Vec<String>,
    responses: VecDeque<Vec<u8>>,
}

impl MockTransport {
    fn with_response(response: Vec<u8>) -> Self {
        let mut responses = VecDeque::new();
        responses.push_back(response);
        Self {
            opened: true,
            written: Vec::new(),
            responses,
        }
    }
}

impl AtTransport for MockTransport {
    fn open(&mut self) -> Result<(), AtctlError> {
        self.opened = true;
        Ok(())
    }

    fn close(&mut self) -> Result<(), AtctlError> {
        self.opened = false;
        Ok(())
    }

    fn write_command(&mut self, command: &str) -> Result<(), AtctlError> {
        if !self.opened {
            return Err(AtctlError::Transport("mock transport is closed".into()));
        }
        self.written.push(command.to_string());
        Ok(())
    }

    fn read_response(&mut self, _timeout_ms: u64) -> Result<Vec<u8>, AtctlError> {
        if !self.opened {
            return Err(AtctlError::Transport("mock transport is closed".into()));
        }
        self.responses.pop_front().ok_or(AtctlError::Timeout)
    }

    fn pause(&mut self, _millis: u64) {}
}

struct FailingOpenTransport;

impl AtTransport for FailingOpenTransport {
    fn open(&mut self) -> Result<(), AtctlError> {
        Err(AtctlError::Transport("target selection failed".to_owned()))
    }

    fn close(&mut self) -> Result<(), AtctlError> {
        Ok(())
    }

    fn write_command(&mut self, _command: &str) -> Result<(), AtctlError> {
        unreachable!("open failure must stop before write")
    }

    fn read_response(&mut self, _timeout_ms: u64) -> Result<Vec<u8>, AtctlError> {
        unreachable!("open failure must stop before read")
    }

    fn pause(&mut self, _millis: u64) {}
}

/// Keeps the sinks it hands out, so a test can read what was recorded.
#[derive(Default)]
struct KeptRawLogFiles {
    existing: Vec<String>,
    created: Vec<RawLogConfig>,
    recorded: std::rc::Rc<std::cell::RefCell<Vec<String>>>,
}

struct SharedSink {
    recorded: std::rc::Rc<std::cell::RefCell<Vec<String>>>,
}

impl RawLogRecorder for SharedSink {
    fn append_exchange(&mut self, exchange: RawLogExchange) -> Result<(), AtctlError> {
        self.recorded.borrow_mut().push(format!(
            "exchange command={} tx={}",
            exchange.command,
            atctl::log::raw::base64_encode(&exchange.tx_bytes)
        ));
        Ok(())
    }

    fn append_transport_error(&mut self, error: RawLogTransportError) -> Result<(), AtctlError> {
        self.recorded.borrow_mut().push(format!(
            "transport_error stage={} command={} tx={}",
            error.stage,
            error.command,
            atctl::log::raw::base64_encode(&error.tx_bytes)
        ));
        Ok(())
    }
}

impl RawLogFiles for KeptRawLogFiles {
    type Sink = SharedSink;

    fn validate_target(&mut self, path: &str) -> Result<(), AtctlError> {
        if self.existing.iter().any(|existing| existing == path) {
            return Err(AtctlError::RawLogFileExists {
                path: path.to_owned(),
            });
        }
        Ok(())
    }

    fn create(&mut self, config: &RawLogConfig) -> Result<SharedSink, AtctlError> {
        self.validate_target(&config.path)?;
        self.existing.push(config.path.clone());
        self.created.push(config.clone());
        Ok(SharedSink {
            recorded: self.recorded.clone(),
        })
    }
}

struct TestConfirmationPrompt {
    allow: bool,
    calls: usize,
    notices: usize,
}

impl ConfirmationPrompt for TestConfirmationPrompt {
    fn notice_external_definition(
        &mut self,
        _external_source: ExternalDefinitionSource<'_>,
    ) -> Result<(), AtctlError> {
        self.notices += 1;
        Ok(())
    }

    fn confirm(
        &mut self,
        classification: &RiskClassification,
        _external_source: Option<ExternalDefinitionSource<'_>>,
    ) -> Result<(), AtctlError> {
        self.calls += 1;
        if self.allow {
            Ok(())
        } else {
            Err(AtctlError::ConfirmationRequired {
                risk: classification.risk,
            })
        }
    }
}

impl ConfirmationPrompt for &mut TestConfirmationPrompt {
    fn notice_external_definition(
        &mut self,
        external_source: ExternalDefinitionSource<'_>,
    ) -> Result<(), AtctlError> {
        (**self).notice_external_definition(external_source)
    }

    fn confirm(
        &mut self,
        classification: &RiskClassification,
        external_source: Option<ExternalDefinitionSource<'_>>,
    ) -> Result<(), AtctlError> {
        (**self).confirm(classification, external_source)
    }
}

struct NoDefinitionFiles;

impl DefinitionFiles for NoDefinitionFiles {
    fn presets_file(&mut self, _path: &str) -> Result<Vec<Preset>, AtctlError> {
        unreachable!("default locations read no file")
    }

    fn presets_dir(&mut self, _path: &str) -> Result<Vec<Preset>, AtctlError> {
        unreachable!("default locations read no directory")
    }

    fn sequences_file(&mut self, _path: &str) -> Result<Vec<Sequence>, AtctlError> {
        unreachable!("default locations read no file")
    }

    fn sequences_dir(&mut self, _path: &str) -> Result<Vec<Sequence>, AtctlError> {
        unreachable!("default locations read no directory")
    }
}

fn usb_options(timeout: u64) -> UsbOptions {
    UsbOptions {
        timeout,
        ..UsbOptions::default()
    }
}

fn send_args(command: &str) -> SendArgs {
    SendArgs {
        command: command.to_owned(),
        usb: usb_options(3),
        no_mask: false,
        no_log: false,
        export_response: None,
        raw_log_file: None,
        raw_log_ack: None,
        json: false,
        ignore_at_error: false,
        yes: false,
        risk_ack: None,
    }
}

fn preset_run_args(name: &str) -> PresetRunArgs {
    PresetRunArgs {
        name: name.to_owned(),
        usb: usb_options(3),
        no_mask: false,
        no_log: false,
        export_response: None,
        raw_log_file: None,
        raw_log_ack: None,
        json: false,
        ignore_at_error: false,
        yes: false,
        risk_ack: None,
        preset_locations: PresetFileLocationOptions::default(),
    }
}

fn execution_for(name: &str, masked: &str, raw: &str) -> SequenceExecution {
    SequenceExecution {
        name: name.to_owned(),
        risk: RiskLevel::Write,
        status: AtStatus::OK,
        steps: Vec::new(),
        masked_notes: Vec::new(),
        raw_notes: Vec::new(),
        value_candidate_sets: Vec::new(),
        masked_transcript: masked.to_owned(),
        raw_transcript: raw.to_owned(),
        duration_ms: 1,
    }
}

#[test]
fn parses_hex_vid_pid_with_or_without_prefix() {
    assert_eq!(parse_hex_u16("0x2c7c"), Ok(0x2c7c));
    assert_eq!(parse_hex_u16("0125"), Ok(0x0125));
}

#[test]
fn parses_endpoint_overrides() {
    assert_eq!(parse_decimal_u8("2"), Ok(2));
    assert_eq!(parse_hex_u8("0x85"), Ok(0x85));
    assert_eq!(parse_hex_u8("04"), Ok(0x04));
}

#[test]
fn builds_manual_endpoint_override_when_all_values_are_present() {
    let usb = UsbOptions {
        interface_number: Some(parse_decimal_u8("2").unwrap()),
        bulk_in: Some(parse_hex_u8("0x85").unwrap()),
        bulk_out: Some(parse_hex_u8("04").unwrap()),
        ..UsbOptions::default()
    };

    let pair = usb.manual_endpoint_pair().unwrap().unwrap();
    assert_eq!(pair.interface_number, 2);
    assert_eq!(pair.bulk_in, 0x85);
    assert_eq!(pair.bulk_out, 0x04);
}

#[test]
fn rejects_partial_manual_endpoint_override() {
    let usb = UsbOptions {
        bulk_in: Some(parse_hex_u8("0x85").unwrap()),
        ..UsbOptions::default()
    };

    let error = usb.manual_endpoint_pair().unwrap_err();
    assert!(error.message().contains("--interface"));
}

#[test]
fn rejects_endpoint_override_with_wrong_directions() {
    let usb = UsbOptions {
        interface_number: Some(2),
        bulk_in: Some(0x05),
        bulk_out: Some(0x04),
        ..UsbOptions::default()
    };
    assert_eq!(
        usb.manual_endpoint_pair().unwrap_err().message(),
        "invalid value for --bulk-in: endpoint address 0x05 is not IN"
    );

    let usb = UsbOptions {
        interface_number: Some(2),
        bulk_in: Some(0x85),
        bulk_out: Some(0x84),
        ..UsbOptions::default()
    };
    assert_eq!(
        usb.manual_endpoint_pair().unwrap_err().message(),
        "invalid value for --bulk-out: endpoint address 0x84 is not OUT"
    );
    assert_eq!(UsbOptions::default().manual_endpoint_pair(), Ok(None));
}

#[test]
fn accepts_risk_ack_values() {
    assert_eq!(parse_risk_level("dangerous"), Ok(RiskLevel::Dangerous));
}

#[test]
fn rejects_malformed_hex_and_decimal_values() {
    assert_eq!(
        parse_hex_u16("0x12345"),
        Err("expected hexadecimal u16 value, got 0x12345".to_owned())
    );
    assert_eq!(
        parse_hex_u8("0xg1"),
        Err("expected hexadecimal u8 value, got 0xg1".to_owned())
    );
    assert_eq!(
        parse_decimal_u8("256"),
        Err("expected decimal u8 value, got 256".to_owned())
    );
    assert_eq!(parse_hex_u16(" 0X2C7C "), Ok(0x2c7c));
}

#[test]
fn parses_sequence_param_values_at_the_first_equals_sign() {
    let value = parse_sequence_param_value(" message =a=b").unwrap();
    assert_eq!(value.name, "message");
    assert_eq!(value.value, "a=b");
    assert_eq!(
        parse_sequence_param_value("message").unwrap_err(),
        "expected NAME=VALUE, got message"
    );
    assert_eq!(
        parse_sequence_param_value(" =value").unwrap_err(),
        "parameter name must not be empty"
    );
}

#[test]
fn user_command_timeout_defaults_to_thirty_seconds() {
    assert_eq!(DEFAULT_COMMAND_TIMEOUT_SECS, 30);
}

#[test]
fn formats_sequence_list_with_sms_product_sequences() {
    let output = format_sequence_list(&sequence_builtins());

    assert!(output.contains(
        "name\tsequence-set\tdeclared-risk\teffective-risk\ttimeout-secs\tcategories\trequired-params\tsummary\tsource-path"
    ));
    assert!(output.contains("sms-send-check\tProduct Sequences\twrite\twrite\t180\tsms\trecipient(sensitive),message(sensitive)"));
    assert!(output.contains("Send a standard SMS and report modem submit evidence.\t-"));
    assert!(output.contains("sms-receive-check\tProduct Sequences\twrite\twrite\t120\tsms"));
    assert!(output.contains(
        "sms-read-message\tProduct Sequences\twrite\twrite\t120\tsms\tindex(select,sms-message)"
    ));
    assert!(output.contains(
        "sms-reply-check\tProduct Sequences\twrite\twrite\t180\tsms\tindex(select,sms-message),message(sensitive)"
    ));
}

#[test]
fn sequence_text_export_includes_identity_and_selected_transcript() {
    let execution = execution_for("sms-send-check", "masked transcript", "raw transcript");

    assert_eq!(
        format_sequence_export_text(&execution, true),
        "Sequence: sms-send-check\n\nmasked transcript\n"
    );
    assert_eq!(
        format_sequence_export_text(&execution, false),
        "Sequence: sms-send-check\n\nraw transcript\n"
    );
}

#[test]
fn default_sequence_locations_load_only_product_sequences() {
    let sequences =
        load_sequences(&SequenceFileLocationOptions::default(), &mut DefinitionLink::new(NoDefinitionFiles)).unwrap();
    let names = sequences
        .iter()
        .map(|sequence| sequence.name.as_str())
        .collect::<Vec<_>>();

    assert!(names.contains(&"sms-send-check"));
    assert!(names.contains(&"sms-receive-check"));
    assert!(!names.contains(&"file-sequence"));
    assert!(!names.contains(&"dir-sequence"));
}

#[test]
fn default_preset_locations_load_only_product_presets() {
    let presets =
        load_presets(&PresetFileLocationOptions::default(), &mut DefinitionLink::new(NoDefinitionFiles)).unwrap();
    let names = presets
        .iter()
        .map(|preset| preset.name.as_str())
        .collect::<Vec<_>>();

    assert!(names.contains(&"modem-response"));
    assert!(!names.contains(&"file-modem-response"));
    assert!(!names.contains(&"dir-signal"));
}

#[test]
fn formats_preset_list_with_risk_categories_and_command() {
    let presets = vec![Preset::new(
        "custom-modem-response",
        "AT",
        RiskLevel::Safe,
        vec!["custom".to_owned()],
        PresetOrigin::file("Custom commands", "presets.toml", None),
    )];

    let output = format_preset_list(&presets);

    assert!(output.contains(
        "name\tpreset-set\tdeclared-risk\teffective-risk\ttimeout-secs\tcategories\tcommand\tsource-path"
    ));
    assert!(output.contains(
        "custom-modem-response\tCustom commands\tsafe\tsafe\t-\tcustom\tAT\tpresets.toml"
    ));
}

#[test]
fn formats_product_preset_list_label() {
    let presets = vec![Preset::new(
        "modem-response",
        "AT",
        RiskLevel::Safe,
        vec!["basic".to_owned()],
        PresetOrigin::BuiltIn,
    )];

    let output = format_preset_list(&presets);

    assert!(output.contains("modem-response\tProduct presets\tsafe\tsafe\t-\tbasic\tAT"));
    assert!(output.contains("modem-response\tProduct presets\tsafe\tsafe\t-\tbasic\tAT\t-"));
    assert!(!output.contains("Built-in presets"));
}

#[test]
fn preset_lookup_uses_exact_name_instead_of_category() {
    let presets = vec![Preset::new(
        "current-operator",
        "AT+COPS?",
        RiskLevel::Safe,
        vec!["network".to_owned()],
        PresetOrigin::BuiltIn,
    )];

    assert_eq!(
        find_preset(&presets, "current-operator").unwrap().name,
        "current-operator"
    );
    assert!(matches!(
        find_preset(&presets, "network"),
        Err(AtctlError::PresetNotFound { name }) if name == "network"
    ));
}

#[test]
fn preset_execution_uses_explicit_preset_risk() {
    let preset = Preset::new(
        "write-labelled-at",
        "AT",
        RiskLevel::Write,
        Vec::new(),
        PresetOrigin::file("Custom commands", "presets.toml", None),
    );
    let run_args = preset_run_args("write-labelled-at");
    let send_args = send_args_from_preset(&preset, &run_args);
    let mut transport = AtLink::new(MockTransport::with_response(b"\r\nOK\r\n".to_vec()));
    let mut prompt = TestConfirmationPrompt {
        allow: true,
        calls: 0,
        notices: 0,
    };

    let execution = execute_command_with_confirmation(
        &send_args,
        &mut transport,
        &mut PromptLink::new(&mut prompt),
        &mut NoRawLogFiles,
        preset_classification(&preset),
        "preset:write-labelled-at",
        external_preset_source(&preset),
    )
    .unwrap();

    assert_eq!(execution.risk, RiskLevel::Write);
    assert_eq!(prompt.calls, 1);
    assert_eq!(prompt.notices, 0);
}

#[test]
fn file_preset_yes_risk_ack_still_reports_external_notice_before_transport() {
    let preset = Preset::new(
        "write-labelled-at",
        "AT",
        RiskLevel::Write,
        Vec::new(),
        PresetOrigin::file("Custom commands", "presets.toml", None),
    );
    let mut run_args = preset_run_args("write-labelled-at");
    run_args.yes = true;
    run_args.risk_ack = Some(RiskLevel::Write);
    let send_args = send_args_from_preset(&preset, &run_args);
    let mut transport = AtLink::new(MockTransport::with_response(b"\r\nOK\r\n".to_vec()));
    let mut prompt = TestConfirmationPrompt {
        allow: false,
        calls: 0,
        notices: 0,
    };

    let execution = execute_command_with_confirmation(
        &send_args,
        &mut transport,
        &mut PromptLink::new(&mut prompt),
        &mut NoRawLogFiles,
        preset_classification(&preset),
        "preset:write-labelled-at",
        external_preset_source(&preset),
    )
    .unwrap();

    assert_eq!(execution.risk, RiskLevel::Write);
    assert_eq!(prompt.calls, 0);
    assert_eq!(prompt.notices, 1);
}

#[test]
fn external_notice_helper_reports_only_when_confirmation_is_not_interactive() {
    let source = Some(ExternalDefinitionSource {
        label: "Custom commands",
        path: "presets.toml",
    });
    let mut prompt = TestConfirmationPrompt {
        allow: false,
        calls: 0,
        notices: 0,
    };

    notice_external_definition_without_interactive_confirmation(
        &mut PromptLink::new(&mut prompt),
        DirectSendConfirmation::InteractiveRequired {
            risk: RiskLevel::Write,
        },
        source,
    )
    .unwrap();
    assert_eq!(prompt.notices, 0);

    notice_external_definition_without_interactive_confirmation(
        &mut PromptLink::new(&mut prompt),
        DirectSendConfirmation::AutomationBypassApproved,
        source,
    )
    .unwrap();
    assert_eq!(prompt.notices, 1);
}

#[test]
fn preset_timeout_hint_replaces_default_timeout() {
    let preset = Preset::new_with_timeout(
        "long-scan",
        "AT+COPS=?",
        RiskLevel::Safe,
        Vec::new(),
        PresetOrigin::BuiltIn,
        Some(180),
    );
    let mut run_args = preset_run_args("long-scan");
    run_args.usb.timeout = DEFAULT_COMMAND_TIMEOUT_SECS;

    let send_args = send_args_from_preset(&preset, &run_args);

    assert_eq!(send_args.usb.timeout, 180);
}

#[test]
fn explicit_preset_timeout_overrides_timeout_hint() {
    let preset = Preset::new_with_timeout(
        "long-scan",
        "AT+COPS=?",
        RiskLevel::Safe,
        Vec::new(),
        PresetOrigin::BuiltIn,
        Some(180),
    );
    let mut run_args = preset_run_args("long-scan");
    run_args.usb.timeout = 240;

    let send_args = send_args_from_preset(&preset, &run_args);

    assert_eq!(send_args.usb.timeout, 240);
}

#[test]
fn preset_no_log_option_is_forwarded_to_shared_send_execution() {
    let preset = Preset::new(
        "modem-info",
        "ATI",
        RiskLevel::Safe,
        Vec::new(),
        PresetOrigin::BuiltIn,
    );
    let mut run_args = preset_run_args("modem-info");
    run_args.no_log = true;

    let send_args = send_args_from_preset(&preset, &run_args);

    assert!(send_args.no_log);
}

#[test]
fn send_at_uses_transport_and_returns_masked_text_output() {
    let args = send_args("AT");
    let mut transport = AtLink::new(MockTransport::with_response(b"AT\r\r\nOK\r\n".to_vec()));

    let execution = execute_send_with_transport(&args, &mut transport, &mut NoRawLogFiles).unwrap();

    assert_eq!(execution.status, AtStatus::OK);
    assert_eq!(execution.risk, RiskLevel::Safe);
    assert_eq!(execution.text, "AT\r\r\nOK\r\n");
    assert!(send_status_result(&execution, false).is_ok());
}

#[test]
fn send_accepts_successful_mock_response_without_hardware() {
    let args = send_args("AT");
    let mut transport = AtLink::new(MockTransport::with_response(b"\r\nOK\r\n".to_vec()));

    let execution = execute_send_with_transport(&args, &mut transport, &mut NoRawLogFiles).unwrap();

    assert_eq!(execution.status, AtStatus::OK);
}

#[test]
fn send_masks_sensitive_response_by_default() {
    let args = send_args("AT+CIMI");
    let mut transport = AtLink::new(MockTransport::with_response(b"\r\n898110001234567\r\nOK\r\n".to_vec()));

    let execution = execute_send_with_transport(&args, &mut transport, &mut NoRawLogFiles).unwrap();

    assert!(execution.text.contains("89811000*******"));
    assert!(!execution.text.contains("898110001234567"));
}

#[test]
fn send_no_mask_preserves_sensitive_response_for_display() {
    let mut args = send_args("AT+CIMI");
    args.no_mask = true;
    let mut transport = AtLink::new(MockTransport::with_response(b"\r\n898110001234567\r\nOK\r\n".to_vec()));

    let execution = execute_send_with_transport(&args, &mut transport, &mut NoRawLogFiles).unwrap();

    assert!(execution.text.contains("898110001234567"));
    assert!(!execution.masked);
}

#[test]
fn send_export_masks_sensitive_command_values_by_default() {
    let command = "AT+CGAUTH=1,1,\"user\",\"password\"";
    let mut args = send_args(command);
    args.yes = true;
    args.risk_ack = Some(RiskLevel::Write);
    let mut transport = AtLink::new(MockTransport::with_response(b"\r\nOK\r\n".to_vec()));
    let execution = execute_send_with_transport(&args, &mut transport, &mut NoRawLogFiles).unwrap();

    let text = format_send_export_text(command, &execution);

    assert!(!text.contains("user"));
    assert!(!text.contains("password"));
    assert!(text.contains("AT+CGAUTH=1,1"));

    let mut unmasked_args = send_args(command);
    unmasked_args.no_mask = true;
    unmasked_args.yes = true;
    unmasked_args.risk_ack = Some(RiskLevel::Write);
    let mut transport = AtLink::new(MockTransport::with_response(b"\r\nOK\r\n".to_vec()));
    let unmasked_execution =
        execute_send_with_transport(&unmasked_args, &mut transport, &mut NoRawLogFiles).unwrap();
    let unmasked = format_send_export_text(command, &unmasked_execution);
    assert!(unmasked.contains("user"));
    assert!(unmasked.contains("password"));
}

#[test]
fn send_export_includes_command_and_selected_masking_state() {
    let args = send_args("AT+CIMI");
    let mut transport = AtLink::new(MockTransport::with_response(b"\r\n898110001234567\r\nOK\r\n".to_vec()));
    let execution = execute_send_with_transport(&args, &mut transport, &mut NoRawLogFiles).unwrap();

    let text = format_send_export_text(&args.command, &execution);
    assert!(text.starts_with("AT+CIMI\n"));
    assert!(text.contains("89811000*******"));
    assert!(!text.contains("898110001234567"));
}

#[test]
fn send_export_does_not_repeat_an_echoed_command() {
    let args = send_args("at");
    let mut transport = AtLink::new(MockTransport::with_response(b"AT\r\r\nOK\r\n".to_vec()));
    let execution = execute_send_with_transport(&args, &mut transport, &mut NoRawLogFiles).unwrap();

    assert_eq!(format_send_export_text("at", &execution), "AT\r\r\nOK\n");
}

#[test]
fn send_at_error_is_failure_unless_ignored() {
    let args = send_args("AT+EXAMPLE?");
    let mut transport = AtLink::new(MockTransport::with_response(b"\r\nERROR\r\n".to_vec()));

    let execution = execute_send_with_transport(&args, &mut transport, &mut NoRawLogFiles).unwrap();

    assert_eq!(execution.status, AtStatus::Error);
    assert!(matches!(
        send_status_result(&execution, false),
        Err(AtctlError::AtCommandFailed {
            status: AtStatus::Error
        })
    ));
    assert!(send_status_result(&execution, true).is_ok());
}

#[test]
fn send_raw_log_file_writes_raw_exchange_without_changing_masked_display() {
    let mut args = send_args("AT+CIMI");
    args.raw_log_file = Some("case.rawlog".to_owned());
    args.raw_log_ack = Some(RAW_LOG_ACK.to_owned());
    args.yes = true;
    let mut transport = AtLink::new(MockTransport::with_response(b"\r\n898110001234567\r\nOK\r\n".to_vec()));
    let mut files = KeptRawLogFiles::default();

    let execution = execute_send_with_transport(&args, &mut transport, &mut files).unwrap();

    assert!(execution.text.contains("89811000*******"));
    assert!(!execution.text.contains("898110001234567"));
    assert_eq!(files.created.len(), 1);
    assert_eq!(files.created[0].surface, "cli");
    assert_eq!(files.created[0].source, "send");
    assert!(files
        .recorded
        .borrow()
        .iter()
        .any(|line| line.contains("exchange") && line.contains("tx=QVQrQ0lNSQ0=")));
    assert_eq!(execution.raw_text, "\r\n898110001234567\r\nOK\r\n");
}

#[test]
fn send_raw_log_file_requires_acknowledgement() {
    let mut args = send_args("AT");
    args.raw_log_file = Some("case.rawlog".to_owned());
    args.yes = true;
    let mut transport = AtLink::new(MockTransport::with_response(b"\r\nOK\r\n".to_vec()));

    let error = execute_send_with_transport(&args, &mut transport, &mut NoRawLogFiles).unwrap_err();

    assert!(matches!(error, AtctlError::RawLogAckRequired));
}

#[test]
fn send_raw_log_file_refuses_overwrite() {
    let mut args = send_args("AT");
    args.raw_log_file = Some("case.rawlog".to_owned());
    args.raw_log_ack = Some(RAW_LOG_ACK.to_owned());
    args.yes = true;
    let mut transport = AtLink::new(MockTransport::with_response(b"\r\nOK\r\n".to_vec()));
    let mut files = KeptRawLogFiles {
        existing: vec!["case.rawlog".to_owned()],
        ..KeptRawLogFiles::default()
    };

    let error = execute_send_with_transport(&args, &mut transport, &mut files).unwrap_err();

    assert!(matches!(error, AtctlError::RawLogFileExists { .. }));
}

#[test]
fn send_raw_log_file_is_not_created_when_transport_open_fails() {
    let mut args = send_args("AT+COPS?");
    args.raw_log_file = Some("case.rawlog".to_owned());
    args.raw_log_ack = Some(RAW_LOG_ACK.to_owned());
    args.yes = true;
    let mut files = KeptRawLogFiles::default();

    let error = execute_send_with_transport(&args, &mut AtLink::new(FailingOpenTransport), &mut files).unwrap_err();

    assert!(error.message().contains("target selection failed"));
    assert!(files.created.is_empty());
}

#[test]
fn send_raw_log_file_records_transport_error_when_response_is_missing() {
    let mut args = send_args("AT+COPS?");
    args.raw_log_file = Some("case.rawlog".to_owned());
    args.raw_log_ack = Some(RAW_LOG_ACK.to_owned());
    args.yes = true;
    let mut mock = MockTransport::default();
    mock.opened = true;
    let mut transport = AtLink::new(mock);
    let mut files = KeptRawLogFiles::default();

    let error = execute_send_with_transport(&args, &mut transport, &mut files).unwrap_err();

    assert!(matches!(error, AtctlError::Timeout));
    let recorded = files.recorded.borrow();
    assert!(recorded.iter().any(|line| line.contains("transport_error")
        && line.contains("stage=read_response")
        && line.contains("command=AT+COPS?")
        && line.contains("tx=QVQrQ09QUz8N")));
}

#[test]
fn send_write_command_requires_confirmation_without_yes() {
    let args = send_args("ATE0");
    let mut transport = AtLink::new(MockTransport::with_response(b"\r\nOK\r\n".to_vec()));

    let error = execute_send_with_transport(&args, &mut transport, &mut NoRawLogFiles).unwrap_err();

    assert!(matches!(
        error,
        AtctlError::ConfirmationRequired {
            risk: RiskLevel::Write
        }
    ));
}

#[test]
fn send_write_command_runs_after_interactive_confirmation() {
    let args = send_args("ATE0");
    let mut transport = AtLink::new(MockTransport::with_response(b"\r\nOK\r\n".to_vec()));
    let mut prompt = TestConfirmationPrompt {
        allow: true,
        calls: 0,
        notices: 0,
    };

    let execution =
        execute_send_with_confirmation(&args, &mut transport, &mut PromptLink::new(&mut prompt), &mut NoRawLogFiles)
            .unwrap();

    assert_eq!(execution.status, AtStatus::OK);
    assert_eq!(execution.risk, RiskLevel::Write);
    assert_eq!(prompt.calls, 1);
}

#[test]
fn send_write_command_stops_when_interactive_confirmation_is_rejected() {
    let args = send_args("ATE0");
    let mut transport = AtLink::new(MockTransport::with_response(b"\r\nOK\r\n".to_vec()));
    let mut prompt = TestConfirmationPrompt {
        allow: false,
        calls: 0,
        notices: 0,
    };

    let error = execute_send_with_confirmation(&args, &mut transport, &mut PromptLink::new(&mut prompt), &mut NoRawLogFiles)
        .unwrap_err();

    assert_eq!(prompt.calls, 1);
    assert!(matches!(
        error,
        AtctlError::ConfirmationRequired {
            risk: RiskLevel::Write
        }
    ));
}

#[test]
fn send_yes_and_matching_risk_ack_bypass_interactive_confirmation() {
    let mut args = send_args("AT+CFUN=0");
    args.yes = true;
    args.risk_ack = Some(RiskLevel::Dangerous);
    let mut transport = AtLink::new(MockTransport::with_response(b"\r\nOK\r\n".to_vec()));
    let mut prompt = TestConfirmationPrompt {
        allow: false,
        calls: 0,
        notices: 0,
    };

    let execution =
        execute_send_with_confirmation(&args, &mut transport, &mut PromptLink::new(&mut prompt), &mut NoRawLogFiles)
            .unwrap();

    assert_eq!(execution.status, AtStatus::OK);
    assert_eq!(execution.risk, RiskLevel::Dangerous);
    assert_eq!(prompt.calls, 0);
}

#[test]
fn send_risk_ack_without_yes_does_not_bypass_interactive_confirmation() {
    let mut args = send_args("ATE0");
    args.risk_ack = Some(RiskLevel::Write);
    let mut transport = AtLink::new(MockTransport::with_response(b"\r\nOK\r\n".to_vec()));
    let mut prompt = TestConfirmationPrompt {
        allow: true,
        calls: 0,
        notices: 0,
    };

    let execution =
        execute_send_with_confirmation(&args, &mut transport, &mut PromptLink::new(&mut prompt), &mut NoRawLogFiles)
            .unwrap();

    assert_eq!(execution.status, AtStatus::OK);
    assert_eq!(prompt.calls, 1);
}

#[test]
fn send_mismatched_risk_ack_fails_before_transport_access() {
    let mut args = send_args("AT");
    args.yes = true;
    args.risk_ack = Some(RiskLevel::Dangerous);
    let mut transport = AtLink::new(MockTransport::with_response(b"\r\nOK\r\n".to_vec()));

    let error = execute_send_with_transport(&args, &mut transport, &mut NoRawLogFiles).unwrap_err();

    assert!(matches!(
        error,
        AtctlError::RiskAckMismatch {
            classified: RiskLevel::Safe,
            acknowledged: RiskLevel::Dangerous
        }
    ));
}

#[test]
fn send_validates_risk_before_raw_log_option() {
    let mut args = send_args("AT+CFUN=0");
    args.raw_log_file = Some("case.rawlog".to_owned());
    args.yes = true;
    let mut transport = AtLink::new(MockTransport::with_response(b"\r\nOK\r\n".to_vec()));

    let error = execute_send_with_transport(&args, &mut transport, &mut NoRawLogFiles).unwrap_err();

    assert!(matches!(
        error,
        AtctlError::MissingRiskAck {
            risk: RiskLevel::Dangerous
        }
    ));
}

#[test]
fn send_rejects_zero_timeout_before_transport_access() {
    let mut args = send_args("AT");
    args.usb.timeout = 0;
    let mut transport = AtLink::new(MockTransport::with_response(b"\r\nOK\r\n".to_vec()));

    let error = execute_send_with_transport(&args, &mut transport, &mut NoRawLogFiles).unwrap_err();

    assert!(error.message().contains("--timeout"));
}

#[test]
fn raw_log_ack_without_file_is_rejected() {
    let mut args = send_args("AT");
    args.raw_log_ack = Some(RAW_LOG_ACK.to_owned());
    let mut prompt = TestConfirmationPrompt {
        allow: true,
        calls: 0,
        notices: 0,
    };

    let error =
        prepare_raw_log_config(&args, &mut PromptLink::new(&mut prompt), &mut NoRawLogFiles, "send").unwrap_err();

    assert_eq!(
        error.message(),
        "invalid value for --raw-log-ack: requires --raw-log-file"
    );
    args.raw_log_ack = None;
    assert_eq!(
        prepare_raw_log_config(&args, &mut PromptLink::new(&mut prompt), &mut NoRawLogFiles, "send"),
        Ok(None)
    );
}

#[test]
fn unused_raw_log_recorders_accept_everything() {
    let mut sink = NoRawLog;
    assert!(sink
        .append_transport_error(RawLogTransportError {
            command_name: None,
            command: "AT".to_owned(),
            risk: RiskLevel::Safe,
            duration_ms: 0,
            stage: "read_response".to_owned(),
            error: "AT response timed out".to_owned(),
            tx_bytes: b"AT\r".to_vec(),
            rx_bytes: Vec::new(),
        })
        .is_ok());
}

struct OnePresetPerPath;

impl DefinitionFiles for OnePresetPerPath {
    fn presets_file(&mut self, path: &str) -> Result<Vec<Preset>, AtctlError> {
        Ok(vec![file_preset(path)])
    }

    fn presets_dir(&mut self, path: &str) -> Result<Vec<Preset>, AtctlError> {
        Ok(vec![file_preset(path)])
    }

    fn sequences_file(&mut self, _path: &str) -> Result<Vec<Sequence>, AtctlError> {
        Ok(Vec::new())
    }

    fn sequences_dir(&mut self, _path: &str) -> Result<Vec<Sequence>, AtctlError> {
        Ok(Vec::new())
    }
}

fn file_preset(path: &str) -> Preset {
    Preset {
        name: format!("custom-{path}"),
        command: "AT".to_owned(),
        declared_risk: RiskLevel::Safe,
        risk: RiskLevel::Safe,
        origin: PresetOrigin::File { title: "custom".to_owned(), path: path.to_owned(), description: None },
        categories: Vec::new(),
        timeout_secs: None,
    }
}

#[test]
fn file_presets_follow_builtins_files_before_directories() {
    let builtin_count = load_presets(&PresetFileLocationOptions::default(), &mut DefinitionLink::new(NoDefinitionFiles))
        .unwrap()
        .len();
    let locations = PresetFileLocationOptions {
        preset_files: vec!["a".to_owned()],
        preset_dirs: vec!["b".to_owned()],
    };
    let presets = load_presets(&locations, &mut DefinitionLink::new(OnePresetPerPath)).unwrap();
    assert_eq!(presets.len(), builtin_count + 2);
    assert_eq!(presets[builtin_count].name, "custom-a");
    assert_eq!(presets[builtin_count + 1].name, "custom-b");
}
