use atctl::at::risk::RiskLevel;
use atctl::error::AtctlError;
use atctl::cli::{log_device_selection, source_label, UsbOptions};
use atctl::log::history::{log_listings, LogListingKind};
use atctl::log::session::{timestamp_from_unix, CommandLogRecord, LogTimestamp};
use atctl::paths::{
    default_config_path, default_config_path_display, default_state_dir, expand_tilde_path, history_path, join_path,
    name_order, normal_logging_paths, resolve_state_dir, response_export_path, response_label_slug,
};
use atctl::sequences::builtin::builtins;
use atctl::sequences::definition::SequenceDefinition;
use atctl::sequences::loader::{
    sequences_from_file_definitions, validate_step_completion_contract,
    validate_unique_sequence_names,
};
use atctl::presets::loader::validate_unique_preset_names;
use atctl::presets::model::{Preset, PresetOrigin};
use atctl::sequences::model::{
    Sequence, SequenceOrigin, SequenceParam, SequenceParamSource, SequenceReviewItem, SequenceStep,
    StepTerminator,
};
use atctl::transport::inspect::{
    inspection_lines, UsbConfigurationInspection, UsbInspection, UsbSettingInspection,
};
use atctl::transport::usb::{
    candidate_sort_key, EndpointDescriptor, EndpointDirection, EndpointTransferType, UsbDeviceInfo, sort_endpoint_candidates, EndpointCandidate, EndpointPair,
    EndpointSelection,
};

fn step(id: &str, send: &str) -> SequenceStep {
    SequenceStep {
        id: id.to_owned(),
        label: None,
        ensure_pdp_context_active: None,
        send: Some(send.to_owned()),
        expect: None,
        expect_prompt: None,
        expect_urc: None,
        payload: None,
        terminator: StepTerminator::NoTerminator,
        require_tcp_ack: false,
        require_ping_success: false,
        timeout_secs: None,
        evidence: None,
        cleanup_on_failure: None,
    }
}

fn pair(interface_number: u8, alternate_setting: u8, bulk_in: u8, bulk_out: u8) -> EndpointPair {
    EndpointPair {
        interface_number,
        alternate_setting: Some(alternate_setting),
        bulk_in,
        bulk_out,
        selection: EndpointSelection::DescriptorShape,
    }
}

#[test]
fn built_in_sequences_keep_product_origin_after_definition_conversion() {
    let sequences = builtins();
    let names = sequences
        .iter()
        .map(|sequence| sequence.name.as_str())
        .collect::<Vec<_>>();

    assert_eq!(
        names,
        vec![
            "sms-send-check",
            "sms-receive-check",
            "sms-read-message",
            "sms-reply-check"
        ]
    );
    assert!(sequences
        .iter()
        .all(|sequence| sequence.origin == SequenceOrigin::BuiltIn));
}

#[test]
fn converts_definition_into_origin_aware_sequence() {
    let mut first = step("set-text-mode", "AT+CMGF=1");
    first.label = Some("Set SMS text mode".to_owned());
    first.expect = Some("OK".to_owned());
    first.timeout_secs = Some(30);
    let sequence = SequenceDefinition::new(
        "sms-send-check",
        "Send an SMS.",
        RiskLevel::Write,
        vec!["sms".to_owned()],
        Some(180),
        vec![SequenceParam {
            name: "message".to_owned(),
            label: "Message body".to_owned(),
            required: true,
            sensitive: true,
            default_value: None,
            source: SequenceParamSource::User,
            candidate: None,
            hint: Some("Enter the SMS body.".to_owned()),
        }],
        vec![first],
    )
    .with_before_running(vec!["Confirm SIM state before sending.".to_owned()])
    .with_review_items(vec![SequenceReviewItem {
        label: "Message body".to_owned(),
        value: "{{message}}".to_owned(),
        sensitive: true,
    }])
    .with_success_notes(vec!["+CMGS plus OK is SMS submit evidence.".to_owned()])
    .into_sequence(SequenceOrigin::BuiltIn);

    assert_eq!(sequence.name, "sms-send-check");
    assert_eq!(sequence.origin, SequenceOrigin::BuiltIn);
    assert_eq!(sequence.categories, vec!["sms"]);
    assert_eq!(sequence.timeout_secs, Some(180));
    assert_eq!(sequence.before_running.len(), 1);
    assert_eq!(sequence.params.len(), 1);
    assert_eq!(sequence.review_items.len(), 1);
    assert_eq!(sequence.success_notes.len(), 1);
    assert_eq!(sequence.steps.len(), 1);
}

#[test]
fn parses_sequence_file() {
    let mut send = step("send", "AT+EXAMPLE={{payload}}");
    send.ensure_pdp_context_active = Some("1".to_owned());
    send.expect = Some("OK".to_owned());
    send.timeout_secs = Some(30);
    send.evidence = Some("Custom evidence for {{payload}}.".to_owned());
    send.cleanup_on_failure = Some("AT+EXAMPLECLOSE".to_owned());
    let definition = SequenceDefinition::new(
        "custom-sequence",
        "Custom check.",
        RiskLevel::Write,
        vec!["data".to_owned()],
        Some(180),
        vec![SequenceParam {
            name: "payload".to_owned(),
            label: "Payload".to_owned(),
            required: true,
            sensitive: true,
            default_value: None,
            source: SequenceParamSource::User,
            candidate: None,
            hint: Some("Enter the payload to send.".to_owned()),
        }],
        vec![send],
    )
    .with_review_items(vec![SequenceReviewItem {
        label: "Payload".to_owned(),
        value: "{{payload}}".to_owned(),
        sensitive: true,
    }])
    .with_success_notes(vec!["Custom note for {{payload}}.".to_owned()]);

    let sequences =
        sequences_from_file_definitions("Custom Sequences", None, "<inline>", vec![definition])
            .unwrap();

    assert_eq!(sequences.len(), 1);
    assert_eq!(sequences[0].name, "custom-sequence");
    assert_eq!(sequences[0].origin.label(), "Custom Sequences");
    assert_eq!(sequences[0].params[0].name, "payload");
    assert_eq!(sequences[0].params[0].source, SequenceParamSource::User);
    assert_eq!(
        sequences[0].params[0].hint.as_deref(),
        Some("Enter the payload to send.")
    );
    assert_eq!(sequences[0].review_items[0].label, "Payload");
    assert_eq!(sequences[0].success_notes[0], "Custom note for {{payload}}.");
    assert_eq!(
        sequences[0].steps[0].evidence.as_deref(),
        Some("Custom evidence for {{payload}}.")
    );
    assert_eq!(
        sequences[0].steps[0].ensure_pdp_context_active.as_deref(),
        Some("1")
    );
    assert_eq!(
        sequences[0].steps[0].cleanup_on_failure.as_deref(),
        Some("AT+EXAMPLECLOSE")
    );
    assert_eq!(sequences[0].risk, RiskLevel::Unknown);
}

#[test]
fn rejects_ping_success_steps_that_only_wait_for_ok() {
    let mut ping = step("ping", "AT+QPING=1,\"example.com\",4,4");
    ping.expect = Some("OK".to_owned());
    ping.require_ping_success = true;
    let definition = SequenceDefinition::new(
        "bad-ping",
        "Bad ping.",
        RiskLevel::Write,
        Vec::new(),
        None,
        Vec::new(),
        vec![ping],
    );

    let error =
        sequences_from_file_definitions("Custom Sequences", None, "<inline>", vec![definition])
            .unwrap_err();

    assert!(error.contains("invalid Sequence `bad-ping` step `ping`"));
    assert!(error.contains("expect_urc"));
    assert!(error.contains("+QPING:"));
}

#[test]
fn rejects_tcp_ack_steps_without_qisend_counter_marker() {
    let mut ack = step("ack", "AT+QISEND=0,0");
    ack.expect = Some("OK".to_owned());
    ack.require_tcp_ack = true;
    let definition = SequenceDefinition::new(
        "bad-tcp-ack",
        "Bad TCP ack.",
        RiskLevel::Write,
        Vec::new(),
        None,
        Vec::new(),
        vec![ack],
    );

    let error =
        sequences_from_file_definitions("Custom Sequences", None, "<inline>", vec![definition])
            .unwrap_err();

    assert!(error.contains("invalid Sequence `bad-tcp-ack` step `ack`"));
    assert!(error.contains("+QISEND:"));
}

#[test]
fn accepts_completion_markers_that_wait_for_results() {
    let mut ping = step("ping", "AT+QPING=1,\"example.com\",4,4");
    ping.expect_urc = Some("+QPING: 0,4,4".to_owned());
    ping.require_ping_success = true;
    assert_eq!(validate_step_completion_contract("ping-check", &ping), Ok(()));

    let mut ping_without_urc = step("ping", "AT+QPING=1,\"example.com\",4,4");
    ping_without_urc.require_ping_success = true;
    assert_eq!(
        validate_step_completion_contract("ping-check", &ping_without_urc).unwrap_err(),
        "invalid Sequence `ping-check` step `ping`: require_ping_success requires expect_urc containing \"+QPING:\" so the step waits for ping result lines"
    );

    let mut ack = step("ack", "AT+QISEND=0,0");
    ack.expect_urc = Some("+QISEND:".to_owned());
    ack.require_tcp_ack = true;
    assert_eq!(validate_step_completion_contract("tcp", &ack), Ok(()));
}

#[test]
fn rejects_duplicate_sequence_names() {
    let mut first = step("at", "AT");
    first.expect = Some("OK".to_owned());
    let mut second = step("at", "AT");
    second.expect = Some("OK".to_owned());
    let sequences = vec![
        Sequence::new(
            "sms-send-check",
            "A.",
            RiskLevel::Write,
            Vec::new(),
            SequenceOrigin::BuiltIn,
            None,
            Vec::new(),
            vec![first],
        ),
        Sequence::new(
            "sms-send-check",
            "B.",
            RiskLevel::Safe,
            Vec::new(),
            SequenceOrigin::file("Custom Sequences", "custom.toml", None),
            None,
            Vec::new(),
            vec![second],
        ),
    ];

    assert!(matches!(
        validate_unique_sequence_names(&sequences),
        Err(AtctlError::DuplicateSequence { name, .. }) if name == "sms-send-check"
    ));
    assert_eq!(
        validate_unique_sequence_names(&sequences),
        Err(AtctlError::DuplicateSequence {
            name: "sms-send-check".to_owned(),
            first_source: "built-in-sequences".to_owned(),
            duplicate_source: "file:custom.toml".to_owned(),
        })
    );
    assert!(validate_unique_sequence_names(&builtins()).is_ok());
}

#[test]
fn rejects_duplicate_preset_names() {
    let presets = vec![
        Preset::new(
            "modem-response",
            "AT",
            RiskLevel::Safe,
            Vec::new(),
            PresetOrigin::BuiltIn,
        ),
        Preset::new(
            "modem-response",
            "AT+CSQ",
            RiskLevel::Safe,
            Vec::new(),
            PresetOrigin::file("Custom commands", "custom.toml", None),
        ),
    ];

    assert!(matches!(
        validate_unique_preset_names(&presets),
        Err(AtctlError::DuplicatePreset { name, .. }) if name == "modem-response"
    ));
}

#[test]
fn sorts_candidates_by_configuration_interface_alt_and_out_endpoint() {
    let candidates = [
        EndpointCandidate {
            configuration_value: 1,
            pair: pair(3, 1, 0x85, 0x04),
        },
        EndpointCandidate {
            configuration_value: 1,
            pair: pair(2, 0, 0x82, 0x01),
        },
        EndpointCandidate {
            configuration_value: 2,
            pair: pair(0, 0, 0x81, 0x01),
        },
    ];

    let candidates = sort_endpoint_candidates(&candidates);

    assert_eq!(candidates[0].pair.interface_number, 2);
    assert_eq!(candidates[1].pair.interface_number, 3);
    assert_eq!(candidates[2].configuration_value, 2);
}

#[test]
fn candidate_order_is_stable_for_equal_keys() {
    let first = EndpointCandidate {
        configuration_value: 1,
        pair: EndpointPair {
            alternate_setting: None,
            ..pair(2, 0, 0x81, 0x01)
        },
    };
    let second = EndpointCandidate {
        configuration_value: 1,
        pair: pair(2, 0, 0x83, 0x01),
    };
    assert_eq!(candidate_sort_key(&first), candidate_sort_key(&second));

    let sorted = sort_endpoint_candidates(&[second, first]);

    assert_eq!(sorted, vec![second, first]);
}

#[test]
fn uses_absolute_xdg_state_home() {
    let path = resolve_state_dir(
        Some("/tmp/atctl-state".to_owned()),
        Some("/Users/example".to_owned()),
    )
    .unwrap();
    assert_eq!(path, "/tmp/atctl-state/atctl");
}

#[test]
fn uses_home_fallback_when_xdg_state_home_is_unset_empty_or_relative() {
    let home = Some("/Users/example".to_owned());
    for xdg in [None, Some(String::new()), Some("relative/state".to_owned())] {
        assert_eq!(
            resolve_state_dir(xdg, home.clone()).unwrap(),
            "/Users/example/.local/state/atctl"
        );
    }
}

#[test]
fn rejects_missing_or_relative_home_without_absolute_xdg_state_home() {
    for home in [None, Some(String::new()), Some("relative/home".to_owned())] {
        assert!(matches!(
            resolve_state_dir(None, home),
            Err(AtctlError::StateDirectoryUnavailable)
        ));
    }
}

#[test]
fn expands_tilde_paths() {
    assert_eq!(
        expand_tilde_path("~/example", Some("/home/me".to_owned())),
        "/home/me/example"
    );
    assert_eq!(expand_tilde_path("~/example", None), "~/example");
    assert_eq!(expand_tilde_path("~", Some("/home/me".to_owned())), "/home/me");
    assert_eq!(expand_tilde_path("/etc/atctl", Some("/home/me".to_owned())), "/etc/atctl");
}

#[test]
fn config_and_state_paths_follow_xdg_and_home() {
    assert_eq!(default_config_path(None, None), "~/.config/atctl/config.toml");
    assert_eq!(
        default_config_path(Some("/xdg".to_owned()), Some("/home/me".to_owned())),
        "/xdg/atctl/config.toml"
    );
    assert_eq!(
        default_state_dir(None, Some("/home/me/".to_owned())),
        "/home/me/.local/state/atctl"
    );
    assert_eq!(
        default_state_dir(Some(String::new()), Some("/home/me".to_owned())),
        "/home/me/.local/state/atctl"
    );
    assert_eq!(
        default_state_dir(Some("relative".to_owned()), Some("/home/me".to_owned())),
        "/home/me/.local/state/atctl"
    );
    assert_eq!(
        default_state_dir(Some("/xdg/state".to_owned()), Some("/home/me".to_owned())),
        "/xdg/state/atctl"
    );
}

#[test]
fn joins_paths_as_unix_paths_do() {
    assert_eq!(join_path("/a", "b"), "/a/b");
    assert_eq!(join_path("/a/", "b"), "/a/b");
    assert_eq!(join_path("/a", "/b"), "/b");
    assert_eq!(join_path("", "b"), "b");
    assert_eq!(history_path("/state"), "/state/history.jsonl");
}

#[test]
fn response_export_uses_meaningful_exclusive_private_file() {
    let path = response_export_path(
        "/tmp/exports",
        "Command: modem-response",
        "2026-07-13T08-22-19-123456789Z",
    );
    assert_eq!(
        path,
        "/tmp/exports/command-modem-response-2026-07-13T08-22-19-123456789Z.response.txt"
    );
}

#[test]
fn response_label_slug_collapses_separators_and_falls_back() {
    assert_eq!(response_label_slug("  --- "), "response");
    assert_eq!(response_label_slug("Sequence: SMS Send!!"), "sequence-sms-send");
    assert_eq!(response_label_slug(&"A".repeat(70)), "a".repeat(64));
}

#[test]
fn formats_utc_timestamps_for_display_and_file_names() {
    let timestamp: LogTimestamp = timestamp_from_unix(1_735_689_600, 1);
    assert_eq!(timestamp.display(), "2025-01-01T00:00:00Z");
    assert_eq!(timestamp.file_stem(), "2025-01-01T00-00-00-000000001Z");

    let leap = timestamp_from_unix(951_825_599, 0);
    assert_eq!(leap.display(), "2000-02-29T11:59:59Z");

    let before_epoch = timestamp_from_unix(-1, 0);
    assert_eq!(before_epoch.display(), "1969-12-31T23:59:59Z");
}

#[test]
fn no_log_skips_normal_logging_path_resolution() {
    assert!(normal_logging_paths(true, None, None).unwrap().is_none());
    let paths = normal_logging_paths(false, None, Some("/home/me".to_owned()))
        .unwrap()
        .unwrap();
    assert_eq!(paths.state_dir, "/home/me/.local/state/atctl");
    assert_eq!(paths.session_dir, "/home/me/.local/state/atctl/logs");
    assert!(matches!(
        normal_logging_paths(false, None, None),
        Err(AtctlError::StateDirectoryUnavailable)
    ));
}

#[test]
fn log_records_keep_device_options_in_hex_and_mask_values() {
    let usb = UsbOptions {
        vid: Some(0x2c7c),
        pid: Some(0x0125),
        bulk_in: Some(0x85),
        bulk_out: Some(0x04),
        interface_number: Some(2),
        timeout: 3,
        ..UsbOptions::default()
    };
    let device = log_device_selection(&usb);
    assert_eq!(device.requested_vendor_id.as_deref(), Some("0x2c7c"));
    assert_eq!(device.requested_product_id.as_deref(), Some("0x0125"));
    assert_eq!(device.bulk_in.as_deref(), Some("0x85"));
    assert_eq!(device.bulk_out.as_deref(), Some("0x04"));
    assert_eq!(device.interface, Some(2));
    assert_eq!(device.requested_bus, None);

    let record = CommandLogRecord {
        timestamp: timestamp_from_unix(1_735_689_600, 1),
        source: source_label("preset", "imsi"),
        command: "AT+CIMI".to_owned(),
        risk: RiskLevel::Sensitive,
        status: atctl::at::response::AtStatus::OK,
        duration_ms: 12,
        response: "\r\n898110001234567\r\nOK\r\n".to_owned(),
        device,
    };
    assert_eq!(record.source, "preset:imsi");
    assert!(record.masked_response().contains("89811000*******"));
    assert!(!record.masked_response().contains("898110001234567"));
    assert_eq!(record.masked_command(), "AT+CIMI");
}

#[test]
fn lists_session_logs_newest_first_after_history() {
    let listings = log_listings(
        Some("/state/history.jsonl".to_owned()),
        vec![
            "/state/logs/2026-06-18T01-27-14-928781000Z.session.log".to_owned(),
            "/state/logs/ignored.txt".to_owned(),
            "/state/logs/2026-06-18T04-02-06-343794000Z.session.log".to_owned(),
        ],
    );
    let paths = listings
        .iter()
        .map(|listing| listing.path.as_str())
        .collect::<Vec<_>>();

    assert_eq!(
        paths,
        vec![
            "/state/history.jsonl",
            "/state/logs/2026-06-18T04-02-06-343794000Z.session.log",
            "/state/logs/2026-06-18T01-27-14-928781000Z.session.log",
        ]
    );
    assert_eq!(listings[0].kind, LogListingKind::History);
    assert_eq!(listings[1].kind, LogListingKind::Session);
    assert_eq!(listings[2].kind, LogListingKind::Session);
    assert_eq!(LogListingKind::Session.as_str(), "session");
    assert!(log_listings(None, Vec::new()).is_empty());
}

#[test]
fn definition_files_are_read_in_name_order() {
    let paths = vec![
        "/defs/modem-b.toml".to_owned(),
        "/defs/00-base.toml".to_owned(),
        "/defs/modem-a.toml".to_owned(),
        "/defs/Z.toml".to_owned(),
    ];
    assert_eq!(name_order(&paths), vec![1, 3, 2, 0]);
    assert_eq!(name_order(&Vec::new()), Vec::<usize>::new());
}

#[test]
fn default_config_display_keeps_user_facing_tilde_without_xdg() {
    assert_eq!(
        default_config_path_display(None, Some("/home/user".to_owned())),
        "~/.config/atctl/config.toml"
    );
    assert_eq!(
        default_config_path_display(Some("/xdg/config".to_owned()), Some("/home/user".to_owned())),
        "/xdg/config/atctl/config.toml"
    );
}

#[test]
fn inspection_report_without_devices_lists_the_overrides() {
    let pair = EndpointPair {
        interface_number: 3,
        alternate_setting: None,
        bulk_in: 0x84,
        bulk_out: 0x03,
        selection: EndpointSelection::ManualOverride,
    };
    let lines = inspection_lines(&[], Some(3), Some(&pair));
    assert_eq!(
        lines,
        vec![
            "Manual interface override requested: interface=3".to_owned(),
            "Manual endpoint override requested: selection=manual-override interface=3 bulk-in=0x84 bulk-out=0x03"
                .to_owned(),
            "No matching USB devices found.".to_owned(),
        ]
    );
}

#[test]
fn inspection_report_lists_settings_endpoints_and_shape_candidates() {
    let bulk = |address: u8, direction: EndpointDirection| EndpointDescriptor {
        address,
        direction,
        transfer_type: EndpointTransferType::Bulk,
        max_packet_size: 512,
    };
    let inspection = UsbInspection {
        device: UsbDeviceInfo {
            vendor_id: 0x2c7c,
            product_id: 0x0125,
            bus: 1,
            address: 7,
            class_code: 0xef,
            sub_class_code: 2,
            protocol_code: 1,
            num_configurations: 1,
            manufacturer: Some("Quectel".to_owned()),
            product: Some("EC25".to_owned()),
            serial_number: None,
        },
        configurations: vec![UsbConfigurationInspection {
            configuration_value: 1,
            self_powered: false,
            remote_wakeup: true,
            max_power_ma: 500,
            interfaces: vec![
                UsbSettingInspection {
                    interface_number: 2,
                    alternate_setting: 0,
                    class_code: 0xff,
                    sub_class_code: 0,
                    protocol_code: 0,
                    endpoints: vec![bulk(0x84, EndpointDirection::In), bulk(0x03, EndpointDirection::Out)],
                },
                UsbSettingInspection {
                    interface_number: 4,
                    alternate_setting: 0,
                    class_code: 0xff,
                    sub_class_code: 0xff,
                    protocol_code: 0xff,
                    endpoints: vec![],
                },
            ],
        }],
    };
    let lines = inspection_lines(&[inspection], Some(2), None);
    assert_eq!(
        lines,
        vec![
            "Manual interface override requested: interface=2".to_owned(),
            "Device: EC25 0x2c7c:0x0125 bus=1 address=7".to_owned(),
            "  class=ef/02/01 configurations=1".to_owned(),
            "  Configuration 1: self-powered=false remote-wakeup=true max-power=500mA".to_owned(),
            "    Interface 2 alt 0 manual-interface-override-target class=ff/00/00".to_owned(),
            "      Endpoint 0x84 direction=in transfer=bulk max-packet-size=512".to_owned(),
            "      Endpoint 0x03 direction=out transfer=bulk max-packet-size=512".to_owned(),
            "      Descriptor-shape AT candidate: interface=2 alt=0 bulk-in=0x84 bulk-out=0x03".to_owned(),
            "    Interface 4 alt 0 class=ff/ff/ff".to_owned(),
            "      Endpoints: none".to_owned(),
            "      Descriptor-shape AT candidates: none".to_owned(),
        ]
    );
}
