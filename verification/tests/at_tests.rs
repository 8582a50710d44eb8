use atctl::at::command::{command_with_terminator, normalize_command};
use atctl::at::mask::{mask_identifier, mask_sensitive_values};
use atctl::at::parser::parse_response;
use atctl::at::response::AtStatus;
use atctl::at::risk::{
    classify_direct_command, direct_send_confirmation, is_prompt_required_command,
    validate_direct_send_ack, DirectSendConfirmation, RiskLevel,
};
use atctl::error::AtctlError;

#[test]
fn appends_carriage_return_once() {
    assert_eq!(command_with_terminator("AT"), "AT\r");
    assert_eq!(command_with_terminator("AT\r"), "AT\r");
}

#[test]
fn normalizes_for_classification() {
    assert_eq!(normalize_command(" at+cimi\r\n"), "AT+CIMI");
}

#[test]
fn masks_long_identifiers() {
    assert_eq!(
        mask_sensitive_values("+QCCID: 89811000123456789012"),
        "+QCCID: 89811000************"
    );
}

#[test]
fn masks_qccid_padding_f_as_part_of_sensitive_value() {
    assert_eq!(
        mask_sensitive_values("+QCCID: 8942310020003626445F"),
        "+QCCID: 89423100************"
    );
}

#[test]
fn masks_cgauth_command_credentials() {
    assert_eq!(
        mask_sensitive_values("AT+CGAUTH=1,2,\"sora\",\"sora\""),
        "AT+CGAUTH=1,2,\"****\",\"****\""
    );
}

#[test]
fn masks_cgauth_response_credentials() {
    assert_eq!(
        mask_sensitive_values("+CGAUTH: 1,2,\"custom-user\",\"custom-password\"\nOK"),
        "+CGAUTH: 1,2,\"cust*****er\",\"cust*********rd\"\nOK"
    );
}

#[test]
fn leaves_cgauth_capability_test_plain() {
    assert_eq!(mask_sensitive_values("AT+CGAUTH=?"), "AT+CGAUTH=?");
}

#[test]
fn leaves_cgauth_capability_response_plain() {
    assert_eq!(
        mask_sensitive_values("+CGAUTH: (1-16),(0-3),(0-64),(0-64)"),
        "+CGAUTH: (1-16),(0-3),(0-64),(0-64)"
    );
}

#[test]
fn leaves_short_numbers_plain() {
    assert_eq!(mask_sensitive_values("+CSQ: 18,99"), "+CSQ: 18,99");
}

#[test]
fn masks_identifier_values() {
    assert_eq!(mask_identifier("ABCDEF123456"), "ABCD******56");
    assert_eq!(mask_identifier("1234"), "****");
}

#[test]
fn detects_ok_with_echo() {
    let response = parse_response(b"AT\r\r\nOK\r\n");

    assert_eq!(response.lines, ["AT", "OK"]);
    assert_eq!(response.status, AtStatus::OK);
}

#[test]
fn detects_cme_error() {
    let response = parse_response(b"\r\n+CME ERROR: 10\r\n");

    assert_eq!(response.status, AtStatus::CmeError("+CME ERROR: 10".into()));
}

#[test]
fn preserves_incomplete_payload() {
    let response = parse_response(b"\r\n+QENG: servingcell\r\n");

    assert_eq!(response.status, AtStatus::Incomplete);
    assert!(response.text.contains("+QENG"));
}

#[test]
fn classifies_plain_safe_command() {
    let classification = classify_direct_command("AT");

    assert_eq!(classification.risk, RiskLevel::Safe);
    assert!(!classification.requires_confirmation());
}

#[test]
fn classifies_sensitive_identifier_read() {
    let classification = classify_direct_command("AT+CIMI");

    assert_eq!(classification.risk, RiskLevel::Sensitive);
    assert!(!classification.requires_confirmation());
}

#[test]
fn unknown_read_is_sensitive_by_default() {
    let classification = classify_direct_command("AT+EXAMPLE?");

    assert_eq!(classification.risk, RiskLevel::Sensitive);
    assert!(!classification.requires_confirmation());
}

#[test]
fn classifies_standard_workflow_reads_as_safe() {
    for command in [
        "AT+CGMI",
        "AT+CGMM",
        "AT+CGMR",
        "AT+WS46?",
        "AT+WS46=?",
        "AT+COPS?",
        "AT+COPS=?",
        "AT+CREG?",
        "AT+CEREG?",
        "AT+CGREG?",
        "AT+CEER",
        "AT+CMEE?",
        "AT+CMEE=?",
        "AT+CPAS",
        "AT+CGDCONT?",
        "AT+CGAUTH=?",
        "AT+CFUN?",
        "AT+CGATT?",
        "AT+CGACT?",
        "AT+CGPADDR",
        "AT+CGPADDR=?",
        "AT+CGCONTRDP",
        "AT+CESQ",
        "AT+CESQ=?",
        "AT+CSMS?",
        "AT+CMGF?",
        "AT+CPMS?",
        "AT+QINISTAT",
        "AT+QSPN",
        "AT+QLTS",
    ] {
        assert_eq!(classify_direct_command(command).risk, RiskLevel::Safe);
    }
}

#[test]
fn classifies_known_sensitive_vendor_reads() {
    for command in [
        "AT+CGAUTH?",
        "AT+QCCID",
        "AT+QPINC?",
        "AT+QCFG?",
        "AT+QCFG=\"nwscanmode\"",
        "AT+QMBNCFG=\"List\"",
    ] {
        assert_eq!(classify_direct_command(command).risk, RiskLevel::Sensitive);
    }
}

#[test]
fn classifies_verbose_error_reporting_as_write() {
    let classification = classify_direct_command("AT+CMEE=2");

    assert_eq!(classification.risk, RiskLevel::Write);
    assert!(classification.requires_confirmation());
}

#[test]
fn classifies_known_sms_and_socket_operations_as_write_or_sensitive() {
    for command in [
        "AT+CMGF=1",
        "AT+CMGS=\"+819012345678\"",
        "AT+CMGL=\"ALL\"",
        "AT+QIACT=1",
        "AT+QIOPEN=1,0,\"TCP\",\"192.0.2.1\",8009,0,0",
        "AT+QISEND=0,4",
        "AT+QICLOSE=0",
        "AT+QPING=1,\"pong.soracom.io\",4,4",
    ] {
        assert_eq!(
            classify_direct_command(command).risk,
            RiskLevel::Write,
            "{command}"
        );
    }

    assert_eq!(
        classify_direct_command("AT+QIRD=0,1500").risk,
        RiskLevel::Sensitive
    );
}

#[test]
fn classifies_connectivity_runtime_changes_as_write() {
    for command in [
        "AT+CGAUTH=1,2,\"sora\",\"sora\"",
        "AT+WS46=28",
        "AT+COPS=3,2",
        "AT+COPS=0",
        "AT+CREG=2",
        "AT+CGREG=2",
        "AT+CEREG=5",
    ] {
        let classification = classify_direct_command(command);

        assert_eq!(classification.risk, RiskLevel::Write, "{command}");
        assert!(classification.requires_confirmation(), "{command}");
    }
}

#[test]
fn stricter_risk_preserves_higher_enforcement() {
    assert_eq!(
        RiskLevel::Sensitive.stricter(RiskLevel::Write),
        RiskLevel::Write
    );
    assert_eq!(
        RiskLevel::Dangerous.stricter(RiskLevel::Safe),
        RiskLevel::Dangerous
    );
}

#[test]
fn detects_sms_prompt_required_commands() {
    assert!(is_prompt_required_command("AT+CMGS=\"+819012345678\""));
    assert!(is_prompt_required_command("AT+CMGW"));
    assert!(!is_prompt_required_command("AT+CMGF?"));
}

#[test]
fn dangerous_command_requires_matching_ack() {
    for command in ["AT+CFUN=0", "AT+CFUN=1", "AT+CFUN=1,1", "AT+QPOWD"] {
        let classification = classify_direct_command(command);

        assert_eq!(classification.risk, RiskLevel::Dangerous);
        assert!(
            validate_direct_send_ack(&classification, true, Some(RiskLevel::Dangerous)).is_ok()
        );
        assert!(matches!(
            validate_direct_send_ack(&classification, true, Some(RiskLevel::Write)),
            Err(AtctlError::RiskAckMismatch { .. })
        ));
    }
}

#[test]
fn mismatched_ack_is_rejected_even_when_confirmation_is_not_required() {
    let classification = classify_direct_command("AT");

    assert!(matches!(
        validate_direct_send_ack(&classification, true, Some(RiskLevel::Dangerous)),
        Err(AtctlError::RiskAckMismatch { .. })
    ));
}

#[test]
fn yes_without_risk_ack_is_rejected() {
    let classification = classify_direct_command("AT+CGDCONT=1,\"IP\",\"soracom.io\"");

    assert_eq!(classification.risk, RiskLevel::Write);
    assert!(matches!(
        validate_direct_send_ack(&classification, true, None),
        Err(AtctlError::MissingRiskAck { .. })
    ));
}

#[test]
fn risky_command_without_yes_requires_interactive_confirmation() {
    let classification = classify_direct_command("AT+CGDCONT=1,\"IP\",\"soracom.io\"");

    assert_eq!(
        direct_send_confirmation(&classification, false, None).unwrap(),
        DirectSendConfirmation::InteractiveRequired {
            risk: RiskLevel::Write
        }
    );
}
