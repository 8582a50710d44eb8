use atctl::at::risk::RiskLevel;
use atctl::presets::builtin::builtins;
use atctl::presets::definition::{definitions_into_presets, PresetDefinition};
use atctl::presets::model::{Preset, PresetOrigin};

fn builtin_names() -> Vec<String> {
    builtins().into_iter().map(|preset| preset.name).collect::<Vec<_>>()
}

#[test]
fn includes_specified_builtin_presets() {
    let names = builtin_names();

    for expected in [
        "modem-response",
        "disable-command-echo",
        "modem-info",
        "manufacturer",
        "model",
        "firmware-revision",
        "imei",
        "sim-pin-status",
        "imsi",
        "radio-stack",
        "radio-stack-capabilities",
        "current-operator",
        "available-operators",
        "operator-format-numeric",
        "operator-auto-selection",
        "circuit-registration",
        "eps-registration",
        "gprs-registration",
        "enable-circuit-registration-detail",
        "enable-gprs-registration-detail",
        "enable-eps-registration-detail",
        "enable-eps-registration-cause",
        "enable-eps-registration-extended",
        "signal-quality",
        "extended-signal-quality",
        "extended-signal-capabilities",
        "pdp-contexts",
        "pdp-auth-settings",
        "pdp-auth-capabilities",
        "packet-attach",
        "active-pdp-contexts",
        "pdp-addresses",
        "pdp-address-capabilities",
        "pdp-connection-details",
        "extended-error-report",
        "error-reporting-status",
        "enable-verbose-errors",
        "modem-activity-status",
        "sms-service-support",
        "sms-format",
        "sms-storage",
        "modem-functionality",
        "set-modem-minimum-functionality",
        "set-modem-full-functionality",
        "restart-modem",
    ] {
        assert!(names.iter().any(|name| name == expected), "{expected}");
    }
}

#[test]
fn builtin_presets_follow_curated_workflow_order() {
    let names = builtin_names();

    assert_eq!(
        names,
        vec![
            "modem-response",
            "modem-info",
            "manufacturer",
            "model",
            "firmware-revision",
            "imei",
            "sim-pin-status",
            "imsi",
            "radio-stack",
            "radio-stack-capabilities",
            "current-operator",
            "available-operators",
            "operator-format-numeric",
            "operator-auto-selection",
            "circuit-registration",
            "gprs-registration",
            "eps-registration",
            "enable-circuit-registration-detail",
            "enable-gprs-registration-detail",
            "enable-eps-registration-detail",
            "enable-eps-registration-cause",
            "enable-eps-registration-extended",
            "signal-quality",
            "extended-signal-quality",
            "extended-signal-capabilities",
            "pdp-contexts",
            "pdp-auth-settings",
            "pdp-auth-capabilities",
            "packet-attach",
            "active-pdp-contexts",
            "pdp-addresses",
            "pdp-address-capabilities",
            "pdp-connection-details",
            "extended-error-report",
            "error-reporting-status",
            "enable-verbose-errors",
            "modem-activity-status",
            "sms-service-support",
            "sms-format",
            "sms-storage",
            "modem-functionality",
            "set-modem-minimum-functionality",
            "set-modem-full-functionality",
            "restart-modem",
            "disable-command-echo",
        ]
    );
}

#[test]
fn excludes_vendor_and_carrier_file_presets_from_built_ins() {
    let names = builtin_names();

    for not_built_in in [
        "iccid",
        "signal-quectel",
        "network-info-quectel",
        "set-soracom-apn-cid1",
        "serving-cell-quectel",
        "neighbour-cell-quectel",
        "qcfg-list-quectel",
        "sim-init-status-quectel",
        "pin-retries-quectel",
        "network-name-quectel",
        "network-time-quectel",
        "mbn-list-quectel",
        "network-scan-mode-quectel",
        "network-scan-auto-quectel",
        "power-down-quectel",
        "set-soracom-du-apn-cid1",
        "set-soracom-mc-apn-cid1",
        "set-soracom-auth-chap-cid1",
        "set-soracom-auth-pap-cid1",
    ] {
        assert!(
            !names.iter().any(|name| name == not_built_in),
            "{not_built_in} must be loaded from file presets, not built-ins"
        );
    }
}

#[test]
fn available_operators_has_long_timeout_hint() {
    let presets = builtins();
    let preset = presets
        .iter()
        .find(|preset| preset.name == "available-operators")
        .expect("available-operators preset");

    assert_eq!(preset.timeout_secs, Some(180));
}

#[test]
fn converts_definition_into_origin_aware_preset() {
    let preset = PresetDefinition::new(
        "available-operators",
        "AT+COPS=?",
        RiskLevel::Safe,
        &["network"],
    )
    .with_timeout(180)
    .into_preset(PresetOrigin::BuiltIn);

    assert_eq!(preset.name, "available-operators");
    assert_eq!(preset.command, "AT+COPS=?");
    assert_eq!(preset.declared_risk, RiskLevel::Safe);
    assert_eq!(preset.origin, PresetOrigin::BuiltIn);
    assert_eq!(preset.categories, vec!["network"]);
    assert_eq!(preset.timeout_secs, Some(180));
}

#[test]
fn converts_multiple_definitions_with_the_same_file_origin() {
    let presets = definitions_into_presets(
        vec![
            PresetDefinition::new("one", "AT", RiskLevel::Safe, &["basic"]),
            PresetDefinition::new("two", "ATI", RiskLevel::Safe, &["identity"]),
        ],
        PresetOrigin::file("Custom commands", "custom.toml", None),
    );

    assert_eq!(presets.len(), 2);
    assert_eq!(presets[0].origin.label(), "Custom commands");
    assert_eq!(presets[1].origin.label(), "Custom commands");
}

#[test]
fn effective_risk_cannot_downgrade_classifier() {
    let preset = Preset::new(
        "unsafe-toml",
        "AT+CGDCONT=1,\"IP\",\"example\"",
        RiskLevel::Safe,
        Vec::new(),
        PresetOrigin::file("Test presets", "presets.toml", None),
    );

    assert_eq!(preset.declared_risk, RiskLevel::Safe);
    assert_eq!(preset.risk, RiskLevel::Write);
}

#[test]
fn declared_stricter_risk_is_preserved() {
    let preset = Preset::new(
        "write-labelled-at",
        "AT",
        RiskLevel::Write,
        Vec::new(),
        PresetOrigin::file("Test presets", "presets.toml", None),
    );

    assert_eq!(preset.risk, RiskLevel::Write);
}

#[test]
fn ad_hoc_preset_takes_the_classified_risk_and_runtime_origin() {
    let preset = Preset::ad_hoc("AT+CFUN=0");

    assert_eq!(preset.name, "ad-hoc");
    assert_eq!(preset.declared_risk, RiskLevel::Dangerous);
    assert_eq!(preset.risk, RiskLevel::Dangerous);
    assert_eq!(preset.origin.label(), "ad-hoc");
    assert_eq!(preset.origin.id(), "runtime:ad-hoc");
}
