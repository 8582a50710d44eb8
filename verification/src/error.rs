//! The library's error type.
use vstd::prelude::*;

use crate::at::response::{status_label, AtStatus};
use crate::at::risk::{risk_name, RiskLevel};
use crate::text::{decimal, push_all, push_decimal, push_str, string_of};

verus! {

/// Everything that can go wrong in the library. Failures that come from
/// the operating system, the USB stack or a parser carry that layer's
/// message as text.
#[derive(Debug, Clone, PartialEq, Eq)]
pub enum AtctlError {
    NotImplemented(&'static str),
    InvalidValue { name: &'static str, value: String },
    StateDirectoryUnavailable,
    ReadFile { path: String, message: String },
    CreateDir { path: String, message: String },
    WriteFile { path: String, message: String },
    TomlFile { path: String, message: String },
    PresetNotFound { name: String },
    SequenceNotFound { name: String },
    DuplicatePreset { name: String, first_source: String, duplicate_source: String },
    DuplicateSequence { name: String, first_source: String, duplicate_source: String },
    MissingSequenceParam { sequence: String, param: String, hint: String },
    InvalidSequenceParam { param: String, reason: String },
    SequenceExpectationFailed { sequence: String, step: String, expected: String },
    DeviceNotFound,
    MultipleDevices { devices: String },
    EndpointDetectionFailed,
    InterfaceClaim { interface: u8, message: String },
    ConfirmationRequired { risk: RiskLevel },
    MissingRiskAck { risk: RiskLevel },
    RiskAckMismatch { classified: RiskLevel, acknowledged: RiskLevel },
    RawLogAckRequired,
    RawLogAckMismatch { acknowledged: String },
    RawLogFileExists { path: String },
    ResponseExportFileExists { path: String },
    ResponseExportParentUnavailable { path: String },
    Transport(String),
    Usb(String),
    Json(String),
    AtCommandFailed { status: AtStatus },
    Timeout,
}

/// The message of each error, as shown to the user.
pub open spec fn error_message(e: AtctlError) -> Seq<char> {
    Seq::<char>::empty() + match e {
        AtctlError::NotImplemented(what) => "not implemented yet: "@ + what@,
        AtctlError::InvalidValue { name, value } => "invalid value for "@ + name@ + ": "@ + value@,
        AtctlError::StateDirectoryUnavailable => "cannot resolve the atctl state directory; set XDG_STATE_HOME to an absolute path or HOME to an absolute home directory"@,
        AtctlError::ReadFile { path, message } => "failed to read "@ + path@ + ": "@ + message@,
        AtctlError::CreateDir { path, message } => "failed to create directory "@ + path@ + ": "@ + message@,
        AtctlError::WriteFile { path, message } => "failed to write "@ + path@ + ": "@ + message@,
        AtctlError::TomlFile { path, message } => "failed to parse TOML "@ + path@ + ": "@ + message@,
        AtctlError::PresetNotFound { name } => "preset not found: "@ + name@ + "\nhelp: run `atctl preset list` with the same `--preset-file` and `--preset-dir` options, then use an exact listed name"@,
        AtctlError::SequenceNotFound { name } => "sequence not found: "@ + name@ + "\nhelp: run `atctl sequence list` with the same `--sequence-file` and `--sequence-dir` options, then use an exact listed name"@,
        AtctlError::DuplicatePreset { name, first_source, duplicate_source } => "duplicate preset name `"@ + name@ + "` from "@ + duplicate_source@ + "; first definition was from "@ + first_source@ + "\nhelp: rename one duplicate definition, or stop loading one of the conflicting file sources"@,
        AtctlError::DuplicateSequence { name, first_source, duplicate_source } => "duplicate sequence name `"@ + name@ + "` from "@ + duplicate_source@ + "; first definition was from "@ + first_source@ + "\nhelp: rename one duplicate definition, or stop loading one of the conflicting file sources"@,
        AtctlError::MissingSequenceParam { sequence, param, hint } => "sequence `"@ + sequence@ + "` requires parameter `"@ + param@ + "`"@ + hint@ + "\nhelp: rerun with `--param "@ + param@ + "=<VALUE>`"@,
        AtctlError::InvalidSequenceParam { param, reason } => "invalid sequence parameter `"@ + param@ + "`: "@ + reason@,
        AtctlError::SequenceExpectationFailed { sequence, step, expected } => "sequence `"@ + sequence@ + "` step `"@ + step@ + "` did not produce expected marker `"@ + expected@ + "`"@,
        AtctlError::DeviceNotFound => "no matching USB device found; run `atctl devices` to inspect visible devices"@,
        AtctlError::MultipleDevices { devices } => "multiple matching USB devices found; specify --bus and --address or a narrower --vid/--pid selection:\n"@ + devices@,
        AtctlError::EndpointDetectionFailed => "endpoint auto-detection failed; run `atctl inspect` and retry with --interface, --bulk-in, and --bulk-out"@,
        AtctlError::InterfaceClaim { interface, message } => "failed to claim USB interface "@ + decimal(interface as nat) + ": "@ + message@ + ". Another process may be using it, the device may have disconnected, permissions may deny access, or a kernel driver may own the interface"@,
        AtctlError::ConfirmationRequired { risk } => "command requires confirmation: risk="@ + risk_name(risk),
        AtctlError::MissingRiskAck { risk } => "direct send requires --risk-ack "@ + risk_name(risk) + " when --yes is used"@,
        AtctlError::RiskAckMismatch { classified, acknowledged } => "risk acknowledgement mismatch: classified="@ + risk_name(classified) + ", acknowledged="@ + risk_name(acknowledged),
        AtctlError::RawLogAckRequired => "raw diagnostic export requires --raw-log-ack raw-log when --raw-log-file is used non-interactively or with --yes"@,
        AtctlError::RawLogAckMismatch { acknowledged } => "raw diagnostic export acknowledgement mismatch: expected=raw-log, acknowledged="@ + acknowledged@,
        AtctlError::RawLogFileExists { path } => "raw diagnostic export file already exists: "@ + path@ + "\nhelp: choose a new file path; existing files are not overwritten"@,
        AtctlError::ResponseExportFileExists { path } => "Response export file already exists: "@ + path@ + "\nhelp: choose a new file path; existing files are not overwritten"@,
        AtctlError::ResponseExportParentUnavailable { path } => "Response export parent directory does not exist: "@ + path@ + "\nhelp: choose a path in an existing directory, or create the parent directory first"@,
        AtctlError::Transport(m) => "transport error: "@ + m@,
        AtctlError::Usb(m) => "USB error: "@ + m@,
        AtctlError::Json(m) => "JSON serialization error: "@ + m@,
        AtctlError::AtCommandFailed { status } => "AT command failed with status "@ + status_label(status@),
        AtctlError::Timeout => "AT response timed out"@,
    }
}

impl AtctlError {
    /// The message shown to the user.
    pub fn message(&self) -> (r: String)
        ensures
            r@ == error_message(*self),
    {
        let mut v: Vec<char> = Vec::new();
        match self {
            AtctlError::NotImplemented(what) => {
                push_str(&mut v, "not implemented yet: ");
                push_str(&mut v, what);
            },
            AtctlError::InvalidValue { name, value } => {
                push_str(&mut v, "invalid value for ");
                push_str(&mut v, name);
                push_str(&mut v, ": ");
                push_str(&mut v, value.as_str());
            },
            AtctlError::StateDirectoryUnavailable => {
                push_str(&mut v, "cannot resolve the atctl state directory; set XDG_STATE_HOME to an absolute path or HOME to an absolute home directory");
            },
            AtctlError::ReadFile { path, message } => {
                push_str(&mut v, "failed to read ");
                push_str(&mut v, path.as_str());
                push_str(&mut v, ": ");
                push_str(&mut v, message.as_str());
            },
            AtctlError::CreateDir { path, message } => {
                push_str(&mut v, "failed to create directory ");
                push_str(&mut v, path.as_str());
                push_str(&mut v, ": ");
                push_str(&mut v, message.as_str());
            },
            AtctlError::WriteFile { path, message } => {
                push_str(&mut v, "failed to write ");
                push_str(&mut v, path.as_str());
                push_str(&mut v, ": ");
                push_str(&mut v, message.as_str());
            },
            AtctlError::TomlFile { path, message } => {
                push_str(&mut v, "failed to parse TOML ");
                push_str(&mut v, path.as_str());
                push_str(&mut v, ": ");
                push_str(&mut v, message.as_str());
            },
            AtctlError::PresetNotFound { name } => {
                push_str(&mut v, "preset not found: ");
                push_str(&mut v, name.as_str());
                push_str(&mut v, "\nhelp: run `atctl preset list` with the same `--preset-file` and `--preset-dir` options, then use an exact listed name");
            },
            AtctlError::SequenceNotFound { name } => {
                push_str(&mut v, "sequence not found: ");
                push_str(&mut v, name.as_str());
                push_str(&mut v, "\nhelp: run `atctl sequence list` with the same `--sequence-file` and `--sequence-dir` options, then use an exact listed name");
            },
            AtctlError::DuplicatePreset { name, first_source, duplicate_source } => {
                push_str(&mut v, "duplicate preset name `");
                push_str(&mut v, name.as_str());
                push_str(&mut v, "` from ");
                push_str(&mut v, duplicate_source.as_str());
                push_str(&mut v, "; first definition was from ");
                push_str(&mut v, first_source.as_str());
                push_str(&mut v, "\nhelp: rename one duplicate definition, or stop loading one of the conflicting file sources");
            },
            AtctlError::DuplicateSequence { name, first_source, duplicate_source } => {
                push_str(&mut v, "duplicate sequence name `");
                push_str(&mut v, name.as_str());
                push_str(&mut v, "` from ");
                push_str(&mut v, duplicate_source.as_str());
                push_str(&mut v, "; first definition was from ");
                push_str(&mut v, first_source.as_str());
                push_str(&mut v, "\nhelp: rename one duplicate definition, or stop loading one of the conflicting file sources");
            },
            AtctlError::MissingSequenceParam { sequence, param, hint } => {
                push_str(&mut v, "sequence `");
                push_str(&mut v, sequence.as_str());
                push_str(&mut v, "` requires parameter `");
                push_str(&mut v, param.as_str());
                push_str(&mut v, "`");
                push_str(&mut v, hint.as_str());
                push_str(&mut v, "\nhelp: rerun with `--param ");
                push_str(&mut v, param.as_str());
                push_str(&mut v, "=<VALUE>`");
            },
            AtctlError::InvalidSequenceParam { param, reason } => {
                push_str(&mut v, "invalid sequence parameter `");
                push_str(&mut v, param.as_str());
                push_str(&mut v, "`: ");
                push_str(&mut v, reason.as_str());
            },
            AtctlError::SequenceExpectationFailed { sequence, step, expected } => {
                push_str(&mut v, "sequence `");
                push_str(&mut v, sequence.as_str());
                push_str(&mut v, "` step `");
                push_str(&mut v, step.as_str());
                push_str(&mut v, "` did not produce expected marker `");
                push_str(&mut v, expected.as_str());
                push_str(&mut v, "`");
            },
            AtctlError::DeviceNotFound => {
                push_str(&mut v, "no matching USB device found; run `atctl devices` to inspect visible devices");
            },
            AtctlError::MultipleDevices { devices } => {
                push_str(&mut v, "multiple matching USB devices found; specify --bus and --address or a narrower --vid/--pid selection:\n");
                push_str(&mut v, devices.as_str());
            },
            AtctlError::EndpointDetectionFailed => {
                push_str(&mut v, "endpoint auto-detection failed; run `atctl inspect` and retry with --interface, --bulk-in, and --bulk-out");
            },
            AtctlError::InterfaceClaim { interface, message } => {
                push_str(&mut v, "failed to claim USB interface ");
                push_decimal(&mut v, *interface as u128);
                push_str(&mut v, ": ");
                push_str(&mut v, message.as_str());
                push_str(&mut v, ". Another process may be using it, the device may have disconnected, permissions may deny access, or a kernel driver may own the interface");
            },
            AtctlError::ConfirmationRequired { risk } => {
                push_str(&mut v, "command requires confirmation: risk=");
                push_str(&mut v, risk.as_str());
            },
            AtctlError::MissingRiskAck { risk } => {
                push_str(&mut v, "direct send requires --risk-ack ");
                push_str(&mut v, risk.as_str());
                push_str(&mut v, " when --yes is used");
            },
            AtctlError::RiskAckMismatch { classified, acknowledged } => {
                push_str(&mut v, "risk acknowledgement mismatch: classified=");
                push_str(&mut v, classified.as_str());
                push_str(&mut v, ", acknowledged=");
                push_str(&mut v, acknowledged.as_str());
            },
            AtctlError::RawLogAckRequired => {
                push_str(&mut v, "raw diagnostic export requires --raw-log-ack raw-log when --raw-log-file is used non-interactively or with --yes");
            },
            AtctlError::RawLogAckMismatch { acknowledged } => {
                push_str(&mut v, "raw diagnostic export acknowledgement mismatch: expected=raw-log, acknowledged=");
                push_str(&mut v, acknowledged.as_str());
            },
            AtctlError::RawLogFileExists { path } => {
                push_str(&mut v, "raw diagnostic export file already exists: ");
                push_str(&mut v, path.as_str());
                push_str(&mut v, "\nhelp: choose a new file path; existing files are not overwritten");
            },
            AtctlError::ResponseExportFileExists { path } => {
                push_str(&mut v, "Response export file already exists: ");
                push_str(&mut v, path.as_str());
                push_str(&mut v, "\nhelp: choose a new file path; existing files are not overwritten");
            },
            AtctlError::ResponseExportParentUnavailable { path } => {
                push_str(&mut v, "Response export parent directory does not exist: ");
                push_str(&mut v, path.as_str());
                push_str(&mut v, "\nhelp: choose a path in an existing directory, or create the parent directory first");
            },
            AtctlError::Transport(m) => {
                push_str(&mut v, "transport error: ");
                push_str(&mut v, m.as_str());
            },
            AtctlError::Usb(m) => {
                push_str(&mut v, "USB error: ");
                push_str(&mut v, m.as_str());
            },
            AtctlError::Json(m) => {
                push_str(&mut v, "JSON serialization error: ");
                push_str(&mut v, m.as_str());
            },
            AtctlError::AtCommandFailed { status } => {
                push_str(&mut v, "AT command failed with status ");
                { let l = status.label(); push_all(&mut v, &l); }
            },
            AtctlError::Timeout => {
                push_str(&mut v, "AT response timed out");
            },
        }
        string_of(&v)
    }
}

} // verus!
