use std::collections::HashMap;

use atctl::at::response::AtStatus;
use atctl::at::risk::RiskLevel;
use atctl::error::AtctlError;
use atctl::log::raw::{
    RawLogConfig, RawLogExchange, RawLogLine, RawLogLineWriter, RawLogSink, RawLogTransportError,
};

#[derive(Default)]
struct MemoryFiles {
    files: HashMap<String, Vec<RawLogLine>>,
}

impl RawLogLineWriter for &mut MemoryFiles {
    fn validate_target(&mut self, path: &str) -> Result<(), AtctlError> {
        if self.files.contains_key(path) {
            return Err(AtctlError::RawLogFileExists { path: path.to_owned() });
        }
        Ok(())
    }

    fn create_line(&mut self, path: &str, line: &RawLogLine) -> Result<(), AtctlError> {
        self.files.insert(path.to_owned(), vec![line.clone()]);
        Ok(())
    }

    fn append_line(&mut self, path: &str, line: &RawLogLine) -> Result<(), AtctlError> {
        self.files.get_mut(path).unwrap().push(line.clone());
        Ok(())
    }
}

fn line_number(line: &RawLogLine) -> Option<u64> {
    match line {
        RawLogLine::Header { .. } => None,
        RawLogLine::Exchange { sequence, .. } => Some(*sequence),
        RawLogLine::TransportError { sequence, .. } => Some(*sequence),
    }
}

#[test]
fn raw_log_sink_numbers_exchange_and_error_lines_in_one_sequence() {
    let mut files = MemoryFiles::default();
    {
        let mut sink = RawLogSink::create(RawLogConfig::new("case.rawlog", "send", "AT+CIMI"), &mut files).unwrap();
        sink.append_exchange(RawLogExchange {
            command_name: None,
            command: "AT+CIMI".to_owned(),
            risk: RiskLevel::Sensitive,
            status: AtStatus::OK,
            duration_ms: 12,
            tx_bytes: b"AT+CIMI\r".to_vec(),
            rx_bytes: b"\r\n898110001234567\r\nOK\r\n".to_vec(),
        })
        .unwrap();
        sink.append_transport_error(RawLogTransportError {
            command_name: None,
            command: "AT+COPS?".to_owned(),
            risk: RiskLevel::Safe,
            duration_ms: 30,
            stage: "read_response".to_owned(),
            error: "AT response timed out".to_owned(),
            tx_bytes: b"AT+COPS?\r".to_vec(),
            rx_bytes: Vec::new(),
        })
        .unwrap();
        assert_eq!(sink.path(), "case.rawlog");
    }
    let lines = &files.files["case.rawlog"];
    assert_eq!(lines.len(), 3);
    assert!(matches!(lines[0], RawLogLine::Header { .. }));
    assert_eq!(line_number(&lines[1]), Some(1));
    assert_eq!(line_number(&lines[2]), Some(2));
}

#[test]
fn raw_log_sink_refuses_an_existing_target_and_leaves_it() {
    let mut files = MemoryFiles::default();
    {
        RawLogSink::create(RawLogConfig::new("case.rawlog", "send", "AT+CIMI"), &mut files).unwrap();
    }
    let before = files.files["case.rawlog"].clone();
    let second = RawLogSink::create(RawLogConfig::new("case.rawlog", "send", "AT+CIMI"), &mut files);
    assert!(matches!(second, Err(AtctlError::RawLogFileExists { ref path }) if path == "case.rawlog"));
    drop(second);
    assert_eq!(files.files["case.rawlog"], before);
}
