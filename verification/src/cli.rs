//! The command-line surface's logic: arguments as plain values, the
//! confirmation flow of a direct send, listings, exports and argument
//! parsers.
use vstd::prelude::*;

use crate::at::command::{command_with_terminator, normalize_chars, normalize_command, normalized, with_terminator};
use crate::at::mask::{mask_sensitive_chars, masked_text};
use crate::at::parser::{detect_status_spec, parse_response, utf8_lossy};
use crate::at::response::{status_is_success, AtStatus};
use crate::at::risk::{
    classify_direct_command, classify_spec, confirmation_spec, direct_send_confirmation, needs_confirmation,
    risk_name, DirectSendConfirmation, RiskClassification, RiskLevel,
};
use crate::clock::{clock_now, millis_since};
use crate::error::AtctlError;
use crate::log::session::{CommandLogRecord, LogDeviceSelection, LogTimestamp};
use crate::log::raw::{
    require_raw_log_ack, RawLogConfig, RawLogExchange, RawLogFiles, RawLogRecorder,
    RawLogTransportError, NoRawLogFiles, RAW_LOG_ACK,
};
use crate::presets::builtin::builtin_preset_table;
use crate::presets::model::{preset_origin_label, Preset, PresetOrigin};
use crate::sequences::engine::{
    render_sequence_review, sequence_classification, validate_sequence_confirmation,
    SequenceExecution, SequenceParamValue, SequenceReviewValue,
};
use crate::sequences::params::{bind_error, bind_spec, review_values};
use crate::sequences::builtin::builtin_sequence_table;
use crate::sequences::model::{sequence_origin_label, Sequence, SequenceOrigin};
use crate::sequences::params::{required_displays, required_param_summary};
use crate::text::{
    lead_len, lemma_lead_len_from, not_newline_pred, chars_of, decimal, join_chars, join_seqs, push_all, push_decimal, push_str, seqs_view,
    slice, string_of, strings_of, strings_view, text_lines, trim, trim_chars,
};
use crate::sequences::steps::{secs_to_ms, secs_to_ms_exec};
use crate::transport::traits::{extends, since, AtLink, AtTransport, TransportEvent};
use crate::transport::pty::PtyBridgeConfig;
use crate::transport::usb::{
    manual_override_pair, EndpointPair, EndpointSelection, UsbAtTransportConfig, UsbDeviceFilter,
};

verus! {

broadcast use vstd::string::group_string_axioms;

/// The timeout of a user command when none is given, in seconds.
pub const DEFAULT_COMMAND_TIMEOUT_SECS: u64 = 30;

/// How long each endpoint candidate may take to answer `AT`, in seconds.
pub const ENDPOINT_PROBE_TIMEOUT_SECS: u64 = 3;

// ---------------------------------------------------------------------
// Arguments
// ---------------------------------------------------------------------
/// USB device selection and endpoint overrides.
#[derive(Debug, Clone, PartialEq, Eq)]
pub struct UsbOptions {
    pub vid: Option<u16>,
    pub pid: Option<u16>,
    pub bus: Option<u8>,
    pub address: Option<u8>,
    pub interface_number: Option<u8>,
    pub bulk_in: Option<u8>,
    pub bulk_out: Option<u8>,
    pub timeout: u64,
}

impl Default for UsbOptions {
    fn default() -> (r: Self)
        ensures
            r.vid is None && r.pid is None && r.bus is None && r.address is None
                && r.interface_number is None && r.bulk_in is None && r.bulk_out is None
                && r.timeout == 0,
    {
        UsbOptions {
            vid: None,
            pid: None,
            bus: None,
            address: None,
            interface_number: None,
            bulk_in: None,
            bulk_out: None,
            timeout: 0,
        }
    }
}

pub open spec fn hex2(d: nat) -> char {
    if d < 10 {
        (('0' as u32) + d) as char
    } else {
        (('a' as u32) + d - 10) as char
    }
}

/// `0x` and two lowercase hex digits.
pub open spec fn hex_u8_text(v: u8) -> Seq<char> {
    seq!['0', 'x', hex2((v / 16) as nat), hex2((v % 16) as nat)]
}

fn hex_digit_lower(d: u8) -> (c: char)
    requires
        d < 16,
    ensures
        c == hex2(d as nat),
{
    if d < 10 {
        (48u8 + d) as char
    } else {
        (87u8 + d) as char
    }
}

pub fn hex_u8(v: u8) -> (r: Vec<char>)
    ensures
        r@ == hex_u8_text(v),
{
    let mut r: Vec<char> = Vec::new();
    r.push('0');
    r.push('x');
    r.push(hex_digit_lower(v / 16));
    r.push(hex_digit_lower(v % 16));
    assert(r@ =~= hex_u8_text(v));
    r
}

/// `0x` and four lowercase hex digits.
pub open spec fn hex_u16_text(v: u16) -> Seq<char> {
    seq![
        '0',
        'x',
        hex2((v / 4096) as nat),
        hex2(((v / 256) % 16) as nat),
        hex2(((v / 16) % 16) as nat),
        hex2((v % 16) as nat),
    ]
}

pub fn hex_u16(v: u16) -> (r: Vec<char>)
    ensures
        r@ == hex_u16_text(v),
{
    let mut r: Vec<char> = Vec::new();
    r.push('0');
    r.push('x');
    r.push(hex_digit_lower((v / 4096) as u8));
    r.push(hex_digit_lower(((v / 256) % 16) as u8));
    r.push(hex_digit_lower(((v / 16) % 16) as u8));
    r.push(hex_digit_lower((v % 16) as u8));
    assert(r@ =~= hex_u16_text(v));
    r
}

/// What an endpoint override means: none without bulk endpoints; an
/// interface and both endpoints otherwise, IN with its top bit set and OUT
/// without.
pub enum EndpointOverride {
    NoOverride,
    Pair(EndpointPair),
    Invalid(Seq<char>, Seq<char>),
}

pub open spec fn endpoint_override(o: UsbOptions) -> EndpointOverride {
    if o.bulk_in is None && o.bulk_out is None {
        EndpointOverride::NoOverride
    } else if o.interface_number is None {
        EndpointOverride::Invalid("--interface"@, "required when --bulk-in or --bulk-out is specified"@)
    } else if o.bulk_in is None {
        EndpointOverride::Invalid("--bulk-in"@, "required when --bulk-out is specified"@)
    } else if o.bulk_out is None {
        EndpointOverride::Invalid("--bulk-out"@, "required when --bulk-in is specified"@)
    } else if o.bulk_in->0 < 0x80 {
        EndpointOverride::Invalid(
            "--bulk-in"@,
            "endpoint address "@ + hex_u8_text(o.bulk_in->0) + " is not IN"@,
        )
    } else if o.bulk_out->0 >= 0x80 {
        EndpointOverride::Invalid(
            "--bulk-out"@,
            "endpoint address "@ + hex_u8_text(o.bulk_out->0) + " is not OUT"@,
        )
    } else {
        EndpointOverride::Pair(
            EndpointPair {
                interface_number: o.interface_number->0,
                alternate_setting: None,
                bulk_in: o.bulk_in->0,
                bulk_out: o.bulk_out->0,
                selection: EndpointSelection::ManualOverride,
            },
        )
    }
}

impl UsbOptions {
    /// The explicit endpoint pair, if the user gave endpoints.
    pub fn manual_endpoint_pair(&self) -> (r: Result<Option<EndpointPair>, AtctlError>)
        ensures
            match endpoint_override(*self) {
                EndpointOverride::NoOverride => r == Ok::<Option<EndpointPair>, AtctlError>(None),
                EndpointOverride::Pair(p) => r == Ok::<Option<EndpointPair>, AtctlError>(Some(p)),
                EndpointOverride::Invalid(name, value) => r matches Err(
                    AtctlError::InvalidValue { name: n, value: v },
                ) && n@ == name && v@ == value,
            },
    {
        if self.bulk_in.is_none() && self.bulk_out.is_none() {
            return Ok(None);
        }
        let interface_number = match self.interface_number {
            Some(i) => i,
            None => {
                return Err(
                    AtctlError::InvalidValue {
                        name: "--interface",
                        value: "required when --bulk-in or --bulk-out is specified".to_owned(),
                    },
                )
            },
        };
        let bulk_in = match self.bulk_in {
            Some(b) => b,
            None => {
                return Err(
                    AtctlError::InvalidValue {
                        name: "--bulk-in",
                        value: "required when --bulk-out is specified".to_owned(),
                    },
                )
            },
        };
        let bulk_out = match self.bulk_out {
            Some(b) => b,
            None => {
                return Err(
                    AtctlError::InvalidValue {
                        name: "--bulk-out",
                        value: "required when --bulk-in is specified".to_owned(),
                    },
                )
            },
        };
        if bulk_in < 0x80 {
            let mut v = chars_of("endpoint address ");
            push_all(&mut v, &hex_u8(bulk_in));
            push_str(&mut v, " is not IN");
            return Err(AtctlError::InvalidValue { name: "--bulk-in", value: string_of(&v) });
        }
        if bulk_out >= 0x80 {
            let mut v = chars_of("endpoint address ");
            push_all(&mut v, &hex_u8(bulk_out));
            push_str(&mut v, " is not OUT");
            return Err(AtctlError::InvalidValue { name: "--bulk-out", value: string_of(&v) });
        }
        Ok(Some(manual_override_pair(interface_number, bulk_in, bulk_out)))
    }
}

/// The command line: one subcommand.
#[derive(Debug, Clone, PartialEq, Eq)]
pub struct Cli {
    pub command: Command,
}

/// The subcommands.
#[derive(Debug, Clone, PartialEq, Eq)]
pub enum Command {
    Devices(DevicesArgs),
    Inspect(UsbOptions),
    Send(SendArgs),
    Preset(PresetArgs),
    Sequence(SequenceArgs),
    Tui(TuiArgs),
    Bridge(BridgeArgs),
    Logs(LogsArgs),
}

/// Listing USB devices.
#[derive(Debug, Clone, PartialEq, Eq)]
pub struct DevicesArgs {
    pub all_usb: bool,
    pub filter: DeviceFilterOptions,
}

/// Which USB devices to list.
#[derive(Debug, Clone, PartialEq, Eq)]
pub struct DeviceFilterOptions {
    pub vid: Option<u16>,
    pub pid: Option<u16>,
    pub bus: Option<u8>,
    pub address: Option<u8>,
}

/// The preset subcommands.
#[derive(Debug, Clone, PartialEq, Eq)]
pub struct PresetArgs {
    pub command: PresetCommand,
}

#[derive(Debug, Clone, PartialEq, Eq)]
pub enum PresetCommand {
    List(PresetListArgs),
    Run(PresetRunArgs),
}

/// Listing presets.
#[derive(Debug, Clone, PartialEq, Eq)]
pub struct PresetListArgs {
    pub preset_locations: PresetFileLocationOptions,
}

/// The sequence subcommands.
#[derive(Debug, Clone, PartialEq, Eq)]
pub struct SequenceArgs {
    pub command: SequenceCommand,
}

#[derive(Debug, Clone, PartialEq, Eq)]
pub enum SequenceCommand {
    List(SequenceListArgs),
    Run(SequenceRunArgs),
}

/// Listing sequences.
#[derive(Debug, Clone, PartialEq, Eq)]
pub struct SequenceListArgs {
    pub sequence_locations: SequenceFileLocationOptions,
}

/// The TUI session.
#[derive(Debug, Clone, PartialEq, Eq)]
pub struct TuiArgs {
    pub no_mask: bool,
    pub no_log: bool,
    pub theme: Option<TuiThemeChoice>,
    pub preset_locations: PresetFileLocationOptions,
    pub sequence_locations: SequenceFileLocationOptions,
}

/// The TUI color theme.
#[derive(Debug, Copy, Clone, PartialEq, Eq, Structural)]
pub enum TuiThemeChoice {
    Dark,
    Light,
    NoColor,
}

/// The log subcommands.
#[derive(Debug, Clone, PartialEq, Eq)]
pub struct LogsArgs {
    pub command: LogsCommand,
}

#[derive(Debug, Copy, Clone, PartialEq, Eq, Structural)]
pub enum LogsCommand {
    List,
}

/// Preset files and directories to load for this run.
#[derive(Debug, Clone, PartialEq, Eq)]
pub struct PresetFileLocationOptions {
    pub preset_files: Vec<String>,
    pub preset_dirs: Vec<String>,
}

impl PresetFileLocationOptions {
    /// Whether any file or directory was given.
    pub fn has_explicit_locations(&self) -> (b: bool)
        ensures
            b == (self.preset_files.len() > 0 || self.preset_dirs.len() > 0),
    {
        self.preset_files.len() > 0 || self.preset_dirs.len() > 0
    }
}

impl Default for PresetFileLocationOptions {
    fn default() -> (r: Self)
        ensures
            r.preset_files.len() == 0 && r.preset_dirs.len() == 0,
    {
        PresetFileLocationOptions { preset_files: Vec::new(), preset_dirs: Vec::new() }
    }
}

/// Sequence files and directories to load for this run.
#[derive(Debug, Clone, PartialEq, Eq)]
pub struct SequenceFileLocationOptions {
    pub sequence_files: Vec<String>,
    pub sequence_dirs: Vec<String>,
}

impl SequenceFileLocationOptions {
    /// Whether any file or directory was given.
    pub fn has_explicit_locations(&self) -> (b: bool)
        ensures
            b == (self.sequence_files.len() > 0 || self.sequence_dirs.len() > 0),
    {
        self.sequence_files.len() > 0 || self.sequence_dirs.len() > 0
    }
}

impl Default for SequenceFileLocationOptions {
    fn default() -> (r: Self)
        ensures
            r.sequence_files.len() == 0 && r.sequence_dirs.len() == 0,
    {
        SequenceFileLocationOptions { sequence_files: Vec::new(), sequence_dirs: Vec::new() }
    }
}

/// Reading preset and sequence definition files: one file, or every
/// `.toml` file of a directory in name order.
pub trait DefinitionFiles {
    fn presets_file(&mut self, path: &str) -> Result<Vec<Preset>, AtctlError>;

    fn presets_dir(&mut self, path: &str) -> Result<Vec<Preset>, AtctlError>;

    fn sequences_file(&mut self, path: &str) -> Result<Vec<Sequence>, AtctlError>;

    fn sequences_dir(&mut self, path: &str) -> Result<Vec<Sequence>, AtctlError>;
}

/// One read of definition files: what was asked for and what came back.
pub enum DefinitionRead {
    PresetsFile { path: Seq<char>, result: Result<Seq<Preset>, AtctlError> },
    PresetsDir { path: Seq<char>, result: Result<Seq<Preset>, AtctlError> },
    SequencesFile { path: Seq<char>, result: Result<Seq<Sequence>, AtctlError> },
    SequencesDir { path: Seq<char>, result: Result<Seq<Sequence>, AtctlError> },
}

/// Definition files together with the record of every read made through
/// the library, in order.
pub struct DefinitionLink<F: DefinitionFiles> {
    files: F,
    history: Ghost<Seq<DefinitionRead>>,
}

impl<F: DefinitionFiles> DefinitionLink<F> {
    /// The reads made so far.
    pub closed spec fn history(&self) -> Seq<DefinitionRead> {
        self.history@
    }

    /// A link over `files` with no read recorded.
    pub fn new(files: F) -> (r: Self)
        ensures
            r.history() == Seq::<DefinitionRead>::empty(),
    {
        DefinitionLink { files, history: Ghost(Seq::empty()) }
    }

    pub fn presets_file(&mut self, path: &str) -> (r: Result<Vec<Preset>, AtctlError>)
        ensures
            final(self).history() == old(self).history().push(
                DefinitionRead::PresetsFile {
                    path: path@,
                    result: presets_result(r),
                },
            ),
    {
        let r = self.files.presets_file(path);
        proof {
            self.history@ = self.history@.push(
                DefinitionRead::PresetsFile {
                    path: path@,
                    result: presets_result(r),
                },
            );
        }
        r
    }

    pub fn presets_dir(&mut self, path: &str) -> (r: Result<Vec<Preset>, AtctlError>)
        ensures
            final(self).history() == old(self).history().push(
                DefinitionRead::PresetsDir {
                    path: path@,
                    result: presets_result(r),
                },
            ),
    {
        let r = self.files.presets_dir(path);
        proof {
            self.history@ = self.history@.push(
                DefinitionRead::PresetsDir {
                    path: path@,
                    result: presets_result(r),
                },
            );
        }
        r
    }

    pub fn sequences_file(&mut self, path: &str) -> (r: Result<Vec<Sequence>, AtctlError>)
        ensures
            final(self).history() == old(self).history().push(
                DefinitionRead::SequencesFile {
                    path: path@,
                    result: sequences_result(r),
                },
            ),
    {
        let r = self.files.sequences_file(path);
        proof {
            self.history@ = self.history@.push(
                DefinitionRead::SequencesFile {
                    path: path@,
                    result: sequences_result(r),
                },
            );
        }
        r
    }

    pub fn sequences_dir(&mut self, path: &str) -> (r: Result<Vec<Sequence>, AtctlError>)
        ensures
            final(self).history() == old(self).history().push(
                DefinitionRead::SequencesDir {
                    path: path@,
                    result: sequences_result(r),
                },
            ),
    {
        let r = self.files.sequences_dir(path);
        proof {
            self.history@ = self.history@.push(
                DefinitionRead::SequencesDir {
                    path: path@,
                    result: sequences_result(r),
                },
            );
        }
        r
    }
}

/// What a read of presets gave back, by its view.
pub open spec fn presets_result(r: Result<Vec<Preset>, AtctlError>) -> Result<Seq<Preset>, AtctlError> {
    match r {
        Ok(v) => Ok(v@),
        Err(e) => Err(e),
    }
}

/// What a read of sequences gave back, by its view.
pub open spec fn sequences_result(r: Result<Vec<Sequence>, AtctlError>) -> Result<Seq<Sequence>, AtctlError> {
    match r {
        Ok(v) => Ok(v@),
        Err(e) => Err(e),
    }
}

/// The file or directory a read was for.
pub open spec fn read_path(r: DefinitionRead) -> Seq<char> {
    match r {
        DefinitionRead::PresetsFile { path, .. } => path,
        DefinitionRead::PresetsDir { path, .. } => path,
        DefinitionRead::SequencesFile { path, .. } => path,
        DefinitionRead::SequencesDir { path, .. } => path,
    }
}

/// The presets that the reads `reads` gave back, in order.
pub open spec fn presets_read(reads: Seq<DefinitionRead>) -> Seq<Preset>
    decreases reads.len(),
{
    if reads.len() == 0 {
        Seq::empty()
    } else {
        presets_read(reads.drop_last()) + match reads.last() {
            DefinitionRead::PresetsFile { result: Ok(p), .. } => p,
            DefinitionRead::PresetsDir { result: Ok(p), .. } => p,
            _ => Seq::empty(),
        }
    }
}

/// The sequences that the reads `reads` gave back, in order.
pub open spec fn sequences_read(reads: Seq<DefinitionRead>) -> Seq<Sequence>
    decreases reads.len(),
{
    if reads.len() == 0 {
        Seq::empty()
    } else {
        sequences_read(reads.drop_last()) + match reads.last() {
            DefinitionRead::SequencesFile { result: Ok(p), .. } => p,
            DefinitionRead::SequencesDir { result: Ok(p), .. } => p,
            _ => Seq::empty(),
        }
    }
}

/// Whether `reads` read each preset file of `files`, then each preset
/// directory of `dirs`, in order.
pub open spec fn preset_reads_in_order(reads: Seq<DefinitionRead>, files: Seq<String>, dirs: Seq<String>) -> bool {
    &&& reads.len() == files.len() + dirs.len()
    &&& forall|i: int|
        0 <= i < files.len() ==> (#[trigger] reads[i]) is PresetsFile && read_path(reads[i]) == files[i]@
    &&& forall|j: int|
        0 <= j < dirs.len() ==> (#[trigger] reads[files.len() + j]) is PresetsDir && read_path(reads[files.len() + j]) == dirs[j]@
}

/// Whether `reads` read each sequence file of `files`, then each sequence
/// directory of `dirs`, in order.
pub open spec fn sequence_reads_in_order(reads: Seq<DefinitionRead>, files: Seq<String>, dirs: Seq<String>) -> bool {
    &&& reads.len() == files.len() + dirs.len()
    &&& forall|i: int|
        0 <= i < files.len() ==> (#[trigger] reads[i]) is SequencesFile && read_path(reads[i]) == files[i]@
    &&& forall|j: int|
        0 <= j < dirs.len() ==> (#[trigger] reads[files.len() + j]) is SequencesDir && read_path(reads[files.len() + j]) == dirs[j]@
}

/// The presets of this run: the product presets, then those of the given
/// files and directories in order, with no name twice.
pub fn load_presets<F: DefinitionFiles>(locations: &PresetFileLocationOptions, files: &mut DefinitionLink<F>) -> (r:
    Result<Vec<Preset>, AtctlError>)
    ensures
        r matches Ok(v) ==> crate::presets::loader::preset_names_unique(v@) && v.len()
            >= builtin_preset_table().len() && forall|i: int|
            0 <= i < builtin_preset_table().len() ==> #[trigger] v@[i].name@
                == builtin_preset_table()[i].0 && v@[i].origin == PresetOrigin::BuiltIn,
        r matches Ok(v) ==> v@.skip(builtin_preset_table().len() as int) == presets_read(
            final(files).history().skip(old(files).history().len() as int),
        ),
        r is Ok ==> preset_reads_in_order(
            final(files).history().skip(old(files).history().len() as int),
            locations.preset_files@,
            locations.preset_dirs@,
        ),
        !(locations.preset_files.len() > 0 || locations.preset_dirs.len() > 0) ==> (r matches Ok(v)
            && v.len() == builtin_preset_table().len()),
{
    let mut presets = crate::presets::builtin::builtins();
    let ghost base = presets@;
    let ghost h0 = files.history();
    let ghost n0 = h0.len() as int;
    proof {
        crate::presets::builtin::lemma_builtin_names_unique(base);
        assert(files.history().skip(n0) =~= Seq::<DefinitionRead>::empty());
        assert(presets@ =~= base + presets_read(files.history().skip(n0)));
    }
    if locations.has_explicit_locations() {
        let mut i: usize = 0;
        while i < locations.preset_files.len()
            invariant
                i <= locations.preset_files.len(),
                presets@.len() >= base.len(),
                presets@.take(base.len() as int) == base,
                n0 == old(files).history().len(),
                n0 <= files.history().len(),
                presets@ == base + presets_read(files.history().skip(n0)),
                files.history().skip(n0).len() == i,
                forall|k: int|
                    0 <= k < i ==> (#[trigger] files.history().skip(n0)[k]) is PresetsFile && read_path(files.history().skip(n0)[k]) == locations.preset_files@[k]@,
            decreases locations.preset_files.len() - i,
        {
            let ghost before = files.history().skip(n0);
            let mut more = files.presets_file(locations.preset_files[i].as_str())?;
            let ghost got = more@;
            proof {
                let now = files.history().skip(n0);
                assert(now.drop_last() =~= before);
                assert(presets_read(now) == presets_read(before) + got);
                assert forall|k: int| 0 <= k < i + 1 implies (#[trigger] now[k]) is PresetsFile && read_path(now[k])
                    == locations.preset_files@[k]@ by {
                    if k < i {
                        assert(now[k] == before[k]);
                    }
                }
            }
            presets.append(&mut more);
            assert(presets@.take(base.len() as int) =~= base);
            assert(presets@ =~= base + presets_read(files.history().skip(n0)));
            i += 1;
        }
        let mut j: usize = 0;
        while j < locations.preset_dirs.len()
            invariant
                j <= locations.preset_dirs.len(),
                presets@.len() >= base.len(),
                presets@.take(base.len() as int) == base,
                n0 == old(files).history().len(),
                n0 <= files.history().len(),
                presets@ == base + presets_read(files.history().skip(n0)),
                files.history().skip(n0).len() == locations.preset_files.len() + j,
                forall|k: int|
                    0 <= k < locations.preset_files.len() ==> (#[trigger] files.history().skip(n0)[k]) is PresetsFile && read_path(files.history().skip(n0)[k]) == locations.preset_files@[k]@,
                forall|k: int|
                    0 <= k < j ==> (#[trigger] files.history().skip(n0)[locations.preset_files.len() + k]) is PresetsDir && read_path(files.history().skip(n0)[locations.preset_files.len() + k]) == locations.preset_dirs@[k]@,
            decreases locations.preset_dirs.len() - j,
        {
            let ghost before = files.history().skip(n0);
            let mut more = files.presets_dir(locations.preset_dirs[j].as_str())?;
            let ghost got = more@;
            proof {
                let now = files.history().skip(n0);
                assert(now.drop_last() =~= before);
                assert(presets_read(now) == presets_read(before) + got);
                assert forall|k: int| 0 <= k < locations.preset_files.len() implies (#[trigger] now[k]) is PresetsFile && read_path(now[k]) == locations.preset_files@[k]@ by {
                    assert(now[k] == before[k]);
                }
                assert forall|k: int| 0 <= k < j + 1 implies (#[trigger] now[locations.preset_files.len() + k]) is PresetsDir && read_path(now[locations.preset_files.len() + k]) == locations.preset_dirs@[k]@ by {
                    if k < j {
                        assert(now[locations.preset_files.len() + k] == before[locations.preset_files.len() + k]);
                    }
                }
            }
            presets.append(&mut more);
            assert(presets@.take(base.len() as int) =~= base);
            assert(presets@ =~= base + presets_read(files.history().skip(n0)));
            j += 1;
        }
    }
    crate::presets::loader::validate_unique_preset_names(presets.as_slice())?;
    assert(presets@.skip(base.len() as int) =~= presets_read(files.history().skip(n0)));
    Ok(presets)
}

/// The sequences of this run: the product sequences, then those of the
/// given files and directories in order, with no name twice.
pub fn load_sequences<F: DefinitionFiles>(
    locations: &SequenceFileLocationOptions,
    files: &mut DefinitionLink<F>,
) -> (r: Result<Vec<Sequence>, AtctlError>)
    ensures
        r matches Ok(v) ==> v@.skip(builtin_sequence_table().len() as int) == sequences_read(
            final(files).history().skip(old(files).history().len() as int),
        ),
        r is Ok ==> sequence_reads_in_order(
            final(files).history().skip(old(files).history().len() as int),
            locations.sequence_files@,
            locations.sequence_dirs@,
        ),
        r matches Ok(v) ==> crate::sequences::loader::sequence_names_unique(v@) && v.len()
            >= builtin_sequence_table().len() && forall|i: int|
            0 <= i < builtin_sequence_table().len() ==> #[trigger] v@[i].name@
                == builtin_sequence_table()[i].name && v@[i].origin == SequenceOrigin::BuiltIn,
        !(locations.sequence_files.len() > 0 || locations.sequence_dirs.len() > 0) ==> (r matches Ok(
            v,
        ) && v.len() == builtin_sequence_table().len()),
{
    let mut sequences = crate::sequences::builtin::builtins();
    let ghost base = sequences@;
    let ghost n0 = files.history().len() as int;
    proof {
        crate::sequences::builtin::lemma_builtin_sequence_names_distinct();
        assert forall|i: int| 0 <= i < base.len() implies #[trigger] base[i].name@
            == builtin_sequence_table()[i].name && base[i].origin == SequenceOrigin::BuiltIn by {
            assert(crate::sequences::builtin::sequence_matches_row(base[i], builtin_sequence_table()[i]));
        }
        assert(crate::sequences::loader::sequence_names_unique(base));
        assert(files.history().skip(n0) =~= Seq::<DefinitionRead>::empty());
        assert(sequences@ =~= base + sequences_read(files.history().skip(n0)));
    }
    if locations.has_explicit_locations() {
        let mut i: usize = 0;
        while i < locations.sequence_files.len()
            invariant
                i <= locations.sequence_files.len(),
                sequences@.len() >= base.len(),
                sequences@.take(base.len() as int) == base,
                n0 == old(files).history().len(),
                n0 <= files.history().len(),
                sequences@ == base + sequences_read(files.history().skip(n0)),
                files.history().skip(n0).len() == i,
                forall|k: int|
                    0 <= k < i ==> (#[trigger] files.history().skip(n0)[k]) is SequencesFile && read_path(
                        files.history().skip(n0)[k],
                    ) == locations.sequence_files@[k]@,
            decreases locations.sequence_files.len() - i,
        {
            let ghost before = files.history().skip(n0);
            let mut more = files.sequences_file(locations.sequence_files[i].as_str())?;
            let ghost got = more@;
            proof {
                let now = files.history().skip(n0);
                assert(now.drop_last() =~= before);
                assert(sequences_read(now) == sequences_read(before) + got);
                assert forall|k: int| 0 <= k < i + 1 implies (#[trigger] now[k]) is SequencesFile && read_path(now[k])
                    == locations.sequence_files@[k]@ by {
                    if k < i {
                        assert(now[k] == before[k]);
                    }
                }
            }
            sequences.append(&mut more);
            assert(sequences@.take(base.len() as int) =~= base);
            assert(sequences@ =~= base + sequences_read(files.history().skip(n0)));
            i += 1;
        }
        let mut j: usize = 0;
        while j < locations.sequence_dirs.len()
            invariant
                j <= locations.sequence_dirs.len(),
                sequences@.len() >= base.len(),
                sequences@.take(base.len() as int) == base,
                n0 == old(files).history().len(),
                n0 <= files.history().len(),
                sequences@ == base + sequences_read(files.history().skip(n0)),
                files.history().skip(n0).len() == locations.sequence_files.len() + j,
                forall|k: int|
                    0 <= k < locations.sequence_files.len() ==> (#[trigger] files.history().skip(n0)[k]) is SequencesFile
                        && read_path(files.history().skip(n0)[k]) == locations.sequence_files@[k]@,
                forall|k: int|
                    0 <= k < j ==> (#[trigger] files.history().skip(n0)[locations.sequence_files.len() + k]) is SequencesDir
                        && read_path(files.history().skip(n0)[locations.sequence_files.len() + k])
                        == locations.sequence_dirs@[k]@,
            decreases locations.sequence_dirs.len() - j,
        {
            let ghost before = files.history().skip(n0);
            let mut more = files.sequences_dir(locations.sequence_dirs[j].as_str())?;
            let ghost got = more@;
            proof {
                let now = files.history().skip(n0);
                assert(now.drop_last() =~= before);
                assert(sequences_read(now) == sequences_read(before) + got);
                assert forall|k: int| 0 <= k < locations.sequence_files.len() implies (#[trigger] now[k]) is SequencesFile
                    && read_path(now[k]) == locations.sequence_files@[k]@ by {
                    assert(now[k] == before[k]);
                }
                assert forall|k: int| 0 <= k < j + 1 implies (#[trigger] now[locations.sequence_files.len() + k]) is SequencesDir
                    && read_path(now[locations.sequence_files.len() + k]) == locations.sequence_dirs@[k]@ by {
                    if k < j {
                        assert(now[locations.sequence_files.len() + k] == before[locations.sequence_files.len() + k]);
                    }
                }
            }
            sequences.append(&mut more);
            assert(sequences@.take(base.len() as int) =~= base);
            assert(sequences@ =~= base + sequences_read(files.history().skip(n0)));
            j += 1;
        }
    }
    crate::sequences::loader::validate_unique_sequence_names(sequences.as_slice())?;
    proof {
        assert(sequences@.take(base.len() as int) == base);
        assert forall|i: int| 0 <= i < builtin_sequence_table().len() implies #[trigger] sequences@[i].name@
            == builtin_sequence_table()[i].name && sequences@[i].origin == SequenceOrigin::BuiltIn by {
            assert(sequences@.take(base.len() as int)[i] == base[i]);
            assert(base[i].name@ == builtin_sequence_table()[i].name);
        }
    }
    assert(sequences@.skip(base.len() as int) =~= sequences_read(files.history().skip(n0)));
    Ok(sequences)
}

impl UsbOptions {
    /// The device selection of these options.
    pub fn to_usb_filter(&self) -> (r: UsbDeviceFilter)
        ensures
            r == (UsbDeviceFilter {
                vendor_id: self.vid,
                product_id: self.pid,
                bus: self.bus,
                address: self.address,
            }),
    {
        UsbDeviceFilter { vendor_id: self.vid, product_id: self.pid, bus: self.bus, address: self.address }
    }
}

impl DeviceFilterOptions {
    /// The device selection of these options.
    pub fn to_usb_filter(&self) -> (r: UsbDeviceFilter)
        ensures
            r == (UsbDeviceFilter {
                vendor_id: self.vid,
                product_id: self.pid,
                bus: self.bus,
                address: self.address,
            }),
    {
        UsbDeviceFilter { vendor_id: self.vid, product_id: self.pid, bus: self.bus, address: self.address }
    }
}

/// The USB transport of a run: the device selection and endpoint pair of
/// the options, their timeout, and the probe timeout.
pub fn usb_transport_config(usb: &UsbOptions, manual_pair: Option<EndpointPair>) -> (r:
    UsbAtTransportConfig)
    ensures
        r.filter == (UsbDeviceFilter {
            vendor_id: usb.vid,
            product_id: usb.pid,
            bus: usb.bus,
            address: usb.address,
        }),
        r.manual_pair == manual_pair,
        r.timeout_ms == secs_to_ms(usb.timeout),
        r.probe_timeout_ms == secs_to_ms(ENDPOINT_PROBE_TIMEOUT_SECS),
{
    UsbAtTransportConfig {
        filter: usb.to_usb_filter(),
        manual_pair,
        timeout_ms: secs_to_ms_exec(usb.timeout),
        probe_timeout_ms: secs_to_ms_exec(ENDPOINT_PROBE_TIMEOUT_SECS),
    }
}

/// The bridge set up from its arguments: the symlink, the checked raw
/// export, and the USB transport with the command timeout.
pub fn bridge_config(
    args: &BridgeArgs,
    raw_log: Option<RawLogConfig>,
    manual_pair: Option<EndpointPair>,
) -> (r: PtyBridgeConfig)
    ensures
        r.symlink@ == args.symlink@,
        r.replace_symlink == args.replace_symlink,
        r.raw_log == raw_log,
        r.usb.manual_pair == manual_pair,
        r.usb.timeout_ms == secs_to_ms(args.usb.timeout),
        r.command_timeout_ms == secs_to_ms(args.usb.timeout),
{
    PtyBridgeConfig {
        symlink: args.symlink.clone(),
        replace_symlink: args.replace_symlink,
        raw_log,
        usb: usb_transport_config(&args.usb, manual_pair),
        command_timeout_ms: secs_to_ms_exec(args.usb.timeout),
    }
}

/// A direct AT command to send.
#[derive(Debug, Clone, PartialEq, Eq)]
pub struct SendArgs {
    pub command: String,
    pub usb: UsbOptions,
    pub no_mask: bool,
    pub no_log: bool,
    pub export_response: Option<String>,
    pub raw_log_file: Option<String>,
    pub raw_log_ack: Option<String>,
    pub json: bool,
    pub ignore_at_error: bool,
    pub yes: bool,
    pub risk_ack: Option<RiskLevel>,
}

/// A preset to run.
#[derive(Debug, Clone, PartialEq, Eq)]
pub struct PresetRunArgs {
    pub name: String,
    pub usb: UsbOptions,
    pub no_mask: bool,
    pub no_log: bool,
    pub export_response: Option<String>,
    pub raw_log_file: Option<String>,
    pub raw_log_ack: Option<String>,
    pub json: bool,
    pub ignore_at_error: bool,
    pub yes: bool,
    pub risk_ack: Option<RiskLevel>,
    pub preset_locations: PresetFileLocationOptions,
}

/// A sequence to run.
#[derive(Debug, Clone, PartialEq, Eq)]
pub struct SequenceRunArgs {
    pub name: String,
    pub usb: UsbOptions,
    pub no_mask: bool,
    pub no_log: bool,
    pub export_response: Option<String>,
    pub raw_log_file: Option<String>,
    pub raw_log_ack: Option<String>,
    pub json: bool,
    pub ignore_at_error: bool,
    pub yes: bool,
    pub risk_ack: Option<RiskLevel>,
    pub params: Vec<SequenceParamValue>,
    pub sequence_locations: SequenceFileLocationOptions,
}

/// The serial bridge to start.
#[derive(Debug, Clone, PartialEq, Eq)]
pub struct BridgeArgs {
    pub symlink: String,
    pub replace_symlink: bool,
    pub raw_log_file: Option<String>,
    pub raw_log_ack: Option<String>,
    pub usb: UsbOptions,
}

fn clone_opt(o: &Option<String>) -> (r: Option<String>)
    ensures
        r == *o,
{
    match o {
        Some(s) => Some(s.clone()),
        None => None,
    }
}

/// The send a preset makes: its command, and its timeout hint unless the
/// user changed the timeout from the default.
pub fn send_args_from_preset(preset: &Preset, args: &PresetRunArgs) -> (r: SendArgs)
    ensures
        r.command@ == preset.command@,
        r.usb == (UsbOptions {
            timeout: if args.usb.timeout == DEFAULT_COMMAND_TIMEOUT_SECS && preset.timeout_secs is Some {
                preset.timeout_secs->0
            } else {
                args.usb.timeout
            },
            ..args.usb
        }),
        r.no_mask == args.no_mask,
        r.no_log == args.no_log,
        r.export_response == args.export_response,
        r.raw_log_file == args.raw_log_file,
        r.raw_log_ack == args.raw_log_ack,
        r.json == args.json,
        r.ignore_at_error == args.ignore_at_error,
        r.yes == args.yes,
        r.risk_ack == args.risk_ack,
{
    let timeout = if args.usb.timeout == DEFAULT_COMMAND_TIMEOUT_SECS && preset.timeout_secs.is_some() {
        match preset.timeout_secs {
            Some(t) => t,
            None => args.usb.timeout,
        }
    } else {
        args.usb.timeout
    };
    let usb = UsbOptions {
        vid: args.usb.vid,
        pid: args.usb.pid,
        bus: args.usb.bus,
        address: args.usb.address,
        interface_number: args.usb.interface_number,
        bulk_in: args.usb.bulk_in,
        bulk_out: args.usb.bulk_out,
        timeout,
    };
    SendArgs {
        command: preset.command.clone(),
        usb,
        no_mask: args.no_mask,
        no_log: args.no_log,
        export_response: clone_opt(&args.export_response),
        raw_log_file: clone_opt(&args.raw_log_file),
        raw_log_ack: clone_opt(&args.raw_log_ack),
        json: args.json,
        ignore_at_error: args.ignore_at_error,
        yes: args.yes,
        risk_ack: args.risk_ack,
    }
}

/// The classification a preset is confirmed with: its normalized command
/// and its effective risk.
pub fn preset_classification(preset: &Preset) -> (r: RiskClassification)
    ensures
        r.normalized_command@ == normalized(preset.command@),
        r.risk == preset.risk,
        r.reason@ == "preset effective risk level"@,
{
    RiskClassification {
        normalized_command: normalize_command(preset.command.as_str()),
        risk: preset.risk,
        reason: "preset effective risk level",
    }
}

// ---------------------------------------------------------------------
// Lookups
// ---------------------------------------------------------------------
/// The first preset with exactly this name.
pub fn find_preset<'a>(presets: &'a [Preset], name: &str) -> (r: Result<&'a Preset, AtctlError>)
    ensures
        match r {
            Ok(p) => exists|i: int|
                0 <= i < presets@.len() && *p == presets@[i] && p.name@ == name@ && forall|k: int|
                    0 <= k < i ==> presets@[k].name@ != name@,
            Err(e) => (e matches AtctlError::PresetNotFound { name: n } && n@ == name@) && forall|
                k: int,
            | 0 <= k < presets@.len() ==> presets@[k].name@ != name@,
        },
{
    let mut i: usize = 0;
    while i < presets.len()
        invariant
            i <= presets.len(),
            forall|k: int| 0 <= k < i ==> presets@[k].name@ != name@,
        decreases presets.len() - i,
    {
        if crate::text::eq_str(&chars_of(presets[i].name.as_str()), name) {
            return Ok(&presets[i]);
        }
        i += 1;
    }
    Err(AtctlError::PresetNotFound { name: name.to_owned() })
}

/// The first sequence with exactly this name.
pub fn find_sequence<'a>(sequences: &'a [Sequence], name: &str) -> (r: Result<&'a Sequence, AtctlError>)
    ensures
        match r {
            Ok(s) => exists|i: int|
                0 <= i < sequences@.len() && *s == sequences@[i] && s.name@ == name@ && forall|
                    k: int,
                | 0 <= k < i ==> sequences@[k].name@ != name@,
            Err(e) => (e matches AtctlError::SequenceNotFound { name: n } && n@ == name@)
                && forall|k: int| 0 <= k < sequences@.len() ==> sequences@[k].name@ != name@,
        },
{
    let mut i: usize = 0;
    while i < sequences.len()
        invariant
            i <= sequences.len(),
            forall|k: int| 0 <= k < i ==> sequences@[k].name@ != name@,
        decreases sequences.len() - i,
    {
        if crate::text::eq_str(&chars_of(sequences[i].name.as_str()), name) {
            return Ok(&sequences[i]);
        }
        i += 1;
    }
    Err(AtctlError::SequenceNotFound { name: name.to_owned() })
}

// ---------------------------------------------------------------------
// Listings
// ---------------------------------------------------------------------
pub open spec fn timeout_text(t: Option<u64>) -> Seq<char> {
    match t {
        Some(v) => decimal(v as nat),
        None => "-"@,
    }
}

pub open spec fn categories_text(c: Seq<Seq<char>>) -> Seq<char> {
    if c.len() == 0 {
        "-"@
    } else {
        join_seqs(c, ","@)
    }
}

pub open spec fn preset_path_text(o: PresetOrigin) -> Seq<char> {
    match o {
        PresetOrigin::File { path, .. } => path@,
        _ => "-"@,
    }
}

/// The columns that preset and sequence rows share.
pub open spec fn row_head(
    name: Seq<char>,
    label: Seq<char>,
    declared: RiskLevel,
    risk: RiskLevel,
    timeout: Option<u64>,
    categories: Seq<Seq<char>>,
) -> Seq<char> {
    name + "\t"@ + label + "\t"@ + risk_name(declared) + "\t"@ + risk_name(risk) + "\t"@
        + timeout_text(timeout) + "\t"@ + categories_text(categories)
}

pub open spec fn preset_row(p: Preset) -> Seq<char> {
    row_head(
        p.name@,
        preset_origin_label(p.origin),
        p.declared_risk,
        p.risk,
        p.timeout_secs,
        strings_view(p.categories@),
    ) + "\t"@ + p.command@ + "\t"@ + preset_path_text(p.origin) + "\n"@
}

fn push_row_head(
    v: &mut Vec<char>,
    name: &str,
    label: &str,
    declared: RiskLevel,
    risk: RiskLevel,
    timeout: Option<u64>,
    categories: &Vec<String>,
)
    ensures
        final(v)@ == old(v)@ + row_head(
            name@,
            label@,
            declared,
            risk,
            timeout,
            strings_view(categories@),
        ),
{
    let ghost start = v@;
    push_str(v, name);
    push_str(v, "\t");
    push_str(v, label);
    push_str(v, "\t");
    push_str(v, declared.as_str());
    push_str(v, "\t");
    push_str(v, risk.as_str());
    push_str(v, "\t");
    push_timeout(v, timeout);
    push_str(v, "\t");
    push_categories(v, categories);
    assert(v@ =~= start + row_head(name@, label@, declared, risk, timeout, strings_view(categories@)));
}

pub open spec fn rows<T>(items: Seq<T>, row: spec_fn(T) -> Seq<char>) -> Seq<char>
    decreases items.len(),
{
    if items.len() == 0 {
        Seq::empty()
    } else {
        rows(items.drop_last(), row) + row(items.last())
    }
}

pub open spec fn preset_list_header() -> Seq<char> {
    "name\tpreset-set\tdeclared-risk\teffective-risk\ttimeout-secs\tcategories\tcommand\tsource-path\n"@
}

fn push_timeout(v: &mut Vec<char>, t: Option<u64>)
    ensures
        final(v)@ == old(v)@ + timeout_text(t),
{
    match t {
        Some(x) => push_decimal(v, x as u128),
        None => push_str(v, "-"),
    }
}

fn push_categories(v: &mut Vec<char>, c: &Vec<String>)
    ensures
        final(v)@ == old(v)@ + categories_text(strings_view(c@)),
{
    if c.len() == 0 {
        push_str(v, "-");
    } else {
        let mut parts: Vec<Vec<char>> = Vec::new();
        let mut i: usize = 0;
        while i < c.len()
            invariant
                i <= c.len(),
                seqs_view(parts@) == strings_view(c@).take(i as int),
            decreases c.len() - i,
        {
            crate::text::push_part(&mut parts, chars_of(c[i].as_str()));
            assert(seqs_view(parts@) =~= strings_view(c@).take(i + 1));
            i += 1;
        }
        assert(strings_view(c@).take(i as int) =~= strings_view(c@));
        let joined = join_chars(&parts, ",");
        push_all(v, &joined);
    }
}

fn push_preset_row(v: &mut Vec<char>, p: &Preset)
    ensures
        final(v)@ == old(v)@ + preset_row(*p),
{
    push_row_head(
        v,
        p.name.as_str(),
        p.origin.label(),
        p.declared_risk,
        p.risk,
        p.timeout_secs,
        &p.categories,
    );
    push_str(v, "\t");
    push_str(v, p.command.as_str());
    push_str(v, "\t");
    match p.origin.file_path() {
        Some(path) => push_str(v, path),
        None => push_str(v, "-"),
    }
    push_str(v, "\n");
}

/// The preset listing: a header and one tab-separated row per preset.
pub fn format_preset_list(presets: &[Preset]) -> (r: String)
    ensures
        r@ == preset_list_header() + rows(presets@, |p: Preset| preset_row(p)),
{
    let mut v = chars_of(
        "name\tpreset-set\tdeclared-risk\teffective-risk\ttimeout-secs\tcategories\tcommand\tsource-path\n",
    );
    let mut i: usize = 0;
    assert(presets@.take(0) =~= Seq::<Preset>::empty());
    while i < presets.len()
        invariant
            i <= presets.len(),
            v@ == preset_list_header() + rows(presets@.take(i as int), |p: Preset| preset_row(p)),
        decreases presets.len() - i,
    {
        push_preset_row(&mut v, &presets[i]);
        proof {
            assert(presets@.take(i + 1).drop_last() =~= presets@.take(i as int));
            assert(presets@.take(i + 1).last() == presets@[i as int]);
        }
        i += 1;
    }
    assert(presets@.take(i as int) =~= presets@);
    string_of(&v)
}

pub open spec fn sequence_path_text(o: SequenceOrigin) -> Seq<char> {
    match o {
        SequenceOrigin::File { path, .. } => path@,
        _ => "-"@,
    }
}

pub open spec fn required_summary(s: Sequence) -> Seq<char> {
    if required_displays(s.params@).len() == 0 {
        "-"@
    } else {
        join_seqs(required_displays(s.params@), ","@)
    }
}

pub open spec fn sequence_row(s: Sequence) -> Seq<char> {
    row_head(
        s.name@,
        sequence_origin_label(s.origin),
        s.declared_risk,
        s.risk,
        s.timeout_secs,
        strings_view(s.categories@),
    ) + "\t"@ + required_summary(s) + "\t"@ + s.summary@ + "\t"@ + sequence_path_text(s.origin)
        + "\n"@
}

pub open spec fn sequence_list_header() -> Seq<char> {
    "name\tsequence-set\tdeclared-risk\teffective-risk\ttimeout-secs\tcategories\trequired-params\tsummary\tsource-path\n"@
}

fn push_sequence_row(v: &mut Vec<char>, s: &Sequence)
    ensures
        final(v)@ == old(v)@ + sequence_row(*s),
{
    push_row_head(
        v,
        s.name.as_str(),
        s.origin.label(),
        s.declared_risk,
        s.risk,
        s.timeout_secs,
        &s.categories,
    );
    push_str(v, "\t");
    let summary = required_param_summary(s);
    push_str(v, summary.as_str());
    push_str(v, "\t");
    push_str(v, s.summary.as_str());
    push_str(v, "\t");
    match s.origin.file_path() {
        Some(path) => push_str(v, path),
        None => push_str(v, "-"),
    }
    push_str(v, "\n");
}

/// The sequence listing: a header and one tab-separated row per sequence.
pub fn format_sequence_list(sequences: &[Sequence]) -> (r: String)
    ensures
        r@ == sequence_list_header() + rows(sequences@, |s: Sequence| sequence_row(s)),
{
    let mut v = chars_of(
        "name\tsequence-set\tdeclared-risk\teffective-risk\ttimeout-secs\tcategories\trequired-params\tsummary\tsource-path\n",
    );
    let mut i: usize = 0;
    assert(sequences@.take(0) =~= Seq::<Sequence>::empty());
    while i < sequences.len()
        invariant
            i <= sequences.len(),
            v@ == sequence_list_header() + rows(sequences@.take(i as int), |s: Sequence| sequence_row(s)),
        decreases sequences.len() - i,
    {
        push_sequence_row(&mut v, &sequences[i]);
        proof {
            assert(sequences@.take(i + 1).drop_last() =~= sequences@.take(i as int));
            assert(sequences@.take(i + 1).last() == sequences@[i as int]);
        }
        i += 1;
    }
    assert(sequences@.take(i as int) =~= sequences@);
    string_of(&v)
}

// ---------------------------------------------------------------------
// Results and exports
// ---------------------------------------------------------------------
/// A direct command and its response.
#[derive(Debug, Clone)]
pub struct SendExecution {
    pub risk: RiskLevel,
    pub status: AtStatus,
    pub text: String,
    pub lines: Vec<String>,
    pub raw_text: String,
    pub raw_response: Vec<u8>,
    pub masked: bool,
    pub duration_ms: u64,
}

/// A failed AT status is an error unless the user chose to ignore it.
pub fn send_status_result(execution: &SendExecution, ignore_at_error: bool) -> (r: Result<(), AtctlError>)
    ensures
        status_is_success(execution.status@) || ignore_at_error ==> r is Ok,
        !(status_is_success(execution.status@) || ignore_at_error) ==> (r matches Err(
            AtctlError::AtCommandFailed { status },
        ) && status@ == execution.status@),
{
    if execution.status.is_success() || ignore_at_error {
        Ok(())
    } else {
        Err(AtctlError::AtCommandFailed { status: execution.status.duplicate() })
    }
}

/// A sequence that did not end `OK` is an error unless the user chose to
/// ignore it.
pub fn sequence_status_result(execution: &SequenceExecution, ignore_at_error: bool) -> (r: Result<
    (),
    AtctlError,
>)
    ensures
        status_is_success(execution.status@) || ignore_at_error ==> r is Ok,
        !(status_is_success(execution.status@) || ignore_at_error) ==> (r matches Err(
            AtctlError::AtCommandFailed { status },
        ) && status@ == execution.status@),
{
    if execution.status.is_success() || ignore_at_error {
        Ok(())
    } else {
        Err(AtctlError::AtCommandFailed { status: execution.status.duplicate() })
    }
}

/// The masked form of a text when masking is on.
pub open spec fn maybe_masked(s: Seq<char>, masked: bool) -> Seq<char> {
    if masked {
        masked_text(s)
    } else {
        s
    }
}

pub fn mask_if_needed(value: &str, masked: bool) -> (r: String)
    ensures
        r@ == maybe_masked(value@, masked),
{
    if masked {
        string_of(&mask_sensitive_chars(&chars_of(value)))
    } else {
        value.to_owned()
    }
}

/// `s` without trailing CR and LF.
pub open spec fn trim_end_crlf_spec(s: Seq<char>) -> Seq<char> {
    crate::text::trim_end_by(s, crate::at::command::crlf_pred())
}

/// A sequence export: `Sequence: <name>`, an empty line, and the chosen
/// transcript without trailing line breaks.
pub fn format_sequence_export_text(execution: &SequenceExecution, masked: bool) -> (r: String)
    ensures
        r@ == "Sequence: "@ + execution.name@ + "\n\n"@ + trim_end_crlf_spec(
            if masked {
                execution.masked_transcript@
            } else {
                execution.raw_transcript@
            },
        ) + "\n"@,
{
    let transcript = if masked {
        chars_of(execution.masked_transcript.as_str())
    } else {
        chars_of(execution.raw_transcript.as_str())
    };
    let trimmed = crate::at::command::trim_end_crlf(&transcript);
    let mut v = chars_of("Sequence: ");
    push_str(&mut v, execution.name.as_str());
    push_str(&mut v, "\n\n");
    push_all(&mut v, &trimmed);
    push_str(&mut v, "\n");
    string_of(&v)
}

/// A line of `str::lines`: one trailing CR is dropped when a line feed
/// ended the line.
pub open spec fn strip_cr(line: Seq<char>) -> Seq<char> {
    if line.len() > 0 && line.last() == '\r' {
        line.drop_last()
    } else {
        line
    }
}

/// The first line of `str::lines(s)` that is not blank.
pub open spec fn first_nonblank_line(s: Seq<char>) -> Option<Seq<char>>
    decreases s.len(),
{
    if s.len() == 0 {
        None
    } else {
        let k = lead_len(s, not_newline_pred());
        if k < s.len() {
            if trim(strip_cr(s.take(k as int))).len() > 0 {
                Some(strip_cr(s.take(k as int)))
            } else {
                first_nonblank_line(s.skip(k + 1int))
            }
        } else if trim(s).len() > 0 {
            Some(s)
        } else {
            None
        }
    }
}

fn strip_cr_exec(v: Vec<char>) -> (r: Vec<char>)
    ensures
        r@ == strip_cr(v@),
{
    if v.len() > 0 && v[v.len() - 1] == '\r' {
        let r = slice(&v, 0, v.len() - 1);
        assert(r@ =~= v@.drop_last());
        r
    } else {
        v
    }
}

fn first_nonblank_line_exec(v: &Vec<char>) -> (r: Option<Vec<char>>)
    ensures
        match first_nonblank_line(v@) {
            Some(l) => r matches Some(x) && x@ == l,
            None => r is None,
        },
{
    let mut start: usize = 0;
    assert(v@.skip(0) =~= v@);
    while start < v.len()
        invariant
            start <= v.len(),
            first_nonblank_line(v@) == first_nonblank_line(v@.skip(start as int)),
        decreases v.len() - start,
    {
        let mut i = start;
        while i < v.len() && v[i] != '\n'
            invariant
                start <= i <= v.len(),
                forall|k: int| start <= k < i ==> v@[k] != '\n',
            decreases v.len() - i,
        {
            i += 1;
        }
        let ghost rest = v@.skip(start as int);
        proof {
            lemma_lead_len_from(v@, not_newline_pred(), start as int, i as int);
        }
        let piece = slice(v, start, i);
        assert(piece@ =~= rest.take(i - start));
        if i < v.len() {
            let line = strip_cr_exec(piece);
            let t = trim_chars(&line);
            if t.len() > 0 {
                return Some(line);
            }
            assert(rest.skip(i - start + 1) =~= v@.skip(i + 1));
            start = i + 1;
        } else {
            assert(rest.take(i - start) =~= rest);
            let t = trim_chars(&piece);
            if t.len() > 0 {
                return Some(piece);
            }
            return None;
        }
    }
    None
}

/// The text export of a direct command: the response without trailing
/// line breaks, preceded by the (masked, when masking is on) command unless
/// the response's first non-blank line already is that command.
pub open spec fn send_export_text(command: Seq<char>, text: Seq<char>, masked: bool) -> Seq<char> {
    let c = maybe_masked(command, masked);
    let response = trim_end_crlf_spec(text);
    let echoed = match first_nonblank_line(response) {
        Some(l) => normalized(l) == normalized(c),
        None => false,
    };
    if echoed {
        response + "\n"@
    } else {
        c + "\n"@ + response + "\n"@
    }
}

/// The plain-text response export of a direct command.
pub fn format_send_export_text(command: &str, execution: &SendExecution) -> (r: String)
    ensures
        r@ == send_export_text(command@, execution.text@, execution.masked),
{
    let c = chars_of(mask_if_needed(command, execution.masked).as_str());
    let response = crate::at::command::trim_end_crlf(&chars_of(execution.text.as_str()));
    let echoed = match first_nonblank_line_exec(&response) {
        Some(l) => crate::text::chars_eq(&normalize_chars(&l), &normalize_chars(&c)),
        None => false,
    };
    let mut v: Vec<char> = Vec::new();
    if !echoed {
        push_all(&mut v, &c);
        push_str(&mut v, "\n");
    }
    push_all(&mut v, &response);
    push_str(&mut v, "\n");
    string_of(&v)
}

// ---------------------------------------------------------------------
// Confirmation
// ---------------------------------------------------------------------
/// The file a preset or sequence was loaded from, and its label.
#[derive(Debug, Clone, Copy)]
pub struct ExternalDefinitionSource<'a> {
    pub label: &'a str,
    pub path: &'a str,
}

/// The file source of a preset loaded from a file.
pub fn external_preset_source(preset: &Preset) -> (r: Option<ExternalDefinitionSource<'_>>)
    ensures
        match preset.origin {
            PresetOrigin::File { title, path, .. } => r matches Some(s) && s.label@ == title@
                && s.path@ == path@,
            _ => r is None,
        },
{
    match preset.origin.file_path() {
        Some(path) => Some(ExternalDefinitionSource { label: preset.origin.label(), path }),
        None => None,
    }
}

/// The file source of a sequence loaded from a file.
pub fn external_sequence_source(sequence: &Sequence) -> (r: Option<ExternalDefinitionSource<'_>>)
    ensures
        match sequence.origin {
            SequenceOrigin::File { title, path, .. } => r matches Some(s) && s.label@ == title@
                && s.path@ == path@,
            _ => r is None,
        },
{
    match sequence.origin.file_path() {
        Some(path) => Some(ExternalDefinitionSource { label: sequence.origin.label(), path }),
        None => None,
    }
}

/// The questions put to the user before a risky run.
pub trait ConfirmationPrompt {
    /// Tells the user that a definition comes from a file; by default
    /// nothing is shown.
    fn notice_external_definition(
        &mut self,
        external_source: ExternalDefinitionSource<'_>,
    ) -> Result<(), AtctlError> {
        Ok(())
    }

    /// Asks the user to confirm a command of the classified risk.
    fn confirm(
        &mut self,
        classification: &RiskClassification,
        external_source: Option<ExternalDefinitionSource<'_>>,
    ) -> Result<(), AtctlError>;

    /// Asks the user to confirm a sequence; by default as a command.
    fn confirm_sequence(
        &mut self,
        classification: &RiskClassification,
        sequence_name: &str,
        before_running: &[String],
        review: &[SequenceReviewValue],
        external_source: Option<ExternalDefinitionSource<'_>>,
    ) -> Result<(), AtctlError> {
        self.confirm(classification, external_source)
    }

    /// Asks the user to acknowledge a raw export; by default refused.
    fn confirm_raw_log(&mut self, path: &str) -> Result<(), AtctlError> {
        Err(AtctlError::RawLogAckRequired)
    }

    /// Whether someone is there to answer, as on a terminal; by default no.
    fn is_interactive(&self) -> bool {
        false
    }
}

/// The file source of a definition as plain text: its label and path.
pub open spec fn source_view(source: Option<ExternalDefinitionSource<'_>>) -> Option<(Seq<char>, Seq<char>)> {
    match source {
        Some(s) => Some((s.label@, s.path@)),
        None => None,
    }
}

/// One question put through a [`PromptLink`], with the answer it got.
pub enum PromptEvent {
    Notice { label: Seq<char>, path: Seq<char>, answer: Result<(), AtctlError> },
    Confirm {
        classification: RiskClassification,
        source: Option<(Seq<char>, Seq<char>)>,
        answer: Result<(), AtctlError>,
    },
    ConfirmSequence {
        classification: RiskClassification,
        sequence_name: Seq<char>,
        source: Option<(Seq<char>, Seq<char>)>,
        answer: Result<(), AtctlError>,
    },
    ConfirmRawLog { path: Seq<char>, answer: Result<(), AtctlError> },
}

/// A prompt together with the record of every question put to it through
/// the library, and each answer, in order.
pub struct PromptLink<P: ConfirmationPrompt> {
    prompt: P,
    history: Ghost<Seq<PromptEvent>>,
}

impl<P: ConfirmationPrompt> PromptLink<P> {
    /// The questions put so far.
    pub closed spec fn history(&self) -> Seq<PromptEvent> {
        self.history@
    }

    /// A link over `prompt` with no question recorded.
    pub fn new(prompt: P) -> (r: Self)
        ensures
            r.history() == Seq::<PromptEvent>::empty(),
    {
        PromptLink { prompt, history: Ghost(Seq::empty()) }
    }

    /// The prompt itself.
    pub fn prompt(&self) -> &P {
        &self.prompt
    }

    /// Gives the prompt back.
    pub fn into_prompt(self) -> P {
        self.prompt
    }

    pub fn notice_external_definition(&mut self, source: ExternalDefinitionSource<'_>) -> (r: Result<
        (),
        AtctlError,
    >)
        ensures
            final(self).history() == old(self).history().push(
                PromptEvent::Notice { label: source.label@, path: source.path@, answer: r },
            ),
    {
        let r = self.prompt.notice_external_definition(source);
        proof {
            self.history@ = self.history@.push(
                PromptEvent::Notice { label: source.label@, path: source.path@, answer: r },
            );
        }
        r
    }

    pub fn confirm(
        &mut self,
        classification: &RiskClassification,
        source: Option<ExternalDefinitionSource<'_>>,
    ) -> (r: Result<(), AtctlError>)
        ensures
            final(self).history() == old(self).history().push(
                PromptEvent::Confirm {
                    classification: *classification,
                    source: source_view(source),
                    answer: r,
                },
            ),
    {
        let r = self.prompt.confirm(classification, source);
        proof {
            self.history@ = self.history@.push(
                PromptEvent::Confirm {
                    classification: *classification,
                    source: source_view(source),
                    answer: r,
                },
            );
        }
        r
    }

    pub fn confirm_sequence(
        &mut self,
        classification: &RiskClassification,
        sequence_name: &str,
        before_running: &[String],
        review: &[SequenceReviewValue],
        source: Option<ExternalDefinitionSource<'_>>,
    ) -> (r: Result<(), AtctlError>)
        ensures
            final(self).history() == old(self).history().push(
                PromptEvent::ConfirmSequence {
                    classification: *classification,
                    sequence_name: sequence_name@,
                    source: source_view(source),
                    answer: r,
                },
            ),
    {
        let r = self.prompt.confirm_sequence(classification, sequence_name, before_running, review, source);
        proof {
            self.history@ = self.history@.push(
                PromptEvent::ConfirmSequence {
                    classification: *classification,
                    sequence_name: sequence_name@,
                    source: source_view(source),
                    answer: r,
                },
            );
        }
        r
    }

    pub fn confirm_raw_log(&mut self, path: &str) -> (r: Result<(), AtctlError>)
        ensures
            final(self).history() == old(self).history().push(
                PromptEvent::ConfirmRawLog { path: path@, answer: r },
            ),
    {
        let r = self.prompt.confirm_raw_log(path);
        proof {
            self.history@ = self.history@.push(PromptEvent::ConfirmRawLog { path: path@, answer: r });
        }
        r
    }

    pub fn is_interactive(&self) -> bool {
        self.prompt.is_interactive()
    }
}

/// A prompt that refuses every confirmation (the TUI confirms beforehand).
pub struct RejectingConfirmationPrompt;

impl ConfirmationPrompt for RejectingConfirmationPrompt {
    fn confirm(
        &mut self,
        classification: &RiskClassification,
        external_source: Option<ExternalDefinitionSource<'_>>,
    ) -> (r: Result<(), AtctlError>)
        ensures
            r == Err::<(), AtctlError>(AtctlError::ConfirmationRequired { risk: classification.risk }),
    {
        Err(AtctlError::ConfirmationRequired { risk: classification.risk })
    }
}

/// A prompt with nobody to answer: confirmations are refused.
pub struct NonInteractiveConfirmationPrompt;

impl ConfirmationPrompt for NonInteractiveConfirmationPrompt {
    fn confirm(
        &mut self,
        classification: &RiskClassification,
        external_source: Option<ExternalDefinitionSource<'_>>,
    ) -> (r: Result<(), AtctlError>)
        ensures
            r == Err::<(), AtctlError>(AtctlError::ConfirmationRequired { risk: classification.risk }),
    {
        Err(AtctlError::ConfirmationRequired { risk: classification.risk })
    }
}

/// When no interactive confirmation is asked for, a definition loaded from
/// a file is still announced.
pub fn notice_external_definition_without_interactive_confirmation<P: ConfirmationPrompt>(
    prompt: &mut PromptLink<P>,
    confirmation: DirectSendConfirmation,
    external_source: Option<ExternalDefinitionSource<'_>>,
) -> (r: Result<(), AtctlError>)
    ensures
        confirmation is InteractiveRequired || external_source is None ==> r is Ok && final(prompt).history() == old(prompt).history(),
        !(confirmation is InteractiveRequired) ==> match external_source {
            Some(src) => final(prompt).history() == old(prompt).history().push(
                PromptEvent::Notice { label: src.label@, path: src.path@, answer: r },
            ),
            None => true,
        },
{
    if let DirectSendConfirmation::InteractiveRequired { .. } = confirmation {
        return Ok(());
    }
    match external_source {
        Some(source) => prompt.notice_external_definition(source),
        None => Ok(()),
    }
}

// ---------------------------------------------------------------------
// Raw diagnostic export options
// ---------------------------------------------------------------------
/// The raw export options a successful run accepted: an acknowledgement
/// only with a file; with a file, the exact acknowledgement, or none when
/// the user was asked instead (never with `--yes`).
pub open spec fn raw_log_options_accepted(
    file: Option<String>,
    ack: Option<String>,
    yes: bool,
) -> bool {
    match file {
        None => ack is None,
        Some(_) => match ack {
            Some(a) => a@ == RAW_LOG_ACK@,
            None => !yes,
        },
    }
}

/// The error for an acknowledgement given without a file.
pub open spec fn is_ack_without_file_error(e: AtctlError) -> bool {
    e matches AtctlError::InvalidValue { name, value } && name@ == "--raw-log-ack"@ && value@
        == "requires --raw-log-file"@
}

fn ack_without_file_error() -> (e: AtctlError)
    ensures
        is_ack_without_file_error(e),
{
    AtctlError::InvalidValue { name: "--raw-log-ack", value: "requires --raw-log-file".to_owned() }
}

fn opt_str(o: &Option<String>) -> (r: Option<&str>)
    ensures
        match *o {
            Some(s) => r matches Some(x) && x@ == s@,
            None => r is None,
        },
{
    match o {
        Some(s) => Some(s.as_str()),
        None => None,
    }
}

/// Whether `after` is `before` with one raw export question about `path`
/// added, and a refusal is the result `r`.
pub open spec fn raw_log_question(
    before: Seq<PromptEvent>,
    after: Seq<PromptEvent>,
    path: Seq<char>,
    r: Result<Option<RawLogConfig>, AtctlError>,
) -> bool {
    &&& after.len() == before.len() + 1
    &&& after.drop_last() == before
    &&& match after.last() {
        PromptEvent::ConfirmRawLog { path: p, answer } => p == path && match answer {
            Err(e) => r == Err::<Option<RawLogConfig>, AtctlError>(e),
            Ok(_) => true,
        },
        _ => false,
    }
}

/// The raw export of a direct command, checked before the modem is
/// touched: the acknowledgement, or the user's answer when none was given
/// on an interactive run without `--yes`, and a free target path.
pub fn prepare_raw_log_config<P: ConfirmationPrompt, F: RawLogFiles>(
    args: &SendArgs,
    prompt: &mut PromptLink<P>,
    files: &mut F,
    source: &str,
) -> (r: Result<Option<RawLogConfig>, AtctlError>)
    ensures
        final(prompt).history() == old(prompt).history() || (args.raw_log_file matches Some(f)
            && args.raw_log_ack is None && !args.yes && raw_log_question(
            old(prompt).history(),
            final(prompt).history(),
            f@,
            r,
        )),
        r is Ok && args.raw_log_file is Some && args.raw_log_ack is None ==> final(prompt).history()
            == old(prompt).history().push(
            PromptEvent::ConfirmRawLog { path: args.raw_log_file->0@, answer: Ok(()) },
        ),
        args.raw_log_file is None && args.raw_log_ack is Some ==> (r matches Err(e)
            && is_ack_without_file_error(e)),
        args.raw_log_file is None && args.raw_log_ack is None ==> r == Ok::<
            Option<RawLogConfig>,
            AtctlError,
        >(None),
        args.raw_log_file is Some ==> match args.raw_log_ack {
            Some(a) => a@ != RAW_LOG_ACK@ ==> (r matches Err(AtctlError::RawLogAckMismatch { acknowledged })
                && acknowledged@ == a@),
            None => args.yes ==> r == Err::<Option<RawLogConfig>, AtctlError>(AtctlError::RawLogAckRequired),
        },
        r is Ok ==> raw_log_options_accepted(args.raw_log_file, args.raw_log_ack, args.yes),
        r matches Ok(Some(c)) ==> args.raw_log_file matches Some(f) && c.path@ == f@
            && c.surface@ == "cli"@ && c.source@ == source@,
{
    let path = match &args.raw_log_file {
        None => {
            if args.raw_log_ack.is_some() {
                return Err(ack_without_file_error());
            }
            return Ok(None);
        },
        Some(path) => path,
    };
    match &args.raw_log_ack {
        Some(_) => require_raw_log_ack(opt_str(&args.raw_log_ack))?,
        None => {
            if args.yes || !prompt.is_interactive() {
                return Err(AtctlError::RawLogAckRequired);
            }
            let ghost p0 = prompt.history();
            let answer = prompt.confirm_raw_log(path.as_str());
            assert(prompt.history().drop_last() =~= p0);
            answer?;
        },
    }
    files.validate_target(path.as_str())?;
    Ok(Some(RawLogConfig::new(path.as_str(), "cli", source)))
}

/// The raw export of a sequence run: it always needs the acknowledgement.
pub fn prepare_sequence_raw_log_config<F: RawLogFiles>(
    args: &SequenceRunArgs,
    sequence: &Sequence,
    files: &mut F,
) -> (r: Result<Option<RawLogConfig>, AtctlError>)
    ensures
        args.raw_log_file is None && args.raw_log_ack is Some ==> (r matches Err(e)
            && is_ack_without_file_error(e)),
        args.raw_log_file is None && args.raw_log_ack is None ==> r == Ok::<
            Option<RawLogConfig>,
            AtctlError,
        >(None),
        args.raw_log_file is Some ==> match args.raw_log_ack {
            Some(a) => a@ != RAW_LOG_ACK@ ==> (r matches Err(AtctlError::RawLogAckMismatch { acknowledged })
                && acknowledged@ == a@),
            None => r == Err::<Option<RawLogConfig>, AtctlError>(AtctlError::RawLogAckRequired),
        },
        r matches Ok(Some(c)) ==> args.raw_log_file matches Some(f) && c.path@ == f@
            && c.surface@ == "cli"@ && c.source@ == "sequence:"@ + sequence.name@,
{
    let path = match &args.raw_log_file {
        None => {
            if args.raw_log_ack.is_some() {
                return Err(ack_without_file_error());
            }
            return Ok(None);
        },
        Some(path) => path,
    };
    require_raw_log_ack(opt_str(&args.raw_log_ack))?;
    files.validate_target(path.as_str())?;
    let mut source = chars_of("sequence:");
    push_str(&mut source, sequence.name.as_str());
    Ok(Some(RawLogConfig::new(path.as_str(), "cli", string_of(&source).as_str())))
}

/// The raw export of the serial bridge: it always needs the
/// acknowledgement.
pub fn bridge_raw_log_config<F: RawLogFiles>(args: &BridgeArgs, files: &mut F) -> (r: Result<
    Option<RawLogConfig>,
    AtctlError,
>)
    ensures
        args.raw_log_file is None && args.raw_log_ack is Some ==> (r matches Err(e)
            && is_ack_without_file_error(e)),
        args.raw_log_file is None && args.raw_log_ack is None ==> r == Ok::<
            Option<RawLogConfig>,
            AtctlError,
        >(None),
        args.raw_log_file is Some ==> match args.raw_log_ack {
            Some(a) => a@ != RAW_LOG_ACK@ ==> (r matches Err(AtctlError::RawLogAckMismatch { acknowledged })
                && acknowledged@ == a@),
            None => r == Err::<Option<RawLogConfig>, AtctlError>(AtctlError::RawLogAckRequired),
        },
        r matches Ok(Some(c)) ==> args.raw_log_file matches Some(f) && c.path@ == f@
            && c.surface@ == "bridge"@ && c.source@ == "bridge"@,
{
    let path = match &args.raw_log_file {
        None => {
            if args.raw_log_ack.is_some() {
                return Err(ack_without_file_error());
            }
            return Ok(None);
        },
        Some(path) => path,
    };
    require_raw_log_ack(opt_str(&args.raw_log_ack))?;
    files.validate_target(path.as_str())?;
    Ok(Some(RawLogConfig::new(path.as_str(), "bridge", "bridge")))
}

// ---------------------------------------------------------------------
// Direct commands
// ---------------------------------------------------------------------
/// Each line, masked when masking is on.
pub open spec fn masked_lines(lines: Seq<Seq<char>>, masked: bool) -> Seq<Seq<char>> {
    lines.map_values(|l: Seq<char>| maybe_masked(l, masked))
}

fn mask_lines(lines: &Vec<String>, masked: bool) -> (r: Vec<String>)
    ensures
        strings_view(r@) == masked_lines(strings_view(lines@), masked),
{
    let mut out: Vec<String> = Vec::new();
    let mut i: usize = 0;
    while i < lines.len()
        invariant
            i <= lines.len(),
            strings_view(out@) == masked_lines(strings_view(lines@.take(i as int)), masked),
        decreases lines.len() - i,
    {
        let m = mask_if_needed(lines[i].as_str(), masked);
        let ghost before = strings_view(out@);
        out.push(m);
        proof {
            assert(strings_view(lines@.take(i + 1)) =~= strings_view(lines@.take(i as int)).push(
                lines@[i as int]@,
            ));
            assert(strings_view(out@) =~= before.push(m@));
            assert(masked_lines(strings_view(lines@.take(i + 1)), masked) =~= masked_lines(
                strings_view(lines@.take(i as int)),
                masked,
            ).push(maybe_masked(lines@[i as int]@, masked)));
        }
        i += 1;
    }
    assert(lines@.take(i as int) =~= lines@);
    out
}

/// What a direct command run makes of the reply: the decoded text and its
/// lines, masked when masking is on, and the status of its last final
/// result line.
pub open spec fn send_execution_of(args: SendArgs, risk: RiskLevel, e: SendExecution) -> bool {
    let text = utf8_lossy(e.raw_response@);
    &&& e.risk == risk
    &&& e.masked == !args.no_mask
    &&& e.raw_text@ == text
    &&& vstd::utf8::valid_utf8(e.raw_response@) ==> text == vstd::utf8::decode_utf8(e.raw_response@)
    &&& e.status@ == detect_status_spec(text_lines(text))
    &&& e.text@ == maybe_masked(text, e.masked)
    &&& strings_view(e.lines@) == masked_lines(text_lines(text), e.masked)
}

/// Records a transport failure in the raw export, when there is one.
fn append_cli_raw_error<F: RawLogFiles>(
    raw_log: &Option<RawLogConfig>,
    files: &mut F,
    command: &str,
    risk: RiskLevel,
    duration_ms: u64,
    stage: &str,
    error: &AtctlError,
    tx_bytes: &[u8],
) -> (r: Result<(), AtctlError>)
    ensures
        raw_log is None ==> r is Ok,
{
    match raw_log {
        None => Ok(()),
        Some(config) => {
            let mut sink = files.create(config)?;
            sink.append_transport_error(
                RawLogTransportError {
                    command_name: None,
                    command: command.to_owned(),
                    risk,
                    duration_ms,
                    stage: stage.to_owned(),
                    error: error.message(),
                    tx_bytes: vstd::slice::slice_to_vec(tx_bytes),
                    rx_bytes: Vec::new(),
                },
            )
        },
    }
}

/// A classification as plain text: the normalized command, the risk and
/// the reason.
pub open spec fn classification_view(c: RiskClassification) -> (Seq<char>, RiskLevel, Seq<char>) {
    (c.normalized_command@, c.risk, c.reason@)
}

/// The answer to the first question added after `before`, when that
/// question asked to confirm `classification` for `source`.
pub open spec fn confirm_answer(
    before: Seq<PromptEvent>,
    after: Seq<PromptEvent>,
    classification: (Seq<char>, RiskLevel, Seq<char>),
    source: Option<(Seq<char>, Seq<char>)>,
) -> Option<Result<(), AtctlError>> {
    if after.len() > before.len() {
        match after[before.len() as int] {
            PromptEvent::Confirm { classification: c, source: s, answer } => if classification_view(c)
                == classification && s == source {
                Some(answer)
            } else {
                None
            },
            _ => None,
        }
    } else {
        None
    }
}

/// The answer to the first question added after `before`, when that
/// question announced the file `source`.
pub open spec fn notice_answer(
    before: Seq<PromptEvent>,
    after: Seq<PromptEvent>,
    source: (Seq<char>, Seq<char>),
) -> Option<Result<(), AtctlError>> {
    if after.len() > before.len() {
        match after[before.len() as int] {
            PromptEvent::Notice { label, path, answer } => if label == source.0 && path == source.1 {
                Some(answer)
            } else {
                None
            },
            _ => None,
        }
    } else {
        None
    }
}

/// Whether every question from position `from` on asks to acknowledge a raw
/// export.
pub open spec fn only_raw_log_questions(after: Seq<PromptEvent>, from: int) -> bool {
    forall|k: int| from <= k < after.len() ==> #[trigger] after[k] is ConfirmRawLog
}

/// What the prompt was asked around a direct command, whatever the outcome:
/// nothing when the policy or the timeout refused it; when the policy needs
/// the user, first the confirmation of this classification, whose refusal is
/// the result and leaves the transport untouched, and without whose consent
/// the transport is not touched; otherwise first the announcement of the
/// file the command came from, if any. Every later question, if any, asks to
/// acknowledge the raw export.
pub open spec fn prompt_protocol(
    policy: Result<DirectSendConfirmation, AtctlError>,
    timeout: u64,
    classification: (Seq<char>, RiskLevel, Seq<char>),
    source: Option<(Seq<char>, Seq<char>)>,
    before: Seq<PromptEvent>,
    after: Seq<PromptEvent>,
    r_err: Option<AtctlError>,
    transport_untouched: bool,
) -> bool {
    if policy is Err || timeout == 0 {
        after == before
    } else if policy matches Ok(DirectSendConfirmation::InteractiveRequired { .. }) {
        &&& confirm_answer(before, after, classification, source) is Some
        &&& confirm_answer(before, after, classification, source) matches Some(Err(e)) ==> r_err
            == Some(e) && transport_untouched
        &&& !transport_untouched ==> confirm_answer(before, after, classification, source) == Some(
            Ok::<(), AtctlError>(()),
        )
        &&& r_err is None ==> confirm_answer(before, after, classification, source) == Some(
            Ok::<(), AtctlError>(()),
        )
        &&& only_raw_log_questions(after, before.len() + 1int)
    } else {
        match source {
            Some(src) => {
                &&& notice_answer(before, after, src) is Some
                &&& notice_answer(before, after, src) matches Some(Err(e)) ==> r_err == Some(e)
                    && transport_untouched
                &&& only_raw_log_questions(after, before.len() + 1int)
            },
            None => only_raw_log_questions(after, before.len() as int),
        }
    }
}

/// Whether the calls `evs`, if any, begin by opening the transport and write
/// nothing but `command`.
pub open spec fn opens_then_writes_only(evs: Seq<TransportEvent>, command: Seq<char>) -> bool {
    &&& evs.len() > 0 ==> evs[0] == TransportEvent::Open
    &&& forall|k: int|
        0 <= k < evs.len() && (#[trigger] evs[k]) is Write ==> evs[k] == TransportEvent::Write(command)
}

/// Sends one command after the confirmation policy, the timeout and the
/// raw export options have been checked, and reads its response. Errors of
/// the policy come first, before anything else is touched.
pub fn execute_command_with_confirmation<T: AtTransport, P: ConfirmationPrompt, F: RawLogFiles>(
    args: &SendArgs,
    transport: &mut AtLink<T>,
    prompt: &mut PromptLink<P>,
    files: &mut F,
    classification: RiskClassification,
    source: &str,
    external_source: Option<ExternalDefinitionSource<'_>>,
) -> (r: Result<SendExecution, AtctlError>)
    ensures
        confirmation_spec(classification.risk, args.yes, args.risk_ack) matches Err(e)
            ==> r == Err::<SendExecution, AtctlError>(e),
        confirmation_spec(classification.risk, args.yes, args.risk_ack) is Ok && args.usb.timeout
            == 0 ==> (r matches Err(AtctlError::InvalidValue { name, value }) && name@
            == "--timeout"@ && value@ == "must be greater than zero"@),
        r is Ok ==> confirmation_spec(classification.risk, args.yes, args.risk_ack) is Ok
            && args.usb.timeout > 0 && raw_log_options_accepted(
            args.raw_log_file,
            args.raw_log_ack,
            args.yes,
        ),
        r matches Ok(e) ==> send_execution_of(*args, classification.risk, e),
        confirmation_spec(classification.risk, args.yes, args.risk_ack) is Err || args.usb.timeout
            == 0 ==> final(transport).history() == old(transport).history(),
        r matches Ok(e) ==> final(transport).history() == old(transport).history() + seq![
            TransportEvent::Open,
            TransportEvent::Write(with_terminator(args.command@)),
            TransportEvent::Read(Some(e.raw_response@)),
            TransportEvent::Close,
        ],
        extends(old(transport).history(), final(transport).history()),
        opens_then_writes_only(
            since(final(transport).history(), old(transport).history().len() as int),
            with_terminator(args.command@),
        ),
        prompt_protocol(
            confirmation_spec(classification.risk, args.yes, args.risk_ack),
            args.usb.timeout,
            classification_view(classification),
            source_view(external_source),
            old(prompt).history(),
            final(prompt).history(),
            match r {
                Ok(_) => None,
                Err(e) => Some(e),
            },
            final(transport).history() == old(transport).history(),
        ),
        confirmation_spec(classification.risk, args.yes, args.risk_ack) is Ok && args.usb.timeout > 0
            && !raw_log_options_accepted(args.raw_log_file, args.raw_log_ack, args.yes) ==> r is Err
            && final(transport).history() == old(transport).history(),
{
    let ghost h0 = transport.history();
    let ghost p0 = prompt.history();
    assert(h0.take(h0.len() as int) =~= h0);
    assert(since(h0, h0.len() as int) =~= Seq::<TransportEvent>::empty());
    let confirmation = direct_send_confirmation(&classification, args.yes, args.risk_ack)?;
    if args.usb.timeout == 0 {
        return Err(
            AtctlError::InvalidValue { name: "--timeout", value: "must be greater than zero".to_owned() },
        );
    }
    if let DirectSendConfirmation::InteractiveRequired { .. } = confirmation {
        prompt.confirm(&classification, external_source)?;
    } else {
        notice_external_definition_without_interactive_confirmation(
            prompt,
            confirmation,
            external_source,
        )?;
    }
    let raw_log = prepare_raw_log_config(args, prompt, files, source)?;
    let started = clock_now();
    let opened = transport.open();
    proof {
        assert(transport.history().take(h0.len() as int) =~= h0);
    }
    opened?;
    let tx = command_with_terminator(args.command.as_str());
    let written = transport.write_command(tx.as_str());
    proof {
        assert(transport.history().take(h0.len() as int) =~= h0);
    }
    match written {
        Ok(()) => {},
        Err(error) => {
            append_cli_raw_error(
                &raw_log,
                files,
                args.command.as_str(),
                classification.risk,
                millis_since(&started),
                "write_command",
                &error,
                tx.as_str().as_bytes(),
            )?;
            let _ = transport.close();
            proof {
                assert(transport.history().take(h0.len() as int) =~= h0);
            }
            return Err(error);
        },
    }
    let read = transport.read_response(secs_to_ms_exec(args.usb.timeout));
    proof {
        assert(transport.history().take(h0.len() as int) =~= h0);
    }
    let raw_response = match read {
        Ok(raw) => raw,
        Err(error) => {
            append_cli_raw_error(
                &raw_log,
                files,
                args.command.as_str(),
                classification.risk,
                millis_since(&started),
                "read_response",
                &error,
                tx.as_str().as_bytes(),
            )?;
            let _ = transport.close();
            proof {
                assert(transport.history().take(h0.len() as int) =~= h0);
            }
            return Err(error);
        },
    };
    let close_result = transport.close();
    proof {
        assert(transport.history().take(h0.len() as int) =~= h0);
    }
    let response = parse_response(raw_response.as_slice());
    let duration_ms = millis_since(&started);
    let masked = !args.no_mask;
    let text = mask_if_needed(response.text.as_str(), masked);
    let lines = mask_lines(&response.lines, masked);
    let execution = SendExecution {
        risk: classification.risk,
        status: response.status,
        text,
        lines,
        raw_text: response.text,
        raw_response: response.raw,
        masked,
        duration_ms,
    };
    match &raw_log {
        Some(config) => {
            let mut sink = files.create(config)?;
            sink.append_exchange(
                RawLogExchange {
                    command_name: None,
                    command: args.command.clone(),
                    risk: execution.risk,
                    status: execution.status.duplicate(),
                    duration_ms,
                    tx_bytes: vstd::slice::slice_to_vec(tx.as_str().as_bytes()),
                    rx_bytes: vstd::slice::slice_to_vec(execution.raw_response.as_slice()),
                },
            )?;
        },
        None => {},
    }
    close_result?;
    assert(transport.history() =~= h0 + seq![
        TransportEvent::Open,
        TransportEvent::Write(with_terminator(args.command@)),
        TransportEvent::Read(Some(execution.raw_response@)),
        TransportEvent::Close,
    ]);
    Ok(execution)
}

/// Sends a direct command, classified by its text.
pub fn execute_send_with_confirmation<T: AtTransport, P: ConfirmationPrompt, F: RawLogFiles>(
    args: &SendArgs,
    transport: &mut AtLink<T>,
    prompt: &mut PromptLink<P>,
    files: &mut F,
) -> (r: Result<SendExecution, AtctlError>)
    ensures
        ({
            let risk = classify_spec(normalized(args.command@)).0;
            &&& confirmation_spec(risk, args.yes, args.risk_ack) matches Err(e) ==> r == Err::<
                SendExecution,
                AtctlError,
            >(e)
            &&& confirmation_spec(risk, args.yes, args.risk_ack) is Ok && args.usb.timeout == 0 ==> (
            r matches Err(AtctlError::InvalidValue { name, value }) && name@ == "--timeout"@
                && value@ == "must be greater than zero"@)
            &&& r is Ok ==> confirmation_spec(risk, args.yes, args.risk_ack) is Ok && args.usb.timeout
                > 0 && raw_log_options_accepted(args.raw_log_file, args.raw_log_ack, args.yes)
            &&& r matches Ok(e) ==> send_execution_of(*args, risk, e)
            &&& confirmation_spec(risk, args.yes, args.risk_ack) is Err || args.usb.timeout == 0
                ==> final(transport).history() == old(transport).history()
            &&& r matches Ok(e) ==> final(transport).history() == old(transport).history() + seq![
                TransportEvent::Open,
                TransportEvent::Write(with_terminator(args.command@)),
                TransportEvent::Read(Some(e.raw_response@)),
                TransportEvent::Close,
            ]
            &&& extends(old(transport).history(), final(transport).history())
            &&& opens_then_writes_only(
                since(final(transport).history(), old(transport).history().len() as int),
                with_terminator(args.command@),
            )
            &&& prompt_protocol(
                confirmation_spec(risk, args.yes, args.risk_ack),
                args.usb.timeout,
                (normalized(args.command@), risk, classify_spec(normalized(args.command@)).1),
                None,
                old(prompt).history(),
                final(prompt).history(),
                match r {
                    Ok(_) => None,
                    Err(e) => Some(e),
                },
                final(transport).history() == old(transport).history(),
            )
            &&& confirmation_spec(risk, args.yes, args.risk_ack) is Ok && args.usb.timeout > 0
                && !raw_log_options_accepted(args.raw_log_file, args.raw_log_ack, args.yes) ==> r is Err
                && final(transport).history() == old(transport).history()
        }),
{
    let classification = classify_direct_command(args.command.as_str());
    execute_command_with_confirmation(args, transport, prompt, files, classification, "send", None)
}

/// Sends a direct command with nobody to confirm it.
pub fn execute_send_with_transport<T: AtTransport, F: RawLogFiles>(
    args: &SendArgs,
    transport: &mut AtLink<T>,
    files: &mut F,
) -> (r: Result<SendExecution, AtctlError>)
    ensures
        ({
            let risk = classify_spec(normalized(args.command@)).0;
            &&& confirmation_spec(risk, args.yes, args.risk_ack) matches Err(e) ==> r == Err::<
                SendExecution,
                AtctlError,
            >(e)
            &&& confirmation_spec(risk, args.yes, args.risk_ack) is Ok && args.usb.timeout == 0 ==> (
            r matches Err(AtctlError::InvalidValue { name, value }) && name@ == "--timeout"@
                && value@ == "must be greater than zero"@)
            &&& r is Ok ==> confirmation_spec(risk, args.yes, args.risk_ack) is Ok && args.usb.timeout
                > 0 && raw_log_options_accepted(args.raw_log_file, args.raw_log_ack, args.yes)
            &&& r matches Ok(e) ==> send_execution_of(*args, risk, e)
            &&& confirmation_spec(risk, args.yes, args.risk_ack) is Err || args.usb.timeout == 0
                ==> final(transport).history() == old(transport).history()
            &&& r matches Ok(e) ==> final(transport).history() == old(transport).history() + seq![
                TransportEvent::Open,
                TransportEvent::Write(with_terminator(args.command@)),
                TransportEvent::Read(Some(e.raw_response@)),
                TransportEvent::Close,
            ]
            &&& extends(old(transport).history(), final(transport).history())
            &&& opens_then_writes_only(
                since(final(transport).history(), old(transport).history().len() as int),
                with_terminator(args.command@),
            )
        }),
{
    let mut prompt = PromptLink::new(NonInteractiveConfirmationPrompt);
    execute_send_with_confirmation(args, transport, &mut prompt, files)
}

// ---------------------------------------------------------------------
// Sequence runs
// ---------------------------------------------------------------------
/// The file a sequence was loaded from, as plain text.
pub open spec fn sequence_source_view(sequence: Sequence) -> Option<(Seq<char>, Seq<char>)> {
    match sequence.origin {
        SequenceOrigin::File { title, path, .. } => Some((title@, path@)),
        _ => None,
    }
}

/// What the prompt was asked before a sequence run: nothing when the
/// parameters, the review or the policy refused it; when the policy needs
/// the user, only the confirmation of this sequence at its risk, whose
/// answer is the result; otherwise no confirmation, and only the
/// announcement of the file it came from, if any, whose answer is the result.
pub open spec fn sequence_prompt_protocol(
    sequence: Sequence,
    args: SequenceRunArgs,
    before: Seq<PromptEvent>,
    after: Seq<PromptEvent>,
    r: Result<(), AtctlError>,
) -> bool {
    let policy = confirmation_spec(sequence.risk, args.yes, args.risk_ack);
    match bind_spec(sequence.params@, args.params@) {
        Err(_) => after == before,
        Ok(b) => if review_values(sequence, b) is Err || policy is Err {
            after == before
        } else if policy matches Ok(DirectSendConfirmation::InteractiveRequired { .. }) {
            &&& after.len() == before.len() + 1
            &&& after.drop_last() == before
            &&& after.last() matches PromptEvent::ConfirmSequence {
                classification,
                sequence_name,
                source,
                answer,
            }
            &&& classification.risk == sequence.risk
            &&& sequence_name == sequence.name@
            &&& source == sequence_source_view(sequence)
            &&& answer == r
        } else {
            match sequence_source_view(sequence) {
                None => after == before && r is Ok,
                Some(src) => after == before.push(
                    PromptEvent::Notice { label: src.0, path: src.1, answer: r },
                ),
            }
        },
    }
}

/// Before a sequence run: its parameters are bound and its review
/// rendered, the confirmation policy applied, and the user asked or the
/// external definition announced.
pub fn confirm_sequence_run<P: ConfirmationPrompt>(
    sequence: &Sequence,
    args: &SequenceRunArgs,
    prompt: &mut PromptLink<P>,
) -> (r: Result<(), AtctlError>)
    ensures
        sequence_prompt_protocol(*sequence, *args, old(prompt).history(), final(prompt).history(), r),
        bind_spec(sequence.params@, args.params@) matches Err(f) ==> (r matches Err(e) && bind_error(
            *sequence,
            args.params@,
            f,
            e,
        )),
        bind_spec(sequence.params@, args.params@) matches Ok(b) ==> match review_values(*sequence, b) {
            Err(x) => r matches Err(AtctlError::InvalidSequenceParam { param, reason }) && param@
                == x.0 && reason@ == x.1,
            Ok(_) => (confirmation_spec(sequence.risk, args.yes, args.risk_ack) matches Err(e) ==> r
                == Err::<(), AtctlError>(e)) && (confirmation_spec(
                sequence.risk,
                args.yes,
                args.risk_ack,
            ) matches Ok(c) && !(c is InteractiveRequired) && external_sequence_source_spec(
                *sequence,
            ) ==> r is Ok),
        },
        r is Ok ==> bind_spec(sequence.params@, args.params@) is Ok && confirmation_spec(
            sequence.risk,
            args.yes,
            args.risk_ack,
        ) is Ok,
{
    let review = render_sequence_review(sequence, args.params.as_slice())?;
    let confirmation = validate_sequence_confirmation(sequence, args.yes, args.risk_ack)?;
    let external_source = external_sequence_source(sequence);
    if let DirectSendConfirmation::InteractiveRequired { .. } = confirmation {
        let ghost p0 = prompt.history();
        let answer = prompt.confirm_sequence(
            &sequence_classification(sequence),
            sequence.name.as_str(),
            sequence.before_running.as_slice(),
            review.as_slice(),
            external_source,
        );
        assert(prompt.history().drop_last() =~= p0);
        answer
    } else {
        notice_external_definition_without_interactive_confirmation(
            prompt,
            confirmation,
            external_source,
        )
    }
}

/// Whether a sequence comes with nothing to announce: it is built in.
pub open spec fn external_sequence_source_spec(sequence: Sequence) -> bool {
    !(sequence.origin is File)
}

// ---------------------------------------------------------------------
// TUI runs
// ---------------------------------------------------------------------
/// The modem a TUI session picked.
#[derive(Debug, Copy, Clone, PartialEq, Eq, Structural)]
pub struct TuiDeviceSelection {
    pub vendor_id: u16,
    pub product_id: u16,
    pub bus: u8,
    pub address: u8,
}

/// The device options of a TUI run: the timeout, and the picked modem when
/// there is one.
pub fn tui_usb_options(timeout_secs: u64, device_selection: Option<TuiDeviceSelection>) -> (r:
    UsbOptions)
    ensures
        r.timeout == timeout_secs,
        r.interface_number is None && r.bulk_in is None && r.bulk_out is None,
        match device_selection {
            Some(d) => r.vid == Some(d.vendor_id) && r.pid == Some(d.product_id) && r.bus == Some(
                d.bus,
            ) && r.address == Some(d.address),
            None => r.vid is None && r.pid is None && r.bus is None && r.address is None,
        },
{
    let mut usb = UsbOptions::default();
    usb.timeout = timeout_secs;
    if let Some(selection) = device_selection {
        usb.vid = Some(selection.vendor_id);
        usb.pid = Some(selection.product_id);
        usb.bus = Some(selection.bus);
        usb.address = Some(selection.address);
    }
    usb
}

/// The send a TUI preset run makes: masked, without exports or raw export,
/// and, once the user confirmed, with `--yes` and the preset's risk
/// acknowledged when that risk needs a confirmation.
pub fn tui_preset_send_args(
    preset: &Preset,
    confirmed: bool,
    usb: UsbOptions,
    normal_logging_enabled: bool,
) -> (r: SendArgs)
    ensures
        r.command@ == preset.command@,
        r.usb == usb,
        !r.no_mask && r.no_log == !normal_logging_enabled,
        r.export_response is None && r.raw_log_file is None && r.raw_log_ack is None,
        !r.json && !r.ignore_at_error,
        r.yes == confirmed,
        r.risk_ack == if confirmed && needs_confirmation(preset.risk) {
            Some(preset.risk)
        } else {
            None
        },
{
    let requires_confirmation = preset.risk.requires_confirmation();
    SendArgs {
        command: preset.command.clone(),
        usb,
        no_mask: false,
        no_log: !normal_logging_enabled,
        export_response: None,
        raw_log_file: None,
        raw_log_ack: None,
        json: false,
        ignore_at_error: false,
        yes: confirmed,
        risk_ack: if confirmed && requires_confirmation {
            Some(preset.risk)
        } else {
            None
        },
    }
}

/// A TUI sequence run goes ahead when the sequence needs no confirmation
/// or the user confirmed it; otherwise it is refused at its risk.
pub fn tui_sequence_confirmation(sequence: &Sequence, confirmed: bool) -> (r: Result<(), AtctlError>)
    ensures
        r is Ok <==> (!needs_confirmation(sequence.risk) || confirmed),
        r is Err ==> r == Err::<(), AtctlError>(AtctlError::ConfirmationRequired { risk: sequence.risk }),
{
    let ack = if confirmed && sequence.risk.requires_confirmation() {
        Some(sequence.risk)
    } else {
        None
    };
    let confirmation = validate_sequence_confirmation(sequence, confirmed, ack)?;
    if let DirectSendConfirmation::InteractiveRequired { risk } = confirmation {
        return Err(AtctlError::ConfirmationRequired { risk });
    }
    Ok(())
}

// ---------------------------------------------------------------------
// Log records
// ---------------------------------------------------------------------
/// An optional value in hex, as the logs write it.
pub open spec fn opt_hex_u16(o: Option<u16>) -> Option<Seq<char>> {
    match o {
        Some(v) => Some(hex_u16_text(v)),
        None => None,
    }
}

pub open spec fn opt_hex_u8(o: Option<u8>) -> Option<Seq<char>> {
    match o {
        Some(v) => Some(hex_u8_text(v)),
        None => None,
    }
}

pub open spec fn opt_text(o: Option<String>) -> Option<Seq<char>> {
    match o {
        Some(s) => Some(s@),
        None => None,
    }
}

/// Whether `d` records the device options `usb`: identifiers and
/// endpoints in hex, bus, address and interface as numbers.
pub open spec fn device_selection_of(d: LogDeviceSelection, usb: UsbOptions) -> bool {
    &&& opt_text(d.requested_vendor_id) == opt_hex_u16(usb.vid)
    &&& opt_text(d.requested_product_id) == opt_hex_u16(usb.pid)
    &&& d.requested_bus == usb.bus
    &&& d.requested_address == usb.address
    &&& d.interface == usb.interface_number
    &&& opt_text(d.bulk_in) == opt_hex_u8(usb.bulk_in)
    &&& opt_text(d.bulk_out) == opt_hex_u8(usb.bulk_out)
}

/// The device options as the logs record them.
pub fn log_device_selection(usb: &UsbOptions) -> (r: LogDeviceSelection)
    ensures
        device_selection_of(r, *usb),
{
    LogDeviceSelection {
        requested_vendor_id: match usb.vid {
            Some(v) => Some(string_of(&hex_u16(v))),
            None => None,
        },
        requested_product_id: match usb.pid {
            Some(v) => Some(string_of(&hex_u16(v))),
            None => None,
        },
        requested_bus: usb.bus,
        requested_address: usb.address,
        interface: usb.interface_number,
        bulk_in: match usb.bulk_in {
            Some(v) => Some(string_of(&hex_u8(v))),
            None => None,
        },
        bulk_out: match usb.bulk_out {
            Some(v) => Some(string_of(&hex_u8(v))),
            None => None,
        },
    }
}

/// The log record of a direct command or preset run: its command and the
/// (masked, when masking is on) response.
pub fn command_log_record(
    timestamp: LogTimestamp,
    source: &str,
    args: &SendArgs,
    execution: &SendExecution,
) -> (r: CommandLogRecord)
    ensures
        r.timestamp == timestamp,
        r.source@ == source@,
        r.command@ == args.command@,
        r.risk == execution.risk,
        r.status@ == execution.status@,
        r.duration_ms == execution.duration_ms,
        r.response@ == execution.text@,
        device_selection_of(r.device, args.usb),
{
    CommandLogRecord {
        timestamp,
        source: source.to_owned(),
        command: args.command.clone(),
        risk: execution.risk,
        status: execution.status.duplicate(),
        duration_ms: execution.duration_ms,
        response: execution.text.clone(),
        device: log_device_selection(&args.usb),
    }
}

/// The log record of a sequence run: `sequence <name>` as its command and
/// the masked transcript as its response.
pub fn sequence_log_record(
    timestamp: LogTimestamp,
    source: &str,
    sequence: &Sequence,
    usb: &UsbOptions,
    execution: &SequenceExecution,
) -> (r: CommandLogRecord)
    ensures
        r.timestamp == timestamp,
        r.source@ == source@,
        r.command@ == "sequence "@ + sequence.name@,
        r.risk == execution.risk,
        r.status@ == execution.status@,
        r.duration_ms == execution.duration_ms,
        r.response@ == execution.masked_transcript@,
        device_selection_of(r.device, *usb),
{
    let mut command = chars_of("sequence ");
    push_str(&mut command, sequence.name.as_str());
    CommandLogRecord {
        timestamp,
        source: source.to_owned(),
        command: string_of(&command),
        risk: execution.risk,
        status: execution.status.duplicate(),
        duration_ms: execution.duration_ms,
        response: execution.masked_transcript.clone(),
        device: log_device_selection(usb),
    }
}

/// `<prefix>:<name>`, the source label of a preset or sequence run.
pub fn source_label(prefix: &str, name: &str) -> (r: String)
    ensures
        r@ == prefix@ + ":"@ + name@,
{
    let mut v = chars_of(prefix);
    push_str(&mut v, ":");
    push_str(&mut v, name);
    string_of(&v)
}

/// Splits `NAME=VALUE` at the first `=`; the name is trimmed and must not
/// be empty.
pub fn parse_sequence_param_value(value: &str) -> (r: Result<SequenceParamValue, String>)
    ensures
        match r {
            Ok(p) => exists|i: int|
                0 <= i < value@.len() && value@[i] == '=' && !value@.take(i).contains('=')
                    && p.name@ == trim(value@.take(i)) && trim(value@.take(i)).len() > 0
                    && p.value@ == value@.skip(i + 1),
            Err(msg) => (!value@.contains('=') && msg@ == "expected NAME=VALUE, got "@ + value@)
                || (exists|i: int|
                0 <= i < value@.len() && value@[i] == '=' && !value@.take(i).contains('=')
                    && trim(value@.take(i)).len() == 0
                    && msg@ == "parameter name must not be empty"@),
        },
{
    let v = chars_of(value);
    let mut i: usize = 0;
    while i < v.len() && v[i] != '='
        invariant
            i <= v.len(),
            v@ == value@,
            forall|k: int| 0 <= k < i ==> v@[k] != '=',
        decreases v.len() - i,
    {
        i += 1;
    }
    if i == v.len() {
        proof {
            assert forall|k: int| 0 <= k < v@.len() implies v@[k] != '=' by {}
            assert(!value@.contains('='));
        }
        let mut m = chars_of("expected NAME=VALUE, got ");
        push_str(&mut m, value);
        return Err(string_of(&m));
    }
    let head = slice(&v, 0, i);
    assert(head@ =~= value@.take(i as int));
    assert(!value@.take(i as int).contains('=')) by {
        assert forall|k: int| 0 <= k < i implies value@.take(i as int)[k] != '=' by {}
    }
    let name = trim_chars(&head);
    if name.len() == 0 {
        return Err("parameter name must not be empty".to_owned());
    }
    let rest = slice(&v, i + 1, v.len());
    assert(rest@ =~= value@.skip(i + 1));
    Ok(SequenceParamValue { name: string_of(&name), value: string_of(&rest) })
}

/// `value` without surrounding whitespace and without a `0x`/`0X` prefix.
pub open spec fn hex_body(value: Seq<char>) -> Seq<char> {
    let t = trim(value);
    if t.len() >= 2 && t[0] == '0' && (t[1] == 'x' || t[1] == 'X') {
        t.skip(2)
    } else {
        t
    }
}

pub fn strip_hex_prefix(value: &str) -> (r: Vec<char>)
    ensures
        r@ == hex_body(value@),
{
    let t = trim_chars(&chars_of(value));
    if t.len() >= 2 && t[0] == '0' && (t[1] == 'x' || t[1] == 'X') {
        let r = slice(&t, 2, t.len());
        assert(r@ =~= t@.skip(2));
        r
    } else {
        t
    }
}

pub open spec fn hex_val(c: char) -> nat {
    if '0' <= c && c <= '9' {
        (c as u32 - '0' as u32) as nat
    } else if 'a' <= c && c <= 'f' {
        (c as u32 - 'a' as u32 + 10) as nat
    } else {
        (c as u32 - 'A' as u32 + 10) as nat
    }
}

/// The value of hex digits (`from_str_radix(_, 16)` without a sign).
pub open spec fn hex_digits_value(s: Seq<char>) -> nat
    decreases s.len(),
{
    if s.len() == 0 {
        0
    } else {
        hex_digits_value(s.drop_last()) * 16 + hex_val(s.last())
    }
}

/// Every character is a hex digit.
pub open spec fn all_hex(d: Seq<char>) -> bool {
    forall|i: int| 0 <= i < d.len() ==> crate::text::is_hex(#[trigger] d[i])
}

/// The digits after an optional leading `+`.
pub open spec fn unsigned_digits(s: Seq<char>) -> Seq<char> {
    if s.len() > 0 && s[0] == '+' {
        s.drop_first()
    } else {
        s
    }
}

/// `from_str_radix(s, 16)`: an optional `+`, one or more hex digits, and a
/// value no larger than `max`.
pub open spec fn parse_hex(s: Seq<char>, max: nat) -> Option<nat> {
    let d = unsigned_digits(s);
    if d.len() > 0 && all_hex(d) && hex_digits_value(d) <= max {
        Some(hex_digits_value(d))
    } else {
        None
    }
}

fn hex_digit_value(c: char) -> (r: u64)
    requires
        crate::text::is_hex(c),
    ensures
        r == hex_val(c),
        r < 16,
{
    if '0' <= c && c <= '9' {
        (c as u32 - '0' as u32) as u64
    } else if 'a' <= c && c <= 'f' {
        (c as u32 - 'a' as u32 + 10) as u64
    } else {
        (c as u32 - 'A' as u32 + 10) as u64
    }
}

fn parse_hex_chars(s: &Vec<char>, max: u64) -> (r: Option<u64>)
    requires
        max >= 16,
    ensures
        match parse_hex(s@, max as nat) {
            Some(v) => r == Some(v as u64),
            None => r is None,
        },
{
    let start: usize = if s.len() > 0 && s[0] == '+' {
        1
    } else {
        0
    };
    let ghost d = unsigned_digits(s@);
    assert(d =~= s@.skip(start as int));
    if start >= s.len() {
        return None;
    }
    let mut value: u64 = 0;
    let mut i = start;
    assert(d.take(0) =~= Seq::<char>::empty());
    while i < s.len()
        invariant
            max >= 16,
            start <= i <= s.len(),
            d == unsigned_digits(s@),
            d =~= s@.skip(start as int),
            value == hex_digits_value(d.take(i - start)),
            value <= max,
            all_hex(d.take(i - start)),
        decreases s.len() - i,
    {
        let c = s[i];
        assert(d[i - start] == c);
        if !crate::text::is_ascii_hexdigit(c) {
            assert(!all_hex(d));
            return None;
        }
        let digit = hex_digit_value(c);
        assert(d.take(i - start + 1).drop_last() =~= d.take(i - start));
        assert(all_hex(d.take(i - start + 1)));
        if value > (max - digit) / 16 {
            proof {
                assert(hex_digits_value(d.take(i - start + 1)) > max);
                lemma_hex_prefix_le(d, i - start + 1);
            }
            return None;
        }
        value = value * 16 + digit;
        i += 1;
    }
    assert(d.take(i - start) =~= d);
    Some(value)
}

/// A longer prefix of hex digits never has a smaller value.
pub proof fn lemma_hex_prefix_le(d: Seq<char>, k: int)
    requires
        0 <= k <= d.len(),
    ensures
        all_hex(d) ==> hex_digits_value(d.take(k)) <= hex_digits_value(d),
    decreases d.len() - k,
{
    if k < d.len() {
        lemma_hex_prefix_le(d, k + 1);
        assert(d.take(k + 1).drop_last() =~= d.take(k));
    } else {
        assert(d.take(k) =~= d);
    }
}

/// Parses a hexadecimal `u16`, with or without `0x`.
pub fn parse_hex_u16(value: &str) -> (r: Result<u16, String>)
    ensures
        match parse_hex(hex_body(value@), 0xffff) {
            Some(v) => r == Ok::<u16, String>(v as u16),
            None => r matches Err(m) && m@ == "expected hexadecimal u16 value, got "@ + value@,
        },
{
    let body = strip_hex_prefix(value);
    match parse_hex_chars(&body, 0xffff) {
        Some(v) => Ok(v as u16),
        None => {
            let mut m = chars_of("expected hexadecimal u16 value, got ");
            push_str(&mut m, value);
            Err(string_of(&m))
        },
    }
}

/// Parses a hexadecimal `u8`, with or without `0x`.
pub fn parse_hex_u8(value: &str) -> (r: Result<u8, String>)
    ensures
        match parse_hex(hex_body(value@), 0xff) {
            Some(v) => r == Ok::<u8, String>(v as u8),
            None => r matches Err(m) && m@ == "expected hexadecimal u8 value, got "@ + value@,
        },
{
    let body = strip_hex_prefix(value);
    match parse_hex_chars(&body, 0xff) {
        Some(v) => Ok(v as u8),
        None => {
            let mut m = chars_of("expected hexadecimal u8 value, got ");
            push_str(&mut m, value);
            Err(string_of(&m))
        },
    }
}

/// Parses a decimal `u8` as `str::parse` does.
pub fn parse_decimal_u8(value: &str) -> (r: Result<u8, String>)
    ensures
        match crate::text::parse_usize(value@) {
            Some(v) => if v <= 255 {
                r == Ok::<u8, String>(v as u8)
            } else {
                r matches Err(m) && m@ == "expected decimal u8 value, got "@ + value@
            },
            None => r matches Err(m) && m@ == "expected decimal u8 value, got "@ + value@,
        },
{
    match crate::text::parse_usize_chars(&chars_of(value)) {
        Some(v) => {
            if v <= 255 {
                return Ok(v as u8);
            }
        },
        None => {},
    }
    let mut m = chars_of("expected decimal u8 value, got ");
    push_str(&mut m, value);
    Err(string_of(&m))
}

} // verus!
