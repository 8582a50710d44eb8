//! Running a sequence against a modem transport: binding parameters,
//! sending each step, checking responses, cleaning up after a failure,
//! and writing the raw and masked transcripts.
use vstd::prelude::*;

use std::time::Instant;

pub use crate::sequences::bindings::{Bindings, BoundParam};
pub use crate::sequences::candidates::{
    sms_candidates_from_text, value_candidate_sets_from_text, SequenceValueCandidate,
    SequenceValueCandidateSet, SmsMessageCandidate,
};
pub use crate::sequences::params::{
    format_missing_sequence_param, render_sequence_review, required_param_summary,
    validate_and_bind_params, SequenceParamValue, SequenceReviewValue,
};

use crate::at::command::{command_with_terminator, with_terminator};
use crate::at::parser::{parse_response, utf8_lossy};
use crate::at::response::{status_is_success, AtStatus, StatusView};
use crate::at::risk::{
    confirmation_spec, direct_send_confirmation, DirectSendConfirmation, RiskClassification,
    RiskLevel,
};
use crate::clock::{clock_now, millis_since};
use crate::error::AtctlError;
use crate::log::raw::{RawLogExchange, RawLogLink, RawLogRecorder, RawLogTransportError};
use crate::sequences::analysis::{
    line_view, ping_failure, ping_lines, sms_body_lines, sms_meta_line, tcp_ack_failure, tcp_lines, LineView,
    lines_view, ping_success_requirement_failure, push_ping_analysis, push_sms_body_analysis,
    context_active, push_tcp_analysis, qiact_context_is_active, sms_metadata_analysis,
    tcp_ack_requirement_failure, AnalysisKind, AnalysisLine,
};
use crate::sequences::bindings::{upsert, utf8_len, utf8_len_exec, BindingView};
use crate::sequences::candidates::value_candidate_sets_from_responses;
use crate::sequences::display::{mask_sequence_text, masked_sequence_text};
use crate::sequences::model::{Sequence, SequenceStep, StepTerminator};
use crate::sequences::params::{bind_error, bind_spec, render_chars, render_spec, BindFailure};
use crate::sequences::sms::{ov, parse_sms_messages, sms_messages, sms_view, sms_views, SmsView};
use crate::sequences::steps::{
    terminated_payload,
    expected_templates, first_missing, step_status_spec, template_error, TemplateError,
    cleanup_timeout, failure_reason, payload_with_terminator, response_matcher_for_step,
    step_expectation_failure, step_failure_reason, step_status, step_timeout, total_timeout_ms,
};
use crate::sequences::transcript::{
    lemma_lines_prefix_contains, lemma_lines_prefix_refl, lemma_lines_prefix_trans, lemma_response_sections_grows,
    lemma_section_grows, lemma_analysis_sections_grows, lemma_failure_block_grows, lemma_line_block_grows, step_heading,
    push_analysis_transcript, push_cleanup_analysis, push_cleanup_header, push_failure_result,
    analysis_sections, push_response_transcript, push_section, push_success_result,
    push_transcript_header, section,
};
use crate::transport::traits::{failures_after, extends, raw_status, since, writes, AtLink, AtTransport, TransportEvent};
use crate::text::{
    join_seqs, strings_view, text_lines,
    chars_of, decimal, join_chars, push_all, push_decimal, push_part, push_str, seqs_view, slice,
    string_of, strings_of,
};

verus! {

broadcast use vstd::string::group_string_axioms;

/// The wait between polls for TCP acknowledgement counters.
pub const TCP_ACK_RETRY_INTERVAL_MS: u64 = 500;

/// What one step did.
#[derive(Debug, Clone, PartialEq, Eq)]
pub struct SequenceStepResult {
    pub id: String,
    pub label: Option<String>,
    pub status: AtStatus,
    pub masked_analysis: Option<String>,
    pub raw_analysis: Option<String>,
}

/// The result of running a sequence.
#[derive(Debug, Clone)]
pub struct SequenceExecution {
    pub name: String,
    pub risk: RiskLevel,
    pub status: AtStatus,
    pub steps: Vec<SequenceStepResult>,
    pub masked_notes: Vec<String>,
    pub raw_notes: Vec<String>,
    pub value_candidate_sets: Vec<SequenceValueCandidateSet>,
    pub masked_transcript: String,
    pub raw_transcript: String,
    pub duration_ms: u64,
}

/// The classification a sequence is confirmed with: its name and its
/// effective risk.
pub fn sequence_classification(sequence: &Sequence) -> (r: RiskClassification)
    ensures
        r.normalized_command@ == "SEQUENCE "@ + sequence.name@,
        r.risk == sequence.risk,
        r.reason@ == "sequence effective risk level"@,
{
    let mut v = chars_of("SEQUENCE ");
    push_str(&mut v, sequence.name.as_str());
    RiskClassification {
        normalized_command: string_of(&v),
        risk: sequence.risk,
        reason: "sequence effective risk level",
    }
}

/// The direct-send confirmation policy applied to a sequence's risk.
pub fn validate_sequence_confirmation(
    sequence: &Sequence,
    yes: bool,
    acknowledged: Option<RiskLevel>,
) -> (r: Result<DirectSendConfirmation, AtctlError>)
    ensures
        r == confirmation_spec(sequence.risk, yes, acknowledged),
{
    direct_send_confirmation(&sequence_classification(sequence), yes, acknowledged)
}

struct StepOutcome {
    status: AtStatus,
    response_texts: Vec<Vec<char>>,
    expectation_failure: Option<Vec<char>>,
}

struct DeferredCleanup {
    id: Vec<char>,
    label: Vec<char>,
    command: Vec<char>,
}

fn opt_chars(o: &Option<String>) -> (r: Option<Vec<char>>)
    ensures
        match *o {
            Some(s) => r matches Some(v) && v@ == s@,
            None => r is None,
        },
{
    match o {
        Some(s) => Some(chars_of(s.as_str())),
        None => None,
    }
}

fn clone_opt_string(o: &Option<String>) -> (r: Option<String>)
    ensures
        r == *o,
{
    match o {
        Some(s) => Some(s.clone()),
        None => None,
    }
}

/// A step the engine runs on its own: checking or activating a PDP context,
/// or a cleanup command.
fn internal_command_step(id: Vec<char>, label: &Vec<char>, expect: &str) -> (r: SequenceStep)
    ensures
        r.id@ == id@,
        r.label matches Some(l) && l@ == label@,
        r.expect matches Some(e) && e@ == expect@,
        r.ensure_pdp_context_active is None,
        r.send is None,
        r.expect_prompt is None,
        r.expect_urc is None,
        r.payload is None,
        r.terminator == StepTerminator::NoTerminator,
        !r.require_tcp_ack,
        !r.require_ping_success,
        r.timeout_secs is None,
        r.evidence is None,
        r.cleanup_on_failure is None,
{
    SequenceStep {
        id: string_of(&id),
        label: Some(string_of(label)),
        ensure_pdp_context_active: None,
        send: None,
        expect: Some(expect.to_owned()),
        expect_prompt: None,
        expect_urc: None,
        payload: None,
        terminator: StepTerminator::NoTerminator,
        require_tcp_ack: false,
        require_ping_success: false,
        timeout_secs: None,
        evidence: None,
        cleanup_on_failure: None,
    }
}

fn bytes_of(s: &String) -> (r: Vec<u8>)
    ensures
        r@ == vstd::utf8::encode_utf8(s@),
{
    vstd::slice::slice_to_vec(s.as_str().as_bytes())
}

/// Whether `e` is an error of a run whose transport failures went from
/// `t0` to `t1` and whose raw export failures went from `r0` to `r1`: one
/// that a transport or raw-export call returned meanwhile, a template that
/// did not render, or the time running out.
pub open spec fn run_error(
    e: AtctlError,
    t0: Seq<AtctlError>,
    t1: Seq<AtctlError>,
    r0: Seq<AtctlError>,
    r1: Seq<AtctlError>,
) -> bool {
    ||| t1.skip(t0.len() as int).contains(e)
    ||| r1.skip(r0.len() as int).contains(e)
    ||| e is Timeout
    ||| e is InvalidSequenceParam
}

/// Whether the failure records only grew between the two states, and an
/// error result `r` is a run error.
pub open spec fn errors_accounted<X>(
    t0: Seq<AtctlError>,
    t1: Seq<AtctlError>,
    r0: Seq<AtctlError>,
    r1: Seq<AtctlError>,
    r: Result<X, AtctlError>,
) -> bool {
    &&& t0.is_prefix_of(t1)
    &&& r0.is_prefix_of(r1)
    &&& r matches Err(e) ==> run_error(e, t0, t1, r0, r1)
}

/// A run error of a part is one of the whole.
proof fn lemma_run_error_lift(
    e: AtctlError,
    t0: Seq<AtctlError>,
    ta: Seq<AtctlError>,
    tb: Seq<AtctlError>,
    t1: Seq<AtctlError>,
    r0: Seq<AtctlError>,
    ra: Seq<AtctlError>,
    rb: Seq<AtctlError>,
    r1: Seq<AtctlError>,
)
    requires
        t0.is_prefix_of(ta),
        ta.is_prefix_of(tb),
        tb.is_prefix_of(t1),
        r0.is_prefix_of(ra),
        ra.is_prefix_of(rb),
        rb.is_prefix_of(r1),
        run_error(e, ta, tb, ra, rb),
    ensures
        run_error(e, t0, t1, r0, r1),
{
    if tb.skip(ta.len() as int).contains(e) {
        let k = choose|k: int| 0 <= k < tb.skip(ta.len() as int).len() && tb.skip(ta.len() as int)[k] == e;
        assert(tb[ta.len() + k] == e);
        assert(t1[ta.len() + k] == tb.subrange(0, tb.len() as int)[ta.len() + k]);
        assert(t1.skip(t0.len() as int)[ta.len() - t0.len() + k] == e);
    } else if rb.skip(ra.len() as int).contains(e) {
        let k = choose|k: int| 0 <= k < rb.skip(ra.len() as int).len() && rb.skip(ra.len() as int)[k] == e;
        assert(rb[ra.len() + k] == e);
        assert(r1[ra.len() + k] == rb.subrange(0, rb.len() as int)[ra.len() + k]);
        assert(r1.skip(r0.len() as int)[ra.len() - r0.len() + k] == e);
    }
}

/// The error a call just returned is a run error.
proof fn lemma_run_error_here(e: AtctlError, t0: Seq<AtctlError>, ta: Seq<AtctlError>, r0: Seq<AtctlError>, r1: Seq<AtctlError>)
    requires
        t0.is_prefix_of(ta),
    ensures
        run_error(e, t0, ta.push(e), r0, r1),
        run_error(e, r0, r1, t0, ta.push(e)),
{
    assert(ta.push(e).skip(t0.len() as int)[ta.len() - t0.len()] == e);
}

/// Recording one more outcome keeps what was there.
proof fn lemma_prefix_after<X>(a: Seq<AtctlError>, b: Seq<AtctlError>, r: Result<X, AtctlError>)
    requires
        a.is_prefix_of(b),
    ensures
        a.is_prefix_of(failures_after(b, r)),
        b.is_prefix_of(failures_after(b, r)),
{
    assert(failures_after(b, r).subrange(0, b.len() as int) =~= b);
    assert(failures_after(b, r).subrange(0, a.len() as int) =~= b.subrange(0, a.len() as int));
}

/// A run error of the last part of a run is one of the whole run.
proof fn lemma_run_error_tail(
    e: AtctlError,
    t0: Seq<AtctlError>,
    ta: Seq<AtctlError>,
    t1: Seq<AtctlError>,
    r0: Seq<AtctlError>,
    ra: Seq<AtctlError>,
    r1: Seq<AtctlError>,
)
    requires
        t0.is_prefix_of(ta),
        ta.is_prefix_of(t1),
        r0.is_prefix_of(ra),
        ra.is_prefix_of(r1),
        run_error(e, ta, t1, ra, r1),
    ensures
        run_error(e, t0, t1, r0, r1),
        t0.is_prefix_of(t1),
        r0.is_prefix_of(r1),
{
    assert(t1.subrange(0, t1.len() as int) =~= t1);
    assert(r1.subrange(0, r1.len() as int) =~= r1);
    lemma_run_error_lift(e, t0, ta, t1, t1, r0, ra, r1, r1);
    lemma_prefix_trans(t0, ta, t1);
    lemma_prefix_trans(r0, ra, r1);
}

/// Records grow by prefixes.
proof fn lemma_prefix_trans(a: Seq<AtctlError>, b: Seq<AtctlError>, c: Seq<AtctlError>)
    requires
        a.is_prefix_of(b),
        b.is_prefix_of(c),
    ensures
        a.is_prefix_of(c),
{
    assert(c.subrange(0, a.len() as int) =~= c.subrange(0, b.len() as int).subrange(0, a.len() as int));
}

fn append_raw_error<L: RawLogRecorder>(
    raw_log: &mut RawLogLink<L>,
    sequence: &Sequence,
    step: &SequenceStep,
    command: &Vec<char>,
    duration_ms: u64,
    stage: &str,
    error: &AtctlError,
    tx: &String,
) -> (r: Result<(), AtctlError>)
    ensures
        final(raw_log).failures() == failures_after(old(raw_log).failures(), r),
{
    raw_log.append_transport_error(
        RawLogTransportError {
            command_name: Some(step.id.clone()),
            command: string_of(command),
            risk: sequence.risk,
            duration_ms,
            stage: stage.to_owned(),
            error: error.message(),
            tx_bytes: bytes_of(tx),
            rx_bytes: Vec::new(),
        },
    )
}

/// `> command` under a `Command:` heading in both transcripts, the masked
/// one with the command masked.
fn push_command_sections(
    raw_t: &mut Vec<Vec<char>>,
    masked_t: &mut Vec<Vec<char>>,
    heading: &str,
    prefix: &str,
    command: &Vec<char>,
    bindings: &Bindings,
)
    ensures
        seqs_view(final(raw_t)@) == section(
            seqs_view(old(raw_t)@),
            heading@,
            seq![prefix@ + command@],
        ),
        seqs_view(final(masked_t)@) == section(
            seqs_view(old(masked_t)@),
            heading@,
            seq![prefix@ + masked_sequence_text(command@, bindings@)],
        ),
{
    let mut a = chars_of(prefix);
    push_all(&mut a, command);
    let mut la: Vec<Vec<char>> = Vec::new();
    la.push(a);
    assert(seqs_view(la@) =~= seq![prefix@ + command@]);
    push_section(raw_t, heading, la);
    let masked = mask_sequence_text(command, bindings);
    let mut b = chars_of(prefix);
    push_all(&mut b, &masked);
    let mut lb: Vec<Vec<char>> = Vec::new();
    lb.push(b);
    assert(seqs_view(lb@) =~= seq![prefix@ + masked_sequence_text(command@, bindings@)]);
    push_section(masked_t, heading, lb);
}

/// What the checks make of one response: the first expected marker
/// missing, else a missing TCP acknowledgement (when the step requires
/// one), else a failed ping (when it requires success), as the failed
/// expectation; the status, `ERROR` when an expectation failed; and the
/// acknowledgement failure itself. A template that cannot be rendered is
/// the error.
pub open spec fn response_evaluation(
    step: SequenceStep,
    b: Seq<BindingView>,
    name: Seq<char>,
    text: Seq<char>,
    parsed: StatusView,
) -> Result<(StatusView, Option<Seq<char>>, Option<Seq<char>>), TemplateError> {
    match first_missing(expected_templates(step), text, b, name, step.id@) {
        Err(e) => Err(e),
        Ok(missing) => match step_status_spec(step, b, name, text, parsed) {
            Err(e) => Err(e),
            Ok(status) => {
                let checks_ack = missing is None && step.require_tcp_ack;
                let ack = if checks_ack {
                    tcp_ack_failure(text, b)
                } else {
                    None
                };
                let after_ack = if checks_ack {
                    ack
                } else {
                    missing
                };
                let expectation = if after_ack is None && step.require_ping_success {
                    ping_failure(text)
                } else {
                    after_ack
                };
                Ok(
                    (
                        if expectation is Some {
                            StatusView::Error
                        } else {
                            status
                        },
                        expectation,
                        ack,
                    ),
                )
            },
        },
    }
}

/// The checks on one response: missing markers, the status, TCP
/// acknowledgement and ping success. A step that lacks something it
/// requires ends with `ERROR`.
fn evaluate_response(
    sequence: &Sequence,
    step: &SequenceStep,
    bindings: &Bindings,
    text: &Vec<char>,
    parsed: &AtStatus,
) -> (r: Result<(AtStatus, Option<Vec<char>>, Option<Vec<char>>), AtctlError>)
    ensures
        r matches Ok(x) ==> (x.1 is Some ==> x.0@ == StatusView::Error),
        match response_evaluation(*step, bindings@, sequence.name@, text@, parsed@) {
            Ok(x) => r matches Ok(y) && y.0@ == x.0 && ov(y.1) == x.1 && ov(y.2) == x.2,
            Err(x) => r matches Err(e) && template_error(e, x),
        },
{
    let mut expectation = step_expectation_failure(sequence, step, text, bindings)?;
    let mut status = step_status(sequence, step, bindings, text, parsed)?;
    let mut ack_failure: Option<Vec<char>> = None;
    if expectation.is_none() && step.require_tcp_ack {
        let f = tcp_ack_requirement_failure(text, bindings);
        ack_failure = match &f {
            Some(v) => Some(slice(v, 0, v.len())),
            None => None,
        };
        expectation = f;
    }
    if expectation.is_none() && step.require_ping_success {
        expectation = ping_success_requirement_failure(text);
    }
    if expectation.is_some() {
        status = AtStatus::Error;
    }
    Ok((status, expectation, ack_failure))
}

/// Whether `raw`, read as a step's response, gives `status` and the failed
/// expectation `expectation`.
pub open spec fn evaluates_to(
    step: SequenceStep,
    b: Seq<BindingView>,
    name: Seq<char>,
    raw: Seq<u8>,
    status: StatusView,
    expectation: Option<Seq<char>>,
) -> bool {
    response_evaluation(step, b, name, utf8_lossy(raw), raw_status(raw)) matches Ok(x)
        && status == x.0 && expectation == x.1
}

/// The calls of the steps of a run, in order.
pub open spec fn segments_events(segs: Seq<Seq<TransportEvent>>) -> Seq<TransportEvent>
    decreases segs.len(),
{
    if segs.len() == 0 {
        Seq::empty()
    } else {
        segments_events(segs.drop_last()) + segs.last()
    }
}

/// Whether the steps of `trace` made the calls `segs` and reported
/// `statuses`: each step's writes are those of its calls, and its status is
/// the one its last read gives.
pub open spec fn steps_reported(
    sequence: Sequence,
    trace: Seq<StepRun>,
    segs: Seq<Seq<TransportEvent>>,
    statuses: Seq<StatusView>,
) -> bool {
    &&& trace.len() == statuses.len()
    &&& segs.len() == statuses.len()
    &&& forall|i: int|
        0 <= i < statuses.len() ==> writes(#[trigger] segs[i]) == trace[i].1 && step_outcome(
            sequence.steps@[i],
            trace[i].0,
            sequence.name@,
            segs[i],
            statuses[i],
        )
}

/// Whether the masked transcript lines `lines` show the payload of `step`,
/// if it has one that renders with `b`, masked with `b`, after `> payload `.
pub open spec fn payload_shown_masked(step: SequenceStep, b: Seq<BindingView>, name: Seq<char>, lines: Seq<Seq<char>>) -> bool {
    match step.payload {
        Some(t) => match rendered(t, b, name, step) {
            Some(p) => lines.contains("> payload "@ + masked_sequence_text(p, b)),
            None => true,
        },
        None => true,
    }
}

/// Whether the masked transcript lines `lines` show the command `step`
/// sends with `b`, if any, and its payload, each masked with `b`.
pub open spec fn step_shown_masked(step: SequenceStep, b: Seq<BindingView>, name: Seq<char>, lines: Seq<Seq<char>>) -> bool {
    &&& match sent_command(step, b, name) {
        Some(c) => lines.contains("> "@ + masked_sequence_text(c, b)),
        None => true,
    }
    &&& payload_shown_masked(step, b, name, lines)
}

/// What a transcript shows stays shown as it grows.
proof fn lemma_step_shown_grows(step: SequenceStep, b: Seq<BindingView>, name: Seq<char>, a: Seq<Seq<char>>, c: Seq<Seq<char>>)
    requires
        a.is_prefix_of(c),
        step_shown_masked(step, b, name, a),
    ensures
        step_shown_masked(step, b, name, c),
{
    if let Some(x) = sent_command(step, b, name) {
        lemma_lines_prefix_contains(a, c, "> "@ + masked_sequence_text(x, b));
    }
    if let Some(t) = step.payload {
        if let Some(p) = rendered(t, b, name, step) {
            lemma_lines_prefix_contains(a, c, "> payload "@ + masked_sequence_text(p, b));
        }
    }
}

/// Whether the masked transcript lines `lines` show, for each step that
/// succeeded, the command it sent and its payload, each masked with the
/// bindings the step ran with.
pub open spec fn commands_shown_masked(
    sequence: Sequence,
    trace: Seq<StepRun>,
    statuses: Seq<StatusView>,
    lines: Seq<Seq<char>>,
) -> bool {
    forall|i: int|
        0 <= i < statuses.len() && status_is_success(statuses[i]) ==> step_shown_masked(
            sequence.steps@[i],
            (#[trigger] trace[i]).0,
            sequence.name@,
            lines,
        )
}

/// Whether a run whose calls after opening the transport were `events`
/// reported the step statuses `statuses` and the masked transcript
/// `masked`: the first calls are those of the steps in order, each step ran
/// with the bindings the one before left, each status is the one the step's
/// last read gives, and the masked transcript shows the command and the
/// payload of each step that succeeded masked with that step's bindings.
pub open spec fn run_reported(
    sequence: Sequence,
    b0: Seq<BindingView>,
    success: bool,
    statuses: Seq<StatusView>,
    events: Seq<TransportEvent>,
    masked: Seq<char>,
) -> bool {
    exists|trace: Seq<StepRun>, segs: Seq<Seq<TransportEvent>>, lines: Seq<Seq<char>>|
        #![trigger run_trace(sequence, b0, trace, success), segments_events(segs), join_seqs(lines, "\n"@)]
        run_trace(sequence, b0, trace, success) && segments_events(segs).is_prefix_of(events)
            && steps_reported(sequence, trace, segs, statuses) && masked == join_seqs(lines, "\n"@)
            && commands_shown_masked(sequence, trace, statuses, lines)
}

/// The status of each reported step.
pub open spec fn statuses_of(results: Seq<SequenceStepResult>) -> Seq<StatusView> {
    results.map_values(|r: SequenceStepResult| r.status@)
}

/// Whether `raw`, read as a step's response, gives `status`.
pub open spec fn evaluates_status(
    step: SequenceStep,
    b: Seq<BindingView>,
    name: Seq<char>,
    raw: Seq<u8>,
    status: StatusView,
) -> bool {
    response_evaluation(step, b, name, utf8_lossy(raw), raw_status(raw)) matches Ok(x) && status
        == x.0
}

/// Whether `raw`, read as the response to a step's payload, gives
/// `status`: `ERROR` when an expected marker is missing, else the step's
/// status for it.
pub open spec fn payload_status(
    step: SequenceStep,
    b: Seq<BindingView>,
    name: Seq<char>,
    raw: Seq<u8>,
    status: StatusView,
) -> bool {
    match first_missing(expected_templates(step), utf8_lossy(raw), b, name, step.id@) {
        Ok(Some(_)) => status == StatusView::Error,
        Ok(None) => step_status_spec(step, b, name, utf8_lossy(raw), raw_status(raw)) == Ok::<
            StatusView,
            TemplateError,
        >(status),
        Err(_) => false,
    }
}

/// Whether the read `e` ended a command step with `status`: a response
/// evaluated by the step's rules, or no response where a TCP
/// acknowledgement was awaited, which is an `ERROR`.
pub open spec fn command_read(
    step: SequenceStep,
    b: Seq<BindingView>,
    name: Seq<char>,
    e: TransportEvent,
    status: StatusView,
) -> bool {
    match e {
        TransportEvent::ReadUntil(_, Some(raw)) => evaluates_status(step, b, name, raw, status),
        TransportEvent::ReadUntil(_, None) => step.require_tcp_ack && status == StatusView::Error,
        _ => false,
    }
}

/// A step of the library's own that sends nothing and expects `OK`, as the
/// check and the activation of a PDP context are.
pub open spec fn expects_ok(s: SequenceStep) -> bool {
    &&& s.expect matches Some(e) && e@ == "OK"@
    &&& s.expect_prompt is None
    &&& s.expect_urc is None
    &&& !s.require_tcp_ack
    &&& !s.require_ping_success
}

/// Whether `raw`, read as the response to a check that expects `OK`, gives
/// `status`.
pub open spec fn ok_check(b: Seq<BindingView>, name: Seq<char>, raw: Seq<u8>, status: StatusView) -> bool {
    exists|s: SequenceStep| #[trigger] expects_ok(s) && evaluates_status(s, b, name, raw, status)
}

/// Whether the status a step reports is the one its last read gives: a
/// response evaluated by the step's rules, by those of its payload, or by
/// those of a PDP-context check; `ERROR` when an awaited TCP acknowledgement
/// never came; `OK` for a step that touched nothing.
pub open spec fn step_outcome(
    step: SequenceStep,
    b: Seq<BindingView>,
    name: Seq<char>,
    evs: Seq<TransportEvent>,
    status: StatusView,
) -> bool {
    if evs.len() == 0 {
        status == StatusView::OK
    } else {
        ||| command_read(step, b, name, evs.last(), status)
        ||| (evs.last() matches TransportEvent::ReadUntil(_, Some(raw)) && payload_status(
            step,
            b,
            name,
            raw,
            status,
        ))
        ||| (evs.last() matches TransportEvent::ReadUntil(_, Some(raw)) && ok_check(b, name, raw, status))
    }
}

/// Whether `e`, when it is a read, read a response whose TCP
/// acknowledgement was incomplete: the only reason a step sends again.
pub open spec fn incomplete_acknowledgement(
    step: SequenceStep,
    b: Seq<BindingView>,
    name: Seq<char>,
    e: TransportEvent,
) -> bool {
    match e {
        TransportEvent::ReadUntil(_, Some(raw)) => response_evaluation(
            step,
            b,
            name,
            utf8_lossy(raw),
            raw_status(raw),
        ) matches Ok(x) && x.1 is Some,
        TransportEvent::ReadUntil(_, None) => false,
        _ => true,
    }
}

/// A template of a step rendered with the bindings `b`, when it renders.
pub open spec fn rendered(t: String, b: Seq<BindingView>, name: Seq<char>, step: SequenceStep) -> Option<
    Seq<char>,
> {
    match render_spec(t@, b, name, step.id@) {
        Ok(x) => Some(x),
        Err(_) => None,
    }
}

/// The writes of a step's PDP-context check: the query, and the activation
/// of the context when it was not active.
pub open spec fn pdp_writes(
    step: SequenceStep,
    b: Seq<BindingView>,
    name: Seq<char>,
    ws: Seq<Seq<char>>,
    complete: bool,
) -> bool {
    match step.ensure_pdp_context_active {
        None => ws.len() == 0,
        Some(t) => (!complete && ws.len() == 0) || match rendered(t, b, name, step) {
            Some(id) => ws == seq![with_terminator("AT+QIACT?"@)] || ws == seq![
                with_terminator("AT+QIACT?"@),
                with_terminator("AT+QIACT="@ + id),
            ],
            None => false,
        },
    }
}

/// The writes of a step's command: the rendered command with its
/// terminator, sent again only while a TCP acknowledgement is incomplete;
/// nothing when the step failed before it.
pub open spec fn send_writes(
    step: SequenceStep,
    b: Seq<BindingView>,
    name: Seq<char>,
    ws: Seq<Seq<char>>,
    complete: bool,
) -> bool {
    match step.send {
        None => ws.len() == 0,
        Some(t) => (!complete && ws.len() == 0) || match rendered(t, b, name, step) {
            Some(c) => ws.len() >= 1 && (forall|k: int| 0 <= k < ws.len() ==> #[trigger] ws[k] == with_terminator(c))
                && (!step.require_tcp_ack ==> ws.len() == 1),
            None => false,
        },
    }
}

/// The writes of a step's payload: the rendered payload with the step's
/// terminator; nothing when the step failed before it.
pub open spec fn payload_writes(
    step: SequenceStep,
    b: Seq<BindingView>,
    name: Seq<char>,
    ws: Seq<Seq<char>>,
    complete: bool,
) -> bool {
    match step.payload {
        None => ws.len() == 0,
        Some(t) => (!complete && ws.len() == 0) || match rendered(t, b, name, step) {
            Some(p) => ws == seq![terminated_payload(p, step.terminator)],
            None => false,
        },
    }
}

/// Whether `ws` are the writes of one step run with the bindings `b`, in
/// order: its PDP-context check, its command and its payload. A step that
/// succeeded (`complete`) made each of them that it has.
#[verifier::opaque]
pub open spec fn step_writes(
    step: SequenceStep,
    b: Seq<BindingView>,
    name: Seq<char>,
    ws: Seq<Seq<char>>,
    complete: bool,
) -> bool {
    exists|p: int, q: int|
        #![trigger ws.subrange(p, q)]
        0 <= p <= q <= ws.len() && pdp_writes(step, b, name, ws.take(p), complete) && send_writes(
            step,
            b,
            name,
            ws.subrange(p, q),
            complete,
        ) && payload_writes(step, b, name, ws.skip(q), complete)
}

/// One step as it ran: the bindings it ran with, its writes, and the
/// response texts it analysed.
pub type StepRun = (Seq<BindingView>, Seq<Seq<char>>, Seq<Seq<char>>);

/// The bindings after a step: those it ran with and what its responses
/// bound.
#[verifier::opaque]
pub open spec fn bindings_after(t: StepRun) -> Seq<BindingView> {
    derived_analysis(t.2, t.0).1
}

/// Whether `trace` is a run of the first steps of `sequence` from the
/// bindings `b0`: each step runs with the bindings the one before left, and
/// writes what `step_writes` allows; all but the last succeeded, and the last
/// too when `success`.
pub open spec fn run_trace(sequence: Sequence, b0: Seq<BindingView>, trace: Seq<StepRun>, success: bool) -> bool {
    &&& trace.len() <= sequence.steps@.len()
    &&& trace.len() > 0 ==> trace[0].0 == b0
    &&& forall|i: int| 1 <= i < trace.len() ==> (#[trigger] trace[i]).0 == bindings_after(trace[i - 1])
    &&& forall|i: int|
        0 <= i < trace.len() ==> step_writes(
            sequence.steps@[i],
            (#[trigger] trace[i]).0,
            sequence.name@,
            trace[i].1,
            i < trace.len() - 1 || success,
        )
}

/// The writes of the steps of a run, in order.
pub open spec fn trace_writes(trace: Seq<StepRun>) -> Seq<Seq<char>>
    decreases trace.len(),
{
    if trace.len() == 0 {
        Seq::empty()
    } else {
        trace_writes(trace.drop_last()) + trace.last().1
    }
}

/// The command a step sends, rendered with `b`.
pub open spec fn sent_command(step: SequenceStep, b: Seq<BindingView>, name: Seq<char>) -> Option<Seq<char>> {
    match step.send {
        Some(t) => rendered(t, b, name, step),
        None => None,
    }
}

/// The cleanup a step leaves behind, rendered with `b`.
pub open spec fn cleanup_command(step: SequenceStep, b: Seq<BindingView>, name: Seq<char>) -> Option<Seq<char>> {
    match step.cleanup_on_failure {
        Some(t) => rendered(t, b, name, step),
        None => None,
    }
}

/// `cs` without the entries equal to `c`.
pub open spec fn keep_other(cs: Seq<Seq<char>>, c: Seq<char>) -> Seq<Seq<char>>
    decreases cs.len(),
{
    if cs.len() == 0 {
        Seq::empty()
    } else {
        keep_other(cs.drop_last(), c) + if cs.last() == c {
            Seq::empty()
        } else {
            seq![cs.last()]
        }
    }
}

/// The cleanup commands kept after the first `k` steps of a run succeeded,
/// oldest first: each step drops the cleanups its own command already
/// performs, then adds its own.
pub open spec fn pending_cleanups(sequence: Sequence, trace: Seq<StepRun>, k: int) -> Seq<Seq<char>>
    decreases k,
{
    if k <= 0 {
        Seq::empty()
    } else {
        let prev = pending_cleanups(sequence, trace, k - 1);
        let step = sequence.steps@[k - 1];
        let t = trace[k - 1];
        let kept = match sent_command(step, t.0, sequence.name@) {
            Some(c) => keep_other(prev, c),
            None => prev,
        };
        match cleanup_command(step, bindings_after(t), sequence.name@) {
            Some(c) => kept.push(c),
            None => kept,
        }
    }
}

/// What a run wrote between opening and closing the transport: the writes
/// of each step in order and, after a failed step, the cleanups kept so
/// far, newest first.
pub open spec fn run_writes(
    sequence: Sequence,
    b0: Seq<BindingView>,
    success: bool,
    steps_run: int,
    written: Seq<Seq<char>>,
) -> bool {
    exists|trace: Seq<StepRun>|
        #[trigger] run_trace(sequence, b0, trace, success) && trace.len() == steps_run && written
            == trace_writes(trace) + if success {
            Seq::<Seq<char>>::empty()
        } else {
            cleanup_writes(pending_cleanups(sequence, trace, trace.len() - 1))
        }
}

/// What a run may have written, whatever its outcome: the writes of the
/// steps it reached, the last of them possibly cut short, then, when a
/// step failed, possibly the cleanups kept so far, newest first.
pub open spec fn run_writes_reached(sequence: Sequence, b0: Seq<BindingView>, written: Seq<Seq<char>>) -> bool {
    exists|trace: Seq<StepRun>|
        #[trigger] run_trace(sequence, b0, trace, false) && (written == trace_writes(trace) || (trace.len()
            > 0 && written == trace_writes(trace) + cleanup_writes(
            pending_cleanups(sequence, trace, trace.len() - 1),
        )))
}

proof fn lemma_pending_prefix(sequence: Sequence, trace: Seq<StepRun>, t: StepRun, k: int)
    requires
        k <= trace.len(),
    ensures
        pending_cleanups(sequence, trace.push(t), k) == pending_cleanups(sequence, trace, k),
    decreases k,
{
    if k > 0 {
        lemma_pending_prefix(sequence, trace, t, k - 1);
        assert(trace.push(t)[k - 1] == trace[k - 1]);
    }
}

proof fn lemma_run_trace_push(sequence: Sequence, b0: Seq<BindingView>, trace: Seq<StepRun>, t: StepRun, complete: bool)
    requires
        run_trace(sequence, b0, trace, true),
        trace.len() < sequence.steps@.len(),
        trace.len() == 0 ==> t.0 == b0,
        trace.len() > 0 ==> t.0 == bindings_after(trace.last()),
        step_writes(sequence.steps@[trace.len() as int], t.0, sequence.name@, t.1, complete),
    ensures
        run_trace(sequence, b0, trace.push(t), complete),
        trace_writes(trace.push(t)) == trace_writes(trace) + t.1,
{
    let tr = trace.push(t);
    assert(tr.drop_last() =~= trace);
    assert(tr.last() == t);
    assert(trace_writes(tr) == trace_writes(trace) + t.1);
    assert(tr.len() > 0 ==> tr[0].0 == b0) by {
        if trace.len() > 0 {
            assert(tr[0] == trace[0]);
        }
    }
    assert forall|i: int| 1 <= i < tr.len() implies (#[trigger] tr[i]).0 == bindings_after(tr[i - 1]) by {
        if i < trace.len() {
            assert(tr[i] == trace[i]);
            assert(tr[i - 1] == trace[i - 1]);
        } else {
            assert(tr[i - 1] == trace.last());
        }
    }
    assert forall|i: int| 0 <= i < tr.len() implies step_writes(
        sequence.steps@[i],
        (#[trigger] tr[i]).0,
        sequence.name@,
        tr[i].1,
        i < tr.len() - 1 || complete,
    ) by {
        if i < trace.len() {
            assert(tr[i] == trace[i]);
        }
    }
}

proof fn lemma_step_writes(
    step: SequenceStep,
    b: Seq<BindingView>,
    name: Seq<char>,
    pw: Seq<Seq<char>>,
    sw: Seq<Seq<char>>,
    yw: Seq<Seq<char>>,
    complete: bool,
)
    requires
        pdp_writes(step, b, name, pw, complete),
        send_writes(step, b, name, sw, complete),
        payload_writes(step, b, name, yw, complete),
    ensures
        step_writes(step, b, name, pw + sw + yw, complete),
{
    reveal(step_writes);
    let ws = pw + sw + yw;
    let p = pw.len() as int;
    let q = p + sw.len();
    assert(ws.take(p) =~= pw);
    assert(ws.subrange(p, q) =~= sw);
    assert(ws.skip(q) =~= yw);
}

/// The writes after an open are those after the state before it.
proof fn lemma_writes_after_open(h_old: Seq<TransportEvent>, h_open: Seq<TransportEvent>, hf: Seq<TransportEvent>)
    requires
        h_open == h_old.push(TransportEvent::Open),
        extends(h_open, hf),
    ensures
        writes(since(hf, h_old.len() as int)) == writes(since(hf, h_open.len() as int)),
{
    let one = seq![TransportEvent::Open];
    assert(since(hf, h_old.len() as int) =~= one + since(hf, h_open.len() as int)) by {
        assert(hf[h_old.len() as int] == h_open[h_old.len() as int]);
    }
    lemma_writes_concat(one, since(hf, h_open.len() as int));
    assert(one.drop_last() =~= Seq::<TransportEvent>::empty());
    assert(writes(one.drop_last()) =~= Seq::<Seq<char>>::empty());
    assert(writes(one) =~= Seq::<Seq<char>>::empty());
}

/// Closing writes nothing.
proof fn lemma_writes_close(h: Seq<TransportEvent>, n: int)
    requires
        0 <= n <= h.len(),
    ensures
        writes(since(h.push(TransportEvent::Close), n)) == writes(since(h, n)),
{
    lemma_since_push(h, n, TransportEvent::Close);
    lemma_writes_push(since(h, n), TransportEvent::Close);
}

/// What a step that succeeded wrote is also what a step cut short may
/// have written.
proof fn lemma_step_writes_weaken(step: SequenceStep, b: Seq<BindingView>, name: Seq<char>, ws: Seq<Seq<char>>, complete: bool)
    requires
        step_writes(step, b, name, ws, complete),
    ensures
        step_writes(step, b, name, ws, false),
{
    reveal(step_writes);
    let (p, q) = choose|p: int, q: int|
        #![trigger ws.subrange(p, q)]
        0 <= p <= q <= ws.len() && pdp_writes(step, b, name, ws.take(p), complete) && send_writes(
            step,
            b,
            name,
            ws.subrange(p, q),
            complete,
        ) && payload_writes(step, b, name, ws.skip(q), complete);
    assert(pdp_writes(step, b, name, ws.take(p), false));
    assert(send_writes(step, b, name, ws.subrange(p, q), false));
    assert(payload_writes(step, b, name, ws.skip(q), false));
}

proof fn lemma_run_trace_weaken(sequence: Sequence, b0: Seq<BindingView>, trace: Seq<StepRun>)
    requires
        run_trace(sequence, b0, trace, true),
    ensures
        run_trace(sequence, b0, trace, false),
{
    assert forall|i: int| 0 <= i < trace.len() implies step_writes(
        sequence.steps@[i],
        (#[trigger] trace[i]).0,
        sequence.name@,
        trace[i].1,
        i < trace.len() - 1 || false,
    ) by {
        lemma_step_writes_weaken(sequence.steps@[i], trace[i].0, sequence.name@, trace[i].1, true);
    }
}

/// A run cut short after the steps of `trace` and part of the next one,
/// which wrote `ws`, wrote what `run_writes_reached` allows.
proof fn lemma_reached_partial(
    sequence: Sequence,
    b0: Seq<BindingView>,
    trace: Seq<StepRun>,
    b: Seq<BindingView>,
    ws: Seq<Seq<char>>,
)
    requires
        run_trace(sequence, b0, trace, true),
        trace.len() < sequence.steps@.len(),
        trace.len() == 0 ==> b == b0,
        trace.len() > 0 ==> b == bindings_after(trace.last()),
        step_writes(sequence.steps@[trace.len() as int], b, sequence.name@, ws, false),
    ensures
        run_writes_reached(sequence, b0, trace_writes(trace) + ws),
{
    let t: StepRun = (b, ws, Seq::empty());
    lemma_run_trace_push(sequence, b0, trace, t, false);
    assert(run_trace(sequence, b0, trace.push(t), false));
}

/// A run whose steps all succeeded so far wrote what `run_writes_reached`
/// allows.
proof fn lemma_reached_complete(sequence: Sequence, b0: Seq<BindingView>, trace: Seq<StepRun>)
    requires
        run_trace(sequence, b0, trace, true),
    ensures
        run_writes_reached(sequence, b0, trace_writes(trace)),
{
    lemma_run_trace_weaken(sequence, b0, trace);
}

/// A run stopped while its step at `trace.len()` had written `ws` (since
/// `hs`) wrote, since before it opened the transport, what
/// `run_writes_reached` allows.
proof fn lemma_exit(
    sequence: Sequence,
    b0: Seq<BindingView>,
    trace: Seq<StepRun>,
    b: Seq<BindingView>,
    h_old: Seq<TransportEvent>,
    h_open: Seq<TransportEvent>,
    hs: Seq<TransportEvent>,
    hcur: Seq<TransportEvent>,
)
    requires
        run_trace(sequence, b0, trace, true),
        trace.len() < sequence.steps@.len(),
        trace.len() == 0 ==> b == b0,
        trace.len() > 0 ==> b == bindings_after(trace.last()),
        h_open == h_old.push(TransportEvent::Open),
        extends(h_open, hs),
        extends(hs, hcur),
        writes(since(hs, h_open.len() as int)) == trace_writes(trace),
        step_writes(
            sequence.steps@[trace.len() as int],
            b,
            sequence.name@,
            writes(since(hcur, hs.len() as int)),
            false,
        ),
    ensures
        run_writes_reached(sequence, b0, writes(since(hcur, h_old.len() as int))),
{
    lemma_extends_trans(h_open, hs, hcur);
    lemma_since_split(hs, hcur, h_open.len() as int);
    lemma_writes_after_open(h_old, h_open, hcur);
    lemma_reached_partial(sequence, b0, trace, b, writes(since(hcur, hs.len() as int)));
}

/// A run stopped before its step at `trace.len()` wrote anything.
proof fn lemma_empty_step_exit(
    sequence: Sequence,
    b0: Seq<BindingView>,
    trace: Seq<StepRun>,
    b: Seq<BindingView>,
    h_old: Seq<TransportEvent>,
    h_open: Seq<TransportEvent>,
    hs: Seq<TransportEvent>,
)
    requires
        run_trace(sequence, b0, trace, true),
        trace.len() < sequence.steps@.len(),
        trace.len() == 0 ==> b == b0,
        trace.len() > 0 ==> b == bindings_after(trace.last()),
        h_open == h_old.push(TransportEvent::Open),
        extends(h_open, hs),
        writes(since(hs, h_open.len() as int)) == trace_writes(trace),
    ensures
        run_writes_reached(sequence, b0, writes(since(hs, h_old.len() as int))),
{
    let e = Seq::<Seq<char>>::empty();
    assert(since(hs, hs.len() as int) =~= Seq::<TransportEvent>::empty());
    assert(writes(Seq::<TransportEvent>::empty()) =~= e);
    lemma_step_writes(sequence.steps@[trace.len() as int], b, sequence.name@, e, e, e, false);
    assert(e + e + e =~= e);
    assert(hs.take(hs.len() as int) =~= hs);
    lemma_exit(sequence, b0, trace, b, h_old, h_open, hs, hs);
}

/// A single write writes just that.
proof fn lemma_writes_single(c: Seq<char>)
    ensures
        writes(seq![TransportEvent::Write(c)]) == seq![c],
{
    let one = seq![TransportEvent::Write(c)];
    assert(one.drop_last() =~= Seq::<TransportEvent>::empty());
    assert(writes(one.drop_last()) =~= Seq::<Seq<char>>::empty());
    assert(writes(one) =~= seq![c]);
}

/// A call list that starts with a write writes something.
proof fn lemma_writes_first(evs: Seq<TransportEvent>)
    requires
        evs.len() > 0,
        evs[0] is Write,
    ensures
        writes(evs).len() >= 1,
    decreases evs.len(),
{
    if evs.len() == 1 {
        assert(evs.drop_last() =~= Seq::<TransportEvent>::empty());
        assert(writes(evs.drop_last()) =~= Seq::<Seq<char>>::empty());
    } else {
        lemma_writes_first(evs.drop_last());
    }
}

/// A write followed by something else writes just that.
proof fn lemma_writes_then_other(evs: Seq<TransportEvent>, c: Seq<char>)
    requires
        evs.len() == 2,
        evs[0] == TransportEvent::Write(c),
        !(evs[1] is Write),
    ensures
        writes(evs) == seq![c],
{
    let one = evs.drop_last();
    assert(one.drop_last() =~= Seq::<TransportEvent>::empty());
    assert(writes(one.drop_last()) =~= Seq::<Seq<char>>::empty());
    assert(writes(one) =~= seq![c]);
    assert(writes(evs) =~= seq![c]);
}

/// The calls after `n` split where an intermediate record ends.
proof fn lemma_since_split(h1: Seq<TransportEvent>, h2: Seq<TransportEvent>, n: int)
    requires
        extends(h1, h2),
        0 <= n <= h1.len(),
    ensures
        since(h2, n) == since(h1, n) + since(h2, h1.len() as int),
        writes(since(h2, n)) == writes(since(h1, n)) + writes(since(h2, h1.len() as int)),
{
    assert(since(h2, n) =~= since(h1, n) + since(h2, h1.len() as int));
    lemma_writes_concat(since(h1, n), since(h2, h1.len() as int));
}

/// The calls after `n` of a history are a prefix of those of any history
/// that extends it.
proof fn lemma_since_prefix(h1: Seq<TransportEvent>, h2: Seq<TransportEvent>, n: int)
    requires
        extends(h1, h2),
        0 <= n <= h1.len(),
    ensures
        since(h1, n).is_prefix_of(since(h2, n)),
{
    lemma_since_split(h1, h2, n);
    assert(since(h2, n).subrange(0, since(h1, n).len() as int) =~= since(h1, n));
}

/// A finished run with the steps of `trace` making the calls `segs`,
/// reporting `results` and showing the masked lines `lines` is reported so.
proof fn lemma_run_reported(
    sequence: Sequence,
    b0: Seq<BindingView>,
    success: bool,
    trace: Seq<StepRun>,
    segs: Seq<Seq<TransportEvent>>,
    results: Seq<SequenceStepResult>,
    events: Seq<TransportEvent>,
    lines: Seq<Seq<char>>,
)
    requires
        run_trace(sequence, b0, trace, success),
        segments_events(segs).is_prefix_of(events),
        trace.len() == results.len(),
        segs.len() == results.len(),
        forall|i: int|
            0 <= i < results.len() ==> writes(#[trigger] segs[i]) == trace[i].1 && step_outcome(
                sequence.steps@[i],
                trace[i].0,
                sequence.name@,
                segs[i],
                results[i].status@,
            ),
        forall|i: int|
            0 <= i < results.len() && status_is_success(results[i].status@) ==> step_shown_masked(
                sequence.steps@[i],
                (#[trigger] trace[i]).0,
                sequence.name@,
                lines,
            ),
    ensures
        run_reported(sequence, b0, success, statuses_of(results), events, join_seqs(lines, "\n"@)),
{
    let st = statuses_of(results);
    assert(steps_reported(sequence, trace, segs, st));
    assert(commands_shown_masked(sequence, trace, st, lines));
}

/// Whether `s` ends with `t`.
pub open spec fn ends_with(s: Seq<char>, t: Seq<char>) -> bool {
    t.len() <= s.len() && s.subrange(s.len() - t.len(), s.len() as int) == t
}

/// The last line of a run's transcript when it succeeded.
pub open spec fn success_line(duration_ms: u64) -> Seq<char> {
    "Result: OK duration="@ + decimal(duration_ms as nat) + "ms"@
}

/// The result line of a run's transcript when a step failed, before the
/// reason.
pub open spec fn failure_line(duration_ms: u64) -> Seq<char> {
    "Result: failed duration="@ + decimal(duration_ms as nat) + "ms"@
}

/// Joined lines end with the last line.
pub proof fn lemma_join_ends_with_last(parts: Seq<Seq<char>>, sep: Seq<char>)
    requires
        parts.len() > 0,
    ensures
        ends_with(join_seqs(parts, sep), parts.last()),
{
    let j = join_seqs(parts, sep);
    if parts.len() == 1 {
        assert(j.subrange(0, j.len() as int) =~= j);
    } else {
        let a = join_seqs(parts.drop_last(), sep) + sep;
        assert(j == a + parts.last());
        assert(j.subrange(a.len() as int, j.len() as int) =~= parts.last());
    }
}

/// Joined lines end with the last two lines and the separator between them.
pub proof fn lemma_join_ends_with_last_two(parts: Seq<Seq<char>>, sep: Seq<char>)
    requires
        parts.len() >= 2,
    ensures
        ends_with(join_seqs(parts, sep), parts[parts.len() - 2] + sep + parts.last()),
{
    let init = parts.drop_last();
    lemma_join_ends_with_last(init, sep);
    let a = join_seqs(init, sep);
    let b = init.last();
    let t = b + sep + parts.last();
    let j = join_seqs(parts, sep);
    assert(j == a + sep + parts.last());
    assert(a.subrange(a.len() - b.len(), a.len() as int) == b);
    assert(j.subrange(j.len() - t.len(), j.len() as int) =~= t) by {
        assert forall|i: int| 0 <= i < t.len() implies j.subrange(j.len() - t.len(), j.len() as int)[i]
            == t[i] by {
            if i < b.len() {
                assert(j[j.len() - t.len() + i] == a[a.len() - b.len() + i]);
                assert(a.subrange(a.len() - b.len(), a.len() as int)[i] == b[i]);
            }
        }
    }
}

/// Whether a transcript ends with the failure line and a reason.
pub open spec fn ends_with_failure(s: Seq<char>, duration_ms: u64) -> bool {
    exists|reason: Seq<char>|
        ends_with(s, failure_line(duration_ms) + "\n"@ + "Reason: "@ + reason)
}

/// A transcript that ends with a failure block ends, once joined, with the
/// failure line and the reason.
proof fn lemma_failure_transcript(lines: Seq<Seq<char>>, duration: u64, reason: Seq<char>)
    requires
        lines.len() >= 2,
        lines[lines.len() - 2] == failure_line(duration),
        lines.last() == "Reason: "@ + reason,
    ensures
        ends_with_failure(join_seqs(lines, "\n"@), duration),
{
    lemma_join_ends_with_last_two(lines, "\n"@);
    assert(failure_line(duration) + "\n"@ + lines.last() =~= failure_line(duration) + "\n"@ + "Reason: "@
        + reason);
}

/// Whether every command written in `evs` is `command`.
pub open spec fn writes_only(evs: Seq<TransportEvent>, command: Seq<char>) -> bool {
    forall|k: int| 0 <= k < writes(evs).len() ==> #[trigger] writes(evs)[k] == command
}

pub proof fn lemma_extends_trans(
    a: Seq<TransportEvent>,
    b: Seq<TransportEvent>,
    c: Seq<TransportEvent>,
)
    requires
        extends(a, b),
        extends(b, c),
    ensures
        extends(a, c),
{
    assert(c.take(a.len() as int) =~= c.take(b.len() as int).take(a.len() as int));
}

pub proof fn lemma_writes_push(evs: Seq<TransportEvent>, e: TransportEvent)
    ensures
        writes(evs.push(e)) == writes(evs) + match e {
            TransportEvent::Write(c) => seq![c],
            _ => Seq::<Seq<char>>::empty(),
        },
{
    assert(evs.push(e).drop_last() =~= evs);
}

pub proof fn lemma_since_push(evs: Seq<TransportEvent>, n: int, e: TransportEvent)
    requires
        0 <= n <= evs.len(),
    ensures
        since(evs.push(e), n) == since(evs, n).push(e),
{
    assert(since(evs.push(e), n) =~= since(evs, n).push(e));
}

/// Sends a command and checks its response. A step that needs TCP
/// acknowledgement polls again until the counters are complete or the
/// step's time runs out.
fn execute_command_step<T: AtTransport, L: RawLogRecorder>(
    sequence: &Sequence,
    step: &SequenceStep,
    command: &Vec<char>,
    transport: &mut AtLink<T>,
    timeout_ms: u64,
    raw_log: &mut RawLogLink<L>,
    raw_t: &mut Vec<Vec<char>>,
    masked_t: &mut Vec<Vec<char>>,
    bindings: &Bindings,
) -> (r: Result<StepOutcome, AtctlError>)
    ensures
        seqs_view(old(masked_t)@).is_prefix_of(seqs_view(final(masked_t)@)),
        seqs_view(final(masked_t)@).contains("> "@ + masked_sequence_text(command@, bindings@)),
        r matches Ok(o) ==> final(transport).history().len() > old(transport).history().len()
            && command_read(*step, bindings@, sequence.name@, final(transport).history().last(), o.status@),
        errors_accounted(
            old(transport).failures(),
            final(transport).failures(),
            old(raw_log).failures(),
            final(raw_log).failures(),
            r,
        ),
        r matches Ok(o) ==> (o.expectation_failure is Some ==> o.status@ == StatusView::Error),
        extends(old(transport).history(), final(transport).history()),
        final(transport).history().len() > old(transport).history().len(),
        final(transport).history()[old(transport).history().len() as int] == TransportEvent::Write(
            with_terminator(command@),
        ),
        writes_only(
            since(final(transport).history(), old(transport).history().len() as int),
            with_terminator(command@),
        ),
        !step.require_tcp_ack ==> writes(
            since(final(transport).history(), old(transport).history().len() as int),
        ) == seq![with_terminator(command@)],
        !step.require_tcp_ack ==> (r matches Ok(o) ==> ({
            let new = since(final(transport).history(), old(transport).history().len() as int);
            &&& new.len() == 2
            &&& new[1] matches TransportEvent::ReadUntil(_, Some(raw)) && evaluates_to(
                *step,
                bindings@,
                sequence.name@,
                raw,
                o.status@,
                ov(o.expectation_failure),
            ) && seqs_view(o.response_texts@) == seq![utf8_lossy(raw)]
        })),
        step.require_tcp_ack ==> ({
            let new = since(final(transport).history(), old(transport).history().len() as int);
            forall|k: int|
                0 <= k < new.len() - 1 ==> #[trigger] incomplete_acknowledgement(
                    *step,
                    bindings@,
                    sequence.name@,
                    new[k],
                )
        }),
        step.require_tcp_ack ==> (r matches Ok(o) ==> ((final(transport).history().last() matches TransportEvent::ReadUntil(
            _,
            Some(raw),
        ) && evaluates_to(
            *step,
            bindings@,
            sequence.name@,
            raw,
            o.status@,
            ov(o.expectation_failure),
        )) || (final(transport).history().last() matches TransportEvent::ReadUntil(_, None)
            && o.status@ == StatusView::Error && o.expectation_failure is Some))),
{
    let ghost h0 = transport.history();
    let ghost t0 = transport.failures();
    let ghost r0 = raw_log.failures();
    assert(t0.is_prefix_of(t0) && r0.is_prefix_of(r0)) by {
        assert(t0.subrange(0, t0.len() as int) =~= t0);
        assert(r0.subrange(0, r0.len() as int) =~= r0);
    }
    let ghost n0 = h0.len() as int;
    let ghost tw = with_terminator(command@);
    let ghost m0 = seqs_view(masked_t@);
    let ghost ml = "> "@ + masked_sequence_text(command@, bindings@);
    proof {
        lemma_lines_prefix_refl(m0);
    }
    let started = clock_now();
    let deadline = timeout_ms;
    let mut response_texts: Vec<Vec<char>> = Vec::new();
    let mut last_tcp_ack_failure: Option<Vec<char>> = None;
    let mut attempts: u64 = 0;
    assert(since(h0, n0) =~= Seq::<TransportEvent>::empty());
    assert(h0.take(n0) =~= h0);
    loop
        invariant
            h0 == old(transport).history(),
            n0 == h0.len(),
            tw == with_terminator(command@),
            extends(h0, transport.history()),
            writes_only(since(transport.history(), n0), tw),
            attempts == 0 ==> transport.history() == h0 && response_texts@.len() == 0,
            attempts > 0 ==> transport.history().len() > n0 && transport.history()[n0]
                == TransportEvent::Write(tw) && step.require_tcp_ack,
            last_tcp_ack_failure is Some ==> step.require_tcp_ack,
            !step.require_tcp_ack ==> transport.history() == h0,
            forall|k: int|
                0 <= k < since(transport.history(), n0).len() ==> #[trigger] incomplete_acknowledgement(
                    *step,
                    bindings@,
                    sequence.name@,
                    since(transport.history(), n0)[k],
                ),
            attempts > 0 ==> transport.history().last() is ReadUntil,
            t0 == old(transport).failures(),
            r0 == old(raw_log).failures(),
            t0.is_prefix_of(transport.failures()),
            r0.is_prefix_of(raw_log.failures()),
            m0 == seqs_view(old(masked_t)@),
            ml == "> "@ + masked_sequence_text(command@, bindings@),
            m0.is_prefix_of(seqs_view(masked_t@)),
            attempts > 0 ==> seqs_view(masked_t@).contains(ml),
        decreases u64::MAX - attempts,
    {
        let ghost mb = seqs_view(masked_t@);
        push_command_sections(raw_t, masked_t, "Command:", "> ", command, bindings);
        proof {
            lemma_section_grows(mb, "Command:"@, seq![ml]);
            assert(seq![ml][0] == ml);
            lemma_lines_prefix_trans(m0, mb, seqs_view(masked_t@));
        }
        let attempt_started = millis_since(&started);
        let tx = command_with_terminator(string_of(command).as_str());
        let ghost hb = transport.history();
        let ghost tb = transport.failures();
        let write_result = transport.write_command(tx.as_str());
        proof {
            lemma_prefix_after(t0, tb, write_result);
            lemma_writes_push(since(hb, n0), TransportEvent::Write(tw));
            lemma_since_push(hb, n0, TransportEvent::Write(tw));
            assert(transport.history().take(n0) =~= h0);
            assert forall|k: int| 0 <= k < writes(since(transport.history(), n0)).len() implies #[trigger] writes(
                since(transport.history(), n0),
            )[k] == tw by {
                if k < writes(since(hb, n0)).len() {
                    assert(writes(since(transport.history(), n0))[k] == writes(since(hb, n0))[k]);
                }
            }
            if !step.require_tcp_ack {
                assert(since(hb, n0) =~= Seq::<TransportEvent>::empty());
                assert(writes(since(transport.history(), n0)) =~= seq![tw]);
            }
        }
        match write_result {
            Ok(()) => {},
            Err(error) => {
                let elapsed = millis_since(&started);
                let spent = if elapsed >= attempt_started {
                    elapsed - attempt_started
                } else {
                    0
                };
                let ghost rb = raw_log.failures();
                let logged = append_raw_error(raw_log, sequence, step, command, spent, "write_command", &error, &tx);
                proof {
                    lemma_prefix_after(r0, rb, logged);
                    if let Err(e2) = &logged {
                        lemma_run_error_here(*e2, r0, rb, t0, transport.failures());
                    }
                    lemma_run_error_here(error, t0, tb, r0, raw_log.failures());
                }
                logged?;
                return Err(error);
            },
        }
        let matcher = response_matcher_for_step(sequence, step, bindings)?;
        let now = millis_since(&started);
        let remaining = if now >= deadline {
            0
        } else {
            deadline - now
        };
        let budget = if remaining < 1000 {
            1000
        } else {
            remaining
        };
        let ghost hw = transport.history();
        let ghost tr = transport.failures();
        let read_result = transport.read_until(budget, matcher);
        proof {
            lemma_prefix_after(t0, tr, read_result);
            let e = transport.history().last();
            lemma_writes_push(since(hw, n0), e);
            lemma_since_push(hw, n0, e);
            assert(transport.history().take(n0) =~= h0);
            assert(transport.history() == hw.push(e));
            assert(writes(since(transport.history(), n0)) =~= writes(since(hw, n0)));
        }
        let raw_response = match read_result {
            Ok(raw) => raw,
            Err(error) => {
                if step.require_tcp_ack && last_tcp_ack_failure.is_some() {
                    let expectation = last_tcp_ack_failure;
                    return Ok(
                        StepOutcome {
                            status: AtStatus::Error,
                            response_texts,
                            expectation_failure: expectation,
                        },
                    );
                }
                let elapsed = millis_since(&started);
                let spent = if elapsed >= attempt_started {
                    elapsed - attempt_started
                } else {
                    0
                };
                let ghost rb = raw_log.failures();
                let logged = append_raw_error(raw_log, sequence, step, command, spent, "read_response", &error, &tx);
                proof {
                    lemma_prefix_after(r0, rb, logged);
                    if let Err(e2) = &logged {
                        lemma_run_error_here(*e2, r0, rb, t0, transport.failures());
                    }
                    lemma_run_error_here(error, t0, tr, r0, raw_log.failures());
                }
                logged?;
                return Err(error);
            },
        };
        let response = parse_response(raw_response.as_slice());
        let elapsed = millis_since(&started);
        let duration = if elapsed >= attempt_started {
            elapsed - attempt_started
        } else {
            0
        };
        let text = chars_of(response.text.as_str());
        let ghost rr = seqs_view(raw_t@);
        let ghost mr = seqs_view(masked_t@);
        push_response_transcript(raw_t, masked_t, &text, bindings);
        proof {
            lemma_response_sections_grows(rr, mr, text@, bindings@);
            lemma_lines_prefix_trans(m0, mr, seqs_view(masked_t@));
            lemma_lines_prefix_contains(mr, seqs_view(masked_t@), ml);
        }
        let (status, expectation, ack_failure) = evaluate_response(
            sequence,
            step,
            bindings,
            &text,
            &response.status,
        )?;
        match ack_failure {
            Some(f) => {
                last_tcp_ack_failure = Some(f);
            },
            None => {},
        }
        if step.require_tcp_ack && last_tcp_ack_failure.is_none() {
            last_tcp_ack_failure = match &expectation {
                Some(v) => Some(slice(v, 0, v.len())),
                None => None,
            };
        }
        let ghost ra = raw_log.failures();
        let logged = raw_log.append_exchange(
            RawLogExchange {
                command_name: Some(step.id.clone()),
                command: string_of(command),
                risk: sequence.risk,
                status: status.duplicate(),
                duration_ms: duration,
                tx_bytes: bytes_of(&tx),
                rx_bytes: response.raw,
            },
        );
        proof {
            lemma_prefix_after(r0, ra, logged);
            if let Err(e2) = &logged {
                lemma_run_error_here(*e2, r0, ra, t0, transport.failures());
            }
        }
        logged?;
        response_texts.push(text);
        if !step.require_tcp_ack || expectation.is_none() {
            return Ok(StepOutcome { status, response_texts, expectation_failure: expectation });
        }
        let now = millis_since(&started);
        if now >= deadline || deadline - now <= TCP_ACK_RETRY_INTERVAL_MS || attempts == u64::MAX {
            return Ok(StepOutcome { status, response_texts, expectation_failure: expectation });
        }
        transport.pause(TCP_ACK_RETRY_INTERVAL_MS);
        attempts += 1;
    }
}

/// Writes a payload and checks the response.
fn execute_payload_step<T: AtTransport, L: RawLogRecorder>(
    sequence: &Sequence,
    step: &SequenceStep,
    payload: &Vec<char>,
    transport: &mut AtLink<T>,
    timeout_ms: u64,
    raw_log: &mut RawLogLink<L>,
    raw_t: &mut Vec<Vec<char>>,
    masked_t: &mut Vec<Vec<char>>,
    bindings: &Bindings,
) -> (r: Result<StepOutcome, AtctlError>)
    ensures
        seqs_view(old(masked_t)@).is_prefix_of(seqs_view(final(masked_t)@)),
        seqs_view(final(masked_t)@).contains("> payload "@ + masked_sequence_text(payload@, bindings@)),
        r matches Ok(o) ==> final(transport).history().len() > old(transport).history().len() && (
        final(transport).history().last() matches TransportEvent::ReadUntil(_, Some(raw))
            && payload_status(*step, bindings@, sequence.name@, raw, o.status@)),
        errors_accounted(
            old(transport).failures(),
            final(transport).failures(),
            old(raw_log).failures(),
            final(raw_log).failures(),
            r,
        ),
        r matches Ok(o) ==> (o.expectation_failure is Some ==> o.status@ == StatusView::Error),
        extends(old(transport).history(), final(transport).history()),
        final(transport).history().len() > old(transport).history().len(),
        final(transport).history()[old(transport).history().len() as int] == TransportEvent::Write(
            terminated_payload(payload@, step.terminator),
        ),
        writes(since(final(transport).history(), old(transport).history().len() as int)) == seq![
            terminated_payload(payload@, step.terminator),
        ],
        r matches Ok(o) ==> ({
            let new = since(final(transport).history(), old(transport).history().len() as int);
            &&& new.len() == 2
            &&& new[1] matches TransportEvent::ReadUntil(_, Some(raw)) && first_missing(
                expected_templates(*step),
                utf8_lossy(raw),
                bindings@,
                sequence.name@,
                step.id@,
            ) == Ok::<Option<Seq<char>>, TemplateError>(ov(o.expectation_failure)) && (
            o.expectation_failure is None ==> step_status_spec(
                *step,
                bindings@,
                sequence.name@,
                utf8_lossy(raw),
                raw_status(raw),
            ) == Ok::<StatusView, TemplateError>(o.status@))
        }),
{
    let ghost h0 = transport.history();
    let ghost t0 = transport.failures();
    let ghost r0 = raw_log.failures();
    assert(t0.is_prefix_of(t0) && r0.is_prefix_of(r0)) by {
        assert(t0.subrange(0, t0.len() as int) =~= t0);
        assert(r0.subrange(0, r0.len() as int) =~= r0);
    }
    let ghost m0 = seqs_view(masked_t@);
    push_command_sections(raw_t, masked_t, "Payload:", "> payload ", payload, bindings);
    let ghost m1 = seqs_view(masked_t@);
    let ghost pl = "> payload "@ + masked_sequence_text(payload@, bindings@);
    proof {
        lemma_section_grows(m0, "Payload:"@, seq![pl]);
        assert(seq![pl][0] == pl);
    }
    let tx_chars = payload_with_terminator(payload, step.terminator);
    let tx = string_of(&tx_chars);
    let started = clock_now();
    let label = chars_of("payload");
    let write_result = transport.write_command(tx.as_str());
    proof {
        lemma_prefix_after(t0, t0, write_result);
    }
    assert(transport.history().take(h0.len() as int) =~= h0);
    proof {
        assert(since(transport.history(), h0.len() as int) =~= seq![
            TransportEvent::Write(terminated_payload(payload@, step.terminator)),
        ]);
        lemma_writes_single(terminated_payload(payload@, step.terminator));
    }
    match write_result {
        Ok(()) => {},
        Err(error) => {
            let spent = millis_since(&started);
            let logged = append_raw_error(raw_log, sequence, step, &label, spent, "write_payload", &error, &tx);
            proof {
                lemma_prefix_after(r0, r0, logged);
                if let Err(e2) = &logged {
                    lemma_run_error_here(*e2, r0, r0, t0, transport.failures());
                }
                lemma_run_error_here(error, t0, t0, r0, raw_log.failures());
            }
            logged?;
            return Err(error);
        },
    }
    let matcher = response_matcher_for_step(sequence, step, bindings)?;
    let ghost hw = transport.history();
    let ghost tr = transport.failures();
    let read_result = transport.read_until(timeout_ms, matcher);
    proof {
        lemma_prefix_after(t0, tr, read_result);
    }
    assert(transport.history().take(h0.len() as int) =~= h0);
    assert(since(transport.history(), h0.len() as int) =~= seq![transport.history()[h0.len() as int], transport.history().last()]);
    proof {
        lemma_writes_then_other(
            since(transport.history(), h0.len() as int),
            terminated_payload(payload@, step.terminator),
        );
    }
    let raw_response = match read_result {
        Ok(raw) => raw,
        Err(error) => {
            let spent = millis_since(&started);
            let logged = append_raw_error(raw_log, sequence, step, &label, spent, "read_payload_response", &error, &tx);
            proof {
                lemma_prefix_after(r0, r0, logged);
                if let Err(e2) = &logged {
                    lemma_run_error_here(*e2, r0, r0, t0, transport.failures());
                }
                lemma_run_error_here(error, t0, tr, r0, raw_log.failures());
            }
            logged?;
            return Err(error);
        },
    };
    let response = parse_response(raw_response.as_slice());
    let duration = millis_since(&started);
    let text = chars_of(response.text.as_str());
    let ghost rr = seqs_view(raw_t@);
    push_response_transcript(raw_t, masked_t, &text, bindings);
    proof {
        lemma_response_sections_grows(rr, m1, text@, bindings@);
        lemma_lines_prefix_trans(m0, m1, seqs_view(masked_t@));
        lemma_lines_prefix_contains(m1, seqs_view(masked_t@), pl);
    }
    let expectation = step_expectation_failure(sequence, step, &text, bindings)?;
    let mut status = step_status(sequence, step, bindings, &text, &response.status)?;
    if expectation.is_some() {
        status = AtStatus::Error;
    }
    let logged = raw_log.append_exchange(
        RawLogExchange {
            command_name: Some(step.id.clone()),
            command: "payload".to_owned(),
            risk: sequence.risk,
            status: status.duplicate(),
            duration_ms: duration,
            tx_bytes: bytes_of(&tx),
            rx_bytes: response.raw,
        },
    );
    proof {
        lemma_prefix_after(r0, r0, logged);
        if let Err(e2) = &logged {
            lemma_run_error_here(*e2, r0, r0, t0, transport.failures());
        }
    }
    logged?;
    let mut texts: Vec<Vec<char>> = Vec::new();
    texts.push(text);
    Ok(StepOutcome { status, response_texts: texts, expectation_failure: expectation })
}

fn general_line(text: Vec<char>) -> (r: AnalysisLine)
    ensures
        r.kind == AnalysisKind::General,
        r.raw@ == text@,
        r.masked@ == text@,
{
    let masked = slice(&text, 0, text.len());
    AnalysisLine { kind: AnalysisKind::General, raw: text, masked }
}

/// Checks a Quectel PDP context with `AT+QIACT?` and activates it with
/// `AT+QIACT=<id>` only when it is not active.
fn execute_ensure_pdp_context_active<T: AtTransport, L: RawLogRecorder>(
    sequence: &Sequence,
    step: &SequenceStep,
    context_template: &Vec<char>,
    transport: &mut AtLink<T>,
    timeout_ms: u64,
    raw_log: &mut RawLogLink<L>,
    raw_t: &mut Vec<Vec<char>>,
    masked_t: &mut Vec<Vec<char>>,
    bindings: &Bindings,
    analysis: &mut Vec<AnalysisLine>,
) -> (r: Result<StepOutcome, AtctlError>)
    ensures
        seqs_view(old(masked_t)@).is_prefix_of(seqs_view(final(masked_t)@)),
        r matches Ok(o) ==> final(transport).history().len() > old(transport).history().len() && (
        final(transport).history().last() matches TransportEvent::ReadUntil(_, Some(raw)) && ok_check(
            bindings@,
            sequence.name@,
            raw,
            o.status@,
        )),
        errors_accounted(
            old(transport).failures(),
            final(transport).failures(),
            old(raw_log).failures(),
            final(raw_log).failures(),
            r,
        ),
        r matches Ok(o) ==> (o.expectation_failure is Some ==> o.status@ == StatusView::Error),
        extends(old(transport).history(), final(transport).history()),
        match render_spec(context_template@, bindings@, sequence.name@, step.id@) {
            Err(x) => r matches Err(e) && template_error(e, x) && final(transport).history()
                == old(transport).history(),
            Ok(id) => {
                let new = since(final(transport).history(), old(transport).history().len() as int);
                &&& new.len() > 0
                &&& new[0] == TransportEvent::Write(with_terminator("AT+QIACT?"@))
                &&& (writes(new) == seq![with_terminator("AT+QIACT?"@)] || writes(new) == seq![
                    with_terminator("AT+QIACT?"@),
                    with_terminator("AT+QIACT="@ + id),
                ])
                &&& r is Ok ==> (new.len() == 2 || new.len() == 4) && (new[1] matches TransportEvent::ReadUntil(
                    _,
                    Some(raw),
                ) && (context_active(utf8_lossy(raw), id) ==> new.len() == 2) && (new.len() == 4
                    ==> !context_active(utf8_lossy(raw), id) && new[2] == TransportEvent::Write(
                    with_terminator("AT+QIACT="@ + id),
                )))
            },
        },
{
    let ghost h0 = transport.history();
    let ghost m0 = seqs_view(masked_t@);
    proof {
        lemma_lines_prefix_refl(m0);
    }
    let ghost t0 = transport.failures();
    let ghost r0 = raw_log.failures();
    assert(t0.is_prefix_of(t0) && r0.is_prefix_of(r0)) by {
        assert(t0.subrange(0, t0.len() as int) =~= t0);
        assert(r0.subrange(0, r0.len() as int) =~= r0);
    }
    assert(h0.take(h0.len() as int) =~= h0);
    let context_id = render_chars(context_template, bindings, sequence, step.id.as_str())?;
    let mut check_id = chars_of(step.id.as_str());
    push_str(&mut check_id, "-check");
    let check_step = internal_command_step(check_id, &chars_of("Check Quectel PDP context state"), "OK");
    let check = execute_command_step(
        sequence,
        &check_step,
        &chars_of("AT+QIACT?"),
        transport,
        timeout_ms,
        raw_log,
        raw_t,
        masked_t,
        bindings,
    )?;
    let ghost h1 = transport.history();
    proof {
        assert(h1.take(h0.len() as int) =~= h0);
        assert(expects_ok(check_step));
    }
    let check_text = join_chars(&check.response_texts, "\n");
    let mut texts: Vec<Vec<char>> = Vec::new();
    texts.push(slice(&check_text, 0, check_text.len()));
    let mut status = check.status;
    let mut expectation = check.expectation_failure;
    if expectation.is_none() && status.is_success() && qiact_context_is_active(&check_text, &context_id) {
        let mut v = chars_of("Quectel PDP context ");
        push_all(&mut v, &context_id);
        push_str(&mut v, " is already active; AT+QIACT=");
        push_all(&mut v, &context_id);
        push_str(&mut v, " was not sent.");
        analysis.push(general_line(v));
        return Ok(StepOutcome { status, response_texts: texts, expectation_failure: expectation });
    }
    if expectation.is_none() && status.is_success() {
        let mut command = chars_of("AT+QIACT=");
        push_all(&mut command, &context_id);
        let mut activate_id = chars_of(step.id.as_str());
        push_str(&mut activate_id, "-activate");
        let activate_step = internal_command_step(
            activate_id,
            &chars_of("Activate Quectel PDP context"),
            "OK",
        );
        let ghost t1 = transport.failures();
        let ghost r1 = raw_log.failures();
        let ghost m1 = seqs_view(masked_t@);
        let activate_result = execute_command_step(
            sequence,
            &activate_step,
            &command,
            transport,
            timeout_ms,
            raw_log,
            raw_t,
            masked_t,
            bindings,
        );
        proof {
            lemma_lines_prefix_trans(m0, m1, seqs_view(masked_t@));
            lemma_prefix_trans(t0, t1, transport.failures());
            lemma_prefix_trans(r0, r1, raw_log.failures());
            if let Err(e) = &activate_result {
                assert(t1.is_prefix_of(t1) && r1.is_prefix_of(r1)) by {
                    assert(t1.subrange(0, t1.len() as int) =~= t1);
                    assert(r1.subrange(0, r1.len() as int) =~= r1);
                }
                let tf = transport.failures();
                let rf = raw_log.failures();
                assert(tf.subrange(0, tf.len() as int) =~= tf);
                assert(rf.subrange(0, rf.len() as int) =~= rf);
                lemma_run_error_lift(*e, t0, t1, tf, tf, r0, r1, rf, rf);
            }
            lemma_extends_trans(h0, h1, transport.history());
            let h2 = transport.history();
            assert(h2.take(h1.len() as int) =~= h1);
            assert(since(h2, h0.len() as int) =~= since(h1, h0.len() as int) + since(h2, h1.len() as int));
            lemma_writes_concat(since(h1, h0.len() as int), since(h2, h1.len() as int));
        }
        let activate = activate_result?;
        proof {
            assert(expects_ok(activate_step));
            let h2 = transport.history();
            assert(h2.take(h1.len() as int) =~= h1);
            assert(h2.take(h0.len() as int) =~= h0);
            assert(since(h2, h0.len() as int) =~= since(h1, h0.len() as int) + since(h2, h1.len() as int));
            lemma_writes_concat(since(h1, h0.len() as int), since(h2, h1.len() as int));
        }
        status = activate.status;
        expectation = activate.expectation_failure;
        let more = join_chars(&activate.response_texts, "\n");
        texts.push(more);
        if expectation.is_none() && status.is_success() {
            let mut v = chars_of("Quectel PDP context ");
            push_all(&mut v, &context_id);
            push_str(&mut v, " was not active in AT+QIACT? output; AT+QIACT=");
            push_all(&mut v, &context_id);
            push_str(&mut v, " activated it.");
            analysis.push(general_line(v));
        }
    }
    Ok(StepOutcome { status, response_texts: texts, expectation_failure: expectation })
}

/// The bindings after binding `name` to `value` and `<name>_len` to its
/// length in UTF-8 bytes (never sensitive).
pub open spec fn bind_derived(
    b: Seq<BindingView>,
    name: Seq<char>,
    value: Seq<char>,
    sensitive: bool,
) -> Seq<BindingView> {
    upsert(
        upsert(b, (name, value, sensitive)),
        (name + "_len"@, decimal(utf8_len(value)), false),
    )
}

/// Binds `name` and `<name>_len` from a value found in a response.
fn insert_derived_binding(bindings: &mut Bindings, name: &str, value: &Vec<char>, sensitive: bool)
    ensures
        final(bindings)@ == bind_derived(old(bindings)@, name@, value@, sensitive),
{
    bindings.insert(name.to_owned(), BoundParam { value: string_of(value), sensitive });
    let mut len_name = chars_of(name);
    push_str(&mut len_name, "_len");
    let bytes = utf8_len_exec(value);
    let mut text: Vec<char> = Vec::new();
    push_decimal(&mut text, bytes);
    assert(text@ =~= decimal(bytes as nat));
    bindings.insert(string_of(&len_name), BoundParam { value: string_of(&text), sensitive: false });
}

/// The first non-empty sender among the messages from position `k` on.
pub open spec fn first_sender_from(ms: Seq<SmsView>, k: int) -> Option<Seq<char>>
    decreases ms.len() - k,
{
    if k < 0 || k >= ms.len() {
        None
    } else {
        match ms[k].2 {
            Some(s) => if s.len() > 0 {
                Some(s)
            } else {
                first_sender_from(ms, k + 1)
            },
            None => first_sender_from(ms, k + 1),
        }
    }
}

/// The findings of the messages: for each, its metadata line and the lines
/// of its body.
pub open spec fn message_lines(ms: Seq<SmsView>) -> Seq<LineView>
    decreases ms.len(),
{
    if ms.len() == 0 {
        Seq::empty()
    } else {
        message_lines(ms.drop_last()) + seq![sms_meta_line(ms.last())] + sms_body_lines(ms.last().4)
    }
}

/// The findings of one response and the bindings after it: the first
/// non-empty SMS sender is bound as `sms_sender`; then the messages, the
/// TCP counters (read with those bindings) and the ping results.
pub open spec fn response_analysis(text: Seq<char>, b: Seq<BindingView>) -> (
    Seq<LineView>,
    Seq<BindingView>,
) {
    let ms = sms_messages(text);
    let b2 = match first_sender_from(ms, 0) {
        Some(sender) => bind_derived(b, "sms_sender"@, sender, true),
        None => b,
    };
    (message_lines(ms) + tcp_lines(text_lines(text), b2) + ping_lines(text_lines(text)), b2)
}

/// The findings of the responses in order, and the bindings after them.
pub open spec fn derived_analysis(responses: Seq<Seq<char>>, b: Seq<BindingView>) -> (
    Seq<LineView>,
    Seq<BindingView>,
)
    decreases responses.len(),
{
    if responses.len() == 0 {
        (Seq::empty(), b)
    } else {
        let before = derived_analysis(responses.drop_last(), b);
        let last = response_analysis(responses.last(), before.1);
        (before.0 + last.0, last.1)
    }
}

/// The findings of a step's responses; the sender of a read SMS is bound
/// as `sms_sender` for later steps.
fn derive_response_analysis(responses: &Vec<Vec<char>>, bindings: &mut Bindings) -> (r: Vec<
    AnalysisLine,
>)
    ensures
        lines_view(r@) == derived_analysis(seqs_view(responses@), old(bindings)@).0,
        final(bindings)@ == derived_analysis(seqs_view(responses@), old(bindings)@).1,
{
    let ghost rs = seqs_view(responses@);
    let ghost b0 = bindings@;
    let mut analysis: Vec<AnalysisLine> = Vec::new();
    let mut n: usize = 0;
    assert(rs.take(0) =~= Seq::<Seq<char>>::empty());
    while n < responses.len()
        invariant
            n <= responses.len(),
            rs == seqs_view(responses@),
            lines_view(analysis@) == derived_analysis(rs.take(n as int), b0).0,
            bindings@ == derived_analysis(rs.take(n as int), b0).1,
        decreases responses.len() - n,
    {
        let response = &responses[n];
        let ghost b_before = bindings@;
        let ghost a_before = lines_view(analysis@);
        let messages = parse_sms_messages(response);
        let ghost ms = sms_messages(response@);
        let mut k: usize = 0;
        let mut bound = false;
        while k < messages.len() && !bound
            invariant
                k <= messages.len(),
                sms_views(messages@) == ms,
                !bound ==> first_sender_from(ms, k as int) == first_sender_from(ms, 0)
                    && bindings@ == b_before,
                bound ==> (first_sender_from(ms, 0) matches Some(sender) && bindings@ == bind_derived(
                    b_before,
                    "sms_sender"@,
                    sender,
                    true,
                )),
            decreases messages.len() - k + (if bound {
                0int
            } else {
                1int
            }),
        {
            assert(ms[k as int] == sms_view(messages@[k as int]));
            match &messages[k].sender {
                Some(sender) => {
                    if sender.len() > 0 {
                        insert_derived_binding(bindings, "sms_sender", sender, true);
                        bound = true;
                    } else {
                        k += 1;
                    }
                },
                None => {
                    k += 1;
                },
            }
        }
        proof {
            if !bound {
                assert(first_sender_from(ms, k as int) is None);
            }
        }
        let mut m: usize = 0;
        assert(ms.take(0) =~= Seq::<SmsView>::empty());
        assert(a_before + message_lines(ms.take(0)) =~= a_before);
        while m < messages.len()
            invariant
                m <= messages.len(),
                sms_views(messages@) == ms,
                lines_view(analysis@) == a_before + message_lines(ms.take(m as int)),
            decreases messages.len() - m,
        {
            assert(ms[m as int] == sms_view(messages@[m as int]));
            let ghost before_m = lines_view(analysis@);
            analysis.push(sms_metadata_analysis(&messages[m]));
            assert(lines_view(analysis@) =~= before_m.push(sms_meta_line(ms[m as int])));
            push_sms_body_analysis(&mut analysis, &messages[m].body);
            assert(ms.take(m + 1).drop_last() =~= ms.take(m as int));
            assert(lines_view(analysis@) =~= a_before + message_lines(ms.take(m + 1)));
            m += 1;
        }
        assert(ms.take(m as int) =~= ms);
        push_tcp_analysis(&mut analysis, response, bindings);
        push_ping_analysis(&mut analysis, response);
        proof {
            assert(rs.take(n + 1).drop_last() =~= rs.take(n as int));
            assert(rs.take(n + 1).last() == response@);
            let ra = response_analysis(response@, b_before);
            assert(bindings@ == ra.1);
            assert(lines_view(analysis@) =~= a_before + ra.0);
        }
        n += 1;
    }
    assert(rs.take(n as int) =~= rs);
    analysis
}

/// The step's evidence note as a finding, when it is to be included and
/// the step has one: rendered, and masked for the masked transcript.
pub open spec fn evidence_lines(
    sequence: Sequence,
    step: SequenceStep,
    b: Seq<BindingView>,
    wanted: bool,
) -> Result<Seq<LineView>, TemplateError> {
    if wanted && step.evidence is Some {
        match render_spec(step.evidence->0@, b, sequence.name@, step.id@) {
            Ok(x) => Ok(seq![(AnalysisKind::General, x, masked_sequence_text(x, b))]),
            Err(e) => Err(e),
        }
    } else {
        Ok(Seq::empty())
    }
}

pub open spec fn raw_texts(ls: Seq<LineView>) -> Seq<Seq<char>> {
    ls.map_values(|l: LineView| l.1)
}

pub open spec fn masked_texts(ls: Seq<LineView>) -> Seq<Seq<char>> {
    ls.map_values(|l: LineView| l.2)
}

/// The step's evidence note (when it did not fail), the extra findings and
/// the findings of its responses, added to both transcripts; the raw and
/// masked texts of the findings, if any.
fn push_step_analysis(
    sequence: &Sequence,
    step: &SequenceStep,
    responses: &Vec<Vec<char>>,
    extra: Vec<AnalysisLine>,
    include_evidence: bool,
    raw_t: &mut Vec<Vec<char>>,
    masked_t: &mut Vec<Vec<char>>,
    bindings: &mut Bindings,
) -> (r: Result<(Option<String>, Option<String>), AtctlError>)
    ensures
        seqs_view(old(masked_t)@).is_prefix_of(seqs_view(final(masked_t)@)),
        match evidence_lines(*sequence, *step, old(bindings)@, include_evidence) {
            Err(x) => r matches Err(e) && template_error(e, x) && final(bindings)@ == old(bindings)@
                && final(raw_t)@ == old(raw_t)@ && final(masked_t)@ == old(masked_t)@,
            Ok(ev) => {
                let d = derived_analysis(seqs_view(responses@), old(bindings)@);
                let all = ev + lines_view(extra@) + d.0;
                &&& final(bindings)@ == d.1
                &&& all.len() == 0 ==> r == Ok::<(Option<String>, Option<String>), AtctlError>(
                    (None, None),
                ) && final(raw_t)@ == old(raw_t)@ && final(masked_t)@ == old(masked_t)@
                &&& all.len() > 0 ==> (r matches Ok((Some(a), Some(m))) && a@ == join_seqs(
                    raw_texts(all),
                    "\n"@,
                ) && m@ == join_seqs(masked_texts(all), "\n"@)) && seqs_view(final(raw_t)@)
                    == analysis_sections(seqs_view(old(raw_t)@), all, false) && seqs_view(
                    final(masked_t)@,
                ) == analysis_sections(seqs_view(old(masked_t)@), all, true)
            },
        },
{
    let ghost m0 = seqs_view(masked_t@);
    proof {
        lemma_lines_prefix_refl(m0);
    }
    let ghost b0 = bindings@;
    let mut analysis: Vec<AnalysisLine> = Vec::new();
    if include_evidence {
        match &step.evidence {
            Some(template) => {
                let raw = render_chars(&chars_of(template.as_str()), bindings, sequence, step.id.as_str())?;
                let masked = mask_sequence_text(&raw, bindings);
                analysis.push(AnalysisLine { kind: AnalysisKind::General, raw, masked });
            },
            None => {},
        }
    }
    let ghost ev = lines_view(analysis@);
    assert(evidence_lines(*sequence, *step, b0, include_evidence) == Ok::<
        Seq<LineView>,
        TemplateError,
    >(ev)) by {
        if include_evidence && step.evidence is Some {
            assert(ev =~= seq![ev[0]]);
        } else {
            assert(ev =~= Seq::<LineView>::empty());
        }
    }
    let mut i: usize = 0;
    assert(lines_view(extra@).take(0) =~= Seq::<LineView>::empty());
    assert(ev + lines_view(extra@).take(0) =~= ev);
    while i < extra.len()
        invariant
            i <= extra.len(),
            lines_view(analysis@) == ev + lines_view(extra@).take(i as int),
        decreases extra.len() - i,
    {
        let l = &extra[i];
        let ghost before = lines_view(analysis@);
        let lr = slice(&l.raw, 0, l.raw.len());
        let lm = slice(&l.masked, 0, l.masked.len());
        assert(lr@ =~= l.raw@ && lm@ =~= l.masked@);
        let copied = AnalysisLine { kind: l.kind, raw: lr, masked: lm };
        assert(line_view(copied) == line_view(extra@[i as int]));
        analysis.push(copied);
        assert(lines_view(extra@).take(i + 1) =~= lines_view(extra@).take(i as int).push(line_view(extra@[i as int])));
        assert(lines_view(analysis@) =~= before.push(line_view(extra@[i as int])));
        i += 1;
    }
    assert(lines_view(extra@).take(i as int) =~= lines_view(extra@));
    let ghost base = lines_view(analysis@);
    let derived = derive_response_analysis(responses, bindings);
    let ghost d = lines_view(derived@);
    let mut j: usize = 0;
    assert(base + d.take(0) =~= base);
    while j < derived.len()
        invariant
            j <= derived.len(),
            d == lines_view(derived@),
            lines_view(analysis@) == base + d.take(j as int),
        decreases derived.len() - j,
    {
        let dl = &derived[j];
        let ghost before = lines_view(analysis@);
        let dr = slice(&dl.raw, 0, dl.raw.len());
        let dm = slice(&dl.masked, 0, dl.masked.len());
        assert(dr@ =~= dl.raw@ && dm@ =~= dl.masked@);
        let copied = AnalysisLine { kind: dl.kind, raw: dr, masked: dm };
        assert(line_view(copied) == d[j as int]);
        analysis.push(copied);
        assert(d.take(j + 1) =~= d.take(j as int).push(d[j as int]));
        assert(lines_view(analysis@) =~= before.push(d[j as int]));
        j += 1;
    }
    assert(d.take(j as int) =~= d);
    let ghost all = lines_view(analysis@);
    if analysis.len() == 0 {
        return Ok((None, None));
    }
    push_analysis_transcript(raw_t, masked_t, &analysis);
    proof {
        lemma_analysis_sections_grows(m0, lines_view(analysis@), true);
    }
    let mut raws: Vec<Vec<char>> = Vec::new();
    let mut maskeds: Vec<Vec<char>> = Vec::new();
    let mut k: usize = 0;
    while k < analysis.len()
        invariant
            k <= analysis.len(),
            all == lines_view(analysis@),
            seqs_view(raws@) == raw_texts(all).take(k as int),
            seqs_view(maskeds@) == masked_texts(all).take(k as int),
        decreases analysis.len() - k,
    {
        let ar = slice(&analysis[k].raw, 0, analysis[k].raw.len());
        let am = slice(&analysis[k].masked, 0, analysis[k].masked.len());
        assert(ar@ =~= all[k as int].1 && am@ =~= all[k as int].2);
        let ghost rb = seqs_view(raws@);
        let ghost mb = seqs_view(maskeds@);
        raws.push(ar);
        maskeds.push(am);
        assert(seqs_view(raws@) =~= rb.push(all[k as int].1));
        assert(seqs_view(maskeds@) =~= mb.push(all[k as int].2));
        assert(raw_texts(all).take(k + 1) =~= raw_texts(all).take(k as int).push(raw_texts(all)[k as int]));
        assert(masked_texts(all).take(k + 1) =~= masked_texts(all).take(k as int).push(masked_texts(all)[k as int]));
        k += 1;
    }
    assert(raw_texts(all).take(k as int) =~= raw_texts(all));
    assert(masked_texts(all).take(k as int) =~= masked_texts(all));
    Ok((Some(string_of(&join_chars(&raws, "\n"))), Some(string_of(&join_chars(&maskeds, "\n")))))
}

/// The templates rendered in order; the first that cannot be rendered is
/// the error.
pub open spec fn render_each(
    ts: Seq<Seq<char>>,
    b: Seq<BindingView>,
    name: Seq<char>,
    step: Seq<char>,
) -> Result<Seq<Seq<char>>, TemplateError>
    decreases ts.len(),
{
    if ts.len() == 0 {
        Ok(Seq::empty())
    } else {
        match render_each(ts.drop_last(), b, name, step) {
            Err(e) => Err(e),
            Ok(xs) => match render_spec(ts.last(), b, name, step) {
                Err(e) => Err(e),
                Ok(x) => Ok(xs.push(x)),
            },
        }
    }
}

/// Once a prefix of the templates fails, rendering them all fails the same
/// way.
pub proof fn lemma_render_each_prefix_err(
    ts: Seq<Seq<char>>,
    k: int,
    b: Seq<BindingView>,
    name: Seq<char>,
    step: Seq<char>,
)
    requires
        0 <= k <= ts.len(),
        render_each(ts.take(k), b, name, step) is Err,
    ensures
        render_each(ts, b, name, step) == render_each(ts.take(k), b, name, step),
    decreases ts.len(),
{
    if k == ts.len() {
        assert(ts.take(k) =~= ts);
    } else {
        assert(ts.drop_last().take(k) =~= ts.take(k));
        lemma_render_each_prefix_err(ts.drop_last(), k, b, name, step);
    }
}

pub open spec fn masked_each(xs: Seq<Seq<char>>, b: Seq<BindingView>) -> Seq<Seq<char>> {
    xs.map_values(|x: Seq<char>| masked_sequence_text(x, b))
}

pub open spec fn bulleted(xs: Seq<Seq<char>>) -> Seq<Seq<char>> {
    xs.map_values(|x: Seq<char>| "- "@ + x)
}

/// The sequence's success notes rendered, raw and masked, added under
/// `Notes:` to both transcripts.
fn push_success_notes(
    sequence: &Sequence,
    bindings: &Bindings,
    raw_t: &mut Vec<Vec<char>>,
    masked_t: &mut Vec<Vec<char>>,
) -> (r: Result<(Vec<String>, Vec<String>), AtctlError>)
    ensures
        seqs_view(old(masked_t)@).is_prefix_of(seqs_view(final(masked_t)@)),
        match render_each(
            strings_view(sequence.success_notes@),
            bindings@,
            sequence.name@,
            "success_notes"@,
        ) {
            Err(x) => r matches Err(e) && template_error(e, x) && final(raw_t)@ == old(raw_t)@
                && final(masked_t)@ == old(masked_t)@,
            Ok(xs) => (r matches Ok((raw, masked)) && strings_view(raw@) == xs && strings_view(
                masked@,
            ) == masked_each(xs, bindings@)) && (xs.len() == 0 ==> final(raw_t)@ == old(raw_t)@
                && final(masked_t)@ == old(masked_t)@) && (xs.len() > 0 ==> seqs_view(final(raw_t)@)
                == section(seqs_view(old(raw_t)@), "Notes:"@, bulleted(xs)) && seqs_view(
                final(masked_t)@,
            ) == section(seqs_view(old(masked_t)@), "Notes:"@, bulleted(masked_each(xs, bindings@)))),
        },
{
    let ghost m0 = seqs_view(masked_t@);
    proof {
        lemma_lines_prefix_refl(m0);
    }
    let ghost ts = strings_view(sequence.success_notes@);
    let ghost b = bindings@;
    let mut raw_notes: Vec<Vec<char>> = Vec::new();
    let mut masked_notes: Vec<Vec<char>> = Vec::new();
    let mut i: usize = 0;
    assert(ts.take(0) =~= Seq::<Seq<char>>::empty());
    assert(seqs_view(raw_notes@) =~= Seq::<Seq<char>>::empty());
    assert(seqs_view(masked_notes@) =~= masked_each(seqs_view(raw_notes@), b));
    while i < sequence.success_notes.len()
        invariant
            i <= sequence.success_notes.len(),
            ts == strings_view(sequence.success_notes@),
            b == bindings@,
            render_each(ts.take(i as int), b, sequence.name@, "success_notes"@) == Ok::<
                Seq<Seq<char>>,
                TemplateError,
            >(seqs_view(raw_notes@)),
            seqs_view(masked_notes@) == masked_each(seqs_view(raw_notes@), b),
        decreases sequence.success_notes.len() - i,
    {
        assert(ts.take(i + 1).drop_last() =~= ts.take(i as int));
        assert(ts.take(i + 1).last() == sequence.success_notes@[i as int]@);
        let raw = match render_chars(
            &chars_of(sequence.success_notes[i].as_str()),
            bindings,
            sequence,
            "success_notes",
        ) {
            Ok(v) => v,
            Err(e) => {
                proof {
                    lemma_render_each_prefix_err(ts, i + 1, b, sequence.name@, "success_notes"@);
                }
                return Err(e);
            },
        };
        let masked = mask_sequence_text(&raw, bindings);
        let ghost rb = seqs_view(raw_notes@);
        let ghost mb = seqs_view(masked_notes@);
        raw_notes.push(raw);
        masked_notes.push(masked);
        assert(seqs_view(raw_notes@) =~= rb.push(raw@));
        assert(seqs_view(masked_notes@) =~= mb.push(masked@));
        assert(masked_each(seqs_view(raw_notes@), b) =~= masked_each(rb, b).push(masked@));
        i += 1;
    }
    assert(ts.take(i as int) =~= ts);
    let ghost xs = seqs_view(raw_notes@);
    if raw_notes.len() > 0 {
        let mut ra: Vec<Vec<char>> = Vec::new();
        let mut ma: Vec<Vec<char>> = Vec::new();
        let mut k: usize = 0;
        assert(bulleted(xs).take(0) =~= Seq::<Seq<char>>::empty());
        assert(bulleted(masked_each(xs, b)).take(0) =~= Seq::<Seq<char>>::empty());
        while k < raw_notes.len()
            invariant
                k <= raw_notes.len(),
                raw_notes.len() == masked_notes.len(),
                xs == seqs_view(raw_notes@),
                seqs_view(masked_notes@) == masked_each(xs, b),
                seqs_view(ra@) == bulleted(xs).take(k as int),
                seqs_view(ma@) == bulleted(masked_each(xs, b)).take(k as int),
            decreases raw_notes.len() - k,
        {
            let mut a = chars_of("- ");
            push_all(&mut a, &raw_notes[k]);
            let ghost rab = seqs_view(ra@);
            ra.push(a);
            let mut c = chars_of("- ");
            push_all(&mut c, &masked_notes[k]);
            let ghost mab = seqs_view(ma@);
            ma.push(c);
            assert(seqs_view(ra@) =~= rab.push(a@));
            assert(seqs_view(ma@) =~= mab.push(c@));
            assert(bulleted(xs).take(k + 1) =~= bulleted(xs).take(k as int).push(bulleted(xs)[k as int]));
            assert(bulleted(masked_each(xs, b)).take(k + 1) =~= bulleted(masked_each(xs, b)).take(
                k as int,
            ).push(bulleted(masked_each(xs, b))[k as int]));
            k += 1;
        }
        assert(bulleted(xs).take(k as int) =~= bulleted(xs));
        assert(bulleted(masked_each(xs, b)).take(k as int) =~= bulleted(masked_each(xs, b)));
        push_section(raw_t, "Notes:", ra);
        let ghost mav = seqs_view(ma@);
        push_section(masked_t, "Notes:", ma);
        proof {
            lemma_section_grows(m0, "Notes:"@, mav);
        }
    }
    Ok((strings_of(&raw_notes), strings_of(&masked_notes)))
}

pub proof fn lemma_writes_concat(a: Seq<TransportEvent>, b: Seq<TransportEvent>)
    ensures
        writes(a + b) == writes(a) + writes(b),
    decreases b.len(),
{
    if b.len() == 0 {
        assert(a + b =~= a);
        assert(writes(b) =~= Seq::<Seq<char>>::empty());
        assert(writes(a) + writes(b) =~= writes(a));
    } else {
        lemma_writes_concat(a, b.drop_last());
        assert((a + b).drop_last() =~= a + b.drop_last());
        assert((a + b).last() == b.last());
    }
}

/// The cleanup commands, newest first, each with its terminator.
pub open spec fn cleanup_writes(commands: Seq<Seq<char>>) -> Seq<Seq<char>> {
    Seq::new(commands.len(), |k: int| with_terminator(commands[commands.len() - 1 - k]))
}

spec fn cleanup_commands(cleanups: Seq<DeferredCleanup>) -> Seq<Seq<char>> {
    cleanups.map_values(|c: DeferredCleanup| c.command@)
}

/// Runs the cleanup commands kept so far, newest first; their failures are
/// noted in the transcripts and do not stop the others.
fn run_deferred_cleanups<T: AtTransport, L: RawLogRecorder>(
    sequence: &Sequence,
    cleanups: &Vec<DeferredCleanup>,
    transport: &mut AtLink<T>,
    timeout_ms: u64,
    raw_log: &mut RawLogLink<L>,
    raw_t: &mut Vec<Vec<char>>,
    masked_t: &mut Vec<Vec<char>>,
    bindings: &Bindings,
)
    ensures
        seqs_view(old(masked_t)@).is_prefix_of(seqs_view(final(masked_t)@)),
        old(transport).failures().is_prefix_of(final(transport).failures()),
        old(raw_log).failures().is_prefix_of(final(raw_log).failures()),
        extends(old(transport).history(), final(transport).history()),
        writes(since(final(transport).history(), old(transport).history().len() as int))
            == cleanup_writes(cleanup_commands(cleanups@)),
{
    let ghost h0 = transport.history();
    let ghost cmds = cleanup_commands(cleanups@);
    let ghost t0 = transport.failures();
    let ghost r0 = raw_log.failures();
    assert(t0.subrange(0, t0.len() as int) =~= t0);
    assert(r0.subrange(0, r0.len() as int) =~= r0);
    let ghost m0 = seqs_view(masked_t@);
    proof {
        lemma_lines_prefix_refl(m0);
    }
    let mut i = cleanups.len();
    assert(h0.take(h0.len() as int) =~= h0);
    assert(since(h0, h0.len() as int) =~= Seq::<TransportEvent>::empty());
    assert(cleanup_writes(cmds).take(0) =~= Seq::<Seq<char>>::empty());
    while i > 0
        invariant
            i <= cleanups.len(),
            h0 == old(transport).history(),
            cmds == cleanup_commands(cleanups@),
            t0 == old(transport).failures(),
            r0 == old(raw_log).failures(),
            t0.is_prefix_of(transport.failures()),
            r0.is_prefix_of(raw_log.failures()),
            m0 == seqs_view(old(masked_t)@),
            m0.is_prefix_of(seqs_view(masked_t@)),
            extends(h0, transport.history()),
            writes(since(transport.history(), h0.len() as int)) == cleanup_writes(cmds).take(
                cleanups.len() - i,
            ),
        decreases i,
    {
        i -= 1;
        let ghost h1 = transport.history();
        let ghost t1 = transport.failures();
        let ghost r1 = raw_log.failures();
        let cleanup = &cleanups[i];
        push_cleanup_header(raw_t, &cleanup.label, false, bindings);
        let ghost mh = seqs_view(masked_t@);
        push_cleanup_header(masked_t, &cleanup.label, true, bindings);
        proof {
            lemma_line_block_grows(mh, masked_sequence_text(cleanup.label@, bindings@));
            lemma_lines_prefix_trans(m0, mh, seqs_view(masked_t@));
        }
        let ghost mc = seqs_view(masked_t@);
        let cleanup_step = internal_command_step(
            slice(&cleanup.id, 0, cleanup.id.len()),
            &cleanup.label,
            "OK",
        );
        let outcome_result = execute_command_step(
            sequence,
            &cleanup_step,
            &cleanup.command,
            transport,
            timeout_ms,
            raw_log,
            raw_t,
            masked_t,
            bindings,
        );
        proof {
            lemma_lines_prefix_trans(m0, mc, seqs_view(masked_t@));
            lemma_prefix_trans(t0, t1, transport.failures());
            lemma_prefix_trans(r0, r1, raw_log.failures());
            let h2 = transport.history();
            lemma_extends_trans(h0, h1, h2);
            assert(since(h2, h0.len() as int) =~= since(h1, h0.len() as int) + since(h2, h1.len() as int));
            lemma_writes_concat(since(h1, h0.len() as int), since(h2, h1.len() as int));
            assert(cmds[i as int] == cleanups@[i as int].command@);
            let k = cleanups.len() - 1 - i;
            assert(cleanup_writes(cmds)[k] == with_terminator(cmds[i as int]));
            assert(cleanup_writes(cmds).take(k + 1) =~= cleanup_writes(cmds).take(k).push(with_terminator(cmds[i as int])));
        }
        match outcome_result {
            Ok(outcome) => {
                match step_failure_reason(
                    sequence,
                    &cleanup_step,
                    &outcome.status,
                    outcome.expectation_failure,
                ) {
                    Some(reason) => {
                        let ghost ma = seqs_view(masked_t@);
                        push_cleanup_analysis(raw_t, masked_t, &reason, bindings);
                        proof {
                            lemma_section_grows(ma, "Analysis:"@, seq!["- "@ + masked_sequence_text(reason@, bindings@)]);
                            lemma_lines_prefix_trans(m0, ma, seqs_view(masked_t@));
                        }
                    },
                    None => {},
                }
            },
            Err(error) => {
                let mut reason = chars_of("cleanup command failed before response: ");
                push_str(&mut reason, error.message().as_str());
                let ghost ma = seqs_view(masked_t@);
                push_cleanup_analysis(raw_t, masked_t, &reason, bindings);
                proof {
                    lemma_section_grows(ma, "Analysis:"@, seq!["- "@ + masked_sequence_text(reason@, bindings@)]);
                    lemma_lines_prefix_trans(m0, ma, seqs_view(masked_t@));
                }
            },
        }
    }
}

fn label_or_id(step: &SequenceStep) -> (r: Vec<char>)
    ensures
        r@ == match step.label {
            Some(l) => l@,
            None => step.id@,
        },
{
    match &step.label {
        Some(l) => chars_of(l.as_str()),
        None => chars_of(step.id.as_str()),
    }
}

/// Whether the step results end as a run ends: every step but the last
/// succeeded, and the last has the run's status, which is `OK` only when
/// every step ran and succeeded.
pub open spec fn run_status_consistent(sequence: Sequence, e: SequenceExecution) -> bool {
    &&& e.steps@.len() <= sequence.steps@.len()
    &&& forall|i: int| 0 <= i < e.steps@.len() - 1 ==> status_is_success((#[trigger] e.steps@[i]).status@)
    &&& e.steps@.len() > 0 ==> e.steps@.last().status@ == e.status@
    &&& (status_is_success(e.status@) <==> e.steps@.len() == sequence.steps@.len() && forall|i: int|
        0 <= i < e.steps@.len() ==> status_is_success((#[trigger] e.steps@[i]).status@))
}

/// Whether the step results report the sequence's steps in order: each
/// result carries the id and label of the step at its position.
pub open spec fn steps_reported_in_order(sequence: Sequence, e: SequenceExecution) -> bool {
    &&& e.steps@.len() <= sequence.steps@.len()
    &&& forall|i: int|
        0 <= i < e.steps@.len() ==> (#[trigger] e.steps@[i]).id@ == sequence.steps@[i].id@
            && e.steps@[i].label == sequence.steps@[i].label
}

/// Runs the parts of one step in order: its PDP-context check, its
/// command and its payload, each only while nothing failed. Gives the
/// step's status, its response texts, its extra analysis, the reason it
/// failed, if it did, and the command it sent.
fn run_step_parts<T: AtTransport, L: RawLogRecorder>(
    sequence: &Sequence,
    step: &SequenceStep,
    transport: &mut AtLink<T>,
    raw_log: &mut RawLogLink<L>,
    raw_t: &mut Vec<Vec<char>>,
    masked_t: &mut Vec<Vec<char>>,
    bindings: &Bindings,
    started: &Instant,
    timeout_ms: u64,
    deadline: u64,
) -> (r: Result<
    (AtStatus, Vec<Vec<char>>, Vec<AnalysisLine>, Option<Vec<char>>, Option<Vec<char>>),
    AtctlError,
>)
    ensures
        seqs_view(old(masked_t)@).is_prefix_of(seqs_view(final(masked_t)@)),
        r matches Ok(x) ==> (x.4 matches Some(c) ==> seqs_view(final(masked_t)@).contains(
            "> "@ + masked_sequence_text(c@, bindings@),
        )),
        r matches Ok(x) ==> (x.3 is None ==> payload_shown_masked(*step, bindings@, sequence.name@, seqs_view(final(masked_t)@))),
        errors_accounted(
            old(transport).failures(),
            final(transport).failures(),
            old(raw_log).failures(),
            final(raw_log).failures(),
            r,
        ),
        extends(old(transport).history(), final(transport).history()),
        step_writes(
            *step,
            bindings@,
            sequence.name@,
            writes(since(final(transport).history(), old(transport).history().len() as int)),
            false,
        ),
        r matches Ok(x) ==> step_writes(
            *step,
            bindings@,
            sequence.name@,
            writes(since(final(transport).history(), old(transport).history().len() as int)),
            x.3 is None,
        ),
        r matches Ok(x) ==> step_outcome(
            *step,
            bindings@,
            sequence.name@,
            since(final(transport).history(), old(transport).history().len() as int),
            x.0@,
        ),
        r matches Ok(x) ==> (x.3 is None ==> status_is_success(x.0@)) && (x.3 is Some
            ==> !status_is_success(x.0@)),
        r matches Ok(x) ==> (x.4 matches Some(c) ==> step.send matches Some(t) && rendered(
            t,
            bindings@,
            sequence.name@,
            *step,
        ) == Some(c@)),
        r matches Ok(x) ==> (x.3 is None && step.send is Some ==> x.4 is Some),
        r matches Ok(x) ==> (step.send is None ==> x.4 is None),
{
    let ghost hs = transport.history();
    let ghost m0 = seqs_view(masked_t@);
    proof {
        lemma_lines_prefix_refl(m0);
    }
    let ghost t0 = transport.failures();
    let ghost r0 = raw_log.failures();
    assert(t0.subrange(0, t0.len() as int) =~= t0);
    assert(r0.subrange(0, r0.len() as int) =~= r0);
    let ghost b = bindings@;
    let ghost name = sequence.name@;
    let ghost e = Seq::<Seq<char>>::empty();
    proof {
        assert(hs.take(hs.len() as int) =~= hs);
        assert(since(hs, hs.len() as int) =~= Seq::<TransportEvent>::empty());
        assert(writes(Seq::<TransportEvent>::empty()) =~= e);
        lemma_step_writes(*step, b, name, e, e, e, false);
        assert(e + e + e =~= e);
    }
    let mut status = AtStatus::OK;
    let mut response_texts: Vec<Vec<char>> = Vec::new();
    let mut extra: Vec<AnalysisLine> = Vec::new();
    let mut failure: Option<Vec<char>> = None;
    let mut rendered_send: Option<Vec<char>> = None;
    match &step.ensure_pdp_context_active {
        Some(template) => {
            let now = millis_since(started);
            let budget = step_timeout(step.timeout_secs, timeout_ms, now, deadline)?;
            let ghost mp = seqs_view(masked_t@);
            let ran = execute_ensure_pdp_context_active(
                sequence,
                step,
                &chars_of(template.as_str()),
                transport,
                budget,
                raw_log,
                raw_t,
                masked_t,
                bindings,
                &mut extra,
            );
            proof {
                lemma_lines_prefix_trans(m0, mp, seqs_view(masked_t@));
                let pw = writes(since(transport.history(), hs.len() as int));
                assert(pdp_writes(*step, b, name, pw, false));
                lemma_step_writes(*step, b, name, pw, e, e, false);
                assert(pw + e + e =~= pw);
            }
            proof {
                if let Err(x) = &ran {
                    lemma_run_error_tail(*x, t0, t0, transport.failures(), r0, r0, raw_log.failures());
                }
            }
            let outcome = ran?;
            proof {
                assert(pdp_writes(*step, b, name, writes(since(transport.history(), hs.len() as int)), true));
            }
            status = outcome.status;
            assert(step_outcome(*step, b, name, since(transport.history(), hs.len() as int), status@));
            let mut q: usize = 0;
            while q < outcome.response_texts.len()
                decreases outcome.response_texts.len() - q,
            {
                response_texts.push(slice(&outcome.response_texts[q], 0, outcome.response_texts[q].len()));
                q += 1;
            }
            failure = step_failure_reason(sequence, step, &status, outcome.expectation_failure);
        },
        None => {},
    }
    assert(step_outcome(*step, b, name, since(transport.history(), hs.len() as int), status@));
    let ghost hp = transport.history();
    let ghost tp = transport.failures();
    let ghost rp = raw_log.failures();
    assert(t0.is_prefix_of(tp) && r0.is_prefix_of(rp));
    proof {
        assert(extends(hs, hp)) by {
            assert(hp.take(hs.len() as int) =~= hs);
        }
        assert(since(hp, hp.len() as int) =~= Seq::<TransportEvent>::empty());
    }
    let ghost pw = writes(since(hp, hs.len() as int));
    assert(pdp_writes(*step, b, name, pw, false));
    assert(failure is None ==> pdp_writes(*step, b, name, pw, true));
    if failure.is_none() {
        match &step.send {
            Some(template) => {
                let command = render_chars(&chars_of(template.as_str()), bindings, sequence, step.id.as_str())?;
                rendered_send = Some(slice(&command, 0, command.len()));
                let now = millis_since(started);
                let budget = step_timeout(step.timeout_secs, timeout_ms, now, deadline)?;
                let ghost msd = seqs_view(masked_t@);
                let ran = execute_command_step(
                    sequence,
                    step,
                    &command,
                    transport,
                    budget,
                    raw_log,
                    raw_t,
                    masked_t,
                    bindings,
                );
                proof {
                    lemma_lines_prefix_trans(m0, msd, seqs_view(masked_t@));
                    let nw = since(transport.history(), hp.len() as int);
                    lemma_writes_first(nw);
                    assert(send_writes(*step, b, name, writes(nw), true));
                    lemma_step_writes(*step, b, name, pw, writes(nw), e, false);
                    assert(pw + writes(nw) + e =~= pw + writes(nw));
                    lemma_since_split(hp, transport.history(), hs.len() as int);
                    lemma_extends_trans(hs, hp, transport.history());
                }
                proof {
                    if let Err(x) = &ran {
                        lemma_run_error_tail(*x, t0, tp, transport.failures(), r0, rp, raw_log.failures());
                    } else {
                        lemma_prefix_trans(t0, tp, transport.failures());
                        lemma_prefix_trans(r0, rp, raw_log.failures());
                    }
                }
                let outcome = ran?;
                status = outcome.status;
                assert(step_outcome(*step, b, name, since(transport.history(), hs.len() as int), status@));
                response_texts.push(join_chars(&outcome.response_texts, "\n"));
                failure = step_failure_reason(sequence, step, &status, outcome.expectation_failure);
            },
            None => {},
        }
    }
    assert(rendered_send matches Some(c) ==> step.send matches Some(t) && rendered(t, b, name, *step)
        == Some(c@));
    assert(failure is None && step.send is Some ==> rendered_send is Some);
    assert(step.send is None ==> rendered_send is None);
    assert(step_outcome(*step, b, name, since(transport.history(), hs.len() as int), status@));
    let ghost hq = transport.history();
    let ghost tq = transport.failures();
    let ghost rq = raw_log.failures();
    assert(t0.is_prefix_of(tq) && r0.is_prefix_of(rq));
    proof {
        assert(extends(hp, hq)) by {
            assert(hq.take(hp.len() as int) =~= hp);
        }
        assert(since(hq, hq.len() as int) =~= Seq::<TransportEvent>::empty());
        lemma_extends_trans(hs, hp, hq);
        lemma_since_split(hp, hq, hs.len() as int);
    }
    let ghost sw = writes(since(hq, hp.len() as int));
    assert(send_writes(*step, b, name, sw, failure is None));
    assert(send_writes(*step, b, name, sw, false));
    proof {
        lemma_step_writes(*step, b, name, pw, sw, e, false);
        assert(pw + sw + e =~= pw + sw);
    }
    if failure.is_none() {
        match &step.payload {
            Some(template) => {
                let payload = render_chars(&chars_of(template.as_str()), bindings, sequence, step.id.as_str())?;
                let now = millis_since(started);
                let budget = step_timeout(step.timeout_secs, timeout_ms, now, deadline)?;
                let ghost mpl = seqs_view(masked_t@);
                let ran = execute_payload_step(
                    sequence,
                    step,
                    &payload,
                    transport,
                    budget,
                    raw_log,
                    raw_t,
                    masked_t,
                    bindings,
                );
                proof {
                    lemma_lines_prefix_trans(m0, mpl, seqs_view(masked_t@));
                    if let Some(c) = &rendered_send {
                        lemma_lines_prefix_contains(mpl, seqs_view(masked_t@), "> "@ + masked_sequence_text(c@, bindings@));
                    }
                    let nw = since(transport.history(), hq.len() as int);
                    assert(payload_writes(*step, b, name, writes(nw), true));
                    lemma_step_writes(*step, b, name, pw, sw, writes(nw), false);
                    lemma_since_split(hq, transport.history(), hs.len() as int);
                    lemma_extends_trans(hs, hq, transport.history());
                }
                proof {
                    if let Err(x) = &ran {
                        lemma_run_error_tail(*x, t0, tq, transport.failures(), r0, rq, raw_log.failures());
                    } else {
                        lemma_prefix_trans(t0, tq, transport.failures());
                        lemma_prefix_trans(r0, rq, raw_log.failures());
                    }
                }
                let outcome = ran?;
                assert(payload_shown_masked(*step, b, name, seqs_view(masked_t@)));
                status = outcome.status;
                assert(step_outcome(*step, b, name, since(transport.history(), hs.len() as int), status@));
                response_texts.push(join_chars(&outcome.response_texts, "\n"));
                failure = step_failure_reason(sequence, step, &status, outcome.expectation_failure);
            },
            None => {},
        }
    }
    assert(failure is None ==> payload_shown_masked(*step, b, name, seqs_view(masked_t@)));
    assert(t0.is_prefix_of(transport.failures()) && r0.is_prefix_of(raw_log.failures()));
    assert(step_outcome(*step, b, name, since(transport.history(), hs.len() as int), status@));
    let ghost hpl = transport.history();
    proof {
        assert(extends(hq, hpl)) by {
            assert(hpl.take(hq.len() as int) =~= hq);
        }
        let yw = writes(since(hpl, hq.len() as int));
        assert(payload_writes(*step, b, name, yw, failure is None));
        assert(payload_writes(*step, b, name, yw, false));
        lemma_since_split(hq, hpl, hs.len() as int);
        lemma_step_writes(*step, b, name, pw, sw, yw, failure is None);
        lemma_step_writes(*step, b, name, pw, sw, yw, false);
        lemma_extends_trans(hs, hq, hpl);
    }
    assert(failure is None ==> status_is_success(status@));
    assert(failure is Some ==> !status_is_success(status@));
    Ok((status, response_texts, extra, failure, rendered_send))
}

/// Runs a sequence: binds and checks the parameters before touching the
/// transport, then runs the steps in order until one fails, runs the
/// cleanups kept so far after a failure, and closes the transport. A run
/// that stops on an error returns the error a transport or raw-export call
/// returned, that of a template that did not render, or `Timeout`, having
/// written what the steps reached so far wrote. Each step reports the status
/// its last read gives, and the masked transcript shows the command and the
/// payload of each step that succeeded masked with that step's bindings.
#[verifier::rlimit(100)]
#[verifier::spinoff_prover]
pub fn execute_sequence<T: AtTransport, L: RawLogRecorder>(
    sequence: &Sequence,
    params: &[SequenceParamValue],
    transport: &mut AtLink<T>,
    timeout_ms: u64,
    masked: bool,
    raw_log: &mut RawLogLink<L>,
) -> (r: Result<SequenceExecution, AtctlError>)
    ensures
        bind_spec(sequence.params@, params@) matches Err(f) ==> r matches Err(e) && bind_error(
            *sequence,
            params@,
            f,
            e,
        ),
        bind_spec(sequence.params@, params@) is Ok ==> errors_accounted(
            old(transport).failures(),
            final(transport).failures(),
            old(raw_log).failures(),
            final(raw_log).failures(),
            r,
        ),
        r matches Ok(e) ==> e.name@ == sequence.name@ && e.risk == sequence.risk
            && run_status_consistent(*sequence, e) && steps_reported_in_order(*sequence, e),
        bind_spec(sequence.params@, params@) is Err ==> final(transport).history() == old(
            transport,
        ).history() && final(raw_log).entries() == old(raw_log).entries(),
        bind_spec(sequence.params@, params@) is Ok ==> extends(
            old(transport).history().push(TransportEvent::Open),
            final(transport).history(),
        ),
        r is Ok ==> final(transport).history().last() == TransportEvent::Close,
        r matches Ok(e) ==> (!status_is_success(e.status@) ==> e.raw_notes@.len() == 0
            && e.masked_notes@.len() == 0),
        r matches Ok(e) ==> (status_is_success(e.status@) ==> ends_with(
            e.raw_transcript@,
            success_line(e.duration_ms),
        ) && ends_with(e.masked_transcript@, success_line(e.duration_ms))),
        bind_spec(sequence.params@, params@) matches Ok(b0) ==> run_writes_reached(
            *sequence,
            b0,
            writes(since(final(transport).history(), old(transport).history().len() as int)),
        ),
        r matches Ok(e) ==> (bind_spec(sequence.params@, params@) matches Ok(b0) && run_writes(
            *sequence,
            b0,
            status_is_success(e.status@),
            e.steps@.len() as int,
            writes(since(final(transport).history(), old(transport).history().len() as int)),
        )),
        r matches Ok(e) ==> (bind_spec(sequence.params@, params@) matches Ok(b0) && run_reported(
            *sequence,
            b0,
            status_is_success(e.status@),
            statuses_of(e.steps@),
            since(final(transport).history(), old(transport).history().len() + 1int),
            e.masked_transcript@,
        )),
        r matches Ok(e) ==> (!status_is_success(e.status@) ==> ends_with_failure(
            e.raw_transcript@,
            e.duration_ms,
        ) && ends_with_failure(e.masked_transcript@, e.duration_ms)),
{
    let mut bindings = validate_and_bind_params(sequence, params)?;
    let ghost b0 = bindings@;
    let ghost mut trace: Seq<StepRun> = Seq::empty();
    let ghost mut segs: Seq<Seq<TransportEvent>> = Seq::empty();
    let started = clock_now();
    let deadline = total_timeout_ms(sequence.timeout_secs, timeout_ms);
    let mut raw_t: Vec<Vec<char>> = Vec::new();
    let mut masked_t: Vec<Vec<char>> = Vec::new();
    let mut step_results: Vec<SequenceStepResult> = Vec::new();
    let mut responses_all: Vec<Vec<char>> = Vec::new();
    let mut value_candidate_sets: Vec<SequenceValueCandidateSet> = Vec::new();
    let mut cleanups: Vec<DeferredCleanup> = Vec::new();
    let ghost h0 = transport.history();
    let ghost t0 = transport.failures();
    let ghost r0 = raw_log.failures();
    assert(t0.subrange(0, t0.len() as int) =~= t0);
    assert(r0.subrange(0, r0.len() as int) =~= r0);
    let opened = transport.open();
    proof {
        lemma_prefix_after(t0, t0, opened);
        if let Err(x) = &opened {
            lemma_run_error_here(*x, t0, t0, r0, r0);
        }
    }
    let ghost h_open = transport.history();
    assert(h_open.take(h_open.len() as int) =~= h_open);
    proof {
        assert(since(h_open, h0.len() as int) =~= seq![TransportEvent::Open]);
        lemma_writes_push(Seq::<TransportEvent>::empty(), TransportEvent::Open);
        assert(seq![TransportEvent::Open] =~= Seq::<TransportEvent>::empty().push(TransportEvent::Open));
        assert(writes(Seq::<TransportEvent>::empty()) =~= Seq::<Seq<char>>::empty());
        assert(trace_writes(Seq::<StepRun>::empty()) =~= Seq::<Seq<char>>::empty());
        lemma_reached_complete(*sequence, b0, Seq::<StepRun>::empty());
    }
    opened?;
    proof {
        assert(since(h_open, h_open.len() as int) =~= Seq::<TransportEvent>::empty());
        assert(writes(Seq::<TransportEvent>::empty()) =~= Seq::<Seq<char>>::empty());
        assert(cleanup_commands(cleanups@) =~= Seq::<Seq<char>>::empty());
    }
    let total = sequence.steps.len();
    let mut index: usize = 0;
    while index < total
        invariant
            index <= total,
            total == sequence.steps@.len(),
            bind_spec(sequence.params@, params@) is Ok,
            step_results@.len() == index,
            forall|i: int| 0 <= i < index ==> status_is_success((#[trigger] step_results@[i]).status@),
            forall|i: int|
                0 <= i < index ==> (#[trigger] step_results@[i]).id@ == sequence.steps@[i].id@
                    && step_results@[i].label == sequence.steps@[i].label,
            h_open == old(transport).history().push(TransportEvent::Open),
            extends(h_open, transport.history()),
            bind_spec(sequence.params@, params@) == Ok::<Seq<BindingView>, BindFailure>(b0),
            trace.len() == index,
            run_trace(*sequence, b0, trace, true),
            index == 0 ==> bindings@ == b0,
            index > 0 ==> bindings@ == bindings_after(trace.last()),
            writes(since(transport.history(), h_open.len() as int)) == trace_writes(trace),
            cleanup_commands(cleanups@) == pending_cleanups(*sequence, trace, index as int),
            t0 == old(transport).failures(),
            r0 == old(raw_log).failures(),
            t0.is_prefix_of(transport.failures()),
            r0.is_prefix_of(raw_log.failures()),
            segs.len() == index,
            since(transport.history(), h_open.len() as int) == segments_events(segs),
            forall|i: int|
                0 <= i < index ==> writes(#[trigger] segs[i]) == trace[i].1 && step_outcome(
                    sequence.steps@[i],
                    trace[i].0,
                    sequence.name@,
                    segs[i],
                    step_results@[i].status@,
                ),
            forall|i: int|
                0 <= i < index ==> step_shown_masked(
                    sequence.steps@[i],
                    (#[trigger] trace[i]).0,
                    sequence.name@,
                    seqs_view(masked_t@),
                ),
        decreases total - index,
    {
        let step = &sequence.steps[index];
        let label = label_or_id(step);
        push_transcript_header(&mut raw_t, index, total, &label, false, &bindings);
        let ghost mi = seqs_view(masked_t@);
        push_transcript_header(&mut masked_t, index, total, &label, true, &bindings);
        proof {
            lemma_line_block_grows(mi, step_heading(index as nat, total as nat, masked_sequence_text(label@, bindings@)));
        }
        let ghost mh = seqs_view(masked_t@);
        let ghost hs = transport.history();
        let ghost ts = transport.failures();
        let ghost rs = raw_log.failures();
        let ghost b = bindings@;
        let ghost name = sequence.name@;
        let parts = run_step_parts(
            sequence,
            step,
            transport,
            raw_log,
            &mut raw_t,
            &mut masked_t,
            &bindings,
            &started,
            timeout_ms,
            deadline,
        );
        let ghost hpl = transport.history();
        let ghost mp = seqs_view(masked_t@);
        let ghost step_ws = writes(since(hpl, hs.len() as int));
        let ghost seg = since(hpl, hs.len() as int);
        proof {
            lemma_extends_trans(h_open, hs, hpl);
            lemma_since_split(hs, hpl, h_open.len() as int);
            lemma_exit(*sequence, b0, trace, b, old(transport).history(), h_open, hs, hpl);
            lemma_prefix_trans(t0, ts, transport.failures());
            lemma_prefix_trans(r0, rs, raw_log.failures());
            if let Err(x) = &parts {
                lemma_run_error_tail(*x, t0, ts, transport.failures(), r0, rs, raw_log.failures());
            }
        }
        let (status, response_texts, extra, failure, rendered_send) = parts?;
        let ghost segs2 = segs.push(seg);
        proof {
            assert(segs2.drop_last() =~= segs);
            assert(segments_events(segs2) == segments_events(segs) + seg);
            assert(segments_events(segs2) == since(hpl, h_open.len() as int));
        }
        let (raw_analysis, masked_analysis) = push_step_analysis(
            sequence,
            step,
            &response_texts,
            extra,
            failure.is_none(),
            &mut raw_t,
            &mut masked_t,
            &mut bindings,
        )?;
        let ghost tk: StepRun = (b, step_ws, seqs_view(response_texts@));
        let ghost ma = seqs_view(masked_t@);
        proof {
            lemma_lines_prefix_trans(mi, mh, mp);
            lemma_lines_prefix_trans(mi, mp, ma);
            assert forall|i: int| 0 <= i < index implies step_shown_masked(
                sequence.steps@[i],
                (#[trigger] trace[i]).0,
                sequence.name@,
                ma,
            ) by {
                lemma_step_shown_grows(sequence.steps@[i], trace[i].0, sequence.name@, mi, ma);
            }
            if let Some(c) = &rendered_send {
                lemma_lines_prefix_contains(mp, ma, "> "@ + masked_sequence_text(c@, b));
            }
            if failure is None {
                if let Some(t) = &step.payload {
                    if let Some(p) = rendered(*t, b, sequence.name@, *step) {
                        lemma_lines_prefix_contains(mp, ma, "> payload "@ + masked_sequence_text(p, b));
                    }
                }
            }
        }
        proof {
            reveal(bindings_after);
            assert(bindings@ == bindings_after(tk));
        }
        let sets = value_candidate_sets_from_responses(&response_texts);
        let mut s: usize = 0;
        while s < sets.len()
            decreases sets.len() - s,
        {
            let set = &sets[s];
            let mut cands: Vec<SequenceValueCandidate> = Vec::new();
            let mut c: usize = 0;
            while c < set.candidates.len()
                decreases set.candidates.len() - c,
            {
                let x = &set.candidates[c];
                cands.push(
                    SequenceValueCandidate {
                        value: x.value.clone(),
                        raw_label: x.raw_label.clone(),
                        masked_label: x.masked_label.clone(),
                    },
                );
                c += 1;
            }
            value_candidate_sets.push(SequenceValueCandidateSet { candidate: set.candidate, candidates: cands });
            s += 1;
        }
        step_results.push(
            SequenceStepResult {
                id: step.id.clone(),
                label: clone_opt_string(&step.label),
                status: status.duplicate(),
                masked_analysis,
                raw_analysis,
            },
        );
        match failure {
            Some(reason) => {
                let now = millis_since(&started);
                let budget = cleanup_timeout(now, deadline);
                let ghost hb3 = transport.history();
                let ghost mc0 = seqs_view(masked_t@);
                run_deferred_cleanups(
                    sequence,
                    &cleanups,
                    transport,
                    budget,
                    raw_log,
                    &mut raw_t,
                    &mut masked_t,
                    &bindings,
                );
                proof {
                    lemma_extends_trans(h_open, hb3, transport.history());
                    lemma_prefix_trans(t0, ts, transport.failures());
                    lemma_prefix_trans(r0, rs, raw_log.failures());
                }
                let ghost hb4 = transport.history();
                let ghost tb4 = transport.failures();
                let close_result = transport.close();
                proof {
                    lemma_prefix_after(t0, tb4, close_result);
                    if let Err(x) = &close_result {
                        lemma_run_error_here(*x, t0, tb4, r0, raw_log.failures());
                    }
                    assert(transport.history().take(hb4.len() as int) =~= hb4);
                    lemma_extends_trans(h_open, hb4, transport.history());
                    let trace2 = trace.push(tk);
                    lemma_run_trace_push(*sequence, b0, trace, tk, false);
                    lemma_pending_prefix(*sequence, trace, tk, index as int);
                    assert(hb3 == hpl);
                    lemma_extends_trans(h_open, hpl, hb4);
                    lemma_since_split(hpl, hb4, h_open.len() as int);
                    lemma_writes_close(hb4, h_open.len() as int);
                    lemma_writes_after_open(old(transport).history(), h_open, transport.history());
                    assert(writes(since(transport.history(), old(transport).history().len() as int))
                        == trace_writes(trace2) + cleanup_writes(pending_cleanups(*sequence, trace2, trace2.len() - 1)));
                    assert(run_trace(*sequence, b0, trace2, false) && trace2.len() == index + 1);
                    assert(run_writes_reached(
                        *sequence,
                        b0,
                        writes(since(transport.history(), old(transport).history().len() as int)),
                    ));
                }
                proof {
                    let trace2 = trace.push(tk);
                    lemma_run_trace_push(*sequence, b0, trace, tk, false);
                    assert(transport.history().take(hb4.len() as int) =~= hb4);
                    lemma_extends_trans(hpl, hb4, transport.history());
                    lemma_since_prefix(hpl, transport.history(), h_open.len() as int);
                    assert(since(transport.history(), h_open.len() as int) =~= since(
                        transport.history(),
                        old(transport).history().len() + 1int,
                    ));
                    assert forall|i: int| 0 <= i < step_results@.len() implies writes(#[trigger] segs2[i])
                        == trace2[i].1 && step_outcome(
                        sequence.steps@[i],
                        trace2[i].0,
                        sequence.name@,
                        segs2[i],
                        step_results@[i].status@,
                    ) by {
                        if i < index {
                            assert(segs2[i] == segs[i] && trace2[i] == trace[i]);
                        }
                    }
                }
                let duration = millis_since(&started);
                push_failure_result(&mut raw_t, duration, &reason);
                let masked_reason = mask_sequence_text(&reason, &bindings);
                let ghost mf0 = seqs_view(masked_t@);
                push_failure_result(&mut masked_t, duration, &masked_reason);
                proof {
                    let trace2 = trace.push(tk);
                    let mfin = seqs_view(masked_t@);
                    lemma_failure_block_grows(mf0, duration as nat, masked_reason@);
                    lemma_lines_prefix_trans(mc0, mf0, mfin);
                    assert(mc0 == ma);
                    assert forall|i: int| 0 <= i < step_results@.len() && status_is_success(step_results@[i].status@) implies step_shown_masked(
                        sequence.steps@[i],
                        (#[trigger] trace2[i]).0,
                        sequence.name@,
                        mfin,
                    ) by {
                        if i < index {
                            assert(trace2[i] == trace[i]);
                            lemma_step_shown_grows(sequence.steps@[i], trace[i].0, sequence.name@, ma, mfin);
                        }
                    }
                    lemma_run_reported(
                        *sequence,
                        b0,
                        false,
                        trace2,
                        segs2,
                        step_results@,
                        since(transport.history(), old(transport).history().len() + 1int),
                        mfin,
                    );
                }
                proof {
                    lemma_failure_transcript(seqs_view(raw_t@), duration, reason@);
                    lemma_failure_transcript(seqs_view(masked_t@), duration, masked_reason@);
                }
                close_result?;
                return Ok(
                    SequenceExecution {
                        name: sequence.name.clone(),
                        risk: sequence.risk,
                        status,
                        steps: step_results,
                        masked_notes: Vec::new(),
                        raw_notes: Vec::new(),
                        value_candidate_sets,
                        masked_transcript: string_of(&join_chars(&masked_t, "\n")),
                        raw_transcript: string_of(&join_chars(&raw_t, "\n")),
                        duration_ms: duration,
                    },
                );
            },
            None => {},
        }
        let ghost pending_before = cleanup_commands(cleanups@);
        match &rendered_send {
            Some(command) => {
                let mut kept: Vec<DeferredCleanup> = Vec::new();
                let mut c: usize = 0;
                assert(cleanup_commands(kept@) =~= keep_other(pending_before.take(0), command@));
                while c < cleanups.len()
                    invariant
                        c <= cleanups.len(),
                        pending_before == cleanup_commands(cleanups@),
                        cleanup_commands(kept@) == keep_other(pending_before.take(c as int), command@),
                    decreases cleanups.len() - c,
                {
                    let ghost kb = cleanup_commands(kept@);
                    assert(pending_before.take(c + 1).drop_last() =~= pending_before.take(c as int));
                    assert(pending_before[c as int] == cleanups@[c as int].command@);
                    if !crate::text::chars_eq(&cleanups[c].command, command) {
                        let d = &cleanups[c];
                        assert(d.command@.subrange(0, d.command.len() as int) =~= d.command@);
                        kept.push(
                            DeferredCleanup {
                                id: slice(&d.id, 0, d.id.len()),
                                label: slice(&d.label, 0, d.label.len()),
                                command: slice(&d.command, 0, d.command.len()),
                            },
                        );
                    }
                    proof {
                        let kv = cleanup_commands(kept@);
                        if pending_before[c as int] == command@ {
                            assert(kv =~= kb);
                        } else {
                            assert(kv =~= kb.push(pending_before[c as int]));
                        }
                        assert(keep_other(pending_before.take(c + 1), command@) == keep_other(
                            pending_before.take(c as int),
                            command@,
                        ) + if pending_before[c as int] == command@ {
                            Seq::<Seq<char>>::empty()
                        } else {
                            seq![pending_before[c as int]]
                        });
                    }
                    c += 1;
                }
                assert(pending_before.take(c as int) =~= pending_before);
                cleanups = kept;
            },
            None => {},
        }
        let ghost pending_kept = cleanup_commands(cleanups@);
        proof {
            lemma_run_trace_push(*sequence, b0, trace, tk, true);
            lemma_reached_complete(*sequence, b0, trace.push(tk));
            lemma_writes_after_open(old(transport).history(), h_open, hpl);
        }
        match &step.cleanup_on_failure {
            Some(template) => {
                let command = render_chars(&chars_of(template.as_str()), &bindings, sequence, step.id.as_str())?;
                let mut id = chars_of("cleanup-");
                push_str(&mut id, step.id.as_str());
                let mut label = chars_of("Cleanup after ");
                let shown = label_or_id(step);
                push_all(&mut label, &shown);
                let ghost cv = command@;
                cleanups.push(DeferredCleanup { id, label, command });
                assert(cleanup_commands(cleanups@) =~= pending_kept.push(cv));
            },
            None => {},
        }
        proof {
            let trace2 = trace.push(tk);
            lemma_run_trace_push(*sequence, b0, trace, tk, true);
            lemma_pending_prefix(*sequence, trace, tk, index as int);
            assert(trace2[index as int] == tk);
            assert(cleanup_commands(cleanups@) == pending_cleanups(*sequence, trace2, index + 1));
            assert forall|i: int| 0 <= i < index + 1 implies writes(#[trigger] segs2[i])
                == trace2[i].1 && step_outcome(
                sequence.steps@[i],
                trace2[i].0,
                sequence.name@,
                segs2[i],
                step_results@[i].status@,
            ) by {
                if i < index {
                    assert(segs2[i] == segs[i] && trace2[i] == trace[i]);
                }
            }
            assert forall|i: int| 0 <= i < index + 1 implies step_shown_masked(
                sequence.steps@[i],
                (#[trigger] trace2[i]).0,
                sequence.name@,
                seqs_view(masked_t@),
            ) by {
                if i < index {
                    assert(trace2[i] == trace[i]);
                } else {
                    assert(trace2[i] == tk);
                    if let Some(c) = sent_command(sequence.steps@[i], b, sequence.name@) {
                        assert(rendered_send is Some);
                        assert(rendered_send->0@ == c);
                    }
                    assert(payload_shown_masked(sequence.steps@[i], b, sequence.name@, ma));
                    assert(seqs_view(masked_t@) == ma);
                }
            }
            trace = trace2;
            segs = segs2;
        }
        index += 1;
    }
    let ghost hb5 = transport.history();
    let ghost tb5 = transport.failures();
    let close_result = transport.close();
    proof {
        lemma_prefix_after(t0, tb5, close_result);
        if let Err(x) = &close_result {
            lemma_run_error_here(*x, t0, tb5, r0, raw_log.failures());
        }
        assert(transport.history().take(hb5.len() as int) =~= hb5);
        lemma_extends_trans(h_open, hb5, transport.history());
        lemma_writes_close(hb5, h_open.len() as int);
        lemma_writes_after_open(old(transport).history(), h_open, transport.history());
        assert(writes(since(transport.history(), old(transport).history().len() as int)) =~= trace_writes(trace)
            + Seq::<Seq<char>>::empty());
        lemma_reached_complete(*sequence, b0, trace);
        lemma_since_prefix(hb5, transport.history(), h_open.len() as int);
        assert(since(transport.history(), h_open.len() as int) =~= since(
            transport.history(),
            old(transport).history().len() + 1int,
        ));
    }
    let duration = millis_since(&started);
    let ghost ml0 = seqs_view(masked_t@);
    let (raw_notes, masked_notes) = push_success_notes(sequence, &bindings, &mut raw_t, &mut masked_t)?;
    push_success_result(&mut raw_t, duration);
    let ghost ml1 = seqs_view(masked_t@);
    push_success_result(&mut masked_t, duration);
    proof {
        let mfin = seqs_view(masked_t@);
        lemma_line_block_grows(ml1, "Result: OK duration="@ + decimal(duration as nat) + "ms"@);
        lemma_lines_prefix_trans(ml0, ml1, mfin);
        assert forall|i: int| 0 <= i < step_results@.len() && status_is_success(step_results@[i].status@) implies step_shown_masked(
            sequence.steps@[i],
            (#[trigger] trace[i]).0,
            sequence.name@,
            mfin,
        ) by {
            lemma_step_shown_grows(sequence.steps@[i], trace[i].0, sequence.name@, ml0, mfin);
        }
        lemma_run_reported(
            *sequence,
            b0,
            true,
            trace,
            segs,
            step_results@,
            since(transport.history(), old(transport).history().len() + 1int),
            mfin,
        );
    }
    proof {
        lemma_join_ends_with_last(seqs_view(raw_t@), "\n"@);
        lemma_join_ends_with_last(seqs_view(masked_t@), "\n"@);
    }
    close_result?;
    Ok(
        SequenceExecution {
            name: sequence.name.clone(),
            risk: sequence.risk,
            status: AtStatus::OK,
            steps: step_results,
            masked_notes,
            raw_notes,
            value_candidate_sets,
            masked_transcript: string_of(&join_chars(&masked_t, "\n")),
            raw_transcript: string_of(&join_chars(&raw_t, "\n")),
            duration_ms: duration,
        },
    )
}

} // verus!
