//! The product's built-in sequences: SMS send, receive, read and reply.
use vstd::prelude::*;

use crate::at::risk::RiskLevel;
use crate::sequences::definition::{
    definitions_into_sequences, sequence_from_definition, SequenceDefinition,
};
use crate::text::strings_view;
use crate::sequences::model::{
    sequence_risk, Sequence, SequenceCandidateSource, SequenceOrigin, SequenceParam,
    SequenceParamSource, SequenceReviewItem, SequenceStep, StepTerminator,
};

verus! {

broadcast use vstd::string::group_string_axioms;

pub open spec fn opt_view(o: Option<String>) -> Option<Seq<char>> {
    match o {
        Some(s) => Some(s@),
        None => None,
    }
}

pub open spec fn opt_str_view(o: Option<&str>) -> Option<Seq<char>> {
    match o {
        Some(s) => Some(s@),
        None => None,
    }
}

/// A parameter as plain values: every field.
pub struct ParamRow {
    pub name: Seq<char>,
    pub label: Seq<char>,
    pub required: bool,
    pub sensitive: bool,
    pub default_value: Option<Seq<char>>,
    pub source: SequenceParamSource,
    pub candidate: Option<SequenceCandidateSource>,
    pub hint: Option<Seq<char>>,
}

/// A step as plain values: every field.
pub struct StepRow {
    pub id: Seq<char>,
    pub label: Option<Seq<char>>,
    pub ensure_pdp_context_active: Option<Seq<char>>,
    pub send: Option<Seq<char>>,
    pub expect: Option<Seq<char>>,
    pub expect_prompt: Option<Seq<char>>,
    pub expect_urc: Option<Seq<char>>,
    pub payload: Option<Seq<char>>,
    pub terminator: StepTerminator,
    pub require_tcp_ack: bool,
    pub require_ping_success: bool,
    pub timeout_secs: Option<u64>,
    pub evidence: Option<Seq<char>>,
    pub cleanup_on_failure: Option<Seq<char>>,
}

/// A built-in sequence as plain values: every field of its definition.
pub struct SequenceRow {
    pub name: Seq<char>,
    pub summary: Seq<char>,
    pub categories: Seq<Seq<char>>,
    pub timeout_secs: Option<u64>,
    pub params: Seq<ParamRow>,
    pub steps: Seq<StepRow>,
    pub review_items: Seq<(Seq<char>, Seq<char>, bool)>,
    pub success_notes: Seq<Seq<char>>,
    pub before_running: Seq<Seq<char>>,
}

pub open spec fn param_view(p: SequenceParam) -> ParamRow {
    ParamRow {
        name: p.name@,
        label: p.label@,
        required: p.required,
        sensitive: p.sensitive,
        default_value: opt_view(p.default_value),
        source: p.source,
        candidate: p.candidate,
        hint: opt_view(p.hint),
    }
}

pub open spec fn step_view(s: SequenceStep) -> StepRow {
    StepRow {
        id: s.id@,
        label: opt_view(s.label),
        ensure_pdp_context_active: opt_view(s.ensure_pdp_context_active),
        send: opt_view(s.send),
        expect: opt_view(s.expect),
        expect_prompt: opt_view(s.expect_prompt),
        expect_urc: opt_view(s.expect_urc),
        payload: opt_view(s.payload),
        terminator: s.terminator,
        require_tcp_ack: s.require_tcp_ack,
        require_ping_success: s.require_ping_success,
        timeout_secs: s.timeout_secs,
        evidence: opt_view(s.evidence),
        cleanup_on_failure: opt_view(s.cleanup_on_failure),
    }
}

pub open spec fn review_view(r: SequenceReviewItem) -> (Seq<char>, Seq<char>, bool) {
    (r.label@, r.value@, r.sensitive)
}

/// A required parameter without a default.
pub open spec fn prow(
    name: Seq<char>,
    label: Seq<char>,
    sensitive: bool,
    source: SequenceParamSource,
    candidate: Option<SequenceCandidateSource>,
    hint: Seq<char>,
) -> ParamRow {
    ParamRow {
        name,
        label,
        required: true,
        sensitive,
        default_value: None,
        source,
        candidate,
        hint: Some(hint),
    }
}

/// A labelled step with a timeout, no URC, PDP, cleanup or TCP and ping
/// checks.
pub open spec fn srow(
    id: Seq<char>,
    label: Seq<char>,
    send: Option<Seq<char>>,
    expect: Option<Seq<char>>,
    expect_prompt: Option<Seq<char>>,
    payload: Option<Seq<char>>,
    terminator: StepTerminator,
    timeout_secs: u64,
    evidence: Option<Seq<char>>,
) -> StepRow {
    StepRow {
        id,
        label: Some(label),
        ensure_pdp_context_active: None,
        send,
        expect,
        expect_prompt,
        expect_urc: None,
        payload,
        terminator,
        require_tcp_ack: false,
        require_ping_success: false,
        timeout_secs: Some(timeout_secs),
        evidence,
        cleanup_on_failure: None,
    }
}

pub open spec fn set_text_mode_row() -> StepRow {
    srow(
        "set-text-mode"@,
        "Set SMS text mode"@,
        Some("AT+CMGF=1"@),
        Some("OK"@),
        None,
        None,
        StepTerminator::NoTerminator,
        30,
        None,
    )
}

pub open spec fn sms_index_param_row() -> ParamRow {
    prow(
        "index"@,
        "SMS storage index"@,
        false,
        SequenceParamSource::Select,
        Some(SequenceCandidateSource::SmsMessage),
        "Use the SMS storage index shown by sms-receive-check or AT+CMGL."@,
    )
}

pub open spec fn submit_evidence_note() -> Seq<char> {
    "+CMGS plus OK is SMS submit evidence, not destination handset receipt proof."@
}

/// The built-in sequences in order, every field of each.
pub open spec fn builtin_sequence_table() -> Seq<SequenceRow> {
    seq![
        SequenceRow {
            name: "sms-send-check"@,
            summary: "Send a standard SMS and report modem submit evidence."@,
            categories: seq!["sms"@],
            timeout_secs: Some(180),
            params: seq![
                prow("recipient"@, "Recipient"@, true, SequenceParamSource::User, None, "Enter the SMS destination address."@),
                prow("message"@, "Message body"@, true, SequenceParamSource::User, None, "Enter the SMS body to submit."@),
            ],
            steps: seq![
                set_text_mode_row(),
                srow("start-submit"@, "Start SMS submit"@, Some("AT+CMGS=\"{{recipient}}\""@), None, Some(">"@), None, StepTerminator::NoTerminator, 30, None),
                srow("write-message"@, "Write message body"@, None, Some("+CMGS:"@), None, Some("{{message}}"@), StepTerminator::CtrlZ, 120, None),
            ],
            review_items: seq![("Destination"@, "{{recipient}}"@, true), ("Message body"@, "{{message}}"@, true)],
            success_notes: seq![submit_evidence_note()],
            before_running: Seq::empty(),
        },
        SequenceRow {
            name: "sms-receive-check"@,
            summary: "List received SMS material and decode message bodies while keeping sensitive values masked."@,
            categories: seq!["sms"@],
            timeout_secs: Some(120),
            params: Seq::empty(),
            steps: seq![
                set_text_mode_row(),
                srow("list-messages"@, "List SMS messages"@, Some("AT+CMGL=\"ALL\""@), Some("OK"@), None, None, StepTerminator::NoTerminator, 90, Some("REC READ and REC UNREAD are modem message status values; sender and body values stay masked by default."@)),
            ],
            review_items: Seq::empty(),
            success_notes: Seq::empty(),
            before_running: Seq::empty(),
        },
        SequenceRow {
            name: "sms-read-message"@,
            summary: "Read one SMS storage index; the modem may change unread status to read."@,
            categories: seq!["sms"@],
            timeout_secs: Some(120),
            params: seq![sms_index_param_row()],
            steps: seq![
                set_text_mode_row(),
                srow("read-message"@, "Read SMS message"@, Some("AT+CMGR={{index}}"@), Some("OK"@), None, None, StepTerminator::NoTerminator, 90, Some("AT+CMGR may change an unread message to read state on the modem."@)),
            ],
            review_items: seq![("SMS storage index"@, "{{index}}"@, false)],
            success_notes: Seq::empty(),
            before_running: Seq::empty(),
        },
        SequenceRow {
            name: "sms-reply-check"@,
            summary: "Reply to the sender of one SMS storage index and report modem submit evidence."@,
            categories: seq!["sms"@],
            timeout_secs: Some(180),
            params: seq![
                sms_index_param_row(),
                prow("message"@, "Reply body"@, true, SequenceParamSource::User, None, "Enter the reply body. The recipient is derived from AT+CMGR."@),
            ],
            steps: seq![
                set_text_mode_row(),
                srow("read-original-message"@, "Read original SMS message"@, Some("AT+CMGR={{index}}"@), Some("OK"@), None, None, StepTerminator::NoTerminator, 90, Some("AT+CMGR may change an unread message to read state; reply recipient is resolved from the returned sender."@)),
                srow("start-reply-submit"@, "Start SMS reply submit"@, Some("AT+CMGS=\"{{sms_sender}}\""@), None, Some(">"@), None, StepTerminator::NoTerminator, 30, None),
                srow("write-reply"@, "Write reply body"@, None, Some("+CMGS:"@), None, Some("{{message}}"@), StepTerminator::CtrlZ, 120, None),
            ],
            review_items: seq![("SMS storage index"@, "{{index}}"@, false), ("Reply body"@, "{{message}}"@, true)],
            success_notes: seq!["Reply recipient is the sender extracted from AT+CMGR for the reviewed SMS storage index."@, submit_evidence_note()],
            before_running: Seq::empty(),
        },
    ]
}

/// Whether a definition holds exactly the fields of a table row, declared
/// as a write.
pub open spec fn definition_matches_row(d: SequenceDefinition, row: SequenceRow) -> bool {
    &&& d.name@ == row.name
    &&& d.summary@ == row.summary
    &&& d.risk == RiskLevel::Write
    &&& strings_view(d.categories@) == row.categories
    &&& d.timeout_secs == row.timeout_secs
    &&& d.params@.map_values(|p: SequenceParam| param_view(p)) == row.params
    &&& d.steps@.map_values(|s: SequenceStep| step_view(s)) == row.steps
    &&& d.review_items@.map_values(|r: SequenceReviewItem| review_view(r)) == row.review_items
    &&& strings_view(d.success_notes@) == row.success_notes
    &&& strings_view(d.before_running@) == row.before_running
}

/// Whether a built-in sequence holds exactly the fields of a table row.
pub open spec fn sequence_matches_row(s: Sequence, row: SequenceRow) -> bool {
    &&& s.name@ == row.name
    &&& s.summary@ == row.summary
    &&& s.origin == SequenceOrigin::BuiltIn
    &&& s.declared_risk == RiskLevel::Write
    &&& s.risk == sequence_risk(RiskLevel::Write, s.params@, s.steps@)
    &&& strings_view(s.categories@) == row.categories
    &&& s.timeout_secs == row.timeout_secs
    &&& s.params@.map_values(|p: SequenceParam| param_view(p)) == row.params
    &&& s.steps@.map_values(|st: SequenceStep| step_view(st)) == row.steps
    &&& s.review_items@.map_values(|r: SequenceReviewItem| review_view(r)) == row.review_items
    &&& strings_view(s.success_notes@) == row.success_notes
    &&& strings_view(s.before_running@) == row.before_running
}

fn opt_owned(o: Option<&str>) -> (r: Option<String>)
    ensures
        opt_view(r) == opt_str_view(o),
{
    match o {
        Some(s) => Some(s.to_owned()),
        None => None,
    }
}

fn step(
    id: &str,
    label: &str,
    send: Option<&str>,
    expect: Option<&str>,
    expect_prompt: Option<&str>,
    payload: Option<&str>,
    terminator: StepTerminator,
    timeout_secs: u64,
    evidence: Option<&str>,
) -> (r: SequenceStep)
    ensures
        step_view(r) == srow(
            id@,
            label@,
            opt_str_view(send),
            opt_str_view(expect),
            opt_str_view(expect_prompt),
            opt_str_view(payload),
            terminator,
            timeout_secs,
            opt_str_view(evidence),
        ),
{
    SequenceStep {
        id: id.to_owned(),
        label: Some(label.to_owned()),
        ensure_pdp_context_active: None,
        send: opt_owned(send),
        expect: opt_owned(expect),
        expect_prompt: opt_owned(expect_prompt),
        expect_urc: None,
        payload: opt_owned(payload),
        terminator,
        require_tcp_ack: false,
        require_ping_success: false,
        timeout_secs: Some(timeout_secs),
        evidence: opt_owned(evidence),
        cleanup_on_failure: None,
    }
}

fn param(
    name: &str,
    label: &str,
    sensitive: bool,
    source: SequenceParamSource,
    candidate: Option<SequenceCandidateSource>,
    hint: &str,
) -> (r: SequenceParam)
    ensures
        param_view(r) == prow(name@, label@, sensitive, source, candidate, hint@),
{
    SequenceParam {
        name: name.to_owned(),
        label: label.to_owned(),
        required: true,
        sensitive,
        default_value: None,
        source,
        candidate,
        hint: Some(hint.to_owned()),
    }
}

fn review_item(label: &str, value: &str, sensitive: bool) -> (r: SequenceReviewItem)
    ensures
        review_view(r) == (label@, value@, sensitive),
{
    SequenceReviewItem { label: label.to_owned(), value: value.to_owned(), sensitive }
}

fn sms_send_check() -> (d: SequenceDefinition)
    ensures
        definition_matches_row(d, builtin_sequence_table()[0]),
{
    let params: Vec<SequenceParam> = vec![param("recipient", "Recipient", true, SequenceParamSource::User, None, "Enter the SMS destination address."), param("message", "Message body", true, SequenceParamSource::User, None, "Enter the SMS body to submit.")];
    let steps: Vec<SequenceStep> = vec![
            step("set-text-mode", "Set SMS text mode", Some("AT+CMGF=1"), Some("OK"), None, None, StepTerminator::NoTerminator, 30, None),
            step("start-submit", "Start SMS submit", Some("AT+CMGS=\"{{recipient}}\""), None, Some(">"), None, StepTerminator::NoTerminator, 30, None),
            step("write-message", "Write message body", None, Some("+CMGS:"), None, Some("{{message}}"), StepTerminator::CtrlZ, 120, None)
        ];
    let mut categories: Vec<String> = Vec::new();
    categories.push("sms".to_owned());
    let d = SequenceDefinition::new(
        "sms-send-check",
        "Send a standard SMS and report modem submit evidence.",
        RiskLevel::Write,
        categories,
        Some(180),
        params,
        steps,
    );
    let d = d.with_review_items(vec![review_item("Destination", "{{recipient}}", true), review_item("Message body", "{{message}}", true)]);
    let d = d.with_success_notes(vec!["+CMGS plus OK is SMS submit evidence, not destination handset receipt proof.".to_owned()]);
    proof {
        let row = builtin_sequence_table()[0];
        assert(param_view(d.params@[0]) == row.params[0]);
        assert(param_view(d.params@[1]) == row.params[1]);
        assert(step_view(d.steps@[0]) == row.steps[0]);
        assert(step_view(d.steps@[1]) == row.steps[1]);
        assert(step_view(d.steps@[2]) == row.steps[2]);
        assert(review_view(d.review_items@[0]) == row.review_items[0]);
        assert(review_view(d.review_items@[1]) == row.review_items[1]);
        assert(d.params@.map_values(|p: SequenceParam| param_view(p)) =~= row.params);
        assert(d.steps@.map_values(|s: SequenceStep| step_view(s)) =~= row.steps);
        assert(d.review_items@.map_values(|r: SequenceReviewItem| review_view(r)) =~= row.review_items);
        assert(strings_view(d.categories@) =~= row.categories);
        assert(strings_view(d.success_notes@) =~= row.success_notes);
        assert(strings_view(d.before_running@) =~= row.before_running);
    }
    d
}

fn sms_receive_check() -> (d: SequenceDefinition)
    ensures
        definition_matches_row(d, builtin_sequence_table()[1]),
{
    let params: Vec<SequenceParam> = vec![];
    let steps: Vec<SequenceStep> = vec![
            step("set-text-mode", "Set SMS text mode", Some("AT+CMGF=1"), Some("OK"), None, None, StepTerminator::NoTerminator, 30, None),
            step("list-messages", "List SMS messages", Some("AT+CMGL=\"ALL\""), Some("OK"), None, None, StepTerminator::NoTerminator, 90, Some("REC READ and REC UNREAD are modem message status values; sender and body values stay masked by default."))
        ];
    let mut categories: Vec<String> = Vec::new();
    categories.push("sms".to_owned());
    let d = SequenceDefinition::new(
        "sms-receive-check",
        "List received SMS material and decode message bodies while keeping sensitive values masked.",
        RiskLevel::Write,
        categories,
        Some(120),
        params,
        steps,
    );
    proof {
        let row = builtin_sequence_table()[1];
        assert(step_view(d.steps@[0]) == row.steps[0]);
        assert(step_view(d.steps@[1]) == row.steps[1]);
        assert(d.params@.map_values(|p: SequenceParam| param_view(p)) =~= row.params);
        assert(d.steps@.map_values(|s: SequenceStep| step_view(s)) =~= row.steps);
        assert(d.review_items@.map_values(|r: SequenceReviewItem| review_view(r)) =~= row.review_items);
        assert(strings_view(d.categories@) =~= row.categories);
        assert(strings_view(d.success_notes@) =~= row.success_notes);
        assert(strings_view(d.before_running@) =~= row.before_running);
    }
    d
}

fn sms_read_message() -> (d: SequenceDefinition)
    ensures
        definition_matches_row(d, builtin_sequence_table()[2]),
{
    let params: Vec<SequenceParam> = vec![param("index", "SMS storage index", false, SequenceParamSource::Select, Some(SequenceCandidateSource::SmsMessage), "Use the SMS storage index shown by sms-receive-check or AT+CMGL.")];
    let steps: Vec<SequenceStep> = vec![
            step("set-text-mode", "Set SMS text mode", Some("AT+CMGF=1"), Some("OK"), None, None, StepTerminator::NoTerminator, 30, None),
            step("read-message", "Read SMS message", Some("AT+CMGR={{index}}"), Some("OK"), None, None, StepTerminator::NoTerminator, 90, Some("AT+CMGR may change an unread message to read state on the modem."))
        ];
    let mut categories: Vec<String> = Vec::new();
    categories.push("sms".to_owned());
    let d = SequenceDefinition::new(
        "sms-read-message",
        "Read one SMS storage index; the modem may change unread status to read.",
        RiskLevel::Write,
        categories,
        Some(120),
        params,
        steps,
    );
    let d = d.with_review_items(vec![review_item("SMS storage index", "{{index}}", false)]);
    proof {
        let row = builtin_sequence_table()[2];
        assert(param_view(d.params@[0]) == row.params[0]);
        assert(step_view(d.steps@[0]) == row.steps[0]);
        assert(step_view(d.steps@[1]) == row.steps[1]);
        assert(review_view(d.review_items@[0]) == row.review_items[0]);
        assert(d.params@.map_values(|p: SequenceParam| param_view(p)) =~= row.params);
        assert(d.steps@.map_values(|s: SequenceStep| step_view(s)) =~= row.steps);
        assert(d.review_items@.map_values(|r: SequenceReviewItem| review_view(r)) =~= row.review_items);
        assert(strings_view(d.categories@) =~= row.categories);
        assert(strings_view(d.success_notes@) =~= row.success_notes);
        assert(strings_view(d.before_running@) =~= row.before_running);
    }
    d
}

fn sms_reply_check() -> (d: SequenceDefinition)
    ensures
        definition_matches_row(d, builtin_sequence_table()[3]),
{
    let params: Vec<SequenceParam> = vec![param("index", "SMS storage index", false, SequenceParamSource::Select, Some(SequenceCandidateSource::SmsMessage), "Use the SMS storage index shown by sms-receive-check or AT+CMGL."), param("message", "Reply body", true, SequenceParamSource::User, None, "Enter the reply body. The recipient is derived from AT+CMGR.")];
    let steps: Vec<SequenceStep> = vec![
            step("set-text-mode", "Set SMS text mode", Some("AT+CMGF=1"), Some("OK"), None, None, StepTerminator::NoTerminator, 30, None),
            step("read-original-message", "Read original SMS message", Some("AT+CMGR={{index}}"), Some("OK"), None, None, StepTerminator::NoTerminator, 90, Some("AT+CMGR may change an unread message to read state; reply recipient is resolved from the returned sender.")),
            step("start-reply-submit", "Start SMS reply submit", Some("AT+CMGS=\"{{sms_sender}}\""), None, Some(">"), None, StepTerminator::NoTerminator, 30, None),
            step("write-reply", "Write reply body", None, Some("+CMGS:"), None, Some("{{message}}"), StepTerminator::CtrlZ, 120, None)
        ];
    let mut categories: Vec<String> = Vec::new();
    categories.push("sms".to_owned());
    let d = SequenceDefinition::new(
        "sms-reply-check",
        "Reply to the sender of one SMS storage index and report modem submit evidence.",
        RiskLevel::Write,
        categories,
        Some(180),
        params,
        steps,
    );
    let d = d.with_review_items(vec![review_item("SMS storage index", "{{index}}", false), review_item("Reply body", "{{message}}", true)]);
    let d = d.with_success_notes(vec!["Reply recipient is the sender extracted from AT+CMGR for the reviewed SMS storage index.".to_owned(), "+CMGS plus OK is SMS submit evidence, not destination handset receipt proof.".to_owned()]);
    proof {
        let row = builtin_sequence_table()[3];
        assert(param_view(d.params@[0]) == row.params[0]);
        assert(param_view(d.params@[1]) == row.params[1]);
        assert(step_view(d.steps@[0]) == row.steps[0]);
        assert(step_view(d.steps@[1]) == row.steps[1]);
        assert(step_view(d.steps@[2]) == row.steps[2]);
        assert(step_view(d.steps@[3]) == row.steps[3]);
        assert(review_view(d.review_items@[0]) == row.review_items[0]);
        assert(review_view(d.review_items@[1]) == row.review_items[1]);
        assert(d.params@.map_values(|p: SequenceParam| param_view(p)) =~= row.params);
        assert(d.steps@.map_values(|s: SequenceStep| step_view(s)) =~= row.steps);
        assert(d.review_items@.map_values(|r: SequenceReviewItem| review_view(r)) =~= row.review_items);
        assert(strings_view(d.categories@) =~= row.categories);
        assert(strings_view(d.success_notes@) =~= row.success_notes);
        assert(strings_view(d.before_running@) =~= row.before_running);
    }
    d
}

fn builtin_definitions() -> (r: Vec<SequenceDefinition>)
    ensures
        r.len() == builtin_sequence_table().len(),
        forall|i: int| 0 <= i < r.len() ==> definition_matches_row(#[trigger] r@[i], builtin_sequence_table()[i]),
{
    let r = vec![sms_send_check(), sms_receive_check(), sms_read_message(), sms_reply_check()];
    assert(r.len() == builtin_sequence_table().len());
    r
}

/// The built-in sequences, each from the built-in origin, declared as
/// writes, with every field of its row of `builtin_sequence_table`.
pub fn builtins() -> (r: Vec<Sequence>)
    ensures
        r.len() == builtin_sequence_table().len(),
        forall|i: int|
            0 <= i < r.len() ==> sequence_matches_row(#[trigger] r@[i], builtin_sequence_table()[i]),
{
    let defs = builtin_definitions();
    let ghost d = defs@;
    let r = definitions_into_sequences(defs, SequenceOrigin::BuiltIn);
    assert forall|i: int| 0 <= i < r.len() implies sequence_matches_row(
        #[trigger] r@[i],
        builtin_sequence_table()[i],
    ) by {
        assert(sequence_from_definition(r@[i], d[i], SequenceOrigin::BuiltIn));
        assert(definition_matches_row(d[i], builtin_sequence_table()[i]));
    }
    r
}

/// No two built-in sequences share a name.
pub proof fn lemma_builtin_sequence_names_distinct()
    ensures
        forall|i: int, j: int|
            0 <= i < j < builtin_sequence_table().len() ==> builtin_sequence_table()[i].name
                != builtin_sequence_table()[j].name,
{
    reveal_strlit("sms-send-check");
    reveal_strlit("sms-receive-check");
    reveal_strlit("sms-read-message");
    reveal_strlit("sms-reply-check");
    let t = builtin_sequence_table();
    assert(t[0].name.len() == 14 && t[1].name.len() == 17 && t[2].name.len() == 16 && t[3].name.len() == 15);
}

} // verus!
