//! The sequence model and the aggregate risk rule.
use vstd::prelude::*;

use crate::at::risk::{classify_direct_command, command_risk, rank, stricter_of, RiskLevel};
use crate::text::{chars_of, lower_chars, lower_seq, push_str, string_of};

verus! {

broadcast use vstd::string::group_string_axioms;

/// A named multi-step AT workflow. `risk` aggregates the declared risk with
/// what the steps do; it never drops below the declared risk.
#[derive(Debug, Clone, PartialEq, Eq)]
pub struct Sequence {
    pub name: String,
    pub summary: String,
    pub declared_risk: RiskLevel,
    pub risk: RiskLevel,
    pub origin: SequenceOrigin,
    pub categories: Vec<String>,
    pub timeout_secs: Option<u64>,
    pub before_running: Vec<String>,
    pub params: Vec<SequenceParam>,
    pub review_items: Vec<SequenceReviewItem>,
    pub success_notes: Vec<String>,
    pub steps: Vec<SequenceStep>,
}

/// Where a sequence comes from.
#[derive(Debug, Clone, PartialEq, Eq)]
pub enum SequenceOrigin {
    BuiltIn,
    File { title: String, path: String, description: Option<String> },
}

pub open spec fn sequence_origin_label(o: SequenceOrigin) -> Seq<char> {
    match o {
        SequenceOrigin::BuiltIn => "Product Sequences"@,
        SequenceOrigin::File { title, .. } => title@,
    }
}

pub open spec fn sequence_origin_id(o: SequenceOrigin) -> Seq<char> {
    match o {
        SequenceOrigin::BuiltIn => "built-in-sequences"@,
        SequenceOrigin::File { path, .. } => "file:"@ + path@,
    }
}

impl SequenceOrigin {
    /// An origin for sequences loaded from a file.
    pub fn file(title: &str, path: &str, description: Option<String>) -> (r: Self)
        ensures
            r matches SequenceOrigin::File { title: t, path: p, description: d } && t@ == title@
                && p@ == path@ && d == description,
    {
        SequenceOrigin::File { title: title.to_owned(), path: path.to_owned(), description }
    }

    /// A copy that equals the original.
    pub fn duplicate(&self) -> (r: Self)
        ensures
            r == *self,
    {
        match self {
            SequenceOrigin::BuiltIn => SequenceOrigin::BuiltIn,
            SequenceOrigin::File { title, path, description } => SequenceOrigin::File {
                title: title.clone(),
                path: path.clone(),
                description: match description {
                    Some(d) => Some(d.clone()),
                    None => None,
                },
            },
        }
    }

    /// `built-in-sequences` or `file:<path>`.
    pub fn id(&self) -> (r: String)
        ensures
            r@ == sequence_origin_id(*self),
    {
        match self {
            SequenceOrigin::BuiltIn => "built-in-sequences".to_owned(),
            SequenceOrigin::File { path, .. } => {
                let mut v = chars_of("file:");
                push_str(&mut v, path.as_str());
                string_of(&v)
            },
        }
    }

    /// The heading the origin's sequences are listed under.
    pub fn label(&self) -> (r: &str)
        ensures
            r@ == sequence_origin_label(*self),
    {
        match self {
            SequenceOrigin::BuiltIn => "Product Sequences",
            SequenceOrigin::File { title, .. } => title.as_str(),
        }
    }

    /// The file title, for file origins.
    pub fn detail(&self) -> (r: Option<&str>)
        ensures
            match *self {
                SequenceOrigin::File { title, .. } => r matches Some(t) && t@ == title@,
                _ => r is None,
            },
    {
        match self {
            SequenceOrigin::BuiltIn => None,
            SequenceOrigin::File { title, .. } => Some(title.as_str()),
        }
    }

    /// The file path, for file origins.
    pub fn file_path(&self) -> (r: Option<&str>)
        ensures
            match *self {
                SequenceOrigin::File { path, .. } => r matches Some(p) && p@ == path@,
                _ => r is None,
            },
    {
        match self {
            SequenceOrigin::BuiltIn => None,
            SequenceOrigin::File { path, .. } => Some(path.as_str()),
        }
    }

    pub fn is_built_in(&self) -> (b: bool)
        ensures
            b == (*self is BuiltIn),
    {
        match self {
            SequenceOrigin::BuiltIn => true,
            _ => false,
        }
    }

    /// Built-in origins first, then files by lowercased label.
    pub fn sort_key(&self) -> (r: (u8, String))
        ensures
            r.0 == (if *self is BuiltIn {
                0u8
            } else {
                1u8
            }),
            r.1@ == lower_seq(sequence_origin_label(*self)),
    {
        let kind: u8 = match self {
            SequenceOrigin::BuiltIn => 0,
            SequenceOrigin::File { .. } => 1,
        };
        let label = chars_of(self.label());
        let lowered = lower_chars(&label);
        (kind, string_of(&lowered))
    }
}

/// A value a sequence asks for before it runs.
#[derive(Debug, Clone, PartialEq, Eq)]
pub struct SequenceParam {
    pub name: String,
    pub label: String,
    pub required: bool,
    pub sensitive: bool,
    pub default_value: Option<String>,
    pub source: SequenceParamSource,
    pub candidate: Option<SequenceCandidateSource>,
    pub hint: Option<String>,
}

/// Where the value of a parameter is expected to come from.
#[derive(Debug, Copy, Clone, PartialEq, Eq, Structural)]
pub enum SequenceParamSource {
    User,
    Default,
    Modem,
    Select,
    Sequence,
    Derived,
    External,
}

pub open spec fn param_source_label(s: SequenceParamSource) -> Seq<char> {
    match s {
        SequenceParamSource::User => "user"@,
        SequenceParamSource::Default => "default"@,
        SequenceParamSource::Modem => "modem"@,
        SequenceParamSource::Select => "select"@,
        SequenceParamSource::Sequence => "sequence"@,
        SequenceParamSource::Derived => "derived"@,
        SequenceParamSource::External => "external"@,
    }
}

impl SequenceParamSource {
    pub fn label(self) -> (r: &'static str)
        ensures
            r@ == param_source_label(self),
    {
        match self {
            SequenceParamSource::User => "user",
            SequenceParamSource::Default => "default",
            SequenceParamSource::Modem => "modem",
            SequenceParamSource::Select => "select",
            SequenceParamSource::Sequence => "sequence",
            SequenceParamSource::Derived => "derived",
            SequenceParamSource::External => "external",
        }
    }
}

/// Modem output that offers candidate values for a parameter.
#[derive(Debug, Copy, Clone, PartialEq, Eq, Structural)]
pub enum SequenceCandidateSource {
    SmsMessage,
    PdpContext,
}

pub open spec fn candidate_source_label(s: SequenceCandidateSource) -> Seq<char> {
    match s {
        SequenceCandidateSource::SmsMessage => "sms-message"@,
        SequenceCandidateSource::PdpContext => "pdp-context"@,
    }
}

impl SequenceCandidateSource {
    pub fn label(self) -> (r: &'static str)
        ensures
            r@ == candidate_source_label(self),
    {
        match self {
            SequenceCandidateSource::SmsMessage => "sms-message",
            SequenceCandidateSource::PdpContext => "pdp-context",
        }
    }
}

/// A value shown for review before a sequence runs.
#[derive(Debug, Clone, PartialEq, Eq)]
pub struct SequenceReviewItem {
    pub label: String,
    pub value: String,
    pub sensitive: bool,
}

/// One step: optionally make sure a PDP context is active, send a command,
/// write a payload, and check the response for the expected markers.
#[derive(Debug, Clone, PartialEq, Eq)]
pub struct SequenceStep {
    pub id: String,
    pub label: Option<String>,
    pub ensure_pdp_context_active: Option<String>,
    pub send: Option<String>,
    pub expect: Option<String>,
    pub expect_prompt: Option<String>,
    pub expect_urc: Option<String>,
    pub payload: Option<String>,
    pub terminator: StepTerminator,
    pub require_tcp_ack: bool,
    pub require_ping_success: bool,
    pub timeout_secs: Option<u64>,
    pub evidence: Option<String>,
    pub cleanup_on_failure: Option<String>,
}

/// What ends a payload.
#[derive(Debug, Copy, Clone, PartialEq, Eq, Structural)]
pub enum StepTerminator {
    NoTerminator,
    CtrlZ,
    Esc,
}

// ---------------------------------------------------------------------
// Aggregate risk
// ---------------------------------------------------------------------
pub open spec fn has_sensitive_param(params: Seq<SequenceParam>) -> bool {
    exists|i: int| 0 <= i < params.len() && (#[trigger] params[i]).sensitive
}

pub open spec fn has_payload_step(steps: Seq<SequenceStep>) -> bool {
    exists|i: int| 0 <= i < steps.len() && (#[trigger] steps[i]).payload is Some
}

/// The risk after taking one step into account: activating a PDP context is
/// a write, and the commands sent or kept for cleanup count with their
/// classified risk.
pub open spec fn step_risk(r: RiskLevel, st: SequenceStep) -> RiskLevel {
    let a = if st.ensure_pdp_context_active is Some {
        stricter_of(r, RiskLevel::Write)
    } else {
        r
    };
    let b = match st.send {
        Some(c) => stricter_of(a, command_risk(c@)),
        None => a,
    };
    match st.cleanup_on_failure {
        Some(c) => stricter_of(b, command_risk(c@)),
        None => b,
    }
}

pub open spec fn steps_risk(r: RiskLevel, steps: Seq<SequenceStep>) -> RiskLevel
    decreases steps.len(),
{
    if steps.len() == 0 {
        r
    } else {
        step_risk(steps_risk(r, steps.drop_last()), steps.last())
    }
}

/// The risk a sequence runs with: the declared risk, raised to sensitive
/// when a parameter is sensitive or a step writes a payload, then raised by
/// every step.
pub open spec fn sequence_risk(
    declared: RiskLevel,
    params: Seq<SequenceParam>,
    steps: Seq<SequenceStep>,
) -> RiskLevel {
    let base = if has_sensitive_param(params) || has_payload_step(steps) {
        stricter_of(declared, RiskLevel::Sensitive)
    } else {
        declared
    };
    steps_risk(base, steps)
}

/// Combines the declared risk with what the parameters and steps do.
pub fn aggregate_sequence_risk(
    declared_risk: RiskLevel,
    params: &[SequenceParam],
    steps: &[SequenceStep],
) -> (r: RiskLevel)
    ensures
        r == sequence_risk(declared_risk, params@, steps@),
{
    let mut sensitive = false;
    let mut i: usize = 0;
    while i < params.len()
        invariant
            i <= params.len(),
            sensitive == exists|k: int| 0 <= k < i && (#[trigger] params@[k]).sensitive,
        decreases params.len() - i,
    {
        if params[i].sensitive {
            sensitive = true;
        }
        i += 1;
    }
    let mut payload = false;
    let mut j: usize = 0;
    while j < steps.len()
        invariant
            j <= steps.len(),
            payload == exists|k: int| 0 <= k < j && (#[trigger] steps@[k]).payload is Some,
        decreases steps.len() - j,
    {
        if steps[j].payload.is_some() {
            payload = true;
        }
        j += 1;
    }
    let mut risk = declared_risk;
    if sensitive || payload {
        risk = risk.stricter(RiskLevel::Sensitive);
    }
    let ghost base = risk;
    let mut n: usize = 0;
    assert(steps@.take(0) =~= Seq::<SequenceStep>::empty());
    while n < steps.len()
        invariant
            n <= steps.len(),
            risk == steps_risk(base, steps@.take(n as int)),
        decreases steps.len() - n,
    {
        let step = &steps[n];
        if step.ensure_pdp_context_active.is_some() {
            risk = risk.stricter(RiskLevel::Write);
        }
        match &step.send {
            Some(command) => {
                risk = risk.stricter(classify_direct_command(command.as_str()).risk);
            },
            None => {},
        }
        match &step.cleanup_on_failure {
            Some(command) => {
                risk = risk.stricter(classify_direct_command(command.as_str()).risk);
            },
            None => {},
        }
        assert(steps@.take(n + 1).drop_last() =~= steps@.take(n as int));
        n += 1;
    }
    assert(steps@.take(n as int) =~= steps@);
    risk
}

/// Raising a risk with more steps never lowers it.
pub proof fn lemma_steps_risk_monotone(r: RiskLevel, steps: Seq<SequenceStep>)
    ensures
        rank(steps_risk(r, steps)) >= rank(r),
        forall|i: int|
            0 <= i < steps.len() && (#[trigger] steps[i]).send is Some ==> rank(steps_risk(r, steps)) >= rank(command_risk(steps[i].send->0@)),
        forall|i: int|
            0 <= i < steps.len() && (#[trigger] steps[i]).cleanup_on_failure is Some ==> rank(steps_risk(r, steps)) >= rank(command_risk(steps[i].cleanup_on_failure->0@)),
        forall|i: int|
            0 <= i < steps.len() ==> (#[trigger] steps[i]).ensure_pdp_context_active is Some
                ==> rank(steps_risk(r, steps)) >= rank(RiskLevel::Write),
    decreases steps.len(),
{
    if steps.len() > 0 {
        let prev = steps.drop_last();
        lemma_steps_risk_monotone(r, prev);
        let total = steps_risk(r, steps);
        assert(rank(total) >= rank(steps_risk(r, prev)));
        assert forall|i: int| 0 <= i < steps.len() implies {
            &&& ((#[trigger] steps[i]).send is Some ==> rank(total) >= rank(
                command_risk(steps[i].send->0@),
            ))
            &&& (steps[i].cleanup_on_failure is Some ==> rank(total) >= rank(
                command_risk(steps[i].cleanup_on_failure->0@),
            ))
            &&& (steps[i].ensure_pdp_context_active is Some ==> rank(total) >= rank(
                RiskLevel::Write,
            ))
        } by {
            if i < steps.len() - 1 {
                assert(steps[i] == prev[i]);
            }
        }
    }
}

/// A sequence never runs below its declared risk, below the classified risk
/// of any command it sends or keeps for cleanup, below a write when it
/// activates a PDP context, or below sensitive when it takes a sensitive
/// parameter or writes a payload.
pub proof fn law_sequence_risk_covers_every_step(
    declared: RiskLevel,
    params: Seq<SequenceParam>,
    steps: Seq<SequenceStep>,
)
    ensures
        rank(sequence_risk(declared, params, steps)) >= rank(declared),
        has_sensitive_param(params) || has_payload_step(steps) ==> rank(
            sequence_risk(declared, params, steps),
        ) >= rank(RiskLevel::Sensitive),
        forall|i: int|
            0 <= i < steps.len() && (#[trigger] steps[i]).send is Some ==> rank(sequence_risk(declared, params, steps)) >= rank(command_risk(steps[i].send->0@)),
        forall|i: int|
            0 <= i < steps.len() && (#[trigger] steps[i]).cleanup_on_failure is Some ==> rank(sequence_risk(declared, params, steps)) >= rank(command_risk(steps[i].cleanup_on_failure->0@)),
        forall|i: int|
            0 <= i < steps.len() ==> (#[trigger] steps[i]).ensure_pdp_context_active is Some
                ==> rank(sequence_risk(declared, params, steps)) >= rank(RiskLevel::Write),
{
    let base = if has_sensitive_param(params) || has_payload_step(steps) {
        stricter_of(declared, RiskLevel::Sensitive)
    } else {
        declared
    };
    lemma_steps_risk_monotone(base, steps);
}

impl Sequence {
    /// A sequence with no review items, notes or preamble; its risk is the
    /// aggregate of `declared_risk`, the parameters and the steps.
    pub fn new(
        name: &str,
        summary: &str,
        declared_risk: RiskLevel,
        categories: Vec<String>,
        origin: SequenceOrigin,
        timeout_secs: Option<u64>,
        params: Vec<SequenceParam>,
        steps: Vec<SequenceStep>,
    ) -> (r: Self)
        ensures
            r.name@ == name@,
            r.summary@ == summary@,
            r.declared_risk == declared_risk,
            r.risk == sequence_risk(declared_risk, params@, steps@),
            r.origin == origin,
            r.categories == categories,
            r.timeout_secs == timeout_secs,
            r.before_running@.len() == 0,
            r.params == params,
            r.review_items@.len() == 0,
            r.success_notes@.len() == 0,
            r.steps == steps,
    {
        let risk = aggregate_sequence_risk(declared_risk, params.as_slice(), steps.as_slice());
        Sequence {
            name: name.to_owned(),
            summary: summary.to_owned(),
            declared_risk,
            risk,
            origin,
            categories,
            timeout_secs,
            before_running: Vec::new(),
            params,
            review_items: Vec::new(),
            success_notes: Vec::new(),
            steps,
        }
    }

    /// The sequence with these review items.
    pub fn with_review_items(self, review_items: Vec<SequenceReviewItem>) -> (r: Self)
        ensures
            r == (Sequence { review_items, ..self }),
    {
        let mut s = self;
        s.review_items = review_items;
        s
    }

    /// The sequence with these success notes.
    pub fn with_success_notes(self, success_notes: Vec<String>) -> (r: Self)
        ensures
            r == (Sequence { success_notes, ..self }),
    {
        let mut s = self;
        s.success_notes = success_notes;
        s
    }

    /// The sequence with these things to check before running.
    pub fn with_before_running(self, before_running: Vec<String>) -> (r: Self)
        ensures
            r == (Sequence { before_running, ..self }),
    {
        let mut s = self;
        s.before_running = before_running;
        s
    }
}

} // verus!
