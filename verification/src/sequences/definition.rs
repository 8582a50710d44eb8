//! Sequence definitions as written in sequence files, before their origin
//! and aggregate risk are attached.
use vstd::prelude::*;

use crate::at::risk::RiskLevel;
use crate::sequences::model::{
    sequence_risk, Sequence, SequenceOrigin, SequenceParam, SequenceReviewItem, SequenceStep,
};

verus! {

broadcast use vstd::string::group_string_axioms;

/// One sequence entry of a sequence file.
#[derive(Debug, Clone, PartialEq, Eq)]
pub struct SequenceDefinition {
    pub name: String,
    pub summary: String,
    pub risk: RiskLevel,
    pub categories: Vec<String>,
    pub timeout_secs: Option<u64>,
    pub before_running: Vec<String>,
    pub params: Vec<SequenceParam>,
    pub review_items: Vec<SequenceReviewItem>,
    pub success_notes: Vec<String>,
    pub steps: Vec<SequenceStep>,
}

/// Whether `s` is the sequence that `d` describes from `origin`.
pub open spec fn sequence_from_definition(
    s: Sequence,
    d: SequenceDefinition,
    origin: SequenceOrigin,
) -> bool {
    &&& s.name@ == d.name@
    &&& s.summary@ == d.summary@
    &&& s.declared_risk == d.risk
    &&& s.risk == sequence_risk(d.risk, d.params@, d.steps@)
    &&& s.origin == origin
    &&& s.categories == d.categories
    &&& s.timeout_secs == d.timeout_secs
    &&& s.before_running == d.before_running
    &&& s.params == d.params
    &&& s.review_items == d.review_items
    &&& s.success_notes == d.success_notes
    &&& s.steps == d.steps
}

impl SequenceDefinition {
    /// A definition with no review items, notes or preamble.
    pub fn new(
        name: &str,
        summary: &str,
        risk: RiskLevel,
        categories: Vec<String>,
        timeout_secs: Option<u64>,
        params: Vec<SequenceParam>,
        steps: Vec<SequenceStep>,
    ) -> (r: Self)
        ensures
            r.name@ == name@,
            r.summary@ == summary@,
            r.risk == risk,
            r.categories == categories,
            r.timeout_secs == timeout_secs,
            r.before_running@.len() == 0,
            r.params == params,
            r.review_items@.len() == 0,
            r.success_notes@.len() == 0,
            r.steps == steps,
    {
        SequenceDefinition {
            name: name.to_owned(),
            summary: summary.to_owned(),
            risk,
            categories,
            timeout_secs,
            before_running: Vec::new(),
            params,
            review_items: Vec::new(),
            success_notes: Vec::new(),
            steps,
        }
    }

    pub fn with_before_running(self, before_running: Vec<String>) -> (r: Self)
        ensures
            r == (SequenceDefinition { before_running, ..self }),
    {
        let mut d = self;
        d.before_running = before_running;
        d
    }

    pub fn with_review_items(self, review_items: Vec<SequenceReviewItem>) -> (r: Self)
        ensures
            r == (SequenceDefinition { review_items, ..self }),
    {
        let mut d = self;
        d.review_items = review_items;
        d
    }

    pub fn with_success_notes(self, success_notes: Vec<String>) -> (r: Self)
        ensures
            r == (SequenceDefinition { success_notes, ..self }),
    {
        let mut d = self;
        d.success_notes = success_notes;
        d
    }

    /// The sequence this definition describes, from `origin`.
    pub fn into_sequence(self, origin: SequenceOrigin) -> (r: Sequence)
        ensures
            sequence_from_definition(r, self, origin),
    {
        let s = Sequence::new(
            self.name.as_str(),
            self.summary.as_str(),
            self.risk,
            self.categories,
            origin,
            self.timeout_secs,
            self.params,
            self.steps,
        );
        s.with_before_running(self.before_running).with_review_items(
            self.review_items,
        ).with_success_notes(self.success_notes)
    }
}

/// Turns definitions into sequences sharing one origin, in order.
pub fn definitions_into_sequences(
    definitions: Vec<SequenceDefinition>,
    origin: SequenceOrigin,
) -> (r: Vec<Sequence>)
    ensures
        r.len() == definitions.len(),
        forall|i: int|
            0 <= i < r.len() ==> sequence_from_definition(
                #[trigger] r@[i],
                definitions@[i],
                origin,
            ),
{
    let ghost all = definitions@;
    let mut defs = definitions;
    let mut r: Vec<Sequence> = Vec::new();
    while defs.len() > 0
        invariant
            r.len() + defs.len() == all.len(),
            defs@ == all.skip(r.len() as int),
            forall|k: int| 0 <= k < r.len() ==> sequence_from_definition(#[trigger] r@[k], all[k], origin),
        decreases defs.len(),
    {
        let d = defs.remove(0);
        let ghost k = r.len() as int;
        assert(d == all[k]);
        r.push(d.into_sequence(origin.duplicate()));
        assert(defs@ =~= all.skip(r.len() as int));
    }
    r
}

} // verus!
