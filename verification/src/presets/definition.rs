//! Preset definitions as written in preset files, before their origin and
//! effective risk are attached.
use vstd::prelude::*;

use crate::at::risk::RiskLevel;
use crate::presets::model::{preset_effective_risk, Preset, PresetOrigin};
use crate::text::strings_view;

verus! {

broadcast use vstd::string::group_string_axioms;

/// One preset entry of a preset file.
#[derive(Debug, Clone, PartialEq, Eq)]
pub struct PresetDefinition {
    pub name: String,
    pub command: String,
    pub risk: RiskLevel,
    pub categories: Vec<String>,
    pub timeout_secs: Option<u64>,
}

/// The text of each string slice.
pub open spec fn strs_view(s: Seq<&str>) -> Seq<Seq<char>> {
    s.map_values(|x: &str| x@)
}

/// A definition as plain values: name, command, declared risk, categories
/// and timeout hint.
pub open spec fn definition_view(d: PresetDefinition) -> (
    Seq<char>,
    Seq<char>,
    RiskLevel,
    Seq<Seq<char>>,
    Option<u64>,
) {
    (d.name@, d.command@, d.risk, strings_view(d.categories@), d.timeout_secs)
}

/// Owned copies of string slices.
pub fn owned_strings(items: &[&str]) -> (r: Vec<String>)
    ensures
        strings_view(r@) == strs_view(items@),
{
    let mut r: Vec<String> = Vec::new();
    let mut i: usize = 0;
    while i < items.len()
        invariant
            i <= items.len(),
            r.len() == i,
            strings_view(r@) == strs_view(items@.take(i as int)),
        decreases items.len() - i,
    {
        let ghost before = r@;
        r.push(items[i].to_owned());
        proof {
            assert(strings_view(r@) =~= strings_view(before).push(items@[i as int]@));
            assert(strs_view(items@.take(i + 1)) =~= strs_view(items@.take(i as int)).push(
                items@[i as int]@,
            ));
        }
        i += 1;
    }
    assert(items@.take(i as int) =~= items@);
    r
}

impl PresetDefinition {
    /// A definition without a timeout hint.
    pub fn new(name: &str, command: &str, risk: RiskLevel, categories: &[&str]) -> (r: Self)
        ensures
            definition_view(r) == (name@, command@, risk, strs_view(categories@), None::<u64>),
    {
        PresetDefinition {
            name: name.to_owned(),
            command: command.to_owned(),
            risk,
            categories: owned_strings(categories),
            timeout_secs: None,
        }
    }

    /// The definition with a timeout hint.
    pub fn with_timeout(self, timeout_secs: u64) -> (r: Self)
        ensures
            definition_view(r) == (self.name@, self.command@, self.risk, strings_view(
                self.categories@,
            ), Some(timeout_secs)),
    {
        let mut d = self;
        d.timeout_secs = Some(timeout_secs);
        d
    }

    /// The preset this definition describes, from `origin`.
    pub fn into_preset(self, origin: PresetOrigin) -> (r: Preset)
        ensures
            r.name@ == self.name@,
            r.command@ == self.command@,
            r.declared_risk == self.risk,
            r.risk == preset_effective_risk(self.risk, self.command@),
            r.origin == origin,
            r.categories@ == self.categories@,
            r.timeout_secs == self.timeout_secs,
    {
        Preset::new_with_timeout(
            self.name.as_str(),
            self.command.as_str(),
            self.risk,
            self.categories,
            origin,
            self.timeout_secs,
        )
    }
}

/// Whether `p` is the preset that `d` describes from `origin`.
pub open spec fn preset_from_definition(p: Preset, d: PresetDefinition, origin: PresetOrigin) -> bool {
    &&& p.name@ == d.name@
    &&& p.command@ == d.command@
    &&& p.declared_risk == d.risk
    &&& p.risk == preset_effective_risk(d.risk, d.command@)
    &&& p.origin == origin
    &&& p.categories@ == d.categories@
    &&& p.timeout_secs == d.timeout_secs
}

/// Turns definitions into presets sharing one origin, in order.
pub fn definitions_into_presets(definitions: Vec<PresetDefinition>, origin: PresetOrigin) -> (r:
    Vec<Preset>)
    ensures
        r.len() == definitions.len(),
        forall|i: int|
            0 <= i < r.len() ==> preset_from_definition(#[trigger] r@[i], definitions@[i], origin),
{
    let mut r: Vec<Preset> = Vec::new();
    let mut defs = definitions;
    let ghost all = defs@;
    let mut i: usize = 0;
    while i < defs.len()
        invariant
            defs@ == all,
            i <= all.len(),
            r.len() == i,
            forall|k: int| 0 <= k < i ==> preset_from_definition(#[trigger] r@[k], all[k], origin),
        decreases all.len() - i,
    {
        let d = defs[i].clone_definition();
        r.push(d.into_preset(origin.duplicate()));
        i += 1;
    }
    r
}

impl PresetDefinition {
    /// A copy that equals the original.
    pub fn clone_definition(&self) -> (r: Self)
        ensures
            r.name == self.name,
            r.command == self.command,
            r.risk == self.risk,
            r.categories@ == self.categories@,
            r.timeout_secs == self.timeout_secs,
    {
        PresetDefinition {
            name: self.name.clone(),
            command: self.command.clone(),
            risk: self.risk,
            categories: crate::text::clone_strings(&self.categories),
            timeout_secs: self.timeout_secs,
        }
    }
}

} // verus!
