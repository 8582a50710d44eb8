//! The preset model and the effective risk rule.
use vstd::prelude::*;

use crate::at::command::normalized;
use crate::at::risk::{classify_direct_command, command_risk, rank, stricter_of, RiskLevel};
use crate::text::{chars_of, lower_chars, lower_seq, push_str, string_of};

verus! {

broadcast use vstd::string::group_string_axioms;

/// A named AT command. `risk` is the stricter of the declared risk and the
/// classifier's risk for the command, so a preset can never lower it.
#[derive(Debug, Clone, PartialEq, Eq)]
pub struct Preset {
    pub name: String,
    pub command: String,
    pub declared_risk: RiskLevel,
    pub risk: RiskLevel,
    pub origin: PresetOrigin,
    pub categories: Vec<String>,
    pub timeout_secs: Option<u64>,
}

/// Where a preset comes from.
#[derive(Debug, Clone, PartialEq, Eq)]
pub enum PresetOrigin {
    BuiltIn,
    File { title: String, path: String, description: Option<String> },
    Runtime { label: String },
}

/// The label a preset origin is listed under.
pub open spec fn preset_origin_label(o: PresetOrigin) -> Seq<char> {
    match o {
        PresetOrigin::BuiltIn => "Product presets"@,
        PresetOrigin::File { title, .. } => title@,
        PresetOrigin::Runtime { label } => label@,
    }
}

/// The stable identifier of a preset origin.
pub open spec fn preset_origin_id(o: PresetOrigin) -> Seq<char> {
    match o {
        PresetOrigin::BuiltIn => "built-in"@,
        PresetOrigin::File { path, .. } => "file:"@ + path@,
        PresetOrigin::Runtime { label } => "runtime:"@ + label@,
    }
}

/// Where to find the kind rank used for ordering origins.
pub open spec fn preset_origin_rank(o: PresetOrigin) -> u8 {
    match o {
        PresetOrigin::BuiltIn => 0,
        PresetOrigin::File { .. } => 1,
        PresetOrigin::Runtime { .. } => 2,
    }
}

impl PresetOrigin {
    /// An origin for presets loaded from a file.
    pub fn file(title: &str, path: &str, description: Option<String>) -> (r: Self)
        ensures
            r matches PresetOrigin::File { title: t, path: p, description: d } && t@ == title@
                && p@ == path@ && d == description,
    {
        PresetOrigin::File { title: title.to_owned(), path: path.to_owned(), description }
    }

    /// An origin for presets made at run time.
    pub fn runtime(label: &str) -> (r: Self)
        ensures
            r matches PresetOrigin::Runtime { label: l } && l@ == label@,
    {
        PresetOrigin::Runtime { label: label.to_owned() }
    }

    /// A copy that equals the original.
    pub fn duplicate(&self) -> (r: Self)
        ensures
            r == *self,
    {
        match self {
            PresetOrigin::BuiltIn => PresetOrigin::BuiltIn,
            PresetOrigin::File { title, path, description } => PresetOrigin::File {
                title: title.clone(),
                path: path.clone(),
                description: match description {
                    Some(d) => Some(d.clone()),
                    None => None,
                },
            },
            PresetOrigin::Runtime { label } => PresetOrigin::Runtime { label: label.clone() },
        }
    }

    /// `built-in`, `file:<path>` or `runtime:<label>`.
    pub fn id(&self) -> (r: String)
        ensures
            r@ == preset_origin_id(*self),
    {
        match self {
            PresetOrigin::BuiltIn => "built-in".to_owned(),
            PresetOrigin::File { path, .. } => {
                let mut v = chars_of("file:");
                push_str(&mut v, path.as_str());
                string_of(&v)
            },
            PresetOrigin::Runtime { label } => {
                let mut v = chars_of("runtime:");
                push_str(&mut v, label.as_str());
                string_of(&v)
            },
        }
    }

    /// The heading the origin's presets are listed under.
    pub fn label(&self) -> (r: &str)
        ensures
            r@ == preset_origin_label(*self),
    {
        match self {
            PresetOrigin::BuiltIn => "Product presets",
            PresetOrigin::File { title, .. } => title.as_str(),
            PresetOrigin::Runtime { label } => label.as_str(),
        }
    }

    /// The file title, for file origins.
    pub fn detail(&self) -> (r: Option<&str>)
        ensures
            match *self {
                PresetOrigin::File { title, .. } => r matches Some(t) && t@ == title@,
                _ => r is None,
            },
    {
        match self {
            PresetOrigin::File { title, .. } => Some(title.as_str()),
            _ => None,
        }
    }

    /// The file path, for file origins.
    pub fn file_path(&self) -> (r: Option<&str>)
        ensures
            match *self {
                PresetOrigin::File { path, .. } => r matches Some(p) && p@ == path@,
                _ => r is None,
            },
    {
        match self {
            PresetOrigin::File { path, .. } => Some(path.as_str()),
            _ => None,
        }
    }

    pub fn is_built_in(&self) -> (b: bool)
        ensures
            b == (*self is BuiltIn),
    {
        match self {
            PresetOrigin::BuiltIn => true,
            _ => false,
        }
    }

    /// Built-in origins first, then files, then run-time ones; within a
    /// kind by lowercased label.
    pub fn sort_key(&self) -> (r: (u8, String))
        ensures
            r.0 == preset_origin_rank(*self),
            r.1@ == lower_seq(preset_origin_label(*self)),
    {
        let kind: u8 = match self {
            PresetOrigin::BuiltIn => 0,
            PresetOrigin::File { .. } => 1,
            PresetOrigin::Runtime { .. } => 2,
        };
        let label = chars_of(self.label());
        let lowered = lower_chars(&label);
        (kind, string_of(&lowered))
    }
}

/// The risk a preset runs with: never below what it declares, and never
/// below what the classifier finds for its command.
pub open spec fn preset_effective_risk(declared: RiskLevel, command: Seq<char>) -> RiskLevel {
    stricter_of(declared, command_risk(command))
}

impl Preset {
    /// A preset without a timeout hint.
    pub fn new(
        name: &str,
        command: &str,
        declared_risk: RiskLevel,
        categories: Vec<String>,
        origin: PresetOrigin,
    ) -> (r: Self)
        ensures
            r.name@ == name@,
            r.command@ == command@,
            r.declared_risk == declared_risk,
            r.risk == preset_effective_risk(declared_risk, command@),
            r.origin == origin,
            r.categories == categories,
            r.timeout_secs is None,
    {
        Self::new_with_timeout(name, command, declared_risk, categories, origin, None)
    }

    /// A preset; its risk is the stricter of `declared_risk` and the
    /// classifier's risk for `command`.
    pub fn new_with_timeout(
        name: &str,
        command: &str,
        declared_risk: RiskLevel,
        categories: Vec<String>,
        origin: PresetOrigin,
        timeout_secs: Option<u64>,
    ) -> (r: Self)
        ensures
            r.name@ == name@,
            r.command@ == command@,
            r.declared_risk == declared_risk,
            r.risk == preset_effective_risk(declared_risk, command@),
            r.origin == origin,
            r.categories == categories,
            r.timeout_secs == timeout_secs,
    {
        let classified = classify_direct_command(command);
        Preset {
            name: name.to_owned(),
            command: command.to_owned(),
            declared_risk,
            risk: declared_risk.stricter(classified.risk),
            origin,
            categories,
            timeout_secs,
        }
    }

    /// A one-off preset for a command typed by the user, declared at the
    /// classifier's own risk.
    pub fn ad_hoc(command: &str) -> (r: Self)
        ensures
            r.name@ == "ad-hoc"@,
            r.command@ == command@,
            r.declared_risk == command_risk(command@),
            r.risk == command_risk(command@),
            r.origin matches PresetOrigin::Runtime { label } && label@ == "ad-hoc"@,
            r.categories@.len() == 1 && r.categories@[0]@ == "ad-hoc"@,
            r.timeout_secs is None,
    {
        let declared = classify_direct_command(command).risk;
        let mut categories: Vec<String> = Vec::new();
        categories.push("ad-hoc".to_owned());
        let r = Self::new("ad-hoc", command, declared, categories, PresetOrigin::runtime("ad-hoc"));
        proof {
            crate::at::risk::law_stricter_idempotent_and_safe_neutral(declared);
        }
        r
    }
}

/// A preset's effective risk is never below its declared risk nor below the
/// classifier's risk for its command, and it is one of the two.
pub proof fn law_preset_risk_never_downgraded(declared: RiskLevel, command: Seq<char>)
    ensures
        rank(preset_effective_risk(declared, command)) >= rank(declared),
        rank(preset_effective_risk(declared, command)) >= rank(command_risk(command)),
        preset_effective_risk(declared, command) == declared || preset_effective_risk(
            declared,
            command,
        ) == command_risk(command),
{
}

} // verus!
