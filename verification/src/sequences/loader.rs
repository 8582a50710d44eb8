//! Checks on sequence definitions read from sequence files, and on
//! sequences gathered from several sources.
use vstd::prelude::*;

use crate::error::AtctlError;
use crate::sequences::definition::{
    definitions_into_sequences, sequence_from_definition, SequenceDefinition,
};
use crate::sequences::model::{sequence_origin_id, Sequence, SequenceOrigin, SequenceStep};
use crate::text::{chars_of, contains_seq, contains_str, eq_str, push_str, string_of, trim, trim_str};

verus! {

broadcast use vstd::string::group_string_axioms;

pub open spec fn ping_ok_message() -> Seq<char> {
    "require_ping_success must use expect_urc containing \"+QPING:\", not expect = \"OK\", because AT+QPING returns result lines after the command-accepted OK"@
}

pub open spec fn ping_urc_message() -> Seq<char> {
    "require_ping_success requires expect_urc containing \"+QPING:\" so the step waits for ping result lines"@
}

pub open spec fn tcp_ack_message() -> Seq<char> {
    "require_tcp_ack requires expect or expect_urc containing \"+QISEND:\" so the step reads acknowledgement counters"@
}

/// Whether an optional marker is present and contains `p`.
pub open spec fn opt_contains(o: Option<String>, p: Seq<char>) -> bool {
    match o {
        Some(s) => contains_seq(s@, p),
        None => false,
    }
}

/// Whether an optional marker is present and is `OK` once trimmed.
pub open spec fn opt_is_ok(o: Option<String>) -> bool {
    match o {
        Some(s) => trim(s@) == "OK"@,
        None => false,
    }
}

/// What is wrong with how a step decides that it completed: a ping check
/// must wait for the ping result lines, and a TCP acknowledgement check
/// must read the send counters.
pub open spec fn step_contract_violation(step: SequenceStep) -> Option<Seq<char>> {
    if step.require_ping_success && opt_is_ok(step.expect) {
        Some(ping_ok_message())
    } else if step.require_ping_success && !opt_contains(step.expect_urc, "+QPING:"@) {
        Some(ping_urc_message())
    } else if step.require_tcp_ack && !(opt_contains(step.expect, "+QISEND:"@) || opt_contains(
        step.expect_urc,
        "+QISEND:"@,
    )) {
        Some(tcp_ack_message())
    } else {
        None
    }
}

/// The message for a step whose completion contract is broken.
pub open spec fn step_violation_text(sequence: Seq<char>, step: Seq<char>, message: Seq<char>) -> Seq<
    char,
> {
    "invalid Sequence `"@ + sequence + "` step `"@ + step + "`: "@ + message
}

fn opt_contains_exec(o: &Option<String>, p: &str) -> (b: bool)
    ensures
        b == opt_contains(*o, p@),
{
    match o {
        Some(s) => contains_str(&chars_of(s.as_str()), p),
        None => false,
    }
}

fn opt_is_ok_exec(o: &Option<String>) -> (b: bool)
    ensures
        b == opt_is_ok(*o),
{
    match o {
        Some(s) => eq_str(&trim_str(s.as_str()), "OK"),
        None => false,
    }
}

/// Checks the completion contract of one step of the named sequence.
pub fn validate_step_completion_contract(sequence_name: &str, step: &SequenceStep) -> (r: Result<
    (),
    String,
>)
    ensures
        match step_contract_violation(*step) {
            None => r is Ok,
            Some(m) => r matches Err(e) && e@ == step_violation_text(sequence_name@, step.id@, m),
        },
{
    let message: &str = if step.require_ping_success && opt_is_ok_exec(&step.expect) {
        "require_ping_success must use expect_urc containing \"+QPING:\", not expect = \"OK\", because AT+QPING returns result lines after the command-accepted OK"
    } else if step.require_ping_success && !opt_contains_exec(&step.expect_urc, "+QPING:") {
        "require_ping_success requires expect_urc containing \"+QPING:\" so the step waits for ping result lines"
    } else if step.require_tcp_ack && !(opt_contains_exec(&step.expect, "+QISEND:")
        || opt_contains_exec(&step.expect_urc, "+QISEND:")) {
        "require_tcp_ack requires expect or expect_urc containing \"+QISEND:\" so the step reads acknowledgement counters"
    } else {
        return Ok(());
    };
    let mut v = chars_of("invalid Sequence `");
    push_str(&mut v, sequence_name);
    push_str(&mut v, "` step `");
    push_str(&mut v, step.id.as_str());
    push_str(&mut v, "`: ");
    push_str(&mut v, message);
    Err(string_of(&v))
}

/// The first step, in file order, whose completion contract is broken.
pub open spec fn first_violation_in(defs: Seq<SequenceDefinition>) -> Option<Seq<char>>
    decreases defs.len(),
{
    if defs.len() == 0 {
        None
    } else {
        match first_violation_in(defs.drop_last()) {
            Some(m) => Some(m),
            None => first_step_violation(defs.last().name@, defs.last().steps@),
        }
    }
}

/// The first step of a sequence whose completion contract is broken.
pub open spec fn first_step_violation(name: Seq<char>, steps: Seq<SequenceStep>) -> Option<Seq<char>>
    decreases steps.len(),
{
    if steps.len() == 0 {
        None
    } else {
        match first_step_violation(name, steps.drop_last()) {
            Some(m) => Some(m),
            None => match step_contract_violation(steps.last()) {
                Some(m) => Some(step_violation_text(name, steps.last().id@, m)),
                None => None,
            },
        }
    }
}

/// A violation found in a prefix of the steps is the first one of all.
pub proof fn lemma_first_step_violation_prefix(name: Seq<char>, steps: Seq<SequenceStep>, k: int)
    requires
        0 <= k <= steps.len(),
        first_step_violation(name, steps.take(k)) is Some,
    ensures
        first_step_violation(name, steps) == first_step_violation(name, steps.take(k)),
    decreases steps.len() - k,
{
    if k < steps.len() {
        assert(steps.take(k + 1).drop_last() =~= steps.take(k));
        lemma_first_step_violation_prefix(name, steps, k + 1);
    } else {
        assert(steps.take(k) =~= steps);
    }
}

/// A violation found in a prefix of the definitions is the first one of
/// all.
pub proof fn lemma_first_violation_prefix(defs: Seq<SequenceDefinition>, k: int)
    requires
        0 <= k <= defs.len(),
        first_violation_in(defs.take(k)) is Some,
    ensures
        first_violation_in(defs) == first_violation_in(defs.take(k)),
    decreases defs.len() - k,
{
    if k < defs.len() {
        assert(defs.take(k + 1).drop_last() =~= defs.take(k));
        lemma_first_violation_prefix(defs, k + 1);
    } else {
        assert(defs.take(k) =~= defs);
    }
}

fn validate_sequence_steps(def: &SequenceDefinition) -> (r: Result<(), String>)
    ensures
        match first_step_violation(def.name@, def.steps@) {
            None => r is Ok,
            Some(m) => r matches Err(e) && e@ == m,
        },
{
    let mut j: usize = 0;
    while j < def.steps.len()
        invariant
            j <= def.steps.len(),
            first_step_violation(def.name@, def.steps@.take(j as int)) is None,
        decreases def.steps.len() - j,
    {
        assert(def.steps@.take(j + 1).drop_last() =~= def.steps@.take(j as int));
        let checked = validate_step_completion_contract(def.name.as_str(), &def.steps[j]);
        if checked.is_err() {
            proof {
                lemma_first_step_violation_prefix(def.name@, def.steps@, j + 1);
            }
            return checked;
        }
        j += 1;
    }
    assert(def.steps@.take(j as int) =~= def.steps@);
    Ok(())
}

/// Checks every step of every definition, in file order.
pub fn validate_sequence_definitions(defs: &[SequenceDefinition]) -> (r: Result<(), String>)
    ensures
        match first_violation_in(defs@) {
            None => r is Ok,
            Some(m) => r matches Err(e) && e@ == m,
        },
{
    let mut i: usize = 0;
    while i < defs.len()
        invariant
            i <= defs.len(),
            first_violation_in(defs@.take(i as int)) is None,
        decreases defs.len() - i,
    {
        assert(defs@.take(i + 1).drop_last() =~= defs@.take(i as int));
        let checked = validate_sequence_steps(&defs[i]);
        if checked.is_err() {
            proof {
                lemma_first_violation_prefix(defs@, i + 1);
            }
            return checked;
        }
        i += 1;
    }
    assert(defs@.take(i as int) =~= defs@);
    Ok(())
}

/// The sequences of one sequence file: its definitions checked, then
/// turned into sequences with the file as their origin.
pub fn sequences_from_file_definitions(
    title: &str,
    description: Option<String>,
    origin_path: &str,
    definitions: Vec<SequenceDefinition>,
) -> (r: Result<Vec<Sequence>, String>)
    ensures
        match first_violation_in(definitions@) {
            Some(m) => r matches Err(e) && e@ == m,
            None => r matches Ok(s) && s.len() == definitions.len() && forall|i: int|
                0 <= i < s.len() ==> sequence_from_definition(
                    #[trigger] s@[i],
                    definitions@[i],
                    SequenceOrigin::File {
                        title: s@[i].origin->File_title,
                        path: s@[i].origin->File_path,
                        description,
                    },
                ) && s@[i].origin->File_title@ == title@ && s@[i].origin->File_path@
                    == origin_path@,
        },
{
    validate_sequence_definitions(definitions.as_slice())?;
    let origin = SequenceOrigin::file(title, origin_path, description);
    Ok(definitions_into_sequences(definitions, origin))
}

/// Whether the names of `sequences` are pairwise distinct.
pub open spec fn sequence_names_unique(sequences: Seq<Sequence>) -> bool {
    forall|i: int, j: int| 0 <= i < j < sequences.len() ==> sequences[i].name@ != sequences[j].name@
}

/// Fails on the first sequence whose name an earlier one already has,
/// naming both sources.
pub fn validate_unique_sequence_names(sequences: &[Sequence]) -> (r: Result<(), AtctlError>)
    ensures
        r is Ok <==> sequence_names_unique(sequences@),
        r matches Err(e) ==> exists|i: int, j: int|
            0 <= i < j < sequences@.len() && sequences@[i].name@ == sequences@[j].name@
                && sequence_names_unique(sequences@.take(j)) && (e matches AtctlError::DuplicateSequence {
                name,
                first_source,
                duplicate_source,
            } && name@ == sequences@[j].name@ && first_source@ == sequence_origin_id(
                sequences@[i].origin,
            ) && duplicate_source@ == sequence_origin_id(sequences@[j].origin)),
{
    let mut j: usize = 0;
    while j < sequences.len()
        invariant
            j <= sequences.len(),
            sequence_names_unique(sequences@.take(j as int)),
        decreases sequences.len() - j,
    {
        let mut i: usize = 0;
        while i < j
            invariant
                i <= j < sequences.len(),
                sequence_names_unique(sequences@.take(j as int)),
                forall|k: int| 0 <= k < i ==> sequences@[k].name@ != sequences@[j as int].name@,
            decreases j - i,
        {
            if sequences[i].name == sequences[j].name {
                let first_source = sequences[i].origin.id();
                let duplicate_source = sequences[j].origin.id();
                return Err(
                    AtctlError::DuplicateSequence {
                        name: sequences[j].name.clone(),
                        first_source,
                        duplicate_source,
                    },
                );
            }
            i += 1;
        }
        proof {
            assert forall|a: int, b: int| 0 <= a < b < j + 1 implies #[trigger] sequences@.take(
                j + 1,
            )[a].name@ != #[trigger] sequences@.take(j + 1)[b].name@ by {
                if b < j {
                    assert(sequences@.take(j as int)[a] == sequences@[a]);
                    assert(sequences@.take(j as int)[b] == sequences@[b]);
                }
            }
        }
        j += 1;
    }
    assert(sequences@.take(j as int) =~= sequences@);
    Ok(())
}

} // verus!
