//! Checks on presets gathered from several sources.
use vstd::prelude::*;

use crate::error::AtctlError;
use crate::presets::model::{preset_origin_id, Preset};

verus! {

broadcast use vstd::string::group_string_axioms;

/// Whether the names of `presets` are pairwise distinct.
pub open spec fn preset_names_unique(presets: Seq<Preset>) -> bool {
    forall|i: int, j: int| 0 <= i < j < presets.len() ==> presets[i].name@ != presets[j].name@
}

/// Fails on the first preset whose name an earlier one already has, naming
/// both sources.
pub fn validate_unique_preset_names(presets: &[Preset]) -> (r: Result<(), AtctlError>)
    ensures
        r is Ok <==> preset_names_unique(presets@),
        r matches Err(e) ==> exists|i: int, j: int|
            0 <= i < j < presets@.len() && presets@[i].name@ == presets@[j].name@
                && preset_names_unique(presets@.take(j)) && (e matches AtctlError::DuplicatePreset {
                name,
                first_source,
                duplicate_source,
            } && name@ == presets@[j].name@ && first_source@ == preset_origin_id(
                presets@[i].origin,
            ) && duplicate_source@ == preset_origin_id(presets@[j].origin)),
{
    let mut j: usize = 0;
    while j < presets.len()
        invariant
            j <= presets.len(),
            preset_names_unique(presets@.take(j as int)),
        decreases presets.len() - j,
    {
        let mut i: usize = 0;
        while i < j
            invariant
                i <= j < presets.len(),
                preset_names_unique(presets@.take(j as int)),
                forall|k: int| 0 <= k < i ==> presets@[k].name@ != presets@[j as int].name@,
            decreases j - i,
        {
            if presets[i].name == presets[j].name {
                let first_source = presets[i].origin.id();
                let duplicate_source = presets[j].origin.id();
                return Err(
                    AtctlError::DuplicatePreset {
                        name: presets[j].name.clone(),
                        first_source,
                        duplicate_source,
                    },
                );
            }
            i += 1;
        }
        proof {
            assert forall|a: int, b: int| 0 <= a < b < j + 1 implies #[trigger] presets@.take(j + 1)[a].name@
                != #[trigger] presets@.take(j + 1)[b].name@ by {
                if b < j {
                    assert(presets@.take(j as int)[a] == presets@[a]);
                    assert(presets@.take(j as int)[b] == presets@[b]);
                }
            }
        }
        j += 1;
    }
    assert(presets@.take(j as int) =~= presets@);
    Ok(())
}

} // verus!
