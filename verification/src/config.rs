//! Static analysis configuration: the set of known encounters, each with the
//! ability identifiers whose deaths the raid team has classified as avoidable.

use vstd::prelude::*;

verus! {

/// Configuration for one encounter: its identifier, a display name, and the
/// set of "avoidable" ability identifiers, kept in the order they were listed.
pub struct EncounterConfig {
    pub id: u32,
    pub name: String,
    pub bad_abilities: Vec<u32>,
}

/// The whole configuration: one entry per known encounter.
pub struct Config {
    pub encounter: Vec<EncounterConfig>,
}

impl EncounterConfig {
    /// Whether a killing ability is in this encounter's avoidable set.
    pub fn is_bad_ability(&self, ability_id: u32) -> (r: bool)
        ensures
            r == self.bad_abilities@.contains(ability_id),
    {
        let mut i: usize = 0;
        while i < self.bad_abilities.len()
            invariant
                i <= self.bad_abilities@.len(),
                forall|j: int| 0 <= j < i ==> self.bad_abilities@[j] != ability_id,
            decreases self.bad_abilities@.len() - i,
        {
            if self.bad_abilities[i] == ability_id {
                return true;
            }
            i = i + 1;
        }
        false
    }
}

/// Index of the first encounter entry with the requested identifier, if any.
pub open spec fn spec_find_encounter(entries: Seq<EncounterConfig>, id: u32) -> Option<int> {
    if exists|i: int| 0 <= i < entries.len() && entries[i].id == id {
        Some(choose|i: int| 0 <= i < entries.len() && entries[i].id == id && forall|j: int|
            0 <= j < i ==> entries[j].id != id)
    } else {
        None
    }
}

impl Config {
    /// Look up the configuration entry for an encounter identifier.
    ///
    /// Returns `Some` exactly when some entry carries the identifier, and then
    /// hands back the first such entry; a run for an unconfigured encounter is
    /// rejected before any data is fetched.
    pub fn find_encounter(&self, id: u32) -> (r: Option<&EncounterConfig>)
        ensures
            r is Some <==> exists|i: int|
                0 <= i < self.encounter@.len() && self.encounter@[i].id == id,
            r matches Some(e) ==> exists|i: int|
                {
                    &&& 0 <= i < self.encounter@.len()
                    &&& self.encounter@[i].id == id
                    &&& *e == self.encounter@[i]
                    &&& forall|j: int| 0 <= j < i ==> self.encounter@[j].id != id
                },
    {
        let mut i: usize = 0;
        while i < self.encounter.len()
            invariant
                i <= self.encounter@.len(),
                forall|j: int| 0 <= j < i ==> self.encounter@[j].id != id,
            decreases self.encounter@.len() - i,
        {
            if self.encounter[i].id == id {
                return Some(&self.encounter[i]);
            }
            i = i + 1;
        }
        None
    }
}

} // verus!
