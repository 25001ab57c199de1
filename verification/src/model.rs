//! Data model of a combat log: actors, fights (encounter attempts), and death
//! events. Timestamps are milliseconds within a report, and identifiers are
//! plain integers, exactly as the log service reports them.

use vstd::prelude::*;

verus! {

/// One actor of a report: a session-scoped identifier, a display name, and a
/// category. Only actors whose category is `"Player"` take part in ranking.
pub struct Actor {
    pub id: i32,
    pub name: String,
    pub actor_type: String,
    pub sub_type: String,
}

/// Outcome recorded for a fight once it concluded. A fight whose record
/// carries no outcome at all is in progress or invalid and is never counted.
#[derive(Clone, Copy, PartialEq, Eq, Structural)]
pub enum Outcome {
    NotRecorded,
    Kill,
    Wipe,
}

/// One fight of a report: identifier, target-encounter identifier, start and
/// end timestamps in milliseconds, the recorded outcome, an optional
/// difficulty, and the roster of friendly participants present at the start.
pub struct Fight {
    pub id: u32,
    pub name: String,
    pub encounter_id: u32,
    pub start_time: u64,
    pub end_time: u64,
    pub outcome: Outcome,
    pub difficulty: Option<u32>,
    pub friendly_players: Vec<i32>,
}

impl Fight {
    /// A fight is a countable encounter attempt exactly when its encounter
    /// identifier is nonzero (zero marks trash segments) and an outcome was
    /// recorded for it (kill or wipe, but not absent).
    pub fn is_real_encounter(&self) -> (r: bool)
        ensures
            r == (self.encounter_id != 0 && self.outcome != Outcome::NotRecorded),
    {
        self.encounter_id != 0 && !matches!(self.outcome, Outcome::NotRecorded)
    }
}

/// Whether a fight is a countable attempt of the target encounter: a real
/// encounter attempt (nonzero encounter, outcome recorded) of that encounter.
/// A trash segment (encounter identifier zero) is excluded regardless of its
/// outcome flag.
pub open spec fn spec_is_relevant(f: Fight, encounter_id: u32) -> bool {
    f.encounter_id != 0 && f.outcome != Outcome::NotRecorded && f.encounter_id == encounter_id
}

/// The indices of the countable attempts of the target encounter, in report
/// order: exactly the fights that are real encounter attempts with the
/// requested encounter identifier.
pub fn relevant_fight_indices(fights: &Vec<Fight>, encounter_id: u32) -> (r: Vec<usize>)
    ensures
        forall|k: int|
            0 <= k < r@.len() ==> (#[trigger] r@[k]) < fights@.len() && spec_is_relevant(
                fights@[r@[k] as int],
                encounter_id,
            ),
        forall|k1: int, k2: int| 0 <= k1 < k2 < r@.len() ==> r@[k1] < r@[k2],
        forall|i: int|
            0 <= i < fights@.len() && spec_is_relevant(#[trigger] fights@[i], encounter_id)
                ==> r@.contains(i as usize),
{
    let mut out: Vec<usize> = Vec::new();
    let mut i: usize = 0;
    while i < fights.len()
        invariant
            i <= fights@.len(),
            forall|k: int|
                0 <= k < out@.len() ==> (#[trigger] out@[k]) < i && spec_is_relevant(
                    fights@[out@[k] as int],
                    encounter_id,
                ),
            forall|k1: int, k2: int| 0 <= k1 < k2 < out@.len() ==> out@[k1] < out@[k2],
            forall|j: int|
                0 <= j < i && spec_is_relevant(#[trigger] fights@[j], encounter_id)
                    ==> out@.contains(j as usize),
        decreases fights@.len() - i,
    {
        let f = &fights[i];
        let relevant = f.is_real_encounter() && f.encounter_id == encounter_id;
        let ghost pre = out@;
        if relevant {
            out.push(i);
        }
        proof {
            assert forall|j: int|
                0 <= j < i + 1 && spec_is_relevant(#[trigger] fights@[j], encounter_id)
                    implies out@.contains(j as usize) by {
                if j < i {
                    let w = choose|w: int| 0 <= w < pre.len() && pre[w] == j as usize;
                    assert(out@[w] == j as usize);
                } else {
                    assert(out@[out@.len() - 1] == i as usize);
                }
            }
        }
        i = i + 1;
    }
    out
}

/// One death event of a fight: when it happened, who died, who dealt the
/// killing blow, and — when the log attributes a cause — the identifier of
/// the killing ability. A death without an attributable cause can never be
/// classified avoidable, but still counts toward ordering statistics.
#[derive(Clone, Copy, PartialEq, Eq, Structural)]
pub struct DeathEvent {
    pub timestamp: u64,
    pub target_id: i32,
    pub killer_id: i32,
    pub killing_ability_game_id: Option<u32>,
    pub fight: u32,
}

/// One ranked death within a fight: the 1-based chronological order of the
/// death, the roster size it is reported out of, the actor who died, and the
/// killing-ability identifier when one was attributed.
#[derive(Clone, Copy, PartialEq, Eq, Structural)]
pub struct RankedDeath {
    pub order: usize,
    pub out_of: usize,
    pub target_id: i32,
    pub killing_ability_id: Option<u32>,
    pub timestamp_ms: u64,
}

} // verus!
