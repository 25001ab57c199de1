//! The cross-fight aggregator: folds every ranked, classified death across
//! every processed attempt and report into per-player running state. For each
//! avoidable death a detail record is appended to the owning player; for every
//! tracked death the rank is appended to the player's overall rank list; and
//! every roster member of a processed attempt gets an entry, deaths or not.

use vstd::prelude::*;

use crate::config::EncounterConfig;
use crate::model::{Actor, DeathEvent, Fight, RankedDeath};
use crate::ranker::{rank_deaths, spec_rank_deaths};

verus! {

/// One avoidable death of one player: when and where it happened, the rank it
/// carried, the roster-size denominator, and the killing ability.
pub struct DeathDetailRec {
    pub date: String,
    pub fight_id: u32,
    pub death_order: usize,
    pub out_of: usize,
    pub ability_id: u32,
}

/// Abstract value of a [`DeathDetailRec`].
pub ghost struct DetailV {
    pub date: Seq<char>,
    pub fight_id: u32,
    pub death_order: usize,
    pub out_of: usize,
    pub ability_id: u32,
}

impl View for DeathDetailRec {
    type V = DetailV;

    open spec fn view(&self) -> DetailV {
        DetailV {
            date: self.date@,
            fight_id: self.fight_id,
            death_order: self.death_order,
            out_of: self.out_of,
            ability_id: self.ability_id,
        }
    }
}

/// Running state of one player: the avoidable-death details in processing
/// order, and the rank of every tracked death (avoidable or not).
pub struct PlayerEntry {
    pub name: String,
    pub bad: Vec<DeathDetailRec>,
    pub orders: Vec<usize>,
}

/// Abstract value of a [`PlayerEntry`].
pub ghost struct PlayerEntryV {
    pub name: Seq<char>,
    pub bad: Seq<DetailV>,
    pub orders: Seq<usize>,
}

impl View for PlayerEntry {
    type V = PlayerEntryV;

    open spec fn view(&self) -> PlayerEntryV {
        PlayerEntryV {
            name: self.name@,
            bad: self.bad@.map_values(|d: DeathDetailRec| d@),
            orders: self.orders@,
        }
    }
}

/// The aggregator: one entry per player seen so far, in order of first
/// sighting. Entry names are unique.
pub struct Aggregator {
    pub players: Vec<PlayerEntry>,
}

impl View for Aggregator {
    type V = Seq<PlayerEntryV>;

    open spec fn view(&self) -> Seq<PlayerEntryV> {
        self.players@.map_values(|p: PlayerEntry| p@)
    }
}

/// Whether some entry carries this player name.
pub open spec fn has_player(s: Seq<PlayerEntryV>, name: Seq<char>) -> bool {
    exists|i: int| 0 <= i < s.len() && s[i].name == name
}

/// Well-formed aggregator state: entry names are unique, and no player has
/// more avoidable-death details than tracked deaths (each detail is recorded
/// together with a rank).
pub open spec fn wf_entries(s: Seq<PlayerEntryV>) -> bool {
    &&& forall|i: int, j: int| 0 <= i < j < s.len() ==> s[i].name != s[j].name
    &&& forall|i: int| 0 <= i < s.len() ==> (#[trigger] s[i].bad).len() <= s[i].orders.len()
}

/// Every recorded detail names an ability of the avoidable set.
pub open spec fn details_from(s: Seq<PlayerEntryV>, bad: Seq<u32>) -> bool {
    forall|i: int, j: int|
        0 <= i < s.len() && 0 <= j < s[i].bad.len() ==> bad.contains(
            (#[trigger] s[i].bad[j]).ability_id,
        )
}

/// A fresh entry holding one tracked death.
pub open spec fn new_entry_v(name: Seq<char>, order: usize, det: Option<DetailV>) -> PlayerEntryV {
    PlayerEntryV {
        name,
        bad: match det {
            Some(d) => seq![d],
            None => Seq::empty(),
        },
        orders: seq![order],
    }
}

/// An existing entry with one more tracked death appended.
pub open spec fn updated_entry_v(e: PlayerEntryV, order: usize, det: Option<DetailV>) -> PlayerEntryV {
    PlayerEntryV {
        name: e.name,
        bad: match det {
            Some(d) => e.bad.push(d),
            None => e.bad,
        },
        orders: e.orders.push(order),
    }
}

/// Record one tracked death for `name`: append the rank (and the detail, for
/// an avoidable death) to the player's entry, creating the entry on the first
/// death observed for that player.
pub open spec fn spec_record_death(
    s: Seq<PlayerEntryV>,
    name: Seq<char>,
    order: usize,
    det: Option<DetailV>,
) -> Seq<PlayerEntryV>
    decreases s.len(),
{
    if s.len() == 0 {
        seq![new_entry_v(name, order, det)]
    } else if s[0].name == name {
        seq![updated_entry_v(s[0], order, det)] + s.drop_first()
    } else {
        seq![s[0]] + spec_record_death(s.drop_first(), name, order, det)
    }
}

/// Ensure an entry exists for a roster member, with no deaths yet.
pub open spec fn spec_register_player(s: Seq<PlayerEntryV>, name: Seq<char>) -> Seq<PlayerEntryV> {
    if has_player(s, name) {
        s
    } else {
        s.push(PlayerEntryV { name, bad: Seq::empty(), orders: Seq::empty() })
    }
}

/// The display name of the player actor with this identifier, if any. When an
/// identifier occurs more than once, the last record wins.
pub open spec fn spec_resolve_name(actors: Seq<Actor>, id: i32) -> Option<Seq<char>>
    decreases actors.len(),
{
    if actors.len() == 0 {
        None
    } else if actors.last().id == id && actors.last().actor_type@ == "Player"@ {
        Some(actors.last().name@)
    } else {
        spec_resolve_name(actors.drop_last(), id)
    }
}

/// Register every roster member that resolves to a player name; identifiers
/// of non-player or unknown actors are ignored.
pub open spec fn spec_register_roster(
    s: Seq<PlayerEntryV>,
    roster: Seq<i32>,
    actors: Seq<Actor>,
) -> Seq<PlayerEntryV>
    decreases roster.len(),
{
    if roster.len() == 0 {
        s
    } else {
        let s1 = match spec_resolve_name(actors, roster[0]) {
            Some(n) => spec_register_player(s, n),
            None => s,
        };
        spec_register_roster(s1, roster.drop_first(), actors)
    }
}

/// The detail record of a ranked death, when and only when the death carries
/// a killing ability that is in the avoidable set.
pub open spec fn spec_detail_of(
    rd: RankedDeath,
    date: Seq<char>,
    fight_id: u32,
    bad: Seq<u32>,
) -> Option<DetailV> {
    match rd.killing_ability_id {
        Some(a) => if bad.contains(a) {
            Some(
                DetailV {
                    date,
                    fight_id,
                    death_order: rd.order,
                    out_of: rd.out_of,
                    ability_id: a,
                },
            )
        } else {
            None
        },
        None => None,
    }
}

/// Fold one attempt's ranked deaths into the state, in rank order. A death
/// whose actor resolves to no player name contributes nothing.
pub open spec fn spec_process_ranked(
    s: Seq<PlayerEntryV>,
    ranked: Seq<RankedDeath>,
    actors: Seq<Actor>,
    date: Seq<char>,
    fight_id: u32,
    bad: Seq<u32>,
) -> Seq<PlayerEntryV>
    decreases ranked.len(),
{
    if ranked.len() == 0 {
        s
    } else {
        let rd = ranked[0];
        let s1 = match spec_resolve_name(actors, rd.target_id) {
            Some(n) => spec_record_death(s, n, rd.order, spec_detail_of(rd, date, fight_id, bad)),
            None => s,
        };
        spec_process_ranked(s1, ranked.drop_first(), actors, date, fight_id, bad)
    }
}

/// Fold one attempt into the state: register its roster, then its ranked and
/// classified deaths.
pub open spec fn spec_process_fight(
    s: Seq<PlayerEntryV>,
    fight: Fight,
    deaths: Seq<DeathEvent>,
    actors: Seq<Actor>,
    date: Seq<char>,
    bad: Seq<u32>,
) -> Seq<PlayerEntryV> {
    let s1 = spec_register_roster(s, fight.friendly_players@, actors);
    spec_process_ranked(
        s1,
        spec_rank_deaths(deaths, fight.friendly_players@),
        actors,
        date,
        fight.id,
        bad,
    )
}

/// Index of the entry for `name`, scanning from the front.
fn find_player(players: &Vec<PlayerEntry>, name: &String) -> (r: Option<usize>)
    ensures
        match r {
            Some(i) => i < players@.len() && players@[i as int]@.name == name@ && forall|j: int|
                0 <= j < i ==> players@[j]@.name != name@,
            None => forall|j: int| 0 <= j < players@.len() ==> players@[j]@.name != name@,
        },
{
    let mut i: usize = 0;
    while i < players.len()
        invariant
            i <= players@.len(),
            forall|j: int| 0 <= j < i ==> players@[j]@.name != name@,
        decreases players@.len() - i,
    {
        if players[i].name == *name {
            return Some(i);
        }
        i = i + 1;
    }
    None
}

/// Resolve an actor identifier against the report's actor list: the display
/// name of the matching `"Player"` actor, the last record winning.
pub fn resolve_name<'a>(actors: &'a Vec<Actor>, id: i32) -> (r: Option<&'a String>)
    ensures
        match r {
            Some(n) => spec_resolve_name(actors@, id) == Some(n@),
            None => spec_resolve_name(actors@, id) is None,
        },
{
    let player_label: String = "Player".to_owned();
    let mut i: usize = actors.len();
    proof {
        assert(actors@.subrange(0, actors@.len() as int) =~= actors@);
    }
    while i > 0
        invariant
            i <= actors@.len(),
            spec_resolve_name(actors@, id) == spec_resolve_name(
                actors@.subrange(0, i as int),
                id,
            ),
            player_label@ == "Player"@,
        decreases i,
    {
        proof {
            assert(actors@.subrange(0, i as int).last() == actors@[i as int - 1]);
            assert(actors@.subrange(0, i as int).drop_last() =~= actors@.subrange(
                0,
                i as int - 1,
            ));
        }
        let a = &actors[i - 1];
        if a.id == id && a.actor_type == player_label {
            return Some(&a.name);
        }
        i = i - 1;
    }
    None
}

proof fn lemma_record_death_found(
    s: Seq<PlayerEntryV>,
    name: Seq<char>,
    order: usize,
    det: Option<DetailV>,
    i: int,
)
    requires
        0 <= i < s.len(),
        s[i].name == name,
        forall|j: int| 0 <= j < i ==> s[j].name != name,
    ensures
        spec_record_death(s, name, order, det) == s.update(i, updated_entry_v(s[i], order, det)),
    decreases s.len(),
{
    if i == 0 {
        assert(seq![updated_entry_v(s[0], order, det)] + s.drop_first() =~= s.update(
            0,
            updated_entry_v(s[0], order, det),
        ));
    } else {
        lemma_record_death_found(s.drop_first(), name, order, det, i - 1);
        assert(s.drop_first()[i - 1] == s[i]);
        assert(seq![s[0]] + s.drop_first().update(i - 1, updated_entry_v(s[i], order, det))
            =~= s.update(i, updated_entry_v(s[i], order, det)));
    }
}

proof fn lemma_record_death_absent(
    s: Seq<PlayerEntryV>,
    name: Seq<char>,
    order: usize,
    det: Option<DetailV>,
)
    requires
        forall|j: int| 0 <= j < s.len() ==> s[j].name != name,
    ensures
        spec_record_death(s, name, order, det) == s.push(new_entry_v(name, order, det)),
    decreases s.len(),
{
    if s.len() == 0 {
        assert(seq![new_entry_v(name, order, det)] =~= s.push(new_entry_v(name, order, det)));
    } else {
        lemma_record_death_absent(s.drop_first(), name, order, det);
        assert(seq![s[0]] + s.drop_first().push(new_entry_v(name, order, det)) =~= s.push(
            new_entry_v(name, order, det),
        ));
    }
}

/// Recording a death touches exactly the named player's entry: names are kept
/// unique, details never outnumber ranks, and afterwards an entry exists for
/// a name exactly when one existed before or the name is the one recorded.
pub proof fn lemma_record_death_wf(
    s: Seq<PlayerEntryV>,
    name: Seq<char>,
    order: usize,
    det: Option<DetailV>,
)
    requires
        wf_entries(s),
    ensures
        wf_entries(spec_record_death(s, name, order, det)),
        forall|n: Seq<char>|
            has_player(spec_record_death(s, name, order, det), n) <==> (has_player(s, n) || n
                == name),
    decreases s.len(),
{
    let r = spec_record_death(s, name, order, det);
    if s.len() == 0 {
        assert(r =~= seq![new_entry_v(name, order, det)]);
        assert(r.len() == 1);
        assert(r[0].name == name);
        assert forall|n: Seq<char>| has_player(r, n) <==> (has_player(s, n) || n == name) by {
            if has_player(r, n) {
                let w = choose|w: int| 0 <= w < r.len() && r[w].name == n;
                assert(w == 0);
            }
            if n == name {
                assert(r[0].name == n);
            }
        }
    } else if s[0].name == name {
        assert forall|n: Seq<char>| has_player(r, n) <==> (has_player(s, n) || n == name) by {
            assert(r.len() == s.len());
            assert(forall|k: int| 0 <= k < s.len() ==> r[k].name == s[k].name);
            if has_player(s, n) {
                let w = choose|w: int| 0 <= w < s.len() && s[w].name == n;
                assert(r[w].name == n);
            }
            if has_player(r, n) {
                let w = choose|w: int| 0 <= w < r.len() && r[w].name == n;
                assert(s[w].name == n);
            }
        }
        assert(wf_entries(r)) by {
            assert(forall|k: int| 0 <= k < s.len() ==> r[k].name == s[k].name);
            assert(forall|k: int|
                1 <= k < s.len() ==> r[k] == s[k] && (#[trigger] r[k].bad).len()
                    <= r[k].orders.len());
            assert(r[0].bad.len() <= r[0].orders.len());
        }
    } else {
        let d = s.drop_first();
        assert(wf_entries(d)) by {
            assert(forall|k: int| 0 <= k < d.len() ==> d[k] == s[k + 1]);
        }
        lemma_record_death_wf(d, name, order, det);
        let rd = spec_record_death(d, name, order, det);
        assert(r =~= seq![s[0]] + rd);
        assert forall|n: Seq<char>| has_player(r, n) <==> (has_player(s, n) || n == name) by {
            assert(r[0] == s[0]);
            assert(forall|k: int| 0 <= k < rd.len() ==> r[k + 1] == rd[k]);
            assert(forall|k: int| 0 <= k < d.len() ==> d[k] == s[k + 1]);
            if has_player(r, n) {
                let w = choose|w: int| 0 <= w < r.len() && r[w].name == n;
                if w == 0 {
                    assert(s[0].name == n);
                    assert(has_player(s, n));
                } else {
                    assert(rd[w - 1].name == n);
                    assert(has_player(rd, n));
                    if has_player(d, n) {
                        let v = choose|v: int| 0 <= v < d.len() && d[v].name == n;
                        assert(s[v + 1].name == n);
                        assert(has_player(s, n));
                    }
                }
            }
            if has_player(s, n) {
                let w = choose|w: int| 0 <= w < s.len() && s[w].name == n;
                if w == 0 {
                    assert(r[0].name == n);
                    assert(has_player(r, n));
                } else {
                    assert(d[w - 1].name == n);
                    assert(has_player(d, n));
                    assert(has_player(rd, n));
                    let u = choose|u: int| 0 <= u < rd.len() && rd[u].name == n;
                    assert(r[u + 1].name == n);
                    assert(has_player(r, n));
                }
            }
            if n == name {
                assert(has_player(rd, n));
                let u = choose|u: int| 0 <= u < rd.len() && rd[u].name == n;
                assert(r[u + 1].name == n);
                assert(has_player(r, n));
            }
        }
        assert(wf_entries(r)) by {
            assert(forall|k: int| 0 <= k < rd.len() ==> r[k + 1] == rd[k]);
            assert(r[0] == s[0]);
            assert(!has_player(d, s[0].name)) by {
                assert(forall|k: int| 0 <= k < d.len() ==> d[k] == s[k + 1]);
            }
            assert(!(s[0].name == name));
            assert(!has_player(rd, s[0].name));
            assert forall|i2: int, j2: int| 0 <= i2 < j2 < r.len() implies r[i2].name
                != r[j2].name by {
                if i2 == 0 {
                    assert(rd[j2 - 1].name != s[0].name) by {
                        if rd[j2 - 1].name == s[0].name {
                            assert(has_player(rd, s[0].name));
                        }
                    }
                } else {
                    assert(r[i2] == rd[i2 - 1] && r[j2] == rd[j2 - 1]);
                }
            }
            assert(forall|k: int|
                0 <= k < r.len() ==> (#[trigger] r[k].bad).len() <= r[k].orders.len());
        }
    }
}

/// Recording a death preserves the avoidable-set membership of all details,
/// provided the new detail (if any) names an avoidable ability.
pub proof fn lemma_record_death_details(
    s: Seq<PlayerEntryV>,
    name: Seq<char>,
    order: usize,
    det: Option<DetailV>,
    bad: Seq<u32>,
)
    requires
        details_from(s, bad),
        det matches Some(d) ==> bad.contains(d.ability_id),
    ensures
        details_from(spec_record_death(s, name, order, det), bad),
    decreases s.len(),
{
    let r = spec_record_death(s, name, order, det);
    if s.len() == 0 {
        assert forall|i: int, j: int|
            0 <= i < r.len() && 0 <= j < r[i].bad.len() implies bad.contains(
            (#[trigger] r[i].bad[j]).ability_id,
        ) by {
            assert(i == 0);
        }
    } else if s[0].name == name {
        assert forall|i: int, j: int|
            0 <= i < r.len() && 0 <= j < r[i].bad.len() implies bad.contains(
            (#[trigger] r[i].bad[j]).ability_id,
        ) by {
            if i == 0 {
                assert(s[0].bad.len() <= r[0].bad.len());
                if j < s[0].bad.len() {
                    assert(r[0].bad[j] == s[0].bad[j]);
                }
            } else {
                assert(r[i] == s[i]);
            }
        }
    } else {
        let d = s.drop_first();
        assert(details_from(d, bad)) by {
            assert(forall|k: int| 0 <= k < d.len() ==> d[k] == s[k + 1]);
        }
        lemma_record_death_details(d, name, order, det, bad);
        let rd = spec_record_death(d, name, order, det);
        assert forall|i: int, j: int|
            0 <= i < r.len() && 0 <= j < r[i].bad.len() implies bad.contains(
            (#[trigger] r[i].bad[j]).ability_id,
        ) by {
            assert(r =~= seq![s[0]] + rd);
            if i == 0 {
                assert(r[0] == s[0]);
            } else {
                assert(r[i] == rd[i - 1]);
            }
        }
    }
}

impl Aggregator {
    /// An aggregator with no players seen yet.
    pub fn new() -> (r: Aggregator)
        ensures
            r@ == Seq::<PlayerEntryV>::empty(),
            wf_entries(r@),
    {
        let r = Aggregator { players: Vec::new() };
        proof {
            assert(r@ =~= Seq::<PlayerEntryV>::empty());
        }
        r
    }

    /// Ensure an entry exists for this player name.
    fn register_player(&mut self, name: &String)
        ensures
            final(self)@ == spec_register_player(old(self)@, name@),
    {
        let ghost s0 = self@;
        match find_player(&self.players, name) {
            Some(i) => {
                proof {
                    assert(s0[i as int].name == name@);
                    assert(has_player(s0, name@));
                }
            },
            None => {
                proof {
                    assert(forall|j: int| 0 <= j < s0.len() ==> s0[j].name != name@);
                    assert(!has_player(s0, name@));
                }
                let entry = PlayerEntry { name: name.clone(), bad: Vec::new(), orders: Vec::new() };
                proof {
                    assert(entry@ == (PlayerEntryV {
                        name: name@,
                        bad: Seq::<DetailV>::empty(),
                        orders: Seq::<usize>::empty(),
                    })) by {
                        assert(entry@.bad =~= Seq::<DetailV>::empty());
                        assert(entry@.orders =~= Seq::<usize>::empty());
                    }
                }
                self.players.push(entry);
                proof {
                    assert(self@ =~= s0.push(
                        PlayerEntryV {
                            name: name@,
                            bad: Seq::<DetailV>::empty(),
                            orders: Seq::<usize>::empty(),
                        },
                    ));
                }
            },
        }
    }

    /// Record one tracked death: the rank always, the detail when the death
    /// was classified avoidable.
    fn record_death(&mut self, name: &String, order: usize, det: Option<DeathDetailRec>)
        ensures
            final(self)@ == spec_record_death(
                old(self)@,
                name@,
                order,
                match det {
                    Some(d) => Some(d@),
                    None => None,
                },
            ),
    {
        let ghost s0 = self@;
        let ghost dv: Option<DetailV> = match det {
            Some(ref d) => Some(d@),
            None => None,
        };
        match find_player(&self.players, name) {
            Some(i) => {
                let mut entry = self.players.remove(i);
                entry.orders.push(order);
                match det {
                    Some(d) => entry.bad.push(d),
                    None => (),
                }
                proof {
                    assert(entry@ == updated_entry_v(s0[i as int], order, dv)) by {
                        assert(entry@.bad =~= updated_entry_v(s0[i as int], order, dv).bad);
                        assert(entry@.orders =~= updated_entry_v(s0[i as int], order, dv).orders);
                    }
                }
                self.players.insert(i, entry);
                proof {
                    lemma_record_death_found(s0, name@, order, dv, i as int);
                    assert(self@ =~= s0.update(i as int, updated_entry_v(s0[i as int], order, dv)));
                }
            },
            None => {
                let entry = PlayerEntry {
                    name: name.clone(),
                    bad: match det {
                        Some(d) => vec![d],
                        None => Vec::new(),
                    },
                    orders: vec![order],
                };
                proof {
                    assert(entry@ == new_entry_v(name@, order, dv)) by {
                        assert(entry@.bad =~= new_entry_v(name@, order, dv).bad);
                        assert(entry@.orders =~= new_entry_v(name@, order, dv).orders);
                    }
                }
                self.players.push(entry);
                proof {
                    lemma_record_death_absent(s0, name@, order, dv);
                    assert(self@ =~= s0.push(new_entry_v(name@, order, dv)));
                }
            },
        }
    }

    /// Register every roster member of an attempt that resolves to a player
    /// name, so that players with zero deaths still reach the report.
    fn register_roster(&mut self, roster: &Vec<i32>, actors: &Vec<Actor>)
        ensures
            final(self)@ == spec_register_roster(old(self)@, roster@, actors@),
    {
        let ghost s0 = self@;
        let mut i: usize = 0;
        proof {
            assert(roster@.skip(0) =~= roster@);
        }
        while i < roster.len()
            invariant
                i <= roster@.len(),
                spec_register_roster(s0, roster@, actors@) == spec_register_roster(
                    self@,
                    roster@.skip(i as int),
                    actors@,
                ),
            decreases roster@.len() - i,
        {
            proof {
                assert(roster@.skip(i as int)[0] == roster@[i as int]);
                assert(roster@.skip(i as int).drop_first() =~= roster@.skip(i as int + 1));
            }
            match resolve_name(actors, roster[i]) {
                Some(n) => {
                    let n_owned = n.clone();
                    self.register_player(&n_owned);
                },
                None => (),
            }
            i = i + 1;
        }
        proof {
            assert(roster@.skip(roster@.len() as int) =~= Seq::<i32>::empty());
        }
    }

    /// Fold one countable attempt into the running state: register its
    /// roster, rank its deaths, classify each against the avoidable set, and
    /// record them in rank order.
    pub fn process_fight(
        &mut self,
        date: &String,
        fight: &Fight,
        deaths: &Vec<DeathEvent>,
        actors: &Vec<Actor>,
        cfg: &EncounterConfig,
    )
        ensures
            final(self)@ == spec_process_fight(
                old(self)@,
                *fight,
                deaths@,
                actors@,
                date@,
                cfg.bad_abilities@,
            ),
    {
        self.register_roster(&fight.friendly_players, actors);
        let ranked = rank_deaths(&fight.friendly_players, deaths);
        let ghost s1 = self@;
        let ghost rseq = ranked@;
        let mut i: usize = 0;
        proof {
            assert(rseq.skip(0) =~= rseq);
        }
        while i < ranked.len()
            invariant
                i <= rseq.len(),
                ranked@ == rseq,
                rseq == spec_rank_deaths(deaths@, fight.friendly_players@),
                spec_process_ranked(s1, rseq, actors@, date@, fight.id, cfg.bad_abilities@)
                    == spec_process_ranked(
                    self@,
                    rseq.skip(i as int),
                    actors@,
                    date@,
                    fight.id,
                    cfg.bad_abilities@,
                ),
            decreases rseq.len() - i,
        {
            proof {
                assert(rseq.skip(i as int)[0] == rseq[i as int]);
                assert(rseq.skip(i as int).drop_first() =~= rseq.skip(i as int + 1));
            }
            let rd = ranked[i];
            match resolve_name(actors, rd.target_id) {
                Some(n) => {
                    let n_owned = n.clone();
                    let det: Option<DeathDetailRec> = match rd.killing_ability_id {
                        Some(a) => {
                            if cfg.is_bad_ability(a) {
                                Some(
                                    DeathDetailRec {
                                        date: date.clone(),
                                        fight_id: fight.id,
                                        death_order: rd.order,
                                        out_of: rd.out_of,
                                        ability_id: a,
                                    },
                                )
                            } else {
                                None
                            }
                        },
                        None => None,
                    };
                    proof {
                        assert((match det {
                            Some(d) => Some(d@),
                            None => None,
                        }) == spec_detail_of(rd, date@, fight.id, cfg.bad_abilities@));
                    }
                    self.record_death(&n_owned, rd.order, det);
                },
                None => (),
            }
            i = i + 1;
        }
        proof {
            assert(rseq.skip(rseq.len() as int) =~= Seq::<RankedDeath>::empty());
        }
    }
}

/// Registering a player keeps the state well formed.
pub proof fn lemma_register_player_wf(s: Seq<PlayerEntryV>, name: Seq<char>)
    requires
        wf_entries(s),
    ensures
        wf_entries(spec_register_player(s, name)),
{
    if !has_player(s, name) {
        let r = s.push(PlayerEntryV { name, bad: Seq::empty(), orders: Seq::empty() });
        assert forall|i: int, j: int| 0 <= i < j < r.len() implies r[i].name != r[j].name by {
            if j == s.len() {
                if r[i].name == name {
                    assert(has_player(s, name));
                }
            }
        }
        assert(forall|i: int|
            0 <= i < r.len() ==> (#[trigger] r[i].bad).len() <= r[i].orders.len());
    }
}

/// Registering a roster keeps the state well formed.
pub proof fn lemma_register_roster_wf(s: Seq<PlayerEntryV>, roster: Seq<i32>, actors: Seq<Actor>)
    requires
        wf_entries(s),
    ensures
        wf_entries(spec_register_roster(s, roster, actors)),
    decreases roster.len(),
{
    if roster.len() > 0 {
        let s1 = match spec_resolve_name(actors, roster[0]) {
            Some(n) => spec_register_player(s, n),
            None => s,
        };
        match spec_resolve_name(actors, roster[0]) {
            Some(n) => lemma_register_player_wf(s, n),
            None => (),
        }
        lemma_register_roster_wf(s1, roster.drop_first(), actors);
    }
}

/// Processing ranked deaths keeps the state well formed.
pub proof fn lemma_process_ranked_wf(
    s: Seq<PlayerEntryV>,
    ranked: Seq<RankedDeath>,
    actors: Seq<Actor>,
    date: Seq<char>,
    fight_id: u32,
    bad: Seq<u32>,
)
    requires
        wf_entries(s),
    ensures
        wf_entries(spec_process_ranked(s, ranked, actors, date, fight_id, bad)),
    decreases ranked.len(),
{
    if ranked.len() > 0 {
        let rd = ranked[0];
        let s1 = match spec_resolve_name(actors, rd.target_id) {
            Some(n) => spec_record_death(s, n, rd.order, spec_detail_of(rd, date, fight_id, bad)),
            None => s,
        };
        match spec_resolve_name(actors, rd.target_id) {
            Some(n) => lemma_record_death_wf(
                s,
                n,
                rd.order,
                spec_detail_of(rd, date, fight_id, bad),
            ),
            None => (),
        }
        lemma_process_ranked_wf(s1, ranked.drop_first(), actors, date, fight_id, bad);
    }
}

/// Processing a fight keeps the state well formed: names stay unique and no
/// player's detail list outgrows their rank list.
pub proof fn lemma_process_fight_wf(
    s: Seq<PlayerEntryV>,
    fight: Fight,
    deaths: Seq<DeathEvent>,
    actors: Seq<Actor>,
    date: Seq<char>,
    bad: Seq<u32>,
)
    requires
        wf_entries(s),
    ensures
        wf_entries(spec_process_fight(s, fight, deaths, actors, date, bad)),
{
    lemma_register_roster_wf(s, fight.friendly_players@, actors);
    lemma_process_ranked_wf(
        spec_register_roster(s, fight.friendly_players@, actors),
        spec_rank_deaths(deaths, fight.friendly_players@),
        actors,
        date,
        fight.id,
        bad,
    );
}

proof fn lemma_record_death_preserves(
    s: Seq<PlayerEntryV>,
    name: Seq<char>,
    order: usize,
    det: Option<DetailV>,
    n: Seq<char>,
)
    requires
        has_player(s, n),
    ensures
        has_player(spec_record_death(s, name, order, det), n),
    decreases s.len(),
{
    let r = spec_record_death(s, name, order, det);
    if s.len() == 0 {
    } else if s[0].name == name {
        assert(r.len() == s.len());
        assert(forall|k: int| 0 <= k < s.len() ==> r[k].name == s[k].name);
        let w = choose|w: int| 0 <= w < s.len() && s[w].name == n;
        assert(r[w].name == n);
    } else {
        let d = s.drop_first();
        let rd = spec_record_death(d, name, order, det);
        assert(r =~= seq![s[0]] + rd);
        let w = choose|w: int| 0 <= w < s.len() && s[w].name == n;
        if w == 0 {
            assert(r[0].name == n);
        } else {
            assert(d[w - 1].name == n);
            assert(has_player(d, n));
            lemma_record_death_preserves(d, name, order, det, n);
            let u = choose|u: int| 0 <= u < rd.len() && rd[u].name == n;
            assert(r[u + 1].name == n);
        }
    }
}

proof fn lemma_register_player_has(s: Seq<PlayerEntryV>, m: Seq<char>, n: Seq<char>)
    requires
        has_player(s, n) || n == m,
    ensures
        has_player(spec_register_player(s, m), n),
{
    let r = spec_register_player(s, m);
    if has_player(s, n) {
        let w = choose|w: int| 0 <= w < s.len() && s[w].name == n;
        assert(r[w].name == n);
    } else {
        assert(!has_player(s, m));
        assert(r[s.len() as int].name == m);
    }
}

proof fn lemma_register_roster_preserves(
    s: Seq<PlayerEntryV>,
    roster: Seq<i32>,
    actors: Seq<Actor>,
    n: Seq<char>,
)
    requires
        has_player(s, n),
    ensures
        has_player(spec_register_roster(s, roster, actors), n),
    decreases roster.len(),
{
    if roster.len() > 0 {
        let s1 = match spec_resolve_name(actors, roster[0]) {
            Some(m) => spec_register_player(s, m),
            None => s,
        };
        match spec_resolve_name(actors, roster[0]) {
            Some(m) => lemma_register_player_has(s, m, n),
            None => (),
        }
        lemma_register_roster_preserves(s1, roster.drop_first(), actors, n);
    }
}

proof fn lemma_register_roster_has(
    s: Seq<PlayerEntryV>,
    roster: Seq<i32>,
    actors: Seq<Actor>,
    k: int,
    n: Seq<char>,
)
    requires
        0 <= k < roster.len(),
        spec_resolve_name(actors, roster[k]) == Some(n),
    ensures
        has_player(spec_register_roster(s, roster, actors), n),
    decreases roster.len(),
{
    let s1 = match spec_resolve_name(actors, roster[0]) {
        Some(m) => spec_register_player(s, m),
        None => s,
    };
    if k == 0 {
        lemma_register_player_has(s, n, n);
        lemma_register_roster_preserves(s1, roster.drop_first(), actors, n);
    } else {
        assert(roster.drop_first()[k - 1] == roster[k]);
        lemma_register_roster_has(s1, roster.drop_first(), actors, k - 1, n);
    }
}

proof fn lemma_process_ranked_preserves(
    s: Seq<PlayerEntryV>,
    ranked: Seq<RankedDeath>,
    actors: Seq<Actor>,
    date: Seq<char>,
    fight_id: u32,
    bad: Seq<u32>,
    n: Seq<char>,
)
    requires
        has_player(s, n),
    ensures
        has_player(spec_process_ranked(s, ranked, actors, date, fight_id, bad), n),
    decreases ranked.len(),
{
    if ranked.len() > 0 {
        let rd = ranked[0];
        let s1 = match spec_resolve_name(actors, rd.target_id) {
            Some(m) => spec_record_death(s, m, rd.order, spec_detail_of(rd, date, fight_id, bad)),
            None => s,
        };
        match spec_resolve_name(actors, rd.target_id) {
            Some(m) => lemma_record_death_preserves(
                s,
                m,
                rd.order,
                spec_detail_of(rd, date, fight_id, bad),
                n,
            ),
            None => (),
        }
        lemma_process_ranked_preserves(s1, ranked.drop_first(), actors, date, fight_id, bad, n);
    }
}

/// Whether the state has an entry for the player this actor identifier
/// resolves to (vacuously true for an identifier that resolves to none).
pub open spec fn resolved_has_player(s: Seq<PlayerEntryV>, actors: Seq<Actor>, id: i32) -> bool {
    match spec_resolve_name(actors, id) {
        Some(n) => has_player(s, n),
        None => true,
    }
}

/// The player universe: every roster member of a processed attempt that
/// resolves to a player name has an entry afterwards — deaths or not — and
/// no previously seen player is ever dropped.
pub proof fn lemma_process_fight_universe(
    s: Seq<PlayerEntryV>,
    fight: Fight,
    deaths: Seq<DeathEvent>,
    actors: Seq<Actor>,
    date: Seq<char>,
    bad: Seq<u32>,
)
    ensures
        forall|n: Seq<char>|
            has_player(s, n) ==> has_player(
                spec_process_fight(s, fight, deaths, actors, date, bad),
                n,
            ),
        forall|k: int|
            0 <= k < fight.friendly_players@.len() ==> resolved_has_player(
                spec_process_fight(s, fight, deaths, actors, date, bad),
                actors,
                #[trigger] fight.friendly_players@[k],
            ),
{
    let roster = fight.friendly_players@;
    let s1 = spec_register_roster(s, roster, actors);
    let ranked = spec_rank_deaths(deaths, roster);
    assert forall|n: Seq<char>| has_player(s, n) implies has_player(
        spec_process_fight(s, fight, deaths, actors, date, bad),
        n,
    ) by {
        lemma_register_roster_preserves(s, roster, actors, n);
        lemma_process_ranked_preserves(s1, ranked, actors, date, fight.id, bad, n);
    }
    assert forall|k: int| 0 <= k < roster.len() implies resolved_has_player(
        spec_process_fight(s, fight, deaths, actors, date, bad),
        actors,
        #[trigger] roster[k],
    ) by {
        match spec_resolve_name(actors, roster[k]) {
            Some(n) => {
                lemma_register_roster_has(s, roster, actors, k, n);
                lemma_process_ranked_preserves(s1, ranked, actors, date, fight.id, bad, n);
            },
            None => (),
        }
    }
}

/// Registering players adds no details.
pub proof fn lemma_register_roster_details(
    s: Seq<PlayerEntryV>,
    roster: Seq<i32>,
    actors: Seq<Actor>,
    bad: Seq<u32>,
)
    requires
        details_from(s, bad),
    ensures
        details_from(spec_register_roster(s, roster, actors), bad),
    decreases roster.len(),
{
    if roster.len() > 0 {
        let s1 = match spec_resolve_name(actors, roster[0]) {
            Some(n) => spec_register_player(s, n),
            None => s,
        };
        assert(details_from(s1, bad)) by {
            match spec_resolve_name(actors, roster[0]) {
                Some(n) => {
                    if !has_player(s, n) {
                        let r = s.push(
                            PlayerEntryV { name: n, bad: Seq::empty(), orders: Seq::empty() },
                        );
                        assert forall|i: int, j: int|
                            0 <= i < r.len() && 0 <= j < r[i].bad.len() implies bad.contains(
                            (#[trigger] r[i].bad[j]).ability_id,
                        ) by {
                            assert(i < s.len() && r[i] == s[i]);
                        }
                    }
                },
                None => (),
            }
        }
        lemma_register_roster_details(s1, roster.drop_first(), actors, bad);
    }
}

/// Processing ranked deaths records only details whose ability is avoidable.
pub proof fn lemma_process_ranked_details(
    s: Seq<PlayerEntryV>,
    ranked: Seq<RankedDeath>,
    actors: Seq<Actor>,
    date: Seq<char>,
    fight_id: u32,
    bad: Seq<u32>,
)
    requires
        details_from(s, bad),
    ensures
        details_from(spec_process_ranked(s, ranked, actors, date, fight_id, bad), bad),
    decreases ranked.len(),
{
    if ranked.len() > 0 {
        let rd = ranked[0];
        let s1 = match spec_resolve_name(actors, rd.target_id) {
            Some(n) => spec_record_death(s, n, rd.order, spec_detail_of(rd, date, fight_id, bad)),
            None => s,
        };
        match spec_resolve_name(actors, rd.target_id) {
            Some(n) => lemma_record_death_details(
                s,
                n,
                rd.order,
                spec_detail_of(rd, date, fight_id, bad),
                bad,
            ),
            None => (),
        }
        lemma_process_ranked_details(s1, ranked.drop_first(), actors, date, fight_id, bad);
    }
}

/// Every avoidable-death detail recorded by processing a fight names an
/// ability of the encounter's configured avoidable set.
pub proof fn lemma_process_fight_details(
    s: Seq<PlayerEntryV>,
    fight: Fight,
    deaths: Seq<DeathEvent>,
    actors: Seq<Actor>,
    date: Seq<char>,
    bad: Seq<u32>,
)
    requires
        details_from(s, bad),
    ensures
        details_from(spec_process_fight(s, fight, deaths, actors, date, bad), bad),
{
    lemma_register_roster_details(s, fight.friendly_players@, actors, bad);
    lemma_process_ranked_details(
        spec_register_roster(s, fight.friendly_players@, actors),
        spec_rank_deaths(deaths, fight.friendly_players@),
        actors,
        date,
        fight.id,
        bad,
    );
}

} // verus!
