//! The summary builder: turn the completed per-player aggregator state and
//! the resolved ability-name cache into the final ordered report. Per player
//! it yields the avoidable-death count, the rank sum and count over all
//! tracked deaths (their quotient is the average rank, zero for a player with
//! no deaths), the early-death count (rank at most three), and the ordered
//! detail list with ability names resolved. Players are ordered by
//! avoidable-death count descending, ties broken by name ascending.

use vstd::prelude::*;

use crate::aggregate::{Aggregator, DetailV, PlayerEntry, PlayerEntryV};
use crate::config::Config;
use crate::text::{lex_lt, lemma_lex_lt_total, lemma_lex_lt_transitive, spec_unknown_label};
use crate::text::{str_lt, unknown_label, lemma_lex_lt_irreflexive};

verus! {

/// One resolved avoidable-death detail of the final report.
pub struct DeathDetail {
    pub date: String,
    pub fight_id: u32,
    pub death_order: usize,
    pub out_of: usize,
    pub ability_name: String,
}

/// Abstract value of a [`DeathDetail`].
pub ghost struct DeathDetailV {
    pub date: Seq<char>,
    pub fight_id: u32,
    pub death_order: usize,
    pub out_of: usize,
    pub ability_name: Seq<char>,
}

impl View for DeathDetail {
    type V = DeathDetailV;

    open spec fn view(&self) -> DeathDetailV {
        DeathDetailV {
            date: self.date@,
            fight_id: self.fight_id,
            death_order: self.death_order,
            out_of: self.out_of,
            ability_name: self.ability_name@,
        }
    }
}

/// The final summary of one player. The average rank over all tracked deaths
/// is `death_order_sum / death_count`, and zero when `death_count` is zero.
pub struct PlayerResult {
    pub name: String,
    pub bad_deaths: usize,
    pub death_order_sum: u128,
    pub death_count: usize,
    pub early_deaths: usize,
    pub details: Vec<DeathDetail>,
}

/// Abstract value of a [`PlayerResult`].
pub ghost struct PlayerResultV {
    pub name: Seq<char>,
    pub bad_deaths: usize,
    pub death_order_sum: u128,
    pub death_count: usize,
    pub early_deaths: usize,
    pub details: Seq<DeathDetailV>,
}

impl View for PlayerResult {
    type V = PlayerResultV;

    open spec fn view(&self) -> PlayerResultV {
        PlayerResultV {
            name: self.name@,
            bad_deaths: self.bad_deaths,
            death_order_sum: self.death_order_sum,
            death_count: self.death_count,
            early_deaths: self.early_deaths,
            details: self.details@.map_values(|d: DeathDetail| d@),
        }
    }
}

/// The whole report: every player seen in a processed attempt, ordered.
pub struct AnalyzeResponse {
    pub players: Vec<PlayerResult>,
}

/// One configured encounter, as listed to callers.
pub struct EncounterInfo {
    pub id: u32,
    pub name: String,
}

/// The list of configured encounters.
pub struct EncountersResponse {
    pub encounters: Vec<EncounterInfo>,
}

/// The resolved name for an ability identifier, if the cache holds one
/// (first match wins).
pub open spec fn spec_lookup_ability(names: Seq<(u32, String)>, id: u32) -> Option<Seq<char>>
    decreases names.len(),
{
    if names.len() == 0 {
        None
    } else if names[0].0 == id {
        Some(names[0].1@)
    } else {
        spec_lookup_ability(names.drop_first(), id)
    }
}

/// The display label for an ability identifier: its resolved name, or the
/// synthetic `Unknown(<id>)` label when resolution failed.
pub open spec fn spec_ability_label(names: Seq<(u32, String)>, id: u32) -> Seq<char> {
    match spec_lookup_ability(names, id) {
        Some(n) => n,
        None => spec_unknown_label(id as int),
    }
}

/// Look an ability identifier up in the resolved-name cache.
pub fn lookup_ability<'a>(names: &'a Vec<(u32, String)>, id: u32) -> (r: Option<&'a String>)
    ensures
        match r {
            Some(n) => spec_lookup_ability(names@, id) == Some(n@),
            None => spec_lookup_ability(names@, id) is None,
        },
{
    let mut i: usize = 0;
    proof {
        assert(names@.skip(0) =~= names@);
    }
    while i < names.len()
        invariant
            i <= names@.len(),
            spec_lookup_ability(names@, id) == spec_lookup_ability(names@.skip(i as int), id),
        decreases names@.len() - i,
    {
        proof {
            assert(names@.skip(i as int)[0] == names@[i as int]);
            assert(names@.skip(i as int).drop_first() =~= names@.skip(i as int + 1));
        }
        if names[i].0 == id {
            return Some(&names[i].1);
        }
        i = i + 1;
    }
    None
}

/// Render the display label for an ability identifier.
pub fn ability_label(names: &Vec<(u32, String)>, id: u32) -> (r: String)
    ensures
        r@ == spec_ability_label(names@, id),
{
    match lookup_ability(names, id) {
        Some(n) => n.clone(),
        None => unknown_label(id),
    }
}

/// Sum of all ranks of a player's tracked deaths.
pub open spec fn sum_orders(orders: Seq<usize>) -> int
    decreases orders.len(),
{
    if orders.len() == 0 {
        0
    } else {
        sum_orders(orders.drop_last()) + orders.last()
    }
}

/// Number of early deaths: tracked deaths with rank at most three.
pub open spec fn count_early(orders: Seq<usize>) -> int
    decreases orders.len(),
{
    if orders.len() == 0 {
        0
    } else {
        count_early(orders.drop_last()) + if orders.last() <= 3 {
            1int
        } else {
            0int
        }
    }
}

/// A resolved detail record: the aggregator's detail with the ability
/// identifier replaced by its display label.
pub open spec fn spec_detail_out(d: DetailV, names: Seq<(u32, String)>) -> DeathDetailV {
    DeathDetailV {
        date: d.date,
        fight_id: d.fight_id,
        death_order: d.death_order,
        out_of: d.out_of,
        ability_name: spec_ability_label(names, d.ability_id),
    }
}

/// The summary of one player computed from their aggregator entry.
pub open spec fn spec_player_result(e: PlayerEntryV, names: Seq<(u32, String)>) -> PlayerResultV {
    PlayerResultV {
        name: e.name,
        bad_deaths: e.bad.len() as usize,
        death_order_sum: sum_orders(e.orders) as u128,
        death_count: e.orders.len() as usize,
        early_deaths: count_early(e.orders) as usize,
        details: e.bad.map_values(|d: DetailV| spec_detail_out(d, names)),
    }
}

proof fn lemma_count_early_bound(orders: Seq<usize>)
    ensures
        0 <= count_early(orders) <= orders.len(),
    decreases orders.len(),
{
    if orders.len() > 0 {
        lemma_count_early_bound(orders.drop_last());
    }
}

/// Build the (unsorted) summary of one player.
fn player_result_of(e: &PlayerEntry, names: &Vec<(u32, String)>) -> (r: PlayerResult)
    ensures
        r@ == spec_player_result(e@, names@),
{
    let mut sum: u128 = 0;
    let mut early: usize = 0;
    let mut i: usize = 0;
    let ghost max: u128 = usize::MAX as u128;
    proof {
        assert(e.orders@.subrange(0, 0) =~= Seq::<usize>::empty());
    }
    while i < e.orders.len()
        invariant
            i <= e.orders@.len(),
            sum == sum_orders(e.orders@.subrange(0, i as int)),
            sum <= (i as u128) * max,
            early == count_early(e.orders@.subrange(0, i as int)),
            early <= i,
            max == usize::MAX as u128,
        decreases e.orders@.len() - i,
    {
        let o = e.orders[i];
        proof {
            let pre = e.orders@.subrange(0, i as int);
            let post = e.orders@.subrange(0, i as int + 1);
            assert(post.drop_last() =~= pre);
            assert(post.last() == e.orders@[i as int]);
            assert(sum + o <= (i as u128) * max + max);
            assert((i as u128) * max + max == (i + 1) as u128 * max) by (nonlinear_arith);
            assert((i + 1) as u128 * max <= max * max) by (nonlinear_arith)
                requires
                    (i + 1) as u128 <= max,
            ;
            assert(max <= 0xFFFF_FFFF_FFFF_FFFFu128);
            assert(max * max < u128::MAX) by (nonlinear_arith)
                requires
                    max <= 0xFFFF_FFFF_FFFF_FFFFu128,
            ;
        }
        sum = sum + (o as u128);
        if o <= 3 {
            early = early + 1;
        }
        i = i + 1;
    }
    proof {
        assert(e.orders@.subrange(0, e.orders@.len() as int) =~= e.orders@);
    }
    let mut details: Vec<DeathDetail> = Vec::new();
    let mut j: usize = 0;
    while j < e.bad.len()
        invariant
            j <= e.bad@.len(),
            details@.len() == j,
            forall|k: int|
                0 <= k < j ==> details@[k]@ == spec_detail_out(e.bad@[k]@, names@),
        decreases e.bad@.len() - j,
    {
        let d = &e.bad[j];
        details.push(
            DeathDetail {
                date: d.date.clone(),
                fight_id: d.fight_id,
                death_order: d.death_order,
                out_of: d.out_of,
                ability_name: ability_label(names, d.ability_id),
            },
        );
        j = j + 1;
    }
    let r = PlayerResult {
        name: e.name.clone(),
        bad_deaths: e.bad.len(),
        death_order_sum: sum,
        death_count: e.orders.len(),
        early_deaths: early,
        details,
    };
    proof {
        lemma_count_early_bound(e.orders@);
        assert(r@.details =~= spec_player_result(e@, names@).details);
    }
    r
}

/// The firm ordering contract of the report: primary key avoidable-death
/// count, descending; tie-break player name, ascending, case-sensitive.
pub open spec fn result_before(a: PlayerResultV, b: PlayerResultV) -> bool {
    a.bad_deaths > b.bad_deaths || (a.bad_deaths == b.bad_deaths && lex_lt(a.name, b.name))
}

/// No later entry strictly precedes an earlier one.
pub open spec fn sorted_results(s: Seq<PlayerResultV>) -> bool {
    forall|i: int, j: int| 0 <= i < j < s.len() ==> !result_before(s[j], s[i])
}

/// Insert `e` directly after the last entry that does not come strictly
/// after it.
pub open spec fn insert_result(s: Seq<PlayerResultV>, e: PlayerResultV) -> Seq<PlayerResultV>
    decreases s.len(),
{
    if s.len() == 0 {
        seq![e]
    } else if !result_before(e, s.last()) {
        s.push(e)
    } else {
        insert_result(s.drop_last(), e).push(s.last())
    }
}

/// Sort the player summaries by the report order, stably.
pub open spec fn spec_sort_results(s: Seq<PlayerResultV>) -> Seq<PlayerResultV>
    decreases s.len(),
{
    if s.len() == 0 {
        Seq::empty()
    } else {
        insert_result(spec_sort_results(s.drop_last()), s.last())
    }
}

/// The final report for a completed aggregator state: each entry summarized,
/// then ordered by avoidable-death count descending and name ascending.
pub open spec fn spec_build_summary(
    entries: Seq<PlayerEntryV>,
    names: Seq<(u32, String)>,
) -> Seq<PlayerResultV> {
    spec_sort_results(entries.map_values(|e: PlayerEntryV| spec_player_result(e, names)))
}

/// Whether `a` comes strictly before `b` in the report order.
fn result_before_exec(a: &PlayerResult, b: &PlayerResult) -> (r: bool)
    ensures
        r == result_before(a@, b@),
{
    a.bad_deaths > b.bad_deaths || (a.bad_deaths == b.bad_deaths && str_lt(
        a.name.as_str(),
        b.name.as_str(),
    ))
}

proof fn lemma_insert_result_at(s: Seq<PlayerResultV>, e: PlayerResultV, j: int)
    requires
        0 <= j <= s.len(),
        forall|k: int| j <= k < s.len() ==> result_before(e, s[k]),
        j > 0 ==> !result_before(e, s[j - 1]),
    ensures
        insert_result(s, e) == s.insert(j, e),
    decreases s.len(),
{
    if s.len() == 0 {
        assert(insert_result(s, e) =~= s.insert(0, e));
    } else if j == s.len() {
        assert(!result_before(e, s.last()));
        assert(s.push(e) =~= s.insert(j, e));
    } else {
        assert(result_before(e, s[s.len() - 1]));
        let d = s.drop_last();
        lemma_insert_result_at(d, e, j);
        assert(d.insert(j, e).push(s.last()) =~= s.insert(j, e));
    }
}

/// Insert one summary into an already-ordered vector at its stable position.
fn vec_insert_result(v: &mut Vec<PlayerResult>, e: PlayerResult)
    ensures
        final(v)@.map_values(|p: PlayerResult| p@) == insert_result(
            old(v)@.map_values(|p: PlayerResult| p@),
            e@,
        ),
{
    let ghost s0 = v@.map_values(|p: PlayerResult| p@);
    let mut j: usize = v.len();
    while j > 0 && result_before_exec(&e, &v[j - 1])
        invariant
            j <= v@.len(),
            v@.map_values(|p: PlayerResult| p@) == s0,
            forall|k: int| j <= k < s0.len() ==> result_before(e@, s0[k]),
        decreases j,
    {
        j = j - 1;
    }
    proof {
        lemma_insert_result_at(s0, e@, j as int);
    }
    v.insert(j, e);
    proof {
        assert(v@.map_values(|p: PlayerResult| p@) =~= s0.insert(j as int, e@));
    }
}

/// Build the final report from the aggregator state and the resolved
/// ability-name cache.
pub fn build_summary(agg: &Aggregator, names: &Vec<(u32, String)>) -> (r: AnalyzeResponse)
    ensures
        r.players@.map_values(|p: PlayerResult| p@) == spec_build_summary(agg@, names@),
{
    let ghost f = |e: PlayerEntryV| spec_player_result(e, names@);
    let mut out: Vec<PlayerResult> = Vec::new();
    let mut i: usize = 0;
    proof {
        assert(agg@.subrange(0, 0).map_values(f) =~= Seq::<PlayerResultV>::empty());
        assert(out@.map_values(|p: PlayerResult| p@) =~= Seq::<PlayerResultV>::empty());
    }
    while i < agg.players.len()
        invariant
            i <= agg.players@.len(),
            agg@.len() == agg.players@.len(),
            f == (|e: PlayerEntryV| spec_player_result(e, names@)),
            out@.map_values(|p: PlayerResult| p@) == spec_sort_results(
                agg@.subrange(0, i as int).map_values(f),
            ),
        decreases agg.players@.len() - i,
    {
        let pr = player_result_of(&agg.players[i], names);
        proof {
            assert(agg@[i as int] == agg.players@[i as int]@);
            assert(pr@ == f(agg@[i as int]));
            let pre = agg@.subrange(0, i as int).map_values(f);
            let post = agg@.subrange(0, i as int + 1).map_values(f);
            assert(agg@.subrange(0, i as int + 1).drop_last() =~= agg@.subrange(0, i as int));
            assert(post.drop_last() =~= pre) by {
                assert(post.len() == i + 1);
                assert(forall|k: int|
                    0 <= k < i as int ==> post[k] == f(agg@.subrange(0, i as int + 1)[k]));
                assert(forall|k: int|
                    0 <= k < i as int ==> pre[k] == f(agg@.subrange(0, i as int)[k]));
            }
            assert(post.last() == f(agg@[i as int]));
            assert(spec_sort_results(post) == insert_result(spec_sort_results(pre), pr@));
        }
        vec_insert_result(&mut out, pr);
        i = i + 1;
    }
    proof {
        assert(agg@.subrange(0, agg@.len() as int) =~= agg@);
    }
    AnalyzeResponse { players: out }
}

proof fn lemma_before_asym(x: PlayerResultV, y: PlayerResultV)
    requires
        result_before(x, y),
    ensures
        !result_before(y, x),
{
    if result_before(y, x) {
        if x.bad_deaths == y.bad_deaths {
            lemma_lex_lt_transitive(x.name, y.name, x.name);
            lemma_lex_lt_irreflexive(x.name);
        }
    }
}

proof fn lemma_not_before_trans(x: PlayerResultV, y: PlayerResultV, z: PlayerResultV)
    requires
        !result_before(x, y),
        !result_before(y, z),
    ensures
        !result_before(x, z),
{
    if result_before(x, z) {
        assert(x.bad_deaths <= y.bad_deaths && y.bad_deaths <= z.bad_deaths);
        assert(x.bad_deaths == y.bad_deaths && y.bad_deaths == z.bad_deaths);
        assert(lex_lt(x.name, z.name));
        assert(!lex_lt(x.name, y.name));
        assert(!lex_lt(y.name, z.name));
        if x.name == y.name {
            assert(lex_lt(y.name, z.name));
        } else {
            lemma_lex_lt_total(x.name, y.name);
            assert(lex_lt(y.name, x.name));
            lemma_lex_lt_transitive(y.name, x.name, z.name);
        }
    }
}

proof fn lemma_insert_result_multiset(s: Seq<PlayerResultV>, e: PlayerResultV)
    ensures
        insert_result(s, e).to_multiset() == s.to_multiset().insert(e),
    decreases s.len(),
{
    broadcast use vstd::seq_lib::group_to_multiset_ensures;

    if s.len() == 0 {
        assert(insert_result(s, e) =~= Seq::<PlayerResultV>::empty().push(e));
        assert(Seq::<PlayerResultV>::empty().push(e).to_multiset() =~= s.to_multiset().insert(e));
    } else if !result_before(e, s.last()) {
        assert(s.push(e).to_multiset() =~= s.to_multiset().insert(e));
    } else {
        let d = s.drop_last();
        lemma_insert_result_multiset(d, e);
        assert(d.push(s.last()) =~= s);
        assert(insert_result(d, e).push(s.last()).to_multiset() =~= insert_result(
            d,
            e,
        ).to_multiset().insert(s.last()));
        assert(d.to_multiset().insert(e).insert(s.last()) =~= d.to_multiset().insert(
            s.last(),
        ).insert(e));
        assert(d.push(s.last()).to_multiset() =~= d.to_multiset().insert(s.last()));
    }
}

/// Sorting the summaries drops, adds and duplicates none of them.
pub proof fn lemma_sort_results_multiset(s: Seq<PlayerResultV>)
    ensures
        spec_sort_results(s).to_multiset() == s.to_multiset(),
        spec_sort_results(s).len() == s.len(),
    decreases s.len(),
{
    broadcast use vstd::seq_lib::group_to_multiset_ensures;

    if s.len() == 0 {
        assert(spec_sort_results(s).to_multiset() =~= s.to_multiset());
    } else {
        let d = s.drop_last();
        lemma_sort_results_multiset(d);
        lemma_insert_result_multiset(spec_sort_results(d), s.last());
        assert(d.push(s.last()) =~= s);
        assert(d.push(s.last()).to_multiset() =~= d.to_multiset().insert(s.last()));
    }
    assert(spec_sort_results(s).len() == spec_sort_results(s).to_multiset().len());
    assert(s.len() == s.to_multiset().len());
}

proof fn lemma_insert_result_sorted(s: Seq<PlayerResultV>, e: PlayerResultV)
    requires
        sorted_results(s),
    ensures
        sorted_results(insert_result(s, e)),
    decreases s.len(),
{
    broadcast use vstd::seq_lib::group_to_multiset_ensures;

    if s.len() == 0 {
    } else if !result_before(e, s.last()) {
        let r = s.push(e);
        assert forall|i: int, j: int| 0 <= i < j < r.len() implies !result_before(
            r[j],
            r[i],
        ) by {
            if j == s.len() {
                if i < s.len() - 1 {
                    assert(!result_before(s.last(), s[i]));
                    lemma_not_before_trans(e, s.last(), s[i]);
                }
            }
        }
    } else {
        let d = s.drop_last();
        assert(sorted_results(d)) by {
            assert(forall|k: int| 0 <= k < d.len() ==> d[k] == s[k]);
        }
        lemma_insert_result_sorted(d, e);
        let t = insert_result(d, e);
        lemma_insert_result_multiset(d, e);
        assert forall|i: int| 0 <= i < t.len() implies !result_before(s.last(), t[i]) by {
            assert(t.to_multiset().count(t[i]) > 0);
            if t[i] == e {
                lemma_before_asym(e, s.last());
            } else {
                assert(d.to_multiset().count(t[i]) > 0);
                assert(d.contains(t[i]));
                let w = choose|w: int| 0 <= w < d.len() && d[w] == t[i];
                assert(!result_before(s[s.len() - 1], s[w]));
            }
        }
        let r = t.push(s.last());
        assert forall|i: int, j: int| 0 <= i < j < r.len() implies !result_before(
            r[j],
            r[i],
        ) by {
            assert(forall|k: int| 0 <= k < t.len() ==> r[k] == t[k]);
            assert(r[r.len() - 1] == s.last());
        }
    }
}

/// The final report is ordered: by avoidable-death count descending, ties by
/// player name ascending.
pub proof fn lemma_summary_sorted(entries: Seq<PlayerEntryV>, names: Seq<(u32, String)>)
    ensures
        sorted_results(spec_build_summary(entries, names)),
{
    let mapped = entries.map_values(|e: PlayerEntryV| spec_player_result(e, names));
    lemma_sort_results_sorted(mapped);
}

proof fn lemma_sort_results_sorted(s: Seq<PlayerResultV>)
    ensures
        sorted_results(spec_sort_results(s)),
    decreases s.len(),
{
    if s.len() > 0 {
        lemma_sort_results_sorted(s.drop_last());
        lemma_insert_result_sorted(spec_sort_results(s.drop_last()), s.last());
    }
}

/// Sort stability of the report order: of two players with equally many
/// avoidable deaths, the one with the lexically smaller name appears first.
pub proof fn lemma_summary_tie_break(
    entries: Seq<PlayerEntryV>,
    names: Seq<(u32, String)>,
    i: int,
    j: int,
)
    requires
        0 <= i < j < spec_build_summary(entries, names).len(),
        spec_build_summary(entries, names)[i].bad_deaths == spec_build_summary(entries, names)[j].bad_deaths,
        spec_build_summary(entries, names)[i].name != spec_build_summary(entries, names)[j].name,
    ensures
        lex_lt(
            spec_build_summary(entries, names)[i].name,
            spec_build_summary(entries, names)[j].name,
        ),
{
    let s = spec_build_summary(entries, names);
    lemma_summary_sorted(entries, names);
    assert(!result_before(s[j], s[i]));
    lemma_lex_lt_total(s[i].name, s[j].name);
}

/// A player with zero tracked deaths reports zero avoidable deaths, a zero
/// rank sum and count (hence an average of zero), zero early deaths, and an
/// empty detail list.
pub proof fn lemma_zero_deaths_zero_stats(e: PlayerEntryV, names: Seq<(u32, String)>)
    requires
        e.orders.len() == 0,
        e.bad.len() <= e.orders.len(),
    ensures
        spec_player_result(e, names).bad_deaths == 0,
        spec_player_result(e, names).death_order_sum == 0,
        spec_player_result(e, names).death_count == 0,
        spec_player_result(e, names).early_deaths == 0,
        spec_player_result(e, names).details.len() == 0,
{
}

/// The player universe reaches the report: every aggregator entry — in
/// particular one for a player with zero deaths — appears in the final
/// summary under its name.
pub proof fn lemma_summary_universe(
    entries: Seq<PlayerEntryV>,
    names: Seq<(u32, String)>,
    k: int,
)
    requires
        0 <= k < entries.len(),
    ensures
        exists|j: int|
            0 <= j < spec_build_summary(entries, names).len() && spec_build_summary(
                entries,
                names,
            )[j].name == entries[k].name,
{
    broadcast use vstd::seq_lib::group_to_multiset_ensures;

    let mapped = entries.map_values(|e: PlayerEntryV| spec_player_result(e, names));
    let sorted = spec_sort_results(mapped);
    lemma_sort_results_multiset(mapped);
    assert(mapped[k] == spec_player_result(entries[k], names));
    assert(mapped.contains(mapped[k]));
    assert(mapped.to_multiset().count(mapped[k]) > 0);
    assert(sorted.to_multiset().count(mapped[k]) > 0);
    assert(sorted.contains(mapped[k]));
    let j = choose|j: int| 0 <= j < sorted.len() && sorted[j] == mapped[k];
    assert(sorted == spec_build_summary(entries, names));
    assert(0 <= j < spec_build_summary(entries, names).len() && spec_build_summary(
        entries,
        names,
    )[j].name == entries[k].name);
}

/// The pipeline is a function of its input data: building the summary twice
/// from the same aggregator state and name cache yields the same report.
/// Together with the `ensures` of every processing step (each result equals a
/// spec function of its inputs), re-running a whole analysis on identical
/// input data reproduces the report exactly.
pub proof fn lemma_summary_idempotent(
    entries: Seq<PlayerEntryV>,
    names: Seq<(u32, String)>,
    r1: Seq<PlayerResultV>,
    r2: Seq<PlayerResultV>,
)
    requires
        r1 == spec_build_summary(entries, names),
        r2 == spec_build_summary(entries, names),
    ensures
        r1 == r2,
{
}

/// List the configured encounters, in configuration order.
pub fn list_encounters(config: &Config) -> (r: EncountersResponse)
    ensures
        r.encounters@.len() == config.encounter@.len(),
        forall|i: int|
            0 <= i < config.encounter@.len() ==> (#[trigger] r.encounters@[i]).id
                == config.encounter@[i].id && r.encounters@[i].name@ == config.encounter@[i].name@,
{
    let mut out: Vec<EncounterInfo> = Vec::new();
    let mut i: usize = 0;
    while i < config.encounter.len()
        invariant
            i <= config.encounter@.len(),
            out@.len() == i,
            forall|j: int|
                0 <= j < i ==> (#[trigger] out@[j]).id == config.encounter@[j].id
                    && out@[j].name@ == config.encounter@[j].name@,
        decreases config.encounter@.len() - i,
    {
        let e = &config.encounter[i];
        out.push(EncounterInfo { id: e.id, name: e.name.clone() });
        i = i + 1;
    }
    EncountersResponse { encounters: out }
}

} // verus!
