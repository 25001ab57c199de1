//! The event filter and death ranker: restrict a fight's death events to the
//! tracked roster, order them by timestamp with ties resolved by original
//! input order, and assign each death its 1-based chronological rank together
//! with the roster-size denominator.

use vstd::prelude::*;

use crate::model::{DeathEvent, RankedDeath};

verus! {

/// The events of `events` whose dying actor is on the roster, in input order.
pub open spec fn spec_roster_filter(events: Seq<DeathEvent>, roster: Seq<i32>) -> Seq<
    DeathEvent,
> {
    events.filter(|e: DeathEvent| roster.contains(e.target_id))
}

proof fn lemma_roster_filter_push(s: Seq<DeathEvent>, roster: Seq<i32>, e: DeathEvent)
    ensures
        spec_roster_filter(s.push(e), roster) == if roster.contains(e.target_id) {
            spec_roster_filter(s, roster).push(e)
        } else {
            spec_roster_filter(s, roster)
        },
{
    reveal(Seq::filter);
    assert(s.push(e).drop_last() =~= s);
    assert(s.push(e).last() == e);
}

/// Whether `x` occurs in the roster vector.
pub fn roster_contains(roster: &Vec<i32>, x: i32) -> (r: bool)
    ensures
        r == roster@.contains(x),
{
    let mut i: usize = 0;
    while i < roster.len()
        invariant
            i <= roster@.len(),
            forall|j: int| 0 <= j < i ==> roster@[j] != x,
        decreases roster@.len() - i,
    {
        if roster[i] == x {
            return true;
        }
        i = i + 1;
    }
    false
}

/// Keep only deaths of tracked friendly players: events whose target actor is
/// not on the attempt's roster are dropped silently.
pub fn filter_player_deaths(roster: &Vec<i32>, events: &Vec<DeathEvent>) -> (r: Vec<DeathEvent>)
    ensures
        r@ == spec_roster_filter(events@, roster@),
{
    let mut out: Vec<DeathEvent> = Vec::new();
    let mut i: usize = 0;
    proof {
        assert(events@.subrange(0, 0).filter(|e: DeathEvent| roster@.contains(e.target_id))
            =~= Seq::<DeathEvent>::empty()) by {
            reveal(Seq::filter);
        }
    }
    while i < events.len()
        invariant
            i <= events@.len(),
            out@ == spec_roster_filter(events@.subrange(0, i as int), roster@),
        decreases events@.len() - i,
    {
        let e = events[i];
        if roster_contains(roster, e.target_id) {
            out.push(e);
        }
        proof {
            lemma_roster_filter_push(events@.subrange(0, i as int), roster@, e);
            assert(events@.subrange(0, i as int).push(e) =~= events@.subrange(0, i as int + 1));
        }
        i = i + 1;
    }
    proof {
        assert(events@.subrange(0, events@.len() as int) =~= events@);
    }
    out
}

/// Insert `e` into `s` directly after the last element whose timestamp is at
/// most `e`'s: the stable insertion position.
pub open spec fn insert_by_time(s: Seq<DeathEvent>, e: DeathEvent) -> Seq<DeathEvent>
    decreases s.len(),
{
    if s.len() == 0 {
        seq![e]
    } else if s.last().timestamp <= e.timestamp {
        s.push(e)
    } else {
        insert_by_time(s.drop_last(), e).push(s.last())
    }
}

/// Stable sort of death events by timestamp ascending: events with equal
/// timestamps keep their original relative order.
pub open spec fn sort_deaths_by_time(s: Seq<DeathEvent>) -> Seq<DeathEvent>
    decreases s.len(),
{
    if s.len() == 0 {
        Seq::empty()
    } else {
        insert_by_time(sort_deaths_by_time(s.drop_last()), s.last())
    }
}

/// Sorted by timestamp, ascending.
pub open spec fn sorted_by_time(s: Seq<DeathEvent>) -> bool {
    forall|i: int, j: int| 0 <= i <= j < s.len() ==> s[i].timestamp <= s[j].timestamp
}

proof fn lemma_insert_by_time_at(s: Seq<DeathEvent>, e: DeathEvent, j: int)
    requires
        0 <= j <= s.len(),
        forall|k: int| j <= k < s.len() ==> s[k].timestamp > e.timestamp,
        j > 0 ==> s[j - 1].timestamp <= e.timestamp,
    ensures
        insert_by_time(s, e) == s.insert(j, e),
    decreases s.len(),
{
    if s.len() == 0 {
        assert(insert_by_time(s, e) =~= s.insert(0, e));
    } else if j == s.len() {
        assert(s.last().timestamp <= e.timestamp);
        assert(s.push(e) =~= s.insert(j, e));
    } else {
        assert(s[s.len() - 1].timestamp > e.timestamp);
        let d = s.drop_last();
        lemma_insert_by_time_at(d, e, j);
        assert(d.insert(j, e).push(s.last()) =~= s.insert(j, e));
    }
}

/// Inserting adds exactly one occurrence of the new event.
pub proof fn lemma_insert_by_time_multiset(s: Seq<DeathEvent>, e: DeathEvent)
    ensures
        insert_by_time(s, e).to_multiset() == s.to_multiset().insert(e),
    decreases s.len(),
{
    broadcast use vstd::seq_lib::group_to_multiset_ensures;

    if s.len() == 0 {
        assert(insert_by_time(s, e) =~= Seq::<DeathEvent>::empty().push(e));
        assert(Seq::<DeathEvent>::empty().push(e).to_multiset() =~= s.to_multiset().insert(e));
    } else if s.last().timestamp <= e.timestamp {
        assert(s.push(e).to_multiset() =~= s.to_multiset().insert(e));
    } else {
        let d = s.drop_last();
        lemma_insert_by_time_multiset(d, e);
        assert(d.push(s.last()) =~= s);
        assert(insert_by_time(d, e).push(s.last()).to_multiset() =~= insert_by_time(
            d,
            e,
        ).to_multiset().insert(s.last()));
        assert(d.to_multiset().insert(e).insert(s.last()) =~= d.to_multiset().insert(
            s.last(),
        ).insert(e));
        assert(d.push(s.last()).to_multiset() =~= d.to_multiset().insert(s.last()));
    }
}

/// Sorting does not add, drop or duplicate events.
pub proof fn lemma_sort_deaths_multiset(s: Seq<DeathEvent>)
    ensures
        sort_deaths_by_time(s).to_multiset() == s.to_multiset(),
        sort_deaths_by_time(s).len() == s.len(),
    decreases s.len(),
{
    broadcast use vstd::seq_lib::group_to_multiset_ensures;

    if s.len() == 0 {
        assert(sort_deaths_by_time(s).to_multiset() =~= s.to_multiset());
    } else {
        let d = s.drop_last();
        lemma_sort_deaths_multiset(d);
        lemma_insert_by_time_multiset(sort_deaths_by_time(d), s.last());
        assert(d.push(s.last()) =~= s);
        assert(d.push(s.last()).to_multiset() =~= d.to_multiset().insert(s.last()));
    }
    assert(sort_deaths_by_time(s).len() == sort_deaths_by_time(s).to_multiset().len());
    assert(s.len() == s.to_multiset().len());
}

proof fn lemma_insert_by_time_sorted(s: Seq<DeathEvent>, e: DeathEvent)
    requires
        sorted_by_time(s),
    ensures
        sorted_by_time(insert_by_time(s, e)),
    decreases s.len(),
{
    broadcast use vstd::seq_lib::group_to_multiset_ensures;

    if s.len() == 0 {
    } else if s.last().timestamp <= e.timestamp {
        assert(forall|i: int|
            0 <= i < s.len() ==> #[trigger] s[i].timestamp <= s[s.len() - 1].timestamp);
    } else {
        let d = s.drop_last();
        assert(sorted_by_time(d)) by {
            assert(forall|i: int, j: int|
                0 <= i <= j < d.len() ==> d[i].timestamp == s[i].timestamp && d[j].timestamp
                    == s[j].timestamp);
        }
        lemma_insert_by_time_sorted(d, e);
        let t = insert_by_time(d, e);
        lemma_insert_by_time_multiset(d, e);
        // every element of `t` is `e` or an element of `d`, so none exceeds
        // the timestamp of `s.last()`
        assert(forall|i: int| 0 <= i < t.len() ==> t[i].timestamp <= s.last().timestamp) by {
            assert(forall|i: int| 0 <= i < t.len() ==> t.contains(t[i]));
            assert(forall|i: int|
                0 <= i < t.len() ==> t.to_multiset().count(#[trigger] t[i]) > 0);
            assert(forall|x: DeathEvent|
                d.to_multiset().count(x) > 0 ==> d.contains(x));
            assert(forall|k: int|
                0 <= k < d.len() ==> #[trigger] d[k].timestamp <= s.last().timestamp);
        }
        let r = t.push(s.last());
        assert(forall|i: int, j: int|
            0 <= i <= j < r.len() ==> r[i].timestamp <= r[j].timestamp) by {
            assert(forall|i: int| 0 <= i < t.len() ==> r[i] == t[i]);
            assert(r[r.len() - 1] == s.last());
        }
    }
}

/// The stable sort is sorted by timestamp.
pub proof fn lemma_sort_deaths_sorted(s: Seq<DeathEvent>)
    ensures
        sorted_by_time(sort_deaths_by_time(s)),
    decreases s.len(),
{
    if s.len() > 0 {
        lemma_sort_deaths_sorted(s.drop_last());
        lemma_insert_by_time_sorted(sort_deaths_by_time(s.drop_last()), s.last());
    }
}

/// Insert one event into an already-sorted vector at its stable position.
fn vec_insert_by_time(v: &mut Vec<DeathEvent>, e: DeathEvent)
    ensures
        final(v)@ == insert_by_time(old(v)@, e),
{
    let mut j: usize = v.len();
    while j > 0 && v[j - 1].timestamp > e.timestamp
        invariant
            j <= v@.len(),
            forall|k: int| j <= k < v@.len() ==> v@[k].timestamp > e.timestamp,
        decreases j,
    {
        j = j - 1;
    }
    v.insert(j, e);
    proof {
        lemma_insert_by_time_at(old(v)@, e, j as int);
    }
}

/// Stable sort of the events by timestamp ascending.
pub fn sort_deaths(events: &Vec<DeathEvent>) -> (r: Vec<DeathEvent>)
    ensures
        r@ == sort_deaths_by_time(events@),
{
    let mut out: Vec<DeathEvent> = Vec::new();
    let mut i: usize = 0;
    proof {
        assert(events@.subrange(0, 0) =~= Seq::<DeathEvent>::empty());
    }
    while i < events.len()
        invariant
            i <= events@.len(),
            out@ == sort_deaths_by_time(events@.subrange(0, i as int)),
        decreases events@.len() - i,
    {
        vec_insert_by_time(&mut out, events[i]);
        proof {
            let pre = events@.subrange(0, i as int);
            let post = events@.subrange(0, i as int + 1);
            assert(post.drop_last() =~= pre);
            assert(post.last() == events@[i as int]);
        }
        i = i + 1;
    }
    proof {
        assert(events@.subrange(0, events@.len() as int) =~= events@);
    }
    out
}

/// The ranked deaths of one attempt: roster-filtered events, stably sorted by
/// timestamp, the `i`-th (0-based) carrying rank `i + 1` and the attempt's
/// roster size as denominator.
pub open spec fn spec_rank_deaths(events: Seq<DeathEvent>, roster: Seq<i32>) -> Seq<RankedDeath> {
    let sorted = sort_deaths_by_time(spec_roster_filter(events, roster));
    Seq::new(
        sorted.len(),
        |i: int|
            RankedDeath {
                order: (i + 1) as usize,
                out_of: roster.len() as usize,
                target_id: sorted[i].target_id,
                killing_ability_id: sorted[i].killing_ability_game_id,
                timestamp_ms: sorted[i].timestamp,
            },
    )
}

/// Rank one attempt's deaths: filter to the roster, sort stably by timestamp,
/// and assign 1-based ranks out of the roster size.
pub fn rank_deaths(roster: &Vec<i32>, events: &Vec<DeathEvent>) -> (r: Vec<RankedDeath>)
    ensures
        r@ == spec_rank_deaths(events@, roster@),
{
    let filtered = filter_player_deaths(roster, events);
    let sorted = sort_deaths(&filtered);
    let out_of = roster.len();
    let mut out: Vec<RankedDeath> = Vec::new();
    let mut i: usize = 0;
    while i < sorted.len()
        invariant
            i <= sorted@.len(),
            sorted@ == sort_deaths_by_time(spec_roster_filter(events@, roster@)),
            out_of == roster@.len(),
            out@.len() == i,
            forall|j: int| 0 <= j < i ==> out@[j] == spec_rank_deaths(events@, roster@)[j],
        decreases sorted@.len() - i,
    {
        let d = sorted[i];
        out.push(
            RankedDeath {
                order: i + 1,
                out_of,
                target_id: d.target_id,
                killing_ability_id: d.killing_ability_game_id,
                timestamp_ms: d.timestamp,
            },
        );
        i = i + 1;
    }
    proof {
        assert(out@ =~= spec_rank_deaths(events@, roster@));
    }
    out
}

/// Rank assignment is a bijection onto `{1..k}`, where `k` is the number of
/// tracked deaths of the attempt: the `k` ranked deaths carry exactly the
/// ranks `1` through `k`, in timestamp order.
pub proof fn lemma_rank_bijection(events: Seq<DeathEvent>, roster: Seq<i32>)
    requires
        events.len() <= usize::MAX,
    ensures
        spec_rank_deaths(events, roster).len() == spec_roster_filter(events, roster).len(),
        forall|i: int|
            0 <= i < spec_rank_deaths(events, roster).len()
                ==> #[trigger] spec_rank_deaths(events, roster)[i].order == i + 1,
        forall|i: int, j: int|
            0 <= i <= j < spec_rank_deaths(events, roster).len()
                ==> #[trigger] spec_rank_deaths(events, roster)[i].timestamp_ms
                <= #[trigger] spec_rank_deaths(events, roster)[j].timestamp_ms,
{
    lemma_sort_deaths_sorted(spec_roster_filter(events, roster));
    lemma_sort_deaths_multiset(spec_roster_filter(events, roster));
    assert(spec_roster_filter(events, roster).len() <= events.len()) by {
        events.lemma_filter_len(|e: DeathEvent| roster.contains(e.target_id));
    }
}

} // verus!
