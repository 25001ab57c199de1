use bad_deaths::aggregate::Aggregator;
use bad_deaths::config::EncounterConfig;
use bad_deaths::model::{relevant_fight_indices, Actor, DeathEvent, Fight, Outcome};
use bad_deaths::ranker::rank_deaths;
use bad_deaths::summary::build_summary;

fn actor(id: i32, name: &str) -> Actor {
    Actor {
        id,
        name: name.to_string(),
        actor_type: "Player".to_string(),
        sub_type: "DPS".to_string(),
    }
}

fn fight(id: u32, encounter_id: u32, outcome: Outcome, roster: Vec<i32>) -> Fight {
    Fight {
        id,
        name: "Boss".to_string(),
        encounter_id,
        start_time: 0,
        end_time: 600_000,
        outcome,
        difficulty: Some(5),
        friendly_players: roster,
    }
}

fn death(timestamp: u64, target_id: i32, ability: Option<u32>) -> DeathEvent {
    DeathEvent {
        timestamp,
        target_id,
        killer_id: -1,
        killing_ability_game_id: ability,
        fight: 1,
    }
}

fn cfg_with_bad(encounter_id: u32, bad: Vec<u32>) -> EncounterConfig {
    EncounterConfig {
        id: encounter_id,
        name: "Boss".to_string(),
        bad_abilities: bad,
    }
}

/// Roster {A, B, C}; deaths at t=10 (B, ability 99, avoidable), t=20 (A,
/// ability 5, not avoidable), t=5 (C, no ability). Ranked by timestamp
/// ascending: C=1, B=2, A=3, each out of 3; only B gets a detail entry.
#[test]
fn three_deaths_ranked_and_classified() {
    let actors = vec![actor(1, "A"), actor(2, "B"), actor(3, "C")];
    let f = fight(7, 100, Outcome::Wipe, vec![1, 2, 3]);
    let deaths = vec![
        death(10, 2, Some(99)),
        death(20, 1, Some(5)),
        death(5, 3, None),
    ];
    let cfg = cfg_with_bad(100, vec![99]);
    let names = vec![(99u32, "Fire Nova".to_string())];

    let mut agg = Aggregator::new();
    agg.process_fight(&"2024-01-01".to_string(), &f, &deaths, &actors, &cfg);
    let resp = build_summary(&agg, &names);

    assert_eq!(resp.players.len(), 3);
    // B first (one avoidable death), then A and C alphabetically.
    assert_eq!(resp.players[0].name, "B");
    assert_eq!(resp.players[1].name, "A");
    assert_eq!(resp.players[2].name, "C");

    let b = &resp.players[0];
    assert_eq!(b.bad_deaths, 1);
    assert_eq!(b.death_count, 1);
    assert_eq!(b.death_order_sum, 2);
    assert_eq!(b.early_deaths, 1);
    assert_eq!(b.details.len(), 1);
    assert_eq!(b.details[0].death_order, 2);
    assert_eq!(b.details[0].out_of, 3);
    assert_eq!(b.details[0].ability_name, "Fire Nova");
    assert_eq!(b.details[0].fight_id, 7);
    assert_eq!(b.details[0].date, "2024-01-01");

    let a = &resp.players[1];
    assert_eq!(a.bad_deaths, 0);
    assert_eq!(a.death_count, 1);
    assert_eq!(a.death_order_sum, 3);
    assert_eq!(a.early_deaths, 1);
    assert_eq!(a.details.len(), 0);

    let c = &resp.players[2];
    assert_eq!(c.bad_deaths, 0);
    assert_eq!(c.death_count, 1);
    assert_eq!(c.death_order_sum, 1);
    assert_eq!(c.early_deaths, 1);
    assert_eq!(c.details.len(), 0);
}

/// A player on the roster with no deaths at all still appears, with zero
/// counts, a zero rank sum (average 0 by definition) and no details.
#[test]
fn zero_death_player_reports_zeros() {
    let actors = vec![actor(1, "A"), actor(2, "B")];
    let f = fight(1, 100, Outcome::Kill, vec![1, 2]);
    let deaths = vec![death(50, 2, Some(99))];
    let cfg = cfg_with_bad(100, vec![99]);

    let mut agg = Aggregator::new();
    agg.process_fight(&"2024-02-02".to_string(), &f, &deaths, &actors, &cfg);
    let resp = build_summary(&agg, &vec![]);

    assert_eq!(resp.players.len(), 2);
    let a = resp.players.iter().find(|p| p.name == "A").unwrap();
    assert_eq!(a.bad_deaths, 0);
    assert_eq!(a.death_count, 0);
    assert_eq!(a.death_order_sum, 0);
    assert_eq!(a.early_deaths, 0);
    assert!(a.details.is_empty());
}

/// Rank assignment is 1..k in timestamp order for the tracked deaths.
#[test]
fn ranks_are_one_to_k_sorted_by_timestamp() {
    let roster = vec![1, 2, 3, 4];
    let deaths = vec![
        death(40, 1, None),
        death(10, 2, None),
        death(30, 3, None),
        death(20, 4, None),
        // not on roster: dropped before ranking
        death(5, 99, None),
    ];
    let ranked = rank_deaths(&roster, &deaths);
    assert_eq!(ranked.len(), 4);
    for (i, rd) in ranked.iter().enumerate() {
        assert_eq!(rd.order, i + 1);
        assert_eq!(rd.out_of, 4);
    }
    let times: Vec<u64> = ranked.iter().map(|rd| rd.timestamp_ms).collect();
    assert_eq!(times, vec![10, 20, 30, 40]);
    let targets: Vec<i32> = ranked.iter().map(|rd| rd.target_id).collect();
    assert_eq!(targets, vec![2, 4, 3, 1]);
}

/// Ties on the timestamp keep the original input order (stable sort).
#[test]
fn equal_timestamps_keep_input_order() {
    let roster = vec![1, 2, 3];
    let deaths = vec![death(10, 2, None), death(10, 1, None), death(10, 3, None)];
    let ranked = rank_deaths(&roster, &deaths);
    let targets: Vec<i32> = ranked.iter().map(|rd| rd.target_id).collect();
    assert_eq!(targets, vec![2, 1, 3]);
}

/// An unresolved ability identifier renders as `Unknown(<id>)`; the run does
/// not fail.
#[test]
fn unresolved_ability_renders_unknown_label() {
    let actors = vec![actor(1, "A")];
    let f = fight(1, 100, Outcome::Wipe, vec![1]);
    let deaths = vec![death(10, 1, Some(99))];
    let cfg = cfg_with_bad(100, vec![99]);

    let mut agg = Aggregator::new();
    agg.process_fight(&"2024-03-03".to_string(), &f, &deaths, &actors, &cfg);
    // the name cache has no entry for 99
    let resp = build_summary(&agg, &vec![(5u32, "Other".to_string())]);

    assert_eq!(resp.players[0].details[0].ability_name, "Unknown(99)");
}

/// A trash fight (encounter identifier zero) is excluded from the countable
/// attempts regardless of its outcome flag; so is one without an outcome.
#[test]
fn trash_and_unresolved_fights_excluded() {
    let fights = vec![
        fight(1, 0, Outcome::Kill, vec![1]),
        fight(2, 100, Outcome::NotRecorded, vec![1]),
        fight(3, 100, Outcome::Wipe, vec![1]),
        fight(4, 200, Outcome::Kill, vec![1]),
        fight(5, 100, Outcome::Kill, vec![1]),
    ];
    let idx = relevant_fight_indices(&fights, 100);
    assert_eq!(idx, vec![2, 4]);
}

/// A death without a killing-ability identifier still counts toward the rank
/// list but can never be classified avoidable.
#[test]
fn absent_ability_counts_only_toward_ranks() {
    let actors = vec![actor(1, "A")];
    let f = fight(1, 100, Outcome::Wipe, vec![1]);
    let deaths = vec![death(10, 1, None)];
    let cfg = cfg_with_bad(100, vec![99]);

    let mut agg = Aggregator::new();
    agg.process_fight(&"2024-04-04".to_string(), &f, &deaths, &actors, &cfg);
    let resp = build_summary(&agg, &vec![]);

    let a = &resp.players[0];
    assert_eq!(a.death_count, 1);
    assert_eq!(a.death_order_sum, 1);
    assert_eq!(a.bad_deaths, 0);
    assert!(a.details.is_empty());
}

/// Equal avoidable-death counts are ordered by name, ascending.
#[test]
fn equal_counts_ordered_by_name() {
    let actors = vec![actor(1, "Zed"), actor(2, "Amy"), actor(3, "Mia")];
    let f = fight(1, 100, Outcome::Wipe, vec![1, 2, 3]);
    let deaths = vec![
        death(10, 1, Some(99)),
        death(20, 2, Some(99)),
        death(30, 3, Some(99)),
    ];
    let cfg = cfg_with_bad(100, vec![99]);

    let mut agg = Aggregator::new();
    agg.process_fight(&"2024-05-05".to_string(), &f, &deaths, &actors, &cfg);
    let resp = build_summary(&agg, &vec![]);

    let names: Vec<&str> = resp.players.iter().map(|p| p.name.as_str()).collect();
    assert_eq!(names, vec!["Amy", "Mia", "Zed"]);
}

/// Re-running the pipeline on identical input data yields an identical
/// report.
#[test]
fn identical_input_identical_report() {
    let actors = vec![actor(1, "A"), actor(2, "B")];
    let f = fight(1, 100, Outcome::Wipe, vec![1, 2]);
    let deaths = vec![death(10, 1, Some(99)), death(20, 2, Some(5))];
    let cfg = cfg_with_bad(100, vec![99, 5]);
    let names = vec![(99u32, "Fire".to_string())];

    let mut run = || {
        let mut agg = Aggregator::new();
        agg.process_fight(&"2024-06-06".to_string(), &f, &deaths, &actors, &cfg);
        build_summary(&agg, &names)
    };
    let r1 = run();
    let r2 = run();

    assert_eq!(r1.players.len(), r2.players.len());
    for (p, q) in r1.players.iter().zip(r2.players.iter()) {
        assert_eq!(p.name, q.name);
        assert_eq!(p.bad_deaths, q.bad_deaths);
        assert_eq!(p.death_order_sum, q.death_order_sum);
        assert_eq!(p.death_count, q.death_count);
        assert_eq!(p.early_deaths, q.early_deaths);
        assert_eq!(p.details.len(), q.details.len());
        for (d, e) in p.details.iter().zip(q.details.iter()) {
            assert_eq!(d.date, e.date);
            assert_eq!(d.fight_id, e.fight_id);
            assert_eq!(d.death_order, e.death_order);
            assert_eq!(d.out_of, e.out_of);
            assert_eq!(d.ability_name, e.ability_name);
        }
    }
}

/// Deaths of actors that are not `"Player"` actors (or unknown to the
/// report) occupy no rank and contribute nothing.
#[test]
fn non_player_actors_ignored() {
    let mut actors = vec![actor(1, "A")];
    actors.push(Actor {
        id: 2,
        name: "Infernal".to_string(),
        actor_type: "Pet".to_string(),
        sub_type: "".to_string(),
    });
    let f = fight(1, 100, Outcome::Wipe, vec![1, 2]);
    let deaths = vec![death(5, 2, Some(99)), death(10, 1, Some(99))];
    let cfg = cfg_with_bad(100, vec![99]);

    let mut agg = Aggregator::new();
    agg.process_fight(&"2024-07-07".to_string(), &f, &deaths, &actors, &cfg);
    let resp = build_summary(&agg, &vec![]);

    // only A has an entry; the pet death still took rank 1, so A died second
    assert_eq!(resp.players.len(), 1);
    assert_eq!(resp.players[0].name, "A");
    assert_eq!(resp.players[0].death_order_sum, 2);
    assert_eq!(resp.players[0].details[0].death_order, 2);
}

/// An attempt with no deaths at all still registers its roster.
#[test]
fn attempt_without_deaths_registers_roster() {
    let actors = vec![actor(1, "A"), actor(2, "B")];
    let f = fight(1, 100, Outcome::Kill, vec![1, 2]);
    let cfg = cfg_with_bad(100, vec![99]);

    let mut agg = Aggregator::new();
    agg.process_fight(&"2024-09-09".to_string(), &f, &vec![], &actors, &cfg);
    let resp = build_summary(&agg, &vec![]);

    assert_eq!(resp.players.len(), 2);
    assert!(resp.players.iter().all(|p| p.death_count == 0));
}

/// When an actor identifier occurs twice, the last record wins, matching a
/// map built by inserting the records in order.
#[test]
fn duplicate_actor_id_last_record_wins() {
    let actors = vec![actor(1, "Old"), actor(1, "New")];
    let f = fight(1, 100, Outcome::Wipe, vec![1]);
    let deaths = vec![death(10, 1, None)];
    let cfg = cfg_with_bad(100, vec![99]);

    let mut agg = Aggregator::new();
    agg.process_fight(&"2024-10-10".to_string(), &f, &deaths, &actors, &cfg);
    let resp = build_summary(&agg, &vec![]);

    assert_eq!(resp.players.len(), 1);
    assert_eq!(resp.players[0].name, "New");
    assert_eq!(resp.players[0].death_count, 1);
}

/// Aggregation across several fights and reports appends details in
/// processing order and accumulates ranks.
#[test]
fn aggregation_across_fights_and_reports() {
    let actors = vec![actor(1, "A")];
    let f1 = fight(1, 100, Outcome::Wipe, vec![1]);
    let f2 = fight(2, 100, Outcome::Kill, vec![1]);
    let cfg = cfg_with_bad(100, vec![99]);
    let names = vec![(99u32, "Fire".to_string())];

    let mut agg = Aggregator::new();
    agg.process_fight(
        &"2024-08-08".to_string(),
        &f1,
        &vec![death(10, 1, Some(99))],
        &actors,
        &cfg,
    );
    agg.process_fight(
        &"2024-08-09".to_string(),
        &f2,
        &vec![death(20, 1, Some(99))],
        &actors,
        &cfg,
    );
    let resp = build_summary(&agg, &names);

    let a = &resp.players[0];
    assert_eq!(a.bad_deaths, 2);
    assert_eq!(a.death_count, 2);
    assert_eq!(a.details[0].date, "2024-08-08");
    assert_eq!(a.details[0].fight_id, 1);
    assert_eq!(a.details[1].date, "2024-08-09");
    assert_eq!(a.details[1].fight_id, 2);
}
