use bad_deaths::config::{Config, EncounterConfig};
use bad_deaths::dates::ms_to_pacific_date;
use bad_deaths::fetch_plan::{fetch_step, FetchStep};
use bad_deaths::text::{str_lt, u32_to_decimal, unknown_label};

fn enc(id: u32, name: &str, bad: Vec<u32>) -> EncounterConfig {
    EncounterConfig {
        id,
        name: name.to_string(),
        bad_abilities: bad,
    }
}

#[test]
fn decimal_rendering() {
    assert_eq!(u32_to_decimal(0), "0");
    assert_eq!(u32_to_decimal(7), "7");
    assert_eq!(u32_to_decimal(42), "42");
    assert_eq!(u32_to_decimal(1009), "1009");
    assert_eq!(u32_to_decimal(u32::MAX), "4294967295");
}

#[test]
fn unknown_label_format() {
    assert_eq!(unknown_label(99), "Unknown(99)");
    assert_eq!(unknown_label(0), "Unknown(0)");
}

#[test]
fn lexicographic_order() {
    assert!(str_lt("Amy", "Zed"));
    assert!(!str_lt("Zed", "Amy"));
    assert!(str_lt("Ab", "Abc"));
    assert!(!str_lt("Abc", "Ab"));
    assert!(!str_lt("Amy", "Amy"));
    // case-sensitive: upper-case letters come before lower-case
    assert!(str_lt("Zed", "amy"));
}

#[test]
fn bad_ability_membership() {
    let e = enc(100, "Boss", vec![5, 99]);
    assert!(e.is_bad_ability(99));
    assert!(e.is_bad_ability(5));
    assert!(!e.is_bad_ability(7));
}

#[test]
fn encounter_lookup() {
    let config = Config {
        encounter: vec![enc(100, "First", vec![]), enc(200, "Second", vec![1])],
    };
    assert_eq!(config.find_encounter(200).unwrap().name, "Second");
    // an unconfigured encounter identifier is rejected before any fetch
    assert!(config.find_encounter(300).is_none());
}

#[test]
fn listed_encounters() {
    let config = Config {
        encounter: vec![enc(100, "First", vec![]), enc(200, "Second", vec![])],
    };
    let resp = bad_deaths::summary::list_encounters(&config);
    assert_eq!(resp.encounters.len(), 2);
    assert_eq!(resp.encounters[0].id, 100);
    assert_eq!(resp.encounters[0].name, "First");
    assert_eq!(resp.encounters[1].id, 200);
}

#[test]
fn fetch_loop_decisions() {
    // no continuation cursor: the fight is exhausted
    assert_eq!(fetch_step(0, 10, None), FetchStep::Done);
    // a cursor under the cap: keep going from the advanced start time
    assert_eq!(fetch_step(0, 10, Some(12345)), FetchStep::Continue(12345));
    // the cap is reached with a cursor still pending: fetch failure
    assert_eq!(fetch_step(9, 10, Some(12345)), FetchStep::Failed);
    assert_eq!(fetch_step(50, 10, Some(1)), FetchStep::Failed);
}

#[test]
fn report_date_labels() {
    // 2023-11-14T22:13:20Z minus eight hours is still 2023-11-14
    assert_eq!(ms_to_pacific_date(1_700_000_000_000), "2023-11-14");
    // 2024-01-01T00:30:00Z minus eight hours falls on the previous day
    assert_eq!(ms_to_pacific_date(1_704_069_000_000), "2023-12-31");
    // the epoch itself shifts back to New Year's Eve 1969
    assert_eq!(ms_to_pacific_date(0), "1969-12-31");
}
