use tima::parser::{normalise_units, Components};
use tima::units::{normalise_unit, Unit};

fn strings(items: &[&str]) -> Vec<String> {
    items.iter().map(|item| item.to_string()).collect()
}

#[test]
fn normalise_unit_seconds() {
    for spelling in ["s", "sec", "second", "seconds"] {
        assert_eq!(Some(Unit::Seconds), normalise_unit(spelling));
    }
}

#[test]
fn normalise_unit_minutes() {
    for spelling in ["m", "min", "minute", "minutes"] {
        assert_eq!(Some(Unit::Minutes), normalise_unit(spelling));
    }
}

#[test]
fn normalise_unit_hours() {
    for spelling in ["h", "hour", "hours"] {
        assert_eq!(Some(Unit::Hours), normalise_unit(spelling));
    }
}

#[test]
fn normalise_unit_milliseconds() {
    for spelling in ["l", "milli", "millis", "millisecond", "milliseconds"] {
        assert_eq!(Some(Unit::Millis), normalise_unit(spelling));
    }
}

#[test]
fn normalise_unit_drops_the_rest() {
    for spelling in [
        "bogus", "", "S", "Sec", "SEC", "Minute", "H", "secs", "mins", "hr", "hrs", "ms", "mil",
        "se", "second ", " s", "minutess", "millisec", "d", "day", "1", "10", "-m",
    ] {
        assert_eq!(None, normalise_unit(spelling));
    }
}

#[test]
fn unit_codes() {
    assert_eq!("s", Unit::Seconds.code());
    assert_eq!("m", Unit::Minutes.code());
    assert_eq!("h", Unit::Hours.code());
    assert_eq!("l", Unit::Millis.code());
}

#[test]
fn unit_code_names_its_unit() {
    for unit in [Unit::Seconds, Unit::Minutes, Unit::Hours, Unit::Millis] {
        assert_eq!(Some(unit), normalise_unit(unit.code()));
    }
}

#[test]
fn normalise_units_examples() {
    assert_eq!(strings(&["m"]), normalise_units(strings(&["minute"])));
    assert_eq!(strings(&["l"]), normalise_units(strings(&["millisecond"])));
    assert_eq!(strings(&[]), normalise_units(strings(&["bogus"])));
    assert_eq!(strings(&[]), normalise_units(strings(&["10", "bogus"])));
}

#[test]
fn normalise_units_keeps_order_and_repeats() {
    assert_eq!(
        strings(&["h", "s", "s", "l", "m", "h"]),
        normalise_units(strings(&["hours", "x", "s", "seconds", "millis", "", "min", "h"]))
    );
}

#[test]
fn normalise_units_twice_changes_nothing() {
    let once = normalise_units(strings(&["1", "sec", "hour", "bogus", "milliseconds", "m"]));
    assert_eq!(strings(&["s", "h", "l", "m"]), once);
    assert_eq!(once.clone(), normalise_units(once));
}

#[test]
fn components_sort_entries_by_kind() {
    let sorted = Components::from_entries(strings(&[
        "1", "s", "10", "sec", "101", "milli", "0", "h", "1", "minute",
    ]));
    assert_eq!(vec![1, 10, 101, 0, 1], sorted.values);
    assert_eq!(strings(&["s", "s", "l", "h", "m"]), sorted.units);
}

#[test]
fn components_keep_the_numeral_of_an_unknown_unit() {
    let sorted = Components::from_entries(strings(&["10", "bogus"]));
    assert_eq!(vec![10], sorted.values);
    assert_eq!(strings(&[]), sorted.units);
}

#[test]
fn components_of_nothing() {
    let sorted = Components::from_entries(Vec::new());
    assert_eq!(Components { values: vec![], units: vec![] }, sorted);
}

#[test]
fn components_stop_at_32_bits() {
    let sorted = Components::from_entries(strings(&[
        "4294967295",
        "4294967296",
        "18446744073709551615",
        "18446744073709551616",
        "7",
    ]));
    assert_eq!(vec![u32::MAX, 7], sorted.values);
    assert_eq!(strings(&[]), sorted.units);
}
