use tima::engine::Tima;
use tima::parser::{durations, parse};

fn strings(items: &[&str]) -> Vec<String> {
    items.iter().map(|item| item.to_string()).collect()
}

#[test]
fn parse_cuts_compound_tokens() {
    assert_eq!(
        strings(&["10", "sec", "1", "h", "500", "milli"]),
        parse(strings(&["10sec", "1h", "500milli"]))
    );
}

#[test]
fn parse_drops_what_is_no_duration() {
    assert_eq!(
        strings(&["12"]),
        parse(strings(&["-m", "12", "c", "-q", "1s1", "+5", "", "10sec!", "\u{661}"]))
    );
}

#[test]
fn parse_drops_letters_alone() {
    assert_eq!(strings(&[]), parse(strings(&["milli"])));
    assert_eq!(strings(&[]), parse(strings(&["s", "sec", "h", "m", "q", "Z"])));
    assert_eq!(strings(&["5", "s"]), parse(strings(&["s", "5s", "s"])));
}

#[test]
fn parse_keeps_zero_and_leading_zeros() {
    assert_eq!(strings(&["0", "007", "s"]), parse(strings(&["0", "007s"])));
}

#[test]
fn parse_drops_a_numeral_too_large() {
    assert_eq!(strings(&[]), parse(strings(&["99999999999999999999999999h"])));
    assert_eq!(strings(&[]), parse(strings(&["18446744073709551616"])));
    assert_eq!(
        strings(&["18446744073709551615", "h"]),
        parse(strings(&["18446744073709551615h"]))
    );
    assert_eq!(
        strings(&["000000000000000000000000000001", "s"]),
        parse(strings(&["000000000000000000000000000001s"]))
    );
}

#[test]
fn parse_in_two_parts() {
    let whole = ["1s", "x", "-m", "10sec", "", "7", "1s1", "h"];
    for cut in 0..=whole.len() {
        let mut joined = parse(strings(&whole[..cut]));
        joined.extend(parse(strings(&whole[cut..])));
        assert_eq!(parse(strings(&whole)), joined);
    }
}

#[test]
fn durations_keep_numerals_and_compounds() {
    assert_eq!(
        strings(&["12", "10sec", "0", "0h", "007", "5bogus"]),
        durations(strings(&[
            "-m", "12", "c", "10sec", "0", "", "0h", "-q", "007", "1s1", "5bogus", "milli",
        ]))
    );
}

#[test]
fn durations_drop_a_numeral_too_large() {
    assert_eq!(
        strings(&["18446744073709551615", "1"]),
        durations(strings(&["18446744073709551615", "18446744073709551616", "1"]))
    );
}

#[test]
fn durations_of_nothing() {
    assert_eq!(strings(&[]), durations(strings(&[])));
    assert_eq!(strings(&[]), durations(strings(&["-m", "-q", "x"])));
}

#[test]
fn durations_alone_give_the_count() {
    let inputs: Vec<Vec<String>> = vec![
        strings(&["-m", "12", "c"]),
        strings(&["-m", "12", "24", "-q"]),
        strings(&["0", "5", "0h"]),
        strings(&["x", "-q"]),
        strings(&["10sec", "1s1", "3", "18446744073709551616"]),
    ];
    for args in inputs {
        let whole = Tima::init(args.clone());
        let kept = Tima::init(durations(args));
        assert_eq!(whole.max_count, kept.max_count);
        assert!(!kept.minutes);
        assert!(!kept.quiet_mode);
    }
}

#[test]
fn parse_gives_digits_or_letters() {
    let entries = parse(strings(&[
        "1s", "x", "-m", "10sec", "", "7", "1s1", "h", "007Min", "42", "+1", "0",
    ]));
    assert_eq!(
        strings(&["1", "s", "10", "sec", "7", "007", "Min", "42", "0"]),
        entries
    );
    for entry in entries {
        assert!(!entry.is_empty());
        let digits = entry.chars().all(|c| c.is_ascii_digit());
        let letters = entry.chars().all(|c| c.is_ascii_alphabetic());
        assert!(digits || letters);
    }
}

#[test]
fn parse_cuts_what_durations_keep() {
    let inputs: Vec<Vec<String>> = vec![
        strings(&["-m", "12", "c", "10sec", "0", "", "0h", "-q", "007", "1s1", "milli"]),
        strings(&["18446744073709551615", "18446744073709551616h", "1"]),
        strings(&["x", "-q"]),
        strings(&[]),
    ];
    for text in inputs {
        assert_eq!(parse(text.clone()), parse(durations(text)));
    }
}
