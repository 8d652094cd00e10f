use tima::engine::Tima;

#[test]
fn verbose_with_quiet_mode() {
    let mut tmr = Tima::new();
    tmr.quiet_mode = true;
    if let Some(line) = tmr.verbose("") {
        println!("{}", line);
    }
    assert_eq!(None, tmr.verbose(""));
}

#[test]
fn verbose_without_quiet_mode() {
    let mut tmr = Tima::new();
    tmr.max_count = 10;
    if let Some(line) = tmr.verbose("Tima started") {
        println!("{}", line);
    }
    assert_eq!(
        Some("Tima started: 10 seconds".to_string()),
        tmr.verbose("Tima started")
    );
}

#[test]
fn verbose_names_the_unit() {
    let mut tmr = Tima::new();
    tmr.max_count = 2;
    tmr.minutes = true;
    assert_eq!(
        Some("Tima finished: 2 minutes".to_string()),
        tmr.verbose("Tima finished")
    );
}

#[test]
fn verbose_writes_every_count() {
    let mut tmr = Tima::new();
    assert_eq!(Some(": 0 seconds".to_string()), tmr.verbose(""));
    tmr.max_count = u64::MAX;
    assert_eq!(
        Some("t: 18446744073709551615 seconds".to_string()),
        tmr.verbose("t")
    );
}

#[test]
fn verbose_keeps_any_heading() {
    let mut tmr = Tima::new();
    tmr.max_count = 7;
    assert_eq!(
        Some("début – fin: 7 seconds".to_string()),
        tmr.verbose("début – fin")
    );
}
