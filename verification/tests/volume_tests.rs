use volume_scheduler::volume::percentage::PercentageError;
use volume_scheduler::volume::setter::{
    interpret_get_report, interpret_set_result, ramp_tick, scan_percent_value, simulate_pushes,
    VolumeError,
};
use volume_scheduler::volume::{Percentage, VolumeRamp};

#[test]
fn percentage_accepts_the_range_and_nothing_more() {
    assert_eq!(Percentage::new(0).unwrap().value(), 0);
    assert_eq!(Percentage::new(100).unwrap().value(), 100);
    assert!(matches!(
        Percentage::new(101),
        Err(PercentageError::OutOfRange {
            value: 101,
            min: 0,
            max: 100
        })
    ));
    assert!(matches!(
        Percentage::new(255),
        Err(PercentageError::OutOfRange { value: 255, .. })
    ));
}

#[test]
fn percentage_parses_like_a_plain_integer() {
    assert_eq!(Percentage::parse_str("50").unwrap().value(), 50);
    assert_eq!(Percentage::parse_str(" 50 ").unwrap().value(), 50);
    assert_eq!(Percentage::parse_str("+7").unwrap().value(), 7);
    assert_eq!(Percentage::parse_str("007").unwrap().value(), 7);
    assert!(matches!(
        Percentage::parse_str("101"),
        Err(PercentageError::OutOfRange { value: 101, .. })
    ));
    assert!(matches!(
        Percentage::parse_str("300"),
        Err(PercentageError::ParseFailed { .. })
    ));
    assert!(matches!(
        Percentage::parse_str("abc"),
        Err(PercentageError::ParseFailed { .. })
    ));
    assert!(matches!(
        Percentage::parse_str(""),
        Err(PercentageError::ParseFailed { .. })
    ));
    assert!(matches!(
        Percentage::parse_str("+"),
        Err(PercentageError::ParseFailed { .. })
    ));
    assert!(matches!(
        Percentage::parse_str("5 0"),
        Err(PercentageError::ParseFailed { .. })
    ));
    // Unicode whitespace is trimmed like ASCII whitespace.
    assert_eq!(Percentage::parse_str("\u{a0}50\u{3000}").unwrap().value(), 50);
    match Percentage::parse_str(" \u{2003}abc\u{a0}") {
        Err(PercentageError::ParseFailed { invalid_str }) => assert_eq!(invalid_str, "abc"),
        _ => panic!("expected a parse failure"),
    }
}

#[test]
fn ramp_holds_endpoints() {
    // A one-minute ramp from 20 to 80 ending at t = 120000.
    let ramp = VolumeRamp::new(20, 80, 120_000, 60_000);
    assert_eq!(ramp.value_at(0), 20);
    assert_eq!(ramp.value_at(60_000), 20);
    assert_eq!(ramp.value_at(120_000), 80);
    assert_eq!(ramp.value_at(500_000), 80);
}

#[test]
fn ramp_midpoint_is_the_mean() {
    // The ease curve passes through one half exactly at the middle of the
    // window: from 20 to 80 the midpoint value is 50.
    let ramp = VolumeRamp::new(20, 80, 60_000, 60_000);
    assert_eq!(ramp.value_at(30_000), 50);
}

#[test]
fn ramp_is_monotone_in_time() {
    let up = VolumeRamp::new(20, 80, 60_000, 60_000);
    let mut last = up.value_at(0);
    let mut t: u64 = 0;
    while t <= 70_000 {
        let v = up.value_at(t);
        assert!(v >= last);
        assert!((20..=80).contains(&v));
        last = v;
        t += 50;
    }
    assert_eq!(last, 80);

    let down = VolumeRamp::new(80, 20, 60_000, 60_000);
    let mut last = down.value_at(0);
    let mut t: u64 = 0;
    while t <= 70_000 {
        let v = down.value_at(t);
        assert!(v <= last);
        assert!((20..=80).contains(&v));
        last = v;
        t += 50;
    }
    assert_eq!(last, 20);
}

#[test]
fn ramp_tick_always_pushes_first_and_dedups_after() {
    let ramp = VolumeRamp::new(30, 30, 60_000, 60_000);
    // No last-set memo: the first value is pushed even though it equals
    // the priming snapshot.
    let first = ramp_tick(&ramp, None, 0);
    assert_eq!(first.push, Some(30));
    assert!(!first.finished);
    // Unchanged value afterwards: no push.
    let second = ramp_tick(&ramp, Some(30), 10);
    assert_eq!(second.push, None);
    // At the deadline the tick reports completion.
    let last = ramp_tick(&ramp, Some(30), 60_000);
    assert!(last.finished);
}

#[test]
fn worker_run_is_monotone_and_ends_at_target() {
    // A full run with from = 20, to = 80, ramp_duration = 60 s, polled
    // every 50 ms.
    let ramp = VolumeRamp::new(20, 80, 60_000, 60_000);
    let mut ticks: Vec<u64> = Vec::new();
    let mut t: u64 = 0;
    while t <= 60_000 {
        ticks.push(t);
        t += 50;
    }
    let pushes = simulate_pushes(&ramp, &ticks);
    // The very first and very last pushes always occur.
    assert!(pushes.len() >= 2);
    assert_eq!(pushes[0], 20);
    assert_eq!(*pushes.last().unwrap(), 80);
    // The pushed levels never decrease.
    for w in pushes.windows(2) {
        assert!(w[0] <= w[1]);
    }
    // No level is pushed twice in a row except the final re-assertion.
    for w in pushes[..pushes.len() - 1].windows(2) {
        assert!(w[0] != w[1]);
    }
}

#[test]
fn get_report_reads_the_first_percentage_token() {
    let out =
        b"Volume: front-left: 32768 /  50% / -18.06 dB,   front-right: 32768 /  50% / -18.06 dB";
    let level = interpret_get_report(true, 0, out.to_vec(), String::new()).unwrap();
    assert_eq!(level.value(), 50);
}

#[test]
fn get_report_failures_are_reported() {
    // A failed command keeps its status and diagnostic text.
    let r = interpret_get_report(false, 3, b"".to_vec(), "no sink".to_string());
    assert!(matches!(r, Err(VolumeError::Pactl { status: 3, .. })));
    // Output without any percentage token is a parse failure.
    let r = interpret_get_report(true, 0, b"Volume: none".to_vec(), String::new());
    assert!(matches!(r, Err(VolumeError::Unparsed { .. })));
    // A boosted level beyond 100% is rejected as out of range.
    let r = interpret_get_report(true, 0, b"Volume: 150% boosted".to_vec(), String::new());
    assert!(matches!(
        r,
        Err(VolumeError::Percentage(PercentageError::OutOfRange {
            value: 150,
            ..
        }))
    ));
}

#[test]
fn percent_scan_is_leftmost_and_greedy() {
    assert_eq!(scan_percent_value(&b"50%".to_vec()), Some(50));
    assert_eq!(scan_percent_value(&b"a 5% b 60%".to_vec()), Some(5));
    // Like a backtracking scan: the first position where digits directly
    // precede a percent sign wins, with as many digits as stand there.
    assert_eq!(scan_percent_value(&b"1234%".to_vec()), Some(234));
    assert_eq!(scan_percent_value(&b"%%".to_vec()), None);
    assert_eq!(scan_percent_value(&b"".to_vec()), None);
    assert_eq!(scan_percent_value(&b"42".to_vec()), None);
}

#[test]
fn set_result_keeps_status_and_stderr() {
    assert!(interpret_set_result(true, 0, String::new()).is_ok());
    let r = interpret_set_result(false, 1, "access denied".to_string());
    match r {
        Err(VolumeError::Pactl { status, stderr }) => {
            assert_eq!(status, 1);
            assert_eq!(stderr, "access denied");
        }
        _ => panic!("expected a pactl error"),
    }
}
