use ops_mcp::clock::{
    collected_at, target_now, wall_clock, wall_clock_from, FIRST_INSTANT, LAST_INSTANT,
};

fn leap(y: i64) -> bool {
    y % 4 == 0 && (y % 100 != 0 || y % 400 == 0)
}

fn month_days(y: i64, m: i64) -> i64 {
    match m {
        2 => 28 + i64::from(leap(y)),
        4 | 6 | 9 | 11 => 30,
        _ => 31,
    }
}

#[test]
fn timestamps_of_known_instants() {
    for (seconds, text) in [
        (0, "1970-01-01T00:00:00Z"),
        (-1, "1969-12-31T23:59:59Z"),
        (951_782_400, "2000-02-29T00:00:00Z"),
        (1_431_648_000, "2015-05-15T00:00:00Z"),
        (1_000_000_000, "2001-09-09T01:46:40Z"),
        (4_107_542_400, "2100-03-01T00:00:00Z"),
        (253_402_300_799, "9999-12-31T23:59:59Z"),
        (253_402_300_800, "+10000-01-01T00:00:00Z"),
        (-62_167_219_200, "0000-01-01T00:00:00Z"),
        (-62_167_219_201, "-0001-12-31T23:59:59Z"),
        (FIRST_INSTANT, "-262143-01-01T00:00:00Z"),
        (LAST_INSTANT, "+262142-12-31T23:59:59Z"),
    ] {
        assert_eq!(wall_clock_from(seconds), Some(text.to_owned()), "for {seconds}");
    }
}

#[test]
fn instants_out_of_range_have_no_timestamp() {
    for seconds in [FIRST_INSTANT - 1, LAST_INSTANT + 1, i64::MIN, i64::MAX] {
        assert_eq!(wall_clock_from(seconds), None);
    }
}

#[test]
fn dates_follow_the_calendar() {
    let (mut y, mut m, mut d) = (1890, 1, 1);
    let mut seconds: i64 = -2_524_521_600;
    for _ in 0..100_000 {
        let h = (d * 7 + m) % 24;
        let instant = seconds + h * 3600 + 59;
        assert_eq!(
            wall_clock_from(instant),
            Some(format!("{y:04}-{m:02}-{d:02}T{h:02}:00:59Z"))
        );
        seconds += 86400;
        d += 1;
        if d > month_days(y, m) {
            d = 1;
            m += 1;
        }
        if m > 12 {
            m = 1;
            y += 1;
        }
    }
}

#[test]
fn the_clock_is_boot_time_plus_uptime() {
    assert_eq!(wall_clock(1_000_000_000, 40), Some("2001-09-09T01:47:20Z".to_owned()));
    assert_eq!(wall_clock(0, -1), Some("1969-12-31T23:59:59Z".to_owned()));
    assert_eq!(wall_clock(u64::MAX, 0), None);
    assert_eq!(wall_clock(i64::MAX as u64, 1), None);
    assert_eq!(wall_clock(LAST_INSTANT as u64, 1), None);
}

#[test]
fn a_reading_is_dated_by_the_file() {
    let stat = "cpu0 1\nbtime 1000000000\n";
    assert_eq!(
        collected_at(stat, 0).ok(),
        Some("2001-09-09T01:46:40Z".to_owned())
    );
    assert_eq!(target_now(stat, 5).ok(), Some(1_000_000_005));
    let fault = collected_at("cpu0 1\n", 0).err().expect("no boot time");
    assert_eq!(
        fault.log_line(),
        Some("ops-mcp: could not parse btime from /proc/stat".to_owned())
    );
    let fault = collected_at("btime 9000000000000\n", 0).err().expect("out of range");
    assert_eq!(
        fault.log_line(),
        Some("ops-mcp: could not parse boot time out of range from /proc/stat".to_owned())
    );
    let fault = target_now("btime 9223372036854775808\n", 0).err().expect("out of range");
    assert_eq!(
        fault.log_line(),
        Some("ops-mcp: could not parse boot time out of range from /proc/stat".to_owned())
    );
    assert!(target_now("", 0).is_err());
}

#[test]
fn different_instants_have_different_timestamps() {
    assert_ne!(wall_clock_from(1_756_900_000), wall_clock_from(1_756_900_001));
    let text = wall_clock_from(1_756_900_000).expect("in range");
    assert_eq!(text.len(), 20);
    assert!(text.ends_with('Z') && !text.contains('.'));
}
