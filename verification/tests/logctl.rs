use wolfvoice::calendar::civil_from_days;
use wolfvoice::logctl::{
    enabled, get_level, get_mic_mode, iso_timestamp, level_filter_from_u8, level_name, log_line,
    mic_log_allowed, parse_level, parse_mic_mode, set_level, set_mic_mode, Level, LogControl,
    MicLogMode,
};

#[test]
fn logging_starts_out_quiet() {
    let ctl = LogControl::new();
    assert_eq!(get_level(&ctl), "error");
    assert_eq!(get_mic_mode(&ctl), "mixed");
}

#[test]
fn levels_are_set_by_name_whatever_the_case() {
    let mut ctl = LogControl::new();
    for name in ["off", "error", "warn", "info", "debug", "trace"] {
        assert_eq!(set_level(&mut ctl, &name.to_uppercase()).ok(), Some(name));
        assert_eq!(get_level(&ctl), name);
    }
}

#[test]
fn an_unknown_level_changes_nothing() {
    let mut ctl = LogControl::new();
    assert_eq!(
        set_level(&mut ctl, "LOUD\n").err().unwrap(),
        r#"unknown level "loud\n": expected off|error|warn|info|debug|trace"#
    );
    assert_eq!(get_level(&ctl), "error");
    assert!(parse_level("").is_err());
}

#[test]
fn mic_modes_are_set_by_name() {
    let mut ctl = LogControl::new();
    for (name, solo, mixed) in
        [("off", false, false), ("mixed", false, true), ("solo", true, false), ("all", true, true)]
    {
        assert_eq!(set_mic_mode(&mut ctl, name).ok(), Some(name));
        assert_eq!(get_mic_mode(&ctl), name);
        assert_eq!(mic_log_allowed(&ctl, false), solo);
        assert_eq!(mic_log_allowed(&ctl, true), mixed);
    }
    assert_eq!(
        set_mic_mode(&mut ctl, "Some").err().unwrap(),
        r#"unknown mic-log mode "some": expected off|mixed|solo|all"#
    );
    assert_eq!(get_mic_mode(&ctl), "all");
    assert!(parse_mic_mode("SOLO").is_ok());
}

#[test]
fn codes_beyond_the_last_mean_everything() {
    assert_eq!(level_name(level_filter_from_u8(0)), "off");
    assert_eq!(level_name(level_filter_from_u8(4)), "debug");
    assert_eq!(level_name(level_filter_from_u8(5)), "trace");
    assert_eq!(level_name(level_filter_from_u8(255)), "trace");
    assert_eq!(MicLogMode::from_u8(2).name(), "solo");
    assert_eq!(MicLogMode::from_u8(200).name(), "all");
    for code in 0..4u8 {
        assert_eq!(MicLogMode::from_u8(code).code(), code);
    }
}

#[test]
fn a_record_passes_up_to_the_level() {
    let mut ctl = LogControl::new();
    assert!(enabled(&ctl, Level::Error));
    assert!(!enabled(&ctl, Level::Warn));
    set_level(&mut ctl, "info").unwrap();
    assert!(enabled(&ctl, Level::Info));
    assert!(!enabled(&ctl, Level::Debug));
    set_level(&mut ctl, "off").unwrap();
    assert!(!enabled(&ctl, Level::Error));
    set_level(&mut ctl, "trace").unwrap();
    assert!(enabled(&ctl, Level::Trace));
}

#[test]
fn log_lines_keep_their_shape() {
    assert_eq!(log_line("T", Level::Info, "wolfvoice", "up"), "[T INFO  wolfvoice] up");
    assert_eq!(log_line("T", Level::Error, "a::b", ""), "[T ERROR a::b] ");
}

#[test]
fn timestamps_are_of_the_calendar() {
    assert_eq!(iso_timestamp(0, 0), "1970-01-01T00:00:00.000Z");
    assert_eq!(iso_timestamp(951_782_399, 999), "2000-02-28T23:59:59.999Z");
    assert_eq!(iso_timestamp(951_782_400, 7), "2000-02-29T00:00:00.007Z");
    assert_eq!(iso_timestamp(1_700_000_000, 123), "2023-11-14T22:13:20.123Z");
    assert_eq!(iso_timestamp(4_107_542_400, 40), "2100-03-01T00:00:00.040Z");
    assert_eq!(iso_timestamp(253_402_300_800, 0), "10000-01-01T00:00:00.000Z");
}

#[test]
fn days_become_dates() {
    assert_eq!(civil_from_days(0), (1970, 1, 1));
    assert_eq!(civil_from_days(11_016), (2000, 2, 29));
    assert_eq!(civil_from_days(11_017), (2000, 3, 1));
    assert_eq!(civil_from_days(47_541), (2100, 3, 1));
    assert_eq!(civil_from_days(47_540), (2100, 2, 28));
}

fn digits(t: &str, from: usize, to: usize) -> u64 {
    t[from..to].parse().unwrap()
}

/// The instant that a timestamp names, in milliseconds.
fn instant_of(t: &str) -> u64 {
    let (y, m, d) = (digits(t, 0, 4), digits(t, 5, 7), digits(t, 8, 10));
    let leap = |y: u64| y % 4 == 0 && (y % 100 != 0 || y % 400 == 0);
    let mut days = d - 1;
    for year in 1970..y {
        days += if leap(year) { 366 } else { 365 };
    }
    let months = [31, if leap(y) { 29 } else { 28 }, 31, 30, 31, 30, 31, 31, 30, 31, 30, 31];
    for len in months.iter().take(m as usize - 1) {
        days += len;
    }
    let secs = days * 86_400 + digits(t, 11, 13) * 3600 + digits(t, 14, 16) * 60 + digits(t, 17, 19);
    secs * 1000 + digits(t, 20, 23)
}

#[test]
fn timestamps_read_back_and_are_in_order() {
    let mut last = String::new();
    let mut t: u64 = 0;
    while t < 253_402_300_799_999 {
        let text = iso_timestamp(t / 1000, (t % 1000) as u32);
        assert_eq!(text.len(), 24);
        assert_eq!(instant_of(&text), t, "{text}");
        assert!(last < text, "{last} {text}");
        last = text;
        t += 98_765_432_109;
    }
    assert_eq!(iso_timestamp(253_402_300_799, 999), "9999-12-31T23:59:59.999Z");
}
