use koshelf::time_config::{TimeConfig, TimeConfigError};

fn zone(name: &str, day_start_minutes: u16) -> TimeConfig {
    TimeConfig::new(Some(name.to_string()), day_start_minutes)
}

#[test]
fn format_timestamp_rfc3339_respects_configured_timezone() {
    let config = zone("Europe/Berlin", 0);
    assert_eq!(config.format_timestamp_rfc3339(0), "1970-01-01T01:00:00+01:00");
}

#[test]
fn normalize_naive_datetime_uses_configured_timezone() {
    let config = zone("UTC", 0);
    assert_eq!(
        config.normalize_naive_datetime_to_rfc3339("2024-03-15 14:30:00"),
        Some("2024-03-15T14:30:00+00:00".to_string())
    );
}

#[test]
fn naive_datetimes_in_every_accepted_format() {
    let config = zone("UTC", 0);
    assert_eq!(
        config.normalize_naive_datetime_to_rfc3339("  2024-03-15T14:30  ").as_deref(),
        Some("2024-03-15T14:30:00+00:00")
    );
    assert_eq!(TimeConfig::parse_naive_datetime("2024-03-15 14:30"), Some(1));
    assert_eq!(TimeConfig::parse_naive_datetime("2024-03-15T14:30:05"), Some(2));
    assert_eq!(TimeConfig::parse_naive_datetime("15.03.2024"), None);
    assert_eq!(config.normalize_naive_datetime_to_rfc3339("yesterday"), None);
}

#[test]
fn wall_time_in_a_gap_or_fold() {
    let berlin = zone("Europe/Berlin", 0);
    // clocks jump from 02:00 to 03:00 on 2024-03-31
    assert_eq!(berlin.normalize_naive_datetime_to_rfc3339("2024-03-31 02:30:00"), None);
    // 02:30 happens twice on 2024-10-27; the earlier instant is chosen
    assert_eq!(
        berlin.normalize_naive_datetime_to_rfc3339("2024-10-27 02:30:00").as_deref(),
        Some("2024-10-27T02:30:00+02:00")
    );
}

#[test]
fn day_start_shifts_the_logical_date() {
    let midnight = zone("Europe/Berlin", 0);
    let late = zone("Europe/Berlin", 120);
    assert_eq!(midnight.format_date(0), "1970-01-01");
    assert_eq!(late.format_date(0), "1969-12-31");
    assert_eq!(midnight.date_for_timestamp(0), late.date_for_timestamp(0) + 1);
}

#[test]
fn day_start_minutes_parse() {
    assert!(matches!(TimeConfig::parse_day_start_minutes("04:00"), Ok(240)));
    assert!(matches!(TimeConfig::parse_day_start_minutes("+3:05"), Ok(185)));
    assert!(matches!(TimeConfig::parse_day_start_minutes("23:59"), Ok(1439)));
    assert!(matches!(TimeConfig::parse_day_start_minutes("0400"), Err(TimeConfigError::InvalidDayStartFormat)));
    assert!(matches!(TimeConfig::parse_day_start_minutes("1:2:3"), Err(TimeConfigError::InvalidDayStartFormat)));
    assert!(matches!(TimeConfig::parse_day_start_minutes("x:00"), Err(TimeConfigError::InvalidHour)));
    assert!(matches!(TimeConfig::parse_day_start_minutes(":00"), Err(TimeConfigError::InvalidHour)));
    assert!(matches!(TimeConfig::parse_day_start_minutes("-1:00"), Err(TimeConfigError::InvalidHour)));
    assert!(matches!(TimeConfig::parse_day_start_minutes("03:"), Err(TimeConfigError::InvalidMinute)));
    assert!(matches!(TimeConfig::parse_day_start_minutes("24:00"), Err(TimeConfigError::DayStartOutOfRange)));
    assert!(matches!(TimeConfig::parse_day_start_minutes("70000:00"), Err(TimeConfigError::InvalidHour)));
}

#[test]
fn from_cli_validates_its_texts() {
    let ok = TimeConfig::from_cli(&Some("Australia/Sydney".to_string()), &Some("03:30".to_string()));
    let ok = match ok {
        Ok(c) => c,
        Err(e) => panic!("{}", e.message()),
    };
    assert_eq!(ok.timezone.as_deref(), Some("Australia/Sydney"));
    assert_eq!(ok.day_start_minutes, 210);

    let blank = TimeConfig::from_cli(&Some("  ".to_string()), &None).ok().unwrap();
    assert_eq!(blank.timezone, None);
    assert_eq!(blank.day_start_minutes, 0);

    match TimeConfig::from_cli(&Some("Mars/Olympus".to_string()), &Some("99:99".to_string())) {
        Err(e) => assert_eq!(e.message(), "Invalid timezone: Mars/Olympus. Example: Australia/Sydney"),
        Ok(_) => panic!("unknown zone accepted"),
    }
    match TimeConfig::from_cli(&None, &Some("25:00".to_string())) {
        Err(e) => assert_eq!(e.message(), "--day-start-time must be between 00:00 and 23:59"),
        Ok(_) => panic!("out-of-range day start accepted"),
    }
}
