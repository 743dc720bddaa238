use memo::time_filter::{day_timestamp, parse_datetime, time_range_from_text};
use memo::{ConfigError, TimeRange};

#[test]
fn day_alone_means_midnight_utc() {
    assert_eq!(parse_datetime("2024-01-15"), Ok(1_705_276_800_000));
    assert_eq!(parse_datetime("1970-01-01"), Ok(0));
    assert_eq!(parse_datetime("1970-01-02"), Ok(86_400_000));
}

#[test]
fn day_with_hour_and_minute() {
    assert_eq!(parse_datetime("2024-01-15 10:30"), Ok(1_705_314_600_000));
    assert_eq!(parse_datetime("1970-01-01 00:01"), Ok(60_000));
    assert_eq!(parse_datetime("1969-12-31 23:59"), Ok(-60_000));
}

#[test]
fn malformed_bound_is_rejected() {
    assert_eq!(parse_datetime("yesterday"), Err(ConfigError::InvalidDateFormat));
    assert_eq!(parse_datetime(""), Err(ConfigError::InvalidDateFormat));
    assert_eq!(parse_datetime("2024-13-01"), Err(ConfigError::InvalidDateFormat));
    assert_eq!(parse_datetime("2024-01-15 25:00"), Err(ConfigError::InvalidDateFormat));
    assert_eq!(parse_datetime("2024-01-15 10:30:00"), Err(ConfigError::InvalidDateFormat));
}

#[test]
fn day_reading_decides_after_minute_reading_failed() {
    assert_eq!(day_timestamp(Some(Some(7))), Ok(7));
    assert_eq!(day_timestamp(Some(None)), Err(ConfigError::InvalidTimeOfDay));
    assert_eq!(day_timestamp(None), Err(ConfigError::InvalidDateFormat));
}

#[test]
fn no_bounds_no_filter() {
    assert_eq!(time_range_from_text(&None, &None), Ok(None));
    assert_eq!(TimeRange::from_bounds(None, None), None);
}

#[test]
fn one_bound_is_enough_for_a_filter() {
    assert_eq!(
        time_range_from_text(&Some("2024-01-15".to_string()), &None),
        Ok(Some(TimeRange { after: Some(1_705_276_800_000), before: None }))
    );
    assert_eq!(
        time_range_from_text(&None, &Some("2024-01-15 10:30".to_string())),
        Ok(Some(TimeRange { after: None, before: Some(1_705_314_600_000) }))
    );
    assert_eq!(
        TimeRange::from_bounds(Some(5), Some(3)),
        Some(TimeRange { after: Some(5), before: Some(3) })
    );
}

#[test]
fn malformed_lower_bound_is_reported_first() {
    assert_eq!(
        time_range_from_text(&Some("soon".to_string()), &Some("2024-01-15".to_string())),
        Err(ConfigError::InvalidDateFormat)
    );
    assert_eq!(
        time_range_from_text(&Some("2024-01-15".to_string()), &Some("later".to_string())),
        Err(ConfigError::InvalidDateFormat)
    );
}

#[test]
fn bounds_are_inclusive() {
    let range = TimeRange { after: Some(10), before: Some(20) };
    assert!(range.admits(10));
    assert!(range.admits(15));
    assert!(range.admits(20));
    assert!(!range.admits(9));
    assert!(!range.admits(21));
    let open_above = TimeRange { after: Some(10), before: None };
    assert!(open_above.admits(i64::MAX));
    assert!(!open_above.admits(9));
    let open_below = TimeRange { after: None, before: Some(20) };
    assert!(open_below.admits(i64::MIN));
    assert!(!open_below.admits(21));
}

#[test]
fn config_errors_have_their_messages() {
    assert_eq!(
        ConfigError::InvalidDateFormat.message(),
        "Invalid date format. Use YYYY-MM-DD or YYYY-MM-DD HH:MM"
    );
    assert_eq!(ConfigError::InvalidTimeOfDay.message(), "Failed to create datetime");
    assert_eq!(
        ConfigError::ConflictingScopes.message(),
        "Cannot specify both --local and --global, please choose one"
    );
    assert_eq!(
        ConfigError::MissingEmbeddingKey.message(),
        "Missing required configuration: embedding_api_key"
    );
    assert_eq!(
        ConfigError::MissingRerankKey.message(),
        "Missing required configuration: rerank_api_key"
    );
}
