use kyodoku::clock::Zone;
use kyodoku::config::{
    parse_i64_str, parse_unsigned_str, reads_as_zero, tier_settings, Config, ConfigError, EnvSnapshot, EnvValue,
    EnvVar, ParseIntKind, TierEnv, TierSettings,
};

fn p(s: &str) -> EnvValue {
    EnvValue::Present(s.to_string())
}

fn env() -> EnvSnapshot {
    EnvSnapshot {
        discord_token: p("token"),
        application_id: p("123"),
        database_url: p("postgres://db"),
        redis_url: p("redis://r"),
        max_server_channels: EnvValue::Missing,
        text_channel_budget: EnvValue::Missing,
        voice_cleanup_delay_seconds: EnvValue::Missing,
        archive_poll_interval_seconds: EnvValue::Missing,
        archive_grace_period_seconds: EnvValue::Missing,
        text_channel_delete_notice_seconds: EnvValue::Missing,
        text_channel_extension_seconds: EnvValue::Missing,
        text_channel_capacity: EnvValue::Missing,
        watchlist_limit: EnvValue::Missing,
        text_channel_activity_lookback_seconds: EnvValue::Missing,
        time_zone: EnvValue::Missing,
        command_input_channel_id: EnvValue::Missing,
        text_channel_category_id: p("10"),
        text_category_prefix: EnvValue::Missing,
        text_category_position_base: EnvValue::Missing,
        voice_channel_category_id: p("11"),
        archived_channel_category_id: p("12"),
    }
}

#[test]
fn defaults() {
    let c = Config::from_env(&env()).unwrap();
    assert_eq!(c.application_id, 123);
    assert_eq!(c.max_server_channels, 480);
    assert_eq!(c.text_channel_budget, 430);
    assert_eq!(c.voice_cleanup_delay_seconds, 60);
    assert_eq!(c.archive_poll_interval_seconds, 86_400);
    assert_eq!(c.archive_grace_period_seconds, 5_184_000);
    assert_eq!(c.text_channel_delete_notice_seconds, 259_200);
    assert_eq!(c.text_channel_extension_seconds, 604_800);
    assert_eq!(c.text_channel_capacity, 150);
    assert_eq!(c.watchlist_limit, 30);
    assert_eq!(c.time_zone.as_str(), "UTC");
    assert_eq!(c.command_input_channel_id, None);
    assert_eq!(c.text_channel_category_id, Some(10));
    assert_eq!(c.voice_channel_category_id, Some(11));
    assert_eq!(c.text_channel_activity_lookback_seconds, 604_800);
    assert_eq!(c.archived_channel_category_id, 12);
    assert_eq!(c.text_category_prefix, "isbn-text");
    assert_eq!(c.text_category_position_base, 50);
}

#[test]
fn settings_are_read_and_bad_ones_fall_back() {
    let mut e = env();
    e.max_server_channels = p("12");
    e.text_channel_budget = p("0");
    e.watchlist_limit = p("-4");
    e.voice_cleanup_delay_seconds = p("+90");
    e.time_zone = p("Asia/Tokyo");
    e.command_input_channel_id = p("  ");
    e.text_category_prefix = p(" ");
    e.text_category_position_base = p("-3");
    let c = Config::from_env(&e).unwrap();
    assert_eq!(c.max_server_channels, 12);
    assert_eq!(c.text_channel_budget, 430);
    assert_eq!(c.watchlist_limit, 30);
    assert_eq!(c.voice_cleanup_delay_seconds, 90);
    assert_eq!(c.time_zone.as_str(), "Asia/Tokyo");
    assert_eq!(c.command_input_channel_id, None);
    assert_eq!(c.text_category_prefix, "isbn-text");
    assert_eq!(c.text_category_position_base, -3);
    e.time_zone = p("Mars/Olympus");
    e.command_input_channel_id = p("77");
    let c = Config::from_env(&e).unwrap();
    assert_eq!(c.time_zone.as_str(), "UTC");
    assert_eq!(c.command_input_channel_id, Some(77));
    e.command_input_channel_id = p("seventy");
    assert_eq!(Config::from_env(&e).unwrap().command_input_channel_id, None);
}

#[test]
fn errors_in_reading_order() {
    let mut e = env();
    e.discord_token = EnvValue::Missing;
    e.application_id = p("abc");
    assert_eq!(Config::from_env(&e).unwrap_err(), ConfigError::Missing(EnvVar::DiscordToken));
    let mut e = env();
    e.application_id = p("abc");
    assert_eq!(
        Config::from_env(&e).unwrap_err(),
        ConfigError::InvalidNumber(EnvVar::ApplicationId, ParseIntKind::InvalidDigit)
    );
    let mut e = env();
    e.redis_url = EnvValue::NotUnicode("\"r\\xFF\"".to_string());
    let err = Config::from_env(&e).unwrap_err();
    assert_eq!(err, ConfigError::NotUnicode(EnvVar::RedisUrl, "\"r\\xFF\"".to_string()));
    assert_eq!(err.message(), "environment variable was not valid unicode: \"r\\xFF\"");
    let mut e = env();
    e.archived_channel_category_id = EnvValue::Missing;
    assert_eq!(
        Config::from_env(&e).unwrap_err(),
        ConfigError::MissingCategory(EnvVar::ArchivedChannelCategoryId)
    );
    let mut e = env();
    e.voice_channel_category_id = EnvValue::NotUnicode("v".to_string());
    assert_eq!(
        Config::from_env(&e).unwrap_err(),
        ConfigError::NotUnicode(EnvVar::VoiceChannelCategoryId, "v".to_string())
    );
    let mut e = env();
    e.command_input_channel_id = EnvValue::NotUnicode("c".to_string());
    assert_eq!(
        Config::from_env(&e).unwrap_err(),
        ConfigError::NotUnicode(EnvVar::CommandInputChannelId, "c".to_string())
    );
}

#[test]
fn zones_by_exact_name() {
    assert_eq!(Zone::parse("Asia/Tokyo").unwrap().as_str(), "Asia/Tokyo");
    assert!(Zone::parse("Mars/Olympus").is_none());
    assert!(Zone::parse("utc").is_none());
    assert_eq!(Zone::utc().as_str(), "UTC");
}

#[test]
fn integer_parsing_like_std() {
    assert_eq!(parse_unsigned_str("+12", 100), Ok(12));
    assert_eq!(parse_unsigned_str("", 100), Err(ParseIntKind::Empty));
    assert_eq!(parse_unsigned_str("-", 100), Err(ParseIntKind::InvalidDigit));
    assert_eq!(parse_unsigned_str("-1", 100), Err(ParseIntKind::InvalidDigit));
    assert_eq!(parse_unsigned_str("101", 100), Err(ParseIntKind::PosOverflow));
    assert_eq!(parse_unsigned_str("1a", 100), Err(ParseIntKind::InvalidDigit));
    assert_eq!(parse_unsigned_str("18446744073709551615", u64::MAX), Ok(u64::MAX));
    assert_eq!(parse_unsigned_str("18446744073709551616", u64::MAX), Err(ParseIntKind::PosOverflow));
    assert_eq!(parse_i64_str("-9223372036854775808"), Some(i64::MIN));
    assert_eq!(parse_i64_str("9223372036854775808"), None);
    assert_eq!(parse_i64_str("+7"), Some(7));
    assert_eq!(parse_i64_str("x"), None);
}

#[test]
fn error_messages() {
    assert_eq!(ConfigError::Missing(EnvVar::DiscordToken).message(), "environment variable not found");
    assert_eq!(
        ConfigError::InvalidNumber(EnvVar::ApplicationId, ParseIntKind::InvalidDigit).message(),
        "invalid digit found in string"
    );
    assert_eq!(
        ConfigError::InvalidNumber(EnvVar::ApplicationId, ParseIntKind::Empty).message(),
        "cannot parse integer from empty string"
    );
    assert_eq!(
        ConfigError::InvalidNumber(EnvVar::ApplicationId, ParseIntKind::PosOverflow).message(),
        "number too large to fit in target type"
    );
    assert_eq!(
        ConfigError::MissingCategory(EnvVar::VoiceChannelCategoryId).message(),
        "Missing required voice category id in VOICE_CHANNEL_CATEGORY_ID"
    );
    assert_eq!(EnvVar::ArchivedChannelCategoryId.name(), "ARCHIVED_CHANNEL_CATEGORY_ID");
}

#[test]
fn zero_channel_ids_are_spotted() {
    assert!(reads_as_zero(&p("0")));
    assert!(reads_as_zero(&p("+000")));
    assert!(!reads_as_zero(&p("5")));
    assert!(!reads_as_zero(&p(" ")));
    assert!(!reads_as_zero(&EnvValue::Missing));
    assert!(!reads_as_zero(&EnvValue::NotUnicode("0".to_string())));
}

#[test]
fn text_and_voice_categories_are_optional() {
    let mut e = env();
    e.text_channel_category_id = EnvValue::Missing;
    e.voice_channel_category_id = EnvValue::Missing;
    e.text_channel_activity_lookback_seconds = p("3600");
    let c = Config::from_env(&e).unwrap();
    assert_eq!(c.text_channel_category_id, None);
    assert_eq!(c.voice_channel_category_id, None);
    assert_eq!(c.archived_channel_category_id, 12);
    assert_eq!(c.text_channel_activity_lookback_seconds, 3600);
}

#[test]
fn tier_settings_defaults() {
    let env = TierEnv {
        eval_interval_seconds: EnvValue::Missing,
        category_ids: vec![EnvValue::Missing; 9],
        capacity: EnvValue::Missing,
        swap_count: EnvValue::Missing,
        prune_count: EnvValue::Missing,
    };
    assert_eq!(
        tier_settings(&env),
        TierSettings { eval_interval_seconds: 3_600, category_ids: vec![], capacity: 50, swap_count: 0, prune_count: 0 }
    );
}

#[test]
fn tier_settings_as_given() {
    let env = TierEnv {
        eval_interval_seconds: p("86400"),
        category_ids: vec![p("11"), EnvValue::Missing, p("0"), p("x"), p("+13"), EnvValue::NotUnicode("\"\\xff\"".to_string())],
        capacity: p("0"),
        swap_count: p("10"),
        prune_count: p("-1"),
    };
    assert_eq!(
        tier_settings(&env),
        TierSettings { eval_interval_seconds: 86_400, category_ids: vec![11, 13], capacity: 50, swap_count: 10, prune_count: 0 }
    );
}
