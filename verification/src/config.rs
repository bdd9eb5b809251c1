//! The bot's configuration, computed from the environment variables it reads.

use vstd::prelude::*;
use crate::clock::{known_time_zone, Zone};
use crate::text::{
    all_digits, blank, chars_of, decimal, digit_char, digit_value, is_ascii_digit, is_blank, lemma_digit_char_value,
};

verus! {

/// What reading one environment variable gave (`std::env::var`).
#[derive(Debug, Clone, PartialEq, Eq)]
pub enum EnvValue {
    Present(String),
    Missing,
    /// Set, but not valid Unicode; what was read, as the standard library
    /// shows it.
    NotUnicode(String),
}

/// The environment variables the bot reads, as they were found.
#[derive(Debug, Clone)]
pub struct EnvSnapshot {
    pub discord_token: EnvValue,
    pub application_id: EnvValue,
    pub database_url: EnvValue,
    pub redis_url: EnvValue,
    pub max_server_channels: EnvValue,
    pub text_channel_budget: EnvValue,
    pub voice_cleanup_delay_seconds: EnvValue,
    pub archive_poll_interval_seconds: EnvValue,
    pub archive_grace_period_seconds: EnvValue,
    pub text_channel_delete_notice_seconds: EnvValue,
    pub text_channel_extension_seconds: EnvValue,
    pub text_channel_capacity: EnvValue,
    pub watchlist_limit: EnvValue,
    pub text_channel_activity_lookback_seconds: EnvValue,
    pub time_zone: EnvValue,
    pub command_input_channel_id: EnvValue,
    pub text_channel_category_id: EnvValue,
    pub text_category_prefix: EnvValue,
    pub text_category_position_base: EnvValue,
    pub voice_channel_category_id: EnvValue,
    pub archived_channel_category_id: EnvValue,
}

/// The variables whose problems stop the bot from starting.
#[derive(Debug, Clone, Copy, PartialEq, Eq)]
pub enum EnvVar {
    DiscordToken,
    ApplicationId,
    DatabaseUrl,
    RedisUrl,
    CommandInputChannelId,
    TextChannelCategoryId,
    VoiceChannelCategoryId,
    ArchivedChannelCategoryId,
}

/// Why `str::parse` refused an integer (`std::num::IntErrorKind`).
#[derive(Debug, Clone, Copy, PartialEq, Eq)]
pub enum ParseIntKind {
    Empty,
    InvalidDigit,
    PosOverflow,
}

/// Why no configuration could be built.
#[derive(Debug, Clone, PartialEq, Eq)]
pub enum ConfigError {
    Missing(EnvVar),
    NotUnicode(EnvVar, String),
    InvalidNumber(EnvVar, ParseIntKind),
    MissingCategory(EnvVar),
}

/// The bot's settings. Channel ids are never zero; `time_zone` is a zone
/// name that chrono-tz knows.
#[derive(Debug)]
pub struct Config {
    pub discord_token: String,
    pub application_id: u64,
    pub database_url: String,
    pub redis_url: String,
    pub max_server_channels: usize,
    pub text_channel_budget: usize,
    pub voice_cleanup_delay_seconds: u64,
    pub archive_poll_interval_seconds: u64,
    pub archive_grace_period_seconds: u64,
    pub text_channel_delete_notice_seconds: u64,
    pub text_channel_extension_seconds: u64,
    pub command_input_channel_id: Option<u64>,
    pub text_channel_category_id: Option<u64>,
    pub text_category_prefix: String,
    pub text_category_position_base: i64,
    pub voice_channel_category_id: Option<u64>,
    pub archived_channel_category_id: u64,
    pub text_channel_capacity: usize,
    pub watchlist_limit: usize,
    pub text_channel_activity_lookback_seconds: u64,
    pub time_zone: Zone,
}

pub const DEFAULT_MAX_SERVER_CHANNELS: u64 = 480;
pub const DEFAULT_TEXT_CHANNEL_BUDGET: u64 = 430;
pub const DEFAULT_VOICE_CLEANUP_DELAY_SECONDS: u64 = 60;
pub const DEFAULT_ARCHIVE_POLL_INTERVAL_SECONDS: u64 = 86_400;
pub const DEFAULT_ARCHIVE_GRACE_PERIOD_SECONDS: u64 = 5_184_000;
pub const DEFAULT_TEXT_CHANNEL_DELETE_NOTICE_SECONDS: u64 = 259_200;
pub const DEFAULT_TEXT_CHANNEL_EXTENSION_SECONDS: u64 = 604_800;
pub const DEFAULT_TEXT_CHANNEL_CAPACITY: u64 = 150;
pub const DEFAULT_WATCHLIST_LIMIT: u64 = 30;
pub const DEFAULT_TEXT_CHANNEL_ACTIVITY_LOOKBACK_SECONDS: u64 = 604_800;
pub const DEFAULT_TEXT_CATEGORY_POSITION_BASE: i64 = 50;
pub const DEFAULT_TEXT_ACTIVITY_EVAL_INTERVAL_SECONDS: u64 = 3_600;
pub const DEFAULT_TEXT_CATEGORY_CAPACITY: u64 = 50;

/// Value of the decimal digits `d`.
pub open spec fn digits_value(d: Seq<char>) -> nat
    decreases d.len(),
{
    if d.len() == 0 {
        0
    } else {
        digits_value(d.drop_last()) * 10 + digit_value(d.last()) as nat
    }
}

/// Index of the first character of `d` that is not an ASCII digit, or `d.len()`.
pub open spec fn digit_run(d: Seq<char>) -> nat
    decreases d.len(),
{
    if d.len() == 0 || !is_ascii_digit(d[0]) {
        0
    } else {
        1 + digit_run(d.drop_first())
    }
}

/// The digits of an unsigned literal: an optional leading `'+'` dropped.
pub open spec fn unsigned_body(s: Seq<char>) -> Seq<char> {
    if s.len() > 0 && s[0] == '+' {
        s.drop_first()
    } else {
        s
    }
}

/// `str::parse` for an unsigned integer type whose largest value is `max`.
pub open spec fn parse_unsigned(s: Seq<char>, max: nat) -> Result<nat, ParseIntKind> {
    if s.len() == 0 {
        Err(ParseIntKind::Empty)
    } else if s.len() == 1 && (s[0] == '+' || s[0] == '-') {
        Err(ParseIntKind::InvalidDigit)
    } else {
        let d = unsigned_body(s);
        let k = digit_run(d);
        if digits_value(d.take(k as int)) > max {
            Err(ParseIntKind::PosOverflow)
        } else if k < d.len() {
            Err(ParseIntKind::InvalidDigit)
        } else {
            Ok(digits_value(d))
        }
    }
}

/// `str::parse::<i64>().ok()`.
pub open spec fn parse_i64(s: Seq<char>) -> Option<int> {
    if s.len() == 0 || (s.len() == 1 && (s[0] == '+' || s[0] == '-')) {
        None
    } else if s[0] == '-' {
        let d = s.drop_first();
        if all_digits(d) && digits_value(d) <= 0x8000_0000_0000_0000 {
            Some(-(digits_value(d) as int))
        } else {
            None
        }
    } else {
        let d = unsigned_body(s);
        if all_digits(d) && digits_value(d) <= i64::MAX {
            Some(digits_value(d) as int)
        } else {
            None
        }
    }
}

/// A setting that must be a positive integer at most `max`, else `default`.
pub open spec fn positive_setting(v: EnvValue, default: nat, max: nat) -> nat {
    match v {
        EnvValue::Present(s) => match parse_unsigned(s@, max) {
            Ok(n) => if n > 0 {
                n
            } else {
                default
            },
            Err(_) => default,
        },
        _ => default,
    }
}

/// A channel id setting: `Err` when unreadable, `None` when unset, blank or not a number.
pub open spec fn channel_setting(v: EnvValue) -> Result<Option<nat>, ()> {
    match v {
        EnvValue::NotUnicode(_) => Err(()),
        EnvValue::Missing => Ok(None),
        EnvValue::Present(s) => if blank(s@) {
            Ok(None)
        } else {
            match parse_unsigned(s@, u64::MAX as nat) {
                Ok(n) => Ok(Some(n)),
                Err(_) => Ok(None),
            }
        },
    }
}

/// A channel id setting that reads as the id 0, which Discord ids never are.
pub open spec fn zero_channel(v: EnvValue) -> bool {
    channel_setting(v) == Ok::<Option<nat>, ()>(Some(0nat))
}

/// The time zone name: the one given if chrono-tz knows it, else `"UTC"`.
pub open spec fn zone_setting(v: EnvValue) -> Seq<char> {
    match v {
        EnvValue::Present(s) => if known_time_zone(s@) {
            s@
        } else {
            "UTC"@
        },
        _ => "UTC"@,
    }
}

/// The text category prefix: the one given unless blank, else `"isbn-text"`.
pub open spec fn prefix_setting(v: EnvValue) -> Seq<char> {
    match v {
        EnvValue::Present(s) => if blank(s@) {
            "isbn-text"@
        } else {
            s@
        },
        _ => "isbn-text"@,
    }
}

/// The text category position base: the integer given, else 50.
pub open spec fn position_setting(v: EnvValue) -> int {
    match v {
        EnvValue::Present(s) => match parse_i64(s@) {
            Some(n) => n,
            None => DEFAULT_TEXT_CATEGORY_POSITION_BASE as int,
        },
        _ => DEFAULT_TEXT_CATEGORY_POSITION_BASE as int,
    }
}

/// The error reading a required variable gives, if any.
pub open spec fn required_error(v: EnvValue, var: EnvVar) -> Option<ConfigError> {
    match v {
        EnvValue::Present(_) => None,
        EnvValue::Missing => Some(ConfigError::Missing(var)),
        EnvValue::NotUnicode(shown) => Some(ConfigError::NotUnicode(var, shown)),
    }
}

/// The error an optional channel id gives, if any.
pub open spec fn channel_error(v: EnvValue, var: EnvVar) -> Option<ConfigError> {
    match v {
        EnvValue::NotUnicode(shown) => Some(ConfigError::NotUnicode(var, shown)),
        _ => None,
    }
}

/// The error a required category id gives, if any.
pub open spec fn category_error(v: EnvValue, var: EnvVar) -> Option<ConfigError> {
    match v {
        EnvValue::NotUnicode(shown) => Some(ConfigError::NotUnicode(var, shown)),
        _ => match channel_setting(v) {
            Ok(None) => Some(ConfigError::MissingCategory(var)),
            _ => None,
        },
    }
}

/// The application id error, if any.
pub open spec fn application_id_error(v: EnvValue) -> Option<ConfigError> {
    match v {
        EnvValue::Present(s) => match parse_unsigned(s@, u64::MAX as nat) {
            Ok(_) => None,
            Err(k) => Some(ConfigError::InvalidNumber(EnvVar::ApplicationId, k)),
        },
        _ => required_error(v, EnvVar::ApplicationId),
    }
}

/// The first problem, in the order the variables are read, if there is one.
pub open spec fn config_error(env: EnvSnapshot) -> Option<ConfigError> {
    if required_error(env.discord_token, EnvVar::DiscordToken) is Some {
        required_error(env.discord_token, EnvVar::DiscordToken)
    } else if application_id_error(env.application_id) is Some {
        application_id_error(env.application_id)
    } else if required_error(env.database_url, EnvVar::DatabaseUrl) is Some {
        required_error(env.database_url, EnvVar::DatabaseUrl)
    } else if required_error(env.redis_url, EnvVar::RedisUrl) is Some {
        required_error(env.redis_url, EnvVar::RedisUrl)
    } else if channel_error(env.command_input_channel_id, EnvVar::CommandInputChannelId) is Some {
        channel_error(env.command_input_channel_id, EnvVar::CommandInputChannelId)
    } else if channel_error(env.text_channel_category_id, EnvVar::TextChannelCategoryId) is Some {
        channel_error(env.text_channel_category_id, EnvVar::TextChannelCategoryId)
    } else if channel_error(env.voice_channel_category_id, EnvVar::VoiceChannelCategoryId) is Some {
        channel_error(env.voice_channel_category_id, EnvVar::VoiceChannelCategoryId)
    } else {
        category_error(env.archived_channel_category_id, EnvVar::ArchivedChannelCategoryId)
    }
}

/// The text of a variable that is set, else nothing.
pub open spec fn present_text(v: EnvValue) -> Seq<char> {
    match v {
        EnvValue::Present(s) => s@,
        _ => Seq::empty(),
    }
}

/// The configuration that an environment without problems gives.
pub open spec fn config_matches(c: Config, env: EnvSnapshot) -> bool {
    &&& c.discord_token@ == present_text(env.discord_token)
    &&& Ok::<nat, ParseIntKind>(c.application_id as nat) == parse_unsigned(
        present_text(env.application_id),
        u64::MAX as nat,
    )
    &&& c.database_url@ == present_text(env.database_url)
    &&& c.redis_url@ == present_text(env.redis_url)
    &&& c.max_server_channels == positive_setting(
        env.max_server_channels,
        DEFAULT_MAX_SERVER_CHANNELS as nat,
        usize::MAX as nat,
    )
    &&& c.text_channel_budget == positive_setting(
        env.text_channel_budget,
        DEFAULT_TEXT_CHANNEL_BUDGET as nat,
        usize::MAX as nat,
    )
    &&& c.voice_cleanup_delay_seconds == positive_setting(
        env.voice_cleanup_delay_seconds,
        DEFAULT_VOICE_CLEANUP_DELAY_SECONDS as nat,
        u64::MAX as nat,
    )
    &&& c.archive_poll_interval_seconds == positive_setting(
        env.archive_poll_interval_seconds,
        DEFAULT_ARCHIVE_POLL_INTERVAL_SECONDS as nat,
        u64::MAX as nat,
    )
    &&& c.archive_grace_period_seconds == positive_setting(
        env.archive_grace_period_seconds,
        DEFAULT_ARCHIVE_GRACE_PERIOD_SECONDS as nat,
        u64::MAX as nat,
    )
    &&& c.text_channel_delete_notice_seconds == positive_setting(
        env.text_channel_delete_notice_seconds,
        DEFAULT_TEXT_CHANNEL_DELETE_NOTICE_SECONDS as nat,
        u64::MAX as nat,
    )
    &&& c.text_channel_extension_seconds == positive_setting(
        env.text_channel_extension_seconds,
        DEFAULT_TEXT_CHANNEL_EXTENSION_SECONDS as nat,
        u64::MAX as nat,
    )
    &&& c.text_channel_capacity == positive_setting(
        env.text_channel_capacity,
        DEFAULT_TEXT_CHANNEL_CAPACITY as nat,
        usize::MAX as nat,
    )
    &&& c.watchlist_limit == positive_setting(
        env.watchlist_limit,
        DEFAULT_WATCHLIST_LIMIT as nat,
        usize::MAX as nat,
    )
    &&& c.time_zone@ == zone_setting(env.time_zone)
    &&& Ok::<Option<nat>, ()>(
        match c.command_input_channel_id {
            Some(id) => Some(id as nat),
            None => None,
        },
    ) == channel_setting(env.command_input_channel_id)
    &&& Ok::<Option<nat>, ()>(
        match c.text_channel_category_id {
            Some(id) => Some(id as nat),
            None => None,
        },
    ) == channel_setting(env.text_channel_category_id)
    &&& c.text_category_prefix@ == prefix_setting(env.text_category_prefix)
    &&& c.text_category_position_base == position_setting(env.text_category_position_base)
    &&& Ok::<Option<nat>, ()>(
        match c.voice_channel_category_id {
            Some(id) => Some(id as nat),
            None => None,
        },
    ) == channel_setting(env.voice_channel_category_id)
    &&& c.text_channel_activity_lookback_seconds == positive_setting(
        env.text_channel_activity_lookback_seconds,
        DEFAULT_TEXT_CHANNEL_ACTIVITY_LOOKBACK_SECONDS as nat,
        u64::MAX as nat,
    )
    &&& Ok::<Option<nat>, ()>(Some(c.archived_channel_category_id as nat)) == channel_setting(
        env.archived_channel_category_id,
    )
}

impl Config {
    /// Well-formedness: channel ids are not zero.
    pub open spec fn wf(&self) -> bool {
        &&& self.command_input_channel_id != Some(0u64)
        &&& self.text_channel_category_id != Some(0u64)
        &&& self.voice_channel_category_id != Some(0u64)
        &&& self.archived_channel_category_id != 0
    }

    /// Builds the configuration from the variables read, with the defaults
    /// for settings that are unset, unreadable or not positive.
    pub fn from_env(env: &EnvSnapshot) -> (r: Result<Config, ConfigError>)
        requires
            !zero_channel(env.command_input_channel_id),
            !zero_channel(env.text_channel_category_id),
            !zero_channel(env.voice_channel_category_id),
            !zero_channel(env.archived_channel_category_id),
        ensures
            r is Ok <==> config_error(*env) is None,
            r matches Err(e) ==> config_error(*env) == Some(e),
            r matches Ok(c) ==> config_matches(c, *env) && c.wf(),
    {
        let discord_token = required_var(&env.discord_token, EnvVar::DiscordToken)?;
        let application_id = match &env.application_id {
            EnvValue::Present(s) => match parse_unsigned_str(s.as_str(), u64::MAX) {
                Ok(n) => n,
                Err(k) => {
                    return Err(ConfigError::InvalidNumber(EnvVar::ApplicationId, k));
                },
            },
            EnvValue::Missing => {
                return Err(ConfigError::Missing(EnvVar::ApplicationId));
            },
            EnvValue::NotUnicode(shown) => {
                return Err(ConfigError::NotUnicode(EnvVar::ApplicationId, shown.clone()));
            },
        };
        let database_url = required_var(&env.database_url, EnvVar::DatabaseUrl)?;
        let redis_url = required_var(&env.redis_url, EnvVar::RedisUrl)?;
        let max_server_channels = positive_or_default(
            &env.max_server_channels,
            DEFAULT_MAX_SERVER_CHANNELS,
            usize::MAX as u64,
        ) as usize;
        let text_channel_budget = positive_or_default(
            &env.text_channel_budget,
            DEFAULT_TEXT_CHANNEL_BUDGET,
            usize::MAX as u64,
        ) as usize;
        let voice_cleanup_delay_seconds = positive_or_default(
            &env.voice_cleanup_delay_seconds,
            DEFAULT_VOICE_CLEANUP_DELAY_SECONDS,
            u64::MAX,
        );
        let archive_poll_interval_seconds = positive_or_default(
            &env.archive_poll_interval_seconds,
            DEFAULT_ARCHIVE_POLL_INTERVAL_SECONDS,
            u64::MAX,
        );
        let archive_grace_period_seconds = positive_or_default(
            &env.archive_grace_period_seconds,
            DEFAULT_ARCHIVE_GRACE_PERIOD_SECONDS,
            u64::MAX,
        );
        let text_channel_delete_notice_seconds = positive_or_default(
            &env.text_channel_delete_notice_seconds,
            DEFAULT_TEXT_CHANNEL_DELETE_NOTICE_SECONDS,
            u64::MAX,
        );
        let text_channel_extension_seconds = positive_or_default(
            &env.text_channel_extension_seconds,
            DEFAULT_TEXT_CHANNEL_EXTENSION_SECONDS,
            u64::MAX,
        );
        let text_channel_capacity = positive_or_default(
            &env.text_channel_capacity,
            DEFAULT_TEXT_CHANNEL_CAPACITY,
            usize::MAX as u64,
        ) as usize;
        let watchlist_limit = positive_or_default(
            &env.watchlist_limit,
            DEFAULT_WATCHLIST_LIMIT,
            usize::MAX as u64,
        ) as usize;
        let text_channel_activity_lookback_seconds = positive_or_default(
            &env.text_channel_activity_lookback_seconds,
            DEFAULT_TEXT_CHANNEL_ACTIVITY_LOOKBACK_SECONDS,
            u64::MAX,
        );
        let time_zone = time_zone_or_utc(&env.time_zone);
        let command_input_channel_id = channel_id(
            &env.command_input_channel_id,
            EnvVar::CommandInputChannelId,
        )?;
        let text_channel_category_id = channel_id(
            &env.text_channel_category_id,
            EnvVar::TextChannelCategoryId,
        )?;
        let text_category_prefix = match &env.text_category_prefix {
            EnvValue::Present(s) => if is_blank(s.as_str()) {
                String::from_str("isbn-text")
            } else {
                s.clone()
            },
            _ => String::from_str("isbn-text"),
        };
        let text_category_position_base = match &env.text_category_position_base {
            EnvValue::Present(s) => match parse_i64_str(s.as_str()) {
                Some(n) => n,
                None => DEFAULT_TEXT_CATEGORY_POSITION_BASE,
            },
            _ => DEFAULT_TEXT_CATEGORY_POSITION_BASE,
        };
        let voice_channel_category_id = channel_id(
            &env.voice_channel_category_id,
            EnvVar::VoiceChannelCategoryId,
        )?;
        let archived_channel_category_id = required_channel_id(
            &env.archived_channel_category_id,
            EnvVar::ArchivedChannelCategoryId,
        )?;
        Ok(
            Config {
                discord_token,
                application_id,
                database_url,
                redis_url,
                max_server_channels,
                text_channel_budget,
                voice_cleanup_delay_seconds,
                archive_poll_interval_seconds,
                archive_grace_period_seconds,
                text_channel_delete_notice_seconds,
                text_channel_extension_seconds,
                command_input_channel_id,
                text_channel_category_id,
                text_category_prefix,
                text_category_position_base,
                voice_channel_category_id,
                archived_channel_category_id,
                text_channel_capacity,
                watchlist_limit,
                text_channel_activity_lookback_seconds,
                time_zone,
            },
        )
    }
}

fn required_var(v: &EnvValue, var: EnvVar) -> (r: Result<String, ConfigError>)
    ensures
        r is Ok <==> required_error(*v, var) is None,
        r matches Err(e) ==> required_error(*v, var) == Some(e),
        r matches Ok(s) ==> s@ == present_text(*v),
{
    match v {
        EnvValue::Present(s) => Ok(s.clone()),
        EnvValue::Missing => Err(ConfigError::Missing(var)),
        EnvValue::NotUnicode(shown) => Err(ConfigError::NotUnicode(var, shown.clone())),
    }
}

fn positive_or_default(v: &EnvValue, default: u64, max: u64) -> (n: u64)
    requires
        0 < default <= max,
    ensures
        n == positive_setting(*v, default as nat, max as nat),
        0 < n <= max,
{
    match v {
        EnvValue::Present(s) => match parse_unsigned_str(s.as_str(), max) {
            Ok(n) => if n > 0 {
                n
            } else {
                default
            },
            Err(_) => default,
        },
        _ => default,
    }
}

fn time_zone_or_utc(v: &EnvValue) -> (z: Zone)
    ensures
        z@ == zone_setting(*v),
{
    match v {
        EnvValue::Present(s) => match Zone::parse(s.as_str()) {
            Some(z) => z,
            None => Zone::utc(),
        },
        _ => Zone::utc(),
    }
}

/// A channel id variable: the id, `None` when unset, blank or not a number.
fn channel_id(v: &EnvValue, var: EnvVar) -> (r: Result<Option<u64>, ConfigError>)
    ensures
        r is Ok <==> channel_setting(*v) is Ok,
        r matches Err(e) ==> channel_error(*v, var) == Some(e),
        r matches Ok(o) ==> Ok::<Option<nat>, ()>(
            match o {
                Some(id) => Some(id as nat),
                None => None,
            },
        ) == channel_setting(*v),
{
    match v {
        EnvValue::NotUnicode(shown) => Err(ConfigError::NotUnicode(var, shown.clone())),
        EnvValue::Missing => Ok(None),
        EnvValue::Present(s) => {
            if is_blank(s.as_str()) {
                Ok(None)
            } else {
                match parse_unsigned_str(s.as_str(), u64::MAX) {
                    Ok(n) => Ok(Some(n)),
                    Err(_) => Ok(None),
                }
            }
        },
    }
}

/// A category id variable that must be set.
fn required_channel_id(v: &EnvValue, var: EnvVar) -> (r: Result<u64, ConfigError>)
    ensures
        r is Ok <==> category_error(*v, var) is None,
        r matches Err(e) ==> category_error(*v, var) == Some(e),
        r matches Ok(id) ==> channel_setting(*v) == Ok::<Option<nat>, ()>(Some(id as nat)),
{
    match channel_id(v, var)? {
        Some(id) => Ok(id),
        None => Err(ConfigError::MissingCategory(var)),
    }
}

proof fn lemma_digits_value_monotone(d: Seq<char>, i: int, j: int)
    requires
        0 <= i <= j <= d.len(),
    ensures
        digits_value(d.take(i)) <= digits_value(d.take(j)),
    decreases j - i,
{
    if i < j {
        lemma_digits_value_monotone(d, i, j - 1);
        assert(d.take(j).drop_last() =~= d.take(j - 1));
    }
}

proof fn lemma_digit_run_at(d: Seq<char>, i: int)
    requires
        0 <= i <= d.len(),
        forall|j: int| 0 <= j < i ==> is_ascii_digit(#[trigger] d[j]),
        i == d.len() || !is_ascii_digit(d[i]),
    ensures
        digit_run(d) == i,
    decreases i,
{
    if i > 0 {
        lemma_digit_run_at(d.drop_first(), i - 1);
    }
}

proof fn lemma_digit_run_bounds(d: Seq<char>, k: int)
    requires
        0 <= k <= d.len(),
        forall|j: int| 0 <= j < k ==> is_ascii_digit(#[trigger] d[j]),
    ensures
        k <= digit_run(d) <= d.len(),
    decreases d.len(),
{
    if d.len() > 0 && is_ascii_digit(d[0]) {
        if k > 0 {
            lemma_digit_run_bounds(d.drop_first(), k - 1);
        } else {
            lemma_digit_run_bounds(d.drop_first(), 0);
        }
    }
}

/// `str::parse` for an unsigned integer type whose largest value is `max`.
pub fn parse_unsigned_str(s: &str, max: u64) -> (r: Result<u64, ParseIntKind>)
    ensures
        match (r, parse_unsigned(s@, max as nat)) {
            (Ok(n), Ok(m)) => n == m,
            (Err(k), Err(l)) => k == l,
            _ => false,
        },
        r matches Ok(n) ==> n <= max,
{
    let chars = chars_of(s);
    if chars.len() == 0 {
        return Err(ParseIntKind::Empty);
    }
    if chars.len() == 1 && (chars[0] == '+' || chars[0] == '-') {
        return Err(ParseIntKind::InvalidDigit);
    }
    let start: usize = if chars[0] == '+' {
        1
    } else {
        0
    };
    let ghost d = unsigned_body(s@);
    assert(d =~= chars@.skip(start as int));
    let mut value: u64 = 0;
    let mut i: usize = start;
    while i < chars.len()
        invariant
            start <= i <= chars@.len(),
            chars@ == s@,
            d == chars@.skip(start as int),
            d == unsigned_body(s@),
            s@.len() > 0,
            !(s@.len() == 1 && (s@[0] == '+' || s@[0] == '-')),
            forall|j: int| 0 <= j < i - start ==> is_ascii_digit(#[trigger] d[j]),
            value == digits_value(d.take(i - start)),
            value <= max,
        decreases chars.len() - i,
    {
        let c = chars[i];
        assert(d[i - start] == c);
        if !('0' <= c && c <= '9') {
            proof {
                lemma_digit_run_at(d, i - start);
                assert(digit_run(d) == i - start);
                assert(d.take(digit_run(d) as int) == d.take(i - start));
            }
            return Err(ParseIntKind::InvalidDigit);
        }
        let digit = (c as u32 - '0' as u32) as u64;
        assert(d.take(i - start + 1).drop_last() =~= d.take(i - start));
        if (value as u128) * 10 + (digit as u128) > (max as u128) {
            proof {
                let k: int = i - start + 1;
                assert(digits_value(d.take(k)) == value * 10 + digit);
                lemma_digit_run_bounds(d, k);
                lemma_digits_value_monotone(d, k, digit_run(d) as int);
            }
            return Err(ParseIntKind::PosOverflow);
        }
        value = value * 10 + digit;
        i += 1;
    }
    proof {
        lemma_digit_run_at(d, d.len() as int);
        assert(d.take(d.len() as int) =~= d);
    }
    Ok(value)
}

/// `str::parse::<i64>().ok()`.
pub fn parse_i64_str(s: &str) -> (r: Option<i64>)
    ensures
        match (r, parse_i64(s@)) {
            (Some(n), Some(m)) => n == m,
            (None, None) => true,
            _ => false,
        },
{
    let chars = chars_of(s);
    if chars.len() == 0 || (chars.len() == 1 && (chars[0] == '+' || chars[0] == '-')) {
        return None;
    }
    let negative = chars[0] == '-';
    let start: usize = if chars[0] == '+' || chars[0] == '-' {
        1
    } else {
        0
    };
    let limit: u64 = if negative {
        0x8000_0000_0000_0000
    } else {
        0x7FFF_FFFF_FFFF_FFFF
    };
    let ghost d = chars@.skip(start as int);
    assert(negative ==> d =~= s@.drop_first());
    assert(!negative ==> d =~= unsigned_body(s@));
    let mut value: u64 = 0;
    let mut i: usize = start;
    while i < chars.len()
        invariant
            start <= i <= chars@.len(),
            chars@ == s@,
            d == chars@.skip(start as int),
            s@.len() > 0,
            !(s@.len() == 1 && (s@[0] == '+' || s@[0] == '-')),
            negative == (s@[0] == '-'),
            negative ==> d == s@.drop_first() && limit == 0x8000_0000_0000_0000u64,
            !negative ==> d == unsigned_body(s@) && limit == 0x7FFF_FFFF_FFFF_FFFFu64,
            forall|j: int| 0 <= j < i - start ==> is_ascii_digit(#[trigger] d[j]),
            value == digits_value(d.take(i - start)),
            value <= limit,
        decreases chars.len() - i,
    {
        let c = chars[i];
        assert(d[i - start] == c);
        if !('0' <= c && c <= '9') {
            assert(!is_ascii_digit(d[i - start]));
            assert(!all_digits(d));
            return None;
        }
        let digit = (c as u32 - '0' as u32) as u64;
        assert(d.take(i - start + 1).drop_last() =~= d.take(i - start));
        if (value as u128) * 10 + (digit as u128) > (limit as u128) {
            proof {
                let k: int = i - start + 1;
                assert(digits_value(d.take(k)) == value * 10 + digit);
                if all_digits(d) {
                    lemma_digits_value_monotone(d, k, d.len() as int);
                    assert(d.take(d.len() as int) =~= d);
                }
            }
            return None;
        }
        value = value * 10 + digit;
        i += 1;
    }
    assert(d.take(d.len() as int) =~= d);
    assert(all_digits(d));
    if negative {
        if value == 0x8000_0000_0000_0000 {
            Some(i64::MIN)
        } else {
            Some(-(value as i64))
        }
    } else {
        assert(d == unsigned_body(s@));
        Some(value as i64)
    }
}

/// The decimal text of `n` is a non-empty run of digits whose value is `n`.
pub proof fn lemma_decimal_digits(n: nat)
    ensures
        decimal(n).len() > 0,
        all_digits(decimal(n)),
        digits_value(decimal(n)) == n,
    decreases n,
{
    if n < 10 {
        lemma_digit_char_value(n);
        assert(decimal(n).drop_last() =~= Seq::<char>::empty());
        assert(digits_value(decimal(n)) == digits_value(Seq::<char>::empty()) * 10 + digit_value(
            digit_char(n),
        ) as nat);
    } else {
        lemma_decimal_digits(n / 10);
        lemma_digit_char_value(n % 10);
        let d = decimal(n);
        assert(d.drop_last() =~= decimal(n / 10));
        assert(d.last() == digit_char(n % 10));
        assert(digits_value(d) == digits_value(decimal(n / 10)) * 10 + digit_value(d.last()) as nat);
        assert(n == (n / 10) * 10 + n % 10);
        assert forall|i: int| 0 <= i < d.len() implies is_ascii_digit(#[trigger] d[i]) by {
            if i < d.len() - 1 {
                assert(d[i] == decimal(n / 10)[i]);
            }
        }
    }
}

/// Parsing reads back what decimal rendering writes: the decimal text of
/// any `n` within range parses to `n`.
pub proof fn law_parse_reads_decimal(n: nat, max: nat)
    requires
        n <= max,
    ensures
        parse_unsigned(decimal(n), max) == Ok::<nat, ParseIntKind>(n),
{
    let d = decimal(n);
    lemma_decimal_digits(n);
    assert(is_ascii_digit(d[0]));
    assert(unsigned_body(d) == d);
    lemma_digit_run_at(d, d.len() as int);
    assert(d.take(d.len() as int) =~= d);
}

/// Each setting is read from its own variable alone: two environments that
/// agree on a setting's variable give configurations that agree on that
/// setting, whatever the other variables hold.
pub proof fn law_settings_read_their_own_variables(c1: Config, e1: EnvSnapshot, c2: Config, e2: EnvSnapshot)
    requires
        config_matches(c1, e1),
        config_matches(c2, e2),
    ensures
        e1.max_server_channels == e2.max_server_channels ==> c1.max_server_channels
            == c2.max_server_channels,
        e1.text_channel_budget == e2.text_channel_budget ==> c1.text_channel_budget
            == c2.text_channel_budget,
        e1.voice_cleanup_delay_seconds == e2.voice_cleanup_delay_seconds
            ==> c1.voice_cleanup_delay_seconds == c2.voice_cleanup_delay_seconds,
        e1.archive_poll_interval_seconds == e2.archive_poll_interval_seconds
            ==> c1.archive_poll_interval_seconds == c2.archive_poll_interval_seconds,
        e1.archive_grace_period_seconds == e2.archive_grace_period_seconds
            ==> c1.archive_grace_period_seconds == c2.archive_grace_period_seconds,
        e1.text_channel_delete_notice_seconds == e2.text_channel_delete_notice_seconds
            ==> c1.text_channel_delete_notice_seconds == c2.text_channel_delete_notice_seconds,
        e1.text_channel_extension_seconds == e2.text_channel_extension_seconds
            ==> c1.text_channel_extension_seconds == c2.text_channel_extension_seconds,
        e1.text_channel_capacity == e2.text_channel_capacity ==> c1.text_channel_capacity
            == c2.text_channel_capacity,
        e1.watchlist_limit == e2.watchlist_limit ==> c1.watchlist_limit == c2.watchlist_limit,
        e1.text_channel_activity_lookback_seconds == e2.text_channel_activity_lookback_seconds
            ==> c1.text_channel_activity_lookback_seconds
            == c2.text_channel_activity_lookback_seconds,
        e1.time_zone == e2.time_zone ==> c1.time_zone@ == c2.time_zone@,
        e1.text_category_prefix == e2.text_category_prefix ==> c1.text_category_prefix@
            == c2.text_category_prefix@,
        e1.text_category_position_base == e2.text_category_position_base
            ==> c1.text_category_position_base == c2.text_category_position_base,
        e1.command_input_channel_id == e2.command_input_channel_id ==> c1.command_input_channel_id
            == c2.command_input_channel_id,
        e1.text_channel_category_id == e2.text_channel_category_id ==> c1.text_channel_category_id
            == c2.text_channel_category_id,
        e1.voice_channel_category_id == e2.voice_channel_category_id
            ==> c1.voice_channel_category_id == c2.voice_channel_category_id,
        e1.archived_channel_category_id == e2.archived_channel_category_id
            ==> c1.archived_channel_category_id == c2.archived_channel_category_id,
{
}

/// The deletion notice and the extension come from their own variables: a
/// positive number there is taken as it is, and an unset variable gives the
/// default (259200 s for the notice, 604800 s for the extension).
pub proof fn law_notice_and_extension_values(c: Config, env: EnvSnapshot, v: String, n: nat)
    requires
        config_matches(c, env),
    ensures
        env.text_channel_extension_seconds == EnvValue::Missing ==> c.text_channel_extension_seconds
            == 604_800,
        env.text_channel_delete_notice_seconds == EnvValue::Missing
            ==> c.text_channel_delete_notice_seconds == 259_200,
        env.text_channel_extension_seconds == EnvValue::Present(v) && parse_unsigned(
            v@,
            u64::MAX as nat,
        ) == Ok::<nat, ParseIntKind>(n) && n > 0 ==> c.text_channel_extension_seconds == n,
        env.text_channel_delete_notice_seconds == EnvValue::Present(v) && parse_unsigned(
            v@,
            u64::MAX as nat,
        ) == Ok::<nat, ParseIntKind>(n) && n > 0 ==> c.text_channel_delete_notice_seconds == n,
{
}

/// Every limit and interval the bot runs with is positive and within its
/// type: a setting that is unset, unreadable, zero, too large or not a
/// number falls back to its positive default.
pub proof fn law_positive_settings(v: EnvValue, default: nat, max: nat)
    requires
        0 < default <= max,
    ensures
        0 < positive_setting(v, default, max) <= max,
{
    if let EnvValue::Present(s) = v {
        if let Ok(n) = parse_unsigned(s@, max) {
            let d = unsigned_body(s@);
            lemma_digit_run_bounds(d, 0);
            assert(d.take(d.len() as int) =~= d);
            assert(digit_run(d) == d.len());
            assert(n <= max);
        }
    }
}

/// The name of an environment variable.
pub open spec fn env_var_name(v: EnvVar) -> Seq<char> {
    match v {
        EnvVar::DiscordToken => "DISCORD_TOKEN"@,
        EnvVar::ApplicationId => "APPLICATION_ID"@,
        EnvVar::DatabaseUrl => "DATABASE_URL"@,
        EnvVar::RedisUrl => "REDIS_URL"@,
        EnvVar::CommandInputChannelId => "COMMAND_INPUT_CHANNEL_ID"@,
        EnvVar::TextChannelCategoryId => "TEXT_CHANNEL_CATEGORY_ID"@,
        EnvVar::VoiceChannelCategoryId => "VOICE_CHANNEL_CATEGORY_ID"@,
        EnvVar::ArchivedChannelCategoryId => "ARCHIVED_CHANNEL_CATEGORY_ID"@,
    }
}

/// How a category id variable is named in messages.
pub open spec fn category_label(v: EnvVar) -> Seq<char> {
    match v {
        EnvVar::TextChannelCategoryId => "text"@,
        EnvVar::VoiceChannelCategoryId => "voice"@,
        EnvVar::ArchivedChannelCategoryId => "archived"@,
        _ => "command input"@,
    }
}

/// The message of a configuration error, as the standard library and the
/// bot word it.
pub open spec fn config_error_text(e: ConfigError) -> Seq<char> {
    match e {
        ConfigError::Missing(_) => "environment variable not found"@,
        ConfigError::NotUnicode(_, shown) => "environment variable was not valid unicode: "@ + shown@,
        ConfigError::InvalidNumber(_, ParseIntKind::Empty) => "cannot parse integer from empty string"@,
        ConfigError::InvalidNumber(_, ParseIntKind::InvalidDigit) => "invalid digit found in string"@,
        ConfigError::InvalidNumber(_, ParseIntKind::PosOverflow) => "number too large to fit in target type"@,
        ConfigError::MissingCategory(v) => "Missing required "@ + category_label(v)
            + " category id in "@ + env_var_name(v),
    }
}

impl EnvVar {
    /// The variable's name.
    pub fn name(&self) -> (n: &'static str)
        ensures
            n@ == env_var_name(*self),
    {
        match self {
            EnvVar::DiscordToken => "DISCORD_TOKEN",
            EnvVar::ApplicationId => "APPLICATION_ID",
            EnvVar::DatabaseUrl => "DATABASE_URL",
            EnvVar::RedisUrl => "REDIS_URL",
            EnvVar::CommandInputChannelId => "COMMAND_INPUT_CHANNEL_ID",
            EnvVar::TextChannelCategoryId => "TEXT_CHANNEL_CATEGORY_ID",
            EnvVar::VoiceChannelCategoryId => "VOICE_CHANNEL_CATEGORY_ID",
            EnvVar::ArchivedChannelCategoryId => "ARCHIVED_CHANNEL_CATEGORY_ID",
        }
    }
}

impl ConfigError {
    /// The message shown when the bot cannot start.
    pub fn message(&self) -> (m: String)
        ensures
            m@ == config_error_text(*self),
    {
        match self {
            ConfigError::Missing(_) => String::from_str("environment variable not found"),
            ConfigError::NotUnicode(_, shown) => {
                let mut m = String::from_str("environment variable was not valid unicode: ");
                m.append(shown.as_str());
                m
            },
            ConfigError::InvalidNumber(_, ParseIntKind::Empty) => String::from_str(
                "cannot parse integer from empty string",
            ),
            ConfigError::InvalidNumber(_, ParseIntKind::InvalidDigit) => String::from_str(
                "invalid digit found in string",
            ),
            ConfigError::InvalidNumber(_, ParseIntKind::PosOverflow) => String::from_str(
                "number too large to fit in target type",
            ),
            ConfigError::MissingCategory(v) => {
                let mut m = String::from_str("Missing required ");
                let label = match v {
                    EnvVar::TextChannelCategoryId => "text",
                    EnvVar::VoiceChannelCategoryId => "voice",
                    EnvVar::ArchivedChannelCategoryId => "archived",
                    _ => "command input",
                };
                m.append(label);
                m.append(" category id in ");
                m.append(v.name());
                m
            },
        }
    }
}

/// Whether a channel id variable reads as the id 0, which no channel has
/// (the bot refuses to start on it).
pub fn reads_as_zero(v: &EnvValue) -> (b: bool)
    ensures
        b == zero_channel(*v),
{
    match channel_id(v, EnvVar::TextChannelCategoryId) {
        Ok(Some(id)) => id == 0,
        _ => false,
    }
}

/// The variables of the activity tiers, as they were found; the category
/// ids are `TEXT_CATEGORY_1_ID`, `TEXT_CATEGORY_2_ID`, ... in order.
#[derive(Debug, Clone)]
pub struct TierEnv {
    pub eval_interval_seconds: EnvValue,
    pub category_ids: Vec<EnvValue>,
    pub capacity: EnvValue,
    pub swap_count: EnvValue,
    pub prune_count: EnvValue,
}

/// The integer settings of the activity tiers.
#[derive(Debug, Clone, PartialEq, Eq)]
pub struct TierSettings {
    pub eval_interval_seconds: u64,
    pub category_ids: Vec<u64>,
    pub capacity: usize,
    pub swap_count: usize,
    pub prune_count: usize,
}

/// A count that may be zero: the integer given (at most `max`), else 0.
pub open spec fn count_setting(v: EnvValue, max: nat) -> nat {
    match v {
        EnvValue::Present(s) => match parse_unsigned(s@, max) {
            Ok(n) => n,
            Err(_) => 0,
        },
        _ => 0,
    }
}

/// A tier category id: the id given, unless unset, not a number or 0.
pub open spec fn category_id_setting(v: EnvValue) -> Option<nat> {
    match v {
        EnvValue::Present(s) => match parse_unsigned(s@, u64::MAX as nat) {
            Ok(n) => if n > 0 {
                Some(n)
            } else {
                None
            },
            Err(_) => None,
        },
        _ => None,
    }
}

/// The tier categories, top tier first: the ids that are set, in order.
pub open spec fn category_ids_of(vs: Seq<EnvValue>) -> Seq<u64>
    decreases vs.len(),
{
    if vs.len() == 0 {
        seq![]
    } else {
        let rest = category_ids_of(vs.drop_last());
        match category_id_setting(vs.last()) {
            Some(n) => rest.push(n as u64),
            None => rest,
        }
    }
}

fn count_or_zero(v: &EnvValue, max: u64) -> (n: u64)
    ensures
        n == count_setting(*v, max as nat),
        n <= max,
{
    match v {
        EnvValue::Present(s) => match parse_unsigned_str(s.as_str(), max) {
            Ok(n) => n,
            Err(_) => 0,
        },
        _ => 0,
    }
}

/// The settings of the activity tiers: how often they are evaluated
/// (positive, default 3600 s), the tier categories, how many channels a
/// category holds (positive, default 50), and how many channels trade places
/// between neighbouring tiers and leave the last one per evaluation (default
/// 0 each).
pub fn tier_settings(env: &TierEnv) -> (t: TierSettings)
    ensures
        t.eval_interval_seconds == positive_setting(
            env.eval_interval_seconds,
            DEFAULT_TEXT_ACTIVITY_EVAL_INTERVAL_SECONDS as nat,
            u64::MAX as nat,
        ),
        t.category_ids@ == category_ids_of(env.category_ids@),
        t.capacity == positive_setting(env.capacity, DEFAULT_TEXT_CATEGORY_CAPACITY as nat, usize::MAX as nat),
        t.swap_count == count_setting(env.swap_count, usize::MAX as nat),
        t.prune_count == count_setting(env.prune_count, usize::MAX as nat),
{
    let mut ids: Vec<u64> = Vec::new();
    let mut i: usize = 0;
    while i < env.category_ids.len()
        invariant
            i <= env.category_ids@.len(),
            ids@ == category_ids_of(env.category_ids@.take(i as int)),
        decreases env.category_ids.len() - i,
    {
        assert(env.category_ids@.take(i + 1).drop_last() =~= env.category_ids@.take(i as int));
        if let EnvValue::Present(s) = &env.category_ids[i] {
            if let Ok(n) = parse_unsigned_str(s.as_str(), u64::MAX) {
                if n > 0 {
                    ids.push(n);
                }
            }
        }
        i += 1;
    }
    assert(env.category_ids@.take(env.category_ids@.len() as int) =~= env.category_ids@);
    TierSettings {
        eval_interval_seconds: positive_or_default(
            &env.eval_interval_seconds,
            DEFAULT_TEXT_ACTIVITY_EVAL_INTERVAL_SECONDS,
            u64::MAX,
        ),
        category_ids: ids,
        capacity: positive_or_default(&env.capacity, DEFAULT_TEXT_CATEGORY_CAPACITY, usize::MAX as u64) as usize,
        swap_count: count_or_zero(&env.swap_count, usize::MAX as u64) as usize,
        prune_count: count_or_zero(&env.prune_count, usize::MAX as u64) as usize,
    }
}

} // verus!
