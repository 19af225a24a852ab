use kline_ingest::config::{split_list, Config, ConfigError, ConfigSource};

fn complete() -> ConfigSource {
    ConfigSource {
        base_url: Some("https://api.example.com/markets".to_string()),
        kline_endpoint: Some("candles".to_string()),
        start_time: Some("1704067200000".to_string()),
        pairs: Some("BTC_USDT, ETH_USDT ,SOL_USDT".to_string()),
        timeframes: Some(" HOUR_1,DAY_1".to_string()),
        db_host: Some("localhost".to_string()),
        db_port: Some("3301".to_string()),
        db_username: Some("guest".to_string()),
    }
}

#[test]
fn complete_settings_are_read() {
    let config = Config::from_source(complete()).unwrap();
    assert_eq!(config.base_url, "https://api.example.com/markets");
    assert_eq!(config.kline_endpoint, "candles");
    assert_eq!(config.start_time, 1_704_067_200_000);
    assert_eq!(config.pairs, vec!["BTC_USDT", "ETH_USDT", "SOL_USDT"]);
    assert_eq!(config.timeframes, vec!["HOUR_1", "DAY_1"]);
    assert_eq!(config.db_host, "localhost");
    assert_eq!(config.db_port, "3301");
    assert_eq!(config.db_username, "guest");
}

#[test]
fn each_missing_setting_has_its_error() {
    let check = |change: fn(&mut ConfigSource), want: ConfigError| {
        let mut source = complete();
        change(&mut source);
        assert_eq!(Config::from_source(source).err(), Some(want));
    };
    check(|s| s.base_url = None, ConfigError::MissingBaseUrl);
    check(|s| s.kline_endpoint = None, ConfigError::MissingKlineEndpoint);
    check(|s| s.start_time = None, ConfigError::MissingStartTime);
    check(|s| s.start_time = Some("yesterday".to_string()), ConfigError::InvalidStartTime);
    check(|s| s.start_time = Some("".to_string()), ConfigError::InvalidStartTime);
    check(|s| s.start_time = Some(" 5".to_string()), ConfigError::InvalidStartTime);
    check(|s| s.start_time = Some("9223372036854775808".to_string()), ConfigError::InvalidStartTime);
    check(|s| s.pairs = None, ConfigError::MissingPairs);
    check(|s| s.timeframes = None, ConfigError::MissingTimeframes);
    check(|s| s.db_host = None, ConfigError::MissingDbHost);
    check(|s| s.db_port = None, ConfigError::MissingDbPort);
    check(|s| s.db_username = None, ConfigError::MissingDbUsername);
}

#[test]
fn the_first_missing_setting_is_reported() {
    let mut source = complete();
    source.db_username = None;
    source.pairs = None;
    source.kline_endpoint = None;
    assert_eq!(Config::from_source(source).err(), Some(ConfigError::MissingKlineEndpoint));
}

#[test]
fn a_negative_start_time_is_accepted() {
    let mut source = complete();
    source.start_time = Some("-1".to_string());
    assert_eq!(Config::from_source(source).unwrap().start_time, -1);
}

#[test]
fn lists_are_split_at_commas_and_trimmed() {
    assert_eq!(split_list("a,b,c"), vec!["a", "b", "c"]);
    assert_eq!(split_list("  a , b\t,\nc  "), vec!["a", "b", "c"]);
    assert_eq!(split_list("a b , c"), vec!["a b", "c"]);
    assert_eq!(split_list("one"), vec!["one"]);
    assert_eq!(split_list("\u{2003}wide\u{00a0}"), vec!["wide"]);
}

#[test]
fn empty_entries_are_kept() {
    assert_eq!(split_list(""), vec![""]);
    assert_eq!(split_list("   "), vec![""]);
    assert_eq!(split_list(","), vec!["", ""]);
    assert_eq!(split_list("a,,b,"), vec!["a", "", "b", ""]);
    assert_eq!(split_list(" , "), vec!["", ""]);
}

#[test]
fn configuration_errors_describe_themselves() {
    assert_eq!(ConfigError::MissingBaseUrl.message(), "BASE_URL must be set");
    assert_eq!(ConfigError::MissingKlineEndpoint.message(), "KLINE_ENDPOINT must be set");
    assert_eq!(ConfigError::MissingStartTime.message(), "START_TIME must be set");
    assert_eq!(ConfigError::InvalidStartTime.message(), "START_TIME must be a valid i64");
    assert_eq!(ConfigError::MissingPairs.message(), "PAIRS must be set");
    assert_eq!(ConfigError::MissingTimeframes.message(), "TIMEFRAMES must be set");
    assert_eq!(ConfigError::MissingDbHost.message(), "DB_HOST must be set");
    assert_eq!(ConfigError::MissingDbPort.message(), "DB_PORT must be set");
    assert_eq!(ConfigError::MissingDbUsername.message(), "DB_USERNAME must be set");
}
