use kline_ingest::db::{
    parse_port, Cell, Database, DbConfigBuilder, DbError, Enumeration, PortError,
};
use kline_ingest::decimal::Decimal;
use kline_ingest::destination::DestinationMap;
use kline_ingest::parser::{Kline, VBS};

fn entries_of(entries: &[(u32, &str)]) -> Vec<(u32, String)> {
    entries.iter().map(|(id, name)| (*id, name.to_string())).collect()
}

fn database(entries: &[(u32, &str)]) -> Database {
    Database { space_ids: DestinationMap::from_listing(&entries_of(entries)) }
}

fn record(pair: &str) -> Kline {
    Kline {
        pair: pair.to_string(),
        time_frame: "1h".to_string(),
        o: Decimal::whole(105),
        h: Decimal::whole(110),
        l: Decimal::whole(100),
        c: Decimal::whole(108),
        utc_begin: 1_704_067_200_000,
        volume_bs: VBS {
            buy_base: Decimal::whole(350),
            sell_base: Decimal::whole(550),
            buy_quote: Decimal::whole(400),
            sell_quote: Decimal::whole(600),
        },
    }
}

fn text(cell: &Cell) -> String {
    match cell {
        Cell::Text(s) => s.clone(),
        other => panic!("not a text: {:?}", other),
    }
}

fn number(cell: &Cell) -> Decimal {
    match cell {
        Cell::Number(d) => *d,
        other => panic!("not a number: {:?}", other),
    }
}

#[test]
fn a_builder_without_settings_takes_the_defaults() {
    let config = DbConfigBuilder::new().build().unwrap();
    assert_eq!(config.host, "localhost");
    assert_eq!(config.port, 3301);
    assert_eq!(config.username, "guest");
    assert_eq!(config.password, None);
    let again = DbConfigBuilder::default().build().unwrap();
    assert_eq!(again.port, 3301);
}

#[test]
fn a_builder_keeps_what_was_set() {
    let config = DbConfigBuilder::new()
        .host("db.internal")
        .port("3302")
        .username("ingest")
        .password("pw")
        .build()
        .unwrap();
    assert_eq!(config.host, "db.internal");
    assert_eq!(config.port, 3302);
    assert_eq!(config.username, "ingest");
    assert_eq!(config.password.as_deref(), Some("pw"));
}

#[test]
fn the_last_setting_wins() {
    let config = DbConfigBuilder::new().host("a").host("b").port("1").port("2").build().unwrap();
    assert_eq!(config.host, "b");
    assert_eq!(config.port, 2);
}

#[test]
fn a_port_that_is_no_number_is_a_configuration_error() {
    let message = |port: &str| match DbConfigBuilder::new().port(port).build() {
        Err(DbError::Config(m)) => m,
        other => panic!("expected a configuration error, got {:?}", other.map(|c| c.port)),
    };
    assert_eq!(message(""), "Invalid port: cannot parse integer from empty string");
    assert_eq!(message("33o1"), "Invalid port: invalid digit found in string");
    assert_eq!(message("-1"), "Invalid port: invalid digit found in string");
    assert_eq!(message("+"), "Invalid port: invalid digit found in string");
    assert_eq!(message(" 3301"), "Invalid port: invalid digit found in string");
    assert_eq!(message("65536"), "Invalid port: number too large to fit in target type");
}

#[test]
fn ports_are_read_as_decimal_numbers() {
    assert_eq!(parse_port("0"), Ok(0));
    assert_eq!(parse_port("3301"), Ok(3301));
    assert_eq!(parse_port("+80"), Ok(80));
    assert_eq!(parse_port("00080"), Ok(80));
    assert_eq!(parse_port("65535"), Ok(65535));
    assert_eq!(parse_port("65536"), Err(PortError::TooLarge));
    assert_eq!(parse_port("99999999999999999999999999999999999999999999"), Err(PortError::TooLarge));
    assert_eq!(parse_port(""), Err(PortError::Empty));
    assert_eq!(parse_port("8o"), Err(PortError::InvalidDigit));
}

#[test]
fn the_address_joins_host_and_port() {
    let config = DbConfigBuilder::new().host("10.0.0.7").port("3302").username("u").build().unwrap();
    let settings = Database::from_config(config).unwrap();
    assert_eq!(settings.address, "10.0.0.7:3302");
    assert_eq!(settings.username, "u");
    assert_eq!(settings.password, "");
    let config = DbConfigBuilder::new().password("pw").build().unwrap();
    let settings = Database::from_config(config).unwrap();
    assert_eq!(settings.address, "localhost:3301");
    assert_eq!(settings.password, "pw");
}

#[test]
fn a_record_is_stored_in_the_destination_of_its_pair() {
    let db = database(&[(3, "klines_btc_usdt"), (4, "_vspace"), (5, "klines_eth_usdt")]);
    let request = db.save(&record("BTC_USDT")).unwrap();
    assert_eq!(request.space_id, 3);
    let request = db.save(&record("eth_usdt")).unwrap();
    assert_eq!(request.space_id, 5);
    let request = db.save(&record("Eth_Usdt")).unwrap();
    assert_eq!(request.space_id, 5);
}

#[test]
fn the_tuple_holds_the_fields_in_schema_order() {
    let db = database(&[(3, "klines_btc_usdt")]);
    let tuple = db.save(&record("BTC_USDT")).unwrap().tuple;
    assert_eq!(tuple.len(), 11);
    assert_eq!(text(&tuple[0]), "BTC_USDT");
    assert_eq!(text(&tuple[1]), "1h");
    assert_eq!(number(&tuple[2]), Decimal::whole(105));
    assert_eq!(number(&tuple[3]), Decimal::whole(110));
    assert_eq!(number(&tuple[4]), Decimal::whole(100));
    assert_eq!(number(&tuple[5]), Decimal::whole(108));
    assert!(matches!(tuple[6], Cell::Integer(1_704_067_200_000)));
    assert_eq!(number(&tuple[7]), Decimal::whole(350));
    assert_eq!(number(&tuple[8]), Decimal::whole(550));
    assert_eq!(number(&tuple[9]), Decimal::whole(400));
    assert_eq!(number(&tuple[10]), Decimal::whole(600));
}

#[test]
fn a_pair_without_destination_is_an_unknown_space() {
    let db = database(&[(3, "klines_btc_usdt"), (4, "_klines_sol_usdt")]);
    match db.save(&record("DOGE_USDT")) {
        Err(DbError::UnknownSpace(name)) => assert_eq!(name, "klines_doge_usdt"),
        other => panic!("expected an unknown space, got {:?}", other),
    }
    match db.save(&record("SOL_USDT")) {
        Err(DbError::UnknownSpace(name)) => assert_eq!(name, "klines_sol_usdt"),
        other => panic!("expected an unknown space, got {:?}", other),
    }
    assert!(matches!(db.save(&record("")), Err(DbError::UnknownSpace(_))));
}

#[test]
fn a_failed_enumeration_leaves_no_database() {
    match Database::new(Enumeration::CallFailed("timed out".to_string())) {
        Err(DbError::SpaceDiscovery(m)) => assert_eq!(m, "Failed to call get_spaces: timed out"),
        _ => panic!("expected a discovery error"),
    }
    match Database::new(Enumeration::DecodeFailed("bad reply".to_string())) {
        Err(DbError::Connection(m)) => assert_eq!(m, "bad reply"),
        _ => panic!("expected a connection error"),
    }
    let db = Database::new(Enumeration::Listed(entries_of(&[(9, "klines_x")]))).ok().unwrap();
    assert_eq!(db.space_ids.get(&"klines_x".to_string()), Some(9));
    let map = Database::discover_spaces(Enumeration::Listed(entries_of(&[(1, "_a"), (2, "b")])))
        .ok()
        .unwrap();
    assert_eq!(map.len(), 1);
}

#[test]
fn a_failed_insert_is_a_connection_error() {
    assert!(Database::insert_outcome(Ok(())).is_ok());
    match Database::insert_outcome(Err("broken pipe".to_string())) {
        Err(DbError::Connection(m)) => assert_eq!(m, "broken pipe"),
        _ => panic!("expected a connection error"),
    }
}

#[test]
fn errors_describe_themselves() {
    assert_eq!(DbError::Config("x".to_string()).message(), "Configuration error: x");
    assert_eq!(DbError::Connection("x".to_string()).message(), "Connection error: x");
    assert_eq!(DbError::Serialization("x".to_string()).message(), "Serialization error: x");
    assert_eq!(DbError::SpaceDiscovery("x".to_string()).message(), "Space discovery failed: x");
    assert_eq!(DbError::UnknownSpace("klines_a".to_string()).message(), "Unknown space: klines_a");
}
