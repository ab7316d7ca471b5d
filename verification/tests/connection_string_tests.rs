use seq_logger::connection_string::{
    parse_connection_string, split_item, ConfigError, ConnectionSettings,
};
use seq_logger::sdk::IngestRoute;
use seq_logger::seq_writer::{spit_key_value, SeqLogger};
use seq_logger::text::{chars_of, find_from, parse_decimal, reads_as, to_ascii_lower};

fn parsed(text: &str) -> Result<ConnectionSettings, ConfigError> {
    parse_connection_string(text)
}

#[test]
fn test_split_key_value() {
    let str = "A=B";

    let (key, value) = spit_key_value(str);

    assert_eq!("A", key);
    assert_eq!("B", value);
}

#[test]
fn test_split_key_value_empty_value() {
    let str = "A=";

    let (key, value) = spit_key_value(str);

    assert_eq!("A", key);
    assert_eq!("", value);
}

#[test]
fn split_is_at_the_first_separator() {
    let (key, value) = spit_key_value("url=https://x?a=b");
    assert_eq!("url", key);
    assert_eq!("https://x?a=b", value);
}

#[test]
fn split_with_empty_key() {
    let (key, value) = spit_key_value("=v");
    assert_eq!("", key);
    assert_eq!("v", value);
}

#[test]
fn split_counts_characters_not_bytes() {
    let (key, value) = spit_key_value("clé=värde");
    assert_eq!("clé", key);
    assert_eq!("värde", value);
}

#[test]
fn split_item_without_separator_is_none() {
    assert_eq!(None, split_item("abc"));
    assert_eq!(None, split_item(""));
    assert_eq!(Some(("a", "b")), split_item("a=b"));
}

#[test]
fn bare_url_resolves_to_defaults() {
    let settings = parsed("https://logs.example.com").unwrap();
    assert_eq!(
        settings,
        ConnectionSettings {
            url: Some("https://logs.example.com".to_string()),
            api_key: None,
            max_logs_flush_chunk: 50,
            flush_delay: 1,
        }
    );
}

#[test]
fn bare_url_in_capitals_is_a_url() {
    let settings = parsed("HTTP://logs.example.com;x").unwrap();
    assert_eq!(settings.url, Some("HTTP://logs.example.com;x".to_string()));
    assert_eq!(settings.api_key, None);
}

#[test]
fn full_descriptor_resolves() {
    let settings = parsed("url=https://x;apikey=SECRET;flushlogschunk=10;flushdelay=5").unwrap();
    assert_eq!(
        settings,
        ConnectionSettings {
            url: Some("https://x".to_string()),
            api_key: Some("SECRET".to_string()),
            max_logs_flush_chunk: 10,
            flush_delay: 5,
        }
    );
}

#[test]
fn keys_are_read_in_any_letter_case() {
    let settings = parsed("Url=https://x;ApiKey=k;FlushLogsChunk=7;FLUSHDELAY=3").unwrap();
    assert_eq!(settings.url, Some("https://x".to_string()));
    assert_eq!(settings.api_key, Some("k".to_string()));
    assert_eq!(settings.max_logs_flush_chunk, 7);
    assert_eq!(settings.flush_delay, 3);
}

#[test]
fn values_keep_their_letter_case() {
    let settings = parsed("url=HTTPS://X;apikey=AbC").unwrap();
    assert_eq!(settings.url, Some("HTTPS://X".to_string()));
    assert_eq!(settings.api_key, Some("AbC".to_string()));
}

#[test]
fn a_later_item_overrides_an_earlier_one() {
    let settings = parsed("url=a;url=b;flushdelay=2;flushdelay=9").unwrap();
    assert_eq!(settings.url, Some("b".to_string()));
    assert_eq!(settings.flush_delay, 9);
}

#[test]
fn missing_url_is_rejected() {
    assert_eq!(parsed("apikey=SECRET"), Err(ConfigError::MissingUrl));
    assert_eq!(parsed("flushlogschunk=10;flushdelay=5"), Err(ConfigError::MissingUrl));
}

#[test]
fn unknown_key_is_rejected() {
    assert_eq!(parsed("foo=bar"), Err(ConfigError::UnknownKey { item: 0 }));
    assert_eq!(parsed("url=https://x;foo=bar"), Err(ConfigError::UnknownKey { item: 1 }));
}

#[test]
fn item_without_separator_is_rejected() {
    assert_eq!(parsed("url"), Err(ConfigError::MissingSeparator { item: 0 }));
    assert_eq!(parsed("url=x;"), Err(ConfigError::MissingSeparator { item: 1 }));
    assert_eq!(parsed(""), Err(ConfigError::MissingSeparator { item: 0 }));
    assert_eq!(parsed("url=x;;apikey=k"), Err(ConfigError::MissingSeparator { item: 1 }));
}

#[test]
fn chunk_must_be_a_positive_number() {
    assert_eq!(
        parsed("url=x;flushlogschunk=ten"),
        Err(ConfigError::InvalidFlushLogsChunk { item: 1 })
    );
    assert_eq!(
        parsed("url=x;flushlogschunk="),
        Err(ConfigError::InvalidFlushLogsChunk { item: 1 })
    );
    assert_eq!(
        parsed("url=x;flushlogschunk=0"),
        Err(ConfigError::InvalidFlushLogsChunk { item: 1 })
    );
    assert_eq!(
        parsed("url=x;flushlogschunk=-3"),
        Err(ConfigError::InvalidFlushLogsChunk { item: 1 })
    );
    assert_eq!(
        parsed("flushlogschunk=99999999999999999999999999;url=x"),
        Err(ConfigError::InvalidFlushLogsChunk { item: 0 })
    );
}

#[test]
fn delay_must_be_a_positive_number() {
    assert_eq!(parsed("url=x;flushdelay=1s"), Err(ConfigError::InvalidFlushDelay { item: 1 }));
    assert_eq!(parsed("url=x;flushdelay=0"), Err(ConfigError::InvalidFlushDelay { item: 1 }));
    assert_eq!(parsed("url=x;flushdelay= 5"), Err(ConfigError::InvalidFlushDelay { item: 1 }));
    assert_eq!(
        parsed("url=x;flushdelay=18446744073709551616"),
        Err(ConfigError::InvalidFlushDelay { item: 1 })
    );
}

#[test]
fn numbers_may_carry_a_plus_and_leading_zeros() {
    let settings = parsed("url=x;flushlogschunk=+12;flushdelay=007").unwrap();
    assert_eq!(settings.max_logs_flush_chunk, 12);
    assert_eq!(settings.flush_delay, 7);
}

#[test]
fn largest_delay_is_read() {
    let settings = parsed("url=x;flushdelay=18446744073709551615").unwrap();
    assert_eq!(settings.flush_delay, u64::MAX);
}

#[test]
fn the_first_bad_item_decides_the_error() {
    assert_eq!(
        parsed("flushdelay=x;foo=bar;nothing"),
        Err(ConfigError::InvalidFlushDelay { item: 0 })
    );
    assert_eq!(parsed("foo=bar;flushdelay=x"), Err(ConfigError::UnknownKey { item: 0 }));
}

#[test]
fn logger_from_bare_url() {
    let logger =
        SeqLogger::from_connection_string("https://logs.example.com", "svc".to_string()).unwrap();
    assert_eq!(logger.url, "https://logs.example.com");
    assert_eq!(logger.api_key, None);
    assert_eq!(logger.max_logs_flush_chunk, 50);
    assert_eq!(logger.flush_delay, 1);
    assert_eq!(logger.app, "svc");
    assert_eq!(logger.route, IngestRoute::RawEvents);
    assert_eq!(logger.pending_len(), 0);
}

#[test]
fn logger_from_full_descriptor() {
    let logger = SeqLogger::from_connection_string(
        "url=https://x;apikey=SECRET;flushlogschunk=10;flushdelay=5",
        "svc".to_string(),
    )
    .unwrap();
    assert_eq!(logger.url, "https://x");
    assert_eq!(logger.api_key, Some("SECRET".to_string()));
    assert_eq!(logger.max_logs_flush_chunk, 10);
    assert_eq!(logger.flush_delay, 5);
    assert_eq!(logger.app, "svc");
    assert_eq!(logger.pending_len(), 0);
}

#[test]
fn logger_from_bad_descriptor_is_an_error() {
    let missing = SeqLogger::from_connection_string("apikey=k", "svc".to_string());
    assert_eq!(missing.err(), Some(ConfigError::MissingUrl));
    let unknown = SeqLogger::from_connection_string("foo=bar", "svc".to_string());
    assert_eq!(unknown.err(), Some(ConfigError::UnknownKey { item: 0 }));
}

#[test]
fn new_logger_has_defaults() {
    let logger = SeqLogger::new("https://x".to_string(), Some("k".to_string()), "svc".to_string());
    assert_eq!(logger.url, "https://x");
    assert_eq!(logger.api_key, Some("k".to_string()));
    assert_eq!(logger.max_logs_flush_chunk, 50);
    assert_eq!(logger.flush_delay, 1);
    assert_eq!(logger.route, IngestRoute::RawEvents);
    assert_eq!(logger.pending_len(), 0);
    let bare = logger.with_route(IngestRoute::Bare);
    assert_eq!(bare.route, IngestRoute::Bare);
    assert_eq!(bare.url, "https://x");
}

#[test]
fn chars_of_gives_every_character() {
    assert_eq!(chars_of("a=é"), vec!['a', '=', 'é']);
    assert_eq!(chars_of(""), Vec::<char>::new());
}

#[test]
fn find_from_gives_the_first_position() {
    let chars = chars_of("a;b;c");
    assert_eq!(find_from(&chars, 0, ';'), 1);
    assert_eq!(find_from(&chars, 1, ';'), 1);
    assert_eq!(find_from(&chars, 2, ';'), 3);
    assert_eq!(find_from(&chars, 4, ';'), 5);
    assert_eq!(find_from(&chars, 5, ';'), 5);
}

#[test]
fn lower_case_touches_ascii_capitals_only() {
    assert_eq!(to_ascii_lower('A'), 'a');
    assert_eq!(to_ascii_lower('Z'), 'z');
    assert_eq!(to_ascii_lower('a'), 'a');
    assert_eq!(to_ascii_lower('@'), '@');
    assert_eq!(to_ascii_lower('['), '[');
    assert_eq!(to_ascii_lower('É'), 'É');
    assert!(reads_as(&chars_of("ApiKey"), "apikey"));
    assert!(!reads_as(&chars_of("apikey"), "ApiKey"));
    assert!(!reads_as(&chars_of("apikeys"), "apikey"));
}

#[test]
fn decimal_numbers_are_read_up_to_the_limit() {
    assert_eq!(parse_decimal(&chars_of("0"), 10), Some(0));
    assert_eq!(parse_decimal(&chars_of("10"), 10), Some(10));
    assert_eq!(parse_decimal(&chars_of("11"), 10), None);
    assert_eq!(parse_decimal(&chars_of("+10"), 10), Some(10));
    assert_eq!(parse_decimal(&chars_of("+"), 10), None);
    assert_eq!(parse_decimal(&chars_of(""), 10), None);
    assert_eq!(parse_decimal(&chars_of("++1"), 10), None);
    assert_eq!(parse_decimal(&chars_of("1+"), 10), None);
    assert_eq!(parse_decimal(&chars_of("12a"), 1000), None);
    assert_eq!(parse_decimal(&chars_of("٣"), 1000), None);
    assert_eq!(parse_decimal(&chars_of("000000000000000000000000000007"), 10), Some(7));
    assert_eq!(parse_decimal(&chars_of("18446744073709551615"), u64::MAX), Some(u64::MAX));
    assert_eq!(parse_decimal(&chars_of("18446744073709551616"), u64::MAX), None);
}
