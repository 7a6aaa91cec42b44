use quote_common::models::clean_pieces;
use quote_common::text::{find_spans, has_prefix, is_space_char, same_text, trim};
use quote_common::{ClientConfig, Command, CommandError, StockQuote};

fn stream_parts(c: Command) -> (String, Vec<String>) {
    match c {
        Command::Stream { udp_addr, tickers } => (udp_addr, tickers),
        other => panic!("expected STREAM, got {:?}", other),
    }
}

#[test]
fn parse_stream_uppercases_tickers() {
    let c = Command::parse("STREAM udp://127.0.0.1:34255 aapl,TSLA").unwrap();
    let (addr, tickers) = stream_parts(c);
    assert_eq!(addr, "udp://127.0.0.1:34255");
    assert_eq!(tickers, vec!["AAPL".to_string(), "TSLA".to_string()]);
}

#[test]
fn parse_keywords_ignore_case_and_extra_words() {
    assert!(matches!(Command::parse("ping"), Ok(Command::Ping)));
    assert!(matches!(Command::parse("  Stop  "), Ok(Command::Stop)));
    assert!(matches!(Command::parse("help me"), Ok(Command::Help)));
    let (_, tickers) = stream_parts(Command::parse("stream udp://h:1 msft extra").unwrap());
    assert_eq!(tickers, vec!["MSFT".to_string()]);
}

#[test]
fn parse_empty_line_is_invalid_format() {
    for line in ["", "   ", "\t\n"] {
        match Command::parse(line) {
            Err(CommandError::InvalidFormat(m)) => assert_eq!(m, "Empty command"),
            other => panic!("unexpected {:?}", other),
        }
    }
}

#[test]
fn parse_unknown_command() {
    match Command::parse("quote AAPL") {
        Err(CommandError::InvalidFormat(m)) => assert_eq!(m, "Unknown command: quote"),
        other => panic!("unexpected {:?}", other),
    }
}

#[test]
fn parse_stream_without_operands() {
    match Command::parse("STREAM") {
        Err(CommandError::InvalidFormat(m)) => {
            assert_eq!(m, "STREAM requires UDP address and tickers")
        }
        other => panic!("unexpected {:?}", other),
    }
}

#[test]
fn parse_stream_needs_udp_scheme() {
    let e = Command::parse("STREAM tcp://127.0.0.1:1 AAPL").unwrap_err();
    assert!(matches!(e, CommandError::InvalidAddress(_)));
    assert_eq!(e.message(), "Invalid UDP address: Address must start with udp://");
    let e = Command::parse("STREAM 127.0.0.1:1 AAPL").unwrap_err();
    assert!(matches!(e, CommandError::InvalidAddress(_)));
}

#[test]
fn parse_stream_without_tickers() {
    assert!(matches!(Command::parse("STREAM udp://h:1 "), Err(CommandError::NoTickers)));
    assert!(matches!(Command::parse("STREAM udp://h:1 ,,"), Err(CommandError::NoTickers)));
}

#[test]
fn parse_ticker_list_drops_empty_pieces() {
    let (_, tickers) = stream_parts(Command::parse("STREAM udp://h:1 ,a,,b,").unwrap());
    assert_eq!(tickers, vec!["A".to_string(), "B".to_string()]);
}

#[test]
fn error_messages() {
    assert_eq!(
        CommandError::InvalidFormat("Empty command".to_string()).message(),
        "Invalid command format: Empty command"
    );
    assert_eq!(CommandError::InvalidAddress("x".to_string()).message(), "Invalid UDP address: x");
    assert_eq!(CommandError::NoTickers.message(), "No tickers specified");
    assert_eq!(CommandError::InvalidTicker("NOPE".to_string()).message(), "Invalid ticker: NOPE");
    assert_eq!(CommandError::IoError("broken pipe".to_string()).message(), "IO error: broken pipe");
}

#[test]
fn client_config_staleness() {
    let mut c = ClientConfig::new("udp://h:1".to_string(), vec!["AAPL".to_string()]);
    c.last_ping = 100;
    assert!(c.is_stale_at(106, 5));
    assert!(!c.is_stale_at(105, 5));
    assert!(!c.is_stale_at(50, 5));
    c.update_ping();
    assert!(c.last_ping > 100);
    assert!(!c.is_stale(5));
    assert_eq!(c.udp_addr, "udp://h:1");
}

#[test]
fn client_config_duplicate_keeps_fields() {
    let mut c = ClientConfig::new("udp://h:2".to_string(), vec!["A".to_string(), "B".to_string()]);
    c.last_ping = 7;
    let d = c.duplicate();
    assert_eq!(d.udp_addr, c.udp_addr);
    assert_eq!(d.tickers, c.tickers);
    assert_eq!(d.last_ping, 7);
}

#[test]
fn stock_quote_new_stamps_time() {
    let q = StockQuote::new("AAPL".to_string(), 1_500_000, 120);
    assert_eq!(q.ticker, "AAPL");
    assert_eq!(q.price, 1_500_000);
    assert_eq!(q.volume, 120);
    assert!(q.timestamp > 1_600_000_000_000);
}

#[test]
fn ticker_lines_are_trimmed_and_uppercased() {
    let v = clean_pieces("aapl\n  tsla \n\n   \n msft\r\n", Some('\n'));
    assert_eq!(v, vec!["AAPL".to_string(), "TSLA".to_string(), "MSFT".to_string()]);
}

#[test]
fn text_helpers() {
    assert_eq!(trim("  PING \r\n"), "PING");
    assert_eq!(trim(" \t "), "");
    assert!(same_text("abc", "abc"));
    assert!(!same_text("abc", "abd"));
    assert!(!same_text("abc", "ab"));
    assert!(has_prefix("udp://h:1", "udp://"));
    assert!(!has_prefix("udp:/", "udp://"));
    assert!(is_space_char('\u{3000}'));
    assert!(!is_space_char('x'));
    assert_eq!(find_spans(" ab  c ", None), vec![(1, 3), (5, 6)]);
    assert_eq!(find_spans("a,,b", Some(',')), vec![(0, 1), (3, 4)]);
}

#[test]
fn client_config_at_given_times() {
    let mut c = ClientConfig::new_at("udp://h:3".to_string(), vec!["A".to_string()], 500);
    assert_eq!(c.last_ping, 500);
    c.update_ping_at(700);
    assert_eq!(c.last_ping, 700);
    assert_eq!(c.udp_addr, "udp://h:3");
}

#[test]
fn parse_with_given_keyword() {
    let (addr, tickers) = stream_parts(Command::parse_keyed("stream udp://h:1 aapl", "STREAM").unwrap());
    assert_eq!(addr, "udp://h:1");
    assert_eq!(tickers, vec!["AAPL".to_string()]);
    assert!(matches!(Command::parse_keyed("whatever", "PING"), Ok(Command::Ping)));
    match Command::parse_keyed("foo bar", "FOO") {
        Err(CommandError::InvalidFormat(m)) => assert_eq!(m, "Unknown command: foo"),
        other => panic!("unexpected {:?}", other),
    }
    assert!(matches!(Command::parse_keyed("", "STOP"), Err(CommandError::InvalidFormat(_))));
}
