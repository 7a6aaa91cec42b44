use quote_common::tcp_server::{disconnect, error_reply, evict_stale, help_text, welcome_text};
use quote_common::{
    handle_command, handle_line, ClientManager, Command, CommandError, Outcome, QuoteGenerator,
    SessionState,
};

const CLIENT: &str = "127.0.0.1:50000";

fn setup() -> (QuoteGenerator, ClientManager) {
    let g = QuoteGenerator::new(
        vec!["AAPL".to_string(), "TSLA".to_string(), "MSFT".to_string()],
        10_000,
    );
    (g, ClientManager::new(5))
}

fn run(g: &mut QuoteGenerator, m: &mut ClientManager, state: SessionState, line: &str) -> Outcome {
    handle_line(g, m, CLIENT, state, line)
}

#[test]
fn banner_and_help() {
    let (mut g, mut m) = setup();
    assert!(welcome_text().starts_with("Welcome to Quote Server!\nAvailable commands:\n"));
    let out = run(&mut g, &mut m, SessionState::Connected, "HELP\n");
    assert!(out.reply.starts_with("Available commands:"));
    assert_eq!(out.reply, help_text());
    assert_eq!(out.state, SessionState::Connected);
    assert!(out.sender.is_none());
}

#[test]
fn stream_two_tickers_delivers_both() {
    let (mut g, mut m) = setup();
    let out = run(&mut g, &mut m, SessionState::Connected, "STREAM udp://127.0.0.1:34255 AAPL,TSLA\n");
    assert_eq!(out.reply, "STREAMING_STARTED\n");
    assert_eq!(out.state, SessionState::Streaming);
    assert!(m.has_client(CLIENT));
    let sender = out.sender.unwrap();
    assert_eq!(sender.client_id(), CLIENT);
    assert_eq!(sender.target(), Ok("127.0.0.1:34255".to_string()));
    assert_eq!(sender.config().tickers, vec!["AAPL".to_string(), "TSLA".to_string()]);
    assert_eq!(sender.receiver_count(), 2);
    let rx = sender.into_receivers();
    for _ in 0..3 {
        g.tick();
    }
    let a = rx[0].try_recv().unwrap();
    let t = rx[1].try_recv().unwrap();
    assert_eq!(a.ticker, "AAPL");
    assert_eq!(t.ticker, "TSLA");
    assert!(a.price >= 1_000_000 && a.volume >= 100);
}

#[test]
fn stream_unknown_ticker_is_refused() {
    let (mut g, mut m) = setup();
    let out = run(&mut g, &mut m, SessionState::Connected, "STREAM udp://127.0.0.1:34256 NOPE\n");
    assert_eq!(out.reply, "ERROR: Invalid ticker: NOPE\n");
    assert_eq!(out.state, SessionState::Connected);
    assert!(out.sender.is_none());
    assert_eq!(m.client_count(), 0);
    assert_eq!(g.subscriber_count("AAPL"), Some(0));
}

#[test]
fn stream_with_one_unknown_ticker_changes_nothing() {
    let (mut g, mut m) = setup();
    let out = run(&mut g, &mut m, SessionState::Connected, "STREAM udp://127.0.0.1:1 AAPL,nope,TSLA");
    assert_eq!(out.reply, "ERROR: Invalid ticker: NOPE\n");
    assert_eq!(m.client_count(), 0);
    assert_eq!(g.subscriber_count("AAPL"), Some(0));
    assert_eq!(g.subscriber_count("TSLA"), Some(0));
}

#[test]
fn stream_bad_address_is_refused() {
    let (mut g, mut m) = setup();
    let out = run(&mut g, &mut m, SessionState::Connected, "STREAM 127.0.0.1:34257 AAPL");
    assert_eq!(
        out.reply,
        "ERROR: Invalid UDP address: Address must start with udp://\nType HELP for available commands\n"
    );
    assert!(out.reply.starts_with("ERROR: Invalid UDP address"));
    assert_eq!(m.client_count(), 0);
    assert_eq!(g.subscriber_count("AAPL"), Some(0));
}

#[test]
fn stream_without_tickers_is_refused() {
    let (mut g, mut m) = setup();
    let out = run(&mut g, &mut m, SessionState::Connected, "STREAM udp://h:1 ");
    assert_eq!(out.reply, "ERROR: No tickers specified\nType HELP for available commands\n");
    assert_eq!(out.state, SessionState::Connected);
}

#[test]
fn unknown_and_empty_lines_get_a_hint() {
    let (mut g, mut m) = setup();
    let out = run(&mut g, &mut m, SessionState::Streaming, "FOO");
    assert_eq!(
        out.reply,
        "ERROR: Invalid command format: Unknown command: FOO\nType HELP for available commands\n"
    );
    assert_eq!(out.state, SessionState::Streaming);
    let out = run(&mut g, &mut m, SessionState::Connected, "  \n");
    assert_eq!(
        out.reply,
        "ERROR: Invalid command format: Empty command\nType HELP for available commands\n"
    );
}

#[test]
fn silent_client_is_evicted() {
    let (mut g, mut m) = setup();
    let out = run(&mut g, &mut m, SessionState::Connected, "STREAM udp://127.0.0.1:34257 AAPL\n");
    assert_eq!(out.reply, "STREAMING_STARTED\n");
    let rx = out.sender.unwrap().into_receivers();
    let last = m.last_ping_of(CLIENT).unwrap();
    assert!(evict_stale(&mut g, &mut m, last + 5).is_empty());
    let gone = evict_stale(&mut g, &mut m, last + 5 + 1);
    assert_eq!(gone, vec![CLIENT.to_string()]);
    assert!(!m.has_client(CLIENT));
    assert_eq!(g.subscriber_count("AAPL"), Some(0));
    g.tick();
    assert!(rx[0].try_recv().is_err());
    let out = run(&mut g, &mut m, SessionState::Streaming, "PING\n");
    assert_eq!(out.reply, "ERROR: Not streaming\n");
}

#[test]
fn stop_ends_streaming() {
    let (mut g, mut m) = setup();
    let out = run(&mut g, &mut m, SessionState::Connected, "STREAM udp://127.0.0.1:34258 AAPL\n");
    let rx = out.sender.unwrap().into_receivers();
    let out = run(&mut g, &mut m, SessionState::Streaming, "STOP\n");
    assert_eq!(out.reply, "STREAMING_STOPPED\n");
    assert_eq!(out.state, SessionState::Terminated);
    assert!(!m.has_client(CLIENT));
    g.tick();
    assert!(rx[0].recv().is_err());
}

#[test]
fn stop_twice_and_stop_before_stream() {
    let (mut g, mut m) = setup();
    let out = run(&mut g, &mut m, SessionState::Connected, "STOP");
    assert_eq!(out.reply, "STREAMING_STOPPED\n");
    assert_eq!(out.state, SessionState::Terminated);
    run(&mut g, &mut m, SessionState::Connected, "STREAM udp://h:1 AAPL");
    let first = run(&mut g, &mut m, SessionState::Streaming, "STOP");
    let second = run(&mut g, &mut m, SessionState::Terminated, "STOP");
    assert_eq!(first.reply, "STREAMING_STOPPED\n");
    assert_eq!(second.reply, "STREAMING_STOPPED\n");
    assert_eq!(m.client_count(), 0);
    assert_eq!(g.subscriber_count("AAPL"), Some(0));
}

#[test]
fn ping_over_control_channel() {
    let (mut g, mut m) = setup();
    let out = run(&mut g, &mut m, SessionState::Connected, "PING");
    assert_eq!(out.reply, "ERROR: Not streaming\n");
    assert_eq!(out.state, SessionState::Connected);
    run(&mut g, &mut m, SessionState::Connected, "STREAM udp://h:1 MSFT");
    let out = run(&mut g, &mut m, SessionState::Streaming, "ping");
    assert_eq!(out.reply, "PONG\n");
    assert_eq!(out.state, SessionState::Streaming);
}

#[test]
fn second_stream_replaces_the_first() {
    let (mut g, mut m) = setup();
    let first = run(&mut g, &mut m, SessionState::Connected, "STREAM udp://h:1 AAPL");
    let old_rx = first.sender.unwrap().into_receivers();
    let second = run(&mut g, &mut m, SessionState::Streaming, "STREAM udp://h:2 TSLA");
    assert_eq!(second.reply, "STREAMING_STARTED\n");
    assert_eq!(m.client_count(), 1);
    assert_eq!(g.subscriber_count("AAPL"), Some(0));
    assert_eq!(g.subscriber_count("TSLA"), Some(1));
    assert!(old_rx[0].recv().is_err());
    assert_eq!(second.sender.unwrap().target(), Ok("h:2".to_string()));
}

#[test]
fn disconnect_unregisters_and_closes_queues() {
    let (mut g, mut m) = setup();
    let out = run(&mut g, &mut m, SessionState::Connected, "STREAM udp://h:1 AAPL,TSLA");
    let rx = out.sender.unwrap().into_receivers();
    disconnect(&mut g, &mut m, CLIENT);
    assert!(!m.has_client(CLIENT));
    assert!(rx[0].recv().is_err());
    assert!(rx[1].recv().is_err());
}

#[test]
fn handle_command_on_parsed_commands() {
    let (mut g, mut m) = setup();
    let c = Command::Stream { udp_addr: "udp://h:9".to_string(), tickers: vec!["MSFT".to_string()] };
    let out = handle_command(&mut g, &mut m, CLIENT, SessionState::Connected, c);
    assert_eq!(out.reply, "STREAMING_STARTED\n");
    let out = handle_command(&mut g, &mut m, CLIENT, SessionState::Streaming, Command::Help);
    assert_eq!(out.reply, help_text());
    assert_eq!(error_reply(&CommandError::NoTickers), "ERROR: No tickers specified\n");
}

#[test]
fn first_unknown_ticker_is_named() {
    let (mut g, mut m) = setup();
    let out = run(&mut g, &mut m, SessionState::Connected, "STREAM udp://h:1 AAPL,BAD1,BAD2");
    assert_eq!(out.reply, "ERROR: Invalid ticker: BAD1\n");
    assert_eq!(g.subscriber_count("AAPL"), Some(0));
}
