use quote_common::generator::{
    base_volume_for, broadcast, next_price, next_volume, Subscription, MIN_PRICE, MIN_VOLUME,
    START_PRICE_LOW, START_PRICE_SPAN,
};
use quote_common::{CommandError, QuoteGenerator, StockQuote};

fn book(tickers: &[&str]) -> QuoteGenerator {
    QuoteGenerator::new(tickers.iter().map(|t| t.to_string()).collect(), 10_000)
}

#[test]
fn new_book_is_upper_case_and_distinct() {
    let g = book(&["aapl", "TSLA", "AAPL", "msft"]);
    assert_eq!(g.tickers(), vec!["AAPL".to_string(), "TSLA".to_string(), "MSFT".to_string()]);
    assert!(g.has_ticker("aapl"));
    assert!(g.has_ticker("TSLA"));
    assert!(!g.has_ticker("NOPE"));
    assert_eq!(g.subscriber_count("AAPL"), Some(0));
    assert_eq!(g.subscriber_count("NOPE"), None);
}

#[test]
fn book_from_ticker_file_text() {
    let g = QuoteGenerator::from_text("aapl\n\n  goog \r\nAAPL\n", 10_000);
    assert_eq!(g.tickers(), vec!["AAPL".to_string(), "GOOG".to_string()]);
}

#[test]
fn base_volume_table() {
    assert_eq!(base_volume_for("AAPL"), 5000);
    assert_eq!(base_volume_for("GOOGL"), 5000);
    assert_eq!(base_volume_for("NVDA"), 3000);
    assert_eq!(base_volume_for("JNJ"), 2000);
    assert_eq!(base_volume_for("XYZ"), 1000);
}

#[test]
fn price_step_values() {
    // one whole unit is 1_000_000; volatility 1% is 10_000 ppm
    assert_eq!(next_price(100_000_000, 10_000, 0), 99_000_000);
    assert_eq!(next_price(100_000_000, 10_000, 10_000), 100_000_000);
    assert_eq!(next_price(100_000_000, 10_000, 20_000), 101_000_000);
    assert_eq!(next_price(1_000_000, 10_000, 0), MIN_PRICE);
    assert_eq!(next_price(5_000_000, 0, 0), 5_000_000);
    assert_eq!(next_price(u64::MAX, 10_000, 20_000), u64::MAX);
}

#[test]
fn volume_step_values() {
    assert_eq!(next_volume(5000, 2_000_000, 1), 5000);
    assert_eq!(next_volume(5000, 2_000_000, 0), 15000);
    assert_eq!(next_volume(5000, 0, 7), 2000);
    assert_eq!(next_volume(5000, 3_999_999, 7), 7999);
    assert_eq!(next_volume(100, 0, 3), MIN_VOLUME);
    assert_eq!(next_volume(100, 0, 0), 3 * MIN_VOLUME);
}

#[test]
fn subscribe_rejects_unknown_ticker_without_change() {
    let mut g = book(&["AAPL", "TSLA"]);
    let r = g.subscribe_to_tickers("c:1", vec!["AAPL".to_string(), "nope".to_string()]);
    match r {
        Err(CommandError::InvalidTicker(t)) => assert_eq!(t, "NOPE"),
        _ => panic!("expected an invalid ticker"),
    }
    assert_eq!(g.subscriber_count("AAPL"), Some(0));
    assert_eq!(g.subscriber_count("TSLA"), Some(0));
}

#[test]
fn subscribe_gives_one_queue_per_ticker() {
    let mut g = book(&["AAPL", "TSLA"]);
    let rx = g
        .subscribe_to_tickers("c:1", vec!["aapl".to_string(), "TSLA".to_string(), "AAPL".to_string()])
        .unwrap();
    assert_eq!(rx.len(), 3);
    assert_eq!(g.subscriber_count("AAPL"), Some(2));
    assert_eq!(g.subscriber_count("TSLA"), Some(1));
}

#[test]
fn tick_enqueues_one_quote_per_subscription() {
    let mut g = book(&["AAPL", "TSLA"]);
    let rx = g.subscribe_to_tickers("c:1", vec!["TSLA".to_string(), "AAPL".to_string()]).unwrap();
    let quotes = g.tick();
    assert_eq!(quotes.len(), 2);
    let tsla = rx[0].try_recv().unwrap();
    let aapl = rx[1].try_recv().unwrap();
    assert_eq!(tsla.ticker, "TSLA");
    assert_eq!(aapl.ticker, "AAPL");
    assert!(rx[0].try_recv().is_err());
    assert!(rx[1].try_recv().is_err());
    g.tick();
    assert_eq!(rx[0].try_recv().unwrap().ticker, "TSLA");
    assert!(rx[0].try_recv().is_err());
}

#[test]
fn quotes_respect_price_and_volume_floors() {
    let mut g = QuoteGenerator::new(vec!["AAPL".to_string(), "ZZZ".to_string()], 1_000_000);
    for _ in 0..200 {
        for q in g.tick() {
            assert!(q.price >= MIN_PRICE);
            assert!(q.volume >= MIN_VOLUME);
            assert!(q.ticker == "AAPL" || q.ticker == "ZZZ");
        }
    }
}

#[test]
fn starting_prices_in_range() {
    let g = book(&["A", "B", "C"]);
    let mut g = g;
    let q = g.tick();
    for x in q {
        // one step of 1% at most from a start in [50, 1000)
        assert!(x.price >= START_PRICE_LOW * 99 / 100);
        assert!(x.price < (START_PRICE_LOW + START_PRICE_SPAN) * 101 / 100);
    }
}

#[test]
fn timestamps_never_decrease() {
    let mut g = book(&["AAPL"]);
    let mut last = 0;
    for _ in 0..50 {
        let q = g.tick();
        assert!(q[0].timestamp >= last);
        last = q[0].timestamp;
    }
}

#[test]
fn dropped_consumer_is_pruned_on_broadcast() {
    let mut g = book(&["AAPL"]);
    let rx = g.subscribe_to_tickers("c:1", vec!["AAPL".to_string()]).unwrap();
    let keep = g.subscribe_to_tickers("c:2", vec!["AAPL".to_string()]).unwrap();
    assert_eq!(g.subscriber_count("AAPL"), Some(2));
    drop(rx);
    g.tick();
    assert_eq!(g.subscriber_count("AAPL"), Some(1));
    assert!(keep[0].try_recv().is_ok());
}

#[test]
fn unsubscribe_client_closes_its_queues() {
    let mut g = book(&["AAPL", "TSLA"]);
    let mine = g.subscribe_to_tickers("c:1", vec!["AAPL".to_string(), "TSLA".to_string()]).unwrap();
    let other = g.subscribe_to_tickers("c:2", vec!["AAPL".to_string()]).unwrap();
    g.unsubscribe_client("c:1");
    assert_eq!(g.subscriber_count("AAPL"), Some(1));
    assert_eq!(g.subscriber_count("TSLA"), Some(0));
    assert!(mine[0].recv().is_err());
    assert!(mine[1].recv().is_err());
    g.tick();
    assert!(other[0].try_recv().is_ok());
    g.unsubscribe_from_tickers(vec!["AAPL".to_string()]);
    assert_eq!(g.subscriber_count("AAPL"), Some(1));
}

#[test]
fn broadcast_reports_each_offer() {
    let (tx1, rx1) = crossbeam_channel::unbounded();
    let (tx2, rx2) = crossbeam_channel::unbounded();
    let (tx3, rx3) = crossbeam_channel::unbounded();
    let mut subs = vec![
        Subscription { client: "a".to_string(), tx: tx1 },
        Subscription { client: "b".to_string(), tx: tx2 },
        Subscription { client: "c".to_string(), tx: tx3 },
    ];
    drop(rx2);
    let q = StockQuote { ticker: "AAPL".to_string(), price: 2_000_000, volume: 150, timestamp: 5 };
    let (outcomes, _offered) = broadcast(&mut subs, &q);
    assert_eq!(outcomes, vec![true, false, true]);
    assert_eq!(subs.len(), 2);
    assert_eq!(subs[0].client, "a");
    assert_eq!(subs[1].client, "c");
    assert_eq!(rx1.try_recv().unwrap().price, 2_000_000);
    assert_eq!(rx3.try_recv().unwrap().timestamp, 5);
}
