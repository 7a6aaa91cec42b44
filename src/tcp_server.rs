use vstd::prelude::*;
use crate::client_manager::{
    has_id, lemma_put_ids, lemma_refresh_ids, lemma_remove_ids, lemma_sweep_ids, put, refresh_id,
    remove_id, stale_ids, sweep, unique_ids, ClientManager, Entries,
};
use crate::generator::{
    all_in_book, in_book, subscribed, unsubscribed, uppers, without_client_idempotent,
    lemma_without_client_absent, lemma_without_clients_members, without_clients,
    without_clients_one, QuoteGenerator, TickerView,
};
use crate::models::{
    error_text, parse_spec, texts, ClientConfig, ClientConfigView, Command, CommandError,
    CommandModel, ErrorModel,
};
use crate::text::{to_upper, upper_of};
use crate::udp_sender::UdpSender;

verus! {

/// The banner sent on every new control connection.
pub open spec fn welcome_spec() -> Seq<char> {
    "Welcome to Quote Server!\nAvailable commands:\nSTREAM udp://<host>:<port> <ticker1>,<ticker2>,... - Start streaming quotes\nPING - Send ping to server\nSTOP - Stop current streaming\nHELP - Show this help\n"@
}

/// The answer to `HELP`.
pub open spec fn help_spec() -> Seq<char> {
    "Available commands:\nSTREAM udp://<host>:<port> <ticker1>,<ticker2>,... - Start streaming quotes to UDP address\nPING - Send ping to keep connection alive\nSTOP - Stop current streaming\nHELP - Show this help\n\nExample:\nSTREAM udp://127.0.0.1:34254 AAPL,TSLA,GOOGL\n"@
}

/// The banner sent on every new control connection.
pub fn welcome_text() -> (r: String)
    ensures
        r@ == welcome_spec(),
{
    String::from_str(
        "Welcome to Quote Server!\nAvailable commands:\nSTREAM udp://<host>:<port> <ticker1>,<ticker2>,... - Start streaming quotes\nPING - Send ping to server\nSTOP - Stop current streaming\nHELP - Show this help\n",
    )
}

/// The answer to `HELP`.
pub fn help_text() -> (r: String)
    ensures
        r@ == help_spec(),
{
    String::from_str(
        "Available commands:\nSTREAM udp://<host>:<port> <ticker1>,<ticker2>,... - Start streaming quotes to UDP address\nPING - Send ping to keep connection alive\nSTOP - Stop current streaming\nHELP - Show this help\n\nExample:\nSTREAM udp://127.0.0.1:34254 AAPL,TSLA,GOOGL\n",
    )
}

/// The line that reports an error.
pub open spec fn error_line(e: ErrorModel) -> Seq<char> {
    "ERROR: "@ + error_text(e) + "\n"@
}

/// The lines that answer a line that does not parse.
pub open spec fn parse_error_reply(e: ErrorModel) -> Seq<char> {
    error_line(e) + "Type HELP for available commands\n"@
}

/// The line that reports an error.
pub fn error_reply(e: &CommandError) -> (r: String)
    ensures
        r@ == error_line(e@),
{
    String::from_str("ERROR: ").concat(e.message().as_str()).concat("\n")
}

/// Where a control connection stands.
#[derive(Debug, Clone, Copy, PartialEq, Eq, Structural)]
pub enum SessionState {
    Connected,
    Streaming,
    Terminated,
}

/// What one command did: the reply to write, the state the connection is
/// in afterwards, and, for an accepted `STREAM`, the emitter to start.
pub struct Outcome {
    pub reply: String,
    pub state: SessionState,
    pub sender: Option<UdpSender>,
}

/// What one command does: `g0`, `g1` are the price book before and after,
/// `c0`, `c1` the client registry, `id` the client, `state` its session
/// state before, `r` the outcome.
pub open spec fn command_effect(
    g0: Seq<TickerView>,
    g1: Seq<TickerView>,
    c0: Entries,
    c1: Entries,
    id: Seq<char>,
    state: SessionState,
    command: CommandModel,
    r: Outcome,
) -> bool {
    match command {
        CommandModel::Stream { udp_addr, tickers } => if all_in_book(g0, tickers) {
            &&& r.reply@ == "STREAMING_STARTED\n"@
            &&& r.state == SessionState::Streaming
            &&& exists|g: Seq<TickerView>|
                unsubscribed(g0, g, seq![id]) && subscribed(g, g1, uppers(tickers), id)
            &&& exists|c: ClientConfigView|
                c.udp_addr == udp_addr && c.tickers == tickers && c1 == put(
                    c0,
                    id,
                    c,
                )
            &&& r.sender matches Some(s) && s.id_view() == id && s.config_view().udp_addr
                == udp_addr && s.config_view().tickers == tickers && s.receivers_view().len()
                == tickers.len()
        } else {
            &&& g1 == g0
            &&& c1 == c0
            &&& r.state == state
            &&& r.sender is None
            &&& exists|i: int|
                0 <= i < tickers.len() && !in_book(g0, upper_of(tickers[i]))
                    && r.reply@ == error_line(ErrorModel::InvalidTicker(upper_of(tickers[i])))
                    && forall|j: int| 0 <= j < i ==> in_book(g0, upper_of(#[trigger] tickers[j]))
        },
        CommandModel::Ping => {
            &&& g1 == g0
            &&& r.state == state
            &&& r.sender is None
            &&& r.reply@ == if has_id(c0, id) {
                "PONG\n"@
            } else {
                "ERROR: Not streaming\n"@
            }
            &&& exists|now: u64| c1 == refresh_id(c0, id, now)
        },
        CommandModel::Stop => {
            &&& unsubscribed(g0, g1, seq![id])
            &&& c1 == remove_id(c0, id)
            &&& r.state == SessionState::Terminated
            &&& r.sender is None
            &&& r.reply@ == "STREAMING_STOPPED\n"@
        },
        CommandModel::Help => {
            &&& g1 == g0
            &&& c1 == c0
            &&& r.state == state
            &&& r.sender is None
            &&& r.reply@ == help_spec()
        },
    }
}

/// Runs one parsed command of the client `client_id` against the price book
/// and the client registry.
///
/// - `STREAM`: refused with `ERROR: Invalid ticker: T`, nothing changed, when
///   a ticker is not in the book; otherwise the client's earlier
///   subscriptions dropped, one new subscription per ticker, the client
///   registered (replacing an earlier entry), an emitter for its queues, and
///   `STREAMING_STARTED`.
/// - `PING`: `PONG` and the client refreshed when registered, else
///   `ERROR: Not streaming`.
/// - `STOP`: the client unregistered, its subscriptions dropped,
///   `STREAMING_STOPPED`, and the session ends, whether or not it was
///   streaming.
/// - `HELP`: the help text.
pub fn handle_command(
    generator: &mut QuoteGenerator,
    clients: &mut ClientManager,
    client_id: &str,
    state: SessionState,
    command: Command,
) -> (r: Outcome)
    requires
        old(generator).wf(),
        old(clients).wf(),
    ensures
        final(generator).wf(),
        final(clients).wf(),
        final(generator).volatility_ppm() == old(generator).volatility_ppm(),
        final(clients).timeout() == old(clients).timeout(),
        command_effect(
            old(generator)@,
            final(generator)@,
            old(clients)@,
            final(clients)@,
            client_id@,
            state,
            command@,
            r,
        ),
        linked(old(generator)@, old(clients)@) ==> linked(final(generator)@, final(clients)@),
{
    let ghost g0 = generator@;
    let ghost c0 = clients@;
    let r = apply_command(generator, clients, client_id, state, command);
    proof {
        if linked(g0, c0) {
            command_keeps_link(g0, generator@, c0, clients@, client_id@, state, command@, r);
        }
    }
    r
}

/// Runs one parsed command, as `handle_command` describes.
fn apply_command(
    generator: &mut QuoteGenerator,
    clients: &mut ClientManager,
    client_id: &str,
    state: SessionState,
    command: Command,
) -> (r: Outcome)
    requires
        old(generator).wf(),
        old(clients).wf(),
    ensures
        final(generator).wf(),
        final(clients).wf(),
        final(generator).volatility_ppm() == old(generator).volatility_ppm(),
        final(clients).timeout() == old(clients).timeout(),
        command_effect(
            old(generator)@,
            final(generator)@,
            old(clients)@,
            final(clients)@,
            client_id@,
            state,
            command@,
            r,
        ),
{
    match command {
        Command::Stream { udp_addr, tickers } => {
            let mut i: usize = 0;
            while i < tickers.len()
                invariant
                    i <= tickers@.len(),
                    *generator == *old(generator),
                    *clients == *old(clients),
                    command@ == (CommandModel::Stream { udp_addr: udp_addr@, tickers: texts(tickers@) }),
                    generator.wf(),
                    clients.wf(),
                    forall|j: int|
                        0 <= j < i ==> in_book(generator@, upper_of(#[trigger] texts(tickers@)[j])),
                decreases tickers@.len() - i,
            {
                assert(texts(tickers@)[i as int] == tickers@[i as int]@);
                if !generator.has_ticker(tickers[i].as_str()) {
                    let e = CommandError::InvalidTicker(to_upper(tickers[i].as_str()));
                    let reply = error_reply(&e);
                    assert(!in_book(generator@, upper_of(texts(tickers@)[i as int])));
                    assert(reply@ == error_line(ErrorModel::InvalidTicker(upper_of(texts(tickers@)[i as int]))));
                    assert(!all_in_book(generator@, texts(tickers@)));
                    let r = Outcome { reply, state, sender: None };
                    assert(exists|j: int|
                        0 <= j < texts(tickers@).len() && !in_book(
                            generator@,
                            upper_of(texts(tickers@)[j]),
                        ) && r.reply@ == error_line(ErrorModel::InvalidTicker(upper_of(texts(tickers@)[j])))
                            && forall|m: int|
                            0 <= m < j ==> in_book(generator@, upper_of(#[trigger] texts(tickers@)[m])));
                    return r;
                }
                i = i + 1;
            }
            let ghost g0 = generator@;
            generator.unsubscribe_client(client_id);
            let ghost g = generator@;
            assert(all_in_book(generator@, texts(tickers@))) by {
                assert forall|j: int| 0 <= j < tickers@.len() implies in_book(
                    generator@,
                    upper_of(#[trigger] texts(tickers@)[j]),
                ) by {
                    let t = upper_of(texts(tickers@)[j]);
                    assert(in_book(g0, t));
                    let k = choose|k: int| 0 <= k < g0.len() && crate::generator::book_tickers(g0)[k] == t;
                    assert(crate::generator::book_tickers(generator@)[k] == t);
                }
            }
            let wanted = crate::models::copy_strings(&tickers);
            match generator.subscribe_to_tickers(client_id, wanted) {
                Ok(receivers) => {
                    let config = ClientConfig::new(udp_addr, tickers);
                    let ghost c = config@;
                    clients.add_client(String::from_str(client_id), config.duplicate());
                    assert(clients@ == put(old(clients)@, client_id@, c));
                    let sender = UdpSender::new(String::from_str(client_id), config, receivers);
                    Outcome {
                        reply: String::from_str("STREAMING_STARTED\n"),
                        state: SessionState::Streaming,
                        sender: Some(sender),
                    }
                },
                Err(e) => {
                    assert(false);
                    Outcome { reply: error_reply(&e), state, sender: None }
                },
            }
        },
        Command::Ping => {
            if clients.update_ping(client_id) {
                Outcome { reply: String::from_str("PONG\n"), state, sender: None }
            } else {
                Outcome { reply: String::from_str("ERROR: Not streaming\n"), state, sender: None }
            }
        },
        Command::Stop => {
            if let Some(config) = clients.remove_client(client_id) {
                generator.unsubscribe_from_tickers(config.tickers);
            }
            generator.unsubscribe_client(client_id);
            Outcome {
                reply: String::from_str("STREAMING_STOPPED\n"),
                state: SessionState::Terminated,
                sender: None,
            }
        },
        Command::Help => Outcome { reply: help_text(), state, sender: None },
    }
}

/// Runs one control line of the client `client_id`: a line that does not
/// parse is answered with the error and a hint, and changes nothing.
pub fn handle_line(
    generator: &mut QuoteGenerator,
    clients: &mut ClientManager,
    client_id: &str,
    state: SessionState,
    input: &str,
) -> (r: Outcome)
    requires
        old(generator).wf(),
        old(clients).wf(),
    ensures
        final(generator).wf(),
        final(clients).wf(),
        final(generator).volatility_ppm() == old(generator).volatility_ppm(),
        final(clients).timeout() == old(clients).timeout(),
        match parse_spec(input@) {
            Ok(c) => command_effect(
                old(generator)@,
                final(generator)@,
                old(clients)@,
                final(clients)@,
                client_id@,
                state,
                c,
                r,
            ),
            Err(e) => {
                &&& final(generator)@ == old(generator)@
                &&& final(clients)@ == old(clients)@
                &&& r.state == state
                &&& r.sender is None
                &&& r.reply@ == parse_error_reply(e)
            },
        },
        linked(old(generator)@, old(clients)@) ==> linked(final(generator)@, final(clients)@),
{
    match Command::parse(input) {
        Ok(command) => handle_command(generator, clients, client_id, state, command),
        Err(e) => {
            let reply = error_reply(&e).concat("Type HELP for available commands\n");
            Outcome { reply, state, sender: None }
        },
    }
}

/// Ends the session of `client_id` after its control connection closed or
/// failed: the client is unregistered and its queues closed.
pub fn disconnect(generator: &mut QuoteGenerator, clients: &mut ClientManager, client_id: &str)
    requires
        old(generator).wf(),
        old(clients).wf(),
    ensures
        final(generator).wf(),
        final(clients).wf(),
        final(generator).volatility_ppm() == old(generator).volatility_ppm(),
        final(clients).timeout() == old(clients).timeout(),
        final(clients)@ == remove_id(old(clients)@, client_id@),
        unsubscribed(old(generator)@, final(generator)@, seq![client_id@]),
        linked(old(generator)@, old(clients)@) ==> linked(final(generator)@, final(clients)@),
{
    clients.remove_client(client_id);
    generator.unsubscribe_client(client_id);
    proof {
        lemma_remove_ids(old(clients)@, client_id@);
        if linked(old(generator)@, old(clients)@) {
            assert(seq![client_id@][0] == client_id@);
            unsubscribe_keeps_link(
                old(generator)@,
                generator@,
                old(clients)@,
                clients@,
                seq![client_id@],
            );
        }
    }
}

/// One sweep of the reaper at `now`: every client silent for longer than
/// the timeout is unregistered and its queues closed. The evicted ids.
pub fn evict_stale(generator: &mut QuoteGenerator, clients: &mut ClientManager, now: u64) -> (r: Vec<String>)
    requires
        old(generator).wf(),
        old(clients).wf(),
    ensures
        final(generator).wf(),
        final(clients).wf(),
        final(generator).volatility_ppm() == old(generator).volatility_ppm(),
        final(clients).timeout() == old(clients).timeout(),
        final(clients)@ == sweep(old(clients)@, now, old(clients).timeout()),
        texts(r@) == stale_ids(old(clients)@, now, old(clients).timeout()),
        unsubscribed(old(generator)@, final(generator)@, texts(r@)),
        linked(old(generator)@, old(clients)@) ==> linked(final(generator)@, final(clients)@),
{
    let gone = clients.remove_stale_at(now);
    assert(texts(gone@) =~= gone@.map_values(|s: String| s@));
    let mut i: usize = 0;
    assert forall|k: int| 0 <= k < generator@.len() implies #[trigger] generator@[k].subscribers
        == without_clients(old(generator)@[k].subscribers, texts(gone@).subrange(0, 0)) by {
        assert(texts(gone@).subrange(0, 0) =~= Seq::<Seq<char>>::empty());
    }
    while i < gone.len()
        invariant
            i <= gone@.len(),
            generator.wf(),
            generator.volatility_ppm() == old(generator).volatility_ppm(),
            generator@.len() == old(generator)@.len(),
            forall|k: int|
                0 <= k < old(generator)@.len() ==> {
                    let a = old(generator)@[k];
                    let b = #[trigger] generator@[k];
                    &&& b.ticker == a.ticker
                    &&& b.price == a.price
                    &&& b.base_volume == a.base_volume
                    &&& b.last_timestamp == a.last_timestamp
                    &&& b.subscribers == without_clients(a.subscribers, texts(gone@).subrange(0, i as int))
                },
        decreases gone@.len() - i,
    {
        let ghost before = generator@;
        generator.unsubscribe_client(gone[i].as_str());
        let ghost ids = texts(gone@).subrange(0, i + 1);
        assert(ids.drop_last() =~= texts(gone@).subrange(0, i as int));
        assert(ids.last() == gone@[i as int]@);
        assert forall|k: int| 0 <= k < old(generator)@.len() implies #[trigger] generator@[k].subscribers
            == without_clients(old(generator)@[k].subscribers, ids) by {
            without_clients_one(before[k].subscribers, gone@[i as int]@);
        }
        i = i + 1;
    }
    assert(texts(gone@).subrange(0, gone@.len() as int) =~= texts(gone@));
    proof {
        lemma_sweep_ids(old(clients)@, now, old(clients).timeout());
        if linked(old(generator)@, old(clients)@) {
            unsubscribe_keeps_link(old(generator)@, generator@, old(clients)@, clients@, texts(gone@));
        }
    }
    gone
}

/// Every subscription belongs to a registered client.
pub open spec fn linked(g: Seq<TickerView>, c: Entries) -> bool {
    forall|k: int, j: int|
        0 <= k < g.len() && 0 <= j < g[k].subscribers.len() ==> has_id(
            c,
            (#[trigger] g[k].subscribers[j]).client@,
        )
}

/// Dropping the subscriptions of `ids` keeps subscriptions tied to
/// registered clients, when every other client stays registered.
pub proof fn unsubscribe_keeps_link(
    g0: Seq<TickerView>,
    g1: Seq<TickerView>,
    c0: Entries,
    c1: Entries,
    ids: Seq<Seq<char>>,
)
    requires
        linked(g0, c0),
        unsubscribed(g0, g1, ids),
        forall|x: Seq<char>| has_id(c0, x) && !ids.contains(x) ==> has_id(c1, x),
    ensures
        linked(g1, c1),
{
    assert forall|k: int, j: int|
        0 <= k < g1.len() && 0 <= j < g1[k].subscribers.len() implies has_id(
        c1,
        (#[trigger] g1[k].subscribers[j]).client@,
    ) by {
        let a = g0[k].subscribers;
        assert(g1[k].subscribers == without_clients(a, ids));
        lemma_without_clients_members(a, ids);
        let sub = g1[k].subscribers[j];
        assert(!ids.contains(sub.client@) && a.contains(sub));
        let i = choose|i: int| 0 <= i < a.len() && a[i] == sub;
        assert(has_id(c0, g0[k].subscribers[i].client@));
    }
}

/// Every command keeps each subscription tied to a registered client.
pub proof fn command_keeps_link(
    g0: Seq<TickerView>,
    g1: Seq<TickerView>,
    c0: Entries,
    c1: Entries,
    id: Seq<char>,
    state: SessionState,
    command: CommandModel,
    r: Outcome,
)
    requires
        unique_ids(c0),
        linked(g0, c0),
        command_effect(g0, g1, c0, c1, id, state, command, r),
    ensures
        linked(g1, c1),
{
    assert(seq![id][0] == id);
    match command {
        CommandModel::Stream { udp_addr, tickers } => {
            if all_in_book(g0, tickers) {
                let g = choose|g: Seq<TickerView>|
                    unsubscribed(g0, g, seq![id]) && subscribed(g, g1, uppers(tickers), id);
                let c = choose|c: ClientConfigView|
                    c.udp_addr == udp_addr && c.tickers == tickers && c1 == put(c0, id, c);
                lemma_put_ids(c0, id, c);
                unsubscribe_keeps_link(g0, g, c0, c1, seq![id]);
                assert forall|k: int, j: int|
                    0 <= k < g1.len() && 0 <= j < g1[k].subscribers.len() implies has_id(
                    c1,
                    (#[trigger] g1[k].subscribers[j]).client@,
                ) by {
                    let a = g[k].subscribers;
                    if j < a.len() {
                        assert(g1[k].subscribers.subrange(0, a.len() as int)[j] == a[j]);
                        assert(has_id(c1, g[k].subscribers[j].client@));
                    }
                }
            }
        },
        CommandModel::Ping => {
            let now = choose|now: u64| c1 == refresh_id(c0, id, now);
            lemma_refresh_ids(c0, id, now);
        },
        CommandModel::Stop => {
            lemma_remove_ids(c0, id);
            unsubscribe_keeps_link(g0, g1, c0, c1, seq![id]);
        },
        CommandModel::Help => {},
    }
}

/// `STOP` twice in a row: both are answered `STREAMING_STOPPED` and end the
/// session, and the second changes nothing; a `STOP` from a client that
/// never streamed leaves the registry, and (every subscription belonging to
/// a registered client) the subscriptions, as they were.
pub proof fn stop_is_idempotent(
    g0: Seq<TickerView>,
    g1: Seq<TickerView>,
    g2: Seq<TickerView>,
    c0: Entries,
    c1: Entries,
    c2: Entries,
    id: Seq<char>,
    s0: SessionState,
    s1: SessionState,
    r1: Outcome,
    r2: Outcome,
)
    requires
        unique_ids(c0),
        command_effect(g0, g1, c0, c1, id, s0, CommandModel::Stop, r1),
        command_effect(g1, g2, c1, c2, id, s1, CommandModel::Stop, r2),
    ensures
        r1.reply@ == "STREAMING_STOPPED\n"@,
        r2.reply@ == r1.reply@,
        r1.state == SessionState::Terminated,
        r2.state == SessionState::Terminated,
        c2 == c1,
        g2 == g1,
        !has_id(c0, id) ==> c1 == c0,
        linked(g0, c0) && !has_id(c0, id) ==> g1 == g0,
{
    if linked(g0, c0) && !has_id(c0, id) {
        assert forall|k: int| 0 <= k < g0.len() implies #[trigger] g1[k] == g0[k] by {
            let a = g0[k].subscribers;
            assert forall|j: int| 0 <= j < a.len() implies (#[trigger] a[j]).client@ != id by {
                assert(has_id(c0, g0[k].subscribers[j].client@));
            }
            lemma_without_client_absent(a, id);
            without_clients_one(a, id);
        }
        assert(g1 =~= g0);
    }
    if has_id(c0, id) {
        let k = crate::client_manager::index_of(c0, id);
        assert forall|j: int| 0 <= j < c1.len() implies c1[j].0 != id by {
            if j < k {
                assert(c1[j] == c0[j]);
            } else {
                assert(c1[j] == c0[j + 1]);
            }
        }
    }
    assert forall|k: int| 0 <= k < g1.len() implies #[trigger] g2[k] == g1[k] by {
        without_clients_one(g1[k].subscribers, id);
        without_clients_one(g0[k].subscribers, id);
        without_client_idempotent(g0[k].subscribers, id);
    }
    assert(g2 =~= g1);
}

/// A `STREAM` naming a ticker outside the book changes neither the book nor
/// the registry, and is answered with an error.
pub proof fn unknown_ticker_changes_nothing(
    g0: Seq<TickerView>,
    g1: Seq<TickerView>,
    c0: Entries,
    c1: Entries,
    id: Seq<char>,
    state: SessionState,
    udp_addr: Seq<char>,
    tickers: Seq<Seq<char>>,
    i: int,
    r: Outcome,
)
    requires
        0 <= i < tickers.len(),
        !in_book(g0, upper_of(tickers[i])),
        command_effect(g0, g1, c0, c1, id, state, CommandModel::Stream { udp_addr, tickers }, r),
    ensures
        g1 == g0,
        c1 == c0,
        r.state == state,
        r.sender is None,
        exists|e: ErrorModel| r.reply@ == error_line(e) && e is InvalidTicker,
{
}

} // verus!
