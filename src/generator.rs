use vstd::prelude::*;
use rand::Rng;
use crate::models::{
    clean_list, clean_pieces, current_millis, texts, CommandError, ErrorModel, StockQuote,
    PRICE_SCALE,
};
use crate::text::{same_text, to_upper, upper_of};

verus! {

#[verifier::external_type_specification]
#[verifier::external_body]
#[verifier::reject_recursive_types(T)]
pub struct ExSender<T>(crossbeam_channel::Sender<T>);

#[verifier::external_type_specification]
#[verifier::external_body]
#[verifier::reject_recursive_types(T)]
pub struct ExReceiver<T>(crossbeam_channel::Receiver<T>);

/// Relies on `crossbeam_channel::unbounded`: a fresh FIFO queue, as its
/// producer and consumer ends.
#[verifier::external_body]
fn open_queue() -> (r: (crossbeam_channel::Sender<StockQuote>, crossbeam_channel::Receiver<StockQuote>)) {
    crossbeam_channel::unbounded()
}

/// Relies on `crossbeam_channel::Sender::send`: enqueues `q` without blocking
/// (the queue is unbounded); false when the consumer end has been dropped.
#[verifier::external_body]
fn deliver(tx: &crossbeam_channel::Sender<StockQuote>, q: StockQuote) -> (r: bool) {
    tx.send(q).is_ok()
}

/// Relies on `rand::Rng::gen_range` over the thread-local generator: a value
/// drawn from `0..bound`.
#[verifier::external_body]
fn random_below(bound: u64) -> (r: u64)
    requires
        bound > 0,
    ensures
        r < bound,
{
    rand::thread_rng().gen_range(0..bound)
}

/// The lowest price a ticker can reach: one whole currency unit.
pub const MIN_PRICE: u64 = PRICE_SCALE;

/// The lowest volume a quote can carry.
pub const MIN_VOLUME: u32 = 100;

/// Volatility, spread draws and burst chances are in parts per million.
pub const PPM: u64 = 1_000_000;

/// The spread of the volume noise: draws from `0..VOLUME_SPREAD` stand for
/// factors from -2 to 2.
pub const VOLUME_SPREAD: u64 = 4_000_000;

/// One draw in twenty multiplies the volume by three.
pub const BURST_ODDS: u64 = 20;

/// Initial prices are drawn from 50 to 1000 whole units.
pub const START_PRICE_LOW: u64 = 50_000_000;

pub const START_PRICE_SPAN: u64 = 950_000_000;

/// The time stamp of a ticker's next quote: the clock reading `now`, or the
/// previous stamp when the clock reads earlier than it.
pub open spec fn next_stamp(last: u64, now: u64) -> u64 {
    if now >= last {
        now
    } else {
        last
    }
}

/// The quotes of one ticker carry time stamps that never decrease, whatever
/// the clock reads from one round to the next.
pub proof fn stamps_never_decrease(last: u64, now1: u64, now2: u64)
    ensures
        next_stamp(last, now1) >= last,
        next_stamp(next_stamp(last, now1), now2) >= next_stamp(last, now1),
{
}

/// Every ticker of `new` carries the stamp that one clock reading `now` gives
/// it after `old`.
pub open spec fn stamped_at(old: Seq<TickerView>, new: Seq<TickerView>, now: u64) -> bool {
    forall|k: int|
        0 <= k < old.len() ==> #[trigger] new[k].last_timestamp == next_stamp(old[k].last_timestamp, now)
}

/// Over two rounds of the generator, each ticker's time stamp never
/// decreases, whatever the two clock readings.
pub proof fn stamps_never_decrease_over_ticks(
    g0: Seq<TickerView>,
    g1: Seq<TickerView>,
    g2: Seq<TickerView>,
    now1: u64,
    now2: u64,
)
    requires
        g1.len() == g0.len(),
        stamped_at(g0, g1, now1),
        stamped_at(g1, g2, now2),
    ensures
        forall|k: int|
            0 <= k < g0.len() ==> g0[k].last_timestamp <= #[trigger] g1[k].last_timestamp
                <= g2[k].last_timestamp,
{
    assert forall|k: int| 0 <= k < g0.len() implies g0[k].last_timestamp <= #[trigger] g1[k].last_timestamp
        <= g2[k].last_timestamp by {
        stamps_never_decrease(g0[k].last_timestamp, now1, now2);
        assert(g2[k].last_timestamp == next_stamp(g1[k].last_timestamp, now2));
    }
}

/// The base volume of each ticker.
pub open spec fn base_volume_spec(t: Seq<char>) -> u32 {
    if t == "AAPL"@ || t == "MSFT"@ || t == "GOOGL"@ {
        5000
    } else if t == "TSLA"@ || t == "AMZN"@ || t == "NVDA"@ {
        3000
    } else if t == "META"@ || t == "JPM"@ || t == "JNJ"@ {
        2000
    } else {
        1000
    }
}

/// Computes `base_volume_spec(t@)`.
pub fn base_volume_for(t: &str) -> (r: u32)
    ensures
        r == base_volume_spec(t@),
        1000 <= r <= 5000,
{
    if same_text(t, "AAPL") || same_text(t, "MSFT") || same_text(t, "GOOGL") {
        5000
    } else if same_text(t, "TSLA") || same_text(t, "AMZN") || same_text(t, "NVDA") {
        3000
    } else if same_text(t, "META") || same_text(t, "JPM") || same_text(t, "JNJ") {
        2000
    } else {
        1000
    }
}

/// The next price: `price * (1 + d)` for the change
/// `d = (draw - volatility) / PPM`, rounded down, and held within
/// `MIN_PRICE..=u64::MAX`.
pub open spec fn price_step(price: u64, volatility: u64, draw: u64) -> int {
    let raw = (price as int) * (PPM + draw - volatility) / (PPM as int);
    if raw < MIN_PRICE {
        MIN_PRICE as int
    } else if raw > u64::MAX {
        u64::MAX as int
    } else {
        raw
    }
}

/// Computes `price_step`.
pub fn next_price(price: u64, volatility: u64, draw: u64) -> (r: u64)
    requires
        volatility <= PPM,
        draw <= 2 * volatility,
    ensures
        r == price_step(price, volatility, draw),
        r >= MIN_PRICE,
{
    let factor: u128 = (PPM + draw - volatility) as u128;
    assert(factor <= 2 * PPM);
    assert((price as int) * (factor as int) <= (u64::MAX as int) * (2 * PPM)) by (nonlinear_arith)
        requires
            factor <= 2 * PPM,
            price <= u64::MAX,
    ;
    let prod: u128 = (price as u128) * factor;
    let raw: u128 = prod / (PPM as u128);
    if raw < MIN_PRICE as u128 {
        MIN_PRICE
    } else if raw > u64::MAX as u128 {
        u64::MAX
    } else {
        raw as u64
    }
}

/// The volume of a quote: the base volume plus `s * base * 3 / 10` for the
/// noise factor `s = (spread - 2 * PPM) / PPM`, rounded down, at least
/// `MIN_VOLUME`, and tripled when `burst` is zero.
pub open spec fn volume_step(base: u32, spread: u64, burst: u64) -> int {
    let sigma = (base as int) * 3 / 10;
    let raw = ((base as int) * PPM + (spread - 2 * PPM) * sigma) / (PPM as int);
    let v = if raw < MIN_VOLUME {
        MIN_VOLUME as int
    } else {
        raw
    };
    if burst == 0 {
        3 * v
    } else {
        v
    }
}

/// Computes `volume_step`.
pub fn next_volume(base: u32, spread: u64, burst: u64) -> (r: u32)
    requires
        base <= 100_000_000,
        spread < VOLUME_SPREAD,
    ensures
        r == volume_step(base, spread, burst),
        r >= MIN_VOLUME,
{
    let sigma: u64 = (base as u64) * 3 / 10;
    assert(sigma <= 30_000_000);
    assert(spread * sigma <= VOLUME_SPREAD * 30_000_000) by (nonlinear_arith)
        requires
            spread < VOLUME_SPREAD,
            sigma <= 30_000_000,
    ;
    let up: u64 = (base as u64) * PPM + spread * sigma;
    assert(sigma * (2 * PPM) <= 30_000_000 * (2 * PPM)) by (nonlinear_arith)
        requires
            sigma <= 30_000_000,
    ;
    let down: u64 = sigma * (2 * PPM);
    assert(up <= 230_000_000 * PPM);
    let raw: u64 = if up >= down {
        let d: u64 = up - down;
        assert(d / PPM <= 230_000_000) by (nonlinear_arith)
            requires
                d <= 230_000_000 * PPM,
        ;
        d / PPM
    } else {
        0
    };
    proof {
        let s = (base as int) * 3 / 10;
        assert(s == sigma);
        let num = (base as int) * PPM + (spread - 2 * PPM) * s;
        let exact = num / (PPM as int);
        assert((spread - 2 * PPM) * s == spread * s - 2 * PPM * s) by (nonlinear_arith);
        assert(sigma * (2 * PPM) == 2 * PPM * s) by (nonlinear_arith)
            requires
                s == sigma,
        ;
        assert(num == up as int - down as int);
        if up < down {
            assert(exact < MIN_VOLUME) by (nonlinear_arith)
                requires
                    num < 0,
                    exact == num / (PPM as int),
            ;
        } else {
            assert(exact == raw);
        }
    }
    let v: u64 = if raw < MIN_VOLUME as u64 {
        MIN_VOLUME as u64
    } else {
        raw
    };
    assert(v <= 230_000_000);
    if burst == 0 {
        (3 * v) as u32
    } else {
        v as u32
    }
}

/// One subscription: the client it belongs to, and the producer end of its
/// queue.
pub struct Subscription {
    pub client: String,
    pub tx: crossbeam_channel::Sender<StockQuote>,
}

/// The subscriptions of `s` that do not belong to `id`, in order.
pub open spec fn without_client(s: Seq<Subscription>, id: Seq<char>) -> Seq<Subscription>
    decreases s.len(),
{
    if s.len() == 0 {
        seq![]
    } else if s.last().client@ == id {
        without_client(s.drop_last(), id)
    } else {
        without_client(s.drop_last(), id).push(s.last())
    }
}

/// The subscriptions of `s` that belong to none of `ids`, in order.
pub open spec fn without_clients(s: Seq<Subscription>, ids: Seq<Seq<char>>) -> Seq<Subscription>
    decreases ids.len(),
{
    if ids.len() == 0 {
        s
    } else {
        without_client(without_clients(s, ids.drop_last()), ids.last())
    }
}

/// Dropping the clients of a one-item list drops that client.
pub proof fn without_clients_one(s: Seq<Subscription>, id: Seq<char>)
    ensures
        without_clients(s, seq![id]) == without_client(s, id),
{
    let ids = seq![id];
    assert(ids.drop_last() =~= Seq::<Seq<char>>::empty());
    assert(without_clients(s, ids.drop_last()) == s);
}

/// Drops the subscriptions of the client `id`.
fn drop_client(subs: &mut Vec<Subscription>, id: &str)
    ensures
        final(subs)@ == without_client(old(subs)@, id@),
{
    let ghost s = subs@;
    let mut rest: Vec<Subscription> = Vec::new();
    std::mem::swap(subs, &mut rest);
    let m = rest.len();
    let mut j: usize = 0;
    while j < m
        invariant
            m == s.len(),
            rest@ == s.subrange(j as int, m as int),
            j <= m,
            subs@ == without_client(s.subrange(0, j as int), id@),
        decreases m - j,
    {
        let sub = rest.remove(0);
        assert(sub == s[j as int]);
        assert(s.subrange(0, j + 1).drop_last() =~= s.subrange(0, j as int));
        assert(s.subrange(0, j + 1).last() == sub);
        assert(rest@ =~= s.subrange(j + 1, m as int));
        if !same_text(sub.client.as_str(), id) {
            subs.push(sub);
        }
        j = j + 1;
    }
    assert(s.subrange(0, m as int) =~= s);
}

/// What dropping a client's subscriptions keeps: subscriptions of `s` that
/// do not belong to `id`.
pub proof fn lemma_without_client_members(s: Seq<Subscription>, id: Seq<char>)
    ensures
        forall|j: int|
            0 <= j < without_client(s, id).len() ==> (#[trigger] without_client(s, id)[j]).client@
                != id && s.contains(without_client(s, id)[j]),
    decreases s.len(),
{
    if s.len() > 0 {
        let p = s.drop_last();
        lemma_without_client_members(p, id);
        let w0 = without_client(p, id);
        let w = without_client(s, id);
        assert forall|j: int| 0 <= j < w.len() implies (#[trigger] w[j]).client@ != id && s.contains(
            w[j],
        ) by {
            if j < w0.len() {
                assert(w[j] == w0[j]);
                let i = choose|i: int| 0 <= i < p.len() && p[i] == w0[j];
                assert(s[i] == w0[j]);
            } else {
                assert(w[j] == s.last());
                assert(s[s.len() - 1] == s.last());
            }
        }
    }
}

/// What dropping the subscriptions of several clients keeps: subscriptions
/// of `s` that belong to none of them.
pub proof fn lemma_without_clients_members(s: Seq<Subscription>, ids: Seq<Seq<char>>)
    ensures
        forall|j: int|
            0 <= j < without_clients(s, ids).len() ==> !ids.contains(
                (#[trigger] without_clients(s, ids)[j]).client@,
            ) && s.contains(without_clients(s, ids)[j]),
    decreases ids.len(),
{
    if ids.len() > 0 {
        let p = ids.drop_last();
        lemma_without_clients_members(s, p);
        let w0 = without_clients(s, p);
        lemma_without_client_members(w0, ids.last());
        let w = without_clients(s, ids);
        assert forall|j: int| 0 <= j < w.len() implies !ids.contains((#[trigger] w[j]).client@)
            && s.contains(w[j]) by {
            let i = choose|i: int| 0 <= i < w0.len() && w0[i] == w[j];
            assert(w0[i] == w[j]);
            assert(!p.contains(w0[i].client@));
            assert forall|m: int| 0 <= m < ids.len() implies ids[m] != w[j].client@ by {
                if m < p.len() {
                    assert(p[m] == ids[m]);
                }
            }
        }
    }
}

/// Dropping the subscriptions of a client that has none changes nothing.
pub proof fn lemma_without_client_absent(s: Seq<Subscription>, id: Seq<char>)
    requires
        forall|j: int| 0 <= j < s.len() ==> (#[trigger] s[j]).client@ != id,
    ensures
        without_client(s, id) == s,
    decreases s.len(),
{
    if s.len() > 0 {
        let p = s.drop_last();
        assert forall|j: int| 0 <= j < p.len() implies (#[trigger] p[j]).client@ != id by {
            assert(p[j] == s[j]);
        }
        lemma_without_client_absent(p, id);
        assert(s[s.len() - 1] == s.last());
        assert(p.push(s.last()) =~= s);
    }
}

/// Dropping a client's subscriptions twice drops no more than once.
pub proof fn without_client_idempotent(s: Seq<Subscription>, id: Seq<char>)
    ensures
        without_client(without_client(s, id), id) == without_client(s, id),
    decreases s.len(),
{
    if s.len() > 0 {
        without_client_idempotent(s.drop_last(), id);
        if s.last().client@ != id {
            let w = without_client(s.drop_last(), id);
            assert(w.push(s.last()).drop_last() =~= w);
        }
    }
}

/// One ticker of the price book.
pub struct TickerBook {
    pub ticker: String,
    pub price: u64,
    pub base_volume: u32,
    pub last_timestamp: u64,
    pub subscribers: Vec<Subscription>,
}

/// One ticker of the price book, as a mathematical value.
pub struct TickerView {
    pub ticker: Seq<char>,
    pub price: u64,
    pub base_volume: u32,
    pub last_timestamp: u64,
    pub subscribers: Seq<Subscription>,
}

impl View for TickerBook {
    type V = TickerView;

    open spec fn view(&self) -> TickerView {
        TickerView {
            ticker: self.ticker@,
            price: self.price,
            base_volume: self.base_volume,
            last_timestamp: self.last_timestamp,
            subscribers: self.subscribers@,
        }
    }
}

/// The book's tickers, in order.
pub open spec fn book_tickers(b: Seq<TickerView>) -> Seq<Seq<char>> {
    b.map_values(|e: TickerView| e.ticker)
}

/// Whether `t` is in the book.
pub open spec fn in_book(b: Seq<TickerView>, t: Seq<char>) -> bool {
    book_tickers(b).contains(t)
}

/// The items of `s` for which `ok` holds, in order.
pub open spec fn kept<T>(s: Seq<T>, ok: Seq<bool>) -> Seq<T>
    decreases s.len(),
{
    if s.len() == 0 || ok.len() != s.len() {
        seq![]
    } else if ok.last() {
        kept(s.drop_last(), ok.drop_last()).push(s.last())
    } else {
        kept(s.drop_last(), ok.drop_last())
    }
}

/// A broadcast keeps every subscription whose queue took the quote: when
/// each offer succeeds, the subscriber list is unchanged.
pub proof fn broadcast_keeps_takers<T>(s: Seq<T>, ok: Seq<bool>)
    requires
        ok.len() == s.len(),
        forall|i: int| 0 <= i < ok.len() ==> #[trigger] ok[i],
    ensures
        kept(s, ok) == s,
    decreases s.len(),
{
    if s.len() > 0 {
        broadcast_keeps_takers(s.drop_last(), ok.drop_last());
        assert(ok.last());
        assert(s.drop_last().push(s.last()) =~= s);
    }
}

/// How many offers succeeded.
pub open spec fn takers(ok: Seq<bool>) -> nat
    decreases ok.len(),
{
    if ok.len() == 0 {
        0
    } else {
        takers(ok.drop_last()) + if ok.last() {
            1nat
        } else {
            0nat
        }
    }
}

/// A broadcast keeps as many subscriptions as there were offers that
/// succeeded.
pub proof fn broadcast_keeps_count<T>(s: Seq<T>, ok: Seq<bool>)
    requires
        ok.len() == s.len(),
    ensures
        kept(s, ok).len() == takers(ok),
    decreases s.len(),
{
    if s.len() > 0 {
        broadcast_keeps_count(s.drop_last(), ok.drop_last());
    }
}

/// The distinct items of `s`, each where it first occurs.
pub open spec fn distinct(s: Seq<Seq<char>>) -> Seq<Seq<char>>
    decreases s.len(),
{
    if s.len() == 0 {
        seq![]
    } else if distinct(s.drop_last()).contains(s.last()) {
        distinct(s.drop_last())
    } else {
        distinct(s.drop_last()).push(s.last())
    }
}

/// How many items of `s` equal `t`.
pub open spec fn occurrences(s: Seq<Seq<char>>, t: Seq<char>) -> nat
    decreases s.len(),
{
    if s.len() == 0 {
        0
    } else {
        occurrences(s.drop_last(), t) + if s.last() == t {
            1nat
        } else {
            0nat
        }
    }
}

/// Offers `quote` once to each subscriber, in order, and keeps those that
/// took it. The outcome of each offer, in order, and a record of the quote
/// handed to each subscriber's queue.
pub fn broadcast(subscribers: &mut Vec<Subscription>, quote: &StockQuote) -> (r: (
    Vec<bool>,
    Ghost<Seq<StockQuote>>,
))
    ensures
        r.0@.len() == old(subscribers)@.len(),
        final(subscribers)@ == kept(old(subscribers)@, r.0@),
        r.1@.len() == old(subscribers)@.len(),
        forall|i: int| 0 <= i < r.1@.len() ==> #[trigger] r.1@[i] == *quote,
{
    let ghost s = subscribers@;
    let ghost mut offered: Seq<StockQuote> = seq![];
    let mut rest: Vec<Subscription> = Vec::new();
    std::mem::swap(subscribers, &mut rest);
    let mut outcomes: Vec<bool> = Vec::new();
    let n = rest.len();
    let mut i: usize = 0;
    while i < n
        invariant
            n == s.len(),
            rest@ == s.subrange(i as int, n as int),
            i <= n,
            outcomes@.len() == i,
            subscribers@ == kept(s.subrange(0, i as int), outcomes@),
            offered.len() == i,
            forall|j: int| 0 <= j < i ==> #[trigger] offered[j] == *quote,
        decreases n - i,
    {
        let tx = rest.remove(0);
        assert(tx == s[i as int]);
        let q = quote.duplicate();
        proof {
            offered = offered.push(q);
        }
        let ok = deliver(&tx.tx, q);
        let ghost before = outcomes@;
        outcomes.push(ok);
        assert(s.subrange(0, i + 1).drop_last() =~= s.subrange(0, i as int));
        assert(s.subrange(0, i + 1).last() == tx);
        assert(outcomes@.drop_last() =~= before);
        assert(rest@ =~= s.subrange(i + 1, n as int));
        if ok {
            subscribers.push(tx);
        }
        i = i + 1;
    }
    assert(s.subrange(0, n as int) =~= s);
    (outcomes, Ghost(offered))
}

/// The upper-case form of each string.
pub open spec fn uppers(v: Seq<Seq<char>>) -> Seq<Seq<char>> {
    v.map_values(|t: Seq<char>| upper_of(t))
}

/// Whether `new` is `old` with some of its items left out, order kept.
pub open spec fn pruned<T>(old: Seq<T>, new: Seq<T>) -> bool {
    exists|ok: Seq<bool>| ok.len() == old.len() && new == kept(old, ok)
}

/// `new` is `old` after one fresh subscription of the client `id` for each
/// ticker of `req`: prices and times untouched, earlier subscriptions kept.
pub open spec fn subscribed(
    old: Seq<TickerView>,
    new: Seq<TickerView>,
    req: Seq<Seq<char>>,
    id: Seq<char>,
) -> bool {
    &&& new.len() == old.len()
    &&& forall|k: int|
        0 <= k < old.len() ==> {
            let a = old[k];
            let b = #[trigger] new[k];
            &&& b.ticker == a.ticker
            &&& b.price == a.price
            &&& b.base_volume == a.base_volume
            &&& b.last_timestamp == a.last_timestamp
            &&& b.subscribers.len() == a.subscribers.len() + occurrences(req, a.ticker)
            &&& b.subscribers.subrange(0, a.subscribers.len() as int) == a.subscribers
            &&& forall|j: int|
                a.subscribers.len() <= j < b.subscribers.len() ==> (#[trigger] b.subscribers[j]).client@
                    == id
        }
}

/// `new` is `old` with every subscription of the clients `ids` dropped:
/// prices and times untouched.
pub open spec fn unsubscribed(old: Seq<TickerView>, new: Seq<TickerView>, ids: Seq<Seq<char>>) -> bool {
    &&& new.len() == old.len()
    &&& forall|k: int|
        0 <= k < old.len() ==> {
            let a = old[k];
            let b = #[trigger] new[k];
            &&& b.ticker == a.ticker
            &&& b.price == a.price
            &&& b.base_volume == a.base_volume
            &&& b.last_timestamp == a.last_timestamp
            &&& b.subscribers == without_clients(a.subscribers, ids)
        }
}

/// Every ticker of `req`, in upper case, is in the book.
pub open spec fn all_in_book(b: Seq<TickerView>, req: Seq<Seq<char>>) -> bool {
    forall|i: int| 0 <= i < req.len() ==> in_book(b, upper_of(#[trigger] req[i]))
}

/// The position of `t` in the book.
fn find_ticker(book: &Vec<TickerBook>, t: &str) -> (r: Option<usize>)
    ensures
        r.is_some() == in_book(book@.map_values(|e: TickerBook| e@), t@),
        r matches Some(k) ==> k < book@.len() && book@[k as int].ticker@ == t@,
{
    let ghost b = book@.map_values(|e: TickerBook| e@);
    let mut i: usize = 0;
    while i < book.len()
        invariant
            b == book@.map_values(|e: TickerBook| e@),
            i <= book@.len(),
            forall|j: int| 0 <= j < i ==> book@[j].ticker@ != t@,
        decreases book@.len() - i,
    {
        if same_text(book[i].ticker.as_str(), t) {
            assert(book_tickers(b)[i as int] == t@);
            return Some(i);
        }
        i = i + 1;
    }
    assert forall|j: int| 0 <= j < book_tickers(b).len() implies book_tickers(b)[j] != t@ by {
        assert(book_tickers(b)[j] == book@[j].ticker@);
    }
    None
}

/// The price book and its subscriptions.
pub struct QuoteGenerator {
    book: Vec<TickerBook>,
    volatility: u64,
}

impl View for QuoteGenerator {
    type V = Seq<TickerView>;

    closed spec fn view(&self) -> Seq<TickerView> {
        self.book@.map_values(|e: TickerBook| e@)
    }
}

impl QuoteGenerator {
    /// The volatility, in parts per million.
    pub closed spec fn volatility_ppm(&self) -> u64 {
        self.volatility
    }

    /// The book is well formed: tickers distinct, prices at least
    /// `MIN_PRICE`, base volumes from the table, volatility at most one.
    pub open spec fn wf(&self) -> bool {
        &&& self.volatility_ppm() <= PPM
        &&& forall|i: int, j: int|
            0 <= i < self@.len() && 0 <= j < self@.len() && i != j ==> self@[i].ticker
                != self@[j].ticker
        &&& forall|i: int|
            0 <= i < self@.len() ==> #[trigger] self@[i].price >= MIN_PRICE && self@[i].base_volume
                == base_volume_spec(self@[i].ticker)
    }

    /// A book of the distinct tickers among `tickers`, in upper case, each at
    /// a random starting price and with no subscriber. `volatility` is in
    /// parts per million.
    pub fn new(tickers: Vec<String>, volatility: u64) -> (r: QuoteGenerator)
        requires
            volatility <= PPM,
        ensures
            r.wf(),
            r.volatility_ppm() == volatility,
            book_tickers(r@) == distinct(uppers(texts(tickers@))),
            forall|i: int|
                0 <= i < r@.len() ==> START_PRICE_LOW <= #[trigger] r@[i].price < START_PRICE_LOW
                    + START_PRICE_SPAN && r@[i].subscribers.len() == 0 && r@[i].last_timestamp
                    == 0,
    {
        let ghost want = uppers(texts(tickers@));
        let mut g = QuoteGenerator { book: Vec::new(), volatility };
        let mut i: usize = 0;
        assert(book_tickers(g@) =~= distinct(want.subrange(0, 0)));
        while i < tickers.len()
            invariant
                want == uppers(texts(tickers@)),
                i <= tickers@.len(),
                g.wf(),
                g.volatility_ppm() == volatility,
                book_tickers(g@) == distinct(want.subrange(0, i as int)),
                forall|k: int|
                    0 <= k < g@.len() ==> START_PRICE_LOW <= #[trigger] g@[k].price
                        < START_PRICE_LOW + START_PRICE_SPAN && g@[k].subscribers.len() == 0
                        && g@[k].last_timestamp == 0,
            decreases tickers@.len() - i,
        {
            let t = to_upper(tickers[i].as_str());
            let ghost pre = want.subrange(0, i as int);
            assert(want.subrange(0, i + 1).drop_last() =~= pre);
            assert(want.subrange(0, i + 1).last() == t@);
            if find_ticker(&g.book, t.as_str()).is_none() {
                let ghost before = g@;
                let base_volume = base_volume_for(t.as_str());
                let price = START_PRICE_LOW + random_below(START_PRICE_SPAN);
                g.book.push(
                    TickerBook { ticker: t, price, base_volume, last_timestamp: 0, subscribers: Vec::new() },
                );
                assert(g@ =~= before.push(g@.last()));
                assert(book_tickers(g@) =~= book_tickers(before).push(g@.last().ticker));
                assert forall|a: int, b: int|
                    0 <= a < g@.len() && 0 <= b < g@.len() && a != b implies g@[a].ticker
                    != g@[b].ticker by {
                    if a == before.len() && b < before.len() {
                        assert(book_tickers(before)[b] == g@[b].ticker);
                    } else if b == before.len() && a < before.len() {
                        assert(book_tickers(before)[a] == g@[a].ticker);
                    }
                }
            }
            i = i + 1;
        }
        assert(want.subrange(0, tickers@.len() as int) =~= want);
        g
    }

    /// A book of the tickers listed one per line in `content` (each line
    /// trimmed and in upper case, blank lines left out).
    pub fn from_text(content: &str, volatility: u64) -> (r: QuoteGenerator)
        requires
            volatility <= PPM,
        ensures
            r.wf(),
            r.volatility_ppm() == volatility,
            book_tickers(r@) == distinct(uppers(clean_list(content@, Some('\n')))),
            forall|i: int|
                0 <= i < r@.len() ==> START_PRICE_LOW <= #[trigger] r@[i].price < START_PRICE_LOW
                    + START_PRICE_SPAN && r@[i].subscribers.len() == 0 && r@[i].last_timestamp
                    == 0,
    {
        let tickers = clean_pieces(content, Some('\n'));
        Self::new(tickers, volatility)
    }

    /// Whether `ticker`, in upper case, is in the book.
    pub fn has_ticker(&self, ticker: &str) -> (r: bool)
        ensures
            r == in_book(self@, upper_of(ticker@)),
    {
        let t = to_upper(ticker);
        find_ticker(&self.book, t.as_str()).is_some()
    }

    /// The book's tickers, in order.
    pub fn tickers(&self) -> (r: Vec<String>)
        ensures
            texts(r@) == book_tickers(self@),
    {
        let mut r: Vec<String> = Vec::new();
        let mut i: usize = 0;
        while i < self.book.len()
            invariant
                i <= self@.len(),
                texts(r@) == book_tickers(self@).subrange(0, i as int),
            decreases self@.len() - i,
        {
            let ghost before = r@;
            r.push(self.book[i].ticker.clone());
            assert(texts(r@) =~= texts(before).push(self@[i as int].ticker));
            assert(book_tickers(self@).subrange(0, i + 1) =~= book_tickers(self@).subrange(0, i as int).push(self@[i as int].ticker));
            i = i + 1;
        }
        assert(book_tickers(self@).subrange(0, self@.len() as int) =~= book_tickers(self@));
        r
    }

    /// How many subscriptions `ticker`, in upper case, has; none when it is
    /// not in the book.
    pub fn subscriber_count(&self, ticker: &str) -> (r: Option<usize>)
        ensures
            r.is_some() == in_book(self@, upper_of(ticker@)),
            r matches Some(n) ==> exists|k: int|
                0 <= k < self@.len() && self@[k].ticker == upper_of(ticker@) && n
                    == self@[k].subscribers.len(),
    {
        let t = to_upper(ticker);
        match find_ticker(&self.book, t.as_str()) {
            Some(k) => {
                assert(self@[k as int].ticker == upper_of(ticker@));
                Some(self.book[k].subscribers.len())
            },
            None => None,
        }
    }

    /// Adds a producer end to the subscriptions of the ticker at `k`.
    fn add_subscriber(&mut self, k: usize, tx: Subscription)
        requires
            old(self).wf(),
            k < old(self)@.len(),
        ensures
            final(self).wf(),
            final(self).volatility_ppm() == old(self).volatility_ppm(),
            final(self)@ == old(self)@.update(
                k as int,
                TickerView { subscribers: old(self)@[k as int].subscribers.push(tx), ..old(self)@[k as int] },
            ),
    {
        let mut e = self.book.remove(k);
        e.subscribers.push(tx);
        self.book.insert(k, e);
        assert(self@ =~= old(self)@.update(
            k as int,
            TickerView { subscribers: old(self)@[k as int].subscribers.push(tx), ..old(self)@[k as int] },
        ));
    }

    /// Subscribes to each of `tickers`, in upper case: one fresh queue per
    /// requested ticker, whose consumer ends come back in request order.
    /// Refused, with nothing changed, when one of them is not in the book;
    /// the error names the first such ticker.
    pub fn subscribe_to_tickers(&mut self, client_id: &str, tickers: Vec<String>) -> (r: Result<
        Vec<crossbeam_channel::Receiver<StockQuote>>,
        CommandError,
    >)
        requires
            old(self).wf(),
        ensures
            final(self).wf(),
            final(self).volatility_ppm() == old(self).volatility_ppm(),
            r.is_err() == !all_in_book(old(self)@, texts(tickers@)),
            r matches Err(e) ==> final(self)@ == old(self)@ && exists|i: int|
                0 <= i < tickers@.len() && !in_book(old(self)@, upper_of(texts(tickers@)[i]))
                    && e@ == ErrorModel::InvalidTicker(upper_of(texts(tickers@)[i])) && forall|j: int|
                    0 <= j < i ==> in_book(old(self)@, upper_of(#[trigger] texts(tickers@)[j])),
            r matches Ok(v) ==> v@.len() == tickers@.len() && subscribed(
                old(self)@,
                final(self)@,
                uppers(texts(tickers@)),
                client_id@,
            ),
    {
        let mut i: usize = 0;
        while i < tickers.len()
            invariant
                *self == *old(self),
                self.wf(),
                i <= tickers@.len(),
                forall|j: int| 0 <= j < i ==> in_book(self@, upper_of(#[trigger] tickers@[j]@)),
            decreases tickers@.len() - i,
        {
            let t = to_upper(tickers[i].as_str());
            assert(texts(tickers@)[i as int] == tickers@[i as int]@);
            if find_ticker(&self.book, t.as_str()).is_none() {
                assert(forall|j: int| 0 <= j < i ==> texts(tickers@)[j] == tickers@[j]@);
                return Err(CommandError::InvalidTicker(t));
            }
            i = i + 1;
        }
        let ghost req = uppers(texts(tickers@));
        let ghost start = self@;
        assert(forall|j: int| 0 <= j < tickers@.len() ==> texts(tickers@)[j] == tickers@[j]@);
        let mut out: Vec<crossbeam_channel::Receiver<StockQuote>> = Vec::new();
        let mut i: usize = 0;
        while i < tickers.len()
            invariant
                req == uppers(texts(tickers@)),
                i <= tickers@.len(),
                out@.len() == i,
                self.wf(),
                self.volatility_ppm() == old(self).volatility_ppm(),
                start == old(self)@,
                forall|j: int| 0 <= j < tickers@.len() ==> in_book(start, upper_of(#[trigger] tickers@[j]@)),
                self@.len() == start.len(),
                forall|k: int|
                    0 <= k < start.len() ==> {
                        let a = start[k];
                        let b = #[trigger] self@[k];
                        &&& b.ticker == a.ticker
                        &&& b.price == a.price
                        &&& b.base_volume == a.base_volume
                        &&& b.last_timestamp == a.last_timestamp
                        &&& b.subscribers.len() == a.subscribers.len() + occurrences(
                            req.subrange(0, i as int),
                            a.ticker,
                        )
                        &&& b.subscribers.subrange(0, a.subscribers.len() as int) == a.subscribers
                        &&& forall|j: int|
                            a.subscribers.len() <= j < b.subscribers.len() ==> (
                            #[trigger] b.subscribers[j]).client@ == client_id@
                    },
            decreases tickers@.len() - i,
        {
            let t = to_upper(tickers[i].as_str());
            assert(req[i as int] == t@);
            assert(in_book(start, t@));
            let ghost before = self@;
            assert(book_tickers(before) =~= book_tickers(start)) by {
                assert forall|k: int| 0 <= k < start.len() implies book_tickers(before)[k]
                    == book_tickers(start)[k] by {
                    assert(before[k].ticker == start[k].ticker);
                }
            }
            match find_ticker(&self.book, t.as_str()) {
                Some(k) => {
                    let (tx, rx) = open_queue();
                    self.add_subscriber(k, Subscription { client: String::from_str(client_id), tx });
                    out.push(rx);
                    assert(req.subrange(0, i + 1).drop_last() =~= req.subrange(0, i as int));
                    assert(req.subrange(0, i + 1).last() == t@);
                    assert forall|m: int| 0 <= m < start.len() implies {
                        let a = start[m];
                        let b = #[trigger] self@[m];
                        &&& b.ticker == a.ticker
                        &&& b.price == a.price
                        &&& b.base_volume == a.base_volume
                        &&& b.last_timestamp == a.last_timestamp
                        &&& b.subscribers.len() == a.subscribers.len() + occurrences(
                            req.subrange(0, i + 1),
                            a.ticker,
                        )
                        &&& b.subscribers.subrange(0, a.subscribers.len() as int) == a.subscribers
                        &&& forall|j: int|
                            a.subscribers.len() <= j < b.subscribers.len() ==> (
                            #[trigger] b.subscribers[j]).client@ == client_id@
                    } by {
                        assert(before[m].ticker == start[m].ticker);
                        if m == k {
                            assert(self@[m].subscribers.subrange(0, start[m].subscribers.len() as int)
                                =~= before[m].subscribers.subrange(0, start[m].subscribers.len() as int));
                        } else {
                            assert(before[m].ticker != before[k as int].ticker);
                        }
                    }
                },
                None => {
                    assert(false);
                },
            }
            i = i + 1;
        }
        assert(req.subrange(0, tickers@.len() as int) =~= req);
        Ok(out)
    }

    /// Moves the ticker at `k` one step with the given draws at `now_ms`, and
    /// offers the resulting quote once to each of its subscribers, keeping
    /// those that took it. The quote, and the outcome of each offer.
    pub fn advance(
        &mut self,
        k: usize,
        price_draw: u64,
        spread_draw: u64,
        burst_draw: u64,
        now_ms: u64,
    ) -> (r: (StockQuote, Vec<bool>))
        requires
            old(self).wf(),
            k < old(self)@.len(),
            price_draw <= 2 * old(self).volatility_ppm(),
            spread_draw < VOLUME_SPREAD,
        ensures
            final(self).wf(),
            final(self).volatility_ppm() == old(self).volatility_ppm(),
            final(self)@.len() == old(self)@.len(),
            forall|j: int| 0 <= j < old(self)@.len() && j != k ==> #[trigger] final(self)@[j] == old(self)@[j],
            ({
                let a = old(self)@[k as int];
                let b = final(self)@[k as int];
                &&& b.ticker == a.ticker
                &&& b.base_volume == a.base_volume
                &&& b.price == price_step(a.price, old(self).volatility_ppm(), price_draw)
                &&& b.last_timestamp == next_stamp(a.last_timestamp, now_ms)
                &&& r.0.ticker@ == a.ticker
                &&& r.0.price == b.price
                &&& r.0.volume == volume_step(a.base_volume, spread_draw, burst_draw)
                &&& r.0.timestamp == b.last_timestamp
                &&& r.1@.len() == a.subscribers.len()
                &&& b.subscribers == kept(a.subscribers, r.1@)
            }),
    {
        assert(old(self)@[k as int].price >= MIN_PRICE);
        let mut e = self.book.remove(k);
        assert(e@ == old(self)@[k as int]);
        let price = next_price(e.price, self.volatility, price_draw);
        let volume = next_volume(e.base_volume, spread_draw, burst_draw);
        let stamp = if now_ms >= e.last_timestamp {
            now_ms
        } else {
            e.last_timestamp
        };
        e.price = price;
        e.last_timestamp = stamp;
        let q = StockQuote { ticker: e.ticker.clone(), price, volume, timestamp: stamp };
        let (outcomes, _offered) = broadcast(&mut e.subscribers, &q);
        self.book.insert(k, e);
        assert forall|j: int| 0 <= j < old(self)@.len() && j != k implies #[trigger] self@[j]
            == old(self)@[j] by {
            if j < k {
                assert(self.book@[j] == old(self).book@[j]);
            } else {
                assert(self.book@[j] == old(self).book@[j]);
            }
        }
        assert forall|i: int, j: int|
            0 <= i < self@.len() && 0 <= j < self@.len() && i != j implies self@[i].ticker
            != self@[j].ticker by {
            assert(old(self)@[i].ticker != old(self)@[j].ticker);
        }
        assert forall|i: int| 0 <= i < self@.len() implies #[trigger] self@[i].price >= MIN_PRICE
            && self@[i].base_volume == base_volume_spec(self@[i].ticker) by {
            assert(old(self)@[i].price >= MIN_PRICE);
        }
        (q, outcomes)
    }

    /// One round of the generator at the current time: every ticker of the
    /// book moves one step, with fresh random draws, and its quote is offered
    /// once to each of its subscribers. The quotes, in book order.
    pub fn tick(&mut self) -> (r: Vec<StockQuote>)
        requires
            old(self).wf(),
        ensures
            final(self).wf(),
            final(self).volatility_ppm() == old(self).volatility_ppm(),
            final(self)@.len() == old(self)@.len(),
            r@.len() == old(self)@.len(),
            forall|k: int|
                0 <= k < old(self)@.len() ==> {
                    let a = old(self)@[k];
                    let b = #[trigger] final(self)@[k];
                    &&& b.ticker == a.ticker
                    &&& b.base_volume == a.base_volume
                    &&& r@[k].ticker@ == b.ticker
                    &&& r@[k].price == b.price
                    &&& r@[k].price >= MIN_PRICE
                    &&& r@[k].volume >= MIN_VOLUME
                    &&& r@[k].timestamp == b.last_timestamp
                    &&& r@[k].timestamp >= a.last_timestamp
                    &&& pruned(a.subscribers, b.subscribers)
                    &&& exists|d: u64|
                        d <= 2 * old(self).volatility_ppm() && b.price == price_step(
                            a.price,
                            old(self).volatility_ppm(),
                            d,
                        )
                    &&& exists|sd: u64, bd: u64|
                        sd < VOLUME_SPREAD && r@[k].volume == volume_step(a.base_volume, sd, bd)
                },
            exists|now: u64| #[trigger] stamped_at(old(self)@, final(self)@, now),
    {
        let now = current_millis();
        let vol = self.volatility;
        let n = self.book.len();
        let mut out: Vec<StockQuote> = Vec::new();
        let mut i: usize = 0;
        while i < n
            invariant
                n == old(self)@.len(),
                vol == self.volatility_ppm(),
                self.wf(),
                self.volatility_ppm() == old(self).volatility_ppm(),
                self@.len() == n,
                i <= n,
                out@.len() == i,
                forall|k: int| i <= k < n ==> #[trigger] self@[k] == old(self)@[k],
                forall|k: int|
                    0 <= k < i ==> {
                        let a = old(self)@[k];
                        let b = #[trigger] self@[k];
                        &&& b.ticker == a.ticker
                        &&& b.base_volume == a.base_volume
                        &&& out@[k].ticker@ == b.ticker
                        &&& out@[k].price == b.price
                        &&& out@[k].price >= MIN_PRICE
                        &&& out@[k].volume >= MIN_VOLUME
                        &&& out@[k].timestamp == b.last_timestamp
                        &&& out@[k].timestamp >= a.last_timestamp
                        &&& pruned(a.subscribers, b.subscribers)
                        &&& exists|d: u64|
                            d <= 2 * vol && b.price == price_step(a.price, vol, d)
                        &&& exists|sd: u64, bd: u64|
                            sd < VOLUME_SPREAD && out@[k].volume == volume_step(a.base_volume, sd, bd)
                        &&& b.last_timestamp == next_stamp(a.last_timestamp, now)
                    },
            decreases n - i,
        {
            let price_draw = if vol > 0 {
                random_below(2 * vol)
            } else {
                0
            };
            let spread_draw = random_below(VOLUME_SPREAD);
            let burst_draw = random_below(BURST_ODDS);
            let ghost before = self@;
            let (q, outcomes) = self.advance(i, price_draw, spread_draw, burst_draw, now);
            proof {
                let a = before[i as int];
                let b = self@[i as int];
                assert(b.subscribers == kept(a.subscribers, outcomes@));
                assert(pruned(a.subscribers, b.subscribers));
                assert(q.volume == volume_step(a.base_volume, spread_draw, burst_draw));
                assert(b.price == price_step(a.price, vol, price_draw));
                assert(exists|d: u64| d <= 2 * vol && b.price == price_step(a.price, vol, d));
                assert(exists|sd: u64, bd: u64|
                    sd < VOLUME_SPREAD && q.volume == volume_step(a.base_volume, sd, bd));
                assert(b.last_timestamp == next_stamp(a.last_timestamp, now));
            }
            out.push(q);
            i = i + 1;
        }
        assert(stamped_at(old(self)@, self@, now));
        out
    }

    /// Drops every subscription of the client `client_id`, which closes
    /// those queues for its emitter.
    pub fn unsubscribe_client(&mut self, client_id: &str)
        requires
            old(self).wf(),
        ensures
            final(self).wf(),
            final(self).volatility_ppm() == old(self).volatility_ppm(),
            unsubscribed(old(self)@, final(self)@, seq![client_id@]),
    {
        let n = self.book.len();
        let mut i: usize = 0;
        while i < n
            invariant
                n == old(self)@.len(),
                self.wf(),
                self.volatility_ppm() == old(self).volatility_ppm(),
                self@.len() == n,
                i <= n,
                forall|k: int| i <= k < n ==> #[trigger] self@[k] == old(self)@[k],
                forall|k: int|
                    0 <= k < i ==> {
                        let a = old(self)@[k];
                        let b = #[trigger] self@[k];
                        &&& b.ticker == a.ticker
                        &&& b.price == a.price
                        &&& b.base_volume == a.base_volume
                        &&& b.last_timestamp == a.last_timestamp
                        &&& b.subscribers == without_client(a.subscribers, client_id@)
                    },
            decreases n - i,
        {
            let ghost before = self@;
            let ghost before_book = self.book@;
            assert(before[i as int].price >= MIN_PRICE);
            let mut e = self.book.remove(i);
            assert(e@ == before[i as int]);
            drop_client(&mut e.subscribers, client_id);
            self.book.insert(i, e);
            assert(self.book@ =~= before_book.update(i as int, self.book@[i as int]));
            assert forall|k: int| 0 <= k < n && k != i implies #[trigger] self@[k] == before[k] by {
                assert(self.book@[k] == before_book[k]);
            }
            assert(self@[i as int].subscribers == without_client(before[i as int].subscribers, client_id@));
            assert forall|a: int, b: int|
                0 <= a < self@.len() && 0 <= b < self@.len() && a != b implies self@[a].ticker
                != self@[b].ticker by {
                assert(before[a].ticker != before[b].ticker);
            }
            assert forall|a: int| 0 <= a < self@.len() implies #[trigger] self@[a].price >= MIN_PRICE
                && self@[a].base_volume == base_volume_spec(self@[a].ticker) by {
                assert(before[a].price >= MIN_PRICE);
            }
            i = i + 1;
        }
        assert forall|k: int| 0 <= k < n implies #[trigger] self@[k].subscribers == without_clients(
            old(self)@[k].subscribers,
            seq![client_id@],
        ) by {
            without_clients_one(old(self)@[k].subscribers, client_id@);
        }
    }

    /// Advisory: subscriptions end when their consumer end is dropped, which
    /// the next broadcast notices.
    pub fn unsubscribe_from_tickers(&self, tickers: Vec<String>) {
    }
}

} // verus!
