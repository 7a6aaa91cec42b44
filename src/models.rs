use vstd::prelude::*;
use crate::text::{
    find_spans, lemma_spans_bounds, pieces, same_text, span_view, spans, to_upper, trim,
    trimmed, upper_of,
};

verus! {

/// Prices are fixed-point: this many units make one whole currency unit.
pub const PRICE_SCALE: u64 = 1_000_000;

/// One quote: `price` is in millionths of a currency unit, `timestamp` in
/// milliseconds since the Unix epoch.
#[derive(Debug, Clone)]
pub struct StockQuote {
    pub ticker: String,
    pub price: u64,
    pub volume: u32,
    pub timestamp: u64,
}

/// Relies on `SystemTime::now` and `Duration::as_millis`: the wall clock in
/// milliseconds since the Unix epoch (0 for a clock set before it).
#[verifier::external_body]
pub(crate) fn current_millis() -> (r: u64) {
    match std::time::SystemTime::now().duration_since(std::time::UNIX_EPOCH) {
        Ok(d) => d.as_millis() as u64,
        Err(_) => 0,
    }
}

impl StockQuote {
    /// A copy of this quote.
    pub fn duplicate(&self) -> (r: StockQuote)
        ensures
            r == *self,
    {
        StockQuote {
            ticker: self.ticker.clone(),
            price: self.price,
            volume: self.volume,
            timestamp: self.timestamp,
        }
    }

    /// A quote stamped with the current time.
    pub fn new(ticker: String, price: u64, volume: u32) -> (r: StockQuote)
        ensures
            r.ticker@ == ticker@,
            r.price == price,
            r.volume == volume,
    {
        StockQuote { ticker, price, volume, timestamp: current_millis() }
    }
}

/// The text of each string of a sequence.
pub open spec fn texts(v: Seq<String>) -> Seq<Seq<char>> {
    v.map_values(|s: String| s@)
}

/// A subscriber: where its datagrams go, what it asked for, and when it was
/// last heard from (seconds since the Unix epoch).
#[derive(Debug)]
pub struct ClientConfig {
    pub udp_addr: String,
    pub tickers: Vec<String>,
    pub last_ping: u64,
}

pub struct ClientConfigView {
    pub udp_addr: Seq<char>,
    pub tickers: Seq<Seq<char>>,
    pub last_ping: u64,
}

impl View for ClientConfig {
    type V = ClientConfigView;

    open spec fn view(&self) -> ClientConfigView {
        ClientConfigView {
            udp_addr: self.udp_addr@,
            tickers: texts(self.tickers@),
            last_ping: self.last_ping,
        }
    }
}

/// Whether a client last heard from at `last_ping` has, at `now`, been silent
/// for longer than `timeout` seconds.
pub open spec fn stale(last_ping: u64, now: u64, timeout: u64) -> bool {
    now - last_ping > timeout
}

/// A copy of a list of strings.
pub fn copy_strings(v: &Vec<String>) -> (r: Vec<String>)
    ensures
        texts(r@) == texts(v@),
{
    let mut r: Vec<String> = Vec::new();
    let mut i: usize = 0;
    while i < v.len()
        invariant
            i <= v@.len(),
            texts(r@) == texts(v@).subrange(0, i as int),
        decreases v@.len() - i,
    {
        let ghost before = r@;
        r.push(v[i].clone());
        assert(texts(r@) =~= texts(before).push(v@[i as int]@));
        assert(texts(v@).subrange(0, i + 1) =~= texts(v@).subrange(0, i as int).push(
            v@[i as int]@,
        ));
        i = i + 1;
    }
    assert(texts(v@).subrange(0, v@.len() as int) =~= texts(v@));
    r
}

impl ClientConfig {
    /// A configuration last heard from now.
    pub fn new(udp_addr: String, tickers: Vec<String>) -> (r: ClientConfig)
        ensures
            r.udp_addr@ == udp_addr@,
            texts(r.tickers@) == texts(tickers@),
    {
        Self::new_at(udp_addr, tickers, Self::current_timestamp())
    }

    /// A configuration last heard from at `now` (seconds since the epoch).
    pub fn new_at(udp_addr: String, tickers: Vec<String>, now: u64) -> (r: ClientConfig)
        ensures
            r.udp_addr@ == udp_addr@,
            texts(r.tickers@) == texts(tickers@),
            r.last_ping == now,
    {
        ClientConfig { udp_addr, tickers, last_ping: now }
    }

    /// Records that the client was heard from now.
    pub fn update_ping(&mut self)
        ensures
            final(self).udp_addr@ == old(self).udp_addr@,
            texts(final(self).tickers@) == texts(old(self).tickers@),
    {
        self.update_ping_at(Self::current_timestamp());
    }

    /// Records that the client was heard from at `now`.
    pub fn update_ping_at(&mut self, now: u64)
        ensures
            final(self).udp_addr@ == old(self).udp_addr@,
            texts(final(self).tickers@) == texts(old(self).tickers@),
            final(self).last_ping == now,
    {
        self.last_ping = now;
    }

    /// The wall clock in seconds since the Unix epoch.
    pub(crate) fn current_timestamp() -> (r: u64) {
        current_millis() / 1000
    }

    /// Whether the client is stale at `now` (a clock reading behind
    /// `last_ping` counts as no silence at all).
    pub fn is_stale_at(&self, now: u64, timeout_secs: u64) -> (r: bool)
        ensures
            r == stale(self.last_ping, now, timeout_secs),
    {
        now > self.last_ping && now - self.last_ping > timeout_secs
    }

    /// Whether the client is stale by the current time.
    pub fn is_stale(&self, timeout_secs: u64) -> (r: bool)
        ensures
            exists|now: u64| r == stale(self.last_ping, now, timeout_secs),
    {
        let now = Self::current_timestamp();
        self.is_stale_at(now, timeout_secs)
    }

    /// A copy of this configuration.
    pub fn duplicate(&self) -> (r: ClientConfig)
        ensures
            r@ == self@,
    {
        ClientConfig {
            udp_addr: self.udp_addr.clone(),
            tickers: copy_strings(&self.tickers),
            last_ping: self.last_ping,
        }
    }
}

/// A control command.
#[derive(Debug)]
pub enum Command {
    Stream { udp_addr: String, tickers: Vec<String> },
    Ping,
    Stop,
    Help,
}

/// A control command, as a mathematical value.
pub enum CommandModel {
    Stream { udp_addr: Seq<char>, tickers: Seq<Seq<char>> },
    Ping,
    Stop,
    Help,
}

impl View for Command {
    type V = CommandModel;

    open spec fn view(&self) -> CommandModel {
        match self {
            Command::Stream { udp_addr, tickers } => CommandModel::Stream {
                udp_addr: udp_addr@,
                tickers: texts(tickers@),
            },
            Command::Ping => CommandModel::Ping,
            Command::Stop => CommandModel::Stop,
            Command::Help => CommandModel::Help,
        }
    }
}

/// Why a command was refused.
#[derive(Debug, Clone)]
pub enum CommandError {
    InvalidFormat(String),
    InvalidAddress(String),
    NoTickers,
    InvalidTicker(String),
    IoError(String),
}

/// Why a command was refused, as a mathematical value.
pub enum ErrorModel {
    InvalidFormat(Seq<char>),
    InvalidAddress(Seq<char>),
    NoTickers,
    InvalidTicker(Seq<char>),
    IoError(Seq<char>),
}

impl View for CommandError {
    type V = ErrorModel;

    open spec fn view(&self) -> ErrorModel {
        match self {
            CommandError::InvalidFormat(m) => ErrorModel::InvalidFormat(m@),
            CommandError::InvalidAddress(m) => ErrorModel::InvalidAddress(m@),
            CommandError::NoTickers => ErrorModel::NoTickers,
            CommandError::InvalidTicker(t) => ErrorModel::InvalidTicker(t@),
            CommandError::IoError(m) => ErrorModel::IoError(m@),
        }
    }
}

/// The text that describes an error.
pub open spec fn error_text(e: ErrorModel) -> Seq<char> {
    match e {
        ErrorModel::InvalidFormat(m) => "Invalid command format: "@ + m,
        ErrorModel::InvalidAddress(m) => "Invalid UDP address: "@ + m,
        ErrorModel::NoTickers => "No tickers specified"@,
        ErrorModel::InvalidTicker(t) => "Invalid ticker: "@ + t,
        ErrorModel::IoError(m) => "IO error: "@ + m,
    }
}

impl CommandError {
    /// The text that describes this error.
    pub fn message(&self) -> (r: String)
        ensures
            r@ == error_text(self@),
    {
        match self {
            CommandError::InvalidFormat(m) => String::from_str("Invalid command format: ").concat(
                m.as_str(),
            ),
            CommandError::InvalidAddress(m) => String::from_str("Invalid UDP address: ").concat(
                m.as_str(),
            ),
            CommandError::NoTickers => String::from_str("No tickers specified"),
            CommandError::InvalidTicker(t) => String::from_str("Invalid ticker: ").concat(
                t.as_str(),
            ),
            CommandError::IoError(m) => String::from_str("IO error: ").concat(m.as_str()),
        }
    }
}

/// Whether `p` is a prefix of `s`.
pub open spec fn starts_with(s: Seq<char>, p: Seq<char>) -> bool {
    p.len() <= s.len() && s.subrange(0, p.len() as int) == p
}

/// The non-empty strings of `v`, in order.
pub open spec fn non_empty(v: Seq<Seq<char>>) -> Seq<Seq<char>>
    decreases v.len(),
{
    if v.len() == 0 {
        seq![]
    } else if v.last().len() == 0 {
        non_empty(v.drop_last())
    } else {
        non_empty(v.drop_last()).push(v.last())
    }
}

/// The pieces of `t` between separators, each trimmed and in upper case,
/// empty ones left out.
pub open spec fn clean_list(t: Seq<char>, sep: Option<char>) -> Seq<Seq<char>> {
    non_empty(pieces(t, sep).map_values(|p: Seq<char>| upper_of(trimmed(p))))
}

/// What a line makes when its first word, in upper case, is `key`.
pub open spec fn parse_keyed(s: Seq<char>, key: Seq<char>) -> Result<CommandModel, ErrorModel> {
    let w = pieces(s, None);
    if w.len() == 0 {
        Err(ErrorModel::InvalidFormat("Empty command"@))
    } else if key == "STREAM"@ {
        if w.len() < 2 {
            Err(ErrorModel::InvalidFormat("STREAM requires UDP address and tickers"@))
        } else if !starts_with(w[1], "udp://"@) {
            Err(ErrorModel::InvalidAddress("Address must start with udp://"@))
        } else if w.len() < 3 || clean_list(w[2], Some(',')).len() == 0 {
            Err(ErrorModel::NoTickers)
        } else {
            Ok(CommandModel::Stream { udp_addr: w[1], tickers: clean_list(w[2], Some(',')) })
        }
    } else if key == "PING"@ {
        Ok(CommandModel::Ping)
    } else if key == "STOP"@ {
        Ok(CommandModel::Stop)
    } else if key == "HELP"@ {
        Ok(CommandModel::Help)
    } else {
        Err(ErrorModel::InvalidFormat("Unknown command: "@ + w[0]))
    }
}

/// What `Command::parse` makes of a line: the first word is compared in
/// upper case.
pub open spec fn parse_spec(s: Seq<char>) -> Result<CommandModel, ErrorModel> {
    let w = pieces(s, None);
    if w.len() == 0 {
        Err(ErrorModel::InvalidFormat("Empty command"@))
    } else {
        parse_keyed(s, upper_of(w[0]))
    }
}

/// A parse result, as a mathematical value.
pub open spec fn parse_view(r: Result<Command, CommandError>) -> Result<CommandModel, ErrorModel> {
    match r {
        Ok(c) => Ok(c@),
        Err(e) => Err(e@),
    }
}

/// The `i`-th piece of `s` between separators.
fn piece_at<'a>(s: &'a str, sp: &Vec<(usize, usize)>, i: usize, sep: Option<char>) -> (r: &'a str)
    requires
        span_view(sp@) == spans(s@, sep),
        i < sp@.len(),
    ensures
        r@ == pieces(s@, sep)[i as int],
{
    proof {
        lemma_spans_bounds(s@, sep);
    }
    assert(span_view(sp@)[i as int] == spans(s@, sep)[i as int]);
    s.substring_char(sp[i].0, sp[i].1)
}

/// Computes `clean_list(t@, sep)`.
pub fn clean_pieces(t: &str, sep: Option<char>) -> (r: Vec<String>)
    ensures
        texts(r@) == clean_list(t@, sep),
{
    let sp = find_spans(t, sep);
    let ghost mapped = pieces(t@, sep).map_values(|p: Seq<char>| upper_of(trimmed(p)));
    let mut r: Vec<String> = Vec::new();
    let mut i: usize = 0;
    while i < sp.len()
        invariant
            span_view(sp@) == spans(t@, sep),
            mapped == pieces(t@, sep).map_values(|p: Seq<char>| upper_of(trimmed(p))),
            mapped.len() == sp@.len(),
            i <= sp@.len(),
            texts(r@) == non_empty(mapped.subrange(0, i as int)),
        decreases sp@.len() - i,
    {
        let p = piece_at(t, &sp, i, sep);
        let q = trim(p);
        let u = to_upper(q.as_str());
        let ghost before = r@;
        assert(mapped.subrange(0, i + 1).drop_last() =~= mapped.subrange(0, i as int));
        assert(mapped.subrange(0, i + 1).last() == u@);
        if !u.as_str().is_empty() {
            r.push(u);
            assert(texts(r@) =~= texts(before).push(u@));
        }
        i = i + 1;
    }
    assert(mapped.subrange(0, sp@.len() as int) =~= mapped);
    r
}

impl Command {
    /// Parses one control line.
    pub fn parse(input: &str) -> (r: Result<Command, CommandError>)
        ensures
            parse_view(r) == parse_spec(input@),
    {
        let sp = find_spans(input, None);
        if sp.len() == 0 {
            return Err(CommandError::InvalidFormat(String::from_str("Empty command")));
        }
        let first = piece_at(input, &sp, 0, None);
        let key = to_upper(first);
        Self::parse_keyed(input, key.as_str())
    }

    /// Parses one control line whose first word, in upper case, is `key`.
    pub fn parse_keyed(input: &str, key: &str) -> (r: Result<Command, CommandError>)
        ensures
            parse_view(r) == parse_keyed(input@, key@),
    {
        let sp = find_spans(input, None);
        if sp.len() == 0 {
            return Err(CommandError::InvalidFormat(String::from_str("Empty command")));
        }
        if same_text(key, "STREAM") {
            if sp.len() < 2 {
                return Err(
                    CommandError::InvalidFormat(
                        String::from_str("STREAM requires UDP address and tickers"),
                    ),
                );
            }
            let addr = piece_at(input, &sp, 1, None);
            if !crate::text::has_prefix(addr, "udp://") {
                return Err(
                    CommandError::InvalidAddress(String::from_str("Address must start with udp://")),
                );
            }
            if sp.len() < 3 {
                return Err(CommandError::NoTickers);
            }
            let list = piece_at(input, &sp, 2, None);
            let tickers = clean_pieces(list, Some(','));
            if tickers.len() == 0 {
                return Err(CommandError::NoTickers);
            }
            Ok(Command::Stream { udp_addr: String::from_str(addr), tickers })
        } else if same_text(key, "PING") {
            Ok(Command::Ping)
        } else if same_text(key, "STOP") {
            Ok(Command::Stop)
        } else if same_text(key, "HELP") {
            Ok(Command::Help)
        } else {
            let first = piece_at(input, &sp, 0, None);
            Err(
                CommandError::InvalidFormat(
                    String::from_str("Unknown command: ").concat(first),
                ),
            )
        }
    }
}

/// A `STREAM` whose destination lacks the `udp://` scheme is refused as an
/// invalid address.
pub proof fn stream_needs_udp_scheme(s: Seq<char>)
    requires
        pieces(s, None).len() >= 2,
        upper_of(pieces(s, None)[0]) == "STREAM"@,
        !starts_with(pieces(s, None)[1], "udp://"@),
    ensures
        parse_spec(s) == Err::<CommandModel, ErrorModel>(
            ErrorModel::InvalidAddress("Address must start with udp://"@),
        ),
{
}

/// A `STREAM` with a destination and no ticker list is refused for want of
/// tickers.
pub proof fn stream_needs_tickers(s: Seq<char>)
    requires
        pieces(s, None).len() == 2,
        upper_of(pieces(s, None)[0]) == "STREAM"@,
        starts_with(pieces(s, None)[1], "udp://"@),
    ensures
        parse_spec(s) == Err::<CommandModel, ErrorModel>(ErrorModel::NoTickers),
{
}

} // verus!
