use vstd::prelude::*;
use crate::models::{starts_with, ClientConfig, StockQuote};
use crate::text::has_prefix;

verus! {

/// The scheme that a datagram destination must carry.
pub open spec fn udp_scheme() -> Seq<char> {
    "udp://"@
}

/// What `parse_udp_addr` makes of a destination.
pub open spec fn udp_target(addr: Seq<char>) -> Result<Seq<char>, Seq<char>> {
    if starts_with(addr, udp_scheme()) {
        Ok(addr.subrange(6, addr.len() as int))
    } else {
        Err("Invalid UDP address format: "@ + addr)
    }
}

/// A string result, as a mathematical value.
pub open spec fn text_result(r: Result<String, String>) -> Result<Seq<char>, Seq<char>> {
    match r {
        Ok(s) => Ok(s@),
        Err(s) => Err(s@),
    }
}

/// After this many send errors in a row, a drain task gives up.
pub const MAX_SEND_ERRORS: u32 = 5;

/// The send errors in a row of one drain task.
pub struct DrainState {
    pub consecutive_errors: u32,
}

impl DrainState {
    /// No error yet.
    pub fn new() -> (r: DrainState)
        ensures
            r.consecutive_errors == 0,
    {
        DrainState { consecutive_errors: 0 }
    }

    /// Records the outcome of one send; whether the task goes on.
    pub fn record(&mut self, sent: bool) -> (r: bool)
        ensures
            final(self).consecutive_errors == if sent {
                0
            } else if old(self).consecutive_errors < u32::MAX {
                (old(self).consecutive_errors + 1) as u32
            } else {
                u32::MAX
            },
            r == (final(self).consecutive_errors < MAX_SEND_ERRORS),
    {
        if sent {
            self.consecutive_errors = 0;
        } else if self.consecutive_errors < u32::MAX {
            self.consecutive_errors = self.consecutive_errors + 1;
        }
        self.consecutive_errors < MAX_SEND_ERRORS
    }
}

/// The emitter of one client: its id, its configuration, and the consumer
/// ends of its subscriptions, one per ticker.
pub struct UdpSender {
    client_id: String,
    config: ClientConfig,
    quote_receivers: Vec<crossbeam_channel::Receiver<StockQuote>>,
}

impl UdpSender {
    /// The id of the client.
    pub closed spec fn id_view(&self) -> Seq<char> {
        self.client_id@
    }

    /// The configuration of the client.
    pub closed spec fn config_view(&self) -> crate::models::ClientConfigView {
        self.config@
    }

    /// The consumer ends, one per subscription.
    pub closed spec fn receivers_view(&self) -> Seq<crossbeam_channel::Receiver<StockQuote>> {
        self.quote_receivers@
    }

    /// An emitter for `client_id` that drains `quote_receivers`.
    pub fn new(
        client_id: String,
        config: ClientConfig,
        quote_receivers: Vec<crossbeam_channel::Receiver<StockQuote>>,
    ) -> (r: UdpSender)
        ensures
            r.id_view() == client_id@,
            r.config_view() == config@,
            r.receivers_view() == quote_receivers@,
    {
        UdpSender { client_id, config, quote_receivers }
    }

    /// The id of the client.
    pub fn client_id(&self) -> (r: &String)
        ensures
            r@ == self.id_view(),
    {
        &self.client_id
    }

    /// The configuration of the client.
    pub fn config(&self) -> (r: &ClientConfig)
        ensures
            r@ == self.config_view(),
    {
        &self.config
    }

    /// How many subscriptions this emitter drains.
    pub fn receiver_count(&self) -> (r: usize)
        ensures
            r == self.receivers_view().len(),
    {
        self.quote_receivers.len()
    }

    /// The consumer ends, handed over to the drain tasks.
    pub fn into_receivers(self) -> (r: Vec<crossbeam_channel::Receiver<StockQuote>>)
        ensures
            r@ == self.receivers_view(),
    {
        self.quote_receivers
    }

    /// The `HOST:PORT` of a `udp://HOST:PORT` destination.
    pub fn parse_udp_addr(&self, addr_str: &str) -> (r: Result<String, String>)
        ensures
            text_result(r) == udp_target(addr_str@),
    {
        if has_prefix(addr_str, "udp://") {
            proof {
                reveal_strlit("udp://");
            }
            let n = addr_str.unicode_len();
            Ok(String::from_str(addr_str.substring_char(6, n)))
        } else {
            Err(String::from_str("Invalid UDP address format: ").concat(addr_str))
        }
    }

    /// Where this client's datagrams go.
    pub fn target(&self) -> (r: Result<String, String>)
        ensures
            text_result(r) == udp_target(self.config_view().udp_addr),
    {
        self.parse_udp_addr(self.config.udp_addr.as_str())
    }
}

} // verus!
