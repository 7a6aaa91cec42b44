use vstd::prelude::*;
use crate::models::{starts_with, ClientConfig, ClientConfigView};
use crate::text::{has_prefix, same_text, trim, trimmed};

verus! {

/// The registry, as a sequence of (client id, configuration) in order of
/// registration.
pub type Entries = Seq<(Seq<char>, ClientConfigView)>;

/// No id occurs twice.
pub open spec fn unique_ids(s: Entries) -> bool {
    forall|i: int, j: int| 0 <= i < s.len() && 0 <= j < s.len() && i != j ==> s[i].0 != s[j].0
}

/// Whether `id` is registered.
pub open spec fn has_id(s: Entries, id: Seq<char>) -> bool {
    exists|k: int| 0 <= k < s.len() && s[k].0 == id
}

/// The position of a registered `id`.
pub open spec fn index_of(s: Entries, id: Seq<char>) -> int {
    choose|k: int| 0 <= k < s.len() && s[k].0 == id
}

/// The configuration registered under `id`.
pub open spec fn config_of(s: Entries, id: Seq<char>) -> ClientConfigView {
    s[index_of(s, id)].1
}

/// `s` with `id` registered to `c`, replacing any earlier entry.
pub open spec fn put(s: Entries, id: Seq<char>, c: ClientConfigView) -> Entries {
    if has_id(s, id) {
        s.update(index_of(s, id), (id, c))
    } else {
        s.push((id, c))
    }
}

/// `s` without `id`.
pub open spec fn remove_id(s: Entries, id: Seq<char>) -> Entries {
    if has_id(s, id) {
        s.remove(index_of(s, id))
    } else {
        s
    }
}

/// `s` with the entry at `k` last heard from at `now`.
pub open spec fn refreshed(s: Entries, k: int, now: u64) -> Entries {
    s.update(k, (s[k].0, ClientConfigView { last_ping: now, ..s[k].1 }))
}

/// `s` with the client `id`, if registered, last heard from at `now`.
pub open spec fn refresh_id(s: Entries, id: Seq<char>, now: u64) -> Entries {
    if has_id(s, id) {
        refreshed(s, index_of(s, id), now)
    } else {
        s
    }
}

/// Whether the id `id` (the text of a socket address, `HOST:PORT`, with an
/// IPv6 host in brackets) has the host `ip`.
pub open spec fn same_host(id: Seq<char>, ip: Seq<char>) -> bool {
    starts_with(id, ip + ":"@) || starts_with(id, "["@ + ip + "]:"@)
}

/// Decides `same_host`, given the two prefixes that stand for `ip`.
fn host_matches(id: &str, plain: &str, bracketed: &str, ip: Ghost<Seq<char>>) -> (r: bool)
    requires
        plain@ == ip@ + ":"@,
        bracketed@ == "["@ + ip@ + "]:"@,
    ensures
        r == same_host(id@, ip@),
{
    has_prefix(id, plain) || has_prefix(id, bracketed)
}

/// `k` is the first entry whose id has the host `ip`.
pub open spec fn first_ip_match(s: Entries, ip: Seq<char>, k: int) -> bool {
    &&& 0 <= k < s.len()
    &&& same_host(s[k].0, ip)
    &&& forall|j: int| 0 <= j < k ==> !same_host(#[trigger] s[j].0, ip)
}

/// Whether some id has the host `ip`.
pub open spec fn has_ip(s: Entries, ip: Seq<char>) -> bool {
    exists|k: int| 0 <= k < s.len() && same_host(#[trigger] s[k].0, ip)
}

/// `s` with the first client whose id has the host `ip`, if any, last heard
/// from at `now`.
pub open spec fn refresh_ip(s: Entries, ip: Seq<char>, now: u64) -> Entries {
    if has_ip(s, ip) {
        refreshed(s, choose|k: int| first_ip_match(s, ip, k), now)
    } else {
        s
    }
}

/// What a heartbeat datagram from `source` (whose address is `ip`) does to
/// the registry at `now`.
pub open spec fn heartbeat(s: Entries, payload: Seq<char>, source: Seq<char>, ip: Seq<char>, now: u64) -> Entries {
    if trimmed(payload) != "PING"@ {
        s
    } else if has_id(s, source) {
        refresh_id(s, source, now)
    } else {
        refresh_ip(s, ip, now)
    }
}

/// The entries of `s` that are not stale at `now`, in order.
pub open spec fn sweep(s: Entries, now: u64, timeout: u64) -> Entries
    decreases s.len(),
{
    if s.len() == 0 {
        seq![]
    } else if crate::models::stale(s.last().1.last_ping, now, timeout) {
        sweep(s.drop_last(), now, timeout)
    } else {
        sweep(s.drop_last(), now, timeout).push(s.last())
    }
}

/// The ids of the entries of `s` that are stale at `now`, in order.
pub open spec fn stale_ids(s: Entries, now: u64, timeout: u64) -> Seq<Seq<char>>
    decreases s.len(),
{
    if s.len() == 0 {
        seq![]
    } else if crate::models::stale(s.last().1.last_ping, now, timeout) {
        stale_ids(s.drop_last(), now, timeout).push(s.last().0)
    } else {
        stale_ids(s.drop_last(), now, timeout)
    }
}

/// Registering `id` keeps every registered id and adds `id`.
pub proof fn lemma_put_ids(s: Entries, id: Seq<char>, c: ClientConfigView)
    ensures
        has_id(put(s, id, c), id),
        forall|x: Seq<char>| has_id(s, x) ==> has_id(put(s, id, c), x),
{
    let p = put(s, id, c);
    if has_id(s, id) {
        let k = index_of(s, id);
        assert(p[k].0 == id);
        assert forall|x: Seq<char>| has_id(s, x) implies has_id(p, x) by {
            let i = choose|i: int| 0 <= i < s.len() && s[i].0 == x;
            assert(p[i].0 == x);
        }
    } else {
        assert(p[s.len() as int].0 == id);
        assert forall|x: Seq<char>| has_id(s, x) implies has_id(p, x) by {
            let i = choose|i: int| 0 <= i < s.len() && s[i].0 == x;
            assert(p[i].0 == x);
        }
    }
}

/// Unregistering `id` keeps every other registered id.
pub proof fn lemma_remove_ids(s: Entries, id: Seq<char>)
    ensures
        forall|x: Seq<char>| has_id(s, x) && x != id ==> has_id(remove_id(s, id), x),
{
    if has_id(s, id) {
        let k = index_of(s, id);
        let r = remove_id(s, id);
        assert forall|x: Seq<char>| has_id(s, x) && x != id implies has_id(r, x) by {
            let i = choose|i: int| 0 <= i < s.len() && s[i].0 == x;
            if i < k {
                assert(r[i].0 == x);
            } else {
                assert(i != k);
                assert(r[i - 1].0 == x);
            }
        }
    }
}

/// Refreshing a client keeps every registered id.
pub proof fn lemma_refresh_ids(s: Entries, id: Seq<char>, now: u64)
    ensures
        forall|x: Seq<char>| has_id(s, x) ==> has_id(refresh_id(s, id, now), x),
{
    let r = refresh_id(s, id, now);
    assert forall|x: Seq<char>| has_id(s, x) implies has_id(r, x) by {
        let i = choose|i: int| 0 <= i < s.len() && s[i].0 == x;
        assert(r[i].0 == x);
    }
}

/// A sweep keeps every registered id that it does not report as stale.
pub proof fn lemma_sweep_ids(s: Entries, now: u64, timeout: u64)
    ensures
        forall|x: Seq<char>|
            has_id(s, x) && !stale_ids(s, now, timeout).contains(x) ==> has_id(
                sweep(s, now, timeout),
                x,
            ),
    decreases s.len(),
{
    if s.len() > 0 {
        let p = s.drop_last();
        lemma_sweep_ids(p, now, timeout);
        let e = s.last();
        let w = sweep(s, now, timeout);
        assert forall|x: Seq<char>|
            has_id(s, x) && !stale_ids(s, now, timeout).contains(x) implies has_id(w, x) by {
            let i = choose|i: int| 0 <= i < s.len() && s[i].0 == x;
            if crate::models::stale(e.1.last_ping, now, timeout) {
                let st = stale_ids(p, now, timeout);
                assert(stale_ids(s, now, timeout) == st.push(e.0));
                assert(st.push(e.0)[st.len() as int] == e.0);
                if i == s.len() - 1 {
                    assert(stale_ids(s, now, timeout).contains(x));
                } else {
                    assert(p[i].0 == x);
                    assert(has_id(p, x));
                    assert forall|m: int| 0 <= m < st.len() implies st[m] != x by {
                        assert(st.push(e.0)[m] == st[m]);
                    }
                    assert(!st.contains(x));
                    assert(w == sweep(p, now, timeout));
                }
            } else {
                let sp = sweep(p, now, timeout);
                assert(w == sp.push(e));
                if i == s.len() - 1 {
                    assert(w[sp.len() as int].0 == x);
                } else {
                    assert(p[i].0 == x);
                    assert(has_id(p, x));
                    assert(stale_ids(s, now, timeout) == stale_ids(p, now, timeout));
                    assert(has_id(sp, x));
                    let m = choose|m: int| 0 <= m < sp.len() && sp[m].0 == x;
                    assert(w[m].0 == x);
                }
            }
        }
    }
}

/// The registry of streaming clients, keyed by the text of their control
/// connection's peer address.
pub struct ClientManager {
    clients: Vec<(String, ClientConfig)>,
    ping_timeout_secs: u64,
}

/// An entry, as a mathematical value.
pub open spec fn entry_view(e: (String, ClientConfig)) -> (Seq<char>, ClientConfigView) {
    (e.0@, e.1@)
}

impl View for ClientManager {
    type V = Entries;

    closed spec fn view(&self) -> Entries {
        self.clients@.map_values(|e: (String, ClientConfig)| entry_view(e))
    }
}

impl ClientManager {
    /// The silence, in seconds, after which a client is evicted.
    pub closed spec fn timeout(&self) -> u64 {
        self.ping_timeout_secs
    }

    /// The registry is well formed.
    pub open spec fn wf(&self) -> bool {
        unique_ids(self@)
    }

    /// An empty registry.
    pub fn new(ping_timeout_secs: u64) -> (r: ClientManager)
        ensures
            r@ == Seq::<(Seq<char>, ClientConfigView)>::empty(),
            r.timeout() == ping_timeout_secs,
            r.wf(),
    {
        let r = ClientManager { clients: Vec::new(), ping_timeout_secs };
        assert(r@ =~= Seq::<(Seq<char>, ClientConfigView)>::empty());
        r
    }

    /// The silence, in seconds, after which a client is evicted.
    pub fn ping_timeout_secs(&self) -> (r: u64)
        ensures
            r == self.timeout(),
    {
        self.ping_timeout_secs
    }

    /// The number of registered clients.
    pub fn client_count(&self) -> (r: usize)
        ensures
            r == self@.len(),
    {
        self.clients.len()
    }

    /// The position of `id`.
    fn find(&self, id: &str) -> (r: Option<usize>)
        requires
            self.wf(),
        ensures
            r.is_some() == has_id(self@, id@),
            r matches Some(k) ==> k < self@.len() && k == index_of(self@, id@),
    {
        let mut i: usize = 0;
        while i < self.clients.len()
            invariant
                self.wf(),
                i <= self.clients@.len(),
                forall|j: int| 0 <= j < i ==> self@[j].0 != id@,
            decreases self.clients@.len() - i,
        {
            assert(self@[i as int] == entry_view(self.clients@[i as int]));
            if same_text(self.clients[i].0.as_str(), id) {
                assert(has_id(self@, id@));
                let ghost k = index_of(self@, id@);
                assert(self@[k].0 == id@ && self@[i as int].0 == id@);
                assert(k == i) by {
                    assert(0 <= k < self@.len());
                    if k != i {
                        assert(self@[k].0 != self@[i as int].0);
                    }
                }
                return Some(i);
            }
            i = i + 1;
        }
        None
    }

    /// Whether `id` is registered.
    pub fn has_client(&self, id: &str) -> (r: bool)
        requires
            self.wf(),
        ensures
            r == has_id(self@, id@),
    {
        self.find(id).is_some()
    }

    /// When `id` was last heard from, if registered.
    pub fn last_ping_of(&self, id: &str) -> (r: Option<u64>)
        requires
            self.wf(),
        ensures
            r.is_some() == has_id(self@, id@),
            r matches Some(t) ==> t == config_of(self@, id@).last_ping,
    {
        match self.find(id) {
            Some(k) => {
                assert(self@[k as int] == entry_view(self.clients@[k as int]));
                Some(self.clients[k].1.last_ping)
            },
            None => None,
        }
    }

    /// Registers `config` under `client_id`, replacing any earlier entry.
    pub fn add_client(&mut self, client_id: String, config: ClientConfig)
        requires
            old(self).wf(),
        ensures
            final(self).wf(),
            final(self)@ == put(old(self)@, client_id@, config@),
            final(self).timeout() == old(self).timeout(),
    {
        let ghost id = client_id@;
        let ghost c = config@;
        match self.find(client_id.as_str()) {
            Some(k) => {
                self.clients.set(k, (client_id, config));
                assert(self@ =~= old(self)@.update(k as int, (id, c)));
            },
            None => {
                self.clients.push((client_id, config));
                assert(self@ =~= old(self)@.push((id, c)));
            },
        }
    }

    /// Unregisters `client_id`, handing back its configuration.
    pub fn remove_client(&mut self, client_id: &str) -> (r: Option<ClientConfig>)
        requires
            old(self).wf(),
        ensures
            final(self).wf(),
            final(self)@ == remove_id(old(self)@, client_id@),
            final(self).timeout() == old(self).timeout(),
            r.is_some() == has_id(old(self)@, client_id@),
            r matches Some(c) ==> c@ == config_of(old(self)@, client_id@),
    {
        match self.find(client_id) {
            Some(k) => {
                let e = self.clients.remove(k);
                assert(self@ =~= old(self)@.remove(k as int));
                assert(old(self)@[k as int] == entry_view(e));
                Some(e.1)
            },
            None => None,
        }
    }

    /// Sets the entry at `k` to have been heard from at `now`.
    fn touch(&mut self, k: usize, now: u64)
        requires
            old(self).wf(),
            k < old(self)@.len(),
        ensures
            final(self).wf(),
            final(self)@ == refreshed(old(self)@, k as int, now),
            final(self).timeout() == old(self).timeout(),
    {
        let (id, mut cfg) = self.clients.remove(k);
        cfg.last_ping = now;
        self.clients.insert(k, (id, cfg));
        assert(self@ =~= refreshed(old(self)@, k as int, now));
    }

    /// Records that `client_id` was heard from at `now`; whether it is
    /// registered.
    pub fn update_ping_at(&mut self, client_id: &str, now: u64) -> (r: bool)
        requires
            old(self).wf(),
        ensures
            final(self).wf(),
            r == has_id(old(self)@, client_id@),
            final(self)@ == refresh_id(old(self)@, client_id@, now),
            final(self).timeout() == old(self).timeout(),
    {
        match self.find(client_id) {
            Some(k) => {
                self.touch(k, now);
                true
            },
            None => false,
        }
    }

    /// Records that `client_id` was heard from now; whether it is registered.
    pub fn update_ping(&mut self, client_id: &str) -> (r: bool)
        requires
            old(self).wf(),
        ensures
            final(self).wf(),
            r == has_id(old(self)@, client_id@),
            exists|now: u64| final(self)@ == refresh_id(old(self)@, client_id@, now),
            final(self).timeout() == old(self).timeout(),
    {
        let now = ClientConfig::current_timestamp();
        self.update_ping_at(client_id, now)
    }

    /// Records that the first client whose id has the host `ip` (`ip:PORT`,
    /// or `[ip]:PORT`) was heard from at `now`; whether there was one.
    pub fn update_ping_by_ip_at(&mut self, ip: &str, now: u64) -> (r: bool)
        requires
            old(self).wf(),
        ensures
            final(self).wf(),
            r == has_ip(old(self)@, ip@),
            final(self)@ == refresh_ip(old(self)@, ip@, now),
            final(self).timeout() == old(self).timeout(),
    {
        let plain = String::from_str(ip).concat(":");
        let bracketed = String::from_str("[").concat(ip).concat("]:");
        let mut i: usize = 0;
        while i < self.clients.len()
            invariant
                self.wf(),
                *self == *old(self),
                plain@ == ip@ + ":"@,
                bracketed@ == "["@ + ip@ + "]:"@,
                i <= self.clients@.len(),
                forall|j: int| 0 <= j < i ==> !same_host(#[trigger] self@[j].0, ip@),
            decreases self.clients@.len() - i,
        {
            assert(self@[i as int] == entry_view(self.clients@[i as int]));
            if host_matches(self.clients[i].0.as_str(), plain.as_str(), bracketed.as_str(), Ghost(ip@)) {
                let ghost s = self@;
                assert(first_ip_match(s, ip@, i as int));
                assert(has_ip(s, ip@));
                let ghost k = choose|k: int| first_ip_match(s, ip@, k);
                assert(k == i) by {
                    if k < i {
                        assert(!same_host(s[k].0, ip@));
                    }
                    if k > i {
                        assert(!same_host(s[i as int].0, ip@));
                    }
                }
                self.touch(i, now);
                return true;
            }
            i = i + 1;
        }
        false
    }

    /// Handles one heartbeat datagram from `source`, whose address is `ip`,
    /// at `now`: a `PING` refreshes the client it came from, or failing that
    /// the first client whose id has the same host. Whether to answer `PONG`.
    pub fn handle_ping_at(&mut self, payload: &str, source: &str, ip: &str, now: u64) -> (r: bool)
        requires
            old(self).wf(),
        ensures
            final(self).wf(),
            r == (trimmed(payload@) == "PING"@),
            final(self)@ == heartbeat(old(self)@, payload@, source@, ip@, now),
            final(self).timeout() == old(self).timeout(),
    {
        let t = trim(payload);
        if !same_text(t.as_str(), "PING") {
            return false;
        }
        if !self.update_ping_at(source, now) {
            self.update_ping_by_ip_at(ip, now);
        }
        true
    }

    /// Handles one heartbeat datagram, as `handle_ping_at`, at the current
    /// time.
    pub fn handle_ping(&mut self, payload: &str, source: &str, ip: &str) -> (r: bool)
        requires
            old(self).wf(),
        ensures
            final(self).wf(),
            r == (trimmed(payload@) == "PING"@),
            exists|now: u64| final(self)@ == heartbeat(old(self)@, payload@, source@, ip@, now),
            final(self).timeout() == old(self).timeout(),
    {
        let now = ClientConfig::current_timestamp();
        self.handle_ping_at(payload, source, ip, now)
    }

    /// Evicts every client that is stale at `now`; their ids, in order.
    pub fn remove_stale_at(&mut self, now: u64) -> (r: Vec<String>)
        requires
            old(self).wf(),
        ensures
            final(self).wf(),
            final(self)@ == sweep(old(self)@, now, old(self).timeout()),
            r@.map_values(|s: String| s@) == stale_ids(old(self)@, now, old(self).timeout()),
            final(self).timeout() == old(self).timeout(),
            forall|k: int|
                0 <= k < final(self)@.len() ==> !crate::models::stale(
                    #[trigger] final(self)@[k].1.last_ping,
                    now,
                    old(self).timeout(),
                ),
    {
        let ghost s = self@;
        let timeout = self.ping_timeout_secs;
        let mut kept: Vec<(String, ClientConfig)> = Vec::new();
        let mut gone: Vec<String> = Vec::new();
        let mut i: usize = 0;
        while i < self.clients.len()
            invariant
                *self == *old(self),
                s == self@,
                unique_ids(s),
                timeout == self.timeout(),
                i <= s.len(),
                kept@.map_values(|e: (String, ClientConfig)| entry_view(e)) == sweep(
                    s.subrange(0, i as int),
                    now,
                    timeout,
                ),
                gone@.map_values(|x: String| x@) == stale_ids(s.subrange(0, i as int), now, timeout),
                forall|a: int|
                    0 <= a < kept@.len() ==> exists|j: int|
                        0 <= j < i && #[trigger] kept@[a].0@ == s[j].0,
                unique_ids(kept@.map_values(|e: (String, ClientConfig)| entry_view(e))),
                forall|a: int|
                    0 <= a < kept@.len() ==> !crate::models::stale(
                        #[trigger] kept@[a].1.last_ping,
                        now,
                        timeout,
                    ),
            decreases s.len() - i,
        {
            let ghost pre = s.subrange(0, i as int);
            let ghost cur = s.subrange(0, i + 1);
            assert(cur.drop_last() =~= pre);
            assert(s[i as int] == entry_view(self.clients@[i as int]));
            let ghost kv0 = kept@.map_values(|e: (String, ClientConfig)| entry_view(e));
            let ghost gv0 = gone@.map_values(|x: String| x@);
            if self.clients[i].1.is_stale_at(now, timeout) {
                gone.push(self.clients[i].0.clone());
                assert(gone@.map_values(|x: String| x@) =~= gv0.push(s[i as int].0));
            } else {
                let id = self.clients[i].0.clone();
                let cfg = self.clients[i].1.duplicate();
                let ghost kv1 = kv0.push((id@, cfg@));
                kept.push((id, cfg));
                assert(kept@.map_values(|e: (String, ClientConfig)| entry_view(e)) =~= kv1);
                assert forall|a: int, b: int|
                    0 <= a < kv1.len() && 0 <= b < kv1.len() && a != b implies kv1[a].0
                    != kv1[b].0 by {
                    if a == kv0.len() as int && b < kv0.len() {
                        assert(kept@[b].0@ == kv0[b].0);
                        let j = choose|j: int| 0 <= j < i && #[trigger] kept@[b].0@ == s[j].0;
                        assert(s[j].0 != s[i as int].0);
                    } else if b == kv0.len() as int && a < kv0.len() {
                        assert(kept@[a].0@ == kv0[a].0);
                        let j = choose|j: int| 0 <= j < i && #[trigger] kept@[a].0@ == s[j].0;
                        assert(s[j].0 != s[i as int].0);
                    }
                }
                assert forall|a: int| 0 <= a < kept@.len() implies exists|j: int|
                    0 <= j < i + 1 && #[trigger] kept@[a].0@ == s[j].0 by {
                    if a < kv0.len() {
                        let j = choose|j: int| 0 <= j < i && #[trigger] kept@[a].0@ == s[j].0;
                        assert(0 <= j < i + 1 && kept@[a].0@ == s[j].0);
                    } else {
                        assert(kept@[a].0@ == s[i as int].0);
                    }
                }
            }
            i = i + 1;
        }
        assert(s.subrange(0, s.len() as int) =~= s);
        self.clients = kept;
        gone
    }

    /// Evicts every client that is stale by the current time; their ids.
    pub fn remove_stale(&mut self) -> (r: Vec<String>)
        requires
            old(self).wf(),
        ensures
            final(self).wf(),
            final(self).timeout() == old(self).timeout(),
            exists|now: u64|
                final(self)@ == sweep(old(self)@, now, old(self).timeout()) && r@.map_values(
                    |s: String| s@,
                ) == stale_ids(old(self)@, now, old(self).timeout()),
    {
        let now = ClientConfig::current_timestamp();
        self.remove_stale_at(now)
    }
}

} // verus!
