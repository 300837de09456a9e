//! What a node knows of its peers: their addresses, the connection state
//! shown for each, the device ids paired devices are known by, and the
//! traffic counters. Peers and devices are identified by their text form;
//! the networking itself runs outside the library.
use vstd::prelude::*;
use crate::text::{ascii_lower, chars_of, lemma_texts_push, lower_ascii, string_of, texts};

verus! {

/// Reply to a sync request.
#[derive(Debug, Clone)]
pub struct SyncResponse {
    pub ok: bool,
    pub message: String,
}

/// Connection state of a peer, as the interface shows it.
#[derive(Debug, Clone, Copy, PartialEq, Eq, Structural, Hash)]
pub enum ConnectionState {
    Disconnected,
    Dialing,
    Connected,
}

/// Network errors.
#[derive(Debug)]
pub enum NetworkError {
    DiscoveryError(String),
    ConnectionError(String),
    ProtocolError(String),
    PeerNotFound(String),
    SendError(String),
    IoError(String),
    Timeout,
}

/// The text an error is shown with.
pub open spec fn error_text(e: NetworkError) -> Seq<char> {
    match e {
        NetworkError::DiscoveryError(s) => "Discovery error: "@ + s@,
        NetworkError::ConnectionError(s) => "Connection error: "@ + s@,
        NetworkError::ProtocolError(s) => "Protocol error: "@ + s@,
        NetworkError::PeerNotFound(s) => "Peer not found: "@ + s@,
        NetworkError::SendError(s) => "Send error: "@ + s@,
        NetworkError::IoError(s) => "I/O error: "@ + s@,
        NetworkError::Timeout => "Timeout"@,
    }
}

fn joined(prefix: &str, s: &String) -> (r: String)
    ensures
        r@ == prefix@ + s@,
{
    let mut v = chars_of(prefix);
    let mut tail = chars_of(s.as_str());
    v.append(&mut tail);
    string_of(&v)
}

impl NetworkError {
    /// The text this error is shown with.
    pub fn message(&self) -> (r: String)
        ensures
            r@ == error_text(*self),
    {
        match self {
            NetworkError::DiscoveryError(s) => joined("Discovery error: ", s),
            NetworkError::ConnectionError(s) => joined("Connection error: ", s),
            NetworkError::ProtocolError(s) => joined("Protocol error: ", s),
            NetworkError::PeerNotFound(s) => joined("Peer not found: ", s),
            NetworkError::SendError(s) => joined("Send error: ", s),
            NetworkError::IoError(s) => joined("I/O error: ", s),
            NetworkError::Timeout => string_of(&chars_of("Timeout")),
        }
    }
}

/// Network statistics.
#[derive(Debug, Clone, Copy, PartialEq, Eq, Structural)]
pub struct NetworkStats {
    pub bytes_sent: u64,
    pub bytes_received: u64,
    pub active_connections: u32,
    pub discovered_peers: u32,
}

/// `a + b`, or `u64::MAX` when that does not fit.
pub open spec fn saturating(a: u64, b: u64) -> u64 {
    if a + b > u64::MAX {
        u64::MAX
    } else {
        (a + b) as u64
    }
}

impl Default for NetworkStats {
    fn default() -> (r: Self)
        ensures
            r == (NetworkStats {
                bytes_sent: 0,
                bytes_received: 0,
                active_connections: 0,
                discovered_peers: 0,
            }),
    {
        NetworkStats { bytes_sent: 0, bytes_received: 0, active_connections: 0, discovered_peers: 0 }
    }
}

impl NetworkStats {
    /// Record bytes sent over the network; the counter sticks at its
    /// maximum rather than wrapping.
    pub fn record_bytes_sent(&mut self, n: u64)
        ensures
            *final(self) == (NetworkStats {
                bytes_sent: saturating(old(self).bytes_sent, n),
                ..*old(self)
            }),
    {
        self.bytes_sent = self.bytes_sent.saturating_add(n);
    }

    /// Record bytes received from the network; the counter sticks at its
    /// maximum rather than wrapping.
    pub fn record_bytes_received(&mut self, n: u64)
        ensures
            *final(self) == (NetworkStats {
                bytes_received: saturating(old(self).bytes_received, n),
                ..*old(self)
            }),
    {
        self.bytes_received = self.bytes_received.saturating_add(n);
    }
}

/// The value stored under `key`: that of the first entry with that key.
pub open spec fn find<V>(entries: Seq<(Seq<char>, V)>, key: Seq<char>) -> Option<V>
    decreases entries.len(),
{
    if entries.len() == 0 {
        None
    } else if entries[0].0 == key {
        Some(entries[0].1)
    } else {
        find(entries.drop_first(), key)
    }
}

/// The keys of a list of entries.
pub open spec fn keys<V>(entries: Seq<(Seq<char>, V)>) -> Seq<Seq<char>> {
    entries.map_values(|e: (Seq<char>, V)| e.0)
}

/// No key occurs twice.
pub open spec fn distinct_keys<V>(entries: Seq<(Seq<char>, V)>) -> bool {
    forall|i: int, j: int|
        0 <= i < j < entries.len() ==> #[trigger] entries[i].0 != #[trigger] entries[j].0
}

/// The entries after storing `value` under `key`: in place of the entry
/// with that key, else at the end.
pub open spec fn stored<V>(entries: Seq<(Seq<char>, V)>, key: Seq<char>, value: V) -> Seq<
    (Seq<char>, V),
> {
    if exists|i: int| 0 <= i < entries.len() && #[trigger] entries[i].0 == key {
        entries.update(choose|i: int| 0 <= i < entries.len() && #[trigger] entries[i].0 == key, (key, value))
    } else {
        entries.push((key, value))
    }
}

proof fn lemma_find_at<V>(entries: Seq<(Seq<char>, V)>, i: int)
    requires
        distinct_keys(entries),
        0 <= i < entries.len(),
    ensures
        find(entries, entries[i].0) == Some(entries[i].1),
    decreases entries.len(),
{
    if i > 0 {
        assert(entries[0].0 != entries[i].0);
        let t = entries.drop_first();
        assert(t[i - 1] == entries[i]);
        assert forall|a: int, b: int| 0 <= a < b < t.len() implies #[trigger] t[a].0
            != #[trigger] t[b].0 by {
            assert(t[a] == entries[a + 1] && t[b] == entries[b + 1]);
        }
        lemma_find_at(t, i - 1);
    }
}

proof fn lemma_find_none<V>(entries: Seq<(Seq<char>, V)>, key: Seq<char>)
    requires
        forall|i: int| 0 <= i < entries.len() ==> #[trigger] entries[i].0 != key,
    ensures
        find(entries, key) is None,
    decreases entries.len(),
{
    if entries.len() > 0 {
        let t = entries.drop_first();
        assert forall|i: int| 0 <= i < t.len() implies #[trigger] t[i].0 != key by {
            assert(t[i] == entries[i + 1]);
        }
        lemma_find_none(t, key);
    }
}

/// Storing under a key changes what that key finds and nothing else, and
/// keeps the keys distinct.
proof fn lemma_stored<V>(entries: Seq<(Seq<char>, V)>, key: Seq<char>, value: V)
    requires
        distinct_keys(entries),
    ensures
        distinct_keys(stored(entries, key, value)),
        forall|k: Seq<char>|
            #[trigger] find(stored(entries, key, value), k) == if k == key {
                Some(value)
            } else {
                find(entries, k)
            },
        forall|k: Seq<char>|
            #[trigger] keys(stored(entries, key, value)).contains(k) <==> (keys(entries).contains(
                k,
            ) || k == key),
{
    let s = stored(entries, key, value);
    if exists|i: int| 0 <= i < entries.len() && #[trigger] entries[i].0 == key {
        let p = choose|i: int| 0 <= i < entries.len() && #[trigger] entries[i].0 == key;
        assert(s == entries.update(p, (key, value)));
        assert forall|a: int, b: int| 0 <= a < b < s.len() implies #[trigger] s[a].0
            != #[trigger] s[b].0 by {
            assert(s[a].0 == entries[a].0 && s[b].0 == entries[b].0);
        }
        assert forall|k: Seq<char>| #[trigger]
            find(s, k) == if k == key {
                Some(value)
            } else {
                find(entries, k)
            } by {
            if k == key {
                lemma_find_at(s, p);
            } else if exists|i: int| 0 <= i < entries.len() && #[trigger] entries[i].0 == k {
                let q = choose|i: int| 0 <= i < entries.len() && #[trigger] entries[i].0 == k;
                lemma_find_at(entries, q);
                lemma_find_at(s, q);
            } else {
                lemma_find_none(entries, k);
                assert forall|i: int| 0 <= i < s.len() implies #[trigger] s[i].0 != k by {
                    if i != p {
                        assert(s[i] == entries[i]);
                    }
                }
                lemma_find_none(s, k);
            }
        }
        assert forall|k: Seq<char>|
            keys(s).contains(k) <==> (keys(entries).contains(k) || k == key) by {
            if keys(s).contains(k) {
                let j = choose|j: int| 0 <= j < keys(s).len() && keys(s)[j] == k;
                assert(keys(entries)[j] == entries[j].0 && keys(s)[j] == s[j].0);
            }
            if keys(entries).contains(k) {
                let j = choose|j: int| 0 <= j < keys(entries).len() && keys(entries)[j] == k;
                assert(keys(s)[j] == s[j].0 && keys(entries)[j] == entries[j].0);
            }
            if k == key {
                assert(keys(s)[p] == key);
            }
        }
    } else {
        assert(s == entries.push((key, value)));
        assert forall|a: int, b: int| 0 <= a < b < s.len() implies #[trigger] s[a].0
            != #[trigger] s[b].0 by {
            if b == entries.len() {
                assert(s[a] == entries[a]);
            } else {
                assert(s[a] == entries[a] && s[b] == entries[b]);
            }
        }
        assert forall|k: Seq<char>| #[trigger]
            find(s, k) == if k == key {
                Some(value)
            } else {
                find(entries, k)
            } by {
            if k == key {
                lemma_find_at(s, entries.len() as int);
            } else if exists|i: int| 0 <= i < entries.len() && #[trigger] entries[i].0 == k {
                let q = choose|i: int| 0 <= i < entries.len() && #[trigger] entries[i].0 == k;
                lemma_find_at(entries, q);
                assert(s[q] == entries[q]);
                lemma_find_at(s, q);
            } else {
                lemma_find_none(entries, k);
                assert forall|i: int| 0 <= i < s.len() implies #[trigger] s[i].0 != k by {
                    if i < entries.len() {
                        assert(s[i] == entries[i]);
                    }
                }
                lemma_find_none(s, k);
            }
        }
        assert forall|k: Seq<char>|
            keys(s).contains(k) <==> (keys(entries).contains(k) || k == key) by {
            if keys(s).contains(k) {
                let j = choose|j: int| 0 <= j < keys(s).len() && keys(s)[j] == k;
                if j < entries.len() {
                    assert(keys(entries)[j] == entries[j].0 && s[j] == entries[j]);
                }
            }
            if keys(entries).contains(k) {
                let j = choose|j: int| 0 <= j < keys(entries).len() && keys(entries)[j] == k;
                assert(keys(s)[j] == s[j].0 && s[j] == entries[j]);
            }
            if k == key {
                assert(keys(s)[entries.len() as int] == key);
            }
        }
    }
}

/// How many entries are `Connected`.
pub open spec fn connected_count(entries: Seq<(Seq<char>, ConnectionState)>) -> nat
    decreases entries.len(),
{
    if entries.len() == 0 {
        0
    } else {
        connected_count(entries.drop_last()) + if entries.last().1 == ConnectionState::Connected {
            1nat
        } else {
            0nat
        }
    }
}

/// `a` without its elements equal to `x`.
pub open spec fn without(a: Seq<Seq<char>>, x: Seq<char>) -> Seq<Seq<char>>
    decreases a.len(),
{
    if a.len() == 0 {
        a
    } else if a.last() == x {
        without(a.drop_last(), x)
    } else {
        without(a.drop_last(), x).push(a.last())
    }
}

proof fn lemma_without_excludes(a: Seq<Seq<char>>, x: Seq<char>)
    ensures
        !without(a, x).contains(x),
    decreases a.len(),
{
    if a.len() > 0 {
        lemma_without_excludes(a.drop_last(), x);
        let w = without(a.drop_last(), x);
        if a.last() != x && w.push(a.last()).contains(x) {
            let i = choose|i: int| 0 <= i < w.push(a.last()).len() && w.push(a.last())[i] == x;
            assert(i < w.len());
            assert(w[i] == x);
        }
    }
}

/// `a`, with `x` appended unless it is already there.
pub open spec fn with_added(a: Seq<Seq<char>>, x: Seq<char>) -> Seq<Seq<char>> {
    if a.contains(x) {
        a
    } else {
        a.push(x)
    }
}

/// The addresses, connection states and device aliases a node knows.
pub struct PeerBook {
    addresses: Vec<(String, Vec<String>)>,
    connections: Vec<(String, ConnectionState)>,
    aliases: Vec<(String, String)>,
}

fn same_text(a: &String, b: &String) -> (r: bool)
    ensures
        r == (a@ == b@),
{
    let x = chars_of(a.as_str());
    let y = chars_of(b.as_str());
    if x.len() != y.len() {
        return false;
    }
    let mut i: usize = 0;
    while i < x.len()
        invariant
            x@ == a@,
            y@ == b@,
            x@.len() == y@.len(),
            i <= x@.len(),
            forall|j: int| 0 <= j < i ==> x@[j] == y@[j],
        decreases x@.len() - i,
    {
        if x[i] != y[i] {
            assert(x@[i as int] != y@[i as int]);
            return false;
        }
        i = i + 1;
    }
    assert(x@ =~= y@);
    true
}

fn copy_text(s: &String) -> (r: String)
    ensures
        r@ == s@,
{
    string_of(&chars_of(s.as_str()))
}

fn copy_texts(v: &Vec<String>) -> (r: Vec<String>)
    ensures
        texts(r@) == texts(v@),
{
    let mut r: Vec<String> = Vec::new();
    let mut i: usize = 0;
    while i < v.len()
        invariant
            i <= v@.len(),
            texts(r@) == texts(v@).take(i as int),
        decreases v@.len() - i,
    {
        let s = copy_text(&v[i]);
        proof {
            lemma_texts_push(r@, s);
        }
        r.push(s);
        assert(texts(r@) =~= texts(v@).take(i + 1));
        i = i + 1;
    }
    assert(texts(v@).take(v@.len() as int) =~= texts(v@));
    r
}

impl PeerBook {
    /// Known addresses per peer.
    pub closed spec fn address_view(&self) -> Seq<(Seq<char>, Seq<Seq<char>>)> {
        self.addresses@.map_values(|e: (String, Vec<String>)| (e.0@, texts(e.1@)))
    }

    /// Connection state per peer.
    pub closed spec fn connection_view(&self) -> Seq<(Seq<char>, ConnectionState)> {
        self.connections@.map_values(|e: (String, ConnectionState)| (e.0@, e.1))
    }

    /// Peer per device alias.
    pub closed spec fn alias_view(&self) -> Seq<(Seq<char>, Seq<char>)> {
        self.aliases@.map_values(|e: (String, String)| (e.0@, e.1@))
    }

    /// Each table names each key once.
    pub open spec fn wf(&self) -> bool {
        &&& distinct_keys(self.address_view())
        &&& distinct_keys(self.connection_view())
        &&& distinct_keys(self.alias_view())
    }

    /// The addresses known for `peer`.
    pub open spec fn addresses_spec(&self, peer: Seq<char>) -> Seq<Seq<char>> {
        match find(self.address_view(), peer) {
            Some(a) => a,
            None => Seq::empty(),
        }
    }

    /// A book that knows nothing.
    pub fn new() -> (r: Self)
        ensures
            r.wf(),
            r.address_view().len() == 0,
            r.connection_view().len() == 0,
            r.alias_view().len() == 0,
    {
        let r = PeerBook { addresses: Vec::new(), connections: Vec::new(), aliases: Vec::new() };
        assert(r.address_view() =~= Seq::<(Seq<char>, Seq<Seq<char>>)>::empty());
        assert(r.connection_view() =~= Seq::<(Seq<char>, ConnectionState)>::empty());
        assert(r.alias_view() =~= Seq::<(Seq<char>, Seq<char>)>::empty());
        r
    }

    fn address_slot(&self, peer: &String) -> (r: Option<usize>)
        ensures
            match r {
                Some(i) => i < self.address_view().len() && self.address_view()[i as int].0
                    == peer@,
                None => forall|j: int|
                    0 <= j < self.address_view().len() ==> #[trigger] self.address_view()[j].0
                        != peer@,
            },
    {
        let mut i: usize = 0;
        while i < self.addresses.len()
            invariant
                i <= self.addresses@.len(),
                self.address_view().len() == self.addresses@.len(),
                forall|j: int| 0 <= j < i ==> #[trigger] self.address_view()[j].0 != peer@,
            decreases self.addresses@.len() - i,
        {
            assert(self.address_view()[i as int].0 == self.addresses@[i as int].0@);
            if same_text(&self.addresses[i].0, peer) {
                return Some(i);
            }
            i = i + 1;
        }
        None
    }

    fn connection_slot(&self, peer: &String) -> (r: Option<usize>)
        ensures
            match r {
                Some(i) => i < self.connection_view().len() && self.connection_view()[i as int].0
                    == peer@,
                None => forall|j: int|
                    0 <= j < self.connection_view().len() ==> #[trigger] self.connection_view()[j].0
                        != peer@,
            },
    {
        let mut i: usize = 0;
        while i < self.connections.len()
            invariant
                i <= self.connections@.len(),
                self.connection_view().len() == self.connections@.len(),
                forall|j: int| 0 <= j < i ==> #[trigger] self.connection_view()[j].0 != peer@,
            decreases self.connections@.len() - i,
        {
            assert(self.connection_view()[i as int].0 == self.connections@[i as int].0@);
            if same_text(&self.connections[i].0, peer) {
                return Some(i);
            }
            i = i + 1;
        }
        None
    }

    fn alias_slot(&self, id: &String) -> (r: Option<usize>)
        ensures
            match r {
                Some(i) => i < self.alias_view().len() && self.alias_view()[i as int].0 == id@,
                None => forall|j: int|
                    0 <= j < self.alias_view().len() ==> #[trigger] self.alias_view()[j].0 != id@,
            },
    {
        let mut i: usize = 0;
        while i < self.aliases.len()
            invariant
                i <= self.aliases@.len(),
                self.alias_view().len() == self.aliases@.len(),
                forall|j: int| 0 <= j < i ==> #[trigger] self.alias_view()[j].0 != id@,
            decreases self.aliases@.len() - i,
        {
            assert(self.alias_view()[i as int].0 == self.aliases@[i as int].0@);
            if same_text(&self.aliases[i].0, id) {
                return Some(i);
            }
            i = i + 1;
        }
        None
    }

    /// The addresses known for `peer`, in the order they were learned.
    pub fn addresses_of(&self, peer: &String) -> (r: Vec<String>)
        requires
            self.wf(),
        ensures
            texts(r@) == self.addresses_spec(peer@),
    {
        match self.address_slot(peer) {
            Some(i) => {
                proof {
                    lemma_find_at(self.address_view(), i as int);
                }
                assert(self.address_view()[i as int].1 == texts(self.addresses@[i as int].1@));
                copy_texts(&self.addresses[i].1)
            },
            None => {
                proof {
                    lemma_find_none(self.address_view(), peer@);
                }
                let r: Vec<String> = Vec::new();
                assert(texts(r@) =~= Seq::<Seq<char>>::empty());
                r
            },
        }
    }

    fn store_addresses(&mut self, peer: &String, list: Vec<String>)
        requires
            old(self).wf(),
        ensures
            final(self).wf(),
            final(self).address_view() == stored(old(self).address_view(), peer@, texts(list@)),
            final(self).connection_view() == old(self).connection_view(),
            final(self).alias_view() == old(self).alias_view(),
    {
        let ghost before = self.address_view();
        let slot = self.address_slot(peer);
        let ghost item = (peer@, texts(list@));
        let entry = (copy_text(peer), list);
        proof {
            lemma_stored(before, peer@, texts(list@));
        }
        match slot {
            Some(i) => {
                proof {
                    let p = choose|j: int| 0 <= j < before.len() && #[trigger] before[j].0 == peer@;
                    if p != i {
                        if p < i {
                            assert(before[p].0 != before[i as int].0);
                        } else {
                            assert(before[i as int].0 != before[p].0);
                        }
                    }
                }
                self.addresses.set(i, entry);
                assert(self.address_view() =~= before.update(i as int, item));
            },
            None => {
                self.addresses.push(entry);
                assert(self.address_view() =~= before.push(item));
            },
        }
        proof {
            lemma_stored(before, peer@, texts(list@));
        }
    }

    /// Remember `addr` as a reachable address of `peer`, once.
    pub fn add_address(&mut self, peer: &String, addr: &String)
        requires
            old(self).wf(),
        ensures
            final(self).wf(),
            final(self).addresses_spec(peer@) == with_added(old(self).addresses_spec(peer@), addr@),
            forall|p: Seq<char>|
                p != peer@ ==> #[trigger] final(self).addresses_spec(p) == old(self).addresses_spec(p),
            keys(final(self).address_view()).contains(peer@),
            final(self).connection_view() == old(self).connection_view(),
            final(self).alias_view() == old(self).alias_view(),
    {
        let mut list = self.addresses_of(peer);
        let ghost a = texts(list@);
        let mut present = false;
        let mut i: usize = 0;
        while i < list.len()
            invariant
                i <= list@.len(),
                a == texts(list@),
                present <==> exists|j: int| 0 <= j < i && #[trigger] a[j] == addr@,
            decreases list@.len() - i,
        {
            assert(a[i as int] == list@[i as int]@);
            if same_text(&list[i], addr) {
                present = true;
            }
            i = i + 1;
        }
        if !present {
            let s = copy_text(addr);
            proof {
                lemma_texts_push(list@, s);
            }
            list.push(s);
        } else {
            proof {
                let j = choose|j: int| 0 <= j < a.len() && #[trigger] a[j] == addr@;
                assert(a.contains(addr@));
            }
        }
        assert(texts(list@) == with_added(a, addr@));
        let ghost added = texts(list@);
        self.store_addresses(peer, list);
        proof {
            lemma_stored(old(self).address_view(), peer@, added);
            assert(keys(self.address_view()).contains(peer@));
        }
    }

    /// Forget the expired address `addr` of `peer`.
    pub fn remove_address(&mut self, peer: &String, addr: &String)
        requires
            old(self).wf(),
        ensures
            final(self).wf(),
            final(self).addresses_spec(peer@) == without(old(self).addresses_spec(peer@), addr@),
            forall|p: Seq<char>|
                p != peer@ ==> #[trigger] final(self).addresses_spec(p) == old(self).addresses_spec(p),
            forall|p: Seq<char>|
                keys(final(self).address_view()).contains(p) <==> keys(old(self).address_view()).contains(p),
            final(self).connection_view() == old(self).connection_view(),
            final(self).alias_view() == old(self).alias_view(),
    {
        match self.address_slot(peer) {
            None => {
                proof {
                    lemma_find_none(self.address_view(), peer@);
                    assert(without(Seq::<Seq<char>>::empty(), addr@) =~= Seq::<Seq<char>>::empty());
                }
            },
            Some(slot) => {
                let list = self.addresses_of(peer);
                let ghost a = texts(list@);
                let mut kept: Vec<String> = Vec::new();
                let mut i: usize = 0;
                while i < list.len()
                    invariant
                        i <= list@.len(),
                        a == texts(list@),
                        texts(kept@) == without(a.take(i as int), addr@),
                    decreases list@.len() - i,
                {
                    assert(a[i as int] == list@[i as int]@);
                    assert(a.take(i + 1).drop_last() =~= a.take(i as int));
                    if !same_text(&list[i], addr) {
                        let s = copy_text(&list[i]);
                        proof {
                            lemma_texts_push(kept@, s);
                        }
                        kept.push(s);
                    }
                    assert(texts(kept@) == without(a.take(i + 1), addr@));
                    i = i + 1;
                }
                assert(a.take(a.len() as int) =~= a);
                let ghost before = self.address_view();
                let ghost kept_texts = texts(kept@);
                proof {
                    lemma_find_at(before, slot as int);
                    lemma_stored(before, peer@, kept_texts);
                    assert(keys(before)[slot as int] == peer@);
                    assert(keys(before).contains(peer@));
                }
                self.store_addresses(peer, kept);
                assert(forall|p: Seq<char>|
                    #[trigger] keys(self.address_view()).contains(p) <==> keys(before).contains(p));
            },
        }
    }

    /// The connection state shown for `peer`.
    pub open spec fn state_spec(&self, peer: Seq<char>) -> Option<ConnectionState> {
        find(self.connection_view(), peer)
    }

    /// Record the connection state of `peer`.
    pub fn set_connection(&mut self, peer: &String, state: ConnectionState)
        requires
            old(self).wf(),
        ensures
            final(self).wf(),
            final(self).connection_view() == stored(old(self).connection_view(), peer@, state),
            final(self).state_spec(peer@) == Some(state),
            forall|p: Seq<char>|
                p != peer@ ==> #[trigger] final(self).state_spec(p) == old(self).state_spec(p),
            final(self).address_view() == old(self).address_view(),
            final(self).alias_view() == old(self).alias_view(),
    {
        let ghost before = self.connection_view();
        let slot = self.connection_slot(peer);
        let entry = (copy_text(peer), state);
        proof {
            lemma_stored(before, peer@, state);
        }
        match slot {
            Some(i) => {
                proof {
                    let p = choose|j: int| 0 <= j < before.len() && #[trigger] before[j].0 == peer@;
                    if p != i {
                        if p < i {
                            assert(before[p].0 != before[i as int].0);
                        } else {
                            assert(before[i as int].0 != before[p].0);
                        }
                    }
                }
                self.connections.set(i, entry);
                assert(self.connection_view() =~= before.update(i as int, (peer@, state)));
            },
            None => {
                self.connections.push(entry);
                assert(self.connection_view() =~= before.push((peer@, state)));
            },
        }
    }

    /// The peer a device alias names.
    pub open spec fn alias_spec(&self, id: Seq<char>) -> Option<Seq<char>> {
        find(self.alias_view(), id)
    }

    fn store_alias(&mut self, id: &String, peer: &String)
        requires
            old(self).wf(),
        ensures
            final(self).wf(),
            final(self).alias_view() == stored(old(self).alias_view(), id@, peer@),
            final(self).address_view() == old(self).address_view(),
            final(self).connection_view() == old(self).connection_view(),
    {
        let ghost before = self.alias_view();
        let slot = self.alias_slot(id);
        let entry = (copy_text(id), copy_text(peer));
        proof {
            lemma_stored(before, id@, peer@);
        }
        match slot {
            Some(i) => {
                proof {
                    let p = choose|j: int| 0 <= j < before.len() && #[trigger] before[j].0 == id@;
                    if p != i {
                        if p < i {
                            assert(before[p].0 != before[i as int].0);
                        } else {
                            assert(before[i as int].0 != before[p].0);
                        }
                    }
                }
                self.aliases.set(i, entry);
                assert(self.alias_view() =~= before.update(i as int, (id@, peer@)));
            },
            None => {
                self.aliases.push(entry);
                assert(self.alias_view() =~= before.push((id@, peer@)));
            },
        }
    }

    /// Remember that `device_id`, in its own spelling and in ASCII lower
    /// case, names `peer`.
    pub fn register_device_alias(&mut self, device_id: &String, peer: &String)
        requires
            old(self).wf(),
        ensures
            final(self).wf(),
            final(self).alias_spec(device_id@) == Some(peer@),
            final(self).alias_spec(ascii_lower(device_id@)) == Some(peer@),
            forall|k: Seq<char>|
                k != device_id@ && k != ascii_lower(device_id@) ==> #[trigger] final(self).alias_spec(k) == old(self).alias_spec(k),
            final(self).address_view() == old(self).address_view(),
            final(self).connection_view() == old(self).connection_view(),
    {
        let ghost v0 = self.alias_view();
        self.store_alias(device_id, peer);
        let ghost v1 = self.alias_view();
        let lower = string_of(&lower_ascii(&chars_of(device_id.as_str())));
        self.store_alias(&lower, peer);
        proof {
            lemma_stored(v0, device_id@, peer@);
            lemma_stored(v1, lower@, peer@);
        }
    }

    /// The peer a device id names: under its own spelling, else under its
    /// ASCII lower case.
    pub open spec fn resolve_spec(&self, id: Seq<char>) -> Option<Seq<char>> {
        match self.alias_spec(id) {
            Some(p) => Some(p),
            None => if ascii_lower(id) != id {
                self.alias_spec(ascii_lower(id))
            } else {
                None
            },
        }
    }

    /// Look a device id up among the registered aliases.
    pub fn resolve_alias(&self, id: &String) -> (r: Option<String>)
        requires
            self.wf(),
        ensures
            match r {
                Some(p) => self.resolve_spec(id@) == Some(p@),
                None => self.resolve_spec(id@) is None,
            },
    {
        match self.alias_slot(id) {
            Some(i) => {
                proof {
                    lemma_find_at(self.alias_view(), i as int);
                }
                assert(self.alias_view()[i as int].1 == self.aliases@[i as int].1@);
                return Some(copy_text(&self.aliases[i].1));
            },
            None => {
                proof {
                    lemma_find_none(self.alias_view(), id@);
                }
            },
        }
        let lower = string_of(&lower_ascii(&chars_of(id.as_str())));
        if same_text(&lower, id) {
            return None;
        }
        match self.alias_slot(&lower) {
            Some(i) => {
                proof {
                    lemma_find_at(self.alias_view(), i as int);
                }
                assert(self.alias_view()[i as int].1 == self.aliases@[i as int].1@);
                Some(copy_text(&self.aliases[i].1))
            },
            None => {
                proof {
                    lemma_find_none(self.alias_view(), lower@);
                }
                None
            },
        }
    }

    /// The addresses known for the peer a device id resolves to; none when
    /// it resolves to no peer.
    pub fn addresses_of_alias(&self, id: &String) -> (r: Vec<String>)
        requires
            self.wf(),
        ensures
            texts(r@) == match self.resolve_spec(id@) {
                Some(peer) => self.addresses_spec(peer),
                None => Seq::<Seq<char>>::empty(),
            },
    {
        match self.resolve_alias(id) {
            Some(peer) => self.addresses_of(&peer),
            None => {
                let r: Vec<String> = Vec::new();
                assert(texts(r@) =~= Seq::<Seq<char>>::empty());
                r
            },
        }
    }

    /// A snapshot of the counters with the connection and peer counts
    /// filled in: peers shown as connected, and peers with known addresses,
    /// each cut to 32 bits.
    pub fn stats(&self, counters: &NetworkStats) -> (r: NetworkStats)
        ensures
            r == (NetworkStats {
                active_connections: connected_count(self.connection_view()) as u32,
                discovered_peers: self.address_view().len() as u32,
                ..*counters
            }),
    {
        let mut n: usize = 0;
        let mut i: usize = 0;
        while i < self.connections.len()
            invariant
                i <= self.connections@.len(),
                self.connection_view().len() == self.connections@.len(),
                n == connected_count(self.connection_view().take(i as int)),
                n <= i,
            decreases self.connections@.len() - i,
        {
            let ghost t = self.connection_view().take(i + 1);
            assert(t.drop_last() =~= self.connection_view().take(i as int));
            assert(t.last() == (self.connections@[i as int].0@, self.connections@[i as int].1));
            if self.connections[i].1 == ConnectionState::Connected {
                n = n + 1;
            }
            i = i + 1;
        }
        assert(self.connection_view().take(i as int) =~= self.connection_view());
        let peers = self.addresses.len();
        NetworkStats {
            bytes_sent: counters.bytes_sent,
            bytes_received: counters.bytes_received,
            active_connections: n as u32,
            discovered_peers: peers as u32,
        }
    }
}

impl PeerBook {
    /// mDNS found `peer` at `addr`: remember the address and show the peer
    /// as being dialed (the caller then dials `addr`).
    pub fn on_discovered(&mut self, peer: &String, addr: &String)
        requires
            old(self).wf(),
        ensures
            final(self).wf(),
            final(self).addresses_spec(peer@) == with_added(old(self).addresses_spec(peer@), addr@),
            forall|p: Seq<char>|
                p != peer@ ==> #[trigger] final(self).addresses_spec(p) == old(self).addresses_spec(p),
            final(self).state_spec(peer@) == Some(ConnectionState::Dialing),
            forall|p: Seq<char>|
                p != peer@ ==> #[trigger] final(self).state_spec(p) == old(self).state_spec(p),
            final(self).alias_view() == old(self).alias_view(),
    {
        self.add_address(peer, addr);
        let ghost mid = *self;
        self.set_connection(peer, ConnectionState::Dialing);
        assert forall|p: Seq<char>| p != peer@ implies #[trigger] self.addresses_spec(p) == old(
            self,
        ).addresses_spec(p) by {
            assert(mid.addresses_spec(p) == old(self).addresses_spec(p));
        }
    }

    /// mDNS forgot `addr` of `peer`.
    pub fn on_expired(&mut self, peer: &String, addr: &String)
        requires
            old(self).wf(),
        ensures
            final(self).wf(),
            final(self).addresses_spec(peer@) == without(old(self).addresses_spec(peer@), addr@),
            forall|p: Seq<char>|
                p != peer@ ==> #[trigger] final(self).addresses_spec(p) == old(self).addresses_spec(p),
            final(self).connection_view() == old(self).connection_view(),
            final(self).alias_view() == old(self).alias_view(),
    {
        self.remove_address(peer, addr);
    }

    /// A connection to `peer` was established, by dialing `dialed` when
    /// that is given.
    pub fn on_connected(&mut self, peer: &String, dialed: Option<&String>)
        requires
            old(self).wf(),
        ensures
            final(self).wf(),
            final(self).addresses_spec(peer@) == match dialed {
                Some(a) => with_added(old(self).addresses_spec(peer@), a@),
                None => old(self).addresses_spec(peer@),
            },
            forall|p: Seq<char>|
                p != peer@ ==> #[trigger] final(self).addresses_spec(p) == old(self).addresses_spec(p),
            final(self).state_spec(peer@) == Some(ConnectionState::Connected),
            forall|p: Seq<char>|
                p != peer@ ==> #[trigger] final(self).state_spec(p) == old(self).state_spec(p),
            final(self).alias_view() == old(self).alias_view(),
    {
        match dialed {
            Some(a) => self.add_address(peer, a),
            None => {},
        }
        let ghost mid = *self;
        self.set_connection(peer, ConnectionState::Connected);
        assert forall|p: Seq<char>| p != peer@ implies #[trigger] self.addresses_spec(p) == old(
            self,
        ).addresses_spec(p) by {
            assert(mid.addresses_spec(p) == old(self).addresses_spec(p));
        }
    }

    /// A connection to `peer` closed, leaving `remaining` open: the peer is
    /// shown disconnected once none is left.
    pub fn on_closed(&mut self, peer: &String, remaining: u32)
        requires
            old(self).wf(),
        ensures
            final(self).wf(),
            final(self).state_spec(peer@) == if remaining == 0 {
                Some(ConnectionState::Disconnected)
            } else {
                old(self).state_spec(peer@)
            },
            forall|p: Seq<char>|
                p != peer@ ==> #[trigger] final(self).state_spec(p) == old(self).state_spec(p),
            final(self).address_view() == old(self).address_view(),
            final(self).alias_view() == old(self).alias_view(),
    {
        if remaining == 0 {
            self.set_connection(peer, ConnectionState::Disconnected);
        }
    }
}

/// `out` lists the entries of `table`, each once, in increasing key order.
pub open spec fn in_key_order<V>(table: Seq<(Seq<char>, V)>, out: Seq<(Seq<char>, V)>) -> bool {
    &&& out.len() == table.len()
    &&& forall|i: int, j: int| 0 <= i < j < out.len() ==> text_lt(#[trigger] out[i].0, #[trigger] out[j].0)
    &&& forall|i: int| 0 <= i < out.len() ==> table.contains(#[trigger] out[i])
    &&& forall|j: int| 0 <= j < table.len() ==> out.contains(#[trigger] table[j])
}

/// A listing of peers and their addresses, by text.
pub open spec fn peer_listing(r: Seq<(String, Vec<String>)>) -> Seq<(Seq<char>, Seq<Seq<char>>)> {
    r.map_values(|e: (String, Vec<String>)| (e.0@, texts(e.1@)))
}

/// A listing of peers and their states, by text.
pub open spec fn state_listing(r: Seq<(String, ConnectionState)>) -> Seq<(Seq<char>, ConnectionState)> {
    r.map_values(|e: (String, ConnectionState)| (e.0@, e.1))
}

/// The entries of `table` taken at the positions `order`.
pub open spec fn picked<V>(table: Seq<(Seq<char>, V)>, order: Seq<usize>) -> Seq<(Seq<char>, V)> {
    Seq::new(order.len(), |t: int| table[order[t] as int])
}

proof fn lemma_picked_in_key_order<V>(table: Seq<(Seq<char>, V)>, order: Seq<usize>)
    requires
        sorts(keys(table), order),
        forall|m: int| 0 <= m < table.len() ==> #[trigger] covers(order, m),
    ensures
        in_key_order(table, picked(table, order)),
{
    let out = picked(table, order);
    assert forall|i: int, j: int| 0 <= i < j < out.len() implies text_lt(
        #[trigger] out[i].0,
        #[trigger] out[j].0,
    ) by {
        assert(keys(table)[order[i] as int] == out[i].0);
        assert(keys(table)[order[j] as int] == out[j].0);
    }
    assert forall|i: int| 0 <= i < out.len() implies table.contains(#[trigger] out[i]) by {
        assert(order[i] < keys(table).len());
        assert(table[order[i] as int] == out[i]);
    }
    assert forall|j: int| 0 <= j < table.len() implies out.contains(#[trigger] table[j]) by {
        assert(covers(order, j));
        let w = choose|i: int| 0 <= i < order.len() && order[i] == j;
        assert(out[w] == table[j]);
    }
}

impl PeerBook {
    fn address_keys(&self) -> (r: Vec<String>)
        ensures
            texts(r@) == keys(self.address_view()),
    {
        let mut r: Vec<String> = Vec::new();
        let mut i: usize = 0;
        while i < self.addresses.len()
            invariant
                i <= self.addresses@.len(),
                self.address_view().len() == self.addresses@.len(),
                texts(r@) == keys(self.address_view()).take(i as int),
            decreases self.addresses@.len() - i,
        {
            let k = copy_text(&self.addresses[i].0);
            proof {
                lemma_texts_push(r@, k);
            }
            r.push(k);
            assert(texts(r@) =~= keys(self.address_view()).take(i + 1));
            i = i + 1;
        }
        assert(keys(self.address_view()).take(i as int) =~= keys(self.address_view()));
        r
    }

    fn connection_keys(&self) -> (r: Vec<String>)
        ensures
            texts(r@) == keys(self.connection_view()),
    {
        let mut r: Vec<String> = Vec::new();
        let mut i: usize = 0;
        while i < self.connections.len()
            invariant
                i <= self.connections@.len(),
                self.connection_view().len() == self.connections@.len(),
                texts(r@) == keys(self.connection_view()).take(i as int),
            decreases self.connections@.len() - i,
        {
            let k = copy_text(&self.connections[i].0);
            proof {
                lemma_texts_push(r@, k);
            }
            r.push(k);
            assert(texts(r@) =~= keys(self.connection_view()).take(i + 1));
            i = i + 1;
        }
        assert(keys(self.connection_view()).take(i as int) =~= keys(self.connection_view()));
        r
    }

    /// Every peer with known addresses and those addresses, in increasing
    /// peer order.
    pub fn discovered_peers(&self) -> (r: Vec<(String, Vec<String>)>)
        requires
            self.wf(),
        ensures
            in_key_order(self.address_view(), peer_listing(r@)),
    {
        let ks = self.address_keys();
        assert forall|i: int, j: int| 0 <= i < j < ks@.len() implies #[trigger] ks@[i]@
            != #[trigger] ks@[j]@ by {
            assert(texts(ks@).len() == ks@.len());
            assert(keys(self.address_view()).len() == self.address_view().len());
            assert(texts(ks@)[i] == ks@[i]@ && texts(ks@)[j] == ks@[j]@);
            assert(keys(self.address_view())[i] == self.address_view()[i].0);
            assert(keys(self.address_view())[j] == self.address_view()[j].0);
        }
        let order = sorted_order(&ks);
        let ghost table = self.address_view();
        let mut out: Vec<(String, Vec<String>)> = Vec::new();
        let mut k: usize = 0;
        while k < order.len()
            invariant
                k <= order@.len(),
                table == self.address_view(),
                table.len() == self.addresses@.len(),
                sorts(keys(table), order@),
                peer_listing(out@) == picked(table, order@.take(k as int)),
            decreases order@.len() - k,
        {
            let p = order[k];
            assert(table[p as int] == (self.addresses@[p as int].0@, texts(self.addresses@[p as int].1@)));
            let entry = (copy_text(&self.addresses[p].0), copy_texts(&self.addresses[p].1));
            let ghost before = out@;
            assert(before.len() == peer_listing(before).len());
            out.push(entry);
            assert(out@.len() == k + 1);
            assert forall|t: int| 0 <= t < k + 1 implies #[trigger] peer_listing(out@)[t]
                == table[order@[t] as int] by {
                if t < k {
                    assert(out@[t] == before[t]);
                    assert(peer_listing(before)[t] == picked(table, order@.take(k as int))[t]);
                }
            }
            assert(peer_listing(out@) =~= picked(table, order@.take(k + 1)));
            k = k + 1;
        }
        assert(order@.take(k as int) =~= order@);
        proof {
            lemma_picked_in_key_order(table, order@);
        }
        out
    }

    /// Every peer with a shown state and that state, in increasing peer
    /// order.
    pub fn connections(&self) -> (r: Vec<(String, ConnectionState)>)
        requires
            self.wf(),
        ensures
            in_key_order(self.connection_view(), state_listing(r@)),
    {
        let ks = self.connection_keys();
        assert forall|i: int, j: int| 0 <= i < j < ks@.len() implies #[trigger] ks@[i]@
            != #[trigger] ks@[j]@ by {
            assert(texts(ks@).len() == ks@.len());
            assert(keys(self.connection_view()).len() == self.connection_view().len());
            assert(texts(ks@)[i] == ks@[i]@ && texts(ks@)[j] == ks@[j]@);
            assert(keys(self.connection_view())[i] == self.connection_view()[i].0);
            assert(keys(self.connection_view())[j] == self.connection_view()[j].0);
        }
        let order = sorted_order(&ks);
        let ghost table = self.connection_view();
        let mut out: Vec<(String, ConnectionState)> = Vec::new();
        let mut k: usize = 0;
        while k < order.len()
            invariant
                k <= order@.len(),
                table == self.connection_view(),
                table.len() == self.connections@.len(),
                sorts(keys(table), order@),
                state_listing(out@) == picked(table, order@.take(k as int)),
            decreases order@.len() - k,
        {
            let p = order[k];
            assert(table[p as int] == (self.connections@[p as int].0@, self.connections@[p as int].1));
            let entry = (copy_text(&self.connections[p].0), self.connections[p].1);
            let ghost before = out@;
            assert(before.len() == state_listing(before).len());
            out.push(entry);
            assert(out@.len() == k + 1);
            assert forall|t: int| 0 <= t < k + 1 implies #[trigger] state_listing(out@)[t]
                == table[order@[t] as int] by {
                if t < k {
                    assert(out@[t] == before[t]);
                    assert(state_listing(before)[t] == picked(table, order@.take(k as int))[t]);
                }
            }
            assert(state_listing(out@) =~= picked(table, order@.take(k + 1)));
            k = k + 1;
        }
        assert(order@.take(k as int) =~= order@);
        proof {
            lemma_picked_in_key_order(table, order@);
        }
        out
    }
}

/// The answer to a sync request this node received.
pub fn ack_for(local_peer: &String) -> (r: SyncResponse)
    ensures
        r.ok,
        r.message@ == "ack from "@ + local_peer@,
{
    SyncResponse { ok: true, message: joined("ack from ", local_peer) }
}

/// What a sync reply means for the request that asked: success, or the
/// protocol error the peer reported.
pub fn sync_reply_result(reply: SyncResponse) -> (r: Result<(), NetworkError>)
    ensures
        reply.ok ==> r is Ok,
        !reply.ok ==> (r matches Err(NetworkError::ProtocolError(m)) && m@ == reply.message@),
{
    if reply.ok {
        Ok(())
    } else {
        Err(NetworkError::ProtocolError(reply.message))
    }
}

/// `a` sorts before `b`: character by character, a proper prefix first
/// (how `String`s compare).
pub open spec fn text_lt(a: Seq<char>, b: Seq<char>) -> bool
    decreases a.len(),
{
    if a.len() == 0 {
        b.len() > 0
    } else if b.len() == 0 {
        false
    } else if a[0] < b[0] {
        true
    } else if a[0] > b[0] {
        false
    } else {
        text_lt(a.drop_first(), b.drop_first())
    }
}

proof fn lemma_text_lt_order(a: Seq<char>, b: Seq<char>, c: Seq<char>)
    ensures
        !text_lt(a, a),
        text_lt(a, b) ==> !text_lt(b, a),
        a != b ==> text_lt(a, b) || text_lt(b, a),
        text_lt(a, b) && text_lt(b, c) ==> text_lt(a, c),
    decreases a.len(),
{
    if a.len() > 0 && b.len() > 0 {
        if c.len() > 0 {
            lemma_text_lt_order(a.drop_first(), b.drop_first(), c.drop_first());
        } else {
            lemma_text_lt_order(a.drop_first(), b.drop_first(), c);
        }
        if a != b && a[0] == b[0] {
            assert(a.drop_first() != b.drop_first()) by {
                if a.drop_first() == b.drop_first() {
                    assert(a =~= seq![a[0]] + a.drop_first());
                    assert(b =~= seq![b[0]] + b.drop_first());
                }
            }
        }
    } else if a.len() > 0 {
        lemma_text_lt_order(a.drop_first(), a.drop_first(), a.drop_first());
    } else if b.len() == 0 {
        assert(a =~= b);
    }
}

fn text_less(a: &[char], b: &[char]) -> (r: bool)
    ensures
        r == text_lt(a@, b@),
{
    let mut i: usize = 0;
    assert(a@.skip(0) =~= a@);
    assert(b@.skip(0) =~= b@);
    while i < a.len() && i < b.len() && a[i] == b[i]
        invariant
            i <= a@.len(),
            i <= b@.len(),
            text_lt(a@, b@) == text_lt(a@.skip(i as int), b@.skip(i as int)),
        decreases a@.len() - i,
    {
        assert(a@.skip(i as int).drop_first() =~= a@.skip(i + 1));
        assert(b@.skip(i as int).drop_first() =~= b@.skip(i + 1));
        i = i + 1;
    }
    if i == a.len() {
        assert(a@.skip(i as int).len() == 0);
        i < b.len()
    } else if i == b.len() {
        false
    } else {
        assert(a@.skip(i as int)[0] == a@[i as int]);
        assert(b@.skip(i as int)[0] == b@[i as int]);
        a[i] < b[i]
    }
}

/// An order of positions `0..keys.len()` under which the keys strictly
/// increase.
pub open spec fn sorts(keys: Seq<Seq<char>>, order: Seq<usize>) -> bool {
    &&& order.len() == keys.len()
    &&& forall|i: int| 0 <= i < order.len() ==> #[trigger] order[i] < keys.len()
    &&& forall|i: int, j: int|
        0 <= i < j < order.len() ==> text_lt(keys[#[trigger] order[i] as int], keys[#[trigger] order[j] as int])
}

/// Position `m` occurs in `order`.
pub open spec fn covers(order: Seq<usize>, m: int) -> bool {
    exists|i: int| 0 <= i < order.len() && order[i] == m
}

/// The positions of `keys`, distinct texts, in increasing key order.
fn sorted_order(keys: &Vec<String>) -> (r: Vec<usize>)
    requires
        forall|i: int, j: int|
            0 <= i < j < keys@.len() ==> #[trigger] keys@[i]@ != #[trigger] keys@[j]@,
    ensures
        sorts(texts(keys@), r@),
        forall|m: int| 0 <= m < keys@.len() ==> #[trigger] covers(r@, m),
{
    let ghost ks = texts(keys@);
    let mut order: Vec<usize> = Vec::new();
    let mut n: usize = 0;
    while n < keys.len()
        invariant
            n <= keys@.len(),
            ks == texts(keys@),
            forall|i: int, j: int|
                0 <= i < j < keys@.len() ==> #[trigger] keys@[i]@ != #[trigger] keys@[j]@,
            order@.len() == n,
            forall|i: int| 0 <= i < order@.len() ==> #[trigger] order@[i] < n,
            forall|i: int, j: int|
                0 <= i < j < order@.len() ==> text_lt(ks[#[trigger] order@[i] as int], ks[#[trigger] order@[j] as int]),
            forall|m: int| 0 <= m < n ==> #[trigger] covers(order@, m),
        decreases keys@.len() - n,
    {
        let new_key = chars_of(keys[n].as_str());
        assert(ks[n as int] == new_key@);
        let mut pos: usize = 0;
        while pos < order.len() && !text_less(&new_key, &chars_of(keys[order[pos]].as_str()))
            invariant
                pos <= order@.len(),
                n < keys@.len(),
                ks == texts(keys@),
                ks[n as int] == new_key@,
                forall|i: int| 0 <= i < order@.len() ==> #[trigger] order@[i] < n,
                forall|i: int, j: int|
                    0 <= i < j < keys@.len() ==> #[trigger] keys@[i]@ != #[trigger] keys@[j]@,
                forall|i: int| 0 <= i < pos ==> text_lt(ks[#[trigger] order@[i] as int], new_key@),
            decreases order@.len() - pos,
        {
            let ghost other = ks[order@[pos as int] as int];
            assert(other == keys@[order@[pos as int] as int]@);
            proof {
                lemma_text_lt_order(new_key@, other, other);
                assert(keys@[order@[pos as int] as int]@ != keys@[n as int]@);
            }
            pos = pos + 1;
        }
        let ghost before = order@;
        proof {
            if pos < order@.len() {
                assert(ks[order@[pos as int] as int] == keys@[order@[pos as int] as int]@);
            }
        }
        order.insert(pos, n);
        assert(order@ =~= before.insert(pos as int, n));
        assert forall|i: int, j: int|
            0 <= i < j < order@.len() implies text_lt(ks[#[trigger] order@[i] as int], ks[#[trigger] order@[j] as int]) by {
            if j < pos {
                assert(order@[i] == before[i] && order@[j] == before[j]);
            } else if j == pos {
                assert(order@[i] == before[i]);
            } else if i == pos {
                assert(order@[j] == before[j - 1]);
                if j - 1 > pos {
                    let x = ks[n as int];
                    let y = ks[before[pos as int] as int];
                    let z = ks[before[j - 1] as int];
                    lemma_text_lt_order(x, y, z);
                }
            } else if i < pos {
                assert(order@[i] == before[i] && order@[j] == before[j - 1]);
            } else {
                assert(order@[i] == before[i - 1] && order@[j] == before[j - 1]);
            }
        }
        assert forall|m: int| 0 <= m < n + 1 implies #[trigger] covers(order@, m) by {
            if m == n {
                assert(order@[pos as int] == n);
            } else {
                assert(covers(before, m));
                let w = choose|i: int| 0 <= i < before.len() && before[i] == m;
                if w < pos {
                    assert(order@[w] == m);
                } else {
                    assert(order@[w + 1] == m);
                }
            }
        }
        assert forall|i: int| 0 <= i < order@.len() implies #[trigger] order@[i] < n + 1 by {
            if i < pos {
                assert(order@[i] == before[i]);
            } else if i > pos {
                assert(order@[i] == before[i - 1]);
            }
        }
        n = n + 1;
    }
    order
}

/// A registered alias resolves to its peer under the device id as given
/// and in any ASCII letter case that lowers to the same id.
pub proof fn law_alias_round_trip(book: PeerBook, id: Seq<char>, peer: Seq<char>)
    requires
        book.alias_spec(id) == Some(peer),
        book.alias_spec(ascii_lower(id)) == Some(peer),
    ensures
        book.resolve_spec(id) == Some(peer),
        forall|other: Seq<char>|
            ascii_lower(other) == ascii_lower(id) && book.alias_spec(other) is None
                ==> #[trigger] book.resolve_spec(other) == Some(peer),
{
    assert forall|other: Seq<char>|
        ascii_lower(other) == ascii_lower(id) && book.alias_spec(other) is None implies
        #[trigger] book.resolve_spec(other) == Some(peer) by {
        if ascii_lower(other) == other {
            assert(other == ascii_lower(id));
        }
    }
}

/// Adding an address is idempotent, and removing it afterwards leaves no
/// trace of it.
pub proof fn law_address_add_remove(a: Seq<Seq<char>>, x: Seq<char>)
    ensures
        with_added(with_added(a, x), x) == with_added(a, x),
        !without(with_added(a, x), x).contains(x),
        without(with_added(a, x), x) == without(a, x),
{
    if !a.contains(x) {
        assert(a.push(x)[a.len() as int] == x);
        assert(a.push(x).drop_last() =~= a);
    }
    lemma_without_excludes(with_added(a, x), x);
}

} // verus!
