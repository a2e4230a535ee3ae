//! The streams that the server runs for its clients: for each client (by
//! its address), a stream per UDP address that receives quotes.
//!
//! A stream is held as a handle of the caller's choosing (`H`); the caller
//! starts and stops the actual streams, and the table says which to stop.
use vstd::prelude::*;
use vstd::string::*;

verus! {

/// The keys of a sequence of entries.
pub open spec fn entry_keys<H>(s: Seq<(String, H)>) -> Seq<Seq<char>> {
    s.map_values(|e: (String, H)| e.0@)
}

/// The map that a sequence of entries with distinct keys stands for.
pub open spec fn entries_map<H>(s: Seq<(String, H)>) -> Map<Seq<char>, H> {
    Map::new(
        |k: Seq<char>| entry_keys(s).contains(k),
        |k: Seq<char>| s[entry_keys(s).index_of(k)].1,
    )
}

/// `h` is the value of some key of `m`.
pub open spec fn is_value_of<H>(m: Map<Seq<char>, H>, h: H) -> bool {
    exists|k: Seq<char>| #[trigger] m.dom().contains(k) && m[k] == h
}

proof fn lemma_index_of_distinct(ks: Seq<Seq<char>>, i: int)
    requires
        ks.no_duplicates(),
        0 <= i < ks.len(),
    ensures
        ks.index_of(ks[i]) == i,
{
    assert(ks.contains(ks[i]));
}

/// The streams of one client, by the UDP address that receives them.
pub struct Subscribers<H> {
    subscriber_host: String,
    streams: Vec<(String, H)>,
}

impl<H> View for Subscribers<H> {
    type V = Map<Seq<char>, H>;

    closed spec fn view(&self) -> Map<Seq<char>, H> {
        entries_map(self.streams@)
    }
}

impl<H> Subscribers<H> {
    #[verifier::type_invariant]
    spec fn inv(self) -> bool {
        entry_keys(self.streams@).no_duplicates()
    }

    /// The client's address.
    pub closed spec fn host(&self) -> Seq<char> {
        self.subscriber_host@
    }

    /// A client at `host` with no streams.
    pub fn new(host: String) -> (r: Subscribers<H>)
        ensures
            r.host() == host@,
            r@ == Map::<Seq<char>, H>::empty(),
    {
        let r = Subscribers { subscriber_host: host, streams: Vec::new() };
        assert(r@ =~= Map::<Seq<char>, H>::empty());
        r
    }

    /// The client's address.
    pub fn subscriber_host(&self) -> (r: &str)
        ensures
            r@ == self.host(),
    {
        self.subscriber_host.as_str()
    }

    /// The number of streams.
    pub fn len(&self) -> (r: usize)
        ensures
            r == self@.dom().len(),
    {
        proof {
            use_type_invariant(self);
            lemma_handles(self.streams@);
        }
        self.streams.len()
    }

    fn position(&self, address: &str) -> (r: Option<usize>)
        ensures
            match r {
                Some(i) => i < self.streams@.len() && self.streams@[i as int].0@ == address@
                    && self@.dom().contains(address@) && self@[address@] == self.streams@[i as int].1
                    && entry_keys(self.streams@).index_of(address@) == i,
                None => !self@.dom().contains(address@),
            },
    {
        proof {
            use_type_invariant(self);
        }
        let ghost ks = entry_keys(self.streams@);
        let wanted = String::from_str(address);
        let n = self.streams.len();
        let mut i: usize = 0;
        while i < n
            invariant
                n == self.streams@.len(),
                ks == entry_keys(self.streams@),
                ks.no_duplicates(),
                wanted@ == address@,
                forall|j: int| 0 <= j < i ==> ks[j] != address@,
            decreases n - i,
        {
            if self.streams[i].0 == wanted {
                proof {
                    lemma_index_of_distinct(ks, i as int);
                }
                return Some(i);
            }
            i = i + 1;
        }
        None
    }

    /// Whether a stream runs for `address`.
    pub fn contains(&self, address: &str) -> (r: bool)
        ensures
            r == self@.dom().contains(address@),
    {
        self.position(address).is_some()
    }

    /// Records the stream `stream` for `address`. A stream that was recorded
    /// for the same address is handed back, no longer recorded (it is not
    /// stopped).
    pub fn add(&mut self, address: String, stream: H) -> (r: Option<H>)
        ensures
            final(self)@ == old(self)@.insert(address@, stream),
            final(self).host() == old(self).host(),
            match r {
                Some(h) => old(self)@.dom().contains(address@) && h == old(self)@[address@],
                None => !old(self)@.dom().contains(address@),
            },
    {
        proof {
            use_type_invariant(&*self);
        }
        let pos = self.position(address.as_str());
        let ghost before = self.streams@;
        let mut streams = Vec::new();
        std::mem::swap(&mut streams, &mut self.streams);
        let displaced = match pos {
            Some(i) => {
                let (_, h) = streams.remove(i);
                Some(h)
            },
            None => None,
        };
        let ghost mid = streams@;
        assert(entry_keys(mid).no_duplicates() && !entry_keys(mid).contains(address@) && entries_map(
            mid,
        ) =~= entries_map(before).remove(address@)) by {
            lemma_remove_key(before, address@);
        }
        streams.push((address, stream));
        proof {
            lemma_push_key(mid, streams@.last().0, stream);
            assert(streams@ =~= mid.push(streams@.last()));
            assert(entries_map(before).remove(address@).insert(address@, stream) =~= entries_map(
                before,
            ).insert(address@, stream));
        }
        self.streams = streams;
        displaced
    }

    /// Ends the record of the stream for `address` and hands its handle
    /// back, so that it can be stopped.
    pub fn remove(&mut self, address: &str) -> (r: Option<H>)
        ensures
            final(self)@ == old(self)@.remove(address@),
            final(self).host() == old(self).host(),
            match r {
                Some(h) => old(self)@.dom().contains(address@) && h == old(self)@[address@],
                None => !old(self)@.dom().contains(address@),
            },
    {
        proof {
            use_type_invariant(&*self);
        }
        match self.position(address) {
            Some(i) => {
                let ghost before = self.streams@;
                let mut streams = Vec::new();
                std::mem::swap(&mut streams, &mut self.streams);
                let (_, h) = streams.remove(i);
                proof {
                    lemma_remove_key(before, address@);
                }
                self.streams = streams;
                Some(h)
            },
            None => {
                assert(old(self)@.remove(address@) =~= old(self)@);
                None
            },
        }
    }

    /// Ends the record of every stream and hands all their handles back,
    /// so that they can be stopped.
    pub fn remove_all(&mut self) -> (r: Vec<H>)
        ensures
            final(self)@ == Map::<Seq<char>, H>::empty(),
            final(self).host() == old(self).host(),
            r@.len() == old(self)@.dom().len(),
            forall|k: Seq<char>| #[trigger]
                old(self)@.dom().contains(k) ==> r@.contains(old(self)@[k]),
            forall|i: int| 0 <= i < r@.len() ==> is_value_of(old(self)@, #[trigger] r@[i]),
    {
        proof {
            use_type_invariant(&*self);
            lemma_handles(self.streams@);
        }
        let ghost h0 = self.streams@.map_values(|e: (String, H)| e.1);
        let mut streams = Vec::new();
        std::mem::swap(&mut streams, &mut self.streams);
        assert(self@ =~= Map::<Seq<char>, H>::empty());
        let mut handles: Vec<H> = Vec::new();
        assert(handles@ + streams@.map_values(|e: (String, H)| e.1) =~= h0);
        while streams.len() > 0
            invariant
                handles@ + streams@.map_values(|e: (String, H)| e.1) == h0,
            decreases streams.len(),
        {
            let ghost rest = streams@;
            let (_, h) = streams.remove(0);
            let ghost prev = handles@;
            handles.push(h);
            assert(rest.map_values(|e: (String, H)| e.1) =~= seq![h] + streams@.map_values(
                |e: (String, H)| e.1,
            ));
            assert(prev + rest.map_values(|e: (String, H)| e.1) =~= handles@ + streams@.map_values(
                |e: (String, H)| e.1,
            ));
        }
        assert(handles@ + streams@.map_values(|e: (String, H)| e.1) =~= handles@);
        assert forall|i: int| 0 <= i < handles@.len() implies is_value_of(
            old(self)@,
            #[trigger] handles@[i],
        ) by {
            assert(handles@[i] == old(self).streams@[i].1);
        }
        handles
    }
}

/// The hosts of a sequence of clients.
pub open spec fn client_hosts<H>(s: Seq<Subscribers<H>>) -> Seq<Seq<char>> {
    s.map_values(|c: Subscribers<H>| c.host())
}

/// The streams of each client, by host, of clients with distinct hosts.
pub open spec fn clients_map<H>(s: Seq<Subscribers<H>>) -> Map<Seq<char>, Map<Seq<char>, H>> {
    Map::new(
        |h: Seq<char>| client_hosts(s).contains(h),
        |h: Seq<char>| s[client_hosts(s).index_of(h)]@,
    )
}

/// The streams of every client of the server, by client address.
pub struct SubscriberTable<H> {
    clients: Vec<Subscribers<H>>,
}

impl<H> View for SubscriberTable<H> {
    type V = Map<Seq<char>, Map<Seq<char>, H>>;

    closed spec fn view(&self) -> Map<Seq<char>, Map<Seq<char>, H>> {
        clients_map(self.clients@)
    }
}

impl<H> SubscriberTable<H> {
    #[verifier::type_invariant]
    spec fn inv(self) -> bool {
        client_hosts(self.clients@).no_duplicates()
    }

    /// A table without clients.
    pub fn new() -> (r: SubscriberTable<H>)
        ensures
            r@ == Map::<Seq<char>, Map<Seq<char>, H>>::empty(),
    {
        let r = SubscriberTable { clients: Vec::new() };
        assert(r@ =~= Map::<Seq<char>, Map<Seq<char>, H>>::empty());
        r
    }

    fn find(&self, host: &str) -> (r: Option<usize>)
        ensures
            match r {
                Some(i) => i < self.clients@.len() && self.clients@[i as int].host() == host@
                    && client_hosts(self.clients@).index_of(host@) == i && self@.dom().contains(
                    host@,
                ) && self@[host@] == self.clients@[i as int]@,
                None => !self@.dom().contains(host@),
            },
    {
        proof {
            use_type_invariant(self);
        }
        let ghost hs = client_hosts(self.clients@);
        let n = self.clients.len();
        let mut i: usize = 0;
        while i < n
            invariant
                n == self.clients@.len(),
                hs == client_hosts(self.clients@),
                hs.no_duplicates(),
                forall|j: int| 0 <= j < i ==> hs[j] != host@,
            decreases n - i,
        {
            let h = self.clients[i].subscriber_host();
            if crate::text::str_equal(h, host) {
                assert(hs[i as int] == host@);
                assert(hs.contains(host@));
                assert(hs.index_of(host@) == i) by {
                    let k = hs.index_of(host@);
                    assert(hs[k] == host@);
                }
                return Some(i);
            }
            i = i + 1;
        }
        None
    }

    /// Whether `host` is a client of the table.
    pub fn has_client(&self, host: &str) -> (r: bool)
        ensures
            r == self@.dom().contains(host@),
    {
        self.find(host).is_some()
    }

    /// Replaces the client at `i` by `c`, of the same host.
    fn replace(&mut self, i: usize, c: Subscribers<H>)
        requires
            i < old(self).clients@.len(),
            c.host() == old(self).clients@[i as int].host(),
        ensures
            final(self)@ == old(self)@.insert(c.host(), c@),
    {
        proof {
            use_type_invariant(&*self);
        }
        let ghost before = self.clients@;
        let ghost h = c.host();
        let mut clients = Vec::new();
        std::mem::swap(&mut clients, &mut self.clients);
        clients.set(i, c);
        proof {
            let hs = client_hosts(before);
            let ht = client_hosts(clients@);
            assert(ht =~= hs);
            assert(hs[i as int] == h);
            lemma_index_of_distinct(hs, i as int);
            assert forall|q: Seq<char>| #[trigger] clients_map(clients@).dom().contains(q) implies clients_map(
                clients@,
            )[q] == clients_map(before).insert(h, clients@[i as int]@)[q] by {
                let j = hs.index_of(q);
                if q != h {
                    assert(j != i);
                }
            }
            assert(clients_map(clients@) =~= clients_map(before).insert(h, clients@[i as int]@));
        }
        self.clients = clients;
    }

    /// Takes out the client at `i`, leaving an empty one of the same host.
    fn take(&mut self, i: usize) -> (r: Subscribers<H>)
        requires
            i < old(self).clients@.len(),
        ensures
            r == old(self).clients@[i as int],
            final(self).clients@.len() == old(self).clients@.len(),
            final(self).clients@[i as int].host() == r.host(),
            final(self)@ == old(self)@.insert(r.host(), Map::<Seq<char>, H>::empty()),
    {
        let host = String::from_str(self.clients[i].subscriber_host());
        let empty = Subscribers::new(host);
        let ghost before = self.clients@;
        proof {
            use_type_invariant(&*self);
        }
        let mut clients = Vec::new();
        std::mem::swap(&mut clients, &mut self.clients);
        let c = clients.remove(i);
        clients.insert(i, empty);
        proof {
            let hs = client_hosts(before);
            let ht = client_hosts(clients@);
            assert(ht =~= hs);
            lemma_index_of_distinct(hs, i as int);
            let h = hs[i as int];
            assert forall|q: Seq<char>| #[trigger] clients_map(clients@).dom().contains(q) implies clients_map(
                clients@,
            )[q] == clients_map(before).insert(h, Map::<Seq<char>, H>::empty())[q] by {
                let j = hs.index_of(q);
                if q != h {
                    assert(j != i);
                    assert(clients@[j] == before[j]);
                }
            }
            assert(clients_map(clients@) =~= clients_map(before).insert(
                h,
                Map::<Seq<char>, H>::empty(),
            ));
        }
        self.clients = clients;
        c
    }

    /// Ends the record of the stream of `address` for the client `host`:
    /// `None` when `host` is not a client, else the handle of the stream,
    /// if there was one, so that it can be stopped.
    pub fn remove_stream(&mut self, host: &str, address: &str) -> (r: Option<Option<H>>)
        ensures
            old(self)@.dom().contains(host@) ==> {
                &&& final(self)@ == old(self)@.insert(host@, old(self)@[host@].remove(address@))
                &&& r matches Some(o)
                &&& o matches Some(h) ==> old(self)@[host@].dom().contains(address@) && h
                    == old(self)@[host@][address@]
                &&& o is None ==> !old(self)@[host@].dom().contains(address@)
            },
            !old(self)@.dom().contains(host@) ==> final(self)@ == old(self)@ && r is None,
    {
        match self.find(host) {
            None => None,
            Some(i) => {
                let mut c = self.take(i);
                let h = c.remove(address);
                self.replace(i, c);
                Some(h)
            },
        }
    }

    /// Records the stream `stream` of `address` for the client `host`,
    /// adding the client if it is new. A stream that was recorded for the
    /// same client and address is handed back, no longer recorded.
    pub fn register(&mut self, host: &str, address: String, stream: H) -> (r: Option<H>)
        ensures
            final(self)@ == with_stream(old(self)@, host@, address@, stream),
            r == lookup(streams_of(old(self)@, host@), address@),
    {
        match self.find(host) {
            Some(i) => {
                let mut c = self.take(i);
                let displaced = c.add(address, stream);
                self.replace(i, c);
                displaced
            },
            None => {
                proof {
                    use_type_invariant(&*self);
                }
                let mut c = Subscribers::new(String::from_str(host));
                let _ = c.add(address, stream);
                let ghost before = self.clients@;
                let ghost hnew = c.host();
                let mut clients = Vec::new();
                std::mem::swap(&mut clients, &mut self.clients);
                clients.push(c);
                proof {
                    let hs = client_hosts(before);
                    let ht = client_hosts(clients@);
                    assert(ht =~= hs.push(hnew));
                    assert(!hs.contains(hnew));
                    assert forall|a: int, b: int|
                        0 <= a < ht.len() && 0 <= b < ht.len() && a != b implies ht[a] != ht[b] by {
                        if a < hs.len() && b < hs.len() {
                            assert(ht[a] == hs[a] && ht[b] == hs[b]);
                        } else if a == hs.len() {
                            assert(ht[b] == hs[b]);
                        } else {
                            assert(ht[a] == hs[a]);
                        }
                    }
                    lemma_index_of_distinct(ht, hs.len() as int);
                    assert forall|q: Seq<char>| #[trigger] clients_map(clients@).dom().contains(
                        q,
                    ) <==> clients_map(before).insert(hnew, clients@.last()@).dom().contains(q) by {
                        if hs.contains(q) {
                            let j = choose|j: int| 0 <= j < hs.len() && hs[j] == q;
                            assert(ht[j] == q);
                        }
                        if ht.contains(q) && q != hnew {
                            let j = choose|j: int| 0 <= j < ht.len() && ht[j] == q;
                            assert(hs[j] == q);
                        }
                        if q == hnew {
                            assert(ht[hs.len() as int] == q);
                        }
                    }
                    assert forall|q: Seq<char>| #[trigger] clients_map(clients@).dom().contains(
                        q,
                    ) implies clients_map(clients@)[q] == clients_map(before).insert(
                        hnew,
                        clients@.last()@,
                    )[q] by {
                        if q != hnew {
                            let j = hs.index_of(q);
                            assert(hs.contains(q)) by {
                                let j2 = ht.index_of(q);
                                assert(ht[j2] == q);
                                assert(j2 < hs.len());
                                assert(hs[j2] == q);
                            }
                            lemma_index_of_distinct(hs, j);
                            assert(ht[j] == q);
                            lemma_index_of_distinct(ht, j);
                            assert(clients@[j] == before[j]);
                        }
                    }
                    assert(clients_map(clients@) =~= clients_map(before).insert(
                        hnew,
                        clients@.last()@,
                    ));
                }
                self.clients = clients;
                None
            },
        }
    }

    /// Ends the record of every stream of the client `host` and hands
    /// their handles back, so that they can be stopped. The client stays
    /// in the table, without streams.
    pub fn remove_client_streams(&mut self, host: &str) -> (r: Vec<H>)
        ensures
            old(self)@.dom().contains(host@) ==> {
                &&& final(self)@ == old(self)@.insert(host@, Map::<Seq<char>, H>::empty())
                &&& r@.len() == old(self)@[host@].dom().len()
                &&& forall|k: Seq<char>| #[trigger]
                    old(self)@[host@].dom().contains(k) ==> r@.contains(old(self)@[host@][k])
                &&& forall|i: int|
                    0 <= i < r@.len() ==> is_value_of(old(self)@[host@], #[trigger] r@[i])
            },
            !old(self)@.dom().contains(host@) ==> final(self)@ == old(self)@ && r@.len() == 0,
    {
        match self.find(host) {
            None => Vec::new(),
            Some(i) => {
                let mut c = self.take(i);
                let handles = c.remove_all();
                self.replace(i, c);
                handles
            },
        }
    }
}

/// The streams of the client `host` in the table `t`; none if it is not a
/// client.
pub open spec fn streams_of<H>(t: Map<Seq<char>, Map<Seq<char>, H>>, host: Seq<char>) -> Map<
    Seq<char>,
    H,
> {
    if t.dom().contains(host) {
        t[host]
    } else {
        Map::empty()
    }
}

/// The table `t` once the stream `h` of `address` is recorded for `host`.
pub open spec fn with_stream<H>(
    t: Map<Seq<char>, Map<Seq<char>, H>>,
    host: Seq<char>,
    address: Seq<char>,
    h: H,
) -> Map<Seq<char>, Map<Seq<char>, H>> {
    t.insert(host, streams_of(t, host).insert(address, h))
}

/// The value of `k` in `m`, if any.
pub open spec fn lookup<H>(m: Map<Seq<char>, H>, k: Seq<char>) -> Option<H> {
    if m.dom().contains(k) {
        Some(m[k])
    } else {
        None
    }
}

/// The handles of entries with distinct keys are the values of their map,
/// each once.
proof fn lemma_handles<H>(s: Seq<(String, H)>)
    requires
        entry_keys(s).no_duplicates(),
    ensures
        s.len() == entries_map(s).dom().len(),
        entries_map(s).dom().finite(),
        forall|k: Seq<char>| #[trigger]
            entries_map(s).dom().contains(k) ==> s.map_values(|e: (String, H)| e.1).contains(
                entries_map(s)[k],
            ),
        forall|i: int| 0 <= i < s.len() ==> is_value_of(entries_map(s), (#[trigger] s[i]).1),
{
    let ks = entry_keys(s);
    let m = entries_map(s);
    let hs = s.map_values(|e: (String, H)| e.1);
    assert(m.dom() =~= ks.to_set());
    ks.unique_seq_to_set();
    assert forall|k: Seq<char>| #[trigger] m.dom().contains(k) implies hs.contains(m[k]) by {
        let i = ks.index_of(k);
        assert(hs[i] == m[k]);
    }
    assert forall|i: int| 0 <= i < s.len() implies is_value_of(m, (#[trigger] s[i]).1) by {
        lemma_index_of_distinct(ks, i);
        assert(m.dom().contains(ks[i]));
    }
}

/// Removing the entry of `k` from entries with distinct keys.
proof fn lemma_remove_key<H>(s: Seq<(String, H)>, k: Seq<char>)
    requires
        entry_keys(s).no_duplicates(),
    ensures
        entry_keys(s).contains(k) ==> {
            let i = entry_keys(s).index_of(k);
            &&& entry_keys(s.remove(i)).no_duplicates()
            &&& !entry_keys(s.remove(i)).contains(k)
            &&& entries_map(s.remove(i)) =~= entries_map(s).remove(k)
        },
        !entry_keys(s).contains(k) ==> entries_map(s) =~= entries_map(s).remove(k),
{
    let ks = entry_keys(s);
    if ks.contains(k) {
        let i = ks.index_of(k);
        let t = s.remove(i);
        let kt = entry_keys(t);
        assert(kt =~= ks.remove(i));
        assert forall|a: int, b: int| 0 <= a < kt.len() && 0 <= b < kt.len() && a != b implies kt[a]
            != kt[b] by {
            let a2 = if a < i {
                a
            } else {
                a + 1
            };
            let b2 = if b < i {
                b
            } else {
                b + 1
            };
            assert(kt[a] == ks[a2] && kt[b] == ks[b2]);
        }
        assert(!kt.contains(k)) by {
            if kt.contains(k) {
                let j = choose|j: int| 0 <= j < kt.len() && kt[j] == k;
                let j2 = if j < i {
                    j
                } else {
                    j + 1
                };
                assert(ks[j2] == k);
            }
        }
        assert forall|q: Seq<char>| #[trigger] entries_map(t).dom().contains(q) <==> entries_map(
            s,
        ).remove(k).dom().contains(q) by {
            if kt.contains(q) {
                let j = choose|j: int| 0 <= j < kt.len() && kt[j] == q;
                let j2 = if j < i {
                    j
                } else {
                    j + 1
                };
                assert(ks[j2] == q);
            }
            if ks.contains(q) && q != k {
                let j = choose|j: int| 0 <= j < ks.len() && ks[j] == q;
                assert(j != i);
                let j2 = if j < i {
                    j
                } else {
                    j - 1
                };
                assert(kt[j2] == q);
            }
        }
        assert forall|q: Seq<char>| #[trigger] entries_map(t).dom().contains(q) implies entries_map(
            t,
        )[q] == entries_map(s).remove(k)[q] by {
            let j = kt.index_of(q);
            let j2 = if j < i {
                j
            } else {
                j + 1
            };
            assert(ks[j2] == q);
            lemma_index_of_distinct(ks, j2);
            assert(t[j] == s[j2]);
        }
    }
}

/// Appending an entry with a new key to entries with distinct keys.
proof fn lemma_push_key<H>(s: Seq<(String, H)>, key: String, h: H)
    requires
        entry_keys(s).no_duplicates(),
        !entry_keys(s).contains(key@),
    ensures
        entry_keys(s.push((key, h))).no_duplicates(),
        entries_map(s.push((key, h))) =~= entries_map(s).insert(key@, h),
{
    let ks = entry_keys(s);
    let t = s.push((key, h));
    let kt = entry_keys(t);
    assert(kt =~= ks.push(key@));
    assert forall|a: int, b: int| 0 <= a < kt.len() && 0 <= b < kt.len() && a != b implies kt[a]
        != kt[b] by {
        if a < ks.len() && b < ks.len() {
            assert(kt[a] == ks[a] && kt[b] == ks[b]);
        } else if a == ks.len() {
            assert(kt[b] == ks[b]);
        } else {
            assert(kt[a] == ks[a]);
        }
    }
    assert forall|q: Seq<char>| #[trigger] entries_map(t).dom().contains(q) <==> entries_map(
        s,
    ).insert(key@, h).dom().contains(q) by {
        if ks.contains(q) {
            let j = choose|j: int| 0 <= j < ks.len() && ks[j] == q;
            assert(kt[j] == q);
        }
        if kt.contains(q) && q != key@ {
            let j = choose|j: int| 0 <= j < kt.len() && kt[j] == q;
            assert(ks[j] == q);
        }
        if q == key@ {
            assert(kt[ks.len() as int] == q);
        }
    }
    assert forall|q: Seq<char>| #[trigger] entries_map(t).dom().contains(q) implies entries_map(
        t,
    )[q] == entries_map(s).insert(key@, h)[q] by {
        if q == key@ {
            lemma_index_of_distinct(kt, ks.len() as int);
        } else {
            let j = ks.index_of(q);
            assert(ks.contains(q)) by {
                let j2 = kt.index_of(q);
                assert(kt[j2] == q);
                assert(j2 < ks.len());
                assert(ks[j2] == q);
            }
            lemma_index_of_distinct(ks, j);
            assert(kt[j] == q);
            lemma_index_of_distinct(kt, j);
            assert(t[j] == s[j]);
        }
    }
}

} // verus!
