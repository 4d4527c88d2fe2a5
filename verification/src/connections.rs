//! The connection table of the networking resource: connections get sequential handles as
//! they are accepted, and a disconnected address takes every connection to it along.

use vstd::prelude::*;
use crate::address::SocketAddress;
use std::collections::HashMap;
use vstd::std_specs::hash::spec_keys_iter;
use vstd::std_specs::iter::IteratorSpec;

verus! {

broadcast use vstd::std_specs::hash::group_hash_axioms;

/// The handle of an accepted connection.
pub type ConnectionHandle = u32;

/// An accepted connection and the address of its remote end, when it has one.
pub struct ConnectionRecord<C> {
    pub remote: Option<SocketAddress>,
    pub connection: C,
}

/// What the networking resource reports to the game.
#[derive(Debug)]
pub enum NetworkEvent<P> {
    Connected(ConnectionHandle),
    Disconnected(ConnectionHandle),
    Packet(ConnectionHandle, P),
    Hosted(String),
}

/// The handle a `Disconnected` event reports (0 for the other events).
pub open spec fn disconnected_handle<P>(event: NetworkEvent<P>) -> u32 {
    match event {
        NetworkEvent::Disconnected(h) => h,
        _ => 0,
    }
}

/// How many events report a hosted endpoint: one when there is an endpoint id, else none.
pub open spec fn hosted_count(endpoint_id: Option<String>) -> int {
    if endpoint_id is Some { 1 } else { 0 }
}

/// The handle that follows `handle`; the sequence wraps around after the largest one.
pub open spec fn next_handle(handle: u32) -> u32 {
    if handle == u32::MAX { 0 } else { (handle + 1) as u32 }
}

/// The handle given to the `k`-th connection accepted after `sequence`.
pub open spec fn nth_handle(sequence: u32, k: nat) -> u32
    decreases k,
{
    if k == 0 { sequence } else { next_handle(nth_handle(sequence, (k - 1) as nat)) }
}

/// The `k`-th handle after `sequence` is `sequence + k` modulo 2^32.
pub proof fn lemma_nth_handle_value(sequence: u32, k: nat)
    ensures
        nth_handle(sequence, k) == (sequence + k) % 0x1_0000_0000,
    decreases k,
{
    if k > 0 {
        lemma_nth_handle_value(sequence, (k - 1) as nat);
    }
}

/// Law: handles are not reused before the sequence has wrapped around; any 2^32
/// consecutively accepted connections have distinct handles.
pub proof fn lemma_handles_distinct(sequence: u32, a: nat, b: nat)
    requires
        a < b < 0x1_0000_0000,
    ensures
        nth_handle(sequence, a) != nth_handle(sequence, b),
{
    lemma_nth_handle_value(sequence, a);
    lemma_nth_handle_value(sequence, b);
    let s = sequence as int;
    assert(((s + a) % 0x1_0000_0000) != ((s + b) % 0x1_0000_0000)) by (nonlinear_arith)
        requires
            0 <= s < 0x1_0000_0000,
            0 <= a < b < 0x1_0000_0000,
    {
        vstd::arithmetic::div_mod::lemma_fundamental_div_mod(s + a, 0x1_0000_0000);
        vstd::arithmetic::div_mod::lemma_fundamental_div_mod(s + b, 0x1_0000_0000);
    }
}

/// Law: disconnecting addresses removes exactly the connections whose remote end is one of
/// those addresses (the whole socket address: another port of the same host stays), and keeps
/// every other connection as it was.
pub proof fn lemma_without_addresses_exact<C>(connections: Map<u32, ConnectionRecord<C>>, addresses: Seq<SocketAddress>, h: u32)
    ensures
        without_addresses(connections, addresses).contains_key(h) <==> (connections.contains_key(h)
            && !(exists|i: int| 0 <= i < addresses.len() && connections[h].remote == Some(#[trigger] addresses[i]))),
        without_addresses(connections, addresses).contains_key(h) ==> without_addresses(connections, addresses)[h] == connections[h],
{
}

/// Law: accepting pending connections puts each one under its handle in the sequence, whether
/// or not it knows its remote address (a later connection takes a handle over only once the
/// sequence has wrapped around, after 2^32 connections).
pub proof fn lemma_with_connections_accepts<C>(connections: Map<u32, ConnectionRecord<C>>, sequence: u32, pending: Seq<ConnectionRecord<C>>, k: int)
    requires
        0 <= k < pending.len(),
        pending.len() <= 0x1_0000_0000,
    ensures
        with_connections(connections, sequence, pending).contains_key(nth_handle(sequence, k as nat)),
        with_connections(connections, sequence, pending)[nth_handle(sequence, k as nat)] == pending[k],
    decreases pending.len(),
{
    let last = pending.len() - 1;
    assert(pending.last() == pending[last]);
    if k < last {
        assert(pending.drop_last()[k] == pending[k]);
        lemma_with_connections_accepts(connections, sequence, pending.drop_last(), k);
        lemma_handles_distinct(sequence, k as nat, last as nat);
    }
}

/// Law: accepting pending connections adds no connection but theirs: every handle of the
/// table afterwards was there before or is the handle of one of them.
pub proof fn lemma_with_connections_only_pending<C>(connections: Map<u32, ConnectionRecord<C>>, sequence: u32, pending: Seq<ConnectionRecord<C>>, h: u32)
    requires
        with_connections(connections, sequence, pending).contains_key(h),
    ensures
        connections.contains_key(h) || exists|k: int| 0 <= k < pending.len() && h == #[trigger] nth_handle(sequence, k as nat),
    decreases pending.len(),
{
    if pending.len() > 0 {
        let last = pending.len() - 1;
        if h != nth_handle(sequence, last as nat) {
            lemma_with_connections_only_pending(connections, sequence, pending.drop_last(), h);
        }
    }
}

/// Law: accepting pending connections leaves every connection whose handle none of them takes.
pub proof fn lemma_with_connections_keeps<C>(connections: Map<u32, ConnectionRecord<C>>, sequence: u32, pending: Seq<ConnectionRecord<C>>, h: u32)
    requires
        connections.contains_key(h),
        forall|k: int| 0 <= k < pending.len() ==> #[trigger] nth_handle(sequence, k as nat) != h,
    ensures
        with_connections(connections, sequence, pending).contains_key(h),
        with_connections(connections, sequence, pending)[h] == connections[h],
    decreases pending.len(),
{
    if pending.len() > 0 {
        lemma_with_connections_keeps(connections, sequence, pending.drop_last(), h);
        assert(nth_handle(sequence, (pending.len() - 1) as nat) != h);
    }
}

/// Law: once the connections to an address are disconnected, no remaining connection is to
/// that address.
pub proof fn lemma_disconnected_address_gone<C>(connections: Map<u32, ConnectionRecord<C>>, addresses: Seq<SocketAddress>, i: int, h: u32)
    requires
        0 <= i < addresses.len(),
        without_addresses(connections, addresses).contains_key(h),
    ensures
        !is_to(without_addresses(connections, addresses)[h], addresses[i]),
{
}

/// Whether a connection is to the given address.
pub open spec fn is_to<C>(record: ConnectionRecord<C>, address: SocketAddress) -> bool {
    record.remote == Some(address)
}

/// Every connection knows its remote address.
pub open spec fn all_have_remote<C>(connections: Map<u32, ConnectionRecord<C>>) -> bool {
    forall|h: u32| #[trigger] connections.contains_key(h) ==> connections[h].remote is Some
}

/// The connections that are not to any of the given addresses.
pub open spec fn without_addresses<C>(connections: Map<u32, ConnectionRecord<C>>, addresses: Seq<SocketAddress>) -> Map<u32, ConnectionRecord<C>> {
    connections.restrict(Set::new(|h: u32| !(exists|i: int| 0 <= i < addresses.len() && is_to(connections[h], addresses[i]))))
}

proof fn lemma_push_contains(s: Seq<u32>, a: u32, x: u32)
    ensures
        s.push(a).contains(x) <==> (s.contains(x) || x == a),
{
    if s.contains(x) {
        let j = choose|j: int| 0 <= j < s.len() && s[j] == x;
        assert(s.push(a)[j] == x);
    }
    if x == a {
        assert(s.push(a)[s.len() as int] == x);
    }
    if s.push(a).contains(x) && x != a {
        let j = choose|j: int| 0 <= j < s.len() + 1 && s.push(a)[j] == x;
        assert(s[j] == x);
    }
}

/// The table after accepting the pending connections in order, starting at `sequence`.
pub open spec fn with_connections<C>(connections: Map<u32, ConnectionRecord<C>>, sequence: u32, pending: Seq<ConnectionRecord<C>>) -> Map<u32, ConnectionRecord<C>>
    decreases pending.len(),
{
    if pending.len() == 0 {
        connections
    } else {
        with_connections(connections, sequence, pending.drop_last()).insert(
            nth_handle(sequence, (pending.len() - 1) as nat),
            pending.last(),
        )
    }
}

proof fn lemma_with_connections_remote<C>(connections: Map<u32, ConnectionRecord<C>>, sequence: u32, pending: Seq<ConnectionRecord<C>>)
    requires
        all_have_remote(connections),
        forall|k: int| 0 <= k < pending.len() ==> #[trigger] pending[k].remote is Some,
    ensures
        all_have_remote(with_connections(connections, sequence, pending)),
    decreases pending.len(),
{
    if pending.len() > 0 {
        let prefix = pending.drop_last();
        assert forall|k: int| 0 <= k < prefix.len() implies #[trigger] prefix[k].remote is Some by {
            assert(prefix[k] == pending[k]);
        }
        lemma_with_connections_remote(connections, sequence, prefix);
        assert(pending.last() == pending[pending.len() - 1]);
    }
}

/// The accepted connections by handle, and the handle the next one gets.
pub struct ConnectionTable<C> {
    connections: HashMap<u32, ConnectionRecord<C>>,
    sequence: u32,
}

impl<C> View for ConnectionTable<C> {
    type V = Map<u32, ConnectionRecord<C>>;

    closed spec fn view(&self) -> Map<u32, ConnectionRecord<C>> {
        self.connections@
    }
}

impl<C> ConnectionTable<C> {
    /// The handle that the next accepted connection gets.
    pub closed spec fn spec_sequence(&self) -> u32 {
        self.sequence
    }

    /// An empty table whose first connection gets handle 0.
    pub fn new() -> (table: Self)
        ensures
            table@ == Map::<u32, ConnectionRecord<C>>::empty(),
            table.spec_sequence() == 0,
    {
        ConnectionTable { connections: HashMap::new(), sequence: 0 }
    }

    /// The number of connections.
    pub fn len(&self) -> (count: usize)
        ensures
            count == self@.dom().len(),
    {
        self.connections.len()
    }

    /// The connection with a handle, if any.
    pub fn get(&self, handle: ConnectionHandle) -> (record: Option<&ConnectionRecord<C>>)
        ensures
            match record {
                Some(r) => self@.contains_key(handle) && *r == self@[handle],
                None => !self@.contains_key(handle),
            },
    {
        self.connections.get(&handle)
    }

    /// The handles of all connections, each once.
    pub fn handles(&self) -> (handles: Vec<ConnectionHandle>)
        ensures
            handles@.to_set() == self@.dom(),
            handles@.no_duplicates(),
    {
        let mut handles: Vec<ConnectionHandle> = Vec::new();
        for handle in iter: self.connections.keys()
            invariant
                handles@ == iter.seq().take(iter.index() as int).unref(),
                iter.seq() == spec_keys_iter(&self.connections).remaining(),
        {
            handles.push(*handle);
            proof {
                assert(iter.seq().take(iter.index() as int + 1).unref() =~= handles@);
            }
        }
        proof {
            let all = spec_keys_iter(&self.connections).remaining();
            assert(all.take(all.len() as int) =~= all);
        }
        handles
    }

    /// Removes the connection with a handle and gives it back.
    pub fn remove(&mut self, handle: ConnectionHandle) -> (removed: Option<ConnectionRecord<C>>)
        ensures
            final(self)@ == old(self)@.remove(handle),
            final(self).spec_sequence() == old(self).spec_sequence(),
            match removed {
                Some(r) => old(self)@.contains_key(handle) && r == old(self)@[handle],
                None => !old(self)@.contains_key(handle),
            },
    {
        self.connections.remove(&handle)
    }

    /// Accepts a connection under the next handle of the sequence (replacing whatever had
    /// that handle before the sequence wrapped around) and gives back its handle.
    pub fn register(&mut self, record: ConnectionRecord<C>) -> (handle: ConnectionHandle)
        ensures
            handle == old(self).spec_sequence(),
            final(self).spec_sequence() == next_handle(old(self).spec_sequence()),
            final(self)@ == old(self)@.insert(handle, record),
    {
        let handle = self.sequence;
        self.sequence = self.sequence.wrapping_add(1);
        let _replaced = self.connections.insert(handle, record);
        handle
    }

    /// Removes every connection to an address and gives back their handles.
    pub fn disconnect(&mut self, address: SocketAddress) -> (removed: Vec<ConnectionHandle>)
        requires
            all_have_remote(old(self)@),
        ensures
            final(self).spec_sequence() == old(self).spec_sequence(),
            final(self)@ == without_addresses(old(self)@, seq![address]),
            removed@.no_duplicates(),
            removed@.to_set() == Set::new(|h: u32| old(self)@.contains_key(h) && is_to(old(self)@[h], address)),
            forall|h: u32| #[trigger] old(self)@.contains_key(h)
                ==> (final(self)@.contains_key(h) <==> old(self)@[h].remote != Some(address)),
            forall|h: u32| #[trigger] final(self)@.contains_key(h) ==> old(self)@.contains_key(h) && final(self)@[h] == old(self)@[h],
            forall|h: u32| #[trigger] removed@.contains(h) <==> (old(self)@.contains_key(h) && old(self)@[h].remote == Some(address)),
    {
        let handles = self.handles();
        let ghost old_map = self@;
        let mut removed: Vec<ConnectionHandle> = Vec::new();
        let mut i: usize = 0;
        while i < handles.len()
            invariant
                self.spec_sequence() == old(self).spec_sequence(),
                old_map == old(self)@,
                handles@.to_set() == old_map.dom(),
                handles@.no_duplicates(),
                i <= handles.len(),
                removed@.no_duplicates(),
                forall|j: int| 0 <= j < removed.len() ==> handles@.subrange(0, i as int).contains(#[trigger] removed@[j]),
                forall|h: u32| #[trigger] self@.contains_key(h) ==> old_map.contains_key(h) && self@[h] == old_map[h],
                forall|h: u32| #[trigger] old_map.contains_key(h) ==> (self@.contains_key(h) <==> (!handles@.subrange(0, i as int).contains(h) || !is_to(old_map[h], address))),
                forall|h: u32| #![trigger removed@.contains(h)] #![trigger old_map.contains_key(h)]
                    removed@.contains(h) <==> (old_map.contains_key(h) && handles@.subrange(0, i as int).contains(h) && is_to(old_map[h], address)),
            decreases handles.len() - i,
        {
            let h = handles[i];
            proof {
                assert(handles@.to_set().contains(h));
                assert(handles@.subrange(0, i as int + 1) =~= handles@.subrange(0, i as int).push(h));
                assert(!handles@.subrange(0, i as int).contains(h)) by {
                    if handles@.subrange(0, i as int).contains(h) {
                        let j = choose|j: int| 0 <= j < i && handles@.subrange(0, i as int)[j] == h;
                        assert(handles@[j] == handles@[i as int]);
                    }
                }
            }
            let ghost before = self@;
            let ghost prefix0 = handles@.subrange(0, i as int);
            let ghost prefix1 = handles@.subrange(0, i as int + 1);
            proof {
                assert(old_map.contains_key(h));
                assert(before.contains_key(h));
            }
            let matches = match self.get(h) {
                Some(record) => match record.remote {
                    Some(remote) => remote == address,
                    None => false,
                },
                None => false,
            };
            let ghost removed_before = removed@;
            if matches {
                let _record = self.remove(h);
                removed.push(h);
            }
            proof {
                assert(matches == is_to(old_map[h], address));
                assert forall|x: u32| prefix1.contains(x) <==> (prefix0.contains(x) || x == h) by {
                    lemma_push_contains(prefix0, h, x);
                }
                assert forall|x: u32| #[trigger] old_map.contains_key(x) implies (self@.contains_key(x) <==> (!prefix1.contains(x) || !is_to(old_map[x], address))) by {
                    if x != h {
                        assert(self@.contains_key(x) == before.contains_key(x));
                    }
                }
                assert forall|x: u32| #![trigger removed@.contains(x)] #![trigger old_map.contains_key(x)]
                    removed@.contains(x) <==> (old_map.contains_key(x) && prefix1.contains(x) && is_to(old_map[x], address)) by {
                    assert(removed_before.contains(x) <==> (old_map.contains_key(x) && prefix0.contains(x) && is_to(old_map[x], address)));
                    if matches {
                        lemma_push_contains(removed_before, h, x);
                    } else {
                        assert(removed@ == removed_before);
                    }
                }
                assert(prefix1 == handles@.subrange(0, i as int + 1));
            }
            i = i + 1;
        }
        proof {
            assert(handles@.subrange(0, handles.len() as int) =~= handles@);
            assert forall|h: u32| old_map.contains_key(h) implies handles@.contains(h) by {
                assert(handles@.to_set().contains(h));
            }
            let addresses = seq![address];
            assert forall|h: u32| (exists|j: int| 0 <= j < addresses.len() && is_to(old_map[h], addresses[j])) <==> is_to(old_map[h], address) by {
                if is_to(old_map[h], address) {
                    assert(addresses[0] == address);
                }
            }
            assert(self@ =~= without_addresses(old_map, seq![address]));
            assert(removed@.to_set() =~= Set::new(|h: u32| old_map.contains_key(h) && is_to(old_map[h], address)));
            assert forall|h: u32| #[trigger] old_map.contains_key(h)
                implies (self@.contains_key(h) <==> old_map[h].remote != Some(address)) by {
                lemma_without_addresses_exact(old_map, addresses, h);
                assert(addresses[0] == address);
            }
            assert forall|h: u32| #[trigger] self@.contains_key(h) implies old_map.contains_key(h) && self@[h] == old_map[h] by {
                lemma_without_addresses_exact(old_map, addresses, h);
            }
            assert forall|h: u32| #[trigger] removed@.contains(h) <==> (old_map.contains_key(h) && old_map[h].remote == Some(address)) by {
                assert(removed@.contains(h) <==> removed@.to_set().contains(h));
            }
        }
        removed
    }

    /// The bookkeeping of one network update: reports a freshly hosted endpoint, accepts the
    /// pending connections in order under sequential handles, then removes the connections
    /// to each disconnected address. The events are, in this order: `Hosted` for the
    /// endpoint, `Connected` for each accepted connection, and `Disconnected` for each
    /// removed one.
    pub fn accept_and_disconnect<P>(
        &mut self,
        endpoint_id: Option<String>,
        pending: Vec<ConnectionRecord<C>>,
        disconnected: Vec<SocketAddress>,
    ) -> (events: Vec<NetworkEvent<P>>)
        requires
            disconnected.len() > 0 ==> all_have_remote(old(self)@),
            disconnected.len() > 0 ==> forall|k: int| 0 <= k < pending.len() ==> #[trigger] pending[k].remote is Some,
        ensures
            final(self).spec_sequence() == nth_handle(old(self).spec_sequence(), pending.len() as nat),
            final(self)@ == without_addresses(
                with_connections(old(self)@, old(self).spec_sequence(), pending@),
                disconnected@,
            ),
            ({
                let hosted = hosted_count(endpoint_id);
                &&& endpoint_id matches Some(id) ==> events[0] == NetworkEvent::<P>::Hosted(id)
                &&& events.len() >= hosted + pending.len()
                &&& forall|j: int| hosted <= j < hosted + pending.len() ==> #[trigger] events[j]
                    == NetworkEvent::<P>::Connected(nth_handle(old(self).spec_sequence(), (j - hosted) as nat))
                &&& forall|j: int| hosted + pending.len() <= j < events.len() ==> #[trigger] events[j] is Disconnected
                &&& forall|j1: int, j2: int| hosted + pending.len() <= j1 < j2 < events.len() ==> #[trigger] events[j1] != #[trigger] events[j2]
                &&& forall|h: u32| (exists|j: int| hosted + pending.len() <= j < events.len()
                    && #[trigger] events[j] == NetworkEvent::<P>::Disconnected(h))
                    <==> (with_connections(old(self)@, old(self).spec_sequence(), pending@).contains_key(h)
                        && !final(self)@.contains_key(h))
            }),
            pending.len() <= 0x1_0000_0000 ==> forall|k: int| 0 <= k < pending.len()
                && !(#[trigger] pending[k].remote matches Some(a) && disconnected@.contains(a))
                ==> final(self)@.contains_key(nth_handle(old(self).spec_sequence(), k as nat))
                    && final(self)@[nth_handle(old(self).spec_sequence(), k as nat)] == pending[k],
            forall|h: u32| #[trigger] old(self)@.contains_key(h)
                && (forall|k: int| 0 <= k < pending.len() ==> #[trigger] nth_handle(old(self).spec_sequence(), k as nat) != h)
                && !(old(self)@[h].remote matches Some(a) && disconnected@.contains(a))
                ==> final(self)@.contains_key(h) && final(self)@[h] == old(self)@[h],
            forall|h: u32| #[trigger] final(self)@.contains_key(h) ==> old(self)@.contains_key(h)
                || exists|k: int| 0 <= k < pending.len() && h == #[trigger] nth_handle(old(self).spec_sequence(), k as nat),
    {
        let mut events: Vec<NetworkEvent<P>> = Vec::new();
        if let Some(id) = endpoint_id {
            events.push(NetworkEvent::Hosted(id));
        }
        let ghost hosted: int = events.len() as int;
        let ghost start = self.spec_sequence();
        let ghost start_map = self@;
        let ghost all_pending = pending@;
        let mut pending = pending;
        let n = pending.len();
        let mut k: usize = 0;
        while k < n
            invariant
                n == all_pending.len(),
                k <= n,
                pending@ == all_pending.skip(k as int),
                self.spec_sequence() == nth_handle(start, k as nat),
                self@ == with_connections(start_map, start, all_pending.take(k as int)),
                events.len() == hosted + k,
                hosted == hosted_count(endpoint_id),
                endpoint_id matches Some(id) ==> events[0] == NetworkEvent::<P>::Hosted(id),
                forall|j: int| hosted <= j < hosted + k ==> #[trigger] events[j] == NetworkEvent::<P>::Connected(nth_handle(start, (j - hosted) as nat)),
            decreases n - k,
        {
            let record = pending.remove(0);
            proof {
                assert(record == all_pending[k as int]);
                assert(all_pending.take(k as int + 1).drop_last() =~= all_pending.take(k as int));
                assert(pending@ =~= all_pending.skip(k as int + 1));
            }
            let handle = self.register(record);
            events.push(NetworkEvent::Connected(handle));
            k = k + 1;
        }
        proof {
            assert(all_pending.take(n as int) =~= all_pending);
        }
        let ghost connected_map = self@;
        let ghost connected_events = events@;
        proof {
            if disconnected.len() > 0 {
                lemma_with_connections_remote(start_map, start, all_pending);
            }
        }
        let mut d: usize = 0;
        while d < disconnected.len()
            invariant
                self.spec_sequence() == nth_handle(start, n as nat),
                connected_map == with_connections(start_map, start, all_pending),
                connected_events.len() == hosted + n,
                disconnected.len() > 0 ==> all_have_remote(connected_map),
                d <= disconnected.len(),
                self@ == without_addresses(connected_map, disconnected@.subrange(0, d as int)),
                events.len() >= hosted + n,
                forall|m: int| 0 <= m < hosted + n ==> #[trigger] events[m] == connected_events[m],
                forall|j: int| hosted + n <= j < events.len() ==> #[trigger] events[j] is Disconnected,
                forall|j: int| hosted + n <= j < events.len() ==> !self@.contains_key(disconnected_handle(#[trigger] events[j])),
                forall|j1: int, j2: int| hosted + n <= j1 < j2 < events.len() ==> #[trigger] events[j1] != #[trigger] events[j2],
                forall|h: u32| (exists|j: int| hosted + n <= j < events.len() && #[trigger] events[j] == NetworkEvent::<P>::Disconnected(h))
                    <==> (connected_map.contains_key(h) && !self@.contains_key(h)),
            decreases disconnected.len() - d,
        {
            let ghost before = self@;
            let ghost events_before = events@;
            proof {
                assert forall|h: u32| #[trigger] before.contains_key(h) implies before[h].remote is Some by {
                    assert(connected_map.contains_key(h));
                }
            }
            let removed = self.disconnect(disconnected[d]);
            let mut r: usize = 0;
            while r < removed.len()
                invariant
                    r <= removed.len(),
                    events.len() == events_before.len() + r,
                    events@.subrange(0, events_before.len() as int) == events_before,
                    forall|m: int| 0 <= m < r ==> #[trigger] events[events_before.len() + m] == NetworkEvent::<P>::Disconnected(removed@[m]),
                decreases removed.len() - r,
            {
                events.push(NetworkEvent::Disconnected(removed[r]));
                r = r + 1;
            }
            proof {
                let prefix = disconnected@.subrange(0, d as int);
                let prefix1 = disconnected@.subrange(0, d as int + 1);
                let a = disconnected@[d as int];
                assert(prefix1 =~= prefix.push(a));
                assert forall|h: u32| #[trigger] connected_map.contains_key(h) implies
                    ((exists|i: int| 0 <= i < prefix1.len() && is_to(connected_map[h], prefix1[i]))
                        <==> ((exists|i: int| 0 <= i < prefix.len() && is_to(connected_map[h], prefix[i])) || is_to(connected_map[h], a))) by {
                    if exists|i: int| 0 <= i < prefix1.len() && is_to(connected_map[h], prefix1[i]) {
                        let i = choose|i: int| 0 <= i < prefix1.len() && is_to(connected_map[h], prefix1[i]);
                        if i < prefix.len() {
                            assert(prefix[i] == prefix1[i]);
                        }
                    }
                    if exists|i: int| 0 <= i < prefix.len() && is_to(connected_map[h], prefix[i]) {
                        let i = choose|i: int| 0 <= i < prefix.len() && is_to(connected_map[h], prefix[i]);
                        assert(prefix1[i] == prefix[i]);
                    }
                    if is_to(connected_map[h], a) {
                        assert(prefix1[d as int] == a);
                    }
                }
                assert forall|h: u32| #[trigger] before.contains_key(h) implies before[h] == connected_map[h] && connected_map.contains_key(h) by {
                }
                assert forall|h: u32| self@.contains_key(h) <==> (connected_map.contains_key(h)
                    && !(exists|i: int| 0 <= i < prefix1.len() && is_to(connected_map[h], prefix1[i]))) by {
                    let one = seq![a];
                    assert(one[0] == a);
                    if before.contains_key(h) {
                        assert((exists|i: int| 0 <= i < one.len() && is_to(before[h], one[i])) <==> is_to(before[h], a));
                    }
                }
                assert(self@ =~= without_addresses(connected_map, prefix1));
                assert forall|m: int| 0 <= m < events_before.len() implies #[trigger] events@[m] == events_before[m] by {
                    assert(events@.subrange(0, events_before.len() as int)[m] == events@[m]);
                }
                assert forall|m: int| 0 <= m < hosted + n implies #[trigger] events[m] == connected_events[m] by {
                    assert(events@[m] == events_before[m]);
                }
                assert forall|j: int| hosted + n <= j < events.len() implies #[trigger] events[j] is Disconnected by {
                    if j < events_before.len() {
                        assert(events@[j] == events_before[j]);
                    } else {
                        let m = j - events_before.len();
                        assert(events[events_before.len() + m] == NetworkEvent::<P>::Disconnected(removed@[m]));
                    }
                }
                assert forall|h: u32| (exists|j: int| hosted + n <= j < events.len() && #[trigger] events[j] == NetworkEvent::<P>::Disconnected(h))
                    <==> (connected_map.contains_key(h) && !self@.contains_key(h)) by {
                    if exists|j: int| hosted + n <= j < events.len() && #[trigger] events[j] == NetworkEvent::<P>::Disconnected(h) {
                        let j = choose|j: int| hosted + n <= j < events.len() && #[trigger] events[j] == NetworkEvent::<P>::Disconnected(h);
                        if j < events_before.len() {
                            assert(events_before[j] == NetworkEvent::<P>::Disconnected(h));
                        } else {
                            let m = j - events_before.len();
                            assert(events[events_before.len() + m] == NetworkEvent::<P>::Disconnected(removed@[m]));
                            assert(removed@.contains(h));
                            assert(removed@.to_set().contains(h));
                        }
                    }
                    if connected_map.contains_key(h) && !self@.contains_key(h) {
                        if before.contains_key(h) {
                            assert(removed@.to_set().contains(h));
                            let m = choose|m: int| 0 <= m < removed@.len() && removed@[m] == h;
                            assert(events[events_before.len() + m] == NetworkEvent::<P>::Disconnected(h));
                        } else {
                            let j = choose|j: int| hosted + n <= j < events_before.len() && #[trigger] events_before[j] == NetworkEvent::<P>::Disconnected(h);
                            assert(events[j] == events_before[j]);
                        }
                    }
                }
            }
            proof {
                assert forall|j: int| hosted + n <= j < events.len() implies !self@.contains_key(disconnected_handle(#[trigger] events[j])) by {
                    if j < events_before.len() {
                        assert(events@[j] == events_before[j]);
                        assert(!before.contains_key(disconnected_handle(events_before[j])));
                    } else {
                        let m = j - events_before.len();
                        assert(events[events_before.len() + m] == NetworkEvent::<P>::Disconnected(removed@[m]));
                        assert(removed@.to_set().contains(removed@[m]));
                        let one = seq![disconnected@[d as int]];
                        assert(one[0] == disconnected@[d as int]);
                    }
                }
                assert forall|j1: int, j2: int| hosted + n <= j1 < j2 < events.len() implies #[trigger] events[j1] != #[trigger] events[j2] by {
                    if j2 < events_before.len() {
                        assert(events@[j1] == events_before[j1]);
                        assert(events@[j2] == events_before[j2]);
                    } else if j1 < events_before.len() {
                        assert(events@[j1] == events_before[j1]);
                        assert(!before.contains_key(disconnected_handle(events_before[j1])));
                        let m = j2 - events_before.len();
                        assert(events[events_before.len() + m] == NetworkEvent::<P>::Disconnected(removed@[m]));
                        assert(removed@.to_set().contains(removed@[m]));
                    } else {
                        let m1 = j1 - events_before.len();
                        let m2 = j2 - events_before.len();
                        assert(events[events_before.len() + m1] == NetworkEvent::<P>::Disconnected(removed@[m1]));
                        assert(events[events_before.len() + m2] == NetworkEvent::<P>::Disconnected(removed@[m2]));
                    }
                }
            }
            d = d + 1;
        }
        proof {
            assert(disconnected@.subrange(0, disconnected.len() as int) =~= disconnected@);
            if all_pending.len() <= 0x1_0000_0000 {
                assert forall|k: int| 0 <= k < all_pending.len()
                    && !(#[trigger] all_pending[k].remote matches Some(a) && disconnected@.contains(a))
                    implies self@.contains_key(nth_handle(start, k as nat))
                        && self@[nth_handle(start, k as nat)] == all_pending[k] by {
                    let hk = nth_handle(start, k as nat);
                    lemma_with_connections_accepts(start_map, start, all_pending, k);
                    lemma_without_addresses_exact(connected_map, disconnected@, hk);
                    if exists|i: int| 0 <= i < disconnected@.len() && connected_map[hk].remote == Some(#[trigger] disconnected@[i]) {
                        let i = choose|i: int| 0 <= i < disconnected@.len() && connected_map[hk].remote == Some(#[trigger] disconnected@[i]);
                        assert(disconnected@.contains(disconnected@[i]));
                    }
                }
            }
            assert forall|h: u32| #[trigger] start_map.contains_key(h)
                && (forall|k: int| 0 <= k < all_pending.len() ==> #[trigger] nth_handle(start, k as nat) != h)
                && !(start_map[h].remote matches Some(a) && disconnected@.contains(a))
                implies self@.contains_key(h) && self@[h] == start_map[h] by {
                lemma_with_connections_keeps(start_map, start, all_pending, h);
                lemma_without_addresses_exact(connected_map, disconnected@, h);
                if exists|i: int| 0 <= i < disconnected@.len() && connected_map[h].remote == Some(#[trigger] disconnected@[i]) {
                    let i = choose|i: int| 0 <= i < disconnected@.len() && connected_map[h].remote == Some(#[trigger] disconnected@[i]);
                    assert(disconnected@.contains(disconnected@[i]));
                }
            }
            assert forall|h: u32| #[trigger] self@.contains_key(h) implies start_map.contains_key(h)
                || exists|k: int| 0 <= k < all_pending.len() && h == #[trigger] nth_handle(start, k as nat) by {
                lemma_without_addresses_exact(connected_map, disconnected@, h);
                lemma_with_connections_only_pending(start_map, start, all_pending, h);
            }
        }
        events
    }
}

} // verus!
