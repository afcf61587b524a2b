//! The peers of a device, found by public key, by index and by address, and
//! the device's own data: its peers and the register their indexes come
//! from.

use vstd::prelude::*;
use crate::net::IpAddr;
use super::{IndexLfsr, LFSR_MAX, lfsr_iter, lfsr_index, lfsr_step, law_lfsr_indexes_distinct};
use super::allowed_ips::{AllowedIps, NetKey, longest_match, without_value, valid_net, is_longest};
use super::peer::{AllowedIP, Peer, SocketAddr, nets_map};
use super::script_run::Scripts;
use super::noise::{new_rate_limiter, new_tunnel};
use std::sync::Arc;
use boringtun::noise::rate_limiter::RateLimiter;

verus! {

/// A peer and the public key it is known by.
pub struct PeerEntry {
    pub pub_key: [u8; 32],
    pub peer: Peer,
}

/// The peers of a device: the entries, found by key and by index, and
/// `by_ip`, which maps each network to the index of the peer it routes to.
pub struct Peers {
    pub entries: Vec<PeerEntry>,
    pub by_ip: AllowedIps<u32>,
}

/// The table of the networks of `allowed`, each routed to `idx`.
pub open spec fn routes_of(allowed: Seq<AllowedIP>, idx: u32) -> Map<NetKey, u32> {
    Map::new(|k: NetKey| nets_map(allowed).dom().contains(k), |k: NetKey| idx)
}

impl Peers {
    pub open spec fn key_at(&self, i: int) -> [u8; 32] {
        self.entries@[i].pub_key
    }

    pub open spec fn idx_at(&self, i: int) -> u32 {
        self.entries@[i].peer.index
    }

    /// Keys and indexes occur once, every peer's own table is well formed,
    /// and every network routes to a peer that is there.
    pub open spec fn wf(&self) -> bool {
        &&& self.by_ip.wf()
        &&& forall|i: int| 0 <= i < self.entries@.len() ==> (#[trigger] self.entries@[i]).peer.allowed_ips.wf()
        &&& forall|i: int, j: int|
            0 <= i < j < self.entries@.len() ==> #[trigger] self.key_at(i) != #[trigger] self.key_at(j)
        &&& forall|i: int, j: int|
            0 <= i < j < self.entries@.len() ==> #[trigger] self.idx_at(i) != #[trigger] self.idx_at(j)
        &&& forall|k: NetKey| #[trigger]
            self.by_ip@.dom().contains(k) ==> exists|i: int|
                0 <= i < self.entries@.len() && #[trigger] self.idx_at(i) == self.by_ip@[k]
    }

    /// The position of the peer with public key `k`.
    pub open spec fn key_pos(&self, k: [u8; 32]) -> Option<int> {
        if exists|i: int| 0 <= i < self.entries@.len() && #[trigger] self.key_at(i) == k {
            Some(choose|i: int| 0 <= i < self.entries@.len() && #[trigger] self.key_at(i) == k)
        } else {
            None
        }
    }

    /// The position of the peer with index `idx`.
    pub open spec fn idx_pos(&self, idx: u32) -> Option<int> {
        if exists|i: int| 0 <= i < self.entries@.len() && #[trigger] self.idx_at(i) == idx {
            Some(choose|i: int| 0 <= i < self.entries@.len() && #[trigger] self.idx_at(i) == idx)
        } else {
            None
        }
    }

    /// The position of the peer that traffic to `addr` goes to: the one the
    /// most specific network holding `addr` routes to.
    pub open spec fn ip_pos(&self, addr: IpAddr) -> Option<int> {
        match longest_match(self.by_ip@, addr) {
            Some(idx) => self.idx_pos(idx),
            None => None,
        }
    }

    proof fn lemma_key_pos(&self, i: int)
        requires
            self.wf(),
            0 <= i < self.entries@.len(),
        ensures
            self.key_pos(self.key_at(i)) == Some(i),
    {
        let j = choose|j: int| 0 <= j < self.entries@.len() && #[trigger] self.key_at(j) == self.key_at(i);
        if j < i {
            assert(self.key_at(j) != self.key_at(i));
        } else if j > i {
            assert(self.key_at(i) != self.key_at(j));
        }
    }

    proof fn lemma_idx_pos(&self, i: int)
        requires
            self.wf(),
            0 <= i < self.entries@.len(),
        ensures
            self.idx_pos(self.idx_at(i)) == Some(i),
    {
        let j = choose|j: int| 0 <= j < self.entries@.len() && #[trigger] self.idx_at(j) == self.idx_at(i);
        if j < i {
            assert(self.idx_at(j) != self.idx_at(i));
        } else if j > i {
            assert(self.idx_at(i) != self.idx_at(j));
        }
    }

    /// No peers.
    pub fn new() -> (r: Peers)
        ensures
            r.wf(),
            r.entries@.len() == 0,
            r.by_ip@ == Map::<NetKey, u32>::empty(),
    {
        Peers { entries: Vec::new(), by_ip: AllowedIps::new() }
    }

    /// The position of the peer with public key `key`.
    pub fn find_by_key(&self, key: &[u8; 32]) -> (r: Option<usize>)
        requires
            self.wf(),
        ensures
            match r {
                Some(i) => self.key_pos(*key) == Some(i as int),
                None => self.key_pos(*key) is None,
            },
    {
        let mut i: usize = 0;
        while i < self.entries.len()
            invariant
                self.wf(),
                i <= self.entries@.len(),
                forall|j: int| 0 <= j < i ==> #[trigger] self.key_at(j) != *key,
            decreases self.entries.len() - i,
        {
            if same_key(&self.entries[i].pub_key, key) {
                proof {
                    self.lemma_key_pos(i as int);
                }
                return Some(i);
            }
            i = i + 1;
        }
        None
    }

    /// The position of the peer with index `idx`.
    pub fn find_by_index(&self, idx: u32) -> (r: Option<usize>)
        requires
            self.wf(),
        ensures
            match r {
                Some(i) => self.idx_pos(idx) == Some(i as int),
                None => self.idx_pos(idx) is None,
            },
    {
        let mut i: usize = 0;
        while i < self.entries.len()
            invariant
                self.wf(),
                i <= self.entries@.len(),
                forall|j: int| 0 <= j < i ==> #[trigger] self.idx_at(j) != idx,
            decreases self.entries.len() - i,
        {
            if self.entries[i].peer.index == idx {
                proof {
                    self.lemma_idx_pos(i as int);
                }
                return Some(i);
            }
            i = i + 1;
        }
        None
    }

    /// The position of the peer that traffic to `addr` goes to.
    pub fn find_by_ip(&self, addr: &IpAddr) -> (r: Option<usize>)
        requires
            self.wf(),
        ensures
            match r {
                Some(i) => self.ip_pos(*addr) == Some(i as int),
                None => self.ip_pos(*addr) is None,
            },
            r is None <==> longest_match(self.by_ip@, *addr) is None,
    {
        match self.by_ip.find(addr) {
            Some(idx) => {
                let r = self.find_by_index(idx);
                proof {
                    let c = choose|c: nat| is_longest(self.by_ip@, *addr, c);
                    assert(self.by_ip@.dom().contains(super::allowed_ips::prefix_key(*addr, c)));
                }
                r
            },
            None => None,
        }
    }

    /// Empties the three tables.
    pub fn clear(&mut self)
        ensures
            final(self).wf(),
            final(self).entries@.len() == 0,
            final(self).by_ip@ == Map::<NetKey, u32>::empty(),
    {
        self.entries.clear();
        self.by_ip.clear();
    }

    /// Takes the peer at `i` out, to work on it.
    pub fn take_entry(&mut self, i: usize) -> (r: PeerEntry)
        requires
            i < old(self).entries@.len(),
        ensures
            r == old(self).entries@[i as int],
            final(self).entries@ == old(self).entries@.remove(i as int),
            final(self).by_ip == old(self).by_ip,
    {
        self.entries.remove(i)
    }

    /// Puts back a peer taken out at `i`, with its key, index and networks
    /// as they were.
    pub fn put_entry(&mut self, i: usize, e: PeerEntry, before: Ghost<Peers>)
        requires
            before@.wf(),
            i < before@.entries@.len(),
            old(self).entries@ == before@.entries@.remove(i as int),
            old(self).by_ip == before@.by_ip,
            e.pub_key == before@.entries@[i as int].pub_key,
            e.peer.index == before@.entries@[i as int].peer.index,
            e.peer.allowed_ips == before@.entries@[i as int].peer.allowed_ips,
        ensures
            final(self).entries@ == before@.entries@.update(i as int, e),
            final(self).by_ip == before@.by_ip,
            same_peers(before@, *final(self)),
            final(self).wf(),
    {
        self.entries.insert(i, e);
        proof {
            let b = before@;
            assert(self.entries@ =~= b.entries@.update(i as int, e));
            lemma_same_peers_wf(b, *self);
        }
    }
}

/// Two peer tables with the same peers: same keys, indexes and networks at
/// every position, and the same routes. Endpoints and sessions may differ.
pub open spec fn same_peers(a: Peers, b: Peers) -> bool {
    &&& a.entries@.len() == b.entries@.len()
    &&& a.by_ip == b.by_ip
    &&& forall|i: int|
        0 <= i < a.entries@.len() ==> #[trigger] a.key_at(i) == b.key_at(i) && a.idx_at(i) == b.idx_at(i)
            && a.entries@[i].peer.allowed_ips == b.entries@[i].peer.allowed_ips
}

/// The same peers keep the table well formed and every lookup as it was.
pub proof fn lemma_same_peers_wf(a: Peers, b: Peers)
    requires
        a.wf(),
        same_peers(a, b),
    ensures
        b.wf(),
        forall|k: [u8; 32]| #[trigger] b.key_pos(k) == a.key_pos(k),
        forall|x: u32| #[trigger] b.idx_pos(x) == a.idx_pos(x),
        forall|addr: IpAddr| #[trigger] b.ip_pos(addr) == a.ip_pos(addr),
{
    assert forall|i: int, j: int| 0 <= i < j < b.entries@.len() implies #[trigger] b.key_at(i) != #[trigger] b.key_at(j) by {
        assert(a.key_at(i) == b.key_at(i) && a.key_at(j) == b.key_at(j));
    }
    assert forall|i: int, j: int| 0 <= i < j < b.entries@.len() implies #[trigger] b.idx_at(i) != #[trigger] b.idx_at(j) by {
        assert(a.key_at(i) == b.key_at(i) && a.key_at(j) == b.key_at(j));
        assert(a.idx_at(i) == b.idx_at(i) && a.idx_at(j) == b.idx_at(j));
    }
    assert forall|i: int| 0 <= i < b.entries@.len() implies (#[trigger] b.entries@[i]).peer.allowed_ips.wf() by {
        assert(a.key_at(i) == b.key_at(i));
        assert(a.entries@[i].peer.allowed_ips.wf());
    }
    assert forall|k: NetKey| #[trigger] b.by_ip@.dom().contains(k) implies exists|j: int|
        0 <= j < b.entries@.len() && #[trigger] b.idx_at(j) == b.by_ip@[k] by {
        let j = choose|j: int| 0 <= j < a.entries@.len() && #[trigger] a.idx_at(j) == a.by_ip@[k];
        assert(a.key_at(j) == b.key_at(j));
    }
    assert forall|k: [u8; 32]| #[trigger] b.key_pos(k) == a.key_pos(k) by {
        assert forall|i: int| 0 <= i < a.entries@.len() implies (#[trigger] a.key_at(i) == k) == (b.key_at(i) == k) by {
            assert(a.key_at(i) == b.key_at(i));
        }
        if exists|i: int| 0 <= i < a.entries@.len() && #[trigger] a.key_at(i) == k {
            let i = choose|i: int| 0 <= i < a.entries@.len() && #[trigger] a.key_at(i) == k;
            assert(a.key_at(i) == b.key_at(i));
            a.lemma_key_pos(i);
            b.lemma_key_pos(i);
        } else {
            if exists|i: int| 0 <= i < b.entries@.len() && #[trigger] b.key_at(i) == k {
                let i = choose|i: int| 0 <= i < b.entries@.len() && #[trigger] b.key_at(i) == k;
                assert(a.key_at(i) == b.key_at(i));
            }
        }
    }
    assert forall|x: u32| #[trigger] b.idx_pos(x) == a.idx_pos(x) by {
        if exists|i: int| 0 <= i < a.entries@.len() && #[trigger] a.idx_at(i) == x {
            let i = choose|i: int| 0 <= i < a.entries@.len() && #[trigger] a.idx_at(i) == x;
            assert(a.key_at(i) == b.key_at(i));
            a.lemma_idx_pos(i);
            b.lemma_idx_pos(i);
        } else {
            if exists|i: int| 0 <= i < b.entries@.len() && #[trigger] b.idx_at(i) == x {
                let i = choose|i: int| 0 <= i < b.entries@.len() && #[trigger] b.idx_at(i) == x;
                assert(a.key_at(i) == b.key_at(i));
            }
        }
    }
}

impl Peers {
}


/// The networks of the first `i + 1` allowed IPs are those of the first `i`
/// and the network of the next one.
pub proof fn lemma_nets_map_push(s: Seq<AllowedIP>, i: int)
    requires
        0 <= i < s.len(),
    ensures
        nets_map(s.subrange(0, i + 1)).dom() == nets_map(s.subrange(0, i)).dom().insert(
            super::allowed_ips::net_key(s[i]),
        ),
{
    let s0 = s.subrange(0, i);
    let s1 = s.subrange(0, i + 1);
    assert forall|k: NetKey| #[trigger] nets_map(s1).dom().contains(k)
        == nets_map(s0).dom().insert(super::allowed_ips::net_key(s[i])).contains(k) by {
        if nets_map(s1).dom().contains(k) {
            let j = choose|j: int| 0 <= j < s1.len() && #[trigger] super::allowed_ips::net_key(s1[j]) == k;
            if j < i {
                assert(super::allowed_ips::net_key(s0[j]) == k);
            }
        }
        if nets_map(s0).dom().contains(k) {
            let j = choose|j: int| 0 <= j < s0.len() && #[trigger] super::allowed_ips::net_key(s0[j]) == k;
            assert(super::allowed_ips::net_key(s1[j]) == k);
        }
        if k == super::allowed_ips::net_key(s[i]) {
            assert(super::allowed_ips::net_key(s1[i]) == k);
        }
    }
    assert(nets_map(s1).dom() =~= nets_map(s0).dom().insert(super::allowed_ips::net_key(s[i])));
}

/// The data of a device: its name, its peers, the register peer indexes
/// come from, its key pair, the port it listens on and its scripts.
pub struct DeviceData {
    pub name: String,
    pub peers: Peers,
    pub next_index: IndexLfsr,
    pub key_pair: ([u8; 32], [u8; 32]),
    pub listen_port: u16,
    pub scripts: Scripts,
    /// The rate limiter of the handshakes the device receives.
    pub rate_limiter: Arc<RateLimiter>,
}

/// Handshakes a second the device accepts before it asks for cookies.
pub const HANDSHAKE_RATE_LIMIT: u64 = 100;

impl DeviceData {
    /// The peers are well formed, and each peer's index is one the register
    /// handed out: so no two peers ever share an index.
    pub open spec fn wf(&self) -> bool {
        &&& self.peers.wf()
        &&& self.next_index.wf()
        &&& forall|i: int|
            0 <= i < self.peers.entries@.len() ==> self.next_index.issued(#[trigger] self.peers.idx_at(i))
    }

    /// A device with no peers and a fresh index register.
    pub fn new(name: String, key_pair: ([u8; 32], [u8; 32]), listen_port: u16, scripts: Scripts) -> (r: DeviceData)
        ensures
            r.wf(),
            r.name@ == name@,
            r.key_pair == key_pair,
            r.listen_port == listen_port,
            r.scripts == scripts,
            r.peers.entries@.len() == 0,
            r.peers.by_ip@ == Map::<NetKey, u32>::empty(),
    {
        let rate_limiter = new_rate_limiter(&key_pair.1, HANDSHAKE_RATE_LIMIT);
        DeviceData {
            name,
            peers: Peers::new(),
            next_index: IndexLfsr::default(),
            key_pair,
            listen_port,
            scripts,
            rate_limiter,
        }
    }

    /// The next peer index.
    pub fn next_index(&mut self) -> (r: u32)
        requires
            old(self).next_index.wf(),
            lfsr_step(old(self).next_index.lfsr) != old(self).next_index.initial,
        ensures
            r == old(self).next_index.index_at(old(self).next_index.steps@),
            r <= LFSR_MAX,
            final(self).next_index.steps@ == old(self).next_index.steps@ + 1,
            final(self).next_index.initial == old(self).next_index.initial,
            final(self).next_index.mask == old(self).next_index.mask,
            final(self).next_index.wf(),
            final(self).peers == old(self).peers,
            final(self).listen_port == old(self).listen_port,
            final(self).key_pair == old(self).key_pair,
            settings_kept(*old(self), *final(self)),
    {
        self.next_index.next()
    }

    /// Whether `update_peer` may add a peer with key `pub_key`: no peer has
    /// that key, and the index register is not used up.
    pub fn can_add_peer(&self, pub_key: &[u8; 32]) -> (r: bool)
        requires
            self.peers.wf(),
        ensures
            r == (self.peers.key_pos(*pub_key) is None && lfsr_step(self.next_index.lfsr)
                != self.next_index.initial),
    {
        self.peers.find_by_key(pub_key).is_none() && !self.next_index.exhausted()
    }

    /// Adds a peer under the next index, routing its networks to it. A peer
    /// with that key must not exist (modifying existing peers is not
    /// supported: remove and add again), and the register must not be used
    /// up; `requires` leaves those inputs out (see `can_add_peer`).
    pub fn update_peer(
        &mut self,
        pub_key: [u8; 32],
        replace_ips: bool,
        endpoint: Option<SocketAddr>,
        allowed_ips: &[AllowedIP],
        keepalive: Option<u16>,
        ip: IpAddr,
        preshared_key: Option<[u8; 32]>,
    ) -> (idx: u32)
        requires
            old(self).wf(),
            old(self).peers.key_pos(pub_key) is None,
            lfsr_step(old(self).next_index.lfsr) != old(self).next_index.initial,
            forall|i: int| 0 <= i < allowed_ips@.len() ==> valid_net(#[trigger] allowed_ips@[i]),
        ensures
            final(self).wf(),
            idx == lfsr_index(old(self).next_index.lfsr, old(self).next_index.mask),
            idx <= LFSR_MAX,
            final(self).next_index.steps@ == old(self).next_index.steps@ + 1,
            final(self).peers.entries@.len() == old(self).peers.entries@.len() + 1,
            forall|j: int|
                0 <= j < old(self).peers.entries@.len() ==> #[trigger] final(self).peers.entries@[j]
                    == old(self).peers.entries@[j],
            final(self).peers.key_pos(pub_key) == Some(old(self).peers.entries@.len() as int),
            final(self).peers.idx_pos(idx) == Some(old(self).peers.entries@.len() as int),
            ({
                let e = final(self).peers.entries@[old(self).peers.entries@.len() as int];
                &&& e.pub_key == pub_key
                &&& e.peer.index == idx
                &&& e.peer.allowed_ips@ == nets_map(allowed_ips@)
                &&& e.peer.ip == ip
                &&& e.peer.preshared_key == preshared_key
                &&& super::peer::addr_view(e.peer.endpoint.addr) == super::peer::addr_view(endpoint)
                &&& e.peer.endpoint.tcp_conn is Nothing
            }),
            final(self).peers.by_ip@ == old(self).peers.by_ip@.union_prefer_right(
                routes_of(allowed_ips@, idx),
            ),
            final(self).listen_port == old(self).listen_port,
            final(self).key_pair == old(self).key_pair,
            settings_kept(*old(self), *final(self)),
            peer_added(*old(self), *final(self), pub_key, allowed_ips@, idx),
    {
        let ghost old_d = *self;
        assert(old_d.wf());
        let n = self.peers.entries.len();
        let next_index = self.next_index();
        proof {
            let s = old_d.next_index.initial;
            let steps = old_d.next_index.steps@;
            assert(lfsr_iter(s, steps + 1) == lfsr_step(lfsr_iter(s, steps)));
            assert forall|j: int| 0 <= j < n implies #[trigger] old_d.peers.idx_at(j) != next_index by {
                assert(old_d.next_index.issued(old_d.peers.idx_at(j)));
                let t = choose|t: nat|
                    t < steps && #[trigger] old_d.next_index.index_at(t) == old_d.peers.idx_at(j);
                law_lfsr_indexes_distinct(s, old_d.next_index.mask, steps + 1, t, steps);
            }
        }
        let tunnel = new_tunnel(&self.key_pair.0, &pub_key, preshared_key, keepalive, next_index).unwrap();
        let peer = Peer::new(tunnel, next_index, endpoint, allowed_ips, ip, preshared_key);
        self.peers.entries.push(PeerEntry { pub_key, peer });
        let ghost pushed = self.peers;
        let ghost ni = self.next_index;
        proof {
            assert forall|a: int, b: int|
                0 <= a < b < pushed.entries@.len() implies #[trigger] pushed.key_at(a)
                != #[trigger] pushed.key_at(b) by {
                if b == n {
                    if old_d.peers.key_at(a) == pub_key {
                        assert(old_d.peers.key_pos(pub_key) is Some);
                    }
                } else {
                    assert(old_d.peers.key_at(a) != old_d.peers.key_at(b));
                }
            }
            assert forall|a: int, b: int|
                0 <= a < b < pushed.entries@.len() implies #[trigger] pushed.idx_at(a)
                != #[trigger] pushed.idx_at(b) by {
                assert(pushed.idx_at(a) == old_d.peers.idx_at(a));
                if b < n {
                    assert(old_d.peers.idx_at(a) != old_d.peers.idx_at(b));
                } else {
                    assert(pushed.idx_at(b) == next_index);
                }
            }
            assert forall|a: int| 0 <= a < pushed.entries@.len() implies (
            #[trigger] pushed.entries@[a]).peer.allowed_ips.wf() by {
                if a < n {
                    assert(old_d.peers.entries@[a] == pushed.entries@[a]);
                }
            }
        }
        let mut i: usize = 0;
        while i < allowed_ips.len()
            invariant
                i <= allowed_ips@.len(),
                forall|k: int| 0 <= k < allowed_ips@.len() ==> valid_net(#[trigger] allowed_ips@[k]),
                self.peers.entries == pushed.entries,
                self.next_index == ni,
                self.listen_port == old_d.listen_port,
                self.key_pair == old_d.key_pair,
                settings_kept(old_d, *self),
                self.peers.by_ip.wf(),
                self.peers.by_ip@ == old_d.peers.by_ip@.union_prefer_right(
                    routes_of(allowed_ips@.subrange(0, i as int), next_index),
                ),
            decreases allowed_ips.len() - i,
        {
            let net = allowed_ips[i];
            self.peers.by_ip.insert(net, next_index);
            proof {
                lemma_nets_map_push(allowed_ips@, i as int);
                assert(self.peers.by_ip@ =~= old_d.peers.by_ip@.union_prefer_right(
                    routes_of(allowed_ips@.subrange(0, i + 1), next_index),
                ));
            }
            i = i + 1;
        }
        proof {
            assert(allowed_ips@.subrange(0, allowed_ips@.len() as int) =~= allowed_ips@);
            let p = self.peers;
            assert(p.entries@ == pushed.entries@);
            assert(p.idx_at(n as int) == next_index);
            assert forall|a: int, b: int|
                0 <= a < b < p.entries@.len() implies #[trigger] p.key_at(a) != #[trigger] p.key_at(b) by {
                assert(p.key_at(a) == pushed.key_at(a) && p.key_at(b) == pushed.key_at(b));
            }
            assert forall|a: int, b: int|
                0 <= a < b < p.entries@.len() implies #[trigger] p.idx_at(a) != #[trigger] p.idx_at(b) by {
                assert(p.idx_at(a) == pushed.idx_at(a) && p.idx_at(b) == pushed.idx_at(b));
            }
            assert(forall|a: int| 0 <= a < p.entries@.len() ==> (#[trigger] pushed.entries@[a]).peer.allowed_ips.wf());
            assert forall|k: NetKey| #[trigger] p.by_ip@.dom().contains(k) implies exists|j: int|
                0 <= j < p.entries@.len() && #[trigger] p.idx_at(j) == p.by_ip@[k] by {
                if routes_of(allowed_ips@, next_index).dom().contains(k) {
                    assert(p.idx_at(n as int) == p.by_ip@[k]);
                } else {
                    let j = choose|j: int|
                        0 <= j < old_d.peers.entries@.len() && #[trigger] old_d.peers.idx_at(j)
                            == old_d.peers.by_ip@[k];
                    assert(p.idx_at(j) == p.by_ip@[k]);
                }
            }
            assert(p.wf());
            assert forall|j: int|
                0 <= j < p.entries@.len() implies self.next_index.issued(#[trigger] p.idx_at(j)) by {
                if j < n {
                    assert(old_d.next_index.issued(old_d.peers.idx_at(j)));
                    let t = choose|t: nat|
                        t < old_d.next_index.steps@ && #[trigger] old_d.next_index.index_at(t)
                            == old_d.peers.idx_at(j);
                    assert(self.next_index.index_at(t) == p.idx_at(j));
                } else {
                    assert(self.next_index.index_at(old_d.next_index.steps@) == p.idx_at(j));
                }
            }
            p.lemma_key_pos(n as int);
            p.lemma_idx_pos(n as int);
        }
        next_index
    }

    /// Removes the peer with key `pub_key`, if there is one, with every
    /// network routed to it.
    pub fn remove_peer(&mut self, pub_key: &[u8; 32])
        requires
            old(self).wf(),
        ensures
            final(self).wf(),
            final(self).peers.key_pos(*pub_key) is None,
            match old(self).peers.key_pos(*pub_key) {
                None => final(self).peers.entries@ == old(self).peers.entries@ && final(self).peers.by_ip@
                    == old(self).peers.by_ip@,
                Some(i) => {
                    &&& final(self).peers.entries@ == old(self).peers.entries@.remove(i)
                    &&& final(self).peers.by_ip@ == without_value(
                        old(self).peers.by_ip@,
                        old(self).peers.idx_at(i),
                    )
                    &&& final(self).peers.idx_pos(old(self).peers.idx_at(i)) is None
                    &&& forall|addr: IpAddr| #[trigger] longest_match(final(self).peers.by_ip@, addr)
                        != Some(old(self).peers.idx_at(i))
                },
            },
            final(self).next_index == old(self).next_index,
            final(self).listen_port == old(self).listen_port,
            final(self).key_pair == old(self).key_pair,
            settings_kept(*old(self), *final(self)),
            peer_removed(*old(self), *final(self), *pub_key),
    {
        let ghost old_d = *self;
        match self.peers.find_by_key(pub_key) {
            None => {},
            Some(i) => {
                let removed = self.peers.entries.remove(i);
                self.peers.by_ip.remove_value(removed.peer.index);
                proof {
                    let o = old_d.peers;
                    let p = self.peers;
                    let gone = o.idx_at(i as int);
                    assert forall|a: int, b: int|
                        0 <= a < b < p.entries@.len() implies #[trigger] p.key_at(a) != #[trigger] p.key_at(b) by {
                        let a2 = if a < i { a } else { a + 1 };
                        let b2 = if b < i { b } else { b + 1 };
                        assert(p.key_at(a) == o.key_at(a2) && p.key_at(b) == o.key_at(b2));
                    }
                    assert forall|a: int, b: int|
                        0 <= a < b < p.entries@.len() implies #[trigger] p.idx_at(a) != #[trigger] p.idx_at(b) by {
                        let a2 = if a < i { a } else { a + 1 };
                        let b2 = if b < i { b } else { b + 1 };
                        assert(p.idx_at(a) == o.idx_at(a2) && p.idx_at(b) == o.idx_at(b2));
                    }
                    assert forall|a: int| 0 <= a < p.entries@.len() implies (#[trigger] p.entries@[a]).peer.allowed_ips.wf() by {
                        let a2 = if a < i { a } else { a + 1 };
                        assert(p.entries@[a] == o.entries@[a2]);
                    }
                    assert forall|a: int| 0 <= a < p.entries@.len() implies #[trigger] p.idx_at(a) != gone by {
                        let a2 = if a < i { a } else { a + 1 };
                        assert(p.idx_at(a) == o.idx_at(a2));
                        if a2 < i {
                            assert(o.idx_at(a2) != o.idx_at(i as int));
                        } else {
                            assert(o.idx_at(i as int) != o.idx_at(a2));
                        }
                    }
                    assert forall|k: NetKey| #[trigger] p.by_ip@.dom().contains(k) implies exists|j: int|
                        0 <= j < p.entries@.len() && #[trigger] p.idx_at(j) == p.by_ip@[k] by {
                        let j = choose|j: int| 0 <= j < o.entries@.len() && #[trigger] o.idx_at(j) == o.by_ip@[k];
                        assert(j != i);
                        let j2 = if j < i { j } else { j - 1 };
                        assert(p.idx_at(j2) == o.idx_at(j));
                    }
                    assert(p.wf());
                    assert forall|a: int| 0 <= a < p.entries@.len() implies self.next_index.issued(#[trigger] p.idx_at(a)) by {
                        let a2 = if a < i { a } else { a + 1 };
                        assert(p.idx_at(a) == o.idx_at(a2));
                        assert(old_d.next_index.issued(o.idx_at(a2)));
                    }
                    assert forall|addr: IpAddr| #[trigger] longest_match(p.by_ip@, addr) != Some(gone) by {
                        super::allowed_ips::law_removed_value_not_found(o.by_ip@, gone, addr);
                    }
                    assert forall|a: int| 0 <= a < p.entries@.len() implies #[trigger] p.key_at(a) != *pub_key by {
                        let a2 = if a < i { a } else { a + 1 };
                        assert(p.key_at(a) == o.key_at(a2));
                        if a2 < i {
                            assert(o.key_at(a2) != o.key_at(i as int));
                        } else {
                            assert(o.key_at(i as int) != o.key_at(a2));
                        }
                    }
                }
            },
        }
    }

    /// Drops every peer; returns the script to run before the interface
    /// goes down.
    pub fn close(&mut self) -> (r: Option<String>)
        requires
            old(self).wf(),
        ensures
            final(self).wf(),
            super::script_run::opt_view(r) == super::script_run::opt_view(old(self).scripts.pre_down),
            final(self).peers.entries@.len() == 0,
            final(self).peers.by_ip@ == Map::<NetKey, u32>::empty(),
            final(self).next_index == old(self).next_index,
            final(self).scripts == old(self).scripts,
            final(self).name == old(self).name,
            final(self).key_pair == old(self).key_pair,
            final(self).listen_port == old(self).listen_port,
            final(self).rate_limiter == old(self).rate_limiter,
    {
        let script = crate::protobuf::clone_opt_string(&self.scripts.pre_down);
        self.peers.clear();
        script
    }

    /// Starts a new counting period of the handshake rate limiter (once a
    /// second).
    pub fn reset_rate_limiter(&self) {
        super::noise::reset_rate_limiter(&self.rate_limiter)
    }

    /// Closes the device and lets it go: the scripts to run before its
    /// interface goes down and once it is gone.
    pub fn shutdown(self) -> (r: (Option<String>, Option<String>))
        requires
            self.wf(),
        ensures
            super::script_run::opt_view(r.0) == super::script_run::opt_view(self.scripts.pre_down),
            super::script_run::opt_view(r.1) == super::script_run::opt_view(self.scripts.post_down),
    {
        let mut d = self;
        let pre = d.close();
        let post = d.post_down_script();
        (pre, post)
    }

    /// The script to run once the device is dropped.
    pub fn post_down_script(&self) -> (r: Option<String>)
        ensures
            super::script_run::opt_view(r) == super::script_run::opt_view(self.scripts.post_down),
    {
        crate::protobuf::clone_opt_string(&self.scripts.post_down)
    }
}

/// A device whose peers stay the same peers (sessions and endpoints aside)
/// and whose register is untouched stays well formed.
pub proof fn lemma_device_same_peers(a: DeviceData, b: DeviceData)
    requires
        a.wf(),
        same_peers(a.peers, b.peers),
        b.next_index == a.next_index,
    ensures
        b.wf(),
{
    lemma_same_peers_wf(a.peers, b.peers);
    assert forall|i: int| 0 <= i < b.peers.entries@.len() implies b.next_index.issued(#[trigger] b.peers.idx_at(i)) by {
        assert(a.peers.key_at(i) == b.peers.key_at(i));
        assert(a.next_index.issued(a.peers.idx_at(i)));
    }
}

/// Law: once a peer is added (its networks routed to its index), traffic
/// to an address in one of its allowed IPs goes to it, unless a more
/// specific network of the table holds the address.
pub proof fn law_added_peer_gets_its_traffic(
    before: Map<NetKey, u32>,
    p: Peers,
    allowed: Seq<AllowedIP>,
    idx: u32,
    n: int,
    j: int,
    addr: IpAddr,
)
    requires
        p.by_ip@ == before.union_prefer_right(routes_of(allowed, idx)),
        p.idx_pos(idx) == Some(n),
        0 <= j < allowed.len(),
        valid_net(allowed[j]),
        super::peer::in_network(allowed[j], addr),
        forall|d: nat| d > allowed[j].cidr ==> !#[trigger] super::allowed_ips::matches_at(p.by_ip@, addr, d),
    ensures
        p.ip_pos(addr) == Some(n),
{
    super::allowed_ips::lemma_in_network_key(allowed[j], addr);
    let c = allowed[j].cidr as nat;
    let k = super::allowed_ips::prefix_key(addr, c);
    assert(super::allowed_ips::net_key(allowed[j]) == k);
    assert(nets_map(allowed).dom().contains(k));
    assert(routes_of(allowed, idx).dom().contains(k));
    assert(p.by_ip@[k] == idx);
    assert(super::allowed_ips::matches_at(p.by_ip@, addr, c));
    assert(is_longest(p.by_ip@, addr, c));
    super::allowed_ips::lemma_longest_unique(p.by_ip@, addr, c);
}

/// Whether two keys are equal.
fn same_key(a: &[u8; 32], b: &[u8; 32]) -> (r: bool)
    ensures
        r == (*a == *b),
{
    let mut i: usize = 0;
    while i < 32
        invariant
            i <= 32,
            forall|k: int| 0 <= k < i ==> a@[k] == b@[k],
        decreases 32 - i,
    {
        if a[i] != b[i] {
            return false;
        }
        i = i + 1;
    }
    proof {
        assert(*a =~= *b);
    }
    true
}

/// The device keeps its name, keys, port, scripts and rate limiter.
pub open spec fn settings_kept(a: DeviceData, b: DeviceData) -> bool {
    &&& b.name == a.name
    &&& b.key_pair == a.key_pair
    &&& b.listen_port == a.listen_port
    &&& b.scripts == a.scripts
    &&& b.rate_limiter == a.rate_limiter
}

/// The peer at position `pos` of `d` is the one added with key `pub_key`,
/// reached at `endpoint`, with address `ip`, no preshared key, and nothing
/// open over TCP.
pub open spec fn new_peer_is(d: DeviceData, pos: int, pub_key: [u8; 32], endpoint: Option<SocketAddr>, ip: IpAddr) -> bool {
    let e = d.peers.entries@[pos];
    &&& e.pub_key == pub_key
    &&& super::peer::addr_view(e.peer.endpoint.addr) == super::peer::addr_view(endpoint)
    &&& e.peer.endpoint.tcp_conn is Nothing
    &&& e.peer.ip == ip
    &&& e.peer.preshared_key is None
}

/// `b` is `a` with one more peer, of key `pub_key` and index `idx`, at the
/// end, its networks `allowed` routed to it.
pub open spec fn peer_added(a: DeviceData, b: DeviceData, pub_key: [u8; 32], allowed: Seq<AllowedIP>, idx: u32) -> bool {
    &&& b.wf()
    &&& b.peers.entries@.len() == a.peers.entries@.len() + 1
    &&& forall|j: int| 0 <= j < a.peers.entries@.len() ==> #[trigger] b.peers.entries@[j] == a.peers.entries@[j]
    &&& b.peers.key_pos(pub_key) == Some(a.peers.entries@.len() as int)
    &&& b.peers.idx_at(a.peers.entries@.len() as int) == idx
    &&& b.peers.by_ip@ == a.peers.by_ip@.union_prefer_right(routes_of(allowed, idx))
}

/// `b` is `a` without the peer of key `pub_key` and its routes (`a` itself
/// where there is no such peer).
pub open spec fn peer_removed(a: DeviceData, b: DeviceData, pub_key: [u8; 32]) -> bool {
    match a.peers.key_pos(pub_key) {
        None => b.peers.entries@ == a.peers.entries@ && b.peers.by_ip@ == a.peers.by_ip@,
        Some(i) => {
            &&& b.peers.entries@ == a.peers.entries@.remove(i)
            &&& b.peers.by_ip@ == without_value(a.peers.by_ip@, a.peers.idx_at(i))
        },
    }
}

/// Law: adding a peer whose networks were routed nowhere and then removing
/// it gives back the peers and the routes as they were (only the index
/// register stays advanced).
pub proof fn law_add_then_remove(d0: DeviceData, d1: DeviceData, d2: DeviceData, pub_key: [u8; 32], allowed: Seq<AllowedIP>, idx: u32)
    requires
        d0.wf(),
        forall|k: NetKey| #[trigger] routes_of(allowed, idx).dom().contains(k) ==> !d0.peers.by_ip@.dom().contains(k),
        peer_added(d0, d1, pub_key, allowed, idx),
        peer_removed(d1, d2, pub_key),
    ensures
        d2.peers.entries@ == d0.peers.entries@,
        d2.peers.by_ip@ == d0.peers.by_ip@,
{
    let n = d0.peers.entries@.len() as int;
    assert(d2.peers.entries@ =~= d0.peers.entries@);
    let u = d0.peers.by_ip@.union_prefer_right(routes_of(allowed, idx));
    assert forall|k: NetKey| d0.peers.by_ip@.dom().contains(k) implies d0.peers.by_ip@[k] != idx by {
        let i = choose|i: int| 0 <= i < d0.peers.entries@.len() && #[trigger] d0.peers.idx_at(i) == d0.peers.by_ip@[k];
        assert(d1.peers.idx_at(i) == d0.peers.idx_at(i));
        assert(d1.peers.idx_at(i) != d1.peers.idx_at(n));
    }
    assert(without_value(u, idx) =~= d0.peers.by_ip@);
}

} // verus!
