//! A table from networks to values that answers an address with the value
//! of the most specific network holding it (longest-prefix match).

use vstd::prelude::*;
use crate::net::{IpAddr, bit_of};
use super::peer::{AllowedIP, in_network, contains_ip};

verus! {

/// A network as a value: its family (IPv4 or not), its prefix length, and
/// the bits of its prefix. Two texts of one network (`10.0.0.1/24`,
/// `10.0.0.9/24`) give one key: host bits do not count.
pub type NetKey = (bool, nat, Seq<bool>);

/// The network of the first `cidr` bits of `addr`.
pub open spec fn prefix_key(addr: IpAddr, cidr: nat) -> NetKey {
    (addr.spec_is_ipv4(), cidr, Seq::new(cidr, |j: int| bit_of(addr.octets_view(), j)))
}

/// The key of a network.
pub open spec fn net_key(net: AllowedIP) -> NetKey {
    prefix_key(net.addr, net.cidr as nat)
}

/// A prefix no longer than its address.
pub open spec fn valid_net(net: AllowedIP) -> bool {
    net.cidr as nat <= 8 * net.addr.octets_view().len()
}

/// An address lies in a network exactly where the network's key is the
/// prefix of the address of that length.
pub proof fn lemma_in_network_key(net: AllowedIP, addr: IpAddr)
    requires
        valid_net(net),
    ensures
        in_network(net, addr) <==> net_key(net) == prefix_key(addr, net.cidr as nat),
{
    let c = net.cidr as nat;
    let a = Seq::new(c, |j: int| bit_of(net.addr.octets_view(), j));
    let b = Seq::new(c, |j: int| bit_of(addr.octets_view(), j));
    if in_network(net, addr) {
        assert(a =~= b);
    }
    if net_key(net) == prefix_key(addr, c) {
        assert forall|j: int| 0 <= j < net.cidr implies #[trigger] bit_of(
            net.addr.octets_view(),
            j,
        ) == bit_of(addr.octets_view(), j) by {
            assert(a[j] == b[j]);
        }
    }
}

/// Whether the table `m` holds the prefix of `addr` of length `c`.
pub open spec fn matches_at<V>(m: Map<NetKey, V>, addr: IpAddr, c: nat) -> bool {
    m.dom().contains(prefix_key(addr, c))
}

/// `c` is the longest prefix of `addr` that `m` holds.
pub open spec fn is_longest<V>(m: Map<NetKey, V>, addr: IpAddr, c: nat) -> bool {
    &&& matches_at(m, addr, c)
    &&& forall|d: nat| d > c ==> !#[trigger] matches_at(m, addr, d)
}

/// The value of the most specific network of `m` that holds `addr`.
pub open spec fn longest_match<V>(m: Map<NetKey, V>, addr: IpAddr) -> Option<V> {
    if exists|c: nat| is_longest(m, addr, c) {
        Some(m[prefix_key(addr, choose|c: nat| is_longest(m, addr, c))])
    } else {
        None
    }
}

/// A table of networks and their values (`AllowedIps`). Each network occurs
/// once.
pub struct AllowedIps<V> {
    pub entries: Vec<(AllowedIP, V)>,
}

impl<V> View for AllowedIps<V> {
    type V = Map<NetKey, V>;

    open spec fn view(&self) -> Map<NetKey, V> {
        Map::new(
            |k: NetKey| self.has_key(k),
            |k: NetKey| self.entries@[choose|i: int| self.key_index(i, k)].1,
        )
    }
}

impl<V> AllowedIps<V> {
    /// The key of the entry at `i`.
    pub open spec fn key_at(&self, i: int) -> NetKey {
        net_key(self.entries@[i].0)
    }

    /// The entry at `i` has key `k`.
    pub open spec fn key_index(&self, i: int, k: NetKey) -> bool {
        0 <= i < self.entries@.len() && self.key_at(i) == k
    }

    /// Some entry has key `k`.
    pub open spec fn has_key(&self, k: NetKey) -> bool {
        exists|i: int| #[trigger] self.key_index(i, k)
    }

    /// Every prefix is valid and no network occurs twice.
    pub open spec fn wf(&self) -> bool {
        &&& forall|i: int| 0 <= i < self.entries@.len() ==> valid_net(#[trigger] self.entries@[i].0)
        &&& forall|i: int, j: int|
            0 <= i < j < self.entries@.len() ==> #[trigger] self.key_at(i) != #[trigger] self.key_at(
                j,
            )
    }

    /// The view at an entry's key is that entry's value.
    pub proof fn lemma_view_at(&self, i: int)
        requires
            self.wf(),
            0 <= i < self.entries@.len(),
        ensures
            self@.dom().contains(self.key_at(i)),
            self@[self.key_at(i)] == self.entries@[i].1,
    {
        assert(self.key_index(i, self.key_at(i)));
        let j = choose|j: int| self.key_index(j, self.key_at(i));
        if j != i {
            if j < i {
                assert(self.key_at(j) != self.key_at(i));
            } else {
                assert(self.key_at(i) != self.key_at(j));
            }
        }
    }

    /// An empty table.
    pub fn new() -> (r: Self)
        ensures
            r.wf(),
            r@ == Map::<NetKey, V>::empty(),
    {
        let r = AllowedIps { entries: Vec::new() };
        assert(r@ =~= Map::<NetKey, V>::empty());
        r
    }

    /// Empties the table.
    pub fn clear(&mut self)
        ensures
            final(self).wf(),
            final(self)@ == Map::<NetKey, V>::empty(),
    {
        self.entries.clear();
        assert(self@ =~= Map::<NetKey, V>::empty());
    }
}

impl<V: Copy> AllowedIps<V> {
    /// Where the table holds the network of `net`, gives it the value `v`
    /// and returns the value it had; else adds `net` with `v`.
    pub fn insert(&mut self, net: AllowedIP, v: V) -> (r: Option<V>)
        requires
            old(self).wf(),
            valid_net(net),
        ensures
            final(self).wf(),
            final(self)@ == old(self)@.insert(net_key(net), v),
            r == (if old(self)@.dom().contains(net_key(net)) {
                Some(old(self)@[net_key(net)])
            } else {
                None
            }),
    {
        let ghost old_t = *self;
        let mut i: usize = 0;
        while i < self.entries.len()
            invariant
                *self == old_t,
                *old(self) == old_t,
                old_t.wf(),
                valid_net(net),
                i <= self.entries@.len(),
                forall|k: int| 0 <= k < i ==> old_t.key_at(k) != net_key(net),
            decreases self.entries.len() - i,
        {
            if same_net(&self.entries[i].0, &net) {
                let prev = self.entries[i].1;
                self.entries.set(i, (net, v));
                proof {
                    old_t.lemma_view_at(i as int);
                    assert forall|a: int, b: int|
                        0 <= a < b < self.entries@.len() implies #[trigger] self.key_at(a)
                        != #[trigger] self.key_at(b) by {
                        assert(old_t.key_at(a) != old_t.key_at(b));
                    }
                    assert forall|a: int| 0 <= a < self.entries@.len() implies valid_net(
                        #[trigger] self.entries@[a].0,
                    ) by {
                        assert(valid_net(old_t.entries@[a].0));
                    }
                    assert forall|k: NetKey| #[trigger]
                        self.has_key(k) == old_t@.insert(net_key(net), v).dom().contains(k) by {
                        if self.has_key(k) {
                            let a = choose|a: int| self.key_index(a, k);
                            assert(old_t.key_index(a, k) || k == net_key(net));
                        }
                        if old_t.has_key(k) {
                            let a = choose|a: int| old_t.key_index(a, k);
                            assert(self.key_index(a, k));
                        }
                        if k == net_key(net) {
                            assert(self.key_index(i as int, k));
                        }
                    }
                    assert forall|k: NetKey| #[trigger] self.has_key(k) implies self@[k]
                        == old_t@.insert(net_key(net), v)[k] by {
                        let a = choose|a: int| self.key_index(a, k);
                        self.lemma_view_at(a);
                        if a != i {
                            old_t.lemma_view_at(a);
                        }
                    }
                    assert(self@ =~= old_t@.insert(net_key(net), v));
                }
                return Some(prev);
            }
            i = i + 1;
        }
        self.entries.push((net, v));
        proof {
            let n = old_t.entries@.len() as int;
            assert(!old_t@.dom().contains(net_key(net))) by {
                if old_t.has_key(net_key(net)) {
                    let a = choose|a: int| old_t.key_index(a, net_key(net));
                }
            }
            assert forall|a: int, b: int|
                0 <= a < b < self.entries@.len() implies #[trigger] self.key_at(a)
                != #[trigger] self.key_at(b) by {
                if b < n {
                    assert(old_t.key_at(a) != old_t.key_at(b));
                } else {
                    assert(old_t.key_at(a) != net_key(net));
                }
            }
            assert forall|a: int| 0 <= a < self.entries@.len() implies valid_net(
                #[trigger] self.entries@[a].0,
            ) by {
                if a < n {
                    assert(valid_net(old_t.entries@[a].0));
                }
            }
            assert forall|k: NetKey| #[trigger]
                self.has_key(k) == old_t@.insert(net_key(net), v).dom().contains(k) by {
                if self.has_key(k) {
                    let a = choose|a: int| self.key_index(a, k);
                    assert(old_t.key_index(a, k) || k == net_key(net));
                }
                if old_t.has_key(k) {
                    let a = choose|a: int| old_t.key_index(a, k);
                    assert(self.key_index(a, k));
                }
                if k == net_key(net) {
                    assert(self.key_index(n, k));
                }
            }
            assert forall|k: NetKey| #[trigger] self.has_key(k) implies self@[k] == old_t@.insert(
                net_key(net),
                v,
            )[k] by {
                let a = choose|a: int| self.key_index(a, k);
                self.lemma_view_at(a);
                if a < n {
                    old_t.lemma_view_at(a);
                }
            }
            assert(self@ =~= old_t@.insert(net_key(net), v));
        }
        None
    }

    /// The value of the most specific network holding `addr` (`find`).
    pub fn find(&self, addr: &IpAddr) -> (r: Option<V>)
        requires
            self.wf(),
        ensures
            r == longest_match(self@, *addr),
            r is None <==> forall|c: nat| !#[trigger] matches_at(self@, *addr, c),
    {
        let mut best: Option<(u8, V)> = None;
        let mut i: usize = 0;
        while i < self.entries.len()
            invariant
                self.wf(),
                i <= self.entries@.len(),
                best is None ==> forall|k: int| 0 <= k < i ==> !in_network(
                    #[trigger] self.entries@[k].0,
                    *addr,
                ),
                best matches Some(b) ==> {
                    &&& exists|k: int|
                        0 <= k < i && in_network(#[trigger] self.entries@[k].0, *addr)
                            && self.entries@[k].0.cidr == b.0 && self.entries@[k].1 == b.1
                    &&& forall|k: int|
                        0 <= k < i && in_network(#[trigger] self.entries@[k].0, *addr) ==> self.entries@[k].0.cidr
                            <= b.0
                },
            decreases self.entries.len() - i,
        {
            let net = self.entries[i].0;
            if contains_ip(&net, addr) {
                let better = match best {
                    None => true,
                    Some(b) => net.cidr > b.0,
                };
                if better {
                    best = Some((net.cidr, self.entries[i].1));
                }
            }
            i = i + 1;
        }
        proof {
            // The prefix lengths at which the view holds `addr` are those of
            // the entries holding it.
            assert forall|c: nat| #[trigger] matches_at(self@, *addr, c) implies exists|k: int|
                0 <= k < self.entries@.len() && in_network(#[trigger] self.entries@[k].0, *addr)
                    && self.entries@[k].0.cidr == c by {
                let k = choose|k: int| self.key_index(k, prefix_key(*addr, c));
                assert(valid_net(self.entries@[k].0));
                lemma_in_network_key(self.entries@[k].0, *addr);
            }
        }
        match best {
            None => {
                proof {
                    assert forall|c: nat| !#[trigger] matches_at(self@, *addr, c) by {
                        if matches_at(self@, *addr, c) {
                            let k = choose|k: int|
                                0 <= k < self.entries@.len() && in_network(
                                    #[trigger] self.entries@[k].0,
                                    *addr,
                                ) && self.entries@[k].0.cidr == c;
                        }
                    }
                    assert(!exists|c: nat| is_longest(self@, *addr, c));
                }
                None
            },
            Some(b) => {
                proof {
                    let k = choose|k: int|
                        0 <= k < self.entries@.len() && in_network(
                            #[trigger] self.entries@[k].0,
                            *addr,
                        ) && self.entries@[k].0.cidr == b.0 && self.entries@[k].1 == b.1;
                    assert(valid_net(self.entries@[k].0));
                    lemma_in_network_key(self.entries@[k].0, *addr);
                    self.lemma_view_at(k);
                    let c = b.0 as nat;
                    assert(matches_at(self@, *addr, c));
                    assert forall|d: nat| d > c implies !#[trigger] matches_at(self@, *addr, d) by {
                        if matches_at(self@, *addr, d) {
                            let k2 = choose|k2: int|
                                0 <= k2 < self.entries@.len() && in_network(
                                    #[trigger] self.entries@[k2].0,
                                    *addr,
                                ) && self.entries@[k2].0.cidr == d;
                        }
                    }
                    assert(is_longest(self@, *addr, c));
                    let c2 = choose|c2: nat| is_longest(self@, *addr, c2);
                    assert(c2 == c) by {
                        if c2 > c {
                            assert(!matches_at(self@, *addr, c2));
                        }
                        if c2 < c {
                            assert(!matches_at(self@, *addr, c));
                        }
                    }
                }
                Some(b.1)
            },
        }
    }

    /// The networks of the table, in the order they were added.
    pub fn nets(&self) -> (r: Vec<AllowedIP>)
        ensures
            r@.len() == self.entries@.len(),
            forall|i: int| 0 <= i < r@.len() ==> #[trigger] r@[i] == self.entries@[i].0,
    {
        let mut r: Vec<AllowedIP> = Vec::new();
        let mut i: usize = 0;
        while i < self.entries.len()
            invariant
                i <= self.entries@.len(),
                r@.len() == i,
                forall|k: int| 0 <= k < i ==> #[trigger] r@[k] == self.entries@[k].0,
            decreases self.entries.len() - i,
        {
            r.push(self.entries[i].0);
            i = i + 1;
        }
        r
    }
}

/// The table `m` without the networks whose value is `v`.
pub open spec fn without_value(m: Map<NetKey, u32>, v: u32) -> Map<NetKey, u32> {
    Map::new(|k: NetKey| m.dom().contains(k) && m[k] != v, |k: NetKey| m[k])
}

impl AllowedIps<u32> {
    /// Removes every network whose value is `v`.
    pub fn remove_value(&mut self, v: u32)
        requires
            old(self).wf(),
        ensures
            final(self).wf(),
            final(self)@ == without_value(old(self)@, v),
    {
        let ghost old_t = *self;
        let mut kept: Vec<(AllowedIP, u32)> = Vec::new();
        let ghost mut idx: Seq<int> = Seq::empty();
        let mut i: usize = 0;
        while i < self.entries.len()
            invariant
                *self == old_t,
                old_t.wf(),
                i <= self.entries@.len(),
                kept@.len() == idx.len(),
                forall|p: int, q: int| 0 <= p < q < idx.len() ==> idx[p] < idx[q],
                forall|p: int|
                    0 <= p < idx.len() ==> 0 <= #[trigger] idx[p] < i && kept@[p] == old_t.entries@[idx[p]]
                        && old_t.entries@[idx[p]].1 != v,
                forall|k: int|
                    0 <= k < i && old_t.entries@[k].1 != v ==> exists|p: int|
                        0 <= p < idx.len() && #[trigger] idx[p] == k,
            decreases self.entries.len() - i,
        {
            let e = self.entries[i];
            if e.1 != v {
                kept.push(e);
                proof {
                    let ghost old_idx = idx;
                    idx = idx.push(i as int);
                    assert forall|k: int|
                        0 <= k < i + 1 && old_t.entries@[k].1 != v implies exists|p: int|
                        0 <= p < idx.len() && #[trigger] idx[p] == k by {
                        if k == i {
                            assert(idx[idx.len() - 1] == k);
                        } else {
                            let p = choose|p: int| 0 <= p < old_idx.len() && #[trigger] old_idx[p] == k;
                            assert(idx[p] == k);
                        }
                    }
                }
            }
            i = i + 1;
        }
        self.entries = kept;
        proof {
            assert forall|a: int, b: int|
                0 <= a < b < self.entries@.len() implies #[trigger] self.key_at(a)
                != #[trigger] self.key_at(b) by {
                assert(idx[a] < idx[b]);
                assert(old_t.key_at(idx[a]) != old_t.key_at(idx[b]));
            }
            assert forall|a: int| 0 <= a < self.entries@.len() implies valid_net(
                #[trigger] self.entries@[a].0,
            ) by {
                assert(0 <= idx[a] < old_t.entries@.len());
                assert(valid_net(old_t.entries@[idx[a]].0));
            }
            let target = without_value(old_t@, v);
            assert forall|k: NetKey| #[trigger] self.has_key(k) == target.dom().contains(k) by {
                if self.has_key(k) {
                    let a = choose|a: int| self.key_index(a, k);
                    assert(0 <= idx[a] < old_t.entries@.len());
                    old_t.lemma_view_at(idx[a]);
                }
                if target.dom().contains(k) {
                    let b = choose|b: int| old_t.key_index(b, k);
                    old_t.lemma_view_at(b);
                    let p = choose|p: int| 0 <= p < idx.len() && #[trigger] idx[p] == b;
                    assert(self.key_index(p, k));
                }
            }
            assert forall|k: NetKey| #[trigger] self.has_key(k) implies self@[k] == target[k] by {
                let a = choose|a: int| self.key_index(a, k);
                self.lemma_view_at(a);
                assert(0 <= idx[a] < old_t.entries@.len());
                old_t.lemma_view_at(idx[a]);
            }
            assert(self@ =~= target);
        }
    }
}

/// The longest prefix is unique.
pub proof fn lemma_longest_unique<V>(m: Map<NetKey, V>, addr: IpAddr, c: nat)
    requires
        is_longest(m, addr, c),
    ensures
        longest_match(m, addr) == Some(m[prefix_key(addr, c)]),
{
    let c2 = choose|c2: nat| is_longest(m, addr, c2);
    assert(c2 == c) by {
        if c2 > c {
            assert(!matches_at(m, addr, c2));
        }
        if c2 < c {
            assert(!matches_at(m, addr, c));
        }
    }
}

/// Law: once a network is given a value, an address in that network is
/// answered with that value, unless a more specific network of the table
/// holds the address.
pub proof fn law_insert_then_find<V>(m: Map<NetKey, V>, net: AllowedIP, v: V, addr: IpAddr)
    requires
        valid_net(net),
        in_network(net, addr),
        forall|d: nat| d > net.cidr ==> !#[trigger] matches_at(m, addr, d),
    ensures
        longest_match(m.insert(net_key(net), v), addr) == Some(v),
{
    lemma_in_network_key(net, addr);
    let m2 = m.insert(net_key(net), v);
    let c = net.cidr as nat;
    assert(matches_at(m2, addr, c));
    assert forall|d: nat| d > c implies !#[trigger] matches_at(m2, addr, d) by {
        assert(prefix_key(addr, d) != net_key(net));
        assert(!matches_at(m, addr, d));
    }
    lemma_longest_unique(m2, addr, c);
}

/// Law: once the networks of a value are removed, no address is answered
/// with that value.
pub proof fn law_removed_value_not_found(m: Map<NetKey, u32>, v: u32, addr: IpAddr)
    ensures
        longest_match(without_value(m, v), addr) != Some(v),
{
}

/// Whether two networks are one: same family, same prefix length, same
/// prefix bits.
fn same_net(a: &AllowedIP, b: &AllowedIP) -> (r: bool)
    requires
        valid_net(*a),
        valid_net(*b),
    ensures
        r == (net_key(*a) == net_key(*b)),
{
    if a.cidr != b.cidr || a.addr.is_ipv4() != b.addr.is_ipv4() {
        return false;
    }
    let r = contains_ip(a, &b.addr);
    proof {
        lemma_in_network_key(*a, b.addr);
    }
    r
}

} // verus!
