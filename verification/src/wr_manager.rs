//! The WireGuard manager's bookkeeping: which network runs on which tunnel,
//! and the settings a device is brought up with.

use vstd::prelude::*;
use crate::config::{LocalConfig, NetworkInfo, ServerConfig};
use crate::protobuf::{Interface, NodeType, string_eq};
use crate::net::IpAddr;
use crate::device::{lfsr_index, lfsr_step};
use crate::device::allowed_ips::valid_net;
use crate::device::peer::{AllowedIP, SocketAddr};
use crate::client_manager::{first_invalid, valid_addresses};
use crate::device::peers::{DeviceData, new_peer_is, peer_added, peer_removed, settings_kept};
use crate::device::script_run::opt_view;

verus! {

/// One network as the list command reports it.
pub struct DeviceInfoResp {
    pub name: String,
}

/// The networks of a saved configuration, with the tunnel of each.
pub open spec fn network_infos(config: &ServerConfig) -> Seq<(Seq<char>, Option<Seq<char>>)> {
    config.info@.map_values(|n: NetworkInfo| (n.network_id@, n.tun_name.deep_view()))
}

/// Index of the first entry for `network_id`.
pub open spec fn first_network(infos: Seq<(Seq<char>, Option<Seq<char>>)>, network_id: Seq<char>) -> int {
    choose|i: int|
        0 <= i < infos.len() && infos[i].0 == network_id && forall|j: int|
            0 <= j < i ==> #[trigger] infos[j].0 != network_id
}

pub open spec fn has_network(infos: Seq<(Seq<char>, Option<Seq<char>>)>, network_id: Seq<char>) -> bool {
    exists|i: int| 0 <= i < infos.len() && #[trigger] infos[i].0 == network_id
}

/// Records that `network_id` runs on the tunnel `tun_name` (what starting a
/// device does to the saved configuration): the first entry of the network
/// gets the name, or a new entry is added. The result says whether anything
/// changed, that is whether the configuration must be saved.
pub fn record_tun_name(config: &mut ServerConfig, network_id: &String, tun_name: &String) -> (need_save: bool)
    ensures
        final(config).server_url == old(config).server_url,
        final(config).device_id == old(config).device_id,
        final(config).mqtt_url == old(config).mqtt_url,
        has_network(network_infos(old(config)), network_id@) ==> {
            let i = first_network(network_infos(old(config)), network_id@);
            &&& network_infos(final(config)) == network_infos(old(config)).update(
                i,
                (network_id@, Some(tun_name@)),
            )
            &&& need_save == (network_infos(old(config))[i].1 != Some(tun_name@))
        },
        !has_network(network_infos(old(config)), network_id@) ==> {
            &&& network_infos(final(config)) == network_infos(old(config)).push(
                (network_id@, Some(tun_name@)),
            )
            &&& need_save
        },
{
    let mut i: usize = 0;
    while i < config.info.len()
        invariant
            i <= config.info@.len(),
            *config == *old(config),
            forall|j: int| 0 <= j < i ==> #[trigger] network_infos(config)[j].0 != network_id@,
        decreases config.info.len() - i,
    {
        if config.info[i].network_id == *network_id {
            let old_name = match &config.info[i].tun_name {
                Some(n) => Some(n.clone()),
                None => None,
            };
            let changed = match &old_name {
                Some(n) => *n != *tun_name,
                None => true,
            };
            let ghost infos = network_infos(config);
            let entry = NetworkInfo { network_id: network_id.clone(), tun_name: Some(tun_name.clone()) };
            config.info.set(i, entry);
            proof {
                let f = first_network(infos, network_id@);
                assert(infos[i as int].0 == network_id@);
                assert(f == i as int) by {
                    if f < i {
                        assert(infos[f].0 != network_id@);
                    }
                    if f > i {
                        assert(infos[i as int].0 != network_id@);
                    }
                }
                assert(network_infos(config) =~= infos.update(i as int, (network_id@, Some(tun_name@))));
            }
            return changed;
        }
        i = i + 1;
    }
    let ghost infos = network_infos(config);
    config.info.push(NetworkInfo { network_id: network_id.clone(), tun_name: Some(tun_name.clone()) });
    proof {
        assert(network_infos(config) =~= infos.push((network_id@, Some(tun_name@))));
    }
    true
}

/// Keeps the entries of networks other than `network_id`.
pub open spec fn entry_other_than(network_id: Seq<char>) -> spec_fn((Seq<char>, Option<Seq<char>>)) -> bool {
    |n: (Seq<char>, Option<Seq<char>>)| n.0 != network_id
}

/// Forgets `network_id` in a saved configuration: its entries leave the
/// list (what a deleted network does when the node runs several networks).
pub fn remove_network_info(config: &mut ServerConfig, network_id: &String)
    ensures
        network_infos(final(config)) == network_infos(old(config)).filter(
            entry_other_than(network_id@),
        ),
        final(config).server_url == old(config).server_url,
        final(config).device_id == old(config).device_id,
        final(config).mqtt_url == old(config).mqtt_url,
{
    let ghost p = entry_other_than(network_id@);
    let mut kept: Vec<NetworkInfo> = Vec::new();
    let mut i: usize = 0;
    while i < config.info.len()
        invariant
            i <= config.info@.len(),
            *config == *old(config),
            p == entry_other_than(network_id@),
            kept@.map_values(|n: NetworkInfo| (n.network_id@, n.tun_name.deep_view()))
                == network_infos(config).take(i as int).filter(p),
        decreases config.info.len() - i,
    {
        let ghost before = kept@.map_values(|n: NetworkInfo| (n.network_id@, n.tun_name.deep_view()));
        proof {
            let infos = network_infos(config);
            assert(infos.take(i + 1) =~= infos.take(i as int).push(infos[i as int]));
            infos.take(i as int).lemma_filter_push(infos[i as int], p);
        }
        if config.info[i].network_id != *network_id {
            let n = &config.info[i];
            kept.push(NetworkInfo {
                network_id: n.network_id.clone(),
                tun_name: crate::protobuf::clone_opt_string(&n.tun_name),
            });
            proof {
                assert(kept@.map_values(|n: NetworkInfo| (n.network_id@, n.tun_name.deep_view()))
                    =~= before.push(network_infos(config)[i as int]));
                assert(p(network_infos(config)[i as int]));
            }
        } else {
            proof {
                assert(!p(network_infos(config)[i as int]));
            }
        }
        proof {
            let infos = network_infos(config);
            assert(infos.take(i + 1) == infos.take(i as int).push(infos[i as int]));
        }
        i = i + 1;
    }
    proof {
        assert(network_infos(config).take(config.info@.len() as int) =~= network_infos(config));
    }
    config.info = kept;
}

/// Records the name of the tunnel the device came up with; the result says
/// whether it differs from the saved one, that is whether to save.
pub fn update_tun_name(local: &mut LocalConfig, name: &String) -> (changed: bool)
    ensures
        final(local).tun_name.deep_view() == Some(name@),
        final(local).servers() == old(local).servers(),
        changed == (old(local).tun_name.deep_view() != Some(name@)),
{
    let changed = match &local.tun_name {
        Some(n) => *n != *name,
        None => true,
    };
    if changed {
        local.tun_name = Some(name.clone());
    }
    changed
}

/// The listening port of an interface: its number cut to 16 bits (`as
/// u16`).
pub fn listen_port(interface: &Interface) -> (r: u16)
    ensures
        r as int == interface.listen_port as int % 65536,
{
    let p = interface.listen_port;
    let r = (p as i64 % 65536 + 65536) % 65536;
    proof {
        assert(r == p as int % 65536) by (nonlinear_arith)
            requires r == (p as int % 65536 + 65536) % 65536, -0x8000_0000 <= p <= 0x7fff_ffff;
    }
    r as u16
}

/// The MTU of an interface: 1420 where the server gives none.
pub fn interface_mtu(interface: &Interface) -> (r: u32)
    ensures
        r == match interface.mtu {
            Some(m) => m,
            None => 1420,
        },
{
    match interface.mtu {
        Some(m) => m,
        None => 1420,
    }
}

/// Seconds to wait before a device of this kind is started again.
pub fn restart_wait_secs(node_type: NodeType) -> (r: u64)
    ensures
        node_type == NodeType::NodeRelay ==> r == 10,
        node_type == NodeType::NodeClient ==> r == 20,
{
    if node_type == NodeType::NodeRelay { 10 } else { 20 }
}

/// Only the device at `i` changes; it keeps its network.
pub open spec fn only_device_changed(a: WRManager, b: WRManager, i: int) -> bool {
    &&& b.devices@.len() == a.devices@.len()
    &&& b.devices@[i].0 == a.devices@[i].0
    &&& forall|j: int| 0 <= j < a.devices@.len() && j != i ==> #[trigger] b.devices@[j] == a.devices@[j]
}

/// The devices that run, one per network.
pub struct WRManager {
    pub devices: Vec<(String, DeviceData)>,
}

impl WRManager {
    pub open spec fn id_at(&self, i: int) -> Seq<char> {
        self.devices@[i].0@
    }

    /// Each network has at most one device, and each device is well formed.
    pub open spec fn wf(&self) -> bool {
        &&& forall|i: int, j: int|
            0 <= i < j < self.devices@.len() ==> #[trigger] self.id_at(i) != #[trigger] self.id_at(j)
        &&& forall|i: int| 0 <= i < self.devices@.len() ==> (#[trigger] self.devices@[i]).1.wf()
    }

    /// The position of the device of network `id`.
    pub open spec fn device_pos(&self, id: Seq<char>) -> Option<int> {
        if exists|i: int| 0 <= i < self.devices@.len() && #[trigger] self.id_at(i) == id {
            Some(choose|i: int| 0 <= i < self.devices@.len() && #[trigger] self.id_at(i) == id)
        } else {
            None
        }
    }

    proof fn lemma_device_pos(&self, i: int)
        requires
            self.wf(),
            0 <= i < self.devices@.len(),
        ensures
            self.device_pos(self.id_at(i)) == Some(i),
    {
        let j = choose|j: int| 0 <= j < self.devices@.len() && #[trigger] self.id_at(j) == self.id_at(i);
        if j < i {
            assert(self.id_at(j) != self.id_at(i));
        } else if j > i {
            assert(self.id_at(i) != self.id_at(j));
        }
    }

    /// No device runs.
    pub fn new() -> (r: WRManager)
        ensures
            r.wf(),
            r.devices@.len() == 0,
    {
        WRManager { devices: Vec::new() }
    }

    fn find(&self, network_id: &String) -> (r: Option<usize>)
        requires
            self.wf(),
        ensures
            match r {
                Some(i) => self.device_pos(network_id@) == Some(i as int),
                None => self.device_pos(network_id@) is None,
            },
    {
        let mut i: usize = 0;
        while i < self.devices.len()
            invariant
                self.wf(),
                i <= self.devices@.len(),
                forall|j: int| 0 <= j < i ==> #[trigger] self.id_at(j) != network_id@,
            decreases self.devices.len() - i,
        {
            if string_eq(&self.devices[i].0, network_id) {
                proof {
                    self.lemma_device_pos(i as int);
                }
                return Some(i);
            }
            i = i + 1;
        }
        None
    }

    /// Whether a device runs for the network.
    pub fn is_alive(&self, network_id: &String) -> (r: bool)
        requires
            self.wf(),
        ensures
            r == self.device_pos(network_id@) is Some,
    {
        self.find(network_id).is_some()
    }

    /// Records the device brought up for a network that had none.
    pub fn insert_device(&mut self, network_id: String, device: DeviceData)
        requires
            old(self).wf(),
            old(self).device_pos(network_id@) is None,
            device.wf(),
        ensures
            final(self).wf(),
            final(self).devices@.len() == old(self).devices@.len() + 1,
            final(self).device_pos(network_id@) == Some(old(self).devices@.len() as int),
            forall|j: int| 0 <= j < old(self).devices@.len() ==> #[trigger] final(self).devices@[j] == old(self).devices@[j],
            final(self).devices@ == old(self).devices@.push((network_id, device)),
    {
        let ghost n = self.devices@.len() as int;
        let ghost id = network_id@;
        self.devices.push((network_id, device));
        proof {
            assert forall|a: int, b: int|
                0 <= a < b < self.devices@.len() implies #[trigger] self.id_at(a) != #[trigger] self.id_at(b) by {
                if b == n {
                    if self.id_at(a) == id {
                        assert(old(self).id_at(a) == id);
                    }
                } else {
                    assert(old(self).id_at(a) != old(self).id_at(b));
                }
            }
            assert forall|a: int| 0 <= a < self.devices@.len() implies (#[trigger] self.devices@[a]).1.wf() by {
                if a < n {
                    assert(self.devices@[a] == old(self).devices@[a]);
                }
            }
            self.lemma_device_pos(n);
        }
    }

    /// Takes the device of the network out, to work on it.
    fn take(&mut self, i: usize) -> (r: (String, DeviceData))
        requires
            old(self).wf(),
            i < old(self).devices@.len(),
        ensures
            r == old(self).devices@[i as int],
            final(self).devices@ == old(self).devices@.remove(i as int),
            final(self).wf(),
    {
        let r = self.devices.remove(i);
        proof {
            assert forall|a: int, b: int|
                0 <= a < b < self.devices@.len() implies #[trigger] self.id_at(a) != #[trigger] self.id_at(b) by {
                let a2 = if a < i { a } else { a + 1 };
                let b2 = if b < i { b } else { b + 1 };
                assert(self.id_at(a) == old(self).id_at(a2) && self.id_at(b) == old(self).id_at(b2));
            }
            assert forall|a: int| 0 <= a < self.devices@.len() implies (#[trigger] self.devices@[a]).1.wf() by {
                let a2 = if a < i { a } else { a + 1 };
                assert(self.devices@[a] == old(self).devices@[a2]);
            }
        }
        r
    }

    /// Puts a device back where it was taken from.
    fn put_back(&mut self, i: usize, entry: (String, DeviceData), ghost_before: Ghost<WRManager>)
        requires
            ghost_before@.wf(),
            i < ghost_before@.devices@.len(),
            old(self).devices@ == ghost_before@.devices@.remove(i as int),
            entry.0@ == ghost_before@.devices@[i as int].0@,
            entry.1.wf(),
        ensures
            final(self).wf(),
            final(self).devices@ == ghost_before@.devices@.update(i as int, entry),
    {
        self.devices.insert(i, entry);
        proof {
            let b = ghost_before@;
            assert(self.devices@ =~= b.devices@.update(i as int, entry));
            assert forall|x: int, y: int|
                0 <= x < y < self.devices@.len() implies #[trigger] self.id_at(x) != #[trigger] self.id_at(y) by {
                assert(self.id_at(x) == b.id_at(x) && self.id_at(y) == b.id_at(y));
            }
            assert forall|x: int| 0 <= x < self.devices@.len() implies (#[trigger] self.devices@[x]).1.wf() by {
                if x != i {
                    assert(self.devices@[x] == b.devices@[x]);
                }
            }
        }
    }

    /// Removes the peer with key `pub_key` from the network's device, where
    /// the network has one.
    pub fn remove_peer(&mut self, network_id: &String, pub_key: &[u8; 32])
        requires
            old(self).wf(),
        ensures
            final(self).wf(),
            final(self).devices@.len() == old(self).devices@.len(),
            final(self).device_pos(network_id@) == old(self).device_pos(network_id@),
            match old(self).device_pos(network_id@) {
                Some(i) => {
                    &&& final(self).devices@[i].1.peers.key_pos(*pub_key) is None
                    &&& only_device_changed(*old(self), *final(self), i)
                    &&& peer_removed(old(self).devices@[i].1, final(self).devices@[i].1, *pub_key)
                    &&& settings_kept(old(self).devices@[i].1, final(self).devices@[i].1)
                    &&& final(self).devices@[i].1.next_index == old(self).devices@[i].1.next_index
                },
                None => final(self).devices@ == old(self).devices@,
            },
    {
        match self.find(network_id) {
            Some(i) => {
                let ghost before = *self;
                let (id, mut device) = self.take(i);
                device.remove_peer(pub_key);
                self.put_back(i, (id, device), Ghost(before));
                proof {
                    self.lemma_device_pos(i as int);
                    assert(self.id_at(i as int) == before.id_at(i as int));
                }
            },
            None => {},
        }
    }

    /// Whether `add_peer` may add a peer with key `pub_key` to the network:
    /// where the network has a device, that device may take the peer.
    pub fn can_add_peer(&self, network_id: &String, pub_key: &[u8; 32]) -> (r: bool)
        requires
            self.wf(),
        ensures
            r == match self.device_pos(network_id@) {
                Some(i) => self.devices@[i].1.peers.key_pos(*pub_key) is None && lfsr_step(
                    self.devices@[i].1.next_index.lfsr,
                ) != self.devices@[i].1.next_index.initial,
                None => true,
            },
    {
        match self.find(network_id) {
            Some(i) => {
                proof {
                    assert(self.devices@[i as int].1.wf());
                }
                self.devices[i].1.can_add_peer(pub_key)
            },
            None => true,
        }
    }

    /// Adds a peer to the network's device, where the network has one; the
    /// peer has no preshared key.
    pub fn add_peer(
        &mut self,
        network_id: &String,
        pub_key: [u8; 32],
        endpoint: Option<SocketAddr>,
        allowed_ips: &[AllowedIP],
        ip: IpAddr,
        keepalive: Option<u16>,
    )
        requires
            old(self).wf(),
            old(self).device_pos(network_id@) matches Some(i) ==> old(self).devices@[i].1.peers.key_pos(
                pub_key,
            ) is None && lfsr_step(old(self).devices@[i].1.next_index.lfsr) != old(self).devices@[i].1.next_index.initial,
            forall|k: int| 0 <= k < allowed_ips@.len() ==> valid_net(#[trigger] allowed_ips@[k]),
        ensures
            final(self).wf(),
            final(self).devices@.len() == old(self).devices@.len(),
            final(self).device_pos(network_id@) == old(self).device_pos(network_id@),
            match old(self).device_pos(network_id@) {
                Some(i) => {
                    &&& final(self).devices@[i].1.peers.key_pos(pub_key) == Some(
                        old(self).devices@[i].1.peers.entries@.len() as int,
                    )
                    &&& final(self).devices@[i].1.peers.entries@[old(self).devices@[i].1.peers.entries@.len() as int].peer.preshared_key is None
                },
                None => final(self).devices@ == old(self).devices@,
            },
            old(self).device_pos(network_id@) matches Some(i) ==> {
                let d = old(self).devices@[i].1;
                let e = final(self).devices@[i].1;
                &&& only_device_changed(*old(self), *final(self), i)
                &&& peer_added(d, e, pub_key, allowed_ips@, lfsr_index(d.next_index.lfsr, d.next_index.mask))
                &&& new_peer_is(e, d.peers.entries@.len() as int, pub_key, endpoint, ip)
                &&& settings_kept(d, e)
            },
    {
        match self.find(network_id) {
            Some(i) => {
                let ghost before = *self;
                let (id, mut device) = self.take(i);
                device.update_peer(pub_key, false, endpoint, allowed_ips, keepalive, ip, None);
                self.put_back(i, (id, device), Ghost(before));
                proof {
                    self.lemma_device_pos(i as int);
                    assert(self.id_at(i as int) == before.id_at(i as int));
                }
            },
            None => {},
        }
    }

    /// Stops the network's device: it leaves the manager, and the scripts to
    /// run before its interface goes down and once it is gone are returned
    /// (`None` where the network has no device, or the device no such
    /// script).
    pub fn close(&mut self, network_id: &String) -> (r: (Option<String>, Option<String>))
        requires
            old(self).wf(),
        ensures
            final(self).wf(),
            final(self).device_pos(network_id@) is None,
            match old(self).device_pos(network_id@) {
                Some(i) => final(self).devices@ == old(self).devices@.remove(i) && opt_view(r.0)
                    == opt_view(old(self).devices@[i].1.scripts.pre_down) && opt_view(r.1) == opt_view(
                    old(self).devices@[i].1.scripts.post_down,
                ),
                None => final(self).devices@ == old(self).devices@ && r.0 is None && r.1 is None,
            },
    {
        match self.find(network_id) {
            Some(i) => {
                let ghost before = *self;
                let (_id, device) = self.take(i);
                let scripts = device.shutdown();
                proof {
                    assert forall|j: int| 0 <= j < self.devices@.len() implies #[trigger] self.id_at(j) != network_id@ by {
                        let j2 = if j < i { j } else { j + 1 };
                        assert(self.id_at(j) == before.id_at(j2));
                        if j2 < i {
                            assert(before.id_at(j2) != before.id_at(i as int));
                        } else {
                            assert(before.id_at(i as int) != before.id_at(j2));
                        }
                    }
                }
                scripts
            },
            None => (None, None),
        }
    }

    /// The names of the running devices.
    pub fn device_info(&self) -> (r: Vec<DeviceInfoResp>)
        ensures
            r@.len() == self.devices@.len(),
            forall|i: int| 0 <= i < r@.len() ==> #[trigger] r@[i].name@ == self.devices@[i].1.name@,
    {
        let mut r: Vec<DeviceInfoResp> = Vec::new();
        let mut i: usize = 0;
        while i < self.devices.len()
            invariant
                i <= self.devices@.len(),
                r@.len() == i,
                forall|k: int| 0 <= k < i ==> #[trigger] r@[k].name@ == self.devices@[k].1.name@,
            decreases self.devices.len() - i,
        {
            r.push(DeviceInfoResp { name: self.devices[i].1.name.clone() });
            i = i + 1;
        }
        r
    }
}

/// What stopping a network leaves to do: whether the saved configuration
/// changed (and is to be saved), and the scripts to run before the
/// network's interface goes down and once it is gone.
pub struct StopOutcome {
    pub save: bool,
    pub pre_down: Option<String>,
    pub post_down: Option<String>,
}

/// A request to stop the network `network_id`: where the network was
/// deleted, it is first forgotten in the saved configuration (which is then
/// to be saved); then its device, if one runs, is closed.
pub fn stop_wr(config: &mut ServerConfig, manager: &mut WRManager, network_id: &String, delete_network: bool) -> (r: StopOutcome)
    requires
        old(manager).wf(),
    ensures
        r.save == delete_network,
        delete_network ==> network_infos(final(config)) == network_infos(old(config)).filter(
            entry_other_than(network_id@),
        ) && final(config).server_url == old(config).server_url && final(config).device_id == old(config).device_id
            && final(config).mqtt_url == old(config).mqtt_url,
        !delete_network ==> *final(config) == *old(config),
        final(manager).wf(),
        final(manager).device_pos(network_id@) is None,
        match old(manager).device_pos(network_id@) {
            Some(i) => final(manager).devices@ == old(manager).devices@.remove(i) && opt_view(r.pre_down)
                == opt_view(old(manager).devices@[i].1.scripts.pre_down) && opt_view(r.post_down) == opt_view(
                old(manager).devices@[i].1.scripts.post_down,
            ),
            None => final(manager).devices@ == old(manager).devices@ && r.pre_down is None && r.post_down is None,
        },
{
    if delete_network {
        remove_network_info(config, network_id);
    }
    let (pre_down, post_down) = manager.close(network_id);
    StopOutcome { save: delete_network, pre_down, post_down }
}

/// What bringing a network's device up takes, once its addresses are read:
/// the addresses to give the device; how long to wait first (a device that
/// ran for the network was just stopped, and the network is given time to
/// notice); and the down scripts of that device, to run.
pub struct StartPrep {
    pub addresses: Vec<AllowedIP>,
    pub wait_secs: u64,
    pub pre_down: Option<String>,
    pub post_down: Option<String>,
}

/// The first step of bringing up the device of `network_id` with the
/// interface addresses `parsed` (parsed in order): an address that did not
/// parse ends it with its message and changes nothing; else a device that
/// runs for the network is stopped, and the wait is that of the node type
/// it ran as (`running_node_type`, kept by the caller).
pub fn start_prepare(
    manager: &mut WRManager,
    network_id: &String,
    parsed: Vec<Result<AllowedIP, String>>,
    running_node_type: NodeType,
) -> (r: Result<StartPrep, String>)
    requires
        old(manager).wf(),
    ensures
        final(manager).wf(),
        first_invalid(parsed@) matches Some(i) ==> (parsed@[i] matches Err(m) && r matches Err(e) && e@ == m@)
            && *final(manager) == *old(manager),
        first_invalid(parsed@) is None ==> (r matches Ok(p) && {
            &&& p.addresses@.len() == parsed@.len()
            &&& forall|k: int| 0 <= k < p.addresses@.len() ==> parsed@[k] == Ok::<AllowedIP, String>(#[trigger] p.addresses@[k])
            &&& final(manager).device_pos(network_id@) is None
            &&& match old(manager).device_pos(network_id@) {
                Some(i) => {
                    &&& final(manager).devices@ == old(manager).devices@.remove(i)
                    &&& p.wait_secs == (if running_node_type == NodeType::NodeRelay { 10u64 } else { 20u64 })
                    &&& opt_view(p.pre_down) == opt_view(old(manager).devices@[i].1.scripts.pre_down)
                    &&& opt_view(p.post_down) == opt_view(old(manager).devices@[i].1.scripts.post_down)
                },
                None => final(manager).devices@ == old(manager).devices@ && p.wait_secs == 0 && p.pre_down is None
                    && p.post_down is None,
            }
        }),
{
    let addresses = match valid_addresses(parsed) {
        Ok(v) => v,
        Err(m) => return Err(m),
    };
    if manager.is_alive(network_id) {
        let (pre_down, post_down) = manager.close(network_id);
        Ok(StartPrep { addresses, wait_secs: restart_wait_secs(running_node_type), pre_down, post_down })
    } else {
        Ok(StartPrep { addresses, wait_secs: 0, pre_down: None, post_down: None })
    }
}

/// The last step of bringing up the device of `network_id`, once it is up:
/// its tunnel name is recorded in the saved configuration (the result says
/// whether to save it, see `record_tun_name`) and the device joins the
/// manager. Its peers are then added one by one (see `WRManager::add_peer`).
pub fn start_finish(config: &mut ServerConfig, manager: &mut WRManager, network_id: String, device: DeviceData) -> (need_save: bool)
    requires
        old(manager).wf(),
        old(manager).device_pos(network_id@) is None,
        device.wf(),
    ensures
        final(manager).wf(),
        final(manager).devices@ == old(manager).devices@.push((network_id, device)),
        final(manager).device_pos(network_id@) == Some(old(manager).devices@.len() as int),
        final(config).server_url == old(config).server_url,
        final(config).device_id == old(config).device_id,
        final(config).mqtt_url == old(config).mqtt_url,
        has_network(network_infos(old(config)), network_id@) ==> {
            let i = first_network(network_infos(old(config)), network_id@);
            &&& network_infos(final(config)) == network_infos(old(config)).update(i, (network_id@, Some(device.name@)))
            &&& need_save == (network_infos(old(config))[i].1 != Some(device.name@))
        },
        !has_network(network_infos(old(config)), network_id@) ==> network_infos(final(config)) == network_infos(
            old(config),
        ).push((network_id@, Some(device.name@))) && need_save,
{
    let need_save = record_tun_name(config, &network_id, &device.name);
    manager.insert_device(network_id, device);
    need_save
}

} // verus!
