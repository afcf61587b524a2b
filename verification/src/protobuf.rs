//! The messages exchanged with the control server, as plain values: the
//! WireGuard configuration of a node, its peers, and the changes to them.

use vstd::prelude::*;

verus! {

/// Equal strings, compared by content.
pub fn string_eq(a: &String, b: &String) -> (r: bool)
    ensures
        r == (a@ == b@),
{
    *a == *b
}

/// Equal optional strings, compared by content.
pub fn opt_string_eq(a: &Option<String>, b: &Option<String>) -> (r: bool)
    ensures
        r == (a.deep_view() == b.deep_view()),
{
    match (a, b) {
        (Some(x), Some(y)) => *x == *y,
        (None, None) => true,
        _ => false,
    }
}

/// Equal lists of strings, compared by content.
pub fn strings_eq(a: &Vec<String>, b: &Vec<String>) -> (r: bool)
    ensures
        r == (a.deep_view() == b.deep_view()),
{
    if a.len() != b.len() {
        proof {
            assert(a.deep_view().len() != b.deep_view().len());
        }
        return false;
    }
    let mut i: usize = 0;
    while i < a.len()
        invariant
            i <= a.len() == b.len(),
            forall|k: int| 0 <= k < i ==> a@[k]@ == b@[k]@,
        decreases a.len() - i,
    {
        if a[i] != b[i] {
            proof {
                assert(a.deep_view()[i as int] != b.deep_view()[i as int]);
            }
            return false;
        }
        i = i + 1;
    }
    proof {
        assert(a.deep_view() =~= b.deep_view());
    }
    true
}

/// A copy of each string of the list.
pub fn clone_strings(a: &Vec<String>) -> (r: Vec<String>)
    ensures
        r.deep_view() == a.deep_view(),
{
    let mut r: Vec<String> = Vec::new();
    let mut i: usize = 0;
    while i < a.len()
        invariant
            i <= a.len(),
            r@.len() == i,
            forall|k: int| 0 <= k < i ==> r@[k]@ == a@[k]@,
        decreases a.len() - i,
    {
        r.push(a[i].clone());
        i = i + 1;
    }
    proof {
        assert(r.deep_view() =~= a.deep_view());
    }
    r
}

/// A copy of an optional string.
pub fn clone_opt_string(a: &Option<String>) -> (r: Option<String>)
    ensures
        r.deep_view() == a.deep_view(),
{
    match a {
        Some(x) => Some(x.clone()),
        None => None,
    }
}

/// The network interface a node brings up.
pub struct Interface {
    pub name: Option<String>,
    pub address: Vec<String>,
    pub listen_port: i32,
    pub dns: Vec<String>,
    pub mtu: Option<u32>,
    pub pre_up: Option<String>,
    pub post_up: Option<String>,
    pub pre_down: Option<String>,
    pub post_down: Option<String>,
    pub protocol: i32,
}

pub type InterfaceView = (
    Option<Seq<char>>,
    Seq<Seq<char>>,
    i32,
    Seq<Seq<char>>,
    Option<u32>,
    (Option<Seq<char>>, Option<Seq<char>>, Option<Seq<char>>, Option<Seq<char>>),
    i32,
);

impl DeepView for Interface {
    type V = InterfaceView;

    open spec fn deep_view(&self) -> InterfaceView {
        (
            self.name.deep_view(),
            self.address.deep_view(),
            self.listen_port,
            self.dns.deep_view(),
            self.mtu,
            (
                self.pre_up.deep_view(),
                self.post_up.deep_view(),
                self.pre_down.deep_view(),
                self.post_down.deep_view(),
            ),
            self.protocol,
        )
    }
}

impl Interface {
    /// A copy with the same content.
    pub fn duplicate(&self) -> (r: Interface)
        ensures
            r.deep_view() == self.deep_view(),
    {
        Interface {
            name: clone_opt_string(&self.name),
            address: clone_strings(&self.address),
            listen_port: self.listen_port,
            dns: clone_strings(&self.dns),
            mtu: self.mtu,
            pre_up: clone_opt_string(&self.pre_up),
            post_up: clone_opt_string(&self.post_up),
            pre_down: clone_opt_string(&self.pre_down),
            post_down: clone_opt_string(&self.post_down),
            protocol: self.protocol,
        }
    }

    /// Same content.
    pub fn same(&self, other: &Interface) -> (r: bool)
        ensures
            r == (self.deep_view() == other.deep_view()),
    {
        opt_string_eq(&self.name, &other.name) && strings_eq(&self.address, &other.address)
            && self.listen_port == other.listen_port && strings_eq(&self.dns, &other.dns)
            && self.mtu == other.mtu && opt_string_eq(&self.pre_up, &other.pre_up)
            && opt_string_eq(&self.post_up, &other.post_up) && opt_string_eq(
            &self.pre_down,
            &other.pre_down,
        ) && opt_string_eq(&self.post_down, &other.post_down) && self.protocol
            == other.protocol
    }
}

/// A peer of the network, as the server describes it.
pub struct Peer {
    pub endpoint: Option<String>,
    pub allowed_ip: Vec<String>,
    pub public_key: String,
    pub persistence_keep_alive: u32,
    pub address: Vec<String>,
}

pub type PeerView = (Option<Seq<char>>, Seq<Seq<char>>, Seq<char>, u32, Seq<Seq<char>>);

impl DeepView for Peer {
    type V = PeerView;

    open spec fn deep_view(&self) -> PeerView {
        (
            self.endpoint.deep_view(),
            self.allowed_ip.deep_view(),
            self.public_key@,
            self.persistence_keep_alive,
            self.address.deep_view(),
        )
    }
}

impl Peer {
    /// A copy with the same content.
    pub fn duplicate(&self) -> (r: Peer)
        ensures
            r.deep_view() == self.deep_view(),
    {
        Peer {
            endpoint: clone_opt_string(&self.endpoint),
            allowed_ip: clone_strings(&self.allowed_ip),
            public_key: self.public_key.clone(),
            persistence_keep_alive: self.persistence_keep_alive,
            address: clone_strings(&self.address),
        }
    }

    /// Same content.
    pub fn same(&self, other: &Peer) -> (r: bool)
        ensures
            r == (self.deep_view() == other.deep_view()),
    {
        opt_string_eq(&self.endpoint, &other.endpoint) && strings_eq(
            &self.allowed_ip,
            &other.allowed_ip,
        ) && string_eq(&self.public_key, &other.public_key) && self.persistence_keep_alive
            == other.persistence_keep_alive && strings_eq(&self.address, &other.address)
    }
}

/// Same peers, in the same order.
pub fn peers_same(a: &Vec<Peer>, b: &Vec<Peer>) -> (r: bool)
    ensures
        r == (a.deep_view() == b.deep_view()),
{
    if a.len() != b.len() {
        proof {
            assert(a.deep_view().len() != b.deep_view().len());
        }
        return false;
    }
    let mut i: usize = 0;
    while i < a.len()
        invariant
            i <= a.len() == b.len(),
            forall|k: int| 0 <= k < i ==> a@[k].deep_view() == b@[k].deep_view(),
        decreases a.len() - i,
    {
        if !a[i].same(&b[i]) {
            proof {
                assert(a.deep_view()[i as int] != b.deep_view()[i as int]);
            }
            return false;
        }
        i = i + 1;
    }
    proof {
        assert(a.deep_view() =~= b.deep_view());
    }
    true
}

/// A copy of each peer of the list.
pub fn duplicate_peers(a: &Vec<Peer>) -> (r: Vec<Peer>)
    ensures
        r.deep_view() == a.deep_view(),
{
    let mut r: Vec<Peer> = Vec::new();
    let mut i: usize = 0;
    while i < a.len()
        invariant
            i <= a.len(),
            r@.len() == i,
            forall|k: int| 0 <= k < i ==> r@[k].deep_view() == a@[k].deep_view(),
        decreases a.len() - i,
    {
        r.push(a[i].duplicate());
        i = i + 1;
    }
    proof {
        assert(r.deep_view() =~= a.deep_view());
    }
    r
}

/// A change to the peers of a network.
pub struct PeerChange {
    pub add_peer: Option<Peer>,
    pub remove_public_key: Option<String>,
    pub change_peer: Option<Peer>,
}

pub type PeerChangeView = (Option<PeerView>, Option<Seq<char>>, Option<PeerView>);

impl DeepView for PeerChange {
    type V = PeerChangeView;

    open spec fn deep_view(&self) -> PeerChangeView {
        (self.add_peer.deep_view(), self.remove_public_key.deep_view(), self.change_peer.deep_view())
    }
}

/// The WireGuard configuration of a node: its interface, its peers and the
/// kind of node (`type` in the message).
pub struct WrConfig {
    pub interface: Option<Interface>,
    pub peers: Vec<Peer>,
    pub type_: i32,
}

pub type WrConfigView = (Option<InterfaceView>, Seq<PeerView>, i32);

impl DeepView for WrConfig {
    type V = WrConfigView;

    open spec fn deep_view(&self) -> WrConfigView {
        (self.interface.deep_view(), self.peers.deep_view(), self.type_)
    }
}

impl WrConfig {
    /// A copy with the same content.
    pub fn duplicate(&self) -> (r: WrConfig)
        ensures
            r.deep_view() == self.deep_view(),
    {
        WrConfig {
            interface: match &self.interface {
                Some(i) => Some(i.duplicate()),
                None => None,
            },
            peers: duplicate_peers(&self.peers),
            type_: self.type_,
        }
    }

    /// Same content.
    pub fn same(&self, other: &WrConfig) -> (r: bool)
        ensures
            r == (self.deep_view() == other.deep_view()),
    {
        let same_interface = match (&self.interface, &other.interface) {
            (Some(a), Some(b)) => a.same(b),
            (None, None) => true,
            _ => false,
        };
        same_interface && peers_same(&self.peers, &other.peers) && self.type_ == other.type_
    }
}

/// The kind of a node.
#[derive(PartialEq, Eq, Structural, Clone, Copy, Debug)]
pub enum NodeType {
    NodeClient,
    NodeRelay,
}

impl NodeType {
    /// The node type with the given wire number, if there is one.
    pub fn from_i32(v: i32) -> (r: Option<NodeType>)
        ensures
            v == 0 ==> r == Some(NodeType::NodeClient),
            v == 1 ==> r == Some(NodeType::NodeRelay),
            v != 0 && v != 1 ==> r is None,
    {
        if v == 0 {
            Some(NodeType::NodeClient)
        } else if v == 1 {
            Some(NodeType::NodeRelay)
        } else {
            None
        }
    }
}

/// The state of a node as the server sees it.
#[derive(PartialEq, Eq, Structural, Clone, Copy, Debug)]
pub enum NodeStatus {
    NodeWaiting,
    NodeNormal,
    NodeForbid,
}

impl NodeStatus {
    /// The node status with the given wire number, if there is one.
    pub fn from_i32(v: i32) -> (r: Option<NodeStatus>)
        ensures
            v == 0 ==> r == Some(NodeStatus::NodeWaiting),
            v == 1 ==> r == Some(NodeStatus::NodeNormal),
            v == 2 ==> r == Some(NodeStatus::NodeForbid),
            !(0 <= v <= 2) ==> r is None,
    {
        if v == 0 {
            Some(NodeStatus::NodeWaiting)
        } else if v == 1 {
            Some(NodeStatus::NodeNormal)
        } else if v == 2 {
            Some(NodeStatus::NodeForbid)
        } else {
            None
        }
    }
}

/// The state of a network as the server sees it.
#[derive(PartialEq, Eq, Structural, Clone, Copy, Debug)]
pub enum NetworkStatus {
    NetworkNormal,
    NetworkDelete,
}

/// What the server tells one node.
pub enum ClientInfo {
    Config(WrConfig),
    Status(i32),
}

/// A message on the node's own topic.
pub struct ClientMessage {
    pub network_id: String,
    pub info: Option<ClientInfo>,
}

/// What the server tells every node of a network. The status is carried
/// decoded: `None` where the number names no status this library knows.
pub enum NetworkInfo {
    Peer(PeerChange),
    Status(Option<NetworkStatus>),
}

/// A message on a network's topic.
pub struct NetworkMessage {
    pub network_id: String,
    pub info: Option<NetworkInfo>,
}

/// The signed part of a request to the control server.
pub struct EncryptRequest {
    pub public_key: String,
    pub timestamp: u64,
    pub nonce: String,
    pub signature: String,
}

} // verus!
