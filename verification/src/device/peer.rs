//! A peer's addressing: the networks it may send from, where it is reached,
//! and the state of the connections to it.

use vstd::prelude::*;
use vstd::string::*;
use crate::net::{IpAddr, ip_lt, ip_less, lex_lt, bit_of, netmask, is_prefix_mask};
use crate::protobuf::NodeType;
use boringtun::noise::Tunn;
use super::allowed_ips::{AllowedIps, NetKey, net_key, prefix_key, valid_net, matches_at, lemma_in_network_key};
use crate::text::{
    chars_of, decimal_digits, decimal_string, parse_unsigned, parse_unsigned_chars, split_on,
    split_str,
};

verus! {

/// A network a peer may use: an address and the length of its prefix.
#[derive(Clone, Copy, Debug)]
pub struct AllowedIP {
    pub addr: IpAddr,
    pub cidr: u8,
}

/// The two parts of `addr/cidr` text, where there is exactly one slash.
pub open spec fn allowed_ip_parts(text: Seq<char>) -> Option<(Seq<char>, Seq<char>)> {
    let parts = split_on(text, '/');
    if parts.len() == 2 {
        Some((parts[0], parts[1]))
    } else {
        None
    }
}

/// The allowed IP made of a parsed address and the text of its prefix
/// length: an IPv4 prefix is at most 32 bits, an IPv6 one at most 128.
pub open spec fn allowed_ip_from(addr: Option<IpAddr>, cidr_text: Seq<char>) -> Option<AllowedIP> {
    match (addr, parse_unsigned(cidr_text, 255)) {
        (Some(a), Some(c)) => if (a is V4 && c <= 32) || (a is V6 && c <= 128) {
            Some(AllowedIP { addr: a, cidr: c as u8 })
        } else {
            None
        },
        _ => None,
    }
}

/// The message of a text that is not an allowed IP.
pub open spec fn invalid_ip_message() -> Seq<char> {
    "Invalid IP format"@
}

impl AllowedIP {
    /// Cuts `addr/cidr` text in its two parts (`Err` where there is not
    /// exactly one slash); the address part is then parsed as an IP address.
    pub fn split(text: &str) -> (r: Result<(String, String), String>)
        ensures
            match allowed_ip_parts(text@) {
                Some(p) => r matches Ok(q) && q.0@ == p.0 && q.1@ == p.1,
                None => r matches Err(m) && m@ == invalid_ip_message(),
            },
    {
        let parts = split_str(text, '/');
        proof {
            assert(parts@.len() == split_on(text@, '/').len());
        }
        if parts.len() != 2 {
            return Err("Invalid IP format".to_owned());
        }
        proof {
            assert(parts@[0]@ == split_on(text@, '/')[0]);
            assert(parts@[1]@ == split_on(text@, '/')[1]);
        }
        Ok((parts[0].to_owned(), parts[1].to_owned()))
    }

    /// The allowed IP from the parsed address (`None` where the address part
    /// is not one) and the text of the prefix length, once the
    /// text is split at its `/`.
    pub fn from_parsed(addr: Option<IpAddr>, cidr_text: &str) -> (r: Result<AllowedIP, String>)
        ensures
            match allowed_ip_from(addr, cidr_text@) {
                Some(a) => r matches Ok(b) && b == a,
                None => r matches Err(m) && m@ == invalid_ip_message(),
            },
    {
        let cs = chars_of(cidr_text);
        let cidr = parse_unsigned_chars(cs.as_slice(), 255);
        match (addr, cidr) {
            (Some(a), Some(c)) => {
                let ok = match a {
                    IpAddr::V4(_) => c <= 32,
                    IpAddr::V6(_) => c <= 128,
                };
                if ok {
                    Ok(AllowedIP { addr: a, cidr: c as u8 })
                } else {
                    Err("Invalid IP format".to_owned())
                }
            },
            _ => Err("Invalid IP format".to_owned()),
        }
    }

    /// `addr/cidr`, given the displayed text of the address.
    pub fn text(&self, addr_text: &str) -> (r: String)
        ensures
            r@ == addr_text@ + "/"@ + decimal_digits(self.cidr as nat),
    {
        let mut r = addr_text.to_owned();
        r.append("/");
        let c = decimal_string(self.cidr as u64);
        r.append(c.as_str());
        r
    }

    /// The netmask of the prefix (what the Windows tunnel is configured
    /// with).
    pub fn netmask(&self) -> (r: IpAddr)
        requires
            self.addr is V4 ==> self.cidr <= 32,
            self.addr is V6 ==> self.cidr <= 128,
        ensures
            r.spec_is_ipv4() == self.addr.spec_is_ipv4(),
            is_prefix_mask(r.octets_view(), r.octets_view().len(), self.cidr as nat),
    {
        netmask(!self.addr.is_ipv4(), self.cidr)
    }
}

/// Whether `addr` lies in the network `net`: same family, and the first
/// `cidr` bits agree.
pub open spec fn in_network(net: AllowedIP, addr: IpAddr) -> bool {
    &&& net.addr.spec_is_ipv4() == addr.spec_is_ipv4()
    &&& net.cidr as int <= 8 * net.addr.octets_view().len()
    &&& forall|j: int| 0 <= j < net.cidr ==> #[trigger] bit_of(net.addr.octets_view(), j) == bit_of(
        addr.octets_view(),
        j,
    )
}

fn octets_of(a: &IpAddr) -> (r: Vec<u8>)
    ensures
        r@ == a.octets_view(),
{
    let mut r: Vec<u8> = Vec::new();
    match a {
        IpAddr::V4(o) => {
            let mut i: usize = 0;
            while i < 4
                invariant
                    i <= 4,
                    r@ == o@.subrange(0, i as int),
                decreases 4 - i,
            {
                r.push(o[i]);
                i = i + 1;
                proof {
                    assert(r@ =~= o@.subrange(0, i as int));
                }
            }
            proof {
                assert(r@ =~= o@);
            }
        },
        IpAddr::V6(o) => {
            let mut i: usize = 0;
            while i < 16
                invariant
                    i <= 16,
                    r@ == o@.subrange(0, i as int),
                decreases 16 - i,
            {
                r.push(o[i]);
                i = i + 1;
                proof {
                    assert(r@ =~= o@.subrange(0, i as int));
                }
            }
            proof {
                assert(r@ =~= o@);
            }
        },
    }
    r
}

fn bit_at(octets: &Vec<u8>, j: usize) -> (r: bool)
    requires
        j < 8 * octets@.len(),
    ensures
        r == bit_of(octets@, j as int),
{
    let b = octets[j / 8];
    let t = (j % 8) as u8;
    (b >> (7 - t)) & 1 == 1
}

/// Whether `addr` lies in the network `net`.
pub fn contains_ip(net: &AllowedIP, addr: &IpAddr) -> (r: bool)
    ensures
        r == in_network(*net, *addr),
{
    if net.addr.is_ipv4() != addr.is_ipv4() {
        return false;
    }
    let a = octets_of(&net.addr);
    let b = octets_of(addr);
    if net.cidr as usize > 8 * a.len() {
        return false;
    }
    let mut j: usize = 0;
    while j < net.cidr as usize
        invariant
            a@ == net.addr.octets_view(),
            b@ == addr.octets_view(),
            a@.len() == b@.len(),
            net.cidr <= 8 * a@.len(),
            j <= net.cidr,
            forall|k: int| 0 <= k < j ==> #[trigger] bit_of(a@, k) == bit_of(b@, k),
        decreases net.cidr as usize - j,
    {
        if bit_at(&a, j) != bit_at(&b, j) {
            return false;
        }
        j = j + 1;
    }
    true
}

/// A socket address: an IP address, a port, and for IPv6 the flow label
/// and scope.
#[derive(Clone, Copy, Debug)]
pub struct SocketAddr {
    pub ip: IpAddr,
    pub port: u16,
    pub flowinfo: u32,
    pub scope_id: u32,
}

fn same_octets(a: &IpAddr, b: &IpAddr) -> (r: bool)
    ensures
        r == (a.spec_is_ipv4() == b.spec_is_ipv4() && a.octets_view() == b.octets_view()),
{
    if a.is_ipv4() != b.is_ipv4() {
        return false;
    }
    let x = octets_of(a);
    let y = octets_of(b);
    let mut i: usize = 0;
    while i < x.len()
        invariant
            x@ == a.octets_view(),
            y@ == b.octets_view(),
            x@.len() == y@.len(),
            i <= x@.len(),
            forall|k: int| 0 <= k < i ==> x@[k] == y@[k],
        decreases x.len() - i,
    {
        if x[i] != y[i] {
            return false;
        }
        i = i + 1;
    }
    proof {
        assert(x@ =~= y@);
    }
    true
}

/// The content of a socket address.
pub open spec fn socket_view(a: SocketAddr) -> (bool, Seq<u8>, u16, u32, u32) {
    (a.ip.spec_is_ipv4(), a.ip.octets_view(), a.port, a.flowinfo, a.scope_id)
}

/// Whether two socket addresses are equal.
pub fn same_socket(a: &SocketAddr, b: &SocketAddr) -> (r: bool)
    ensures
        r == (socket_view(*a) == socket_view(*b)),
{
    same_octets(&a.ip, &b.ip) && a.port == b.port && a.flowinfo == b.flowinfo && a.scope_id
        == b.scope_id
}

/// The state of the TCP connection to a peer.
#[derive(Clone, Copy, Debug)]
pub enum TcpConnection {
    Nothing,
    /// Dialing, since the given time.
    Connecting(u64),
    Connected,
    ConnectedFailure,
}

/// Where a peer is reached, and the connections open to it.
pub struct Endpoint {
    pub addr: Option<SocketAddr>,
    pub udp_open: bool,
    pub tcp_conn: TcpConnection,
}

pub open spec fn addr_view(a: Option<SocketAddr>) -> Option<(bool, Seq<u8>, u16, u32, u32)> {
    match a {
        Some(s) => Some(socket_view(s)),
        None => None,
    }
}

impl Endpoint {
    /// An endpoint at `addr` with nothing open.
    pub fn new(addr: Option<SocketAddr>) -> (r: Endpoint)
        ensures
            addr_view(r.addr) == addr_view(addr),
            !r.udp_open,
            r.tcp_conn is Nothing,
    {
        Endpoint { addr, udp_open: false, tcp_conn: TcpConnection::Nothing }
    }

    /// Closes what is open to the peer; its address stays.
    pub fn shutdown(&mut self)
        ensures
            addr_view(final(self).addr) == addr_view(old(self).addr),
            !final(self).udp_open,
            final(self).tcp_conn is Nothing,
    {
        self.udp_open = false;
        self.tcp_conn = TcpConnection::Nothing;
    }

    /// The peer is now reached at `addr`: when that is a new address, what
    /// was open to the old one is closed.
    pub fn set_endpoint(&mut self, addr: SocketAddr)
        ensures
            addr_view(final(self).addr) == Some(socket_view(addr)),
            addr_view(old(self).addr) == Some(socket_view(addr)) ==> final(self).udp_open
                == old(self).udp_open && final(self).tcp_conn == old(self).tcp_conn,
            addr_view(old(self).addr) != Some(socket_view(addr)) ==> !final(self).udp_open
                && final(self).tcp_conn is Nothing,
    {
        let same = match &self.addr {
            Some(a) => same_socket(a, &addr),
            None => false,
        };
        if !same {
            self.shutdown();
            self.addr = Some(addr);
        }
    }
}

/// Whether this node dials a peer over TCP: a client always does; between
/// relays, the one with the lower address dials.
pub open spec fn dials(node_type: NodeType, own_ip: IpAddr, peer_ip: IpAddr) -> bool {
    node_type == NodeType::NodeClient || ip_lt(own_ip, peer_ip)
}

/// Law: a client dials each of its peers itself, whatever the order of the
/// two addresses (a relay never dials a client, so a client that waited
/// would never be connected).
pub proof fn law_client_always_dials(own_ip: IpAddr, peer_ip: IpAddr)
    ensures
        dials(NodeType::NodeClient, own_ip, peer_ip),
        dials(NodeType::NodeClient, peer_ip, own_ip),
{
}

/// What the TCP timer does for one peer.
#[derive(Clone, Copy, Debug)]
pub enum TcpTimerAction {
    /// Nothing this round.
    Skip,
    /// Dial the peer's address.
    Dial(SocketAddr),
    /// The connection is up: run the tunnel's timers over it.
    RunTimers,
}

/// One round of the TCP timer for a peer: dial where nothing is open and
/// this node is the one to dial, wait while dialing, run the timers once
/// connected.
pub fn tcp_timer_step(
    endpoint: &mut Endpoint,
    node_type: NodeType,
    own_ip: &IpAddr,
    peer_ip: &IpAddr,
    now: u64,
) -> (r: TcpTimerAction)
    ensures
        addr_view(final(endpoint).addr) == addr_view(old(endpoint).addr),
        final(endpoint).udp_open == old(endpoint).udp_open,
        old(endpoint).addr is None ==> r is Skip && final(endpoint).tcp_conn == old(endpoint).tcp_conn,
        old(endpoint).addr matches Some(a) ==> match old(endpoint).tcp_conn {
            TcpConnection::Nothing | TcpConnection::ConnectedFailure => if dials(
                node_type,
                *own_ip,
                *peer_ip,
            ) {
                r matches TcpTimerAction::Dial(d) && socket_view(d) == socket_view(a)
                    && final(endpoint).tcp_conn == TcpConnection::Connecting(now)
            } else {
                r is Skip && final(endpoint).tcp_conn == old(endpoint).tcp_conn
            },
            TcpConnection::Connecting(_) => r is Skip && final(endpoint).tcp_conn == old(
                endpoint,
            ).tcp_conn,
            TcpConnection::Connected => r is RunTimers && final(endpoint).tcp_conn == old(
                endpoint,
            ).tcp_conn,
        },
{
    let addr = match endpoint.addr {
        Some(a) => a,
        None => return TcpTimerAction::Skip,
    };
    match endpoint.tcp_conn {
        TcpConnection::Nothing | TcpConnection::ConnectedFailure => {
            if node_type == NodeType::NodeClient || ip_less(own_ip, peer_ip) {
                endpoint.tcp_conn = TcpConnection::Connecting(now);
                TcpTimerAction::Dial(addr)
            } else {
                TcpTimerAction::Skip
            }
        },
        TcpConnection::Connecting(_) => TcpTimerAction::Skip,
        TcpConnection::Connected => TcpTimerAction::RunTimers,
    }
}

proof fn lemma_lex_lt_total(a: Seq<u8>, b: Seq<u8>)
    requires
        a.len() == b.len(),
    ensures
        a != b ==> (lex_lt(a, b) != lex_lt(b, a)),
        a == b ==> !lex_lt(a, b),
    decreases a.len(),
{
    if a.len() > 0 {
        lemma_lex_lt_total(a.drop_first(), b.drop_first());
        if a[0] == b[0] && a != b {
            assert(a.drop_first() != b.drop_first()) by {
                if a.drop_first() == b.drop_first() {
                    assert forall|k: int| 0 <= k < a.len() implies a[k] == b[k] by {
                        if k > 0 {
                            assert(a[k] == a.drop_first()[k - 1]);
                            assert(b[k] == b.drop_first()[k - 1]);
                        }
                    }
                    assert(a =~= b);
                }
            }
        }
    } else {
        assert(a =~= b);
    }
}

/// Law: between two relays with different addresses exactly one dials the
/// other, and a relay never dials its own address.
pub proof fn law_one_relay_dials(a: IpAddr, b: IpAddr)
    requires
        a.spec_is_ipv4() ==> a.octets_view().len() == 4,
        !a.spec_is_ipv4() ==> a.octets_view().len() == 16,
        b.spec_is_ipv4() ==> b.octets_view().len() == 4,
        !b.spec_is_ipv4() ==> b.octets_view().len() == 16,
    ensures
        (a.spec_is_ipv4() != b.spec_is_ipv4() || a.octets_view() != b.octets_view()) ==> dials(
            NodeType::NodeRelay,
            a,
            b,
        ) != dials(NodeType::NodeRelay, b, a),
        (a.spec_is_ipv4() == b.spec_is_ipv4() && a.octets_view() == b.octets_view()) ==> !dials(
            NodeType::NodeRelay,
            a,
            b,
        ),
{
    if a.spec_is_ipv4() == b.spec_is_ipv4() {
        lemma_lex_lt_total(a.octets_view(), b.octets_view());
    }
}

/// The table of networks made of a list of allowed IPs.
pub open spec fn nets_map(s: Seq<AllowedIP>) -> Map<NetKey, ()> {
    Map::new(|k: NetKey| exists|i: int| 0 <= i < s.len() && #[trigger] net_key(s[i]) == k, |k: NetKey| ())
}

/// A peer of the device: its index, where it is reached, the networks it
/// may send from, its address in the network, and the session settings its
/// tunnel was made with.
pub struct Peer {
    /// The WireGuard session with the peer.
    pub tunnel: Tunn,
    pub index: u32,
    pub endpoint: Endpoint,
    pub allowed_ips: AllowedIps<()>,
    pub ip: IpAddr,
    pub preshared_key: Option<[u8; 32]>,
}

impl Peer {
    /// A peer with nothing open, allowed to send from `allowed_ips`.
    pub fn new(
        tunnel: Tunn,
        index: u32,
        endpoint: Option<SocketAddr>,
        allowed_ips: &[AllowedIP],
        ip: IpAddr,
        preshared_key: Option<[u8; 32]>,
    ) -> (r: Peer)
        requires
            forall|i: int| 0 <= i < allowed_ips@.len() ==> valid_net(#[trigger] allowed_ips@[i]),
        ensures
            r.index == index,
            addr_view(r.endpoint.addr) == addr_view(endpoint),
            !r.endpoint.udp_open,
            r.endpoint.tcp_conn is Nothing,
            r.allowed_ips.wf(),
            r.allowed_ips@ == nets_map(allowed_ips@),
            r.ip == ip,
            r.preshared_key == preshared_key,
            r.tunnel == tunnel,
    {
        let mut table: AllowedIps<()> = AllowedIps::new();
        let mut i: usize = 0;
        while i < allowed_ips.len()
            invariant
                i <= allowed_ips@.len(),
                forall|k: int| 0 <= k < allowed_ips@.len() ==> valid_net(#[trigger] allowed_ips@[k]),
                table.wf(),
                table@ == nets_map(allowed_ips@.subrange(0, i as int)),
            decreases allowed_ips.len() - i,
        {
            let net = allowed_ips[i];
            table.insert(net, ());
            proof {
                let s0 = allowed_ips@.subrange(0, i as int);
                let s1 = allowed_ips@.subrange(0, i + 1);
                assert forall|k: NetKey| #[trigger] nets_map(s1).dom().contains(k)
                    == nets_map(s0).insert(net_key(net), ()).dom().contains(k) by {
                    if nets_map(s1).dom().contains(k) {
                        let j = choose|j: int| 0 <= j < s1.len() && #[trigger] net_key(s1[j]) == k;
                        if j < i {
                            assert(net_key(s0[j]) == k);
                        }
                    }
                    if nets_map(s0).dom().contains(k) {
                        let j = choose|j: int| 0 <= j < s0.len() && #[trigger] net_key(s0[j]) == k;
                        assert(net_key(s1[j]) == k);
                    }
                    if k == net_key(net) {
                        assert(net_key(s1[i as int]) == k);
                    }
                }
                assert(nets_map(s1) =~= nets_map(s0).insert(net_key(net), ()));
            }
            i = i + 1;
        }
        assert(allowed_ips@.subrange(0, allowed_ips@.len() as int) =~= allowed_ips@);
        Peer { tunnel, index, endpoint: Endpoint::new(endpoint), allowed_ips: table, ip, preshared_key }
    }

    /// Closes what is open to the peer.
    pub fn shutdown_endpoint(&mut self)
        ensures
            addr_view(final(self).endpoint.addr) == addr_view(old(self).endpoint.addr),
            !final(self).endpoint.udp_open,
            final(self).endpoint.tcp_conn is Nothing,
            final(self).index == old(self).index,
            final(self).allowed_ips == old(self).allowed_ips,
            final(self).ip == old(self).ip,
            final(self).preshared_key == old(self).preshared_key,
    {
        self.endpoint.shutdown();
    }

    /// The peer is now reached at `addr`; a change of address closes what
    /// was open.
    pub fn set_endpoint(&mut self, addr: SocketAddr)
        ensures
            addr_view(final(self).endpoint.addr) == Some(socket_view(addr)),
            addr_view(old(self).endpoint.addr) == Some(socket_view(addr)) ==> final(self).endpoint.udp_open == old(self).endpoint.udp_open && final(self).endpoint.tcp_conn
                == old(self).endpoint.tcp_conn,
            addr_view(old(self).endpoint.addr) != Some(socket_view(addr)) ==> !final(self).endpoint.udp_open && final(self).endpoint.tcp_conn is Nothing,
            final(self).index == old(self).index,
            final(self).allowed_ips == old(self).allowed_ips,
            final(self).ip == old(self).ip,
            final(self).tunnel == old(self).tunnel,
            final(self).preshared_key == old(self).preshared_key,
    {
        self.endpoint.set_endpoint(addr);
    }

    /// Whether the peer may send from `addr`: one of its networks holds it.
    pub fn is_allowed_ip(&self, addr: &IpAddr) -> (r: bool)
        requires
            self.allowed_ips.wf(),
        ensures
            r == exists|c: nat| #[trigger] matches_at(self.allowed_ips@, *addr, c),
    {
        self.allowed_ips.find(addr).is_some()
    }

    /// The networks the peer may send from, as address and prefix length.
    pub fn allowed_ips(&self) -> (r: Vec<(IpAddr, u8)>)
        ensures
            r@.len() == self.allowed_ips.entries@.len(),
            forall|i: int|
                0 <= i < r@.len() ==> #[trigger] r@[i] == (
                    self.allowed_ips.entries@[i].0.addr,
                    self.allowed_ips.entries@[i].0.cidr,
                ),
    {
        let nets = self.allowed_ips.nets();
        let mut r: Vec<(IpAddr, u8)> = Vec::new();
        let mut i: usize = 0;
        while i < nets.len()
            invariant
                i <= nets@.len(),
                nets@.len() == self.allowed_ips.entries@.len(),
                forall|k: int| 0 <= k < nets@.len() ==> #[trigger] nets@[k] == self.allowed_ips.entries@[k].0,
                r@.len() == i,
                forall|k: int|
                    0 <= k < i ==> #[trigger] r@[k] == (
                        self.allowed_ips.entries@[k].0.addr,
                        self.allowed_ips.entries@[k].0.cidr,
                    ),
            decreases nets.len() - i,
        {
            r.push((nets[i].addr, nets[i].cidr));
            i = i + 1;
        }
        r
    }

    /// The preshared key the tunnel was made with.
    pub fn preshared_key(&self) -> (r: Option<[u8; 32]>)
        ensures
            r == self.preshared_key,
    {
        self.preshared_key
    }

    /// The keepalive interval the tunnel was made with.
    pub fn persistent_keepalive(&self) -> Option<u16> {
        super::noise::persistent_keepalive(&self.tunnel)
    }

    /// Time since the current session was set up (seconds, nanoseconds).
    pub fn time_since_last_handshake(&self) -> Option<(u64, u32)> {
        super::noise::time_since_last_handshake(&self.tunnel)
    }

    /// Runs the tunnel's timers; nothing else of the peer changes.
    pub fn update_timers(&mut self) -> (r: super::packet::TimerOutcome)
        ensures
            final(self).index == old(self).index,
            final(self).endpoint == old(self).endpoint,
            final(self).allowed_ips == old(self).allowed_ips,
            final(self).ip == old(self).ip,
            final(self).preshared_key == old(self).preshared_key,
    {
        super::noise::peer_timers(self).0
    }

    /// The index the tunnel uses.
    pub fn index(&self) -> (r: u32)
        ensures
            r == self.index,
    {
        self.index
    }
}

/// Law: a peer accepts an address exactly when the address lies in one of
/// the allowed IPs the peer was made with.
pub proof fn law_allowed_ip_membership(allowed: Seq<AllowedIP>, addr: IpAddr)
    requires
        forall|i: int| 0 <= i < allowed.len() ==> valid_net(#[trigger] allowed[i]),
    ensures
        (exists|c: nat| #[trigger] matches_at(nets_map(allowed), addr, c)) <==> (exists|i: int|
            0 <= i < allowed.len() && in_network(#[trigger] allowed[i], addr)),
{
    if exists|c: nat| #[trigger] matches_at(nets_map(allowed), addr, c) {
        let c = choose|c: nat| #[trigger] matches_at(nets_map(allowed), addr, c);
        let i = choose|i: int| 0 <= i < allowed.len() && #[trigger] net_key(allowed[i]) == prefix_key(addr, c);
        lemma_in_network_key(allowed[i], addr);
    }
    if exists|i: int| 0 <= i < allowed.len() && in_network(#[trigger] allowed[i], addr) {
        let i = choose|i: int| 0 <= i < allowed.len() && in_network(#[trigger] allowed[i], addr);
        lemma_in_network_key(allowed[i], addr);
        assert(matches_at(nets_map(allowed), addr, allowed[i].cidr as nat));
    }
}

} // verus!
