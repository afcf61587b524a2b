//! What the device does with a packet: which peer a received packet is for,
//! which peer an outgoing packet goes to, and what follows from the result
//! of handing a packet to a peer's tunnel.

use vstd::prelude::*;
use crate::net::IpAddr;
use super::LFSR_MAX;
use super::allowed_ips::matches_at;
use super::peer::{Endpoint, Peer, SocketAddr, TcpConnection, addr_view, socket_view};
use super::peers::Peers;

verus! {

/// What a received, verified packet tells about its peer.
pub enum PacketRoute {
    /// A handshake initiation, with the static public key of its sender
    /// where the handshake could be opened with the device's key.
    HandshakeInit(Option<[u8; 32]>),
    /// A handshake response, by its receiver index.
    HandshakeResponse(u32),
    /// A cookie reply, by its receiver index.
    CookieReply(u32),
    /// Transport data, by its receiver index.
    Data(u32),
}

/// The position of the peer a packet is for: by key for an initiation, else
/// by the peer index in the top 24 bits of the receiver index.
pub open spec fn route_pos(peers: Peers, packet: PacketRoute) -> Option<int> {
    match packet {
        PacketRoute::HandshakeInit(Some(k)) => peers.key_pos(k),
        PacketRoute::HandshakeInit(None) => None,
        PacketRoute::HandshakeResponse(r) => peers.idx_pos(r >> 8),
        PacketRoute::CookieReply(r) => peers.idx_pos(r >> 8),
        PacketRoute::Data(r) => peers.idx_pos(r >> 8),
    }
}

/// The position of the peer a received packet is for.
pub fn peer_for_packet(peers: &Peers, packet: &PacketRoute) -> (r: Option<usize>)
    requires
        peers.wf(),
    ensures
        match r {
            Some(i) => route_pos(*peers, *packet) == Some(i as int),
            None => route_pos(*peers, *packet) is None,
        },
{
    match packet {
        PacketRoute::HandshakeInit(Some(k)) => peers.find_by_key(k),
        PacketRoute::HandshakeInit(None) => None,
        PacketRoute::HandshakeResponse(r) => peers.find_by_index(*r >> 8),
        PacketRoute::CookieReply(r) => peers.find_by_index(*r >> 8),
        PacketRoute::Data(r) => peers.find_by_index(*r >> 8),
    }
}

/// Law: a tunnel's sessions carry its peer's index in the top 24 bits of
/// their index, so every packet addressed to a session of a peer reaches
/// that peer.
pub proof fn law_session_packets_reach_peer(peers: Peers, i: int, session: u32)
    requires
        peers.wf(),
        0 <= i < peers.entries@.len(),
        peers.idx_at(i) <= LFSR_MAX,
        session < 256,
    ensures
        route_pos(peers, PacketRoute::Data((peers.idx_at(i) << 8) | session)) == Some(i),
        route_pos(peers, PacketRoute::HandshakeResponse((peers.idx_at(i) << 8) | session)) == Some(i),
        route_pos(peers, PacketRoute::CookieReply((peers.idx_at(i) << 8) | session)) == Some(i),
{
    let idx = peers.idx_at(i);
    assert(((idx << 8) | session) >> 8 == idx) by (bit_vector)
        requires
            idx <= 0xffffff,
            session < 256,
    ;
    let j = choose|j: int| 0 <= j < peers.entries@.len() && #[trigger] peers.idx_at(j) == idx;
    if j < i {
        assert(peers.idx_at(j) != peers.idx_at(i));
    } else if j > i {
        assert(peers.idx_at(i) != peers.idx_at(j));
    }
}

/// The destination of an IP packet, as its family and octets: bytes 16 to
/// 19 of an IPv4 header (at least 20 bytes), bytes 24 to 39 of an IPv6
/// header (at least 40 bytes); `None` for anything else.
pub open spec fn dst_address_spec(p: Seq<u8>) -> Option<(bool, Seq<u8>)> {
    if p.len() == 0 {
        None
    } else if p[0] >> 4 == 4 && p.len() >= 20 {
        Some((true, p.subrange(16, 20)))
    } else if p[0] >> 4 == 6 && p.len() >= 40 {
        Some((false, p.subrange(24, 40)))
    } else {
        None
    }
}

/// An address as its family and octets.
pub open spec fn ip_view(a: IpAddr) -> (bool, Seq<u8>) {
    (a.spec_is_ipv4(), a.octets_view())
}

/// The destination address of an IP packet (`Tunn::dst_address`).
pub fn dst_address(packet: &[u8]) -> (r: Option<IpAddr>)
    ensures
        match r {
            Some(a) => dst_address_spec(packet@) == Some(ip_view(a)),
            None => dst_address_spec(packet@) is None,
        },
{
    if packet.len() == 0 {
        return None;
    }
    let version = packet[0] >> 4;
    if version == 4 && packet.len() >= 20 {
        let mut o = [0u8; 4];
        let mut k: usize = 0;
        while k < 4
            invariant
                k <= 4,
                packet@.len() >= 20,
                forall|j: int| 0 <= j < k ==> o@[j] == packet@[16 + j],
            decreases 4 - k,
        {
            o[k] = packet[16 + k];
            k = k + 1;
        }
        assert(o@ =~= packet@.subrange(16, 20));
        Some(IpAddr::V4(o))
    } else if version == 6 && packet.len() >= 40 {
        let mut o = [0u8; 16];
        let mut k: usize = 0;
        while k < 16
            invariant
                k <= 16,
                packet@.len() >= 40,
                forall|j: int| 0 <= j < k ==> o@[j] == packet@[24 + j],
            decreases 16 - k,
        {
            o[k] = packet[24 + k];
            k = k + 1;
        }
        assert(o@ =~= packet@.subrange(24, 40));
        Some(IpAddr::V6(o))
    } else {
        None
    }
}

/// Two addresses with the same family and octets are the same address.
pub proof fn lemma_ip_view_injective(a: IpAddr, b: IpAddr)
    requires
        ip_view(a) == ip_view(b),
    ensures
        a == b,
{
    assert(a.octets_view() =~= b.octets_view());
    match (a, b) {
        (IpAddr::V4(x), IpAddr::V4(y)) => {
            assert(x =~= y);
        },
        (IpAddr::V6(x), IpAddr::V6(y)) => {
            assert(x =~= y);
        },
        _ => {},
    }
}

/// The position of the peer an outgoing packet goes to: the one the most
/// specific network holding its destination routes to.
pub fn route_outgoing(peers: &Peers, packet: &[u8]) -> (r: Option<usize>)
    requires
        peers.wf(),
    ensures
        dst_address_spec(packet@) is None ==> r is None,
        match r {
            Some(i) => exists|a: IpAddr|
                dst_address_spec(packet@) == Some(#[trigger] ip_view(a)) && peers.ip_pos(a) == Some(
                    i as int,
                ),
            None => forall|a: IpAddr|
                dst_address_spec(packet@) == Some(#[trigger] ip_view(a)) ==> peers.ip_pos(a) is None,
        },
{
    match dst_address(packet) {
        Some(a) => {
            let r = peers.find_by_ip(&a);
            proof {
                assert forall|b: IpAddr|
                    dst_address_spec(packet@) == Some(#[trigger] ip_view(b)) implies b == a by {
                    assert(b.octets_view() =~= a.octets_view());
                    match (a, b) {
                        (IpAddr::V4(x), IpAddr::V4(y)) => {
                            assert(x =~= y);
                        },
                        (IpAddr::V6(x), IpAddr::V6(y)) => {
                            assert(x =~= y);
                        },
                        _ => {},
                    }
                }
            }
            r
        },
        None => None,
    }
}

/// The 4-byte packet-information header of a tunnel device (three zero
/// bytes, then the address family) put before `packet` where the device
/// wants one.
pub open spec fn tun_frame_spec(pi: bool, family: u8, packet: Seq<u8>) -> Seq<u8> {
    if pi {
        seq![0u8, 0u8, 0u8, family] + packet
    } else {
        packet
    }
}

/// The bytes written to the tunnel device for `packet`.
pub fn tun_frame(pi: bool, family: u8, packet: &[u8]) -> (r: Vec<u8>)
    ensures
        r@ == tun_frame_spec(pi, family, packet@),
{
    let mut r: Vec<u8> = Vec::new();
    if pi {
        r.push(0);
        r.push(0);
        r.push(0);
        r.push(family);
    }
    let ghost start = r@;
    let mut k: usize = 0;
    while k < packet.len()
        invariant
            k <= packet@.len(),
            r@ == start + packet@.subrange(0, k as int),
        decreases packet.len() - k,
    {
        r.push(packet[k]);
        k = k + 1;
        assert(r@ =~= start + packet@.subrange(0, k as int));
    }
    assert(packet@.subrange(0, packet@.len() as int) =~= packet@);
    assert(r@ =~= tun_frame_spec(pi, family, packet@));
    r
}

/// What a peer's tunnel made of a received packet.
pub enum TunnOutcome {
    /// Nothing to do.
    Done,
    /// The packet was rejected.
    Error,
    /// A packet to send back to the network.
    WriteToNetwork(Vec<u8>),
    /// A decrypted IPv4 packet and its source address.
    WriteToTunnelV4(Vec<u8>, [u8; 4]),
    /// A decrypted IPv6 packet and its source address.
    WriteToTunnelV6(Vec<u8>, [u8; 16]),
}

/// What the device then does.
pub enum PacketAction {
    /// Nothing is sent or written.
    Nothing,
    /// The packet is dropped, and the peer's endpoint is left as it was.
    Discard,
    /// These bytes go back to the network; then the peer's queue is flushed.
    Send(Vec<u8>),
    /// These bytes are written to the tunnel device.
    WriteTun(Vec<u8>),
}

/// Whether `peer` may send from `addr`.
pub open spec fn allows(peer: Peer, addr: IpAddr) -> bool {
    exists|c: nat| #[trigger] matches_at(peer.allowed_ips@, addr, c)
}

/// The action for an outcome, given the device's packet-information setting
/// and its IPv4 and IPv6 address-family numbers.
pub open spec fn action_spec(peer: Peer, outcome: TunnOutcome, pi: bool, af4: u8, af6: u8) -> Option<
    Seq<u8>,
> {
    match outcome {
        TunnOutcome::WriteToNetwork(p) => Some(p@),
        TunnOutcome::WriteToTunnelV4(p, a) => if allows(peer, IpAddr::V4(a)) {
            Some(tun_frame_spec(pi, af4, p@))
        } else {
            None
        },
        TunnOutcome::WriteToTunnelV6(p, a) => if allows(peer, IpAddr::V6(a)) {
            Some(tun_frame_spec(pi, af6, p@))
        } else {
            None
        },
        _ => None,
    }
}

/// What the device does with the outcome of decapsulating a packet from
/// `peer`: a packet from an address outside the peer's allowed IPs is never
/// written to the device.
pub fn decap_action(peer: &Peer, outcome: TunnOutcome, pi: bool, af4: u8, af6: u8) -> (r: PacketAction)
    requires
        peer.allowed_ips.wf(),
    ensures
        match outcome {
            TunnOutcome::Done => r is Nothing,
            TunnOutcome::Error => r is Discard,
            TunnOutcome::WriteToNetwork(p) => r == PacketAction::Send(p),
            TunnOutcome::WriteToTunnelV4(_, a) => if allows(*peer, IpAddr::V4(a)) {
                r matches PacketAction::WriteTun(f) && Some(f@) == action_spec(
                    *peer,
                    outcome,
                    pi,
                    af4,
                    af6,
                )
            } else {
                r is Nothing
            },
            TunnOutcome::WriteToTunnelV6(_, a) => if allows(*peer, IpAddr::V6(a)) {
                r matches PacketAction::WriteTun(f) && Some(f@) == action_spec(
                    *peer,
                    outcome,
                    pi,
                    af4,
                    af6,
                )
            } else {
                r is Nothing
            },
        },
{
    match outcome {
        TunnOutcome::Done => PacketAction::Nothing,
        TunnOutcome::Error => PacketAction::Discard,
        TunnOutcome::WriteToNetwork(p) => PacketAction::Send(p),
        TunnOutcome::WriteToTunnelV4(p, a) => {
            if peer.is_allowed_ip(&IpAddr::V4(a)) {
                PacketAction::WriteTun(tun_frame(pi, af4, p.as_slice()))
            } else {
                PacketAction::Nothing
            }
        },
        TunnOutcome::WriteToTunnelV6(p, a) => {
            if peer.is_allowed_ip(&IpAddr::V6(a)) {
                PacketAction::WriteTun(tun_frame(pi, af6, p.as_slice()))
            } else {
                PacketAction::Nothing
            }
        },
    }
}

/// The peer is reached at `from` after a packet from there: a new address
/// closes what was open to the peer, the same one keeps it.
pub open spec fn reached_at(before: Peer, after: Peer, from: SocketAddr) -> bool {
    &&& addr_view(after.endpoint.addr) == Some(socket_view(from))
    &&& addr_view(before.endpoint.addr) == Some(socket_view(from)) ==> after.endpoint.udp_open
        == before.endpoint.udp_open && after.endpoint.tcp_conn == before.endpoint.tcp_conn
    &&& addr_view(before.endpoint.addr) != Some(socket_view(from)) ==> !after.endpoint.udp_open
        && after.endpoint.tcp_conn is Nothing
}

/// A packet received over UDP from `from`: the action for its outcome, and,
/// unless it is dropped, the peer is from now on reached at `from`.
pub fn udp_receive(peer: &mut Peer, outcome: TunnOutcome, from: SocketAddr, pi: bool, af4: u8, af6: u8) -> (r: PacketAction)
    requires
        old(peer).allowed_ips.wf(),
    ensures
        (outcome is Error) == (r is Discard),
        r is Send ==> outcome is WriteToNetwork,
        outcome matches TunnOutcome::WriteToNetwork(p) ==> r == PacketAction::Send(p),
        r is WriteTun ==> (outcome is WriteToTunnelV4 || outcome is WriteToTunnelV6),
        r is Discard ==> *final(peer) == *old(peer),
        !(r is Discard) ==> reached_at(*old(peer), *final(peer), from),
        final(peer).allowed_ips == old(peer).allowed_ips,
        final(peer).index == old(peer).index,
        match r {
            PacketAction::Send(q) => Some(q@) == action_spec(*old(peer), outcome, pi, af4, af6),
            PacketAction::WriteTun(f) => Some(f@) == action_spec(*old(peer), outcome, pi, af4, af6),
            _ => action_spec(*old(peer), outcome, pi, af4, af6) is None,
        },
{
    let is_err = match &outcome {
        TunnOutcome::Error => true,
        _ => false,
    };
    let r = decap_action(peer, outcome, pi, af4, af6);
    if !is_err {
        peer.set_endpoint(from);
    }
    r
}

/// Whether a TCP connection that a peer's first packet came in on becomes
/// the peer's connection: it does where the peer has none (nothing open, or
/// a failed one) and the connection is not yet bound to a peer. Marks the
/// peer connected where it does.
pub fn adopt_tcp_connection(peer: &mut Peer, unbound: bool) -> (r: bool)
    ensures
        r == (unbound && (old(peer).endpoint.tcp_conn is Nothing
            || old(peer).endpoint.tcp_conn is ConnectedFailure)),
        r ==> final(peer).endpoint.tcp_conn is Connected,
        !r ==> *final(peer) == *old(peer),
        addr_view(final(peer).endpoint.addr) == addr_view(old(peer).endpoint.addr),
        final(peer).endpoint.udp_open == old(peer).endpoint.udp_open,
        final(peer).allowed_ips == old(peer).allowed_ips,
        final(peer).index == old(peer).index,
{
    let free = match peer.endpoint.tcp_conn {
        TcpConnection::Nothing | TcpConnection::ConnectedFailure => true,
        _ => false,
    };
    if unbound && free {
        peer.endpoint.tcp_conn = TcpConnection::Connected;
        true
    } else {
        false
    }
}

/// Where a packet for a peer is sent over UDP.
pub enum UdpDestination {
    /// The IPv4 socket, to this address.
    V4(SocketAddr),
    /// The IPv6 socket, to this address.
    V6(SocketAddr),
    /// The peer has no endpoint.
    NoEndpoint,
}

/// The socket and address a packet for the peer at `endpoint` goes to.
pub fn udp_destination(endpoint: &Endpoint) -> (r: UdpDestination)
    ensures
        match endpoint.addr {
            None => r is NoEndpoint,
            Some(a) => if a.ip.spec_is_ipv4() {
                r == UdpDestination::V4(a)
            } else {
                r == UdpDestination::V6(a)
            },
        },
{
    match endpoint.addr {
        None => UdpDestination::NoEndpoint,
        Some(a) => if a.ip.is_ipv4() {
            UdpDestination::V4(a)
        } else {
            UdpDestination::V6(a)
        },
    }
}

/// What a peer's tunnel timers produced.
pub enum TimerOutcome {
    Done,
    /// The session expired.
    ConnectionExpired,
    /// Another error.
    Error,
    /// A packet to send to the peer.
    WriteToNetwork(Vec<u8>),
}

/// The outcome of a peer's timers: an expired session closes what is open
/// to the peer; a packet is sent; anything else does nothing.
pub fn timer_outcome(peer: &mut Peer, outcome: TimerOutcome) -> (r: Option<Vec<u8>>)
    ensures
        match outcome {
            TimerOutcome::WriteToNetwork(p) => r == Some(p),
            _ => r is None,
        },
        outcome is ConnectionExpired ==> !final(peer).endpoint.udp_open
            && final(peer).endpoint.tcp_conn is Nothing,
        !(outcome is ConnectionExpired) ==> *final(peer) == *old(peer),
        addr_view(final(peer).endpoint.addr) == addr_view(old(peer).endpoint.addr),
        final(peer).allowed_ips == old(peer).allowed_ips,
        final(peer).index == old(peer).index,
        final(peer).ip == old(peer).ip,
        final(peer).preshared_key == old(peer).preshared_key,
{
    match outcome {
        TimerOutcome::ConnectionExpired => {
            peer.shutdown_endpoint();
            None
        },
        TimerOutcome::WriteToNetwork(p) => Some(p),
        _ => None,
    }
}

} // verus!
