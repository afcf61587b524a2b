//! One step of each of the device's loops: a datagram received over UDP or
//! TCP, a packet read from the tunnel device, a round of the timers. Each
//! step works on the device's peers and their sessions and returns what is
//! to be sent or written, with the record of each call it made into the
//! rate limiter and the sessions; the loops themselves, the sockets and the
//! tunnel device belong to the caller.

use vstd::prelude::*;
use crate::net::IpAddr;
use crate::protobuf::NodeType;
use super::noise::{
    check_datagram, handshake_sender, handshake_sender_of, peer_decapsulate, peer_encapsulate, peer_timers,
    session_only, LimiterCall, SessionCall, TimerCall, Verified, WireRoute, MAX_PACKET,
};
use super::packet::{
    action_spec, decap_action, lemma_ip_view_injective, peer_for_packet, reached_at, route_outgoing,
    route_pos, timer_outcome, udp_destination, udp_receive, PacketAction, PacketRoute, TimerOutcome,
    TunnOutcome,
};
use super::peer::{SocketAddr, TcpConnection, TcpTimerAction, addr_view, dials, socket_view, tcp_timer_step};
use super::peers::{DeviceData, Peers, lemma_device_same_peers, same_peers};
use super::peer::Peer;

verus! {

/// What the device is to do after a step.
pub enum Output {
    /// Send these bytes to this address over UDP (the IPv4 or the IPv6
    /// socket, by the address).
    SendTo(SocketAddr, Vec<u8>),
    /// Send these bytes over the TCP connection of the peer with this index.
    SendPeerTcp(u32, Vec<u8>),
    /// Send these bytes back over the connection the data came in on.
    Reply(Vec<u8>),
    /// Write these bytes to the tunnel device.
    WriteTun(Vec<u8>),
    /// Open a TCP connection to the peer with this index, at this address.
    Dial(u32, SocketAddr),
}

/// The device keeps its peers, routes, register and keys; sessions and
/// endpoints may change.
pub open spec fn same_device(a: DeviceData, b: DeviceData) -> bool {
    &&& same_peers(a.peers, b.peers)
    &&& b.next_index == a.next_index
    &&& b.key_pair == a.key_pair
    &&& b.rate_limiter == a.rate_limiter
}

/// No peer but the one at `p` changes.
pub open spec fn only_peer_changed(a: DeviceData, b: DeviceData, p: int) -> bool {
    forall|j: int| 0 <= j < a.peers.entries@.len() && j != p ==> #[trigger] b.peers.entries@[j] == a.peers.entries@[j]
}

/// The position of the peer whose public key is `k`.
pub open spec fn key_pos_view(peers: Peers, k: Seq<u8>) -> Option<int> {
    if exists|i: int| 0 <= i < peers.entries@.len() && #[trigger] peers.key_at(i)@ == k {
        Some(choose|i: int| 0 <= i < peers.entries@.len() && #[trigger] peers.key_at(i)@ == k)
    } else {
        None
    }
}

proof fn lemma_key_pos_view(peers: Peers, k: [u8; 32])
    requires
        peers.wf(),
    ensures
        peers.key_pos(k) == key_pos_view(peers, k@),
{
    if exists|i: int| 0 <= i < peers.entries@.len() && #[trigger] peers.key_at(i) == k {
        let i1 = choose|i: int| 0 <= i < peers.entries@.len() && #[trigger] peers.key_at(i) == k;
        assert(peers.key_at(i1)@ == k@);
        let i2 = choose|i: int| 0 <= i < peers.entries@.len() && #[trigger] peers.key_at(i)@ == k@;
        assert(peers.key_at(i2) =~= k);
        if i1 < i2 {
            assert(peers.key_at(i1) != peers.key_at(i2));
        } else if i2 < i1 {
            assert(peers.key_at(i2) != peers.key_at(i1));
        }
    } else {
        assert forall|i: int| 0 <= i < peers.entries@.len() implies #[trigger] peers.key_at(i)@ != k@ by {
            if peers.key_at(i)@ == k@ {
                assert(peers.key_at(i) =~= k);
            }
        }
    }
}

/// The position of the peer a verified message is for: an initiation goes
/// to the peer whose key opening it with the device's key pair gives; the
/// other messages to the peer whose index is the top 24 bits of their
/// receiver index.
pub open spec fn route_of(d: DeviceData, datagram: Seq<u8>, m: WireRoute) -> Option<int> {
    match m {
        WireRoute::HandshakeInit => match handshake_sender_of(d.key_pair.0@, d.key_pair.1@, datagram) {
            Some(k) => key_pos_view(d.peers, k),
            None => None,
        },
        WireRoute::HandshakeResponse(i) => d.peers.idx_pos(i >> 8),
        WireRoute::CookieReply(i) => d.peers.idx_pos(i >> 8),
        WireRoute::Data(i) => d.peers.idx_pos(i >> 8),
    }
}

/// The route a verified message takes: an initiation by the key of its
/// sender, where the device's keys open it; the others by receiver index.
fn packet_route(device: &DeviceData, m: WireRoute, datagram: &[u8]) -> (r: PacketRoute)
    requires
        device.wf(),
    ensures
        route_pos(device.peers, r) == route_of(*device, datagram@, m),
{
    match m {
        WireRoute::HandshakeInit => {
            let k = handshake_sender(&device.key_pair.0, &device.key_pair.1, datagram);
            proof {
                if let Some(key) = k {
                    lemma_key_pos_view(device.peers, key);
                }
            }
            PacketRoute::HandshakeInit(k)
        },
        WireRoute::HandshakeResponse(i) => PacketRoute::HandshakeResponse(i),
        WireRoute::CookieReply(i) => PacketRoute::CookieReply(i),
        WireRoute::Data(i) => PacketRoute::Data(i),
    }
}

/// The packet of a session's answer to send back to the network.
pub open spec fn net_packet(o: TunnOutcome) -> Vec<u8> {
    match o {
        TunnOutcome::WriteToNetwork(p) => p,
        _ => arbitrary(),
    }
}

/// `calls` are the calls that emptied the queue of the session of the
/// peer with index `idx`: each asked for the next queued packet (an empty
/// datagram, no source); every one but the last answered with a packet; the
/// last had none left, unless the 257 calls the queue can need were made.
pub open spec fn drained(calls: Seq<SessionCall>, idx: u32) -> bool {
    &&& 1 <= calls.len() <= 257
    &&& forall|k: int| 0 <= k < calls.len() ==> (#[trigger] calls[k]).peer() == idx && calls[k].source() is None
        && calls[k].input().len() == 0 && !calls[k].encrypt()
    &&& forall|k: int| 0 <= k < calls.len() - 1 ==> (#[trigger] calls[k]).outcome() is WriteToNetwork
    &&& calls.len() < 257 ==> !(calls[calls.len() - 1].outcome() is WriteToNetwork)
}

/// How many queued packets the calls handed out.
pub open spec fn sent_count(calls: Seq<SessionCall>) -> int {
    if calls.len() > 0 && calls[calls.len() - 1].outcome() is WriteToNetwork {
        calls.len() as int
    } else {
        calls.len() - 1
    }
}

/// The first `m` queued packets, sent to `to` over UDP.
pub open spec fn udp_sends_upto(calls: Seq<SessionCall>, to: SocketAddr, m: int) -> Seq<Output> {
    Seq::new(m as nat, |k: int| Output::SendTo(to, net_packet(calls[k].outcome())))
}

/// The queued packets the calls handed out, sent to `to` over UDP in order.
pub open spec fn udp_sends(calls: Seq<SessionCall>, to: SocketAddr) -> Seq<Output> {
    udp_sends_upto(calls, to, sent_count(calls))
}

/// The first `m` queued packets, sent over the connection of the peer with
/// index `idx` where it is connected.
pub open spec fn tcp_sends_upto(calls: Seq<SessionCall>, idx: u32, connected: bool, m: int) -> Seq<Output> {
    if connected {
        Seq::new(m as nat, |k: int| Output::SendPeerTcp(idx, net_packet(calls[k].outcome())))
    } else {
        Seq::empty()
    }
}

/// The queued packets the calls handed out, sent over the peer's connection.
pub open spec fn tcp_sends(calls: Seq<SessionCall>, idx: u32, connected: bool) -> Seq<Output> {
    tcp_sends_upto(calls, idx, connected, sent_count(calls))
}

/// A call that asked the session for its next queued packet.
pub open spec fn queue_call(c: SessionCall, idx: u32) -> bool {
    c.peer() == idx && c.source() is None && c.input().len() == 0 && !c.encrypt()
}

/// Sends what the peer's session has queued to `to`: the session queues at
/// most 256 packets and hands them out one a call until it says it is done.
fn flush_udp(peer: &mut Peer, to: SocketAddr, out: &mut Vec<Output>) -> (calls: Vec<SessionCall>)
    ensures
        session_only(*old(peer), *final(peer)),
        drained(calls@, old(peer).index),
        final(out)@ == old(out)@ + udp_sends(calls@, to),
{
    let empty: Vec<u8> = Vec::new();
    let mut calls: Vec<SessionCall> = Vec::new();
    let mut done = false;
    let mut n: usize = 0;
    let ghost idx = peer.index;
    assert(old(out)@ + udp_sends_upto(calls@, to, 0) =~= old(out)@);
    while n < 257 && !done
        invariant
            n <= 257,
            empty@.len() == 0,
            idx == old(peer).index,
            session_only(*old(peer), *peer),
            calls@.len() == n,
            forall|k: int| 0 <= k < n ==> queue_call(#[trigger] calls@[k], idx),
            !done ==> forall|k: int| 0 <= k < n ==> (#[trigger] calls@[k]).outcome() is WriteToNetwork,
            done ==> n >= 1 && !(calls@[n - 1].outcome() is WriteToNetwork) && forall|k: int|
                0 <= k < n - 1 ==> (#[trigger] calls@[k]).outcome() is WriteToNetwork,
            out@ == old(out)@ + udp_sends_upto(calls@, to, if done { n - 1 } else { n as int }),
        decreases 257 - n,
    {
        let ghost before = out@;
        let ghost prev = calls@;
        let (o, call) = peer_decapsulate(peer, None, empty.as_slice());
        calls.push(call);
        match o {
            TunnOutcome::WriteToNetwork(p) => {
                out.push(Output::SendTo(to, p));
                proof {
                    assert(old(out)@ + udp_sends_upto(calls@, to, n + 1) =~= before.push(Output::SendTo(to, p)));
                }
            },
            _ => {
                done = true;
                proof {
                    assert(udp_sends_upto(calls@, to, n as int) =~= udp_sends_upto(prev, to, n as int));
                }
            },
        }
        n = n + 1;
    }
    proof {
        assert(queue_call(calls@[0], idx));
    }
    calls
}

/// Sends `bytes` over the peer's connection where it has one.
fn send_tcp(peer: &Peer, bytes: Vec<u8>, out: &mut Vec<Output>)
    ensures
        peer.endpoint.tcp_conn is Connected ==> final(out)@ == old(out)@.push(
            Output::SendPeerTcp(peer.index, bytes),
        ),
        !(peer.endpoint.tcp_conn is Connected) ==> final(out)@ == old(out)@,
{
    match peer.endpoint.tcp_conn {
        TcpConnection::Connected => {
            out.push(Output::SendPeerTcp(peer.index, bytes));
        },
        _ => {},
    }
}

/// Sends what the peer's session has queued over the peer's connection,
/// where it is connected.
fn flush_tcp(peer: &mut Peer, out: &mut Vec<Output>) -> (calls: Vec<SessionCall>)
    ensures
        session_only(*old(peer), *final(peer)),
        drained(calls@, old(peer).index),
        final(out)@ == old(out)@ + tcp_sends(calls@, old(peer).index, old(peer).endpoint.tcp_conn is Connected),
{
    let empty: Vec<u8> = Vec::new();
    let mut calls: Vec<SessionCall> = Vec::new();
    let mut done = false;
    let mut n: usize = 0;
    let ghost idx = peer.index;
    let ghost connected = peer.endpoint.tcp_conn is Connected;
    assert(old(out)@ + tcp_sends_upto(calls@, idx, connected, 0) =~= old(out)@);
    while n < 257 && !done
        invariant
            n <= 257,
            empty@.len() == 0,
            idx == old(peer).index,
            connected == (old(peer).endpoint.tcp_conn is Connected),
            session_only(*old(peer), *peer),
            calls@.len() == n,
            forall|k: int| 0 <= k < n ==> queue_call(#[trigger] calls@[k], idx),
            !done ==> forall|k: int| 0 <= k < n ==> (#[trigger] calls@[k]).outcome() is WriteToNetwork,
            done ==> n >= 1 && !(calls@[n - 1].outcome() is WriteToNetwork) && forall|k: int|
                0 <= k < n - 1 ==> (#[trigger] calls@[k]).outcome() is WriteToNetwork,
            out@ == old(out)@ + tcp_sends_upto(calls@, idx, connected, if done { n - 1 } else { n as int }),
        decreases 257 - n,
    {
        let ghost before = out@;
        let ghost prev = calls@;
        let (o, call) = peer_decapsulate(peer, None, empty.as_slice());
        calls.push(call);
        match o {
            TunnOutcome::WriteToNetwork(p) => {
                send_tcp(peer, p, out);
                proof {
                    if connected {
                        assert(old(out)@ + tcp_sends_upto(calls@, idx, connected, n + 1) =~= before.push(
                            Output::SendPeerTcp(idx, p),
                        ));
                    } else {
                        assert(old(out)@ + tcp_sends_upto(calls@, idx, connected, n + 1) =~= before);
                    }
                }
            },
            _ => {
                done = true;
                proof {
                    assert(tcp_sends_upto(calls@, idx, connected, n as int) =~= tcp_sends_upto(prev, idx, connected, n as int));
                }
            },
        }
        n = n + 1;
    }
    proof {
        assert(queue_call(calls@[0], idx));
    }
    calls
}

/// `s` is the call that handed the datagram `datagram`, received from
/// `from`, to the session of the peer with index `idx`; a session answers
/// with a packet for the tunnel device only to a data message.
pub open spec fn handed_datagram(s: SessionCall, idx: u32, from: SocketAddr, datagram: Seq<u8>) -> bool {
    &&& s.peer() == idx
    &&& s.source() == Some(from.ip)
    &&& s.input() == datagram
    &&& !s.encrypt()
    &&& (s.outcome() is WriteToTunnelV4 || s.outcome() is WriteToTunnelV6) ==> super::noise::wire_route(datagram) matches Some(
        WireRoute::Data(_),
    )
}

/// What a UDP step does with the session's answer `o` to a datagram from
/// `from`, for the peer that was `before` and is `after`: a refused
/// datagram changes nothing; otherwise the peer is reached at `from`; a
/// packet for the network goes back to `from`, followed by every queued
/// packet, in order; a decrypted packet from a source the peer is allowed
/// is written to the tunnel device; anything else does nothing.
pub open spec fn udp_answer(before: Peer, after: Peer, o: TunnOutcome, out: Seq<Output>, queued: Seq<SessionCall>, from: SocketAddr, pi: bool, af4: u8, af6: u8) -> bool {
    match o {
        TunnOutcome::Error => out.len() == 0 && queued.len() == 0 && after.endpoint == before.endpoint,
        TunnOutcome::WriteToNetwork(q) => {
            &&& reached_at(before, after, from)
            &&& drained(queued, before.index)
            &&& out == seq![Output::SendTo(from, q)] + udp_sends(queued, from)
        },
        _ => {
            &&& reached_at(before, after, from)
            &&& queued.len() == 0
            &&& match action_spec(before, o, pi, af4, af6) {
                Some(f) => out.len() == 1 && (out[0] matches Output::WriteTun(g) && g@ == f),
                None => out.len() == 0,
            }
        },
    }
}

/// What a UDP receive step did: its outputs, the rate limiter's call, the
/// session call the datagram was handed in (if any), and the calls that
/// emptied the session's queue after it.
pub struct UdpStep {
    pub outputs: Vec<Output>,
    pub limiter: LimiterCall,
    pub session: Option<SessionCall>,
    pub queued: Vec<SessionCall>,
}

/// Nothing was handed to a session and nothing changed.
pub open spec fn untouched(d: DeviceData, e: DeviceData, session: Option<SessionCall>, queued: Seq<SessionCall>) -> bool {
    session is None && queued.len() == 0 && e == d
}

/// The whole of a UDP receive step, from the device `d` to `e`.
pub open spec fn udp_step(d: DeviceData, e: DeviceData, datagram: Seq<u8>, from: SocketAddr, pi: bool, af4: u8, af6: u8, r: UdpStep) -> bool {
    &&& r.limiter.source() == Some(from.ip)
    &&& r.limiter.datagram() == datagram
    &&& match r.limiter.verdict() {
        Verified::Cookie(c) => r.outputs@ == seq![Output::SendTo(from, c)] && untouched(d, e, r.session, r.queued@),
        Verified::Rejected => r.outputs@.len() == 0 && untouched(d, e, r.session, r.queued@),
        Verified::Message(m) => match route_of(d, datagram, m) {
            None => r.outputs@.len() == 0 && untouched(d, e, r.session, r.queued@),
            Some(p) => {
                &&& r.session matches Some(s)
                &&& handed_datagram(s, d.peers.idx_at(p), from, datagram)
                &&& only_peer_changed(d, e, p)
                &&& udp_answer(
                    d.peers.entries@[p].peer,
                    e.peers.entries@[p].peer,
                    s.outcome(),
                    r.outputs@,
                    r.queued@,
                    from,
                    pi,
                    af4,
                    af6,
                )
            },
        },
    }
}

/// A datagram received over UDP from `from` (at most `MAX_PACKET` bytes, as
/// the socket's buffer): the rate limiter checks it (a cookie reply goes
/// back to `from`); a message goes to the session of its peer (see
/// `route_of`; nothing happens where there is none), with `from`'s address
/// as its source, and the step then does what `udp_answer` says.
pub fn receive_udp(device: &mut DeviceData, datagram: &[u8], from: SocketAddr, pi: bool, af4: u8, af6: u8) -> (r: UdpStep)
    requires
        old(device).wf(),
        datagram@.len() <= MAX_PACKET,
    ensures
        final(device).wf(),
        same_device(*old(device), *final(device)),
        udp_step(*old(device), *final(device), datagram@, from, pi, af4, af6, r),
{
    let mut out: Vec<Output> = Vec::new();
    let (verdict, limiter) = check_datagram(&device.rate_limiter, Some(from.ip), datagram);
    let ghost verdict_ghost = verdict;
    let route = match verdict {
        Verified::Cookie(c) => {
            out.push(Output::SendTo(from, c));
            return UdpStep { outputs: out, limiter, session: None, queued: Vec::new() };
        },
        Verified::Rejected => {
            return UdpStep { outputs: out, limiter, session: None, queued: Vec::new() };
        },
        Verified::Message(m) => packet_route(device, m, datagram),
    };
    let pos = match peer_for_packet(&device.peers, &route) {
        Some(i) => i,
        None => {
            return UdpStep { outputs: out, limiter, session: None, queued: Vec::new() };
        },
    };
    let ghost before = device.peers;
    let ghost op = device.peers.entries@[pos as int].peer;
    proof {
        assert(before.entries@[pos as int].peer.allowed_ips.wf());
    }
    let mut entry = device.peers.take_entry(pos);
    let (outcome, call) = peer_decapsulate(&mut entry.peer, Some(from.ip), datagram);
    let ghost decapped = entry.peer;
    let action = udp_receive(&mut entry.peer, outcome, from, pi, af4, af6);
    let ghost received = entry.peer;
    let mut queued: Vec<SessionCall> = Vec::new();
    proof {
        assert(decapped.allowed_ips == op.allowed_ips);
        assert(decapped.endpoint == op.endpoint);
        assert(action_spec(decapped, call.outcome(), pi, af4, af6) == action_spec(op, call.outcome(), pi, af4, af6));
    }
    match action {
        PacketAction::Send(p) => {
            out.push(Output::SendTo(from, p));
            let ghost first = out@;
            queued = flush_udp(&mut entry.peer, from, &mut out);
            proof {
                assert(call.outcome() == TunnOutcome::WriteToNetwork(p));
                assert(first =~= seq![Output::SendTo(from, p)]);
                assert(entry.peer.endpoint == received.endpoint);
                assert(reached_at(op, entry.peer, from));
            }
        },
        PacketAction::WriteTun(f) => {
            out.push(Output::WriteTun(f));
            proof {
                assert(entry.peer.endpoint == received.endpoint);
                assert(reached_at(op, entry.peer, from));
                assert(out@[0] == Output::WriteTun(f));
            }
        },
        _ => {
            proof {
                assert(entry.peer.endpoint == received.endpoint);
                if !(call.outcome() is Error) {
                    assert(reached_at(op, entry.peer, from));
                }
            }
        },
    }
    proof {
        assert(udp_answer(op, entry.peer, call.outcome(), out@, queued@, from, pi, af4, af6));
    }
    device.peers.put_entry(pos, entry, Ghost(before));
    proof {
        lemma_device_same_peers(*old(device), *device);
        assert(only_peer_changed(*old(device), *device, pos as int)) by {
            assert forall|j: int| 0 <= j < old(device).peers.entries@.len() && j != pos implies #[trigger] device.peers.entries@[j]
                == old(device).peers.entries@[j] by {}
        }
    }
    UdpStep { outputs: out, limiter, session: Some(call), queued }
}

/// What a TCP receive step did: its outputs; the index of the peer whose
/// connection the one the data came in on has become; the rate limiter's
/// call, the session call the data was handed in (if any), and the calls
/// that emptied the session's queue after it.
pub struct TcpStep {
    pub outputs: Vec<Output>,
    pub adopted: Option<u32>,
    pub limiter: LimiterCall,
    pub session: Option<SessionCall>,
    pub queued: Vec<SessionCall>,
}

/// How a TCP step leaves the connection state of the peer at `p` that its
/// data was handed to: a connection not yet bound to a peer becomes the
/// peer's where the peer has none open (nothing, or a failed one), and the
/// peer is then connected; otherwise the peer's endpoint is as it was.
pub open spec fn adopt_rule(a: DeviceData, b: DeviceData, adopted: Option<u32>, bound_to: Option<u32>, p: int) -> bool {
    let before = a.peers.entries@[p].peer.endpoint;
    let after = b.peers.entries@[p].peer.endpoint;
    if bound_to is None && (before.tcp_conn is Nothing || before.tcp_conn is ConnectedFailure) {
        &&& adopted == Some(a.peers.idx_at(p))
        &&& after.tcp_conn is Connected
        &&& addr_view(after.addr) == addr_view(before.addr)
        &&& after.udp_open == before.udp_open
    } else {
        adopted is None && after == before
    }
}

/// Where a cookie reply to data received over TCP goes: back over an
/// unbound connection; over the connection of the peer a bound one belongs
/// to, where that peer is connected.
pub open spec fn tcp_cookie_reply(d: DeviceData, bound_to: Option<u32>, c: Vec<u8>) -> Seq<Output> {
    match bound_to {
        None => seq![Output::Reply(c)],
        Some(idx) => match d.peers.idx_pos(idx) {
            Some(i) => if d.peers.entries@[i].peer.endpoint.tcp_conn is Connected {
                seq![Output::SendPeerTcp(idx, c)]
            } else {
                Seq::empty()
            },
            None => Seq::empty(),
        },
    }
}

/// What a TCP step does with the session's answer `o` for the peer that
/// was `before` (`adopted`: its connection was just adopted): a packet for
/// the network goes over the peer's connection, followed by every queued
/// packet, where the peer is connected; a decrypted packet from a source
/// the peer is allowed is written to the tunnel device; anything else does
/// nothing.
pub open spec fn tcp_answer(before: Peer, adopted: bool, o: TunnOutcome, out: Seq<Output>, queued: Seq<SessionCall>, pi: bool, af4: u8, af6: u8) -> bool {
    let connected = adopted || before.endpoint.tcp_conn is Connected;
    match o {
        TunnOutcome::Error => out.len() == 0 && queued.len() == 0,
        TunnOutcome::WriteToNetwork(q) => {
            &&& drained(queued, before.index)
            &&& out == (if connected {
                seq![Output::SendPeerTcp(before.index, q)]
            } else {
                Seq::empty()
            }) + tcp_sends(queued, before.index, connected)
        },
        _ => {
            &&& queued.len() == 0
            &&& match action_spec(before, o, pi, af4, af6) {
                Some(f) => out.len() == 1 && (out[0] matches Output::WriteTun(g) && g@ == f),
                None => out.len() == 0,
            }
        },
    }
}

/// The whole of a TCP receive step, from the device `d` to `e`.
pub open spec fn tcp_step(d: DeviceData, e: DeviceData, data: Seq<u8>, from: SocketAddr, bound_to: Option<u32>, pi: bool, af4: u8, af6: u8, r: TcpStep) -> bool {
    &&& r.limiter.source() == Some(from.ip)
    &&& r.limiter.datagram() == data
    &&& match r.limiter.verdict() {
        Verified::Cookie(c) => r.outputs@ == tcp_cookie_reply(d, bound_to, c) && r.adopted is None && untouched(
            d,
            e,
            r.session,
            r.queued@,
        ),
        Verified::Rejected => r.outputs@.len() == 0 && r.adopted is None && untouched(d, e, r.session, r.queued@),
        Verified::Message(m) => match route_of(d, data, m) {
            None => r.outputs@.len() == 0 && r.adopted is None && untouched(d, e, r.session, r.queued@),
            Some(p) => {
                &&& r.session matches Some(s)
                &&& handed_datagram(s, d.peers.idx_at(p), from, data)
                &&& only_peer_changed(d, e, p)
                &&& adopt_rule(d, e, r.adopted, bound_to, p)
                &&& tcp_answer(
                    d.peers.entries@[p].peer,
                    r.adopted is Some,
                    s.outcome(),
                    r.outputs@,
                    r.queued@,
                    pi,
                    af4,
                    af6,
                )
            },
        },
    }
}

/// Data received over a TCP connection from `from` (one read of at most
/// `MAX_PACKET` bytes); `bound_to` is the index of the peer the connection
/// belongs to, `None` for a connection accepted and not yet bound. The rate
/// limiter checks it (see `tcp_cookie_reply` for a cookie); a message goes to
/// the session of its peer (see `route_of`), whose connection the unbound
/// one becomes where it has none (see `adopt_rule`); the step then does
/// what `tcp_answer` says.
pub fn receive_tcp(device: &mut DeviceData, data: &[u8], from: SocketAddr, bound_to: Option<u32>, pi: bool, af4: u8, af6: u8) -> (r: TcpStep)
    requires
        old(device).wf(),
        data@.len() <= MAX_PACKET,
    ensures
        final(device).wf(),
        same_device(*old(device), *final(device)),
        tcp_step(*old(device), *final(device), data@, from, bound_to, pi, af4, af6, r),
{
    let mut out: Vec<Output> = Vec::new();
    let (verdict, limiter) = check_datagram(&device.rate_limiter, Some(from.ip), data);
    let route = match verdict {
        Verified::Cookie(c) => {
            match bound_to {
                None => {
                    out.push(Output::Reply(c));
                },
                Some(idx) => {
                    match device.peers.find_by_index(idx) {
                        Some(i) => {
                            send_tcp(&device.peers.entries[i].peer, c, &mut out);
                        },
                        None => {},
                    }
                },
            }
            return TcpStep { outputs: out, adopted: None, limiter, session: None, queued: Vec::new() };
        },
        Verified::Rejected => {
            return TcpStep { outputs: out, adopted: None, limiter, session: None, queued: Vec::new() };
        },
        Verified::Message(m) => packet_route(device, m, data),
    };
    let pos = match peer_for_packet(&device.peers, &route) {
        Some(i) => i,
        None => {
            return TcpStep { outputs: out, adopted: None, limiter, session: None, queued: Vec::new() };
        },
    };
    let ghost before = device.peers;
    let ghost op = device.peers.entries@[pos as int].peer;
    proof {
        assert(before.entries@[pos as int].peer.allowed_ips.wf());
    }
    let mut entry = device.peers.take_entry(pos);
    let adopted = if super::packet::adopt_tcp_connection(&mut entry.peer, bound_to.is_none()) {
        Some(entry.peer.index)
    } else {
        None
    };
    let ghost adopted_peer = entry.peer;
    let (outcome, call) = peer_decapsulate(&mut entry.peer, Some(from.ip), data);
    let ghost decapped = entry.peer;
    let action = decap_action(&entry.peer, outcome, pi, af4, af6);
    let mut queued: Vec<SessionCall> = Vec::new();
    proof {
        assert(decapped.allowed_ips == op.allowed_ips);
        assert(decapped.endpoint == adopted_peer.endpoint);
        assert(decapped.index == op.index);
        assert((decapped.endpoint.tcp_conn is Connected) == (adopted is Some || op.endpoint.tcp_conn is Connected));
        assert(action_spec(decapped, call.outcome(), pi, af4, af6) == action_spec(op, call.outcome(), pi, af4, af6));
    }
    match action {
        PacketAction::Send(p) => {
            send_tcp(&entry.peer, p, &mut out);
            let ghost first = out@;
            queued = flush_tcp(&mut entry.peer, &mut out);
            proof {
                assert(call.outcome() == TunnOutcome::WriteToNetwork(p));
                if adopted is Some || op.endpoint.tcp_conn is Connected {
                    assert(first =~= seq![Output::SendPeerTcp(op.index, p)]);
                } else {
                    assert(first =~= Seq::<Output>::empty());
                }
            }
        },
        PacketAction::WriteTun(f) => {
            out.push(Output::WriteTun(f));
            proof {
                assert(out@[0] == Output::WriteTun(f));
            }
        },
        _ => {},
    }
    proof {
        assert(entry.peer.endpoint == adopted_peer.endpoint);
        assert(tcp_answer(op, adopted is Some, call.outcome(), out@, queued@, pi, af4, af6));
    }
    let ghost last = entry;
    device.peers.put_entry(pos, entry, Ghost(before));
    proof {
        lemma_device_same_peers(*old(device), *device);
        assert(device.peers.entries@[pos as int] == last);
        assert(only_peer_changed(*old(device), *device, pos as int)) by {
            assert forall|j: int| 0 <= j < old(device).peers.entries@.len() && j != pos implies #[trigger] device.peers.entries@[j]
                == old(device).peers.entries@[j] by {}
        }
        assert(adopt_rule(*old(device), *device, adopted, bound_to, pos as int));
    }
    TcpStep { outputs: out, adopted, limiter, session: Some(call), queued }
}

/// The peer at `j` is the one the most specific network holding the
/// destination of `packet` routes to.
pub open spec fn routed_to(d: DeviceData, packet: Seq<u8>, j: int) -> bool {
    exists|a: IpAddr| super::packet::dst_address_spec(packet) == Some(#[trigger] super::packet::ip_view(a))
        && d.peers.ip_pos(a) == Some(j)
}

/// No peer's network holds the destination of `packet` (or it has none).
pub open spec fn no_route(d: DeviceData, packet: Seq<u8>) -> bool {
    forall|j: int| !#[trigger] routed_to(d, packet, j)
}

proof fn lemma_routed_unique(d: DeviceData, packet: Seq<u8>, i: int, j: int)
    requires
        routed_to(d, packet, i),
        routed_to(d, packet, j),
    ensures
        i == j,
{
    let a = choose|a: IpAddr| super::packet::dst_address_spec(packet) == Some(#[trigger] super::packet::ip_view(a))
        && d.peers.ip_pos(a) == Some(i);
    let b = choose|b: IpAddr| super::packet::dst_address_spec(packet) == Some(#[trigger] super::packet::ip_view(b))
        && d.peers.ip_pos(b) == Some(j);
    lemma_ip_view_injective(a, b);
}

/// `s` is the call that handed the packet `packet` to encrypt to the
/// session of the peer with index `idx`.
pub open spec fn handed_packet(s: SessionCall, idx: u32, packet: Seq<u8>) -> bool {
    &&& s.peer() == idx
    &&& s.input() == packet
    &&& s.encrypt()
}

/// What a packet read from the tunnel device sends: the encrypted packet,
/// to the peer's address over UDP, where the session gave one and the peer
/// has an address.
pub open spec fn udp_send_of(addr: Option<SocketAddr>, o: TunnOutcome) -> Seq<Output> {
    match (o, addr) {
        (TunnOutcome::WriteToNetwork(q), Some(a)) => seq![Output::SendTo(a, q)],
        _ => Seq::empty(),
    }
}

/// The same over TCP: over the peer's connection, where it is connected.
pub open spec fn tcp_send_of(connected: bool, idx: u32, o: TunnOutcome) -> Seq<Output> {
    match o {
        TunnOutcome::WriteToNetwork(q) => if connected {
            seq![Output::SendPeerTcp(idx, q)]
        } else {
            Seq::empty()
        },
        _ => Seq::empty(),
    }
}

/// What a step that sends a packet read from the tunnel device did: its
/// outputs and the session call the packet was handed in (if any).
pub struct SendStep {
    pub outputs: Vec<Output>,
    pub session: Option<SessionCall>,
}

/// The whole of such a step, from `d` to `e`: with no route nothing
/// happens; else the packet goes to the routed peer's session to encrypt,
/// nothing else of the device changes, and `sent` says what goes out.
pub open spec fn send_step(d: DeviceData, e: DeviceData, packet: Seq<u8>, r: SendStep, tcp: bool) -> bool {
    &&& no_route(d, packet) ==> r.outputs@.len() == 0 && r.session is None && e == d
    &&& forall|p: int| #[trigger] routed_to(d, packet, p) ==> {
        &&& r.session matches Some(s)
        &&& handed_packet(s, d.peers.idx_at(p), packet)
        &&& only_peer_changed(d, e, p)
        &&& session_only(d.peers.entries@[p].peer, e.peers.entries@[p].peer)
        &&& r.outputs@ == if tcp {
            tcp_send_of(
                d.peers.entries@[p].peer.endpoint.tcp_conn is Connected,
                d.peers.idx_at(p),
                s.outcome(),
            )
        } else {
            udp_send_of(d.peers.entries@[p].peer.endpoint.addr, s.outcome())
        }
    }
}

/// A packet read from the tunnel device, sent over UDP: encrypted by the
/// session of the peer the most specific network holding its destination
/// routes to, and sent to that peer's address.
pub fn send_udp(device: &mut DeviceData, packet: &[u8]) -> (r: SendStep)
    requires
        old(device).wf(),
        packet@.len() <= MAX_PACKET,
    ensures
        final(device).wf(),
        same_device(*old(device), *final(device)),
        send_step(*old(device), *final(device), packet@, r, false),
{
    let mut out: Vec<Output> = Vec::new();
    let pos = match route_outgoing(&device.peers, packet) {
        Some(i) => i,
        None => {
            proof {
                assert forall|j: int| !#[trigger] routed_to(*old(device), packet@, j) by {}
            }
            return SendStep { outputs: out, session: None };
        },
    };
    assert(routed_to(*old(device), packet@, pos as int));
    let ghost before = device.peers;
    let mut entry = device.peers.take_entry(pos);
    let ghost op = entry.peer;
    let (outcome, call) = peer_encapsulate(&mut entry.peer, packet);
    match outcome {
        TunnOutcome::WriteToNetwork(p) => {
            match udp_destination(&entry.peer.endpoint) {
                super::packet::UdpDestination::V4(a) => {
                    out.push(Output::SendTo(a, p));
                },
                super::packet::UdpDestination::V6(a) => {
                    out.push(Output::SendTo(a, p));
                },
                super::packet::UdpDestination::NoEndpoint => {},
            }
        },
        _ => {},
    }
    proof {
        assert(out@ == udp_send_of(op.endpoint.addr, call.outcome()));
    }
    device.peers.put_entry(pos, entry, Ghost(before));
    proof {
        lemma_device_same_peers(*old(device), *device);
        assert(only_peer_changed(*old(device), *device, pos as int)) by {
            assert forall|j: int| 0 <= j < old(device).peers.entries@.len() && j != pos implies #[trigger] device.peers.entries@[j]
                == old(device).peers.entries@[j] by {}
        }
        assert forall|p: int| #[trigger] routed_to(*old(device), packet@, p) implies p == pos by {
            lemma_routed_unique(*old(device), packet@, p, pos as int);
        }
    }
    SendStep { outputs: out, session: Some(call) }
}

/// A packet read from the tunnel device, sent over TCP: encrypted by the
/// session of the peer its destination routes to, and sent over that
/// peer's connection where it is connected.
pub fn send_tcp_from_tun(device: &mut DeviceData, packet: &[u8]) -> (r: SendStep)
    requires
        old(device).wf(),
        packet@.len() <= MAX_PACKET,
    ensures
        final(device).wf(),
        same_device(*old(device), *final(device)),
        send_step(*old(device), *final(device), packet@, r, true),
{
    let mut out: Vec<Output> = Vec::new();
    let pos = match route_outgoing(&device.peers, packet) {
        Some(i) => i,
        None => {
            proof {
                assert forall|j: int| !#[trigger] routed_to(*old(device), packet@, j) by {}
            }
            return SendStep { outputs: out, session: None };
        },
    };
    assert(routed_to(*old(device), packet@, pos as int));
    let ghost before = device.peers;
    let mut entry = device.peers.take_entry(pos);
    let ghost op = entry.peer;
    let (outcome, call) = peer_encapsulate(&mut entry.peer, packet);
    match outcome {
        TunnOutcome::WriteToNetwork(p) => {
            send_tcp(&entry.peer, p, &mut out);
        },
        _ => {},
    }
    proof {
        assert(out@ == tcp_send_of(op.endpoint.tcp_conn is Connected, op.index, call.outcome()));
    }
    device.peers.put_entry(pos, entry, Ghost(before));
    proof {
        lemma_device_same_peers(*old(device), *device);
        assert(only_peer_changed(*old(device), *device, pos as int)) by {
            assert forall|j: int| 0 <= j < old(device).peers.entries@.len() && j != pos implies #[trigger] device.peers.entries@[j]
                == old(device).peers.entries@[j] by {}
        }
        assert forall|p: int| #[trigger] routed_to(*old(device), packet@, p) implies p == pos by {
            lemma_routed_unique(*old(device), packet@, p, pos as int);
        }
    }
    SendStep { outputs: out, session: Some(call) }
}

/// How a round of the UDP timers leaves the peer `before` (now `after`),
/// given the record `c` of its timers: a peer with no address is not
/// touched and its timers do not run; every other runs its timers, and an
/// expired session closes what is open to the peer, keeping its address;
/// otherwise the endpoint is as it was.
pub open spec fn timer_peer(before: Peer, after: Peer, c: Option<TimerCall>) -> bool {
    match before.endpoint.addr {
        None => c is None && after == before,
        Some(_) => {
            &&& c matches Some(t)
            &&& t.peer() == before.index
            &&& session_only_but_endpoint(before, after)
            &&& if t.outcome() is ConnectionExpired {
                &&& addr_view(after.endpoint.addr) == addr_view(before.endpoint.addr)
                &&& !after.endpoint.udp_open
                &&& after.endpoint.tcp_conn is Nothing
            } else {
                after.endpoint == before.endpoint
            }
        },
    }
}

/// Nothing of the peer but its session and endpoint changes.
pub open spec fn session_only_but_endpoint(a: Peer, b: Peer) -> bool {
    &&& b.index == a.index
    &&& b.allowed_ips == a.allowed_ips
    &&& b.ip == a.ip
    &&& b.preshared_key == a.preshared_key
}

/// What the timers of the peer `before` send: their packet, to the peer's
/// own address.
pub open spec fn timer_send(before: Peer, c: Option<TimerCall>) -> Seq<Output> {
    match (before.endpoint.addr, c) {
        (Some(a), Some(t)) => match t.outcome() {
            TimerOutcome::WriteToNetwork(q) => seq![Output::SendTo(a, q)],
            _ => Seq::empty(),
        },
        _ => Seq::empty(),
    }
}

/// What the timers of the first `n` peers of `d` send, in the order of the
/// peers.
pub open spec fn timer_sends(d: DeviceData, calls: Seq<Option<TimerCall>>, n: int) -> Seq<Output>
    decreases n,
{
    if n <= 0 {
        Seq::empty()
    } else {
        timer_sends(d, calls, n - 1) + timer_send(d.peers.entries@[n - 1].peer, calls[n - 1])
    }
}

/// What a round of the UDP timers did: its outputs, and for each peer (by
/// position) the record of its timers, where they ran.
pub struct TimerStep {
    pub outputs: Vec<Output>,
    pub calls: Vec<Option<TimerCall>>,
}

/// One round of the timers over UDP: each peer with an address runs its
/// session's timers; an expired session closes what is open to the peer,
/// and a packet goes to the peer's own address.
pub fn udp_timers(device: &mut DeviceData) -> (r: TimerStep)
    requires
        old(device).wf(),
    ensures
        final(device).wf(),
        same_device(*old(device), *final(device)),
        r.calls@.len() == old(device).peers.entries@.len(),
        forall|j: int| 0 <= j < old(device).peers.entries@.len() ==> #[trigger] timer_peer(
            old(device).peers.entries@[j].peer,
            final(device).peers.entries@[j].peer,
            r.calls@[j],
        ),
        r.outputs@ == timer_sends(*old(device), r.calls@, old(device).peers.entries@.len() as int),
{
    let mut out: Vec<Output> = Vec::new();
    let mut calls: Vec<Option<TimerCall>> = Vec::new();
    let ghost start = *device;
    let n = device.peers.entries.len();
    let mut i: usize = 0;
    while i < n
        invariant
            start == *old(device),
            start.wf(),
            n == start.peers.entries@.len(),
            i <= n,
            device.wf(),
            same_device(start, *device),
            calls@.len() == i,
            forall|j: int| i <= j < n ==> #[trigger] device.peers.entries@[j] == start.peers.entries@[j],
            forall|j: int| 0 <= j < i ==> #[trigger] timer_peer(
                start.peers.entries@[j].peer,
                device.peers.entries@[j].peer,
                calls@[j],
            ),
            out@ == timer_sends(start, calls@, i as int),
        decreases n - i,
    {
        let ghost before = device.peers;
        let ghost dev_before = *device;
        let ghost old_out = out@;
        let mut entry = device.peers.take_entry(i);
        let ghost op = entry.peer;
        let mut record: Option<TimerCall> = None;
        match entry.peer.endpoint.addr {
            Some(a) => {
                let (outcome, call) = peer_timers(&mut entry.peer);
                let sent = timer_outcome(&mut entry.peer, outcome);
                match sent {
                    Some(p) => {
                        out.push(Output::SendTo(a, p));
                    },
                    None => {},
                }
                record = Some(call);
            },
            None => {},
        }
        proof {
            assert(op == start.peers.entries@[i as int].peer);
            assert(out@ =~= old_out + timer_send(op, record));
            assert(timer_peer(op, entry.peer, record));
        }
        let ghost old_calls = calls@;
        calls.push(record);
        let ghost last = entry;
        device.peers.put_entry(i, entry, Ghost(before));
        proof {
            lemma_device_same_peers(dev_before, *device);
            assert(device.peers.entries@[i as int] == last);
            assert(timer_sends(start, calls@, i + 1) == timer_sends(start, calls@, i as int) + timer_send(
                start.peers.entries@[i as int].peer,
                calls@[i as int],
            ));
            assert(timer_sends(start, calls@, i as int) == old_out) by {
                lemma_timer_sends_prefix(start, calls@, old_calls, i as int);
            }
            assert forall|j: int| i + 1 <= j < n implies #[trigger] device.peers.entries@[j] == start.peers.entries@[j] by {
                assert(device.peers.entries@[j] == before.entries@[j]);
            }
            assert forall|j: int| 0 <= j < i + 1 implies #[trigger] timer_peer(
                start.peers.entries@[j].peer,
                device.peers.entries@[j].peer,
                calls@[j],
            ) by {
                if j < i {
                    assert(device.peers.entries@[j] == dev_before.peers.entries@[j]);
                    assert(calls@[j] == old_calls[j]);
                } else {
                    assert(calls@[j] == record);
                    assert(device.peers.entries@[j].peer == last.peer);
                }
            }
            assert(same_peers(start.peers, device.peers)) by {
                assert forall|j: int| 0 <= j < n implies #[trigger] start.peers.key_at(j) == device.peers.key_at(j)
                    && start.peers.idx_at(j) == device.peers.idx_at(j)
                    && start.peers.entries@[j].peer.allowed_ips == device.peers.entries@[j].peer.allowed_ips by {
                    assert(start.peers.key_at(j) == before.key_at(j));
                    assert(before.key_at(j) == device.peers.key_at(j));
                }
            }
        }
        i = i + 1;
    }
    TimerStep { outputs: out, calls }
}

/// The sends of the first `n` peers depend only on their records.
proof fn lemma_timer_sends_prefix(d: DeviceData, a: Seq<Option<TimerCall>>, b: Seq<Option<TimerCall>>, n: int)
    requires
        0 <= n <= a.len(),
        n <= b.len(),
        forall|k: int| 0 <= k < n ==> a[k] == b[k],
    ensures
        timer_sends(d, a, n) == timer_sends(d, b, n),
    decreases n,
{
    if n > 0 {
        lemma_timer_sends_prefix(d, a, b, n - 1);
    }
}

/// The peer at `j` is to be dialed this round: it has an address, nothing
/// open or a failed connection, and this node is the one to dial.
pub open spec fn must_dial(d: DeviceData, j: int, node_type: NodeType, own_ip: IpAddr) -> bool {
    let p = d.peers.entries@[j].peer;
    &&& p.endpoint.addr is Some
    &&& (p.endpoint.tcp_conn is Nothing || p.endpoint.tcp_conn is ConnectedFailure)
    &&& dials(node_type, own_ip, p.ip)
}

/// Law: in a client's round of TCP timers, every peer with an address and
/// no connection (nothing open, or a failed one) is dialed at that address,
/// whatever its address in the network (see `tcp_timers`).
pub proof fn law_client_dials_unconnected_peers(d: DeviceData, j: int, own_ip: IpAddr)
    requires
        0 <= j < d.peers.entries@.len(),
        d.peers.entries@[j].peer.endpoint.addr is Some,
        d.peers.entries@[j].peer.endpoint.tcp_conn is Nothing
            || d.peers.entries@[j].peer.endpoint.tcp_conn is ConnectedFailure,
    ensures
        must_dial(d, j, NodeType::NodeClient, own_ip),
{
}

/// The peer at `j` runs its session's timers this round: it has an address
/// and is connected.
pub open spec fn runs_timers(d: DeviceData, j: int) -> bool {
    let p = d.peers.entries@[j].peer;
    p.endpoint.addr is Some && p.endpoint.tcp_conn is Connected
}

/// How a round of the TCP timers leaves the peer at `j`: its address kept;
/// a peer to dial is being dialed since `now`; a connected one stays
/// connected or, where its session expired, has nothing open; any other
/// keeps its connection state.
pub open spec fn tcp_round_peer(a: DeviceData, b: DeviceData, j: int, node_type: NodeType, own_ip: IpAddr, now: u64) -> bool {
    let before = a.peers.entries@[j].peer.endpoint;
    let after = b.peers.entries@[j].peer.endpoint;
    &&& addr_view(after.addr) == addr_view(before.addr)
    &&& if must_dial(a, j, node_type, own_ip) {
        after.tcp_conn == TcpConnection::Connecting(now)
    } else if runs_timers(a, j) {
        after.tcp_conn is Connected || (after.tcp_conn is Nothing && !after.udp_open)
    } else {
        after.tcp_conn == before.tcp_conn
    }
}

/// What a round of the TCP timers may output: a dial of a peer to dial, at
/// its address, and a packet over the connection of a peer that ran its
/// timers and is still connected.
pub open spec fn tcp_round_output(a: DeviceData, b: DeviceData, o: Output, node_type: NodeType, own_ip: IpAddr) -> bool {
    match o {
        Output::Dial(idx, s) => exists|j: int|
            0 <= j < a.peers.entries@.len() && a.peers.idx_at(j) == idx && must_dial(a, j, node_type, own_ip)
                && addr_view(a.peers.entries@[j].peer.endpoint.addr) == Some(socket_view(s)),
        Output::SendPeerTcp(idx, _) => exists|j: int|
            0 <= j < a.peers.entries@.len() && a.peers.idx_at(j) == idx && runs_timers(a, j)
                && b.peers.entries@[j].peer.endpoint.tcp_conn is Connected,
        _ => false,
    }
}

/// The peer at `j` is dialed by one of `out`, at its address.
pub open spec fn dialed_in(a: DeviceData, j: int, out: Seq<Output>) -> bool {
    exists|k: int|
        0 <= k < out.len() && (#[trigger] out[k] matches Output::Dial(idx, s) && idx == a.peers.idx_at(j)
            && addr_view(a.peers.entries@[j].peer.endpoint.addr) == Some(socket_view(s)))
}

/// One round of the timers over TCP: a peer with an
/// endpoint and nothing open is dialed where this node is the one to dial
/// (a client always is; between relays, the lower address), a peer being
/// dialed is waited for, and a connected peer runs its session's timers:
/// an expired session closes what is open to the peer, and a packet goes
/// over the peer's connection. Whether a session's timers send a packet or
/// expire is the session's; every dial is owed.
pub fn tcp_timers(device: &mut DeviceData, own_ip: &IpAddr, node_type: NodeType, now: u64) -> (r: Vec<Output>)
    requires
        old(device).wf(),
    ensures
        final(device).wf(),
        same_peers(old(device).peers, final(device).peers),
        final(device).next_index == old(device).next_index,
        forall|j: int| 0 <= j < old(device).peers.entries@.len() ==> #[trigger] tcp_round_peer(
            *old(device),
            *final(device),
            j,
            node_type,
            *own_ip,
            now,
        ),
        forall|j: int| 0 <= j < old(device).peers.entries@.len() && #[trigger] must_dial(
            *old(device),
            j,
            node_type,
            *own_ip,
        ) ==> dialed_in(*old(device), j, r@),
        forall|k: int| 0 <= k < r@.len() ==> #[trigger] tcp_round_output(
            *old(device),
            *final(device),
            r@[k],
            node_type,
            *own_ip,
        ),
{
    let mut out: Vec<Output> = Vec::new();
    let ghost start = *device;
    let n = device.peers.entries.len();
    let mut i: usize = 0;
    while i < n
        invariant
            start == *old(device),
            start.wf(),
            n == start.peers.entries@.len(),
            i <= n,
            device.wf(),
            same_peers(start.peers, device.peers),
            device.next_index == start.next_index,
            forall|j: int| i <= j < n ==> #[trigger] device.peers.entries@[j] == start.peers.entries@[j],
            forall|j: int| 0 <= j < i ==> #[trigger] tcp_round_peer(start, *device, j, node_type, *own_ip, now),
            forall|j: int| 0 <= j < i && #[trigger] must_dial(start, j, node_type, *own_ip) ==> dialed_in(start, j, out@),
            forall|k: int| 0 <= k < out@.len() ==> #[trigger] tcp_round_output(start, *device, out@[k], node_type, *own_ip),
            forall|k: int| 0 <= k < out@.len() ==> match #[trigger] out@[k] {
                Output::SendPeerTcp(idx, _) => exists|j: int| 0 <= j < i && start.peers.idx_at(j) == idx,
                _ => true,
            },
        decreases n - i,
    {
        let ghost before = device.peers;
        let ghost dev_before = *device;
        let ghost old_out = out@;
        let mut entry = device.peers.take_entry(i);
        let peer_ip = entry.peer.ip;
        let step = tcp_timer_step(&mut entry.peer.endpoint, node_type, own_ip, &peer_ip, now);
        let mut pushed = false;
        match step {
            TcpTimerAction::Dial(a) => {
                out.push(Output::Dial(entry.peer.index, a));
                pushed = true;
            },
            TcpTimerAction::RunTimers => {
                let outcome = entry.peer.update_timers();
                match timer_outcome(&mut entry.peer, outcome) {
                    Some(p) => {
                        match entry.peer.endpoint.tcp_conn {
                            TcpConnection::Connected => {
                                out.push(Output::SendPeerTcp(entry.peer.index, p));
                                pushed = true;
                            },
                            _ => {},
                        }
                    },
                    None => {},
                }
            },
            TcpTimerAction::Skip => {},
        }
        let ghost last = entry;
        device.peers.put_entry(i, entry, Ghost(before));
        proof {
            lemma_device_same_peers(dev_before, *device);
            assert(start.peers.entries@[i as int] == before.entries@[i as int]);
            assert(device.peers.entries@[i as int] == last);
            assert(start.peers.idx_at(i as int) == last.peer.index);
            assert(same_peers(start.peers, device.peers)) by {
                assert forall|j: int| 0 <= j < n implies #[trigger] start.peers.key_at(j) == device.peers.key_at(j)
                    && start.peers.idx_at(j) == device.peers.idx_at(j)
                    && start.peers.entries@[j].peer.allowed_ips == device.peers.entries@[j].peer.allowed_ips by {
                    assert(start.peers.key_at(j) == before.key_at(j));
                    assert(before.key_at(j) == device.peers.key_at(j));
                }
            }
            assert forall|j: int| i + 1 <= j < n implies #[trigger] device.peers.entries@[j] == start.peers.entries@[j] by {
                assert(device.peers.entries@[j] == before.entries@[j]);
            }
            assert(tcp_round_peer(start, *device, i as int, node_type, *own_ip, now));
            assert forall|j: int| 0 <= j < i + 1 implies #[trigger] tcp_round_peer(start, *device, j, node_type, *own_ip, now) by {
                if j < i {
                    assert(device.peers.entries@[j] == dev_before.peers.entries@[j]);
                    assert(tcp_round_peer(start, dev_before, j, node_type, *own_ip, now));
                }
            }
            assert forall|k: int| 0 <= k < out@.len() implies #[trigger] tcp_round_output(start, *device, out@[k], node_type, *own_ip) by {
                if k < old_out.len() {
                    assert(out@[k] == old_out[k]);
                    assert(tcp_round_output(start, dev_before, old_out[k], node_type, *own_ip));
                    match old_out[k] {
                        Output::SendPeerTcp(idx, _) => {
                            let j = choose|j: int| 0 <= j < start.peers.entries@.len() && start.peers.idx_at(j) == idx
                                && runs_timers(start, j) && dev_before.peers.entries@[j].peer.endpoint.tcp_conn is Connected;
                            let j2 = choose|j2: int| 0 <= j2 < i && start.peers.idx_at(j2) == idx;
                            if j != j2 {
                                if j < j2 {
                                    assert(start.peers.idx_at(j) != start.peers.idx_at(j2));
                                } else {
                                    assert(start.peers.idx_at(j2) != start.peers.idx_at(j));
                                }
                            }
                            assert(device.peers.entries@[j] == dev_before.peers.entries@[j]);
                        },
                        _ => {},
                    }
                } else {
                    assert(k == old_out.len() && pushed);
                    assert(must_dial(start, i as int, node_type, *own_ip) || runs_timers(start, i as int));
                }
            }
            assert forall|k: int| 0 <= k < out@.len() implies match #[trigger] out@[k] {
                Output::SendPeerTcp(idx, _) => exists|j: int| 0 <= j < i + 1 && start.peers.idx_at(j) == idx,
                _ => true,
            } by {
                if k < old_out.len() {
                    assert(out@[k] == old_out[k]);
                } else {
                    assert(start.peers.idx_at(i as int) == last.peer.index);
                }
            }
            assert forall|j: int| 0 <= j < i + 1 && #[trigger] must_dial(start, j, node_type, *own_ip) implies dialed_in(start, j, out@) by {
                if j < i {
                    assert(dialed_in(start, j, old_out));
                    let k = choose|k: int| 0 <= k < old_out.len() && (#[trigger] old_out[k] matches Output::Dial(idx, s) && idx == start.peers.idx_at(j)
                        && addr_view(start.peers.entries@[j].peer.endpoint.addr) == Some(socket_view(s)));
                    assert(out@[k] == old_out[k]);
                } else {
                    assert(step is Dial);
                    assert(pushed);
                    let k = old_out.len() as int;
                    assert(out@[k] matches Output::Dial(idx, s) && idx == start.peers.idx_at(j)
                        && addr_view(start.peers.entries@[j].peer.endpoint.addr) == Some(socket_view(s)));
                }
            }
        }
        i = i + 1;
    }
    out
}

/// The outcome of dialing the peer with index `idx`: connected, or failed
/// (dialed again on a later round).
pub fn tcp_dial_result(device: &mut DeviceData, idx: u32, connected: bool)
    requires
        old(device).wf(),
    ensures
        final(device).wf(),
        same_peers(old(device).peers, final(device).peers),
        final(device).next_index == old(device).next_index,
        old(device).peers.idx_pos(idx) matches Some(i) ==> (if connected {
            final(device).peers.entries@[i].peer.endpoint.tcp_conn is Connected
        } else {
            final(device).peers.entries@[i].peer.endpoint.tcp_conn is ConnectedFailure
        }),
{
    match device.peers.find_by_index(idx) {
        Some(i) => {
            let ghost before = device.peers;
            let mut entry = device.peers.take_entry(i);
            entry.peer.endpoint.tcp_conn = if connected {
                TcpConnection::Connected
            } else {
                TcpConnection::ConnectedFailure
            };
            device.peers.put_entry(i, entry, Ghost(before));
            proof {
                lemma_device_same_peers(*old(device), *device);
            }
        },
        None => {},
    }
}

/// The outcome of writing over the connection of the peer with index `idx`: a failed write marks the connection failed.
pub fn tcp_write_result(device: &mut DeviceData, idx: u32, written: bool)
    requires
        old(device).wf(),
    ensures
        final(device).wf(),
        same_peers(old(device).peers, final(device).peers),
        final(device).next_index == old(device).next_index,
        old(device).peers.idx_pos(idx) matches Some(i) ==> (if !written && old(device).peers.entries@[i].peer.endpoint.tcp_conn is Connected {
            final(device).peers.entries@[i].peer.endpoint.tcp_conn is ConnectedFailure
        } else {
            final(device).peers.entries@[i].peer.endpoint.tcp_conn == old(device).peers.entries@[i].peer.endpoint.tcp_conn
        }),
{
    match device.peers.find_by_index(idx) {
        Some(i) => {
            let ghost before = device.peers;
            let mut entry = device.peers.take_entry(i);
            let connected = match entry.peer.endpoint.tcp_conn {
                TcpConnection::Connected => true,
                _ => false,
            };
            if connected && !written {
                entry.peer.endpoint.tcp_conn = TcpConnection::ConnectedFailure;
            }
            device.peers.put_entry(i, entry, Ghost(before));
            proof {
                lemma_device_same_peers(*old(device), *device);
            }
        },
        None => {},
    }
}

} // verus!
