//! The WireGuard sessions of the device, run by `boringtun`: the calls the
//! device makes into it, each with what its source shows of the result.

use vstd::prelude::*;
use std::sync::Arc;
use boringtun::noise::{Packet, Tunn, TunnResult};
use boringtun::noise::errors::WireGuardError;
use boringtun::noise::rate_limiter::RateLimiter;
use boringtun::noise::handshake::parse_handshake_anon;
use boringtun::x25519::{PublicKey, StaticSecret};
use crate::net::IpAddr;
use super::packet::{TimerOutcome, TunnOutcome};
use super::peer::Peer;

verus! {

/// `boringtun::noise::Tunn`: the session state with one peer.
#[verifier::external_type_specification]
#[verifier::external_body]
pub struct ExTunn(Tunn);

/// `boringtun::noise::rate_limiter::RateLimiter`: the device's handshake
/// rate limiter, shared by its tunnels.
#[verifier::external_type_specification]
#[verifier::external_body]
pub struct ExRateLimiter(RateLimiter);

/// `boringtun::noise::TunnResult`: what a tunnel call returns, borrowing
/// the buffer it wrote into.
#[verifier::external_type_specification]
#[verifier::external_body]
pub struct ExTunnResult<'a>(TunnResult<'a>);

/// The largest packet read from a socket or the tunnel device.
pub const MAX_PACKET: usize = 65535;

/// The size of the buffer the tunnel writes into: a packet of `MAX_PACKET`
/// bytes and the 32 bytes a data message adds.
pub const BUFFER_SIZE: usize = 65567;

/// The number a little-endian `u32` at `at` gives.
pub open spec fn le_u32(d: Seq<u8>, at: int) -> int {
    d[at] + 256 * d[at + 1] + 65536 * d[at + 2] + 16777216 * d[at + 3]
}

/// What a datagram's header says it is.
pub enum WireRoute {
    /// A handshake initiation (148 bytes).
    HandshakeInit,
    /// A handshake response (92 bytes) to this receiver index.
    HandshakeResponse(u32),
    /// A cookie reply (64 bytes) to this receiver index.
    CookieReply(u32),
    /// Transport data (at least 32 bytes) to this receiver index.
    Data(u32),
}

/// How `Tunn::parse_incoming_packet` reads a datagram: the message type is
/// the little-endian `u32` of its first four bytes, and each type has its
/// size; the receiver index follows the sender index of a response, and
/// the type of the other messages.
pub open spec fn wire_route(d: Seq<u8>) -> Option<WireRoute> {
    if d.len() < 4 {
        None
    } else if le_u32(d, 0) == 1 && d.len() == 148 {
        Some(WireRoute::HandshakeInit)
    } else if le_u32(d, 0) == 2 && d.len() == 92 {
        Some(WireRoute::HandshakeResponse(le_u32(d, 8) as u32))
    } else if le_u32(d, 0) == 3 && d.len() == 64 {
        Some(WireRoute::CookieReply(le_u32(d, 4) as u32))
    } else if le_u32(d, 0) == 4 && d.len() >= 32 {
        Some(WireRoute::Data(le_u32(d, 4) as u32))
    } else {
        None
    }
}

/// What the rate limiter makes of a received datagram.
pub enum Verified {
    /// A message to hand to its peer.
    Message(WireRoute),
    /// The device is under load: send this cookie reply back instead.
    Cookie(Vec<u8>),
    /// Dropped: not a message, a bad MAC, or under load with no source.
    Rejected,
}

/// A rate limiter for the device's public key allowing `limit` handshakes
/// a second before cookies are asked for (`RateLimiter::new`).
#[verifier::external_body]
pub(crate) fn new_rate_limiter(public_key: &[u8; 32], limit: u64) -> Arc<RateLimiter> {
    Arc::new(RateLimiter::new(&PublicKey::from(*public_key), limit))
}

/// Starts a new counting period of the rate limiter
/// (`RateLimiter::reset_count`).
#[verifier::external_body]
pub(crate) fn reset_rate_limiter(limiter: &RateLimiter) {
    limiter.reset_count()
}

/// Checks a datagram's MACs and the load (`RateLimiter::verify_packet`).
/// What the source shows: a datagram that does not parse is rejected; a
/// message handed on is the one its header names; only handshake messages
/// are checked, so cookie replies and data are always handed on, and only a
/// handshake can be answered with a cookie. Which handshakes pass depends on
/// keys and load and is not stated.
#[verifier::external_body]
fn verify_datagram(limiter: &RateLimiter, source: Option<IpAddr>, datagram: &[u8]) -> (r: Verified)
    ensures
        wire_route(datagram@) is None ==> r is Rejected,
        r matches Verified::Message(m) ==> wire_route(datagram@) == Some(m),
        r is Cookie ==> (wire_route(datagram@) matches Some(m) && (m is HandshakeInit
            || m is HandshakeResponse)),
        match wire_route(datagram@) {
            Some(WireRoute::CookieReply(i)) => r == Verified::Message(WireRoute::CookieReply(i)),
            Some(WireRoute::Data(i)) => r == Verified::Message(WireRoute::Data(i)),
            _ => true,
        },
{
    let mut cookie = [0u8; 64];
    let source = match source {
        Some(IpAddr::V4(o)) => Some(o.into()),
        Some(IpAddr::V6(o)) => Some(o.into()),
        None => None,
    };
    match limiter.verify_packet(source, datagram, &mut cookie) {
        Ok(Packet::HandshakeInit(_)) => Verified::Message(WireRoute::HandshakeInit),
        Ok(Packet::HandshakeResponse(p)) => Verified::Message(WireRoute::HandshakeResponse(p.receiver_idx)),
        Ok(Packet::PacketCookieReply(p)) => Verified::Message(WireRoute::CookieReply(p.receiver_idx)),
        Ok(Packet::PacketData(p)) => Verified::Message(WireRoute::Data(p.receiver_idx)),
        Err(TunnResult::WriteToNetwork(c)) => Verified::Cookie(c.to_vec()),
        Err(_) => Verified::Rejected,
    }
}

/// The static public key that opening the handshake initiation `datagram`
/// with the key pair (`secret`, `public`) gives: `parse_handshake_anon` on
/// the datagram as `Tunn::parse_incoming_packet` reads it. A function of
/// the three alone (the decryption is deterministic); `None` where the
/// datagram is no initiation or does not open.
pub uninterp spec fn handshake_sender_of(secret: Seq<u8>, public: Seq<u8>, datagram: Seq<u8>) -> Option<Seq<u8>>;

/// The static public key of the sender of a handshake initiation, where the
/// device's key pair opens it. Only an initiation has one; the contract
/// names the key.
#[verifier::external_body]
pub(crate) fn handshake_sender(secret: &[u8; 32], public: &[u8; 32], datagram: &[u8]) -> (r: Option<[u8; 32]>)
    ensures
        r is Some ==> wire_route(datagram@) == Some(WireRoute::HandshakeInit),
        match r {
            Some(k) => handshake_sender_of(secret@, public@, datagram@) == Some(k@),
            None => handshake_sender_of(secret@, public@, datagram@) is None,
        },
{
    match Tunn::parse_incoming_packet(datagram) {
        Ok(Packet::HandshakeInit(p)) => {
            match parse_handshake_anon(&StaticSecret::from(*secret), &PublicKey::from(*public), &p) {
                Ok(h) => Some(h.peer_static_public),
                Err(_) => None,
            }
        },
        _ => None,
    }
}

/// A tunnel to the peer with public key `peer_public`, for the device's
/// secret key, with a rate limiter of its own (`Tunn::new` with no shared
/// one). The source always succeeds: its handshake set-up returns no error
/// (it reads the system clock, and panics on one set before 1970, which no
/// argument can rule out).
#[verifier::external_body]
pub(crate) fn new_tunnel(
    secret: &[u8; 32],
    peer_public: &[u8; 32],
    preshared_key: Option<[u8; 32]>,
    persistent_keepalive: Option<u16>,
    index: u32,
) -> (r: Result<Tunn, ()>)
    ensures
        r is Ok,
{
    Tunn::new(
        StaticSecret::from(*secret),
        PublicKey::from(*peer_public),
        preshared_key,
        persistent_keepalive,
        index,
        None,
    ).map_err(|_| ())
}

/// The plain form of what a tunnel call returned: its packet copied out,
/// its address as octets.
#[verifier::external_body]
fn outcome_of(result: TunnResult) -> TunnOutcome {
    match result {
        TunnResult::Done => TunnOutcome::Done,
        TunnResult::Err(_) => TunnOutcome::Error,
        TunnResult::WriteToNetwork(p) => TunnOutcome::WriteToNetwork(p.to_vec()),
        TunnResult::WriteToTunnelV4(p, a) => TunnOutcome::WriteToTunnelV4(p.to_vec(), a.octets()),
        TunnResult::WriteToTunnelV6(p, a) => TunnOutcome::WriteToTunnelV6(p.to_vec(), a.octets()),
    }
}

/// Hands a received datagram to the tunnel (`Tunn::decapsulate`); an empty
/// datagram asks for the next queued packet. The source panics where the
/// buffer is shorter than a data message's payload, hence the bound on the
/// datagram; the buffer holds every other result it writes. As the source
/// shows, only a data message is ever written to the tunnel device (a
/// queued packet or a handshake never is), and a cookie reply only updates
/// the session or is refused. What else comes out depends on the session's
/// keys and timers and is not stated.
#[verifier::external_body]
fn decapsulate(tunnel: &mut Tunn, source: Option<IpAddr>, datagram: &[u8]) -> (r: TunnOutcome)
    requires
        datagram@.len() <= MAX_PACKET,
    ensures
        (r is WriteToTunnelV4 || r is WriteToTunnelV6) ==> wire_route(datagram@) matches Some(WireRoute::Data(_)),
        wire_route(datagram@) matches Some(WireRoute::CookieReply(_)) ==> (r is Done || r is Error),
{
    let mut dst = vec![0u8; BUFFER_SIZE];
    let source = match source {
        Some(IpAddr::V4(o)) => Some(o.into()),
        Some(IpAddr::V6(o)) => Some(o.into()),
        None => None,
    };
    outcome_of(tunnel.decapsulate(source, datagram, &mut dst))
}

/// Encrypts a packet read from the tunnel device for the peer
/// (`Tunn::encapsulate`). The source panics on a buffer shorter than the
/// packet and 32 bytes, hence the bound on the packet; it never asks for a
/// write to the device. What else comes out depends on the session and is
/// not stated.
#[verifier::external_body]
fn encapsulate(tunnel: &mut Tunn, packet: &[u8]) -> (r: TunnOutcome)
    requires
        packet@.len() <= MAX_PACKET,
    ensures
        !(r is WriteToTunnelV4 || r is WriteToTunnelV6),
{
    let mut dst = vec![0u8; BUFFER_SIZE];
    outcome_of(tunnel.encapsulate(packet, &mut dst))
}

/// Runs the tunnel's timers (`Tunn::update_timers`): an expired session is
/// told apart from other errors. What comes out depends on time and is not
/// stated.
#[verifier::external_body]
fn update_timers(tunnel: &mut Tunn) -> TimerOutcome {
    let mut dst = vec![0u8; BUFFER_SIZE];
    match tunnel.update_timers(&mut dst) {
        TunnResult::Done => TimerOutcome::Done,
        TunnResult::Err(WireGuardError::ConnectionExpired) => TimerOutcome::ConnectionExpired,
        TunnResult::Err(_) => TimerOutcome::Error,
        TunnResult::WriteToNetwork(p) => TimerOutcome::WriteToNetwork(p.to_vec()),
        TunnResult::WriteToTunnelV4(_, _) => TimerOutcome::Error,
        TunnResult::WriteToTunnelV6(_, _) => TimerOutcome::Error,
    }
}

/// Time since the current session was set up, in whole seconds and
/// nanoseconds (`Tunn::time_since_last_handshake`); it depends on the clock
/// and is not stated.
#[verifier::external_body]
pub(crate) fn time_since_last_handshake(tunnel: &Tunn) -> Option<(u64, u32)> {
    tunnel.time_since_last_handshake().map(|d| (d.as_secs(), d.subsec_nanos()))
}

/// The keepalive interval the tunnel was made with
/// (`Tunn::persistent_keepalive`): `None` for none or zero.
#[verifier::external_body]
pub(crate) fn persistent_keepalive(tunnel: &Tunn) -> Option<u16> {
    tunnel.persistent_keepalive()
}

/// The rate limiter's verdict on a datagram, with what it was handed. Only
/// `check_datagram` makes one, so a record says which call was made.
pub struct LimiterCall {
    source: Ghost<Option<IpAddr>>,
    datagram: Ghost<Seq<u8>>,
    verdict: Ghost<Verified>,
}

impl LimiterCall {
    /// The source address the limiter was handed.
    pub closed spec fn source(&self) -> Option<IpAddr> {
        self.source@
    }

    /// The datagram the limiter was handed.
    pub closed spec fn datagram(&self) -> Seq<u8> {
        self.datagram@
    }

    /// What the limiter made of it.
    pub closed spec fn verdict(&self) -> Verified {
        self.verdict@
    }
}

/// Checks a datagram with the device's rate limiter (`verify_datagram`) and
/// records the call.
pub(crate) fn check_datagram(limiter: &RateLimiter, source: Option<IpAddr>, datagram: &[u8]) -> (r: (Verified, LimiterCall))
    ensures
        r.1.source() == source,
        r.1.datagram() == datagram@,
        r.1.verdict() == r.0,
        wire_route(datagram@) is None ==> r.0 is Rejected,
        r.0 matches Verified::Message(m) ==> wire_route(datagram@) == Some(m),
        r.0 is Cookie ==> (wire_route(datagram@) matches Some(m) && (m is HandshakeInit
            || m is HandshakeResponse)),
        match wire_route(datagram@) {
            Some(WireRoute::CookieReply(i)) => r.0 == Verified::Message(WireRoute::CookieReply(i)),
            Some(WireRoute::Data(i)) => r.0 == Verified::Message(WireRoute::Data(i)),
            _ => true,
        },
{
    let v = verify_datagram(limiter, source, datagram);
    let ghost g = v;
    (v, LimiterCall { source: Ghost(source), datagram: Ghost(datagram@), verdict: Ghost(g) })
}

/// A call of a peer's session, with what it was handed and what it
/// answered. Only `peer_decapsulate` and `peer_encapsulate` make one, so a
/// record says which call was made, on which peer's session.
pub struct SessionCall {
    peer: Ghost<u32>,
    source: Ghost<Option<IpAddr>>,
    input: Ghost<Seq<u8>>,
    encrypt: Ghost<bool>,
    outcome: Ghost<TunnOutcome>,
}

impl SessionCall {
    /// The index of the peer whose session was called.
    pub closed spec fn peer(&self) -> u32 {
        self.peer@
    }

    /// The source address handed to the session (a received datagram's).
    pub closed spec fn source(&self) -> Option<IpAddr> {
        self.source@
    }

    /// The bytes handed to the session.
    pub closed spec fn input(&self) -> Seq<u8> {
        self.input@
    }

    /// Whether a packet was handed in to encrypt (else a datagram to take).
    pub closed spec fn encrypt(&self) -> bool {
        self.encrypt@
    }

    /// What the session answered.
    pub closed spec fn outcome(&self) -> TunnOutcome {
        self.outcome@
    }
}

/// Only the peer's session changes.
pub open spec fn session_only(a: Peer, b: Peer) -> bool {
    &&& b.index == a.index
    &&& b.endpoint == a.endpoint
    &&& b.allowed_ips == a.allowed_ips
    &&& b.ip == a.ip
    &&& b.preshared_key == a.preshared_key
}

/// Hands a received datagram (or, empty, a request for the next queued
/// packet) to the peer's session (`decapsulate`), and records the call.
pub(crate) fn peer_decapsulate(peer: &mut Peer, source: Option<IpAddr>, datagram: &[u8]) -> (r: (TunnOutcome, SessionCall))
    requires
        datagram@.len() <= MAX_PACKET,
    ensures
        session_only(*old(peer), *final(peer)),
        r.1.peer() == old(peer).index,
        r.1.source() == source,
        r.1.input() == datagram@,
        !r.1.encrypt(),
        r.1.outcome() == r.0,
        (r.0 is WriteToTunnelV4 || r.0 is WriteToTunnelV6) ==> wire_route(datagram@) matches Some(WireRoute::Data(_)),
        wire_route(datagram@) matches Some(WireRoute::CookieReply(_)) ==> (r.0 is Done || r.0 is Error),
{
    let o = decapsulate(&mut peer.tunnel, source, datagram);
    let ghost g = o;
    (o, SessionCall { peer: Ghost(peer.index), source: Ghost(source), input: Ghost(datagram@), encrypt: Ghost(false), outcome: Ghost(g) })
}

/// Hands a packet read from the tunnel device to the peer's session to
/// encrypt (`encapsulate`), and records the call.
pub(crate) fn peer_encapsulate(peer: &mut Peer, packet: &[u8]) -> (r: (TunnOutcome, SessionCall))
    requires
        packet@.len() <= MAX_PACKET,
    ensures
        session_only(*old(peer), *final(peer)),
        r.1.peer() == old(peer).index,
        r.1.source() is None,
        r.1.input() == packet@,
        r.1.encrypt(),
        r.1.outcome() == r.0,
        !(r.0 is WriteToTunnelV4 || r.0 is WriteToTunnelV6),
{
    let o = encapsulate(&mut peer.tunnel, packet);
    let ghost g = o;
    (o, SessionCall { peer: Ghost(peer.index), source: Ghost(None), input: Ghost(packet@), encrypt: Ghost(true), outcome: Ghost(g) })
}

/// A run of a peer's session timers, with what it produced. Only
/// `peer_timers` makes one.
pub struct TimerCall {
    peer: Ghost<u32>,
    outcome: Ghost<TimerOutcome>,
}

impl TimerCall {
    /// The index of the peer whose timers ran.
    pub closed spec fn peer(&self) -> u32 {
        self.peer@
    }

    /// What the timers produced.
    pub closed spec fn outcome(&self) -> TimerOutcome {
        self.outcome@
    }
}

/// Runs the peer's session timers (`update_timers`) and records the call.
pub(crate) fn peer_timers(peer: &mut Peer) -> (r: (TimerOutcome, TimerCall))
    ensures
        session_only(*old(peer), *final(peer)),
        r.1.peer() == old(peer).index,
        r.1.outcome() == r.0,
{
    let o = update_timers(&mut peer.tunnel);
    let ghost g = o;
    (o, TimerCall { peer: Ghost(peer.index), outcome: Ghost(g) })
}

} // verus!
