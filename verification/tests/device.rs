use fornet_lib::device::sys::ip_address_args;
use fornet_lib::device::allowed_ips::AllowedIps;
use fornet_lib::device::packet::{
    adopt_tcp_connection, decap_action, dst_address, peer_for_packet, route_outgoing, timer_outcome,
    tun_frame, udp_destination, udp_receive, PacketAction, PacketRoute, TimerOutcome, TunnOutcome,
    UdpDestination,
};
use fornet_lib::device::peer::{
    contains_ip, same_socket, tcp_timer_step, AllowedIP, Endpoint, Peer, SocketAddr, TcpConnection,
    TcpTimerAction,
};
use fornet_lib::device::peers::{DeviceData, Peers};
use fornet_lib::device::script_run::Scripts;
use fornet_lib::device::{check_permission, IndexLfsr, LFSR_MAX};
use fornet_lib::net::{ip_less, netmask, IpAddr};
use fornet_lib::protobuf::NodeType;

fn ip(text: &str) -> IpAddr {
    if text.contains(':') {
        // only the forms used here: "::" and "::<last byte>"
        let mut o = [0u8; 16];
        let last = text.trim_start_matches(':');
        if !last.is_empty() {
            o[15] = last.parse().unwrap();
        }
        IpAddr::V6(o)
    } else {
        let parts: Vec<u8> = text.split('.').map(|p| p.parse().unwrap()).collect();
        IpAddr::V4([parts[0], parts[1], parts[2], parts[3]])
    }
}

fn show(a: &IpAddr) -> String {
    match a {
        IpAddr::V4(o) => format!("{}.{}.{}.{}", o[0], o[1], o[2], o[3]),
        IpAddr::V6(o) => o.iter().map(|b| format!("{:02x}", b)).collect::<Vec<_>>().join(""),
    }
}

fn tunnel() -> boringtun::noise::Tunn {
    boringtun::noise::Tunn::new(
        boringtun::x25519::StaticSecret::from([1u8; 32]),
        boringtun::x25519::PublicKey::from([2u8; 32]),
        None,
        None,
        1,
        None,
    )
    .unwrap()
}

fn allowed(text: &str) -> AllowedIP {
    let (addr, cidr) = AllowedIP::split(text).unwrap();
    AllowedIP::from_parsed(Some(ip(&addr)), &cidr).unwrap()
}

fn sock(addr: &str, port: u16) -> SocketAddr {
    SocketAddr { ip: ip(addr), port, flowinfo: 0, scope_id: 0 }
}

#[test]
fn allow_ip_debug() {
    let ip_v4 = allowed("10.0.0.0/32");
    assert_eq!(ip_v4.text(&show(&ip_v4.addr)), String::from("10.0.0.0/32"));
    assert_eq!(show(&ip_v4.addr), String::from("10.0.0.0"));
}

#[test]
fn ip_compare() {
    let ip1 = ip("10.0.0.1");
    let ip2 = ip("10.0.0.2");
    println!("should be true {}", ip_less(&ip1, &ip2));
    assert!(ip_less(&ip1, &ip2));
    assert!(!ip_less(&ip2, &ip1));
    assert!(!ip_less(&ip1, &ip1));
    assert!(ip_less(&ip("255.255.255.255"), &ip("::1")));
}

#[test]
fn allowed_ip_rejects_bad_text() {
    assert_eq!(AllowedIP::split("10.0.0.0").err(), Some("Invalid IP format".to_owned()));
    assert_eq!(AllowedIP::split("1/2/3").err(), Some("Invalid IP format".to_owned()));
    assert!(AllowedIP::from_parsed(Some(ip("10.0.0.0")), "33").is_err());
    assert!(AllowedIP::from_parsed(Some(ip("::")), "128").is_ok());
    assert!(AllowedIP::from_parsed(Some(ip("::")), "129").is_err());
    assert!(AllowedIP::from_parsed(None, "24").is_err());
    assert!(AllowedIP::from_parsed(Some(ip("10.0.0.0")), "x").is_err());
}

#[test]
fn netmask_of_prefix() {
    assert_eq!(show(&netmask(false, 24)), "255.255.255.0");
    assert_eq!(show(&netmask(false, 0)), "0.0.0.0");
    assert_eq!(show(&netmask(false, 20)), "255.255.240.0");
    assert_eq!(show(&netmask(true, 64)), "ffffffffffffffff0000000000000000");
    assert_eq!(show(&allowed("10.0.0.1/8").netmask()), "255.0.0.0");
}

#[test]
fn network_membership() {
    let net = allowed("10.1.0.0/16");
    assert!(contains_ip(&net, &ip("10.1.200.3")));
    assert!(!contains_ip(&net, &ip("10.2.0.1")));
    assert!(!contains_ip(&net, &ip("::1")));
    assert!(contains_ip(&allowed("0.0.0.0/0"), &ip("8.8.8.8")));
}

#[test]
fn longest_prefix_wins() {
    let mut table: AllowedIps<u32> = AllowedIps::new();
    assert_eq!(table.insert(allowed("10.0.0.0/8"), 1), None);
    assert_eq!(table.insert(allowed("10.1.0.0/16"), 2), None);
    assert_eq!(table.find(&ip("10.1.2.3")), Some(2));
    assert_eq!(table.find(&ip("10.2.2.3")), Some(1));
    assert_eq!(table.find(&ip("11.0.0.1")), None);
    // the same network written with host bits replaces the value
    assert_eq!(table.insert(allowed("10.1.9.9/16"), 3), Some(2));
    assert_eq!(table.find(&ip("10.1.2.3")), Some(3));
    assert_eq!(table.entries.len(), 2);
    table.remove_value(3);
    assert_eq!(table.find(&ip("10.1.2.3")), Some(1));
    table.clear();
    assert_eq!(table.find(&ip("10.1.2.3")), None);
}

#[test]
fn lfsr_indexes_are_distinct() {
    let mut lfsr = IndexLfsr::default();
    let mut seen = std::collections::HashSet::new();
    for _ in 0..1000 {
        let i = lfsr.try_next().unwrap();
        assert!(i <= LFSR_MAX);
        assert!(seen.insert(i));
    }
    assert!(IndexLfsr::random_index() >= 1);
}

fn device() -> DeviceData {
    DeviceData::new("for0".to_owned(), ([1u8; 32], [2u8; 32]), 51820, Scripts::default())
}

#[test]
fn peers_are_found_by_key_index_and_address() {
    let mut d = device();
    let a = [7u8; 32];
    let b = [8u8; 32];
    assert!(d.can_add_peer(&a));
    let ia = d.update_peer(a, false, Some(sock("1.2.3.4", 51820)), &[allowed("10.0.0.2/32")], Some(25), ip("10.0.0.2"), None);
    let ib = d.update_peer(b, false, None, &[allowed("10.0.0.0/24")], None, ip("10.0.0.3"), None);
    assert_ne!(ia, ib);
    assert!(!d.can_add_peer(&a));
    assert_eq!(d.peers.find_by_key(&a), Some(0));
    assert_eq!(d.peers.find_by_key(&b), Some(1));
    assert_eq!(d.peers.find_by_index(ia), Some(0));
    assert_eq!(d.peers.find_by_index(ib), Some(1));
    assert_eq!(d.peers.find_by_ip(&ip("10.0.0.2")), Some(0));
    assert_eq!(d.peers.find_by_ip(&ip("10.0.0.77")), Some(1));
    assert_eq!(d.peers.find_by_ip(&ip("10.0.1.1")), None);
    assert_eq!(d.peers.entries[0].peer.persistent_keepalive(), Some(25));
    assert_eq!(d.peers.entries[1].peer.persistent_keepalive(), None);
    assert!(d.peers.entries[0].peer.time_since_last_handshake().is_none());
    // data for a session of peer a (index in the top 24 bits) reaches it
    assert_eq!(peer_for_packet(&d.peers, &PacketRoute::Data((ia << 8) | 5)), Some(0));
    assert_eq!(peer_for_packet(&d.peers, &PacketRoute::HandshakeResponse(ib << 8)), Some(1));
    assert_eq!(peer_for_packet(&d.peers, &PacketRoute::HandshakeInit(Some(b))), Some(1));
    assert_eq!(peer_for_packet(&d.peers, &PacketRoute::HandshakeInit(None)), None);

    d.remove_peer(&a);
    assert_eq!(d.peers.find_by_key(&a), None);
    assert_eq!(d.peers.find_by_index(ia), None);
    assert_eq!(d.peers.find_by_ip(&ip("10.0.0.2")), Some(0));
    assert_eq!(d.peers.find_by_key(&b), Some(0));
    // removing an unknown key changes nothing
    d.remove_peer(&a);
    assert_eq!(d.peers.entries.len(), 1);
    let mut scripts = Scripts::default();
    scripts.pre_down = Some("echo bye".to_owned());
    let mut d2 = DeviceData::new("for1".to_owned(), ([0u8; 32], [0u8; 32]), 0, scripts);
    d2.update_peer(a, true, None, &[], None, ip("10.0.0.9"), Some([3u8; 32]));
    assert_eq!(d2.close().as_deref(), Some("echo bye"));
    assert_eq!(d2.peers.entries.len(), 0);
    assert_eq!(d2.post_down_script(), None);
    assert_eq!(d.close(), None);
}

#[test]
fn outgoing_packets_go_by_destination() {
    let mut d = device();
    d.update_peer([9u8; 32], false, None, &[allowed("192.168.1.0/24")], None, ip("10.0.0.2"), None);
    let mut packet = vec![0u8; 20];
    packet[0] = 0x45;
    packet[16..20].copy_from_slice(&[192, 168, 1, 20]);
    assert!(matches!(dst_address(&packet), Some(IpAddr::V4([192, 168, 1, 20]))));
    assert_eq!(route_outgoing(&d.peers, &packet), Some(0));
    packet[18] = 2;
    assert_eq!(route_outgoing(&d.peers, &packet), None);
    assert!(dst_address(&packet[..19]).is_none());
    assert!(dst_address(&[]).is_none());
    let mut v6 = vec![0u8; 40];
    v6[0] = 0x60;
    v6[39] = 1;
    assert_eq!(show(&dst_address(&v6).unwrap()), show(&ip("::1")));
}

#[test]
fn tun_frames() {
    assert_eq!(tun_frame(true, 2, &[9, 9]), vec![0, 0, 0, 2, 9, 9]);
    assert_eq!(tun_frame(false, 2, &[9, 9]), vec![9, 9]);
}

#[test]
fn decapsulated_packets() {
    let peer = Peer::new(tunnel(), 1, None, &[allowed("10.0.0.0/24")], ip("10.0.0.2"), None);
    assert!(peer.is_allowed_ip(&ip("10.0.0.200")));
    assert!(!peer.is_allowed_ip(&ip("10.0.1.1")));
    assert_eq!(peer.allowed_ips().len(), 1);
    assert!(matches!(decap_action(&peer, TunnOutcome::Done, true, 2, 10), PacketAction::Nothing));
    assert!(matches!(decap_action(&peer, TunnOutcome::Error, true, 2, 10), PacketAction::Discard));
    match decap_action(&peer, TunnOutcome::WriteToNetwork(vec![1, 2]), true, 2, 10) {
        PacketAction::Send(p) => assert_eq!(p, vec![1, 2]),
        _ => panic!("expected a send"),
    }
    match decap_action(&peer, TunnOutcome::WriteToTunnelV4(vec![5], [10, 0, 0, 9]), true, 2, 10) {
        PacketAction::WriteTun(f) => assert_eq!(f, vec![0, 0, 0, 2, 5]),
        _ => panic!("expected a write"),
    }
    assert!(matches!(
        decap_action(&peer, TunnOutcome::WriteToTunnelV4(vec![5], [10, 0, 1, 9]), true, 2, 10),
        PacketAction::Nothing
    ));
    assert!(matches!(
        decap_action(&peer, TunnOutcome::WriteToTunnelV6(vec![5], [0; 16]), false, 2, 10),
        PacketAction::Nothing
    ));
}

#[test]
fn udp_receive_moves_the_endpoint() {
    let mut peer = Peer::new(tunnel(), 1, Some(sock("1.1.1.1", 1)), &[allowed("10.0.0.0/24")], ip("10.0.0.2"), None);
    peer.endpoint.udp_open = true;
    let r = udp_receive(&mut peer, TunnOutcome::Error, sock("2.2.2.2", 2), false, 2, 10);
    assert!(matches!(r, PacketAction::Discard));
    assert!(same_socket(&peer.endpoint.addr.unwrap(), &sock("1.1.1.1", 1)));
    assert!(peer.endpoint.udp_open);
    let r = udp_receive(&mut peer, TunnOutcome::Done, sock("2.2.2.2", 2), false, 2, 10);
    assert!(matches!(r, PacketAction::Nothing));
    assert!(same_socket(&peer.endpoint.addr.unwrap(), &sock("2.2.2.2", 2)));
    assert!(!peer.endpoint.udp_open);
    assert!(matches!(udp_destination(&peer.endpoint), UdpDestination::V4(_)));
    peer.set_endpoint(sock("::1", 7));
    assert!(matches!(udp_destination(&peer.endpoint), UdpDestination::V6(_)));
    assert!(matches!(udp_destination(&Endpoint::new(None)), UdpDestination::NoEndpoint));
}

#[test]
fn tcp_connections() {
    let mut peer = Peer::new(tunnel(), 1, Some(sock("1.1.1.1", 1)), &[], ip("10.0.0.2"), None);
    assert!(!adopt_tcp_connection(&mut peer, false));
    assert!(adopt_tcp_connection(&mut peer, true));
    assert!(matches!(peer.endpoint.tcp_conn, TcpConnection::Connected));
    assert!(!adopt_tcp_connection(&mut peer, true));
    let mut e = Endpoint::new(Some(sock("1.1.1.1", 1)));
    let own = ip("10.0.0.1");
    let other = ip("10.0.0.2");
    assert!(matches!(tcp_timer_step(&mut e, NodeType::NodeRelay, &other, &own, 5), TcpTimerAction::Skip));
    assert!(matches!(tcp_timer_step(&mut e, NodeType::NodeRelay, &own, &other, 5), TcpTimerAction::Dial(_)));
    assert!(matches!(e.tcp_conn, TcpConnection::Connecting(5)));
    assert!(matches!(tcp_timer_step(&mut e, NodeType::NodeRelay, &own, &other, 6), TcpTimerAction::Skip));
    e.tcp_conn = TcpConnection::Connected;
    assert!(matches!(tcp_timer_step(&mut e, NodeType::NodeClient, &own, &other, 7), TcpTimerAction::RunTimers));
    let mut none = Endpoint::new(None);
    assert!(matches!(tcp_timer_step(&mut none, NodeType::NodeClient, &own, &other, 7), TcpTimerAction::Skip));
}

#[test]
fn timers() {
    let mut peer = Peer::new(tunnel(), 1, Some(sock("1.1.1.1", 1)), &[], ip("10.0.0.2"), None);
    peer.endpoint.udp_open = true;
    assert_eq!(timer_outcome(&mut peer, TimerOutcome::WriteToNetwork(vec![4])), Some(vec![4]));
    assert!(peer.endpoint.udp_open);
    assert_eq!(timer_outcome(&mut peer, TimerOutcome::Error), None);
    assert_eq!(timer_outcome(&mut peer, TimerOutcome::ConnectionExpired), None);
    assert!(!peer.endpoint.udp_open);
    assert!(peer.endpoint.addr.is_some());
}

#[test]
fn permission() {
    assert!(check_permission());
    assert_eq!(Peers::new().entries.len(), 0);
}

#[test]
fn ip_command_arguments() {
    assert_eq!(ip_address_args(true, true, "10.0.0.2/24", "for0"), vec!["-4", "address", "add", "10.0.0.2/24", "dev", "for0"]);
    assert_eq!(ip_address_args(false, false, "fd00::2/64", "for0")[..3], ["-6", "address", "remove"]);
}

#[test]
fn adding_then_removing_a_peer_restores_the_table() {
    let mut d = device();
    let a = [7u8; 32];
    let c = [9u8; 32];
    d.update_peer(a, false, None, &[allowed("10.0.0.0/24")], None, ip("10.0.0.2"), None);
    let before: Vec<String> = d.peers.by_ip.nets().iter().map(|n| format!("{:?}/{}", n.addr, n.cidr)).collect();
    d.update_peer(c, false, None, &[allowed("10.9.0.0/16")], None, ip("10.9.0.1"), None);
    assert_eq!(d.peers.find_by_ip(&ip("10.9.1.1")), Some(1));
    d.remove_peer(&c);
    let after: Vec<String> = d.peers.by_ip.nets().iter().map(|n| format!("{:?}/{}", n.addr, n.cidr)).collect();
    assert_eq!(before, after);
    assert_eq!(d.peers.entries.len(), 1);
    assert_eq!(d.peers.find_by_ip(&ip("10.9.1.1")), None);
    assert_eq!(d.peers.find_by_ip(&ip("10.0.0.5")), Some(0));
}
