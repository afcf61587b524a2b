use fornet_lib::device::flow::{receive_tcp, receive_udp, send_tcp_from_tun, send_udp, tcp_dial_result, tcp_timers, tcp_write_result, udp_timers, Output};
use fornet_lib::device::peer::{AllowedIP, SocketAddr, TcpConnection};
use fornet_lib::device::peers::DeviceData;
use fornet_lib::device::script_run::Scripts;
use fornet_lib::net::IpAddr;
use fornet_lib::protobuf::NodeType;

fn sock(o: [u8; 4], port: u16) -> SocketAddr {
    SocketAddr { ip: IpAddr::V4(o), port, flowinfo: 0, scope_id: 0 }
}

fn device(secret: [u8; 32]) -> DeviceData {
    DeviceData::new("for0".to_owned(), (secret, x25519_public_key(&secret)), 51820, Scripts::default())
}

fn ip_packet(src: [u8; 4], dst: [u8; 4]) -> Vec<u8> {
    let mut p = vec![0u8; 24];
    p[0] = 0x45;
    p[3] = 24;
    p[8] = 64;
    p[12..16].copy_from_slice(&src);
    p[16..20].copy_from_slice(&dst);
    p[20..24].copy_from_slice(b"ping");
    p
}

fn sends(out: &[Output]) -> Vec<(SocketAddr, Vec<u8>)> {
    out.iter()
        .filter_map(|o| match o {
            Output::SendTo(a, p) => Some((*a, p.clone())),
            _ => None,
        })
        .collect()
}

fn same(a: &SocketAddr, b: &SocketAddr) -> bool {
    fornet_lib::device::peer::same_socket(a, b)
}

#[test]
fn a_packet_crosses_a_fresh_tunnel() {
    let sa = [3u8; 32];
    let sb = [4u8; 32];
    let addr_a = sock([192, 0, 2, 1], 51820);
    let addr_b = sock([192, 0, 2, 2], 51820);
    let mut a = device(sa);
    let mut b = device(sb);
    a.update_peer(x25519_public_key(&sb), false, Some(addr_b), &[AllowedIP { addr: IpAddr::V4([10, 0, 0, 2]), cidr: 32 }], None, IpAddr::V4([10, 0, 0, 2]), None);
    b.update_peer(x25519_public_key(&sa), false, None, &[AllowedIP { addr: IpAddr::V4([10, 0, 0, 1]), cidr: 32 }], None, IpAddr::V4([10, 0, 0, 1]), None);

    let packet = ip_packet([10, 0, 0, 1], [10, 0, 0, 2]);
    // no session yet: the packet is queued and a handshake starts, sent to b
    let out = sends(&send_udp(&mut a, &packet).outputs);
    assert_eq!(out.len(), 1);
    assert!(same(&out[0].0, &addr_b));
    let init = out[0].1.clone();
    assert_eq!(init.len(), 148);
    // a does not take its own initiation: it is not addressed to a
    assert!(receive_udp(&mut a, &init, addr_b, false, 2, 10).outputs.is_empty());

    // b answers the initiation, and learns where a is
    let out = sends(&receive_udp(&mut b, &init, addr_a, false, 2, 10).outputs);
    assert!(!out.is_empty());
    assert!(out.iter().all(|(to, _)| same(to, &addr_a)));
    assert!(same(&b.peers.entries[0].peer.endpoint.addr.unwrap(), &addr_a));
    let response = out[0].1.clone();
    assert_eq!(response.len(), 92);

    // a completes the handshake and sends what it queued
    let out = sends(&receive_udp(&mut a, &response, addr_b, false, 2, 10).outputs);
    assert!(!out.is_empty());
    let mut written = Vec::new();
    for (to, datagram) in out {
        assert!(same(&to, &addr_b));
        for o in receive_udp(&mut b, &datagram, addr_a, false, 2, 10).outputs {
            if let Output::WriteTun(f) = o {
                written.push(f);
            }
        }
    }
    assert_eq!(written, vec![packet.clone()]);

    // a packet from an address b does not allow for a is not written
    let spoofed = ip_packet([10, 0, 0, 9], [10, 0, 0, 2]);
    let out = sends(&send_udp(&mut a, &spoofed).outputs);
    assert_eq!(out.len(), 1);
    let got = receive_udp(&mut b, &out[0].1, addr_a, true, 2, 10).outputs;
    assert!(got.iter().all(|o| !matches!(o, Output::WriteTun(_))));

    // with packet information, the frame starts with the family header
    let out = sends(&send_udp(&mut a, &packet).outputs);
    let got = receive_udp(&mut b, &out[0].1, addr_a, true, 2, 10).outputs;
    let frames: Vec<Vec<u8>> = got.into_iter().filter_map(|o| if let Output::WriteTun(f) = o { Some(f) } else { None }).collect();
    assert_eq!(frames.len(), 1);
    assert_eq!(&frames[0][..4], &[0, 0, 0, 2]);
    assert_eq!(&frames[0][4..], &packet[..]);

    // timers send nothing unexpected and keep the peers
    for o in udp_timers(&mut a).outputs {
        match o {
            Output::SendTo(to, _) => assert!(same(&to, &addr_b)),
            _ => panic!("timers only send over UDP"),
        }
    }
    assert_eq!(a.peers.entries.len(), 1);
}

#[test]
fn garbage_and_unknown_peers_are_dropped() {
    let mut a = device([5u8; 32]);
    assert!(receive_udp(&mut a, &[1, 2, 3], sock([1, 1, 1, 1], 1), false, 2, 10).outputs.is_empty());
    let mut data = vec![0u8; 48];
    data[0] = 4;
    assert!(receive_udp(&mut a, &data, sock([1, 1, 1, 1], 1), false, 2, 10).outputs.is_empty());
    assert!(send_udp(&mut a, &ip_packet([10, 0, 0, 1], [10, 0, 0, 2])).outputs.is_empty());
    assert!(receive_udp(&mut a, &[9, 0, 0, 0], sock([1, 1, 1, 1], 1), false, 2, 10).outputs.is_empty());
}

#[test]
fn tcp_steps() {
    let sa = [6u8; 32];
    let sb = [7u8; 32];
    let mut a = device(sa);
    let idx = a.update_peer(x25519_public_key(&sb), false, Some(sock([192, 0, 2, 2], 443)), &[AllowedIP { addr: IpAddr::V4([10, 0, 0, 2]), cidr: 32 }], None, IpAddr::V4([10, 0, 0, 2]), None);
    // a client dials its peer
    let out = tcp_timers(&mut a, &IpAddr::V4([10, 0, 0, 1]), NodeType::NodeClient, 1);
    assert!(matches!(out.as_slice(), [Output::Dial(i, _)] if *i == idx));
    assert!(matches!(a.peers.entries[0].peer.endpoint.tcp_conn, TcpConnection::Connecting(1)));
    // while dialing nothing more is done
    assert!(tcp_timers(&mut a, &IpAddr::V4([10, 0, 0, 1]), NodeType::NodeClient, 2).is_empty());
    tcp_dial_result(&mut a, idx, true);
    assert!(matches!(a.peers.entries[0].peer.endpoint.tcp_conn, TcpConnection::Connected));
    // a packet for the peer goes over its connection
    let out = send_tcp_from_tun(&mut a, &ip_packet([10, 0, 0, 1], [10, 0, 0, 2])).outputs;
    assert!(matches!(out.as_slice(), [Output::SendPeerTcp(i, p)] if *i == idx && p.len() == 148));
    tcp_write_result(&mut a, idx, false);
    assert!(matches!(a.peers.entries[0].peer.endpoint.tcp_conn, TcpConnection::ConnectedFailure));
    // garbage on an accepted connection is dropped
    let step = receive_tcp(&mut a, &[1, 2], sock([192, 0, 2, 2], 5), None, false, 2, 10);
    assert!(step.outputs.is_empty() && step.adopted.is_none());
}

#[test]
fn a_packet_crosses_a_tcp_tunnel() {
    let sa = [11u8; 32];
    let sb = [12u8; 32];
    let addr_a = sock([192, 0, 2, 1], 40000);
    let addr_b = sock([192, 0, 2, 2], 443);
    let mut a = device(sa);
    let mut b = device(sb);
    let ib = a.update_peer(x25519_public_key(&sb), false, Some(addr_b), &[AllowedIP { addr: IpAddr::V4([10, 0, 0, 2]), cidr: 32 }], None, IpAddr::V4([10, 0, 0, 2]), None);
    let ia = b.update_peer(x25519_public_key(&sa), false, None, &[AllowedIP { addr: IpAddr::V4([10, 0, 0, 1]), cidr: 32 }], None, IpAddr::V4([10, 0, 0, 1]), None);
    tcp_dial_result(&mut a, ib, true);
    let packet = ip_packet([10, 0, 0, 1], [10, 0, 0, 2]);
    let out = send_tcp_from_tun(&mut a, &packet).outputs;
    let init = match out.as_slice() {
        [Output::SendPeerTcp(i, p)] if *i == ib => p.clone(),
        _ => panic!("the initiation goes over the peer's connection"),
    };
    // b accepted the connection: the peer takes it over and answers on it
    let step = receive_tcp(&mut b, &init, addr_a, None, false, 2, 10);
    assert_eq!(step.adopted, Some(ia));
    assert!(matches!(b.peers.entries[0].peer.endpoint.tcp_conn, TcpConnection::Connected));
    let response = match step.outputs.as_slice() {
        [Output::SendPeerTcp(i, p), ..] if *i == ia => p.clone(),
        _ => panic!("the response goes over the adopted connection"),
    };
    let step = receive_tcp(&mut a, &response, addr_b, Some(ib), false, 2, 10);
    assert!(step.adopted.is_none());
    let mut written = Vec::new();
    for o in step.outputs {
        match o {
            Output::SendPeerTcp(i, p) => {
                assert_eq!(i, ib);
                for o2 in receive_tcp(&mut b, &p, addr_a, Some(ia), false, 2, 10).outputs {
                    if let Output::WriteTun(f) = o2 {
                        written.push(f);
                    }
                }
            }
            _ => panic!("only sends over the connection"),
        }
    }
    assert_eq!(written, vec![packet]);
}

fn x25519_public_key(secret: &[u8; 32]) -> [u8; 32] {
    x25519_dalek::PublicKey::from(&x25519_dalek::StaticSecret::from(*secret)).to_bytes()
}
