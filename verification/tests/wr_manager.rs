use fornet_lib::config::{LocalConfig, NetworkInfo, ServerConfig};
use fornet_lib::device::peer::AllowedIP;
use fornet_lib::device::peers::DeviceData;
use fornet_lib::device::script_run::Scripts;
use fornet_lib::net::IpAddr;
use fornet_lib::protobuf::{Interface, NodeType};
use fornet_lib::server_manager::{server_step, should_hint_join, ServerAction, ServerMessage, StartMethod};
use fornet_lib::protobuf::{PeerChange, WrConfig};
use fornet_lib::wr_manager::{
    interface_mtu, listen_port, record_tun_name, start_finish, start_prepare, stop_wr, remove_network_info, restart_wait_secs, update_tun_name, WRManager,
};

fn interface(port: i32, mtu: Option<u32>) -> Interface {
    Interface {
        name: None,
        address: vec![],
        listen_port: port,
        dns: vec![],
        mtu,
        pre_up: None,
        post_up: None,
        pre_down: Some("down".to_owned()),
        post_down: None,
        protocol: 0,
    }
}

#[test]
fn device_settings() {
    assert_eq!(listen_port(&interface(51820, None)), 51820);
    assert_eq!(listen_port(&interface(70000, None)), 4464);
    assert_eq!(listen_port(&interface(-1, None)), 65535);
    assert_eq!(interface_mtu(&interface(0, None)), 1420);
    assert_eq!(interface_mtu(&interface(0, Some(1280))), 1280);
    assert_eq!(restart_wait_secs(NodeType::NodeRelay), 10);
    assert_eq!(restart_wait_secs(NodeType::NodeClient), 20);
    assert!(should_hint_join(StartMethod::CommandLine, false));
    assert!(!should_hint_join(StartMethod::FlutterLib, false));
    assert!(!should_hint_join(StartMethod::CommandLine, true));
}

#[test]
fn tunnel_names_are_recorded() {
    let mut c = ServerConfig { server_url: "s".to_owned(), device_id: "d".to_owned(), mqtt_url: "m".to_owned(), info: vec![] };
    assert!(record_tun_name(&mut c, &"n1".to_owned(), &"for0".to_owned()));
    assert!(!record_tun_name(&mut c, &"n1".to_owned(), &"for0".to_owned()));
    assert!(record_tun_name(&mut c, &"n1".to_owned(), &"for1".to_owned()));
    assert_eq!(c.info.len(), 1);
    c.info.push(NetworkInfo::new("n2".to_owned()));
    remove_network_info(&mut c, &"n1".to_owned());
    assert_eq!(c.info.len(), 1);
    assert_eq!(c.info[0].network_id, "n2");
    let mut local = LocalConfig::new();
    assert!(!update_tun_name(&mut local, &"for0".to_owned()));
    assert!(update_tun_name(&mut local, &"utun3".to_owned()));
    assert_eq!(local.tun_name.as_deref(), Some("utun3"));
}

#[test]
fn devices_per_network() {
    let mut m = WRManager::new();
    let net = "n1".to_owned();
    assert!(!m.is_alive(&net));
    let mut scripts = Scripts::default();
    scripts.pre_down = interface(0, None).pre_down;
    m.insert_device(net.clone(), DeviceData::new("for0".to_owned(), ([0; 32], [0; 32]), 1, scripts));
    assert!(m.is_alive(&net));
    let key = [5u8; 32];
    assert!(m.can_add_peer(&net, &key));
    let allowed = AllowedIP { addr: IpAddr::V4([10, 0, 0, 0]), cidr: 24 };
    m.add_peer(&net, key, None, &[allowed], IpAddr::V4([10, 0, 0, 3]), Some(25));
    assert!(!m.can_add_peer(&net, &key));
    assert_eq!(m.devices[0].1.peers.find_by_key(&key), Some(0));
    assert!(m.can_add_peer(&"other".to_owned(), &key));
    m.add_peer(&"other".to_owned(), key, None, &[], IpAddr::V4([10, 0, 0, 3]), None);
    m.remove_peer(&net, &key);
    assert_eq!(m.devices[0].1.peers.find_by_key(&key), None);
    assert_eq!(m.device_info()[0].name, "for0");
    let (pre, post) = m.close(&net);
    assert_eq!(pre.as_deref(), Some("down"));
    assert_eq!(post, None);
    assert!(!m.is_alive(&net));
    assert_eq!(m.close(&net), (None, None));
}

#[test]
fn stopping_a_network() {
    let mut config = ServerConfig {
        server_url: "s".to_owned(),
        device_id: "d".to_owned(),
        mqtt_url: "m".to_owned(),
        info: vec![NetworkInfo::new("n1".to_owned()), NetworkInfo::new("n2".to_owned())],
    };
    let mut manager = WRManager::new();
    let mut scripts = Scripts::default();
    scripts.pre_down = Some("bye".to_owned());
    manager.insert_device("n1".to_owned(), DeviceData::new("for0".to_owned(), ([1; 32], [2; 32]), 0, scripts));
    let out = stop_wr(&mut config, &mut manager, &"n1".to_owned(), false);
    assert!(!out.save);
    assert_eq!(out.pre_down.as_deref(), Some("bye"));
    assert_eq!(config.info.len(), 2);
    assert!(!manager.is_alive(&"n1".to_owned()));
    let out = stop_wr(&mut config, &mut manager, &"n1".to_owned(), true);
    assert!(out.save);
    assert_eq!(out.pre_down, None);
    assert_eq!(config.info.len(), 1);
    assert_eq!(config.info[0].network_id, "n2");
}

fn server_config() -> ServerConfig {
    ServerConfig {
        server_url: "s".to_owned(),
        device_id: "d".to_owned(),
        mqtt_url: "m".to_owned(),
        info: vec![NetworkInfo::new("n1".to_owned())],
    }
}

fn dev(name: &str) -> DeviceData {
    DeviceData::new(name.to_owned(), ([1; 32], [2; 32]), 0, Scripts::default())
}

#[test]
fn starting_a_network() {
    let mut manager = WRManager::new();
    let mut config = server_config();
    let good = AllowedIP { addr: IpAddr::V4([10, 0, 0, 1]), cidr: 24 };
    let e = start_prepare(&mut manager, &"n1".to_owned(), vec![Ok(good), Err("Invalid IP format".to_owned())], NodeType::NodeClient);
    assert_eq!(e.err().as_deref(), Some("Invalid IP format"));
    let p = start_prepare(&mut manager, &"n1".to_owned(), vec![Ok(good)], NodeType::NodeClient).ok().unwrap();
    assert_eq!((p.addresses.len(), p.wait_secs), (1, 0));
    assert!(start_finish(&mut config, &mut manager, "n1".to_owned(), dev("for0")));
    assert_eq!(config.info[0].tun_name.as_deref(), Some("for0"));
    assert!(manager.is_alive(&"n1".to_owned()));
    let p = start_prepare(&mut manager, &"n1".to_owned(), vec![Ok(good)], NodeType::NodeRelay).ok().unwrap();
    assert_eq!(p.wait_secs, 10);
    assert!(!manager.is_alive(&"n1".to_owned()));
    assert!(!start_finish(&mut config, &mut manager, "n1".to_owned(), dev("for0")));
}

#[test]
fn server_messages() {
    let mut manager = WRManager::new();
    let mut config = Some(server_config());
    manager.insert_device("n1".to_owned(), dev("for0"));
    let wr = WrConfig { interface: None, peers: vec![], type_: 0 };
    assert!(matches!(server_step(&mut config, &mut manager, None, ServerMessage::SyncConfig("n1".to_owned(), wr)), ServerAction::Start(id, _) if id == "n1"));
    let change = PeerChange { add_peer: None, remove_public_key: Some("k".to_owned()), change_peer: None };
    match server_step(&mut config, &mut manager, None, ServerMessage::SyncPeers("n1".to_owned(), change)) {
        ServerAction::ChangePeers(id, cmds) => assert_eq!((id.as_str(), cmds.len()), ("n1", 1)),
        _ => panic!("expected peer commands"),
    }
    let stop = ServerMessage::StopWR { network_id: "n1".to_owned(), reason: "deleted".to_owned(), delete_network: true };
    match server_step(&mut config, &mut manager, None, stop) {
        ServerAction::Stopped(o) => assert!(o.save),
        _ => panic!("expected a stop"),
    }
    assert!(!manager.is_alive(&"n1".to_owned()));
    assert!(config.as_ref().unwrap().info.is_empty());
    let mut none: Option<ServerConfig> = None;
    let wr = WrConfig { interface: None, peers: vec![], type_: 0 };
    assert!(matches!(server_step(&mut none, &mut manager, None, ServerMessage::SyncConfig("n2".to_owned(), wr)), ServerAction::Nothing));
}

#[test]
fn manager_peers() {
    let mut manager = WRManager::new();
    manager.insert_device("n1".to_owned(), dev("for0"));
    manager.insert_device("n2".to_owned(), dev("for1"));
    let key = [5u8; 32];
    manager.add_peer(&"n1".to_owned(), key, None, &[AllowedIP { addr: IpAddr::V4([10, 0, 0, 2]), cidr: 32 }], IpAddr::V4([10, 0, 0, 2]), None);
    assert_eq!(manager.devices[0].1.peers.entries.len(), 1);
    assert_eq!(manager.devices[1].1.peers.entries.len(), 0);
    assert_eq!(manager.devices[0].1.peers.find_by_ip(&IpAddr::V4([10, 0, 0, 2])), Some(0));
    manager.remove_peer(&"n1".to_owned(), &key);
    assert_eq!(manager.devices[0].1.peers.entries.len(), 0);
    manager.close(&"n1".to_owned());
    assert_eq!(manager.devices.len(), 1);
    assert_eq!(manager.devices[0].0, "n2");
}
