use fornet_lib::client_manager::ServerMessage;
use fornet_lib::config::{Identity, LocalConfig, ServerInfo};
use fornet_lib::protobuf::{
    ClientInfo, ClientMessage, Interface, NetworkInfo, NetworkMessage, NetworkStatus, PeerChange, WrConfig,
};
use fornet_lib::sc_manager::{
    after_session, check_not_started, mqtt_session, subscriptions, MqttConnections, QoS, mqtt_target, subscribe_topics, target_from_components,
    Duplication, MqttAction, MqttError, MqttWrapper, TopicRoute,
};

fn config(port: i32) -> WrConfig {
    WrConfig {
        interface: Some(Interface {
            name: None,
            address: vec!["10.0.0.2/24".to_owned()],
            listen_port: port,
            dns: vec![],
            mtu: None,
            pre_up: None,
            post_up: None,
            pre_down: None,
            post_down: None,
            protocol: 0,
        }),
        peers: vec![],
        type_: 0,
    }
}

fn wrapper() -> MqttWrapper {
    MqttWrapper::new("client/dev".to_owned(), vec!["network/a".to_owned()], Duplication::default())
}

#[test]
fn a_config_is_passed_on_once() {
    let mut w = wrapper();
    let msg = || Some(ClientMessage { network_id: "b".to_owned(), info: Some(ClientInfo::Config(config(1))) });
    let actions = w.handle_client_message(msg());
    assert_eq!(actions.len(), 2);
    assert!(matches!(&actions[0], MqttAction::Subscribe(t) if t == "network/b"));
    assert!(matches!(&actions[1], MqttAction::Send(ServerMessage::SyncConfig(id, _)) if id == "b"));
    assert_eq!(w.network_topics, vec!["network/a".to_owned(), "network/b".to_owned()]);
    assert!(w.handle_client_message(msg()).is_empty());
    let actions = w.handle_client_message(Some(ClientMessage { network_id: "b".to_owned(), info: Some(ClientInfo::Config(config(2))) }));
    assert_eq!(actions.len(), 1);
    assert!(w.handle_client_message(None).is_empty());
}

#[test]
fn a_forbidden_node_stops() {
    let mut w = wrapper();
    let actions = w.handle_client_message(Some(ClientMessage { network_id: "a".to_owned(), info: Some(ClientInfo::Status(2)) }));
    assert!(matches!(&actions[0], MqttAction::Send(ServerMessage::StopWR { network_id, reason, delete_network: true }) if network_id == "a" && reason == "node has been forbid or delete"));
    assert!(w.handle_client_message(Some(ClientMessage { network_id: "a".to_owned(), info: Some(ClientInfo::Status(2)) })).is_empty());
    assert!(w.handle_client_message(Some(ClientMessage { network_id: "a".to_owned(), info: Some(ClientInfo::Status(1)) })).is_empty());
    assert!(w.handle_client_message(Some(ClientMessage { network_id: "a".to_owned(), info: Some(ClientInfo::Status(9)) })).is_empty());
}

#[test]
fn network_messages() {
    let mut w = wrapper();
    assert_eq!(w.route(&"client/dev".to_owned()), TopicRoute::Client);
    assert_eq!(w.route(&"network/a".to_owned()), TopicRoute::Network);
    assert_eq!(w.route(&"other".to_owned()), TopicRoute::Unknown);
    let topic = "network/a".to_owned();
    let change = PeerChange { add_peer: None, remove_public_key: Some("k".to_owned()), change_peer: None };
    let actions = w.handle_network_message(&topic, Some(NetworkMessage { network_id: "a".to_owned(), info: Some(NetworkInfo::Peer(change)) }));
    assert!(matches!(&actions[0], MqttAction::Send(ServerMessage::SyncPeers(id, _)) if id == "a"));
    let actions = w.handle_network_message(&topic, Some(NetworkMessage { network_id: "a".to_owned(), info: Some(NetworkInfo::Status(Some(NetworkStatus::NetworkDelete))) }));
    assert_eq!(actions.len(), 2);
    assert!(matches!(&actions[1], MqttAction::Unsubscribe(t) if t == "network/a"));
    assert!(w.network_topics.is_empty());
    assert_eq!(w.route(&topic), TopicRoute::Unknown);
}

#[test]
fn brokers() {
    let t = mqtt_target("mqtts://broker.example:8883").ok().unwrap();
    assert!(t.tls);
    assert_eq!(t.host, "broker.example");
    assert_eq!(t.port, 8883);
    let t = mqtt_target("mqtt://broker.example").ok().unwrap();
    assert!(!t.tls);
    assert_eq!(t.port, 1883);
    assert!(matches!(mqtt_target("not a url"), Err(MqttError::InvalidUrl(_))));
    let t = target_from_components("mqtts", None, None);
    assert!(t.tls && t.host.is_empty() && t.port == 1883);
}

#[test]
fn sessions() {
    let identity = Identity::new();
    let mut local = LocalConfig::new();
    local.server_info.push(ServerInfo {
        server_url: "http://s".to_owned(),
        device_id: "dev-7".to_owned(),
        mqtt_url: "mqtt://m".to_owned(),
        network_id: vec!["n1".to_owned(), "n2".to_owned()],
    });
    let s = mqtt_session(&local, &identity, &"mqtt://m".to_owned()).ok().unwrap();
    assert_eq!(s.client_id, "dev-7");
    assert_eq!(s.username, identity.pk_base64);
    assert_eq!(s.client_topic, "client/dev-7");
    assert_eq!(s.network_topics, vec!["network/n1".to_owned(), "network/n2".to_owned()]);
    assert_eq!(s.password.split('|').count(), 3);
    assert_eq!(subscribe_topics(&s), vec!["client/dev-7".to_owned(), "network/n1".to_owned(), "network/n2".to_owned()]);
    let subs = subscriptions(&s);
    assert_eq!(subs.len(), 3);
    assert!(subs.iter().all(|(_, q)| *q == QoS::AtLeastOnce));
    assert_eq!(subs[2].0, "network/n2");
    match mqtt_session(&local, &identity, &"mqtt://x".to_owned()) {
        Err(MqttError::NoServer(m)) => assert_eq!(m, "There's no mqtt connection: mqtt://x"),
        _ => panic!("expected no server"),
    }
    match check_not_started(&"mqtt://m".to_owned(), true) {
        Err(MqttError::AlreadyStarted(m)) => assert_eq!(m, "mqtt://m mqtt connection has already started"),
        _ => panic!("expected a refusal"),
    }
    assert!(check_not_started(&"mqtt://m".to_owned(), false).is_ok());
}

#[test]
fn reconnecting() {
    let step = after_session(Some(Duplication::default()), Duplication::default(), true);
    assert_eq!(step.wait_secs, 10);
    assert!(step.retry.is_some());
    let step = after_session(Some(Duplication::default()), Duplication::default(), false);
    assert_eq!(step.wait_secs, 10);
    assert!(step.retry.is_none());
    let step = after_session(None, Duplication::default(), true);
    assert_eq!(step.wait_secs, 30);
    assert!(step.retry.is_some());
    let step = after_session(None, Duplication::default(), false);
    assert_eq!(step.wait_secs, 0);
    assert!(step.retry.is_none());
}

#[test]
fn connections_are_registered_once() {
    let mut c = MqttConnections::new();
    let url = "mqtt://m".to_owned();
    assert!(!c.is_registered(&url));
    assert!(c.start(&url).is_ok());
    assert!(c.is_registered(&url));
    match c.start(&url) {
        Err(MqttError::AlreadyStarted(m)) => assert_eq!(m, "mqtt://m mqtt connection has already started"),
        _ => panic!("a second session must be refused"),
    }
    assert!(c.stop(&url));
    assert!(!c.is_registered(&url));
    assert!(!c.stop(&url));
}
