use base64::Engine;
use fornet_lib::api::{InviteToken, SSOLogin};
use fornet_lib::client_manager::{
    already_joined, begin_join, check_sso_join, device_id_for, find_server, list_network, plan_auto_launch,
    plan_peer_change, present_values, record_join, answer, ApiAction, finish_join, InviteReply, record_sso_join, remove_network, try_begin_join,
    AutoLaunchPlan, JoinError, JoinPlan, PeerCommand,
};
use fornet_lib::config::{AppConfig, Identity, LocalConfig};
use fornet_lib::client_manager::ForNetClient;
use fornet_lib::device::peers::DeviceData;
use fornet_lib::device::script_run::Scripts;
use fornet_lib::net::IpAddr;
use fornet_lib::device::peer::AllowedIP;
use fornet_lib::protobuf::{Peer, PeerChange};

fn token(endpoint: &str, network: &str) -> InviteToken {
    InviteToken { endpoint: endpoint.to_owned(), network_token_id: network.to_owned(), node_id: None }
}

#[test]
fn join_list_remove() {
    let mut local = LocalConfig::new();
    let entry = record_join(&mut local, &token("http://a", "n1"), "mqtt://a".to_owned(), "dev-1".to_owned());
    assert!(entry.network_id.is_empty());
    record_join(&mut local, &token("http://a", "n2"), "mqtt://a".to_owned(), "dev-1".to_owned());
    record_join(&mut local, &token("http://b", "n3"), "mqtt://b".to_owned(), "dev-2".to_owned());
    assert_eq!(local.server_info.len(), 2);
    let names: Vec<String> = list_network(&local).into_iter().map(|d| d.name).collect();
    assert_eq!(names, vec!["n1", "n2", "n3"]);
    assert_eq!(find_server(&local, &"http://b".to_owned()), Some(1));
    assert!(already_joined(&local, &"http://a".to_owned(), &"n2".to_owned()));
    assert!(!already_joined(&local, &"http://b".to_owned(), &"n2".to_owned()));
    assert_eq!(device_id_for(&local, &"http://a".to_owned()).as_deref(), Some("dev-1"));
    remove_network(&mut local, &"n3".to_owned());
    assert_eq!(local.server_info.len(), 1);
    let names: Vec<String> = list_network(&local).into_iter().map(|d| d.name).collect();
    assert_eq!(names, vec!["n1", "n2"]);
}

#[test]
fn join_plans() {
    let local = LocalConfig::new();
    let code = base64_encode("1|http://a|n1".as_bytes());
    match begin_join(&local, &code) {
        Ok(JoinPlan::Confirm { token, device_id }) => {
            assert_eq!(token.endpoint, "http://a");
            assert_eq!(token.network_token_id, "n1");
            assert_eq!(device_id, None);
        }
        _ => panic!("expected a confirmation"),
    }
    let code = base64_encode("2|http://sso|n2".as_bytes());
    assert!(matches!(try_begin_join(&local, &code), Ok(JoinPlan::SsoLogin { .. })));
    assert!(matches!(try_begin_join(&local, &base64_encode("7|a|b".as_bytes())), Err(JoinError::Unsupported)));
    let mut joined = LocalConfig::new();
    record_join(&mut joined, &token("http://a", "n1"), "m".to_owned(), "d".to_owned());
    let e = begin_join(&joined, &code).err().unwrap();
    assert_eq!(e.message(), "ForNet now don't support join multiple network");
    let sso = SSOLogin {
        endpoint: "http://a".to_owned(),
        network_token_id: "n1".to_owned(),
        sso_url: String::new(),
        realm: String::new(),
        client_id: String::new(),
    };
    let e = check_sso_join(&joined, &sso).err().unwrap();
    assert_eq!(e.message(), "this node has joined the network n1");
    let sso2 = SSOLogin { network_token_id: "n9".to_owned(), ..sso };
    assert_eq!(check_sso_join(&joined, &sso2).ok().unwrap().as_deref(), Some("d"));
    let s = record_sso_join(&mut joined, &sso2, "mq".to_owned(), "d2".to_owned());
    assert_eq!(s.network_id, vec!["n9".to_owned()]);
    assert_eq!(joined.server_info.len(), 2);
}

fn peer(key: &str) -> Peer {
    Peer { endpoint: None, allowed_ip: vec![], public_key: key.to_owned(), persistence_keep_alive: 25, address: vec![] }
}

#[test]
fn peer_changes() {
    let me = "me".to_owned();
    let change = PeerChange { add_peer: Some(peer("x")), remove_public_key: Some("me".to_owned()), change_peer: Some(peer("me")) };
    let cmds = plan_peer_change(Some(&me), change);
    assert_eq!(cmds.len(), 1);
    assert!(matches!(&cmds[0], PeerCommand::Add(p) if p.public_key == "x"));
    let change = PeerChange { add_peer: None, remove_public_key: Some("y".to_owned()), change_peer: Some(peer("z")) };
    let cmds = plan_peer_change(None, change);
    assert!(matches!(&cmds[0], PeerCommand::Remove(k) if k == "y"));
    assert!(matches!(&cmds[1], PeerCommand::Change(p) if p.public_key == "z"));
}

#[test]
fn auto_launch_and_values() {
    assert!(matches!(plan_auto_launch("enable", false), AutoLaunchPlan::Enable));
    assert!(matches!(plan_auto_launch("enable", true), AutoLaunchPlan::Done(ref m) if m == "enable auto launch success"));
    assert!(matches!(plan_auto_launch("disable", true), AutoLaunchPlan::Disable));
    assert_eq!(present_values(vec![Some("a".to_owned()), None, Some("b".to_owned())]), vec!["a", "b"]);
}

#[test]
fn one_network_client() {
    let mut local = LocalConfig::new();
    record_join(&mut local, &token("http://a", "n1"), "m".to_owned(), "d".to_owned());
    let config = AppConfig { config_path: "/tmp/c".to_owned(), identity: Identity::new(), local_config: local };
    let mut client = ForNetClient::new(config);
    assert!(!client.is_alive());
    let mut scripts = Scripts::default();
    scripts.post_down = Some("echo gone".to_owned());
    let device = DeviceData::new("utun7".to_owned(), ([1; 32], [2; 32]), 0, scripts);
    assert_eq!(client.start(device).ok(), Some(true));
    assert_eq!(client.config.local_config.tun_name.as_deref(), Some("utun7"));
    let again = DeviceData::new("utun7".to_owned(), ([1; 32], [2; 32]), 0, Scripts::default());
    match client.start(again) {
        Err(e) => assert_eq!(e.message(), "It's already run, please stop it firstly"),
        Ok(_) => panic!("a second device must be refused"),
    }
    let key = [9u8; 32];
    assert!(client.can_add_peer(&key));
    client.add_peer(key, None, &[], IpAddr::V4([10, 0, 0, 2]), None);
    assert!(!client.can_add_peer(&key));
    client.remove_peer(&key);
    assert!(client.can_add_peer(&key));
    let (pre, post) = client.stop_network(&"n1".to_owned(), true);
    assert_eq!((pre, post.as_deref()), (None, Some("echo gone")));
    assert!(!client.is_alive());
    assert!(client.config.local_config.server_info.is_empty());
    assert_eq!(client.close(), (None, None));
}

#[test]
fn removal_by_identity() {
    let config = AppConfig { config_path: "/tmp/c".to_owned(), identity: Identity::new(), local_config: LocalConfig::new() };
    let mut client = ForNetClient::new(config);
    client.start(DeviceData::new("for0".to_owned(), ([1; 32], [2; 32]), 0, Scripts::default())).ok().unwrap();
    let peer = Identity::new();
    client.add_peer(peer.x25519_pk, None, &[], IpAddr::V4([10, 0, 0, 2]), None);
    assert!(!client.can_add_peer(&peer.x25519_pk));
    assert!(client.remove_peer_by_identity(&peer.pk_base64).is_ok());
    assert!(client.can_add_peer(&peer.x25519_pk));
    assert!(client.remove_peer_by_identity("%%").is_err());
    assert!(client.remove_peer_by_identity(&base64_encode(&[1, 2, 3])).is_err());
}

fn base64_encode(bytes: &[u8]) -> String {
    base64::engine::general_purpose::STANDARD.encode(bytes)
}

#[test]
fn join_with_server_reply() {
    let mut local = LocalConfig::new();
    let e = finish_join(&mut local, &token("http://e", "N"), InviteReply::Error("refused".to_owned())).err().unwrap();
    assert_eq!(e.message(), "connect server error!, refused");
    assert!(local.server_info.is_empty());
    let info = finish_join(
        &mut local,
        &token("http://e", "N"),
        InviteReply::Success { mqtt_url: "mqtt://e".to_owned(), device_id: "dev".to_owned() },
    )
    .ok()
    .unwrap();
    assert_eq!((info.server_url.as_str(), info.mqtt_url.as_str(), info.device_id.as_str()), ("http://e", "mqtt://e", "dev"));
    assert!(info.network_id.is_empty());
    assert_eq!(local.server_info.len(), 1);
    assert_eq!(local.server_info[0].network_id, vec!["N".to_owned()]);
}

#[test]
fn start_checks_addresses_first() {
    let config = AppConfig { config_path: "/tmp/c".to_owned(), identity: Identity::new(), local_config: LocalConfig::new() };
    let mut client = ForNetClient::new(config);
    let good = AllowedIP { addr: IpAddr::V4([10, 0, 0, 1]), cidr: 24 };
    let bad = AllowedIP::from_parsed(None, "24");
    assert_eq!(client.check_start(vec![Ok(good)]).ok().map(|v| v.len()), Some(1));
    let e = client.check_start(vec![Ok(good), bad.clone(), Ok(good)]).err().unwrap();
    assert_eq!(e.message(), "Invalid IP format");
    client.start(DeviceData::new("for0".to_owned(), ([1; 32], [2; 32]), 0, Scripts::default())).ok().unwrap();
    let e = client.check_start(vec![Ok(good)]).err().unwrap();
    assert_eq!(e.message(), "It's already run, please stop it firstly");
    let e = client.check_start(vec![bad]).err().unwrap();
    assert_eq!(e.message(), "Invalid IP format");
}

#[test]
fn command_answers() {
    let mut local = LocalConfig::new();
    record_join(&mut local, &token("http://a", "n1"), "m".to_owned(), "d".to_owned());
    assert!(matches!(answer("list", &local), ApiAction::Reply(t) if t == "{\"ok\":true,\"data\":[{\"name\":\"n1\"}]}"));
    assert!(matches!(answer("autoLaunch enable", &local), ApiAction::Reply(t) if t == "{\"ok\":false,\"data\":\"do not support\"}"));
    assert!(matches!(answer("hello", &local), ApiAction::Reply(t) if t == "unknown command"));
    assert!(matches!(answer("join CODE", &local), ApiAction::Join(c) if c == "CODE"));
}
