use base64::Engine;
use fornet_lib::config::{
    join_path, sign_text, Identity, IdentityError, LocalConfig, NetworkInfo, ServerConfig, SERVER_SAVE_NAME,
};
use fornet_lib::default_config_path;
use fornet_lib::flutter_api::{get_config_path, version, ForNetFlutterMessage};
use fornet_lib::server_api::{get_server_api_socket_path, ApiClient};

#[test]
fn identity_key_files_round_trip() {
    let id = Identity::new();
    let (public_key, private_key) = id.key_files();
    assert_eq!(public_key.len(), 64);
    assert_eq!(private_key.len(), 64);
    let back = Identity::from_key_files(&public_key, &private_key);
    assert_eq!(back.x25519_pk, id.x25519_pk);
    assert_eq!(back.x25519_sk, id.x25519_sk);
    assert_eq!(back.ed25519_pk, id.ed25519_pk);
    assert_eq!(back.ed25519_sk, id.ed25519_sk);
    assert_eq!(back.pk_base64, id.pk_base64);
    assert_eq!(x25519_public_key(&id.x25519_sk), id.x25519_pk);
}

#[test]
fn public_identity_from_base64() {
    let id = Identity::new();
    let (x, ed) = Identity::get_pub_identity_from_base64(&id.pk_base64).unwrap();
    assert_eq!(x, id.x25519_pk);
    assert_eq!(ed, id.ed25519_pk);
    assert_eq!(Identity::try_get_pub_identity_from_base64("!!"), Err(IdentityError::Base64));
    assert_eq!(Identity::try_get_pub_identity_from_base64(&base64_encode(&[1, 2, 3])), Err(IdentityError::TooShort));
}

#[test]
fn signing() {
    let id = Identity::new();
    let req = id.sign(vec!["device-1".to_owned()]).unwrap();
    assert_eq!(req.public_key, id.pk_base64);
    assert_eq!(base64_decode(&req.nonce).unwrap().len(), 16);
    assert_eq!(base64_decode(&req.signature).unwrap().len(), 64);
    assert_eq!(sign_text(&vec!["a".to_owned(), "b".to_owned()], "n", 42), "a|b|n|42");
    assert_eq!(sign_text(&vec![], "n", 7), "n|7");
    assert!(id.debug_text().starts_with("Identity(x_sk:"));
    assert!(id.debug_text().ends_with(&format!("ed_pk:{})", base64_encode(&id.ed25519_pk))));
}

#[test]
fn config_paths() {
    assert_eq!(join_path("/etc/fornet", "config.json"), "/etc/fornet/config.json");
    assert_eq!(ServerConfig::config_file_path("/etc/fornet"), format!("/etc/fornet/{}", SERVER_SAVE_NAME));
    assert_eq!(LocalConfig::config_file_path("/x"), format!("/x/{}", SERVER_SAVE_NAME));
    assert!(!LocalConfig::exits("/definitely/not/here"));
    let local = LocalConfig::new();
    assert!(local.server_info.is_empty());
    assert_eq!(local.tun_name.as_deref(), Some("for0"));
    let info = NetworkInfo::new("n".to_owned());
    assert_eq!((info.network_id.as_str(), info.tun_name), ("n", None));
    assert_eq!(default_config_path(), "/etc/fornet");
    assert_eq!(get_config_path(None), "/etc/fornet");
    assert_eq!(get_config_path(Some("/c")), "/c");
    assert_eq!(version(), "0.1.0");
    assert_eq!(ApiClient::new("/s".to_owned()).version(), "0.1.0");
    assert_eq!(get_server_api_socket_path(), "/var/run/fornet.sock");
    assert_eq!(ForNetFlutterMessage::Stop, ForNetFlutterMessage::Stop);
}

fn base64_encode(bytes: &[u8]) -> String {
    base64::engine::general_purpose::STANDARD.encode(bytes)
}

fn base64_decode(text: &str) -> Option<Vec<u8>> {
    base64::engine::general_purpose::STANDARD.decode(text).ok()
}

fn x25519_public_key(secret: &[u8; 32]) -> [u8; 32] {
    x25519_dalek::PublicKey::from(&x25519_dalek::StaticSecret::from(*secret)).to_bytes()
}
