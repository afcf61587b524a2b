use base64::Engine;
use fornet_lib::api::{
    api_box_error, api_error, api_success, command_is_readable, decode_invite_code, invite_token_parse,
    parse_api_command, sso_max_retry, try_invite_token_parse, ApiClient, ApiCommand, ApiJsonResponse,
    ApiResponse, InviteError, InviteToken, OAuthDevice,
};
use fornet_lib::wr_manager::DeviceInfoResp;

#[test]
fn test_serialize_deserialize() {
    let info = api_error("test".to_string());
    assert_eq!("{\"ok\":false,\"data\":\"test\"}", info.to_json());
}

#[test]
fn test_serialize_deserialize_2() {
    let result = api_box_error("test".to_string());
    println!("{}", result.to_json());
    assert_eq!(result.to_json(), "{\"ok\":false,\"data\":\"test\"}");
}

#[test]
fn json_escapes_and_lists() {
    assert_eq!(api_success("a\"b\\c\n".to_owned()).to_json(), "{\"ok\":true,\"data\":\"a\\\"b\\\\c\\n\"}");
    let list = ApiResponse { ok: true, data: vec![DeviceInfoResp { name: "123".to_owned() }, DeviceInfoResp { name: "x".to_owned() }] };
    assert_eq!(list.to_json(), "{\"ok\":true,\"data\":[{\"name\":\"123\"},{\"name\":\"x\"}]}");
    let empty: ApiResponse<Vec<DeviceInfoResp>> = ApiResponse { ok: true, data: vec![] };
    assert_eq!(empty.to_json(), "{\"ok\":true,\"data\":[]}");
    let boxed = ApiResponse::boxed("d".to_owned());
    assert!(boxed.ok);
    assert_eq!(boxed.data, "d");
}

#[test]
fn invite_tokens() {
    let code = base64_encode("1|http://server:8080|net-1".as_bytes());
    let (v, endpoint, network, node) = invite_token_parse(&code).unwrap();
    assert_eq!((v, endpoint.as_str(), network.as_str(), node), (1, "http://server:8080", "net-1", None));
    let code = base64_encode("2|https://sso|net-2|node-9".as_bytes());
    let (v, _, network, node) = try_invite_token_parse(&code).unwrap();
    assert_eq!((v, network.as_str(), node.as_deref()), (2, "net-2", Some("node-9")));
    assert_eq!(invite_token_parse("%%%"), Err(InviteError::Base64));
    assert_eq!(invite_token_parse(&base64_encode(&[0xff, 0xfe])), Err(InviteError::Utf8));
    assert_eq!(invite_token_parse(&base64_encode("x|a|b".as_bytes())), Err(InviteError::Version));
    assert_eq!(try_invite_token_parse(&base64_encode("3|a|b".as_bytes())), Err(InviteError::Unsupported));
    assert_eq!(try_invite_token_parse(&base64_encode("1|a".as_bytes())), Err(InviteError::MissingFields));
    assert_eq!(decode_invite_code(&base64_encode("hello".as_bytes())).unwrap(), "hello");
    let token = InviteToken::new(vec!["1", "e", "n", "d"]);
    assert_eq!((token.endpoint.as_str(), token.network_token_id.as_str(), token.node_id.as_deref()), ("e", "n", Some("d")));
}

#[test]
fn commands() {
    let c = ApiClient::new("/tmp/s".to_owned());
    assert_eq!(c.join_network_command("abc"), "join abc");
    assert_eq!(c.list_network_command(), "list");
    assert_eq!(c.auto_launch_command("enable"), "autoLaunch enable");
    assert!(matches!(parse_api_command("join abc"), ApiCommand::Join(ref x) if x == "abc"));
    assert!(matches!(parse_api_command("list"), ApiCommand::List));
    assert!(matches!(parse_api_command("autoLaunch disable"), ApiCommand::AutoLaunch(Some(ref x)) if x == "disable"));
    assert!(matches!(parse_api_command("autoLaunch"), ApiCommand::AutoLaunch(None)));
    assert!(matches!(parse_api_command("reboot now"), ApiCommand::Unknown));
    assert!(!command_is_readable("join"));
    assert!(command_is_readable("list"));
}

#[test]
fn sso_retries() {
    let r = OAuthDevice {
        device_code: String::new(),
        user_code: String::new(),
        verification_uri: String::new(),
        verification_uri_complete: String::new(),
        expires_in: 600,
        interval: 5,
    };
    assert_eq!(sso_max_retry(&r), 99);
}

fn base64_encode(bytes: &[u8]) -> String {
    base64::engine::general_purpose::STANDARD.encode(bytes)
}

#[test]
fn sso_messages() {
    let grant = fornet_lib::api::OAuthDevice {
        device_code: "DC".to_owned(),
        user_code: "U".to_owned(),
        verification_uri: "http://v".to_owned(),
        verification_uri_complete: "http://v?c=U".to_owned(),
        expires_in: 600,
        interval: 5,
    };
    assert_eq!(
        fornet_lib::api::sso_prompt(&grant),
        "{\"ok\":true,\"data\":\"please open browser with http://v?c=U to login, and type in device code: DC\"}"
    );
    assert_eq!(fornet_lib::api::sso_max_retry(&grant), 99);
    assert_eq!(fornet_lib::api::sso_expired_message(), "this login cost more time than expected, please try again");
}

#[test]
fn invite_with_node_id() {
    assert_eq!(
        invite_token_parse("MnxlfG58ZA=="),
        Ok((2, "e".to_string(), "n".to_string(), Some("d".to_string())))
    );
}
