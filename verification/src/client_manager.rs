//! What the client does with the messages of the control server: which
//! networks it has joined, which peers to add or remove.

use vstd::prelude::*;
use vstd::string::*;
use crate::api::{
    api_error, command_readable, command_words, decode_invite_code, device_list_json, invite_fields, invite_text,
    invite_version, parse_api_command, response_json, ApiCommand, ApiJsonResponse, ApiResponse, InviteError,
    InviteToken, SSOLogin,
};
use crate::crypto::json_string;
use crate::text::{chars_of, parse_unsigned_chars, split_str};
use crate::protobuf::Peer;
use crate::config::{LocalConfig, ServerInfo, ServerInfoView};
use crate::protobuf::{PeerChange, PeerChangeView, WrConfig, WrConfigView};
use crate::sc_manager::other_than;
use crate::wr_manager::DeviceInfoResp;
use crate::config::AppConfig;
use crate::device::{lfsr_index, lfsr_step};
use crate::device::allowed_ips::valid_net;
use crate::device::peer::{AllowedIP, SocketAddr};
use crate::device::peers::{DeviceData, new_peer_is, peer_added, peer_removed, settings_kept};
use crate::net::IpAddr;
use crate::crypto::base64_decoded;

verus! {

/// A message from the control server, as the client handles it.
pub enum ServerMessage {
    /// NodeStatus::Normal => start WireGuard, other => stop WireGuard
    StopWR { network_id: String, reason: String, delete_network: bool },
    SyncPeers(String, PeerChange),
    SyncConfig(String, WrConfig),
}

/// The content of a `ServerMessage`.
pub enum ServerMessageView {
    StopWR { network_id: Seq<char>, reason: Seq<char>, delete_network: bool },
    SyncPeers(Seq<char>, PeerChangeView),
    SyncConfig(Seq<char>, WrConfigView),
}

impl DeepView for ServerMessage {
    type V = ServerMessageView;

    open spec fn deep_view(&self) -> ServerMessageView {
        match self {
            ServerMessage::StopWR { network_id, reason, delete_network } => ServerMessageView::StopWR {
                network_id: network_id@,
                reason: reason@,
                delete_network: *delete_network,
            },
            ServerMessage::SyncPeers(id, change) => ServerMessageView::SyncPeers(
                id@,
                change.deep_view(),
            ),
            ServerMessage::SyncConfig(id, config) => ServerMessageView::SyncConfig(
                id@,
                config.deep_view(),
            ),
        }
    }
}

/// The networks joined, server after server, in order.
pub open spec fn network_ids(servers: Seq<ServerInfoView>) -> Seq<Seq<char>>
    decreases servers.len(),
{
    if servers.len() == 0 {
        Seq::empty()
    } else {
        network_ids(servers.drop_last()) + servers.last().3
    }
}

/// The servers once `network_id` is forgotten: it leaves every server's
/// list, and a server whose list becomes empty is dropped.
pub open spec fn removed_network(servers: Seq<ServerInfoView>, network_id: Seq<char>) -> Seq<
    ServerInfoView,
>
    decreases servers.len(),
{
    if servers.len() == 0 {
        Seq::empty()
    } else {
        let rest = removed_network(servers.drop_last(), network_id);
        let s = servers.last();
        let ids = s.3.filter(other_than(network_id));
        if ids.len() > 0 {
            rest.push((s.0, s.1, s.2, ids))
        } else {
            rest
        }
    }
}

/// The servers with `network_id` added to the list of each server at
/// `endpoint`.
pub open spec fn with_network_added(
    servers: Seq<ServerInfoView>,
    endpoint: Seq<char>,
    network_id: Seq<char>,
) -> Seq<ServerInfoView>
    decreases servers.len(),
{
    if servers.len() == 0 {
        Seq::empty()
    } else {
        let rest = with_network_added(servers.drop_last(), endpoint, network_id);
        let s = servers.last();
        if s.0 == endpoint {
            rest.push((s.0, s.1, s.2, s.3.push(network_id)))
        } else {
            rest.push(s)
        }
    }
}

/// Whether a server at `endpoint` has been joined.
pub open spec fn has_server(servers: Seq<ServerInfoView>, endpoint: Seq<char>) -> bool {
    exists|i: int| 0 <= i < servers.len() && #[trigger] servers[i].0 == endpoint
}

/// The servers after joining `network_id` at `endpoint`: added to that
/// server's list where it is known, else a new server entry.
pub open spec fn joined_servers(
    servers: Seq<ServerInfoView>,
    endpoint: Seq<char>,
    network_id: Seq<char>,
    mqtt_url: Seq<char>,
    device_id: Seq<char>,
) -> Seq<ServerInfoView> {
    if has_server(servers, endpoint) {
        with_network_added(servers, endpoint, network_id)
    } else {
        servers.push((endpoint, device_id, mqtt_url, seq![network_id]))
    }
}

/// The first server at `endpoint`, by index.
pub open spec fn first_server(servers: Seq<ServerInfoView>, endpoint: Seq<char>) -> int {
    choose|i: int|
        0 <= i < servers.len() && servers[i].0 == endpoint && forall|j: int|
            0 <= j < i ==> #[trigger] servers[j].0 != endpoint
}

/// The index of the first server at `endpoint`, if there is one.
pub fn find_server(local: &LocalConfig, endpoint: &String) -> (r: Option<usize>)
    ensures
        match r {
            Some(i) => i < local.servers().len() && local.servers()[i as int].0 == endpoint@
                && forall|j: int| 0 <= j < i ==> #[trigger] local.servers()[j].0 != endpoint@,
            None => !has_server(local.servers(), endpoint@),
        },
{
    let mut i: usize = 0;
    while i < local.server_info.len()
        invariant
            i <= local.server_info@.len(),
            forall|j: int| 0 <= j < i ==> #[trigger] local.servers()[j].0 != endpoint@,
        decreases local.server_info.len() - i,
    {
        if local.server_info[i].server_url == *endpoint {
            return Some(i);
        }
        i = i + 1;
    }
    None
}

/// Whether `network_id` has been joined at a server at `endpoint`.
pub open spec fn has_joined(servers: Seq<ServerInfoView>, endpoint: Seq<char>, network_id: Seq<char>) -> bool {
    exists|i: int|
        0 <= i < servers.len() && #[trigger] servers[i].0 == endpoint && servers[i].3.contains(
            network_id,
        )
}

fn ids_contain(ids: &Vec<String>, id: &String) -> (r: bool)
    ensures
        r == ids.deep_view().contains(id@),
{
    crate::sc_manager::topics_contain(ids, id)
}

/// Whether `network_id` has been joined at a server at `endpoint`.
pub fn already_joined(local: &LocalConfig, endpoint: &String, network_id: &String) -> (r: bool)
    ensures
        r == has_joined(local.servers(), endpoint@, network_id@),
{
    let mut i: usize = 0;
    while i < local.server_info.len()
        invariant
            i <= local.server_info@.len(),
            forall|j: int|
                0 <= j < i ==> !(#[trigger] local.servers()[j].0 == endpoint@ && local.servers()[j].3.contains(
                    network_id@,
                )),
        decreases local.server_info.len() - i,
    {
        if local.server_info[i].server_url == *endpoint && ids_contain(
            &local.server_info[i].network_id,
            network_id,
        ) {
            proof {
                assert(local.servers()[i as int] == local.server_info@[i as int].deep_view());
                assert(local.servers()[i as int].0 == endpoint@ && local.servers()[i as int].3.contains(
                    network_id@,
                ));
            }
            return true;
        }
        proof {
            assert(local.servers()[i as int] == local.server_info@[i as int].deep_view());
        }
        i = i + 1;
    }
    false
}

/// The networks joined, as the list command reports them.
pub fn list_network(local: &LocalConfig) -> (r: Vec<DeviceInfoResp>)
    ensures
        r@.map_values(|d: DeviceInfoResp| d.name@) == network_ids(local.servers()),
{
    let mut r: Vec<DeviceInfoResp> = Vec::new();
    let mut i: usize = 0;
    while i < local.server_info.len()
        invariant
            i <= local.server_info@.len(),
            r@.map_values(|d: DeviceInfoResp| d.name@) == network_ids(local.servers().take(i as int)),
        decreases local.server_info.len() - i,
    {
        let ghost before = r@.map_values(|d: DeviceInfoResp| d.name@);
        let ids = &local.server_info[i].network_id;
        let mut k: usize = 0;
        while k < ids.len()
            invariant
                i < local.server_info@.len(),
                ids == &local.server_info@[i as int].network_id,
                k <= ids@.len(),
                r@.map_values(|d: DeviceInfoResp| d.name@) == before + ids.deep_view().take(k as int),
            decreases ids.len() - k,
        {
            let ghost prev = r@.map_values(|d: DeviceInfoResp| d.name@);
            r.push(DeviceInfoResp { name: ids[k].clone() });
            proof {
                assert(r@.map_values(|d: DeviceInfoResp| d.name@) =~= prev.push(ids@[k as int]@));
                assert(ids.deep_view().take(k + 1) =~= ids.deep_view().take(k as int).push(
                    ids@[k as int]@,
                ));
            }
            k = k + 1;
            proof {
                assert(r@.map_values(|d: DeviceInfoResp| d.name@) =~= before + ids.deep_view().take(
                    k as int,
                ));
            }
        }
        proof {
            assert(ids.deep_view().take(ids@.len() as int) =~= ids.deep_view());
            assert(local.servers().take(i + 1).drop_last() =~= local.servers().take(i as int));
        }
        i = i + 1;
    }
    proof {
        assert(local.servers().take(local.server_info@.len() as int) =~= local.servers());
    }
    r
}

/// Forgets `network_id`: it leaves every server's list, and servers left
/// with no network are dropped (what a deleted network or a forbidden node
/// does to the saved configuration).
pub fn remove_network(local: &mut LocalConfig, network_id: &String)
    ensures
        final(local).servers() == removed_network(old(local).servers(), network_id@),
        final(local).tun_name == old(local).tun_name,
{
    let mut kept: Vec<ServerInfo> = Vec::new();
    let mut i: usize = 0;
    while i < local.server_info.len()
        invariant
            i <= local.server_info@.len(),
            local.servers() == old(local).servers(),
            local.tun_name == old(local).tun_name,
            kept.deep_view() == removed_network(local.servers().take(i as int), network_id@),
        decreases local.server_info.len() - i,
    {
        let s = &local.server_info[i];
        let ids = crate::sc_manager::remove_topic(&s.network_id, network_id);
        proof {
            assert(local.servers().take(i + 1).drop_last() =~= local.servers().take(i as int));
        }
        if ids.len() > 0 {
            let ghost before = kept.deep_view();
            kept.push(
                ServerInfo {
                    server_url: s.server_url.clone(),
                    device_id: s.device_id.clone(),
                    mqtt_url: s.mqtt_url.clone(),
                    network_id: ids,
                },
            );
            proof {
                assert(kept.deep_view() =~= before.push(kept.deep_view().last()));
            }
        }
        i = i + 1;
    }
    proof {
        assert(local.servers().take(local.server_info@.len() as int) =~= local.servers());
    }
    local.server_info = kept;
}

/// Adds `network_id` to the list of each server at `endpoint`.
fn add_network_to_servers(local: &mut LocalConfig, endpoint: &String, network_id: &String)
    ensures
        final(local).servers() == with_network_added(old(local).servers(), endpoint@, network_id@),
        final(local).tun_name == old(local).tun_name,
{
    let mut updated: Vec<ServerInfo> = Vec::new();
    let mut i: usize = 0;
    while i < local.server_info.len()
        invariant
            i <= local.server_info@.len(),
            local.servers() == old(local).servers(),
            local.tun_name == old(local).tun_name,
            updated.deep_view() == with_network_added(
                local.servers().take(i as int),
                endpoint@,
                network_id@,
            ),
        decreases local.server_info.len() - i,
    {
        let mut s = local.server_info[i].duplicate();
        if s.server_url == *endpoint {
            let ghost ids = s.network_id.deep_view();
            s.network_id.push(network_id.clone());
            proof {
                assert(s.network_id.deep_view() =~= ids.push(network_id@));
            }
        }
        let ghost before = updated.deep_view();
        updated.push(s);
        proof {
            assert(local.servers().take(i + 1).drop_last() =~= local.servers().take(i as int));
            assert(updated.deep_view() =~= before.push(s.deep_view()));
        }
        i = i + 1;
    }
    proof {
        assert(local.servers().take(local.server_info@.len() as int) =~= local.servers());
    }
    local.server_info = updated;
}

/// Records a network joined with an invite token once the server has
/// confirmed it, and gives the server entry to connect to (with an empty
/// network list, as it is handed on).
pub fn record_join(
    local: &mut LocalConfig,
    token: &InviteToken,
    mqtt_url: String,
    device_id: String,
) -> (r: ServerInfo)
    ensures
        final(local).servers() == joined_servers(
            old(local).servers(),
            token.endpoint@,
            token.network_token_id@,
            mqtt_url@,
            device_id@,
        ),
        final(local).tun_name == old(local).tun_name,
        r.network_id@.len() == 0,
        has_server(old(local).servers(), token.endpoint@) ==> ({
            let s = old(local).servers()[first_server(old(local).servers(), token.endpoint@)];
            &&& r.server_url@ == s.0
            &&& r.device_id@ == s.1
            &&& r.mqtt_url@ == s.2
        }),
        !has_server(old(local).servers(), token.endpoint@) ==> {
            &&& r.server_url@ == token.endpoint@
            &&& r.device_id@ == device_id@
            &&& r.mqtt_url@ == mqtt_url@
        },
{
    match find_server(local, &token.endpoint) {
        Some(i) => {
            let found = &local.server_info[i];
            let r = ServerInfo {
                server_url: found.server_url.clone(),
                device_id: found.device_id.clone(),
                mqtt_url: found.mqtt_url.clone(),
                network_id: Vec::new(),
            };
            proof {
                let ss = old(local).servers();
                let f = first_server(ss, token.endpoint@);
                assert(0 <= f < ss.len() && ss[f].0 == token.endpoint@ && forall|j: int|
                    0 <= j < f ==> #[trigger] ss[j].0 != token.endpoint@);
                assert(f == i as int) by {
                    if f < i {
                        assert(ss[f].0 != token.endpoint@);
                    }
                    if f > i {
                        assert(ss[i as int].0 != token.endpoint@);
                    }
                }
            }
            add_network_to_servers(local, &token.endpoint, &token.network_token_id);
            r
        },
        None => {
            let entry = ServerInfo {
                server_url: token.endpoint.clone(),
                mqtt_url: mqtt_url.clone(),
                device_id: device_id.clone(),
                network_id: vec![token.network_token_id.clone()],
            };
            proof {
                assert(entry.network_id.deep_view() =~= seq![token.network_token_id@]);
            }
            let ghost before = local.servers();
            local.server_info.push(entry);
            proof {
                assert(local.servers() =~= before.push(
                    (token.endpoint@, device_id@, mqtt_url@, seq![token.network_token_id@]),
                ));
            }
            ServerInfo {
                server_url: token.endpoint.clone(),
                mqtt_url,
                device_id,
                network_id: Vec::new(),
            }
        },
    }
}

/// What the server answered to an invite confirmation.
pub enum InviteReply {
    /// Confirmed: the broker to listen to and the device id it gave.
    Success { mqtt_url: String, device_id: String },
    /// Refused, or not reached, with the reason.
    Error(String),
}

/// The last step of joining with a version-1 invite token: a confirmation
/// is recorded (see `record_join`) and the server entry to connect to is
/// handed on; a refusal is reported as a server error and nothing is
/// recorded.
pub fn finish_join(local: &mut LocalConfig, token: &InviteToken, reply: InviteReply) -> (r: Result<ServerInfo, JoinError>)
    ensures
        reply matches InviteReply::Error(m) ==> (r matches Err(JoinError::Server(e)) && e@ == m@) && *final(local)
            == *old(local),
        reply matches InviteReply::Success { mqtt_url, device_id } ==> r matches Ok(info) && {
            &&& final(local).servers() == joined_servers(
                old(local).servers(),
                token.endpoint@,
                token.network_token_id@,
                mqtt_url@,
                device_id@,
            )
            &&& final(local).tun_name == old(local).tun_name
            &&& info.network_id@.len() == 0
            &&& has_server(old(local).servers(), token.endpoint@) ==> ({
                let s = old(local).servers()[first_server(old(local).servers(), token.endpoint@)];
                &&& info.server_url@ == s.0
                &&& info.device_id@ == s.1
                &&& info.mqtt_url@ == s.2
            })
            &&& !has_server(old(local).servers(), token.endpoint@) ==> {
                &&& info.server_url@ == token.endpoint@
                &&& info.device_id@ == device_id@
                &&& info.mqtt_url@ == mqtt_url@
            }
        },
{
    match reply {
        InviteReply::Success { mqtt_url, device_id } => Ok(record_join(local, token, mqtt_url, device_id)),
        InviteReply::Error(m) => Err(JoinError::Server(m)),
    }
}

proof fn lemma_network_ids_append(a: Seq<ServerInfoView>, s: ServerInfoView)
    ensures
        network_ids(a.push(s)) == network_ids(a) + s.3,
{
    assert(a.push(s).drop_last() =~= a);
}

/// Law: forgetting a network takes exactly that network out of the list of
/// networks joined, and keeps the others in order.
pub proof fn law_removed_network_listing(servers: Seq<ServerInfoView>, network_id: Seq<char>)
    ensures
        network_ids(removed_network(servers, network_id)) == network_ids(servers).filter(
            other_than(network_id),
        ),
    decreases servers.len(),
{
    if servers.len() == 0 {
        reveal(Seq::filter);
    } else {
        let init = servers.drop_last();
        let s = servers.last();
        law_removed_network_listing(init, network_id);
        let ids = s.3.filter(other_than(network_id));
        let rest = removed_network(init, network_id);
        if ids.len() > 0 {
            lemma_network_ids_append(rest, (s.0, s.1, s.2, ids));
        } else {
            assert(ids =~= Seq::<Seq<char>>::empty());
            assert(network_ids(rest) =~= network_ids(rest) + ids);
        }
        Seq::filter_distributes_over_add(
            network_ids(init),
            s.3,
            other_than(network_id),
        );
    }
}

/// Law: a forgotten network is no longer listed, and every other network
/// that was listed still is.
pub proof fn law_removed_network_not_listed(
    servers: Seq<ServerInfoView>,
    network_id: Seq<char>,
    other: Seq<char>,
)
    ensures
        !network_ids(removed_network(servers, network_id)).contains(network_id),
        network_ids(servers).contains(other) && other != network_id ==> network_ids(
            removed_network(servers, network_id),
        ).contains(other),
{
    broadcast use vstd::seq_lib::group_filter_ensures;

    law_removed_network_listing(servers, network_id);
    let all = network_ids(servers);
    let p = other_than(network_id);
    if all.filter(p).contains(network_id) {
        let i = choose|i: int| 0 <= i < all.filter(p).len() && all.filter(p)[i] == network_id;
        all.lemma_filter_pred(p, i);
    }
    if all.contains(other) && other != network_id {
        let i = choose|i: int| 0 <= i < all.len() && all[i] == other;
        all.lemma_filter_contains(p, i);
    }
}

proof fn lemma_added_lists(servers: Seq<ServerInfoView>, endpoint: Seq<char>, network_id: Seq<char>)
    requires
        has_server(servers, endpoint),
    ensures
        network_ids(with_network_added(servers, endpoint, network_id)).contains(network_id),
    decreases servers.len(),
{
    let init = servers.drop_last();
    let s = servers.last();
    let rest = with_network_added(init, endpoint, network_id);
    if s.0 == endpoint {
        lemma_network_ids_append(rest, (s.0, s.1, s.2, s.3.push(network_id)));
        let all = network_ids(rest) + s.3.push(network_id);
        assert(all[all.len() - 1] == network_id);
    } else {
        let i = choose|i: int| 0 <= i < servers.len() && #[trigger] servers[i].0 == endpoint;
        assert(init[i].0 == endpoint);
        lemma_added_lists(init, endpoint, network_id);
        lemma_network_ids_append(rest, s);
        let k = choose|k: int| 0 <= k < network_ids(rest).len() && network_ids(rest)[k] == network_id;
        assert((network_ids(rest) + s.3)[k] == network_id);
    }
}

/// Law: a network joined is listed afterwards.
pub proof fn law_joined_network_listed(
    servers: Seq<ServerInfoView>,
    endpoint: Seq<char>,
    network_id: Seq<char>,
    mqtt_url: Seq<char>,
    device_id: Seq<char>,
)
    ensures
        network_ids(joined_servers(servers, endpoint, network_id, mqtt_url, device_id)).contains(
            network_id,
        ),
        has_joined(joined_servers(servers, endpoint, network_id, mqtt_url, device_id), endpoint, network_id) || has_server(servers, endpoint),
{
    if has_server(servers, endpoint) {
        lemma_added_lists(servers, endpoint, network_id);
    } else {
        let entry = (endpoint, device_id, mqtt_url, seq![network_id]);
        lemma_network_ids_append(servers, entry);
        let all = network_ids(servers) + seq![network_id];
        assert(all[all.len() - 1] == network_id);
        let js = servers.push(entry);
        assert(js[servers.len() as int].0 == endpoint);
        assert(js[servers.len() as int].3[0] == network_id);
    }
}

/// Why a network could not be joined.
pub enum JoinError {
    /// A network has been joined already; only one is supported.
    MultipleNetwork,
    /// The invite code could not be read.
    Invite(InviteError),
    /// The network has been joined already.
    AlreadyJoined(String),
    /// The invite code is of a version this client does not read.
    Unsupported,
    /// The server refused the invite, or could not be reached; the text
    /// says why.
    Server(String),
}

impl JoinError {
    /// The message the error is reported with. For an unreadable invite
    /// code it names what was wrong with it.
    pub fn message(&self) -> (r: String)
        ensures
            self is MultipleNetwork ==> r@ == "ForNet now don't support join multiple network"@,
            self matches JoinError::AlreadyJoined(id) ==> r@ == "this node has joined the network "@
                + id@,
            self is Unsupported ==> r@
                == "please upgrade ForNet, it does not support the new join network format"@,
            self matches JoinError::Server(m) ==> r@ == "connect server error!, "@ + m@,
    {
        match self {
            JoinError::MultipleNetwork => "ForNet now don't support join multiple network".to_owned(),
            JoinError::Invite(InviteError::Base64) => "invalid invite code: not base64".to_owned(),
            JoinError::Invite(InviteError::Utf8) => "invalid invite code: not utf-8".to_owned(),
            JoinError::Invite(_) => "invalid invite code: bad version".to_owned(),
            JoinError::AlreadyJoined(id) => {
                let mut m = "this node has joined the network ".to_owned();
                m.append(id.as_str());
                m
            },
            JoinError::Unsupported => "please upgrade ForNet, it does not support the new join network format".to_owned(),
            JoinError::Server(m) => {
                let mut t = "connect server error!, ".to_owned();
                t.append(m.as_str());
                t
            },
        }
    }
}

/// What joining takes once the invite code has been read.
pub enum JoinPlan {
    /// Version 1: the server confirms the invite; `device_id` is that of the
    /// server already joined at the token's endpoint, if any.
    Confirm { token: InviteToken, device_id: Option<String> },
    /// Version 2: log in through the SSO of the network at `endpoint`.
    SsoLogin { endpoint: String, network_token_id: String },
}

/// The invite texts a join can read: a known version needs three
/// fields.
pub open spec fn join_text_readable(text: Seq<char>) -> bool {
    invite_version(text) matches Some(v) ==> ((v == 1 || v == 2) ==> invite_fields(text).len() >= 3)
}

/// The device id of the first server at `endpoint`, if one was joined.
pub open spec fn device_id_at(servers: Seq<ServerInfoView>, endpoint: Seq<char>) -> Option<Seq<char>> {
    if has_server(servers, endpoint) {
        Some(servers[first_server(servers, endpoint)].1)
    } else {
        None
    }
}

/// The device id of the first server at `endpoint`, if one was joined.
pub fn device_id_for(local: &LocalConfig, endpoint: &String) -> (r: Option<String>)
    ensures
        r.deep_view() == device_id_at(local.servers(), endpoint@),
{
    match find_server(local, endpoint) {
        Some(i) => {
            proof {
                let ss = local.servers();
                let f = first_server(ss, endpoint@);
                assert(ss[i as int].0 == endpoint@);
                assert(0 <= f < ss.len() && ss[f].0 == endpoint@ && forall|j: int|
                    0 <= j < f ==> #[trigger] ss[j].0 != endpoint@);
                assert(f == i as int) by {
                    if f < i {
                        assert(ss[f].0 != endpoint@);
                    }
                    if f > i {
                        assert(ss[i as int].0 != endpoint@);
                    }
                }
            }
            Some(local.server_info[i].device_id.clone())
        },
        None => None,
    }
}

/// The first steps of joining a network with an invite code: only one
/// network is supported; the code is decoded and its version read; a
/// version-1 token must not name a network joined already. A known version
/// with fewer than three fields is a broken code (the read of a missing
/// field panics), which `requires` leaves out where a code is read at all,
/// that is where no network is joined yet (see `try_begin_join`).
pub fn begin_join(local: &LocalConfig, invite_code: &str) -> (r: Result<JoinPlan, JoinError>)
    requires
        local.servers().len() == 0 ==> (invite_text(invite_code@) matches Some(t) ==> join_text_readable(t)),
    ensures
        local.servers().len() > 0 ==> r matches Err(JoinError::MultipleNetwork),
        local.servers().len() == 0 && invite_text(invite_code@) is None ==> r matches Err(
            JoinError::Invite(_),
        ),
        local.servers().len() == 0 ==> (invite_text(invite_code@) matches Some(t) ==> match invite_version(t) {
            None => r matches Err(JoinError::Invite(InviteError::Version)),
            Some(v) => if v == 1 {
                r matches Ok(JoinPlan::Confirm { token, device_id }) && token.endpoint@
                    == invite_fields(t)[1] && token.network_token_id@ == invite_fields(t)[2]
                    && device_id.deep_view() == device_id_at(local.servers(), token.endpoint@)
            } else if v == 2 {
                r matches Ok(JoinPlan::SsoLogin { endpoint, network_token_id }) && endpoint@
                    == invite_fields(t)[1] && network_token_id@ == invite_fields(t)[2]
            } else {
                r matches Err(JoinError::Unsupported)
            },
        }),
{
    if local.server_info.len() > 0 {
        return Err(JoinError::MultipleNetwork);
    }
    let text = match decode_invite_code(invite_code) {
        Ok(t) => t,
        Err(e) => return Err(JoinError::Invite(e)),
    };
    let data = split_str(text.as_str(), '|');
    proof {
        crate::text::lemma_split_on_nonempty(text@, '|');
        assert(data@.len() == invite_fields(text@).len());
        assert(data@[0]@ == invite_fields(text@)[0]);
    }
    let first = chars_of(data[0]);
    let version = match parse_unsigned_chars(first.as_slice(), 0xffff_ffff) {
        Some(v) => v,
        None => return Err(JoinError::Invite(InviteError::Version)),
    };
    if version == 1 {
        proof {
            assert(data@[1]@ == invite_fields(text@)[1]);
            assert(data@[2]@ == invite_fields(text@)[2]);
        }
        let token = InviteToken::new(data);
        if already_joined(local, &token.endpoint, &token.network_token_id) {
            proof {
                assert(false);
            }
            return Err(JoinError::AlreadyJoined(token.network_token_id));
        }
        let device_id = device_id_for(local, &token.endpoint);
        Ok(JoinPlan::Confirm { token, device_id })
    } else if version == 2 {
        proof {
            assert(data@[1]@ == invite_fields(text@)[1]);
            assert(data@[2]@ == invite_fields(text@)[2]);
        }
        Ok(
            JoinPlan::SsoLogin {
                endpoint: data[1].to_owned(),
                network_token_id: data[2].to_owned(),
            },
        )
    } else {
        Err(JoinError::Unsupported)
    }
}

/// Whether a join can read an invite text.
pub fn join_text_is_readable(text: &str) -> (r: bool)
    ensures
        r == join_text_readable(text@),
{
    let data = split_str(text, '|');
    proof {
        crate::text::lemma_split_on_nonempty(text@, '|');
        assert(data@.len() == invite_fields(text@).len());
        assert(data@[0]@ == invite_fields(text@)[0]);
    }
    let first = chars_of(data[0]);
    match parse_unsigned_chars(first.as_slice(), 0xffff_ffff) {
        Some(v) => !(v == 1 || v == 2) || data.len() >= 3,
        None => true,
    }
}

/// `begin_join` with the invite text tested first: `MissingFields` for a
/// broken code.
pub fn try_begin_join(local: &LocalConfig, invite_code: &str) -> (r: Result<JoinPlan, JoinError>)
    ensures
        local.servers().len() > 0 ==> r matches Err(JoinError::MultipleNetwork),
        local.servers().len() == 0 ==> (invite_text(invite_code@) matches Some(t) ==> (
        !join_text_readable(t) ==> r matches Err(JoinError::Invite(InviteError::MissingFields)))),
        local.servers().len() == 0 ==> (invite_text(invite_code@) matches Some(t) ==> (
        join_text_readable(t) ==> match invite_version(t) {
            None => r matches Err(JoinError::Invite(InviteError::Version)),
            Some(v) => if v == 1 {
                r matches Ok(JoinPlan::Confirm { token, device_id }) && token.endpoint@
                    == invite_fields(t)[1] && token.network_token_id@ == invite_fields(t)[2]
            } else if v == 2 {
                r matches Ok(JoinPlan::SsoLogin { endpoint, network_token_id }) && endpoint@
                    == invite_fields(t)[1] && network_token_id@ == invite_fields(t)[2]
            } else {
                r matches Err(JoinError::Unsupported)
            },
        })),
{
    if local.server_info.len() > 0 {
        return Err(JoinError::MultipleNetwork);
    }
    match decode_invite_code(invite_code) {
        Ok(text) => {
            if !join_text_is_readable(text.as_str()) {
                return Err(JoinError::Invite(InviteError::MissingFields));
            }
        },
        Err(_) => {},
    }
    begin_join(local, invite_code)
}

/// After the SSO login information is fetched: the network must not have
/// been joined at that endpoint; gives the device id known there, if any.
pub fn check_sso_join(local: &LocalConfig, sso_login: &SSOLogin) -> (r: Result<
    Option<String>,
    JoinError,
>)
    ensures
        has_joined(local.servers(), sso_login.endpoint@, sso_login.network_token_id@) ==> (r matches Err(
            JoinError::AlreadyJoined(id),
        ) && id@ == sso_login.network_token_id@),
        !has_joined(local.servers(), sso_login.endpoint@, sso_login.network_token_id@) ==> (r matches Ok(
            d,
        ) && d.deep_view() == device_id_at(local.servers(), sso_login.endpoint@)),
{
    if already_joined(local, &sso_login.endpoint, &sso_login.network_token_id) {
        return Err(JoinError::AlreadyJoined(sso_login.network_token_id.clone()));
    }
    Ok(device_id_for(local, &sso_login.endpoint))
}

/// Records a network joined through SSO once the server has confirmed it:
/// a new server entry, which is also handed on.
pub fn record_sso_join(
    local: &mut LocalConfig,
    sso_login: &SSOLogin,
    mqtt_url: String,
    device_id: String,
) -> (r: ServerInfo)
    ensures
        final(local).servers() == old(local).servers().push(r.deep_view()),
        r.deep_view() == (sso_login.endpoint@, device_id@, mqtt_url@, seq![sso_login.network_token_id@]),
        final(local).tun_name == old(local).tun_name,
{
    let entry = ServerInfo {
        server_url: sso_login.endpoint.clone(),
        mqtt_url,
        device_id,
        network_id: vec![sso_login.network_token_id.clone()],
    };
    proof {
        assert(entry.network_id.deep_view() =~= seq![sso_login.network_token_id@]);
    }
    let ghost before = local.servers();
    local.server_info.push(entry.duplicate());
    proof {
        assert(local.servers() =~= before.push(entry.deep_view()));
    }
    entry
}

/// The values that are present, in order.
pub open spec fn present(values: Seq<Option<Seq<char>>>) -> Seq<Seq<char>>
    decreases values.len(),
{
    if values.len() == 0 {
        Seq::empty()
    } else {
        match values.last() {
            Some(v) => present(values.drop_last()).push(v),
            None => present(values.drop_last()),
        }
    }
}

/// The values that are present, in order (the signed parameters of a
/// request, where optional ones may be missing).
pub fn present_values(values: Vec<Option<String>>) -> (r: Vec<String>)
    ensures
        r.deep_view() == present(values.deep_view()),
{
    let mut r: Vec<String> = Vec::new();
    let mut i: usize = 0;
    while i < values.len()
        invariant
            i <= values@.len(),
            r.deep_view() == present(values.deep_view().take(i as int)),
        decreases values.len() - i,
    {
        proof {
            assert(values.deep_view().take(i + 1).drop_last() =~= values.deep_view().take(i as int));
        }
        match &values[i] {
            Some(v) => {
                let ghost before = r.deep_view();
                r.push(v.clone());
                proof {
                    assert(r.deep_view() =~= before.push(v@));
                }
            },
            None => {},
        }
        i = i + 1;
    }
    proof {
        assert(values.deep_view().take(values@.len() as int) =~= values.deep_view());
    }
    r
}

/// What a peer change asks of the running device.
pub enum PeerCommand {
    /// Remove the peer with this base64 public identity.
    Remove(String),
    /// Add a peer that has joined.
    Add(Peer),
    /// Add a peer whose settings changed.
    Change(Peer),
}

pub enum PeerCommandView {
    Remove(Seq<char>),
    Add(crate::protobuf::PeerView),
    Change(crate::protobuf::PeerView),
}

impl DeepView for PeerCommand {
    type V = PeerCommandView;

    open spec fn deep_view(&self) -> PeerCommandView {
        match self {
            PeerCommand::Remove(k) => PeerCommandView::Remove(k@),
            PeerCommand::Add(p) => PeerCommandView::Add(p.deep_view()),
            PeerCommand::Change(p) => PeerCommandView::Change(p.deep_view()),
        }
    }
}

/// Whether a peer identity is someone else's: any identity where the node's
/// own is not known.
pub open spec fn is_other(own: Option<Seq<char>>, key: Seq<char>) -> bool {
    match own {
        Some(o) => o != key,
        None => true,
    }
}

/// The commands of a peer change, in order: remove (unless it names the
/// node itself), add, and change (unless it is the node itself).
pub open spec fn peer_commands(own: Option<Seq<char>>, change: PeerChangeView) -> Seq<PeerCommandView> {
    let removal = match change.1 {
        Some(k) => if is_other(own, k) {
            seq![PeerCommandView::Remove(k)]
        } else {
            seq![]
        },
        None => seq![],
    };
    let addition = match change.0 {
        Some(p) => seq![PeerCommandView::Add(p)],
        None => seq![],
    };
    let changed = match change.2 {
        Some(p) => if is_other(own, p.2) {
            seq![PeerCommandView::Change(p)]
        } else {
            seq![]
        },
        None => seq![],
    };
    removal + addition + changed
}

/// Law: a peer change never acts on the node itself, and removes any other
/// peer it names. The removal of key `k` is asked for (as the first
/// command) exactly when `k` is not the node's own identity (or that is
/// unknown); no command removes or changes the node's own identity.
pub proof fn law_peer_change_spares_only_self(own: Option<Seq<char>>, k: Seq<char>, change: PeerChangeView)
    requires
        change.1 == Some(k),
    ensures
        (exists|i: int| 0 <= i < peer_commands(own, change).len() && #[trigger] peer_commands(own, change)[i]
            == PeerCommandView::Remove(k)) <==> own != Some(k),
        own != Some(k) ==> peer_commands(own, change)[0] == PeerCommandView::Remove(k),
        forall|i: int| 0 <= i < peer_commands(own, change).len() ==> match #[trigger] peer_commands(own, change)[i] {
            PeerCommandView::Remove(x) => own != Some(x),
            PeerCommandView::Change(p) => own != Some(p.2),
            PeerCommandView::Add(_) => true,
        },
{
    let cmds = peer_commands(own, change);
    let removal: Seq<PeerCommandView> = if own != Some(k) { seq![PeerCommandView::Remove(k)] } else { seq![] };
    let addition: Seq<PeerCommandView> = match change.0 {
        Some(p) => seq![PeerCommandView::Add(p)],
        None => seq![],
    };
    let changed: Seq<PeerCommandView> = match change.2 {
        Some(p) => if is_other(own, p.2) { seq![PeerCommandView::Change(p)] } else { seq![] },
        None => seq![],
    };
    assert(cmds =~= removal + addition + changed);
    assert forall|i: int| 0 <= i < cmds.len() implies match #[trigger] cmds[i] {
        PeerCommandView::Remove(x) => own != Some(x) && x == k,
        PeerCommandView::Change(p) => own != Some(p.2),
        PeerCommandView::Add(_) => true,
    } by {
        if i < removal.len() {
            assert(cmds[i] == removal[i]);
        } else if i < removal.len() + addition.len() {
            assert(cmds[i] == addition[i - removal.len()]);
        } else {
            assert(cmds[i] == changed[i - removal.len() - addition.len()]);
        }
    }
    if own != Some(k) {
        assert(cmds[0] == PeerCommandView::Remove(k));
    }
}

/// Law: a peer change adds the peer it adds, always, and changes the peer
/// it changes exactly when that is not the node itself; removals come
/// first, then the addition, then the change.
pub proof fn law_peer_change_adds_and_changes(own: Option<Seq<char>>, change: PeerChangeView)
    ensures
        change.0 matches Some(p) ==> exists|i: int|
            0 <= i < peer_commands(own, change).len() && #[trigger] peer_commands(own, change)[i]
                == PeerCommandView::Add(p),
        change.2 matches Some(p) ==> ((exists|i: int|
            0 <= i < peer_commands(own, change).len() && #[trigger] peer_commands(own, change)[i]
                == PeerCommandView::Change(p)) <==> own != Some(p.2)),
        peer_commands(own, change).len() <= 3,
        forall|i: int, j: int| 0 <= i < j < peer_commands(own, change).len() ==> (#[trigger] peer_commands(own, change)[j]
            is Remove ==> #[trigger] peer_commands(own, change)[i] is Remove),
{
    let cmds = peer_commands(own, change);
    let removal: Seq<PeerCommandView> = match change.1 {
        Some(k) => if own != Some(k) { seq![PeerCommandView::Remove(k)] } else { seq![] },
        None => seq![],
    };
    let addition: Seq<PeerCommandView> = match change.0 {
        Some(p) => seq![PeerCommandView::Add(p)],
        None => seq![],
    };
    let changed: Seq<PeerCommandView> = match change.2 {
        Some(p) => if own != Some(p.2) { seq![PeerCommandView::Change(p)] } else { seq![] },
        None => seq![],
    };
    assert(cmds =~= removal + addition + changed);
    assert forall|i: int| 0 <= i < cmds.len() implies (#[trigger] cmds[i] is Remove <==> i < removal.len())
        && (cmds[i] is Change ==> (change.2 matches Some(p) && cmds[i] == PeerCommandView::Change(p))) by {
        if i < removal.len() {
            assert(cmds[i] == removal[i]);
        } else if i < removal.len() + addition.len() {
            assert(cmds[i] == addition[i - removal.len()]);
        } else {
            assert(cmds[i] == changed[i - removal.len() - addition.len()]);
        }
    }
    if let Some(p) = change.0 {
        assert(cmds[removal.len() as int] == PeerCommandView::Add(p));
    }
    if let Some(p) = change.2 {
        if own != Some(p.2) {
            assert(cmds[cmds.len() - 1] == PeerCommandView::Change(p));
        }
    }
}

/// What a peer change asks of the device, for a node whose own base64
/// identity is `own_public_key` (unknown where `None`).
pub fn plan_peer_change(own_public_key: Option<&String>, change: PeerChange) -> (r: Vec<PeerCommand>)
    ensures
        r@.map_values(|c: PeerCommand| c.deep_view()) == peer_commands(
            match own_public_key {
                Some(k) => Some(k@),
                None => None,
            },
            change.deep_view(),
        ),
{
    let ghost own = match own_public_key {
        Some(k) => Some(k@),
        None => None,
    };
    let ghost cv = change.deep_view();
    let mut r: Vec<PeerCommand> = Vec::new();
    if let Some(public_key) = change.remove_public_key {
        let other = match own_public_key {
            Some(o) => *o != public_key,
            None => true,
        };
        if other {
            r.push(PeerCommand::Remove(public_key));
        }
    }
    let ghost after_remove = r@.map_values(|c: PeerCommand| c.deep_view());
    if let Some(peer) = change.add_peer {
        r.push(PeerCommand::Add(peer));
    }
    let ghost after_add = r@.map_values(|c: PeerCommand| c.deep_view());
    if let Some(peer) = change.change_peer {
        let other = match own_public_key {
            Some(o) => *o != peer.public_key,
            None => true,
        };
        if other {
            r.push(PeerCommand::Change(peer));
        }
    }
    proof {
        let removal = match cv.1 {
            Some(k) => if is_other(own, k) {
                seq![PeerCommandView::Remove(k)]
            } else {
                seq![]
            },
            None => seq![],
        };
        let addition = match cv.0 {
            Some(p) => seq![PeerCommandView::Add(p)],
            None => seq![],
        };
        assert(after_remove =~= removal);
        assert(after_add =~= removal + addition);
        assert(r@.map_values(|c: PeerCommand| c.deep_view()) =~= peer_commands(own, cv));
    }
    r
}

/// What to do about launching at boot.
pub enum AutoLaunchPlan {
    /// Nothing to change; answer with this message.
    Done(String),
    /// Turn it on, then answer "enable auto launch success".
    Enable,
    /// Turn it off, then answer "disable auto launch success".
    Disable,
}

/// The answer of the `autoLaunch` command, given whether launching at boot
/// is on: `enable` and `disable` act only when needed; anything else
/// reports the state.
pub fn plan_auto_launch(param: &str, is_enabled: bool) -> (r: AutoLaunchPlan)
    ensures
        param@ == "enable"@ ==> if is_enabled {
            r matches AutoLaunchPlan::Done(m) && m@ == "enable auto launch success"@
        } else {
            r matches AutoLaunchPlan::Enable
        },
        param@ == "disable"@ ==> if !is_enabled {
            r matches AutoLaunchPlan::Done(m) && m@ == "disable auto launch success"@
        } else {
            r matches AutoLaunchPlan::Disable
        },
        param@ != "enable"@ && param@ != "disable"@ ==> (r matches AutoLaunchPlan::Done(m) && m@
            == "fornet auto launch: "@ + (if is_enabled { "enabled"@ } else { "disabled"@ })),
{
    proof {
        reveal_strlit("enable");
        reveal_strlit("disable");
        assert("enable"@[0] != "disable"@[0]);
        assert("enable"@ != "disable"@);
    }
    let p = param.to_owned();
    if p == "enable".to_owned() {
        if is_enabled {
            AutoLaunchPlan::Done("enable auto launch success".to_owned())
        } else {
            AutoLaunchPlan::Enable
        }
    } else if p == "disable".to_owned() {
        if !is_enabled {
            AutoLaunchPlan::Done("disable auto launch success".to_owned())
        } else {
            AutoLaunchPlan::Disable
        }
    } else {
        let mut m = "fornet auto launch: ".to_owned();
        if is_enabled {
            m.append("enabled");
        } else {
            m.append("disabled");
        }
        AutoLaunchPlan::Done(m)
    }
}

/// A client that runs one network: its configuration and its device, when
/// one runs.
pub struct ForNetClient {
    pub config: AppConfig,
    pub device: Option<DeviceData>,
}

/// Why a device could not be started.
pub enum StartError {
    /// A device runs already.
    AlreadyRunning,
    /// An address of the interface is not an allowed IP; the message.
    InvalidAddress(String),
}

impl StartError {
    /// The message the error is reported with.
    pub fn message(&self) -> (r: String)
        ensures
            self is AlreadyRunning ==> r@ == "It's already run, please stop it firstly"@,
            self matches StartError::InvalidAddress(m) ==> r@ == m@,
    {
        match self {
            StartError::AlreadyRunning => "It's already run, please stop it firstly".to_owned(),
            StartError::InvalidAddress(m) => m.clone(),
        }
    }
}

/// The addresses of an interface once parsed in order, or the message of
/// the first that did not parse.
pub fn valid_addresses(parsed: Vec<Result<AllowedIP, String>>) -> (r: Result<Vec<AllowedIP>, String>)
    ensures
        first_invalid(parsed@) matches Some(i) ==> (parsed@[i] matches Err(m) && r matches Err(e) && e@ == m@),
        first_invalid(parsed@) is None ==> (r matches Ok(v) && v@.len() == parsed@.len() && forall|k: int|
            0 <= k < v@.len() ==> parsed@[k] == Ok::<AllowedIP, String>(#[trigger] v@[k])),
{
    let mut v: Vec<AllowedIP> = Vec::new();
    let mut i: usize = 0;
    while i < parsed.len()
        invariant
            i <= parsed@.len(),
            v@.len() == i,
            forall|k: int| 0 <= k < i ==> parsed@[k] == Ok::<AllowedIP, String>(#[trigger] v@[k]),
        decreases parsed.len() - i,
    {
        match &parsed[i] {
            Ok(a) => {
                v.push(*a);
            },
            Err(m) => {
                proof {
                    assert forall|j: int| 0 <= j < i implies #[trigger] parsed@[j] is Ok by {
                        assert(parsed@[j] == Ok::<AllowedIP, String>(v@[j]));
                    }
                    assert(parsed@[i as int] is Err);
                    let f = choose|f: int| 0 <= f < parsed@.len() && #[trigger] parsed@[f] is Err && forall|j: int|
                        0 <= j < f ==> #[trigger] parsed@[j] is Ok;
                    if f < i {
                        assert(parsed@[f] == Ok::<AllowedIP, String>(v@[f]));
                    }
                    if f > i {
                        assert(parsed@[i as int] is Ok);
                    }
                    assert(first_invalid(parsed@) == Some(i as int));
                }
                return Err(m.clone());
            },
        }
        i = i + 1;
    }
    proof {
        assert forall|k: int| 0 <= k < parsed@.len() implies !(#[trigger] parsed@[k] is Err) by {
            assert(parsed@[k] == Ok::<AllowedIP, String>(v@[k]));
        }
    }
    Ok(v)
}

/// The position of the first address that did not parse, if any.
pub open spec fn first_invalid(parsed: Seq<Result<AllowedIP, String>>) -> Option<int> {
    if exists|i: int| 0 <= i < parsed.len() && #[trigger] parsed[i] is Err && forall|j: int|
        0 <= j < i ==> #[trigger] parsed[j] is Ok {
        Some(choose|i: int| 0 <= i < parsed.len() && #[trigger] parsed[i] is Err && forall|j: int|
            0 <= j < i ==> #[trigger] parsed[j] is Ok)
    } else {
        None
    }
}

impl ForNetClient {
    /// The client is well formed when its device, if any, is.
    pub open spec fn wf(&self) -> bool {
        self.device matches Some(d) ==> d.wf()
    }

    /// A client with no device running.
    pub fn new(config: AppConfig) -> (r: ForNetClient)
        ensures
            r.wf(),
            r.device is None,
            r.config == config,
    {
        ForNetClient { config, device: None }
    }

    /// Whether a device runs.
    pub fn is_alive(&self) -> (r: bool)
        ensures
            r == self.device is Some,
    {
        self.device.is_some()
    }

    /// Takes over a device just brought up (`start`, once the tunnel is
    /// created): refused where one runs already; the saved tunnel name
    /// becomes the device's, and the result says whether it changed, that is
    /// whether the configuration is to be saved.
    pub fn start(&mut self, device: DeviceData) -> (r: Result<bool, StartError>)
        requires
            old(self).wf(),
            device.wf(),
        ensures
            final(self).wf(),
            old(self).device is Some ==> (r matches Err(StartError::AlreadyRunning)) && *final(self) == *old(self),
            old(self).device is None ==> {
                &&& r matches Ok(changed) && changed == (old(self).config.local_config.tun_name.deep_view()
                    != Some(device.name@))
                &&& final(self).device == Some(device)
                &&& final(self).config.local_config.tun_name.deep_view() == Some(device.name@)
                &&& final(self).config.local_config.servers() == old(self).config.local_config.servers()
            },
    {
        if self.device.is_some() {
            return Err(StartError::AlreadyRunning);
        }
        let changed = crate::wr_manager::update_tun_name(&mut self.config.local_config, &device.name);
        self.device = Some(device);
        Ok(changed)
    }

    /// The checks made before a device is brought up for an interface whose
    /// addresses, parsed in order (see `AllowedIP::split` and
    /// `AllowedIP::from_parsed`), are `parsed`: an address that did not
    /// parse is reported first, whether or not a device runs; then a
    /// running device is refused; else the addresses to bring up.
    pub fn check_start(&self, parsed: Vec<Result<AllowedIP, String>>) -> (r: Result<Vec<AllowedIP>, StartError>)
        ensures
            first_invalid(parsed@) matches Some(i) ==> (parsed@[i] matches Err(m) && r matches Err(
                StartError::InvalidAddress(e),
            ) && e@ == m@),
            first_invalid(parsed@) is None && self.device is Some ==> r matches Err(StartError::AlreadyRunning),
            first_invalid(parsed@) is None && self.device is None ==> (r matches Ok(v) && v@.len() == parsed@.len()
                && forall|k: int| 0 <= k < v@.len() ==> parsed@[k] == Ok::<AllowedIP, String>(#[trigger] v@[k])),
    {
        let v = match valid_addresses(parsed) {
            Ok(v) => v,
            Err(m) => return Err(StartError::InvalidAddress(m)),
        };
        if self.device.is_some() {
            return Err(StartError::AlreadyRunning);
        }
        Ok(v)
    }

    /// Whether `add_peer` may add a peer with key `pub_key`.
    pub fn can_add_peer(&self, pub_key: &[u8; 32]) -> (r: bool)
        requires
            self.wf(),
        ensures
            r == match self.device {
                Some(d) => d.peers.key_pos(*pub_key) is None && lfsr_step(d.next_index.lfsr)
                    != d.next_index.initial,
                None => true,
            },
    {
        match &self.device {
            Some(d) => d.can_add_peer(pub_key),
            None => true,
        }
    }

    /// Adds a peer (with no preshared key) to the running device, if any.
    pub fn add_peer(
        &mut self,
        pub_key: [u8; 32],
        endpoint: Option<SocketAddr>,
        allowed_ips: &[AllowedIP],
        ip: IpAddr,
        keepalive: Option<u16>,
    )
        requires
            old(self).wf(),
            old(self).device matches Some(d) ==> d.peers.key_pos(pub_key) is None && lfsr_step(
                d.next_index.lfsr,
            ) != d.next_index.initial,
            forall|k: int| 0 <= k < allowed_ips@.len() ==> valid_net(#[trigger] allowed_ips@[k]),
        ensures
            final(self).wf(),
            final(self).config == old(self).config,
            old(self).device is None ==> final(self).device is None,
            old(self).device matches Some(d) ==> (final(self).device matches Some(e) && e.peers.key_pos(
                pub_key,
            ) == Some(d.peers.entries@.len() as int) && peer_added(
                d,
                e,
                pub_key,
                allowed_ips@,
                lfsr_index(d.next_index.lfsr, d.next_index.mask),
            ) && new_peer_is(e, d.peers.entries@.len() as int, pub_key, endpoint, ip) && settings_kept(d, e)),
    {
        match self.device.take() {
            Some(mut d) => {
                d.update_peer(pub_key, false, endpoint, allowed_ips, keepalive, ip, None);
                self.device = Some(d);
            },
            None => {},
        }
    }

    /// Removes the peer with key `pub_key` from the running device, if any.
    pub fn remove_peer(&mut self, pub_key: &[u8; 32])
        requires
            old(self).wf(),
        ensures
            final(self).wf(),
            final(self).config == old(self).config,
            old(self).device is None ==> final(self).device is None,
            old(self).device matches Some(d) ==> (final(self).device matches Some(e) && e.peers.key_pos(*pub_key) is None
                && peer_removed(d, e, *pub_key) && settings_kept(d, e) && e.next_index == d.next_index),
    {
        match self.device.take() {
            Some(mut d) => {
                d.remove_peer(pub_key);
                self.device = Some(d);
            },
            None => {},
        }
    }

    /// Removes the peer whose base64 public identity is `public_key` (a
    /// removal the server sent): its x25519 key is the first half of the
    /// decoded identity. An identity that is not base64, or too short to
    /// hold the keys, is refused and nothing changes.
    pub fn remove_peer_by_identity(&mut self, public_key: &str) -> (r: Result<(), crate::config::IdentityError>)
        requires
            old(self).wf(),
        ensures
            final(self).wf(),
            final(self).config == old(self).config,
            r is Err ==> *final(self) == *old(self),
            base64_decoded(public_key@) is None ==> r == Err::<(), crate::config::IdentityError>(
                crate::config::IdentityError::Base64,
            ),
            base64_decoded(public_key@) matches Some(b) && b.len() < 64 ==> r == Err::<
                (),
                crate::config::IdentityError,
            >(crate::config::IdentityError::TooShort),
            (base64_decoded(public_key@) matches Some(b) && b.len() >= 64) ==> r is Ok,
            r is Ok ==> (base64_decoded(public_key@) matches Some(b) && b.len() >= 64 && (
            old(self).device is Some ==> (final(self).device matches Some(e) && forall|k: [u8; 32]|
                k@ == b.subrange(0, 32) ==> #[trigger] e.peers.key_pos(k) is None))),
    {
        match crate::config::Identity::try_get_pub_identity_from_base64(public_key) {
            Ok((x, _)) => {
                self.remove_peer(&x);
                proof {
                    if self.device is Some {
                        let e = self.device->0;
                        assert forall|k: [u8; 32]| k@ == x@ implies #[trigger] e.peers.key_pos(k) is None by {
                            assert(k =~= x);
                        }
                    }
                }
                Ok(())
            },
            Err(e) => Err(e),
        }
    }

    /// Stops the running device, if any; returns the scripts to run before
    /// its interface goes down and once it is gone.
    pub fn close(&mut self) -> (r: (Option<String>, Option<String>))
        requires
            old(self).wf(),
        ensures
            final(self).wf(),
            final(self).device is None,
            final(self).config == old(self).config,
            match old(self).device {
                Some(d) => crate::device::script_run::opt_view(r.0) == crate::device::script_run::opt_view(
                    d.scripts.pre_down,
                ) && crate::device::script_run::opt_view(r.1) == crate::device::script_run::opt_view(
                    d.scripts.post_down,
                ),
                None => r.0 is None && r.1 is None,
            },
    {
        match self.device.take() {
            Some(d) => d.shutdown(),
            None => (None, None),
        }
    }

    /// A stop from the server: with `delete_network` the network is
    /// forgotten first; then the device stops. Returns the scripts to run
    /// around the interface going down.
    pub fn stop_network(&mut self, network_id: &String, delete_network: bool) -> (r: (Option<String>, Option<String>))
        requires
            old(self).wf(),
        ensures
            final(self).wf(),
            final(self).device is None,
            delete_network ==> final(self).config.local_config.servers() == removed_network(
                old(self).config.local_config.servers(),
                network_id@,
            ),
            !delete_network ==> final(self).config.local_config.servers() == old(self).config.local_config.servers(),
    {
        if delete_network {
            remove_network(&mut self.config.local_config, network_id);
        }
        self.close()
    }
}

/// What the command socket does with a command.
pub enum ApiAction {
    /// Write these bytes back.
    Reply(String),
    /// Join with this invite code (see `try_begin_join`, then, once the
    /// server answered, `finish_join`).
    Join(String),
}

/// The answer to a command read from the command socket of a node whose
/// saved configuration is `local` (see `parse_api_command`): `list` answers
/// the networks joined as JSON; `join` goes on to join with its code;
/// `autoLaunch` is refused, as on Linux; anything else is answered with the
/// bare text `unknown command`.
pub fn answer(command: &str, local: &LocalConfig) -> (r: ApiAction)
    requires
        command_readable(command@),
    ensures
        command_words(command@)[0] == "join"@ ==> (r matches ApiAction::Join(c) && c@ == command_words(command@)[1]),
        command_words(command@)[0] == "list"@ ==> (r matches ApiAction::Reply(t) && t@ == response_json(
            true,
            device_list_json(network_ids(local.servers())),
        )),
        command_words(command@)[0] == "autoLaunch"@ ==> (r matches ApiAction::Reply(t) && t@ == response_json(
            false,
            json_string("do not support"@),
        )),
        command_words(command@)[0] != "join"@ && command_words(command@)[0] != "list"@ && command_words(
            command@,
        )[0] != "autoLaunch"@ ==> (r matches ApiAction::Reply(t) && t@ == "unknown command"@),
{
    match parse_api_command(command) {
        ApiCommand::Join(code) => ApiAction::Join(code),
        ApiCommand::List => {
            let response = ApiResponse { ok: true, data: list_network(local) };
            ApiAction::Reply(response.to_json())
        },
        ApiCommand::AutoLaunch(_) => ApiAction::Reply(api_error("do not support".to_owned()).to_json()),
        ApiCommand::Unknown => ApiAction::Reply("unknown command".to_owned()),
    }
}

} // verus!
