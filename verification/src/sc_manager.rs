//! The configuration-sync channel: what to do with each message that comes
//! in on the node's MQTT topics. The connection itself (connecting,
//! subscribing, sending on the channel to the client) is done by the caller,
//! which performs the actions returned here.

use vstd::prelude::*;
use vstd::string::*;
use crate::client_manager::{ServerMessage, ServerMessageView};
use vstd::utf8::*;
use crate::config::{Identity, LocalConfig, ServerInfoView, sign_plain_text, SignError};
use crate::crypto::{base64_encoded, ed25519_signature_of};
use crate::protobuf::{EncryptRequest, string_eq};
use crate::text::{decimal_digits, decimal_string};
use crate::protobuf::{
    ClientInfo, ClientMessage, NetworkInfo, NetworkMessage, NetworkStatus, NodeStatus, PeerChangeView,
    WrConfig, WrConfigView,
};

verus! {

/// What has been passed on already, so that a repeated message is dropped.
pub struct Duplication {
    pub wr_config: Option<WrConfig>,
    pub status: Option<NodeStatus>,
}

impl Duplication {
    /// Nothing passed on yet.
    pub fn default() -> (r: Duplication)
        ensures
            r.wr_config is None,
            r.status is None,
    {
        Duplication { wr_config: None, status: None }
    }

    /// A copy with the same content.
    pub fn duplicate(&self) -> (r: Duplication)
        ensures
            r.wr_config.deep_view() == self.wr_config.deep_view(),
            r.status == self.status,
    {
        Duplication {
            wr_config: match &self.wr_config {
                Some(c) => Some(c.duplicate()),
                None => None,
            },
            status: self.status,
        }
    }
}

/// Something the channel must do.
pub enum MqttAction {
    Subscribe(String),
    Unsubscribe(String),
    Send(ServerMessage),
}

pub enum MqttActionView {
    Subscribe(Seq<char>),
    Unsubscribe(Seq<char>),
    Send(ServerMessageView),
}

impl DeepView for MqttAction {
    type V = MqttActionView;

    open spec fn deep_view(&self) -> MqttActionView {
        match self {
            MqttAction::Subscribe(t) => MqttActionView::Subscribe(t@),
            MqttAction::Unsubscribe(t) => MqttActionView::Unsubscribe(t@),
            MqttAction::Send(m) => MqttActionView::Send(m.deep_view()),
        }
    }
}

/// Which decoder a message on `topic` goes to.
#[derive(PartialEq, Eq, Structural, Clone, Copy, Debug)]
pub enum TopicRoute {
    Client,
    Network,
    Unknown,
}

/// The content of a message on the node's own topic.
pub enum ClientInfoView {
    Config(WrConfigView),
    Status(i32),
}

pub struct ClientMessageView {
    pub network_id: Seq<char>,
    pub info: Option<ClientInfoView>,
}

pub open spec fn client_message_view(m: &ClientMessage) -> ClientMessageView {
    ClientMessageView {
        network_id: m.network_id@,
        info: match &m.info {
            Some(ClientInfo::Config(c)) => Some(ClientInfoView::Config(c.deep_view())),
            Some(ClientInfo::Status(s)) => Some(ClientInfoView::Status(*s)),
            None => None,
        },
    }
}

pub enum NetworkInfoView {
    Peer(PeerChangeView),
    Status(Option<NetworkStatus>),
}

pub struct NetworkMessageView {
    pub network_id: Seq<char>,
    pub info: Option<NetworkInfoView>,
}

pub open spec fn network_message_view(m: &NetworkMessage) -> NetworkMessageView {
    NetworkMessageView {
        network_id: m.network_id@,
        info: match &m.info {
            Some(NetworkInfo::Peer(p)) => Some(NetworkInfoView::Peer(p.deep_view())),
            Some(NetworkInfo::Status(s)) => Some(NetworkInfoView::Status(*s)),
            None => None,
        },
    }
}

/// The state of the handler: what was passed on, and the topics listened to.
pub struct WrapperView {
    pub config: Option<WrConfigView>,
    pub status: Option<NodeStatus>,
    pub topics: Seq<Seq<char>>,
    pub client_topic: Seq<char>,
}

/// The topic of a network.
pub open spec fn network_topic(network_id: Seq<char>) -> Seq<char> {
    "network/"@ + network_id
}

pub open spec fn node_status_of(v: i32) -> Option<NodeStatus> {
    if v == 0 {
        Some(NodeStatus::NodeWaiting)
    } else if v == 1 {
        Some(NodeStatus::NodeNormal)
    } else if v == 2 {
        Some(NodeStatus::NodeForbid)
    } else {
        None
    }
}

/// Keeps the topics other than `t`.
pub open spec fn other_than(t: Seq<char>) -> spec_fn(Seq<char>) -> bool {
    |x: Seq<char>| x != t
}

/// `topics` without `t`, in order.
pub open spec fn without(topics: Seq<Seq<char>>, t: Seq<char>) -> Seq<Seq<char>> {
    topics.filter(other_than(t))
}

/// What a message on the node's own topic does: a configuration not seen
/// before is passed on (after subscribing to its network's topic, when that
/// is new); a status not seen before is recorded, and a forbidden node is
/// told to stop and forget the network.
pub open spec fn client_step(s: WrapperView, m: Option<ClientMessageView>) -> (
    WrapperView,
    Seq<MqttActionView>,
) {
    match m {
        None => (s, seq![]),
        Some(cm) => match cm.info {
            None => (s, seq![]),
            Some(ClientInfoView::Config(c)) => {
                if s.config == Some(c) {
                    (s, seq![])
                } else {
                    let t = network_topic(cm.network_id);
                    let fresh = !s.topics.contains(t);
                    let send = MqttActionView::Send(ServerMessageView::SyncConfig(cm.network_id, c));
                    (
                        WrapperView {
                            config: Some(c),
                            status: s.status,
                            topics: if fresh { s.topics.push(t) } else { s.topics },
                            client_topic: s.client_topic,
                        },
                        if fresh {
                            seq![MqttActionView::Subscribe(t), send]
                        } else {
                            seq![send]
                        },
                    )
                }
            },
            Some(ClientInfoView::Status(v)) => match node_status_of(v) {
                None => (s, seq![]),
                Some(ns) => {
                    if s.status == Some(ns) {
                        (s, seq![])
                    } else if ns == NodeStatus::NodeForbid {
                        (
                            WrapperView {
                                config: None,
                                status: Some(ns),
                                topics: without(s.topics, s.client_topic),
                                client_topic: s.client_topic,
                            },
                            seq![
                                MqttActionView::Send(
                                    ServerMessageView::StopWR {
                                        network_id: cm.network_id,
                                        reason: "node has been forbid or delete"@,
                                        delete_network: true,
                                    },
                                ),
                            ],
                        )
                    } else {
                        (
                            WrapperView {
                                config: s.config,
                                status: Some(ns),
                                topics: s.topics,
                                client_topic: s.client_topic,
                            },
                            seq![],
                        )
                    }
                }
            },
        },
    }
}

/// What a message on a network's topic `topic` does: a peer change is passed
/// on; the deletion of the network stops the node, and the topic is left.
pub open spec fn network_step(s: WrapperView, topic: Seq<char>, m: Option<NetworkMessageView>) -> (
    WrapperView,
    Seq<MqttActionView>,
) {
    match m {
        None => (s, seq![]),
        Some(nm) => match nm.info {
            Some(NetworkInfoView::Peer(pc)) => (
                s,
                seq![MqttActionView::Send(ServerMessageView::SyncPeers(nm.network_id, pc))],
            ),
            Some(NetworkInfoView::Status(Some(NetworkStatus::NetworkDelete))) => (
                WrapperView {
                    config: s.config,
                    status: s.status,
                    topics: without(s.topics, topic),
                    client_topic: s.client_topic,
                },
                seq![
                    MqttActionView::Send(
                        ServerMessageView::StopWR {
                            network_id: nm.network_id,
                            reason: "network has been delete"@,
                            delete_network: true,
                        },
                    ),
                    MqttActionView::Unsubscribe(topic),
                ],
            ),
            _ => (s, seq![]),
        },
    }
}

pub open spec fn actions_view(v: Seq<MqttAction>) -> Seq<MqttActionView> {
    v.map_values(|a: MqttAction| a.deep_view())
}

/// Whether `t` is one of `topics`.
pub fn topics_contain(topics: &Vec<String>, t: &String) -> (r: bool)
    ensures
        r == topics.deep_view().contains(t@),
{
    let mut i: usize = 0;
    while i < topics.len()
        invariant
            i <= topics.len(),
            forall|k: int| 0 <= k < i ==> topics@[k]@ != t@,
        decreases topics.len() - i,
    {
        if topics[i] == *t {
            proof {
                assert(topics.deep_view()[i as int] == t@);
            }
            return true;
        }
        i = i + 1;
    }
    proof {
        if topics.deep_view().contains(t@) {
            let k = choose|k: int| 0 <= k < topics.deep_view().len() && topics.deep_view()[k] == t@;
            assert(topics@[k]@ == t@);
        }
    }
    false
}

/// `topics` without `t`.
pub fn remove_topic(topics: &Vec<String>, t: &String) -> (r: Vec<String>)
    ensures
        r.deep_view() == without(topics.deep_view(), t@),
{
    let mut r: Vec<String> = Vec::new();
    let mut i: usize = 0;
    while i < topics.len()
        invariant
            i <= topics.len(),
            r.deep_view() == without(topics.deep_view().take(i as int), t@),
        decreases topics.len() - i,
    {
        let ghost before = r.deep_view();
        proof {
            assert(topics.deep_view().take(i + 1) =~= topics.deep_view().take(i as int).push(
                topics@[i as int]@,
            ));
            topics.deep_view().take(i as int).lemma_filter_push(
                topics@[i as int]@,
                other_than(t@),
            );
        }
        if topics[i] != *t {
            r.push(topics[i].clone());
            proof {
                assert(r.deep_view() =~= before.push(topics@[i as int]@));
            }
        }
        i = i + 1;
    }
    proof {
        assert(topics.deep_view().take(topics.len() as int) =~= topics.deep_view());
    }
    r
}

/// The decision state of the MQTT event handler of one connection.
pub struct MqttWrapper {
    pub deduplication: Duplication,
    pub network_topics: Vec<String>,
    pub client_topic: String,
}

impl MqttWrapper {
    pub open spec fn view(&self) -> WrapperView {
        WrapperView {
            config: self.deduplication.wr_config.deep_view(),
            status: self.deduplication.status,
            topics: self.network_topics.deep_view(),
            client_topic: self.client_topic@,
        }
    }

    /// A handler for a connection that listens to `client_topic` and
    /// `network_topics`, remembering `deduplication`.
    pub fn new(
        client_topic: String,
        network_topics: Vec<String>,
        deduplication: Duplication,
    ) -> (r: MqttWrapper)
        ensures
            r.view() == (WrapperView {
                config: deduplication.wr_config.deep_view(),
                status: deduplication.status,
                topics: network_topics.deep_view(),
                client_topic: client_topic@,
            }),
    {
        MqttWrapper { deduplication, network_topics, client_topic }
    }

    /// Which kind of message arrives on `topic`: the node's own, one of a
    /// network it listens to, or one it does not handle.
    pub fn route(&self, topic: &String) -> (r: TopicRoute)
        ensures
            topic@ == self.client_topic@ ==> r == TopicRoute::Client,
            topic@ != self.client_topic@ && self.view().topics.contains(topic@) ==> r
                == TopicRoute::Network,
            topic@ != self.client_topic@ && !self.view().topics.contains(topic@) ==> r
                == TopicRoute::Unknown,
    {
        if *topic == self.client_topic {
            TopicRoute::Client
        } else if topics_contain(&self.network_topics, topic) {
            TopicRoute::Network
        } else {
            TopicRoute::Unknown
        }
    }

    /// Handles a message on the node's own topic; `message` is `None` where
    /// it could not be decoded.
    pub fn handle_client_message(&mut self, message: Option<ClientMessage>) -> (actions: Vec<MqttAction>)
        ensures
            (final(self).view(), actions_view(actions@)) == client_step(
                old(self).view(),
                match &message {
                    Some(m) => Some(client_message_view(m)),
                    None => None,
                },
            ),
    {
        let mut actions: Vec<MqttAction> = Vec::new();
        let ghost mv = match &message {
            Some(m) => Some(client_message_view(m)),
            None => None,
        };
        let cm = match message {
            Some(cm) => cm,
            None => {
                proof {
                    assert(actions_view(actions@) =~= seq![]);
                }
                return actions;
            },
        };
        let network_id = cm.network_id;
        match cm.info {
            None => {
                proof {
                    assert(actions_view(actions@) =~= seq![]);
                }
                actions
            },
            Some(ClientInfo::Config(wr_config)) => {
                let seen = match &self.deduplication.wr_config {
                    Some(d) => d.same(&wr_config),
                    None => false,
                };
                if seen {
                    proof {
                        assert(actions_view(actions@) =~= seq![]);
                    }
                    return actions;
                }
                let mut topic = "network/".to_owned();
                topic.append(network_id.as_str());
                let ghost t = topic@;
                if !topics_contain(&self.network_topics, &topic) {
                    self.network_topics.push(topic.clone());
                    proof {
                        assert(self.network_topics.deep_view() =~= old(
                            self,
                        ).network_topics.deep_view().push(t));
                    }
                    actions.push(MqttAction::Subscribe(topic));
                }
                self.deduplication.wr_config = Some(wr_config.duplicate());
                actions.push(MqttAction::Send(ServerMessage::SyncConfig(network_id, wr_config)));
                proof {
                    let s = old(self).view();
                    let fresh = !s.topics.contains(t);
                    let send = MqttActionView::Send(
                        ServerMessageView::SyncConfig(mv->0.network_id, mv->0.info->0->Config_0),
                    );
                    if fresh {
                        assert(actions_view(actions@) =~= seq![MqttActionView::Subscribe(t), send]);
                    } else {
                        assert(actions_view(actions@) =~= seq![send]);
                    }
                }
                actions
            },
            Some(ClientInfo::Status(status)) => {
                match NodeStatus::from_i32(status) {
                    None => {
                        proof {
                            assert(actions_view(actions@) =~= seq![]);
                        }
                        actions
                    },
                    Some(node_status) => {
                        let seen = match self.deduplication.status {
                            Some(s) => s == node_status,
                            None => false,
                        };
                        if seen {
                            proof {
                                assert(actions_view(actions@) =~= seq![]);
                            }
                            return actions;
                        }
                        match node_status {
                            NodeStatus::NodeForbid => {
                                actions.push(
                                    MqttAction::Send(
                                        ServerMessage::StopWR {
                                            network_id: network_id,
                                            reason: "node has been forbid or delete".to_owned(),
                                            delete_network: true,
                                        },
                                    ),
                                );
                                self.network_topics = remove_topic(
                                    &self.network_topics,
                                    &self.client_topic,
                                );
                                self.deduplication.wr_config = None;
                            },
                            _ => {},
                        }
                        self.deduplication.status = Some(node_status);
                        proof {
                            if node_status == NodeStatus::NodeForbid {
                                assert(actions_view(actions@) =~= client_step(
                                    old(self).view(),
                                    mv,
                                ).1);
                            } else {
                                assert(actions_view(actions@) =~= seq![]);
                            }
                        }
                        actions
                    },
                }
            },
        }
    }

    /// Handles a message on the network topic `topic`; `message` is `None`
    /// where it could not be decoded.
    pub fn handle_network_message(
        &mut self,
        topic: &String,
        message: Option<NetworkMessage>,
    ) -> (actions: Vec<MqttAction>)
        ensures
            (final(self).view(), actions_view(actions@)) == network_step(
                old(self).view(),
                topic@,
                match &message {
                    Some(m) => Some(network_message_view(m)),
                    None => None,
                },
            ),
    {
        let mut actions: Vec<MqttAction> = Vec::new();
        let ghost mv = match &message {
            Some(m) => Some(network_message_view(m)),
            None => None,
        };
        let nm = match message {
            Some(nm) => nm,
            None => {
                proof {
                    assert(actions_view(actions@) =~= seq![]);
                }
                return actions;
            },
        };
        match nm.info {
            Some(NetworkInfo::Peer(peer_change)) => {
                actions.push(MqttAction::Send(ServerMessage::SyncPeers(nm.network_id, peer_change)));
                proof {
                    assert(actions_view(actions@) =~= network_step(old(self).view(), topic@, mv).1);
                }
            },
            Some(NetworkInfo::Status(Some(NetworkStatus::NetworkDelete))) => {
                actions.push(
                    MqttAction::Send(
                        ServerMessage::StopWR {
                            network_id: nm.network_id,
                            reason: "network has been delete".to_owned(),
                            delete_network: true,
                        },
                    ),
                );
                self.network_topics = remove_topic(&self.network_topics, topic);
                actions.push(MqttAction::Unsubscribe(topic.clone()));
                proof {
                    assert(actions_view(actions@) =~= network_step(old(self).view(), topic@, mv).1);
                }
            },
            _ => {
                proof {
                    assert(actions_view(actions@) =~= seq![]);
                }
            },
        }
        actions
    }
}


proof fn lemma_without_no_duplicates(topics: Seq<Seq<char>>, t: Seq<char>)
    requires
        topics.no_duplicates(),
    ensures
        without(topics, t).no_duplicates(),
        !without(topics, t).contains(t),
    decreases topics.len(),
{
    broadcast use vstd::seq_lib::group_filter_ensures;

    let p = other_than(t);
    if topics.len() > 0 {
        let init = topics.drop_last();
        let last = topics.last();
        assert(init.push(last) =~= topics);
        assert(init.no_duplicates());
        lemma_without_no_duplicates(init, t);
        init.lemma_filter_push(last, p);
        if last != t {
            let w = without(init, t);
            if w.contains(last) {
                init.lemma_filter_contains_rev(p, last);
                let k = choose|k: int| 0 <= k < init.len() && init[k] == last;
                assert(topics[k] == topics[topics.len() - 1]);
            }
            assert forall|i: int, j: int|
                0 <= i < w.push(last).len() && 0 <= j < w.push(last).len() && i != j implies w.push(
                last,
            )[i] != w.push(last)[j] by {
                if i == w.len() {
                    assert(w[j] != last);
                } else if j == w.len() {
                    assert(w[i] != last);
                }
            }
        }
    } else {
        reveal(Seq::filter);
    }
    if without(topics, t).contains(t) {
        let i = choose|i: int| 0 <= i < without(topics, t).len() && without(topics, t)[i] == t;
        topics.lemma_filter_pred(p, i);
    }
}

/// Law: a configuration is passed on once. After a configuration has been
/// handled, the same configuration again (for any network) does nothing.
pub proof fn law_config_passed_on_once(
    s: WrapperView,
    network_id: Seq<char>,
    again_id: Seq<char>,
    c: WrConfigView,
)
    ensures
        ({
            let (s1, a1) = client_step(
                s,
                Some(ClientMessageView { network_id, info: Some(ClientInfoView::Config(c)) }),
            );
            &&& s.config != Some(c) ==> a1.last() == MqttActionView::Send(
                ServerMessageView::SyncConfig(network_id, c),
            )
            &&& s1.config == Some(c)
            &&& client_step(
                s1,
                Some(ClientMessageView { network_id: again_id, info: Some(ClientInfoView::Config(c)) }),
            ) == (s1, Seq::<MqttActionView>::empty())
        }),
{
}

/// Law: a forbidden node forgets its configuration. After a forbid status
/// that is new, the node holds no configuration, so any configuration that
/// follows, even the one it ran before and even after the node is allowed
/// again, is passed on to bring the network back up.
pub proof fn law_forbid_forgets_config(s: WrapperView, network_id: Seq<char>, later_id: Seq<char>, c: WrConfigView, v: i32)
    requires
        s.status != Some(NodeStatus::NodeForbid),
        0 <= v <= 2,
    ensures
        ({
            let s1 = client_step(
                s,
                Some(ClientMessageView { network_id, info: Some(ClientInfoView::Status(2)) }),
            ).0;
            let s2 = client_step(
                s1,
                Some(ClientMessageView { network_id, info: Some(ClientInfoView::Status(v)) }),
            ).0;
            let a3 = client_step(
                s2,
                Some(ClientMessageView { network_id: later_id, info: Some(ClientInfoView::Config(c)) }),
            ).1;
            &&& s1.config is None
            &&& a3.len() > 0
            &&& a3.last() == MqttActionView::Send(ServerMessageView::SyncConfig(later_id, c))
        }),
{
}

/// Law: a new status other than forbid is recorded and nothing else: the
/// node keeps its configuration and its topics, and no action follows.
pub proof fn law_allowed_status_keeps_state(s: WrapperView, network_id: Seq<char>, v: i32)
    requires
        v == 0 || v == 1,
    ensures
        ({
            let (s1, a) = client_step(
                s,
                Some(ClientMessageView { network_id, info: Some(ClientInfoView::Status(v)) }),
            );
            &&& s1.config == s.config
            &&& s1.topics == s.topics
            &&& a.len() == 0
        }),
{
}

/// Law: a new forbid status stops the node: it is told to stop and forget
/// the network, and stops listening on its own topic.
pub proof fn law_forbid_stops_node(s: WrapperView, network_id: Seq<char>)
    requires
        s.status != Some(NodeStatus::NodeForbid),
    ensures
        ({
            let (s1, a) = client_step(
                s,
                Some(ClientMessageView { network_id, info: Some(ClientInfoView::Status(2)) }),
            );
            &&& a == seq![
                MqttActionView::Send(
                    ServerMessageView::StopWR {
                        network_id,
                        reason: "node has been forbid or delete"@,
                        delete_network: true,
                    },
                ),
            ]
            &&& !s1.topics.contains(s.client_topic)
            &&& s1.status == Some(NodeStatus::NodeForbid)
        }),
{
    if without(s.topics, s.client_topic).contains(s.client_topic) {
        let i = choose|i: int| 0 <= i < without(s.topics, s.client_topic).len() && without(s.topics, s.client_topic)[i] == s.client_topic;
        s.topics.lemma_filter_pred(other_than(s.client_topic), i);
    }
}

/// Law: a node status is acted on once; the same status again does nothing.
pub proof fn law_status_acted_on_once(s: WrapperView, network_id: Seq<char>, again_id: Seq<char>, v: i32)
    requires
        0 <= v <= 2,
    ensures
        ({
            let s1 = client_step(
                s,
                Some(ClientMessageView { network_id, info: Some(ClientInfoView::Status(v)) }),
            ).0;
            client_step(
                s1,
                Some(ClientMessageView { network_id: again_id, info: Some(ClientInfoView::Status(v)) }),
            ) == (s1, Seq::<MqttActionView>::empty())
        }),
{
}

/// Law: the topics listened to never hold one topic twice, whatever comes in.
pub proof fn law_topics_stay_distinct(
    s: WrapperView,
    cm: Option<ClientMessageView>,
    topic: Seq<char>,
    nm: Option<NetworkMessageView>,
)
    requires
        s.topics.no_duplicates(),
    ensures
        client_step(s, cm).0.topics.no_duplicates(),
        network_step(s, topic, nm).0.topics.no_duplicates(),
{
    lemma_without_no_duplicates(s.topics, s.client_topic);
    lemma_without_no_duplicates(s.topics, topic);
    match cm {
        Some(m) => match m.info {
            Some(ClientInfoView::Config(c)) => {
                let t = network_topic(m.network_id);
                if !s.topics.contains(t) {
                    assert forall|i: int, j: int|
                        0 <= i < s.topics.push(t).len() && 0 <= j < s.topics.push(t).len() && i
                            != j implies s.topics.push(t)[i] != s.topics.push(t)[j] by {
                        if i == s.topics.len() {
                            assert(s.topics[j] != t);
                        } else if j == s.topics.len() {
                            assert(s.topics[i] != t);
                        }
                    }
                }
            },
            _ => {},
        },
        None => {},
    }
}

/// Law: once a network is deleted, its topic is left: the node is told to
/// stop, unsubscribes, and no longer listens on it.
pub proof fn law_deleted_network_is_left(s: WrapperView, topic: Seq<char>, network_id: Seq<char>)
    requires
        s.topics.no_duplicates(),
    ensures
        ({
            let (s1, a) = network_step(
                s,
                topic,
                Some(
                    NetworkMessageView {
                        network_id,
                        info: Some(NetworkInfoView::Status(Some(NetworkStatus::NetworkDelete))),
                    },
                ),
            );
            &&& !s1.topics.contains(topic)
            &&& a.last() == MqttActionView::Unsubscribe(topic)
            &&& a[0] == MqttActionView::Send(
                ServerMessageView::StopWR {
                    network_id,
                    reason: "network has been delete"@,
                    delete_network: true,
                },
            )
        }),
{
    lemma_without_no_duplicates(s.topics, topic);
}

/// Law: after a new configuration for a network, that network's topic is
/// listened to.
pub proof fn law_config_listens_to_network(s: WrapperView, network_id: Seq<char>, c: WrConfigView)
    requires
        s.config != Some(c),
    ensures
        client_step(
            s,
            Some(ClientMessageView { network_id, info: Some(ClientInfoView::Config(c)) }),
        ).0.topics.contains(network_topic(network_id)),
{
    let t = network_topic(network_id);
    if !s.topics.contains(t) {
        assert(s.topics.push(t)[s.topics.len() as int] == t);
    }
}

/// The scheme, host (`host_str`) and port (`port_or_known_default`) of the
/// URL `url::Url::parse` makes of a text; `None` where it refuses the text.
pub uninterp spec fn url_components(text: Seq<char>) -> Option<(Seq<char>, Option<Seq<char>>, Option<u16>)>;

/// The text of an optional string.
pub open spec fn opt_text(s: Option<String>) -> Option<Seq<char>> {
    match s {
        Some(x) => Some(x@),
        None => None,
    }
}

/// Parses `text` with `url::Url::parse` and reads the scheme, the host and
/// the port (or the scheme's known default) of the result; the error's text
/// where the parse fails. The components are those named by
/// `url_components`; nothing is claimed of the error text.
#[verifier::external_body]
fn parse_url(text: &str) -> (r: Result<(String, Option<String>, Option<u16>), String>)
    ensures
        match r {
            Ok(c) => url_components(text@) == Some((c.0@, opt_text(c.1), c.2)),
            Err(_) => url_components(text@) is None,
        },
{
    match url::Url::parse(text) {
        Ok(u) => Ok((u.scheme().to_owned(), u.host_str().map(String::from), u.port_or_known_default())),
        Err(e) => Err(e.to_string()),
    }
}

/// Where the MQTT broker is reached.
pub struct MqttTarget {
    /// Over TLS (`mqtts` URLs).
    pub tls: bool,
    pub host: String,
    pub port: u16,
}

/// The broker of a URL's components: TLS for the `mqtts` scheme, no host
/// read as the empty one, and port 1883 where the URL gives none.
pub open spec fn target_of(c: (Seq<char>, Option<Seq<char>>, Option<u16>)) -> (bool, Seq<char>, u16) {
    (
        c.0 == "mqtts"@,
        match c.1 {
            Some(h) => h,
            None => Seq::<char>::empty(),
        },
        match c.2 {
            Some(p) => p,
            None => 1883u16,
        },
    )
}

/// What can keep a configuration-sync session from starting.
pub enum MqttError {
    /// The URL does not parse; the parser's message.
    InvalidUrl(String),
    /// No joined server uses this broker; the message naming the broker.
    NoServer(String),
    /// The request could not be signed.
    Sign(SignError),
    /// A session with this broker is already running.
    AlreadyStarted(String),
}

/// The broker given the components of its URL.
pub fn target_from_components(scheme: &str, host: Option<String>, port: Option<u16>) -> (r: MqttTarget)
    ensures
        (r.tls, r.host@, r.port) == target_of((scheme@, opt_text(host), port)),
{
    let mqtts = "mqtts".to_owned();
    let s = scheme.to_owned();
    let tls = string_eq(&s, &mqtts);
    let host = match host {
        Some(h) => h,
        None => String::new(),
    };
    let port = match port {
        Some(p) => p,
        None => 1883,
    };
    MqttTarget { tls, host, port }
}

/// The broker of an MQTT URL.
pub fn mqtt_target(url: &str) -> (r: Result<MqttTarget, MqttError>)
    ensures
        match url_components(url@) {
            None => r matches Err(MqttError::InvalidUrl(_)),
            Some(c) => r matches Ok(t) && (t.tls, t.host@, t.port) == target_of(c),
        },
{
    match parse_url(url) {
        Ok(c) => Ok(target_from_components(c.0.as_str(), c.1, c.2)),
        Err(m) => Err(MqttError::InvalidUrl(m)),
    }
}

/// The position of the first joined server that uses the broker `url`.
pub open spec fn server_of_broker(servers: Seq<ServerInfoView>, url: Seq<char>) -> Option<int> {
    if exists|i: int| 0 <= i < servers.len() && #[trigger] servers[i].2 == url {
        Some(choose|i: int| 0 <= i < servers.len() && #[trigger] servers[i].2 == url
            && forall|j: int| 0 <= j < i ==> #[trigger] servers[j].2 != url)
    } else {
        None
    }
}

/// The password a node logs in with: nonce, time and signature of a signed
/// request, separated by `|`.
pub open spec fn password_text(nonce: Seq<char>, timestamp: u64, signature: Seq<char>) -> Seq<char> {
    nonce + "|"@ + decimal_digits(timestamp as nat) + "|"@ + signature
}

/// The topic of a node's own messages.
pub open spec fn client_topic(device_id: Seq<char>) -> Seq<char> {
    "client/"@ + device_id
}

/// How a node logs in to the broker and what it listens to.
pub struct MqttSession {
    /// The node's device id.
    pub client_id: String,
    /// The node's public key in base64.
    pub username: String,
    pub password: String,
    pub client_topic: String,
    pub network_topics: Vec<String>,
}

/// The session of the node `device_id`, in the networks `network_ids`,
/// logged in with the signed request `req`.
pub fn session_from_request(device_id: &String, network_ids: &Vec<String>, req: &EncryptRequest) -> (r: MqttSession)
    ensures
        r.client_id@ == device_id@,
        r.username@ == req.public_key@,
        r.password@ == password_text(req.nonce@, req.timestamp, req.signature@),
        r.client_topic@ == client_topic(device_id@),
        r.network_topics@.len() == network_ids@.len(),
        forall|i: int| 0 <= i < network_ids@.len() ==> #[trigger] r.network_topics@[i]@ == network_topic(network_ids@[i]@),
{
    let mut password = req.nonce.clone();
    password.append("|");
    let ts = decimal_string(req.timestamp);
    password.append(ts.as_str());
    password.append("|");
    password.append(req.signature.as_str());
    let mut topic = "client/".to_owned();
    topic.append(device_id.as_str());
    let mut topics: Vec<String> = Vec::new();
    let mut i: usize = 0;
    while i < network_ids.len()
        invariant
            i <= network_ids@.len(),
            topics@.len() == i,
            forall|k: int| 0 <= k < i ==> #[trigger] topics@[k]@ == network_topic(network_ids@[k]@),
        decreases network_ids.len() - i,
    {
        let mut t = "network/".to_owned();
        t.append(network_ids[i].as_str());
        topics.push(t);
        i = i + 1;
    }
    MqttSession {
        client_id: device_id.clone(),
        username: req.public_key.clone(),
        password,
        client_topic: topic,
        network_topics: topics,
    }
}

/// `s` is the session of the joined server `server`, logged in as the node
/// with public key `pk_base64` and signing key `sk`: the password signs the
/// device id with some nonce and time.
pub open spec fn session_for(server: ServerInfoView, pk_base64: Seq<char>, sk: Seq<u8>, s: MqttSession) -> bool {
    &&& s.client_id@ == server.1
    &&& s.username@ == pk_base64
    &&& s.client_topic@ == client_topic(server.1)
    &&& s.network_topics@.len() == server.3.len()
    &&& forall|k: int| 0 <= k < server.3.len() ==> #[trigger] s.network_topics@[k]@ == network_topic(server.3[k])
    &&& exists|nonce: Seq<char>, ts: u64|
        s.password@ == password_text(nonce, ts, #[trigger] base64_encoded(
            ed25519_signature_of(sk, encode_utf8(sign_plain_text(seq![server.1], nonce, ts))),
        ))
}

/// The session with the broker `mqtt_url`: the first joined server that
/// uses it gives the device id and the networks; the password comes from
/// signing the device id afresh (random nonce, current time).
pub fn mqtt_session(local: &LocalConfig, identity: &Identity, mqtt_url: &String) -> (r: Result<MqttSession, MqttError>)
    ensures
        server_of_broker(local.servers(), mqtt_url@) is None ==> (r matches Err(MqttError::NoServer(m)) && m@
            == "There's no mqtt connection: "@ + mqtt_url@),
        server_of_broker(local.servers(), mqtt_url@) matches Some(i) ==> match r {
            Ok(s) => session_for(local.servers()[i], identity.pk_base64@, identity.ed25519_sk@, s),
            Err(e) => e is Sign,
        },
{
    let mut i: usize = 0;
    while i < local.server_info.len()
        invariant
            i <= local.servers().len(),
            forall|j: int| 0 <= j < i ==> #[trigger] local.servers()[j].2 != mqtt_url@,
        decreases local.server_info.len() - i,
    {
        proof {
            assert(local.servers()[i as int] == local.server_info@[i as int].deep_view());
        }
        if string_eq(&local.server_info[i].mqtt_url, mqtt_url) {
            proof {
                let f = local.servers();
                assert(f[i as int].2 == mqtt_url@);
                let c = choose|c: int| 0 <= c < f.len() && #[trigger] f[c].2 == mqtt_url@
                    && forall|j: int| 0 <= j < c ==> #[trigger] f[j].2 != mqtt_url@;
                if c < i {
                    assert(f[c].2 != mqtt_url@);
                }
                if c > i {
                    assert(f[i as int].2 != mqtt_url@);
                }
            }
            let server = &local.server_info[i];
            let mut params: Vec<String> = Vec::new();
            params.push(server.device_id.clone());
            proof {
                assert(params.deep_view() =~= seq![server.device_id@]);
            }
            let ghost device = server.device_id@;
            let signed = identity.sign(params);
            return match signed {
                Ok(req) => {
                    let session = session_from_request(&server.device_id, &server.network_id, &req);
                    proof {
                        let f = local.servers();
                        assert(f[i as int].1 == device);
                        assert(f[i as int].3 == server.network_id.deep_view());
                        assert forall|k: int| 0 <= k < f[i as int].3.len() implies #[trigger] session.network_topics@[k]@
                            == network_topic(f[i as int].3[k]) by {
                            assert(server.network_id.deep_view()[k] == server.network_id@[k]@);
                        }
                        let sig = base64_encoded(
                            ed25519_signature_of(
                                identity.ed25519_sk@,
                                encode_utf8(sign_plain_text(seq![device], req.nonce@, req.timestamp)),
                            ),
                        );
                        assert(session.password@ == password_text(req.nonce@, req.timestamp, sig));
                        assert(seq![device] == seq![f[i as int].1]);
                        assert(exists|nonce: Seq<char>, ts: u64|
                            session.password@ == password_text(nonce, ts, #[trigger] base64_encoded(
                                ed25519_signature_of(
                                    identity.ed25519_sk@,
                                    encode_utf8(sign_plain_text(seq![f[i as int].1], nonce, ts)),
                                ),
                            )));
                        assert(server_of_broker(f, mqtt_url@) == Some(i as int));
                        assert(session_for(f[i as int], identity.pk_base64@, identity.ed25519_sk@, session));
                    }
                    Ok(session)
                },
                Err(e) => Err(MqttError::Sign(e)),
            };
        }
        i = i + 1;
    }
    let mut m = "There's no mqtt connection: ".to_owned();
    m.append(mqtt_url.as_str());
    Err(MqttError::NoServer(m))
}

/// The topics a session subscribes to: the node's own, then its networks'.
pub fn subscribe_topics(session: &MqttSession) -> (r: Vec<String>)
    ensures
        r@.len() == session.network_topics@.len() + 1,
        r@[0]@ == session.client_topic@,
        forall|k: int| 0 <= k < session.network_topics@.len() ==> #[trigger] r@[k + 1]@ == session.network_topics@[k]@,
{
    let mut r: Vec<String> = Vec::new();
    r.push(session.client_topic.clone());
    let mut i: usize = 0;
    while i < session.network_topics.len()
        invariant
            i <= session.network_topics@.len(),
            r@.len() == i + 1,
            r@[0]@ == session.client_topic@,
            forall|k: int| 0 <= k < i ==> #[trigger] r@[k + 1]@ == session.network_topics@[k]@,
        decreases session.network_topics.len() - i,
    {
        r.push(session.network_topics[i].clone());
        i = i + 1;
    }
    r
}

/// Refuses a second session with a broker that has one running.
pub fn check_not_started(mqtt_url: &String, running: bool) -> (r: Result<(), MqttError>)
    ensures
        running <==> r is Err,
        r matches Err(e) ==> e matches MqttError::AlreadyStarted(m) && m@ == mqtt_url@
            + " mqtt connection has already started"@,
{
    if running {
        let mut m = mqtt_url.clone();
        m.append(" mqtt connection has already started");
        Err(MqttError::AlreadyStarted(m))
    } else {
        Ok(())
    }
}

/// What the reconnect loop does once a session with a broker has ended.
pub struct ReconnectStep {
    /// Seconds to wait first.
    pub wait_secs: u64,
    /// The duplicate filter to start the next session with; `None` stops the
    /// loop.
    pub retry: Option<Duplication>,
}

/// After a session: one that ended normally is followed, ten seconds on, by
/// a new one that keeps its duplicate filter, as long as the broker is still
/// registered; one that failed is retried after thirty seconds with the
/// filter it started with, as long as the broker is still registered. A
/// broker no longer registered (it was disconnected) ends the loop.
pub fn after_session(ended: Option<Duplication>, started_with: Duplication, registered: bool) -> (r: ReconnectStep)
    ensures
        ended is Some ==> r.wait_secs == 10,
        ended is None ==> r.wait_secs == (if registered { 30u64 } else { 0u64 }),
        !registered ==> r.retry is None,
        registered ==> r.retry == (match ended {
            Some(d) => Some(d),
            None => Some(started_with),
        }),
{
    match ended {
        Some(d) => ReconnectStep { wait_secs: 10, retry: if registered { Some(d) } else { None } },
        None => if registered {
            ReconnectStep { wait_secs: 30, retry: Some(started_with) }
        } else {
            ReconnectStep { wait_secs: 0, retry: None }
        },
    }
}

/// The delivery guarantee a topic is subscribed with.
#[derive(PartialEq, Eq, Structural, Clone, Copy, Debug)]
pub enum QoS {
    AtMostOnce,
    AtLeastOnce,
    ExactlyOnce,
}

/// The subscriptions of a session: its topics (see `subscribe_topics`), in
/// order, each with at-least-once delivery.
pub fn subscriptions(session: &MqttSession) -> (r: Vec<(String, QoS)>)
    ensures
        r@.len() == session.network_topics@.len() + 1,
        r@[0].0@ == session.client_topic@,
        forall|k: int| 0 <= k < session.network_topics@.len() ==> #[trigger] r@[k + 1].0@ == session.network_topics@[k]@,
        forall|k: int| 0 <= k < r@.len() ==> (#[trigger] r@[k]).1 == QoS::AtLeastOnce,
{
    let topics = subscribe_topics(session);
    let mut r: Vec<(String, QoS)> = Vec::new();
    let mut i: usize = 0;
    while i < topics.len()
        invariant
            i <= topics@.len(),
            r@.len() == i,
            forall|k: int| 0 <= k < i ==> (#[trigger] r@[k]).0@ == topics@[k]@ && r@[k].1 == QoS::AtLeastOnce,
        decreases topics.len() - i,
    {
        let ghost prev = r@;
        r.push((topics[i].clone(), QoS::AtLeastOnce));
        proof {
            assert forall|k: int| 0 <= k < i + 1 implies (#[trigger] r@[k]).0@ == topics@[k]@ && r@[k].1
                == QoS::AtLeastOnce by {
                if k < i {
                    assert(r@[k] == prev[k]);
                }
            }
        }
        i = i + 1;
    }
    proof {
        assert(r@[0].0@ == topics@[0]@);
        assert forall|k: int| 0 <= k < session.network_topics@.len() implies #[trigger] r@[k + 1].0@
            == session.network_topics@[k]@ by {
            assert(r@[k + 1].0@ == topics@[k + 1]@);
        }
    }
    r
}

/// The brokers the node has a session with, each once.
pub struct MqttConnections {
    pub urls: Vec<String>,
}

impl MqttConnections {
    /// The brokers registered.
    pub open spec fn registered(&self) -> Set<Seq<char>> {
        Set::new(|u: Seq<char>| exists|i: int| 0 <= i < self.urls@.len() && #[trigger] self.urls@[i]@ == u)
    }

    /// No broker is registered twice.
    pub open spec fn wf(&self) -> bool {
        forall|i: int, j: int| 0 <= i < j < self.urls@.len() ==> #[trigger] self.urls@[i]@ != #[trigger] self.urls@[j]@
    }

    /// None registered.
    pub fn new() -> (r: MqttConnections)
        ensures
            r.wf(),
            r.registered() == Set::<Seq<char>>::empty(),
    {
        let r = MqttConnections { urls: Vec::new() };
        assert(r.registered() =~= Set::<Seq<char>>::empty());
        r
    }

    fn position(&self, url: &String) -> (r: Option<usize>)
        ensures
            match r {
                Some(i) => i < self.urls@.len() && self.urls@[i as int]@ == url@,
                None => !self.registered().contains(url@),
            },
    {
        let mut i: usize = 0;
        while i < self.urls.len()
            invariant
                i <= self.urls@.len(),
                forall|k: int| 0 <= k < i ==> #[trigger] self.urls@[k]@ != url@,
            decreases self.urls.len() - i,
        {
            if string_eq(&self.urls[i], url) {
                return Some(i);
            }
            i = i + 1;
        }
        None
    }

    /// Whether the broker `url` has a session.
    pub fn is_registered(&self, url: &String) -> (r: bool)
        ensures
            r == self.registered().contains(url@),
    {
        self.position(url).is_some()
    }

    /// Registers a session with the broker `url`, once it is connected; a
    /// broker that has one already is refused (see `check_not_started`).
    pub fn start(&mut self, url: &String) -> (r: Result<(), MqttError>)
        requires
            old(self).wf(),
        ensures
            final(self).wf(),
            old(self).registered().contains(url@) <==> r is Err,
            r matches Err(e) ==> (e matches MqttError::AlreadyStarted(m) && m@ == url@
                + " mqtt connection has already started"@) && *final(self) == *old(self),
            r is Ok ==> final(self).registered() == old(self).registered().insert(url@),
    {
        let running = self.is_registered(url);
        match check_not_started(url, running) {
            Err(e) => Err(e),
            Ok(()) => {
                let ghost before = self.urls@;
                self.urls.push(url.clone());
                proof {
                    assert forall|i: int, j: int| 0 <= i < j < self.urls@.len() implies #[trigger] self.urls@[i]@
                        != #[trigger] self.urls@[j]@ by {
                        if j == before.len() {
                            assert(self.urls@[i] == before[i]);
                            assert(old(self).registered().contains(before[i]@));
                        } else {
                            assert(self.urls@[i] == before[i] && self.urls@[j] == before[j]);
                        }
                    }
                    assert forall|u: Seq<char>| self.registered().contains(u) == old(self).registered().insert(url@).contains(u) by {
                        if old(self).registered().contains(u) {
                            let i = choose|i: int| 0 <= i < before.len() && #[trigger] before[i]@ == u;
                            assert(self.urls@[i] == before[i]);
                        }
                        if self.registered().contains(u) && u != url@ {
                            let i = choose|i: int| 0 <= i < self.urls@.len() && #[trigger] self.urls@[i]@ == u;
                            assert(i < before.len());
                            assert(before[i] == self.urls@[i]);
                        }
                        if u == url@ {
                            assert(self.urls@[before.len() as int]@ == u);
                        }
                    }
                    assert(self.registered() =~= old(self).registered().insert(url@));
                }
                Ok(())
            },
        }
    }

    /// Forgets the session with the broker `url` (it was disconnected): its
    /// reconnect loop then ends (see `after_session`). The result says
    /// whether it was registered.
    pub fn stop(&mut self, url: &String) -> (r: bool)
        requires
            old(self).wf(),
        ensures
            final(self).wf(),
            r == old(self).registered().contains(url@),
            final(self).registered() == old(self).registered().remove(url@),
    {
        match self.position(url) {
            None => {
                assert(old(self).registered().remove(url@) =~= old(self).registered());
                false
            },
            Some(i) => {
                let ghost before = self.urls@;
                self.urls.remove(i);
                proof {
                    assert forall|a: int, b: int| 0 <= a < b < self.urls@.len() implies #[trigger] self.urls@[a]@
                        != #[trigger] self.urls@[b]@ by {
                        let a2 = if a < i { a } else { a + 1 };
                        let b2 = if b < i { b } else { b + 1 };
                        assert(self.urls@[a] == before[a2] && self.urls@[b] == before[b2]);
                    }
                    assert forall|u: Seq<char>| self.registered().contains(u) == old(self).registered().remove(url@).contains(u) by {
                        if self.registered().contains(u) {
                            let k = choose|k: int| 0 <= k < self.urls@.len() && #[trigger] self.urls@[k]@ == u;
                            let k2 = if k < i { k } else { k + 1 };
                            assert(self.urls@[k] == before[k2]);
                            if k2 < i {
                                assert(before[k2]@ != before[i as int]@);
                            } else {
                                assert(before[i as int]@ != before[k2]@);
                            }
                        }
                        if old(self).registered().remove(url@).contains(u) {
                            let k = choose|k: int| 0 <= k < before.len() && #[trigger] before[k]@ == u;
                            assert(k != i);
                            let k2 = if k < i { k } else { k - 1 };
                            assert(self.urls@[k2] == before[k]);
                        }
                    }
                    assert(self.registered() =~= old(self).registered().remove(url@));
                }
                true
            },
        }
    }
}

} // verus!
