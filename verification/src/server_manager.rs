//! The server side of a node that runs several networks: how it was started
//! and the messages its manager handles.

use vstd::prelude::*;
use crate::protobuf::{PeerChange, WrConfig};
use crate::config::ServerConfig;
use crate::client_manager::{peer_commands, plan_peer_change, PeerCommand};
use crate::device::script_run::opt_view;
use crate::wr_manager::{entry_other_than, network_infos, stop_wr, StopOutcome, WRManager};

verus! {

/// How the node was started.
#[derive(PartialEq, Eq, Structural, Clone, Copy, Debug)]
pub enum StartMethod {
    CommandLine,
    FlutterLib,
}

/// A message from the control server, as the multi-network manager handles
/// it.
pub enum ServerMessage {
    /// NodeStatus::Normal => start WireGuard, other => stop WireGuard
    StopWR { network_id: String, reason: String, delete_network: bool },
    SyncPeers(String, PeerChange),
    SyncConfig(String, WrConfig),
}

/// Whether to tell the user how to join, when no configuration was found:
/// only when started from the command line.
pub fn should_hint_join(start_method: StartMethod, has_config: bool) -> (r: bool)
    ensures
        r == (!has_config && start_method == StartMethod::CommandLine),
{
    !has_config && start_method == StartMethod::CommandLine
}

/// What the manager does once it has handled a message.
pub enum ServerAction {
    /// The network was stopped: save the configuration where
    /// `outcome.save`, and run the device's down scripts.
    Stopped(StopOutcome),
    /// Bring the network's device up with this configuration.
    Start(String, WrConfig),
    /// Apply these peer commands, in order, to the network's device.
    ChangePeers(String, Vec<PeerCommand>),
    /// Nothing: no configuration is loaded.
    Nothing,
}

/// One step of the manager's message loop, for a node whose saved
/// configuration is `config` (none loaded yet: `None`) and whose own
/// base64 identity is `own_public_key`: a request to stop a network closes
/// its device, after forgetting the network where it was deleted and a
/// configuration is loaded; a new configuration brings the device up where
/// a configuration is loaded; a peer change gives its peer commands.
pub fn server_step(
    config: &mut Option<ServerConfig>,
    manager: &mut WRManager,
    own_public_key: Option<&String>,
    message: ServerMessage,
) -> (r: ServerAction)
    requires
        old(manager).wf(),
    ensures
        final(manager).wf(),
        match message {
            ServerMessage::StopWR { network_id, reason: _, delete_network } => {
                &&& r matches ServerAction::Stopped(o)
                &&& o.save == (delete_network && (*old(config) is Some))
                &&& match *old(config) {
                    Some(c) => (*final(config)) matches Some(f) && (if delete_network {
                        network_infos(&f) == network_infos(&c).filter(entry_other_than(network_id@))
                            && f.server_url == c.server_url && f.device_id == c.device_id && f.mqtt_url
                            == c.mqtt_url
                    } else {
                        f == c
                    }),
                    None => (*final(config)) is None,
                }
                &&& final(manager).device_pos(network_id@) is None
                &&& match old(manager).device_pos(network_id@) {
                    Some(i) => final(manager).devices@ == old(manager).devices@.remove(i) && opt_view(o.pre_down)
                        == opt_view(old(manager).devices@[i].1.scripts.pre_down) && opt_view(o.post_down)
                        == opt_view(old(manager).devices@[i].1.scripts.post_down),
                    None => final(manager).devices@ == old(manager).devices@ && o.pre_down is None
                        && o.post_down is None,
                }
            },
            ServerMessage::SyncConfig(id, c) => {
                &&& *final(config) == *old(config)
                &&& *final(manager) == *old(manager)
                &&& if *old(config) is Some {
                    r == ServerAction::Start(id, c)
                } else {
                    r is Nothing
                }
            },
            ServerMessage::SyncPeers(id, change) => {
                &&& *final(config) == *old(config)
                &&& *final(manager) == *old(manager)
                &&& r matches ServerAction::ChangePeers(n, cmds) && n == id && cmds@.map_values(
                    |c: PeerCommand| c.deep_view(),
                ) == peer_commands(
                    match own_public_key {
                        Some(k) => Some(k@),
                        None => None,
                    },
                    change.deep_view(),
                )
            },
        },
{
    match message {
        ServerMessage::StopWR { network_id, reason: _, delete_network } => {
            match config {
                Some(c) => {
                    let o = stop_wr(c, manager, &network_id, delete_network);
                    ServerAction::Stopped(o)
                },
                None => {
                    let (pre_down, post_down) = manager.close(&network_id);
                    ServerAction::Stopped(StopOutcome { save: false, pre_down, post_down })
                },
            }
        },
        ServerMessage::SyncConfig(id, c) => {
            if config.is_some() {
                ServerAction::Start(id, c)
            } else {
                ServerAction::Nothing
            }
        },
        ServerMessage::SyncPeers(id, change) => ServerAction::ChangePeers(id, plan_peer_change(own_public_key, change)),
    }
}

} // verus!
