//! Verified core of the ForNet client: configuration bookkeeping, invite
//! tokens, identities, the control-channel state machine, peer changes and
//! the packet-level decisions of the WireGuard device.

pub mod device;
pub mod text;
pub mod protobuf;
pub mod client_manager;
pub mod sc_manager;
pub mod crypto;
pub mod config;
pub mod api;
pub mod wr_manager;
pub mod server_manager;
pub mod flutter_api;
pub mod server_api;
pub mod net;
pub mod fortun;

use vstd::prelude::*;
use vstd::string::*;

verus! {

/// Name of the application; used for the configuration directory.
pub const APP_NAME: &'static str = "fornet";

/// Bundle identifier used on macOS.
pub const MAC_OS_PACKAGE_NAME: &'static str = "com.timzaak.fornet";

/// The default configuration directory: `/etc/fornet` (Linux).
pub open spec fn default_config_path_spec() -> Seq<char> {
    "/etc/"@ + APP_NAME@
}

/// The default configuration directory (`/etc/<app name>` on Linux).
pub fn default_config_path() -> (r: String)
    ensures
        r@ == default_config_path_spec(),
{
    let mut r = "/etc/".to_owned();
    r.append(APP_NAME);
    r
}

} // verus!
