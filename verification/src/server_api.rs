//! The client side of the command socket of a running node.

use vstd::prelude::*;

verus! {

/// Where a running node listens for commands (a Unix socket).
pub const SERVER_API_SOCKET: &'static str = "/var/run/fornet.sock";

/// Where a running node listens for commands.
pub fn get_server_api_socket_path() -> (r: String)
    ensures
        r@ == SERVER_API_SOCKET@,
{
    SERVER_API_SOCKET.to_owned()
}

/// The connection settings of the command socket.
pub struct _ApiClient {
    pub api_socket_path: String,
}

impl _ApiClient {
    /// Talks to the socket at `path`.
    pub fn new(path: String) -> (r: _ApiClient)
        ensures
            r.api_socket_path@ == path@,
    {
        _ApiClient { api_socket_path: path }
    }
}

/// A client of the command socket of a running node.
pub struct ApiClient {
    pub client: _ApiClient,
}

impl ApiClient {
    /// Talks to the socket at `path`.
    pub fn new(path: String) -> (r: ApiClient)
        ensures
            r.client.api_socket_path@ == path@,
    {
        ApiClient { client: _ApiClient::new(path) }
    }

    /// The version of this library.
    pub fn version(&self) -> (r: String)
        ensures
            r@ == crate::flutter_api::VERSION@,
    {
        crate::flutter_api::version()
    }
}

} // verus!
