//! Transport selection: a transport describes where one connection per
//! protocol operation is opened - a network address or a Unix socket path.
//! Opening the connection is I/O and happens outside this crate; a verified
//! caller only chooses and carries the endpoint.

use vstd::prelude::*;

verus! {

/// Where a transport connects to.
#[derive(Clone, Debug)]
pub enum Endpoint {
    /// A network address: host and port.
    Network(String),
    /// A filesystem path to a Unix domain socket.
    SocketPath(String),
}

/// Use a TCP connection to communicate with a ClamAV server.
#[derive(Clone, Debug)]
pub struct Tcp {
    /// The address (host and port) of the ClamAV server.
    pub host_address: String,
}

/// Use a Unix socket connection to communicate with a ClamAV server.
#[derive(Clone, Debug)]
pub struct Socket {
    /// The socket file path of the ClamAV server.
    pub socket_path: String,
}

/// The communication protocol to use. A transport owns no connection state:
/// it is a recipe naming the endpoint from which each protocol operation
/// opens its own fresh connection.
pub trait TransportProtocol {
    /// The endpoint this transport connects to.
    spec fn spec_endpoint(&self) -> Endpoint;

    /// Returns the endpoint this transport connects to.
    fn endpoint(&self) -> (r: Endpoint)
        ensures
            r == self.spec_endpoint(),
    ;
}

impl TransportProtocol for Tcp {
    open spec fn spec_endpoint(&self) -> Endpoint {
        Endpoint::Network(self.host_address)
    }

    fn endpoint(&self) -> (r: Endpoint) {
        Endpoint::Network(self.host_address.clone())
    }
}

impl TransportProtocol for Socket {
    open spec fn spec_endpoint(&self) -> Endpoint {
        Endpoint::SocketPath(self.socket_path)
    }

    fn endpoint(&self) -> (r: Endpoint) {
        Endpoint::SocketPath(self.socket_path.clone())
    }
}

impl<T: TransportProtocol> TransportProtocol for &T {
    open spec fn spec_endpoint(&self) -> Endpoint {
        (**self).spec_endpoint()
    }

    fn endpoint(&self) -> (r: Endpoint) {
        (**self).endpoint()
    }
}

} // verus!
