//! Where a request is relayed to.

use vstd::prelude::*;

verus! {

/// How the upstream server is reached, and the host name it is addressed by.
///
/// `address` and `port` are for whoever opens the transport connection. The
/// relay itself reads `host` alone, and only to see whether it is empty.
#[derive(Clone, Debug, PartialEq, Eq)]
pub struct RelayConnectionInfo {
    pub address: String,
    pub port: u16,
    pub host: String,
}

/// A `RelayConnectionInfo` as plain mathematical values.
pub struct RelayView {
    pub address: Seq<char>,
    pub port: u16,
    pub host: Seq<char>,
}

impl View for RelayConnectionInfo {
    type V = RelayView;

    open spec fn view(&self) -> RelayView {
        RelayView { address: self.address@, port: self.port, host: self.host@ }
    }
}

/// Why no connection to the upstream server came about.
#[derive(Clone, Copy, Debug, PartialEq, Eq)]
pub enum ConnectError {
    /// The upstream's name did not resolve to an address.
    Unresolved,
    /// The upstream refused the connection.
    Refused,
    /// The upstream did not answer in time.
    TimedOut,
    /// Any other failure of the transport.
    Other,
}

} // verus!
