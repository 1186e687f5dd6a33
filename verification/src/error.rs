//! What can go wrong with a connection, and the text each failure is
//! reported with.

use vstd::prelude::*;
use crate::address::{authority, dial_target};
use crate::text::joined;

verus! {

/// A failure of a connection, or of a command on one.
#[derive(Clone, Debug, PartialEq, Eq)]
pub enum SocketError {
    /// No connection is registered under this identifier.
    NotFound { client_id: String },
    /// The TCP connection to `host:port` could not be made.
    DialFailed { host: String, port: u16, cause: String },
    /// The TLS connector could not be set up.
    TlsConnectorFailed { cause: String },
    /// The TLS handshake with the server failed.
    TlsHandshakeFailed { cause: String },
    /// Reading from the connection failed.
    ReadFailed { cause: String },
    /// The bytes of a line could not be written.
    WriteFailed { cause: String },
    /// A written line could not be flushed.
    FlushFailed { cause: String },
}

/// The mathematical value of a [`SocketError`].
pub enum SocketErrorView {
    NotFound { client_id: Seq<char> },
    DialFailed { host: Seq<char>, port: u16, cause: Seq<char> },
    TlsConnectorFailed { cause: Seq<char> },
    TlsHandshakeFailed { cause: Seq<char> },
    ReadFailed { cause: Seq<char> },
    WriteFailed { cause: Seq<char> },
    FlushFailed { cause: Seq<char> },
}

impl View for SocketError {
    type V = SocketErrorView;

    open spec fn view(&self) -> SocketErrorView {
        match self {
            SocketError::NotFound { client_id } => SocketErrorView::NotFound {
                client_id: client_id@,
            },
            SocketError::DialFailed { host, port, cause } => SocketErrorView::DialFailed {
                host: host@,
                port: *port,
                cause: cause@,
            },
            SocketError::TlsConnectorFailed { cause } => SocketErrorView::TlsConnectorFailed {
                cause: cause@,
            },
            SocketError::TlsHandshakeFailed { cause } => SocketErrorView::TlsHandshakeFailed {
                cause: cause@,
            },
            SocketError::ReadFailed { cause } => SocketErrorView::ReadFailed { cause: cause@ },
            SocketError::WriteFailed { cause } => SocketErrorView::WriteFailed { cause: cause@ },
            SocketError::FlushFailed { cause } => SocketErrorView::FlushFailed { cause: cause@ },
        }
    }
}

impl SocketErrorView {
    /// The text the failure is reported with.
    pub open spec fn message(self) -> Seq<char> {
        match self {
            SocketErrorView::NotFound { client_id } => "No connection found for client_id: "@
                + client_id,
            SocketErrorView::DialFailed { host, port, cause } => "Failed to connect to "@
                + authority(host, port) + ": "@ + cause,
            SocketErrorView::TlsConnectorFailed { cause } => "Failed to create TLS connector: "@
                + cause,
            SocketErrorView::TlsHandshakeFailed { cause } => "TLS handshake failed: "@ + cause,
            SocketErrorView::ReadFailed { cause } => "Read error: "@ + cause,
            SocketErrorView::WriteFailed { cause } => "Write error: "@ + cause,
            SocketErrorView::FlushFailed { cause } => "Flush error: "@ + cause,
        }
    }
}

impl SocketError {
    /// The text the failure is reported with.
    pub fn message(&self) -> (text: String)
        ensures
            text@ == self@.message(),
    {
        match self {
            SocketError::NotFound { client_id } => joined(
                "No connection found for client_id: ",
                client_id.as_str(),
            ),
            SocketError::DialFailed { host, port, cause } => {
                let mut text = joined("Failed to connect to ", dial_target(host.as_str(), *port).as_str());
                text.append(": ");
                text.append(cause.as_str());
                text
            },
            SocketError::TlsConnectorFailed { cause } => joined(
                "Failed to create TLS connector: ",
                cause.as_str(),
            ),
            SocketError::TlsHandshakeFailed { cause } => joined(
                "TLS handshake failed: ",
                cause.as_str(),
            ),
            SocketError::ReadFailed { cause } => joined("Read error: ", cause.as_str()),
            SocketError::WriteFailed { cause } => joined("Write error: ", cause.as_str()),
            SocketError::FlushFailed { cause } => joined("Flush error: ", cause.as_str()),
        }
    }
}

} // verus!
