//! Transport core of an IRC client: address parsing, line framing, the
//! connection registry, and the decisions taken around every socket
//! operation. The sockets themselves live with the caller; this crate
//! decides what is dialled, what goes on the wire, which events are
//! published and when a connection leaves the registry.

pub mod address;
pub mod error;
pub mod event;
pub mod framing;
pub mod registry;
pub mod session;
pub mod text;

pub use address::{parse_address, parse_host_port};
pub use error::SocketError;
pub use event::{Event, MessageData, MessageEvent, ReceivedPayload};
pub use registry::SocketState;
pub use session::{connect, disconnect, listen, plan_connect, read_step, send, ConnectPlan, ReadStep};
