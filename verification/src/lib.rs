//! The client side of PostgreSQL logical replication, without any input or output
//! of its own.
//!
//! [`Core`] is the protocol machine: bytes from the server go in, events and bytes
//! for the server come out. [`parse`] decodes what the `pgoutput` plugin writes.
//! [`DriverState`] holds what drives a [`Core`] over a transport.

pub mod auth;
pub mod backend;
pub mod codec;
pub mod crypto;
pub mod driver;
mod error;
pub mod laws;
pub mod machine;
pub mod octets;
pub mod pgoutput;
pub mod protocol;
pub mod replication;
pub mod wire;

pub use auth::scram::hmac_sha256;
pub use backend::{ErrorResponse, PrimaryKeepAlive};
pub use driver::{ClientCommand, DriverState, NextEvent, Outcome, Turn, WriteAction};
pub use error::{CoreStatus, Error, ServerFirstField};
pub use machine::{ConnectParams, Core, CoreEvent};
pub use pgoutput::{
    parse, Begin, Column, Commit, Delete, Insert, LogicalReplicationMessage, Message, OldTuple,
    Origin, PgOutputMessage, Relation, StreamAbort, StreamCommit, StreamStart, StreamStop, Truncate,
    TruncateOptions, TupleData, TupleValue, Type, Update,
};
pub use replication::start_replication;
