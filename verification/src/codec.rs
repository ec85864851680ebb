//! The first message of a connection, from the parameters of the connection.

use bytes::Bytes;
use vstd::prelude::*;

use crate::machine::ConnectParams;
use crate::octets::octets;
use crate::protocol::encode_startup;

verus! {

/// Writes the request for a connection with these parameters.
pub fn encode_startup_message(params: &ConnectParams) -> (b: Bytes)
    requires
        params@.startup_message().len() <= isize::MAX,
    ensures
        octets(b) == params@.startup_message(),
{
    encode_startup(
        params.user_name.as_str(),
        params.database.as_str(),
        params.replication_mode.as_str(),
    )
}

} // verus!
