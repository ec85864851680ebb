//! Commands of the streaming replication protocol.

use vstd::prelude::*;
use vstd::string::StringExecFns;

verus! {

/// The command that starts logical replication from a slot.
pub open spec fn start_replication_text(slot_name: Seq<char>) -> Seq<char> {
    "START_REPLICATION SLOT "@ + slot_name + " LOGICAL 0/0"@
}

/// Writes the command that starts logical replication from a slot, at the
/// position that the server has confirmed.
pub fn start_replication(slot_name: &str) -> (sql: String)
    ensures
        sql@ == start_replication_text(slot_name@),
{
    let mut sql = "START_REPLICATION SLOT ".to_owned();
    sql.append(slot_name);
    sql.append(" LOGICAL 0/0");
    sql
}

} // verus!
