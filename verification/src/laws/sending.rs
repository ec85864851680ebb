//! What the client sends and reports, written out byte by byte.

use vstd::prelude::*;

use crate::backend::{ErrorResponse, PrimaryKeepAlive, XLogData};
use crate::driver::DriverView;
use crate::error::Error;
use crate::laws::format::{
    big_endian, frame_octets, keepalive_octets, numbers_are_big_endian, terminated, xlog_octets,
};
use crate::laws::machine::copy_done;
use crate::laws::server::{frames_are_framed, keepalive_is_decoded, xlog_is_decoded};
use crate::machine::{ConnectParams, CoreEvent, CoreEventView, CoreView, StateView};
use crate::octets::octets;
use crate::pgoutput::{logical_message, LogicalReplicationMessage};
use crate::protocol::framed;
use crate::wire::cstr_octets;

verus! {

/// What the request for a connection says behind its length: version 3.0 of the
/// protocol, and the names and values of the user, the database and the replication
/// mode.
pub open spec fn request_octets(params: ConnectParams) -> Seq<u8> {
    big_endian(196608, 4) + terminated("user"@) + terminated(params.user_name@) + terminated(
        "database"@,
    ) + terminated(params.database@) + terminated("replication"@) + terminated(
        params.replication_mode@,
    ) + seq![0u8]
}

/// The strings of the protocol are texts and a zero byte.
proof fn lemma_terminated(text: Seq<char>)
    ensures
        cstr_octets(text) == terminated(text),
{
    assert(cstr_octets(text) =~= terminated(text));
}

/// To connect sends the request with the parameters, behind its length, and keeps
/// the parameters for the login.
pub proof fn connecting_sends_request(core: CoreView, params: ConnectParams)
    requires
        core.state is Disconnected,
        4 + request_octets(params).len() <= u32::MAX,
    ensures
        ({
            let (r, next) = core.connect(params@);
            let body = request_octets(params);
            &&& r == Ok::<(), Error>(())
            &&& next.outgoing == core.outgoing.push(big_endian(4 + body.len() as int, 4) + body)
            &&& next.connect_params matches Some(kept)
            &&& kept.user_name == params.user_name@
            &&& kept.password == params.password@
            &&& kept.database == params.database@
            &&& kept.replication_mode == params.replication_mode@
            &&& next.state is Startup
            &&& next.events == core.events
            &&& next.data == core.data
        }),
{
    let body = request_octets(params);
    lemma_terminated("user"@);
    lemma_terminated("database"@);
    lemma_terminated("replication"@);
    lemma_terminated(params.user_name@);
    lemma_terminated(params.database@);
    lemma_terminated(params.replication_mode@);
    numbers_are_big_endian(196608, 0);
    numbers_are_big_endian((4 + body.len()) as u32, 0);
    assert(crate::protocol::startup_body(
        params.user_name@,
        params.database@,
        params.replication_mode@,
    ) =~= body);
    assert(params@.startup_message() =~= big_endian(4 + body.len() as int, 4) + body);
}

/// The command that names a slot.
pub proof fn command_names_slot(slot: Seq<char>)
    ensures
        crate::replication::start_replication_text(slot) == "START_REPLICATION SLOT "@ + slot
            + " LOGICAL 0/0"@,
{
}

/// A client that is logged in starts replication from the slot `locus` once the
/// server is ready, and reports that it is connected.
pub proof fn ready_client_starts_replication(core: CoreView)
    requires
        core.state is Authenticated,
    ensures
        ({
            let (r, next) = core.on_ready_for_query();
            let sql = "START_REPLICATION SLOT "@ + "locus"@ + " LOGICAL 0/0"@;
            &&& r == Ok::<(), Error>(())
            &&& next.outgoing == core.outgoing.push(frame_octets(0x51, terminated(sql)))
            &&& next.events == core.events.push(CoreEvent::Connected@)
            &&& next.state is StartReplication
            &&& next.connect_params == core.connect_params
            &&& next.data == core.data
        }),
{
    let sql = "START_REPLICATION SLOT "@ + "locus"@ + " LOGICAL 0/0"@;
    lemma_terminated(sql);
    reveal_strlit("START_REPLICATION SLOT ");
    reveal_strlit(" LOGICAL 0/0");
    reveal_strlit("locus");
    vstd::utf8::is_ascii_chars_encode_utf8(sql);
    frames_are_framed(0x51, terminated(sql));
}

/// A command of the client to close ends replication if data is streaming, however
/// often it is given, and does nothing otherwise.
pub proof fn commands_close(driver: DriverView)
    requires
        driver.commands.len() > 0,
    ensures
        driver.obeyed().commands.len() == 0,
        driver.core.state is Streaming ==> driver.obeyed().core == driver.core.send(
            copy_done(),
        ).to(StateView::ClosingCopy),
        !(driver.core.state is Streaming) ==> driver.obeyed().core == driver.core,
        driver.obeyed().core_events == driver.core_events,
        driver.obeyed().current_send == driver.current_send,
        driver.obeyed().current_read == driver.current_read,
{
    frames_are_framed(0x63, Seq::empty());
    assert(framed(0x63, Seq::empty()) =~= copy_done());
}

/// While data is streaming, a piece of the log is reported as the message in it.
pub proof fn log_is_reported(core: CoreView, x: XLogData, m: LogicalReplicationMessage)
    requires
        core.state is Streaming,
        logical_message(octets(x.wal_data)) == Ok::<
            crate::pgoutput::LogicalReplicationView,
            Error,
        >(m@),
    ensures
        core.on_copy_data(xlog_octets(x)) == (
            Ok::<(), Error>(()),
            CoreView { events: core.events.push(CoreEvent::LogicalMessage(m)@), ..core },
        ),
        CoreEvent::LogicalMessage(m)@ == CoreEventView::LogicalMessage(m@),
{
    xlog_is_decoded(x);
}

/// While data is streaming, a piece of the log that holds no message is refused
/// with what is wrong with it, and nothing changes.
pub proof fn bad_log_is_refused(core: CoreView, x: XLogData, e: Error)
    requires
        core.state is Streaming,
        logical_message(octets(x.wal_data)) == Err::<
            crate::pgoutput::LogicalReplicationView,
            Error,
        >(e),
    ensures
        core.on_copy_data(xlog_octets(x)) == (Err::<(), Error>(e), core),
{
    xlog_is_decoded(x);
}

/// While data is streaming, a sign of life is reported as it is.
pub proof fn keepalive_is_reported(core: CoreView, k: PrimaryKeepAlive, more: Seq<u8>)
    requires
        core.state is Streaming,
    ensures
        core.on_copy_data(keepalive_octets(k) + more) == (
            Ok::<(), Error>(()),
            CoreView { events: core.events.push(CoreEvent::KeepAlive(k)@), ..core },
        ),
        CoreEvent::KeepAlive(k)@ == CoreEventView::KeepAlive(k),
{
    keepalive_is_decoded(k, more);
}

/// An error of the server is reported with its fields.
pub proof fn server_error_is_reported(e: ErrorResponse)
    ensures
        CoreEvent::ServerError(e)@ == CoreEventView::ServerError(octets(e.fields)),
        CoreEvent::Connected@ is Connected,
        CoreEvent::ReplicationStarted@ is ReplicationStarted,
{
}

} // verus!
