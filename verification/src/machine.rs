//! The protocol machine of the client: bytes from the server go in, events and
//! bytes for the server come out.

use std::collections::VecDeque;

use bytes::{Bytes, BytesMut};
use vstd::prelude::*;
use vstd::utf8::is_ascii_chars_encode_utf8;

use crate::auth::scram::{after, is_draw, ScramClient, ScramView, COMMA, SCRAM_SHA_256_NAME};
use crate::backend::{
    self, texts, Authentication, AuthenticationView, ErrorResponse, MessageFormat,
    MessageFormatView, PrimaryKeepAlive, ReplicationMessage, ReplicationView, MAX_FRAME_SIZE,
};
use crate::crypto::{is_base64_text, lemma_base64_is_ascii};
use crate::error::{CoreStatus, Error};
use crate::octets::{as_slice, mut_as_slice, mut_octets, octets, put_slice, u32_at};
use crate::pgoutput::{self, logical_message, LogicalReplicationMessage, LogicalReplicationView};
use crate::protocol::{self, framed, initial_response_body, startup_octets, Codec};
use crate::replication::{self, start_replication_text};
use crate::wire::{agrees, cstr_octets, lemma_position};

verus! {

/// The slot that is replicated from.
pub const SLOT_NAME: &'static str = "locus";

#[derive(Debug)]
enum CoreState {
    Startup,
    Authenticating(AuthState),
    Authenticated,
    Disconnected,
    Shutdown,
    StartReplication,
    Streaming,
    ClosingCopy,
    Failed,
}

#[derive(Debug)]
enum AuthState {
    Idle,
    Scram(ScramClient),
}

/// Something that the application should know of.
pub enum CoreEvent {
    LogicalMessage(LogicalReplicationMessage),
    KeepAlive(PrimaryKeepAlive),
    ReplicationStarted,
    ServerError(ErrorResponse),
    Connected,
}

/// How to connect.
pub struct ConnectParams {
    pub user_name: String,
    pub password: String,
    pub database: String,
    pub replication_mode: String,
}

/// The protocol machine.
pub struct Core {
    state: CoreState,
    connect_params: Option<ConnectParams>,
    data: BytesMut,
    events: VecDeque<CoreEvent>,
    timeout: Option<std::time::Duration>,
    outgoing: VecDeque<Bytes>,
}

// What the machine holds, apart from how it is held in memory.

/// The state of an authentication exchange.
pub enum AuthView {
    Idle,
    Scram(ScramView),
}

/// The state of the machine.
pub enum StateView {
    Startup,
    Authenticating(AuthView),
    Authenticated,
    Disconnected,
    Shutdown,
    StartReplication,
    Streaming,
    ClosingCopy,
    Failed,
}

impl View for AuthState {
    type V = AuthView;

    closed spec fn view(&self) -> AuthView {
        match *self {
            AuthState::Idle => AuthView::Idle,
            AuthState::Scram(c) => AuthView::Scram(c@),
        }
    }
}

impl View for CoreState {
    type V = StateView;

    closed spec fn view(&self) -> StateView {
        match *self {
            CoreState::Startup => StateView::Startup,
            CoreState::Authenticating(a) => StateView::Authenticating(a@),
            CoreState::Authenticated => StateView::Authenticated,
            CoreState::Disconnected => StateView::Disconnected,
            CoreState::Shutdown => StateView::Shutdown,
            CoreState::StartReplication => StateView::StartReplication,
            CoreState::Streaming => StateView::Streaming,
            CoreState::ClosingCopy => StateView::ClosingCopy,
            CoreState::Failed => StateView::Failed,
        }
    }
}

impl StateView {
    /// The state without its payload.
    pub open spec fn status(self) -> CoreStatus {
        match self {
            StateView::Startup => CoreStatus::Startup,
            StateView::Authenticating(_) => CoreStatus::Authenticating,
            StateView::Authenticated => CoreStatus::Authenticated,
            StateView::Disconnected => CoreStatus::Disconnected,
            StateView::Shutdown => CoreStatus::Shutdown,
            StateView::StartReplication => CoreStatus::StartReplication,
            StateView::Streaming => CoreStatus::Streaming,
            StateView::ClosingCopy => CoreStatus::ClosingCopy,
            StateView::Failed => CoreStatus::Failed,
        }
    }
}

/// What a [`CoreEvent`] says.
pub enum CoreEventView {
    LogicalMessage(LogicalReplicationView),
    KeepAlive(PrimaryKeepAlive),
    ReplicationStarted,
    ServerError(Seq<u8>),
    Connected,
}

impl View for CoreEvent {
    type V = CoreEventView;

    open spec fn view(&self) -> CoreEventView {
        match *self {
            CoreEvent::LogicalMessage(m) => CoreEventView::LogicalMessage(m@),
            CoreEvent::KeepAlive(k) => CoreEventView::KeepAlive(k),
            CoreEvent::ReplicationStarted => CoreEventView::ReplicationStarted,
            CoreEvent::ServerError(e) => CoreEventView::ServerError(e@),
            CoreEvent::Connected => CoreEventView::Connected,
        }
    }
}

/// What [`ConnectParams`] say.
pub struct ConnectParamsView {
    pub user_name: Seq<char>,
    pub password: Seq<char>,
    pub database: Seq<char>,
    pub replication_mode: Seq<char>,
}

impl View for ConnectParams {
    type V = ConnectParamsView;

    open spec fn view(&self) -> ConnectParamsView {
        ConnectParamsView {
            user_name: self.user_name@,
            password: self.password@,
            database: self.database@,
            replication_mode: self.replication_mode@,
        }
    }
}

/// What a [`Core`] holds.
pub struct CoreView {
    pub state: StateView,
    pub connect_params: Option<ConnectParamsView>,
    /// The bytes received that do not make up a frame yet.
    pub data: Seq<u8>,
    /// The events not yet handed out, the oldest first.
    pub events: Seq<CoreEventView>,
    pub timeout: Option<std::time::Duration>,
    /// The messages not yet handed out, the oldest first.
    pub outgoing: Seq<Seq<u8>>,
}

spec fn event_views(events: Seq<CoreEvent>) -> Seq<CoreEventView> {
    events.map_values(|e: CoreEvent| e@)
}

spec fn message_views(messages: Seq<Bytes>) -> Seq<Seq<u8>> {
    messages.map_values(|b: Bytes| octets(b))
}

impl View for Core {
    type V = CoreView;

    closed spec fn view(&self) -> CoreView {
        CoreView {
            state: self.state@,
            connect_params: match self.connect_params {
                Some(p) => Some(p@),
                None => None,
            },
            data: mut_octets(self.data),
            events: event_views(self.events@),
            timeout: self.timeout,
            outgoing: message_views(self.outgoing@),
        }
    }
}

/// What the bytes received so far begin with.
pub enum Frame {
    /// Nothing complete yet.
    Partial,
    /// A length that no frame can have.
    Bad(Error),
    /// A frame, and what follows it.
    Whole(Seq<u8>, Seq<u8>),
}

/// The first frame of the bytes received: a tag, and a length that counts itself
/// and the body.
pub open spec fn next_frame(data: Seq<u8>) -> Frame {
    if data.len() < 5 {
        Frame::Partial
    } else {
        let length = u32_at(data, 1);
        match backend::length_error(length) {
            Some(e) => Frame::Bad(e),
            None => if data.len() < 1 + length {
                Frame::Partial
            } else {
                Frame::Whole(data.take(1 + length), data.skip(1 + length))
            },
        }
    }
}

/// The message that starts replication.
pub open spec fn start_replication_message() -> Seq<u8> {
    framed(0x51, cstr_octets(start_replication_text(SLOT_NAME@)))
}

impl ConnectParamsView {
    /// The first message of a connection with these parameters.
    pub open spec fn startup_message(self) -> Seq<u8> {
        startup_octets(self.user_name, self.database, self.replication_mode)
    }
}

impl CoreView {
    /// Not connected, nothing received, nothing to hand out.
    pub open spec fn initial() -> CoreView {
        CoreView {
            state: StateView::Disconnected,
            connect_params: None,
            data: Seq::empty(),
            events: Seq::empty(),
            timeout: None,
            outgoing: Seq::empty(),
        }
    }

    pub open spec fn to(self, state: StateView) -> CoreView {
        CoreView { state, ..self }
    }

    pub open spec fn emit(self, event: CoreEventView) -> CoreView {
        CoreView { events: self.events.push(event), ..self }
    }

    pub open spec fn send(self, message: Seq<u8>) -> CoreView {
        CoreView { outgoing: self.outgoing.push(message), ..self }
    }

    /// More bytes are received.
    pub open spec fn feed(self, raw: Seq<u8>) -> CoreView {
        CoreView { data: self.data + raw, ..self }
    }

    /// The error of a message that the state does not allow.
    pub open spec fn incorrect_state(self) -> Error {
        Error::IncorrectState { state: self.state.status() }
    }

    /// What the wish for a connection comes to. It counts only while there is
    /// none.
    pub open spec fn connect(self, params: ConnectParamsView) -> (Result<(), Error>, CoreView) {
        match self.state {
            StateView::Shutdown => (Err(Error::ClientShutdown), self),
            StateView::Disconnected => (
                Ok(()),
                CoreView { connect_params: Some(params), ..self }.send(
                    params.startup_message(),
                ).to(StateView::Startup),
            ),
            _ => (Ok(()), self),
        }
    }

    /// The wish to end replication, which counts only while data is streaming.
    pub open spec fn closed(self) -> CoreView {
        match self.state {
            StateView::Streaming => self.to(StateView::ClosingCopy).send(
                framed(0x63, Seq::empty()),
            ),
            _ => self,
        }
    }

    /// The exchange of a SCRAM client begins.
    pub open spec fn begin_scram(self, client: ScramView) -> CoreView {
        self.send(
            framed(0x70, initial_response_body(client.mechanism, client.client_first())),
        ).to(StateView::Authenticating(AuthView::Scram(client)))
    }

    /// What the request for SASL authentication comes to, where `draw` is what the
    /// random number source gives.
    pub open spec fn on_sasl(self, mechanisms: Seq<Seq<char>>, draw: Option<Seq<u8>>) -> (
        Result<(), Error>,
        CoreView,
    ) {
        match self.connect_params {
            None => (Err(Error::MissingConnectParams), self),
            Some(params) => match ScramView::start(mechanisms, params.password, draw) {
                Err(e) => (Err(e), self),
                Ok(client) => (Ok(()), self.begin_scram(client)),
            },
        }
    }

    /// What the server's first SCRAM message comes to. What the client learned
    /// from it is kept also where it is refused.
    pub open spec fn on_sasl_continue(self, data: Seq<u8>) -> (Result<(), Error>, CoreView) {
        match self.state {
            StateView::Authenticating(AuthView::Scram(client)) => {
                let (r, told) = client.server_first(data);
                let next = self.to(StateView::Authenticating(AuthView::Scram(told)));
                match r {
                    Err(e) => (Err(e), next),
                    Ok(()) => match told.client_final() {
                        Err(e) => (Err(e), next),
                        Ok(m) => (Ok(()), next.send(framed(0x70, m))),
                    },
                }
            },
            StateView::Authenticating(AuthView::Idle) => (Err(Error::IncorrectAuthState), self),
            _ => (Err(self.incorrect_state()), self),
        }
    }

    /// What the server's last SCRAM message comes to.
    pub open spec fn on_sasl_final(self, data: Seq<u8>) -> (Result<(), Error>, CoreView) {
        match self.state {
            StateView::Authenticating(AuthView::Scram(client)) => match client.server_final(data) {
                Err(e) => (Err(e), self),
                Ok(()) => (Ok(()), self.to(StateView::Authenticated)),
            },
            StateView::Authenticating(AuthView::Idle) => (Err(Error::IncorrectAuthState), self),
            _ => (Err(self.incorrect_state()), self),
        }
    }

    /// What an authentication message comes to, where `draw` is what the random
    /// number source gives if it is asked. A failed machine takes none.
    pub open spec fn on_authentication(
        self,
        message: AuthenticationView,
        draw: Option<Seq<u8>>,
    ) -> (Result<(), Error>, CoreView) {
        if self.state is Failed {
            (Err(self.incorrect_state()), self)
        } else {
            match message {
                AuthenticationView::AuthOk => (Ok(()), self.to(StateView::Authenticated)),
                AuthenticationView::Sasl(mechanisms) => self.on_sasl(mechanisms, draw),
                AuthenticationView::SaslContinue(data) => self.on_sasl_continue(data),
                AuthenticationView::SaslFinal(data) => self.on_sasl_final(data),
            }
        }
    }

    /// What copied data comes to.
    pub open spec fn on_copy_data(self, payload: Seq<u8>) -> (Result<(), Error>, CoreView) {
        if !(self.state is Streaming) {
            (Err(self.incorrect_state()), self)
        } else {
            match backend::replication_message(payload) {
                Err(e) => (Err(e), self),
                Ok(ReplicationView::PrimaryKeepAlive(k)) => (
                    Ok(()),
                    self.emit(CoreEventView::KeepAlive(k)),
                ),
                Ok(ReplicationView::XlogData(x)) => match logical_message(x.wal_data) {
                    Err(e) => (Err(e), self),
                    Ok(m) => (Ok(()), self.emit(CoreEventView::LogicalMessage(m))),
                },
            }
        }
    }

    /// What comes of the news that the server waits for a command.
    pub open spec fn on_ready_for_query(self) -> (Result<(), Error>, CoreView) {
        match self.state {
            StateView::Authenticated => (
                Ok(()),
                self.to(StateView::StartReplication).send(start_replication_message()).emit(
                    CoreEventView::Connected,
                ),
            ),
            StateView::ClosingCopy => (Ok(()), self.to(StateView::Disconnected)),
            _ => (Err(self.incorrect_state()), self),
        }
    }

    /// What a message from the server comes to, where `draw` is what the random
    /// number source gives if it is asked.
    pub open spec fn on_message(
        self,
        message: MessageFormatView,
        draw: Option<Seq<u8>>,
    ) -> (Result<(), Error>, CoreView) {
        match message {
            MessageFormatView::CopyData(payload) => self.on_copy_data(payload),
            MessageFormatView::CopyBothResponse(_) => if self.state is StartReplication {
                (
                    Ok(()),
                    self.to(StateView::Streaming).emit(CoreEventView::ReplicationStarted),
                )
            } else {
                (Err(self.incorrect_state()), self)
            },
            MessageFormatView::CommandComplete(_) => if self.state is ClosingCopy {
                (Ok(()), self)
            } else {
                (Err(self.incorrect_state()), self)
            },
            MessageFormatView::ParameterStatus(_) => (Ok(()), self),
            MessageFormatView::BackendKeyData(_) => (Ok(()), self),
            MessageFormatView::ErrorResponse(fields) => (
                Ok(()),
                self.to(StateView::Failed).emit(CoreEventView::ServerError(fields)),
            ),
            MessageFormatView::ReadyForQuery(_) => self.on_ready_for_query(),
            MessageFormatView::Authentication(a) => self.on_authentication(a, draw),
        }
    }

    /// What the first frame of the bytes received comes to. The frame is consumed
    /// also where it is refused.
    pub open spec fn step(self, draw: Option<Seq<u8>>) -> (Result<(), Error>, CoreView) {
        match next_frame(self.data) {
            Frame::Partial => (Ok(()), self),
            Frame::Bad(e) => (Err(e), self),
            Frame::Whole(frame, rest) => {
                let taken = CoreView { data: rest, ..self };
                match backend::backend_message(frame) {
                    Err(e) => (Err(e), taken),
                    Ok(message) => taken.on_message(message, draw),
                }
            },
        }
    }

    /// What all the bytes received come to: frame after frame is taken, up to
    /// the first that is refused or not yet complete. The n-th frame has the
    /// n-th of `draws` for what the random number source gives.
    pub open spec fn run(self, draws: Seq<Option<Seq<u8>>>) -> (Result<(), Error>, CoreView)
        decreases self.data.len(),
    {
        match next_frame(self.data) {
            Frame::Partial => (Ok(()), self),
            Frame::Bad(e) => (Err(e), self),
            Frame::Whole(_, rest) => {
                let (r, next) = self.step(draws[0]);
                proof {
                    lemma_step_takes_frame(self, draws[0]);
                }
                match r {
                    Err(e) => (Err(e), next),
                    Ok(()) => next.run(draws.skip(1)),
                }
            },
        }
    }

    /// The messages of an exchange in progress fit in a frame.
    pub open spec fn wf(self) -> bool {
        match self.state {
            StateView::Authenticating(AuthView::Scram(client)) => bounded(client),
            _ => true,
        }
    }
}

/// What a SCRAM client holds in the course of an exchange: a nonce of the usual
/// size and alphabet, and nothing larger than a frame from the server.
pub open spec fn bounded(client: ScramView) -> bool {
    &&& client.mechanism == SCRAM_SHA_256_NAME@
    &&& is_base64_text(client.client_nonce)
    &&& client.client_nonce.len() == 24
    &&& match client.server_first_message {
        Some(m) => m.len() <= MAX_FRAME_SIZE,
        None => true,
    }
    &&& match client.client_and_server_nonce {
        Some(n) => n.len() <= MAX_FRAME_SIZE,
        None => true,
    }
}

/// A step takes the first frame from the bytes received, and no more.
pub proof fn lemma_step_takes_frame(core: CoreView, draw: Option<Seq<u8>>)
    ensures
        match next_frame(core.data) {
            Frame::Whole(frame, rest) => core.step(draw).1.data == rest && rest.len()
                < core.data.len(),
            _ => core.step(draw).1 == core,
        },
{
}

/// What the bytes received come to, without how: proofs that need not know how go
/// by this.
#[verifier::opaque]
pub open spec fn ran(core: CoreView, draws: Seq<Option<Seq<u8>>>) -> (
    Result<(), Error>,
    CoreView,
) {
    core.run(draws)
}

/// What the first frame comes to, without how.
#[verifier::opaque]
pub open spec fn stepped(core: CoreView, draw: Option<Seq<u8>>) -> (
    Result<(), Error>,
    CoreView,
) {
    core.step(draw)
}

/// [`ran`] is what the bytes received come to.
pub proof fn lemma_ran(core: CoreView, draws: Seq<Option<Seq<u8>>>)
    ensures
        ran(core, draws) == core.run(draws),
{
    reveal(ran);
}

/// With a whole frame, the bytes received come to what the frame comes to, and
/// then, if it is not refused, to what the others come to.
pub proof fn lemma_ran_frame(core: CoreView, draws: Seq<Option<Seq<u8>>>)
    requires
        next_frame(core.data) is Whole,
    ensures
        ran(core, draws) == match stepped(core, draws[0]).0 {
            Ok(()) => ran(stepped(core, draws[0]).1, draws.skip(1)),
            Err(e) => (Err(e), stepped(core, draws[0]).1),
        },
        next_frame(core.data) == Frame::Whole(
            next_frame(core.data)->Whole_0,
            stepped(core, draws[0]).1.data,
        ),
        stepped(core, draws[0]).1.data.len() < core.data.len(),
{
    reveal(ran);
    reveal(stepped);
    lemma_step_takes_frame(core, draws[0]);
}

/// Without a whole frame, the machine stays as it is.
pub proof fn lemma_ran_nothing(core: CoreView, draws: Seq<Option<Seq<u8>>>)
    requires
        !(next_frame(core.data) is Whole),
    ensures
        ran(core, draws) == match next_frame(core.data) {
            Frame::Bad(e) => (Err::<(), Error>(e), core),
            _ => (Ok::<(), Error>(()), core),
        },
{
    reveal(ran);
}

/// What is left of the bytes received is their end.
proof fn lemma_ran_leaves_suffix(core: CoreView, draws: Seq<Option<Seq<u8>>>)
    ensures
        ({
            let left = ran(core, draws).1.data;
            left.len() <= core.data.len() && left == core.data.skip(core.data.len() - left.len())
        }),
    decreases core.data.len(),
{
    let left = ran(core, draws).1.data;
    if next_frame(core.data) is Whole {
        let (r, next) = stepped(core, draws[0]);
        lemma_ran_frame(core, draws);
        if r is Ok {
            lemma_ran_leaves_suffix(next, draws.skip(1));
        }
        assert(left =~= core.data.skip(core.data.len() - left.len()));
    } else {
        lemma_ran_nothing(core, draws);
        assert(core.data.skip(0) =~= core.data);
    }
}

/// What the machine leaves of the bytes received is their end: it takes from the
/// front, and adds nothing.
pub proof fn lemma_run_leaves_suffix(core: CoreView, draws: Seq<Option<Seq<u8>>>)
    ensures
        ({
            let left = core.run(draws).1.data;
            left.len() <= core.data.len() && left == core.data.skip(core.data.len() - left.len())
        }),
{
    lemma_ran_leaves_suffix(core, draws);
    lemma_ran(core, draws);
}

/// The messages of a bounded client fit in a buffer.
proof fn lemma_bounded_fits(client: ScramView)
    requires
        bounded(client),
    ensures
        client.client_first().len() == 32,
        client.final_fits(),
        initial_response_body(client.mechanism, client.client_first()).len() < 0x100,
        match client.without_proof() {
            Ok(w) => w.len() <= MAX_FRAME_SIZE + 9,
            Err(_) => true,
        },
{
    lemma_base64_is_ascii(client.client_nonce);
    is_ascii_chars_encode_utf8(client.client_nonce);
    reveal_strlit("n=,r=");
    is_ascii_chars_encode_utf8("n=,r="@);
    reveal_strlit("n,,");
    is_ascii_chars_encode_utf8("n,,"@);
    reveal_strlit("c=biws");
    is_ascii_chars_encode_utf8("c=biws"@);
    reveal_strlit(",r=");
    is_ascii_chars_encode_utf8(",r="@);
    reveal_strlit("SCRAM-SHA-256");
    is_ascii_chars_encode_utf8("SCRAM-SHA-256"@);
}

/// A client stays bounded by a message that is.
proof fn lemma_server_first_bounded(client: ScramView, data: Seq<u8>)
    requires
        bounded(client),
        data.len() <= MAX_FRAME_SIZE,
    ensures
        bounded(client.server_first(data).1),
{
    match after(data, "r="@) {
        Some(a) => lemma_position(a, COMMA),
        None => {},
    }
}

/// The command that starts replication fits in a buffer.
proof fn lemma_start_replication_fits()
    ensures
        start_replication_message().len() < 0x100,
{
    reveal_strlit("START_REPLICATION SLOT ");
    reveal_strlit(" LOGICAL 0/0");
    reveal_strlit("locus");
    is_ascii_chars_encode_utf8(start_replication_text(SLOT_NAME@));
}

impl CoreState {
    /// The state without its payload.
    fn status(&self) -> (status: CoreStatus)
        ensures
            status == self@.status(),
    {
        match self {
            CoreState::Startup => CoreStatus::Startup,
            CoreState::Authenticating(_) => CoreStatus::Authenticating,
            CoreState::Authenticated => CoreStatus::Authenticated,
            CoreState::Disconnected => CoreStatus::Disconnected,
            CoreState::Shutdown => CoreStatus::Shutdown,
            CoreState::StartReplication => CoreStatus::StartReplication,
            CoreState::Streaming => CoreStatus::Streaming,
            CoreState::ClosingCopy => CoreStatus::ClosingCopy,
            CoreState::Failed => CoreStatus::Failed,
        }
    }
}

impl Core {
    /// A machine that is not connected.
    pub fn new() -> (core: Core)
        ensures
            core@ == CoreView::initial(),
    {
        let core = Core {
            state: CoreState::Disconnected,
            connect_params: None,
            data: BytesMut::new(),
            events: VecDeque::new(),
            timeout: None,
            outgoing: VecDeque::new(),
        };
        assert(core@.events =~= Seq::empty());
        assert(core@.outgoing =~= Seq::empty());
        core
    }

    /// Appends an event.
    fn emit(&mut self, event: CoreEvent)
        ensures
            final(self)@ == old(self)@.emit(event@),
    {
        self.events.push_back(event);
        assert(event_views(self.events@) =~= event_views(old(self).events@).push(event@));
    }

    /// Appends a message for the server.
    fn send(&mut self, message: Bytes)
        ensures
            final(self)@ == old(self)@.send(octets(message)),
    {
        self.outgoing.push_back(message);
        assert(message_views(self.outgoing@) =~= message_views(old(self).outgoing@).push(
            octets(message),
        ));
    }

    /// The error of a message that the state does not allow.
    fn incorrect_state(&self) -> (e: Error)
        ensures
            e == self@.incorrect_state(),
    {
        Error::IncorrectState { state: self.state.status() }
    }

    /// Asks for a connection, if there is none.
    pub fn desire_connect(&mut self, params: ConnectParams) -> (r: Result<(), Error>)
        requires
            old(self)@.state is Disconnected ==> params@.startup_message().len() <= isize::MAX,
        ensures
            (r, final(self)@) == old(self)@.connect(params@),
    {
        match self.state {
            CoreState::Shutdown => return Err(Error::ClientShutdown),
            CoreState::ClosingCopy | CoreState::Failed => return Ok(()),
            CoreState::Startup
            | CoreState::Authenticating(_)
            | CoreState::Authenticated
            | CoreState::StartReplication
            | CoreState::Streaming => return Ok(()),
            CoreState::Disconnected => {
                let msg = protocol::StartupMessage {
                    user_name: params.user_name.clone(),
                    database: params.database.clone(),
                    replication: params.replication_mode.clone(),
                };
                self.connect_params = Some(params);
                self.send(msg.encode()?);
                self.state = CoreState::Startup;
            },
        }
        Ok(())
    }

    /// Asks for the end of replication, if data is streaming.
    pub fn close(&mut self) -> (r: Result<(), Error>)
        ensures
            r == Ok::<(), Error>(()),
            final(self)@ == old(self)@.closed(),
    {
        match &self.state {
            CoreState::Streaming => {
                self.state = CoreState::ClosingCopy;
                let msg = protocol::CopyDone {  };
                self.send(msg.encode()?);
                Ok(())
            },
            CoreState::Disconnected
            | CoreState::Shutdown
            | CoreState::ClosingCopy
            | CoreState::Startup
            | CoreState::Authenticating(_)
            | CoreState::Authenticated
            | CoreState::StartReplication
            | CoreState::Failed => Ok(()),
        }
    }

    /// Hands out the oldest message for the server.
    pub fn poll_write(&mut self) -> (r: Option<Bytes>)
        ensures
            match r {
                Some(b) => old(self)@.outgoing.len() > 0 && octets(b) == old(self)@.outgoing[0]
                    && final(self)@ == (CoreView {
                    outgoing: old(self)@.outgoing.skip(1),
                    ..old(self)@
                }),
                None => old(self)@.outgoing.len() == 0 && final(self)@ == old(self)@,
            },
    {
        let r = self.outgoing.pop_front();
        assert(r is Some ==> message_views(self.outgoing@) =~= message_views(
            old(self).outgoing@,
        ).skip(1));
        r
    }

    /// When to call again without having received anything: never, so far.
    pub fn poll_timeout(&mut self) -> (r: Option<std::time::Duration>)
        ensures
            r == old(self)@.timeout,
            final(self)@ == old(self)@,
    {
        self.timeout
    }

    /// Hands out the oldest event.
    pub fn poll_event(&mut self) -> (r: Option<CoreEvent>)
        ensures
            match r {
                Some(e) => old(self)@.events.len() > 0 && e@ == old(self)@.events[0]
                    && final(self)@ == (CoreView {
                    events: old(self)@.events.skip(1),
                    ..old(self)@
                }),
                None => old(self)@.events.len() == 0 && final(self)@ == old(self)@,
            },
    {
        let r = self.events.pop_front();
        assert(r is Some ==> event_views(self.events@) =~= event_views(old(self).events@).skip(1));
        r
    }

    /// Sends the first message of a SCRAM exchange and waits for the answer.
    pub fn begin_scram(&mut self, client: ScramClient) -> (r: Result<(), Error>)
        requires
            bounded(client@),
        ensures
            r == Ok::<(), Error>(()),
            final(self)@ == old(self)@.begin_scram(client@),
            final(self)@.wf(),
    {
        proof {
            lemma_bounded_fits(client@);
        }
        let msg = client.initial_response();
        self.send(msg.encode()?);
        self.state = CoreState::Authenticating(AuthState::Scram(client));
        Ok(())
    }

    /// Answers the request for SASL authentication.
    fn on_sasl(&mut self, mechanisms: Vec<String>) -> (r: Result<(), Error>)
        requires
            old(self)@.wf(),
        ensures
            exists|draw: Option<Seq<u8>>| #[trigger]
                is_draw(draw) && (r, final(self)@) == old(self)@.on_sasl(texts(mechanisms@), draw),
            final(self)@.wf(),
    {
        let params = match &self.connect_params {
            Some(params) => params,
            None => {
                assert(is_draw(None));
                return Err(Error::MissingConnectParams);
            },
        };
        let ghost password = params.password@;
        let ghost offered = texts(mechanisms@);
        let started = ScramClient::new(mechanisms, params.password.clone());
        let ghost draw = choose|draw: Option<Seq<u8>>| #[trigger]
            is_draw(draw) && agrees(started, ScramView::start(offered, password, draw));
        assert(is_draw(draw));
        match started {
            Ok(client) => self.begin_scram(client),
            Err(e) => Err(e),
        }
    }

    /// Answers the server's first SCRAM message.
    fn on_sasl_continue(&mut self, data: Bytes) -> (r: Result<(), Error>)
        requires
            old(self)@.wf(),
            octets(data).len() <= MAX_FRAME_SIZE,
        ensures
            (r, final(self)@) == old(self)@.on_sasl_continue(octets(data)),
            final(self)@.wf(),
    {
        let final_message = match &mut self.state {
            CoreState::Authenticating(AuthState::Scram(client)) => {
                proof {
                    lemma_server_first_bounded(client@, octets(data));
                }
                client.handle_server_first(data)?;
                proof {
                    lemma_bounded_fits(client@);
                }
                client.final_response()?
            },
            CoreState::Authenticating(AuthState::Idle) => return Err(Error::IncorrectAuthState),
            _ => return Err(self.incorrect_state()),
        };
        self.send(final_message.encode()?);
        Ok(())
    }

    /// Takes the server's last SCRAM message.
    fn on_sasl_final(&mut self, data: Bytes) -> (r: Result<(), Error>)
        requires
            old(self)@.wf(),
        ensures
            (r, final(self)@) == old(self)@.on_sasl_final(octets(data)),
            final(self)@.wf(),
    {
        match &mut self.state {
            CoreState::Authenticating(AuthState::Scram(client)) => {
                proof {
                    lemma_bounded_fits(client@);
                }
                client.handle_server_final(data)?;
            },
            CoreState::Authenticating(AuthState::Idle) => return Err(Error::IncorrectAuthState),
            _ => return Err(self.incorrect_state()),
        }
        self.state = CoreState::Authenticated;
        Ok(())
    }

    /// Takes an authentication message.
    fn on_authentication(&mut self, message: Authentication) -> (r: Result<(), Error>)
        requires
            old(self)@.wf(),
            match message@ {
                AuthenticationView::SaslContinue(data) => data.len() <= MAX_FRAME_SIZE,
                _ => true,
            },
        ensures
            exists|draw: Option<Seq<u8>>| #[trigger]
                is_draw(draw) && (r, final(self)@) == old(self)@.on_authentication(message@, draw),
            final(self)@.wf(),
    {
        assert(is_draw(None));
        match self.state {
            CoreState::Failed => return Err(self.incorrect_state()),
            _ => {},
        }
        match message {
            Authentication::AuthOk => {
                self.state = CoreState::Authenticated;
                Ok(())
            },
            Authentication::Sasl(s) => self.on_sasl(s.mechanisms),
            Authentication::SaslContinue(s) => self.on_sasl_continue(s.data),
            Authentication::SaslFinal(f) => self.on_sasl_final(f.data),
        }
    }

    /// Takes copied data.
    fn on_copy_data(&mut self, payload: Bytes) -> (r: Result<(), Error>)
        requires
            old(self)@.wf(),
        ensures
            (r, final(self)@) == old(self)@.on_copy_data(octets(payload)),
            final(self)@.wf(),
    {
        match self.state {
            CoreState::Streaming => {},
            _ => return Err(self.incorrect_state()),
        }
        match backend::parse_replication_message(payload)? {
            ReplicationMessage::XlogData(v) => {
                let lpm = pgoutput::parse(v.wal_data)?;
                self.emit(CoreEvent::LogicalMessage(lpm));
            },
            ReplicationMessage::PrimaryKeepAlive(v) => {
                self.emit(CoreEvent::KeepAlive(v));
            },
        }
        Ok(())
    }

    /// Takes the news that the server waits for a command.
    fn on_ready_for_query(&mut self) -> (r: Result<(), Error>)
        requires
            old(self)@.wf(),
        ensures
            (r, final(self)@) == old(self)@.on_ready_for_query(),
            final(self)@.wf(),
    {
        match self.state {
            CoreState::Authenticated => {
                self.state = CoreState::StartReplication;
                proof {
                    lemma_start_replication_fits();
                }
                let msg = protocol::Query { sql: replication::start_replication(SLOT_NAME) };
                self.send(msg.encode()?);
                self.emit(CoreEvent::Connected);
                Ok(())
            },
            CoreState::ClosingCopy => {
                self.state = CoreState::Disconnected;
                Ok(())
            },
            _ => Err(self.incorrect_state()),
        }
    }

    /// Takes a message from the server.
    fn on_message(&mut self, message: MessageFormat) -> (r: Result<(), Error>)
        requires
            old(self)@.wf(),
            match message@ {
                MessageFormatView::Authentication(AuthenticationView::SaslContinue(data)) =>
                    data.len() <= MAX_FRAME_SIZE,
                _ => true,
            },
        ensures
            exists|draw: Option<Seq<u8>>| #[trigger]
                is_draw(draw) && (r, final(self)@) == old(self)@.on_message(message@, draw),
            final(self)@.wf(),
    {
        assert(is_draw(None));
        match message {
            MessageFormat::CopyData(d) => self.on_copy_data(d.payload),
            MessageFormat::CopyBothResponse(_) => {
                match self.state {
                    CoreState::StartReplication => {
                        self.state = CoreState::Streaming;
                        self.emit(CoreEvent::ReplicationStarted);
                        Ok(())
                    },
                    _ => Err(self.incorrect_state()),
                }
            },
            MessageFormat::CommandComplete(_) => {
                match self.state {
                    CoreState::ClosingCopy => Ok(()),
                    _ => Err(self.incorrect_state()),
                }
            },
            MessageFormat::ParameterStatus(_) => Ok(()),
            MessageFormat::BackendKeyData(_) => Ok(()),
            MessageFormat::ErrorResponse(e) => {
                self.state = CoreState::Failed;
                self.emit(CoreEvent::ServerError(e));
                Ok(())
            },
            MessageFormat::ReadyForQuery(_) => self.on_ready_for_query(),
            MessageFormat::Authentication(a) => self.on_authentication(a),
        }
    }

    /// The number of bytes received that do not make up a frame yet.
    pub fn buffered(&self) -> (n: usize)
        ensures
            n == self@.data.len(),
    {
        self.data.len()
    }

    /// Takes the first frame from the bytes received.
    fn take_frame(&mut self) -> (r: Result<Option<Bytes>, Error>)
        ensures
            match next_frame(old(self)@.data) {
                Frame::Partial => r == Ok::<Option<Bytes>, Error>(None) && final(self)@
                    == old(self)@,
                Frame::Bad(e) => r == Err::<Option<Bytes>, Error>(e) && final(self)@ == old(self)@,
                Frame::Whole(frame, rest) => {
                    &&& r matches Ok(Some(b))
                    &&& octets(b) == frame
                    &&& final(self)@ == (CoreView { data: rest, ..old(self)@ })
                },
            },
    {
        let have = self.data.len();
        if have < 5 {
            return Ok(None);
        }
        let length = read_u32(mut_as_slice(&self.data), 1) as usize;
        if length < 4 {
            return Err(Error::InvalidFrameLength { length });
        }
        if length > MAX_FRAME_SIZE {
            return Err(Error::FrameTooLarge { length });
        }
        if have < 1 + length {
            return Ok(None);
        }
        Ok(Some(self.data.split_to(length + 1).freeze()))
    }

    /// Takes bytes from the server: every frame that they complete is handled, up
    /// to the first that is refused.
    pub fn handle(&mut self, raw: Bytes) -> (r: Result<(), Error>)
        requires
            old(self)@.wf(),
            old(self)@.data.len() + octets(raw).len() <= isize::MAX,
        ensures
            outcome(old(self)@, octets(raw), r, final(self)@),
            final(self)@.wf(),
    {
        put_slice(&mut self.data, as_slice(&raw));
        let ghost start = old(self)@.feed(octets(raw));
        assert(self@ == start);
        let ghost mut draws: Seq<Option<Seq<u8>>> = Seq::empty();
        proof {
            assert forall|rest: Seq<Option<Seq<u8>>>| #[trigger]
                ran(start, draws + rest) == ran(self@, rest) by {
                assert(draws + rest =~= rest);
            }
        }
        loop
            invariant
                start == old(self)@.feed(octets(raw)),
                self@.wf(),
                forall|i: int| 0 <= i < draws.len() ==> is_draw(#[trigger] draws[i]),
                continues(start, draws, self@),
            decreases self@.data.len(),
        {
            let ghost before = self@;
            let taken = self.take_frame();
            let data = match taken {
                Ok(Some(data)) => data,
                Ok(None) => {
                    proof {
                        lemma_stops(old(self)@, octets(raw), draws, before);
                    }
                    return Ok(());
                },
                Err(e) => {
                    proof {
                        lemma_stops(old(self)@, octets(raw), draws, before);
                    }
                    return Err(e);
                },
            };
            let ghost after_take = self@;
            let r = match backend::parse(data) {
                Ok(msg) => {
                    let r = self.on_message(msg);
                    proof {
                        let draw = choose|draw: Option<Seq<u8>>| #[trigger]
                            is_draw(draw) && (r, self@) == after_take.on_message(msg@, draw);
                        reveal(stepped);
                        assert(stepped(before, draw) == (r, self@));
                        lemma_continues(old(self)@, octets(raw), draws, before, draw);
                        draws = draws.push(draw);
                    }
                    r
                },
                Err(e) => {
                    proof {
                        let draw: Option<Seq<u8>> = None;
                        assert(is_draw(draw));
                        reveal(stepped);
                        assert(stepped(before, draw) == (Err::<(), Error>(e), self@));
                        lemma_continues(old(self)@, octets(raw), draws, before, draw);
                        draws = draws.push(draw);
                    }
                    Err(e)
                },
            };
            match r {
                Ok(()) => {},
                Err(e) => return Err(e),
            }
        }
    }
}

/// Bytes `raw` from the server can come to `r` and lead from one state of the
/// machine to the other: they do so for something that the random number source can
/// give.
pub open spec fn outcome(
    before: CoreView,
    raw: Seq<u8>,
    r: Result<(), Error>,
    after: CoreView,
) -> bool {
    exists|draws: Seq<Option<Seq<u8>>>| #[trigger]
        are_draws(draws, before.feed(raw).data.len()) && (r, after) == before.feed(raw).run(draws)
}

/// At least `n` things that the random number source can give.
pub open spec fn are_draws(draws: Seq<Option<Seq<u8>>>, n: nat) -> bool {
    draws.len() >= n && forall|i: int| 0 <= i < draws.len() ==> is_draw(#[trigger] draws[i])
}

/// From `start`, the machine comes to `now` by handling a frame for each of
/// `draws`.
spec fn continues(start: CoreView, draws: Seq<Option<Seq<u8>>>, now: CoreView) -> bool {
    forall|rest: Seq<Option<Seq<u8>>>| #[trigger] ran(start, draws + rest) == ran(now, rest)
}

/// Draws that lead to an outcome, with others behind them, show that it is one.
proof fn lemma_is_outcome(
    before: CoreView,
    raw: Seq<u8>,
    draws: Seq<Option<Seq<u8>>>,
    r: Result<(), Error>,
    after: CoreView,
)
    requires
        forall|i: int| 0 <= i < draws.len() ==> is_draw(#[trigger] draws[i]),
        forall|rest: Seq<Option<Seq<u8>>>| #[trigger]
            ran(before.feed(raw), draws + rest) == (r, after),
    ensures
        outcome(before, raw, r, after),
{
    let n = before.feed(raw).data.len();
    let all = draws + Seq::new(n, |i: int| None::<Seq<u8>>);
    assert(ran(before.feed(raw), all) == (r, after));
    lemma_ran(before.feed(raw), all);
    assert(are_draws(all, n));
}

/// No more frames are there.
proof fn lemma_stops(
    before: CoreView,
    raw: Seq<u8>,
    draws: Seq<Option<Seq<u8>>>,
    now: CoreView,
)
    requires
        forall|i: int| 0 <= i < draws.len() ==> is_draw(#[trigger] draws[i]),
        continues(before.feed(raw), draws, now),
        !(next_frame(now.data) is Whole),
    ensures
        match next_frame(now.data) {
            Frame::Bad(e) => outcome(before, raw, Err(e), now),
            _ => outcome(before, raw, Ok(()), now),
        },
{
    let r: Result<(), Error> = match next_frame(now.data) {
        Frame::Bad(e) => Err(e),
        _ => Ok(()),
    };
    assert forall|rest: Seq<Option<Seq<u8>>>| #[trigger]
        ran(before.feed(raw), draws + rest) == (r, now) by {
        lemma_ran_nothing(now, rest);
    }
    lemma_is_outcome(before, raw, draws, r, now);
}

/// One more frame is handled.
proof fn lemma_continues(
    before: CoreView,
    raw: Seq<u8>,
    draws: Seq<Option<Seq<u8>>>,
    now: CoreView,
    draw: Option<Seq<u8>>,
)
    requires
        forall|i: int| 0 <= i < draws.len() ==> is_draw(#[trigger] draws[i]),
        is_draw(draw),
        continues(before.feed(raw), draws, now),
        next_frame(now.data) is Whole,
    ensures
        ({
            let (r, next) = stepped(now, draw);
            match r {
                Ok(()) => continues(before.feed(raw), draws.push(draw), next) && next.data.len()
                    < now.data.len(),
                Err(e) => outcome(before, raw, Err(e), next),
            }
        }),
{
    let start = before.feed(raw);
    let (r, next) = stepped(now, draw);
    lemma_ran_frame(now, seq![draw]);
    assert forall|rest: Seq<Option<Seq<u8>>>| #[trigger]
        ran(start, draws.push(draw) + rest) == match r {
            Ok(()) => ran(next, rest),
            Err(e) => (Err::<(), Error>(e), next),
        } by {
        let more = seq![draw] + rest;
        assert(draws.push(draw) + rest =~= draws + more);
        assert(ran(start, draws + more) == ran(now, more));
        assert(more.skip(1) =~= rest);
        lemma_ran_frame(now, more);
    }
    match r {
        Ok(()) => {},
        Err(e) => lemma_is_outcome(before, raw, draws.push(draw), Err(e), next),
    }
}

/// The number in the four bytes of `s` from position `at` on.
fn read_u32(s: &[u8], at: usize) -> (n: u32)
    requires
        at + 4 <= s@.len(),
    ensures
        n == u32_at(s@, at as int),
{
    ((s[at] as u32 * 0x100 + s[at + 1] as u32) * 0x100 + s[at + 2] as u32) * 0x100 + s[at + 3] as u32
}

} // verus!
