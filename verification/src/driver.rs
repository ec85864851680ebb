//! What the driver of a connection decides, apart from the transport and the
//! wakers: when to write and what, what becomes of the bytes read, and what a
//! turn of the driver ends in.

use std::collections::VecDeque;

use bytes::{Bytes, BytesMut};
use vstd::prelude::*;
use vstd::slice::slice_subrange;

use crate::error::Error;
use crate::machine::{
    are_draws, lemma_run_leaves_suffix, Core, CoreEvent, CoreEventView, CoreView,
};
use crate::octets::{as_slice, mut_octets, opt_octets, put_slice};

verus! {

/// What a client asks of the driver.
pub enum ClientCommand {
    /// To end replication.
    Close,
}

/// The state of a driver.
pub struct DriverState {
    commands: VecDeque<ClientCommand>,
    core: Core,
    current_send: Option<Bytes>,
    current_read: BytesMut,
    send_offset: usize,
    core_events: VecDeque<CoreEvent>,
    closed: bool,
}

/// What to do next about the output.
pub enum WriteAction {
    /// There is no output.
    Idle,
    /// Write what is left of the message.
    Write,
    /// All of the message is written: flush the transport.
    Flush,
}

/// What a reader of the events gets.
pub enum NextEvent {
    Event(CoreEvent),
    /// There will be no more.
    Closed,
    /// There is none yet.
    Pending,
}

/// What follows a turn of the driver.
pub enum Outcome {
    /// The connection is closed: the driver is done.
    Finished,
    /// Something was done: there is to be another turn at once.
    Again,
    /// Nothing was done: the driver waits to be woken.
    Park,
}

/// How a turn of the driver ends.
pub struct Turn {
    /// Whether to wake the reader of the events.
    pub wake_reader: bool,
    pub outcome: Outcome,
}

/// What a [`DriverState`] holds.
pub struct DriverView {
    /// The commands not yet carried out, the oldest first.
    pub commands: Seq<ClientCommand>,
    pub core: CoreView,
    /// The message that is being written.
    pub current_send: Option<Seq<u8>>,
    /// How much of it is written.
    pub send_offset: nat,
    /// The bytes read that the core has not seen yet.
    pub current_read: Seq<u8>,
    /// The events not yet handed out, the oldest first.
    pub core_events: Seq<CoreEventView>,
    pub closed: bool,
}

spec fn event_views(events: Seq<CoreEvent>) -> Seq<CoreEventView> {
    events.map_values(|e: CoreEvent| e@)
}

impl View for DriverState {
    type V = DriverView;

    closed spec fn view(&self) -> DriverView {
        DriverView {
            commands: self.commands@,
            core: self.core@,
            current_send: opt_octets(self.current_send),
            send_offset: self.send_offset as nat,
            current_read: mut_octets(self.current_read),
            core_events: event_views(self.core_events@),
            closed: self.closed,
        }
    }
}

impl DriverView {
    /// A driver of `core` that has done nothing yet.
    pub open spec fn initial(core: CoreView) -> DriverView {
        DriverView {
            commands: Seq::empty(),
            core,
            current_send: None,
            send_offset: 0,
            current_read: Seq::empty(),
            core_events: Seq::empty(),
            closed: false,
        }
    }

    /// The core can take all that was read.
    pub open spec fn wf(self) -> bool {
        self.core.wf() && self.core.data.len() + self.current_read.len() <= isize::MAX
    }

    /// All commands are carried out.
    pub open spec fn obeyed(self) -> DriverView {
        DriverView {
            commands: Seq::empty(),
            core: if self.commands.len() > 0 {
                self.core.closed()
            } else {
                self.core
            },
            ..self
        }
    }

    /// A message is being written, if there is any to write.
    pub open spec fn loaded(self) -> DriverView {
        if self.current_send is Some {
            self
        } else if self.core.outgoing.len() > 0 {
            DriverView {
                core: CoreView { outgoing: self.core.outgoing.skip(1), ..self.core },
                current_send: Some(self.core.outgoing[0]),
                send_offset: 0,
                ..self
            }
        } else {
            DriverView { send_offset: 0, ..self }
        }
    }

    /// What to do next about the output.
    pub open spec fn write_action(self) -> WriteAction {
        match self.current_send {
            None => WriteAction::Idle,
            Some(message) => if self.send_offset < message.len() {
                WriteAction::Write
            } else {
                WriteAction::Flush
            },
        }
    }

    /// What is left of the message that is being written.
    pub open spec fn unwritten(self) -> Seq<u8> {
        match self.current_send {
            Some(message) if self.send_offset < message.len() => message.skip(
                self.send_offset as int,
            ),
            _ => Seq::empty(),
        }
    }

    /// `n` more bytes of the message are written.
    pub open spec fn written(self, n: nat) -> DriverView {
        DriverView { send_offset: self.send_offset + n, ..self }
    }

    /// The message is written and flushed.
    pub open spec fn flushed(self) -> DriverView {
        DriverView { current_send: None, send_offset: 0, ..self }
    }

    /// More bytes are read.
    pub open spec fn received(self, chunk: Seq<u8>) -> DriverView {
        DriverView { current_read: self.current_read + chunk, ..self }
    }

    /// The transport has no more to read.
    pub open spec fn ended(self) -> DriverView {
        DriverView { closed: true, ..self }
    }

    /// The core has seen what was read. `draws` are what the random number source
    /// gives.
    pub open spec fn digested(self, draws: Seq<Option<Seq<u8>>>) -> (
        Result<bool, Error>,
        DriverView,
    ) {
        let (r, core) = self.core.feed(self.current_read).run(draws);
        (
            match r {
                Ok(()) => Ok(true),
                Err(e) => Err(e),
            },
            DriverView { core, current_read: Seq::empty(), ..self },
        )
    }

    /// The events of the core are there for the reader.
    pub open spec fn relayed(self) -> DriverView {
        DriverView {
            core: CoreView { events: Seq::empty(), ..self.core },
            core_events: self.core_events + self.core.events,
            ..self
        }
    }

    /// How a turn ends that did something or not, and moved events or not.
    pub open spec fn turn(self, progress: bool, moved: bool) -> Turn {
        Turn {
            wake_reader: moved || self.closed,
            outcome: if self.closed {
                Outcome::Finished
            } else if progress {
                Outcome::Again
            } else {
                Outcome::Park
            },
        }
    }
}

impl DriverState {
    /// A driver of `core` that has done nothing yet.
    pub fn new(core: Core) -> (state: DriverState)
        ensures
            state@ == DriverView::initial(core@),
    {
        let state = DriverState {
            commands: VecDeque::new(),
            core,
            current_send: None,
            current_read: BytesMut::new(),
            send_offset: 0,
            core_events: VecDeque::new(),
            closed: false,
        };
        assert(state@.core_events =~= Seq::empty());
        state
    }

    /// Appends a command.
    pub fn enqueue_command(&mut self, command: ClientCommand)
        ensures
            final(self)@ == (DriverView {
                commands: old(self)@.commands.push(command),
                ..old(self)@
            }),
    {
        self.commands.push_back(command);
    }

    /// Carries out all commands, and says whether there were any.
    pub fn drive_commands(&mut self) -> (r: Result<bool, Error>)
        ensures
            r == Ok::<bool, Error>(old(self)@.commands.len() > 0),
            final(self)@ == old(self)@.obeyed(),
    {
        let mut progress = false;
        loop
            invariant_except_break
                progress == (self@.commands.len() < old(self)@.commands.len()),
                self@.commands.len() <= old(self)@.commands.len(),
                self@ == (DriverView {
                    commands: self@.commands,
                    core: if progress {
                        old(self)@.core.closed()
                    } else {
                        old(self)@.core
                    },
                    ..old(self)@
                }),
            ensures
                progress == (old(self)@.commands.len() > 0),
                self@ == old(self)@.obeyed(),
            decreases self@.commands.len(),
        {
            match self.commands.pop_front() {
                None => {
                    assert(self@.commands =~= Seq::empty());
                    break;
                },
                Some(command) => {
                    progress = true;
                    match command {
                        ClientCommand::Close => {
                            self.core.close()?;
                        },
                    }
                },
            }
        }
        Ok(progress)
    }

    /// Takes up the next message where none is being written, and says what to do
    /// about it.
    pub fn next_write(&mut self) -> (action: WriteAction)
        ensures
            final(self)@ == old(self)@.loaded(),
            action == final(self)@.write_action(),
    {
        if self.current_send.is_none() {
            self.current_send = self.core.poll_write();
            self.send_offset = 0;
        }
        match &self.current_send {
            None => WriteAction::Idle,
            Some(message) => if self.send_offset < message.len() {
                WriteAction::Write
            } else {
                WriteAction::Flush
            },
        }
    }

    /// What is left of the message that is being written.
    pub fn unwritten(&self) -> (s: &[u8])
        ensures
            s@ == self@.unwritten(),
    {
        match &self.current_send {
            Some(message) => {
                let all = as_slice(message);
                let from = if self.send_offset < all.len() {
                    self.send_offset
                } else {
                    all.len()
                };
                let s = slice_subrange(all, from, all.len());
                assert(s@ =~= self@.unwritten());
                s
            },
            None => &[],
        }
    }

    /// How much of the message is written.
    pub fn send_offset(&self) -> (n: usize)
        ensures
            n == self@.send_offset,
    {
        self.send_offset
    }

    /// The transport has taken `n` bytes.
    pub fn on_written(&mut self, n: usize) -> (r: Result<(), Error>)
        requires
            old(self)@.send_offset + n <= usize::MAX,
        ensures
            if n == 0 {
                r == Err::<(), Error>(Error::WriteZero) && final(self)@ == old(self)@
            } else {
                r == Ok::<(), Error>(()) && final(self)@ == old(self)@.written(n as nat)
            },
    {
        if n == 0 {
            return Err(Error::WriteZero);
        }
        self.send_offset = self.send_offset + n;
        Ok(())
    }

    /// The transport is flushed.
    pub fn on_flushed(&mut self)
        ensures
            final(self)@ == old(self)@.flushed(),
    {
        self.send_offset = 0;
        self.current_send = None;
    }

    /// How many more bytes can be read before the core must see them.
    pub fn room(&self) -> (n: usize)
        requires
            self@.wf(),
        ensures
            n == isize::MAX - self@.core.data.len() - self@.current_read.len(),
    {
        isize::MAX as usize - self.core.buffered() - self.current_read.len()
    }

    /// The transport has given some bytes.
    pub fn on_read(&mut self, chunk: &[u8])
        requires
            old(self)@.wf(),
            old(self)@.received(chunk@).wf(),
        ensures
            final(self)@ == old(self)@.received(chunk@),
    {
        put_slice(&mut self.current_read, chunk);
    }

    /// The transport has no more to read. What the core has not seen yet it will
    /// not see.
    pub fn on_end_of_stream(&mut self)
        ensures
            final(self)@ == old(self)@.ended(),
    {
        self.closed = true;
    }

    /// The transport has answered a read with `chunk`: no bytes are the end of the
    /// stream. Says whether there were any.
    pub fn on_read_ready(&mut self, chunk: &[u8]) -> (read: bool)
        requires
            old(self)@.wf(),
            old(self)@.received(chunk@).wf(),
        ensures
            final(self)@ == (if chunk@.len() == 0 {
                old(self)@.ended()
            } else {
                old(self)@.received(chunk@)
            }),
            read == (chunk@.len() > 0),
    {
        if chunk.len() == 0 {
            self.on_end_of_stream();
            false
        } else {
            self.on_read(chunk);
            true
        }
    }

    /// The transport has nothing to read for now: the core sees what was read, if
    /// this turn read anything. Says whether it did.
    pub fn on_read_blocked(&mut self, progress: bool) -> (r: Result<bool, Error>)
        requires
            old(self)@.wf(),
        ensures
            if progress {
                exists|draws: Seq<Option<Seq<u8>>>| #[trigger]
                    are_draws(draws, old(self)@.core.feed(old(self)@.current_read).data.len()) && (
                    r,
                    final(self)@,
                ) == old(self)@.digested(draws)
            } else {
                r == Ok::<bool, Error>(false) && final(self)@ == old(self)@
            },
            final(self)@.wf(),
    {
        if !progress {
            return Ok(false);
        }
        let mut current = BytesMut::new();
        std::mem::swap(&mut self.current_read, &mut current);
        let r = self.core.handle(current.freeze());
        proof {
            let start = old(self)@.core.feed(old(self)@.current_read);
            let draws = choose|draws: Seq<Option<Seq<u8>>>| #[trigger]
                are_draws(draws, start.data.len()) && (r, self.core@) == start.run(draws);
            lemma_run_leaves_suffix(start, draws);
        }
        match r {
            Ok(()) => Ok(true),
            Err(e) => Err(e),
        }
    }

    /// Moves the events of the core to where the reader finds them, and says
    /// whether there were any.
    pub fn drive_events(&mut self) -> (moved: bool)
        ensures
            moved == (old(self)@.core.events.len() > 0),
            final(self)@ == old(self)@.relayed(),
    {
        let mut progress = false;
        loop
            invariant_except_break
                progress == (self@.core.events.len() < old(self)@.core.events.len()),
                self@.core.events.len() <= old(self)@.core.events.len(),
                self@.core_events + self@.core.events == old(self)@.core_events
                    + old(self)@.core.events,
                self@ == (DriverView {
                    core: CoreView { events: self@.core.events, ..old(self)@.core },
                    core_events: self@.core_events,
                    ..old(self)@
                }),
            ensures
                progress == (old(self)@.core.events.len() > 0),
                self@ == old(self)@.relayed(),
            decreases self@.core.events.len(),
        {
            let ghost before = self@;
            match self.core.poll_event() {
                None => {
                    assert(self@.core.events =~= Seq::empty());
                    assert(self@.core_events + self@.core.events =~= self@.core_events);
                    break;
                },
                Some(event) => {
                    progress = true;
                    self.core_events.push_back(event);
                    assert(self@.core_events =~= before.core_events.push(event@));
                    assert(self@.core_events + self@.core.events =~= before.core_events
                        + before.core.events);
                },
            }
        }
        progress
    }

    /// How a turn ends that did something or not, and moved events or not.
    pub fn turn(&self, progress: bool, moved: bool) -> (turn: Turn)
        ensures
            turn == self@.turn(progress, moved),
    {
        Turn {
            wake_reader: moved || self.closed,
            outcome: if self.closed {
                Outcome::Finished
            } else if progress {
                Outcome::Again
            } else {
                Outcome::Park
            },
        }
    }

    /// Hands the oldest event to the reader.
    pub fn next_event(&mut self) -> (next: NextEvent)
        ensures
            match next {
                NextEvent::Event(e) => old(self)@.core_events.len() > 0 && e@
                    == old(self)@.core_events[0] && final(self)@ == (DriverView {
                    core_events: old(self)@.core_events.skip(1),
                    ..old(self)@
                }),
                NextEvent::Closed => old(self)@.core_events.len() == 0 && old(self)@.closed
                    && final(self)@ == old(self)@,
                NextEvent::Pending => old(self)@.core_events.len() == 0 && !old(self)@.closed
                    && final(self)@ == old(self)@,
            },
    {
        match self.core_events.pop_front() {
            Some(event) => {
                assert(event_views(self.core_events@) =~= event_views(
                    old(self).core_events@,
                ).skip(1));
                NextEvent::Event(event)
            },
            None => if self.closed {
                NextEvent::Closed
            } else {
                NextEvent::Pending
            },
        }
    }
}

} // verus!
