//! What holds of the protocol machine, whatever the server sends.

use vstd::prelude::*;
use vstd::utf8::encode_utf8;

use crate::auth::scram::{decimal, is_draw, ScramView, COMMA, SCRAM_SHA_256_NAME};
use crate::backend::{
    backend_message, message_of, replication_message, AuthenticationView, MessageFormatView,
    ReplicationView, MAX_FRAME_SIZE,
};
use crate::crypto::{base64_data, base64_unpadded_text, is_base64_text};
use crate::error::{CoreStatus, Error};
use crate::laws::backend::raw_bodies_are_read;
use crate::laws::framing::{frame_is_decoded, frame_is_taken_whole};
use crate::laws::scram::{
    accepted_exchange_goes_on, honest_server_is_accepted, lemma_base64_without_comma,
    only_expected_signature_is_accepted, server_final_message, server_first_message,
};
use crate::machine::{
    are_draws, lemma_ran, lemma_ran_frame, lemma_ran_nothing, next_frame, outcome, ran,
    start_replication_message, stepped, AuthView, ConnectParamsView, CoreEventView, CoreView, Frame,
    StateView,
};
use crate::octets::u32_at;
use crate::pgoutput::logical_message;
use crate::protocol::{framed, initial_response_body};

verus! {

/// How many complete frames `data` begins with.
pub open spec fn frames(data: Seq<u8>) -> nat
    decreases data.len(),
{
    match next_frame(data) {
        Frame::Whole(_, rest) => if rest.len() < data.len() {
            1 + frames(rest)
        } else {
            0
        },
        _ => 0,
    }
}

/// What comes of a message does not depend on the bytes behind it.
proof fn lemma_message_ignores_data(
    core: CoreView,
    message: MessageFormatView,
    draw: Option<Seq<u8>>,
    more: Seq<u8>,
)
    ensures
        ({
            let (r, next) = core.on_message(message, draw);
            core.feed(more).on_message(message, draw) == (r, next.feed(more))
        }),
{
}

/// The first frame, or the lack of one that can be, does not depend on the bytes
/// behind it.
proof fn lemma_frame_ignores_rest(data: Seq<u8>, more: Seq<u8>)
    ensures
        match next_frame(data) {
            Frame::Partial => true,
            Frame::Bad(e) => next_frame(data + more) == Frame::Bad(e),
            Frame::Whole(frame, rest) => next_frame(data + more) == Frame::Whole(
                frame,
                rest + more,
            ),
        },
{
    if data.len() >= 5 {
        assert(u32_at(data + more, 1) == u32_at(data, 1));
        let n = 1 + u32_at(data, 1);
        if n <= data.len() {
            assert((data + more).take(n) =~= data.take(n));
            assert((data + more).skip(n) =~= data.skip(n) + more);
        }
    }
}

/// What comes of a frame does not depend on the bytes behind it.
proof fn lemma_step_ignores_rest(core: CoreView, draw: Option<Seq<u8>>, more: Seq<u8>)
    requires
        next_frame(core.data) is Whole,
    ensures
        ({
            let (r, next) = core.step(draw);
            core.feed(more).step(draw) == (r, next.feed(more))
        }),
{
    lemma_frame_ignores_rest(core.data, more);
    match next_frame(core.data) {
        Frame::Whole(frame, rest) => {
            let taken = CoreView { data: rest, ..core };
            assert(CoreView { data: rest + more, ..core.feed(more) } == taken.feed(more));
            match backend_message(frame) {
                Ok(message) => lemma_message_ignores_data(taken, message, draw, more),
                Err(_) => {},
            }
        },
        _ => {},
    }
}

/// One frame taken, with or without `more` bytes behind.
proof fn lemma_ran_first(core: CoreView, more: Seq<u8>, draws: Seq<Option<Seq<u8>>>)
    requires
        next_frame(core.data) is Whole,
    ensures
        ({
            let (r, next) = stepped(core, draws[0]);
            match r {
                Ok(()) => ran(core, draws) == ran(next, draws.skip(1)) && ran(
                    core.feed(more),
                    draws,
                ) == ran(next.feed(more), draws.skip(1)),
                Err(e) => ran(core, draws) == (Err::<(), Error>(e), next) && ran(
                    core.feed(more),
                    draws,
                ) == (Err::<(), Error>(e), next.feed(more)),
            }
        }),
        stepped(core, draws[0]).1.data.len() < core.data.len(),
        frames(core.data) == 1 + frames(stepped(core, draws[0]).1.data),
{
    lemma_frame_ignores_rest(core.data, more);
    assert(stepped(core.feed(more), draws[0]) == (
        stepped(core, draws[0]).0,
        stepped(core, draws[0]).1.feed(more),
    )) by {
        reveal(stepped);
        lemma_step_ignores_rest(core, draws[0], more);
    }
    lemma_ran_frame(core, draws);
    lemma_ran_frame(core.feed(more), draws);
}

/// No frame taken, with or without `more` bytes behind.
proof fn lemma_ran_none(core: CoreView, more: Seq<u8>, draws: Seq<Option<Seq<u8>>>)
    requires
        !(next_frame(core.data) is Whole),
    ensures
        match next_frame(core.data) {
            Frame::Bad(e) => ran(core, draws) == (Err::<(), Error>(e), core) && ran(
                core.feed(more),
                draws,
            ) == (Err::<(), Error>(e), core.feed(more)),
            _ => ran(core, draws) == (Ok::<(), Error>(()), core),
        },
        frames(core.data) == 0,
{
    lemma_frame_ignores_rest(core.data, more);
    lemma_ran_nothing(core, draws);
    if next_frame(core.data) is Bad {
        lemma_ran_nothing(core.feed(more), draws);
    }
}

/// `more` bytes come to the same whether the machine has seen those before them
/// or not.
proof fn lemma_indifferent(core: CoreView, more: Seq<u8>, draws: Seq<Option<Seq<u8>>>)
    requires
        frames(core.data) <= draws.len(),
    ensures
        ran(core.feed(more), draws) == match ran(core, draws).0 {
            Ok(()) => ran(ran(core, draws).1.feed(more), draws.skip(frames(core.data) as int)),
            Err(e) => (Err(e), ran(core, draws).1.feed(more)),
        },
    decreases core.data.len(),
{
    if next_frame(core.data) is Whole {
        let (r, next) = stepped(core, draws[0]);
        lemma_ran_first(core, more, draws);
        if r is Ok {
            lemma_indifferent(next, more, draws.skip(1));
            let n = frames(next.data) as int;
            assert(draws.skip(1).skip(n) =~= draws.skip(1 + n));
        }
    } else {
        lemma_ran_none(core, more, draws);
        assert(draws.skip(0) =~= draws);
    }
}

/// It does not matter how the bytes of the server are cut into chunks. Where the
/// bytes received so far are all well, what `more` bytes come to is the same
/// whether the machine sees the first ones alone before, or all of them at once.
/// Where they are not, `more` bytes do not mend them, and are kept unread. There is
/// something of `draws` for each frame.
pub proof fn chunks_do_not_matter(core: CoreView, more: Seq<u8>, draws: Seq<Option<Seq<u8>>>)
    requires
        frames(core.data) <= draws.len(),
    ensures
        core.feed(more).run(draws) == match core.run(draws).0 {
            Ok(()) => core.run(draws).1.feed(more).run(draws.skip(frames(core.data) as int)),
            Err(e) => (Err(e), core.run(draws).1.feed(more)),
        },
{
    lemma_indifferent(core, more, draws);
    lemma_ran(core, draws);
    lemma_ran(core.feed(more), draws);
    lemma_ran(ran(core, draws).1.feed(more), draws.skip(frames(core.data) as int));
}

/// There are no more frames than bytes: where all frames are taken, each takes a
/// byte at least.
proof fn lemma_frames_take_bytes(core: CoreView, draws: Seq<Option<Seq<u8>>>)
    ensures
        frames(core.data) <= core.data.len(),
        ran(core, draws).0 is Ok ==> ran(core, draws).1.data.len() + frames(core.data)
            <= core.data.len(),
    decreases core.data.len(),
{
    if next_frame(core.data) is Whole {
        lemma_ran_first(core, Seq::empty(), draws);
        lemma_frames_take_bytes(stepped(core, draws[0]).1, draws.skip(1));
    } else {
        lemma_ran_none(core, Seq::empty(), draws);
    }
}

/// Only as many draws count as there are frames.
proof fn lemma_run_uses(core: CoreView, d: Seq<Option<Seq<u8>>>, e: Seq<Option<Seq<u8>>>)
    requires
        frames(core.data) <= d.len(),
        frames(core.data) <= e.len(),
        forall|i: int| 0 <= i < frames(core.data) ==> d[i] == e[i],
    ensures
        ran(core, d) == ran(core, e),
    decreases core.data.len(),
{
    if next_frame(core.data) is Whole {
        lemma_ran_first(core, Seq::empty(), d);
        lemma_ran_first(core, Seq::empty(), e);
        assert(d[0] == e[0]);
        let (r, next) = stepped(core, d[0]);
        if r is Ok {
            assert forall|i: int| 0 <= i < frames(next.data) implies d.skip(1)[i] == e.skip(1)[i] by {
                assert(d[i + 1] == e[i + 1]);
            }
            lemma_run_uses(next, d.skip(1), e.skip(1));
        }
    } else {
        lemma_ran_none(core, Seq::empty(), d);
        lemma_ran_none(core, Seq::empty(), e);
    }
}

/// `draws` lead to an outcome.
spec fn leads(
    before: CoreView,
    raw: Seq<u8>,
    r: Result<(), Error>,
    after: CoreView,
    draws: Seq<Option<Seq<u8>>>,
) -> bool {
    are_draws(draws, before.feed(raw).data.len()) && (r, after) == ran(before.feed(raw), draws)
}

/// An outcome is one that some draws lead to.
#[verifier::opaque]
spec fn possible(
    before: CoreView,
    raw: Seq<u8>,
    r: Result<(), Error>,
    after: CoreView,
) -> bool {
    exists|draws: Seq<Option<Seq<u8>>>| leads(before, raw, r, after, draws)
}

/// [`possible`] is [`outcome`].
proof fn lemma_possible(before: CoreView, raw: Seq<u8>, r: Result<(), Error>, after: CoreView)
    ensures
        possible(before, raw, r, after) == outcome(before, raw, r, after),
{
    reveal(possible);
    reveal(ran);
    if outcome(before, raw, r, after) {
        let draws = choose|draws: Seq<Option<Seq<u8>>>| #[trigger]
            are_draws(draws, before.feed(raw).data.len()) && (r, after) == before.feed(raw).run(
                draws,
            );
        assert(leads(before, raw, r, after, draws));
    }
}

/// `draws`, and as many failures of the random number source as make up for any
/// lack.
spec fn padded(draws: Seq<Option<Seq<u8>>>, n: nat) -> Seq<Option<Seq<u8>>> {
    draws + Seq::new(n, |i: int| None::<Seq<u8>>)
}

/// Draws for two chunks make up draws for both at once.
proof fn lemma_chunks_add_up(
    core: CoreView,
    a: Seq<u8>,
    b: Seq<u8>,
    between: CoreView,
    r: Result<(), Error>,
    after: CoreView,
)
    requires
        possible(core, a, Ok(()), between),
        possible(between, b, r, after),
    ensures
        possible(core, a + b, r, after),
{
    reveal(possible);
    let first = core.feed(a);
    let then = between.feed(b);
    let whole = core.feed(a + b);
    let d1 = choose|draws: Seq<Option<Seq<u8>>>| leads(core, a, Ok(()), between, draws);
    let d2 = choose|draws: Seq<Option<Seq<u8>>>| leads(between, b, r, after, draws);
    let k = frames(first.data) as int;
    lemma_frames_take_bytes(first, d1);
    lemma_frames_take_bytes(then, d2);
    let rest = padded(d2, whole.data.len());
    let d = d1.take(k) + rest;
    lemma_run_uses(first, d1, d);
    lemma_indifferent(first, b, d);
    assert(d.skip(k) =~= rest);
    lemma_run_uses(then, d2, rest);
    assert(first.feed(b).data =~= whole.data);
    assert forall|i: int| 0 <= i < d.len() implies is_draw(#[trigger] d[i]) by {
        if i < k {
            assert(d[i] == d1[i]);
        } else if i - k < d2.len() {
            assert(d[i] == d2[i - k]);
        }
    }
    assert(leads(core, a + b, r, after, d));
}

/// Two chunks that the machine takes one after the other come to something that
/// they can come to at once.
pub proof fn chunks_add_up(
    core: CoreView,
    a: Seq<u8>,
    b: Seq<u8>,
    between: CoreView,
    r: Result<(), Error>,
    after: CoreView,
)
    requires
        outcome(core, a, Ok(()), between),
        outcome(between, b, r, after),
    ensures
        outcome(core, a + b, r, after),
{
    lemma_possible(core, a, Ok(()), between);
    lemma_possible(between, b, r, after);
    lemma_possible(core, a + b, r, after);
    lemma_chunks_add_up(core, a, b, between, r, after);
}

/// Draws for a chunk that is refused will do for more bytes.
proof fn lemma_refused_chunk(
    core: CoreView,
    a: Seq<u8>,
    b: Seq<u8>,
    e: Error,
    between: CoreView,
)
    requires
        possible(core, a, Err(e), between),
    ensures
        possible(core, a + b, Err(e), between.feed(b)),
{
    reveal(possible);
    let first = core.feed(a);
    let whole = core.feed(a + b);
    let d1 = choose|draws: Seq<Option<Seq<u8>>>| leads(core, a, Err(e), between, draws);
    lemma_frames_take_bytes(first, d1);
    let d = padded(d1, whole.data.len());
    lemma_run_uses(first, d1, d);
    lemma_indifferent(first, b, d);
    assert(first.feed(b).data =~= whole.data);
    assert forall|i: int| 0 <= i < d.len() implies is_draw(#[trigger] d[i]) by {
        if i < d1.len() {
            assert(d[i] == d1[i]);
        }
    }
    assert(leads(core, a + b, Err(e), between.feed(b), d));
}

/// A chunk that is refused is refused also with others behind it, and they are
/// kept.
pub proof fn refused_chunk_stays_refused(
    core: CoreView,
    a: Seq<u8>,
    b: Seq<u8>,
    e: Error,
    between: CoreView,
)
    requires
        outcome(core, a, Err(e), between),
    ensures
        outcome(core, a + b, Err(e), between.feed(b)),
{
    lemma_possible(core, a, Err(e), between);
    lemma_possible(core, a + b, Err(e), between.feed(b));
    lemma_refused_chunk(core, a, b, e, between);
}

/// Draws for two chunks at once make up draws for each.
proof fn lemma_chunks_come_apart(
    core: CoreView,
    a: Seq<u8>,
    b: Seq<u8>,
    r: Result<(), Error>,
    after: CoreView,
) -> (between: CoreView)
    requires
        possible(core, a + b, r, after),
    ensures
        ({
            ||| possible(core, a, Ok(()), between) && possible(between, b, r, after)
            ||| r is Err && possible(core, a, r, between) && after == between.feed(b)
        }),
{
    reveal(possible);
    let first = core.feed(a);
    let whole = core.feed(a + b);
    let d = choose|draws: Seq<Option<Seq<u8>>>| leads(core, a + b, r, after, draws);
    let k = frames(first.data) as int;
    let (r1, between) = ran(first, d);
    lemma_frames_take_bytes(first, d);
    lemma_indifferent(first, b, d);
    assert(first.feed(b).data =~= whole.data);
    assert(leads(core, a, r1, between, d));
    if r1 is Ok {
        let rest = d.skip(k);
        assert forall|i: int| 0 <= i < rest.len() implies is_draw(#[trigger] rest[i]) by {
            assert(rest[i] == d[i + k]);
        }
        assert(leads(between, b, r, after, rest));
        assert(r1->Ok_0 == ());
    }
    between
}

/// What bytes can come to at once, they can come to in two chunks: either the first
/// chunk is well and the second leads to the same, or the first chunk is refused
/// with the same error, and the second is kept.
pub proof fn chunks_come_apart(
    core: CoreView,
    a: Seq<u8>,
    b: Seq<u8>,
    r: Result<(), Error>,
    after: CoreView,
) -> (between: CoreView)
    requires
        outcome(core, a + b, r, after),
    ensures
        ({
            ||| outcome(core, a, Ok(()), between) && outcome(between, b, r, after)
            ||| r is Err && outcome(core, a, r, between) && after == between.feed(b)
        }),
{
    lemma_possible(core, a + b, r, after);
    let between = lemma_chunks_come_apart(core, a, b, r, after);
    lemma_possible(core, a, Ok(()), between);
    lemma_possible(between, b, r, after);
    lemma_possible(core, a, r, between);
    between
}

/// A frame is handled as the message in it, and the bytes behind it stay.
pub proof fn frame_is_handled(
    core: CoreView,
    tag: u8,
    body: Seq<u8>,
    more: Seq<u8>,
    draw: Option<Seq<u8>>,
)
    requires
        4 + body.len() <= MAX_FRAME_SIZE,
        core.data == framed(tag, body) + more,
    ensures
        core.step(draw) == match message_of(tag, body) {
            Ok(message) => (CoreView { data: more, ..core }).on_message(message, draw),
            Err(e) => (Err(e), CoreView { data: more, ..core }),
        },
{
    frame_is_taken_whole(tag, body, more);
    frame_is_decoded(tag, body);
}

/// Bytes that are one frame come to what the message in it comes to.
pub proof fn single_frame_is_handled(
    core: CoreView,
    tag: u8,
    body: Seq<u8>,
    draws: Seq<Option<Seq<u8>>>,
)
    requires
        4 + body.len() <= MAX_FRAME_SIZE,
        core.data == framed(tag, body),
    ensures
        core.run(draws) == match message_of(tag, body) {
            Ok(message) => (CoreView { data: Seq::empty(), ..core }).on_message(message, draws[0]),
            Err(e) => (Err(e), CoreView { data: Seq::empty(), ..core }),
        },
{
    let none: Seq<u8> = Seq::empty();
    assert(framed(tag, body) + none =~= framed(tag, body));
    frame_is_taken_whole(tag, body, none);
    frame_is_handled(core, tag, body, none, draws[0]);
    lemma_ran(core, draws);
    lemma_ran_frame(core, draws);
    assert(stepped(core, draws[0]) == core.step(draws[0])) by {
        reveal(stepped);
    }
    lemma_ran_nothing(stepped(core, draws[0]).1, draws.skip(1));
}

/// `next` has at most one event and one message for the server more than `core`,
/// behind those that are there, and the same parameters and timeout.
spec fn adds(core: CoreView, next: CoreView) -> bool {
    &&& core.events.len() <= next.events.len() <= core.events.len() + 1
    &&& next.events.take(core.events.len() as int) == core.events
    &&& core.outgoing.len() <= next.outgoing.len() <= core.outgoing.len() + 1
    &&& next.outgoing.take(core.outgoing.len() as int) == core.outgoing
    &&& next.connect_params == core.connect_params
    &&& next.timeout == core.timeout
    &&& next.state is Shutdown ==> core.state is Shutdown
}

/// An authentication message adds no event, and one message at most.
proof fn lemma_authentication_adds(
    core: CoreView,
    message: AuthenticationView,
    draw: Option<Seq<u8>>,
)
    ensures
        adds(core, core.on_authentication(message, draw).1),
        core.on_authentication(message, draw).1.events == core.events,
{
    let next = core.on_authentication(message, draw).1;
    assert(next.events == core.events);
    assert(core.events.take(core.events.len() as int) =~= core.events);
    assert(next.outgoing.take(core.outgoing.len() as int) =~= core.outgoing);
}

/// A message adds one event and one message at most.
proof fn lemma_message_adds(core: CoreView, message: MessageFormatView, draw: Option<Seq<u8>>)
    ensures
        adds(core, core.on_message(message, draw).1),
{
    match message {
        MessageFormatView::Authentication(a) => lemma_authentication_adds(core, a, draw),
        _ => {
            let next = core.on_message(message, draw).1;
            assert(next.events.take(core.events.len() as int) =~= core.events);
            assert(next.outgoing.take(core.outgoing.len() as int) =~= core.outgoing);
        },
    }
}

/// So does a frame.
proof fn lemma_step_adds(core: CoreView, draw: Option<Seq<u8>>)
    ensures
        adds(core, core.step(draw).1),
{
    assert(core.events.take(core.events.len() as int) =~= core.events);
    assert(core.outgoing.take(core.outgoing.len() as int) =~= core.outgoing);
    match next_frame(core.data) {
        Frame::Whole(frame, rest) => {
            let taken = CoreView { data: rest, ..core };
            match backend_message(frame) {
                Ok(message) => lemma_message_adds(taken, message, draw),
                Err(_) => {},
            }
        },
        _ => {},
    }
}

/// `after` has the events and the messages for the server of `core`, perhaps with
/// others behind them, and the same parameters and timeout.
spec fn extends(core: CoreView, after: CoreView) -> bool {
    &&& core.events.len() <= after.events.len()
    &&& after.events.take(core.events.len() as int) == core.events
    &&& core.outgoing.len() <= after.outgoing.len()
    &&& after.outgoing.take(core.outgoing.len() as int) == core.outgoing
    &&& after.connect_params == core.connect_params
    &&& after.timeout == core.timeout
    &&& after.state is Shutdown ==> core.state is Shutdown
}

/// All the bytes received only add.
proof fn lemma_run_extends(core: CoreView, draws: Seq<Option<Seq<u8>>>)
    ensures
        extends(core, ran(core, draws).1),
    decreases core.data.len(),
{
    let after = ran(core, draws).1;
    if next_frame(core.data) is Whole {
        let (r, next) = stepped(core, draws[0]);
        assert(adds(core, next)) by {
            reveal(stepped);
            lemma_step_adds(core, draws[0]);
        }
        lemma_ran_first(core, Seq::empty(), draws);
        if r is Ok {
            lemma_run_extends(next, draws.skip(1));
            let n = core.events.len() as int;
            let m = core.outgoing.len() as int;
            assert(after.events.take(n) =~= after.events.take(next.events.len() as int).take(n));
            assert(after.outgoing.take(m) =~= after.outgoing.take(
                next.outgoing.len() as int,
            ).take(m));
        }
    } else {
        lemma_ran_none(core, Seq::empty(), draws);
        assert(core.events.take(core.events.len() as int) =~= core.events);
        assert(core.outgoing.take(core.outgoing.len() as int) =~= core.outgoing);
    }
}

/// Bytes from the server add events and messages for the server behind those that
/// are there: none is lost and none is put in front. The parameters of the
/// connection and the timeout stay, and the machine is not shut down.
pub proof fn nothing_is_lost(core: CoreView, draws: Seq<Option<Seq<u8>>>)
    ensures
        ({
            let after = core.run(draws).1;
            &&& core.events.len() <= after.events.len()
            &&& after.events.take(core.events.len() as int) == core.events
            &&& core.outgoing.len() <= after.outgoing.len()
            &&& after.outgoing.take(core.outgoing.len() as int) == core.outgoing
            &&& after.connect_params == core.connect_params
            &&& after.timeout == core.timeout
            &&& after.state is Shutdown ==> core.state is Shutdown
        }),
{
    lemma_run_extends(core, draws);
    lemma_ran(core, draws);
}

/// Parameters and key data that the server reports change nothing, in any state.
pub proof fn reports_change_nothing(
    core: CoreView,
    message: MessageFormatView,
    draw: Option<Seq<u8>>,
)
    requires
        message is ParameterStatus || message is BackendKeyData,
    ensures
        core.on_message(message, draw) == (Ok::<(), Error>(()), core),
{
}

/// An error of the server is reported and fails the machine, in any state.
pub proof fn server_error_fails(core: CoreView, fields: Seq<u8>, draw: Option<Seq<u8>>)
    ensures
        core.on_message(MessageFormatView::ErrorResponse(fields), draw) == (
            Ok::<(), Error>(()),
            core.emit(CoreEventView::ServerError(fields)).to(StateView::Failed),
        ),
{
}

/// A failed machine refuses every message but a report or a further error, and
/// stays as it is.
pub proof fn failed_refuses(core: CoreView, message: MessageFormatView, draw: Option<Seq<u8>>)
    requires
        core.state is Failed,
        !(message is ParameterStatus),
        !(message is BackendKeyData),
        !(message is ErrorResponse),
    ensures
        core.on_message(message, draw) == (
            Err::<(), Error>(Error::IncorrectState { state: CoreStatus::Failed }),
            core,
        ),
{
}

/// A frame leaves a failed machine failed.
proof fn lemma_failed_step(core: CoreView, draw: Option<Seq<u8>>)
    requires
        core.state is Failed,
    ensures
        stepped(core, draw).1.state is Failed,
        stepped(core, draw).1.outgoing == core.outgoing,
{
    reveal(stepped);
}

/// So do all the bytes received.
proof fn lemma_failed_run(core: CoreView, draws: Seq<Option<Seq<u8>>>)
    requires
        core.state is Failed,
    ensures
        ran(core, draws).1.state is Failed,
        ran(core, draws).1.outgoing == core.outgoing,
    decreases core.data.len(),
{
    if next_frame(core.data) is Whole {
        lemma_failed_step(core, draws[0]);
        lemma_ran_first(core, Seq::empty(), draws);
        if stepped(core, draws[0]).0 is Ok {
            lemma_failed_run(stepped(core, draws[0]).1, draws.skip(1));
        }
    } else {
        lemma_ran_none(core, Seq::empty(), draws);
    }
}

/// A failed machine stays failed and sends nothing, whatever the server sends and
/// the client asks.
pub proof fn failed_stays_failed(
    core: CoreView,
    params: ConnectParamsView,
    raw: Seq<u8>,
    draws: Seq<Option<Seq<u8>>>,
)
    requires
        core.state is Failed,
    ensures
        core.connect(params) == (Ok::<(), Error>(()), core),
        core.closed() == core,
        core.feed(raw).run(draws).1.state is Failed,
        core.feed(raw).run(draws).1.outgoing == core.outgoing,
{
    lemma_failed_run(core.feed(raw), draws);
    lemma_ran(core.feed(raw), draws);
}

/// A message that is refused leaves the events and the messages for the server as
/// they are. Only what a SCRAM exchange has learned may change.
pub proof fn refused_message_does_nothing(
    core: CoreView,
    message: MessageFormatView,
    draw: Option<Seq<u8>>,
)
    requires
        core.on_message(message, draw).0 is Err,
    ensures
        ({
            let next = core.on_message(message, draw).1;
            &&& next == core.to(next.state)
            &&& next.state.status() == core.state.status()
            &&& !(core.state is Authenticating) ==> next == core
        }),
{
}

/// Messages and keepalives of the replication stream are reported only while data
/// is streaming, and they send nothing and leave it streaming.
pub proof fn replication_events_need_streaming(
    core: CoreView,
    message: MessageFormatView,
    draw: Option<Seq<u8>>,
)
    requires
        ({
            let next = core.on_message(message, draw).1;
            next.events.len() > core.events.len() && (next.events.last() is LogicalMessage
                || next.events.last() is KeepAlive)
        }),
    ensures
        core.state is Streaming,
        message is CopyData,
        ({
            let next = core.on_message(message, draw).1;
            next == core.emit(next.events.last())
        }),
{
}

/// What a payload of the replication stream is reported as.
pub open spec fn stream_event(payload: Seq<u8>) -> Result<CoreEventView, Error> {
    match replication_message(payload) {
        Err(e) => Err(e),
        Ok(ReplicationView::PrimaryKeepAlive(k)) => Ok(CoreEventView::KeepAlive(k)),
        Ok(ReplicationView::XlogData(x)) => match logical_message(x.wal_data) {
            Err(e) => Err(e),
            Ok(m) => Ok(CoreEventView::LogicalMessage(m)),
        },
    }
}

/// What payloads of the replication stream are reported as, where all are well.
pub open spec fn stream_events(payloads: Seq<Seq<u8>>) -> Seq<CoreEventView> {
    Seq::new(payloads.len(), |i: int| stream_event(payloads[i])->Ok_0)
}

/// Payloads of the replication stream, each in a frame, one behind the other.
pub open spec fn copy_frames(payloads: Seq<Seq<u8>>) -> Seq<u8>
    decreases payloads.len(),
{
    if payloads.len() == 0 {
        Seq::empty()
    } else {
        framed(0x64, payloads[0]) + copy_frames(payloads.skip(1))
    }
}

/// The first of some frames of copied data is handled.
proof fn lemma_first_copy_frame(
    core: CoreView,
    payloads: Seq<Seq<u8>>,
    draws: Seq<Option<Seq<u8>>>,
)
    requires
        core.data == copy_frames(payloads),
        payloads.len() > 0,
        4 + payloads[0].len() <= MAX_FRAME_SIZE,
    ensures
        ({
            let taken = CoreView { data: copy_frames(payloads.skip(1)), ..core };
            ran(core, draws) == if !(core.state is Streaming) {
                (Err::<(), Error>(core.incorrect_state()), taken)
            } else {
                match stream_event(payloads[0]) {
                    Err(e) => (Err(e), taken),
                    Ok(event) => ran(taken.emit(event), draws.skip(1)),
                }
            }
        }),
{
    let more = copy_frames(payloads.skip(1));
    raw_bodies_are_read(payloads[0]);
    frame_is_taken_whole(0x64, payloads[0], more);
    frame_is_handled(core, 0x64, payloads[0], more, draws[0]);
    reveal(stepped);
    lemma_ran_first(core, Seq::empty(), draws);
}

/// Frames of copied data come to one event each.
proof fn lemma_copy_frames(core: CoreView, payloads: Seq<Seq<u8>>, draws: Seq<Option<Seq<u8>>>)
    requires
        core.state is Streaming,
        core.data == copy_frames(payloads),
        forall|i: int|
            0 <= i < payloads.len() ==> 4 + (#[trigger] payloads[i]).len() <= MAX_FRAME_SIZE
                && stream_event(payloads[i]) is Ok,
    ensures
        ran(core, draws) == (
            Ok::<(), Error>(()),
            CoreView {
                data: Seq::empty(),
                events: core.events + stream_events(payloads),
                ..core
            },
        ),
    decreases payloads.len(),
{
    if payloads.len() == 0 {
        lemma_ran_none(core, Seq::empty(), draws);
        assert(core.events + stream_events(payloads) =~= core.events);
    } else {
        let others = payloads.skip(1);
        let event = stream_event(payloads[0])->Ok_0;
        let next = (CoreView { data: copy_frames(others), ..core }).emit(event);
        lemma_first_copy_frame(core, payloads, draws);
        assert forall|i: int| 0 <= i < others.len() implies 4 + (#[trigger] others[i]).len()
            <= MAX_FRAME_SIZE && stream_event(others[i]) is Ok by {
            assert(others[i] == payloads[i + 1]);
        }
        lemma_copy_frames(next, others, draws.skip(1));
        assert(next.events + stream_events(others) =~= core.events + stream_events(payloads));
    }
}

/// While data is streaming, frames of copied data that are all well come to one
/// event each, in their order, and to nothing else.
pub proof fn stream_is_reported(
    core: CoreView,
    payloads: Seq<Seq<u8>>,
    draws: Seq<Option<Seq<u8>>>,
)
    requires
        core.state is Streaming,
        core.data.len() == 0,
        forall|i: int|
            0 <= i < payloads.len() ==> 4 + (#[trigger] payloads[i]).len() <= MAX_FRAME_SIZE
                && stream_event(payloads[i]) is Ok,
    ensures
        core.feed(copy_frames(payloads)).run(draws) == (
            Ok::<(), Error>(()),
            CoreView { events: core.events + stream_events(payloads), ..core },
        ),
{
    let fed = core.feed(copy_frames(payloads));
    assert(fed.data =~= copy_frames(payloads));
    assert(core.data =~= Seq::empty());
    lemma_copy_frames(fed, payloads, draws);
    lemma_ran(fed, draws);
}

/// In any other state copied data is refused. The frame is dropped, those behind it
/// are kept, and nothing else changes.
pub proof fn stream_needs_streaming(
    core: CoreView,
    payloads: Seq<Seq<u8>>,
    draws: Seq<Option<Seq<u8>>>,
)
    requires
        !(core.state is Streaming),
        core.data.len() == 0,
        payloads.len() > 0,
        4 + payloads[0].len() <= MAX_FRAME_SIZE,
    ensures
        core.feed(copy_frames(payloads)).run(draws) == (
            Err::<(), Error>(core.incorrect_state()),
            CoreView { data: copy_frames(payloads.skip(1)), ..core },
        ),
{
    let fed = core.feed(copy_frames(payloads));
    assert(fed.data =~= copy_frames(payloads));
    lemma_first_copy_frame(fed, payloads, draws);
    lemma_ran(fed, draws);
}

/// Data starts to stream only in answer to the command that the machine sends
/// once the server is ready.
pub proof fn streaming_needs_start(
    core: CoreView,
    message: MessageFormatView,
    draw: Option<Seq<u8>>,
)
    requires
        !(core.state is Streaming),
        core.on_message(message, draw).1.state is Streaming,
    ensures
        core.state is StartReplication,
        message is CopyBothResponse,
        core.on_message(message, draw).1 == core.emit(CoreEventView::ReplicationStarted).to(
            StateView::Streaming,
        ),
{
}

/// An accepted connection goes all the way to streaming: the startup message and
/// the command that starts replication are sent, in this order, and the client
/// learns that it is connected and that replication has started.
pub proof fn session_opens(
    core: CoreView,
    params: ConnectParamsView,
    ready: MessageFormatView,
    copy: MessageFormatView,
    draws: Seq<Option<Seq<u8>>>,
)
    requires
        core.state is Disconnected,
        ready is ReadyForQuery,
        copy is CopyBothResponse,
    ensures
        ({
            let accepted = MessageFormatView::Authentication(AuthenticationView::AuthOk);
            let (r1, asked) = core.connect(params);
            let (r2, trusted) = asked.on_message(accepted, draws[0]);
            let (r3, started) = trusted.on_message(ready, draws[1]);
            let (r4, streaming) = started.on_message(copy, draws[2]);
            &&& r1 == Ok::<(), Error>(()) && r2 == r1 && r3 == r1 && r4 == r1
            &&& streaming == CoreView {
                state: StateView::Streaming,
                connect_params: Some(params),
                events: core.events.push(CoreEventView::Connected).push(
                    CoreEventView::ReplicationStarted,
                ),
                outgoing: core.outgoing.push(params.startup_message()).push(
                    start_replication_message(),
                ),
                ..core
            }
        }),
{
}

/// A server that knows the password logs in a client that has begun an exchange.
/// The client answers the server's first message with its last one, and takes the
/// server's signature for authentication. What the server adds to the nonce and the
/// text of its salt must hold no comma, and the salt must decode.
pub proof fn exchange_logs_in(
    core: CoreView,
    client: ScramView,
    extension: Seq<u8>,
    salt_text: Seq<u8>,
    iterations: Seq<u8>,
)
    requires
        core.wf(),
        core.state == StateView::Authenticating(AuthView::Scram(client)),
        extension.len() > 0,
        !extension.contains(COMMA),
        !salt_text.contains(COMMA),
        decimal(iterations) matches Some(rounds) && rounds > 0,
    ensures
        ({
            let nonce = encode_utf8(client.client_nonce) + extension;
            let first = server_first_message(nonce, salt_text, iterations);
            let told = client.server_first(first).1;
            base64_data(salt_text) is Some ==> {
                let (r, answered) = core.on_authentication(
                    AuthenticationView::SaslContinue(first),
                    None,
                );
                &&& r == Ok::<(), Error>(())
                &&& told.client_final() matches Ok(last)
                &&& told.expected_signature() matches Ok(signature)
                &&& answered.on_authentication(
                    AuthenticationView::SaslFinal(server_final_message(signature)),
                    None,
                ) == (
                    Ok::<(), Error>(()),
                    core.send(framed(0x70, last)).to(StateView::Authenticated),
                )
            }
        }),
{
    let nonce = encode_utf8(client.client_nonce) + extension;
    let first = server_first_message(nonce, salt_text, iterations);
    let told = client.server_first(first).1;
    if base64_data(salt_text) is Some {
        lemma_base64_without_comma(client.client_nonce);
        assert(!nonce.contains(COMMA)) by {
            let prefix = encode_utf8(client.client_nonce);
            assert forall|i: int| 0 <= i < nonce.len() implies nonce[i] != COMMA by {
                if i < prefix.len() {
                    assert(prefix.contains(prefix[i]));
                } else {
                    assert(extension.contains(extension[i - prefix.len()]));
                }
            }
        }
        honest_server_is_accepted(client, extension, salt_text, iterations);
        accepted_exchange_goes_on(client, first);
        match (told.client_final(), told.expected_signature()) {
            (Ok(last), Ok(signature)) => {
                only_expected_signature_is_accepted(
                    told,
                    server_final_message(signature),
                    signature,
                );
                lemma_answer(core, client, first, last);
                let answered = core.send(framed(0x70, last)).to(
                    StateView::Authenticating(AuthView::Scram(told)),
                );
                lemma_signed(answered, told, server_final_message(signature));
            },
            _ => {},
        }
    }
}

/// A message of the server that the client accepts is answered.
proof fn lemma_answer(core: CoreView, client: ScramView, first: Seq<u8>, last: Seq<u8>)
    requires
        core.state == StateView::Authenticating(AuthView::Scram(client)),
        client.server_first(first).0 == Ok::<(), Error>(()),
        client.server_first(first).1.client_final() == Ok::<Seq<u8>, Error>(last),
    ensures
        core.on_authentication(AuthenticationView::SaslContinue(first), None) == (
            Ok::<(), Error>(()),
            core.send(framed(0x70, last)).to(
                StateView::Authenticating(AuthView::Scram(client.server_first(first).1)),
            ),
        ),
{
}

/// A signature that the client accepts authenticates.
proof fn lemma_signed(core: CoreView, client: ScramView, data: Seq<u8>)
    requires
        core.state == StateView::Authenticating(AuthView::Scram(client)),
        client.server_final(data) is Ok,
    ensures
        core.on_authentication(AuthenticationView::SaslFinal(data), None) == (
            Ok::<(), Error>(()),
            core.to(StateView::Authenticated),
        ),
{
}

/// The offer of the mechanism begins an exchange, in any state but a failed one.
/// The client sends its first message, with the text of what the random number
/// source gave for a nonce. The machine is well-formed if that text is what
/// [`ScramClient::with_draw`](crate::auth::scram::ScramClient::with_draw) promises
/// of it: 24 characters of base64.
pub proof fn offer_begins_exchange(
    core: CoreView,
    params: ConnectParamsView,
    offered: Seq<Seq<char>>,
    bytes: Seq<u8>,
)
    requires
        !(core.state is Failed),
        core.connect_params == Some(params),
        offered.contains(SCRAM_SHA_256_NAME@),
    ensures
        ({
            let client = ScramView::fresh(offered, params.password, base64_unpadded_text(bytes));
            let (r, asked) = core.on_authentication(
                AuthenticationView::Sasl(offered),
                Some(bytes),
            );
            &&& r == Ok::<(), Error>(())
            &&& asked == core.send(
                framed(0x70, initial_response_body(SCRAM_SHA_256_NAME@, client.client_first())),
            ).to(StateView::Authenticating(AuthView::Scram(client)))
            &&& client.client_nonce.len() == 24 && is_base64_text(client.client_nonce)
                ==> asked.wf()
        }),
{
}

/// A server that knows the password logs the client in, from the offer of the
/// mechanism on, in any state but a failed one. The nonce of the client is base64,
/// as [`ScramClient::with_draw`](crate::auth::scram::ScramClient::with_draw)
/// promises.
pub proof fn scram_logs_in(
    core: CoreView,
    params: ConnectParamsView,
    offered: Seq<Seq<char>>,
    bytes: Seq<u8>,
    extension: Seq<u8>,
    salt_text: Seq<u8>,
    iterations: Seq<u8>,
)
    requires
        !(core.state is Failed),
        core.connect_params == Some(params),
        offered.contains(SCRAM_SHA_256_NAME@),
        extension.len() > 0,
        !extension.contains(COMMA),
        !salt_text.contains(COMMA),
        decimal(iterations) matches Some(rounds) && rounds > 0,
    ensures
        ({
            let client = ScramView::fresh(offered, params.password, base64_unpadded_text(bytes));
            let nonce = encode_utf8(client.client_nonce) + extension;
            let first = server_first_message(nonce, salt_text, iterations);
            let told = client.server_first(first).1;
            base64_data(salt_text) is Some && client.client_nonce.len() == 24 && is_base64_text(
                client.client_nonce,
            ) ==> {
                let (r1, asked) = core.on_authentication(
                    AuthenticationView::Sasl(offered),
                    Some(bytes),
                );
                let (r2, answered) = asked.on_authentication(
                    AuthenticationView::SaslContinue(first),
                    None,
                );
                &&& r1 == Ok::<(), Error>(()) && r2 == r1
                &&& told.client_final() matches Ok(last)
                &&& told.expected_signature() matches Ok(signature)
                &&& answered.on_authentication(
                    AuthenticationView::SaslFinal(server_final_message(signature)),
                    None,
                ) == (
                    Ok::<(), Error>(()),
                    core.send(
                        framed(
                            0x70,
                            initial_response_body(SCRAM_SHA_256_NAME@, client.client_first()),
                        ),
                    ).send(framed(0x70, last)).to(StateView::Authenticated),
                )
            }
        }),
{
    let client = ScramView::fresh(offered, params.password, base64_unpadded_text(bytes));
    offer_begins_exchange(core, params, offered, bytes);
    let asked = core.send(
        framed(0x70, initial_response_body(SCRAM_SHA_256_NAME@, client.client_first())),
    ).to(StateView::Authenticating(AuthView::Scram(client)));
    if client.client_nonce.len() == 24 && is_base64_text(client.client_nonce) {
        exchange_logs_in(asked, client, extension, salt_text, iterations);
    }
}

/// The last SASL message of the server authenticates a client in an exchange only
/// with the expected signature. With any other it leaves the client waiting. (A
/// server that accepts the client without one is trusted: see
/// [`acceptance_logs_in`].)
pub proof fn only_expected_signature_logs_in(core: CoreView, client: ScramView, data: Seq<u8>)
    requires
        core.state == StateView::Authenticating(AuthView::Scram(client)),
    ensures
        ({
            let (r, next) = core.on_authentication(AuthenticationView::SaslFinal(data), None);
            let expected = match client.expected_signature() {
                Ok(signature) => data == server_final_message(signature),
                Err(_) => false,
            };
            if expected {
                r == Ok::<(), Error>(()) && next == core.to(StateView::Authenticated)
            } else {
                r is Err && next == core
            }
        }),
{
    match client.expected_signature() {
        Ok(signature) => only_expected_signature_is_accepted(client, data, signature),
        Err(_) => {},
    }
}

/// A server that accepts the client authenticates it in any state but a failed one,
/// also in the middle of an exchange.
pub proof fn acceptance_logs_in(core: CoreView, draw: Option<Seq<u8>>)
    requires
        !(core.state is Failed),
    ensures
        core.on_authentication(AuthenticationView::AuthOk, draw) == (
            Ok::<(), Error>(()),
            core.to(StateView::Authenticated),
        ),
{
}

/// Replication ends in three steps. The client sends `CopyDone` and nothing else,
/// the server says that the command is complete and that it is ready, and the
/// machine is disconnected, without an event.
pub proof fn session_closes(
    core: CoreView,
    complete: MessageFormatView,
    ready: MessageFormatView,
    draws: Seq<Option<Seq<u8>>>,
)
    requires
        core.state is Streaming,
        complete is CommandComplete,
        ready is ReadyForQuery,
    ensures
        ({
            let closing = core.closed();
            let (r1, completed) = closing.on_message(complete, draws[0]);
            let (r2, done) = completed.on_message(ready, draws[1]);
            &&& r1 == Ok::<(), Error>(()) && r2 == r1
            &&& done == core.send(copy_done()).to(StateView::Disconnected)
        }),
{
    assert(framed(0x63, Seq::empty()) =~= copy_done());
}

/// The message that ends the copying of data.
pub open spec fn copy_done() -> Seq<u8> {
    seq![0x63, 0, 0, 0, 4]
}

/// To close a second time changes nothing.
pub proof fn closing_is_idempotent(core: CoreView)
    ensures
        core.closed().closed() == core.closed(),
{
}

/// To ask for a connection changes nothing where there is one, or one is asked
/// for already.
pub proof fn connecting_is_idempotent(
    core: CoreView,
    params: ConnectParamsView,
    others: ConnectParamsView,
)
    requires
        !(core.state is Shutdown),
    ensures
        core.connect(params).0 == Ok::<(), Error>(()),
        !(core.state is Disconnected) ==> core.connect(params).1 == core,
        core.connect(params).1.connect(others) == (Ok::<(), Error>(()), core.connect(params).1),
{
}

/// What the client asks for keeps the machine well-formed.
pub proof fn requests_keep_wf(core: CoreView, params: ConnectParamsView)
    requires
        core.wf(),
    ensures
        CoreView::initial().wf(),
        core.connect(params).1.wf(),
        core.closed().wf(),
{
}

/// A machine that is not shut down does not become so, whatever the client asks and
/// the server sends.
pub proof fn shutdown_is_never_reached(
    core: CoreView,
    params: ConnectParamsView,
    raw: Seq<u8>,
    draws: Seq<Option<Seq<u8>>>,
)
    requires
        !(core.state is Shutdown),
    ensures
        !(CoreView::initial().state is Shutdown),
        !(core.connect(params).1.state is Shutdown),
        !(core.closed().state is Shutdown),
        !(core.feed(raw).run(draws).1.state is Shutdown),
{
    nothing_is_lost(core.feed(raw), draws);
}

/// The name of a state.
pub open spec fn state_name(state: StateView, name: CoreStatus) -> bool {
    match name {
        CoreStatus::Startup => state is Startup,
        CoreStatus::Authenticating => state is Authenticating,
        CoreStatus::Authenticated => state is Authenticated,
        CoreStatus::Disconnected => state is Disconnected,
        CoreStatus::Shutdown => state is Shutdown,
        CoreStatus::StartReplication => state is StartReplication,
        CoreStatus::Streaming => state is Streaming,
        CoreStatus::ClosingCopy => state is ClosingCopy,
        CoreStatus::Failed => state is Failed,
    }
}

/// The state in which a message has its turn.
pub open spec fn in_turn(state: StateView, message: MessageFormatView) -> bool {
    match message {
        MessageFormatView::CopyData(_) => state is Streaming,
        MessageFormatView::CopyBothResponse(_) => state is StartReplication,
        MessageFormatView::CommandComplete(_) => state is ClosingCopy,
        MessageFormatView::ReadyForQuery(_) => state is Authenticated || state is ClosingCopy,
        MessageFormatView::Authentication(AuthenticationView::SaslContinue(_)) =>
            state is Authenticating,
        MessageFormatView::Authentication(AuthenticationView::SaslFinal(_)) =>
            state is Authenticating,
        MessageFormatView::Authentication(_) => !(state is Failed),
        _ => true,
    }
}

/// A message out of turn is refused with the name of the state, and changes nothing.
pub proof fn out_of_turn_is_refused(
    core: CoreView,
    message: MessageFormatView,
    draw: Option<Seq<u8>>,
    name: CoreStatus,
)
    requires
        !in_turn(core.state, message),
        state_name(core.state, name),
    ensures
        core.on_message(message, draw) == (
            Err::<(), Error>(Error::IncorrectState { state: name }),
            core,
        ),
{
}

/// An offer of mechanisms is refused before there are parameters to log in with,
/// where SCRAM-SHA-256 is not on offer, and where no nonce can be drawn.
pub proof fn offers_are_refused(
    core: CoreView,
    offered: Seq<Seq<char>>,
    bytes: Seq<u8>,
)
    requires
        !(core.state is Failed),
    ensures
        ({
            let offer = AuthenticationView::Sasl(offered);
            &&& core.connect_params is None ==> core.on_authentication(offer, Some(bytes)) == (
                Err::<(), Error>(Error::MissingConnectParams),
                core,
            )
            &&& core.connect_params is Some && !offered.contains("SCRAM-SHA-256"@)
                ==> core.on_authentication(offer, Some(bytes)) == (
                Err::<(), Error>(Error::UnsupportedMechanisms),
                core,
            )
            &&& core.connect_params is Some && offered.contains("SCRAM-SHA-256"@)
                ==> core.on_authentication(offer, None) == (
                Err::<(), Error>(Error::NonceUnavailable),
                core,
            )
        }),
{
}

} // verus!
