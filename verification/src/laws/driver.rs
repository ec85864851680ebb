//! What holds of the driver.

use vstd::prelude::*;

use crate::driver::{DriverView, WriteAction};
use crate::machine::CoreView;

verus! {

/// What the transport has taken is not written again, and nothing is left out:
/// behind `n` bytes the rest of the message is what is written next.
pub proof fn writing_goes_on(driver: DriverView, n: nat)
    requires
        n <= driver.unwritten().len(),
    ensures
        driver.written(n).unwritten() == driver.unwritten().skip(n as int),
{
    assert(driver.written(n).unwritten() =~= driver.unwritten().skip(n as int));
}

/// A message is flushed once all of it is written, and not before. Then the next
/// one has its turn.
pub proof fn messages_are_sent_in_order(driver: DriverView)
    requires
        driver.current_send is Some,
    ensures
        driver.write_action() is Flush <==> driver.unwritten().len() == 0,
        driver.written(driver.unwritten().len()).write_action() is Flush,
        driver.core.outgoing.len() == 0 ==> driver.flushed().loaded().write_action() is Idle,
        driver.core.outgoing.len() > 0 ==> {
            let next = driver.flushed().loaded();
            &&& next.current_send == Some(driver.core.outgoing[0])
            &&& next.unwritten() == driver.core.outgoing[0]
            &&& next.core.outgoing == driver.core.outgoing.skip(1)
        },
{
    if driver.core.outgoing.len() > 0 {
        assert(driver.flushed().loaded().unwritten() =~= driver.core.outgoing[0]);
    }
}

/// What the transport answers.
pub enum Answer {
    /// Nothing yet, or an error.
    No,
    /// To a write, how many bytes it has taken; to a flush, that it is done.
    Ready(nat),
}

/// A step of the output: the core as it is by then, and the answer of the transport
/// to what the driver asks of it.
pub struct WriteStep {
    pub core: CoreView,
    pub answer: Answer,
}

/// The driver is about to write with the core of this step.
pub open spec fn before_step(driver: DriverView, step: WriteStep) -> DriverView {
    DriverView { core: step.core, ..driver }
}

/// The message that the step fetches from the core, if it fetches one.
pub open spec fn fetched_in(driver: DriverView, step: WriteStep) -> Seq<Seq<u8>> {
    if driver.current_send is None && step.core.outgoing.len() > 0 {
        seq![step.core.outgoing[0]]
    } else {
        Seq::empty()
    }
}

/// The bytes that the transport takes in the step.
pub open spec fn taken_in(driver: DriverView, step: WriteStep) -> Seq<u8> {
    let ready = before_step(driver, step).loaded();
    match (ready.write_action(), step.answer) {
        (WriteAction::Write, Answer::Ready(n)) => ready.unwritten().take(n as int),
        _ => Seq::empty(),
    }
}

/// The driver after the step.
pub open spec fn after_step(driver: DriverView, step: WriteStep) -> DriverView {
    let ready = before_step(driver, step).loaded();
    match (ready.write_action(), step.answer) {
        (WriteAction::Write, Answer::Ready(n)) => ready.written(n),
        (WriteAction::Flush, Answer::Ready(_)) => ready.flushed(),
        _ => ready,
    }
}

/// The transport takes no more than it is given.
pub open spec fn is_answer(driver: DriverView, step: WriteStep) -> bool {
    let ready = before_step(driver, step).loaded();
    match (ready.write_action(), step.answer) {
        (WriteAction::Write, Answer::Ready(n)) => n <= ready.unwritten().len(),
        _ => true,
    }
}

/// So it is in each of the steps.
pub open spec fn are_answers(driver: DriverView, steps: Seq<WriteStep>) -> bool
    decreases steps.len(),
{
    steps.len() > 0 ==> is_answer(driver, steps[0]) && are_answers(
        after_step(driver, steps[0]),
        steps.skip(1),
    )
}

/// The messages that the steps fetch, in their order.
pub open spec fn fetched(driver: DriverView, steps: Seq<WriteStep>) -> Seq<Seq<u8>>
    decreases steps.len(),
{
    if steps.len() == 0 {
        Seq::empty()
    } else {
        fetched_in(driver, steps[0]) + fetched(after_step(driver, steps[0]), steps.skip(1))
    }
}

/// The bytes that the transport takes in the steps, joined.
pub open spec fn taken(driver: DriverView, steps: Seq<WriteStep>) -> Seq<u8>
    decreases steps.len(),
{
    if steps.len() == 0 {
        Seq::empty()
    } else {
        taken_in(driver, steps[0]) + taken(after_step(driver, steps[0]), steps.skip(1))
    }
}

/// The driver after the steps.
pub open spec fn after_steps(driver: DriverView, steps: Seq<WriteStep>) -> DriverView
    decreases steps.len(),
{
    if steps.len() == 0 {
        driver
    } else {
        after_steps(after_step(driver, steps[0]), steps.skip(1))
    }
}

/// Messages, joined.
pub open spec fn joined(messages: Seq<Seq<u8>>) -> Seq<u8>
    decreases messages.len(),
{
    if messages.len() == 0 {
        Seq::empty()
    } else {
        messages[0] + joined(messages.skip(1))
    }
}

/// Messages behind others are joined behind them.
proof fn lemma_joined(a: Seq<Seq<u8>>, b: Seq<Seq<u8>>)
    ensures
        joined(a + b) == joined(a) + joined(b),
    decreases a.len(),
{
    if a.len() == 0 {
        assert(a + b =~= b);
        assert(joined(a) + joined(b) =~= joined(b));
    } else {
        assert((a + b).skip(1) =~= a.skip(1) + b);
        lemma_joined(a.skip(1), b);
        assert(a[0] + (joined(a.skip(1)) + joined(b)) =~= joined(a) + joined(b));
    }
}

/// In one step, what is taken and what is left make up what was left and what is
/// fetched.
proof fn lemma_step_balance(driver: DriverView, step: WriteStep)
    requires
        is_answer(driver, step),
    ensures
        taken_in(driver, step) + after_step(driver, step).unwritten() == driver.unwritten()
            + joined(fetched_in(driver, step)),
{
    let ready = before_step(driver, step).loaded();
    let got = fetched_in(driver, step);
    assert(got.skip(1) =~= Seq::empty() || got.len() == 0);
    reveal_with_fuel(joined, 2);
    assert(ready.unwritten() =~= driver.unwritten() + joined(got));
    match (ready.write_action(), step.answer) {
        (WriteAction::Write, Answer::Ready(n)) => {
            writing_goes_on(ready, n);
            assert(ready.unwritten().take(n as int) + ready.unwritten().skip(n as int)
                =~= ready.unwritten());
        },
        _ => {
            assert(taken_in(driver, step) + after_step(driver, step).unwritten()
                =~= ready.unwritten());
        },
    }
}

/// In any sequence of steps, what the transport has taken and what is left of the
/// current message make up what was left at the start and the messages fetched from
/// the core, joined: no byte is lost, repeated or out of order.
pub proof fn writes_balance(driver: DriverView, steps: Seq<WriteStep>)
    requires
        are_answers(driver, steps),
    ensures
        taken(driver, steps) + after_steps(driver, steps).unwritten() == driver.unwritten()
            + joined(fetched(driver, steps)),
    decreases steps.len(),
{
    if steps.len() == 0 {
        assert(Seq::<u8>::empty() + driver.unwritten() =~= driver.unwritten() + Seq::<u8>::empty());
    } else {
        let next = after_step(driver, steps[0]);
        let others = steps.skip(1);
        lemma_step_balance(driver, steps[0]);
        writes_balance(next, others);
        lemma_joined(fetched_in(driver, steps[0]), fetched(next, others));
        let t = taken_in(driver, steps[0]);
        let left = after_steps(next, others).unwritten();
        assert((t + taken(next, others)) + left =~= t + (taken(next, others) + left));
        assert(t + (next.unwritten() + joined(fetched(next, others))) =~= (t + next.unwritten())
            + joined(fetched(next, others)));
        assert((driver.unwritten() + joined(fetched_in(driver, steps[0]))) + joined(
            fetched(next, others),
        ) =~= driver.unwritten() + (joined(fetched_in(driver, steps[0])) + joined(
            fetched(next, others),
        )));
    }
}

/// Where nothing is being written at the start, the bytes that the transport has
/// taken are the beginning of the messages fetched from the core, joined.
pub proof fn writes_are_a_prefix(driver: DriverView, steps: Seq<WriteStep>)
    requires
        driver.current_send is None,
        are_answers(driver, steps),
    ensures
        ({
            let sent = taken(driver, steps);
            let all = joined(fetched(driver, steps));
            sent.len() <= all.len() && sent == all.take(sent.len() as int)
        }),
{
    let sent = taken(driver, steps);
    let all = joined(fetched(driver, steps));
    writes_balance(driver, steps);
    assert(driver.unwritten() + all =~= all);
    assert(sent =~= all.take(sent.len() as int));
}

/// A message is fetched only where none is being written, and one that is being
/// written stays until all of it is written and the transport has answered the
/// flush.
pub proof fn messages_are_fetched_one_by_one(driver: DriverView, step: WriteStep)
    ensures
        fetched_in(driver, step).len() > 0 ==> driver.current_send is None,
        driver.current_send is Some && after_step(driver, step).current_send
            != driver.current_send ==> {
            &&& driver.unwritten().len() == 0
            &&& step.answer is Ready
            &&& after_step(driver, step).current_send is None
        },
{
}

/// To take up a message a second time changes nothing.
pub proof fn loading_is_idempotent(driver: DriverView)
    ensures
        driver.loaded().loaded() == driver.loaded(),
{
}

/// It does not matter in how many pieces bytes are read before the core sees them.
pub proof fn reads_add_up(driver: DriverView, a: Seq<u8>, b: Seq<u8>)
    ensures
        driver.received(a).received(b) == driver.received(a + b),
{
    assert(driver.received(a).received(b).current_read =~= driver.received(a + b).current_read);
}

/// The reader gets all the events of the core, in their order and behind those it
/// has not taken yet, and gets none twice.
pub proof fn events_are_relayed_once(driver: DriverView)
    ensures
        driver.relayed().core_events == driver.core_events + driver.core.events,
        driver.relayed().relayed() == driver.relayed(),
{
    assert(driver.relayed().relayed().core_events =~= driver.relayed().core_events);
}

/// At the end of the stream the driver is done and the reader is woken, whatever
/// the turn did. What is there for the reader stays there.
pub proof fn end_of_stream_finishes(driver: DriverView, progress: bool, moved: bool)
    ensures
        driver.ended().turn(progress, moved).outcome is Finished,
        driver.ended().turn(progress, moved).wake_reader,
        driver.ended().core_events == driver.core_events,
        driver.ended().relayed().core_events == driver.core_events + driver.core.events,
{
}

/// A driver that is not done waits only after a turn that did nothing.
pub proof fn driver_waits_only_when_idle(driver: DriverView, progress: bool, moved: bool)
    requires
        !driver.closed,
    ensures
        driver.turn(progress, moved).outcome is Park <==> !progress,
        driver.turn(progress, moved).outcome is Again <==> progress,
        driver.turn(progress, moved).wake_reader == moved,
{
}

/// Commands, writing and relaying keep the driver well-formed.
pub proof fn turns_keep_wf(driver: DriverView, n: nat)
    requires
        driver.wf(),
    ensures
        driver.obeyed().wf(),
        driver.loaded().wf(),
        driver.written(n).wf(),
        driver.flushed().wf(),
        driver.ended().wf(),
        driver.relayed().wf(),
{
}

/// The core sees all the bytes that were read, in their order and behind those it
/// has, and sees them once.
pub proof fn reads_reach_the_core(
    driver: DriverView,
    a: Seq<u8>,
    b: Seq<u8>,
    draws: Seq<Option<Seq<u8>>>,
)
    requires
        driver.current_read.len() == 0,
    ensures
        ({
            let (r, after) = driver.received(a).received(b).digested(draws);
            let start = CoreView { data: driver.core.data + a + b, ..driver.core };
            &&& r is Ok <==> start.run(draws).0 is Ok
            &&& after.core == start.run(draws).1
            &&& after.current_read.len() == 0
            &&& after.core_events == driver.core_events
            &&& after.current_send == driver.current_send
            &&& after.send_offset == driver.send_offset
            &&& after.commands == driver.commands
            &&& after.closed == driver.closed
        }),
{
    reads_add_up(driver, a, b);
    assert(driver.current_read + (a + b) =~= a + b);
    assert(driver.core.data + (a + b) =~= driver.core.data + a + b);
}

} // verus!
