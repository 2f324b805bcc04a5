//! The receiving side of a transfer.
//!
//! A receiver takes a file from the operator, binds a listener, takes one
//! connection, gathers what arrives until the peer closes the connection,
//! tells the operator the size, writes every byte to the file and reports
//! completion. Nothing is written before the connection has ended, and the
//! first failure ends the run.

use vstd::prelude::*;
use crate::endpoint::Endpoint;
use crate::exchange::{Action, ActionView, Event, EventView, Fault, FaultView};
use crate::notice::{Notice, NoticeView};

verus! {

/// How far a receiving run has come.
#[derive(Debug, PartialEq, Eq)]
pub enum ReceiveState {
    /// The operator is being asked for the destination file.
    AwaitingFile,
    /// The listener is being bound.
    Binding,
    /// The one inbound connection is being waited for.
    Accepting,
    /// The connection is being read; `buffer` holds what has arrived.
    Receiving { buffer: Vec<u8> },
    /// The connection has ended and the size is being shown.
    Announcing { buffer: Vec<u8> },
    /// The bytes are being written to the file.
    Storing,
    /// Completion is being shown.
    Concluding,
    /// The run is complete.
    Finished,
    /// The run was given up.
    Aborted,
}

/// A [`ReceiveState`] with its buffer as a sequence of bytes.
pub enum ReceiveStateView {
    AwaitingFile,
    Binding,
    Accepting,
    Receiving { buffer: Seq<u8> },
    Announcing { buffer: Seq<u8> },
    Storing,
    Concluding,
    Finished,
    Aborted,
}

impl View for ReceiveState {
    type V = ReceiveStateView;

    open spec fn view(&self) -> ReceiveStateView {
        match *self {
            ReceiveState::AwaitingFile => ReceiveStateView::AwaitingFile,
            ReceiveState::Binding => ReceiveStateView::Binding,
            ReceiveState::Accepting => ReceiveStateView::Accepting,
            ReceiveState::Receiving { buffer } => ReceiveStateView::Receiving { buffer: buffer@ },
            ReceiveState::Announcing { buffer } => ReceiveStateView::Announcing {
                buffer: buffer@,
            },
            ReceiveState::Storing => ReceiveStateView::Storing,
            ReceiveState::Concluding => ReceiveStateView::Concluding,
            ReceiveState::Finished => ReceiveStateView::Finished,
            ReceiveState::Aborted => ReceiveStateView::Aborted,
        }
    }
}

/// How a receiving run begins: with the request for the destination file.
pub open spec fn receive_start() -> (ReceiveStateView, ActionView) {
    (ReceiveStateView::AwaitingFile, ActionView::AcquireFile)
}

/// One step of a receiving run: the state that follows `state` on `event`,
/// and the action issued.
///
/// A run that has ended stays as it is. A failure gives the run up, whatever
/// it was doing and whatever had arrived. While the connection is read, each
/// arrival is added to the end of what came before and more is asked for;
/// only the end of the stream moves the run on. Otherwise the event that ends
/// the step in progress moves the run on by one step, and any other event
/// gives it up.
pub open spec fn receive_step(state: ReceiveStateView, event: EventView) -> (
    ReceiveStateView,
    ActionView,
) {
    match (state, event) {
        (ReceiveStateView::Finished, _) => (ReceiveStateView::Finished, ActionView::Halt),
        (ReceiveStateView::Aborted, _) => (ReceiveStateView::Aborted, ActionView::Halt),
        (_, EventView::Failed(text)) => (
            ReceiveStateView::Aborted,
            ActionView::Abort(FaultView::Io(text)),
        ),
        (ReceiveStateView::AwaitingFile, EventView::FileReady) => (
            ReceiveStateView::Binding,
            ActionView::Bind(Endpoint::any_interface()),
        ),
        (ReceiveStateView::Binding, EventView::Bound) => (
            ReceiveStateView::Accepting,
            ActionView::Accept,
        ),
        (ReceiveStateView::Accepting, EventView::Accepted) => (
            ReceiveStateView::Receiving { buffer: Seq::empty() },
            ActionView::Receive,
        ),
        (ReceiveStateView::Receiving { buffer }, EventView::Data(bytes)) => (
            ReceiveStateView::Receiving { buffer: buffer + bytes },
            ActionView::Receive,
        ),
        (ReceiveStateView::Receiving { buffer }, EventView::EndOfStream) => (
            ReceiveStateView::Announcing { buffer },
            ActionView::Report(NoticeView::Received(buffer.len())),
        ),
        (ReceiveStateView::Announcing { buffer }, EventView::Reported) => (
            ReceiveStateView::Storing,
            ActionView::Store(buffer),
        ),
        (ReceiveStateView::Storing, EventView::Stored) => (
            ReceiveStateView::Concluding,
            ActionView::Report(NoticeView::Done),
        ),
        (ReceiveStateView::Concluding, EventView::Reported) => (
            ReceiveStateView::Finished,
            ActionView::Finish,
        ),
        _ => (ReceiveStateView::Aborted, ActionView::Abort(FaultView::OutOfTurn)),
    }
}

/// Where a run that stands at `state` is after `events`, and the actions it
/// issued on the way, one for each event.
pub open spec fn receive_from(state: ReceiveStateView, events: Seq<EventView>) -> (
    ReceiveStateView,
    Seq<ActionView>,
)
    decreases events.len(),
{
    if events.len() == 0 {
        (state, Seq::empty())
    } else {
        let (next, action) = receive_step(state, events[0]);
        let (last, actions) = receive_from(next, events.drop_first());
        (last, seq![action] + actions)
    }
}

/// A whole receiving run: where it is after `events`, and every action it
/// issued, the opening one first.
pub open spec fn receive_run(events: Seq<EventView>) -> (ReceiveStateView, Seq<ActionView>) {
    let (last, actions) = receive_from(receive_start().0, events);
    (last, seq![receive_start().1] + actions)
}

impl ReceiveState {
    /// Begins a receiving run.
    pub fn start() -> (begun: (ReceiveState, Action))
        ensures
            (begun.0@, begun.1@) == receive_start(),
    {
        (ReceiveState::AwaitingFile, Action::AcquireFile)
    }

    /// Whether the run has ended, complete or given up.
    pub fn is_over(&self) -> (over: bool)
        ensures
            over == (self@ is Finished || self@ is Aborted),
    {
        match self {
            ReceiveState::Finished => true,
            ReceiveState::Aborted => true,
            _ => false,
        }
    }
}

/// Moves a receiving run on by one event and says what to do next.
pub fn run_receiver(state: ReceiveState, event: Event) -> (next: (ReceiveState, Action))
    ensures
        (next.0@, next.1@) == receive_step(state@, event@),
{
    match (state, event) {
        (ReceiveState::Finished, _) => (ReceiveState::Finished, Action::Halt),
        (ReceiveState::Aborted, _) => (ReceiveState::Aborted, Action::Halt),
        (_, Event::Failed(text)) => (ReceiveState::Aborted, Action::Abort(Fault::Io(text))),
        (ReceiveState::AwaitingFile, Event::FileReady) => (
            ReceiveState::Binding,
            Action::Bind(Endpoint::listening()),
        ),
        (ReceiveState::Binding, Event::Bound) => (ReceiveState::Accepting, Action::Accept),
        (ReceiveState::Accepting, Event::Accepted) => (
            ReceiveState::Receiving { buffer: Vec::new() },
            Action::Receive,
        ),
        (ReceiveState::Receiving { buffer }, Event::Data(bytes)) => {
            let mut buffer = buffer;
            let mut bytes = bytes;
            buffer.append(&mut bytes);
            (ReceiveState::Receiving { buffer }, Action::Receive)
        },
        (ReceiveState::Receiving { buffer }, Event::EndOfStream) => {
            let count = buffer.len();
            (ReceiveState::Announcing { buffer }, Action::Report(Notice::Received(count)))
        },
        (ReceiveState::Announcing { buffer }, Event::Reported) => (
            ReceiveState::Storing,
            Action::Store(buffer),
        ),
        (ReceiveState::Storing, Event::Stored) => (
            ReceiveState::Concluding,
            Action::Report(Notice::Done),
        ),
        (ReceiveState::Concluding, Event::Reported) => (ReceiveState::Finished, Action::Finish),
        _ => (ReceiveState::Aborted, Action::Abort(Fault::OutOfTurn)),
    }
}

/// The events that report `chunks` arriving one after the other.
pub open spec fn arrivals(chunks: Seq<Seq<u8>>) -> Seq<EventView> {
    Seq::new(chunks.len(), |i: int| EventView::Data(chunks[i]))
}

/// The events of a receiving run up to the point where `chunks` have
/// arrived and the peer has not yet closed the connection.
pub open spec fn receiving_prefix(chunks: Seq<Seq<u8>>) -> Seq<EventView> {
    seq![EventView::FileReady, EventView::Bound, EventView::Accepted] + arrivals(chunks)
}

/// The events of a receiving run in which every step succeeds and the
/// payload arrives cut into `chunks`.
pub open spec fn receiving_script(chunks: Seq<Seq<u8>>) -> Seq<EventView> {
    receiving_prefix(chunks) + seq![
        EventView::EndOfStream,
        EventView::Reported,
        EventView::Stored,
        EventView::Reported,
    ]
}

/// How far a run has come, as a number that no step lowers.
spec fn receive_progress(state: ReceiveStateView) -> int {
    match state {
        ReceiveStateView::AwaitingFile => 0,
        ReceiveStateView::Binding => 1,
        ReceiveStateView::Accepting => 2,
        ReceiveStateView::Receiving { .. } => 3,
        ReceiveStateView::Announcing { .. } => 4,
        ReceiveStateView::Storing => 5,
        ReceiveStateView::Concluding => 6,
        ReceiveStateView::Finished => 7,
        ReceiveStateView::Aborted => 7,
    }
}

proof fn lemma_receive_from_len(state: ReceiveStateView, events: Seq<EventView>)
    ensures
        receive_from(state, events).1.len() == events.len(),
    decreases events.len(),
{
    if events.len() > 0 {
        lemma_receive_from_len(receive_step(state, events[0]).0, events.drop_first());
    }
}

proof fn lemma_receive_from_append(
    state: ReceiveStateView,
    first: Seq<EventView>,
    second: Seq<EventView>,
)
    ensures
        receive_from(state, first + second).0 == receive_from(
            receive_from(state, first).0,
            second,
        ).0,
        receive_from(state, first + second).1 == receive_from(state, first).1 + receive_from(
            receive_from(state, first).0,
            second,
        ).1,
    decreases first.len(),
{
    if first.len() == 0 {
        assert(first + second =~= second);
    } else {
        let next = receive_step(state, first[0]).0;
        assert((first + second).drop_first() =~= first.drop_first() + second);
        lemma_receive_from_append(next, first.drop_first(), second);
    }
}

proof fn lemma_receive_over_stays(state: ReceiveStateView, events: Seq<EventView>)
    requires
        state is Finished || state is Aborted,
    ensures
        receive_from(state, events).0 == state,
        receive_from(state, events).1.len() == events.len(),
        forall|i: int|
            0 <= i < events.len() ==> #[trigger] receive_from(state, events).1[i]
                == ActionView::Halt,
    decreases events.len(),
{
    if events.len() > 0 {
        let rest = events.drop_first();
        lemma_receive_over_stays(state, rest);
        assert forall|i: int| 0 <= i < events.len() implies #[trigger] receive_from(
            state,
            events,
        ).1[i] == ActionView::Halt by {
            if i > 0 {
                assert(receive_from(state, rest).1[i - 1] == ActionView::Halt);
            }
        }
    }
}

proof fn lemma_gathers(buffer: Seq<u8>, chunks: Seq<Seq<u8>>)
    ensures
        receive_from(ReceiveStateView::Receiving { buffer }, arrivals(chunks)).0
            == (ReceiveStateView::Receiving { buffer: buffer + chunks.flatten() }),
        receive_from(ReceiveStateView::Receiving { buffer }, arrivals(chunks)).1 == Seq::new(
            chunks.len(),
            |i: int| ActionView::Receive,
        ),
    decreases chunks.len(),
{
    let state = ReceiveStateView::Receiving { buffer };
    if chunks.len() == 0 {
        assert(buffer + chunks.flatten() =~= buffer);
        assert(receive_from(state, arrivals(chunks)).1 =~= Seq::new(
            chunks.len(),
            |i: int| ActionView::Receive,
        ));
    } else {
        let rest = chunks.drop_first();
        assert(arrivals(chunks).drop_first() =~= arrivals(rest));
        lemma_gathers(buffer + chunks[0], rest);
        assert((buffer + chunks[0]) + rest.flatten() =~= buffer + chunks.flatten());
        assert(receive_from(state, arrivals(chunks)).1 =~= Seq::new(
            chunks.len(),
            |i: int| ActionView::Receive,
        ));
    }
}

proof fn lemma_receive_order(state: ReceiveStateView, events: Seq<EventView>)
    ensures
        forall|i: int|
            0 <= i < events.len() ==> {
                let action = #[trigger] receive_from(state, events).1[i];
                &&& action is Bind ==> receive_progress(state) <= 0
                &&& action is Accept ==> receive_progress(state) <= 1
                &&& action is Store ==> receive_progress(state) <= 4
                &&& !(action is AcquireFile)
                &&& !(action is ReadFile)
                &&& !(action is AcquireAddress)
                &&& !(action is Connect)
                &&& !(action is Transmit)
                &&& !(action is Disconnect)
            },
        forall|i: int, j: int|
            0 <= i < j < events.len() ==> {
                let first = #[trigger] receive_from(state, events).1[i];
                let second = #[trigger] receive_from(state, events).1[j];
                &&& !(first is Bind && second is Bind)
                &&& !(first is Accept && second is Accept)
                &&& !(first is Store && second is Store)
            },
    decreases events.len(),
{
    lemma_receive_from_len(state, events);
    if events.len() > 0 {
        let (next, action) = receive_step(state, events[0]);
        let rest = events.drop_first();
        let actions = receive_from(state, events).1;
        let later = receive_from(next, rest).1;
        lemma_receive_order(next, rest);
        lemma_receive_from_len(next, rest);
        assert(actions == seq![action] + later);
        assert forall|i: int| 0 <= i < events.len() implies {
            let action = #[trigger] receive_from(state, events).1[i];
            &&& action is Bind ==> receive_progress(state) <= 0
            &&& action is Accept ==> receive_progress(state) <= 1
            &&& action is Store ==> receive_progress(state) <= 4
            &&& !(action is AcquireFile)
            &&& !(action is ReadFile)
            &&& !(action is AcquireAddress)
            &&& !(action is Connect)
            &&& !(action is Transmit)
            &&& !(action is Disconnect)
        } by {
            if i > 0 {
                assert(actions[i] == later[i - 1]);
            }
        }
        assert forall|i: int, j: int| 0 <= i < j < events.len() implies {
            let first = #[trigger] receive_from(state, events).1[i];
            let second = #[trigger] receive_from(state, events).1[j];
            &&& !(first is Bind && second is Bind)
            &&& !(first is Accept && second is Accept)
            &&& !(first is Store && second is Store)
        } by {
            assert(actions[j] == later[j - 1]);
            if i > 0 {
                assert(actions[i] == later[i - 1]);
            }
        }
    }
}

proof fn lemma_waits(state: ReceiveStateView, events: Seq<EventView>)
    requires
        receive_progress(state) <= 3 || state is Aborted,
        forall|i: int| 0 <= i < events.len() ==> !(#[trigger] events[i] is EndOfStream),
    ensures
        receive_progress(receive_from(state, events).0) <= 3 || receive_from(state, events).0
            is Aborted,
        forall|i: int|
            0 <= i < events.len() ==> {
                let action = #[trigger] receive_from(state, events).1[i];
                !(action is Store) && !(action is Report) && !(action is Finish)
            },
    decreases events.len(),
{
    lemma_receive_from_len(state, events);
    if events.len() > 0 {
        let (next, action) = receive_step(state, events[0]);
        let rest = events.drop_first();
        let actions = receive_from(state, events).1;
        let later = receive_from(next, rest).1;
        assert(!(events[0] is EndOfStream));
        assert forall|i: int| 0 <= i < rest.len() implies !(#[trigger] rest[i] is EndOfStream) by {
            assert(rest[i] == events[i + 1]);
        }
        lemma_waits(next, rest);
        lemma_receive_from_len(next, rest);
        assert(actions == seq![action] + later);
        assert forall|i: int| 0 <= i < events.len() implies {
            let action = #[trigger] receive_from(state, events).1[i];
            !(action is Store) && !(action is Report) && !(action is Finish)
        } by {
            if i > 0 {
                assert(actions[i] == later[i - 1]);
            }
        }
    }
}

/// While the peer keeps the connection open the receiver gathers: after
/// `chunks` have arrived, however many and however cut, it holds their
/// concatenation in arrival order, has asked for more after each of them, and
/// has written nothing.
pub proof fn gathers_while_the_stream_is_open(chunks: Seq<Seq<u8>>)
    ensures
        ({
            let (state, actions) = receive_run(receiving_prefix(chunks));
            &&& state == ReceiveStateView::Receiving { buffer: chunks.flatten() }
            &&& actions.len() == 4 + chunks.len()
            &&& forall|i: int| 3 <= i < actions.len() ==> actions[i] == ActionView::Receive
            &&& forall|i: int| 0 <= i < actions.len() ==> !(actions[i] is Store)
        }),
{
    let start = receive_start().0;
    let opening = seq![EventView::FileReady, EventView::Bound, EventView::Accepted];
    let empty = Seq::<u8>::empty();
    reveal_with_fuel(receive_from, 4);
    let o1 = opening.drop_first();
    let o2 = o1.drop_first();
    let o3 = o2.drop_first();
    assert(o3.len() == 0);
    assert(receive_from(start, opening).0 == ReceiveStateView::Receiving { buffer: empty });
    assert(receive_from(start, opening).1 =~= seq![
        ActionView::Bind(Endpoint::any_interface()),
        ActionView::Accept,
        ActionView::Receive,
    ]);
    lemma_receive_from_append(start, opening, arrivals(chunks));
    lemma_gathers(empty, chunks);
    assert(empty + chunks.flatten() =~= chunks.flatten());
    let actions = receive_run(receiving_prefix(chunks)).1;
    assert(actions =~= seq![
        ActionView::AcquireFile,
        ActionView::Bind(Endpoint::any_interface()),
        ActionView::Accept,
        ActionView::Receive,
    ] + Seq::new(chunks.len(), |i: int| ActionView::Receive));
}

/// Only the end of the stream lets a receiver go on. Whatever else is
/// reported to it, as long as the end of the stream is not, it writes
/// nothing to the file, announces nothing and does not finish.
pub proof fn waits_for_the_end_of_the_stream(events: Seq<EventView>)
    requires
        forall|i: int| 0 <= i < events.len() ==> !(#[trigger] events[i] is EndOfStream),
    ensures
        ({
            let (state, actions) = receive_run(events);
            &&& !(state is Finished)
            &&& forall|i: int|
                0 <= i < actions.len() ==> {
                    let action = #[trigger] actions[i];
                    !(action is Store) && !(action is Report) && !(action is Finish)
                }
        }),
{
    let start = receive_start().0;
    let issued = receive_from(start, events).1;
    let actions = receive_run(events).1;
    lemma_receive_from_len(start, events);
    lemma_waits(start, events);
    assert(actions == seq![ActionView::AcquireFile] + issued);
    assert forall|i: int| 0 <= i < actions.len() implies {
        let action = #[trigger] actions[i];
        !(action is Store) && !(action is Report) && !(action is Finish)
    } by {
        if i > 0 {
            assert(actions[i] == issued[i - 1]);
        }
    }
}

/// A run in which every step succeeds ends complete, and issues these
/// actions and no others, in this order: the file is asked for, the listener
/// is bound to port 526 on every interface, one connection is taken, what
/// arrives is read until the stream ends, the size is shown, the
/// concatenation of all that arrived is written to the file, and completion
/// is shown.
pub proof fn receiving_completes(chunks: Seq<Seq<u8>>)
    ensures
        receive_run(receiving_script(chunks)) == (
            ReceiveStateView::Finished,
            seq![
                ActionView::AcquireFile,
                ActionView::Bind(Endpoint::any_interface()),
                ActionView::Accept,
                ActionView::Receive,
            ] + Seq::new(chunks.len(), |i: int| ActionView::Receive) + seq![
                ActionView::Report(NoticeView::Received(chunks.flatten().len())),
                ActionView::Store(chunks.flatten()),
                ActionView::Report(NoticeView::Done),
                ActionView::Finish,
            ],
        ),
{
    let start = receive_start().0;
    let closing = seq![
        EventView::EndOfStream,
        EventView::Reported,
        EventView::Stored,
        EventView::Reported,
    ];
    let gathered = ReceiveStateView::Receiving { buffer: chunks.flatten() };
    gathers_while_the_stream_is_open(chunks);
    lemma_receive_from_append(start, receiving_prefix(chunks), closing);
    reveal_with_fuel(receive_from, 5);
    let c1 = closing.drop_first();
    let c2 = c1.drop_first();
    let c3 = c2.drop_first();
    let c4 = c3.drop_first();
    assert(c4.len() == 0);
    assert(receive_from(gathered, closing).0 is Finished);
    assert(receive_from(gathered, closing).1 =~= seq![
        ActionView::Report(NoticeView::Received(chunks.flatten().len())),
        ActionView::Store(chunks.flatten()),
        ActionView::Report(NoticeView::Done),
        ActionView::Finish,
    ]);
    let before = receive_run(receiving_prefix(chunks)).1;
    assert(before =~= seq![
        ActionView::AcquireFile,
        ActionView::Bind(Endpoint::any_interface()),
        ActionView::Accept,
        ActionView::Receive,
    ] + Seq::new(chunks.len(), |i: int| ActionView::Receive));
    assert(receive_run(receiving_script(chunks)).1 =~= before + receive_from(gathered, closing).1);
}

/// The bytes that `events` report as arrived on the connection, in order.
pub open spec fn arrived(events: Seq<EventView>) -> Seq<u8>
    decreases events.len(),
{
    if events.len() == 0 {
        Seq::empty()
    } else {
        let rest = arrived(events.drop_first());
        match events[0] {
            EventView::Data(bytes) => bytes + rest,
            _ => rest,
        }
    }
}

/// What a run has gathered, while it holds it.
spec fn gathered(state: ReceiveStateView) -> Option<Seq<u8>> {
    match state {
        ReceiveStateView::AwaitingFile => Some(Seq::empty()),
        ReceiveStateView::Binding => Some(Seq::empty()),
        ReceiveStateView::Accepting => Some(Seq::empty()),
        ReceiveStateView::Receiving { buffer } => Some(buffer),
        ReceiveStateView::Announcing { buffer } => Some(buffer),
        _ => None,
    }
}

proof fn lemma_stores_what_it_gathered(state: ReceiveStateView, events: Seq<EventView>)
    ensures
        forall|i: int|
            0 <= i < events.len() ==> {
                let action = #[trigger] receive_from(state, events).1[i];
                action matches ActionView::Store(bytes) ==> gathered(state) is Some && bytes
                    == gathered(state)->0 + arrived(events.take(i))
            },
    decreases events.len(),
{
    lemma_receive_from_len(state, events);
    if events.len() > 0 {
        let (next, action) = receive_step(state, events[0]);
        let rest = events.drop_first();
        let actions = receive_from(state, events).1;
        let later = receive_from(next, rest).1;
        lemma_stores_what_it_gathered(next, rest);
        lemma_receive_from_len(next, rest);
        assert(actions == seq![action] + later);
        assert forall|i: int| 0 <= i < events.len() implies {
            let action = #[trigger] receive_from(state, events).1[i];
            action matches ActionView::Store(bytes) ==> gathered(state) is Some && bytes
                == gathered(state)->0 + arrived(events.take(i))
        } by {
            if i == 0 {
                assert(events.take(0).len() == 0);
                if let ActionView::Store(bytes) = action {
                    assert(bytes =~= gathered(state)->0 + arrived(events.take(0)));
                }
            } else {
                assert(actions[i] == later[i - 1]);
                assert(events.take(i).drop_first() =~= rest.take(i - 1));
                assert(events.take(i)[0] == events[0]);
                if let ActionView::Store(bytes) = later[i - 1] {
                    assert(bytes =~= gathered(state)->0 + arrived(events.take(i)));
                }
            }
        }
    }
}

/// What is written is what arrived. Whatever is reported to a receiver, if it
/// writes to the file, the bytes it writes are all the bytes that had arrived
/// on the connection by then, in the order of their arrival.
pub proof fn receiver_stores_what_arrived(events: Seq<EventView>)
    ensures
        forall|i: int|
            0 <= i < receive_run(events).1.len() ==> {
                let action = #[trigger] receive_run(events).1[i];
                action matches ActionView::Store(bytes) ==> bytes == arrived(events.take(i - 1))
            },
{
    let start = receive_start().0;
    let issued = receive_from(start, events).1;
    let actions = receive_run(events).1;
    lemma_receive_from_len(start, events);
    lemma_stores_what_it_gathered(start, events);
    assert(actions == seq![ActionView::AcquireFile] + issued);
    assert forall|i: int| 0 <= i < actions.len() implies {
        let action = #[trigger] receive_run(events).1[i];
        action matches ActionView::Store(bytes) ==> bytes == arrived(events.take(i - 1))
    } by {
        if i > 0 {
            assert(actions[i] == issued[i - 1]);
            if let ActionView::Store(bytes) = issued[i - 1] {
                assert(bytes =~= Seq::<u8>::empty() + arrived(events.take(i - 1)));
            }
        }
    }
}

/// The first failure ends the run. Let a receiver that has not ended be told of
/// a failure, after any events and before any others. Then it gives the run
/// up with the error it was told, what it did before stands as it was, and
/// whatever is reported afterwards it only halts: nothing is tried again.
pub proof fn receiving_failure_is_fatal(
    before: Seq<EventView>,
    error: Seq<char>,
    later: Seq<EventView>,
)
    requires
        !(receive_run(before).0 is Finished),
        !(receive_run(before).0 is Aborted),
    ensures
        ({
            let (last, actions) = receive_run(before + seq![EventView::Failed(error)] + later);
            let told = before.len() as int;
            &&& last is Aborted
            &&& actions.len() == before.len() + 2 + later.len()
            &&& actions.take(told + 1) == receive_run(before).1
            &&& actions[told + 1] == ActionView::Abort(FaultView::Io(error))
            &&& forall|i: int|
                told + 2 <= i < actions.len() ==> actions[i] == ActionView::Halt
        }),
{
    let start = receive_start().0;
    let failure = seq![EventView::Failed(error)];
    let reached = receive_from(start, before).0;
    lemma_receive_from_append(start, before + failure, later);
    lemma_receive_from_append(start, before, failure);
    lemma_receive_from_len(start, before);
    reveal_with_fuel(receive_from, 2);
    assert(failure.drop_first().len() == 0);
    assert(receive_from(reached, failure).0 is Aborted);
    assert(receive_from(reached, failure).1 =~= seq![ActionView::Abort(FaultView::Io(error))]);
    lemma_receive_over_stays(ReceiveStateView::Aborted, later);
    let halts = receive_from(ReceiveStateView::Aborted, later).1;
    let actions = receive_run(before + failure + later).1;
    assert(actions =~= receive_run(before).1 + seq![ActionView::Abort(FaultView::Io(error))] + halts);
    assert(actions.take(before.len() as int + 1) =~= receive_run(before).1);
    assert forall|i: int| before.len() + 2 <= i < actions.len() implies actions[i]
        == ActionView::Halt by {
        assert(actions[i] == halts[i - before.len() - 2]);
    }
}

/// Whatever is reported to it, a receiver asks for one file and only at the
/// start, binds at most one listener, takes at most one connection from it,
/// writes to the file at most once, and never opens a connection of its own,
/// writes to one or reads the file.
pub proof fn receiver_takes_one_connection(events: Seq<EventView>)
    ensures
        ({
            let actions = receive_run(events).1;
            &&& actions.len() == 1 + events.len()
            &&& actions[0] is AcquireFile
            &&& forall|i: int| 1 <= i < actions.len() ==> !(#[trigger] actions[i] is AcquireFile)
            &&& forall|i: int, j: int|
                0 <= i < j < actions.len() ==> !(#[trigger] actions[i] is Bind
                    && #[trigger] actions[j] is Bind)
            &&& forall|i: int, j: int|
                0 <= i < j < actions.len() ==> !(#[trigger] actions[i] is Accept
                    && #[trigger] actions[j] is Accept)
            &&& forall|i: int, j: int|
                0 <= i < j < actions.len() ==> !(#[trigger] actions[i] is Store
                    && #[trigger] actions[j] is Store)
            &&& forall|i: int|
                0 <= i < actions.len() ==> {
                    let action = #[trigger] actions[i];
                    !(action is Connect) && !(action is Transmit) && !(action is Disconnect)
                        && !(action is ReadFile) && !(action is AcquireAddress)
                }
        }),
{
    let start = receive_start().0;
    let issued = receive_from(start, events).1;
    let actions = receive_run(events).1;
    lemma_receive_from_len(start, events);
    lemma_receive_order(start, events);
    assert(actions == seq![ActionView::AcquireFile] + issued);
    assert forall|i: int| 1 <= i < actions.len() implies actions[i] == issued[i - 1] by {}
    assert forall|i: int, j: int| 0 <= i < j < actions.len() implies {
        &&& actions[i] == (if i == 0 {
            ActionView::AcquireFile
        } else {
            issued[i - 1]
        })
        &&& actions[j] == issued[j - 1]
    } by {}
    assert forall|i: int| 0 <= i < actions.len() implies {
        let action = #[trigger] actions[i];
        !(action is Connect) && !(action is Transmit) && !(action is Disconnect) && !(action
            is ReadFile) && !(action is AcquireAddress)
    } by {
        if i > 0 {
            assert(actions[i] == issued[i - 1]);
        }
    }
}

} // verus!
