//! The sending side of a transfer.
//!
//! A sender takes a file from the operator, reads it whole into memory, tells
//! the operator its size, takes an address, connects, writes every byte,
//! closes the connection and reports completion. Nothing is sent before the
//! file is in memory, and the first failure ends the run.

use vstd::prelude::*;
use crate::endpoint::Endpoint;
use crate::exchange::{Action, ActionView, Event, EventView, Fault, FaultView};
use crate::notice::{Notice, NoticeView};

verus! {

/// How far a sending run has come.
#[derive(Debug, PartialEq, Eq)]
pub enum SendState {
    /// The operator is being asked for the source file.
    AwaitingFile,
    /// The source file is being read.
    Loading,
    /// The file is in memory and its size is being shown.
    Announcing { payload: Vec<u8> },
    /// The operator is being asked for the receiver's address.
    AwaitingAddress { payload: Vec<u8> },
    /// The connection is being opened.
    Connecting { payload: Vec<u8> },
    /// The payload is being written to the connection.
    Transmitting,
    /// The connection is being closed.
    Disconnecting,
    /// Completion is being shown.
    Concluding,
    /// The run is complete.
    Finished,
    /// The run was given up.
    Aborted,
}

/// A [`SendState`] with its payload as a sequence of bytes.
pub enum SendStateView {
    AwaitingFile,
    Loading,
    Announcing { payload: Seq<u8> },
    AwaitingAddress { payload: Seq<u8> },
    Connecting { payload: Seq<u8> },
    Transmitting,
    Disconnecting,
    Concluding,
    Finished,
    Aborted,
}

impl View for SendState {
    type V = SendStateView;

    open spec fn view(&self) -> SendStateView {
        match *self {
            SendState::AwaitingFile => SendStateView::AwaitingFile,
            SendState::Loading => SendStateView::Loading,
            SendState::Announcing { payload } => SendStateView::Announcing { payload: payload@ },
            SendState::AwaitingAddress { payload } => SendStateView::AwaitingAddress {
                payload: payload@,
            },
            SendState::Connecting { payload } => SendStateView::Connecting { payload: payload@ },
            SendState::Transmitting => SendStateView::Transmitting,
            SendState::Disconnecting => SendStateView::Disconnecting,
            SendState::Concluding => SendStateView::Concluding,
            SendState::Finished => SendStateView::Finished,
            SendState::Aborted => SendStateView::Aborted,
        }
    }
}

/// How a sending run begins: with the request for the source file.
pub open spec fn send_start() -> (SendStateView, ActionView) {
    (SendStateView::AwaitingFile, ActionView::AcquireFile)
}

/// One step of a sending run: the state that follows `state` on `event`, and
/// the action issued.
///
/// A run that has ended stays as it is. A failure gives the run up, whatever
/// it was doing. Otherwise the event that ends the step in progress moves the
/// run on by one step, and any other event gives it up.
pub open spec fn send_step(state: SendStateView, event: EventView) -> (SendStateView, ActionView) {
    match (state, event) {
        (SendStateView::Finished, _) => (SendStateView::Finished, ActionView::Halt),
        (SendStateView::Aborted, _) => (SendStateView::Aborted, ActionView::Halt),
        (_, EventView::Failed(text)) => (
            SendStateView::Aborted,
            ActionView::Abort(FaultView::Io(text)),
        ),
        (SendStateView::AwaitingFile, EventView::FileReady) => (
            SendStateView::Loading,
            ActionView::ReadFile,
        ),
        (SendStateView::Loading, EventView::Contents(bytes)) => (
            SendStateView::Announcing { payload: bytes },
            ActionView::Report(NoticeView::Sending(bytes.len())),
        ),
        (SendStateView::Announcing { payload }, EventView::Reported) => (
            SendStateView::AwaitingAddress { payload },
            ActionView::AcquireAddress,
        ),
        (SendStateView::AwaitingAddress { payload }, EventView::AddressReady(endpoint)) => (
            SendStateView::Connecting { payload },
            ActionView::Connect(endpoint),
        ),
        (SendStateView::Connecting { payload }, EventView::Connected) => (
            SendStateView::Transmitting,
            ActionView::Transmit(payload),
        ),
        (SendStateView::Transmitting, EventView::Transmitted) => (
            SendStateView::Disconnecting,
            ActionView::Disconnect,
        ),
        (SendStateView::Disconnecting, EventView::Disconnected) => (
            SendStateView::Concluding,
            ActionView::Report(NoticeView::Done),
        ),
        (SendStateView::Concluding, EventView::Reported) => (
            SendStateView::Finished,
            ActionView::Finish,
        ),
        _ => (SendStateView::Aborted, ActionView::Abort(FaultView::OutOfTurn)),
    }
}

/// Where a run that stands at `state` is after `events`, and the actions it
/// issued on the way, one for each event.
pub open spec fn send_from(state: SendStateView, events: Seq<EventView>) -> (
    SendStateView,
    Seq<ActionView>,
)
    decreases events.len(),
{
    if events.len() == 0 {
        (state, Seq::empty())
    } else {
        let (next, action) = send_step(state, events[0]);
        let (last, actions) = send_from(next, events.drop_first());
        (last, seq![action] + actions)
    }
}

/// A whole sending run: where it is after `events`, and every action it
/// issued, the opening one first.
pub open spec fn send_run(events: Seq<EventView>) -> (SendStateView, Seq<ActionView>) {
    let (last, actions) = send_from(send_start().0, events);
    (last, seq![send_start().1] + actions)
}

impl SendState {
    /// Begins a sending run.
    pub fn start() -> (begun: (SendState, Action))
        ensures
            (begun.0@, begun.1@) == send_start(),
    {
        (SendState::AwaitingFile, Action::AcquireFile)
    }

    /// Whether the run has ended, complete or given up.
    pub fn is_over(&self) -> (over: bool)
        ensures
            over == (self@ is Finished || self@ is Aborted),
    {
        match self {
            SendState::Finished => true,
            SendState::Aborted => true,
            _ => false,
        }
    }
}

/// Moves a sending run on by one event and says what to do next.
pub fn run_sender(state: SendState, event: Event) -> (next: (SendState, Action))
    ensures
        (next.0@, next.1@) == send_step(state@, event@),
{
    match (state, event) {
        (SendState::Finished, _) => (SendState::Finished, Action::Halt),
        (SendState::Aborted, _) => (SendState::Aborted, Action::Halt),
        (_, Event::Failed(text)) => (SendState::Aborted, Action::Abort(Fault::Io(text))),
        (SendState::AwaitingFile, Event::FileReady) => (SendState::Loading, Action::ReadFile),
        (SendState::Loading, Event::Contents(bytes)) => {
            let count = bytes.len();
            (SendState::Announcing { payload: bytes }, Action::Report(Notice::Sending(count)))
        },
        (SendState::Announcing { payload }, Event::Reported) => (
            SendState::AwaitingAddress { payload },
            Action::AcquireAddress,
        ),
        (SendState::AwaitingAddress { payload }, Event::AddressReady(endpoint)) => (
            SendState::Connecting { payload },
            Action::Connect(endpoint),
        ),
        (SendState::Connecting { payload }, Event::Connected) => (
            SendState::Transmitting,
            Action::Transmit(payload),
        ),
        (SendState::Transmitting, Event::Transmitted) => (
            SendState::Disconnecting,
            Action::Disconnect,
        ),
        (SendState::Disconnecting, Event::Disconnected) => (
            SendState::Concluding,
            Action::Report(Notice::Done),
        ),
        (SendState::Concluding, Event::Reported) => (SendState::Finished, Action::Finish),
        _ => (SendState::Aborted, Action::Abort(Fault::OutOfTurn)),
    }
}

/// The events of a sending run in which every step succeeds: the file holds
/// `contents` and the address resolves to `endpoint`.
pub open spec fn sending_script(contents: Seq<u8>, endpoint: Endpoint) -> Seq<EventView> {
    seq![
        EventView::FileReady,
        EventView::Contents(contents),
        EventView::Reported,
        EventView::AddressReady(endpoint),
        EventView::Connected,
        EventView::Transmitted,
        EventView::Disconnected,
        EventView::Reported,
    ]
}

/// How far a run has come, as a number that no step lowers.
spec fn send_progress(state: SendStateView) -> int {
    match state {
        SendStateView::AwaitingFile => 0,
        SendStateView::Loading => 1,
        SendStateView::Announcing { .. } => 2,
        SendStateView::AwaitingAddress { .. } => 3,
        SendStateView::Connecting { .. } => 4,
        SendStateView::Transmitting => 5,
        SendStateView::Disconnecting => 6,
        SendStateView::Concluding => 7,
        SendStateView::Finished => 8,
        SendStateView::Aborted => 8,
    }
}

proof fn lemma_send_from_len(state: SendStateView, events: Seq<EventView>)
    ensures
        send_from(state, events).1.len() == events.len(),
    decreases events.len(),
{
    if events.len() > 0 {
        lemma_send_from_len(send_step(state, events[0]).0, events.drop_first());
    }
}

proof fn lemma_send_from_append(state: SendStateView, first: Seq<EventView>, second: Seq<EventView>)
    ensures
        send_from(state, first + second).0 == send_from(send_from(state, first).0, second).0,
        send_from(state, first + second).1 == send_from(state, first).1 + send_from(
            send_from(state, first).0,
            second,
        ).1,
    decreases first.len(),
{
    if first.len() == 0 {
        assert(first + second =~= second);
    } else {
        let next = send_step(state, first[0]).0;
        assert((first + second).drop_first() =~= first.drop_first() + second);
        lemma_send_from_append(next, first.drop_first(), second);
    }
}

proof fn lemma_send_over_stays(state: SendStateView, events: Seq<EventView>)
    requires
        state is Finished || state is Aborted,
    ensures
        send_from(state, events).0 == state,
        send_from(state, events).1.len() == events.len(),
        forall|i: int|
            0 <= i < events.len() ==> #[trigger] send_from(state, events).1[i] == ActionView::Halt,
    decreases events.len(),
{
    if events.len() > 0 {
        let rest = events.drop_first();
        lemma_send_over_stays(state, rest);
        assert forall|i: int| 0 <= i < events.len() implies #[trigger] send_from(
            state,
            events,
        ).1[i] == ActionView::Halt by {
            if i > 0 {
                assert(send_from(state, rest).1[i - 1] == ActionView::Halt);
            }
        }
    }
}

proof fn lemma_send_order(state: SendStateView, events: Seq<EventView>)
    ensures
        forall|i: int|
            0 <= i < events.len() ==> {
                let action = #[trigger] send_from(state, events).1[i];
                &&& action is Connect ==> send_progress(state) <= 3
                &&& action is Transmit ==> send_progress(state) <= 4
                &&& !(action is AcquireFile)
                &&& !(action is Store)
                &&& !(action is Bind)
                &&& !(action is Accept)
                &&& !(action is Receive)
            },
        forall|i: int, j: int|
            0 <= i < j < events.len() ==> {
                let first = #[trigger] send_from(state, events).1[i];
                let second = #[trigger] send_from(state, events).1[j];
                &&& !(first is Connect && second is Connect)
                &&& !(first is Transmit && second is Transmit)
            },
    decreases events.len(),
{
    lemma_send_from_len(state, events);
    if events.len() > 0 {
        let (next, action) = send_step(state, events[0]);
        let rest = events.drop_first();
        let actions = send_from(state, events).1;
        let later = send_from(next, rest).1;
        lemma_send_order(next, rest);
        lemma_send_from_len(next, rest);
        assert(actions == seq![action] + later);
        assert forall|i: int| 0 <= i < events.len() implies {
            let action = #[trigger] send_from(state, events).1[i];
            &&& action is Connect ==> send_progress(state) <= 3
            &&& action is Transmit ==> send_progress(state) <= 4
            &&& !(action is AcquireFile)
            &&& !(action is Store)
            &&& !(action is Bind)
            &&& !(action is Accept)
            &&& !(action is Receive)
        } by {
            if i > 0 {
                assert(actions[i] == later[i - 1]);
            }
        }
        assert forall|i: int, j: int| 0 <= i < j < events.len() implies {
            let first = #[trigger] send_from(state, events).1[i];
            let second = #[trigger] send_from(state, events).1[j];
            &&& !(first is Connect && second is Connect)
            &&& !(first is Transmit && second is Transmit)
        } by {
            assert(actions[j] == later[j - 1]);
            if i > 0 {
                assert(actions[i] == later[i - 1]);
            }
        }
    }
}

/// A run in which every step succeeds issues these actions and no others, in
/// this order, and ends complete: the file is asked for and read whole, its
/// size is shown, the address is asked for, the connection is opened to the
/// endpoint that was given, the file's bytes are written to it unchanged, the
/// connection is closed and completion is shown.
pub proof fn sending_completes(contents: Seq<u8>, endpoint: Endpoint)
    ensures
        send_run(sending_script(contents, endpoint)) == (
            SendStateView::Finished,
            seq![
                ActionView::AcquireFile,
                ActionView::ReadFile,
                ActionView::Report(NoticeView::Sending(contents.len())),
                ActionView::AcquireAddress,
                ActionView::Connect(endpoint),
                ActionView::Transmit(contents),
                ActionView::Disconnect,
                ActionView::Report(NoticeView::Done),
                ActionView::Finish,
            ],
        ),
{
    reveal_with_fuel(send_from, 10);
    let script = sending_script(contents, endpoint);
    let s1 = script.drop_first();
    let s2 = s1.drop_first();
    let s3 = s2.drop_first();
    let s4 = s3.drop_first();
    let s5 = s4.drop_first();
    let s6 = s5.drop_first();
    let s7 = s6.drop_first();
    let s8 = s7.drop_first();
    assert(s8.len() == 0);
    assert(send_run(script).1 =~= seq![
        ActionView::AcquireFile,
        ActionView::ReadFile,
        ActionView::Report(NoticeView::Sending(contents.len())),
        ActionView::AcquireAddress,
        ActionView::Connect(endpoint),
        ActionView::Transmit(contents),
        ActionView::Disconnect,
        ActionView::Report(NoticeView::Done),
        ActionView::Finish,
    ]);
}

/// The payload a run holds for sending, while it holds one.
spec fn held(state: SendStateView) -> Option<Seq<u8>> {
    match state {
        SendStateView::Announcing { payload } => Some(payload),
        SendStateView::AwaitingAddress { payload } => Some(payload),
        SendStateView::Connecting { payload } => Some(payload),
        _ => None,
    }
}

proof fn lemma_sends_what_it_holds(state: SendStateView, events: Seq<EventView>)
    ensures
        forall|i: int|
            0 <= i < events.len() ==> {
                let action = #[trigger] send_from(state, events).1[i];
                &&& action matches ActionView::Transmit(bytes) ==> held(state) == Some(bytes)
                    || exists|j: int| 0 <= j < i && #[trigger] events[j] == EventView::Contents(bytes)
                &&& (action is AcquireAddress || action is Connect) ==> held(state) is Some
                    || exists|j: int| 0 <= j < i && #[trigger] events[j] is Contents
            },
    decreases events.len(),
{
    lemma_send_from_len(state, events);
    if events.len() > 0 {
        let (next, action) = send_step(state, events[0]);
        let rest = events.drop_first();
        let actions = send_from(state, events).1;
        let later = send_from(next, rest).1;
        lemma_sends_what_it_holds(next, rest);
        lemma_send_from_len(next, rest);
        assert(actions == seq![action] + later);
        assert forall|i: int| 0 <= i < events.len() implies {
            let action = #[trigger] send_from(state, events).1[i];
            &&& action matches ActionView::Transmit(bytes) ==> held(state) == Some(bytes)
                || exists|j: int| 0 <= j < i && #[trigger] events[j] == EventView::Contents(bytes)
            &&& (action is AcquireAddress || action is Connect) ==> held(state) is Some
                || exists|j: int| 0 <= j < i && #[trigger] events[j] is Contents
        } by {
            if i > 0 {
                assert(actions[i] == later[i - 1]);
                if let ActionView::Transmit(bytes) = later[i - 1] {
                    if held(next) == Some(bytes) {
                        if held(state) != Some(bytes) {
                            assert(events[0] == EventView::Contents(bytes));
                        }
                    } else {
                        let j = choose|j: int|
                            0 <= j < i - 1 && #[trigger] rest[j] == EventView::Contents(bytes);
                        assert(events[j + 1] == EventView::Contents(bytes));
                    }
                }
                if later[i - 1] is AcquireAddress || later[i - 1] is Connect {
                    if held(next) is Some {
                        if held(state) is None {
                            assert(events[0] is Contents);
                        }
                    } else {
                        let j = choose|j: int| 0 <= j < i - 1 && #[trigger] rest[j] is Contents;
                        assert(events[j + 1] is Contents);
                    }
                }
            }
        }
    }
}

/// Nothing goes out before the file is in memory, and what goes out is the
/// file. Whatever is reported to a sender: before it asks for the address or
/// opens the connection it has been told the file's contents, and the bytes
/// it writes to the connection are contents it was told before, unchanged.
pub proof fn sender_sends_what_it_read(events: Seq<EventView>)
    ensures
        forall|i: int|
            0 <= i < send_run(events).1.len() ==> {
                let action = #[trigger] send_run(events).1[i];
                &&& action matches ActionView::Transmit(bytes) ==> exists|j: int|
                    0 <= j < i - 1 && #[trigger] events[j] == EventView::Contents(bytes)
                &&& (action is AcquireAddress || action is Connect) ==> exists|j: int|
                    0 <= j < i - 1 && #[trigger] events[j] is Contents
            },
{
    let start = send_start().0;
    let issued = send_from(start, events).1;
    let actions = send_run(events).1;
    lemma_send_from_len(start, events);
    lemma_sends_what_it_holds(start, events);
    assert(actions == seq![ActionView::AcquireFile] + issued);
    assert forall|i: int| 0 <= i < actions.len() implies {
        let action = #[trigger] send_run(events).1[i];
        &&& action matches ActionView::Transmit(bytes) ==> exists|j: int|
            0 <= j < i - 1 && #[trigger] events[j] == EventView::Contents(bytes)
        &&& (action is AcquireAddress || action is Connect) ==> exists|j: int|
            0 <= j < i - 1 && #[trigger] events[j] is Contents
    } by {
        if i > 0 {
            assert(actions[i] == issued[i - 1]);
        }
    }
}

/// The first failure ends the run. Let a sender that has not ended be told of
/// a failure, after any events and before any others. Then it gives the run
/// up with the error it was told, what it did before stands as it was, and
/// whatever is reported afterwards it only halts: nothing is tried again.
pub proof fn sending_failure_is_fatal(
    before: Seq<EventView>,
    error: Seq<char>,
    later: Seq<EventView>,
)
    requires
        !(send_run(before).0 is Finished),
        !(send_run(before).0 is Aborted),
    ensures
        ({
            let (last, actions) = send_run(before + seq![EventView::Failed(error)] + later);
            let told = before.len() as int;
            &&& last is Aborted
            &&& actions.len() == before.len() + 2 + later.len()
            &&& actions.take(told + 1) == send_run(before).1
            &&& actions[told + 1] == ActionView::Abort(FaultView::Io(error))
            &&& forall|i: int|
                told + 2 <= i < actions.len() ==> actions[i] == ActionView::Halt
        }),
{
    let start = send_start().0;
    let failure = seq![EventView::Failed(error)];
    let reached = send_from(start, before).0;
    lemma_send_from_append(start, before + failure, later);
    lemma_send_from_append(start, before, failure);
    lemma_send_from_len(start, before);
    reveal_with_fuel(send_from, 2);
    assert(failure.drop_first().len() == 0);
    assert(send_from(reached, failure).0 is Aborted);
    assert(send_from(reached, failure).1 =~= seq![ActionView::Abort(FaultView::Io(error))]);
    lemma_send_over_stays(SendStateView::Aborted, later);
    let halts = send_from(SendStateView::Aborted, later).1;
    let actions = send_run(before + failure + later).1;
    assert(actions =~= send_run(before).1 + seq![ActionView::Abort(FaultView::Io(error))] + halts);
    assert(actions.take(before.len() as int + 1) =~= send_run(before).1);
    assert forall|i: int| before.len() + 2 <= i < actions.len() implies actions[i]
        == ActionView::Halt by {
        assert(actions[i] == halts[i - before.len() - 2]);
    }
}

/// A connection that cannot be opened is fatal. The run is given up with the
/// error that was reported, nothing is written to the connection or to any
/// file, and whatever is reported afterwards the sender only halts.
pub proof fn refused_connection_is_fatal(
    contents: Seq<u8>,
    endpoint: Endpoint,
    error: Seq<char>,
    later: Seq<EventView>,
)
    ensures
        ({
            let (last, actions) = send_run(
                seq![
                    EventView::FileReady,
                    EventView::Contents(contents),
                    EventView::Reported,
                    EventView::AddressReady(endpoint),
                    EventView::Failed(error),
                ] + later,
            );
            &&& last is Aborted
            &&& actions.len() == 6 + later.len()
            &&& actions[4] == ActionView::Connect(endpoint)
            &&& actions[5] == ActionView::Abort(FaultView::Io(error))
            &&& forall|i: int| 6 <= i < actions.len() ==> actions[i] == ActionView::Halt
            &&& forall|i: int|
                0 <= i < actions.len() ==> !(actions[i] is Transmit) && !(actions[i] is Store)
        }),
{
    let before = seq![
        EventView::FileReady,
        EventView::Contents(contents),
        EventView::Reported,
        EventView::AddressReady(endpoint),
        EventView::Failed(error),
    ];
    let start = send_start().0;
    reveal_with_fuel(send_from, 6);
    let s1 = before.drop_first();
    let s2 = s1.drop_first();
    let s3 = s2.drop_first();
    let s4 = s3.drop_first();
    let s5 = s4.drop_first();
    assert(s5.len() == 0);
    assert(send_from(start, before).0 is Aborted);
    assert(send_from(start, before).1 =~= seq![
        ActionView::ReadFile,
        ActionView::Report(NoticeView::Sending(contents.len())),
        ActionView::AcquireAddress,
        ActionView::Connect(endpoint),
        ActionView::Abort(FaultView::Io(error)),
    ]);
    lemma_send_from_append(start, before, later);
    lemma_send_over_stays(SendStateView::Aborted, later);
    let actions = send_run(before + later).1;
    let halts = send_from(SendStateView::Aborted, later).1;
    assert(actions =~= seq![ActionView::AcquireFile] + send_from(start, before).1 + halts);
    assert forall|i: int| 6 <= i < actions.len() implies actions[i] == ActionView::Halt by {
        assert(actions[i] == halts[i - 6]);
    }
}

/// Whatever is reported to it, a sender asks for one file and only at the
/// start, opens at most one connection, writes to it at most once, and never
/// writes to a file or listens.
pub proof fn sender_touches_one_file_and_one_connection(events: Seq<EventView>)
    ensures
        ({
            let actions = send_run(events).1;
            &&& actions.len() == 1 + events.len()
            &&& actions[0] is AcquireFile
            &&& forall|i: int| 1 <= i < actions.len() ==> !(#[trigger] actions[i] is AcquireFile)
            &&& forall|i: int, j: int|
                0 <= i < j < actions.len() ==> !(#[trigger] actions[i] is Connect
                    && #[trigger] actions[j] is Connect)
            &&& forall|i: int, j: int|
                0 <= i < j < actions.len() ==> !(#[trigger] actions[i] is Transmit
                    && #[trigger] actions[j] is Transmit)
            &&& forall|i: int|
                0 <= i < actions.len() ==> {
                    let action = #[trigger] actions[i];
                    !(action is Store) && !(action is Bind) && !(action is Accept) && !(action
                        is Receive)
                }
        }),
{
    let start = send_start().0;
    let issued = send_from(start, events).1;
    let actions = send_run(events).1;
    lemma_send_from_len(start, events);
    lemma_send_order(start, events);
    assert(actions == seq![ActionView::AcquireFile] + issued);
    assert forall|i: int| 1 <= i < actions.len() implies actions[i] == issued[i - 1] by {}
    assert forall|i: int, j: int| 0 <= i < j < actions.len() implies !(#[trigger] actions[i]
        is Connect && #[trigger] actions[j] is Connect) by {
        assert(actions[j] == issued[j - 1]);
        if i > 0 {
            assert(actions[i] == issued[i - 1]);
        }
    }
    assert forall|i: int, j: int| 0 <= i < j < actions.len() implies !(#[trigger] actions[i]
        is Transmit && #[trigger] actions[j] is Transmit) by {
        assert(actions[j] == issued[j - 1]);
        if i > 0 {
            assert(actions[i] == issued[i - 1]);
        }
    }
    assert forall|i: int| 0 <= i < actions.len() implies {
        let action = #[trigger] actions[i];
        !(action is Store) && !(action is Bind) && !(action is Accept) && !(action is Receive)
    } by {
        if i > 0 {
            assert(actions[i] == issued[i - 1]);
        }
    }
}

} // verus!
