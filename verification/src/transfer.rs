//! A transfer in either role, and what the two roles achieve together.

use vstd::prelude::*;
use crate::endpoint::Endpoint;
use crate::exchange::{Action, ActionView, Event, EventView};
use crate::mode::SenderOrReceiver;
use crate::notice::NoticeView;
use crate::receiver::{
    receive_run, receive_start, receive_step, receiving_completes, receiving_script,
    run_receiver, ReceiveState, ReceiveStateView,
};
use crate::sender::{
    run_sender, send_run, send_start, send_step, sending_completes, sending_script, SendState,
    SendStateView,
};

verus! {

/// A run in the role that was chosen for it. The role never changes.
#[derive(Debug, PartialEq, Eq)]
pub enum Transfer {
    Sending(SendState),
    Receiving(ReceiveState),
}

/// A [`Transfer`] with the view of its state.
pub enum TransferView {
    Sending(SendStateView),
    Receiving(ReceiveStateView),
}

impl View for Transfer {
    type V = TransferView;

    open spec fn view(&self) -> TransferView {
        match *self {
            Transfer::Sending(state) => TransferView::Sending(state@),
            Transfer::Receiving(state) => TransferView::Receiving(state@),
        }
    }
}

impl TransferView {
    /// The role of the run.
    pub open spec fn role(self) -> SenderOrReceiver {
        match self {
            TransferView::Sending(_) => SenderOrReceiver::Sender,
            TransferView::Receiving(_) => SenderOrReceiver::Receiver,
        }
    }

    /// Whether the run has ended, complete or given up.
    pub open spec fn over(self) -> bool {
        match self {
            TransferView::Sending(state) => state is Finished || state is Aborted,
            TransferView::Receiving(state) => state is Finished || state is Aborted,
        }
    }
}

/// How a run in the role `mode` begins.
pub open spec fn transfer_start(mode: SenderOrReceiver) -> (TransferView, ActionView) {
    match mode {
        SenderOrReceiver::Sender => (TransferView::Sending(send_start().0), send_start().1),
        SenderOrReceiver::Receiver => (
            TransferView::Receiving(receive_start().0),
            receive_start().1,
        ),
    }
}

/// One step of a run: the step of its role.
pub open spec fn transfer_step(transfer: TransferView, event: EventView) -> (
    TransferView,
    ActionView,
) {
    match transfer {
        TransferView::Sending(state) => (
            TransferView::Sending(send_step(state, event).0),
            send_step(state, event).1,
        ),
        TransferView::Receiving(state) => (
            TransferView::Receiving(receive_step(state, event).0),
            receive_step(state, event).1,
        ),
    }
}

impl Transfer {
    /// Begins a run in the role that the operator chose.
    pub fn start(mode: SenderOrReceiver) -> (begun: (Transfer, Action))
        ensures
            (begun.0@, begun.1@) == transfer_start(mode),
            begun.0@.role() == mode,
    {
        match mode {
            SenderOrReceiver::Sender => {
                let (state, action) = SendState::start();
                (Transfer::Sending(state), action)
            },
            SenderOrReceiver::Receiver => {
                let (state, action) = ReceiveState::start();
                (Transfer::Receiving(state), action)
            },
        }
    }

    /// Moves the run on by one event, in the role it began in, and says what
    /// to do next.
    pub fn step(self, event: Event) -> (next: (Transfer, Action))
        ensures
            (next.0@, next.1@) == transfer_step(self@, event@),
            next.0@.role() == self@.role(),
    {
        match self {
            Transfer::Sending(state) => {
                let (state, action) = run_sender(state, event);
                (Transfer::Sending(state), action)
            },
            Transfer::Receiving(state) => {
                let (state, action) = run_receiver(state, event);
                (Transfer::Receiving(state), action)
            },
        }
    }

    /// The role of the run.
    pub fn mode(&self) -> (mode: SenderOrReceiver)
        ensures
            mode == self@.role(),
    {
        match self {
            Transfer::Sending(_) => SenderOrReceiver::Sender,
            Transfer::Receiving(_) => SenderOrReceiver::Receiver,
        }
    }

    /// Whether the run has ended, complete or given up.
    pub fn is_over(&self) -> (over: bool)
        ensures
            over == self@.over(),
    {
        match self {
            Transfer::Sending(state) => state.is_over(),
            Transfer::Receiving(state) => state.is_over(),
        }
    }
}

/// The bytes that a run's actions put on the connection, in order.
pub open spec fn transmitted(actions: Seq<ActionView>) -> Seq<u8>
    decreases actions.len(),
{
    if actions.len() == 0 {
        Seq::empty()
    } else {
        let rest = transmitted(actions.drop_first());
        match actions[0] {
            ActionView::Transmit(bytes) => bytes + rest,
            _ => rest,
        }
    }
}

/// The bytes that a run's actions write to the file, in order.
pub open spec fn stored(actions: Seq<ActionView>) -> Seq<u8>
    decreases actions.len(),
{
    if actions.len() == 0 {
        Seq::empty()
    } else {
        let rest = stored(actions.drop_first());
        match actions[0] {
            ActionView::Store(bytes) => bytes + rest,
            _ => rest,
        }
    }
}

proof fn lemma_stored_append(first: Seq<ActionView>, second: Seq<ActionView>)
    ensures
        stored(first + second) == stored(first) + stored(second),
    decreases first.len(),
{
    if first.len() == 0 {
        assert(first + second =~= second);
        assert(stored(first) + stored(second) =~= stored(second));
    } else {
        assert((first + second).drop_first() =~= first.drop_first() + second);
        lemma_stored_append(first.drop_first(), second);
        assert(stored(first + second) =~= stored(first) + stored(second));
    }
}

proof fn lemma_reading_stores_nothing(count: nat)
    ensures
        stored(Seq::new(count, |i: int| ActionView::Receive)) == Seq::<u8>::empty(),
    decreases count,
{
    if count > 0 {
        let reads = Seq::new(count, |i: int| ActionView::Receive);
        assert(reads.drop_first() =~= Seq::new((count - 1) as nat, |i: int| ActionView::Receive));
        lemma_reading_stores_nothing((count - 1) as nat);
    }
}

/// A sender that meets a receiver hands the file over unchanged. Let the
/// source file hold `contents`, of any length, and let every step on both
/// sides succeed. Let the connection deliver what the sender wrote to it, cut
/// into `chunks` at any places. Then what the receiver writes to its file is
/// `contents`, byte for byte, and both runs end complete.
pub proof fn round_trip(contents: Seq<u8>, endpoint: Endpoint, chunks: Seq<Seq<u8>>)
    requires
        chunks.flatten() == transmitted(send_run(sending_script(contents, endpoint)).1),
    ensures
        transmitted(send_run(sending_script(contents, endpoint)).1) == contents,
        stored(receive_run(receiving_script(chunks)).1) == contents,
        send_run(sending_script(contents, endpoint)).0 is Finished,
        receive_run(receiving_script(chunks)).0 is Finished,
{
    sending_completes(contents, endpoint);
    let sent = send_run(sending_script(contents, endpoint)).1;
    assert(transmitted(sent) =~= contents) by {
        reveal_with_fuel(transmitted, 10);
        let a1 = sent.drop_first();
        let a2 = a1.drop_first();
        let a3 = a2.drop_first();
        let a4 = a3.drop_first();
        let a5 = a4.drop_first();
        let a6 = a5.drop_first();
        let a7 = a6.drop_first();
        let a8 = a7.drop_first();
        let a9 = a8.drop_first();
        assert(a9.len() == 0);
    }
    receiving_completes(chunks);
    let opening = seq![
        ActionView::AcquireFile,
        ActionView::Bind(Endpoint::any_interface()),
        ActionView::Accept,
        ActionView::Receive,
    ];
    let reading = Seq::new(chunks.len(), |i: int| ActionView::Receive);
    let closing = seq![
        ActionView::Report(NoticeView::Received(chunks.flatten().len())),
        ActionView::Store(chunks.flatten()),
        ActionView::Report(NoticeView::Done),
        ActionView::Finish,
    ];
    assert(receive_run(receiving_script(chunks)).1 == opening + reading + closing);
    lemma_stored_append(opening + reading, closing);
    lemma_stored_append(opening, reading);
    lemma_reading_stores_nothing(chunks.len());
    assert(stored(opening) =~= Seq::<u8>::empty()) by {
        reveal_with_fuel(stored, 5);
        let o1 = opening.drop_first();
        let o2 = o1.drop_first();
        let o3 = o2.drop_first();
        let o4 = o3.drop_first();
        assert(o4.len() == 0);
    }
    assert(stored(closing) =~= chunks.flatten()) by {
        reveal_with_fuel(stored, 5);
        let c1 = closing.drop_first();
        let c2 = c1.drop_first();
        let c3 = c2.drop_first();
        let c4 = c3.drop_first();
        assert(c4.len() == 0);
    }
    assert(stored(opening + reading + closing) =~= chunks.flatten());
}

} // verus!
