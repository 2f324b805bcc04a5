//! What passes between a transfer and the caller that performs its steps.
//!
//! A transfer issues one [`Action`] at a time. The caller performs it and
//! reports what happened as one [`Event`], which the transfer answers with
//! its next action, until it issues [`Action::Finish`] or [`Action::Abort`].

use vstd::prelude::*;
use crate::endpoint::Endpoint;
use crate::notice::{Notice, NoticeView};

verus! {

/// Why a transfer was given up.
#[derive(Debug, PartialEq, Eq)]
pub enum Fault {
    /// A step failed; the text is the error as the system worded it.
    Io(String),
    /// The caller reported something that the step in progress cannot end in.
    OutOfTurn,
}

/// A [`Fault`] with its text as a sequence of characters.
pub enum FaultView {
    Io(Seq<char>),
    OutOfTurn,
}

impl View for Fault {
    type V = FaultView;

    open spec fn view(&self) -> FaultView {
        match *self {
            Fault::Io(text) => FaultView::Io(text@),
            Fault::OutOfTurn => FaultView::OutOfTurn,
        }
    }
}

/// What the caller reports back after performing an action.
#[derive(Debug, PartialEq, Eq)]
pub enum Event {
    /// The operator named a file and it is open for reading and writing.
    FileReady,
    /// The file was read to its end; these are its bytes.
    Contents(Vec<u8>),
    /// The operator was shown the message.
    Reported,
    /// The operator gave an address and it resolved to this endpoint.
    AddressReady(Endpoint),
    /// The outbound connection stands.
    Connected,
    /// Every byte of the payload was written to the connection.
    Transmitted,
    /// The outbound connection is closed.
    Disconnected,
    /// The listener is bound.
    Bound,
    /// One inbound connection was taken and the listener closed.
    Accepted,
    /// These bytes arrived on the connection.
    Data(Vec<u8>),
    /// The peer closed the connection: no more bytes will arrive.
    EndOfStream,
    /// Every byte was written to the file.
    Stored,
    /// The action failed; the text is the error as the system worded it.
    Failed(String),
}

/// An [`Event`] with its bytes and text as sequences.
pub enum EventView {
    FileReady,
    Contents(Seq<u8>),
    Reported,
    AddressReady(Endpoint),
    Connected,
    Transmitted,
    Disconnected,
    Bound,
    Accepted,
    Data(Seq<u8>),
    EndOfStream,
    Stored,
    Failed(Seq<char>),
}

impl View for Event {
    type V = EventView;

    open spec fn view(&self) -> EventView {
        match *self {
            Event::FileReady => EventView::FileReady,
            Event::Contents(bytes) => EventView::Contents(bytes@),
            Event::Reported => EventView::Reported,
            Event::AddressReady(endpoint) => EventView::AddressReady(endpoint),
            Event::Connected => EventView::Connected,
            Event::Transmitted => EventView::Transmitted,
            Event::Disconnected => EventView::Disconnected,
            Event::Bound => EventView::Bound,
            Event::Accepted => EventView::Accepted,
            Event::Data(bytes) => EventView::Data(bytes@),
            Event::EndOfStream => EventView::EndOfStream,
            Event::Stored => EventView::Stored,
            Event::Failed(text) => EventView::Failed(text@),
        }
    }
}

/// What the caller is to do next.
#[derive(Debug, PartialEq, Eq)]
pub enum Action {
    /// Ask the operator for a path until the file opens for reading and
    /// writing.
    AcquireFile,
    /// Read the open file to its end.
    ReadFile,
    /// Show the operator this message.
    Report(Notice),
    /// Ask the operator for an address until it resolves.
    AcquireAddress,
    /// Open a connection to this endpoint.
    Connect(Endpoint),
    /// Write all of these bytes to the connection.
    Transmit(Vec<u8>),
    /// Close the connection, which tells the peer that the payload is complete.
    Disconnect,
    /// Bind a listener to this endpoint.
    Bind(Endpoint),
    /// Wait for one inbound connection, take it, and close the listener.
    Accept,
    /// Read what arrives next on the connection.
    Receive,
    /// Write all of these bytes to the open file.
    Store(Vec<u8>),
    /// The transfer is complete: stop.
    Finish,
    /// The transfer is given up: stop with this fault.
    Abort(Fault),
    /// The transfer had ended before: there is nothing to do.
    Halt,
}

/// An [`Action`] with its bytes and text as sequences.
pub enum ActionView {
    AcquireFile,
    ReadFile,
    Report(NoticeView),
    AcquireAddress,
    Connect(Endpoint),
    Transmit(Seq<u8>),
    Disconnect,
    Bind(Endpoint),
    Accept,
    Receive,
    Store(Seq<u8>),
    Finish,
    Abort(FaultView),
    Halt,
}

impl View for Action {
    type V = ActionView;

    open spec fn view(&self) -> ActionView {
        match *self {
            Action::AcquireFile => ActionView::AcquireFile,
            Action::ReadFile => ActionView::ReadFile,
            Action::Report(notice) => ActionView::Report(notice@),
            Action::AcquireAddress => ActionView::AcquireAddress,
            Action::Connect(endpoint) => ActionView::Connect(endpoint),
            Action::Transmit(bytes) => ActionView::Transmit(bytes@),
            Action::Disconnect => ActionView::Disconnect,
            Action::Bind(endpoint) => ActionView::Bind(endpoint),
            Action::Accept => ActionView::Accept,
            Action::Receive => ActionView::Receive,
            Action::Store(bytes) => ActionView::Store(bytes@),
            Action::Finish => ActionView::Finish,
            Action::Abort(fault) => ActionView::Abort(fault@),
            Action::Halt => ActionView::Halt,
        }
    }
}

} // verus!
