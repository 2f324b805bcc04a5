//! The two roles a run can take.

use vstd::prelude::*;
use vstd::string::StringExecFns;

verus! {

/// The role chosen once at the start of a run.
#[derive(Clone, Copy, Debug, PartialEq, Eq, Structural)]
pub enum SenderOrReceiver {
    /// Reads a local file and transmits it over a new outbound connection.
    Sender,
    /// Listens for one inbound connection and stores what arrives.
    Receiver,
}

impl SenderOrReceiver {
    /// The name under which a role is shown to the operator.
    pub open spec fn label(self) -> Seq<char> {
        match self {
            SenderOrReceiver::Sender => "Sender"@,
            SenderOrReceiver::Receiver => "Receiver"@,
        }
    }

    /// Both roles, in the order in which they are offered.
    pub fn variants() -> (all: [SenderOrReceiver; 2])
        ensures
            all@ == seq![SenderOrReceiver::Sender, SenderOrReceiver::Receiver],
    {
        [SenderOrReceiver::Sender, SenderOrReceiver::Receiver]
    }

    /// The role's name as text.
    pub fn to_string(&self) -> (text: String)
        ensures
            text@ == self.label(),
    {
        match self {
            SenderOrReceiver::Sender => String::from_str("Sender"),
            SenderOrReceiver::Receiver => String::from_str("Receiver"),
        }
    }
}

} // verus!
