//! What the operator is told while a transfer runs.

use vstd::prelude::*;
use vstd::string::StringExecFns;

verus! {

/// A message for the operator.
#[derive(Clone, Copy, Debug, PartialEq, Eq, Structural)]
pub enum Notice {
    /// The source file is in memory and about to be sent.
    Sending(usize),
    /// The connection was read to its end and the bytes are about to be stored.
    Received(usize),
    /// The transfer is complete.
    Done,
}

/// A [`Notice`] with its byte count as a number of any size.
pub enum NoticeView {
    Sending(nat),
    Received(nat),
    Done,
}

impl View for Notice {
    type V = NoticeView;

    open spec fn view(&self) -> NoticeView {
        match *self {
            Notice::Sending(count) => NoticeView::Sending(count as nat),
            Notice::Received(count) => NoticeView::Received(count as nat),
            Notice::Done => NoticeView::Done,
        }
    }
}

/// The character for one decimal digit.
pub open spec fn digit(d: nat) -> char {
    if d == 0 {
        '0'
    } else if d == 1 {
        '1'
    } else if d == 2 {
        '2'
    } else if d == 3 {
        '3'
    } else if d == 4 {
        '4'
    } else if d == 5 {
        '5'
    } else if d == 6 {
        '6'
    } else if d == 7 {
        '7'
    } else if d == 8 {
        '8'
    } else {
        '9'
    }
}

/// A number in decimal: most significant digit first, no sign, no padding.
pub open spec fn digits(n: nat) -> Seq<char>
    decreases n,
{
    if n < 10 {
        seq![digit(n)]
    } else {
        digits(n / 10).push(digit(n % 10))
    }
}

/// The words of a message.
pub open spec fn wording(notice: NoticeView) -> Seq<char> {
    match notice {
        NoticeView::Sending(count) => "Sending "@ + digits(count) + " bytes"@,
        NoticeView::Received(count) => digits(count) + " bytes received, writing to file"@,
        NoticeView::Done => "Done"@,
    }
}

/// One decimal digit as text.
fn digit_text(d: usize) -> (text: &'static str)
    requires
        d < 10,
    ensures
        text@ == seq![digit(d as nat)],
{
    proof {
        reveal_strlit("0");
        reveal_strlit("1");
        reveal_strlit("2");
        reveal_strlit("3");
        reveal_strlit("4");
        reveal_strlit("5");
        reveal_strlit("6");
        reveal_strlit("7");
        reveal_strlit("8");
        reveal_strlit("9");
    }
    let text = if d == 0 {
        "0"
    } else if d == 1 {
        "1"
    } else if d == 2 {
        "2"
    } else if d == 3 {
        "3"
    } else if d == 4 {
        "4"
    } else if d == 5 {
        "5"
    } else if d == 6 {
        "6"
    } else if d == 7 {
        "7"
    } else if d == 8 {
        "8"
    } else {
        "9"
    };
    assert(text@ =~= seq![digit(d as nat)]);
    text
}

/// Writes a count in decimal.
pub fn decimal(n: usize) -> (text: String)
    ensures
        text@ == digits(n as nat),
    decreases n,
{
    if n < 10 {
        String::from_str(digit_text(n))
    } else {
        let mut text = decimal(n / 10);
        text.append(digit_text(n % 10));
        assert(text@ =~= digits(n as nat));
        text
    }
}

impl Notice {
    /// The message as the line that is shown.
    pub fn text(&self) -> (line: String)
        ensures
            line@ == wording(self@),
    {
        match *self {
            Notice::Sending(count) => {
                let mut line = String::from_str("Sending ");
                let number = decimal(count);
                line.append(number.as_str());
                line.append(" bytes");
                line
            },
            Notice::Received(count) => {
                let mut line = decimal(count);
                line.append(" bytes received, writing to file");
                line
            },
            Notice::Done => String::from_str("Done"),
        }
    }
}

} // verus!
