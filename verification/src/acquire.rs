//! Asking the operator until an answer can be used.
//!
//! An address is asked for until it resolves, a path until the file opens.
//! The caller asks and tries; what follows from each try is decided here: a
//! usable answer ends the asking, any other is complained about and asked
//! for again. No failed try ever reaches the transfer itself.

use vstd::prelude::*;
use vstd::string::StringExecFns;
use crate::endpoint::Endpoint;

verus! {

/// What follows from one try.
#[derive(Debug, PartialEq, Eq)]
pub enum Asked<T> {
    /// The answer was usable: the asking ends with this value.
    Accepted(T),
    /// The answer was not usable: show the complaint and ask again.
    Refused { complaint: String },
}

/// An [`Asked`] with its complaint as a sequence of characters.
pub enum AskedView<T> {
    Accepted(T),
    Refused { complaint: Seq<char> },
}

impl<T> View for Asked<T> {
    type V = AskedView<T>;

    open spec fn view(&self) -> AskedView<T> {
        match *self {
            Asked::Accepted(value) => AskedView::Accepted(value),
            Asked::Refused { complaint } => AskedView::Refused { complaint: complaint@ },
        }
    }
}

/// The complaint about an answer that resolved without error and to no
/// address.
pub open spec fn nothing_found() -> Seq<char> {
    "no address found"@
}

/// What a try came to, with the error as the characters that are shown.
pub open spec fn shown<T>(attempt: Result<T, String>) -> Result<T, Seq<char>> {
    match attempt {
        Ok(value) => Ok(value),
        Err(complaint) => Err(complaint@),
    }
}

/// What resolving an answer came to: the first address that was found, or
/// what there is to complain of. An answer that resolved to no address is
/// no more usable than one that did not resolve.
pub open spec fn first_found(resolved: Result<Vec<Endpoint>, String>) -> Result<
    Endpoint,
    Seq<char>,
> {
    match resolved {
        Ok(found) => if found@.len() > 0 {
            Ok(found@[0])
        } else {
            Err(nothing_found())
        },
        Err(complaint) => Err(complaint@),
    }
}

/// What follows from a try that came to `attempt`.
pub open spec fn judge<T>(attempt: Result<T, Seq<char>>) -> AskedView<T> {
    match attempt {
        Ok(value) => AskedView::Accepted(value),
        Err(complaint) => AskedView::Refused { complaint },
    }
}

/// What asking comes to when the tries give `attempts` in turn: the
/// complaints shown, in order, and the value the asking ended with, if one
/// of the tries ended it.
pub open spec fn asking<T>(attempts: Seq<Result<T, Seq<char>>>) -> (Seq<Seq<char>>, Option<T>)
    decreases attempts.len(),
{
    if attempts.len() == 0 {
        (Seq::empty(), None)
    } else {
        match judge(attempts[0]) {
            AskedView::Accepted(value) => (Seq::empty(), Some(value)),
            AskedView::Refused { complaint } => {
                let (complaints, value) = asking(attempts.drop_first());
                (seq![complaint] + complaints, value)
            },
        }
    }
}

/// Decides what follows from resolving the address that the operator gave.
/// The first address found is used. An answer that does not resolve is
/// complained about with its error and asked for again, and so is one that
/// resolves to no address at all.
pub fn get_ip(resolved: Result<Vec<Endpoint>, String>) -> (asked: Asked<Endpoint>)
    ensures
        asked@ == judge(first_found(resolved)),
{
    match resolved {
        Ok(found) => {
            if found.len() > 0 {
                Asked::Accepted(found[0])
            } else {
                Asked::Refused { complaint: String::from_str("no address found") }
            }
        },
        Err(complaint) => Asked::Refused { complaint },
    }
}

/// Decides what follows from opening the file that the operator named: an
/// open file is used, a failure is complained about with its error and the
/// path asked for again.
pub fn get_file<F>(opened: Result<F, String>) -> (asked: Asked<F>)
    ensures
        asked@ == judge(shown(opened)),
{
    match opened {
        Ok(file) => Asked::Accepted(file),
        Err(complaint) => Asked::Refused { complaint },
    }
}

/// When the first `failures` tries fail and the next one succeeds, the asking
/// shows exactly `failures` complaints, the errors of those tries in order,
/// and ends with the value of the try that succeeded.
pub proof fn asks_again_until_accepted<T>(attempts: Seq<Result<T, Seq<char>>>, failures: nat)
    requires
        failures < attempts.len(),
        forall|i: int| 0 <= i < failures ==> attempts[i] is Err,
        attempts[failures as int] is Ok,
    ensures
        asking(attempts).0.len() == failures,
        forall|i: int| 0 <= i < failures ==> asking(attempts).0[i] == attempts[i]->Err_0,
        asking(attempts).1 == Some(attempts[failures as int]->Ok_0),
    decreases failures,
{
    if failures > 0 {
        let rest = attempts.drop_first();
        asks_again_until_accepted(rest, (failures - 1) as nat);
        assert forall|i: int| 0 <= i < failures implies asking(attempts).0[i]
            == attempts[i]->Err_0 by {
            if i > 0 {
                assert(asking(rest).0[i - 1] == rest[i - 1]->Err_0);
            }
        }
    }
}

/// Whatever the tries give, only the value of the last try made reaches the
/// caller. Every try before it failed and was complained about with its own
/// error; the asking ends with a value exactly when the try that follows
/// those succeeded, and then with that try's value and no other.
pub proof fn asking_hands_on_only_accepted<T>(attempts: Seq<Result<T, Seq<char>>>)
    ensures
        ({
            let (complaints, value) = asking(attempts);
            let made = complaints.len() as int;
            &&& made <= attempts.len()
            &&& forall|i: int|
                0 <= i < made ==> #[trigger] attempts[i] == Err::<T, Seq<char>>(complaints[i])
            &&& value is Some ==> made < attempts.len() && attempts[made] == Ok::<T, Seq<char>>(
                value->0,
            )
            &&& value is None ==> made == attempts.len()
        }),
    decreases attempts.len(),
{
    if attempts.len() > 0 {
        let rest = attempts.drop_first();
        asking_hands_on_only_accepted(rest);
        if attempts[0] is Err {
            let (complaints, value) = asking(attempts);
            let made = complaints.len() as int;
            assert forall|i: int| 0 <= i < made implies #[trigger] attempts[i] == Err::<
                T,
                Seq<char>,
            >(complaints[i]) by {
                if i > 0 {
                    assert(rest[i - 1] == Err::<T, Seq<char>>(asking(rest).0[i - 1]));
                }
            }
            if value is Some {
                assert(attempts[made] == rest[made - 1]);
            }
        }
    }
}

/// What resolving each of `resolutions` came to, in turn.
pub open spec fn resolving(resolutions: Seq<Result<Vec<Endpoint>, String>>) -> Seq<
    Result<Endpoint, Seq<char>>,
> {
    resolutions.map_values(|resolved: Result<Vec<Endpoint>, String>| first_found(resolved))
}

/// What opening each of `openings` came to, in turn.
pub open spec fn opening<F>(openings: Seq<Result<F, String>>) -> Seq<Result<F, Seq<char>>> {
    openings.map_values(|opened: Result<F, String>| shown(opened))
}

/// Address inputs of which the first `failures` give no address, whether
/// they fail to resolve or resolve to none, and the next one gives at least
/// one: the operator is asked again exactly `failures` times, and the asking
/// ends with the first address that the resolving input gave.
pub proof fn get_ip_asks_again(resolutions: Seq<Result<Vec<Endpoint>, String>>, failures: nat)
    requires
        failures < resolutions.len(),
        forall|i: int|
            0 <= i < failures ==> (#[trigger] resolutions[i] matches Ok(found) ==> found@.len()
                == 0),
        resolutions[failures as int] matches Ok(found) && found@.len() > 0,
    ensures
        asking(resolving(resolutions)).0.len() == failures,
        asking(resolving(resolutions)).1 == Some(resolutions[failures as int]->Ok_0@[0]),
{
    asks_again_until_accepted(resolving(resolutions), failures);
}

/// Whatever the address inputs give, the asking ends with an endpoint only
/// if the last input read resolved to at least one address, and then with
/// the first of them. Every input before it was complained about, and
/// nothing else ever reaches the caller.
pub proof fn get_ip_hands_on_only_resolved(resolutions: Seq<Result<Vec<Endpoint>, String>>)
    ensures
        ({
            let (complaints, value) = asking(resolving(resolutions));
            let made = complaints.len() as int;
            &&& made <= resolutions.len()
            &&& forall|i: int|
                0 <= i < made ==> (#[trigger] resolutions[i] matches Ok(found) ==> found@.len()
                    == 0)
            &&& value is Some ==> {
                &&& made < resolutions.len()
                &&& resolutions[made] matches Ok(found)
                &&& found@.len() > 0
                &&& value->0 == found@[0]
            }
            &&& value is None ==> made == resolutions.len()
        }),
{
    let attempts = resolving(resolutions);
    asking_hands_on_only_accepted(attempts);
    let made = asking(attempts).0.len() as int;
    assert forall|i: int| 0 <= i < made implies (#[trigger] resolutions[i] matches Ok(found)
        ==> found@.len() == 0) by {
        assert(attempts[i] is Err);
    }
}

/// Path inputs of which the first `failures` do not open and the next one
/// does: the operator is asked again exactly `failures` times, and the asking
/// ends with the file that opened.
pub proof fn get_file_asks_again<F>(openings: Seq<Result<F, String>>, failures: nat)
    requires
        failures < openings.len(),
        forall|i: int| 0 <= i < failures ==> openings[i] is Err,
        openings[failures as int] is Ok,
    ensures
        asking(opening(openings)).0.len() == failures,
        forall|i: int|
            0 <= i < failures ==> asking(opening(openings)).0[i] == openings[i]->Err_0@,
        asking(opening(openings)).1 == Some(openings[failures as int]->Ok_0),
{
    asks_again_until_accepted(opening(openings), failures);
}

} // verus!
