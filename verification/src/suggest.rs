//! File name suggestions for the path prompt.
//!
//! While the operator types a path, the names of the working directory that
//! hold the typed text are offered. Listing the directory is the caller's
//! part; choosing among the names is decided here.

use vstd::prelude::*;

verus! {

/// `needle` stands in `text` from position `start` on.
pub open spec fn occurs_at(needle: Seq<char>, text: Seq<char>, start: int) -> bool {
    &&& 0 <= start
    &&& start + needle.len() <= text.len()
    &&& text.subrange(start, start + needle.len()) == needle
}

/// `needle` occurs somewhere in `text` as a run of consecutive characters.
/// The empty text occurs in every text.
pub open spec fn occurs_in(needle: Seq<char>, text: Seq<char>) -> bool {
    exists|start: int| occurs_at(needle, text, start)
}

/// The test that a name passes when it holds `input`.
pub open spec fn holds(input: Seq<char>) -> spec_fn(Seq<char>) -> bool {
    |name: Seq<char>| occurs_in(input, name)
}

/// The names among `entries` that hold `input`, in their order in `entries`.
pub open spec fn suggestions(entries: Seq<Seq<char>>, input: Seq<char>) -> Seq<Seq<char>> {
    entries.filter(holds(input))
}

/// `str::contains` with a string as the pattern. Trusted: the result is true
/// exactly when the pattern's characters stand somewhere in `text`, one after
/// the other.
#[verifier::external_body]
fn contains(text: &str, needle: &str) -> (found: bool)
    ensures
        found == occurs_in(needle@, text@),
{
    text.contains(needle)
}

/// Suggests file names of the working directory for the path prompt.
#[derive(Clone, Copy, Debug)]
pub struct FileAutocomplete;

impl FileAutocomplete {
    /// The names among `entries` that hold the typed `input`, in the order of
    /// `entries` and as often as they stand there.
    pub fn get_suggestions(&self, entries: &Vec<String>, input: &str) -> (offered: Vec<String>)
        ensures
            offered.deep_view() == suggestions(entries.deep_view(), input@),
    {
        let ghost names = entries.deep_view();
        let mut offered: Vec<String> = Vec::new();
        let mut i: usize = 0;
        proof {
            reveal(Seq::filter);
            assert(names.take(0) =~= Seq::<Seq<char>>::empty());
            assert(offered.deep_view() =~= Seq::<Seq<char>>::empty());
        }
        while i < entries.len()
            invariant
                i <= entries.len(),
                names == entries.deep_view(),
                offered.deep_view() == suggestions(names.take(i as int), input@),
            decreases entries.len() - i,
        {
            let ghost before = offered.deep_view();
            proof {
                names.take(i as int).lemma_filter_push(names[i as int], holds(input@));
                assert(names.take(i as int).push(names[i as int]) =~= names.take(i + 1));
            }
            if contains(entries[i].as_str(), input) {
                offered.push(entries[i].clone());
                proof {
                    assert(offered.deep_view() =~= before.push(names[i as int]));
                }
            }
            i += 1;
        }
        proof {
            assert(names.take(i as int) =~= names);
        }
        offered
    }

    /// The text that replaces the input when the operator asks for completion
    /// with a suggestion highlighted: that suggestion.
    pub fn get_completion(
        &self,
        _input: &str,
        highlighted_suggestion: Option<String>,
    ) -> (replacement: Option<String>)
        requires
            highlighted_suggestion is Some,
        ensures
            replacement == highlighted_suggestion,
    {
        highlighted_suggestion
    }
}

} // verus!
