//! The error type of the library.
use vstd::prelude::*;

verus! {

/// Why a call was refused, as a text for people to read.
#[derive(Debug, Clone, PartialEq, Eq)]
pub struct PubSubError {
    /// The text.
    pub text: String,
}

impl View for PubSubError {
    type V = Seq<char>;

    open spec fn view(&self) -> Seq<char> {
        self.text@
    }
}

/// Whether `r` fails with the text `fault`, where there is one, and succeeds where there is none.
pub open spec fn fails_with<T>(r: Result<T, PubSubError>, fault: Option<Seq<char>>) -> bool {
    match r {
        Ok(_) => fault is None,
        Err(e) => fault == Some(e@),
    }
}

impl PubSubError {
    /// The error with the text `text`.
    pub fn new(text: String) -> (e: Self)
        ensures
            e@ == text@,
    {
        PubSubError { text }
    }
}

} // verus!
