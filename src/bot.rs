//! The decisions of the bot's polling loop.
use vstd::prelude::*;

verus! {

/// How many times a failed request is tried again.
pub const RETRIES: usize = 5;

/// What to do after one attempt at a request.
#[derive(Debug, PartialEq, Eq)]
pub enum Attempt {
    /// The request succeeded.
    Done,
    /// Try again, with this many further retries left.
    Retry(usize),
    /// The request failed and no retry is left.
    GiveUp,
}

/// The step after an attempt that had `tries` retries left.
pub fn after_attempt(succeeded: bool, tries: usize) -> (r: Attempt)
    ensures
        succeeded ==> r == Attempt::Done,
        !succeeded && tries == 0 ==> r == Attempt::GiveUp,
        !succeeded && tries > 0 ==> r == Attempt::Retry((tries - 1) as usize),
{
    if succeeded {
        Attempt::Done
    } else if tries == 0 {
        Attempt::GiveUp
    } else {
        Attempt::Retry(tries - 1)
    }
}

/// The bookmark to store after a poll: the name of the newest comment seen,
/// where there is one and it differs from the stored bookmark.
pub fn bookmark_update(current: &str, newest: Option<String>) -> (r: Option<String>)
    ensures
        match newest {
            Some(n) => if n@.len() > 0 && n@ != current@ {
                r is Some && r->0@ == n@
            } else {
                r is None
            },
            None => r is None,
        },
{
    match newest {
        Some(n) => {
            if n.as_str().unicode_len() > 0 && !crate::text::same_text(n.as_str(), current) {
                Some(n)
            } else {
                None
            }
        },
        None => None,
    }
}

} // verus!
