//! The capability to fetch a text from an address.

use vstd::prelude::*;
use crate::error::Error;

verus! {

/// The contact address that the sources are given, written backwards.
pub const USER_AGENT: &'static str = "moc.kooltuo@tsil-tsurt";

/// A way to fetch the text behind an address. It fails where the source
/// cannot be reached or answers without success.
pub trait GetRequest {
    /// Whether `response` is among the answers that a fetch of `url` can
    /// have. Two fetches of one address need not have the same answer.
    open spec fn answers(&self, url: Seq<char>, response: Result<String, Error>) -> bool {
        arbitrary()
    }

    fn get(&self, url: &str) -> (response: Result<String, Error>)
        ensures
            self.answers(url@, response),
    ;
}

/// `text` backwards.
pub fn reversed(text: &str) -> (backwards: String)
    ensures
        backwards@ == text@.reverse(),
{
    let chars = crate::text::chars_of(text);
    let mut backwards = String::new();
    let mut i: usize = chars.len();
    while i > 0
        invariant
            i <= chars.len(),
            chars@ == text@,
            backwards@ == chars@.skip(i as int).reverse(),
        decreases i,
    {
        i -= 1;
        backwards.push(chars[i]);
    }
    backwards
}

/// The contact address that the sources are given.
pub fn user_agent() -> (agent: String)
    ensures
        agent@ == USER_AGENT@.reverse(),
{
    reversed(USER_AGENT)
}

} // verus!
