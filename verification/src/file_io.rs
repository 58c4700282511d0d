//! The report as a file: what the list needs of the file it is kept in.

use vstd::prelude::*;
use vstd::utf8::{encode_utf8, valid_utf8};
use crate::error::Error;

verus! {

/// `std::string::FromUtf8Error`, of which nothing is known here.
#[verifier::external_type_specification]
#[verifier::external_body]
pub struct ExFromUtf8Error(std::string::FromUtf8Error);

/// `String::from_utf8` gives the text whose UTF-8 encoding the bytes are, and
/// fails where they are no such encoding.
pub assume_specification[ String::from_utf8 ](bytes: Vec<u8>) -> (text: Result<
    String,
    std::string::FromUtf8Error,
>)
    ensures
        match text {
            Ok(read) => encode_utf8(read@) == bytes@,
            Err(_) => !valid_utf8(bytes@),
        },
;

/// Whether a file that held `before` and now holds `after` has kept what it
/// held: nothing was taken away or rewritten, though more may stand behind it.
pub open spec fn kept(before: Option<Seq<u8>>, after: Option<Seq<u8>>) -> bool {
    match before {
        Some(held) => after matches Some(holds) && held.is_prefix_of(holds),
        None => true,
    }
}

/// Whether `after` is `held` with `part` behind it, and `part` is a beginning
/// of `refused`.
pub open spec fn taken(held: Seq<u8>, refused: Seq<u8>, part: Seq<u8>, after: Option<Seq<u8>>) -> bool {
    part.is_prefix_of(refused) && after == Some(held + part)
}

/// Whether `after` is what a file holds that held `held` and refused to take
/// `refused`: what it held, with a beginning of `refused` behind it at most,
/// and no file where there was none.
pub open spec fn left_after(
    held: Option<Seq<u8>>,
    refused: Seq<u8>,
    after: Option<Seq<u8>>,
) -> bool {
    match held {
        Some(bytes) => exists|part: Seq<u8>| #[trigger] taken(bytes, refused, part, after),
        None => after is None,
    }
}

/// A file that was to take nothing is left as it was.
pub proof fn lemma_left_as_it_was(held: Option<Seq<u8>>)
    ensures
        left_after(held, Seq::<u8>::empty(), held),
{
    if let Some(bytes) = held {
        let none = Seq::<u8>::empty();
        assert(bytes + none == bytes);
        assert(taken(bytes, none, none, held));
    }
}

/// A file that is left after a refusal has kept what it held.
pub proof fn lemma_left_after_keeps(held: Option<Seq<u8>>, refused: Seq<u8>, after: Option<Seq<u8>>)
    requires
        left_after(held, refused, after),
    ensures
        kept(held, after),
{
    if let Some(bytes) = held {
        let part = choose|part: Seq<u8>| #[trigger] taken(bytes, refused, part, after);
        assert(bytes == (bytes + part).subrange(0, bytes.len() as int));
    }
}

/// What is done to the file and can fail.
pub enum Step {
    Create,
    Append,
    Read,
}

/// What the list needs of the file that the report is kept in. One writer
/// works on the file at a time.
pub trait FileIO {
    /// The bytes in the file; `None` while there is no file.
    open spec fn contents(&self) -> Option<Seq<u8>> {
        arbitrary()
    }

    /// Whether `error` is among the failures with which `step` can end on the
    /// file as it is. A step that can fail need not fail.
    open spec fn refuses(&self, step: Step, error: Error) -> bool {
        arbitrary()
    }

    /// Whether there is a file.
    fn is_present(&self) -> (found: bool)
        ensures
            found == self.contents().is_some(),
    ;

    /// Takes the file away, if that can be done.
    fn remove(&mut self)
        ensures
            final(self).contents() is None || final(self).contents() == old(self).contents(),
    ;

    /// Makes the file anew, with nothing in it. Where that fails, the file
    /// is as it was.
    fn create(&mut self) -> (done: Result<(), Error>)
        ensures
            done is Ok ==> final(self).contents() == Some(Seq::<u8>::empty()),
            done is Err ==> final(self).contents() == old(self).contents(),
            done matches Err(error) ==> old(self).refuses(Step::Create, error),
    ;

    /// Writes `contents` behind what the file holds. Where that fails, what the
    /// file held is still there, with a beginning of `contents` behind it at
    /// most, and no file is made where there was none.
    fn append(&mut self, contents: &[u8]) -> (done: Result<(), Error>)
        ensures
            done is Ok ==> old(self).contents() is Some && final(self).contents() == Some(
                old(self).contents().unwrap() + contents@,
            ),
            done is Err ==> left_after(old(self).contents(), contents@, final(self).contents()),
            done matches Err(error) ==> old(self).refuses(Step::Append, error),
    ;

    /// The file as text.
    fn read_to_string(&self) -> (text: Result<String, Error>)
        ensures
            text matches Ok(read) ==> self.contents() == Some(encode_utf8(read@)),
            text matches Err(error) ==> self.refuses(Step::Read, error),
    ;
}

} // verus!
