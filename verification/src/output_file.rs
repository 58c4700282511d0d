//! A report that is held in memory.

use vstd::prelude::*;
use vstd::utf8::{decode_utf8, encode_utf8, valid_utf8};
use crate::crates_io::{field_names, row_text, Crate};
use crate::error::Error;
use crate::file_io::{FileIO, Step};
use crate::generate_list::{
    first_columns, headings_text, lemma_encode_concat, missing, missing_names,
    read_first_columns, stopped,
};
use crate::http_client::GetRequest;
use crate::text::{join, join_strings};

verus! {

/// A report that is held in memory, under the path of a file.
#[derive(Debug)]
pub struct OutputFile {
    pub path: String,
    /// What the report holds; `None` while it has not been created.
    pub bytes: Option<Vec<u8>>,
}

impl FileIO for OutputFile {
    open spec fn contents(&self) -> Option<Seq<u8>> {
        match self.bytes {
            Some(bytes) => Some(bytes@),
            None => None,
        }
    }

    /// A report in memory can always be made anew. Nothing can be added to
    /// one that has not been made, and one that has not been made or is not
    /// UTF-8 cannot be read.
    open spec fn refuses(&self, step: Step, error: Error) -> bool {
        error matches Error::Storage(reason) && match step {
            Step::Create => false,
            Step::Append => self.contents() is None && reason@ == "output file does not exist"@,
            Step::Read => !(self.contents() matches Some(bytes) && valid_utf8(bytes)) && reason@
                == "failed to read output file"@,
        }
    }

    fn is_present(&self) -> (found: bool) {
        self.bytes.is_some()
    }

    fn remove(&mut self)
        ensures
            final(self).contents() is None,
            final(self).path == old(self).path,
    {
        self.bytes = None;
    }

    fn create(&mut self) -> (done: Result<(), Error>)
        ensures
            done is Ok,
            final(self).path == old(self).path,
    {
        self.bytes = Some(Vec::new());
        Ok(())
    }

    fn append(&mut self, contents: &[u8]) -> (done: Result<(), Error>)
        ensures
            done is Ok <==> old(self).contents() is Some,
            done matches Err(error) ==> (error matches Error::Storage(reason) && reason@
                == "output file does not exist"@),
            old(self).contents() is None ==> final(self).contents() is None,
            final(self).path == old(self).path,
    {
        match &mut self.bytes {
            Some(bytes) => {
                bytes.extend_from_slice(contents);
                Ok(())
            },
            None => Err(Error::Storage("output file does not exist".to_owned())),
        }
    }

    fn read_to_string(&self) -> (text: Result<String, Error>)
        ensures
            text is Ok <==> (self.contents() matches Some(bytes) && valid_utf8(bytes)),
            text matches Err(error) ==> (error matches Error::Storage(reason) && reason@
                == "failed to read output file"@),
    {
        match &self.bytes {
            Some(bytes) => match String::from_utf8(bytes.clone()) {
                Ok(text) => {
                    proof {
                        vstd::utf8::encode_utf8_valid_utf8(text@);
                    }
                    Ok(text)
                },
                Err(_) => Err(Error::Storage("failed to read output file".to_owned())),
            },
            None => Err(Error::Storage("failed to read output file".to_owned())),
        }
    }
}

/// A run on a report in memory does not fail where the report has not been
/// made or is UTF-8: no step of such a run is one that the report refuses.
pub proof fn lemma_run_in_memory_succeeds<H: GetRequest>(
    http_client: H,
    required: Seq<Seq<char>>,
    found: Option<Seq<u8>>,
    at: OutputFile,
    refused: Seq<u8>,
    error: Error,
)
    requires
        found matches Some(bytes) ==> valid_utf8(bytes),
    ensures
        !stopped(http_client, required, found, at, refused, error),
{
    vstd::utf8::encode_utf8_valid_utf8(headings_text());
}

/// What the names in the report come to where the report holds `found`: that
/// there is no report, that it is no text, or what stands in the first column
/// of each of its rows that has one.
pub open spec fn names_found(found: Option<Seq<u8>>, names: Result<Vec<String>, Error>) -> bool {
    match found {
        None => names matches Err(Error::Storage(reason)) && reason@ == "file does not exist"@,
        Some(bytes) => if valid_utf8(bytes) {
            names matches Ok(read) && read.deep_view() == first_columns(decode_utf8(bytes))
        } else {
            names matches Err(Error::Storage(reason)) && reason@ == "failed to open file"@
        },
    }
}

impl OutputFile {
    /// A report under `path` that has not been created.
    pub fn at_path(path: &str) -> (file: Self)
        ensures
            file.path@ == path@,
            file.contents() is None,
    {
        Self { path: path.to_owned(), bytes: None }
    }

    /// A report under `path` that has not been created. With `recreate`, what
    /// is under the path is taken away first.
    pub fn new(path: String, recreate: bool) -> (file: Self)
        ensures
            file.path == path,
            file.contents() is None,
    {
        let mut file = Self { path, bytes: None };
        if recreate {
            file.remove();
        }
        file
    }

    /// Adds the heading and the divider at the end of the report. Fails where
    /// the report has not been created.
    pub fn write_headings(&mut self) -> (done: Result<(), Error>)
        ensures
            final(self).path == old(self).path,
            match old(self).contents() {
                Some(held) => done is Ok && final(self).contents() == Some(
                    held + encode_utf8(headings_text()),
                ),
                None => final(self).contents() is None && (done matches Err(
                    Error::Storage(reason),
                ) && reason@ == "file does not exist"@),
            },
    {
        match &mut self.bytes {
            Some(bytes) => {
                let heading = Crate::table_heading();
                let divider = Crate::table_divider();
                bytes.extend_from_slice(heading.as_str().as_bytes());
                bytes.extend_from_slice(divider.as_str().as_bytes());
                proof {
                    lemma_encode_concat(heading@, divider@);
                }
                Ok(())
            },
            None => Err(Error::Storage("file does not exist".to_owned())),
        }
    }

    /// Adds the row for `_crate` at the end of the report. Fails where the
    /// report has not been created.
    pub fn write_row(&mut self, _crate: Crate) -> (done: Result<(), Error>)
        ensures
            final(self).path == old(self).path,
            match old(self).contents() {
                Some(held) => done is Ok && final(self).contents() == Some(
                    held + encode_utf8(row_text(_crate@)),
                ),
                None => final(self).contents() is None && (done matches Err(
                    Error::Storage(reason),
                ) && reason@ == "file does not exist"@),
            },
    {
        match &mut self.bytes {
            Some(bytes) => {
                bytes.extend_from_slice(_crate.table_entry().as_str().as_bytes());
                Ok(())
            },
            None => Err(Error::Storage("file does not exist".to_owned())),
        }
    }

    /// Makes the report anew, with nothing in it.
    pub fn recreate(&mut self) -> (done: Result<(), Error>)
        ensures
            done is Ok,
            final(self).path == old(self).path,
            final(self).contents() == Some(Seq::<u8>::empty()),
    {
        self.create()
    }

    /// What stands in the first column of each row of the report that has
    /// one: the names of the crates that the report has a row for, and the
    /// empty name for a row whose first column has nothing in it.
    pub fn crates_from_md_table(&self) -> (names: Result<Vec<String>, Error>)
        ensures
            names_found(self.contents(), names),
    {
        let bytes = match &self.bytes {
            Some(bytes) => bytes,
            None => return Err(Error::Storage("file does not exist".to_owned())),
        };
        match String::from_utf8(bytes.clone()) {
            Ok(text) => {
                proof {
                    vstd::utf8::encode_utf8_valid_utf8(text@);
                    vstd::utf8::encode_utf8_decode_utf8(text@);
                }
                Ok(read_first_columns(text.as_str()))
            },
            Err(_) => Err(Error::Storage("failed to open file".to_owned())),
        }
    }

    /// The names in `all_crates` that the report has no row for, each once, in
    /// the order of `all_crates`. Fails where the names in the report cannot
    /// be had.
    pub fn get_unchecked_crates(&self, all_crates: &Vec<String>) -> (unchecked: Result<
        Vec<String>,
        Error,
    >)
        ensures
            match unchecked {
                Ok(names) => exists|found: Vec<String>|
                    #[trigger] names_found(self.contents(), Ok(found)) && names.deep_view()
                        == missing(all_crates.deep_view(), found.deep_view()),
                Err(Error::Context(doing, cause)) => doing@ == "failed to get existing crates"@
                    && names_found(self.contents(), Err(*cause)),
                Err(_) => false,
            },
    {
        match self.crates_from_md_table() {
            Ok(found) => Ok(missing_names(all_crates, &found)),
            Err(error) => Err(
                Error::Context("failed to get existing crates".to_owned(), Box::new(error)),
            ),
        }
    }
}

/// The rows for `crates`, in order, as text.
pub open spec fn rows_text(crates: Seq<Crate>) -> Seq<char>
    decreases crates.len(),
{
    if crates.len() == 0 {
        Seq::empty()
    } else {
        rows_text(crates.drop_last()) + row_text(crates.last()@)
    }
}

/// A report made anew under the path `output_file` with `.md` behind it: the
/// heading, the divider, and the rows for `crates` in their order.
pub fn write(output_file: &str, crates: Vec<Crate>) -> (file: OutputFile)
    ensures
        file.path@ == output_file@ + ".md"@,
        file.contents() == Some(encode_utf8(headings_text() + rows_text(crates@))),
{
    let mut path = output_file.to_owned();
    crate::text::push_str(&mut path, ".md");
    let mut bytes: Vec<u8> = Vec::new();
    let heading = Crate::table_heading();
    let divider = Crate::table_divider();
    bytes.extend_from_slice(heading.as_str().as_bytes());
    bytes.extend_from_slice(divider.as_str().as_bytes());
    proof {
        lemma_encode_concat(heading@, divider@);
    }
    let mut i: usize = 0;
    while i < crates.len()
        invariant
            i <= crates.len(),
            bytes@ == encode_utf8(headings_text() + rows_text(crates@.take(i as int))),
        decreases crates.len() - i,
    {
        let row = crates[i].table_entry();
        bytes.extend_from_slice(row.as_str().as_bytes());
        proof {
            let before = crates@.take(i as int);
            assert(crates@.take(i + 1).drop_last() == before);
            lemma_encode_concat(headings_text() + rows_text(before), row@);
            assert(headings_text() + rows_text(crates@.take(i + 1)) == headings_text()
                + rows_text(before) + row@);
        }
        i += 1;
    }
    assert(crates@.take(crates.len() as int) == crates@);
    OutputFile { path, bytes: Some(bytes) }
}

/// The names of the report's columns with `|` between them.
pub open spec fn headings_line() -> Seq<char> {
    join(field_names(), "|"@)
}

/// The names of the report's columns with `|` between them.
pub fn headings() -> (line: String)
    ensures
        line@ == headings_line(),
{
    join_strings(&Crate::fields(), "|")
}

/// The names of the crates in the report `_file_contents`, for a report whose
/// heading and divider are in order. No heading and divider are taken to be in
/// order, so every report is refused.
pub fn crates_from_output_file(_file_contents: Vec<u8>) -> (names: Result<Vec<String>, Error>)
    ensures
        names matches Err(Error::InvalidHeadings),
{
    Err(Error::InvalidHeadings)
}

} // verus!
