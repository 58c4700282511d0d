//! The record of one crate, its row in the report, and its lookup in the registry.

use vstd::prelude::*;
use crate::error::Error;
use crate::http_client::GetRequest;
use crate::json::{json_of, Json};
use crate::text::{decimal, join, join_strings, push_decimal, push_str};
use crate::timestamp::{timestamp_of, Timestamp};

verus! {

/// Where the registry answers for a crate.
pub const API_URL: &'static str = "https://crates.io/api/v1/crates";

/// From this count on the report shows `30+`.
pub const CONTRIBUTORS_SHOWN: u16 = 30;

/// What the report holds of one crate.
#[derive(Debug, PartialEq)]
pub struct Crate {
    pub name: String,
    pub downloads: u64,
    /// 0 where the code host could not be asked.
    pub contributors: u16,
    pub reverse_dependencies: u64,
    pub versions: Vec<u64>,
    pub created_at: Timestamp,
    pub updated_at: Timestamp,
    pub repository: String,
}

/// A crate's record as plain values.
pub struct CrateView {
    pub name: Seq<char>,
    pub downloads: u64,
    pub contributors: u16,
    pub reverse_dependencies: u64,
    pub versions: Seq<u64>,
    pub created_at: Timestamp,
    pub updated_at: Timestamp,
    pub repository: Seq<char>,
}

impl View for Crate {
    type V = CrateView;

    open spec fn view(&self) -> CrateView {
        CrateView {
            name: self.name@,
            downloads: self.downloads,
            contributors: self.contributors,
            reverse_dependencies: self.reverse_dependencies,
            versions: self.versions@,
            created_at: self.created_at,
            updated_at: self.updated_at,
            repository: self.repository@,
        }
    }
}

/// A pause that keeps two calls to the registry apart by the interval that
/// the registry asks for.
pub trait RateLimit {
    /// How often it has been waited.
    open spec fn waits(&self) -> nat {
        arbitrary()
    }

    /// Returns when the next call to the registry may be made.
    fn wait(&mut self)
        ensures
            final(self).waits() == old(self).waits() + 1,
    ;
}

/// The names of the report's columns, in their order.
pub open spec fn field_names() -> Seq<Seq<char>> {
    seq![
        "name"@,
        "downloads"@,
        "contributors"@,
        "reverse_dependencies"@,
        "versions"@,
        "created_at"@,
        "updated_at"@,
        "repository"@,
    ]
}

/// One `-` for each of `n` columns.
pub open spec fn dashes(n: nat) -> Seq<Seq<char>> {
    Seq::new(n, |i: int| seq!['-'])
}

/// One line of the report that holds `cells`.
pub open spec fn table_line(cells: Seq<Seq<char>>) -> Seq<char> {
    seq!['|'] + join(cells, seq!['|']) + seq!['|', '\n']
}

/// The count of contributors as the report shows it.
pub open spec fn contributors_text(contributors: u16) -> Seq<char> {
    if contributors >= CONTRIBUTORS_SHOWN {
        "30+"@
    } else {
        decimal(contributors as nat)
    }
}

/// The cells of the row for `record`, in the order of the columns.
pub open spec fn row_cells(record: CrateView) -> Seq<Seq<char>> {
    seq![
        record.name,
        decimal(record.downloads as nat),
        contributors_text(record.contributors),
        decimal(record.reverse_dependencies as nat),
        decimal(record.versions.len()),
        record.created_at.date_text(),
        record.updated_at.date_text(),
        record.repository,
    ]
}

/// The row of the report for `record`.
pub open spec fn row_text(record: CrateView) -> Seq<char> {
    table_line(row_cells(record))
}

/// One line of the report that holds `cells`.
pub fn line_of(cells: &Vec<String>) -> (line: String)
    ensures
        line@ == table_line(cells.deep_view()),
{
    let mut line = String::new();
    line.push('|');
    let joined = join_strings(cells, "|");
    proof {
        reveal_strlit("|");
        assert("|"@ == seq!['|']);
    }
    push_str(&mut line, joined.as_str());
    line.push('|');
    line.push('\n');
    line
}

impl Crate {
    /// The names of the report's columns, in their order.
    pub fn fields() -> (names: Vec<String>)
        ensures
            names.deep_view() == field_names(),
    {
        let mut names: Vec<String> = Vec::new();
        names.push("name".to_owned());
        names.push("downloads".to_owned());
        names.push("contributors".to_owned());
        names.push("reverse_dependencies".to_owned());
        names.push("versions".to_owned());
        names.push("created_at".to_owned());
        names.push("updated_at".to_owned());
        names.push("repository".to_owned());
        names
    }

    /// The first line of the report: the names of the columns.
    pub fn table_heading() -> (heading: String)
        ensures
            heading@ == table_line(field_names()),
    {
        line_of(&Crate::fields())
    }

    /// The second line of the report: one `-` for each column.
    pub fn table_divider() -> (divider: String)
        ensures
            divider@ == table_line(dashes(field_names().len())),
    {
        let names = Crate::fields();
        let mut cells: Vec<String> = Vec::new();
        let mut i: usize = 0;
        while i < names.len()
            invariant
                i <= names.len(),
                names@.len() == field_names().len(),
                cells.deep_view() == dashes(i as nat),
            decreases names.len() - i,
        {
            proof {
                reveal_strlit("-");
                assert("-"@ == seq!['-']);
            }
            let ghost before = cells.deep_view();
            cells.push("-".to_owned());
            assert(cells.deep_view() =~= before.push(seq!['-']));
            i += 1;
        }
        line_of(&cells)
    }

    /// The row of the report for this crate.
    pub fn table_entry(&self) -> (row: String)
        ensures
            row@ == row_text(self@),
    {
        let mut cells: Vec<String> = Vec::new();
        cells.push(self.name.clone());
        cells.push(decimal_string(self.downloads));
        cells.push(contributors_shown(self.contributors));
        cells.push(decimal_string(self.reverse_dependencies));
        cells.push(decimal_string(self.versions.len() as u64));
        cells.push(self.created_at.date());
        cells.push(self.updated_at.date());
        cells.push(self.repository.clone());
        assert(cells.deep_view() =~= row_cells(self@));
        line_of(&cells)
    }
}

/// `n` in decimal.
pub fn decimal_string(n: u64) -> (text: String)
    ensures
        text@ == decimal(n as nat),
{
    let mut text = String::new();
    push_decimal(&mut text, n);
    text
}

/// The count of contributors as the report shows it.
pub fn contributors_shown(contributors: u16) -> (text: String)
    ensures
        text@ == contributors_text(contributors),
{
    if contributors >= CONTRIBUTORS_SHOWN {
        "30+".to_owned()
    } else {
        decimal_string(contributors as u64)
    }
}

/// The address of the registry's entry for the crate `name`.
pub open spec fn crate_url(name: Seq<char>) -> Seq<char> {
    API_URL@ + seq!['/'] + name
}

/// The address of the registry's list of the crates that depend on `name`.
pub open spec fn reverse_dependencies_url(name: Seq<char>) -> Seq<char> {
    crate_url(name) + "/reverse_dependencies"@
}

/// The address of the registry's entry for the crate `crate_name`.
pub fn crate_info_url(crate_name: &str) -> (url: String)
    ensures
        url@ == crate_url(crate_name@),
{
    let mut url = String::new();
    push_str(&mut url, API_URL);
    url.push('/');
    push_str(&mut url, crate_name);
    url
}

/// The address of the registry's list of the crates that depend on `crate_name`.
pub fn reverse_dependencies_address(crate_name: &str) -> (url: String)
    ensures
        url@ == reverse_dependencies_url(crate_name@),
{
    let mut url = crate_info_url(crate_name);
    push_str(&mut url, "/reverse_dependencies");
    url
}

/// The point in time under `key`, where `json` is an object with a text under
/// that key that reads as one.
pub open spec fn time_member(json: Json, key: Seq<char>) -> Option<Timestamp> {
    match json.text_member(key) {
        Some(text) => timestamp_of(text),
        None => None,
    }
}

/// The record that the registry's entry `json` gives for the crate asked for as
/// `name`: the entry stands under `crate` and holds a name, the downloads, the
/// versions and the repository, and when it was created and updated. The record
/// has the name that was asked for, and no contributors or reverse dependencies.
pub open spec fn crate_in(json: Json, name: Seq<char>) -> Option<CrateView> {
    match json.member("crate"@) {
        Some(entry) => match (
            entry.text_member("name"@),
            entry.number_member("downloads"@),
            entry.numbers_member("versions"@),
            time_member(entry, "created_at"@),
            time_member(entry, "updated_at"@),
            entry.text_member("repository"@),
        ) {
            (
                Some(_),
                Some(downloads),
                Some(versions),
                Some(created_at),
                Some(updated_at),
                Some(repository),
            ) => Some(
                CrateView {
                    name,
                    downloads,
                    contributors: 0,
                    reverse_dependencies: 0,
                    versions,
                    created_at,
                    updated_at,
                    repository,
                },
            ),
            _ => None,
        },
        None => None,
    }
}

/// The count that the registry's answer `json` gives: the number under `total`
/// in the object under `meta`.
pub open spec fn total_in(json: Json) -> Option<u64> {
    match json.member("meta"@) {
        Some(meta) => meta.number_member("total"@),
        None => None,
    }
}

/// The point in time under `key`, where `json` is an object with a text under
/// that key that reads as one.
pub fn time_from_json(json: &Json, key: &str) -> (time: Option<Timestamp>)
    ensures
        time == time_member(*json, key@),
{
    match json.get_text(key) {
        Some(text) => Timestamp::parse(text.as_str()),
        None => None,
    }
}

/// The record that the registry's entry `json` gives for the crate asked for as
/// `crate_name`.
pub fn crate_from_json(json: &Json, crate_name: &str) -> (found: Option<Crate>)
    ensures
        match found {
            Some(record) => crate_in(*json, crate_name@) == Some(record@),
            None => crate_in(*json, crate_name@) is None,
        },
{
    let entry = match json.get("crate") {
        Some(entry) => entry,
        None => return None,
    };
    if entry.get_text("name").is_none() {
        return None;
    }
    let downloads = match entry.get_u64("downloads") {
        Some(downloads) => downloads,
        None => return None,
    };
    let versions = match entry.get_u64_array("versions") {
        Some(versions) => versions,
        None => return None,
    };
    let created_at = match time_from_json(entry, "created_at") {
        Some(created_at) => created_at,
        None => return None,
    };
    let updated_at = match time_from_json(entry, "updated_at") {
        Some(updated_at) => updated_at,
        None => return None,
    };
    let repository = match entry.get_text("repository") {
        Some(repository) => repository,
        None => return None,
    };
    Some(
        Crate {
            name: crate_name.to_owned(),
            downloads,
            contributors: 0,
            reverse_dependencies: 0,
            versions,
            created_at,
            updated_at,
            repository,
        },
    )
}

/// The count that the registry's answer `json` gives.
pub fn total_from_json(json: &Json) -> (total: Option<u64>)
    ensures
        total == total_in(*json),
{
    match json.get("meta") {
        Some(meta) => meta.get_u64("total"),
        None => None,
    }
}

/// The record that the text `response` gives for the crate asked for as `name`.
pub open spec fn crate_in_response(response: Seq<char>, name: Seq<char>) -> Option<CrateView> {
    match json_of(response) {
        Some(json) => crate_in(json, name),
        None => None,
    }
}

/// The count that the text `response` gives.
pub open spec fn total_in_response(response: Seq<char>) -> Option<u64> {
    match json_of(response) {
        Some(json) => total_in(json),
        None => None,
    }
}

/// The record in the registry's answer `response`, which came from `url`, for
/// the crate asked for as `crate_name`.
pub fn crate_from_response(url: &str, crate_name: &str, response: &str) -> (read: Result<
    Crate,
    Error,
>)
    ensures
        match crate_in_response(response@, crate_name@) {
            Some(record) => read matches Ok(found) && found@ == record,
            None => read matches Err(Error::Deserialization(at)) && at@ == url@,
        },
{
    let found = match Json::parse(response) {
        Some(json) => crate_from_json(&json, crate_name),
        None => None,
    };
    match found {
        Some(record) => Ok(record),
        None => Err(Error::Deserialization(url.to_owned())),
    }
}

/// The count in the registry's answer `response`, which came from `url`.
pub fn total_from_response(url: &str, response: &str) -> (read: Result<u64, Error>)
    ensures
        match total_in_response(response@) {
            Some(total) => read == Ok::<u64, Error>(total),
            None => read matches Err(Error::Deserialization(at)) && at@ == url@,
        },
{
    let found = match Json::parse(response) {
        Some(json) => total_from_json(&json),
        None => None,
    };
    match found {
        Some(total) => Ok(total),
        None => Err(Error::Deserialization(url.to_owned())),
    }
}

/// What the count of reverse dependencies of `name` comes to where the
/// registry's answer is `response`: the failure of the fetch, the count in the
/// answer, or that the answer could not be read.
pub open spec fn reverse_dependencies_given(
    name: Seq<char>,
    response: Result<String, Error>,
    count: Result<u64, Error>,
) -> bool {
    match response {
        Err(error) => count == Err::<u64, Error>(error),
        Ok(text) => match total_in_response(text@) {
            Some(total) => count == Ok::<u64, Error>(total),
            None => count matches Err(Error::Deserialization(at)) && at@
                == reverse_dependencies_url(name),
        },
    }
}

/// Whether `count` is what one of the registry's answers on the reverse
/// dependencies of `name` comes to.
pub open spec fn reverse_dependencies_outcome<H: GetRequest>(
    http_client: H,
    name: Seq<char>,
    count: Result<u64, Error>,
) -> bool {
    exists|response: Result<String, Error>| #[trigger]
        http_client.answers(reverse_dependencies_url(name), response)
            && reverse_dependencies_given(name, response, count)
}

/// Asks the registry how many crates depend on `crate_name`.
pub fn get_reverse_dependencies<H: GetRequest>(http_client: &H, crate_name: &str) -> (count: Result<
    u64,
    Error,
>)
    ensures
        reverse_dependencies_outcome(*http_client, crate_name@, count),
{
    let url = reverse_dependencies_address(crate_name);
    match http_client.get(url.as_str()) {
        Ok(text) => total_from_response(url.as_str(), text.as_str()),
        Err(error) => Err(error),
    }
}

/// What the lookup of `name` comes to where the registry's answer on the crate
/// is `response` and the lookup ends with it: the failure of the fetch, or that
/// the answer could not be read.
pub open spec fn crate_info_stopped(
    name: Seq<char>,
    response: Result<String, Error>,
    info: Result<Crate, Error>,
) -> bool {
    match response {
        Err(error) => info == Err::<Crate, Error>(error),
        Ok(text) => crate_in_response(text@, name) is None && (info matches Err(
            Error::Deserialization(at),
        ) && at@ == crate_url(name)),
    }
}

/// What the lookup of `name` comes to where the registry's answer on the crate
/// gave `record` and the reverse dependencies came to `count`: the record with
/// the count, or the failure with the name of the crate as its context.
pub open spec fn crate_info_completed(
    name: Seq<char>,
    record: CrateView,
    count: Result<u64, Error>,
    info: Result<Crate, Error>,
) -> bool {
    match count {
        Ok(total) => info matches Ok(found) && found@ == (CrateView {
            reverse_dependencies: total,
            ..record
        }),
        Err(error) => info matches Err(Error::Context(doing, cause)) && doing@
            == "failed to get reverse dependencies for "@ + name && *cause == error,
    }
}

/// Whether `info` is what the lookup of `name` can come to where the registry's
/// answer on the crate is `response`, a record was read out of it, and the
/// reverse dependencies were asked for.
pub open spec fn crate_info_continued<H: GetRequest>(
    http_client: H,
    name: Seq<char>,
    response: Result<String, Error>,
    info: Result<Crate, Error>,
) -> bool {
    match response {
        Ok(text) => match crate_in_response(text@, name) {
            Some(record) => exists|count: Result<u64, Error>| #[trigger]
                reverse_dependencies_outcome(http_client, name, count) && crate_info_completed(
                    name,
                    record,
                    count,
                    info,
                ),
            None => false,
        },
        Err(_) => false,
    }
}

/// Whether `info` is what the registry's answers on the crate `name` and on its
/// reverse dependencies can come to.
pub open spec fn crate_info_outcome<H: GetRequest>(
    http_client: H,
    name: Seq<char>,
    info: Result<Crate, Error>,
) -> bool {
    exists|response: Result<String, Error>| #[trigger]
        http_client.answers(crate_url(name), response) && (crate_info_stopped(
            name,
            response,
            info,
        ) || crate_info_continued(http_client, name, response, info))
}

/// Whether a lookup of `name` that came to `info` can have waited `waits`
/// times: it waits once before each call to the registry, so once where it
/// ends with the registry's answer on the crate, and twice where it goes on to
/// ask for the reverse dependencies.
pub open spec fn crate_info_waited<H: GetRequest>(
    http_client: H,
    name: Seq<char>,
    info: Result<Crate, Error>,
    waits: int,
) -> bool {
    exists|response: Result<String, Error>| #[trigger]
        http_client.answers(crate_url(name), response) && ((crate_info_stopped(
            name,
            response,
            info,
        ) && waits == 1) || (crate_info_continued(http_client, name, response, info) && waits
            == 2))
}

/// Looks the crate `crate_name` up in the registry: its entry, then the count
/// of the crates that depend on it. Before each of the two calls it waits as
/// `rate_limit` has it. The record has the name that was asked for, whatever
/// spelling the registry answers with.
pub fn get_crate_info<H: GetRequest, L: RateLimit>(
    http_client: &H,
    rate_limit: &mut L,
    crate_name: &str,
) -> (info: Result<Crate, Error>)
    ensures
        crate_info_outcome(*http_client, crate_name@, info),
        crate_info_waited(
            *http_client,
            crate_name@,
            info,
            final(rate_limit).waits() - old(rate_limit).waits(),
        ),
{
    rate_limit.wait();
    let url = crate_info_url(crate_name);
    let response = http_client.get(url.as_str());
    let text = match response {
        Ok(text) => text,
        Err(error) => {
            return Err(error);
        },
    };
    let mut record = match crate_from_response(url.as_str(), crate_name, text.as_str()) {
        Ok(record) => record,
        Err(error) => {
            return Err(error);
        },
    };
    rate_limit.wait();
    let count = get_reverse_dependencies(http_client, crate_name);
    match count {
        Ok(total) => {
            record.reverse_dependencies = total;
            Ok(record)
        },
        Err(error) => {
            let mut doing = String::new();
            push_str(&mut doing, "failed to get reverse dependencies for ");
            push_str(&mut doing, crate_name);
            let failed = Err(Error::Context(doing, Box::new(error)));
            failed
        },
    }
}

} // verus!
