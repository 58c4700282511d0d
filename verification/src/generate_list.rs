//! The list: which crates the report lacks, and the run that adds them.

use vstd::prelude::*;
use vstd::utf8::{decode_utf8, encode_utf8, valid_utf8};
use crate::crates_io::{
    crate_info_outcome, crate_info_waited, dashes, field_names, get_crate_info, row_text,
    table_line, Crate, CrateView, RateLimit,
};
use crate::error::Error;
use crate::file_io::{
    kept, left_after, lemma_left_after_keeps, lemma_left_as_it_was, FileIO, Step,
};
use crate::github::{contributor_count_outcome, get_contributor_count};
use crate::http_client::GetRequest;
use crate::progress_bar::ProgressBar;
use crate::text::{
    chars_of, lines, lines_of, split, split_chars, string_of, trim, trim_chars, views,
};

verus! {

/// The lines of the report `contents` after the heading and the divider.
pub open spec fn rows(contents: Seq<char>) -> Seq<Seq<char>> {
    let all = lines(contents);
    if all.len() > 2 {
        all.skip(2)
    } else {
        Seq::empty()
    }
}

/// What stands in the first column of `line`: between the first `|` and the
/// next, or the end of the line, without the white space around it. Empty
/// where the line has no `|`.
pub open spec fn first_column(line: Seq<char>) -> Seq<char> {
    let cells = split(line, '|');
    if cells.len() >= 2 {
        trim(cells[1])
    } else {
        Seq::empty()
    }
}

/// The first column of each of `rows` that has something in it, in order.
pub open spec fn names_in(rows: Seq<Seq<char>>) -> Seq<Seq<char>>
    decreases rows.len(),
{
    if rows.len() == 0 {
        Seq::empty()
    } else {
        let name = first_column(rows.last());
        if name.len() > 0 {
            names_in(rows.drop_last()).push(name)
        } else {
            names_in(rows.drop_last())
        }
    }
}

/// What stands in the first column of each of `rows` that has one, in order:
/// a row has a first column where it has a `|`.
pub open spec fn columns_in(rows: Seq<Seq<char>>) -> Seq<Seq<char>>
    decreases rows.len(),
{
    if rows.len() == 0 {
        Seq::empty()
    } else if split(rows.last(), '|').len() >= 2 {
        columns_in(rows.drop_last()).push(first_column(rows.last()))
    } else {
        columns_in(rows.drop_last())
    }
}

/// What stands in the first column of each row of the report `contents` that
/// has one, in order. A first column with nothing in it counts.
pub open spec fn first_columns(contents: Seq<char>) -> Seq<Seq<char>> {
    columns_in(rows(contents))
}

/// The names of the crates that the report `contents` has a row for.
pub open spec fn existing_names(contents: Seq<char>) -> Seq<Seq<char>> {
    names_in(rows(contents))
}

/// The names in `required` that are not in `existing`, each once, in the order
/// in which `required` first has them.
pub open spec fn missing(required: Seq<Seq<char>>, existing: Seq<Seq<char>>) -> Seq<Seq<char>>
    decreases required.len(),
{
    if required.len() == 0 {
        Seq::empty()
    } else {
        let before = missing(required.drop_last(), existing);
        let name = required.last();
        if existing.contains(name) || before.contains(name) {
            before
        } else {
            before.push(name)
        }
    }
}

/// The names of the crates that the report `contents` has a row for.
pub fn parse_existing_crate_names(contents: &str) -> (names: Vec<String>)
    ensures
        names.deep_view() == existing_names(contents@),
{
    let chars = chars_of(contents);
    let all = lines_of(&chars);
    let mut names: Vec<String> = Vec::new();
    if all.len() <= 2 {
        assert(names.deep_view() =~= Seq::<Seq<char>>::empty());
        return names;
    }
    let ghost found = rows(contents@);
    assert(found == views(all@).skip(2));
    let mut i: usize = 2;
    assert(names.deep_view() =~= names_in(found.take(0)));
    while i < all.len()
        invariant
            2 <= i <= all.len(),
            found == views(all@).skip(2),
            names.deep_view() == names_in(found.take(i - 2)),
        decreases all.len() - i,
    {
        let ghost line = found[i - 2];
        assert(line == all@[i as int]@);
        assert(found.take(i - 1).drop_last() == found.take(i - 2));
        assert(found.take(i - 1).last() == line);
        let cells = split_chars(&all[i], '|');
        assert(cells@.len() == views(cells@).len());
        if cells.len() >= 2 {
            assert(views(cells@)[1] == cells@[1]@);
            let name = trim_chars(&cells[1]);
            if name.len() > 0 {
                let ghost before = names.deep_view();
                names.push(string_of(&name));
                assert(names.deep_view() =~= before.push(name@));
            }
        }
        i += 1;
    }
    assert(found.take(all.len() - 2) == found);
    names
}

/// What stands in the first column of each row of the report `contents` that
/// has one, in order.
pub fn read_first_columns(contents: &str) -> (names: Vec<String>)
    ensures
        names.deep_view() == first_columns(contents@),
{
    let chars = chars_of(contents);
    let all = lines_of(&chars);
    let mut names: Vec<String> = Vec::new();
    if all.len() <= 2 {
        assert(names.deep_view() =~= Seq::<Seq<char>>::empty());
        return names;
    }
    let ghost found = rows(contents@);
    assert(found == views(all@).skip(2));
    let mut i: usize = 2;
    assert(names.deep_view() =~= columns_in(found.take(0)));
    while i < all.len()
        invariant
            2 <= i <= all.len(),
            found == views(all@).skip(2),
            names.deep_view() == columns_in(found.take(i - 2)),
        decreases all.len() - i,
    {
        let ghost line = found[i - 2];
        assert(line == all@[i as int]@);
        assert(found.take(i - 1).drop_last() == found.take(i - 2));
        assert(found.take(i - 1).last() == line);
        let cells = split_chars(&all[i], '|');
        assert(cells@.len() == views(cells@).len());
        if cells.len() >= 2 {
            assert(views(cells@)[1] == cells@[1]@);
            let name = trim_chars(&cells[1]);
            let ghost before = names.deep_view();
            names.push(string_of(&name));
            assert(names.deep_view() =~= before.push(name@));
        }
        i += 1;
    }
    assert(found.take(all.len() - 2) == found);
    names
}

/// Whether `name` is among `names`.
pub fn contains_name(names: &Vec<String>, name: &String) -> (found: bool)
    ensures
        found == names.deep_view().contains(name@),
{
    let mut i: usize = 0;
    while i < names.len()
        invariant
            i <= names.len(),
            forall|j: int| 0 <= j < i ==> names.deep_view()[j] != name@,
        decreases names.len() - i,
    {
        assert(names.deep_view()[i as int] == names@[i as int]@);
        if names[i] == *name {
            return true;
        }
        i += 1;
    }
    false
}

/// The names in `required` that are not in `existing`, each once, in the order
/// in which `required` first has them.
pub fn missing_names(required: &Vec<String>, existing: &Vec<String>) -> (lacking: Vec<String>)
    ensures
        lacking.deep_view() == missing(required.deep_view(), existing.deep_view()),
{
    let mut lacking: Vec<String> = Vec::new();
    let ghost wanted = required.deep_view();
    let mut i: usize = 0;
    assert(lacking.deep_view() =~= missing(wanted.take(0), existing.deep_view()));
    while i < required.len()
        invariant
            i <= required.len(),
            wanted == required.deep_view(),
            lacking.deep_view() == missing(wanted.take(i as int), existing.deep_view()),
        decreases required.len() - i,
    {
        assert(wanted.take(i + 1).drop_last() == wanted.take(i as int));
        assert(wanted.take(i + 1).last() == required@[i as int]@);
        if !contains_name(existing, &required[i]) && !contains_name(&lacking, &required[i]) {
            let ghost before = lacking.deep_view();
            lacking.push(required[i].clone());
            assert(lacking.deep_view() =~= before.push(required@[i as int]@));
        }
        i += 1;
    }
    assert(wanted.take(required.len() as int) == wanted);
    lacking
}

/// What became of one crate that the report lacked.
#[derive(Debug)]
pub struct Outcome {
    pub name: String,
    /// The record whose row was added to the report, or why the crate was
    /// passed over.
    pub result: Result<Crate, Error>,
}

/// The count of contributors that goes into the record: 0 where it could not
/// be had.
pub open spec fn contributors_or_zero(count: Result<u16, Error>) -> u16 {
    match count {
        Ok(found) => found,
        Err(_) => 0,
    }
}

/// Whether `result` is what gathering the record of the crate `name` can come
/// to, where the registry's answers came to `info`: the failure of the lookup
/// in the registry, or its record with the count of contributors that the code
/// host gave for its repository, and with 0 where it gave none.
pub open spec fn enriched<H: GetRequest>(
    http_client: H,
    info: Result<Crate, Error>,
    result: Result<Crate, Error>,
) -> bool {
    match info {
        Err(error) => result == Err::<Crate, Error>(error),
        Ok(record) => exists|count: Result<u16, Error>| #[trigger]
            contributor_count_outcome(http_client, record@.repository, count) && (
            result matches Ok(found) && found@ == (CrateView {
                contributors: contributors_or_zero(count),
                ..record@
            })),
    }
}

/// Whether `result` is what gathering the record of the crate `name` can come
/// to, given what the registry and the code host can answer.
pub open spec fn enrich_outcome<H: GetRequest>(
    http_client: H,
    name: Seq<char>,
    result: Result<Crate, Error>,
) -> bool {
    exists|info: Result<Crate, Error>| #[trigger]
        crate_info_outcome(http_client, name, info) && enriched(http_client, info, result)
}

/// Whether gathering the record of the crate `name` that came to `result` can
/// have waited `waits` times: as often as the lookup in the registry, which
/// waits once before each of its one or two calls.
pub open spec fn enrich_waited<H: GetRequest>(
    http_client: H,
    name: Seq<char>,
    result: Result<Crate, Error>,
    waits: int,
) -> bool {
    &&& 1 <= waits <= 2
    &&& exists|info: Result<Crate, Error>| #[trigger]
        crate_info_waited(http_client, name, info, waits) && enriched(http_client, info, result)
}

/// Gathers the record of the crate `crate_name`: from the registry, and then
/// the count of contributors from the code host. A failure of the registry is
/// the failure of the whole; a failure of the code host leaves 0 contributors.
/// It waits before each call to the registry, and not for the code host.
pub fn enrich<H: GetRequest, L: RateLimit>(
    http_client: &H,
    rate_limit: &mut L,
    crate_name: &str,
) -> (result: Result<Crate, Error>)
    ensures
        enrich_outcome(*http_client, crate_name@, result),
        enrich_waited(
            *http_client,
            crate_name@,
            result,
            final(rate_limit).waits() - old(rate_limit).waits(),
        ),
{
    let info = get_crate_info(http_client, rate_limit, crate_name);
    match info {
        Ok(mut record) => {
            let ghost read = record;
            let count = get_contributor_count(http_client, record.repository.as_str());
            record.contributors = match count {
                Ok(found) => found,
                Err(_) => 0,
            };
            assert(contributor_count_outcome(*http_client, read@.repository, count));
            assert(record@ == (CrateView { contributors: contributors_or_zero(count), ..read@ }));
            assert(enriched(*http_client, Ok(read), Ok(record)));
            Ok(record)
        },
        Err(error) => {
            assert(enriched(*http_client, info, Err(error)));
            Err(error)
        },
    }
}

/// The names that `outcomes` are about, in order.
pub open spec fn names_of(outcomes: Seq<Outcome>) -> Seq<Seq<char>> {
    Seq::new(outcomes.len(), |i: int| outcomes[i].name@)
}

/// The bytes of the rows that were added for `outcomes`: one row for each
/// record, in order, and nothing for a crate that was passed over.
pub open spec fn rows_added(outcomes: Seq<Outcome>) -> Seq<u8>
    decreases outcomes.len(),
{
    if outcomes.len() == 0 {
        Seq::empty()
    } else {
        match outcomes.last().result {
            Ok(record) => rows_added(outcomes.drop_last()) + encode_utf8(row_text(record@)),
            Err(_) => rows_added(outcomes.drop_last()),
        }
    }
}

/// The heading and the divider that a report starts with.
pub open spec fn headings_text() -> Seq<char> {
    table_line(field_names()) + table_line(dashes(field_names().len()))
}

/// What a run works on: the bytes of the report as it was found, or the
/// heading and the divider where there was no report.
pub open spec fn started(found: Option<Seq<u8>>) -> Seq<u8> {
    match found {
        Some(bytes) => bytes,
        None => encode_utf8(headings_text()),
    }
}

/// The encoding of two texts in a row is the encoding of the first and then
/// of the second.
pub proof fn lemma_encode_concat(first: Seq<char>, second: Seq<char>)
    ensures
        encode_utf8(first + second) == encode_utf8(first) + encode_utf8(second),
    decreases first.len(),
{
    if first.len() == 0 {
        assert(first + second == second);
        assert(encode_utf8(first) + encode_utf8(second) == encode_utf8(second));
    } else {
        lemma_encode_concat(first.drop_first(), second);
        assert((first + second).drop_first() == first.drop_first() + second);
    }
}

/// The sum of `waits`.
pub open spec fn total(waits: Seq<int>) -> int
    decreases waits.len(),
{
    if waits.len() == 0 {
        0
    } else {
        total(waits.drop_last()) + waits.last()
    }
}

/// Whether `waits` tells for each of `outcomes` how often gathering it can
/// have waited: once before each call to the registry.
pub open spec fn waited_for<H: GetRequest>(
    http_client: H,
    outcomes: Seq<Outcome>,
    waits: Seq<int>,
) -> bool {
    &&& waits.len() == outcomes.len()
    &&& forall|i: int|
        0 <= i < outcomes.len() ==> enrich_waited(
            http_client,
            (#[trigger] outcomes[i]).name@,
            outcomes[i].result,
            waits[i],
        )
}

/// Whether `gathered` is what a run on the report `start` came to for the
/// first of the names that the report lacks, in their order.
pub open spec fn gathered_so_far<H: GetRequest>(
    http_client: H,
    required: Seq<Seq<char>>,
    start: Seq<u8>,
    gathered: Seq<Outcome>,
) -> bool {
    let lacking = missing(required, existing_names(decode_utf8(start)));
    &&& gathered.len() <= lacking.len()
    &&& names_of(gathered) == lacking.take(gathered.len() as int)
    &&& forall|i: int|
        0 <= i < gathered.len() ==> enrich_outcome(
            http_client,
            (#[trigger] gathered[i]).name@,
            gathered[i].result,
        )
}

/// Whether a run on the report `start` can come to add `row` with the file
/// holding `held`: the report was read, the rows for `gathered` were added to
/// it, and `row` is the row of `record`, which was gathered for the next name
/// that the report lacks.
pub open spec fn stopped_at_row<H: GetRequest>(
    http_client: H,
    required: Seq<Seq<char>>,
    start: Seq<u8>,
    held: Option<Seq<u8>>,
    row: Seq<u8>,
    gathered: Seq<Outcome>,
    record: Crate,
) -> bool {
    let lacking = missing(required, existing_names(decode_utf8(start)));
    &&& valid_utf8(start)
    &&& gathered_so_far(http_client, required, start, gathered)
    &&& gathered.len() < lacking.len()
    &&& enrich_outcome(http_client, lacking[gathered.len() as int], Ok(record))
    &&& held == Some(start + rows_added(gathered))
    &&& row == encode_utf8(row_text(record@))
}

/// Whether a run on a report that was found as `found` can fail with `error`
/// at the file `at`, which was to take `refused`: the file refused to be made,
/// to take the heading or the divider, to be read, or to take the row of a
/// record that was gathered, and held at that point what the run had brought
/// it to. Where it was to be made or read, it was to take nothing.
pub open spec fn stopped<F: FileIO, H: GetRequest>(
    http_client: H,
    required: Seq<Seq<char>>,
    found: Option<Seq<u8>>,
    at: F,
    refused: Seq<u8>,
    error: Error,
) -> bool {
    let start = started(found);
    let heading = encode_utf8(table_line(field_names()));
    let divider = encode_utf8(table_line(dashes(field_names().len())));
    ||| found is None && at.contents() is None && refused == Seq::<u8>::empty() && at.refuses(
        Step::Create,
        error,
    )
    ||| found is None && at.contents() == Some(Seq::<u8>::empty()) && refused == heading
        && at.refuses(Step::Append, error)
    ||| found is None && at.contents() == Some(heading) && refused == divider && at.refuses(
        Step::Append,
        error,
    )
    ||| at.contents() == Some(start) && refused == Seq::<u8>::empty() && at.refuses(
        Step::Read,
        error,
    )
    ||| at.refuses(Step::Append, error) && exists|gathered: Seq<Outcome>, record: Crate|
        #[trigger] stopped_at_row(
            http_client,
            required,
            start,
            at.contents(),
            refused,
            gathered,
            record,
        )
}

/// Brings the report in `output_file` up to `crate_names`. Where there is no
/// report, one is made with the heading and the divider. For each name that
/// the report has no row for, in the order of `crate_names`, the record is
/// gathered and its row is added at the end of the report; a crate whose
/// lookup in the registry fails is passed over, which `progress_bar` is told
/// at once. The result tells what became of each of those names. The run fails only where the file refuses a step,
/// and with the failure that the file gave. It ends there: the report then
/// holds what the run had brought it to at that step, with a beginning of
/// what the file refused behind it at most.
pub fn generate_list<F: FileIO, H: GetRequest, L: RateLimit, P: ProgressBar>(
    crate_names: Vec<String>,
    output_file: &mut F,
    http_client: &H,
    rate_limit: &mut L,
    progress_bar: &mut P,
) -> (done: Result<Vec<Outcome>, Error>)
    ensures
        kept(old(output_file).contents(), final(output_file).contents()),
        done matches Ok(outcomes) ==> {
            let start = started(old(output_file).contents());
            &&& valid_utf8(start)
            &&& names_of(outcomes@) == missing(
                crate_names.deep_view(),
                existing_names(decode_utf8(start)),
            )
            &&& forall|i: int|
                0 <= i < outcomes@.len() ==> enrich_outcome(
                    *http_client,
                    (#[trigger] outcomes@[i]).name@,
                    outcomes@[i].result,
                )
            &&& final(output_file).contents() == Some(start + rows_added(outcomes@))
            &&& exists|waits: Seq<int>|
                #[trigger] waited_for(*http_client, outcomes@, waits)
                    && final(rate_limit).waits() == old(rate_limit).waits() + total(waits)
        },
        done matches Err(error) ==> exists|at: F, refused: Seq<u8>|
            #[trigger] stopped(
                *http_client,
                crate_names.deep_view(),
                old(output_file).contents(),
                at,
                refused,
                error,
            ) && left_after(at.contents(), refused, final(output_file).contents()),
{
    let ghost required = crate_names.deep_view();
    let ghost found = output_file.contents();
    if !output_file.is_present() {
        let ghost at = *output_file;
        match output_file.create() {
            Ok(()) => {},
            Err(error) => {
                assert(stopped(*http_client, required, found, at, Seq::<u8>::empty(), error));
                return Err(error);
            },
        }
        let ghost at = *output_file;
        let heading = Crate::table_heading();
        match output_file.append(heading.as_str().as_bytes()) {
            Ok(()) => {},
            Err(error) => {
                assert(stopped(*http_client, required, found, at, encode_utf8(heading@), error));
                return Err(error);
            },
        }
        let ghost at = *output_file;
        let divider = Crate::table_divider();
        assert(at.contents() == Some(encode_utf8(heading@)));
        match output_file.append(divider.as_str().as_bytes()) {
            Ok(()) => {},
            Err(error) => {
                assert(stopped(*http_client, required, found, at, encode_utf8(divider@), error));
                return Err(error);
            },
        }
        proof {
            lemma_encode_concat(
                table_line(field_names()),
                table_line(dashes(field_names().len())),
            );
        }
        assert(output_file.contents() == Some(started(old(output_file).contents())));
    }
    let ghost start = started(old(output_file).contents());
    assert(output_file.contents() == Some(start));
    let contents = match output_file.read_to_string() {
        Ok(contents) => contents,
        Err(error) => {
            assert(stopped(
                *http_client,
                required,
                found,
                *output_file,
                Seq::<u8>::empty(),
                error,
            ));
            proof {
                lemma_left_as_it_was(output_file.contents());
            }
            return Err(error);
        },
    };
    proof {
        vstd::utf8::encode_utf8_decode_utf8(contents@);
        vstd::utf8::encode_utf8_valid_utf8(contents@);
    }
    let existing = parse_existing_crate_names(contents.as_str());
    let lacking = missing_names(&crate_names, &existing);
    progress_bar.set_total(lacking.len() as u64);
    let mut outcomes: Vec<Outcome> = Vec::new();
    let ghost wanted = lacking.deep_view();
    let ghost mut waited: Seq<int> = Seq::empty();
    let mut i: usize = 0;
    assert(names_of(outcomes@) =~= wanted.take(0));
    while i < lacking.len()
        invariant
            i <= lacking.len(),
            wanted == lacking.deep_view(),
            required == crate_names.deep_view(),
            found == old(output_file).contents(),
            start == started(found),
            valid_utf8(start),
            wanted == missing(required, existing_names(decode_utf8(start))),
            kept(old(output_file).contents(), Some(start)),
            outcomes@.len() == i,
            names_of(outcomes@) == wanted.take(i as int),
            forall|j: int|
                0 <= j < outcomes@.len() ==> enrich_outcome(
                    *http_client,
                    (#[trigger] outcomes@[j]).name@,
                    outcomes@[j].result,
                ),
            output_file.contents() == Some(start + rows_added(outcomes@)),
            waited_for(*http_client, outcomes@, waited),
            rate_limit.waits() == old(rate_limit).waits() + total(waited),
        decreases lacking.len() - i,
    {
        let name = lacking[i].clone();
        assert(name@ == wanted[i as int]);
        let mut message = name.clone();
        message.push(' ');
        progress_bar.set_message(message.as_str());
        let ghost waits_before = rate_limit.waits();
        let result = enrich(http_client, rate_limit, name.as_str());
        let ghost earlier = waited;
        proof {
            waited = waited.push(rate_limit.waits() - waits_before);
            assert(waited.drop_last() == earlier);
        }
        if let Ok(record) = &result {
            let row = record.table_entry();
            let ghost at = *output_file;
            match output_file.append(row.as_str().as_bytes()) {
                Ok(()) => {},
                Err(error) => {
                    assert(gathered_so_far(*http_client, required, start, outcomes@));
                    assert(stopped_at_row(
                        *http_client,
                        required,
                        start,
                        at.contents(),
                        encode_utf8(row@),
                        outcomes@,
                        *record,
                    ));
                    assert(stopped(*http_client, required, found, at, encode_utf8(row@), error));
                    proof {
                        lemma_left_after_keeps(
                            at.contents(),
                            encode_utf8(row@),
                            output_file.contents(),
                        );
                    }
                    return Err(error);
                },
            }
        }
        if let Err(error) = &result {
            progress_bar.report_failure(name.as_str(), error.message().as_str());
        }
        let ghost before = outcomes@;
        outcomes.push(Outcome { name, result });
        assert(outcomes@.drop_last() == before);
        assert forall|j: int| 0 <= j < i implies names_of(outcomes@)[j] == wanted[j] by {
            assert(names_of(before)[j] == wanted.take(i as int)[j]);
        }
        assert(names_of(outcomes@) =~= wanted.take(i + 1));
        progress_bar.increment();
        i += 1;
    }
    assert(wanted.take(lacking.len() as int) == wanted);
    Ok(outcomes)
}

/// The names that a run works on are those of the required set without those
/// of the report: a name is among the missing ones exactly where it is
/// required and the report does not have it, and none of them is there twice.
pub proof fn lemma_missing_is_difference(required: Seq<Seq<char>>, existing: Seq<Seq<char>>)
    ensures
        missing(required, existing).no_duplicates(),
        forall|name: Seq<char>|
            missing(required, existing).contains(name) <==> required.contains(name)
                && !existing.contains(name),
    decreases required.len(),
{
    let lacking = missing(required, existing);
    if required.len() == 0 {
        assert forall|name: Seq<char>| !required.contains(name) by {}
    } else {
        let before = missing(required.drop_last(), existing);
        let last = required.last();
        lemma_missing_is_difference(required.drop_last(), existing);
        assert forall|name: Seq<char>|
            required.contains(name) <==> required.drop_last().contains(name) || name == last by {
            if required.contains(name) {
                let i = choose|i: int| 0 <= i < required.len() && required[i] == name;
                if i < required.len() - 1 {
                    assert(required.drop_last()[i] == name);
                }
            }
            if required.drop_last().contains(name) {
                let i = choose|i: int|
                    0 <= i < required.drop_last().len() && required.drop_last()[i] == name;
                assert(required[i] == name);
            }
            if name == last {
                assert(required[required.len() - 1] == name);
            }
        }
        if existing.contains(last) || before.contains(last) {
            assert(lacking == before);
        } else {
            assert(lacking == before.push(last));
            assert forall|name: Seq<char>|
                lacking.contains(name) <==> before.contains(name) || name == last by {
                if lacking.contains(name) {
                    let i = choose|i: int| 0 <= i < lacking.len() && lacking[i] == name;
                    if i < before.len() {
                        assert(before[i] == name);
                    }
                }
                if before.contains(name) {
                    let i = choose|i: int| 0 <= i < before.len() && before[i] == name;
                    assert(lacking[i] == name);
                }
                if name == last {
                    assert(lacking[before.len() as int] == name);
                }
            }
            assert forall|i: int, j: int|
                0 <= i < lacking.len() && 0 <= j < lacking.len() && i != j implies lacking[i]
                != lacking[j] by {
                if i < before.len() && j < before.len() {
                    assert(before[i] != before[j]);
                } else if i < before.len() {
                    assert(before.contains(before[i]));
                } else {
                    assert(before.contains(before[j]));
                }
            }
        }
    }
}

/// The rows added for two lists of outcomes in a row are those for the first
/// and then those for the second.
pub proof fn lemma_rows_added_concat(first: Seq<Outcome>, second: Seq<Outcome>)
    ensures
        rows_added(first + second) == rows_added(first) + rows_added(second),
    decreases second.len(),
{
    if second.len() == 0 {
        assert(first + second == first);
        assert(rows_added(first) + rows_added(second) == rows_added(first));
    } else {
        lemma_rows_added_concat(first, second.drop_last());
        assert((first + second).drop_last() == first + second.drop_last());
        assert((first + second).last() == second.last());
        match second.last().result {
            Ok(record) => {
                assert(rows_added(first + second) =~= rows_added(first) + rows_added(second));
            },
            Err(_) => {},
        }
    }
}

/// A crate whose lookup in the registry fails gets no row, and the crates
/// after it get theirs: a failed lookup is the failure of gathering the
/// record, and the rows added over a run in which `failed` was passed over
/// between `before` and `after` are the rows for `before` and then those for
/// `after`.
pub proof fn lemma_failed_lookup_adds_no_row<H: GetRequest>(
    http_client: H,
    before: Seq<Outcome>,
    failed: Outcome,
    info: Result<Crate, Error>,
    after: Seq<Outcome>,
)
    requires
        info is Err,
        enriched(http_client, info, failed.result),
    ensures
        failed.result is Err,
        rows_added(before + seq![failed] + after) == rows_added(before) + rows_added(after),
{
    let one = seq![failed];
    lemma_rows_added_concat(before + one, after);
    lemma_rows_added_concat(before, one);
    assert(one.drop_last() == Seq::<Outcome>::empty());
    assert(one.last() == failed);
    assert(rows_added(one.drop_last()) == Seq::<u8>::empty());
    assert(rows_added(one) == Seq::<u8>::empty());
    assert(rows_added(before) + rows_added(one) == rows_added(before));
}

/// Whether the code host answered the question for the contributors to the
/// repository at `repo_url` with a text that gives the count `contributors`.
pub open spec fn counted<H: GetRequest>(
    http_client: H,
    repo_url: Seq<char>,
    contributors: u16,
) -> bool {
    match crate::github::repository_path(repo_url) {
        Some(path) => exists|text: String| #[trigger]
            http_client.answers(crate::github::contributors_url(path), Ok(text))
                && crate::github::contributors_in_response(text@) == Some(contributors),
        None => false,
    }
}

/// A crate that the registry has a record of gets its row whatever the code
/// host does: gathering ends with a record that differs from the registry's
/// in the contributors at most, and it has 0 contributors unless the code host
/// answered with a text that gives another count.
pub proof fn lemma_code_host_cannot_fail_a_row<H: GetRequest>(
    http_client: H,
    record: Crate,
    result: Result<Crate, Error>,
)
    requires
        enriched(http_client, Ok(record), result),
    ensures
        result is Ok,
        result->Ok_0@ == (CrateView { contributors: result->Ok_0@.contributors, ..record@ }),
        result->Ok_0@.contributors != 0 ==> counted(
            http_client,
            record@.repository,
            result->Ok_0@.contributors,
        ),
{
    let count = choose|count: Result<u16, Error>| #[trigger]
        contributor_count_outcome(http_client, record@.repository, count) && (result matches Ok(
            found,
        ) && found@ == (CrateView { contributors: contributors_or_zero(count), ..record@ }));
    let found = result->Ok_0;
    if found@.contributors != 0 {
        let path = crate::github::repository_path(record@.repository)->Some_0;
        let response = choose|response: Result<String, Error>| #[trigger]
            http_client.answers(crate::github::contributors_url(path), response)
                && crate::github::contributor_count_given(path, response, count);
        let text = response->Ok_0;
        assert(http_client.answers(crate::github::contributors_url(path), Ok(text)));
    }
}

} // verus!
