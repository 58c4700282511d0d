//! What a run finds of the run before it: the rows that were added read back
//! as the names they were added for.

use vstd::prelude::*;
use vstd::utf8::{decode_utf8, encode_utf8, valid_utf8};
use crate::crates_io::{
    contributors_text, crate_info_continued, crate_info_outcome, crate_info_stopped, dashes,
    field_names, row_cells, row_text, Crate, CrateView,
};
use crate::error::Error;
use crate::generate_list::{
    enrich_outcome, enriched, existing_names, first_column, headings_text, lemma_encode_concat,
    lemma_missing_is_difference, missing, names_in, names_of, rows, rows_added, started, Outcome,
};
use crate::http_client::GetRequest;
use crate::text::{
    decimal, digit, first_index, is_whitespace, join, lemma_first_index, lemma_first_index_is,
    lemma_lines_concat, lemma_split_concat, lemma_split_len, lines, split, trim, two_digits,
};
use crate::timestamp::{year_text, Timestamp};

verus! {

/// Whether the report `text` has a heading and a divider: it has two lines at
/// least, and its last line is ended.
pub open spec fn has_headings(text: Seq<char>) -> bool {
    lines(text).len() >= 2 && text.len() > 0 && text.last() == '\n'
}

/// Whether `name` reads back from a row as it was written: it is not empty,
/// holds no `|` and no line feed, and has no white space at either end.
pub open spec fn plain_name(name: Seq<char>) -> bool {
    &&& name.len() > 0
    &&& !name.contains('|')
    &&& !name.contains('\n')
    &&& !is_whitespace(name.first())
    &&& !is_whitespace(name.last())
}

/// The rows that were added for `outcomes`, as text.
pub open spec fn rows_written(outcomes: Seq<Outcome>) -> Seq<char>
    decreases outcomes.len(),
{
    if outcomes.len() == 0 {
        Seq::empty()
    } else {
        match outcomes.last().result {
            Ok(record) => rows_written(outcomes.drop_last()) + row_text(record@),
            Err(_) => rows_written(outcomes.drop_last()),
        }
    }
}

/// The bytes that were added for `outcomes` are the encoding of the rows.
pub proof fn lemma_rows_added_encode(outcomes: Seq<Outcome>)
    ensures
        rows_added(outcomes) == encode_utf8(rows_written(outcomes)),
    decreases outcomes.len(),
{
    if outcomes.len() > 0 {
        lemma_rows_added_encode(outcomes.drop_last());
        match outcomes.last().result {
            Ok(record) => {
                lemma_encode_concat(rows_written(outcomes.drop_last()), row_text(record@));
            },
            Err(_) => {},
        }
    }
}

/// Two pieces or more in a row start with the first piece and `sep`.
pub proof fn lemma_join_first(pieces: Seq<Seq<char>>, sep: Seq<char>)
    requires
        pieces.len() >= 2,
    ensures
        join(pieces, sep) == pieces.first() + sep + join(pieces.drop_first(), sep),
    decreases pieces.len(),
{
    if pieces.len() == 2 {
        assert(join(pieces.drop_last(), sep) == pieces.first());
    } else {
        lemma_join_first(pieces.drop_last(), sep);
        assert(pieces.drop_last().drop_first() == pieces.drop_first().drop_last());
    }
}

/// A row is a `|`, the name, a `|`, and more that ends with a line feed. The
/// result is what follows the second `|`.
pub proof fn lemma_row_shape(record: CrateView) -> (rest: Seq<char>)
    ensures
        row_text(record) == seq!['|'] + record.name + seq!['|'] + rest,
        rest.len() > 0,
        rest.last() == '\n',
{
    let cells = row_cells(record);
    lemma_join_first(cells, seq!['|']);
    let rest = join(cells.drop_first(), seq!['|']) + seq!['|', '\n'];
    rest
}

/// A plain name has no white space to take off.
pub proof fn lemma_trim_plain(name: Seq<char>)
    requires
        plain_name(name),
    ensures
        trim(name) == name,
{
}

/// In a line that is a `|`, a plain name, a `|` and more, the name is what
/// stands in the first column.
pub proof fn lemma_first_column(name: Seq<char>, more: Seq<char>)
    requires
        plain_name(name),
    ensures
        first_column(seq!['|'] + name + seq!['|'] + more) == name,
{
    let line = seq!['|'] + name + seq!['|'] + more;
    let after = line.skip(1);
    lemma_first_index_is(line, '|', 0);
    assert forall|j: int| 0 <= j < name.len() implies after[j] != '|' by {
        assert(name.contains(name[j]));
    }
    lemma_first_index_is(after, '|', name.len() as int);
    lemma_split_len(after.skip(name.len() as int + 1), '|');
    assert(split(after, '|')[0] == name);
    lemma_trim_plain(name);
}

/// The first line of the row for a record with a plain name has the name in
/// its first column.
pub proof fn lemma_row_first_line(record: CrateView)
    requires
        plain_name(record.name),
    ensures
        lines(row_text(record)).len() >= 1,
        first_column(lines(row_text(record)).first()) == record.name,
{
    let name = record.name;
    let rest = lemma_row_shape(record);
    let row = row_text(record);
    let start = name.len() + 2;
    let at = first_index(row, '\n');
    lemma_first_index(row, '\n');
    assert(at >= start);
    let piece = row.take(at as int);
    assert(piece == seq!['|'] + name + seq!['|'] + rest.take(at - start));
    lemma_split_len(row.skip(at as int + 1), '\n');
    if piece.last() == '\r' {
        assert(piece.len() > start);
        assert(lines(row).first() == seq!['|'] + name + seq!['|'] + rest.take(
            at - start,
        ).drop_last());
        lemma_first_column(name, rest.take(at - start).drop_last());
    } else {
        lemma_first_column(name, rest.take(at - start));
    }
}

/// The names in two lists of rows are those in the first and then those in
/// the second.
pub proof fn lemma_names_in_concat(first: Seq<Seq<char>>, second: Seq<Seq<char>>)
    ensures
        names_in(first + second) == names_in(first) + names_in(second),
    decreases second.len(),
{
    if second.len() > 0 {
        lemma_names_in_concat(first, second.drop_last());
        assert((first + second).drop_last() == first + second.drop_last());
    }
}

/// What stands in the first column of the first of `rows` is among the names
/// in them, where something stands there.
pub proof fn lemma_names_in_first(rows: Seq<Seq<char>>)
    requires
        rows.len() >= 1,
        first_column(rows.first()).len() > 0,
    ensures
        names_in(rows).contains(first_column(rows.first())),
{
    let head = seq![rows.first()];
    assert(rows == head + rows.drop_first());
    lemma_names_in_concat(head, rows.drop_first());
    assert(names_in(head.drop_last()) == Seq::<Seq<char>>::empty());
    assert(names_in(rows)[0] == first_column(rows.first()));
}

/// The names in a report with a heading and a divider that has `more` behind
/// it are the names in the report and then the names in `more`.
pub proof fn lemma_names_after(report: Seq<char>, more: Seq<char>)
    requires
        has_headings(report),
    ensures
        existing_names(report + more) == existing_names(report) + names_in(lines(more)),
        lines(report + more).len() >= 2,
{
    lemma_lines_concat(report, more);
    let head = lines(report);
    let tail = lines(more);
    assert(rows(report + more) == head.skip(2) + tail);
    lemma_names_in_concat(head.skip(2), tail);
}

/// A report that a run has just made has its heading and divider.
pub proof fn lemma_new_report_has_headings()
    ensures
        valid_utf8(started(None)),
        decode_utf8(started(None)) == headings_text(),
        has_headings(headings_text()),
{
    let heading = seq!['|'] + join(field_names(), seq!['|']) + seq!['|'];
    let divider = seq!['|'] + join(dashes(field_names().len()), seq!['|']) + seq!['|'];
    let none = Seq::<char>::empty();
    let text = headings_text();
    vstd::utf8::encode_utf8_valid_utf8(text);
    vstd::utf8::encode_utf8_decode_utf8(text);
    assert(text == heading + seq!['\n'] + (divider + seq!['\n'] + none));
    lemma_split_concat(heading, '\n', divider + seq!['\n'] + none);
    lemma_split_concat(divider, '\n', none);
    lemma_split_len(heading, '\n');
    lemma_split_len(divider, '\n');
}

/// Whether each record among `outcomes` has the name that it was gathered for,
/// and that name is plain.
pub open spec fn named_plainly(outcomes: Seq<Outcome>) -> bool {
    forall|i: int|
        0 <= i < outcomes.len() ==> ((#[trigger] outcomes[i]).result matches Ok(record)
            ==> record@.name == outcomes[i].name@ && plain_name(outcomes[i].name@))
}

/// The report after the rows for `outcomes` were added still has its heading
/// and divider, and it has the names that it had and the name of each crate
/// that a row was added for.
pub proof fn lemma_names_after_rows(report: Seq<char>, outcomes: Seq<Outcome>)
    requires
        has_headings(report),
        named_plainly(outcomes),
    ensures
        has_headings(report + rows_written(outcomes)),
        forall|name: Seq<char>|
            existing_names(report).contains(name) ==> existing_names(
                report + rows_written(outcomes),
            ).contains(name),
        forall|i: int|
            0 <= i < outcomes.len() && (#[trigger] outcomes[i]).result is Ok ==> existing_names(
                report + rows_written(outcomes),
            ).contains(outcomes[i].name@),
    decreases outcomes.len(),
{
    let after = report + rows_written(outcomes);
    if outcomes.len() > 0 {
        let earlier = outcomes.drop_last();
        let last = outcomes.last();
        assert(named_plainly(earlier));
        lemma_names_after_rows(report, earlier);
        let before = report + rows_written(earlier);
        assert forall|i: int| 0 <= i < outcomes.len() - 1 && (#[trigger] outcomes[i]).result
            is Ok implies existing_names(before).contains(outcomes[i].name@) by {
            assert(earlier[i] == outcomes[i]);
        }
        match last.result {
            Ok(record) => {
                let row = row_text(record@);
                assert(after == before + row);
                lemma_names_after(before, row);
                lemma_row_first_line(record@);
                lemma_names_in_first(lines(row));
                let old_names = existing_names(before);
                let new_names = names_in(lines(row));
                assert forall|name: Seq<char>| old_names.contains(name) implies existing_names(
                    after,
                ).contains(name) by {
                    let i = choose|i: int| 0 <= i < old_names.len() && old_names[i] == name;
                    assert((old_names + new_names)[i] == name);
                }
                assert(existing_names(after).contains(last.name@)) by {
                    let i = choose|i: int| 0 <= i < new_names.len() && new_names[i] == last.name@;
                    assert((old_names + new_names)[old_names.len() + i] == last.name@);
                }
            },
            Err(_) => {},
        }
    }
}

/// A record that was gathered for a crate has the name that was asked for.
pub proof fn lemma_record_keeps_name<H: GetRequest>(
    http_client: H,
    name: Seq<char>,
    record: Crate,
)
    requires
        enrich_outcome(http_client, name, Ok(record)),
    ensures
        record@.name == name,
{
    let result = Ok::<Crate, Error>(record);
    let info = choose|info: Result<Crate, Error>| #[trigger]
        crate_info_outcome(http_client, name, info) && enriched(http_client, info, result);
    let response = choose|response: Result<String, Error>| #[trigger]
        http_client.answers(crate::crates_io::crate_url(name), response) && (crate_info_stopped(
            name,
            response,
            info,
        ) || crate_info_continued(http_client, name, response, info));
}

/// A second run adds no row for a crate that the run before it added a row
/// for: where the first run found a report with a heading and a divider, or
/// none, and the required names are plain, the names that the report lacks
/// after it are among those that it passed over. Where it passed over none,
/// the report lacks nothing, so the second run adds nothing.
pub proof fn lemma_second_run<H: GetRequest>(
    http_client: H,
    required: Seq<Seq<char>>,
    report: Seq<u8>,
    outcomes: Seq<Outcome>,
)
    requires
        valid_utf8(report),
        has_headings(decode_utf8(report)),
        forall|i: int| 0 <= i < required.len() ==> plain_name(#[trigger] required[i]),
        names_of(outcomes) == missing(required, existing_names(decode_utf8(report))),
        forall|i: int|
            0 <= i < outcomes.len() ==> enrich_outcome(
                http_client,
                (#[trigger] outcomes[i]).name@,
                outcomes[i].result,
            ),
    ensures
        valid_utf8(report + rows_added(outcomes)),
        forall|name: Seq<char>|
            missing(
                required,
                existing_names(decode_utf8(report + rows_added(outcomes))),
            ).contains(name) ==> exists|i: int|
                0 <= i < outcomes.len() && (#[trigger] outcomes[i]).name@ == name
                    && outcomes[i].result is Err,
        (forall|i: int| 0 <= i < outcomes.len() ==> (#[trigger] outcomes[i]).result is Ok)
            ==> missing(required, existing_names(decode_utf8(report + rows_added(outcomes))))
            == Seq::<Seq<char>>::empty(),
{
    let text = decode_utf8(report);
    let written = rows_written(outcomes);
    let first = missing(required, existing_names(text));
    lemma_decoded_after_rows(report, outcomes);
    lemma_missing_is_difference(required, existing_names(text));
    lemma_gathered_named_plainly(http_client, required, existing_names(text), outcomes);
    lemma_names_after_rows(text, outcomes);
    let second = missing(required, existing_names(text + written));
    lemma_missing_is_difference(required, existing_names(text + written));
    assert forall|name: Seq<char>| second.contains(name) implies exists|i: int|
        0 <= i < outcomes.len() && (#[trigger] outcomes[i]).name@ == name && outcomes[i].result
            is Err by {
        assert(!existing_names(text).contains(name));
        let i = choose|i: int| 0 <= i < first.len() && first[i] == name;
        assert(outcomes[i].name@ == name);
    }
    if forall|i: int| 0 <= i < outcomes.len() ==> (#[trigger] outcomes[i]).result is Ok {
        if second.len() > 0 {
            assert(second.contains(second[0]));
        }
    }
}

/// Whether `text` has no line feed in it.
pub open spec fn one_line(text: Seq<char>) -> bool {
    !text.contains('\n')
}

/// Two texts in a row have no line feed where neither has one.
pub proof fn lemma_one_line_concat(first: Seq<char>, second: Seq<char>)
    ensures
        one_line(first + second) <==> one_line(first) && one_line(second),
{
    let whole = first + second;
    if whole.contains('\n') {
        let i = choose|i: int| 0 <= i < whole.len() && whole[i] == '\n';
        assert(i < first.len() ==> first[i] == '\n');
        assert(i >= first.len() ==> second[i - first.len()] == '\n');
    }
    if first.contains('\n') {
        let i = choose|i: int| 0 <= i < first.len() && first[i] == '\n';
        assert(whole[i] == '\n');
    }
    if second.contains('\n') {
        let i = choose|i: int| 0 <= i < second.len() && second[i] == '\n';
        assert(whole[first.len() + i] == '\n');
    }
}

/// A character that is no line feed is a text without one.
pub proof fn lemma_one_line_single(c: char)
    requires
        c != '\n',
    ensures
        one_line(seq![c]),
{
    if seq![c].contains('\n') {
        let i = choose|i: int| 0 <= i < seq![c].len() && seq![c][i] == '\n';
        assert(seq![c][i] == c);
    }
}

/// A number in decimal has no line feed in it.
pub proof fn lemma_decimal_one_line(n: nat)
    ensures
        one_line(decimal(n)),
    decreases n,
{
    if n < 10 {
        lemma_one_line_single(digit(n));
    } else {
        lemma_decimal_one_line(n / 10);
        lemma_one_line_concat(decimal(n / 10), seq![digit(n % 10)]);
        lemma_one_line_single(digit(n % 10));
    }
}

/// A date as the report shows it has no line feed in it.
pub proof fn lemma_date_one_line(time: Timestamp)
    ensures
        one_line(time.date_text()),
{
    let day = two_digits(time.day as nat);
    let month = two_digits(time.month as nat);
    let year = year_text(time.year as int);
    let bar = seq!['/'];
    lemma_two_digits_one_line(time.day as nat);
    lemma_two_digits_one_line(time.month as nat);
    assert(one_line(year)) by {
        let size = if time.year < 0 {
            (-time.year) as nat
        } else {
            time.year as nat
        };
        let digits = decimal(size);
        lemma_decimal_one_line(size);
        let zeros = Seq::new((4 - digits.len()) as nat, |i: int| '0');
        assert(one_line(zeros)) by {
            if zeros.contains('\n') {
                let i = choose|i: int| 0 <= i < zeros.len() && zeros[i] == '\n';
                assert(zeros[i] == '0');
            }
        }
        lemma_one_line_concat(zeros, digits);
        let padded = if digits.len() < 4 {
            zeros + digits
        } else {
            digits
        };
        lemma_one_line_concat(seq!['-'], padded);
        lemma_one_line_concat(seq!['+'], padded);
        lemma_one_line_single('-');
        lemma_one_line_single('+');
    }
    lemma_one_line_single('/');
    lemma_one_line_concat(day, bar);
    lemma_one_line_concat(day + bar, month);
    lemma_one_line_concat(day + bar + month, bar);
    lemma_one_line_concat(day + bar + month + bar, year);
}

/// A number in two digits or more has no line feed in it.
pub proof fn lemma_two_digits_one_line(n: nat)
    ensures
        one_line(two_digits(n)),
{
    lemma_decimal_one_line(n);
    if n < 10 {
        lemma_one_line_single('0');
        lemma_one_line_single(digit(n));
        lemma_one_line_concat(seq!['0'], seq![digit(n)]);
    }
}

/// Pieces in a row have no line feed where no piece and no separator has one.
pub proof fn lemma_join_one_line(pieces: Seq<Seq<char>>, sep: Seq<char>)
    requires
        one_line(sep),
        forall|i: int| 0 <= i < pieces.len() ==> one_line(#[trigger] pieces[i]),
    ensures
        one_line(join(pieces, sep)),
    decreases pieces.len(),
{
    if pieces.len() >= 2 {
        assert forall|i: int| 0 <= i < pieces.drop_last().len() implies one_line(
            #[trigger] pieces.drop_last()[i],
        ) by {
            assert(pieces.drop_last()[i] == pieces[i]);
        }
        lemma_join_one_line(pieces.drop_last(), sep);
        lemma_one_line_concat(join(pieces.drop_last(), sep), sep);
        lemma_one_line_concat(join(pieces.drop_last(), sep) + sep, pieces.last());
    }
}

/// The row for a record whose name and repository have no line feed in them
/// is one line: a text without a line feed that ends with `|`, and a line
/// feed. The result is that text.
pub proof fn lemma_row_one_line(record: CrateView) -> (body: Seq<char>)
    requires
        one_line(record.name),
        one_line(record.repository),
    ensures
        row_text(record) == body + seq!['\n'],
        one_line(body),
        body.len() > 0,
        body.last() == '|',
{
    let cells = row_cells(record);
    let bar = seq!['|'];
    reveal_strlit("30+");
    lemma_decimal_one_line(record.downloads as nat);
    lemma_decimal_one_line(record.contributors as nat);
    lemma_decimal_one_line(record.reverse_dependencies as nat);
    lemma_decimal_one_line(record.versions.len());
    lemma_date_one_line(record.created_at);
    lemma_date_one_line(record.updated_at);
    assert(one_line("30+"@)) by {
        if "30+"@.contains('\n') {
            let i = choose|i: int| 0 <= i < "30+"@.len() && "30+"@[i] == '\n';
            assert(i == 0 || i == 1 || i == 2);
        }
    }
    lemma_one_line_single('|');
    assert forall|i: int| 0 <= i < cells.len() implies one_line(#[trigger] cells[i]) by {}
    lemma_join_one_line(cells, bar);
    let body = bar + join(cells, bar) + bar;
    lemma_one_line_concat(bar, join(cells, bar));
    lemma_one_line_concat(bar + join(cells, bar), bar);
    body
}

/// The row for a record with a plain name and a repository without a line
/// feed reads back as the one name.
pub proof fn lemma_row_names(record: CrateView)
    requires
        plain_name(record.name),
        one_line(record.repository),
    ensures
        names_in(lines(row_text(record))) == seq![record.name],
{
    let body = lemma_row_one_line(record);
    let row = row_text(record);
    lemma_split_concat(body, '\n', Seq::<char>::empty());
    assert(first_index(body, '\n') == body.len()) by {
        lemma_first_index(body, '\n');
    }
    lemma_row_first_line(record);
    let only = lines(row);
    assert(names_in(only.drop_last()) == Seq::<Seq<char>>::empty());
}

/// The names of the crates among `outcomes` that a row was added for, in order.
pub open spec fn names_written(outcomes: Seq<Outcome>) -> Seq<Seq<char>>
    decreases outcomes.len(),
{
    if outcomes.len() == 0 {
        Seq::empty()
    } else {
        match outcomes.last().result {
            Ok(_) => names_written(outcomes.drop_last()).push(outcomes.last().name@),
            Err(_) => names_written(outcomes.drop_last()),
        }
    }
}

/// Whether the repository of each record among `outcomes` has no line feed in
/// it.
pub open spec fn repositories_on_one_line(outcomes: Seq<Outcome>) -> bool {
    forall|i: int|
        0 <= i < outcomes.len() ==> ((#[trigger] outcomes[i]).result matches Ok(record)
            ==> one_line(record@.repository))
}

/// The names in the report after the rows for `outcomes` were added are the
/// names that it had and then the names that a row was added for.
pub proof fn lemma_names_after_rows_exactly(report: Seq<char>, outcomes: Seq<Outcome>)
    requires
        has_headings(report),
        named_plainly(outcomes),
        repositories_on_one_line(outcomes),
    ensures
        existing_names(report + rows_written(outcomes)) == existing_names(report) + names_written(
            outcomes,
        ),
    decreases outcomes.len(),
{
    let after = report + rows_written(outcomes);
    if outcomes.len() > 0 {
        let earlier = outcomes.drop_last();
        let last = outcomes.last();
        assert(named_plainly(earlier) && repositories_on_one_line(earlier));
        lemma_names_after_rows_exactly(report, earlier);
        lemma_names_after_rows(report, earlier);
        let before = report + rows_written(earlier);
        match last.result {
            Ok(record) => {
                let row = row_text(record@);
                assert(after == before + row);
                lemma_names_after(before, row);
                lemma_row_names(record@);
            },
            Err(_) => {},
        }
    }
}

/// Each name that a row was added for is the name of one of `outcomes`, and
/// none of them is there twice where no two of `outcomes` have one name.
pub proof fn lemma_names_written(outcomes: Seq<Outcome>)
    requires
        names_of(outcomes).no_duplicates(),
    ensures
        names_written(outcomes).no_duplicates(),
        forall|name: Seq<char>|
            names_written(outcomes).contains(name) ==> names_of(outcomes).contains(name),
    decreases outcomes.len(),
{
    if outcomes.len() > 0 {
        let earlier = outcomes.drop_last();
        let last = outcomes.last();
        let all = names_of(outcomes);
        assert(names_of(earlier) =~= all.drop_last());
        assert(names_of(earlier).no_duplicates());
        lemma_names_written(earlier);
        let before = names_written(earlier);
        assert forall|name: Seq<char>| before.contains(name) implies all.contains(name) && name
            != last.name@ by {
            let i = choose|i: int| 0 <= i < earlier.len() && names_of(earlier)[i] == name;
            assert(all[i] == name);
            assert(all[outcomes.len() - 1] == last.name@);
        }
        assert(all[outcomes.len() - 1] == last.name@);
        match last.result {
            Ok(_) => {
                crate::cargo_tree::lemma_contains_after_push(before, last.name@);
                crate::cargo_tree::lemma_no_duplicates_after_push(before, last.name@);
            },
            Err(_) => {},
        }
    }
}

/// No crate has two rows: where no name is twice in a report with a heading
/// and a divider, and the required names are plain, none is twice in it after
/// a run in which no repository had a line feed in it. The names in the report
/// are then those that it had and, behind them, those of the crates that a
/// row was added for.
pub proof fn lemma_names_stay_unique<H: GetRequest>(
    http_client: H,
    required: Seq<Seq<char>>,
    report: Seq<u8>,
    outcomes: Seq<Outcome>,
)
    requires
        valid_utf8(report),
        has_headings(decode_utf8(report)),
        existing_names(decode_utf8(report)).no_duplicates(),
        forall|i: int| 0 <= i < required.len() ==> plain_name(#[trigger] required[i]),
        names_of(outcomes) == missing(required, existing_names(decode_utf8(report))),
        forall|i: int|
            0 <= i < outcomes.len() ==> enrich_outcome(
                http_client,
                (#[trigger] outcomes[i]).name@,
                outcomes[i].result,
            ),
        repositories_on_one_line(outcomes),
    ensures
        valid_utf8(report + rows_added(outcomes)),
        existing_names(decode_utf8(report + rows_added(outcomes))) == existing_names(
            decode_utf8(report),
        ) + names_written(outcomes),
        existing_names(decode_utf8(report + rows_added(outcomes))).no_duplicates(),
{
    let text = decode_utf8(report);
    let had = existing_names(text);
    lemma_decoded_after_rows(report, outcomes);
    lemma_missing_is_difference(required, had);
    lemma_gathered_named_plainly(http_client, required, had, outcomes);
    lemma_names_after_rows_exactly(text, outcomes);
    lemma_names_written(outcomes);
    let added = names_written(outcomes);
    assert forall|i: int, j: int|
        0 <= i < had.len() && 0 <= j < added.len() implies had[i] != added[j] by {
        assert(had.contains(had[i]));
    }
    vstd::seq_lib::lemma_no_dup_in_concat(had, added);
}

/// What the report holds after a run, as text: what it held, and the rows that
/// were added.
pub proof fn lemma_decoded_after_rows(report: Seq<u8>, outcomes: Seq<Outcome>)
    requires
        valid_utf8(report),
    ensures
        valid_utf8(report + rows_added(outcomes)),
        decode_utf8(report + rows_added(outcomes)) == decode_utf8(report) + rows_written(
            outcomes,
        ),
{
    let text = decode_utf8(report);
    let written = rows_written(outcomes);
    vstd::utf8::decode_utf8_encode_utf8(report);
    lemma_rows_added_encode(outcomes);
    lemma_encode_concat(text, written);
    vstd::utf8::encode_utf8_valid_utf8(text + written);
    vstd::utf8::encode_utf8_decode_utf8(text + written);
}

/// The records that a run gathered have the names they were gathered for, and
/// those names are plain where the required names are.
pub proof fn lemma_gathered_named_plainly<H: GetRequest>(
    http_client: H,
    required: Seq<Seq<char>>,
    had: Seq<Seq<char>>,
    outcomes: Seq<Outcome>,
)
    requires
        forall|i: int| 0 <= i < required.len() ==> plain_name(#[trigger] required[i]),
        names_of(outcomes) == missing(required, had),
        forall|i: int|
            0 <= i < outcomes.len() ==> enrich_outcome(
                http_client,
                (#[trigger] outcomes[i]).name@,
                outcomes[i].result,
            ),
    ensures
        named_plainly(outcomes),
{
    lemma_missing_is_difference(required, had);
    assert forall|i: int| 0 <= i < outcomes.len() implies ((#[trigger] outcomes[i]).result
        matches Ok(record) ==> record@.name == outcomes[i].name@ && plain_name(
        outcomes[i].name@,
    )) by {
        if let Ok(record) = outcomes[i].result {
            lemma_record_keeps_name(http_client, outcomes[i].name@, record);
            let name = outcomes[i].name@;
            assert(names_of(outcomes)[i] == name);
            assert(required.contains(name));
        }
    }
}

} // verus!
