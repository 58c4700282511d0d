//! Text as sequences of characters: conversion between `String` and
//! `Vec<char>`, decimal numbers, white space, and splitting at a separator.

use vstd::prelude::*;
use vstd::string::StringExecFns;

verus! {

/// `String::push` appends one character at the end of the text.
pub assume_specification[ String::push ](text: &mut String, c: char)
    ensures
        final(text)@ == old(text)@.push(c),
;

/// The characters of each piece.
pub open spec fn views(pieces: Seq<Vec<char>>) -> Seq<Seq<char>> {
    pieces.map_values(|piece: Vec<char>| piece@)
}

/// The characters of `text`, in order.
pub fn chars_of(text: &str) -> (chars: Vec<char>)
    ensures
        chars@ == text@,
{
    let mut chars: Vec<char> = Vec::new();
    for c in it: text.chars()
        invariant
            it.seq() == text@,
            chars@ == it.seq().take(it.index()),
    {
        chars.push(c);
    }
    chars
}

/// Appends `chars` to `text`.
pub fn push_chars(text: &mut String, chars: &Vec<char>)
    ensures
        final(text)@ == old(text)@ + chars@,
{
    let mut i: usize = 0;
    while i < chars.len()
        invariant
            i <= chars.len(),
            text@ == old(text)@ + chars@.take(i as int),
        decreases chars.len() - i,
    {
        text.push(chars[i]);
        i += 1;
    }
}

/// The text that holds `chars`.
pub fn string_of(chars: &Vec<char>) -> (text: String)
    ensures
        text@ == chars@,
{
    let mut text = String::new();
    push_chars(&mut text, chars);
    text
}

/// The characters `chars[from..to]`.
pub(crate) fn slice_of(chars: &Vec<char>, from: usize, to: usize) -> (piece: Vec<char>)
    requires
        from <= to <= chars.len(),
    ensures
        piece@ == chars@.subrange(from as int, to as int),
{
    let mut piece: Vec<char> = Vec::new();
    let mut i: usize = from;
    while i < to
        invariant
            from <= i <= to <= chars.len(),
            piece@ == chars@.subrange(from as int, i as int),
        decreases to - i,
    {
        piece.push(chars[i]);
        i += 1;
    }
    piece
}

/// Whether `chars` begins with `prefix`.
pub fn starts_with(chars: &Vec<char>, prefix: &Vec<char>) -> (found: bool)
    ensures
        found == prefix@.is_prefix_of(chars@),
{
    if prefix.len() > chars.len() {
        return false;
    }
    let mut i: usize = 0;
    while i < prefix.len()
        invariant
            i <= prefix.len() <= chars.len(),
            prefix@.take(i as int) == chars@.take(i as int),
        decreases prefix.len() - i,
    {
        if prefix[i] != chars[i] {
            assert(prefix@[i as int] != chars@.subrange(0, prefix.len() as int)[i as int]);
            return false;
        }
        assert(prefix@.take(i + 1) == prefix@.take(i as int).push(prefix@[i as int]));
        assert(chars@.take(i + 1) == chars@.take(i as int).push(chars@[i as int]));
        i += 1;
    }
    assert(prefix@.take(prefix.len() as int) == prefix@);
    true
}

/// Whether `chars` ends with `suffix`.
pub open spec fn has_suffix(chars: Seq<char>, suffix: Seq<char>) -> bool {
    suffix.len() <= chars.len() && chars.skip(chars.len() - suffix.len()) == suffix
}

/// Whether `chars[..to]` ends with `suffix`.
pub(crate) fn ends_with(chars: &Vec<char>, to: usize, suffix: &Vec<char>) -> (found: bool)
    requires
        to <= chars.len(),
    ensures
        found == has_suffix(chars@.take(to as int), suffix@),
{
    if suffix.len() > to {
        return false;
    }
    let start: usize = to - suffix.len();
    let ghost tail = chars@.take(to as int).skip(start as int);
    let mut i: usize = 0;
    while i < suffix.len()
        invariant
            i <= suffix.len(),
            start + suffix.len() == to <= chars.len(),
            tail == chars@.take(to as int).skip(start as int),
            suffix@.take(i as int) == tail.take(i as int),
        decreases suffix.len() - i,
    {
        if suffix[i] != chars[start + i] {
            assert(suffix@[i as int] != tail[i as int]);
            return false;
        }
        assert(suffix@.take(i + 1) == suffix@.take(i as int).push(suffix@[i as int]));
        assert(tail.take(i + 1) == tail.take(i as int).push(tail[i as int]));
        i += 1;
    }
    assert(suffix@.take(suffix.len() as int) == suffix@);
    assert(tail.take(suffix.len() as int) == tail);
    true
}

/// The decimal digit for `d`, where `d` is below ten.
pub open spec fn digit(d: nat) -> char {
    if d == 0 {
        '0'
    } else if d == 1 {
        '1'
    } else if d == 2 {
        '2'
    } else if d == 3 {
        '3'
    } else if d == 4 {
        '4'
    } else if d == 5 {
        '5'
    } else if d == 6 {
        '6'
    } else if d == 7 {
        '7'
    } else if d == 8 {
        '8'
    } else {
        '9'
    }
}

/// `n` in decimal, without leading zeros.
pub open spec fn decimal(n: nat) -> Seq<char>
    decreases n,
{
    if n < 10 {
        seq![digit(n)]
    } else {
        decimal(n / 10).push(digit(n % 10))
    }
}

/// `n` in decimal, with a leading zero where it is below ten.
pub open spec fn two_digits(n: nat) -> Seq<char> {
    if n < 10 {
        seq!['0', digit(n)]
    } else {
        decimal(n)
    }
}

/// The decimal digit for `d`.
pub(crate) fn digit_of(d: u64) -> (c: char)
    requires
        d < 10,
    ensures
        c == digit(d as nat),
{
    if d == 0 {
        '0'
    } else if d == 1 {
        '1'
    } else if d == 2 {
        '2'
    } else if d == 3 {
        '3'
    } else if d == 4 {
        '4'
    } else if d == 5 {
        '5'
    } else if d == 6 {
        '6'
    } else if d == 7 {
        '7'
    } else if d == 8 {
        '8'
    } else {
        '9'
    }
}

/// Appends `n` in decimal to `text`.
pub fn push_decimal(text: &mut String, n: u64)
    ensures
        final(text)@ == old(text)@ + decimal(n as nat),
    decreases n,
{
    if n >= 10 {
        push_decimal(text, n / 10);
    }
    text.push(digit_of(n % 10));
}

/// Appends `n` in decimal to `text`, with a leading zero where `n` is below ten.
pub fn push_two_digits(text: &mut String, n: u64)
    ensures
        final(text)@ == old(text)@ + two_digits(n as nat),
{
    if n < 10 {
        text.push('0');
    }
    push_decimal(text, n);
}

/// Appends `other` to `text`.
pub fn push_str(text: &mut String, other: &str)
    ensures
        final(text)@ == old(text)@ + other@,
{
    text.append(other);
}

/// Whether `c` is white space: one of the 25 characters that Unicode marks as
/// `White_Space`.
pub open spec fn is_whitespace(c: char) -> bool {
    let code = c as u32;
    ||| 0x09 <= code <= 0x0D
    ||| code == 0x20
    ||| code == 0x85
    ||| code == 0xA0
    ||| code == 0x1680
    ||| 0x2000 <= code <= 0x200A
    ||| code == 0x2028
    ||| code == 0x2029
    ||| code == 0x202F
    ||| code == 0x205F
    ||| code == 0x3000
}

/// `s` without the white space at its start.
pub open spec fn trim_start(s: Seq<char>) -> Seq<char>
    decreases s.len(),
{
    if s.len() > 0 && is_whitespace(s.first()) {
        trim_start(s.drop_first())
    } else {
        s
    }
}

/// `s` without the white space at its end.
pub open spec fn trim_end(s: Seq<char>) -> Seq<char>
    decreases s.len(),
{
    if s.len() > 0 && is_whitespace(s.last()) {
        trim_end(s.drop_last())
    } else {
        s
    }
}

/// `s` without the white space at its start and at its end.
pub open spec fn trim(s: Seq<char>) -> Seq<char> {
    trim_end(trim_start(s))
}

/// Whether `c` is white space.
pub fn is_whitespace_char(c: char) -> (white: bool)
    ensures
        white == is_whitespace(c),
{
    let code: u32 = c as u32;
    (0x09 <= code && code <= 0x0D) || code == 0x20 || code == 0x85 || code == 0xA0 || code
        == 0x1680 || (0x2000 <= code && code <= 0x200A) || code == 0x2028 || code == 0x2029 || code
        == 0x202F || code == 0x205F || code == 0x3000
}

/// `chars` without the white space at its start and at its end.
pub fn trim_chars(chars: &Vec<char>) -> (trimmed: Vec<char>)
    ensures
        trimmed@ == trim(chars@),
{
    let mut from: usize = 0;
    assert(chars@.skip(0) == chars@);
    while from < chars.len() && is_whitespace_char(chars[from])
        invariant
            from <= chars.len(),
            trim_start(chars@) == trim_start(chars@.skip(from as int)),
        decreases chars.len() - from,
    {
        assert(chars@.skip(from as int).drop_first() == chars@.skip(from + 1));
        from += 1;
    }
    assert(trim_start(chars@) == chars@.skip(from as int));
    let mut to: usize = chars.len();
    assert(chars@.subrange(from as int, to as int) == chars@.skip(from as int));
    while to > from && is_whitespace_char(chars[to - 1])
        invariant
            from <= to <= chars.len(),
            trim(chars@) == trim_end(chars@.subrange(from as int, to as int)),
        decreases to,
    {
        assert(chars@.subrange(from as int, to as int).drop_last() == chars@.subrange(
            from as int,
            to - 1,
        ));
        to -= 1;
    }
    slice_of(chars, from, to)
}

/// Where `c` first stands in `s`; the length of `s` where it stands nowhere.
pub open spec fn first_index(s: Seq<char>, c: char) -> nat
    decreases s.len(),
{
    if s.len() == 0 || s.first() == c {
        0
    } else {
        1 + first_index(s.drop_first(), c)
    }
}

/// `first_index` gives a place within `s` or its length, `c` stands nowhere
/// before that place, and it stands at that place where the place is within `s`.
pub proof fn lemma_first_index(s: Seq<char>, c: char)
    ensures
        first_index(s, c) <= s.len(),
        forall|j: int| 0 <= j < first_index(s, c) ==> s[j] != c,
        first_index(s, c) < s.len() ==> s[first_index(s, c) as int] == c,
    decreases s.len(),
{
    if s.len() == 0 || s.first() == c {
    } else {
        lemma_first_index(s.drop_first(), c);
        assert forall|j: int| 0 <= j < first_index(s, c) implies s[j] != c by {
            if j > 0 {
                assert(s[j] == s.drop_first()[j - 1]);
            }
        }
    }
}

/// A place in `s` or its length, before which `c` stands nowhere and at which
/// it stands where the place is in `s`, is `first_index`.
pub proof fn lemma_first_index_is(s: Seq<char>, c: char, i: int)
    requires
        0 <= i <= s.len(),
        forall|j: int| 0 <= j < i ==> s[j] != c,
        i < s.len() ==> s[i] == c,
    ensures
        first_index(s, c) == i,
    decreases s.len(),
{
    if s.len() == 0 || s.first() == c {
    } else {
        assert forall|j: int| 0 <= j < i - 1 implies s.drop_first()[j] != c by {
            assert(s.drop_first()[j] == s[j + 1]);
        }
        lemma_first_index_is(s.drop_first(), c, i - 1);
    }
}

/// The pieces of `s` between the occurrences of `sep`: one more than there are
/// occurrences.
pub open spec fn split(s: Seq<char>, sep: char) -> Seq<Seq<char>>
    decreases s.len(),
{
    let i = first_index(s, sep);
    if i >= s.len() {
        seq![s]
    } else {
        seq![s.take(i as int)] + split(s.skip(i as int + 1), sep)
    }
}

/// Where `c` first stands in `chars[from..]`; the length of `chars` where it
/// stands nowhere there.
pub(crate) fn find_from(chars: &Vec<char>, from: usize, c: char) -> (at: usize)
    requires
        from <= chars.len(),
    ensures
        at == from + first_index(chars@.skip(from as int), c),
        from <= at <= chars.len(),
{
    let mut at: usize = from;
    while at < chars.len() && chars[at] != c
        invariant
            from <= at <= chars.len(),
            forall|j: int| from <= j < at ==> chars@[j] != c,
        decreases chars.len() - at,
    {
        at += 1;
    }
    proof {
        lemma_first_index_is(chars@.skip(from as int), c, at - from);
    }
    at
}

/// The pieces of `chars` between the occurrences of `sep`.
pub fn split_chars(chars: &Vec<char>, sep: char) -> (pieces: Vec<Vec<char>>)
    ensures
        views(pieces@) == split(chars@, sep),
{
    let mut pieces: Vec<Vec<char>> = Vec::new();
    let mut from: usize = 0;
    assert(chars@.skip(0) == chars@);
    assert(views(pieces@) + split(chars@, sep) == split(chars@, sep));
    loop
        invariant_except_break
            from <= chars.len(),
            split(chars@, sep) == views(pieces@) + split(chars@.skip(from as int), sep),
        ensures
            views(pieces@) == split(chars@, sep),
        decreases chars.len() - from,
    {
        let at = find_from(chars, from, sep);
        let piece = slice_of(chars, from, at);
        let ghost rest = chars@.skip(from as int);
        let ghost before = views(pieces@);
        pieces.push(piece);
        assert(views(pieces@) == before.push(piece@));
        assert(piece@ == rest.take(at - from));
        if at >= chars.len() {
            assert(rest.take(at - from) == rest);
            break ;
        }
        assert(rest.skip(at - from + 1) == chars@.skip(at + 1));
        from = at + 1;
    }
    pieces
}

/// `line` without a carriage return at its end.
pub open spec fn strip_cr(line: Seq<char>) -> Seq<char> {
    if line.len() > 0 && line.last() == '\r' {
        line.drop_last()
    } else {
        line
    }
}

/// Each of `pieces` without a carriage return at its end.
pub open spec fn strip_each(pieces: Seq<Seq<char>>) -> Seq<Seq<char>> {
    Seq::new(pieces.len(), |i: int| strip_cr(pieces[i]))
}

/// The lines of `text`. A line ends at a line feed, or at a carriage return
/// followed by a line feed; the last line does not need a line ending.
pub open spec fn lines(text: Seq<char>) -> Seq<Seq<char>> {
    let pieces = split(text, '\n');
    let ended = strip_each(pieces.drop_last());
    if pieces.last().len() == 0 {
        ended
    } else {
        ended.push(pieces.last())
    }
}

/// `split` gives at least one piece.
pub proof fn lemma_split_len(s: Seq<char>, sep: char)
    ensures
        split(s, sep).len() >= 1,
    decreases s.len(),
{
    let i = first_index(s, sep);
    if i < s.len() {
        lemma_split_len(s.skip(i as int + 1), sep);
    }
}

/// The lines of `chars`.
pub fn lines_of(chars: &Vec<char>) -> (found: Vec<Vec<char>>)
    ensures
        views(found@) == lines(chars@),
{
    let pieces = split_chars(chars, '\n');
    proof {
        lemma_split_len(chars@, '\n');
    }
    assert(pieces@.len() == views(pieces@).len());
    let ghost all = split(chars@, '\n');
    let mut found: Vec<Vec<char>> = Vec::new();
    let last: usize = pieces.len() - 1;
    let mut i: usize = 0;
    while i < last
        invariant
            i <= last == pieces.len() - 1,
            views(pieces@) == all,
            found@.len() == i,
            forall|j: int| 0 <= j < i ==> (#[trigger] found@[j])@ == strip_cr(all[j]),
        decreases last - i,
    {
        let piece = &pieces[i];
        assert(piece@ == all[i as int]);
        let n = piece.len();
        let line = if n > 0 && piece[n - 1] == '\r' {
            slice_of(piece, 0, n - 1)
        } else {
            slice_of(piece, 0, n)
        };
        assert(line@ == strip_cr(piece@));
        found.push(line);
        i += 1;
    }
    assert(pieces@[last as int]@ == all.last());
    let ghost ended = strip_each(all.drop_last());
    assert(ended.len() == last);
    assert forall|j: int| 0 <= j < last implies views(found@)[j] == ended[j] by {
        assert(all.drop_last()[j] == all[j]);
    }
    assert(views(found@) =~= ended);
    if pieces[last].len() > 0 {
        let line = slice_of(&pieces[last], 0, pieces[last].len());
        let ghost before = views(found@);
        found.push(line);
        assert(views(found@) =~= before.push(line@));
        assert(line@ == all.last());
        assert(views(found@) == ended.push(all.last()));
        assert(lines(chars@) == ended.push(all.last()));
    } else {
        assert(all.last().len() == 0);
        assert(lines(chars@) == ended);
    }
    found
}

/// The pieces in a row, with `sep` between each two.
pub open spec fn join(pieces: Seq<Seq<char>>, sep: Seq<char>) -> Seq<char>
    decreases pieces.len(),
{
    if pieces.len() == 0 {
        Seq::empty()
    } else if pieces.len() == 1 {
        pieces.last()
    } else {
        join(pieces.drop_last(), sep) + sep + pieces.last()
    }
}

/// The pieces in a row, with `sep` between each two.
pub fn join_strings(pieces: &Vec<String>, sep: &str) -> (joined: String)
    ensures
        joined@ == join(pieces.deep_view(), sep@),
{
    let mut joined = String::new();
    let ghost all = pieces.deep_view();
    let mut i: usize = 0;
    while i < pieces.len()
        invariant
            i <= pieces.len(),
            all == pieces.deep_view(),
            joined@ == join(all.take(i as int), sep@),
        decreases pieces.len() - i,
    {
        assert(all.take(i + 1).drop_last() == all.take(i as int));
        assert(all.take(i + 1).last() == pieces@[i as int]@);
        if i > 0 {
            push_str(&mut joined, sep);
        }
        push_str(&mut joined, pieces[i].as_str());
        i += 1;
    }
    assert(all.take(pieces.len() as int) == all);
    joined
}

/// The pieces of two texts with `sep` between them are the pieces of the
/// first and then those of the second.
pub proof fn lemma_split_concat(first: Seq<char>, sep: char, second: Seq<char>)
    ensures
        split(first + seq![sep] + second, sep) == split(first, sep) + split(second, sep),
    decreases first.len(),
{
    let whole = first + seq![sep] + second;
    let i = first_index(first, sep);
    lemma_first_index(first, sep);
    if i < first.len() {
        assert forall|j: int| 0 <= j < i implies whole[j] != sep by {
            assert(whole[j] == first[j]);
        }
        assert(whole[i as int] == first[i as int]);
        lemma_first_index_is(whole, sep, i as int);
        assert(whole.take(i as int) == first.take(i as int));
        assert(whole.skip(i as int + 1) == first.skip(i as int + 1) + seq![sep] + second);
        lemma_split_concat(first.skip(i as int + 1), sep, second);
        assert(split(whole, sep) == seq![first.take(i as int)] + (split(
            first.skip(i as int + 1),
            sep,
        ) + split(second, sep)));
    } else {
        assert forall|j: int| 0 <= j < first.len() implies whole[j] != sep by {
            assert(whole[j] == first[j]);
        }
        assert(whole[first.len() as int] == sep);
        lemma_first_index_is(whole, sep, first.len() as int);
        assert(whole.take(first.len() as int) == first);
        assert(whole.skip(first.len() as int + 1) == second);
    }
}

/// The lines of two texts in a row, where the first ends with a line feed, are
/// the lines of the first and then those of the second.
pub proof fn lemma_lines_concat(first: Seq<char>, second: Seq<char>)
    requires
        first.len() > 0,
        first.last() == '\n',
    ensures
        lines(first + second) == lines(first) + lines(second),
{
    let start = first.drop_last();
    let none = Seq::<char>::empty();
    assert(first == start + seq!['\n'] + none);
    assert(first + second == start + seq!['\n'] + second);
    lemma_split_concat(start, '\n', none);
    lemma_split_concat(start, '\n', second);
    lemma_split_len(second, '\n');
    lemma_split_len(start, '\n');
    let head = split(start, '\n');
    let tail = split(second, '\n');
    assert(split(none, '\n') == seq![none]);
    assert(split(first, '\n').drop_last() == head);
    assert(lines(first) == strip_each(head));
    assert((head + tail).drop_last() == head + tail.drop_last());
    assert((head + tail).last() == tail.last());
    assert(strip_each(head + tail.drop_last()) == strip_each(head) + strip_each(tail.drop_last()));
}

} // verus!
