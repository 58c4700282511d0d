//! The dependency tree: how it is asked for, and the names in what comes back.

use itertools::Itertools;
use vstd::prelude::*;
use vstd::utf8::{encode_utf8, valid_utf8};
use crate::error::Error;
use crate::generate_list::{lemma_missing_is_difference, missing};
use crate::text::{chars_of, decimal, join, push_decimal, split, split_chars, string_of, views};

verus! {

/// Whether `a` comes before `b` or is `b`, text by text: by the first
/// character in which they differ, and the shorter first where one starts the
/// other. Characters go by their place among Unicode's code points.
pub open spec fn text_le(a: Seq<char>, b: Seq<char>) -> bool
    decreases a.len(),
{
    if a.len() == 0 {
        true
    } else if b.len() == 0 {
        false
    } else if a.first() != b.first() {
        (a.first() as u32) < (b.first() as u32)
    } else {
        text_le(a.drop_first(), b.drop_first())
    }
}

/// Whether no text in `texts` comes before one that stands before it.
pub open spec fn ascending(texts: Seq<Seq<char>>) -> bool {
    forall|i: int, j: int| 0 <= i < j < texts.len() ==> text_le(texts[i], texts[j])
}

/// `texts` without each text that stood in it before, in order.
pub open spec fn without_repeats(texts: Seq<Seq<char>>) -> Seq<Seq<char>> {
    missing(texts, Seq::empty())
}

/// `Itertools::unique` on the texts: each text as often as it first occurs,
/// once, in the order of the first occurrences.
#[verifier::external_body]
fn unique(texts: Vec<String>) -> (kept: Vec<String>)
    ensures
        kept.deep_view() == without_repeats(texts.deep_view()),
{
    texts.into_iter().unique().collect()
}

/// `Itertools::sorted` on the texts: the same texts, each as often as before,
/// in ascending order as `String` is ordered.
#[verifier::external_body]
fn sorted(texts: Vec<String>) -> (ordered: Vec<String>)
    ensures
        ascending(ordered.deep_view()),
        ordered.deep_view().to_multiset() == texts.deep_view().to_multiset(),
{
    texts.into_iter().sorted().collect()
}

/// The kinds of edges that the tree leaves out, for `--edges`.
pub open spec fn edges(include_dev_dependencies: bool, include_build_dependencies: bool) -> Seq<
    Seq<char>,
> {
    (if include_dev_dependencies {
        Seq::<Seq<char>>::empty()
    } else {
        seq!["no-dev"@]
    }) + (if include_build_dependencies {
        Seq::<Seq<char>>::empty()
    } else {
        seq!["no-build"@]
    })
}

/// The arguments with which `cargo` is asked for the tree: each library once
/// on a line by its name, without what the tree draws; the kinds of edges to
/// leave out, where there are any; and the depth, where one is given.
pub open spec fn tree_args(
    depth: Option<u8>,
    include_dev_dependencies: bool,
    include_build_dependencies: bool,
) -> Seq<Seq<char>> {
    let left_out = edges(include_dev_dependencies, include_build_dependencies);
    seq!["tree"@, "--format"@, "{lib}"@, "--prefix"@, "none"@, "--no-dedupe"@] + (if left_out.len()
        == 0 {
        Seq::<Seq<char>>::empty()
    } else {
        seq!["--edges"@, join(left_out, ","@)]
    }) + (match depth {
        Some(levels) => seq!["--depth"@, decimal(levels as nat)],
        None => Seq::<Seq<char>>::empty(),
    })
}

/// The arguments that leave the members `exclude` of the workspace out, one
/// after the other.
pub open spec fn exclusions(exclude: Seq<Seq<char>>) -> Seq<Seq<char>>
    decreases exclude.len(),
{
    if exclude.len() == 0 {
        Seq::empty()
    } else {
        exclusions(exclude.drop_last()) + seq!["--exclude"@, exclude.last()]
    }
}

/// The arguments that leave the members `exclude` of the workspace out of the
/// tree: none where there is none to leave out, and else the whole workspace
/// and each of them as one to leave out, since `cargo` takes members to leave
/// out only together with the whole workspace.
pub open spec fn exclude_args(exclude: Seq<Seq<char>>) -> Seq<Seq<char>> {
    if exclude.len() == 0 {
        Seq::empty()
    } else {
        seq!["--workspace"@] + exclusions(exclude)
    }
}

/// The arguments with which `cargo` is asked for the tree without the members
/// `exclude` of the workspace.
pub fn args_excluding(
    depth: Option<u8>,
    include_dev_dependencies: bool,
    include_build_dependencies: bool,
    exclude: Vec<String>,
) -> (args: Vec<String>)
    ensures
        args.deep_view() == tree_args(depth, include_dev_dependencies, include_build_dependencies)
            + exclude_args(exclude.deep_view()),
{
    let mut args = self::args(depth, include_dev_dependencies, include_build_dependencies);
    let ghost fixed = args.deep_view();
    let ghost left_out = exclude.deep_view();
    if exclude.is_empty() {
        assert(left_out.len() == 0);
        assert(fixed + exclude_args(left_out) == fixed);
        return args;
    }
    args.push("--workspace".to_owned());
    assert(args.deep_view() =~= fixed + seq!["--workspace"@]);
    let mut i: usize = 0;
    assert(left_out.take(0) == Seq::<Seq<char>>::empty());
    assert(args.deep_view() =~= fixed + seq!["--workspace"@] + exclusions(left_out.take(0)));
    while i < exclude.len()
        invariant
            i <= exclude.len(),
            left_out == exclude.deep_view(),
            args.deep_view() == fixed + seq!["--workspace"@] + exclusions(left_out.take(i as int)),
        decreases exclude.len() - i,
    {
        let ghost before = args.deep_view();
        args.push("--exclude".to_owned());
        args.push(exclude[i].clone());
        assert(left_out.take(i + 1).drop_last() == left_out.take(i as int));
        assert(left_out.take(i + 1).last() == exclude@[i as int]@);
        assert(args.deep_view() =~= before + seq!["--exclude"@, exclude@[i as int]@]);
        assert(args.deep_view() =~= fixed + seq!["--workspace"@] + exclusions(
            left_out.take(i + 1),
        ));
        i += 1;
    }
    assert(left_out.take(exclude.len() as int) == left_out);
    assert(left_out.len() == exclude@.len());
    assert(args.deep_view() =~= fixed + exclude_args(left_out));
    args
}

/// The arguments with which `cargo` is asked for the tree.
pub fn args(depth: Option<u8>, include_dev_dependencies: bool, include_build_dependencies: bool) -> (args:
    Vec<String>)
    ensures
        args.deep_view() == tree_args(depth, include_dev_dependencies, include_build_dependencies),
{
    let mut args: Vec<String> = Vec::new();
    args.push("tree".to_owned());
    args.push("--format".to_owned());
    args.push("{lib}".to_owned());
    args.push("--prefix".to_owned());
    args.push("none".to_owned());
    args.push("--no-dedupe".to_owned());
    let ghost fixed = args.deep_view();
    assert(fixed =~= seq!["tree"@, "--format"@, "{lib}"@, "--prefix"@, "none"@, "--no-dedupe"@]);

    let mut left_out: Vec<String> = Vec::new();
    if !include_dev_dependencies {
        left_out.push("no-dev".to_owned());
    }
    if !include_build_dependencies {
        left_out.push("no-build".to_owned());
    }
    assert(left_out.deep_view() =~= edges(include_dev_dependencies, include_build_dependencies));
    if !left_out.is_empty() {
        args.push("--edges".to_owned());
        args.push(crate::text::join_strings(&left_out, ","));
    }
    let ghost with_edges = args.deep_view();
    assert(with_edges =~= fixed + (if left_out@.len() == 0 {
        Seq::<Seq<char>>::empty()
    } else {
        seq!["--edges"@, join(left_out.deep_view(), ","@)]
    }));

    if let Some(levels) = depth {
        args.push("--depth".to_owned());
        let mut text = String::new();
        push_decimal(&mut text, levels as u64);
        args.push(text);
    }
    assert(args.deep_view() =~= with_edges + (match depth {
        Some(levels) => seq!["--depth"@, decimal(levels as nat)],
        None => Seq::<Seq<char>>::empty(),
    }));
    args
}

/// What `cargo` printed, as text. Fails where it is not UTF-8.
pub fn validate_output(stdout: Vec<u8>) -> (output: Result<String, Error>)
    ensures
        match output {
            Ok(text) => encode_utf8(text@) == stdout@,
            Err(error) => !valid_utf8(stdout@) && error matches Error::InvalidUtf8,
        },
{
    match String::from_utf8(stdout) {
        Ok(text) => Ok(text),
        Err(_) => Err(Error::InvalidUtf8),
    }
}

/// The lines of the tree `output` after the first, which names the library
/// that the tree is of.
pub open spec fn dependency_lines(output: Seq<char>) -> Seq<Seq<char>> {
    let all = split(output, '\n');
    all.subrange(1, all.len() as int)
}

/// The names in the tree `output`: each line after the first that is not
/// empty, once, in ascending order.
pub fn to_crate_names(output: String) -> (names: Vec<String>)
    ensures
        ascending(names.deep_view()),
        names.deep_view().no_duplicates(),
        forall|name: Seq<char>|
            names.deep_view().contains(name) <==> name.len() > 0 && dependency_lines(
                output@,
            ).contains(name),
{
    let chars = chars_of(output.as_str());
    let all = split_chars(&chars, '\n');
    proof {
        crate::text::lemma_split_len(output@, '\n');
    }
    assert(all@.len() == views(all@).len());
    let ghost lines = dependency_lines(output@);
    let mut rest: Vec<String> = Vec::new();
    let mut i: usize = 1;
    assert(rest.deep_view() =~= lines.take(0));
    while i < all.len()
        invariant
            1 <= i <= all.len(),
            views(all@) == split(output@, '\n'),
            lines == dependency_lines(output@),
            rest.deep_view() == lines.take(i - 1),
        decreases all.len() - i,
    {
        let ghost before = rest.deep_view();
        rest.push(string_of(&all[i]));
        assert(lines[i - 1] == all@[i as int]@);
        assert(rest.deep_view() =~= before.push(lines[i - 1]));
        assert(lines.take(i as int) =~= lines.take(i - 1).push(lines[i - 1]));
        i += 1;
    }
    assert(lines.take(all.len() - 1) == lines);
    let distinct = unique(rest);
    proof {
        lemma_missing_is_difference(lines, Seq::empty());
    }
    let ghost once = distinct.deep_view();
    let mut filled: Vec<String> = Vec::new();
    let mut k: usize = 0;
    assert(once.len() == distinct@.len());
    while k < distinct.len()
        invariant
            k <= distinct.len(),
            once == distinct.deep_view(),
            once.len() == distinct@.len(),
            once.no_duplicates(),
            filled.deep_view().no_duplicates(),
            forall|name: Seq<char>|
                filled.deep_view().contains(name) <==> name.len() > 0 && once.take(
                    k as int,
                ).contains(name),
        decreases distinct.len() - k,
    {
        let ghost before = filled.deep_view();
        let ghost next = once[k as int];
        assert(next == distinct@[k as int]@);
        assert(!once.take(k as int).contains(next)) by {
            if once.take(k as int).contains(next) {
                let at = choose|at: int| 0 <= at < k && once.take(k as int)[at] == next;
                assert(once[at] == once[k as int]);
            }
        }
        assert(once.take(k + 1) =~= once.take(k as int).push(next));
        if distinct[k].as_str().unicode_len() > 0 {
            filled.push(distinct[k].clone());
            assert(filled.deep_view() =~= before.push(next));
            proof {
                lemma_no_duplicates_after_push(before, next);
            }
        }
        assert forall|name: Seq<char>|
            filled.deep_view().contains(name) <==> name.len() > 0 && once.take(k + 1).contains(
                name,
            ) by {
            lemma_contains_after_push(once.take(k as int), next);
            lemma_contains_after_push(before, next);
            assert(once.take(k as int).push(next).contains(name) <==> once.take(
                k as int,
            ).contains(name) || name == next);
            assert(before.push(next).contains(name) <==> before.contains(name) || name == next);
        }
        k += 1;
    }
    assert(once.take(distinct.len() as int) == once);
    let ghost given = filled.deep_view();
    let names = sorted(filled);
    proof {
        let found = names.deep_view();
        given.to_multiset_ensures();
        found.to_multiset_ensures();
        given.lemma_multiset_has_no_duplicates();
        found.lemma_multiset_has_no_duplicates_conv();
        assert forall|name: Seq<char>|
            found.contains(name) <==> name.len() > 0 && lines.contains(name) by {
            assert(found.contains(name) <==> found.to_multiset().count(name) > 0);
            assert(given.contains(name) <==> given.to_multiset().count(name) > 0);
            assert(once.contains(name) <==> lines.contains(name));
        }
    }
    names
}

/// What `texts` with `last` behind them contain: what `texts` contain, and
/// `last`.
pub proof fn lemma_contains_after_push(texts: Seq<Seq<char>>, last: Seq<char>)
    ensures
        forall|text: Seq<char>|
            #[trigger] texts.push(last).contains(text) <==> texts.contains(text) || text == last,
{
    let longer = texts.push(last);
    assert forall|text: Seq<char>|
        longer.contains(text) <==> texts.contains(text) || text == last by {
        if longer.contains(text) {
            let i = choose|i: int| 0 <= i < longer.len() && longer[i] == text;
            if i < texts.len() {
                assert(texts[i] == text);
            }
        }
        if texts.contains(text) {
            let i = choose|i: int| 0 <= i < texts.len() && texts[i] == text;
            assert(longer[i] == text);
        }
        if text == last {
            assert(longer[texts.len() as int] == text);
        }
    }
}

/// Texts of which none occurs twice stay so with one more behind them that
/// they do not contain.
pub proof fn lemma_no_duplicates_after_push(texts: Seq<Seq<char>>, last: Seq<char>)
    requires
        texts.no_duplicates(),
        !texts.contains(last),
    ensures
        texts.push(last).no_duplicates(),
{
    let longer = texts.push(last);
    assert forall|i: int, j: int|
        0 <= i < longer.len() && 0 <= j < longer.len() && i != j implies longer[i]
        != longer[j] by {
        if i < texts.len() && j < texts.len() {
            assert(texts[i] != texts[j]);
        } else if i < texts.len() {
            assert(texts.contains(texts[i]));
        } else {
            assert(texts.contains(texts[j]));
        }
    }
}

} // verus!
