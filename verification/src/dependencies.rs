//! Dependencies as the dependency tree lists them, one JSON object on a line.

use vstd::prelude::*;
use crate::error::Error;
use crate::json::{json_of, Json};
use crate::text::{chars_of, split, split_chars, string_of, trim, trim_chars, views};

verus! {

/// A dependency: its name and where it is found.
#[derive(Debug, PartialEq)]
pub struct Dependency {
    pub name: String,
    pub link: String,
}

pub type Dependencies = Vec<Dependency>;

/// A dependency as plain values.
pub struct DependencyView {
    pub name: Seq<char>,
    pub link: Seq<char>,
}

impl View for Dependency {
    type V = DependencyView;

    open spec fn view(&self) -> DependencyView {
        DependencyView { name: self.name@, link: self.link@ }
    }
}

/// The views of `dependencies`, in order.
pub open spec fn dependency_views(dependencies: Seq<Dependency>) -> Seq<DependencyView> {
    Seq::new(dependencies.len(), |i: int| dependencies[i]@)
}

/// The dependency that `json` describes: an object with a text under `name` and
/// one under `link`.
pub open spec fn dependency_in(json: Json) -> Option<DependencyView> {
    match (json.text_member("name"@), json.text_member("link"@)) {
        (Some(name), Some(link)) => Some(DependencyView { name, link }),
        _ => None,
    }
}

/// The dependency that the line `line` describes.
pub open spec fn dependency_on_line(line: Seq<char>) -> Option<DependencyView> {
    match json_of(line) {
        Some(json) => dependency_in(json),
        None => None,
    }
}

/// The dependencies that `lines` describe, or the first line that describes
/// none.
pub open spec fn dependencies_on(lines: Seq<Seq<char>>) -> Result<Seq<DependencyView>, Seq<char>>
    decreases lines.len(),
{
    if lines.len() == 0 {
        Ok(Seq::empty())
    } else {
        match dependencies_on(lines.drop_last()) {
            Ok(found) => match dependency_on_line(lines.last()) {
                Some(dependency) => Ok(found.push(dependency)),
                None => Err(lines.last()),
            },
            Err(line) => Err(line),
        }
    }
}

/// The dependency that `json` describes.
pub fn dependency_from_json(json: &Json) -> (found: Option<Dependency>)
    ensures
        match found {
            Some(dependency) => dependency_in(*json) == Some(dependency@),
            None => dependency_in(*json) is None,
        },
{
    let name = match json.get_text("name") {
        Some(name) => name,
        None => return None,
    };
    let link = match json.get_text("link") {
        Some(link) => link,
        None => return None,
    };
    Some(Dependency { name, link })
}

/// The dependencies in the dependency tree `output`: one on each line of it,
/// after the white space around the whole is taken off. Fails with the first
/// line that describes no dependency.
pub fn to_dependencies(output: String) -> (dependencies: Result<Dependencies, Error>)
    ensures
        match dependencies_on(split(trim(output@), '\n')) {
            Ok(found) => dependencies matches Ok(read) && dependency_views(read@) == found,
            Err(line) => dependencies matches Err(Error::InvalidDependency(text)) && text@ == line,
        },
{
    let chars = chars_of(output.as_str());
    let trimmed = trim_chars(&chars);
    let lines = split_chars(&trimmed, '\n');
    let ghost all = split(trim(output@), '\n');
    let mut dependencies: Vec<Dependency> = Vec::new();
    let mut i: usize = 0;
    assert(dependency_views(dependencies@) =~= Seq::<DependencyView>::empty());
    while i < lines.len()
        invariant
            i <= lines.len(),
            views(lines@) == all,
            all == split(trim(output@), '\n'),
            dependencies_on(all.take(i as int)) == Ok::<Seq<DependencyView>, Seq<char>>(
                dependency_views(dependencies@),
            ),
        decreases lines.len() - i,
    {
        assert(all.take(i + 1).drop_last() == all.take(i as int));
        let line = string_of(&lines[i]);
        let found = match Json::parse(line.as_str()) {
            Some(json) => dependency_from_json(&json),
            None => None,
        };
        match found {
            Some(dependency) => {
                let ghost before = dependency_views(dependencies@);
                dependencies.push(dependency);
                assert(dependency_views(dependencies@) =~= before.push(dependency@));
            },
            None => {
                proof {
                    lemma_first_failure_stays(all, i + 1);
                }
                return Err(Error::InvalidDependency(line));
            },
        }
        i += 1;
    }
    assert(all.take(lines.len() as int) == all);
    Ok(dependencies)
}

/// The dependencies in the dependency tree, where `output` is what asking for
/// the tree came to: its text, or why there is none.
pub fn get(output: Result<String, Error>) -> (dependencies: Result<Dependencies, Error>)
    ensures
        match output {
            Ok(tree) => match dependencies_on(split(trim(tree@), '\n')) {
                Ok(found) => dependencies matches Ok(read) && dependency_views(read@) == found,
                Err(line) => dependencies matches Err(Error::InvalidDependency(text)) && text@
                    == line,
            },
            Err(error) => dependencies matches Err(Error::CargoTree(reason)) && reason@
                == error.message_text(),
        },
{
    match output {
        Ok(tree) => to_dependencies(tree),
        Err(error) => Err(Error::CargoTree(error.message())),
    }
}

/// Where the first `n` of `lines` fail at a line, all of `lines` fail at it.
pub proof fn lemma_first_failure_stays(lines: Seq<Seq<char>>, n: int)
    requires
        0 <= n <= lines.len(),
        dependencies_on(lines.take(n)) is Err,
    ensures
        dependencies_on(lines) == dependencies_on(lines.take(n)),
    decreases lines.len(),
{
    if n < lines.len() {
        assert(lines.drop_last().take(n) == lines.take(n));
        lemma_first_failure_stays(lines.drop_last(), n);
    } else {
        assert(lines.take(n) == lines);
    }
}

} // verus!
