//! The count of contributors, asked of the code host.

use vstd::prelude::*;
use crate::error::Error;
use crate::http_client::GetRequest;
use crate::json::{json_of, Json};
use crate::text::{chars_of, ends_with, has_suffix, push_chars, push_str, slice_of, starts_with};

verus! {

/// Where the code host answers for a repository.
pub const API_BASE_URL: &'static str = "https://api.github.com/repos";

/// What the address of a repository on the code host starts with.
pub const REPOSITORY_PREFIX: &'static str = "https://github.com/";

/// `text` without `suffix` at its end, where it ends with it.
pub open spec fn without_suffix(text: Seq<char>, suffix: Seq<char>) -> Seq<char> {
    if has_suffix(text, suffix) {
        text.take(text.len() - suffix.len())
    } else {
        text
    }
}

/// The owner and the name in the address of a repository: what follows the
/// code host's address, without a `.git` at the end and then without a `/` at
/// the end. `None` where the address does not start with the code host's.
pub open spec fn repository_path(repo_url: Seq<char>) -> Option<Seq<char>> {
    if REPOSITORY_PREFIX@.is_prefix_of(repo_url) {
        Some(
            without_suffix(
                without_suffix(repo_url.skip(REPOSITORY_PREFIX@.len() as int), ".git"@),
                "/"@,
            ),
        )
    } else {
        None
    }
}

/// The address of the code host's list of the contributors to the repository
/// with the owner and name `path`.
pub open spec fn contributors_url(path: Seq<char>) -> Seq<char> {
    API_BASE_URL@ + seq!['/'] + path + "/contributors"@
}

/// The count of contributors that the code host's answer `json` gives: the
/// length of the array, or the largest count that a record holds where the
/// array is longer, and 0 for anything but an array.
pub open spec fn contributors_in(json: Json) -> u16 {
    match json {
        Json::Array(items) => if items@.len() > u16::MAX {
            u16::MAX
        } else {
            items@.len() as u16
        },
        _ => 0,
    }
}

/// An array of 30 items or more gives a count that the report shows as `30+`,
/// however long the array is.
pub proof fn lemma_long_array_shows_the_cap(json: Json)
    requires
        json matches Json::Array(items) && items@.len() >= 30,
    ensures
        contributors_in(json) >= 30,
        crate::crates_io::contributors_text(contributors_in(json)) == "30+"@,
{
}

/// The count of contributors that the text `response` gives.
pub open spec fn contributors_in_response(response: Seq<char>) -> Option<u16> {
    match json_of(response) {
        Some(json) => Some(contributors_in(json)),
        None => None,
    }
}

/// The owner and the name in the address of a repository.
pub fn sanitise_repo_url(repo_url: &str) -> (path: Result<String, Error>)
    ensures
        match repository_path(repo_url@) {
            Some(found) => path matches Ok(text) && text@ == found,
            None => path matches Err(Error::MalformedRepositoryUrl),
        },
{
    let chars = chars_of(repo_url);
    let prefix = chars_of(REPOSITORY_PREFIX);
    if !starts_with(&chars, &prefix) {
        return Err(Error::MalformedRepositoryUrl);
    }
    let rest = slice_of(&chars, prefix.len(), chars.len());
    let git = chars_of(".git");
    let slash = chars_of("/");
    let mut to: usize = rest.len();
    assert(rest@.take(to as int) == rest@);
    if ends_with(&rest, to, &git) {
        to = to - git.len();
    }
    if ends_with(&rest, to, &slash) {
        to = to - slash.len();
    }
    let path = slice_of(&rest, 0, to);
    let mut text = String::new();
    push_chars(&mut text, &path);
    Ok(text)
}

/// The address of the code host's list of the contributors to the repository
/// at `repo_url`.
pub fn contributors_address(repo_url: &str) -> (url: Result<String, Error>)
    ensures
        match repository_path(repo_url@) {
            Some(path) => url matches Ok(text) && text@ == contributors_url(path),
            None => url matches Err(Error::MalformedRepositoryUrl),
        },
{
    match sanitise_repo_url(repo_url) {
        Ok(path) => {
            let mut url = String::new();
            push_str(&mut url, API_BASE_URL);
            url.push('/');
            push_str(&mut url, path.as_str());
            push_str(&mut url, "/contributors");
            Ok(url)
        },
        Err(error) => Err(error),
    }
}

/// The count of contributors that the code host's answer `json` gives.
pub fn contributors_from_json(json: &Json) -> (count: u16)
    ensures
        count == contributors_in(*json),
{
    match json {
        Json::Array(items) => if items.len() > u16::MAX as usize {
            u16::MAX
        } else {
            items.len() as u16
        },
        _ => 0,
    }
}

/// The count of contributors in the code host's answer `response`, which came
/// from `url`.
pub fn contributors_from_response(url: &str, response: &str) -> (read: Result<u16, Error>)
    ensures
        match contributors_in_response(response@) {
            Some(count) => read == Ok::<u16, Error>(count),
            None => read matches Err(Error::Deserialization(at)) && at@ == url@,
        },
{
    match Json::parse(response) {
        Some(json) => Ok(contributors_from_json(&json)),
        None => Err(Error::Deserialization(url.to_owned())),
    }
}

/// What the count of contributors comes to where the code host's answer for
/// the repository `path` is `response`: the failure of the fetch, the count in
/// the answer, or that the answer could not be read.
pub open spec fn contributor_count_given(
    path: Seq<char>,
    response: Result<String, Error>,
    count: Result<u16, Error>,
) -> bool {
    match response {
        Err(error) => count == Err::<u16, Error>(error),
        Ok(text) => match contributors_in_response(text@) {
            Some(found) => count == Ok::<u16, Error>(found),
            None => count matches Err(Error::Deserialization(at)) && at@ == contributors_url(path),
        },
    }
}

/// Whether `count` is what asking for the contributors to the repository at
/// `repo_url` can come to: that the address is not one of the code host's, or
/// what one of the code host's answers comes to.
pub open spec fn contributor_count_outcome<H: GetRequest>(
    http_client: H,
    repo_url: Seq<char>,
    count: Result<u16, Error>,
) -> bool {
    match repository_path(repo_url) {
        Some(path) => exists|response: Result<String, Error>| #[trigger]
            http_client.answers(contributors_url(path), response) && contributor_count_given(
                path,
                response,
                count,
            ),
        None => count matches Err(Error::MalformedRepositoryUrl),
    }
}

/// Asks the code host how many contributors the repository at `repo_url` has.
pub fn get_contributor_count<H: GetRequest>(http_client: &H, repo_url: &str) -> (count: Result<
    u16,
    Error,
>)
    ensures
        contributor_count_outcome(*http_client, repo_url@, count),
{
    let url = match contributors_address(repo_url) {
        Ok(url) => url,
        Err(error) => return Err(error),
    };
    match http_client.get(url.as_str()) {
        Ok(text) => contributors_from_response(url.as_str(), text.as_str()),
        Err(error) => Err(error),
    }
}

/// The address of a repository, the same with `.git` behind it, and the same
/// with `/` behind it, all give the same owner and name: what follows the code
/// host's address, where that does not itself end with `.git` or `/`.
pub proof fn lemma_repository_spellings(path: Seq<char>)
    requires
        !has_suffix(path, ".git"@),
        !has_suffix(path, "/"@),
    ensures
        repository_path(REPOSITORY_PREFIX@ + path) == Some(path),
        repository_path(REPOSITORY_PREFIX@ + path + ".git"@) == Some(path),
        repository_path(REPOSITORY_PREFIX@ + path + "/"@) == Some(path),
{
    reveal_strlit(".git");
    reveal_strlit("/");
    let prefix = REPOSITORY_PREFIX@;
    let git = ".git"@;
    let slash = "/"@;
    assert((prefix + path).skip(prefix.len() as int) == path);
    assert((prefix + path + git).skip(prefix.len() as int) == path + git);
    assert((prefix + path + slash).skip(prefix.len() as int) == path + slash);
    assert((path + git).skip((path + git).len() - git.len()) == git);
    assert((path + git).take((path + git).len() - git.len()) == path);
    assert((path + slash).skip((path + slash).len() - slash.len()) == slash);
    assert(!has_suffix(path + slash, git)) by {
        if has_suffix(path + slash, git) {
            let tail = (path + slash).skip((path + slash).len() - git.len());
            assert(tail[3] == (path + slash)[(path + slash).len() - 1]);
        }
    }
}

} // verus!
