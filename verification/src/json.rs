//! JSON values as the library reads them, and the reading of JSON text.

use vstd::prelude::*;

verus! {

/// `serde_json::Value`, of which nothing is known here.
#[verifier::external_type_specification]
#[verifier::external_body]
pub struct ExValue(serde_json::Value);

/// A JSON value.
#[derive(Debug)]
pub enum Json {
    Null,
    Bool(bool),
    /// A number, with its value where that is a whole number from 0 to 2^64 - 1.
    Number(Option<u64>),
    Text(String),
    Array(Vec<Json>),
    /// The members of an object, each key once.
    Object(Vec<(String, Json)>),
}

/// The value that `serde_json` reads out of `text`; `None` where `text` is not
/// one JSON value.
pub uninterp spec fn json_of(text: Seq<char>) -> Option<Json>;

/// The value under `key` in the first of `fields` that has that key.
pub open spec fn lookup(fields: Seq<(String, Json)>, key: Seq<char>) -> Option<Json>
    decreases fields.len(),
{
    if fields.len() == 0 {
        None
    } else if fields.first().0@ == key {
        Some(fields.first().1)
    } else {
        lookup(fields.drop_first(), key)
    }
}

/// The numbers in `items`, where each of them is a whole number from 0 to
/// 2^64 - 1.
pub open spec fn whole_numbers(items: Seq<Json>) -> Option<Seq<u64>>
    decreases items.len(),
{
    if items.len() == 0 {
        Some(Seq::empty())
    } else {
        match (whole_numbers(items.drop_last()), items.last()) {
            (Some(numbers), Json::Number(Some(number))) => Some(numbers.push(number)),
            _ => None,
        }
    }
}

/// Takes a value of `serde_json` apart, variant by variant. Of a number it
/// keeps what `Number::as_u64` gives.
#[verifier::external_body]
fn json_from_value(value: serde_json::Value) -> (json: Json) {
    match value {
        serde_json::Value::Null => Json::Null,
        serde_json::Value::Bool(b) => Json::Bool(b),
        serde_json::Value::Number(n) => Json::Number(n.as_u64()),
        serde_json::Value::String(s) => Json::Text(s),
        serde_json::Value::Array(a) => Json::Array(a.into_iter().map(json_from_value).collect()),
        serde_json::Value::Object(o) => Json::Object(
            o.into_iter().map(|(key, value)| (key, json_from_value(value))).collect(),
        ),
    }
}

/// Reads `text` with `serde_json::from_str`, as a `serde_json::Value`, and
/// takes the value apart. The result is the same for the same text.
#[verifier::external_body]
fn read_json(text: &str) -> (parsed: Option<Json>)
    ensures
        parsed == json_of(text@),
{
    match serde_json::from_str::<serde_json::Value>(text) {
        Ok(value) => Some(json_from_value(value)),
        Err(_) => None,
    }
}

impl Json {
    /// The value under `key`, where this is an object with that key.
    pub open spec fn member(self, key: Seq<char>) -> Option<Json> {
        match self {
            Json::Object(fields) => lookup(fields@, key),
            _ => None,
        }
    }

    /// The text under `key`, where this is an object with a text under that key.
    pub open spec fn text_member(self, key: Seq<char>) -> Option<Seq<char>> {
        match self.member(key) {
            Some(Json::Text(text)) => Some(text@),
            _ => None,
        }
    }

    /// The number under `key`, where this is an object with a whole number from
    /// 0 to 2^64 - 1 under that key.
    pub open spec fn number_member(self, key: Seq<char>) -> Option<u64> {
        match self.member(key) {
            Some(Json::Number(Some(number))) => Some(number),
            _ => None,
        }
    }

    /// The numbers under `key`, where this is an object with an array of whole
    /// numbers from 0 to 2^64 - 1 under that key.
    pub open spec fn numbers_member(self, key: Seq<char>) -> Option<Seq<u64>> {
        match self.member(key) {
            Some(Json::Array(items)) => whole_numbers(items@),
            _ => None,
        }
    }

    /// The value that `text` is the JSON text of.
    pub fn parse(text: &str) -> (parsed: Option<Json>)
        ensures
            parsed == json_of(text@),
    {
        read_json(text)
    }

    /// The value under `key`, where this is an object with that key.
    pub fn get(&self, key: &str) -> (found: Option<&Json>)
        ensures
            match found {
                Some(value) => self.member(key@) == Some(*value),
                None => self.member(key@) is None,
            },
    {
        match self {
            Json::Object(fields) => {
                let wanted = key.to_owned();
                let mut i: usize = 0;
                assert(fields@.skip(0) == fields@);
                while i < fields.len()
                    invariant
                        i <= fields.len(),
                        *self == Json::Object(*fields),
                        wanted@ == key@,
                        lookup(fields@, key@) == lookup(fields@.skip(i as int), key@),
                    decreases fields.len() - i,
                {
                    if fields[i].0 == wanted {
                        return Some(&fields[i].1);
                    }
                    assert(fields@.skip(i as int).drop_first() == fields@.skip(i + 1));
                    i += 1;
                }
                None
            },
            _ => None,
        }
    }

    /// The text under `key`, where this is an object with a text under that key.
    pub fn get_text(&self, key: &str) -> (found: Option<String>)
        ensures
            match found {
                Some(text) => self.text_member(key@) == Some(text@),
                None => self.text_member(key@) is None,
            },
    {
        match self.get(key) {
            Some(Json::Text(text)) => Some(text.clone()),
            _ => None,
        }
    }

    /// The number under `key`, where this is an object with a whole number from
    /// 0 to 2^64 - 1 under that key.
    pub fn get_u64(&self, key: &str) -> (found: Option<u64>)
        ensures
            found == self.number_member(key@),
    {
        match self.get(key) {
            Some(Json::Number(Some(number))) => Some(*number),
            _ => None,
        }
    }

    /// The numbers under `key`, where this is an object with an array of whole
    /// numbers from 0 to 2^64 - 1 under that key.
    pub fn get_u64_array(&self, key: &str) -> (found: Option<Vec<u64>>)
        ensures
            match found {
                Some(numbers) => self.numbers_member(key@) == Some(numbers@),
                None => self.numbers_member(key@) is None,
            },
    {
        match self.get(key) {
            Some(value) => value.as_u64_array(),
            None => None,
        }
    }

    /// The number, where this is a whole number from 0 to 2^64 - 1.
    pub fn as_u64(&self) -> (number: Option<u64>)
        ensures
            match number {
                Some(n) => *self == Json::Number(Some(n)),
                None => !(*self matches Json::Number(Some(_))),
            },
    {
        match self {
            Json::Number(Some(number)) => Some(*number),
            _ => None,
        }
    }

    /// The numbers in the array, where this is an array of whole numbers from
    /// 0 to 2^64 - 1.
    pub fn as_u64_array(&self) -> (numbers: Option<Vec<u64>>)
        ensures
            match numbers {
                Some(found) => self matches Json::Array(items) && whole_numbers(items@) == Some(
                    found@,
                ),
                None => self matches Json::Array(items) ==> whole_numbers(items@) is None,
            },
    {
        match self {
            Json::Array(items) => {
                let mut numbers: Vec<u64> = Vec::new();
                let mut i: usize = 0;
                while i < items.len()
                    invariant
                        i <= items.len(),
                        *self == Json::Array(*items),
                        whole_numbers(items@.take(i as int)) == Some(numbers@),
                    decreases items.len() - i,
                {
                    assert(items@.take(i + 1).drop_last() == items@.take(i as int));
                    match items[i].as_u64() {
                        Some(number) => numbers.push(number),
                        None => {
                            proof {
                                lemma_whole_numbers_prefix(items@, i + 1);
                            }
                            return None;
                        },
                    }
                    i += 1;
                }
                assert(items@.take(items.len() as int) == items@);
                Some(numbers)
            },
            _ => None,
        }
    }
}

/// Where the first `n` of `items` are not all whole numbers, `items` are not.
pub proof fn lemma_whole_numbers_prefix(items: Seq<Json>, n: int)
    requires
        0 <= n <= items.len(),
        whole_numbers(items.take(n)) is None,
    ensures
        whole_numbers(items) is None,
    decreases items.len(),
{
    if n < items.len() {
        assert(items.drop_last().take(n) == items.take(n));
        lemma_whole_numbers_prefix(items.drop_last(), n);
    } else {
        assert(items.take(n) == items);
    }
}

} // verus!
