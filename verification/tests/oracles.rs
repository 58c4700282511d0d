use std::collections::BTreeSet;

use chrono::{Datelike, Timelike};
use trust_list::cargo_tree::to_crate_names;
use trust_list::generate_list::{missing_names, parse_existing_crate_names, read_first_columns};
use trust_list::github::sanitise_repo_url;
use trust_list::timestamp::Timestamp;

/// A source of numbers that gives the same ones every time.
struct Numbers(u64);

impl Numbers {
    fn next(&mut self, below: usize) -> usize {
        self.0 = self
            .0
            .wrapping_mul(6364136223846793005)
            .wrapping_add(1442695040888963407);
        ((self.0 >> 33) as usize) % below
    }

    fn text(&mut self, alphabet: &[&str], longest: usize) -> String {
        let length = self.next(longest + 1);
        (0..length)
            .map(|_| alphabet[self.next(alphabet.len())])
            .collect()
    }
}

#[test]
fn dates_are_shown_as_chrono_shows_them() {
    let mut years: Vec<i32> = (-20..=20).collect();
    years.extend([99, 100, 999, 1000, 1970, 2025, 9999, 10000, 10001, 99999, 262142]);
    years.extend([-99, -100, -999, -1000, -9999, -10000, -262143]);
    for year in years {
        for (month, day) in [(1, 1), (2, 28), (9, 9), (10, 10), (12, 31)] {
            let date = chrono::NaiveDate::from_ymd_opt(year, month, day).unwrap();
            let time = Timestamp {
                year,
                month,
                day,
                hour: 0,
                minute: 0,
                second: 0,
                nanosecond: 0,
            };
            assert_eq!(date.format("%d/%m/%Y").to_string(), time.date());
        }
    }
}

#[test]
fn times_are_read_as_chrono_reads_them() {
    for text in [
        "2025-05-15T13:17:05.242665Z",
        "2025-07-01T12:45:04.998603Z",
        "1999-12-31T23:59:59-11:00",
        "2000-02-29 00:00:00.000000001+05:30",
        "0001-01-01T00:00:00Z",
        "+10000-01-01T00:00:00Z",
        "2016-12-31T23:59:60Z",
        "2025-5-1T1:2:3Z",
        "not a time",
    ] {
        let expected = text
            .parse::<chrono::DateTime<chrono::Utc>>()
            .ok()
            .map(|time| Timestamp {
                year: time.year(),
                month: time.month(),
                day: time.day(),
                hour: time.hour(),
                minute: time.minute(),
                second: time.second(),
                nanosecond: time.nanosecond(),
            });
        assert_eq!(expected, Timestamp::parse(text), "{text:?}");
        if let Some(time) = Timestamp::parse(text) {
            let back = text.parse::<chrono::DateTime<chrono::Utc>>().unwrap();
            assert_eq!(back.format("%d/%m/%Y").to_string(), time.date());
        }
    }
}

#[test]
fn existing_names_are_read_as_the_standard_library_reads_them() {
    let alphabet = ["|", "|", "\n", "\n", "\r", " ", "\t", "a", "b", "é", "\u{a0}"];
    let mut numbers = Numbers(7);
    for _ in 0..3000 {
        let contents = numbers.text(&alphabet, 24);
        let expected: Vec<String> = contents
            .lines()
            .skip(2)
            .filter_map(|line| line.split('|').nth(1))
            .map(str::trim)
            .filter(|s| !s.is_empty())
            .map(String::from)
            .collect();
        assert_eq!(expected, parse_existing_crate_names(&contents), "{contents:?}");
    }
}

#[test]
fn names_of_the_tree_are_those_of_an_ordered_set() {
    let alphabet = ["\n", "\n", "\n", "a", "b", "B", "-", "_", "é", " ", "\r"];
    let mut numbers = Numbers(11);
    for _ in 0..3000 {
        let output = numbers.text(&alphabet, 20);
        let expected: Vec<String> = output
            .split('\n')
            .skip(1)
            .filter(|crate_name| !crate_name.is_empty())
            .map(String::from)
            .collect::<BTreeSet<String>>()
            .into_iter()
            .collect();
        assert_eq!(expected, to_crate_names(output.clone()), "{output:?}");
    }
}

#[test]
fn missing_names_are_the_difference_of_two_sets() {
    let alphabet = ["a", "b", "c"];
    let mut numbers = Numbers(13);
    for _ in 0..2000 {
        let required: Vec<String> = (0..numbers.next(7)).map(|_| numbers.text(&alphabet, 2)).collect();
        let existing: Vec<String> = (0..numbers.next(5)).map(|_| numbers.text(&alphabet, 2)).collect();
        let lacking = missing_names(&required, &existing);
        let wanted: BTreeSet<String> = required.iter().cloned().collect();
        let there: BTreeSet<String> = existing.iter().cloned().collect();
        let difference: BTreeSet<String> = wanted.difference(&there).cloned().collect();
        assert_eq!(difference, lacking.iter().cloned().collect());
        assert_eq!(difference.len(), lacking.len(), "{required:?} - {existing:?}");
        let mut seen = Vec::new();
        for name in &required {
            if !there.contains(name) && !seen.contains(name) {
                seen.push(name.clone());
            }
        }
        assert_eq!(seen, lacking);
    }
}

#[test]
fn repositories_are_cut_as_the_standard_library_cuts_them() {
    let alphabet = ["https://github.com/", ".git", "/", "o", "r", ".", "git"];
    let mut numbers = Numbers(17);
    for _ in 0..3000 {
        let repo_url = numbers.text(&alphabet, 6);
        let expected = repo_url.strip_prefix("https://github.com/").map(|rest| {
            let rest = rest.strip_suffix(".git").unwrap_or(rest);
            rest.strip_suffix("/").unwrap_or(rest)
        });
        assert_eq!(
            expected.map(String::from),
            sanitise_repo_url(&repo_url).ok(),
            "{repo_url:?}"
        );
    }
}

#[test]
fn first_columns_are_read_as_the_standard_library_reads_them() {
    let alphabet = ["|", "|", "\n", "\n", "\r", " ", "\t", "a", "b", "é", "\u{a0}"];
    let mut numbers = Numbers(19);
    for _ in 0..3000 {
        let contents = numbers.text(&alphabet, 24);
        let expected: Vec<String> = contents
            .split('\n')
            .skip(2)
            .flat_map(|line| line.split('|').skip(1).take(1).collect::<Vec<&str>>())
            .map(|crate_name| crate_name.trim().to_string())
            .collect();
        assert_eq!(expected, read_first_columns(&contents), "{contents:?}");
    }
}
