use std::cell::RefCell;
use std::collections::VecDeque;

use trust_list::crates_io::RateLimit;
use trust_list::error::Error;
use trust_list::file_io::FileIO;
use trust_list::generate_list::{
    enrich, generate_list, missing_names, parse_existing_crate_names,
};
use trust_list::http_client::GetRequest;
use trust_list::output_file::OutputFile;
use trust_list::progress_bar::ProgressBar;

const CRATE_INFO: &str = r#"{
  "categories": [],
  "crate": {
    "id": "autospy",
    "name": "autospy",
    "updated_at": "2025-07-01T12:45:04.998603Z",
    "versions": [1622670, 1603361, 1594229, 1592184, 1588757, 1588227, 1581038, 1564965],
    "keywords": [],
    "created_at": "2025-05-15T13:17:05.242665Z",
    "downloads": 1861,
    "recent_downloads": 1861,
    "max_version": "1.0.0",
    "description": "A test spy object library.",
    "homepage": null,
    "documentation": null,
    "repository": "https://github.com/lhalf/autospy",
    "exact_match": false
  },
  "keywords": [],
  "versions": [{ "id": 1622670, "num": "1.0.0" }]
}"#;

const REVERSE_DEPENDENCIES: &str =
    r#"{ "dependencies": [], "versions": [], "meta": { "total": 32 } }"#;

const HEADINGS: &str = "|name|downloads|contributors|reverse_dependencies|versions|created_at|updated_at|repository|\n|-|-|-|-|-|-|-|-|\n";

#[derive(Default)]
struct FileIOSpy {
    read_to_string: VecDeque<Result<String, Error>>,
    append: VecDeque<Result<(), Error>>,
    appended: Vec<Vec<u8>>,
}

impl FileIO for FileIOSpy {
    fn is_present(&self) -> bool {
        true
    }

    fn remove(&mut self) {
        panic!("remove was not expected")
    }

    fn create(&mut self) -> Result<(), Error> {
        panic!("create was not expected")
    }

    fn append(&mut self, contents: &[u8]) -> Result<(), Error> {
        self.appended.push(contents.to_vec());
        self.append.pop_front().expect("no result was set for append")
    }

    fn read_to_string(&self) -> Result<String, Error> {
        match self.read_to_string.front() {
            Some(Ok(text)) => Ok(text.clone()),
            Some(Err(error)) => Err(Error::Storage(error.message())),
            None => panic!("no result was set for read_to_string"),
        }
    }
}

#[derive(Default)]
struct GetRequestSpy {
    returns: RefCell<VecDeque<Result<String, Error>>>,
    arguments: RefCell<Vec<String>>,
}

impl GetRequestSpy {
    fn push_back(&self, answer: Result<String, Error>) {
        self.returns.borrow_mut().push_back(answer);
    }
}

impl GetRequest for GetRequestSpy {
    fn get(&self, url: &str) -> Result<String, Error> {
        self.arguments.borrow_mut().push(url.to_string());
        self.returns
            .borrow_mut()
            .pop_front()
            .expect("no answer was set for this call")
    }
}

/// Answers by the address that is asked for.
#[derive(Default)]
struct Sources {
    registry_down_for: Vec<String>,
    reverse_dependencies_down_for: Vec<String>,
    contributors: Option<String>,
    arguments: RefCell<Vec<String>>,
}

impl GetRequest for Sources {
    fn get(&self, url: &str) -> Result<String, Error> {
        self.arguments.borrow_mut().push(url.to_string());
        if let Some(rest) = url.strip_prefix("https://crates.io/api/v1/crates/") {
            if let Some(name) = rest.strip_suffix("/reverse_dependencies") {
                if self.reverse_dependencies_down_for.iter().any(|down| down == name) {
                    return Err(Error::Transport(format!("no reverse dependencies of {name}")));
                }
                return Ok(REVERSE_DEPENDENCIES.to_string());
            }
            if self.registry_down_for.iter().any(|down| down == rest) {
                return Err(Error::Transport(format!("no entry for {rest}")));
            }
            return Ok(CRATE_INFO.to_string());
        }
        match &self.contributors {
            Some(answer) => Ok(answer.clone()),
            None => Err(Error::Transport("code host is down".to_string())),
        }
    }
}

#[derive(Default)]
struct ProgressBarSpy {
    totals: Vec<u64>,
    messages: Vec<String>,
    increments: usize,
    failures: Vec<(String, String)>,
    shown: Vec<String>,
}

impl ProgressBar for ProgressBarSpy {
    fn set_total(&mut self, total: u64) {
        self.totals.push(total);
    }

    fn set_message(&mut self, message: &str) {
        self.messages.push(message.to_string());
        self.shown.push(format!("message {message}"));
    }

    fn increment(&mut self) {
        self.increments += 1;
        self.shown.push("increment".to_string());
    }

    fn report_failure(&mut self, crate_name: &str, reason: &str) {
        self.failures
            .push((crate_name.to_string(), reason.to_string()));
        self.shown.push(format!("failure {crate_name}"));
    }
}

#[derive(Default)]
struct RateLimitSpy {
    waits: usize,
}

impl RateLimit for RateLimitSpy {
    fn wait(&mut self) {
        self.waits += 1;
    }
}

fn deliberate() -> Error {
    Error::Transport("deliberate test error".to_string())
}

fn names(list: &[&str]) -> Vec<String> {
    list.iter().map(|name| name.to_string()).collect()
}

fn row(name: &str, contributors: &str) -> String {
    format!("|{name}|1861|{contributors}|32|8|15/05/2025|01/07/2025|https://github.com/lhalf/autospy|\n")
}

fn report(contents: &str) -> OutputFile {
    let mut file = OutputFile::at_path("trust-list.md");
    file.create().unwrap();
    file.append(contents.as_bytes()).unwrap();
    file
}

#[test]
fn output_file_exists_but_cant_be_read() {
    let crates = Vec::new();
    let mut file_io_spy = FileIOSpy::default();
    let http_client_spy = GetRequestSpy::default();
    let mut progress_bar_spy = ProgressBarSpy::default();

    file_io_spy
        .read_to_string
        .push_back(Err(Error::Storage("deliberate test error".to_string())));

    assert_eq!(
        "deliberate test error",
        generate_list(
            crates,
            &mut file_io_spy,
            &http_client_spy,
            &mut RateLimitSpy::default(),
            &mut progress_bar_spy
        )
        .unwrap_err()
        .message()
    )
}

#[test]
fn no_crates_are_required() {
    let crates = Vec::new();
    let mut file_io_spy = FileIOSpy::default();
    let http_client_spy = GetRequestSpy::default();
    let mut progress_bar_spy = ProgressBarSpy::default();

    file_io_spy.read_to_string.push_back(Ok(String::new()));

    assert!(
        generate_list(
            crates,
            &mut file_io_spy,
            &http_client_spy,
            &mut RateLimitSpy::default(),
            &mut progress_bar_spy
        )
        .is_ok()
    )
}

#[test]
fn single_crate_required_get_crate_info_fails() {
    let crates = vec!["autospy".to_string()];
    let mut file_io_spy = FileIOSpy::default();
    let http_client_spy = GetRequestSpy::default();
    let mut progress_bar_spy = ProgressBarSpy::default();

    file_io_spy.read_to_string.push_back(Ok(String::new()));

    http_client_spy.push_back(Err(deliberate()));

    assert!(
        generate_list(
            crates,
            &mut file_io_spy,
            &http_client_spy,
            &mut RateLimitSpy::default(),
            &mut progress_bar_spy
        )
        .is_ok()
    )
}

#[test]
fn single_crate_required_get_reverse_dependencies_fails() {
    let crates = vec!["autospy".to_string()];
    let mut file_io_spy = FileIOSpy::default();
    let http_client_spy = GetRequestSpy::default();
    let mut progress_bar_spy = ProgressBarSpy::default();

    file_io_spy.read_to_string.push_back(Ok(String::new()));

    http_client_spy.push_back(Ok(CRATE_INFO.to_string()));
    http_client_spy.push_back(Err(deliberate()));

    assert!(
        generate_list(
            crates,
            &mut file_io_spy,
            &http_client_spy,
            &mut RateLimitSpy::default(),
            &mut progress_bar_spy
        )
        .is_ok()
    )
}

#[test]
fn single_crate_required_get_contributor_count_fails_appends_line_with_0_as_contributor_count() {
    let crates = vec!["autospy".to_string()];
    let mut file_io_spy = FileIOSpy::default();
    let http_client_spy = GetRequestSpy::default();
    let mut progress_bar_spy = ProgressBarSpy::default();

    file_io_spy.read_to_string.push_back(Ok(String::new()));

    http_client_spy.push_back(Ok(CRATE_INFO.to_string()));
    http_client_spy.push_back(Ok(REVERSE_DEPENDENCIES.to_string()));
    http_client_spy.push_back(Err(deliberate()));

    file_io_spy.append.push_back(Ok(()));

    assert!(
        generate_list(
            crates,
            &mut file_io_spy,
            &http_client_spy,
            &mut RateLimitSpy::default(),
            &mut progress_bar_spy
        )
        .is_ok()
    );
    assert_eq!(
        vec![
            b"|autospy|1861|0|32|8|15/05/2025|01/07/2025|https://github.com/lhalf/autospy|\n"
                .to_vec()
        ],
        file_io_spy.appended
    )
}

#[test]
fn single_crate_required_appending_table_fails() {
    let crates = vec!["autospy".to_string()];
    let mut file_io_spy = FileIOSpy::default();
    let http_client_spy = GetRequestSpy::default();
    let mut progress_bar_spy = ProgressBarSpy::default();

    file_io_spy.read_to_string.push_back(Ok(String::new()));

    http_client_spy.push_back(Ok(CRATE_INFO.to_string()));
    http_client_spy.push_back(Ok(REVERSE_DEPENDENCIES.to_string()));
    http_client_spy.push_back(Ok(r#"[1,2,3,4,5]"#.to_string()));

    file_io_spy
        .append
        .push_back(Err(Error::Storage("deliberate test error".to_string())));

    assert_eq!(
        "deliberate test error",
        generate_list(
            crates,
            &mut file_io_spy,
            &http_client_spy,
            &mut RateLimitSpy::default(),
            &mut progress_bar_spy
        )
        .unwrap_err()
        .message()
    )
}

#[test]
fn single_crate_required_appends_expected_line_to_table() {
    let crates = vec!["autospy".to_string()];
    let mut file_io_spy = FileIOSpy::default();
    let http_client_spy = GetRequestSpy::default();
    let mut progress_bar_spy = ProgressBarSpy::default();

    file_io_spy.read_to_string.push_back(Ok(String::new()));

    http_client_spy.push_back(Ok(CRATE_INFO.to_string()));
    http_client_spy.push_back(Ok(REVERSE_DEPENDENCIES.to_string()));
    http_client_spy.push_back(Ok(r#"[1,2,3,4,5]"#.to_string()));

    file_io_spy.append.push_back(Ok(()));

    assert!(
        generate_list(
            crates,
            &mut file_io_spy,
            &http_client_spy,
            &mut RateLimitSpy::default(),
            &mut progress_bar_spy
        )
        .is_ok()
    );
    assert_eq!(
        vec![
            b"|autospy|1861|5|32|8|15/05/2025|01/07/2025|https://github.com/lhalf/autospy|\n"
                .to_vec()
        ],
        file_io_spy.appended
    )
}

#[test]
fn progress_is_shown_for_each_missing_crate() {
    let mut file = report(&format!("{HEADINGS}{}", row("beta", "5")));
    let sources = Sources {
        contributors: Some("[1]".to_string()),
        ..Sources::default()
    };
    let mut progress_bar_spy = ProgressBarSpy::default();
    let mut rate_limit = RateLimitSpy::default();

    generate_list(
        names(&["alpha", "beta", "gamma"]),
        &mut file,
        &sources,
        &mut rate_limit,
        &mut progress_bar_spy,
    )
    .unwrap();

    assert_eq!(vec![2], progress_bar_spy.totals);
    assert_eq!(names(&["alpha ", "gamma "]), progress_bar_spy.messages);
    assert_eq!(2, progress_bar_spy.increments);
    assert_eq!(4, rate_limit.waits);
}

#[test]
fn storage_failure_stops_the_run_at_that_crate() {
    let mut file_io_spy = FileIOSpy::default();
    file_io_spy.read_to_string.push_back(Ok(HEADINGS.to_string()));
    file_io_spy.append.push_back(Ok(()));
    file_io_spy
        .append
        .push_back(Err(Error::Storage("disk is full".to_string())));
    let sources = Sources::default();
    let mut progress_bar_spy = ProgressBarSpy::default();

    let error = generate_list(
        names(&["alpha", "beta", "gamma"]),
        &mut file_io_spy,
        &sources,
        &mut RateLimitSpy::default(),
        &mut progress_bar_spy,
    )
    .unwrap_err();

    assert!(matches!(error, Error::Storage(reason) if reason == "disk is full"));
    assert_eq!(
        vec![row("alpha", "0").into_bytes(), row("beta", "0").into_bytes()],
        file_io_spy.appended
    );
    assert_eq!(1, progress_bar_spy.increments);
    assert!(!sources
        .arguments
        .borrow()
        .iter()
        .any(|url| url.contains("gamma")));
}

#[test]
fn report_that_is_missing_gets_its_headings_first() {
    let mut file = OutputFile::at_path("trust-list.md");
    let sources = Sources {
        contributors: Some("[1, 2]".to_string()),
        ..Sources::default()
    };

    let outcomes = generate_list(
        names(&["alpha"]),
        &mut file,
        &sources,
        &mut RateLimitSpy::default(),
        &mut ProgressBarSpy::default(),
    )
    .unwrap();

    assert_eq!(1, outcomes.len());
    assert_eq!(
        format!("{HEADINGS}{}", row("alpha", "2")),
        file.read_to_string().unwrap()
    );
}

#[test]
fn report_that_is_missing_and_cannot_be_made_fails_the_run() {
    struct NoStorage;
    impl FileIO for NoStorage {
        fn is_present(&self) -> bool {
            false
        }
        fn remove(&mut self) {}
        fn create(&mut self) -> Result<(), Error> {
            Err(Error::Storage("failed to create output file".to_string()))
        }
        fn append(&mut self, _contents: &[u8]) -> Result<(), Error> {
            panic!("append was not expected")
        }
        fn read_to_string(&self) -> Result<String, Error> {
            panic!("read_to_string was not expected")
        }
    }

    assert_eq!(
        "failed to create output file",
        generate_list(
            names(&["alpha"]),
            &mut NoStorage,
            &Sources::default(),
            &mut RateLimitSpy::default(),
            &mut ProgressBarSpy::default(),
        )
        .unwrap_err()
        .message()
    );
}

#[test]
fn empty_report_with_one_crate_required_gets_one_row() {
    let mut file = report(HEADINGS);
    let sources = Sources {
        contributors: Some("[1, 2, 3, 4, 5]".to_string()),
        ..Sources::default()
    };

    let outcomes = generate_list(
        names(&["alpha"]),
        &mut file,
        &sources,
        &mut RateLimitSpy::default(),
        &mut ProgressBarSpy::default(),
    )
    .unwrap();

    assert_eq!(1, outcomes.len());
    assert_eq!("alpha", outcomes[0].name);
    let record = outcomes[0].result.as_ref().unwrap();
    assert_eq!(5, record.contributors);
    assert_eq!(32, record.reverse_dependencies);
    assert_eq!(8, record.versions.len());
    assert_eq!(
        format!(
            "{HEADINGS}|alpha|{}|5|32|8|{}|{}|{}|\n",
            record.downloads,
            record.created_at.date(),
            record.updated_at.date(),
            record.repository
        ),
        file.read_to_string().unwrap()
    );
}

#[test]
fn only_the_crate_that_the_report_lacks_is_gathered_and_added() {
    let before = format!("{HEADINGS}{}", row("alpha", "3"));
    let mut file = report(&before);
    let sources = Sources {
        contributors: Some("[1]".to_string()),
        ..Sources::default()
    };

    let outcomes = generate_list(
        names(&["alpha", "beta"]),
        &mut file,
        &sources,
        &mut RateLimitSpy::default(),
        &mut ProgressBarSpy::default(),
    )
    .unwrap();

    assert_eq!(1, outcomes.len());
    assert_eq!("beta", outcomes[0].name);
    assert_eq!(
        format!("{before}{}", row("beta", "1")),
        file.read_to_string().unwrap()
    );
    assert_eq!(
        vec![
            "https://crates.io/api/v1/crates/beta".to_string(),
            "https://crates.io/api/v1/crates/beta/reverse_dependencies".to_string(),
            "https://api.github.com/repos/lhalf/autospy/contributors".to_string(),
        ],
        *sources.arguments.borrow()
    );
}

#[test]
fn second_run_adds_nothing() {
    let mut file = OutputFile::at_path("trust-list.md");
    let sources = Sources {
        contributors: Some("[1]".to_string()),
        ..Sources::default()
    };
    let required = names(&["gamma", "alpha", "beta", "alpha"]);

    let first = generate_list(
        required.clone(),
        &mut file,
        &sources,
        &mut RateLimitSpy::default(),
        &mut ProgressBarSpy::default(),
    )
    .unwrap();
    let after_first = file.bytes.clone();
    let asked = sources.arguments.borrow().len();
    let mut progress_bar_spy = ProgressBarSpy::default();
    let second = generate_list(
        required,
        &mut file,
        &sources,
        &mut RateLimitSpy::default(),
        &mut progress_bar_spy,
    )
    .unwrap();

    assert_eq!(3, first.len());
    assert!(second.is_empty());
    assert_eq!(after_first, file.bytes);
    assert_eq!(asked, sources.arguments.borrow().len());
    assert_eq!(vec![0], progress_bar_spy.totals);
    assert!(progress_bar_spy.messages.is_empty());
}

#[test]
fn second_run_gathers_what_the_first_passed_over() {
    let mut file = report(HEADINGS);
    let down = Sources {
        registry_down_for: names(&["beta"]),
        ..Sources::default()
    };
    let required = names(&["alpha", "beta", "gamma"]);

    generate_list(
        required.clone(),
        &mut file,
        &down,
        &mut RateLimitSpy::default(),
        &mut ProgressBarSpy::default(),
    )
    .unwrap();
    let second = generate_list(
        required,
        &mut file,
        &Sources::default(),
        &mut RateLimitSpy::default(),
        &mut ProgressBarSpy::default(),
    )
    .unwrap();

    assert_eq!(1, second.len());
    assert_eq!("beta", second[0].name);
    assert_eq!(
        format!(
            "{HEADINGS}{}{}{}",
            row("alpha", "0"),
            row("gamma", "0"),
            row("beta", "0")
        ),
        file.read_to_string().unwrap()
    );
}

#[test]
fn crates_gathered_are_the_required_ones_without_the_existing_ones_each_once() {
    let mut file = report(&format!(
        "{HEADINGS}{}{}",
        row("delta", "1"),
        row("beta", "1")
    ));
    let sources = Sources::default();

    let outcomes = generate_list(
        names(&["epsilon", "beta", "alpha", "epsilon", "delta", "alpha", "gamma"]),
        &mut file,
        &sources,
        &mut RateLimitSpy::default(),
        &mut ProgressBarSpy::default(),
    )
    .unwrap();

    assert_eq!(
        vec!["epsilon", "alpha", "gamma"],
        outcomes
            .iter()
            .map(|outcome| outcome.name.as_str())
            .collect::<Vec<_>>()
    );
    let entries: Vec<String> = sources
        .arguments
        .borrow()
        .iter()
        .filter_map(|url| url.strip_prefix("https://crates.io/api/v1/crates/"))
        .filter(|rest| !rest.contains('/'))
        .map(String::from)
        .collect();
    assert_eq!(names(&["epsilon", "alpha", "gamma"]), entries);
}

#[test]
fn failed_lookup_writes_no_row_and_later_crates_are_still_gathered() {
    let mut file = report(HEADINGS);
    let sources = Sources {
        registry_down_for: names(&["alpha"]),
        reverse_dependencies_down_for: names(&["beta"]),
        ..Sources::default()
    };

    let outcomes = generate_list(
        names(&["alpha", "beta", "gamma"]),
        &mut file,
        &sources,
        &mut RateLimitSpy::default(),
        &mut ProgressBarSpy::default(),
    )
    .unwrap();

    assert_eq!(3, outcomes.len());
    assert_eq!(
        "no entry for alpha",
        outcomes[0].result.as_ref().unwrap_err().message()
    );
    assert_eq!(
        "failed to get reverse dependencies for beta",
        outcomes[1].result.as_ref().unwrap_err().message()
    );
    assert_eq!(
        "no reverse dependencies of beta",
        outcomes[1].result.as_ref().unwrap_err().root_cause().message()
    );
    assert!(outcomes[2].result.is_ok());
    assert_eq!(
        format!("{HEADINGS}{}", row("gamma", "0")),
        file.read_to_string().unwrap()
    );
}

#[test]
fn row_is_written_with_0_contributors_whatever_the_code_host_does() {
    for contributors in [
        None,
        Some("not json"),
        Some(r#"{"message": "API rate limit exceeded"}"#),
        Some("null"),
        Some("3"),
        Some("[]"),
    ] {
        let sources = Sources {
            contributors: contributors.map(String::from),
            ..Sources::default()
        };
        let record = enrich(&sources, &mut RateLimitSpy::default(), "autospy").unwrap();
        assert_eq!(0, record.contributors);
        assert_eq!(row("autospy", "0"), record.table_entry());
    }
}

#[test]
fn row_is_written_with_0_contributors_for_a_repository_elsewhere() {
    let spy = GetRequestSpy::default();
    spy.push_back(Ok(CRATE_INFO.replace("https://github.com/", "https://gitlab.com/")));
    spy.push_back(Ok(REVERSE_DEPENDENCIES.to_string()));

    let record = enrich(&spy, &mut RateLimitSpy::default(), "autospy").unwrap();

    assert_eq!(0, record.contributors);
    assert_eq!("https://gitlab.com/lhalf/autospy", record.repository);
    assert_eq!(2, spy.arguments.borrow().len());
}

#[test]
fn existing_names_are_the_first_column_after_two_lines() {
    assert_eq!(Vec::<String>::new(), parse_existing_crate_names(""));
    assert_eq!(Vec::<String>::new(), parse_existing_crate_names(HEADINGS));
    assert_eq!(
        Vec::<String>::new(),
        parse_existing_crate_names("|alpha|\n|beta|")
    );
    assert_eq!(
        names(&["alpha", "beta"]),
        parse_existing_crate_names(&format!(
            "{HEADINGS}{}{}",
            row("alpha", "1"),
            row("beta", "30+")
        ))
    );
    assert_eq!(
        names(&["gamma", "delta", "x y", "last", "gamma"]),
        parse_existing_crate_names(
            "one\ntwo\n|gamma\n\n  \t|  delta \t|1|\r\nno pipes\n||skipped|\n|   |\n| x y |\n|\r\n|last|\r\n|gamma|"
        )
    );
    assert_eq!(
        names(&["b\rc"]),
        parse_existing_crate_names("h\nd\n|\u{a0}b\rc\u{2003}|")
    );
}

#[test]
fn missing_names_keep_the_order_of_the_required_ones() {
    assert_eq!(
        names(&["c", "a"]),
        missing_names(&names(&["c", "b", "a", "c"]), &names(&["b", "z", "b"]))
    );
    assert_eq!(
        Vec::<String>::new(),
        missing_names(&names(&[]), &names(&["b"]))
    );
    assert_eq!(
        Vec::<String>::new(),
        missing_names(&names(&["a", "b"]), &names(&["b", "a"]))
    );
    assert_eq!(
        names(&["a", "A", ""]),
        missing_names(&names(&["a", "A", "", "a"]), &names(&[]))
    );
}

#[test]
fn report_that_is_not_utf8_fails_the_run_and_stays_as_it_was() {
    let mut file = OutputFile::at_path("trust-list.md");
    file.create().unwrap();
    file.append(&[0xff, 0xfe]).unwrap();
    let sources = Sources::default();

    let error = generate_list(
        names(&["alpha"]),
        &mut file,
        &sources,
        &mut RateLimitSpy::default(),
        &mut ProgressBarSpy::default(),
    )
    .unwrap_err();

    assert_eq!("failed to read output file", error.message());
    assert_eq!(Some(vec![0xff, 0xfe]), file.bytes);
    assert!(sources.arguments.borrow().is_empty());
}

#[test]
fn failure_is_told_when_it_happens_and_before_the_next_crate() {
    let mut file = report(HEADINGS);
    let sources = Sources {
        registry_down_for: names(&["alpha"]),
        reverse_dependencies_down_for: names(&["gamma"]),
        ..Sources::default()
    };
    let mut progress_bar_spy = ProgressBarSpy::default();

    generate_list(
        names(&["alpha", "beta", "gamma"]),
        &mut file,
        &sources,
        &mut RateLimitSpy::default(),
        &mut progress_bar_spy,
    )
    .unwrap();

    assert_eq!(
        vec![
            ("alpha".to_string(), "no entry for alpha".to_string()),
            (
                "gamma".to_string(),
                "failed to get reverse dependencies for gamma".to_string()
            ),
        ],
        progress_bar_spy.failures
    );
    assert_eq!(
        vec![
            "message alpha ",
            "failure alpha",
            "increment",
            "message beta ",
            "increment",
            "message gamma ",
            "failure gamma",
            "increment",
        ],
        progress_bar_spy.shown
    );
}

#[test]
fn run_waits_once_before_each_call_to_the_registry() {
    let mut file = report(HEADINGS);
    let sources = Sources {
        registry_down_for: names(&["alpha"]),
        reverse_dependencies_down_for: names(&["beta"]),
        contributors: Some("[1]".to_string()),
        ..Sources::default()
    };
    let mut rate_limit = RateLimitSpy::default();

    generate_list(
        names(&["alpha", "beta", "gamma"]),
        &mut file,
        &sources,
        &mut rate_limit,
        &mut ProgressBarSpy::default(),
    )
    .unwrap();

    let registry_calls = sources
        .arguments
        .borrow()
        .iter()
        .filter(|url| url.starts_with("https://crates.io/"))
        .count();
    assert_eq!(5, registry_calls);
    assert_eq!(5, rate_limit.waits);
}

#[test]
fn refused_row_ends_the_run_with_nothing_behind_it() {
    struct Full {
        report: OutputFile,
        rows_left: usize,
    }
    impl FileIO for Full {
        fn is_present(&self) -> bool {
            self.report.is_present()
        }
        fn remove(&mut self) {
            self.report.remove()
        }
        fn create(&mut self) -> Result<(), Error> {
            self.report.create()
        }
        fn append(&mut self, contents: &[u8]) -> Result<(), Error> {
            if self.rows_left == 0 {
                return Err(Error::Storage("disk is full".to_string()));
            }
            self.rows_left -= 1;
            self.report.append(contents)
        }
        fn read_to_string(&self) -> Result<String, Error> {
            self.report.read_to_string()
        }
    }
    let mut file = Full {
        report: report(HEADINGS),
        rows_left: 1,
    };
    let sources = Sources::default();

    let error = generate_list(
        names(&["alpha", "beta", "gamma"]),
        &mut file,
        &sources,
        &mut RateLimitSpy::default(),
        &mut ProgressBarSpy::default(),
    )
    .unwrap_err();

    assert!(matches!(error, Error::Storage(reason) if reason == "disk is full"));
    assert_eq!(
        format!("{HEADINGS}{}", row("alpha", "0")),
        file.report.read_to_string().unwrap()
    );
    assert!(!sources
        .arguments
        .borrow()
        .iter()
        .any(|url| url.contains("gamma")));
}
