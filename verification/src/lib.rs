//! A trust list: a report that holds, for each crate that a project depends
//! on, how often it was downloaded, how many contributors it has, how many
//! crates depend on it, how many versions it has, when it was created and
//! updated, and where its repository is.
//!
//! The run that brings the report up to the dependencies stands in
//! [`generate_list`]. It works on a file, on a way to fetch a text from an
//! address, on a pause between two calls to the registry and on a display of
//! progress; each of the four is a trait that the caller implements.

pub mod cargo_tree;
pub mod crates_io;
pub mod dependencies;
pub mod error;
pub mod file_io;
pub mod generate_list;
pub mod github;
pub mod http_client;
pub mod json;
pub mod output_file;
pub mod progress_bar;
pub mod rerun;
pub mod text;
pub mod timestamp;
