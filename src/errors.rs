//! What can go wrong, and the exit code that each failure ends the process
//! with. Values of outside types ride along unread.

use aho_corasick::{AhoCorasick, BuildError};
use regex::Regex;
use std::io::ErrorKind;
use std::path::PathBuf;
use vstd::prelude::*;

verus! {

#[verifier::external_type_specification]
#[verifier::external_body]
pub struct ExRegex(Regex);

#[verifier::external_type_specification]
#[verifier::external_body]
pub struct ExRegexError(regex::Error);

#[verifier::external_type_specification]
#[verifier::external_body]
pub struct ExAhoCorasick(AhoCorasick);

#[verifier::external_type_specification]
#[verifier::external_body]
pub struct ExBuildError(BuildError);

#[verifier::external_type_specification]
#[verifier::external_body]
pub struct ExPathBuf(PathBuf);

#[verifier::external_type_specification]
#[verifier::external_body]
pub struct ExErrorKind(ErrorKind);

/// A failure of any stage. `Eof` marks the orderly end of the output stream;
/// `Interrupt` is the user's SIGINT and is reported by exit code alone.
#[derive(Debug)]
pub enum Die {
    Eof,
    Interrupt,
    RegexError(regex::Error),
    BuildError(BuildError),
    ArgumentError(String),
    IO(PathBuf, ErrorKind),
    BadExit(PathBuf, i32),
}

impl Die {
    /// 130 for an interrupt, 1 for every other failure.
    pub fn exit_code(&self) -> (r: i32)
        ensures
            self is Interrupt ==> r == 130,
            !(self is Interrupt) ==> r == 1,
    {
        match self {
            Die::Interrupt => 130,
            _ => 1,
        }
    }

    /// Whether the failure is reported by a message (all but an interrupt).
    pub fn is_reported(&self) -> (r: bool)
        ensures
            r == !(self is Interrupt),
    {
        match self {
            Die::Interrupt => false,
            _ => true,
        }
    }
}

} // verus!
