//! The library's error kinds, each with the message it is reported with.

use vstd::prelude::*;
use vstd::string::StringExecFns;
use crate::text::{decimal, push_decimal, text_of};

verus! {

/// The text that `Debug` gives for a string: the string in double quotes,
/// with quotes, backslashes and control characters escaped.
pub uninterp spec fn debug_text(s: Seq<char>) -> Seq<char>;

/// Relies on the `Debug` formatting of `str`: the quoted, escaped rendering
/// of the string, which depends on its characters alone.
#[verifier::external_body]
fn debug_quoted(s: &str) -> (r: String)
    ensures
        r@ == debug_text(s@),
{
    format!("{:?}", s)
}

/// A file given on the command line is unusable.
#[derive(Debug)]
pub enum FilePathError {
    NotFound,
    AlreadyExists,
    InvalidType { extension: String },
}

impl FilePathError {
    pub open spec fn message_spec(&self) -> Seq<char> {
        match self {
            FilePathError::NotFound => "File does not exist."@,
            FilePathError::AlreadyExists => "File already exists."@,
            FilePathError::InvalidType { extension } => "File type: "@ + debug_text(extension@) + " is invalid"@,
        }
    }

    pub fn message(&self) -> (r: String)
        ensures
            r@ == self.message_spec(),
    {
        match self {
            FilePathError::NotFound => text_of("File does not exist."),
            FilePathError::AlreadyExists => text_of("File already exists."),
            FilePathError::InvalidType { extension } => {
                let mut r = text_of("File type: ");
                r.append(debug_quoted(extension.as_str()).as_str());
                r.append(" is invalid");
                r
            },
        }
    }
}

/// A directory the tool needs is missing.
#[derive(Debug)]
pub enum DirPathError {
    NotFound,
}

impl DirPathError {
    pub open spec fn message_spec(&self) -> Seq<char> {
        "Directory does not exist"@
    }

    pub fn message(&self) -> (r: String)
        ensures
            r@ == self.message_spec(),
    {
        text_of("Directory does not exist")
    }
}

/// A collaborator command could not be run, or exited with a failure. The
/// first three carry the description of the error that starting the tool gave.
#[derive(Debug)]
pub enum CommandExecutionError {
    XCodeBuild(String),
    XCPretty(String),
    XCRun(String),
    NonZeroExit { desc: String },
}

impl CommandExecutionError {
    pub open spec fn message_spec(&self) -> Seq<char> {
        match self {
            CommandExecutionError::XCodeBuild(e) => e@,
            CommandExecutionError::XCPretty(e) => e@,
            CommandExecutionError::XCRun(e) => e@,
            CommandExecutionError::NonZeroExit { desc } => desc@,
        }
    }

    pub fn message(&self) -> (r: String)
        ensures
            r@ == self.message_spec(),
    {
        match self {
            CommandExecutionError::XCodeBuild(e) => e.clone(),
            CommandExecutionError::XCPretty(e) => e.clone(),
            CommandExecutionError::XCRun(e) => e.clone(),
            CommandExecutionError::NonZeroExit { desc } => desc.clone(),
        }
    }
}

/// The ownership map cannot be read: a required column is absent from its
/// header, or a data row (counted from 0 after the header) has no value in one.
#[derive(Debug)]
pub enum CSVParseError {
    ColumnMissing { name: &'static str },
    MissingValue { row: usize, name: &'static str },
}

impl CSVParseError {
    pub open spec fn message_spec(&self) -> Seq<char> {
        match self {
            CSVParseError::ColumnMissing { name } => "column "@ + name@ + " could not be found"@,
            CSVParseError::MissingValue { row, name } => "row "@ + decimal(*row as nat) + ": column "@ + name@
                + " has no value"@,
        }
    }

    pub fn message(&self) -> (r: String)
        ensures
            r@ == self.message_spec(),
    {
        match self {
            CSVParseError::ColumnMissing { name } => {
                let mut r = text_of("column ");
                r.append(name);
                r.append(" could not be found");
                r
            },
            CSVParseError::MissingValue { row, name } => {
                let mut r = text_of("row ");
                push_decimal(&mut r, *row as u128);
                r.append(": column ");
                r.append(name);
                r.append(" has no value");
                r
            },
        }
    }
}

/// Any failure of a run. Each stage's error is passed up unchanged.
#[derive(Debug)]
pub enum XCReportError {
    FilePath(FilePathError),
    FileIO(String),
    DirPath(DirPathError),
    UTF8(String),
    CommandExecution(CommandExecutionError),
    Deserialization(String),
    CSVParse(CSVParseError),
}

impl XCReportError {
    /// The message of the error that was passed up; for the kinds that
    /// carry a description, that description.
    pub open spec fn message_spec(&self) -> Seq<char> {
        match self {
            XCReportError::FilePath(e) => e.message_spec(),
            XCReportError::FileIO(d) => d@,
            XCReportError::DirPath(e) => e.message_spec(),
            XCReportError::UTF8(d) => d@,
            XCReportError::CommandExecution(e) => e.message_spec(),
            XCReportError::Deserialization(d) => d@,
            XCReportError::CSVParse(e) => e.message_spec(),
        }
    }

    pub fn message(&self) -> (r: String)
        ensures
            r@ == self.message_spec(),
    {
        match self {
            XCReportError::FilePath(e) => e.message(),
            XCReportError::FileIO(d) => d.clone(),
            XCReportError::DirPath(e) => e.message(),
            XCReportError::UTF8(d) => d.clone(),
            XCReportError::CommandExecution(e) => e.message(),
            XCReportError::Deserialization(d) => d.clone(),
            XCReportError::CSVParse(e) => e.message(),
        }
    }
}

/// A failure while checking the command line's arguments.
#[derive(Debug)]
pub enum XCTestError {
    FileIO(String),
    FilePath(FilePathError),
    DirPath(DirPathError),
    CommandExecution(CommandExecutionError),
    CSVParse(CSVParseError),
}

impl XCTestError {
    pub open spec fn message_spec(&self) -> Seq<char> {
        match self {
            XCTestError::FileIO(d) => d@,
            XCTestError::FilePath(e) => e.message_spec(),
            XCTestError::DirPath(e) => e.message_spec(),
            XCTestError::CommandExecution(e) => e.message_spec(),
            XCTestError::CSVParse(e) => e.message_spec(),
        }
    }

    pub fn message(&self) -> (r: String)
        ensures
            r@ == self.message_spec(),
    {
        match self {
            XCTestError::FileIO(d) => d.clone(),
            XCTestError::FilePath(e) => e.message(),
            XCTestError::DirPath(e) => e.message(),
            XCTestError::CommandExecution(e) => e.message(),
            XCTestError::CSVParse(e) => e.message(),
        }
    }
}

} // verus!
