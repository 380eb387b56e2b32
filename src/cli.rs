//! The command line as plain values, and the checks made on the files it names.

use vstd::prelude::*;
use crate::errors::{FilePathError, XCTestError};
use crate::model::option_text_view;
use crate::text::text_of;

verus! {

/// What the tool is asked to do. Paths are given as the text of the argument.
pub enum Commands {
    /// Run the tests, then report on the coverage they produced.
    Run {
        input_file: String,
        project_path: String,
        workspace: String,
        scheme: String,
        destination: String,
        output_file: Option<String>,
    },
    /// Report on the coverage of an existing result bundle.
    Generate { input_file: String, xcresult_file: String, output_file: Option<String> },
}

/// The parsed command line.
pub struct Cli {
    pub command: Commands,
}

impl Cli {
    pub fn command(&self) -> (r: &Commands)
        ensures
            *r == self.command,
    {
        &self.command
    }
}

/// The extension of the last component of a path, as `Path::extension` gives it.
pub uninterp spec fn path_extension(path: Seq<char>) -> Option<Seq<char>>;

/// Relies on `std::path::Path::extension`: the extension of the path's last
/// component, a function of the path's text alone.
#[verifier::external_body]
fn extension_of(path: &str) -> (r: Option<String>)
    ensures
        option_text_view(r) == path_extension(path@),
{
    std::path::Path::new(path).extension().map(|e| e.to_string_lossy().into_owned())
}

/// How an extension is shown in an error: `N/A` when there is none.
pub open spec fn extension_shown(found: Option<Seq<char>>) -> Seq<char> {
    match found {
        Some(e) => e,
        None => "N/A"@,
    }
}

pub open spec fn has_type(found: Option<Seq<char>>, extension: Seq<char>) -> bool {
    found == Some(extension)
}

/// Accepts `arg` when the extension `found` on it is `extension`; otherwise
/// reports the extension found.
pub fn check_file_type(arg: &str, found: Option<String>, extension: &str) -> (r: Result<String, XCTestError>)
    ensures
        has_type(option_text_view(found), extension@) ==> (r matches Ok(p) && p@ == arg@),
        !has_type(option_text_view(found), extension@) ==> (r matches Err(
            XCTestError::FilePath(FilePathError::InvalidType { extension: x }),
        ) && x@ == extension_shown(option_text_view(found))),
{
    let wanted = text_of(extension);
    match found {
        Some(e) => {
            if e == wanted {
                Ok(text_of(arg))
            } else {
                Err(XCTestError::FilePath(FilePathError::InvalidType { extension: e }))
            }
        },
        None => Err(XCTestError::FilePath(FilePathError::InvalidType { extension: text_of("N/A") })),
    }
}

/// Accepts a path argument naming an existing file (`exists`, as the file
/// system reported it) with the extension `extension`.
pub fn parse_file(arg: &str, exists: bool, extension: &str) -> (r: Result<String, XCTestError>)
    ensures
        !exists ==> r matches Err(XCTestError::FilePath(FilePathError::NotFound)),
        exists && has_type(path_extension(arg@), extension@) ==> (r matches Ok(p) && p@ == arg@),
        exists && !has_type(path_extension(arg@), extension@) ==> (r matches Err(
            XCTestError::FilePath(FilePathError::InvalidType { extension: x }),
        ) && x@ == extension_shown(path_extension(arg@))),
{
    if !exists {
        return Err(XCTestError::FilePath(FilePathError::NotFound));
    }
    check_file_type(arg, extension_of(arg), extension)
}

/// A result bundle argument: an existing `.xcresult`.
pub fn parse_xcresult_file(arg: &str, exists: bool) -> (r: Result<String, XCTestError>)
    ensures
        !exists ==> r matches Err(XCTestError::FilePath(FilePathError::NotFound)),
        exists && has_type(path_extension(arg@), "xcresult"@) ==> (r matches Ok(p) && p@ == arg@),
        exists && !has_type(path_extension(arg@), "xcresult"@) ==> (r matches Err(
            XCTestError::FilePath(FilePathError::InvalidType { extension: x }),
        ) && x@ == extension_shown(path_extension(arg@))),
{
    parse_file(arg, exists, "xcresult")
}

/// An ownership map argument: an existing `.csv`.
pub fn parse_input_file(arg: &str, exists: bool) -> (r: Result<String, XCTestError>)
    ensures
        !exists ==> r matches Err(XCTestError::FilePath(FilePathError::NotFound)),
        exists && has_type(path_extension(arg@), "csv"@) ==> (r matches Ok(p) && p@ == arg@),
        exists && !has_type(path_extension(arg@), "csv"@) ==> (r matches Err(
            XCTestError::FilePath(FilePathError::InvalidType { extension: x }),
        ) && x@ == extension_shown(path_extension(arg@))),
{
    parse_file(arg, exists, "csv")
}

/// An output argument: a path where nothing exists yet.
pub fn parse_output_file(arg: &str, exists: bool) -> (r: Result<String, XCTestError>)
    ensures
        exists ==> r matches Err(XCTestError::FilePath(FilePathError::AlreadyExists)),
        !exists ==> (r matches Ok(p) && p@ == arg@),
{
    if exists {
        return Err(XCTestError::FilePath(FilePathError::AlreadyExists));
    }
    Ok(text_of(arg))
}

} // verus!
