//! Where a run keeps its files: a directory `.xcreport` in the user's home,
//! with one subdirectory per run identifier.

use vstd::prelude::*;
use vstd::string::StringExecFns;
use crate::errors::{DirPathError, XCReportError};

verus! {

/// Relies on `home::home_dir`: the current user's home directory, when one
/// can be determined. It depends on the environment, so nothing is promised
/// of it.
#[verifier::external_body]
fn user_home() -> (r: Option<String>) {
    home::home_dir().map(|p| p.to_string_lossy().into_owned())
}

/// `part` appended to the path `base`, with a separator between them unless
/// `base` is empty or already ends with one. An absolute `part` replaces
/// `base`.
pub open spec fn joined(base: Seq<char>, part: Seq<char>) -> Seq<char> {
    if part.len() > 0 && part[0] == '/' {
        part
    } else if base.len() == 0 || base.last() == '/' {
        base + part
    } else {
        base + seq!['/'] + part
    }
}

pub fn join_path(base: &String, part: &str) -> (r: String)
    ensures
        r@ == joined(base@, part@),
{
    let part_chars = crate::text::chars_of(part);
    if part_chars.len() > 0 && part_chars[0] == '/' {
        return crate::text::text_of(part);
    }
    let mut r = base.clone();
    let chars = crate::text::chars_of(base.as_str());
    if chars.len() > 0 && chars[chars.len() - 1] != '/' {
        crate::text::push_char(&mut r, '/');
    }
    r.append(part);
    r
}

/// The tool's directory within the home directory `home`.
pub open spec fn tool_dir(home: Seq<char>) -> Seq<char> {
    joined(home, ".xcreport"@)
}

/// The path of `file` within the directory of run `identifier`.
pub open spec fn run_file(home: Seq<char>, identifier: Seq<char>, file: Seq<char>) -> Seq<char> {
    joined(joined(tool_dir(home), identifier), file)
}

pub open spec fn home_missing() -> XCReportError {
    XCReportError::DirPath(DirPathError::NotFound)
}

/// The tool's directory within the home directory `home`.
pub fn tool_dir_in(home: &String) -> (r: String)
    ensures
        r@ == tool_dir(home@),
{
    join_path(home, ".xcreport")
}

/// The path of `file` within run `identifier`'s directory under the home
/// directory `home`.
pub fn run_file_in(home: &String, identifier: &String, file: &str) -> (r: String)
    ensures
        r@ == run_file(home@, identifier@, file@),
{
    let dir = join_path(&tool_dir_in(home), identifier.as_str());
    join_path(&dir, file)
}

/// The tool's directory in the user's home directory.
pub fn home_path() -> (r: Result<String, XCReportError>)
    ensures
        r matches Ok(p) ==> exists|h: Seq<char>| p@ == #[trigger] tool_dir(h),
        r matches Err(e) ==> e == home_missing(),
{
    match user_home() {
        Some(h) => Ok(tool_dir_in(&h)),
        None => Err(XCReportError::DirPath(DirPathError::NotFound)),
    }
}

/// Where the build keeps its derived data: `derived_data` in the tool's directory.
pub fn derived_data_path() -> (r: Result<String, XCReportError>)
    ensures
        r matches Ok(p) ==> exists|h: Seq<char>| p@ == joined(#[trigger] tool_dir(h), "derived_data"@),
        r matches Err(e) ==> e == home_missing(),
{
    match user_home() {
        Some(h) => Ok(join_path(&tool_dir_in(&h), "derived_data")),
        None => Err(XCReportError::DirPath(DirPathError::NotFound)),
    }
}

fn run_path(identifier: &String, file: &str) -> (r: Result<String, XCReportError>)
    ensures
        r matches Ok(p) ==> exists|h: Seq<char>| p@ == #[trigger] run_file(h, identifier@, file@),
        r matches Err(e) ==> e == home_missing(),
{
    match user_home() {
        Some(h) => Ok(run_file_in(&h, identifier, file)),
        None => Err(XCReportError::DirPath(DirPathError::NotFound)),
    }
}

/// The result bundle of run `identifier`.
pub fn xcresult_path(identifier: &String) -> (r: Result<String, XCReportError>)
    ensures
        r matches Ok(p) ==> exists|h: Seq<char>| p@ == #[trigger] run_file(h, identifier@, "result.xcresult"@),
        r matches Err(e) ==> e == home_missing(),
{
    run_path(identifier, "result.xcresult")
}

/// The test log page of run `identifier`.
pub fn xcpretty_report_path(identifier: &String) -> (r: Result<String, XCReportError>)
    ensures
        r matches Ok(p) ==> exists|h: Seq<char>| p@ == #[trigger] run_file(h, identifier@, "xcpretty_report.html"@),
        r matches Err(e) ==> e == home_missing(),
{
    run_path(identifier, "xcpretty_report.html")
}

/// The full report of run `identifier`.
pub fn full_report_path(identifier: &String) -> (r: Result<String, XCReportError>)
    ensures
        r matches Ok(p) ==> exists|h: Seq<char>| p@ == #[trigger] run_file(h, identifier@, "full_report.csv"@),
        r matches Err(e) ==> e == home_missing(),
{
    run_path(identifier, "full_report.csv")
}

/// The summary of run `identifier`, where no other output path is given.
pub fn report_path(identifier: &String) -> (r: Result<String, XCReportError>)
    ensures
        r matches Ok(p) ==> exists|h: Seq<char>| p@ == #[trigger] run_file(h, identifier@, "report.csv"@),
        r matches Err(e) ==> e == home_missing(),
{
    run_path(identifier, "report.csv")
}

/// The directory of run `identifier`.
pub fn workdir_path(identifier: &String) -> (r: Result<String, XCReportError>)
    ensures
        r matches Ok(p) ==> exists|h: Seq<char>| p@ == joined(#[trigger] tool_dir(h), identifier@),
        r matches Err(e) ==> e == home_missing(),
{
    match user_home() {
        Some(h) => Ok(join_path(&tool_dir_in(&h), identifier.as_str())),
        None => Err(XCReportError::DirPath(DirPathError::NotFound)),
    }
}

} // verus!
