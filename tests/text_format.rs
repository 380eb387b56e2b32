use xcreport::cli::{check_file_type, parse_file, parse_input_file, parse_output_file, parse_xcresult_file, Cli, Commands};
use xcreport::csv::{parse_records, push_field, render_table};
use xcreport::errors::{CSVParseError, CommandExecutionError, DirPathError, FilePathError, XCReportError, XCTestError};
use xcreport::ownership::parse_squads_file;
use xcreport::paths::{home_path, join_path, run_file_in, tool_dir_in};
use xcreport::text::{push_decimal, text_contains, text_equal, text_less};

fn chars(s: &str) -> Vec<char> {
    s.chars().collect()
}

#[test]
fn records_are_split_on_commas_and_lines() {
    let r = parse_records("a,b\r\nc,d\n\n e ,\n");
    assert_eq!(r, vec![vec!["a", "b"], vec!["c", "d"], vec![" e ", ""]]);
    assert_eq!(parse_records("x,y"), vec![vec!["x", "y"]]);
    assert!(parse_records("").is_empty());
}

#[test]
fn quoted_fields_keep_separators_and_doubled_quotes() {
    let r = parse_records("\"a,b\",\"say \"\"hi\"\"\",\"two\nlines\"\n");
    assert_eq!(r, vec![vec!["a,b", "say \"hi\"", "two\nlines"]]);
}

#[test]
fn fields_are_quoted_only_when_needed() {
    let mut out = String::new();
    push_field(&mut out, "plain");
    assert_eq!(out, "plain");
    let mut out = String::new();
    push_field(&mut out, "a,\"b\"");
    assert_eq!(out, "\"a,\"\"b\"\"\"");
    let table = vec![vec!["h1".to_string(), "h2".to_string()], vec!["x y".to_string(), "1,2".to_string()]];
    let text = render_table(&table);
    assert_eq!(text, "h1,h2\nx y,\"1,2\"\n");
    assert_eq!(parse_records(&text), table);
}

#[test]
fn ownership_map_is_read_in_row_order() {
    let entries = parse_squads_file("Owner,Filepath,Squad\nx,/Foo/,TeamA\ny,/Bar/,TeamB\n").unwrap();
    let pairs: Vec<(&str, &str)> = entries.iter().map(|e| (e.squad_name().as_str(), e.file_name().as_str())).collect();
    assert_eq!(pairs, vec![("TeamA", "/Foo/"), ("TeamB", "/Bar/")]);
}

#[test]
fn header_only_ownership_map_is_empty() {
    assert!(parse_squads_file("Squad,Filepath\n").unwrap().is_empty());
}

#[test]
fn missing_columns_are_reported_squad_first() {
    match parse_squads_file("Team,Path\nA,/x/\n") {
        Err(CSVParseError::ColumnMissing { name }) => assert_eq!(name, "Squad"),
        _ => panic!("expected Squad to be missing"),
    }
    match parse_squads_file("Squad,Path\nA,/x/\n") {
        Err(CSVParseError::ColumnMissing { name }) => assert_eq!(name, "Filepath"),
        _ => panic!("expected Filepath to be missing"),
    }
    match parse_squads_file("") {
        Err(CSVParseError::ColumnMissing { name }) => assert_eq!(name, "Squad"),
        _ => panic!("expected Squad to be missing"),
    }
}

#[test]
fn rows_without_values_are_reported() {
    match parse_squads_file("Squad,Filepath\nA,/x/\nB\n") {
        Err(CSVParseError::MissingValue { row, name }) => {
            assert_eq!(row, 1);
            assert_eq!(name, "Filepath");
        }
        _ => panic!("expected a missing value"),
    }
    match parse_squads_file("Squad,Filepath\n,/x/\n") {
        Err(CSVParseError::MissingValue { row, name }) => {
            assert_eq!(row, 0);
            assert_eq!(name, "Squad");
        }
        _ => panic!("expected a missing value"),
    }
}

#[test]
fn text_order_and_search() {
    assert!(text_less(&chars("N/A"), &chars("TeamA")));
    assert!(text_less(&chars("Team"), &chars("TeamA")));
    assert!(!text_less(&chars("TeamB"), &chars("TeamA")));
    assert!(!text_less(&chars("x"), &chars("x")));
    assert!(text_less(&chars("Z"), &chars("a")));
    assert!(text_equal(&chars("abc"), &chars("abc")));
    assert!(!text_equal(&chars("abc"), &chars("abd")));
    assert!(text_contains(&chars("/Foo/Sub/X.swift"), &chars("/Sub/")));
    assert!(text_contains(&chars("/Foo/"), &chars("")));
    assert!(!text_contains(&chars("/Foo/"), &chars("/Foo/Sub/")));
    assert!(!text_contains(&chars("/Fo/o"), &chars("/Foo")));
}

#[test]
fn decimals_are_written_without_leading_zeros() {
    let mut s = "n=".to_string();
    push_decimal(&mut s, 0);
    assert_eq!(s, "n=0");
    let mut s = String::new();
    push_decimal(&mut s, 1234567890123456789);
    assert_eq!(s, "1234567890123456789");
}

#[test]
fn run_paths_are_joined_with_separators() {
    let home = "/home/dev".to_string();
    assert_eq!(tool_dir_in(&home), "/home/dev/.xcreport");
    assert_eq!(run_file_in(&home, &"2024-01-02-03-04-05".to_string(), "full_report.csv"), "/home/dev/.xcreport/2024-01-02-03-04-05/full_report.csv");
    assert_eq!(join_path(&"/root/".to_string(), "x"), "/root/x");
    assert_eq!(join_path(&String::new(), "x"), "x");
    assert_eq!(join_path(&"/root".to_string(), "/abs/x"), "/abs/x");
}

#[test]
fn home_path_ends_in_tool_directory() {
    match home_path() {
        Ok(p) => assert!(p.ends_with(".xcreport")),
        Err(XCReportError::DirPath(DirPathError::NotFound)) => {}
        Err(_) => panic!("unexpected error"),
    }
}

#[test]
fn file_arguments_are_checked() {
    assert!(matches!(parse_input_file("map.csv", false), Err(XCTestError::FilePath(FilePathError::NotFound))));
    assert_eq!(parse_input_file("dir/map.csv", true).unwrap(), "dir/map.csv");
    match parse_input_file("map.txt", true) {
        Err(XCTestError::FilePath(FilePathError::InvalidType { extension })) => assert_eq!(extension, "txt"),
        _ => panic!("expected an invalid type"),
    }
    match parse_xcresult_file("bundle", true) {
        Err(XCTestError::FilePath(FilePathError::InvalidType { extension })) => assert_eq!(extension, "N/A"),
        _ => panic!("expected an invalid type"),
    }
    assert_eq!(parse_xcresult_file("run/result.xcresult", true).unwrap(), "run/result.xcresult");
    assert!(matches!(parse_file("a.csv", true, "xcresult"), Err(XCTestError::FilePath(FilePathError::InvalidType { .. }))));
    assert!(matches!(parse_output_file("out.csv", true), Err(XCTestError::FilePath(FilePathError::AlreadyExists))));
    assert_eq!(parse_output_file("out.csv", false).unwrap(), "out.csv");
    assert_eq!(check_file_type("a.csv", Some("csv".to_string()), "csv").unwrap(), "a.csv");
}

#[test]
fn error_messages() {
    assert_eq!(FilePathError::NotFound.message(), "File does not exist.");
    assert_eq!(FilePathError::AlreadyExists.message(), "File already exists.");
    assert_eq!(FilePathError::InvalidType { extension: "txt".to_string() }.message(), "File type: \"txt\" is invalid");
    assert_eq!(
        FilePathError::InvalidType { extension: "a\"b\\c".to_string() }.message(),
        "File type: \"a\\\"b\\\\c\" is invalid"
    );
    assert_eq!(DirPathError::NotFound.message(), "Directory does not exist");
    assert_eq!(CommandExecutionError::NonZeroExit { desc: "65".to_string() }.message(), "65");
    assert_eq!(CSVParseError::ColumnMissing { name: "Squad" }.message(), "column Squad could not be found");
    assert_eq!(CSVParseError::MissingValue { row: 12, name: "Filepath" }.message(), "row 12: column Filepath has no value");
    assert_eq!(XCReportError::CSVParse(CSVParseError::ColumnMissing { name: "Filepath" }).message(), "column Filepath could not be found");
}

#[test]
fn command_is_exposed() {
    let cli = Cli {
        command: Commands::Generate { input_file: "m.csv".to_string(), xcresult_file: "r.xcresult".to_string(), output_file: None },
    };
    assert!(matches!(cli.command(), Commands::Generate { output_file: None, .. }));
}
