use xcreport::csv::parse_records;
use xcreport::model::{Target, TargetFile, XCodeBuildReport};
use xcreport::ownership::parse_squads_file;
use xcreport::pipeline::process_xcresult;
use xcreport::report::{coverage_percent, process_full_report, process_report, report_rows_of, totals_fit, FullReportRow, SummaryRow};
use xcreport::writer::{full_report_text, summary_text};

fn file(path: &str, covered: usize, executable: usize, squad: Option<&str>) -> TargetFile {
    let mut f = TargetFile::new(path.to_string(), covered, executable, "0.5".to_string());
    if let Some(s) = squad {
        f.set_squad_name(s.to_string());
    }
    f
}

fn export(files: Vec<TargetFile>) -> XCodeBuildReport {
    XCodeBuildReport {
        targets: vec![Target { covered_lines: 0, executable_lines: 0, line_coverage: "0".to_string(), files }],
    }
}

fn process_report_ok(rows: &Vec<FullReportRow>) -> Vec<SummaryRow> {
    process_report(rows).unwrap()
}

fn squads(rows: &[FullReportRow]) -> Vec<&str> {
    rows.iter().map(|r| r.squad.as_str()).collect()
}

fn summary_line(r: &SummaryRow) -> (String, usize, u64, u64, Option<u128>) {
    (r.squad.clone(), r.count, r.covered_lines, r.executable_lines, r.coverage)
}

#[test]
fn full_report_fills_missing_owner_before_sorting() {
    let files = vec![
        file("/Zed/a", 1, 1, Some("Zeta")),
        file("/Baz/c", 0, 5, None),
        file("/Foo/b", 2, 4, Some("Alpha")),
    ];
    let full = process_full_report(&files);
    assert_eq!(squads(&full), vec!["Alpha", "N/A", "Zeta"]);
    assert_eq!(full[1].file_path, "/Baz/c");
}

#[test]
fn full_report_sort_is_stable() {
    let files = vec![
        file("/1", 1, 1, Some("B")),
        file("/2", 1, 1, Some("A")),
        file("/3", 1, 1, Some("B")),
        file("/4", 1, 1, Some("A")),
    ];
    let full = process_full_report(&files);
    let paths: Vec<&str> = full.iter().map(|r| r.file_path.as_str()).collect();
    assert_eq!(paths, vec!["/2", "/4", "/1", "/3"]);
}

#[test]
fn summary_of_basic_scenario() {
    let csv = "Squad,Filepath\nTeamA,/Foo/\nTeamB,/Bar/\n";
    let report = export(vec![
        file("/Foo/A.swift", 8, 10, None),
        file("/Bar/B.swift", 5, 10, None),
        file("/Baz/C.swift", 0, 5, None),
    ]);
    let out = process_xcresult(parse_squads_file(csv).unwrap(), report).unwrap();
    assert_eq!(out.full_report.len(), 3);
    let by_path: Vec<(&str, &str)> = out.full_report.iter().map(|r| (r.file_path.as_str(), r.squad.as_str())).collect();
    assert!(by_path.contains(&("/Foo/A.swift", "TeamA")));
    assert!(by_path.contains(&("/Bar/B.swift", "TeamB")));
    assert!(by_path.contains(&("/Baz/C.swift", "N/A")));
    let summary: Vec<_> = out.summary.iter().map(summary_line).collect();
    assert_eq!(
        summary,
        vec![
            ("N/A".to_string(), 1, 0, 5, Some(0)),
            ("TeamA".to_string(), 1, 8, 10, Some(8000)),
            ("TeamB".to_string(), 1, 5, 10, Some(5000)),
        ]
    );
    assert_eq!(
        out.summary_text,
        "Squad,Count,Covered Lines,Executable Lines,Coverage %\nN/A,1,0,5,0.00\nTeamA,1,8,10,80.00\nTeamB,1,5,10,50.00\n"
    );
    assert_eq!(
        out.full_report_text,
        "Filepath,Covered Lines,Executable Lines,Line Coverage,Squad\n/Baz/C.swift,0,5,0.5,N/A\n/Foo/A.swift,8,10,0.5,TeamA\n/Bar/B.swift,5,10,0.5,TeamB\n"
    );
}

#[test]
fn empty_ownership_map_gives_one_summary_row() {
    let report = export(vec![file("/Foo/A.swift", 8, 10, None), file("/Bar/B.swift", 5, 10, None)]);
    let out = process_xcresult(parse_squads_file("Squad,Filepath\n").unwrap(), report).unwrap();
    assert!(out.full_report.iter().all(|r| r.squad == "N/A"));
    assert_eq!(out.summary.len(), 1);
    assert_eq!(summary_line(&out.summary[0]), ("N/A".to_string(), 2, 13, 20, Some(6500)));
}

#[test]
fn summary_conserves_line_totals() {
    let files = vec![
        file("/a", 3, 7, Some("X")),
        file("/b", 4, 4, Some("Y")),
        file("/c", 0, 9, None),
        file("/d", 6, 6, Some("X")),
        file("/e", 1, 2, Some("Y")),
    ];
    let full = process_full_report(&files);
    let summary = process_report_ok(&full);
    let full_covered: u64 = full.iter().map(|r| r.covered_lines as u64).sum();
    let full_exec: u64 = full.iter().map(|r| r.executable_lines as u64).sum();
    assert_eq!(summary.iter().map(|r| r.covered_lines).sum::<u64>(), full_covered);
    assert_eq!(summary.iter().map(|r| r.executable_lines).sum::<u64>(), full_exec);
    assert_eq!(summary.iter().map(|r| r.count).sum::<usize>(), 5);
    let names: Vec<&str> = summary.iter().map(|r| r.squad.as_str()).collect();
    assert_eq!(names, vec!["N/A", "X", "Y"]);
}

#[test]
fn summary_does_not_depend_on_row_order() {
    let files = vec![file("/a", 3, 7, Some("X")), file("/c", 0, 9, None), file("/d", 6, 6, Some("X"))];
    let unsorted = process_report_ok(&report_rows_of(&files));
    let sorted = process_report_ok(&process_full_report(&files));
    let a: Vec<_> = unsorted.iter().map(summary_line).collect();
    let b: Vec<_> = sorted.iter().map(summary_line).collect();
    assert_eq!(a, b);
}

#[test]
fn coverage_is_rounded_half_up_to_two_decimals() {
    assert_eq!(coverage_percent(8, 10), Some(8000));
    assert_eq!(coverage_percent(2, 3), Some(6667));
    assert_eq!(coverage_percent(1, 3), Some(3333));
    assert_eq!(coverage_percent(1, 800), Some(13));
    assert_eq!(coverage_percent(1, 8000), Some(1));
    assert_eq!(coverage_percent(0, 5), Some(0));
    assert_eq!(coverage_percent(7, 7), Some(10000));
}

#[test]
fn coverage_without_executable_lines_is_the_sentinel() {
    assert_eq!(coverage_percent(0, 0), None);
    let full = process_full_report(&vec![file("/a", 0, 0, Some("Empty"))]);
    let summary = process_report_ok(&full);
    assert_eq!(summary[0].coverage, None);
    assert_eq!(summary_text(&summary), "Squad,Count,Covered Lines,Executable Lines,Coverage %\nEmpty,1,0,0,NaN\n");
}

#[test]
fn summary_text_shows_two_decimals() {
    let full = process_full_report(&vec![file("/a", 2, 3, Some("T")), file("/b", 1, 800, Some("U"))]);
    let summary = process_report_ok(&full);
    assert_eq!(
        summary_text(&summary),
        "Squad,Count,Covered Lines,Executable Lines,Coverage %\nT,1,2,3,66.67\nU,1,1,800,0.13\n"
    );
}

#[test]
fn written_reports_read_back_with_same_rows_and_totals() {
    let files = vec![
        file("/Foo/a, b.swift", 3, 7, Some("Team \"Q\"")),
        file("/Bar/c.swift", 4, 4, None),
        file("/Baz/d.swift", 6, 10, Some("Team \"Q\"")),
    ];
    let full = process_full_report(&files);
    let summary = process_report_ok(&full);

    let back = parse_records(&full_report_text(&full));
    assert_eq!(back.len(), full.len() + 1);
    assert_eq!(back[0], vec!["Filepath", "Covered Lines", "Executable Lines", "Line Coverage", "Squad"]);
    let covered: u64 = back[1..].iter().map(|r| r[1].parse::<u64>().unwrap()).sum();
    let executable: u64 = back[1..].iter().map(|r| r[2].parse::<u64>().unwrap()).sum();
    assert_eq!(covered, 13);
    assert_eq!(executable, 21);
    assert!(back[1..].iter().any(|r| r[0] == "/Foo/a, b.swift" && r[4] == "Team \"Q\""));

    let back = parse_records(&summary_text(&summary));
    assert_eq!(back.len(), summary.len() + 1);
    let covered: u64 = back[1..].iter().map(|r| r[2].parse::<u64>().unwrap()).sum();
    let executable: u64 = back[1..].iter().map(|r| r[3].parse::<u64>().unwrap()).sum();
    assert_eq!(covered, 13);
    assert_eq!(executable, 21);
    let pct: f64 = back[2][4].parse().unwrap();
    assert!((pct - 100.0 * 9.0 / 17.0).abs() <= 0.005);
}

#[test]
fn line_totals_that_overflow_give_no_summary() {
    let big = vec![file("/a", usize::MAX, usize::MAX, None), file("/b", 1, 1, None)];
    assert!(!totals_fit(&report_rows_of(&big)));
    assert!(process_report(&report_rows_of(&big)).is_none());
    assert!(process_xcresult(Vec::new(), export(big)).is_none());
    let fits = vec![file("/a", usize::MAX - 1, usize::MAX - 1, None), file("/b", 1, 1, None)];
    assert!(totals_fit(&report_rows_of(&fits)));
    let summary = process_report_ok(&report_rows_of(&fits));
    assert_eq!(summary_line(&summary[0]), ("N/A".to_string(), 2, u64::MAX, u64::MAX, Some(10000)));
}
