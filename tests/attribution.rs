use xcreport::attribution::match_squad_files;
use xcreport::model::{SquadData, Target, TargetFile, XCodeBuildReport};

fn file(path: &str, covered: usize, executable: usize) -> TargetFile {
    TargetFile::new(path.to_string(), covered, executable, "0.5".to_string())
}

fn entry(team: &str, fragment: &str) -> SquadData {
    SquadData::new(team.to_string(), fragment.to_string())
}

fn export(files: Vec<TargetFile>) -> XCodeBuildReport {
    XCodeBuildReport {
        targets: vec![Target { covered_lines: 0, executable_lines: 0, line_coverage: "0".to_string(), files }],
    }
}

fn owners(files: &[TargetFile]) -> Vec<Option<String>> {
    files.iter().map(|f| f.squad_name.clone()).collect()
}

#[test]
fn basic_attribution_assigns_teams() {
    let entries = vec![entry("TeamA", "/Foo/"), entry("TeamB", "/Bar/")];
    let report = export(vec![file("/Foo/A.swift", 8, 10), file("/Bar/B.swift", 5, 10), file("/Baz/C.swift", 0, 5)]);
    let out = match_squad_files(entries, report);
    assert_eq!(out.len(), 3);
    assert_eq!(owners(&out), vec![Some("TeamA".to_string()), Some("TeamB".to_string()), None]);
    assert_eq!(out[0].path, "/Foo/A.swift");
    assert_eq!(out[1].covered_lines, 5);
    assert_eq!(out[2].executable_lines, 5);
}

#[test]
fn first_matching_entry_wins() {
    let narrow_first = vec![entry("Narrow", "/Foo/Sub/"), entry("Broad", "/Foo/")];
    let out = match_squad_files(narrow_first, export(vec![file("/Foo/Sub/X.swift", 1, 2)]));
    assert_eq!(out[0].squad_name, Some("Narrow".to_string()));

    let broad_first = vec![entry("Broad", "/Foo/"), entry("Narrow", "/Foo/Sub/")];
    let out = match_squad_files(broad_first, export(vec![file("/Foo/Sub/X.swift", 1, 2)]));
    assert_eq!(out[0].squad_name, Some("Broad".to_string()));
}

#[test]
fn empty_ownership_leaves_every_file_unattributed() {
    let report = export(vec![file("/Foo/A.swift", 1, 2), file("/Bar/B.swift", 3, 4)]);
    let out = match_squad_files(Vec::new(), report);
    assert_eq!(owners(&out), vec![None, None]);
}

#[test]
fn matching_stops_once_as_many_records_as_entries_are_attributed() {
    // One entry, two files that both contain its fragment: the second file
    // is left unattributed but still reported.
    let entries = vec![entry("TeamA", "/Foo/")];
    let report = export(vec![file("/Foo/A.swift", 1, 2), file("/Foo/B.swift", 3, 4), file("/Bar/C.swift", 0, 1)]);
    let out = match_squad_files(entries, report);
    assert_eq!(out.len(), 3);
    assert_eq!(owners(&out), vec![Some("TeamA".to_string()), None, None]);
}

#[test]
fn unmatched_records_do_not_count_towards_the_stop() {
    let entries = vec![entry("TeamA", "/Foo/")];
    let report = export(vec![file("/Bar/X.swift", 1, 2), file("/Foo/A.swift", 3, 4)]);
    let out = match_squad_files(entries, report);
    assert_eq!(owners(&out), vec![None, Some("TeamA".to_string())]);
}

#[test]
fn containment_is_plain_substring() {
    let entries = vec![entry("Mid", "oo/Su")];
    let out = match_squad_files(entries, export(vec![file("/Foo/Sub/X.swift", 1, 2)]));
    assert_eq!(out[0].squad_name, Some("Mid".to_string()));
}

#[test]
fn attribution_is_deterministic() {
    let run = || {
        let entries = vec![entry("TeamA", "/Foo/"), entry("TeamB", "/Bar/")];
        let report = export(vec![file("/Bar/B.swift", 5, 10), file("/Foo/A.swift", 8, 10), file("/Baz/C.swift", 0, 5)]);
        owners(&match_squad_files(entries, report))
    };
    let first = run();
    for _ in 0..5 {
        assert_eq!(run(), first);
    }
}

#[test]
fn all_files_are_flattened_in_target_order() {
    let report = XCodeBuildReport {
        targets: vec![
            Target { covered_lines: 3, executable_lines: 4, line_coverage: "0.75".to_string(), files: vec![file("/a", 1, 2), file("/b", 2, 2)] },
            Target { covered_lines: 0, executable_lines: 0, line_coverage: "0".to_string(), files: vec![] },
            Target { covered_lines: 5, executable_lines: 9, line_coverage: "0.5".to_string(), files: vec![file("/c", 5, 9)] },
        ],
    };
    let all = report.get_all_files();
    let paths: Vec<&str> = all.iter().map(|f| f.file_path().as_str()).collect();
    assert_eq!(paths, vec!["/a", "/b", "/c"]);
    for f in &all {
        assert!(f.covered_lines <= f.executable_lines);
    }
}

#[test]
fn record_accessors() {
    let mut f = file("/x/y.swift", 1, 3);
    assert_eq!(f.file_path(), "/x/y.swift");
    f.set_squad_name("Core".to_string());
    assert_eq!(f.squad_name, Some("Core".to_string()));
    let copy = f.duplicate();
    assert_eq!(copy.squad_name, Some("Core".to_string()));
    assert_eq!(copy.line_coverage, "0.5");
    let e = entry("Core", "/x/");
    assert_eq!(e.file_name(), "/x/");
    assert_eq!(e.squad_name(), "Core");
}
