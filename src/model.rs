//! The coverage export as plain values, and ownership entries.

use vstd::prelude::*;

verus! {

/// Coverage of one source file, with the team that owns it once attributed.
/// `line_coverage` is the export's fraction of covered lines, kept as the
/// decimal text it is reported with.
pub struct TargetFile {
    pub path: String,
    pub covered_lines: usize,
    pub executable_lines: usize,
    pub line_coverage: String,
    pub squad_name: Option<String>,
}

pub struct TargetFileView {
    pub path: Seq<char>,
    pub covered_lines: nat,
    pub executable_lines: nat,
    pub line_coverage: Seq<char>,
    pub squad_name: Option<Seq<char>>,
}

pub open spec fn option_text_view(o: Option<String>) -> Option<Seq<char>> {
    match o {
        Some(s) => Some(s@),
        None => None,
    }
}

impl View for TargetFile {
    type V = TargetFileView;

    open spec fn view(&self) -> TargetFileView {
        TargetFileView {
            path: self.path@,
            covered_lines: self.covered_lines as nat,
            executable_lines: self.executable_lines as nat,
            line_coverage: self.line_coverage@,
            squad_name: option_text_view(self.squad_name),
        }
    }
}

/// The record's invariant as the export states it: no more lines covered
/// than there are executable lines.
pub open spec fn counts_consistent(f: TargetFileView) -> bool {
    f.covered_lines <= f.executable_lines
}

impl TargetFile {
    /// A record as the export gives it, not yet attributed to a team.
    pub fn new(path: String, covered_lines: usize, executable_lines: usize, line_coverage: String) -> (r: TargetFile)
        ensures
            r@ == (TargetFileView {
                path: path@,
                covered_lines: covered_lines as nat,
                executable_lines: executable_lines as nat,
                line_coverage: line_coverage@,
                squad_name: None,
            }),
    {
        TargetFile { path, covered_lines, executable_lines, line_coverage, squad_name: None }
    }

    pub fn file_path(&self) -> (r: &String)
        ensures
            r@ == self.path@,
    {
        &self.path
    }

    pub fn set_squad_name(&mut self, name: String)
        ensures
            final(self)@ == (TargetFileView { squad_name: Some(name@), ..old(self)@ }),
    {
        self.squad_name = Some(name);
    }

    /// A field-by-field copy.
    pub fn duplicate(&self) -> (r: TargetFile)
        ensures
            r@ == self@,
    {
        let squad_name = match &self.squad_name {
            Some(s) => Some(s.clone()),
            None => None,
        };
        TargetFile {
            path: self.path.clone(),
            covered_lines: self.covered_lines,
            executable_lines: self.executable_lines,
            line_coverage: self.line_coverage.clone(),
            squad_name,
        }
    }
}

/// One build target of the export: its aggregate counts and its files.
pub struct Target {
    pub covered_lines: usize,
    pub executable_lines: usize,
    pub line_coverage: String,
    pub files: Vec<TargetFile>,
}

pub struct TargetView {
    pub covered_lines: nat,
    pub executable_lines: nat,
    pub line_coverage: Seq<char>,
    pub files: Seq<TargetFileView>,
}

impl View for Target {
    type V = TargetView;

    open spec fn view(&self) -> TargetView {
        TargetView {
            covered_lines: self.covered_lines as nat,
            executable_lines: self.executable_lines as nat,
            line_coverage: self.line_coverage@,
            files: self.files@.map_values(|f: TargetFile| f@),
        }
    }
}

/// The whole coverage export: a list of targets.
pub struct XCodeBuildReport {
    pub targets: Vec<Target>,
}

impl View for XCodeBuildReport {
    type V = Seq<TargetView>;

    open spec fn view(&self) -> Seq<TargetView> {
        self.targets@.map_values(|t: Target| t@)
    }
}

/// The files of all targets, in target order and, within a target, in file order.
pub open spec fn all_files(targets: Seq<TargetView>) -> Seq<TargetFileView>
    decreases targets.len(),
{
    if targets.len() == 0 {
        Seq::empty()
    } else {
        all_files(targets.drop_last()) + targets.last().files
    }
}

/// Every file of the export satisfies the record invariant.
pub open spec fn export_consistent(targets: Seq<TargetView>) -> bool {
    forall|t: int, j: int|
        0 <= t < targets.len() && 0 <= j < targets[t].files.len() ==> #[trigger] counts_consistent(
            targets[t].files[j],
        )
}

/// Flattening keeps the record invariant: when every file of the export has
/// no more covered than executable lines, so has every flattened record.
pub proof fn lemma_flattened_records_consistent(targets: Seq<TargetView>)
    requires
        export_consistent(targets),
    ensures
        forall|i: int| 0 <= i < all_files(targets).len() ==> #[trigger] counts_consistent(all_files(targets)[i]),
    decreases targets.len(),
{
    if targets.len() > 0 {
        let init = targets.drop_last();
        assert(export_consistent(init)) by {
            assert forall|t: int, j: int| 0 <= t < init.len() && 0 <= j < init[t].files.len() implies #[trigger] counts_consistent(init[t].files[j]) by {
                assert(init[t] == targets[t]);
            }
        }
        lemma_flattened_records_consistent(init);
        let last = targets.last();
        assert forall|i: int| 0 <= i < all_files(targets).len() implies #[trigger] counts_consistent(all_files(targets)[i]) by {
            if i >= all_files(init).len() {
                let j = i - all_files(init).len();
                assert(all_files(targets)[i] == targets[targets.len() - 1].files[j]);
            }
        }
    }
}

impl XCodeBuildReport {
    /// All per-file records of the export, flattened in order.
    pub fn get_all_files(&self) -> (r: Vec<&TargetFile>)
        ensures
            r@.map_values(|f: &TargetFile| f@) == all_files(self@),
            export_consistent(self@) ==> forall|i: int| 0 <= i < r@.len() ==> #[trigger] counts_consistent(r@[i]@),
    {
        let mut out: Vec<&TargetFile> = Vec::new();
        let mut t: usize = 0;
        while t < self.targets.len()
            invariant
                t <= self.targets@.len(),
                out@.map_values(|f: &TargetFile| f@) == all_files(self@.take(t as int)),
            decreases self.targets@.len() - t,
        {
            let target = &self.targets[t];
            let mut j: usize = 0;
            while j < target.files.len()
                invariant
                    t < self.targets@.len(),
                    target == self.targets@[t as int],
                    j <= target.files@.len(),
                    out@.map_values(|f: &TargetFile| f@) == all_files(self@.take(t as int)) + target@.files.take(j as int),
                decreases target.files@.len() - j,
            {
                let ghost before = out@;
                out.push(&target.files[j]);
                assert(out@ == before.push(&target.files@[j as int]));
                assert(target@.files[j as int] == target.files@[j as int]@);
                assert(target@.files.take(j + 1) =~= target@.files.take(j as int).push(target.files@[j as int]@));
                assert(out@.map_values(|f: &TargetFile| f@) =~= before.map_values(|f: &TargetFile| f@).push(target.files@[j as int]@));
                j = j + 1;
            }
            assert(self@.take(t + 1).drop_last() =~= self@.take(t as int));
            assert(target@.files.take(j as int) =~= target@.files);
            t = t + 1;
        }
        assert(self@.take(t as int) =~= self@);
        proof {
            if export_consistent(self@) {
                lemma_flattened_records_consistent(self@);
                assert forall|i: int| 0 <= i < out@.len() implies #[trigger] counts_consistent(out@[i]@) by {
                    assert(out@.map_values(|f: &TargetFile| f@)[i] == out@[i]@);
                }
            }
        }
        out
    }
}

/// One row of the ownership map: a team and the path fragment it owns.
pub struct SquadData {
    pub squad_name: String,
    pub file_path: String,
}

pub struct SquadDataView {
    pub squad_name: Seq<char>,
    pub file_path: Seq<char>,
}

impl View for SquadData {
    type V = SquadDataView;

    open spec fn view(&self) -> SquadDataView {
        SquadDataView { squad_name: self.squad_name@, file_path: self.file_path@ }
    }
}

impl SquadData {
    pub fn new(squad_name: String, file_path: String) -> (r: SquadData)
        ensures
            r@ == (SquadDataView { squad_name: squad_name@, file_path: file_path@ }),
    {
        SquadData { squad_name, file_path }
    }

    /// The path fragment that this entry owns.
    pub fn file_name(&self) -> (r: &String)
        ensures
            r@ == self.file_path@,
    {
        &self.file_path
    }

    pub fn squad_name(&self) -> (r: &String)
        ensures
            r@ == self.squad_name@,
    {
        &self.squad_name
    }
}

} // verus!
