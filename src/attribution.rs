//! Attribution of coverage records to owning teams by ordered substring
//! matching against the ownership map.

use vstd::prelude::*;
use crate::model::{
    all_files, SquadData, SquadDataView, TargetFile, TargetFileView, XCodeBuildReport,
};
use crate::text::{chars_of, contains_text, text_contains};

verus! {

/// The team of the first entry, at index `j` or later, whose fragment occurs in `path`.
pub open spec fn first_owner_from(entries: Seq<SquadDataView>, path: Seq<char>, j: int) -> Option<Seq<char>>
    decreases entries.len() - j,
{
    if j < 0 || j >= entries.len() {
        None
    } else if contains_text(path, entries[j].file_path) {
        Some(entries[j].squad_name)
    } else {
        first_owner_from(entries, path, j + 1)
    }
}

/// The team of the first entry, in map order, whose fragment occurs in `path`.
pub open spec fn first_owner(entries: Seq<SquadDataView>, path: Seq<char>) -> Option<Seq<char>> {
    first_owner_from(entries, path, 0)
}

/// First match wins: `first_owner` is the team of the earliest matching entry.
pub proof fn lemma_first_owner_is_earliest_match(entries: Seq<SquadDataView>, path: Seq<char>, k: int)
    requires
        0 <= k < entries.len(),
        contains_text(path, entries[k].file_path),
        forall|i: int| 0 <= i < k ==> !contains_text(path, #[trigger] entries[i].file_path),
    ensures
        first_owner(entries, path) == Some(entries[k].squad_name),
{
    lemma_first_owner_skip(entries, path, 0, k);
}

proof fn lemma_first_owner_skip(entries: Seq<SquadDataView>, path: Seq<char>, j: int, k: int)
    requires
        0 <= j <= k < entries.len(),
        contains_text(path, entries[k].file_path),
        forall|i: int| 0 <= i < k ==> !contains_text(path, #[trigger] entries[i].file_path),
    ensures
        first_owner_from(entries, path, j) == Some(entries[k].squad_name),
    decreases k - j,
{
    if j < k {
        lemma_first_owner_skip(entries, path, j + 1, k);
    }
}

/// Attribution of `files`, one after another, with the number of records
/// attributed so far. A record is matched only while fewer records than there
/// are entries have been attributed; a record that is not matched keeps its
/// owner.
pub open spec fn attribution(files: Seq<TargetFileView>, entries: Seq<SquadDataView>) -> (Seq<TargetFileView>, nat)
    decreases files.len(),
{
    if files.len() == 0 {
        (Seq::empty(), 0)
    } else {
        let (prev, n) = attribution(files.drop_last(), entries);
        let f = files.last();
        if n < entries.len() {
            match first_owner(entries, f.path) {
                Some(team) => (prev.push(TargetFileView { squad_name: Some(team), ..f }), n + 1),
                None => (prev.push(f), n),
            }
        } else {
            (prev.push(f), n)
        }
    }
}

/// The records of `files` with their owners assigned.
pub open spec fn attributed_files(files: Seq<TargetFileView>, entries: Seq<SquadDataView>) -> Seq<TargetFileView> {
    attribution(files, entries).0
}

pub open spec fn entries_view(entries: Seq<SquadData>) -> Seq<SquadDataView> {
    entries.map_values(|e: SquadData| e@)
}

pub open spec fn files_view(files: Seq<TargetFile>) -> Seq<TargetFileView> {
    files.map_values(|f: TargetFile| f@)
}

/// Attribution is deterministic: the same records and entries, in the same
/// order, give the same owners.
pub proof fn lemma_attribution_deterministic(
    files_a: Seq<TargetFileView>,
    entries_a: Seq<SquadDataView>,
    files_b: Seq<TargetFileView>,
    entries_b: Seq<SquadDataView>,
)
    requires
        files_a == files_b,
        entries_a == entries_b,
    ensures
        attributed_files(files_a, entries_a) == attributed_files(files_b, entries_b),
{
}

/// The index of the first entry whose fragment occurs in `path`.
fn find_owner(entries: &Vec<SquadData>, fragments: &Vec<Vec<char>>, path: &Vec<char>) -> (r: Option<usize>)
    requires
        fragments@.len() == entries@.len(),
        forall|k: int| 0 <= k < entries@.len() ==> #[trigger] fragments@[k]@ == entries@[k].file_path@,
    ensures
        match r {
            Some(k) => k < entries@.len() && first_owner(entries_view(entries@), path@) == Some(
                entries@[k as int].squad_name@,
            ),
            None => first_owner(entries_view(entries@), path@) == None::<Seq<char>>,
        },
{
    let ghost ev = entries_view(entries@);
    let mut j: usize = 0;
    while j < entries.len()
        invariant
            j <= entries@.len(),
            ev == entries_view(entries@),
            fragments@.len() == entries@.len(),
            forall|k: int| 0 <= k < entries@.len() ==> #[trigger] fragments@[k]@ == entries@[k].file_path@,
            first_owner(ev, path@) == first_owner_from(ev, path@, j as int),
        decreases entries@.len() - j,
    {
        assert(ev[j as int] == entries@[j as int]@);
        if text_contains(path, &fragments[j]) {
            return Some(j);
        }
        j = j + 1;
    }
    None
}

/// Assigns each record of the export the team of the first ownership entry
/// whose fragment occurs in its path. Once as many records have been
/// attributed as there are entries, the remaining records are left as they are.
pub fn match_squad_files(squads_data: Vec<SquadData>, report: XCodeBuildReport) -> (r: Vec<TargetFile>)
    ensures
        files_view(r@) == attributed_files(all_files(report@), entries_view(squads_data@)),
{
    let ghost ev = entries_view(squads_data@);
    let all = report.get_all_files();
    let ghost fv = all_files(report@);
    assert(all@.len() == fv.len()) by {
        assert(all@.map_values(|f: &TargetFile| f@).len() == all@.len());
    }
    let mut fragments: Vec<Vec<char>> = Vec::new();
    let mut k: usize = 0;
    while k < squads_data.len()
        invariant
            k <= squads_data@.len(),
            fragments@.len() == k,
            forall|i: int| 0 <= i < k ==> #[trigger] fragments@[i]@ == squads_data@[i].file_path@,
        decreases squads_data@.len() - k,
    {
        fragments.push(chars_of(squads_data[k].file_name().as_str()));
        k = k + 1;
    }
    let mut out: Vec<TargetFile> = Vec::new();
    let mut attributed: usize = 0;
    let mut i: usize = 0;
    while i < all.len()
        invariant
            i <= all@.len(),
            all@.len() == fv.len(),
            all@.map_values(|f: &TargetFile| f@) == fv,
            ev == entries_view(squads_data@),
            fragments@.len() == squads_data@.len(),
            forall|j: int| 0 <= j < squads_data@.len() ==> #[trigger] fragments@[j]@ == squads_data@[j].file_path@,
            files_view(out@) == attribution(fv.take(i as int), ev).0,
            attributed == attribution(fv.take(i as int), ev).1,
            attributed <= squads_data@.len(),
        decreases all@.len() - i,
    {
        let file = all[i];
        assert(fv[i as int] == file@);
        assert(fv.take(i + 1).drop_last() =~= fv.take(i as int));
        let mut copy = file.duplicate();
        if attributed < squads_data.len() {
            let path = chars_of(file.file_path().as_str());
            match find_owner(&squads_data, &fragments, &path) {
                Some(j) => {
                    copy.set_squad_name(squads_data[j].squad_name().clone());
                    attributed = attributed + 1;
                },
                None => {},
            }
        }
        let ghost before = out@;
        out.push(copy);
        assert(files_view(out@) =~= files_view(before).push(copy@));
        i = i + 1;
    }
    assert(fv.take(i as int) =~= fv);
    out
}

/// Attribution changes owners only: every record keeps its path and counts.
pub proof fn lemma_attribution_keeps_records(files: Seq<TargetFileView>, entries: Seq<SquadDataView>)
    ensures
        attributed_files(files, entries).len() == files.len(),
        forall|i: int| 0 <= i < files.len() ==> {
            let a = #[trigger] attributed_files(files, entries)[i];
            a.path == files[i].path && a.covered_lines == files[i].covered_lines && a.executable_lines
                == files[i].executable_lines && a.line_coverage == files[i].line_coverage
        },
    decreases files.len(),
{
    if files.len() > 0 {
        lemma_attribution_keeps_records(files.drop_last(), entries);
        assert forall|i: int| 0 <= i < files.len() implies {
            let a = #[trigger] attributed_files(files, entries)[i];
            a.path == files[i].path && a.covered_lines == files[i].covered_lines && a.executable_lines
                == files[i].executable_lines && a.line_coverage == files[i].line_coverage
        } by {
            if i < files.len() - 1 {
                assert(attributed_files(files, entries)[i] == attributed_files(files.drop_last(), entries)[i]);
                assert(files.drop_last()[i] == files[i]);
            }
        }
    }
}

} // verus!
