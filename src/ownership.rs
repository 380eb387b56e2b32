//! The ownership map: a table with a header row naming at least the columns
//! `Squad` and `Filepath`, one ownership entry per data row, in row order.

use vstd::prelude::*;
use crate::csv::{csv_records, parse_records};
use crate::errors::CSVParseError;
use crate::model::{SquadData, SquadDataView};
use crate::text::text_of;

verus! {

/// The first position, at `j` or later, of the column named `name`.
pub open spec fn column_from(header: Seq<Seq<char>>, name: Seq<char>, j: int) -> Option<int>
    decreases header.len() - j,
{
    if j < 0 || j >= header.len() {
        None
    } else if header[j] == name {
        Some(j)
    } else {
        column_from(header, name, j + 1)
    }
}

/// The value of column `k` in a row; a row too short has an empty value there.
pub open spec fn cell(row: Seq<Seq<char>>, k: int) -> Seq<char> {
    if 0 <= k < row.len() {
        row[k]
    } else {
        Seq::empty()
    }
}

/// The first row, at `j` or later, that lacks a value in column `s` or `f`.
pub open spec fn first_incomplete_from(rows: Seq<Seq<Seq<char>>>, s: int, f: int, j: int) -> Option<int>
    decreases rows.len() - j,
{
    if j < 0 || j >= rows.len() {
        None
    } else if cell(rows[j], s).len() == 0 || cell(rows[j], f).len() == 0 {
        Some(j)
    } else {
        first_incomplete_from(rows, s, f, j + 1)
    }
}

/// What reading an ownership map gives.
pub enum OwnershipOutcome {
    Entries(Seq<SquadDataView>),
    ColumnMissing(Seq<char>),
    MissingValue(nat, Seq<char>),
}

pub open spec fn squad_column() -> Seq<char> {
    "Squad"@
}

pub open spec fn path_column() -> Seq<char> {
    "Filepath"@
}

/// Reading the ownership map `text`. The header is the first record (none
/// when the text is empty). The column `Squad` is looked for first, then
/// `Filepath`; other columns are ignored. Every data row must have a
/// non-empty value in both.
pub open spec fn ownership_outcome(text: Seq<char>) -> OwnershipOutcome {
    let records = csv_records(text);
    let header = if records.len() > 0 {
        records[0]
    } else {
        Seq::empty()
    };
    let rows = records.drop_first();
    match column_from(header, squad_column(), 0) {
        None => OwnershipOutcome::ColumnMissing(squad_column()),
        Some(s) => match column_from(header, path_column(), 0) {
            None => OwnershipOutcome::ColumnMissing(path_column()),
            Some(f) => match first_incomplete_from(rows, s, f, 0) {
                Some(j) => OwnershipOutcome::MissingValue(
                    j as nat,
                    if cell(rows[j], s).len() == 0 {
                        squad_column()
                    } else {
                        path_column()
                    },
                ),
                None => OwnershipOutcome::Entries(
                    rows.map_values(|row: Seq<Seq<char>>| SquadDataView { squad_name: cell(row, s), file_path: cell(row, f) }),
                ),
            },
        },
    }
}

/// The outcome that a result of `parse_squads_file` stands for.
pub open spec fn outcome_of(r: Result<Vec<SquadData>, CSVParseError>) -> OwnershipOutcome {
    match r {
        Ok(v) => OwnershipOutcome::Entries(v@.map_values(|e: SquadData| e@)),
        Err(CSVParseError::ColumnMissing { name }) => OwnershipOutcome::ColumnMissing(name@),
        Err(CSVParseError::MissingValue { row, name }) => OwnershipOutcome::MissingValue(row as nat, name@),
    }
}

fn column_position(header: &Vec<String>, name: &str) -> (r: Option<usize>)
    ensures
        match r {
            Some(k) => column_from(header.deep_view(), name@, 0) == Some(k as int),
            None => column_from(header.deep_view(), name@, 0) == None::<int>,
        },
{
    let wanted = text_of(name);
    let mut k: usize = 0;
    while k < header.len()
        invariant
            k <= header@.len(),
            wanted@ == name@,
            column_from(header.deep_view(), name@, 0) == column_from(header.deep_view(), name@, k as int),
        decreases header@.len() - k,
    {
        if header[k] == wanted {
            return Some(k);
        }
        k = k + 1;
    }
    None
}

fn cell_value(row: &Vec<String>, k: usize) -> (r: String)
    ensures
        r@ == cell(row.deep_view(), k as int),
{
    if k < row.len() {
        row[k].clone()
    } else {
        String::new()
    }
}

/// Reads the ownership map: one entry per data row, in row order.
pub fn parse_squads_file(text: &str) -> (r: Result<Vec<SquadData>, CSVParseError>)
    ensures
        outcome_of(r) == ownership_outcome(text@),
        r matches Ok(v) ==> forall|i: int| 0 <= i < v@.len() ==> #[trigger] v@[i].file_path@.len() > 0
            && v@[i].squad_name@.len() > 0,
{
    let records = parse_records(text);
    let ghost recs = records.deep_view();
    let empty: Vec<String> = Vec::new();
    let header = if records.len() > 0 {
        &records[0]
    } else {
        &empty
    };
    assert(header.deep_view() =~= if recs.len() > 0 {
        recs[0]
    } else {
        Seq::<Seq<char>>::empty()
    });
    let s = match column_position(header, "Squad") {
        Some(s) => s,
        None => {
            return Err(CSVParseError::ColumnMissing { name: "Squad" });
        },
    };
    let f = match column_position(header, "Filepath") {
        Some(f) => f,
        None => {
            return Err(CSVParseError::ColumnMissing { name: "Filepath" });
        },
    };
    let ghost rows = recs.drop_first();
    let mut out: Vec<SquadData> = Vec::new();
    let mut i: usize = 1;
    while i < records.len()
        invariant
            1 <= i <= records@.len() || (i == 1 && records@.len() == 0),
            recs == records.deep_view(),
            recs == csv_records(text@),
            rows == recs.drop_first(),
            out@.len() == i - 1,
            forall|k: int| 0 <= k < out@.len() ==> #[trigger] out@[k].file_path@.len() > 0 && out@[k].squad_name@.len() > 0,
            column_from(if recs.len() > 0 { recs[0] } else { Seq::<Seq<char>>::empty() }, squad_column(), 0) == Some(s as int),
            column_from(if recs.len() > 0 { recs[0] } else { Seq::<Seq<char>>::empty() }, path_column(), 0) == Some(f as int),
            first_incomplete_from(rows, s as int, f as int, 0) == first_incomplete_from(rows, s as int, f as int, i - 1),
            out@.map_values(|e: SquadData| e@) == rows.take(i - 1).map_values(
                |row: Seq<Seq<char>>| SquadDataView { squad_name: cell(row, s as int), file_path: cell(row, f as int) },
            ),
        decreases records@.len() - i,
    {
        let row = &records[i];
        assert(rows[i - 1] == row.deep_view());
        let squad = cell_value(row, s);
        let path = cell_value(row, f);
        assert(squad@ == cell(rows[i - 1], s as int));
        assert(path@ == cell(rows[i - 1], f as int));
        if squad.as_str().is_empty() || path.as_str().is_empty() {
            assert(first_incomplete_from(rows, s as int, f as int, i - 1) == Some((i - 1) as int));
        }
        if squad.as_str().is_empty() {
            return Err(CSVParseError::MissingValue { row: i - 1, name: "Squad" });
        }
        if path.as_str().is_empty() {
            return Err(CSVParseError::MissingValue { row: i - 1, name: "Filepath" });
        }
        let ghost before = out@;
        out.push(SquadData::new(squad, path));
        assert(rows.take(i as int) =~= rows.take(i - 1).push(rows[i - 1]));
        assert(out@.map_values(|e: SquadData| e@) =~= before.map_values(|e: SquadData| e@).push(out@[i - 1]@));
        i = i + 1;
    }
    assert(rows.take(i - 1) =~= rows);
    Ok(out)
}

} // verus!
