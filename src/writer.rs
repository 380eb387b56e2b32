//! The two reports as tables of text, and the text they are saved as.

use vstd::prelude::*;
use crate::csv::{csv_records, lemma_table_round_trip, readable_records, render_table, table_text};
use crate::ownership::cell;
use crate::report::{
    rows_view, sum_covered, sum_executable, summary_covered, summary_executable, summary_view,
    FullReportRow, FullReportRowView, SummaryRow, SummaryRowView,
};
use crate::text::{decimal, digit, digit_char, push_char, push_decimal, text_of};

verus! {

pub open spec fn full_report_header() -> Seq<Seq<char>> {
    seq!["Filepath"@, "Covered Lines"@, "Executable Lines"@, "Line Coverage"@, "Squad"@]
}

pub open spec fn summary_header() -> Seq<Seq<char>> {
    seq!["Squad"@, "Count"@, "Covered Lines"@, "Executable Lines"@, "Coverage %"@]
}

pub open spec fn full_report_fields(r: FullReportRowView) -> Seq<Seq<char>> {
    seq![r.file_path, decimal(r.covered_lines), decimal(r.executable_lines), r.line_coverage, r.squad]
}

/// A percentage given in hundredths, with two decimals (`80.00`); `NaN`
/// stands for a squad without executable lines.
pub open spec fn coverage_text(c: Option<nat>) -> Seq<char> {
    match c {
        Some(h) => decimal(h / 100) + seq!['.', digit_char((h % 100) / 10), digit_char(h % 10)],
        None => "NaN"@,
    }
}

pub open spec fn summary_fields(r: SummaryRowView) -> Seq<Seq<char>> {
    seq![r.squad, decimal(r.count), decimal(r.covered_lines), decimal(r.executable_lines), coverage_text(r.coverage)]
}

pub open spec fn full_report_table(rows: Seq<FullReportRowView>) -> Seq<Seq<Seq<char>>> {
    seq![full_report_header()] + rows.map_values(|r: FullReportRowView| full_report_fields(r))
}

pub open spec fn summary_table(rows: Seq<SummaryRowView>) -> Seq<Seq<Seq<char>>> {
    seq![summary_header()] + rows.map_values(|r: SummaryRowView| summary_fields(r))
}

fn decimal_string(n: u128) -> (r: String)
    ensures
        r@ == decimal(n as nat),
{
    let mut s = String::new();
    push_decimal(&mut s, n);
    s
}

fn coverage_string(c: Option<u128>) -> (r: String)
    ensures
        r@ == coverage_text(
            match c {
                Some(h) => Some(h as nat),
                None => None,
            },
        ),
{
    match c {
        Some(h) => {
            let mut s = decimal_string(h / 100);
            push_char(&mut s, '.');
            push_char(&mut s, digit((h % 100) / 10));
            push_char(&mut s, digit(h % 10));
            s
        },
        None => text_of("NaN"),
    }
}

fn header_record(names: [&str; 5]) -> (r: Vec<String>)
    ensures
        r.deep_view() == seq![names[0]@, names[1]@, names[2]@, names[3]@, names[4]@],
{
    let mut r: Vec<String> = Vec::new();
    let mut k: usize = 0;
    while k < 5
        invariant
            k <= 5,
            r.deep_view() == seq![names[0]@, names[1]@, names[2]@, names[3]@, names[4]@].take(k as int),
        decreases 5 - k,
    {
        r.push(text_of(names[k]));
        assert(seq![names[0]@, names[1]@, names[2]@, names[3]@, names[4]@].take(k + 1) =~= seq![
            names[0]@,
            names[1]@,
            names[2]@,
            names[3]@,
            names[4]@,
        ].take(k as int).push(names[k as int]@));
        assert(r.deep_view() =~= seq![names[0]@, names[1]@, names[2]@, names[3]@, names[4]@].take(k + 1));
        k = k + 1;
    }
    assert(seq![names[0]@, names[1]@, names[2]@, names[3]@, names[4]@].take(5) =~= seq![
        names[0]@,
        names[1]@,
        names[2]@,
        names[3]@,
        names[4]@,
    ]);
    r
}

/// The full report as a table: the header, then one record per row.
pub fn full_report_records(rows: &Vec<FullReportRow>) -> (r: Vec<Vec<String>>)
    ensures
        r.deep_view() == full_report_table(rows_view(rows@)),
{
    let names: [&str; 5] = ["Filepath", "Covered Lines", "Executable Lines", "Line Coverage", "Squad"];
    let mut out: Vec<Vec<String>> = Vec::new();
    out.push(header_record(names));
    let ghost body = rows_view(rows@).map_values(|r: FullReportRowView| full_report_fields(r));
    let mut i: usize = 0;
    assert(out.deep_view() =~= full_report_table(rows_view(rows@)).take(1));
    while i < rows.len()
        invariant
            i <= rows@.len(),
            body == rows_view(rows@).map_values(|r: FullReportRowView| full_report_fields(r)),
            out.deep_view() == full_report_table(rows_view(rows@)).take(i + 1),
        decreases rows@.len() - i,
    {
        let row = &rows[i];
        let mut rec: Vec<String> = Vec::new();
        rec.push(row.file_path.clone());
        rec.push(decimal_string(row.covered_lines as u128));
        rec.push(decimal_string(row.executable_lines as u128));
        rec.push(row.line_coverage.clone());
        rec.push(row.squad.clone());
        assert(rec.deep_view() =~= full_report_fields(row@));
        let ghost before = out.deep_view();
        let ghost rec_view = rec.deep_view();
        out.push(rec);
        assert(out.deep_view() =~= before.push(rec_view));
        let ghost t = full_report_table(rows_view(rows@));
        assert(rows_view(rows@)[i as int] == row@);
        assert(t[i + 1] == full_report_fields(row@));
        assert(t.take(i + 2) =~= t.take(i + 1).push(t[i + 1]));
        assert(out.deep_view() =~= full_report_table(rows_view(rows@)).take(i + 2));
        i = i + 1;
    }
    assert(full_report_table(rows_view(rows@)).take(i + 1) =~= full_report_table(rows_view(rows@)));
    out
}

/// The summary as a table: the header, then one record per squad.
pub fn summary_records(rows: &Vec<SummaryRow>) -> (r: Vec<Vec<String>>)
    ensures
        r.deep_view() == summary_table(summary_view(rows@)),
{
    let names: [&str; 5] = ["Squad", "Count", "Covered Lines", "Executable Lines", "Coverage %"];
    let mut out: Vec<Vec<String>> = Vec::new();
    out.push(header_record(names));
    let mut i: usize = 0;
    assert(out.deep_view() =~= summary_table(summary_view(rows@)).take(1));
    while i < rows.len()
        invariant
            i <= rows@.len(),
            out.deep_view() == summary_table(summary_view(rows@)).take(i + 1),
        decreases rows@.len() - i,
    {
        let row = &rows[i];
        let mut rec: Vec<String> = Vec::new();
        rec.push(row.squad.clone());
        rec.push(decimal_string(row.count as u128));
        rec.push(decimal_string(row.covered_lines as u128));
        rec.push(decimal_string(row.executable_lines as u128));
        rec.push(coverage_string(row.coverage));
        assert(rec.deep_view() =~= summary_fields(row@));
        let ghost before = out.deep_view();
        let ghost rec_view = rec.deep_view();
        out.push(rec);
        assert(out.deep_view() =~= before.push(rec_view));
        let ghost t = summary_table(summary_view(rows@));
        assert(summary_view(rows@)[i as int] == row@);
        assert(t[i + 1] == summary_fields(row@));
        assert(t.take(i + 2) =~= t.take(i + 1).push(t[i + 1]));
        assert(out.deep_view() =~= summary_table(summary_view(rows@)).take(i + 2));
        i = i + 1;
    }
    assert(summary_table(summary_view(rows@)).take(i + 1) =~= summary_table(summary_view(rows@)));
    out
}

/// The text the full report is saved as.
pub fn full_report_text(rows: &Vec<FullReportRow>) -> (r: String)
    ensures
        r@ == table_text(full_report_table(rows_view(rows@))),
{
    render_table(&full_report_records(rows))
}

/// The text the summary is saved as.
pub fn summary_text(rows: &Vec<SummaryRow>) -> (r: String)
    ensures
        r@ == table_text(summary_table(summary_view(rows@))),
{
    render_table(&summary_records(rows))
}

/// The value of a decimal digit.
pub open spec fn digit_value(c: char) -> nat {
    if c == '1' {
        1
    } else if c == '2' {
        2
    } else if c == '3' {
        3
    } else if c == '4' {
        4
    } else if c == '5' {
        5
    } else if c == '6' {
        6
    } else if c == '7' {
        7
    } else if c == '8' {
        8
    } else if c == '9' {
        9
    } else {
        0
    }
}

/// The number a numeral reads as.
pub open spec fn decimal_value(s: Seq<char>) -> nat
    decreases s.len(),
{
    if s.len() == 0 {
        0
    } else {
        decimal_value(s.drop_last()) * 10 + digit_value(s.last())
    }
}

pub proof fn lemma_decimal_value(n: nat)
    ensures
        decimal_value(decimal(n)) == n,
    decreases n,
{
    if n < 10 {
        assert(seq![digit_char(n)].drop_last() =~= Seq::<char>::empty());
        assert(decimal_value(Seq::<char>::empty()) == 0);
        assert(digit_value(digit_char(n)) == n);
    } else {
        lemma_decimal_value(n / 10);
        assert(decimal(n).drop_last() =~= decimal(n / 10));
        assert(decimal(n).last() == digit_char(n % 10));
        assert(digit_value(digit_char(n % 10)) == n % 10);
        assert((n / 10) * 10 + n % 10 == n);
    }
}

/// The sum of the numbers that column `k` of `records` reads as.
pub open spec fn column_total(records: Seq<Seq<Seq<char>>>, k: int) -> nat
    decreases records.len(),
{
    if records.len() == 0 {
        0
    } else {
        column_total(records.drop_last(), k) + decimal_value(cell(records.last(), k))
    }
}

proof fn lemma_full_report_readable(rows: Seq<FullReportRowView>)
    ensures
        readable_records(full_report_table(rows)),
{
    let t = full_report_table(rows);
    assert forall|i: int| 0 <= i < t.len() implies (#[trigger] t[i]).len() >= 2 by {
        if i > 0 {
            assert(t[i] == full_report_fields(rows[i - 1]));
        }
    }
}

proof fn lemma_summary_readable(rows: Seq<SummaryRowView>)
    ensures
        readable_records(summary_table(rows)),
{
    let t = summary_table(rows);
    assert forall|i: int| 0 <= i < t.len() implies (#[trigger] t[i]).len() >= 2 by {
        if i > 0 {
            assert(t[i] == summary_fields(rows[i - 1]));
        }
    }
}

proof fn lemma_full_report_totals(rows: Seq<FullReportRowView>)
    ensures
        column_total(rows.map_values(|r: FullReportRowView| full_report_fields(r)), 1) == sum_covered(rows),
        column_total(rows.map_values(|r: FullReportRowView| full_report_fields(r)), 2) == sum_executable(rows),
    decreases rows.len(),
{
    if rows.len() > 0 {
        let init = rows.drop_last();
        lemma_full_report_totals(init);
        assert(rows.map_values(|r: FullReportRowView| full_report_fields(r)).drop_last() =~= init.map_values(
            |r: FullReportRowView| full_report_fields(r),
        ));
        lemma_decimal_value(rows.last().covered_lines);
        lemma_decimal_value(rows.last().executable_lines);
    }
}

proof fn lemma_summary_totals(rows: Seq<SummaryRowView>)
    ensures
        column_total(rows.map_values(|r: SummaryRowView| summary_fields(r)), 2) == summary_covered(rows),
        column_total(rows.map_values(|r: SummaryRowView| summary_fields(r)), 3) == summary_executable(rows),
    decreases rows.len(),
{
    if rows.len() > 0 {
        let init = rows.drop_last();
        lemma_summary_totals(init);
        assert(rows.map_values(|r: SummaryRowView| summary_fields(r)).drop_last() =~= init.map_values(
            |r: SummaryRowView| summary_fields(r),
        ));
        lemma_decimal_value(rows.last().covered_lines);
        lemma_decimal_value(rows.last().executable_lines);
    }
}

/// Round trip of the full report: reading back its saved text gives the
/// header and one record per row, and the line columns add up to the same
/// totals as the rows.
pub proof fn lemma_full_report_round_trip(rows: Seq<FullReportRowView>)
    ensures
        csv_records(table_text(full_report_table(rows))) == full_report_table(rows),
        csv_records(table_text(full_report_table(rows))).len() == rows.len() + 1,
        column_total(csv_records(table_text(full_report_table(rows))).drop_first(), 1) == sum_covered(rows),
        column_total(csv_records(table_text(full_report_table(rows))).drop_first(), 2) == sum_executable(rows),
{
    lemma_full_report_readable(rows);
    lemma_table_round_trip(full_report_table(rows));
    assert(full_report_table(rows).drop_first() =~= rows.map_values(|r: FullReportRowView| full_report_fields(r)));
    lemma_full_report_totals(rows);
}

/// Round trip of the summary: reading back its saved text gives the header
/// and one record per squad, with the same totals of covered and executable
/// lines.
pub proof fn lemma_summary_round_trip(rows: Seq<SummaryRowView>)
    ensures
        csv_records(table_text(summary_table(rows))) == summary_table(rows),
        csv_records(table_text(summary_table(rows))).len() == rows.len() + 1,
        column_total(csv_records(table_text(summary_table(rows))).drop_first(), 2) == summary_covered(rows),
        column_total(csv_records(table_text(summary_table(rows))).drop_first(), 3) == summary_executable(rows),
{
    lemma_summary_readable(rows);
    lemma_table_round_trip(summary_table(rows));
    assert(summary_table(rows).drop_first() =~= rows.map_values(|r: SummaryRowView| summary_fields(r)));
    lemma_summary_totals(rows);
}

} // verus!
