//! One run's computation: from the ownership entries and the coverage
//! export to both reports and the text they are saved as.

use vstd::prelude::*;
use crate::attribution::{attributed_files, entries_view, lemma_attribution_keeps_records, match_squad_files};
use crate::csv::table_text;
use crate::model::{all_files, SquadData, SquadDataView, TargetFileView, XCodeBuildReport};
use crate::report::{
    is_summary, lemma_sums_pointwise, lemma_summary_of_sorted, process_full_report, process_report,
    report_rows, report_rows_of, rows_view, stably_sorted_by_squad, summary_view, totals_in_range,
    FullReportRow, SummaryRow,
};
use crate::writer::{full_report_table, full_report_text, summary_table, summary_text};

verus! {

/// Both reports of a run, and the text each is saved as.
pub struct Reports {
    pub full_report: Vec<FullReportRow>,
    pub summary: Vec<SummaryRow>,
    pub full_report_text: String,
    pub summary_text: String,
}

/// The line totals of the records fit the summary's counters.
pub open spec fn lines_fit(files: Seq<TargetFileView>) -> bool {
    totals_in_range(report_rows(files))
}

/// `reports` are the reports of the records `files` attributed by `entries`.
pub open spec fn reports_of(files: Seq<TargetFileView>, entries: Seq<SquadDataView>, reports: Reports) -> bool {
    let rows = report_rows(attributed_files(files, entries));
    let full = rows_view(reports.full_report@);
    let summary = summary_view(reports.summary@);
    &&& stably_sorted_by_squad(rows, full)
    &&& is_summary(full, summary)
    &&& reports.full_report_text@ == table_text(full_report_table(full))
    &&& reports.summary_text@ == table_text(summary_table(summary))
}

/// The reports of a run: each record of the export is attributed by the
/// ownership entries, and the full report and the summary are built and
/// rendered. `None` exactly when the export's line totals exceed what the
/// summary's counters hold.
pub fn process_xcresult(squads_data: Vec<SquadData>, report: XCodeBuildReport) -> (r: Option<Reports>)
    ensures
        r is None <==> !lines_fit(all_files(report@)),
        r matches Some(reports) ==> reports_of(all_files(report@), entries_view(squads_data@), reports),
{
    let ghost files = all_files(report@);
    let ghost entries = entries_view(squads_data@);
    let attributed = match_squad_files(squads_data, report);
    let rows = report_rows_of(&attributed);
    proof {
        let a = attributed_files(files, entries);
        lemma_attribution_keeps_records(files, entries);
        lemma_sums_pointwise(report_rows(a), report_rows(files));
    }
    let summary = match process_report(&rows) {
        Some(s) => s,
        None => {
            return None;
        },
    };
    let full_report = process_full_report(&attributed);
    proof {
        lemma_summary_of_sorted(rows_view(rows@), rows_view(full_report@), summary_view(summary@));
    }
    let full_text = full_report_text(&full_report);
    let summary_txt = summary_text(&summary);
    Some(Reports { full_report, summary, full_report_text: full_text, summary_text: summary_txt })
}

} // verus!
