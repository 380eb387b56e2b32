//! The full per-file report, stably sorted by team, and the per-team summary.

use vstd::prelude::*;
use crate::attribution::files_view;
use crate::model::{TargetFile, TargetFileView};
use crate::text::{
    chars_of, lemma_text_lt_irreflexive, lemma_text_lt_total, lemma_text_lt_transitive, text_equal,
    text_less, text_lt, text_of,
};

verus! {

/// One row of the full report.
pub struct FullReportRow {
    pub file_path: String,
    pub covered_lines: usize,
    pub executable_lines: usize,
    pub line_coverage: String,
    pub squad: String,
}

pub struct FullReportRowView {
    pub file_path: Seq<char>,
    pub covered_lines: nat,
    pub executable_lines: nat,
    pub line_coverage: Seq<char>,
    pub squad: Seq<char>,
}

impl View for FullReportRow {
    type V = FullReportRowView;

    open spec fn view(&self) -> FullReportRowView {
        FullReportRowView {
            file_path: self.file_path@,
            covered_lines: self.covered_lines as nat,
            executable_lines: self.executable_lines as nat,
            line_coverage: self.line_coverage@,
            squad: self.squad@,
        }
    }
}

pub open spec fn rows_view(rows: Seq<FullReportRow>) -> Seq<FullReportRowView> {
    rows.map_values(|r: FullReportRow| r@)
}

/// The squad given to a record that no ownership entry matched.
pub open spec fn unattributed() -> Seq<char> {
    "N/A"@
}

/// The full-report row of a record; a missing owner is filled in as `N/A`.
pub open spec fn report_row(f: TargetFileView) -> FullReportRowView {
    FullReportRowView {
        file_path: f.path,
        covered_lines: f.covered_lines,
        executable_lines: f.executable_lines,
        line_coverage: f.line_coverage,
        squad: match f.squad_name {
            Some(s) => s,
            None => unattributed(),
        },
    }
}

pub open spec fn report_rows(files: Seq<TargetFileView>) -> Seq<FullReportRowView> {
    files.map_values(|f: TargetFileView| report_row(f))
}

/// The rows of squad `k`, in their order in `rows`.
pub open spec fn rows_of_squad(rows: Seq<FullReportRowView>, k: Seq<char>) -> Seq<FullReportRowView>
    decreases rows.len(),
{
    if rows.len() == 0 {
        Seq::empty()
    } else {
        let prev = rows_of_squad(rows.drop_last(), k);
        if rows.last().squad == k {
            prev.push(rows.last())
        } else {
            prev
        }
    }
}

/// Rows in ascending order of squad.
pub open spec fn squad_sorted(rows: Seq<FullReportRowView>) -> bool {
    forall|i: int, j: int| 0 <= i < j < rows.len() ==> !text_lt(#[trigger] rows[j].squad, #[trigger] rows[i].squad)
}

/// `out` is `rows` sorted by squad, rows of one squad keeping their order.
pub open spec fn stably_sorted_by_squad(rows: Seq<FullReportRowView>, out: Seq<FullReportRowView>) -> bool {
    &&& squad_sorted(out)
    &&& forall|k: Seq<char>| #[trigger] rows_of_squad(out, k) == rows_of_squad(rows, k)
}

pub proof fn lemma_rows_of_squad_add(a: Seq<FullReportRowView>, b: Seq<FullReportRowView>, k: Seq<char>)
    ensures
        rows_of_squad(a + b, k) == rows_of_squad(a, k) + rows_of_squad(b, k),
    decreases b.len(),
{
    if b.len() == 0 {
        assert(a + b =~= a);
        assert(rows_of_squad(a, k) + rows_of_squad(b, k) =~= rows_of_squad(a, k));
    } else {
        assert((a + b).drop_last() =~= a + b.drop_last());
        lemma_rows_of_squad_add(a, b.drop_last(), k);
        assert(rows_of_squad(a + b, k) =~= rows_of_squad(a, k) + rows_of_squad(b, k));
    }
}

pub proof fn lemma_rows_of_squad_absent(rows: Seq<FullReportRowView>, k: Seq<char>)
    requires
        forall|j: int| 0 <= j < rows.len() ==> (#[trigger] rows[j]).squad != k,
    ensures
        rows_of_squad(rows, k) == Seq::<FullReportRowView>::empty(),
    decreases rows.len(),
{
    if rows.len() > 0 {
        lemma_rows_of_squad_absent(rows.drop_last(), k);
    }
}

proof fn lemma_insert_keeps_stable_order(
    rows: Seq<FullReportRowView>,
    out: Seq<FullReportRowView>,
    x: FullReportRowView,
    p: int,
)
    requires
        stably_sorted_by_squad(rows, out),
        0 <= p <= out.len(),
        forall|q: int| 0 <= q < p ==> !text_lt(x.squad, #[trigger] out[q].squad),
        p < out.len() ==> text_lt(x.squad, out[p].squad),
    ensures
        stably_sorted_by_squad(rows.push(x), out.insert(p, x)),
{
    let o2 = out.insert(p, x);
    assert forall|q: int| p <= q < out.len() implies text_lt(x.squad, #[trigger] out[q].squad) by {
        if q > p {
            lemma_text_lt_total(out[q].squad, out[p].squad);
            if out[q].squad != out[p].squad {
                lemma_text_lt_transitive(x.squad, out[p].squad, out[q].squad);
            }
        }
    }
    assert forall|i: int, j: int| 0 <= i < j < o2.len() implies !text_lt(#[trigger] o2[j].squad, #[trigger] o2[i].squad) by {
        if i < p && j == p {
        } else if i == p {
            lemma_text_lt_total(x.squad, out[j - 1].squad);
        } else if i < p && j > p {
            assert(o2[j] == out[j - 1]);
            assert(!text_lt(out[j - 1].squad, out[i].squad));
        } else if i > p {
            assert(o2[i] == out[i - 1] && o2[j] == out[j - 1]);
        } else {
            assert(o2[i] == out[i] && o2[j] == out[j]);
        }
    }
    let front = out.take(p);
    let back = out.skip(p);
    assert(out =~= front + back);
    assert(o2 =~= front + seq![x] + back);
    assert forall|j: int| 0 <= j < back.len() implies (#[trigger] back[j]).squad != x.squad by {
        lemma_text_lt_irreflexive(x.squad);
        assert(back[j] == out[p + j]);
    }
    lemma_rows_of_squad_absent(back, x.squad);
    assert forall|k: Seq<char>| #[trigger] rows_of_squad(o2, k) == rows_of_squad(rows.push(x), k) by {
        lemma_rows_of_squad_add(front, back, k);
        lemma_rows_of_squad_add(front + seq![x], back, k);
        lemma_rows_of_squad_add(front, seq![x], k);
        assert(seq![x].drop_last() =~= Seq::<FullReportRowView>::empty());
        assert(rows_of_squad(Seq::<FullReportRowView>::empty(), k) == Seq::<FullReportRowView>::empty());
        assert(rows.push(x).drop_last() =~= rows);
        assert(rows_of_squad(out, k) == rows_of_squad(rows, k));
        let fk = rows_of_squad(front, k);
        let bk = rows_of_squad(back, k);
        assert(rows_of_squad(o2, k) == fk + rows_of_squad(seq![x], k) + bk);
        if k == x.squad {
            assert(rows_of_squad(seq![x], k) =~= seq![x]);
            assert(bk =~= Seq::<FullReportRowView>::empty());
            assert(rows_of_squad(rows.push(x), k) == rows_of_squad(rows, k).push(x));
            assert(rows_of_squad(o2, k) =~= rows_of_squad(rows.push(x), k));
        } else {
            assert(rows_of_squad(seq![x], k) =~= Seq::<FullReportRowView>::empty());
            assert(rows_of_squad(rows.push(x), k) == rows_of_squad(rows, k));
            assert(rows_of_squad(o2, k) =~= rows_of_squad(rows.push(x), k));
        }
    }
}

fn full_report_row(f: &TargetFile) -> (r: FullReportRow)
    ensures
        r@ == report_row(f@),
{
    let squad = match &f.squad_name {
        Some(s) => s.clone(),
        None => text_of("N/A"),
    };
    FullReportRow {
        file_path: f.path.clone(),
        covered_lines: f.covered_lines,
        executable_lines: f.executable_lines,
        line_coverage: f.line_coverage.clone(),
        squad,
    }
}

/// The full report: one row per record, the missing owners filled in as
/// `N/A`, then stably sorted in ascending order of squad.
pub fn process_full_report(report: &Vec<TargetFile>) -> (r: Vec<FullReportRow>)
    ensures
        stably_sorted_by_squad(report_rows(files_view(report@)), rows_view(r@)),
{
    let ghost all = report_rows(files_view(report@));
    let mut out: Vec<FullReportRow> = Vec::new();
    let mut keys: Vec<Vec<char>> = Vec::new();
    let mut i: usize = 0;
    while i < report.len()
        invariant
            i <= report@.len(),
            all == report_rows(files_view(report@)),
            stably_sorted_by_squad(all.take(i as int), rows_view(out@)),
            keys@.len() == out@.len(),
            forall|q: int| 0 <= q < keys@.len() ==> #[trigger] keys@[q]@ == out@[q].squad@,
        decreases report@.len() - i,
    {
        let row = full_report_row(&report[i]);
        let key = chars_of(row.squad.as_str());
        let mut p: usize = 0;
        while p < out.len() && !text_less(&key, &keys[p])
            invariant
                p <= out@.len(),
                keys@.len() == out@.len(),
                forall|q: int| 0 <= q < keys@.len() ==> #[trigger] keys@[q]@ == out@[q].squad@,
                forall|q: int| 0 <= q < p ==> !text_lt(key@, #[trigger] rows_view(out@)[q].squad),
            decreases out@.len() - p,
        {
            p = p + 1;
        }
        proof {
            assert(all.take(i + 1) =~= all.take(i as int).push(row@));
            lemma_insert_keeps_stable_order(all.take(i as int), rows_view(out@), row@, p as int);
        }
        let ghost before = out@;
        out.insert(p, row);
        keys.insert(p, key);
        assert(rows_view(out@) =~= rows_view(before).insert(p as int, row@));
        i = i + 1;
    }
    assert(all.take(i as int) =~= all);
    out
}

/// One row of the per-team summary. `coverage` is the percentage of covered
/// lines in hundredths of a percent, or `None` when the team has no
/// executable lines.
pub struct SummaryRow {
    pub squad: String,
    pub count: usize,
    pub covered_lines: u64,
    pub executable_lines: u64,
    pub coverage: Option<u128>,
}

pub struct SummaryRowView {
    pub squad: Seq<char>,
    pub count: nat,
    pub covered_lines: nat,
    pub executable_lines: nat,
    pub coverage: Option<nat>,
}

impl View for SummaryRow {
    type V = SummaryRowView;

    open spec fn view(&self) -> SummaryRowView {
        SummaryRowView {
            squad: self.squad@,
            count: self.count as nat,
            covered_lines: self.covered_lines as nat,
            executable_lines: self.executable_lines as nat,
            coverage: match self.coverage {
                Some(c) => Some(c as nat),
                None => None,
            },
        }
    }
}

pub open spec fn summary_view(rows: Seq<SummaryRow>) -> Seq<SummaryRowView> {
    rows.map_values(|r: SummaryRow| r@)
}

pub open spec fn sum_covered(rows: Seq<FullReportRowView>) -> nat
    decreases rows.len(),
{
    if rows.len() == 0 {
        0
    } else {
        sum_covered(rows.drop_last()) + rows.last().covered_lines
    }
}

pub open spec fn sum_executable(rows: Seq<FullReportRowView>) -> nat
    decreases rows.len(),
{
    if rows.len() == 0 {
        0
    } else {
        sum_executable(rows.drop_last()) + rows.last().executable_lines
    }
}

/// `100 * covered / executable` rounded half-up to two decimals, in
/// hundredths of a percent; `None` when there are no executable lines.
pub open spec fn coverage_hundredths(covered: nat, executable: nat) -> Option<nat> {
    if executable == 0 {
        None
    } else {
        Some(((20000 * covered + executable) / (2 * executable)) as nat)
    }
}

/// The summary row of squad `k` over `rows`.
pub open spec fn summary_row(rows: Seq<FullReportRowView>, k: Seq<char>) -> SummaryRowView {
    let g = rows_of_squad(rows, k);
    SummaryRowView {
        squad: k,
        count: g.len(),
        covered_lines: sum_covered(g),
        executable_lines: sum_executable(g),
        coverage: coverage_hundredths(sum_covered(g), sum_executable(g)),
    }
}

/// `summary` has exactly one row per squad present in `rows`, with that
/// squad's aggregates, in strictly ascending order of squad.
pub open spec fn is_summary(rows: Seq<FullReportRowView>, summary: Seq<SummaryRowView>) -> bool {
    &&& forall|i: int, j: int| 0 <= i < j < summary.len() ==> text_lt(#[trigger] summary[i].squad, #[trigger] summary[j].squad)
    &&& forall|i: int| 0 <= i < summary.len() ==> #[trigger] summary[i] == summary_row(rows, summary[i].squad) && summary[i].count > 0
    &&& forall|j: int| 0 <= j < rows.len() ==> exists|i: int| 0 <= i < summary.len() && #[trigger] summary[i].squad == (#[trigger] rows[j]).squad
}

proof fn lemma_summary_row_push_other(rows: Seq<FullReportRowView>, x: FullReportRowView, k: Seq<char>)
    requires
        k != x.squad,
    ensures
        summary_row(rows.push(x), k) == summary_row(rows, k),
{
    assert(rows.push(x).drop_last() =~= rows);
}

proof fn lemma_summary_row_push_same(rows: Seq<FullReportRowView>, x: FullReportRowView)
    ensures
        rows_of_squad(rows.push(x), x.squad) == rows_of_squad(rows, x.squad).push(x),
        summary_row(rows.push(x), x.squad).count == summary_row(rows, x.squad).count + 1,
        summary_row(rows.push(x), x.squad).covered_lines == summary_row(rows, x.squad).covered_lines + x.covered_lines,
        summary_row(rows.push(x), x.squad).executable_lines == summary_row(rows, x.squad).executable_lines
            + x.executable_lines,
{
    assert(rows.push(x).drop_last() =~= rows);
    let g = rows_of_squad(rows, x.squad);
    assert(g.push(x).drop_last() =~= g);
}

proof fn lemma_summary_update(rows: Seq<FullReportRowView>, s: Seq<SummaryRowView>, x: FullReportRowView, p: int)
    requires
        is_summary(rows, s),
        0 <= p < s.len(),
        s[p].squad == x.squad,
    ensures
        is_summary(rows.push(x), s.update(p, summary_row(rows.push(x), x.squad))),
{
    let s2 = s.update(p, summary_row(rows.push(x), x.squad));
    lemma_summary_row_push_same(rows, x);
    assert forall|i: int| 0 <= i < s2.len() implies #[trigger] s2[i] == summary_row(rows.push(x), s2[i].squad) && s2[i].count > 0 by {
        if i != p {
            if i < p {
                assert(text_lt(s[i].squad, s[p].squad));
            } else {
                assert(text_lt(s[p].squad, s[i].squad));
            }
            lemma_text_lt_irreflexive(x.squad);
            lemma_summary_row_push_other(rows, x, s[i].squad);
        }
    }
    let r2 = rows.push(x);
    assert forall|j: int| 0 <= j < r2.len() implies exists|i: int| 0 <= i < s2.len() && #[trigger] s2[i].squad == (#[trigger] r2[j]).squad by {
        if j < rows.len() {
            assert(r2[j] == rows[j]);
            let i = choose|i: int| 0 <= i < s.len() && #[trigger] s[i].squad == rows[j].squad;
            assert(s2[i].squad == r2[j].squad);
        } else {
            assert(s2[p].squad == r2[j].squad);
        }
    }
}

proof fn lemma_summary_insert(rows: Seq<FullReportRowView>, s: Seq<SummaryRowView>, x: FullReportRowView, p: int)
    requires
        is_summary(rows, s),
        0 <= p <= s.len(),
        forall|q: int| 0 <= q < p ==> text_lt(#[trigger] s[q].squad, x.squad),
        p < s.len() ==> text_lt(x.squad, s[p].squad),
    ensures
        is_summary(rows.push(x), s.insert(p, summary_row(rows.push(x), x.squad))),
        summary_row(rows.push(x), x.squad) == (SummaryRowView {
            squad: x.squad,
            count: 1,
            covered_lines: x.covered_lines,
            executable_lines: x.executable_lines,
            coverage: coverage_hundredths(x.covered_lines, x.executable_lines),
        }),
{
    let r2 = rows.push(x);
    let n = summary_row(r2, x.squad);
    let s2 = s.insert(p, n);
    lemma_text_lt_irreflexive(x.squad);
    assert forall|q: int| p <= q < s.len() implies text_lt(x.squad, #[trigger] s[q].squad) by {
        if q > p {
            lemma_text_lt_transitive(x.squad, s[p].squad, s[q].squad);
        }
    }
    assert forall|q: int| 0 <= q < s.len() implies (#[trigger] s[q]).squad != x.squad by {
        if q >= p {
            assert(text_lt(x.squad, s[q].squad));
        } else {
            assert(text_lt(s[q].squad, x.squad));
        }
    }
    assert forall|j: int| 0 <= j < rows.len() implies (#[trigger] rows[j]).squad != x.squad by {
        let i = choose|i: int| 0 <= i < s.len() && #[trigger] s[i].squad == rows[j].squad;
        assert(s[i].squad != x.squad);
    }
    lemma_rows_of_squad_absent(rows, x.squad);
    lemma_summary_row_push_same(rows, x);
    assert(Seq::<FullReportRowView>::empty().push(x).drop_last() =~= Seq::<FullReportRowView>::empty());
    assert forall|i: int, j: int| 0 <= i < j < s2.len() implies text_lt(#[trigger] s2[i].squad, #[trigger] s2[j].squad) by {
        if j == p {
        } else if i == p {
            assert(s2[j] == s[j - 1]);
        } else if i < p && j > p {
            assert(s2[j] == s[j - 1]);
        } else if i > p {
            assert(s2[i] == s[i - 1] && s2[j] == s[j - 1]);
        } else {
            assert(s2[i] == s[i] && s2[j] == s[j]);
        }
    }
    assert forall|i: int| 0 <= i < s2.len() implies #[trigger] s2[i] == summary_row(r2, s2[i].squad) && s2[i].count > 0 by {
        if i < p {
            lemma_summary_row_push_other(rows, x, s[i].squad);
        } else if i > p {
            assert(s2[i] == s[i - 1]);
            lemma_summary_row_push_other(rows, x, s[i - 1].squad);
        }
    }
    assert forall|j: int| 0 <= j < r2.len() implies exists|i: int| 0 <= i < s2.len() && #[trigger] s2[i].squad == (#[trigger] r2[j]).squad by {
        if j < rows.len() {
            assert(r2[j] == rows[j]);
            let i = choose|i: int| 0 <= i < s.len() && #[trigger] s[i].squad == rows[j].squad;
            if i < p {
                assert(s2[i].squad == r2[j].squad);
            } else {
                assert(s2[i + 1].squad == r2[j].squad);
            }
        } else {
            assert(s2[p].squad == r2[j].squad);
        }
    }
}

proof fn lemma_squad_sums_bounded(rows: Seq<FullReportRowView>, k: Seq<char>)
    ensures
        sum_covered(rows_of_squad(rows, k)) <= sum_covered(rows),
        sum_executable(rows_of_squad(rows, k)) <= sum_executable(rows),
        rows_of_squad(rows, k).len() <= rows.len(),
    decreases rows.len(),
{
    if rows.len() > 0 {
        lemma_squad_sums_bounded(rows.drop_last(), k);
        let g = rows_of_squad(rows.drop_last(), k);
        assert(g.push(rows.last()).drop_last() =~= g);
    }
}

pub proof fn lemma_prefix_sums_bounded(rows: Seq<FullReportRowView>, i: int)
    requires
        0 <= i <= rows.len(),
    ensures
        sum_covered(rows.take(i)) <= sum_covered(rows),
        sum_executable(rows.take(i)) <= sum_executable(rows),
    decreases rows.len() - i,
{
    if i < rows.len() {
        assert(rows.take(i + 1).drop_last() =~= rows.take(i));
        lemma_prefix_sums_bounded(rows, i + 1);
    } else {
        assert(rows.take(i) =~= rows);
    }
}

/// The coverage percentage in hundredths, rounded half-up.
pub fn coverage_percent(covered: u64, executable: u64) -> (r: Option<u128>)
    ensures
        match r {
            Some(c) => coverage_hundredths(covered as nat, executable as nat) == Some(c as nat),
            None => coverage_hundredths(covered as nat, executable as nat) == None::<nat>,
        },
{
    if executable == 0 {
        None
    } else {
        let c = covered as u128;
        let e = executable as u128;
        assert(20000 * c + e <= 20000 * 0xffff_ffff_ffff_ffffu128 + 0xffff_ffff_ffff_ffffu128) by (nonlinear_arith)
            requires
                c <= 0xffff_ffff_ffff_ffffu128,
                e <= 0xffff_ffff_ffff_ffffu128,
        ;
        Some((20000 * c + e) / (2 * e))
    }
}

/// The line totals of `rows` fit the summary's counters.
pub open spec fn totals_in_range(rows: Seq<FullReportRowView>) -> bool {
    sum_covered(rows) <= u64::MAX && sum_executable(rows) <= u64::MAX
}

/// Whether the line totals of `report` fit the summary's counters.
pub fn totals_fit(report: &Vec<FullReportRow>) -> (r: bool)
    ensures
        r == totals_in_range(rows_view(report@)),
{
    let ghost rows = rows_view(report@);
    let mut covered: u128 = 0;
    let mut executable: u128 = 0;
    let mut i: usize = 0;
    while i < report.len()
        invariant
            i <= report@.len(),
            rows == rows_view(report@),
            covered == sum_covered(rows.take(i as int)),
            executable == sum_executable(rows.take(i as int)),
            covered <= u64::MAX,
            executable <= u64::MAX,
        decreases report@.len() - i,
    {
        assert(rows[i as int] == report@[i as int]@);
        assert(rows.take(i + 1).drop_last() =~= rows.take(i as int));
        covered = covered + report[i].covered_lines as u128;
        executable = executable + report[i].executable_lines as u128;
        if covered > u64::MAX as u128 || executable > u64::MAX as u128 {
            proof {
                lemma_prefix_sums_bounded(rows, i + 1);
            }
            return false;
        }
        i = i + 1;
    }
    assert(rows.take(i as int) =~= rows);
    true
}

/// The per-team summary of a full report: one row per distinct squad, with
/// its row count, the sums of its covered and executable lines, and its
/// coverage percentage, in ascending order of squad. `None` exactly when the
/// line totals exceed what the summary's counters hold.
pub fn process_report(report: &Vec<FullReportRow>) -> (r: Option<Vec<SummaryRow>>)
    ensures
        r is None <==> !totals_in_range(rows_view(report@)),
        r matches Some(s) ==> is_summary(rows_view(report@), summary_view(s@)),
{
    if !totals_fit(report) {
        return None;
    }
    Some(summarize(report))
}

fn summarize(report: &Vec<FullReportRow>) -> (r: Vec<SummaryRow>)
    requires
        totals_in_range(rows_view(report@)),
    ensures
        is_summary(rows_view(report@), summary_view(r@)),
{
    let ghost all = rows_view(report@);
    let mut out: Vec<SummaryRow> = Vec::new();
    let mut keys: Vec<Vec<char>> = Vec::new();
    let mut i: usize = 0;
    assert(all.take(0) =~= Seq::<FullReportRowView>::empty());
    while i < report.len()
        invariant
            i <= report@.len(),
            all == rows_view(report@),
            sum_covered(all) <= u64::MAX,
            sum_executable(all) <= u64::MAX,
            is_summary(all.take(i as int), summary_view(out@)),
            keys@.len() == out@.len(),
            forall|q: int| 0 <= q < keys@.len() ==> #[trigger] keys@[q]@ == out@[q].squad@,
        decreases report@.len() - i,
    {
        let row = &report[i];
        let ghost x = row@;
        let ghost prefix = all.take(i as int);
        assert(all[i as int] == x);
        assert(all.take(i + 1) =~= prefix.push(x));
        proof {
            lemma_prefix_sums_bounded(all, i + 1);
            lemma_squad_sums_bounded(prefix.push(x), x.squad);
            lemma_squad_sums_bounded(prefix, x.squad);
            lemma_summary_row_push_same(prefix, x);
        }
        let key = chars_of(row.squad.as_str());
        let mut p: usize = 0;
        while p < out.len() && text_less(&keys[p], &key)
            invariant
                p <= out@.len(),
                keys@.len() == out@.len(),
                forall|q: int| 0 <= q < keys@.len() ==> #[trigger] keys@[q]@ == out@[q].squad@,
                forall|q: int| 0 <= q < p ==> text_lt(#[trigger] summary_view(out@)[q].squad, key@),
            decreases out@.len() - p,
        {
            p = p + 1;
        }
        let ghost sv = summary_view(out@);
        if p < out.len() && text_equal(&keys[p], &key) {
            assert(sv[p as int] == summary_row(prefix, x.squad));
            let old_row = &out[p];
            let covered = old_row.covered_lines + row.covered_lines as u64;
            let executable = old_row.executable_lines + row.executable_lines as u64;
            let updated = SummaryRow {
                squad: row.squad.clone(),
                count: old_row.count + 1,
                covered_lines: covered,
                executable_lines: executable,
                coverage: coverage_percent(covered, executable),
            };
            proof {
                lemma_summary_update(prefix, sv, x, p as int);
            }
            out.set(p, updated);
            assert(summary_view(out@) =~= sv.update(p as int, summary_row(prefix.push(x), x.squad)));
        } else {
            proof {
                if p < out.len() {
                    lemma_text_lt_total(sv[p as int].squad, x.squad);
                }
                lemma_summary_insert(prefix, sv, x, p as int);
            }
            let added = SummaryRow {
                squad: row.squad.clone(),
                count: 1,
                covered_lines: row.covered_lines as u64,
                executable_lines: row.executable_lines as u64,
                coverage: coverage_percent(row.covered_lines as u64, row.executable_lines as u64),
            };
            out.insert(p, added);
            keys.insert(p, key);
            assert(summary_view(out@) =~= sv.insert(p as int, summary_row(prefix.push(x), x.squad)));
        }
        i = i + 1;
    }
    assert(all.take(i as int) =~= all);
    out
}

pub open spec fn summary_covered(s: Seq<SummaryRowView>) -> nat
    decreases s.len(),
{
    if s.len() == 0 {
        0
    } else {
        summary_covered(s.drop_last()) + s.last().covered_lines
    }
}

pub open spec fn summary_executable(s: Seq<SummaryRowView>) -> nat
    decreases s.len(),
{
    if s.len() == 0 {
        0
    } else {
        summary_executable(s.drop_last()) + s.last().executable_lines
    }
}

spec fn line_sum(rows: Seq<FullReportRowView>, executable: bool) -> nat {
    if executable {
        sum_executable(rows)
    } else {
        sum_covered(rows)
    }
}

spec fn row_lines(x: FullReportRowView, executable: bool) -> nat {
    if executable {
        x.executable_lines
    } else {
        x.covered_lines
    }
}

/// The line sums of the squads `keys`, each over its own rows.
spec fn squads_line_sum(rows: Seq<FullReportRowView>, keys: Seq<Seq<char>>, executable: bool) -> nat
    decreases keys.len(),
{
    if keys.len() == 0 {
        0
    } else {
        squads_line_sum(rows, keys.drop_last(), executable) + line_sum(rows_of_squad(rows, keys.last()), executable)
    }
}

proof fn lemma_squads_line_sum_push(
    rows: Seq<FullReportRowView>,
    x: FullReportRowView,
    keys: Seq<Seq<char>>,
    executable: bool,
)
    requires
        keys.no_duplicates(),
    ensures
        squads_line_sum(rows.push(x), keys, executable) == squads_line_sum(rows, keys, executable) + if keys.contains(
            x.squad,
        ) {
            row_lines(x, executable)
        } else {
            0
        },
    decreases keys.len(),
{
    if keys.len() > 0 {
        let init = keys.drop_last();
        assert(init.no_duplicates());
        lemma_squads_line_sum_push(rows, x, init, executable);
        let k = keys.last();
        assert(rows.push(x).drop_last() =~= rows);
        let g = rows_of_squad(rows, k);
        assert(g.push(x).drop_last() =~= g);
        if k == x.squad {
            assert(!init.contains(x.squad));
            assert(keys.contains(x.squad)) by {
                assert(keys[keys.len() - 1] == x.squad);
            }
        } else {
            assert(keys.contains(x.squad) == init.contains(x.squad)) by {
                if keys.contains(x.squad) {
                    let i = choose|i: int| 0 <= i < keys.len() && keys[i] == x.squad;
                    assert(init[i] == x.squad);
                }
                if init.contains(x.squad) {
                    let i = choose|i: int| 0 <= i < init.len() && init[i] == x.squad;
                    assert(keys[i] == x.squad);
                }
            }
        }
    }
}

proof fn lemma_squads_line_sum_total(rows: Seq<FullReportRowView>, keys: Seq<Seq<char>>, executable: bool)
    requires
        keys.no_duplicates(),
        forall|j: int| 0 <= j < rows.len() ==> keys.contains(#[trigger] rows[j].squad),
    ensures
        squads_line_sum(rows, keys, executable) == line_sum(rows, executable),
    decreases rows.len(),
{
    if rows.len() == 0 {
        assert forall|i: int| 0 <= i < keys.len() implies line_sum(rows_of_squad(rows, #[trigger] keys[i]), executable) == 0 by {
        }
        lemma_squads_line_sum_zero(rows, keys, executable);
    } else {
        let init = rows.drop_last();
        assert forall|j: int| 0 <= j < init.len() implies keys.contains(#[trigger] init[j].squad) by {
            assert(init[j] == rows[j]);
        }
        lemma_squads_line_sum_total(init, keys, executable);
        assert(init.push(rows.last()) =~= rows);
        lemma_squads_line_sum_push(init, rows.last(), keys, executable);
        assert(keys.contains(rows[rows.len() - 1].squad));
    }
}

proof fn lemma_squads_line_sum_zero(rows: Seq<FullReportRowView>, keys: Seq<Seq<char>>, executable: bool)
    requires
        rows.len() == 0,
    ensures
        squads_line_sum(rows, keys, executable) == 0,
    decreases keys.len(),
{
    if keys.len() > 0 {
        lemma_squads_line_sum_zero(rows, keys.drop_last(), executable);
    }
}

spec fn summary_squads(s: Seq<SummaryRowView>) -> Seq<Seq<char>> {
    s.map_values(|r: SummaryRowView| r.squad)
}

proof fn lemma_summary_line_sum(rows: Seq<FullReportRowView>, s: Seq<SummaryRowView>, executable: bool)
    requires
        forall|i: int| 0 <= i < s.len() ==> #[trigger] s[i] == summary_row(rows, s[i].squad),
    ensures
        (if executable { summary_executable(s) } else { summary_covered(s) }) == squads_line_sum(
            rows,
            summary_squads(s),
            executable,
        ),
    decreases s.len(),
{
    if s.len() > 0 {
        let init = s.drop_last();
        assert forall|i: int| 0 <= i < init.len() implies #[trigger] init[i] == summary_row(rows, init[i].squad) by {
            assert(init[i] == s[i]);
        }
        lemma_summary_line_sum(rows, init, executable);
        assert(summary_squads(s).drop_last() =~= summary_squads(init));
        assert(s[s.len() - 1] == summary_row(rows, s[s.len() - 1].squad));
    }
}

/// Conservation: the summary's covered and executable lines add up to those
/// of the full report it summarises.
pub proof fn lemma_summary_conserves_lines(rows: Seq<FullReportRowView>, summary: Seq<SummaryRowView>)
    requires
        is_summary(rows, summary),
    ensures
        summary_covered(summary) == sum_covered(rows),
        summary_executable(summary) == sum_executable(rows),
{
    let keys = summary_squads(summary);
    assert(keys.no_duplicates()) by {
        assert forall|i: int, j: int| 0 <= i < keys.len() && 0 <= j < keys.len() && i != j implies keys[i] != keys[j] by {
            lemma_text_lt_irreflexive(keys[i]);
            if i < j {
                assert(text_lt(summary[i].squad, summary[j].squad));
            } else {
                assert(text_lt(summary[j].squad, summary[i].squad));
            }
        }
    }
    assert forall|j: int| 0 <= j < rows.len() implies keys.contains(#[trigger] rows[j].squad) by {
        let i = choose|i: int| 0 <= i < summary.len() && #[trigger] summary[i].squad == rows[j].squad;
        assert(keys[i] == rows[j].squad);
    }
    lemma_summary_line_sum(rows, summary, false);
    lemma_summary_line_sum(rows, summary, true);
    lemma_squads_line_sum_total(rows, keys, false);
    lemma_squads_line_sum_total(rows, keys, true);
}

/// Every summary row's coverage is its covered over its executable lines,
/// as a percentage rounded half-up to two decimals (`h` hundredths, with
/// `h - 1/2 <= 10000 * covered / executable < h + 1/2`), and `None` exactly
/// when the squad has no executable lines.
pub proof fn lemma_summary_coverage_rounded(rows: Seq<FullReportRowView>, summary: Seq<SummaryRowView>, i: int)
    requires
        is_summary(rows, summary),
        0 <= i < summary.len(),
    ensures
        summary[i].coverage == coverage_hundredths(summary[i].covered_lines, summary[i].executable_lines),
        summary[i].coverage is None <==> summary[i].executable_lines == 0,
        summary[i].coverage matches Some(h) ==> 2 * summary[i].executable_lines * h <= 20000
            * summary[i].covered_lines + summary[i].executable_lines < 2 * summary[i].executable_lines * (h
            + 1),
{
    assert(summary[i] == summary_row(rows, summary[i].squad));
    let c = summary[i].covered_lines;
    let e = summary[i].executable_lines;
    if e > 0 {
        let n = 20000 * c + e;
        let d = 2 * e;
        let h = n / d;
        assert(d * h <= n < d * (h + 1)) by (nonlinear_arith)
            requires
                d > 0,
                h == n / d,
                n >= 0,
        ;
    }
}

proof fn lemma_rows_of_squad_present(rows: Seq<FullReportRowView>, k: Seq<char>)
    ensures
        rows_of_squad(rows, k).len() > 0 <==> exists|j: int| 0 <= j < rows.len() && (#[trigger] rows[j]).squad == k,
    decreases rows.len(),
{
    if rows.len() > 0 {
        let init = rows.drop_last();
        lemma_rows_of_squad_present(init, k);
        if exists|j: int| 0 <= j < init.len() && (#[trigger] init[j]).squad == k {
            let j = choose|j: int| 0 <= j < init.len() && (#[trigger] init[j]).squad == k;
            assert(rows[j] == init[j]);
        }
        if exists|j: int| 0 <= j < rows.len() && (#[trigger] rows[j]).squad == k {
            let j = choose|j: int| 0 <= j < rows.len() && (#[trigger] rows[j]).squad == k;
            if j < init.len() {
                assert(init[j] == rows[j]);
            }
        }
    }
}

/// The summary depends on the rows of each squad alone, so a stable sort by
/// squad leaves it unchanged.
pub proof fn lemma_summary_of_sorted(
    rows: Seq<FullReportRowView>,
    sorted: Seq<FullReportRowView>,
    summary: Seq<SummaryRowView>,
)
    requires
        stably_sorted_by_squad(rows, sorted),
        is_summary(rows, summary),
    ensures
        is_summary(sorted, summary),
{
    assert forall|i: int| 0 <= i < summary.len() implies #[trigger] summary[i] == summary_row(sorted, summary[i].squad)
        && summary[i].count > 0 by {
        assert(rows_of_squad(sorted, summary[i].squad) == rows_of_squad(rows, summary[i].squad));
    }
    assert forall|j: int| 0 <= j < sorted.len() implies exists|i: int| 0 <= i < summary.len() && #[trigger] summary[i].squad == (#[trigger] sorted[j]).squad by {
        let k = sorted[j].squad;
        lemma_rows_of_squad_present(sorted, k);
        assert(rows_of_squad(sorted, k) == rows_of_squad(rows, k));
        lemma_rows_of_squad_present(rows, k);
        let j2 = choose|j2: int| 0 <= j2 < rows.len() && (#[trigger] rows[j2]).squad == k;
        assert(exists|i: int| 0 <= i < summary.len() && #[trigger] summary[i].squad == (#[trigger] rows[j2]).squad);
    }
}

/// Rows with the same line counts, position by position, have the same totals.
pub proof fn lemma_sums_pointwise(a: Seq<FullReportRowView>, b: Seq<FullReportRowView>)
    requires
        a.len() == b.len(),
        forall|i: int| 0 <= i < a.len() ==> (#[trigger] a[i]).covered_lines == b[i].covered_lines && a[i].executable_lines
            == b[i].executable_lines,
    ensures
        sum_covered(a) == sum_covered(b),
        sum_executable(a) == sum_executable(b),
    decreases a.len(),
{
    if a.len() > 0 {
        let (ia, ib) = (a.drop_last(), b.drop_last());
        assert forall|i: int| 0 <= i < ia.len() implies (#[trigger] ia[i]).covered_lines == ib[i].covered_lines
            && ia[i].executable_lines == ib[i].executable_lines by {
            assert(ia[i] == a[i] && ib[i] == b[i]);
        }
        lemma_sums_pointwise(ia, ib);
        assert(a.last() == a[a.len() - 1]);
    }
}

/// The full-report rows of `report`, in record order.
pub fn report_rows_of(report: &Vec<TargetFile>) -> (r: Vec<FullReportRow>)
    ensures
        rows_view(r@) == report_rows(files_view(report@)),
{
    let mut out: Vec<FullReportRow> = Vec::new();
    let mut i: usize = 0;
    while i < report.len()
        invariant
            i <= report@.len(),
            rows_view(out@) == report_rows(files_view(report@)).take(i as int),
        decreases report@.len() - i,
    {
        let ghost before = out@;
        let row = full_report_row(&report[i]);
        let ghost rv = row@;
        out.push(row);
        assert(files_view(report@)[i as int] == report@[i as int]@);
        assert(report_rows(files_view(report@))[i as int] == rv);
        assert(rows_view(out@) =~= rows_view(before).push(rv));
        assert(rows_view(out@) =~= report_rows(files_view(report@)).take(i + 1));
        i = i + 1;
    }
    assert(report_rows(files_view(report@)).take(i as int) =~= report_rows(files_view(report@)));
    out
}

proof fn lemma_rows_of_squad_all(rows: Seq<FullReportRowView>, k: Seq<char>)
    requires
        forall|j: int| 0 <= j < rows.len() ==> (#[trigger] rows[j]).squad == k,
    ensures
        rows_of_squad(rows, k) == rows,
    decreases rows.len(),
{
    if rows.len() > 0 {
        let init = rows.drop_last();
        assert forall|j: int| 0 <= j < init.len() implies (#[trigger] init[j]).squad == k by {
            assert(init[j] == rows[j]);
        }
        lemma_rows_of_squad_all(init, k);
        assert(rows[rows.len() - 1].squad == k);
        assert(init.push(rows.last()) =~= rows);
    }
}

/// A full report whose rows all have one squad `k` (all `N/A` when no entry
/// matched) has a summary of exactly one row: squad `k`, every row counted,
/// and all lines summed.
pub proof fn lemma_single_squad_summary(rows: Seq<FullReportRowView>, summary: Seq<SummaryRowView>, k: Seq<char>)
    requires
        is_summary(rows, summary),
        rows.len() > 0,
        forall|j: int| 0 <= j < rows.len() ==> (#[trigger] rows[j]).squad == k,
    ensures
        summary.len() == 1,
        summary[0].squad == k,
        summary[0].count == rows.len(),
        summary[0].covered_lines == sum_covered(rows),
        summary[0].executable_lines == sum_executable(rows),
{
    assert forall|i: int| 0 <= i < summary.len() implies (#[trigger] summary[i]).squad == k by {
        assert(summary[i] == summary_row(rows, summary[i].squad));
        lemma_rows_of_squad_present(rows, summary[i].squad);
    }
    assert(rows[0].squad == k);
    let i0 = choose|i: int| 0 <= i < summary.len() && #[trigger] summary[i].squad == rows[0].squad;
    if summary.len() > 1 {
        lemma_text_lt_irreflexive(k);
        assert(text_lt(summary[0].squad, summary[1].squad));
    }
    lemma_rows_of_squad_all(rows, k);
    assert(summary[0] == summary_row(rows, summary[0].squad));
}

} // verus!
