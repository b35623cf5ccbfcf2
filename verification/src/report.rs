//! A line-by-line report of how an output differs from what was expected, ready to
//! be printed.

use vstd::prelude::*;
use vstd::string::*;

verus! {

/// One step of a comparison of two texts line by line.
#[derive(Debug)]
pub enum DiffLine {
    /// A line that only the left text has.
    Left(String),
    /// A line that both texts have: as it stands in the left and in the right text.
    Both(String, String),
    /// A line that only the right text has.
    Right(String),
}

/// Model of a [`DiffLine`].
pub enum DiffLineView {
    Left(Seq<char>),
    Both(Seq<char>, Seq<char>),
    Right(Seq<char>),
}

impl View for DiffLine {
    type V = DiffLineView;

    open spec fn view(&self) -> DiffLineView {
        match self {
            DiffLine::Left(line) => DiffLineView::Left(line@),
            DiffLine::Both(left, right) => DiffLineView::Both(left@, right@),
            DiffLine::Right(line) => DiffLineView::Right(line@),
        }
    }
}

/// The models of the steps of a comparison.
pub open spec fn steps(lines: Seq<DiffLine>) -> Seq<DiffLineView> {
    lines.map_values(|line: DiffLine| line@)
}

/// The comparison that the diff engine makes of the lines of `left` and `right`.
pub uninterp spec fn line_diff(left: Seq<char>, right: Seq<char>) -> Seq<DiffLineView>;

/// Two texts are small enough to be compared: there is room for the engine's table,
/// which has a cell for each pair of a line of the one and a line of the other, and
/// for the steps that it returns.
pub open spec fn comparable(left: Seq<char>, right: Seq<char>) -> bool {
    (left.len() + 1) * (right.len() + 1) * 64 <= isize::MAX
}

/// `diff::lines` on the two texts, each step copied into a [`DiffLine`].  The steps are
/// those that `line_diff` names for the two texts.
#[verifier::external_body]
fn diff_lines(left: &str, right: &str) -> (lines: Vec<DiffLine>)
    requires
        comparable(left@, right@),
    ensures
        steps(lines@) == line_diff(left@, right@),
{
    diff::lines(left, right).into_iter().map(
        |step| match step {
            diff::Result::Left(line) => DiffLine::Left(line.to_string()),
            diff::Result::Both(l, r) => DiffLine::Both(l.to_string(), r.to_string()),
            diff::Result::Right(line) => DiffLine::Right(line.to_string()),
        },
    ).collect()
}

/// The colour in which a line of a report is to be shown.
#[derive(Clone, Copy, Debug, PartialEq, Eq, Structural)]
pub enum Tint {
    Plain,
    Red,
    Green,
}

/// A line of a report.
#[derive(Debug)]
pub struct ReportLine {
    pub tint: Tint,
    pub text: String,
}

/// Model of a [`ReportLine`].
pub struct ReportLineView {
    pub tint: Tint,
    pub text: Seq<char>,
}

impl View for ReportLine {
    type V = ReportLineView;

    open spec fn view(&self) -> ReportLineView {
        ReportLineView { tint: self.tint, text: self.text@ }
    }
}

/// The models of the lines of a report.
pub open spec fn report_lines(lines: Seq<ReportLine>) -> Seq<ReportLineView> {
    lines.map_values(|line: ReportLine| line@)
}

/// How one step is shown: a line of the left text alone in red after `- `, a line of
/// the right text alone in green after `+ `, a common line plain after two spaces.
pub open spec fn shown_step(step: DiffLineView) -> ReportLineView {
    match step {
        DiffLineView::Left(line) => ReportLineView { tint: Tint::Red, text: "- "@ + line },
        DiffLineView::Right(line) => ReportLineView { tint: Tint::Green, text: "+ "@ + line },
        DiffLineView::Both(line, _) => ReportLineView { tint: Tint::Plain, text: "  "@ + line },
    }
}

/// The report on a comparison: where the texts are equal, one green line that says
/// so; otherwise a heading and the steps of the comparison in order.
pub open spec fn report_of(same: bool, comparison: Seq<DiffLineView>) -> Seq<ReportLineView> {
    if same {
        seq![ReportLineView { tint: Tint::Green, text: "No differences found."@ }]
    } else {
        seq![
            ReportLineView {
                tint: Tint::Plain,
                text: "Differences found between expected and output:"@,
            },
        ] + comparison.map_values(|step: DiffLineView| shown_step(step))
    }
}

/// Shows one step of a comparison.
pub fn show_step(step: &DiffLine) -> (line: ReportLine)
    ensures
        line@ == shown_step(step@),
{
    match step {
        DiffLine::Left(left) => {
            let mut text = String::from_str("- ");
            text.append(left.as_str());
            ReportLine { tint: Tint::Red, text }
        },
        DiffLine::Right(right) => {
            let mut text = String::from_str("+ ");
            text.append(right.as_str());
            ReportLine { tint: Tint::Green, text }
        },
        DiffLine::Both(both, _) => {
            let mut text = String::from_str("  ");
            text.append(both.as_str());
            ReportLine { tint: Tint::Plain, text }
        },
    }
}

/// The report on texts that differ: the heading, then each step of `comparison`.
pub fn report_differences(comparison: &Vec<DiffLine>) -> (report: Vec<ReportLine>)
    ensures
        report_lines(report@) == report_of(false, steps(comparison@)),
{
    let mut report: Vec<ReportLine> = Vec::new();
    report.push(
        ReportLine {
            tint: Tint::Plain,
            text: String::from_str("Differences found between expected and output:"),
        },
    );
    let ghost all = steps(comparison@);
    let ghost heading = report_lines(report@);
    let mut i: usize = 0;
    assert(report_lines(report@) =~= heading + all.take(0).map_values(
        |step: DiffLineView| shown_step(step),
    ));
    while i < comparison.len()
        invariant
            i <= comparison@.len(),
            all == steps(comparison@),
            heading == seq![
                ReportLineView {
                    tint: Tint::Plain,
                    text: "Differences found between expected and output:"@,
                },
            ],
            report_lines(report@) == heading + all.take(i as int).map_values(
                |step: DiffLineView| shown_step(step),
            ),
        decreases comparison@.len() - i,
    {
        let line = show_step(&comparison[i]);
        let ghost before = report_lines(report@);
        report.push(line);
        proof {
            assert(report_lines(report@) =~= before.push(line@));
            assert(all[i as int] == comparison@[i as int]@);
            assert(all.take(i + 1).map_values(|step: DiffLineView| shown_step(step)) =~= all.take(
                i as int,
            ).map_values(|step: DiffLineView| shown_step(step)).push(shown_step(all[i as int])));
        }
        i += 1;
    }
    assert(all.take(i as int) =~= all);
    report
}

/// Whether there is room to compare the two texts.
pub fn can_compare(left: &str, right: &str) -> (room: bool)
    ensures
        room == comparable(left@, right@),
{
    let rows = left.unicode_len() as u128 + 1;
    let columns = right.unicode_len() as u128 + 1;
    let limit = isize::MAX as u128 / 64;
    if rows > limit || columns > limit {
        assert(!comparable(left@, right@)) by (nonlinear_arith)
            requires
                rows == left@.len() + 1,
                columns == right@.len() + 1,
                rows >= 1,
                columns >= 1,
                limit == isize::MAX as int / 64,
                rows > limit || columns > limit,
                comparable(left@, right@) == ((left@.len() + 1) * (right@.len() + 1) * 64
                    <= isize::MAX),
        ;
        return false;
    }
    assert(rows * columns <= limit * limit) by (nonlinear_arith)
        requires
            0 <= rows <= limit,
            0 <= columns <= limit,
    ;
    assert(limit * limit <= 0x1FF_FFFF_FFFF_FFFF * 0x1FF_FFFF_FFFF_FFFF) by (nonlinear_arith)
        requires
            0 <= limit <= 0x1FF_FFFF_FFFF_FFFF,
    ;
    rows * columns <= limit
}

/// The report on an output held against what was expected.  Equal texts need no
/// comparison; texts that differ and are too large to be compared give `None`.
pub fn diff_report(expected: &str, output: &str) -> (report: Option<Vec<ReportLine>>)
    ensures
        report is Some <==> expected@ == output@ || comparable(expected@, output@),
        report matches Some(lines) ==> report_lines(lines@) == report_of(
            expected@ == output@,
            line_diff(expected@, output@),
        ),
{
    if crate::text::same_text(expected, output) {
        let mut report: Vec<ReportLine> = Vec::new();
        report.push(
            ReportLine { tint: Tint::Green, text: String::from_str("No differences found.") },
        );
        assert(report_lines(report@) =~= report_of(true, line_diff(expected@, output@)));
        Some(report)
    } else if can_compare(expected, output) {
        let comparison = diff_lines(expected, output);
        Some(report_differences(&comparison))
    } else {
        None
    }
}

} // verus!
