//! The triage report.

use crate::benchmark::Direction;
use crate::commits::{Bound, BoundView};
use crate::comparison::{Comparison, ComparisonView};
use crate::date::Date;
use crate::summary::{summary_of_comparison, ComparisonSummary};
use crate::text::{
    decimal, decimal_text, joined, joined_text, law_each_part_is_joined,
    law_joined_is_made_of_its_parts, lemma_stands_in, lemma_stands_in_itself, stands_in,
};
use crate::views::views;
use vstd::prelude::*;

verus! {

/// The entries of a report, by the direction of the changes.
pub struct Report {
    regressions: Vec<String>,
    improvements: Vec<String>,
    mixed: Vec<String>,
}

/// What a [`Report`] holds.
pub struct ReportView {
    pub regressions: Seq<Seq<char>>,
    pub improvements: Seq<Seq<char>>,
    pub mixed: Seq<Seq<char>>,
}

impl View for Report {
    type V = ReportView;

    closed spec fn view(&self) -> ReportView {
        ReportView {
            regressions: views(self.regressions@),
            improvements: views(self.improvements@),
            mixed: views(self.mixed@),
        }
    }
}

impl ReportView {
    /// The report without entries.
    pub open spec fn empty() -> ReportView {
        ReportView { regressions: Seq::empty(), improvements: Seq::empty(), mixed: Seq::empty() }
    }

    /// The report with one more entry for the direction.
    pub open spec fn with_entry(self, direction: Direction, entry: Seq<char>) -> ReportView {
        match direction {
            Direction::Regression => ReportView {
                regressions: self.regressions.push(entry),
                ..self
            },
            Direction::Improvement => ReportView {
                improvements: self.improvements.push(entry),
                ..self
            },
            Direction::Mixed => ReportView { mixed: self.mixed.push(entry), ..self },
        }
    }

    /// How many entries there are.
    pub open spec fn len(self) -> nat {
        self.regressions.len() + self.improvements.len() + self.mixed.len()
    }
}

impl Report {
    /// The report without entries.
    pub fn new() -> (result: Report)
        ensures
            result@ == ReportView::empty(),
    {
        let result = Report {
            regressions: Vec::new(),
            improvements: Vec::new(),
            mixed: Vec::new(),
        };
        assert(views(result.regressions@) =~= Seq::empty());
        assert(views(result.improvements@) =~= Seq::empty());
        assert(views(result.mixed@) =~= Seq::empty());
        result
    }

    /// Adds an entry.
    pub fn push(&mut self, direction: Direction, entry: String)
        ensures
            final(self)@ == old(self)@.with_entry(direction, entry@),
    {
        match direction {
            Direction::Regression => {
                self.regressions.push(entry);
                assert(views(self.regressions@) =~= views(old(self).regressions@).push(entry@));
            },
            Direction::Improvement => {
                self.improvements.push(entry);
                assert(views(self.improvements@) =~= views(old(self).improvements@).push(entry@));
            },
            Direction::Mixed => {
                self.mixed.push(entry);
                assert(views(self.mixed@) =~= views(old(self).mixed@).push(entry@));
            },
        }
    }
}

/// The direction of a comparison, if it has an entry in a report.
pub open spec fn reported(comparison: ComparisonView) -> Option<Direction> {
    match summary_of_comparison(comparison) {
        Some(summary) => summary.direction(),
        None => None,
    }
}

/// The report after a comparison was added to it.
pub open spec fn populated(report: ReportView, comparison: ComparisonView, title: Seq<char>) -> ReportView {
    match reported(comparison) {
        Some(direction) => report.with_entry(
            direction,
            summary_of_comparison(comparison)->0.entry_text(comparison, title),
        ),
        None => report,
    }
}

/// The pull request whose title is needed to report the comparison, if any.
pub fn title_needed(comparison: &Comparison) -> (result: Option<u32>)
    ensures
        result == if reported(comparison@) is Some {
            comparison@.b.pr
        } else {
            None
        },
{
    match ComparisonSummary::summarize_comparison(comparison) {
        Some(summary) => match summary.direction() {
            Some(_) => comparison.b.pr,
            None => None,
        },
        None => None,
    }
}

/// Adds a comparison to the report, if it has changes that count. The title is that of the
/// pull request that [`title_needed`] gives.
pub fn populate_report(comparison: &Comparison, report: &mut Report, title: &str)
    ensures
        final(report)@ == populated(old(report)@, comparison@, title@),
{
    match ComparisonSummary::summarize_comparison(comparison) {
        Some(summary) => match summary.direction() {
            Some(direction) => {
                report.push(direction, summary.write(comparison, title));
            },
            None => {},
        },
        None => {},
    }
}

/// A pull request that somebody has to look at.
#[derive(Debug)]
pub struct PullRequest {
    pub title: String,
    pub number: u64,
}

/// What a [`PullRequest`] holds.
pub struct PullRequestView {
    pub title: Seq<char>,
    pub number: u64,
}

impl View for PullRequest {
    type V = PullRequestView;

    open spec fn view(&self) -> PullRequestView {
        PullRequestView { title: self.title@, number: self.number }
    }
}

impl PullRequestView {
    /// The pull request as an item of a list, with a link to it.
    pub open spec fn item_text(self) -> Seq<char> {
        "- [#"@ + decimal_text(self.number as nat) + " "@ + self.title
            + "](https://github.com/rust-lang/rust/pull/"@ + decimal_text(self.number as nat)
            + ")"@
    }
}

impl PullRequest {
    fn item(&self) -> (result: String)
        ensures
            result@ == self@.item_text(),
    {
        let number = decimal(self.number);
        let mut text = "- [#".to_owned();
        text.append(number.as_str());
        text.append(" ");
        text.append(self.title.as_str());
        text.append("](https://github.com/rust-lang/rust/pull/");
        text.append(number.as_str());
        text.append(")");
        text
    }
}

/// The list of the pull requests that nobody has looked at, or why there is none.
pub open spec fn untriaged_text(untriaged: Result<Seq<PullRequestView>, Seq<char>>) -> Seq<char> {
    match untriaged {
        Ok(list) => joined_text(
            Seq::new(list.len(), |i: int| list[i].item_text()),
            "\n"@,
        ),
        Err(e) => "An **error** occurred when finding the untriaged PRs: "@ + e,
    }
}

/// The view of what was found, or of why nothing was.
pub open spec fn found_view(untriaged: Result<Vec<PullRequest>, String>) -> Result<
    Seq<PullRequestView>,
    Seq<char>,
> {
    match untriaged {
        Ok(list) => Ok(views(list@)),
        Err(e) => Err(e@),
    }
}

fn untriaged_list(untriaged: &Result<Vec<PullRequest>, String>) -> (result: String)
    ensures
        result@ == untriaged_text(found_view(*untriaged)),
{
    match untriaged {
        Ok(list) => {
            let mut items: Vec<String> = Vec::new();
            let mut i: usize = 0;
            while i < list.len()
                invariant
                    i <= list.len(),
                    items.len() == i,
                    forall|j: int| 0 <= j < i ==> (#[trigger] items[j])@ == list[j]@.item_text(),
                decreases list.len() - i,
            {
                items.push(list[i].item());
                i += 1;
            }
            proof {
                let found = views(list@);
                assert(views(items@) =~= Seq::new(found.len(), |j: int| found[j].item_text()));
            }
            joined(&items, "\n")
        },
        Err(e) => {
            let mut text = "An **error** occurred when finding the untriaged PRs: ".to_owned();
            text.append(e.as_str());
            text
        },
    }
}

/// The head of the report: its date, the range, and how many entries there are.
pub open spec fn head_text(
    date: Seq<char>,
    start: Seq<char>,
    end: Seq<char>,
    report: ReportView,
) -> Seq<char> {
    "# "@ + date + " Triage Log\n\nTODO: Summary\n\nTriage done by **@???**.\nRevision range: ["@
        + start + ".."@ + end + "](https://perf.rust-lang.org/?start="@ + start + "&end="@ + end
        + "&absolute=false&stat=instructions%3Au)\n\n"@ + decimal_text(report.regressions.len())
        + " Regressions, "@ + decimal_text(report.improvements.len()) + " Improvements, "@
        + decimal_text(report.mixed.len()) + " Mixed; ??? of them in rollups\n\n"@
}

/// The body of the report: the entries and the pull requests.
pub open spec fn body_text(report: ReportView, untriaged: Seq<char>) -> Seq<char> {
    "#### Regressions\n\n"@ + joined_text(report.regressions, "\n\n"@)
        + "\n\n#### Improvements\n\n"@ + joined_text(report.improvements, "\n\n"@)
        + "\n\n#### Mixed\n\n"@ + joined_text(report.mixed, "\n\n"@)
        + "\n\n#### Untriaged Pull Requests\n\n"@ + untriaged
        + "\n\n#### Nags requiring follow up\n\nTODO: Nags\n\n"@
}

/// The report in Markdown.
pub open spec fn report_text(
    date: Date,
    start: BoundView,
    end: BoundView,
    report: ReportView,
    untriaged: Result<Seq<PullRequestView>, Seq<char>>,
) -> Seq<char> {
    head_text(date.text(), start.text(), end.text(), report) + body_text(
        report,
        untriaged_text(untriaged),
    )
}

/// The report of the given day in Markdown.
pub fn render_report(
    date: Date,
    start: &Bound,
    end: &Bound,
    report: &Report,
    untriaged: &Result<Vec<PullRequest>, String>,
) -> (result: String)
    ensures
        result@ == report_text(date, start@, end@, report@, found_view(*untriaged)),
{
    let start = start.fmt_bound();
    let end = end.fmt_bound();
    let untriaged = untriaged_list(untriaged);
    let mut text = "# ".to_owned();
    text.append(date.format().as_str());
    text.append(
        " Triage Log\n\nTODO: Summary\n\nTriage done by **@???**.\nRevision range: [",
    );
    text.append(start.as_str());
    text.append("..");
    text.append(end.as_str());
    text.append("](https://perf.rust-lang.org/?start=");
    text.append(start.as_str());
    text.append("&end=");
    text.append(end.as_str());
    text.append("&absolute=false&stat=instructions%3Au)\n\n");
    text.append(decimal(report.regressions.len() as u64).as_str());
    text.append(" Regressions, ");
    text.append(decimal(report.improvements.len() as u64).as_str());
    text.append(" Improvements, ");
    text.append(decimal(report.mixed.len() as u64).as_str());
    text.append(" Mixed; ??? of them in rollups\n\n");
    let ghost head = text@;
    text.append("#### Regressions\n\n");
    text.append(joined(&report.regressions, "\n\n").as_str());
    text.append("\n\n#### Improvements\n\n");
    text.append(joined(&report.improvements, "\n\n").as_str());
    text.append("\n\n#### Mixed\n\n");
    text.append(joined(&report.mixed, "\n\n").as_str());
    text.append("\n\n#### Untriaged Pull Requests\n\n");
    text.append(untriaged.as_str());
    text.append("\n\n#### Nags requiring follow up\n\nTODO: Nags\n\n");
    assert(head == head_text(date.text(), start@, end@, report@));
    assert(text@ =~= head + body_text(report@, untriaged@));
    text
}

/// Whether the text is the report of some day that was read from the clock.
pub open spec fn report_of_some_day(
    text: Seq<char>,
    start: BoundView,
    end: BoundView,
    report: ReportView,
    untriaged: Result<Seq<PullRequestView>, Seq<char>>,
) -> bool {
    exists|day: Date|
        day.valid() && day.read_from_clock() && text == #[trigger] report_text(
            day,
            start,
            end,
            report,
            untriaged,
        )
}

/// Today's report in Markdown. What day it is, the clock of the machine decides.
pub fn generate_report(
    start: &Bound,
    end: &Bound,
    report: &Report,
    untriaged: &Result<Vec<PullRequest>, String>,
) -> (result: String)
    ensures
        report_of_some_day(result@, start@, end@, report@, found_view(*untriaged)),
{
    let today = Date::today();
    render_report(today, start, end, report, untriaged)
}

/// An entry goes to the end of the section for its direction, and the other sections stay.
pub proof fn law_entry_goes_to_its_section(report: ReportView, entry: Seq<char>)
    ensures
        ({
            let after = report.with_entry(Direction::Regression, entry);
            &&& after.regressions == report.regressions.push(entry)
            &&& after.improvements == report.improvements
            &&& after.mixed == report.mixed
        }),
        ({
            let after = report.with_entry(Direction::Improvement, entry);
            &&& after.regressions == report.regressions
            &&& after.improvements == report.improvements.push(entry)
            &&& after.mixed == report.mixed
        }),
        ({
            let after = report.with_entry(Direction::Mixed, entry);
            &&& after.regressions == report.regressions
            &&& after.improvements == report.improvements
            &&& after.mixed == report.mixed.push(entry)
        }),
        ReportView::empty().regressions.len() == 0,
        ReportView::empty().improvements.len() == 0,
        ReportView::empty().mixed.len() == 0,
{
}

/// What a comparison adds to a report: the entry of its summary, in the section for the
/// direction of the summary, where it has a summary and that has a direction, and else nothing.
pub proof fn law_what_is_reported(
    report: ReportView,
    comparison: ComparisonView,
    title: Seq<char>,
)
    ensures
        ({
            let after = populated(report, comparison, title);
            match summary_of_comparison(comparison) {
                None => after == report && reported(comparison) is None,
                Some(summary) => {
                    let entry = summary.entry_text(comparison, title);
                    &&& reported(comparison) == summary.direction()
                    &&& after.regressions == if summary.direction() == Some(
                        Direction::Regression,
                    ) {
                        report.regressions.push(entry)
                    } else {
                        report.regressions
                    }
                    &&& after.improvements == if summary.direction() == Some(
                        Direction::Improvement,
                    ) {
                        report.improvements.push(entry)
                    } else {
                        report.improvements
                    }
                    &&& after.mixed == if summary.direction() == Some(Direction::Mixed) {
                        report.mixed.push(entry)
                    } else {
                        report.mixed
                    }
                },
            }
        }),
{
}

/// How the list of the pull requests reads: one in a line, with its number, its title and a link
/// to it, in their order; and where they could not be found, why.
pub proof fn law_untriaged_reads(
    first: Seq<PullRequestView>,
    second: Seq<PullRequestView>,
    one: PullRequestView,
    error: Seq<char>,
)
    ensures
        untriaged_text(Err(error)) == "An **error** occurred when finding the untriaged PRs: "@
            + error,
        untriaged_text(Ok(Seq::empty())) == Seq::<char>::empty(),
        untriaged_text(Ok(seq![one])) == "- [#"@ + decimal_text(one.number as nat) + " "@
            + one.title + "](https://github.com/rust-lang/rust/pull/"@ + decimal_text(
            one.number as nat,
        ) + ")"@,
        first.len() > 0 && second.len() > 0 ==> untriaged_text(Ok(first + second))
            == untriaged_text(Ok(first)) + "\n"@ + untriaged_text(Ok(second)),
{
    let items = |list: Seq<PullRequestView>| Seq::new(list.len(), |i: int| list[i].item_text());
    law_joined_is_made_of_its_parts(items(first), items(second), one.item_text(), "\n"@);
    assert(items(first + second) =~= items(first) + items(second));
    assert(items(seq![one]) =~= seq![one.item_text()]);
    assert(items(Seq::empty()) =~= Seq::empty());
}

/// How a report reads: the day, the range with a link to it, how many entries each section has,
/// and then under the heading of each section all its entries, with an empty line between each
/// two; and the pull requests that nobody has looked at.
pub proof fn law_report_reads(
    date: Date,
    start: BoundView,
    end: BoundView,
    report: ReportView,
    untriaged: Result<Seq<PullRequestView>, Seq<char>>,
)
    ensures
        report_text(date, start, end, report, untriaged) == ("# "@ + date.text()
            + " Triage Log\n\nTODO: Summary\n\nTriage done by **@???**.\nRevision range: ["@
            + start.text() + ".."@ + end.text() + "](https://perf.rust-lang.org/?start="@
            + start.text() + "&end="@ + end.text()
            + "&absolute=false&stat=instructions%3Au)\n\n"@ + decimal_text(
            report.regressions.len(),
        ) + " Regressions, "@ + decimal_text(report.improvements.len()) + " Improvements, "@
            + decimal_text(report.mixed.len()) + " Mixed; ??? of them in rollups\n\n"@) + (
        "#### Regressions\n\n"@ + joined_text(report.regressions, "\n\n"@)
            + "\n\n#### Improvements\n\n"@ + joined_text(report.improvements, "\n\n"@)
            + "\n\n#### Mixed\n\n"@ + joined_text(report.mixed, "\n\n"@)
            + "\n\n#### Untriaged Pull Requests\n\n"@ + untriaged_text(untriaged)
            + "\n\n#### Nags requiring follow up\n\nTODO: Nags\n\n"@),
{
}

/// Every entry of a report stands in its text, and so does every pull request that nobody has
/// looked at.
pub proof fn law_every_entry_is_in_the_report(
    date: Date,
    start: BoundView,
    end: BoundView,
    report: ReportView,
    untriaged: Result<Seq<PullRequestView>, Seq<char>>,
    i: int,
)
    ensures
        ({
            let text = report_text(date, start, end, report, untriaged);
            &&& 0 <= i < report.regressions.len() ==> stands_in(report.regressions[i], text)
            &&& 0 <= i < report.improvements.len() ==> stands_in(report.improvements[i], text)
            &&& 0 <= i < report.mixed.len() ==> stands_in(report.mixed[i], text)
            &&& untriaged matches Ok(list) ==> (0 <= i < list.len() ==> stands_in(
                untriaged_text(Ok(seq![list[i]])),
                text,
            ))
            &&& untriaged matches Err(e) ==> stands_in(e, text)
        }),
{
    let gap = "\n\n"@;
    if 0 <= i < report.regressions.len() {
        law_each_part_is_joined(report.regressions, gap, i);
        lemma_in_regressions(date, start, end, report, untriaged, report.regressions[i]);
    }
    if 0 <= i < report.improvements.len() {
        law_each_part_is_joined(report.improvements, gap, i);
        lemma_in_improvements(date, start, end, report, untriaged, report.improvements[i]);
    }
    if 0 <= i < report.mixed.len() {
        law_each_part_is_joined(report.mixed, gap, i);
        lemma_in_mixed(date, start, end, report, untriaged, report.mixed[i]);
    }
    match untriaged {
        Ok(list) => {
            if 0 <= i < list.len() {
                let items = Seq::new(list.len(), |k: int| list[k].item_text());
                law_each_part_is_joined(items, "\n"@, i);
                law_untriaged_reads(list, list, list[i], gap);
                lemma_in_untriaged(date, start, end, report, untriaged, items[i]);
            }
        },
        Err(e) => {
            let why = "An **error** occurred when finding the untriaged PRs: "@;
            lemma_stands_in_itself(e);
            lemma_stands_in(e, e, why, Seq::empty());
            lemma_in_untriaged(date, start, end, report, untriaged, e);
        },
    }
}

/// The text of a report up to the heading of the improvements.
spec fn up_to_regressions(report: ReportView) -> Seq<char> {
    "#### Regressions\n\n"@ + joined_text(report.regressions, "\n\n"@)
        + "\n\n#### Improvements\n\n"@
}

/// The text of a report, without its head, up to the heading of the mixed changes.
spec fn up_to_improvements(report: ReportView) -> Seq<char> {
    up_to_regressions(report) + joined_text(report.improvements, "\n\n"@)
        + "\n\n#### Mixed\n\n"@
}

/// The text of a report, without its head, up to the heading of the pull requests.
spec fn up_to_mixed(report: ReportView) -> Seq<char> {
    up_to_improvements(report) + joined_text(report.mixed, "\n\n"@)
        + "\n\n#### Untriaged Pull Requests\n\n"@
}

/// What stands in the text up to the heading of the pull requests stands in the report.
proof fn lemma_in_sections(
    date: Date,
    start: BoundView,
    end: BoundView,
    report: ReportView,
    untriaged: Result<Seq<PullRequestView>, Seq<char>>,
    part: Seq<char>,
)
    requires
        stands_in(part, up_to_mixed(report)),
    ensures
        stands_in(part, report_text(date, start, end, report, untriaged)),
{
    let none = Seq::<char>::empty();
    let found = untriaged_text(untriaged);
    let nags = "\n\n#### Nags requiring follow up\n\nTODO: Nags\n\n"@;
    let head = head_text(date.text(), start.text(), end.text(), report);
    lemma_stands_in(part, up_to_mixed(report), none, found);
    lemma_stands_in(part, up_to_mixed(report) + found, none, nags);
    lemma_stands_in(part, up_to_mixed(report) + found + nags, head, none);
}

proof fn lemma_in_regressions(
    date: Date,
    start: BoundView,
    end: BoundView,
    report: ReportView,
    untriaged: Result<Seq<PullRequestView>, Seq<char>>,
    part: Seq<char>,
)
    requires
        stands_in(part, joined_text(report.regressions, "\n\n"@)) || stands_in(
            part,
            up_to_regressions(report),
        ),
    ensures
        stands_in(part, report_text(date, start, end, report, untriaged)),
{
    let none = Seq::<char>::empty();
    if stands_in(part, joined_text(report.regressions, "\n\n"@)) {
        lemma_stands_in(
            part,
            joined_text(report.regressions, "\n\n"@),
            "#### Regressions\n\n"@,
            "\n\n#### Improvements\n\n"@,
        );
    }
    let improvements = joined_text(report.improvements, "\n\n"@);
    lemma_stands_in(part, up_to_regressions(report), none, improvements);
    lemma_stands_in(
        part,
        up_to_regressions(report) + improvements,
        none,
        "\n\n#### Mixed\n\n"@,
    );
    lemma_up_to_mixed(report, part);
    lemma_in_sections(date, start, end, report, untriaged, part);
}

proof fn lemma_up_to_mixed(report: ReportView, part: Seq<char>)
    requires
        stands_in(part, up_to_improvements(report)),
    ensures
        stands_in(part, up_to_mixed(report)),
{
    let none = Seq::<char>::empty();
    let mixed = joined_text(report.mixed, "\n\n"@);
    lemma_stands_in(part, up_to_improvements(report), none, mixed);
    lemma_stands_in(
        part,
        up_to_improvements(report) + mixed,
        none,
        "\n\n#### Untriaged Pull Requests\n\n"@,
    );
}

proof fn lemma_in_improvements(
    date: Date,
    start: BoundView,
    end: BoundView,
    report: ReportView,
    untriaged: Result<Seq<PullRequestView>, Seq<char>>,
    part: Seq<char>,
)
    requires
        stands_in(part, joined_text(report.improvements, "\n\n"@)) || stands_in(
            part,
            up_to_improvements(report),
        ),
    ensures
        stands_in(part, report_text(date, start, end, report, untriaged)),
{
    if stands_in(part, joined_text(report.improvements, "\n\n"@)) {
        lemma_stands_in(
            part,
            joined_text(report.improvements, "\n\n"@),
            up_to_regressions(report),
            "\n\n#### Mixed\n\n"@,
        );
    }
    lemma_up_to_mixed(report, part);
    lemma_in_sections(date, start, end, report, untriaged, part);
}

proof fn lemma_in_mixed(
    date: Date,
    start: BoundView,
    end: BoundView,
    report: ReportView,
    untriaged: Result<Seq<PullRequestView>, Seq<char>>,
    part: Seq<char>,
)
    requires
        stands_in(part, joined_text(report.mixed, "\n\n"@)),
    ensures
        stands_in(part, report_text(date, start, end, report, untriaged)),
{
    lemma_stands_in(
        part,
        joined_text(report.mixed, "\n\n"@),
        up_to_improvements(report),
        "\n\n#### Untriaged Pull Requests\n\n"@,
    );
    lemma_in_sections(date, start, end, report, untriaged, part);
}

proof fn lemma_in_untriaged(
    date: Date,
    start: BoundView,
    end: BoundView,
    report: ReportView,
    untriaged: Result<Seq<PullRequestView>, Seq<char>>,
    part: Seq<char>,
)
    requires
        stands_in(part, untriaged_text(untriaged)),
    ensures
        stands_in(part, report_text(date, start, end, report, untriaged)),
{
    let none = Seq::<char>::empty();
    let found = untriaged_text(untriaged);
    let nags = "\n\n#### Nags requiring follow up\n\nTODO: Nags\n\n"@;
    let head = head_text(date.text(), start.text(), end.text(), report);
    lemma_stands_in(part, found, up_to_mixed(report), nags);
    lemma_stands_in(part, up_to_mixed(report) + found + nags, head, none);
}

/// In the text of a report all the entries of a section, with an empty line between each two,
/// and nothing else, stand between its heading and the next one.
pub proof fn law_sections_stand_under_their_headings(
    date: Date,
    start: BoundView,
    end: BoundView,
    report: ReportView,
    untriaged: Result<Seq<PullRequestView>, Seq<char>>,
)
    ensures
        ({
            let text = report_text(date, start, end, report, untriaged);
            &&& stands_in(
                "#### Regressions\n\n"@ + joined_text(report.regressions, "\n\n"@)
                    + "\n\n#### Improvements\n\n"@,
                text,
            )
            &&& stands_in(
                "\n\n#### Improvements\n\n"@ + joined_text(report.improvements, "\n\n"@)
                    + "\n\n#### Mixed\n\n"@,
                text,
            )
            &&& stands_in(
                "\n\n#### Mixed\n\n"@ + joined_text(report.mixed, "\n\n"@)
                    + "\n\n#### Untriaged Pull Requests\n\n"@,
                text,
            )
            &&& stands_in(
                "\n\n#### Untriaged Pull Requests\n\n"@ + untriaged_text(untriaged)
                    + "\n\n#### Nags requiring follow up\n\nTODO: Nags\n\n"@,
                text,
            )
        }),
{
    let none = Seq::<char>::empty();
    let h1 = "#### Regressions\n\n"@;
    let h2 = "\n\n#### Improvements\n\n"@;
    let h3 = "\n\n#### Mixed\n\n"@;
    let h4 = "\n\n#### Untriaged Pull Requests\n\n"@;
    let h5 = "\n\n#### Nags requiring follow up\n\nTODO: Nags\n\n"@;
    let regressions = joined_text(report.regressions, "\n\n"@);
    let improvements = joined_text(report.improvements, "\n\n"@);
    let mixed = joined_text(report.mixed, "\n\n"@);
    let found = untriaged_text(untriaged);
    lemma_stands_in_itself(up_to_regressions(report));
    lemma_in_regressions(date, start, end, report, untriaged, up_to_regressions(report));
    let second = h2 + improvements + h3;
    assert((h1 + regressions) + second + none =~= up_to_improvements(report));
    lemma_in_improvements(date, start, end, report, untriaged, second);
    let third = h3 + mixed + h4;
    assert((up_to_regressions(report) + improvements) + third + none =~= up_to_mixed(report));
    lemma_in_sections(date, start, end, report, untriaged, third);
    let fourth = h4 + found + h5;
    let body = up_to_mixed(report) + found + h5;
    assert((up_to_improvements(report) + mixed) + fourth + none =~= body);
    let head = head_text(date.text(), start.text(), end.text(), report);
    lemma_stands_in(fourth, body, head, none);
}

/// What the head of a report tells: it starts with the day, and names the range and how many
/// entries each section has.
pub proof fn law_head_tells(
    date: Date,
    start: BoundView,
    end: BoundView,
    report: ReportView,
    untriaged: Result<Seq<PullRequestView>, Seq<char>>,
)
    ensures
        ({
            let text = report_text(date, start, end, report, untriaged);
            &&& ("# "@ + date.text()).is_prefix_of(text)
            &&& stands_in(start.text() + ".."@ + end.text(), text)
            &&& stands_in("?start="@ + start.text() + "&end="@ + end.text(), text)
            &&& stands_in(decimal_text(report.regressions.len()) + " Regressions, "@, text)
            &&& stands_in(decimal_text(report.improvements.len()) + " Improvements, "@, text)
            &&& stands_in(
                decimal_text(report.mixed.len()) + " Mixed; ??? of them in rollups\n\n"@,
                text,
            )
        }),
{
    let none = Seq::<char>::empty();
    let body = body_text(report, untriaged_text(untriaged));
    let head = head_text(date.text(), start.text(), end.text(), report);
    let r = decimal_text(report.regressions.len());
    let i = decimal_text(report.improvements.len());
    let m = decimal_text(report.mixed.len());
    let rw = " Regressions, "@;
    let iw = " Improvements, "@;
    let mw = " Mixed; ??? of them in rollups\n\n"@;
    let stat = "&absolute=false&stat=instructions%3Au)\n\n"@;
    let range = start.text() + ".."@ + end.text();
    let link = "?start="@ + start.text() + "&end="@ + end.text();
    let b = "# "@ + date.text()
        + " Triage Log\n\nTODO: Summary\n\nTriage done by **@???**.\nRevision range: ["@
        + start.text() + ".."@ + end.text();
    let c = b + "](https://perf.rust-lang.org/?start="@ + start.text() + "&end="@ + end.text();
    let d = c + stat + r + rw;
    let e = d + i + iw;
    lemma_range_stands_in(date.text(), start.text(), end.text());
    lemma_link_stands_in(b, start.text(), end.text());
    lemma_pair_stands_in(c + stat, r, rw);
    lemma_pair_stands_in(d, i, iw);
    lemma_pair_stands_in(e, m, mw);
    lemma_in_head(
        range,
        b,
        "](https://perf.rust-lang.org/?start="@,
        start.text(),
        "&end="@,
        end.text(),
    );
    lemma_in_counts(range, c, stat, r, rw);
    lemma_in_counts(link, c, stat, r, rw);
    lemma_in_head(range, d, i, iw, m, mw);
    lemma_in_head(link, d, i, iw, m, mw);
    lemma_in_head(r + rw, d, i, iw, m, mw);
    lemma_stands_in(i + iw, e, none, m);
    lemma_stands_in(i + iw, e + m, none, mw);
    lemma_stands_in(range, head, none, body);
    lemma_stands_in(link, head, none, body);
    lemma_stands_in(r + rw, head, none, body);
    lemma_stands_in(i + iw, head, none, body);
    lemma_stands_in(m + mw, head, none, body);
    let first = "# "@ + date.text();
    lemma_still_first(
        first,
        first,
        " Triage Log\n\nTODO: Summary\n\nTriage done by **@???**.\nRevision range: ["@,
        start.text(),
        ".."@,
        end.text(),
    );
    lemma_still_first(
        first,
        b,
        "](https://perf.rust-lang.org/?start="@,
        start.text(),
        "&end="@,
        end.text(),
    );
    lemma_first_of_longer(first, c, stat);
    lemma_first_of_longer(first, c + stat, r);
    lemma_first_of_longer(first, c + stat + r, rw);
    lemma_still_first(first, d, i, iw, m, mw);
    lemma_first_of_longer(first, head, body);
}

/// The range stands in the text that ends with it.
proof fn lemma_range_stands_in(date: Seq<char>, start: Seq<char>, end: Seq<char>)
    ensures
        stands_in(
            start + ".."@ + end,
            "# "@ + date
                + " Triage Log\n\nTODO: Summary\n\nTriage done by **@???**.\nRevision range: ["@
                + start + ".."@ + end,
        ),
{
    let none = Seq::<char>::empty();
    let before = "# "@ + date
        + " Triage Log\n\nTODO: Summary\n\nTriage done by **@???**.\nRevision range: ["@;
    assert(before + (start + ".."@ + end) + none =~= before + start + ".."@ + end);
}

/// The link to the range stands in the text that ends with it.
proof fn lemma_link_stands_in(before: Seq<char>, start: Seq<char>, end: Seq<char>)
    ensures
        stands_in(
            "?start="@ + start + "&end="@ + end,
            before + "](https://perf.rust-lang.org/?start="@ + start + "&end="@ + end,
        ),
{
    let none = Seq::<char>::empty();
    let site = "](https://perf.rust-lang.org/?start="@;
    reveal_strlit("?start=");
    reveal_strlit("](https://perf.rust-lang.org/?start=");
    let cut = site.take(site.len() - 7);
    assert(cut + "?start="@ =~= site);
    assert((before + cut) + ("?start="@ + start + "&end="@ + end) + none =~= before + site + start
        + "&end="@ + end);
}

/// The last two parts of a text stand in it together.
proof fn lemma_pair_stands_in(before: Seq<char>, a: Seq<char>, b: Seq<char>)
    ensures
        stands_in(a + b, before + a + b),
{
    assert(before + (a + b) + Seq::<char>::empty() =~= before + a + b);
}

/// What stands in a text stands in it also where three more parts follow.
proof fn lemma_in_counts(
    part: Seq<char>,
    text: Seq<char>,
    a: Seq<char>,
    b: Seq<char>,
    c: Seq<char>,
)
    requires
        stands_in(part, text),
    ensures
        stands_in(part, text + a + b + c),
{
    let none = Seq::<char>::empty();
    lemma_stands_in(part, text, none, a);
    lemma_stands_in(part, text + a, none, b);
    lemma_stands_in(part, text + a + b, none, c);
}

/// What stands in a text stands in it also where four more parts follow.
proof fn lemma_in_head(
    part: Seq<char>,
    text: Seq<char>,
    a: Seq<char>,
    b: Seq<char>,
    c: Seq<char>,
    d: Seq<char>,
)
    requires
        stands_in(part, text),
    ensures
        stands_in(part, text + a + b + c + d),
{
    lemma_in_counts(part, text, a, b, c);
    lemma_stands_in(part, text + a + b + c, Seq::empty(), d);
}

/// What a text starts with, a longer text starts with too.
proof fn lemma_first_of_longer(first: Seq<char>, text: Seq<char>, more: Seq<char>)
    requires
        first.is_prefix_of(text),
    ensures
        first.is_prefix_of(text + more),
{
    assert((text + more).subrange(0, first.len() as int) =~= text.subrange(
        0,
        first.len() as int,
    ));
}

proof fn lemma_still_first(
    first: Seq<char>,
    text: Seq<char>,
    a: Seq<char>,
    b: Seq<char>,
    c: Seq<char>,
    d: Seq<char>,
)
    requires
        first.is_prefix_of(text) || first == text,
    ensures
        first.is_prefix_of(text + a + b + c + d),
{
    assert(first == text ==> first =~= text.subrange(0, first.len() as int));
    lemma_first_of_longer(first, text, a);
    lemma_first_of_longer(first, text + a, b);
    lemma_first_of_longer(first, text + a + b, c);
    lemma_first_of_longer(first, text + a + b + c, d);
}

/// One more entry makes the text of its section longer by an empty line and the entry, or by the
/// entry alone where it is the first; so no entry replaces another.
pub proof fn law_sections_grow(entries: Seq<Seq<char>>, entry: Seq<char>)
    ensures
        joined_text(entries.push(entry), "\n\n"@) == if entries.len() == 0 {
            entry
        } else {
            joined_text(entries, "\n\n"@) + "\n\n"@ + entry
        },
{
    law_joined_is_made_of_its_parts(entries, seq![entry], entry, "\n\n"@);
    assert(entries.push(entry) =~= entries + seq![entry]);
    if entries.len() == 0 {
        assert(entries.push(entry) =~= seq![entry]);
    }
}

/// A report of some day is the text of the report for a day that was read from the clock.
pub proof fn law_report_of_some_day(
    text: Seq<char>,
    start: BoundView,
    end: BoundView,
    report: ReportView,
    untriaged: Result<Seq<PullRequestView>, Seq<char>>,
) -> (day: Date)
    requires
        report_of_some_day(text, start, end, report, untriaged),
    ensures
        day.valid(),
        day.read_from_clock(),
        text == report_text(day, start, end, report, untriaged),
{
    choose|day: Date|
        day.valid() && day.read_from_clock() && text == #[trigger] report_text(
            day,
            start,
            end,
            report,
            untriaged,
        )
}

/// What is known of the pull requests that were found is what they hold, and of a failure why
/// it came.
pub proof fn law_found_is_what_it_holds(untriaged: Result<Vec<PullRequest>, String>, i: int)
    ensures
        untriaged matches Err(e) ==> found_view(untriaged) == Err::<Seq<PullRequestView>, _>(e@),
        untriaged matches Ok(list) ==> (found_view(untriaged) matches Ok(found) && {
            &&& found.len() == list.len()
            &&& 0 <= i < list.len() ==> found[i].title == list[i].title@ && found[i].number
                == list[i].number
        }),
{
}

} // verus!
