//! The strict line-by-line parser over the `dnf upgrade` transaction table.
//!
//! Each state names exactly what the next line may be; any line that does
//! not fit the state is an error. At the end the sections parsed must
//! reproduce the Transaction Summary exactly.
use vstd::prelude::*;
use crate::error::{debug_repr, line_error_text, push_debug, LineError, LineErrorView};
use crate::number::{decimal, push_decimal};
use crate::size::{DnfSize, SizeView};
use crate::table::{
    column_header_chars, group_of, group_of_chars, header_of, header_text, is_column_header_line,
    normalize_chars, package_row, spec_normalize_version, spec_parse_package_row,
    spec_parse_summary_count, summary_count, RowView, SummaryGroup,
};
use crate::sort::{insert_pos, lemma_insert_sorted, lex_lt, sort_by, str_lt};
use crate::text::{
    chars_eq, chars_of, chars_start_with, seqs_of, split_words, starts_with, string_of, trim,
    trim_bounds, words,
};

verus! {

/// One package that the transaction upgrades.
#[derive(Debug)]
pub struct PackageUpdate {
    pub name: String,
    pub arch: String,
    pub old_version: String,
    pub new_version: String,
    pub old_repo: String,
    pub new_repo: String,
    pub download_size: DnfSize,
}

pub ghost struct UpdateView {
    pub name: Seq<char>,
    pub arch: Seq<char>,
    pub old_version: Seq<char>,
    pub new_version: Seq<char>,
    pub old_repo: Seq<char>,
    pub new_repo: Seq<char>,
    pub download_size: SizeView,
}

impl View for PackageUpdate {
    type V = UpdateView;

    open spec fn view(&self) -> UpdateView {
        UpdateView {
            name: self.name@,
            arch: self.arch@,
            old_version: self.old_version@,
            new_version: self.new_version@,
            old_repo: self.old_repo@,
            new_repo: self.new_repo@,
            download_size: self.download_size@,
        }
    }
}

impl Clone for PackageUpdate {
    fn clone(&self) -> (r: Self)
        ensures
            r@ == self@,
    {
        PackageUpdate {
            name: self.name.clone(),
            arch: self.arch.clone(),
            old_version: self.old_version.clone(),
            new_version: self.new_version.clone(),
            old_repo: self.old_repo.clone(),
            new_repo: self.new_repo.clone(),
            download_size: self.download_size.clone(),
        }
    }
}

/// The models of a sequence of updates.
pub open spec fn update_views(s: Seq<PackageUpdate>) -> Seq<UpdateView> {
    s.map_values(|u: PackageUpdate| u@)
}

/// What the parser expects of the next line.
#[derive(Debug)]
pub enum State {
    /// Before anything: the column header, `Nothing to do.`, or blanks.
    Header,
    /// Just after the column header: the first section header.
    ExpectSection,
    /// Inside a section: a package line, a new section header, or the
    /// blank line before the summary. `group` is the summary bucket the
    /// section counts toward; `upgrading` holds only for `Upgrading:`,
    /// whose package lines carry a `replacing` sub-line.
    Section { group: SummaryGroup, upgrading: bool },
    /// Just after an upgrade package line: its `replacing` sub-line,
    /// naming `name`.
    Replacing { name: String },
    /// After the blank line that ends the sections: `Transaction Summary:`.
    SummaryHeader,
    /// Inside the summary: ` Label: N package(s)` lines, a blank, or the end.
    Summary,
    /// After the trailing blank: only more blank lines.
    End,
}

pub ghost enum StateView {
    Header,
    ExpectSection,
    Section { group: SummaryGroup, upgrading: bool },
    Replacing { name: Seq<char> },
    SummaryHeader,
    Summary,
    End,
}

impl View for State {
    type V = StateView;

    open spec fn view(&self) -> StateView {
        match self {
            State::Header => StateView::Header,
            State::ExpectSection => StateView::ExpectSection,
            State::Section { group, upgrading } => StateView::Section {
                group: *group,
                upgrading: *upgrading,
            },
            State::Replacing { name } => StateView::Replacing { name: name@ },
            State::SummaryHeader => StateView::SummaryHeader,
            State::Summary => StateView::Summary,
            State::End => StateView::End,
        }
    }
}

/// Package lines seen per summary bucket.
#[derive(Clone, Copy, Debug)]
pub struct GroupCounts {
    pub installing: usize,
    pub upgrading: usize,
    pub downgrading: usize,
    pub reinstalling: usize,
    pub removing: usize,
}

pub ghost struct CountsView {
    pub installing: nat,
    pub upgrading: nat,
    pub downgrading: nat,
    pub reinstalling: nat,
    pub removing: nat,
}

impl View for GroupCounts {
    type V = CountsView;

    open spec fn view(&self) -> CountsView {
        CountsView {
            installing: self.installing as nat,
            upgrading: self.upgrading as nat,
            downgrading: self.downgrading as nat,
            reinstalling: self.reinstalling as nat,
            removing: self.removing as nat,
        }
    }
}

impl CountsView {
    /// One more package line in bucket `g`.
    pub open spec fn bump(self, g: SummaryGroup) -> CountsView {
        CountsView {
            installing: if g == SummaryGroup::Installing {
                self.installing + 1
            } else {
                self.installing
            },
            upgrading: if g == SummaryGroup::Upgrading {
                self.upgrading + 1
            } else {
                self.upgrading
            },
            downgrading: if g == SummaryGroup::Downgrading {
                self.downgrading + 1
            } else {
                self.downgrading
            },
            reinstalling: if g == SummaryGroup::Reinstalling {
                self.reinstalling + 1
            } else {
                self.reinstalling
            },
            removing: if g == SummaryGroup::Removing {
                self.removing + 1
            } else {
                self.removing
            },
        }
    }

    pub open spec fn total(self) -> nat {
        self.installing + self.upgrading + self.downgrading + self.reinstalling + self.removing
    }

    pub open spec fn zero() -> CountsView {
        CountsView { installing: 0, upgrading: 0, downgrading: 0, reinstalling: 0, removing: 0 }
    }
}

impl GroupCounts {
    pub fn new() -> (c: GroupCounts)
        ensures
            c@ == CountsView::zero(),
    {
        GroupCounts { installing: 0, upgrading: 0, downgrading: 0, reinstalling: 0, removing: 0 }
    }

    /// Counts one more package line in bucket `g`.
    pub fn bump(&mut self, g: SummaryGroup)
        requires
            old(self)@.total() < usize::MAX,
        ensures
            final(self)@ == old(self)@.bump(g),
    {
        match g {
            SummaryGroup::Installing => self.installing = self.installing + 1,
            SummaryGroup::Upgrading => self.upgrading = self.upgrading + 1,
            SummaryGroup::Downgrading => self.downgrading = self.downgrading + 1,
            SummaryGroup::Reinstalling => self.reinstalling = self.reinstalling + 1,
            SummaryGroup::Removing => self.removing = self.removing + 1,
        }
    }
}

/// The model of the parser: its state, the upgrades found, the package
/// lines seen per bucket, the summary lines read (label and count, in
/// order), and the number of `replacing` sub-lines.
pub ghost struct ParserView {
    pub state: StateView,
    pub updates: Seq<UpdateView>,
    pub counts: CountsView,
    pub summary: Seq<(Seq<char>, nat)>,
    pub replacing: nat,
}

impl ParserView {
    pub open spec fn with_state(self, s: StateView) -> ParserView {
        ParserView {
            state: s,
            updates: self.updates,
            counts: self.counts,
            summary: self.summary,
            replacing: self.replacing,
        }
    }

    /// No summary label occurs twice, and an upgrade is pending whenever a
    /// `replacing` sub-line is expected.
    pub open spec fn wf(self) -> bool {
        &&& labels_distinct(self.summary)
        &&& (self.state is Replacing ==> self.updates.len() > 0)
    }

    /// The counters can take one more line without overflow.
    pub open spec fn has_room(self) -> bool {
        self.counts.total() + self.replacing < usize::MAX
    }
}

/// No label occurs twice among the summary lines.
pub open spec fn labels_distinct(s: Seq<(Seq<char>, nat)>) -> bool {
    forall|i: int, j: int| 0 <= i < s.len() && 0 <= j < s.len() && i != j ==> s[i].0 != s[j].0
}

/// Where the label `l` occurs among the summary lines.
pub open spec fn label_index(s: Seq<(Seq<char>, nat)>, l: Seq<char>) -> Option<int>
    decreases s.len(),
{
    if s.len() == 0 {
        None
    } else if s[0].0 == l {
        Some(0)
    } else {
        match label_index(s.drop_first(), l) {
            Some(i) => Some(i + 1),
            None => None,
        }
    }
}

pub proof fn lemma_label_index(s: Seq<(Seq<char>, nat)>, l: Seq<char>)
    ensures
        label_index(s, l) matches Some(i) ==> 0 <= i < s.len() && s[i].0 == l,
        label_index(s, l) is None ==> forall|i: int| 0 <= i < s.len() ==> #[trigger] s[i].0 != l,
    decreases s.len(),
{
    if s.len() > 0 && s[0].0 != l {
        lemma_label_index(s.drop_first(), l);
        if label_index(s, l) is None {
            assert forall|i: int| 0 <= i < s.len() implies #[trigger] s[i].0 != l by {
                if i > 0 {
                    assert(s[i] == s.drop_first()[i - 1]);
                }
            }
        }
    }
}

/// The parser before any line.
pub open spec fn initial_view() -> ParserView {
    ParserView {
        state: StateView::Header,
        updates: seq![],
        counts: CountsView::zero(),
        summary: seq![],
        replacing: 0,
    }
}

/// The upgrade an `Upgrading:` package line announces, before its
/// `replacing` sub-line fills in the old version and repository.
pub open spec fn update_from_row(row: RowView) -> UpdateView {
    UpdateView {
        name: row.name,
        arch: row.arch,
        old_version: seq![],
        new_version: spec_normalize_version(row.version),
        old_repo: seq![],
        new_repo: row.repo,
        download_size: row.size,
    }
}

/// Before the table: blank lines stay, the column header starts the table,
/// `Nothing to do.` (trimmed) ends the output.
pub open spec fn spec_on_header(line: Seq<char>) -> Result<StateView, LineErrorView> {
    if line.len() == 0 {
        Ok(StateView::Header)
    } else if is_column_header_line(line) {
        Ok(StateView::ExpectSection)
    } else if trim(line) == "Nothing to do."@ {
        Ok(StateView::End)
    } else {
        Err(LineErrorView::ExpectedColumnHeader)
    }
}

/// The state a known section header opens.
pub open spec fn section_state(name: Seq<char>) -> Result<StateView, LineErrorView> {
    match group_of(name) {
        None => Err(LineErrorView::UnknownSectionHeader { name }),
        Some(g) => Ok(StateView::Section { group: g, upgrading: name == "Upgrading"@ }),
    }
}

/// After the column header: a known section header.
pub open spec fn spec_on_expect_section(line: Seq<char>) -> Result<StateView, LineErrorView> {
    match header_text(line) {
        None => Err(LineErrorView::ExpectedSectionHeader),
        Some(name) => section_state(name),
    }
}

/// Inside a section: the blank line before the summary, another section
/// header, or a package line, which counts in the section's bucket and,
/// in `Upgrading:`, starts an update.
pub open spec fn spec_on_section(p: ParserView, line: Seq<char>, group: SummaryGroup, upgrading: bool) -> (
    ParserView,
    Result<StateView, LineErrorView>,
) {
    if line.len() == 0 {
        (p, Ok(StateView::SummaryHeader))
    } else {
        match header_text(line) {
            Some(name) => (p, section_state(name)),
            None => match spec_parse_package_row(line) {
                Err(e) => (p, Err(e)),
                Ok(row) => {
                    let q = ParserView {
                        state: p.state,
                        updates: if upgrading {
                            p.updates.push(update_from_row(row))
                        } else {
                            p.updates
                        },
                        counts: p.counts.bump(group),
                        summary: p.summary,
                        replacing: p.replacing,
                    };
                    if upgrading {
                        (q, Ok(StateView::Replacing { name: row.name }))
                    } else {
                        (q, Ok(StateView::Section { group, upgrading }))
                    }
                },
            },
        }
    }
}

/// The start of a `replacing` sub-line.
pub open spec fn replacing_prefix() -> Seq<char> {
    "   replacing "@
}

/// A `replacing` sub-line for the package `name`: the prefix, then six
/// fields of which the first is `name`.
pub open spec fn replacing_line_valid(line: Seq<char>, name: Seq<char>) -> bool {
    &&& starts_with(line, replacing_prefix())
    &&& words(line.skip(replacing_prefix().len() as int)).len() == 6
    &&& words(line.skip(replacing_prefix().len() as int))[0] == name
}

/// After an upgrade package line: its `replacing` sub-line, with six
/// fields and the same package name, gives the update its old version and
/// repository.
pub open spec fn spec_on_replacing(p: ParserView, line: Seq<char>, name: Seq<char>) -> (
    ParserView,
    Result<StateView, LineErrorView>,
) {
    if !starts_with(line, replacing_prefix()) {
        (p, Err(LineErrorView::MissingReplacing { name }))
    } else {
        let f = words(line.skip(replacing_prefix().len() as int));
        if f.len() != 6 {
            (p, Err(LineErrorView::ReplacingFieldCount { count: f.len() }))
        } else if f[0] != name {
            (p, Err(LineErrorView::ReplacingNameMismatch { found: f[0], expected: name }))
        } else {
            let last = p.updates.last();
            let u = UpdateView {
                name: last.name,
                arch: last.arch,
                old_version: spec_normalize_version(f[2]),
                new_version: last.new_version,
                old_repo: f[3],
                new_repo: last.new_repo,
                download_size: last.download_size,
            };
            (
                ParserView {
                    state: p.state,
                    updates: p.updates.update(p.updates.len() - 1, u),
                    counts: p.counts,
                    summary: p.summary,
                    replacing: p.replacing + 1,
                },
                Ok(StateView::Section { group: SummaryGroup::Upgrading, upgrading: true }),
            )
        }
    }
}

/// After the sections: the `Transaction Summary:` header.
pub open spec fn spec_on_summary_header(line: Seq<char>) -> Result<StateView, LineErrorView> {
    if header_text(line) == Some("Transaction Summary"@) {
        Ok(StateView::Summary)
    } else {
        Err(LineErrorView::ExpectedSummaryHeader)
    }
}

/// Inside the summary: a blank line ends it; a count line records its
/// label and count, and a label seen before is an error (its count is
/// replaced all the same).
pub open spec fn spec_on_summary(p: ParserView, line: Seq<char>) -> (
    ParserView,
    Result<StateView, LineErrorView>,
) {
    if line.len() == 0 {
        (p, Ok(StateView::End))
    } else {
        match spec_parse_summary_count(line) {
            Err(e) => (p, Err(e)),
            Ok((label, count)) => match label_index(p.summary, label) {
                Some(i) => (
                    ParserView {
                        state: p.state,
                        updates: p.updates,
                        counts: p.counts,
                        summary: p.summary.update(i, (label, count)),
                        replacing: p.replacing,
                    },
                    Err(LineErrorView::DuplicateSummaryLabel { label }),
                ),
                None => (
                    ParserView {
                        state: p.state,
                        updates: p.updates,
                        counts: p.counts,
                        summary: p.summary.push((label, count)),
                        replacing: p.replacing,
                    },
                    Ok(StateView::Summary),
                ),
            },
        }
    }
}

/// After the summary: only blank lines.
pub open spec fn spec_on_end(line: Seq<char>) -> Result<StateView, LineErrorView> {
    if line.len() == 0 {
        Ok(StateView::End)
    } else {
        Err(LineErrorView::ContentAfterSummary)
    }
}

/// The parser after a handler's outcome: the next state, or on an error
/// the `Header` state and the error.
pub open spec fn settle(q: ParserView, r: Result<StateView, LineErrorView>) -> (
    ParserView,
    Option<LineErrorView>,
) {
    match r {
        Ok(s) => (q.with_state(s), None),
        Err(e) => (q.with_state(StateView::Header), Some(e)),
    }
}

/// What feeding one line does to the parser.
pub open spec fn spec_feed(p: ParserView, line: Seq<char>) -> (ParserView, Option<LineErrorView>) {
    match p.state {
        StateView::Header => settle(p, spec_on_header(line)),
        StateView::ExpectSection => settle(p, spec_on_expect_section(line)),
        StateView::Section { group, upgrading } => {
            let (q, r) = spec_on_section(p, line, group, upgrading);
            settle(q, r)
        },
        StateView::Replacing { name } => {
            let (q, r) = spec_on_replacing(p, line, name);
            settle(q, r)
        },
        StateView::SummaryHeader => settle(p, spec_on_summary_header(line)),
        StateView::Summary => {
            let (q, r) = spec_on_summary(p, line);
            settle(q, r)
        },
        StateView::End => settle(p, spec_on_end(line)),
    }
}

/// The strict state machine over the `dnf upgrade` transaction table.
pub struct TableParser {
    state: State,
    updates: Vec<PackageUpdate>,
    /// Package lines seen per summary bucket.
    section_counts: GroupCounts,
    /// Labels and counts read from the Transaction Summary, in order.
    summary_counts: Vec<(String, usize)>,
    /// `replacing` sub-lines seen across all sections.
    replacing_count: usize,
}

/// The models of summary lines.
pub open spec fn pair_views(s: Seq<(String, usize)>) -> Seq<(Seq<char>, nat)> {
    s.map_values(|p: (String, usize)| (p.0@, p.1 as nat))
}

impl View for TableParser {
    type V = ParserView;

    closed spec fn view(&self) -> ParserView {
        ParserView {
            state: self.state@,
            updates: update_views(self.updates@),
            counts: self.section_counts@,
            summary: pair_views(self.summary_counts@),
            replacing: self.replacing_count as nat,
        }
    }
}

impl TableParser {
    /// A parser that has seen no line.
    pub fn new() -> (p: TableParser)
        ensures
            p@ == initial_view(),
            p@.wf(),
    {
        let p = TableParser {
            state: State::Header,
            updates: Vec::new(),
            section_counts: GroupCounts::new(),
            summary_counts: Vec::new(),
            replacing_count: 0,
        };
        assert(update_views(p.updates@) =~= seq![]);
        assert(pair_views(p.summary_counts@) =~= seq![]);
        p
    }

    /// Before the table: blank lines, the column header, or `Nothing to do.`.
    pub fn on_header(&self, line: &str) -> (r: Result<State, LineError>)
        ensures
            match r {
                Ok(s) => spec_on_header(line@) == Ok::<StateView, LineErrorView>(s@),
                Err(e) => spec_on_header(line@) == Err::<StateView, LineErrorView>(e@),
            },
    {
        let v = chars_of(line);
        if v.len() == 0 {
            Ok(State::Header)
        } else if column_header_chars(&v) {
            Ok(State::ExpectSection)
        } else {
            let (a, b) = trim_bounds(&v);
            let t = crate::text::sub_chars(&v, a, b);
            if chars_eq(&t, "Nothing to do.") {
                Ok(State::End)
            } else {
                Err(LineError::ExpectedColumnHeader)
            }
        }
    }

    /// After the column header: the first section header.
    pub fn on_expect_section(&self, line: &str) -> (r: Result<State, LineError>)
        ensures
            match r {
                Ok(s) => spec_on_expect_section(line@) == Ok::<StateView, LineErrorView>(s@),
                Err(e) => spec_on_expect_section(line@) == Err::<StateView, LineErrorView>(e@),
            },
    {
        match header_of(&chars_of(line)) {
            None => Err(LineError::ExpectedSectionHeader),
            Some(name) => open_section(&name),
        }
    }

    /// After the sections: `Transaction Summary:`.
    pub fn on_summary_header(&self, line: &str) -> (r: Result<State, LineError>)
        ensures
            match r {
                Ok(s) => spec_on_summary_header(line@) == Ok::<StateView, LineErrorView>(s@),
                Err(e) => spec_on_summary_header(line@) == Err::<StateView, LineErrorView>(e@),
            },
    {
        match header_of(&chars_of(line)) {
            Some(t) => {
                if chars_eq(&t, "Transaction Summary") {
                    Ok(State::Summary)
                } else {
                    Err(LineError::ExpectedSummaryHeader)
                }
            },
            None => Err(LineError::ExpectedSummaryHeader),
        }
    }

    /// After the summary: blank lines only.
    pub fn on_end(&self, line: &str) -> (r: Result<State, LineError>)
        ensures
            match r {
                Ok(s) => spec_on_end(line@) == Ok::<StateView, LineErrorView>(s@),
                Err(e) => spec_on_end(line@) == Err::<StateView, LineErrorView>(e@),
            },
    {
        if line.is_empty() {
            Ok(State::End)
        } else {
            Err(LineError::ContentAfterSummary)
        }
    }
}

impl TableParser {
    /// Inside a section: the blank line before the summary, a section
    /// header, or a package line (counted; in `Upgrading:` an update).
    pub fn on_section(&mut self, line: &str, group: SummaryGroup, upgrading: bool) -> (r: Result<
        State,
        LineError,
    >)
        requires
            old(self)@.has_room(),
        ensures
            final(self)@ == spec_on_section(old(self)@, line@, group, upgrading).0,
            match r {
                Ok(s) => spec_on_section(old(self)@, line@, group, upgrading).1 == Ok::<
                    StateView,
                    LineErrorView,
                >(s@),
                Err(e) => spec_on_section(old(self)@, line@, group, upgrading).1 == Err::<
                    StateView,
                    LineErrorView,
                >(e@),
            },
    {
        let v = chars_of(line);
        if v.len() == 0 {
            return Ok(State::SummaryHeader);
        }
        match header_of(&v) {
            Some(name) => {
                return open_section(&name);
            },
            None => {},
        }
        let row = match package_row(&v) {
            Err(e) => {
                return Err(e);
            },
            Ok(row) => row,
        };
        self.section_counts.bump(group);
        if upgrading {
            let name = row.name.clone();
            let version = chars_of(row.version.as_str());
            let u = PackageUpdate {
                name: row.name,
                arch: row.arch,
                old_version: String::new(),
                new_version: normalize_chars(&version),
                old_repo: String::new(),
                new_repo: row.repo,
                download_size: row.size,
            };
            let ghost before = self.updates@;
            self.updates.push(u);
            assert(update_views(self.updates@) =~= update_views(before).push(u@));
            Ok(State::Replacing { name })
        } else {
            Ok(State::Section { group, upgrading })
        }
    }

    /// After an upgrade package line: its `replacing` sub-line, which must
    /// name the same package; it gives the update its old version and
    /// repository.
    pub fn on_replacing(&mut self, line: &str, name: &str) -> (r: Result<State, LineError>)
        requires
            replacing_line_valid(line@, name@) ==> old(self)@.updates.len() > 0,
            old(self)@.has_room(),
        ensures
            final(self)@ == spec_on_replacing(old(self)@, line@, name@).0,
            match r {
                Ok(s) => spec_on_replacing(old(self)@, line@, name@).1 == Ok::<
                    StateView,
                    LineErrorView,
                >(s@),
                Err(e) => spec_on_replacing(old(self)@, line@, name@).1 == Err::<
                    StateView,
                    LineErrorView,
                >(e@),
            },
    {
        let v = chars_of(line);
        let prefix = "   replacing ";
        if !chars_start_with(&v, prefix) {
            return Err(LineError::MissingReplacing { name: name.to_owned() });
        }
        let plen = prefix.unicode_len();
        let rest = crate::text::sub_chars(&v, plen, v.len());
        assert(rest@ == line@.skip(replacing_prefix().len() as int));
        let f = split_words(&rest);
        let ghost fv = seqs_of(f@);
        assert(fv.len() == f@.len());
        if f.len() != 6 {
            return Err(LineError::ReplacingFieldCount { count: f.len() });
        }
        assert(fv[0] == f@[0]@ && fv[2] == f@[2]@ && fv[3] == f@[3]@);
        if !chars_eq(&f[0], name) {
            return Err(LineError::ReplacingNameMismatch { found: string_of(&f[0]), expected: name.to_owned() });
        }
        let ghost before = self.updates@;
        let mut u = self.updates.pop().unwrap();
        u.old_version = normalize_chars(&f[2]);
        u.old_repo = string_of(&f[3]);
        self.updates.push(u);
        assert(update_views(self.updates@) =~= update_views(before).update(
            before.len() - 1,
            u@,
        ));
        self.replacing_count = self.replacing_count + 1;
        Ok(State::Section { group: SummaryGroup::Upgrading, upgrading: true })
    }

    /// Inside the summary: a blank line ends it; a count line is recorded,
    /// and a label given twice is an error.
    pub fn on_summary(&mut self, line: &str) -> (r: Result<State, LineError>)
        ensures
            final(self)@ == spec_on_summary(old(self)@, line@).0,
            match r {
                Ok(s) => spec_on_summary(old(self)@, line@).1 == Ok::<StateView, LineErrorView>(
                    s@,
                ),
                Err(e) => spec_on_summary(old(self)@, line@).1 == Err::<StateView, LineErrorView>(
                    e@,
                ),
            },
    {
        let v = chars_of(line);
        if v.len() == 0 {
            return Ok(State::End);
        }
        let (label, count) = match summary_count(&v) {
            Err(e) => {
                return Err(e);
            },
            Ok(x) => x,
        };
        let ghost before = self.summary_counts@;
        match find_label(&self.summary_counts, &label) {
            Some(i) => {
                let dup = label.clone();
                self.summary_counts.set(i, (label, count));
                assert(pair_views(self.summary_counts@) =~= pair_views(before).update(
                    i as int,
                    (label@, count as nat),
                ));
                Err(LineError::DuplicateSummaryLabel { label: dup })
            },
            None => {
                self.summary_counts.push((label, count));
                assert(pair_views(self.summary_counts@) =~= pair_views(before).push(
                    (label@, count as nat),
                ));
                Ok(State::Summary)
            },
        }
    }

    /// Feeds one line of `dnf upgrade` output to the parser.
    pub fn feed(&mut self, line: &str) -> (r: Result<(), LineError>)
        requires
            old(self)@.wf(),
            old(self)@.has_room(),
        ensures
            final(self)@ == spec_feed(old(self)@, line@).0,
            match r {
                Ok(()) => spec_feed(old(self)@, line@).1 is None,
                Err(e) => spec_feed(old(self)@, line@).1 == Some(e@),
            },
            final(self)@.wf(),
    {
        proof {
            lemma_feed_wf(self@, line@);
        }
        let r = match &self.state {
            State::Header => self.on_header(line),
            State::ExpectSection => self.on_expect_section(line),
            State::Section { group, upgrading } => {
                let g = *group;
                let u = *upgrading;
                self.on_section(line, g, u)
            },
            State::Replacing { name } => {
                let n = name.clone();
                self.on_replacing(line, n.as_str())
            },
            State::SummaryHeader => self.on_summary_header(line),
            State::Summary => self.on_summary(line),
            State::End => self.on_end(line),
        };
        match r {
            Ok(s) => {
                self.state = s;
                Ok(())
            },
            Err(e) => {
                self.state = State::Header;
                Err(e)
            },
        }
    }
}

/// Where the label `l` occurs among the summary lines.
fn find_label(s: &Vec<(String, usize)>, l: &String) -> (r: Option<usize>)
    ensures
        match r {
            Some(i) => i < s.len() && label_index(pair_views(s@), l@) == Some(i as int),
            None => label_index(pair_views(s@), l@) is None,
        },
{
    let ghost ps = pair_views(s@);
    let mut j: usize = 0;
    assert(ps.skip(0) == ps);
    while j < s.len()
        invariant
            0 <= j <= s.len(),
            ps == pair_views(s@),
            label_index(ps, l@) == shift_index(label_index(ps.skip(j as int), l@), j as int),
        decreases s.len() - j,
    {
        assert(ps.skip(j as int)[0] == ps[j as int]);
        if s[j].0 == *l {
            return Some(j);
        }
        assert(ps.skip(j as int).drop_first() == ps.skip(j + 1));
        j += 1;
    }
    None
}

/// An index into a suffix, as an index into the whole.
pub open spec fn shift_index(i: Option<int>, by: int) -> Option<int> {
    match i {
        Some(k) => Some(k + by),
        None => None,
    }
}

/// Feeding a line keeps the parser well formed.
pub proof fn lemma_feed_wf(p: ParserView, line: Seq<char>)
    requires
        p.wf(),
    ensures
        spec_feed(p, line).0.wf(),
        spec_feed(p, line).0.counts.total() + spec_feed(p, line).0.replacing <= p.counts.total()
            + p.replacing + 1,
{
    lemma_label_index_distinct(p.summary, line);
    match p.state {
        StateView::Section { group, upgrading } => {
            let q = spec_on_section(p, line, group, upgrading).0;
            assert(q.counts.total() <= p.counts.total() + 1);
        },
        _ => {},
    }
}

/// Recording a summary line keeps the labels distinct.
proof fn lemma_label_index_distinct(s: Seq<(Seq<char>, nat)>, line: Seq<char>)
    requires
        labels_distinct(s),
    ensures
        match spec_parse_summary_count(line) {
            Ok((label, count)) => match label_index(s, label) {
                Some(i) => labels_distinct(s.update(i, (label, count))),
                None => labels_distinct(s.push((label, count))),
            },
            Err(_) => true,
        },
{
    match spec_parse_summary_count(line) {
        Ok((label, count)) => {
            lemma_label_index(s, label);
        },
        Err(_) => {},
    }
}

/// Updates are ordered by package name.
pub open spec fn by_name() -> spec_fn(UpdateView, UpdateView) -> bool {
    |a: UpdateView, b: UpdateView| lex_lt(a.name, b.name)
}

/// Summary entries are ordered by label.
pub open spec fn by_label() -> spec_fn((Seq<char>, nat), (Seq<char>, nat)) -> bool {
    |a: (Seq<char>, nat), b: (Seq<char>, nat)| lex_lt(a.0, b.0)
}

/// A summary entry for `label`, present only when `n` is not zero.
pub open spec fn entry_if(label: Seq<char>, n: nat) -> Seq<(Seq<char>, nat)> {
    if n > 0 {
        seq![(label, n)]
    } else {
        seq![]
    }
}

/// The Transaction Summary that the parsed sections call for, ordered by
/// label: one entry per bucket with packages, and `Replacing` for the
/// `replacing` sub-lines.
pub open spec fn expected_pairs(p: ParserView) -> Seq<(Seq<char>, nat)> {
    entry_if("Downgrading"@, p.counts.downgrading) + entry_if("Installing"@, p.counts.installing)
        + entry_if("Reinstalling"@, p.counts.reinstalling) + entry_if("Removing"@, p.counts.removing)
        + entry_if("Replacing"@, p.replacing) + entry_if("Upgrading"@, p.counts.upgrading)
}

/// Summary entries as a map from label to count.
pub open spec fn pairs_map(s: Seq<(Seq<char>, nat)>) -> Map<Seq<char>, nat>
    decreases s.len(),
{
    if s.len() == 0 {
        Map::empty()
    } else {
        pairs_map(s.drop_last()).insert(s.last().0, s.last().1)
    }
}

/// Why the output as a whole was refused.
pub ghost enum ParseErrorView {
    Line { number: nat, line: Seq<char>, error: LineErrorView },
    EndedUnexpectedly { state: StateView },
    SummaryMismatch { parsed: Seq<(Seq<char>, nat)>, summary: Seq<(Seq<char>, nat)> },
}

/// No table at all: nothing counted, no summary line read, and the parser
/// either never left the header or ended normally.
pub open spec fn saw_no_table(p: ParserView) -> bool {
    &&& p.state is Header || p.state is End
    &&& p.updates.len() == 0
    &&& p.summary.len() == 0
    &&& p.counts == CountsView::zero()
    &&& p.replacing == 0
}

/// What `finish` gives: no table at all means nothing to upgrade;
/// otherwise the output must have reached the summary, the summary must
/// be exactly what the sections call for, and the updates come sorted by
/// name.
pub open spec fn spec_finish(p: ParserView) -> Result<Seq<UpdateView>, ParseErrorView> {
    if saw_no_table(p) {
        Ok(seq![])
    } else if p.state is Summary || p.state is End {
        if pairs_map(p.summary) == pairs_map(expected_pairs(p)) {
            Ok(sort_by(p.updates, by_name()))
        } else {
            Err(
                ParseErrorView::SummaryMismatch {
                    parsed: expected_pairs(p),
                    summary: sort_by(p.summary, by_label()),
                },
            )
        }
    } else {
        Err(ParseErrorView::EndedUnexpectedly { state: p.state })
    }
}

/// Why `dnf upgrade` output was refused.
#[derive(Debug)]
pub enum ParseError {
    /// A line did not fit what the parser expected there.
    Line { number: usize, line: String, error: LineError },
    /// The output ended before the table was complete.
    EndedUnexpectedly { state: State },
    /// The Transaction Summary does not match the sections parsed; both
    /// sides ordered by label.
    SummaryMismatch { parsed: Vec<(String, usize)>, summary: Vec<(String, usize)> },
}

impl View for ParseError {
    type V = ParseErrorView;

    open spec fn view(&self) -> ParseErrorView {
        match self {
            ParseError::Line { number, line, error } => ParseErrorView::Line {
                number: *number as nat,
                line: line@,
                error: error@,
            },
            ParseError::EndedUnexpectedly { state } => ParseErrorView::EndedUnexpectedly {
                state: state@,
            },
            ParseError::SummaryMismatch { parsed, summary } => ParseErrorView::SummaryMismatch {
                parsed: pair_views(parsed@),
                summary: pair_views(summary@),
            },
        }
    }
}

/// `(k, v)` is among the entries.
pub open spec fn contains_pair(s: Seq<(Seq<char>, nat)>, k: Seq<char>, v: nat) -> bool {
    exists|j: int| 0 <= j < s.len() && s[j] == (k, v)
}

/// Every entry of `a` is among the entries of `b`.
pub open spec fn pairs_within(a: Seq<(Seq<char>, nat)>, b: Seq<(Seq<char>, nat)>) -> bool {
    forall|i: int| 0 <= i < a.len() ==> contains_pair(b, #[trigger] a[i].0, a[i].1)
}

proof fn lemma_pairs_map(s: Seq<(Seq<char>, nat)>)
    requires
        labels_distinct(s),
    ensures
        forall|k: Seq<char>| #[trigger]
            pairs_map(s).contains_key(k) <==> exists|i: int| 0 <= i < s.len() && s[i].0 == k,
        forall|i: int| 0 <= i < s.len() ==> pairs_map(s)[#[trigger] s[i].0] == s[i].1,
    decreases s.len(),
{
    if s.len() > 0 {
        let t = s.drop_last();
        assert(labels_distinct(t));
        lemma_pairs_map(t);
        assert forall|k: Seq<char>| #[trigger]
            pairs_map(s).contains_key(k) <==> exists|i: int| 0 <= i < s.len() && s[i].0 == k by {
            if pairs_map(s).contains_key(k) {
                if k == s.last().0 {
                    assert(s[s.len() - 1].0 == k);
                } else {
                    assert(pairs_map(t).contains_key(k));
                    let i = choose|i: int| 0 <= i < t.len() && t[i].0 == k;
                    assert(s[i] == t[i]);
                }
            }
            if exists|i: int| 0 <= i < s.len() && s[i].0 == k {
                let i = choose|i: int| 0 <= i < s.len() && s[i].0 == k;
                if i < t.len() {
                    assert(t[i] == s[i]);
                    assert(pairs_map(t).contains_key(k));
                }
            }
        }
        assert forall|i: int| 0 <= i < s.len() implies pairs_map(s)[#[trigger] s[i].0]
            == s[i].1 by {
            if i < t.len() {
                assert(t[i] == s[i]);
                assert(s[i].0 != s.last().0);
            }
        }
    }
}

/// For entries with distinct labels, the maps agree exactly when each side
/// holds the other's entries.
proof fn lemma_pairs_agree(a: Seq<(Seq<char>, nat)>, b: Seq<(Seq<char>, nat)>)
    requires
        labels_distinct(a),
        labels_distinct(b),
    ensures
        (pairs_map(a) == pairs_map(b)) <==> (pairs_within(a, b) && pairs_within(b, a)),
{
    lemma_pairs_map(a);
    lemma_pairs_map(b);
    if pairs_map(a) == pairs_map(b) {
        assert forall|i: int| 0 <= i < a.len() implies contains_pair(b, #[trigger] a[i].0, a[i].1) by {
            assert(pairs_map(a).contains_key(a[i].0));
            let j = choose|j: int| 0 <= j < b.len() && b[j].0 == a[i].0;
            assert(b[j] == (a[i].0, a[i].1));
        }
        assert forall|i: int| 0 <= i < b.len() implies contains_pair(a, #[trigger] b[i].0, b[i].1) by {
            assert(pairs_map(b).contains_key(b[i].0));
            let j = choose|j: int| 0 <= j < a.len() && a[j].0 == b[i].0;
            assert(a[j] == (b[i].0, b[i].1));
        }
    }
    if pairs_within(a, b) && pairs_within(b, a) {
        assert forall|k: Seq<char>| pairs_map(a).contains_key(k) <==> pairs_map(b).contains_key(k) by {
            if pairs_map(a).contains_key(k) {
                let i = choose|i: int| 0 <= i < a.len() && a[i].0 == k;
                assert(contains_pair(b, a[i].0, a[i].1));
                let j = choose|j: int| 0 <= j < b.len() && b[j] == (a[i].0, a[i].1);
                assert(b[j].0 == k);
            }
            if pairs_map(b).contains_key(k) {
                let i = choose|i: int| 0 <= i < b.len() && b[i].0 == k;
                assert(contains_pair(a, b[i].0, b[i].1));
                let j = choose|j: int| 0 <= j < a.len() && a[j] == (b[i].0, b[i].1);
                assert(a[j].0 == k);
            }
        }
        assert forall|k: Seq<char>| pairs_map(a).contains_key(k) implies pairs_map(a)[k]
            == pairs_map(b)[k] by {
            let i = choose|i: int| 0 <= i < a.len() && a[i].0 == k;
            assert(contains_pair(b, a[i].0, a[i].1));
            let j = choose|j: int| 0 <= j < b.len() && b[j] == (a[i].0, a[i].1);
            assert(pairs_map(b)[b[j].0] == b[j].1);
        }
        assert(pairs_map(a) =~= pairs_map(b));
    }
}

/// The expected summary has distinct labels.
proof fn lemma_expected_distinct(p: ParserView)
    ensures
        labels_distinct(expected_pairs(p)),
{
    reveal_strlit("Downgrading");
    reveal_strlit("Installing");
    reveal_strlit("Reinstalling");
    reveal_strlit("Removing");
    reveal_strlit("Replacing");
    reveal_strlit("Upgrading");
    let e = expected_pairs(p);
    assert forall|i: int, j: int| 0 <= i < e.len() && 0 <= j < e.len() && i != j implies e[i].0
        != e[j].0 by {
        let labels = seq!["Downgrading"@, "Installing"@, "Reinstalling"@, "Removing"@, "Replacing"@, "Upgrading"@];
        assert(labels[0][0] == 'D' && labels[1][0] == 'I' && labels[4][2] == 'p' && labels[3][2] == 'm' && labels[2][2] == 'i' && labels[5][0] == 'U');
        assert(labels[2][0] == 'R' && labels[3][0] == 'R' && labels[4][0] == 'R');
    }
}

/// Whether `(k, v)` is among the entries.
fn has_pair(s: &Vec<(String, usize)>, k: &String, v: usize) -> (r: bool)
    ensures
        r == contains_pair(pair_views(s@), k@, v as nat),
{
    let ghost ps = pair_views(s@);
    let mut j: usize = 0;
    while j < s.len()
        invariant
            0 <= j <= s.len(),
            ps == pair_views(s@),
            forall|m: int| 0 <= m < j ==> #[trigger] ps[m] != (k@, v as nat),
        decreases s.len() - j,
    {
        if s[j].0 == *k && s[j].1 == v {
            assert(ps[j as int] == (k@, v as nat));
            return true;
        }
        j += 1;
    }
    false
}

/// Whether every entry of `a` is among the entries of `b`.
fn all_within(a: &Vec<(String, usize)>, b: &Vec<(String, usize)>) -> (r: bool)
    ensures
        r == pairs_within(pair_views(a@), pair_views(b@)),
{
    let ghost pa = pair_views(a@);
    let mut i: usize = 0;
    while i < a.len()
        invariant
            0 <= i <= a.len(),
            pa == pair_views(a@),
            forall|m: int| 0 <= m < i ==> contains_pair(pair_views(b@), #[trigger] pa[m].0, pa[m].1),
        decreases a.len() - i,
    {
        if !has_pair(b, &a[i].0, a[i].1) {
            assert(!contains_pair(pair_views(b@), pa[i as int].0, pa[i as int].1));
            return false;
        }
        i += 1;
    }
    true
}

/// Appends the entry `(label, n)` when `n` is not zero.
fn push_entry_if(v: &mut Vec<(String, usize)>, label: &str, n: usize)
    ensures
        pair_views(final(v)@) == pair_views(old(v)@) + entry_if(label@, n as nat),
{
    let ghost before = v@;
    if n > 0 {
        v.push((label.to_owned(), n));
        assert(pair_views(v@) =~= pair_views(before) + entry_if(label@, n as nat));
    } else {
        assert(pair_views(v@) =~= pair_views(before) + entry_if(label@, n as nat));
    }
}

/// Sorts updates by name, keeping the order of equal names.
fn sort_updates(us: &Vec<PackageUpdate>) -> (r: Vec<PackageUpdate>)
    ensures
        update_views(r@) == sort_by(update_views(us@), by_name()),
{
    let ghost vs = update_views(us@);
    let mut r: Vec<PackageUpdate> = Vec::new();
    assert(vs.take(0) =~= seq![]);
    assert(update_views(r@) =~= seq![]);
    let mut i: usize = 0;
    while i < us.len()
        invariant
            0 <= i <= us.len(),
            vs == update_views(us@),
            update_views(r@) == sort_by(vs.take(i as int), by_name()),
        decreases us.len() - i,
    {
        let x = us[i].clone();
        let ghost t = update_views(r@);
        let mut p: usize = 0;
        while p < r.len() && !str_lt(x.name.as_str(), r[p].name.as_str())
            invariant
                0 <= p <= r.len(),
                t == update_views(r@),
                forall|k: int| 0 <= k < p ==> !lex_lt(x@.name, #[trigger] t[k].name),
            decreases r.len() - p,
        {
            p += 1;
        }
        proof {
            lemma_insert_sorted(t, x@, by_name());
            let ip = insert_pos(t, x@, by_name());
            if ip < p {
                assert(!lex_lt(x@.name, t[ip].name));
            }
            if p < ip {
                assert(lex_lt(x@.name, t[p as int].name));
            }
            assert(ip == p);
            assert(vs.take(i + 1).drop_last() == vs.take(i as int));
            assert(vs.take(i + 1).last() == x@);
        }
        r.insert(p, x);
        assert(update_views(r@) =~= t.take(p as int) + seq![x@] + t.skip(p as int));
        i += 1;
    }
    assert(vs.take(us.len() as int) == vs);
    r
}

/// Sorts summary entries by label, keeping the order of equal labels.
fn sort_pairs(es: &Vec<(String, usize)>) -> (r: Vec<(String, usize)>)
    ensures
        pair_views(r@) == sort_by(pair_views(es@), by_label()),
{
    let ghost vs = pair_views(es@);
    let mut r: Vec<(String, usize)> = Vec::new();
    assert(vs.take(0) =~= seq![]);
    assert(pair_views(r@) =~= seq![]);
    let mut i: usize = 0;
    while i < es.len()
        invariant
            0 <= i <= es.len(),
            vs == pair_views(es@),
            pair_views(r@) == sort_by(vs.take(i as int), by_label()),
        decreases es.len() - i,
    {
        let x = (es[i].0.clone(), es[i].1);
        let ghost xv = (x.0@, x.1 as nat);
        let ghost t = pair_views(r@);
        let mut p: usize = 0;
        while p < r.len() && !str_lt(x.0.as_str(), r[p].0.as_str())
            invariant
                0 <= p <= r.len(),
                t == pair_views(r@),
                xv == (x.0@, x.1 as nat),
                forall|k: int| 0 <= k < p ==> !lex_lt(xv.0, #[trigger] t[k].0),
            decreases r.len() - p,
        {
            assert(t[p as int].0 == r@[p as int].0@);
            p += 1;
        }
        proof {
            lemma_insert_sorted(t, xv, by_label());
            let ip = insert_pos(t, xv, by_label());
            if ip < p {
                assert(!lex_lt(xv.0, t[ip].0));
            }
            if p < ip {
                assert(lex_lt(xv.0, t[p as int].0));
            }
            assert(ip == p);
            assert(vs.take(i + 1).drop_last() == vs.take(i as int));
            assert(vs.take(i + 1).last() == xv);
        }
        r.insert(p, x);
        assert(pair_views(r@) =~= t.take(p as int) + seq![xv] + t.skip(p as int));
        i += 1;
    }
    assert(vs.take(es.len() as int) == vs);
    r
}

impl TableParser {
    /// The Transaction Summary that the parsed sections call for.
    fn expected_counts(&self) -> (v: Vec<(String, usize)>)
        ensures
            pair_views(v@) == expected_pairs(self@),
    {
        let mut v: Vec<(String, usize)> = Vec::new();
        assert(pair_views(v@) =~= seq![]);
        push_entry_if(&mut v, "Downgrading", self.section_counts.downgrading);
        push_entry_if(&mut v, "Installing", self.section_counts.installing);
        push_entry_if(&mut v, "Reinstalling", self.section_counts.reinstalling);
        push_entry_if(&mut v, "Removing", self.section_counts.removing);
        push_entry_if(&mut v, "Replacing", self.replacing_count);
        push_entry_if(&mut v, "Upgrading", self.section_counts.upgrading);
        assert(pair_views(v@) =~= expected_pairs(self@));
        v
    }

    /// Ends the parse. Output with no table at all (nothing counted, no
    /// summary line) gives nothing to upgrade; otherwise the output must
    /// have reached the summary and the summary must match the sections
    /// exactly, and the upgrades come sorted by name.
    pub fn finish(self) -> (r: Result<Vec<PackageUpdate>, ParseError>)
        requires
            self@.wf(),
        ensures
            match r {
                Ok(us) => spec_finish(self@) == Ok::<Seq<UpdateView>, ParseErrorView>(
                    update_views(us@),
                ),
                Err(e) => spec_finish(self@) == Err::<Seq<UpdateView>, ParseErrorView>(e@),
            },
    {
        let c = self.section_counts;
        let nothing_counted = c.installing == 0 && c.upgrading == 0 && c.downgrading == 0
            && c.reinstalling == 0 && c.removing == 0 && self.replacing_count == 0;
        let no_table = match self.state {
            State::Header | State::End => self.updates.len() == 0 && self.summary_counts.len()
                == 0 && nothing_counted,
            _ => false,
        };
        if no_table {
            let v: Vec<PackageUpdate> = Vec::new();
            assert(update_views(v@) =~= seq![]);
            return Ok(v);
        }
        match self.state {
            State::Summary | State::End => {},
            _ => {
                return Err(ParseError::EndedUnexpectedly { state: self.state });
            },
        }
        let expected = self.expected_counts();
        proof {
            lemma_expected_distinct(self@);
            lemma_pairs_agree(self@.summary, expected_pairs(self@));
        }
        if !(all_within(&self.summary_counts, &expected) && all_within(
            &expected,
            &self.summary_counts,
        )) {
            let summary = sort_pairs(&self.summary_counts);
            return Err(ParseError::SummaryMismatch { parsed: expected, summary });
        }
        Ok(sort_updates(&self.updates))
    }
}

/// Feeds the lines `ls[i..]` to the parser: the parser after the last, or
/// the index of the first refused line and why.
pub open spec fn feed_from(p: ParserView, ls: Seq<Seq<char>>, i: int) -> Result<
    ParserView,
    (int, LineErrorView),
>
    decreases ls.len() - i,
{
    if i < 0 || i >= ls.len() {
        Ok(p)
    } else {
        let (q, e) = spec_feed(p, ls[i]);
        match e {
            Some(err) => Err((i, err)),
            None => feed_from(q, ls, i + 1),
        }
    }
}

/// What `parse_update_lines` gives for the text `s`: every line fed to the
/// parser in order, the first refused line reported with its number
/// (counting from 1) and text, and otherwise the parser's finish.
pub open spec fn spec_parse_update_lines(s: Seq<char>) -> Result<Seq<UpdateView>, ParseErrorView> {
    let ls = crate::text::lines(s);
    match feed_from(initial_view(), ls, 0) {
        Err((i, e)) => Err(ParseErrorView::Line { number: (i + 1) as nat, line: ls[i], error: e }),
        Ok(p) => spec_finish(p),
    }
}

/// Parses the whole stdout of `dnf upgrade --assumeno` into the packages
/// it would upgrade, sorted by name.
///
/// Every line must match what the parser expects at that point; an
/// unknown line shape, a wrong field count, a missing or orphan
/// `replacing` sub-line, an unknown section header, truncated output, or
/// a Transaction Summary that disagrees with the sections is an error.
pub fn parse_update_lines(stdout: &str) -> (r: Result<Vec<PackageUpdate>, ParseError>)
    ensures
        match r {
            Ok(us) => spec_parse_update_lines(stdout@) == Ok::<Seq<UpdateView>, ParseErrorView>(
                update_views(us@),
            ),
            Err(e) => spec_parse_update_lines(stdout@) == Err::<Seq<UpdateView>, ParseErrorView>(
                e@,
            ),
        },
{
    let chars = chars_of(stdout);
    let ls = crate::text::split_lines(&chars);
    let ghost lv = seqs_of(ls@);
    assert(lv == crate::text::lines(stdout@));
    let mut parser = TableParser::new();
    let n = ls.len();
    let mut i: usize = 0;
    while i < n
        invariant
            n == ls.len(),
            lv == seqs_of(ls@),
            lv == crate::text::lines(stdout@),
            lv.len() == n,
            0 <= i <= n,
            parser@.wf(),
            parser@.counts.total() + parser@.replacing <= i,
            feed_from(initial_view(), lv, 0) == feed_from(parser@, lv, i as int),
        decreases n - i,
    {
        let line = string_of(&ls[i]);
        assert(line@ == lv[i as int]);
        let ghost before = parser@;
        proof {
            lemma_feed_wf(before, line@);
        }
        match parser.feed(line.as_str()) {
            Err(e) => {
                return Err(ParseError::Line { number: i + 1, line, error: e });
            },
            Ok(()) => {},
        }
        i += 1;
    }
    parser.finish()
}

/// How `Debug` writes a parser state.
pub open spec fn state_debug(s: StateView) -> Seq<char> {
    match s {
        StateView::Header => "Header"@,
        StateView::ExpectSection => "ExpectSection"@,
        StateView::Section { group, upgrading } => "Section { group: "@ + debug_repr(
            group.spec_label(),
        ) + ", upgrading: "@ + (if upgrading {
            "true"@
        } else {
            "false"@
        }) + " }"@,
        StateView::Replacing { name } => "Replacing { name: "@ + debug_repr(name) + " }"@,
        StateView::SummaryHeader => "SummaryHeader"@,
        StateView::Summary => "Summary"@,
        StateView::End => "End"@,
    }
}

/// One entry of a label-to-count map as `Debug` writes it.
pub open spec fn entry_debug(e: (Seq<char>, nat)) -> Seq<char> {
    debug_repr(e.0) + ": "@ + decimal(e.1)
}

/// The entries of a map as `Debug` writes them, separated by `", "`.
pub open spec fn entries_debug(es: Seq<(Seq<char>, nat)>) -> Seq<char>
    decreases es.len(),
{
    if es.len() == 0 {
        seq![]
    } else if es.len() == 1 {
        entry_debug(es[0])
    } else {
        entries_debug(es.drop_last()) + ", "@ + entry_debug(es.last())
    }
}

/// A label-to-count map, given by its entries in key order, as `Debug`
/// writes a `BTreeMap`.
pub open spec fn map_debug(es: Seq<(Seq<char>, nat)>) -> Seq<char> {
    "{"@ + entries_debug(es) + "}"@
}

/// The message of a refused output, as the error chain reads
/// (`context: cause`).
pub open spec fn parse_error_text(e: ParseErrorView) -> Seq<char> {
    match e {
        ParseErrorView::Line { number, line, error } => "at stdout line "@ + decimal(number)
            + ": "@ + debug_repr(line) + ": "@ + line_error_text(error),
        ParseErrorView::EndedUnexpectedly { state } => "dnf output ended unexpectedly in state "@
            + state_debug(state),
        ParseErrorView::SummaryMismatch { parsed, summary } =>
            "transaction summary disagrees with the parsed table\n  parsed:  "@ + map_debug(parsed)
                + "\n  summary: "@ + map_debug(summary),
    }
}

impl State {
    /// Appends this state as `Debug` writes it.
    pub fn push_debug(&self, out: &mut String)
        ensures
            final(out)@ == old(out)@ + state_debug(self@),
    {
        let ghost start = out@;
        match self {
            State::Header => out.append("Header"),
            State::ExpectSection => out.append("ExpectSection"),
            State::Section { group, upgrading } => {
                out.append("Section { group: ");
                push_debug(out, group.label());
                out.append(", upgrading: ");
                if *upgrading {
                    out.append("true");
                } else {
                    out.append("false");
                }
                out.append(" }");
            },
            State::Replacing { name } => {
                out.append("Replacing { name: ");
                push_debug(out, name.as_str());
                out.append(" }");
            },
            State::SummaryHeader => out.append("SummaryHeader"),
            State::Summary => out.append("Summary"),
            State::End => out.append("End"),
        }
        assert(out@ =~= start + state_debug(self@));
    }
}

/// Appends a label-to-count map, given by its entries in key order, as
/// `Debug` writes a `BTreeMap`.
fn push_map_debug(out: &mut String, es: &Vec<(String, usize)>)
    ensures
        final(out)@ == old(out)@ + map_debug(pair_views(es@)),
{
    let ghost start = out@;
    let ghost pv = pair_views(es@);
    out.append("{");
    let mut i: usize = 0;
    assert(pv.take(0) =~= seq![]);
    while i < es.len()
        invariant
            0 <= i <= es.len(),
            pv == pair_views(es@),
            out@ == start + "{"@ + entries_debug(pv.take(i as int)),
        decreases es.len() - i,
    {
        if i > 0 {
            out.append(", ");
        }
        push_debug(out, es[i].0.as_str());
        out.append(": ");
        push_decimal(out, es[i].1);
        proof {
            assert(pv.take(i + 1).drop_last() == pv.take(i as int));
            assert(pv.take(i + 1).last() == pv[i as int]);
            if i == 0 {
                assert(pv.take(1)[0] == pv[0]);
            }
            assert(out@ =~= start + "{"@ + entries_debug(pv.take(i + 1)));
        }
        i += 1;
    }
    assert(pv.take(es.len() as int) == pv);
    out.append("}");
    assert(out@ =~= start + map_debug(pv));
}

impl ParseError {
    /// This error's message, as the error chain reads (`context: cause`).
    pub fn message(&self) -> (s: String)
        ensures
            s@ == parse_error_text(self@),
    {
        let mut s = String::new();
        match self {
            ParseError::Line { number, line, error } => {
                s.append("at stdout line ");
                push_decimal(&mut s, *number);
                s.append(": ");
                push_debug(&mut s, line.as_str());
                s.append(": ");
                error.push_message(&mut s);
            },
            ParseError::EndedUnexpectedly { state } => {
                s.append("dnf output ended unexpectedly in state ");
                state.push_debug(&mut s);
            },
            ParseError::SummaryMismatch { parsed, summary } => {
                s.append("transaction summary disagrees with the parsed table\n  parsed:  ");
                push_map_debug(&mut s, parsed);
                s.append("\n  summary: ");
                push_map_debug(&mut s, summary);
            },
        }
        assert(s@ =~= parse_error_text(self@));
        s
    }
}

/// The state that the section header `name` opens.
fn open_section(name: &Vec<char>) -> (r: Result<State, LineError>)
    ensures
        match r {
            Ok(s) => section_state(name@) == Ok::<StateView, LineErrorView>(s@),
            Err(e) => section_state(name@) == Err::<StateView, LineErrorView>(e@),
        },
{
    match group_of_chars(name) {
        None => Err(LineError::UnknownSectionHeader { name: string_of(name) }),
        Some(g) => Ok(State::Section { group: g, upgrading: chars_eq(name, "Upgrading") }),
    }
}

} // verus!
