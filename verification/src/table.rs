//! The pieces of dnf's transaction table: section headers, package rows,
//! summary count lines, and how sections count in the summary.
use vstd::prelude::*;
use crate::error::{LineError, LineErrorView};
use crate::number::{parse_usize, spec_parse_usize};
use crate::size::{size_from_chars, spec_parse_dnf_size, DnfSize, SizeView};
use crate::text::{
    chars_eq, chars_of, chars_start_with, seqs_of, split_words, starts_with, string_of,
    string_of_range, sub_chars, words,
};

verus! {

/// The buckets of dnf's Transaction Summary that table sections count in.
#[derive(Clone, Copy, Debug, PartialEq, Eq, Structural)]
pub enum SummaryGroup {
    Installing,
    Upgrading,
    Downgrading,
    Reinstalling,
    Removing,
}

impl SummaryGroup {
    /// The label dnf gives this bucket in the Transaction Summary.
    pub open spec fn spec_label(self) -> Seq<char> {
        match self {
            SummaryGroup::Installing => "Installing"@,
            SummaryGroup::Upgrading => "Upgrading"@,
            SummaryGroup::Downgrading => "Downgrading"@,
            SummaryGroup::Reinstalling => "Reinstalling"@,
            SummaryGroup::Removing => "Removing"@,
        }
    }

    /// The label dnf gives this bucket in the Transaction Summary.
    pub fn label(&self) -> (l: &'static str)
        ensures
            l@ == self.spec_label(),
    {
        match self {
            SummaryGroup::Installing => "Installing",
            SummaryGroup::Upgrading => "Upgrading",
            SummaryGroup::Downgrading => "Downgrading",
            SummaryGroup::Reinstalling => "Reinstalling",
            SummaryGroup::Removing => "Removing",
        }
    }
}

/// The summary bucket of a table section, by the section's header text
/// (without its `:`); `None` for a section this parser does not know.
pub open spec fn group_of(section: Seq<char>) -> Option<SummaryGroup> {
    if section == "Installing"@ || section == "Installing dependencies"@ || section
        == "Installing weak dependencies"@ {
        Some(SummaryGroup::Installing)
    } else if section == "Upgrading"@ {
        Some(SummaryGroup::Upgrading)
    } else if section == "Downgrading"@ {
        Some(SummaryGroup::Downgrading)
    } else if section == "Reinstalling"@ {
        Some(SummaryGroup::Reinstalling)
    } else if section == "Removing"@ || section == "Removing dependent packages"@ || section
        == "Removing unused dependencies"@ {
        Some(SummaryGroup::Removing)
    } else {
        None
    }
}

/// The summary bucket of a section header's text.
pub fn group_of_chars(section: &Vec<char>) -> (g: Option<SummaryGroup>)
    ensures
        g == group_of(section@),
{
    if chars_eq(section, "Installing") || chars_eq(section, "Installing dependencies")
        || chars_eq(section, "Installing weak dependencies") {
        Some(SummaryGroup::Installing)
    } else if chars_eq(section, "Upgrading") {
        Some(SummaryGroup::Upgrading)
    } else if chars_eq(section, "Downgrading") {
        Some(SummaryGroup::Downgrading)
    } else if chars_eq(section, "Reinstalling") {
        Some(SummaryGroup::Reinstalling)
    } else if chars_eq(section, "Removing") || chars_eq(section, "Removing dependent packages")
        || chars_eq(section, "Removing unused dependencies") {
        Some(SummaryGroup::Removing)
    } else {
        None
    }
}

/// Maps a table section header (without its trailing `:`) to the label dnf
/// uses for it in the Transaction Summary; `None` for an unknown header.
pub fn summary_group(section: &str) -> (r: Option<&'static str>)
    ensures
        match r {
            Some(l) => group_of(section@) matches Some(g) && l@ == g.spec_label(),
            None => group_of(section@) is None,
        },
{
    match group_of_chars(&chars_of(section)) {
        Some(g) => Some(g.label()),
        None => None,
    }
}

/// The text of a section or summary header: a non-empty line that does not
/// start with a space and ends in `:`, without the `:`.
pub open spec fn header_text(line: Seq<char>) -> Option<Seq<char>> {
    if line.len() == 0 || starts_with(line, " "@) {
        None
    } else if line.last() == ':' {
        Some(line.drop_last())
    } else {
        None
    }
}

/// The text of a section header line, as characters.
pub fn header_of(line: &Vec<char>) -> (h: Option<Vec<char>>)
    ensures
        match h {
            Some(t) => header_text(line@) == Some(t@),
            None => header_text(line@) is None,
        },
{
    if line.len() == 0 || chars_start_with(line, " ") {
        None
    } else if line[line.len() - 1] == ':' {
        Some(sub_chars(line, 0, line.len() - 1))
    } else {
        None
    }
}

/// A column-0, non-empty line ending in `:` is a section or summary header;
/// returns its text without the trailing `:`.
pub fn section_header(line: &str) -> (h: Option<String>)
    ensures
        match h {
            Some(t) => header_text(line@) == Some(t@),
            None => header_text(line@) is None,
        },
{
    match header_of(&chars_of(line)) {
        Some(t) => Some(string_of(&t)),
        None => None,
    }
}

/// The words of dnf's column header.
pub open spec fn column_header_words() -> Seq<Seq<char>> {
    seq!["Package"@, "Arch"@, "Version"@, "Repository"@, "Size"@]
}

/// The line is the column header: its words are exactly `Package Arch
/// Version Repository Size`.
pub open spec fn is_column_header_line(line: Seq<char>) -> bool {
    words(line) == column_header_words()
}

/// Whether a line, as characters, is the column header.
pub fn column_header_chars(line: &Vec<char>) -> (b: bool)
    ensures
        b == is_column_header_line(line@),
{
    let ws = split_words(line);
    if ws.len() != 5 {
        assert(seqs_of(ws@).len() != column_header_words().len());
        return false;
    }
    let r = chars_eq(&ws[0], "Package") && chars_eq(&ws[1], "Arch") && chars_eq(
        &ws[2],
        "Version",
    ) && chars_eq(&ws[3], "Repository") && chars_eq(&ws[4], "Size");
    proof {
        let v = seqs_of(ws@);
        assert(v[0] == ws@[0]@ && v[1] == ws@[1]@ && v[2] == ws@[2]@ && v[3] == ws@[3]@ && v[4]
            == ws@[4]@);
        if r {
            assert(v =~= column_header_words());
        } else {
            assert(v[0] != column_header_words()[0] || v[1] != column_header_words()[1] || v[2]
                != column_header_words()[2] || v[3] != column_header_words()[3] || v[4]
                != column_header_words()[4]);
        }
    }
    r
}

/// Whether the line is the column header `Package Arch Version Repository Size`.
pub fn is_column_header(line: &str) -> (b: bool)
    ensures
        b == is_column_header_line(line@),
{
    column_header_chars(&chars_of(line))
}

/// Indented by exactly one space, as package and summary lines are.
pub open spec fn single_indented(line: Seq<char>) -> bool {
    starts_with(line, " "@) && !starts_with(line, "  "@)
}

/// One whitespace-delimited transaction-table row (a package line or the
/// part of a `replacing` line after `replacing`).
#[derive(Debug)]
pub struct PkgRow {
    pub name: String,
    pub arch: String,
    pub version: String,
    pub repo: String,
    pub size: DnfSize,
}

pub ghost struct RowView {
    pub name: Seq<char>,
    pub arch: Seq<char>,
    pub version: Seq<char>,
    pub repo: Seq<char>,
    pub size: SizeView,
}

impl View for PkgRow {
    type V = RowView;

    open spec fn view(&self) -> RowView {
        RowView {
            name: self.name@,
            arch: self.arch@,
            version: self.version@,
            repo: self.repo@,
            size: self.size@,
        }
    }
}

/// What `parse_package_row` gives for a line: a single-space-indented line
/// of six fields, the last two a size.
pub open spec fn spec_parse_package_row(line: Seq<char>) -> Result<RowView, LineErrorView> {
    if !single_indented(line) {
        Err(LineErrorView::PackageIndent)
    } else {
        let f = words(line);
        if f.len() != 6 {
            Err(LineErrorView::PackageFieldCount { count: f.len() })
        } else {
            match spec_parse_dnf_size(f[4], f[5]) {
                Err(e) => Err(LineErrorView::PackageSize { error: e }),
                Ok(size) => Ok(
                    RowView { name: f[0], arch: f[1], version: f[2], repo: f[3], size },
                ),
            }
        }
    }
}

/// Parses a package line given as characters.
pub fn package_row(line: &Vec<char>) -> (r: Result<PkgRow, LineError>)
    ensures
        match r {
            Ok(row) => spec_parse_package_row(line@) == Ok::<RowView, LineErrorView>(row@),
            Err(e) => spec_parse_package_row(line@) == Err::<RowView, LineErrorView>(e@),
        },
{
    if !chars_start_with(line, " ") || chars_start_with(line, "  ") {
        return Err(LineError::PackageIndent);
    }
    let f = split_words(line);
    proof {
        assert(seqs_of(f@).len() == f@.len());
    }
    if f.len() != 6 {
        return Err(LineError::PackageFieldCount { count: f.len() });
    }
    proof {
        let v = seqs_of(f@);
        assert(v[0] == f@[0]@ && v[1] == f@[1]@ && v[2] == f@[2]@ && v[3] == f@[3]@ && v[4]
            == f@[4]@ && v[5] == f@[5]@);
    }
    match size_from_chars(&f[4], &f[5]) {
        Err(e) => Err(LineError::PackageSize { error: e }),
        Ok(size) => Ok(
            PkgRow {
                name: string_of(&f[0]),
                arch: string_of(&f[1]),
                version: string_of(&f[2]),
                repo: string_of(&f[3]),
                size,
            },
        ),
    }
}

/// Parses a single-space-indented, six-field transaction row. Rejects any
/// other indent (e.g. the three-space `replacing` lines) or field count.
pub fn parse_package_row(line: &str) -> (r: Result<PkgRow, LineError>)
    ensures
        match r {
            Ok(row) => spec_parse_package_row(line@) == Ok::<RowView, LineErrorView>(row@),
            Err(e) => spec_parse_package_row(line@) == Err::<RowView, LineErrorView>(e@),
        },
{
    package_row(&chars_of(line))
}

/// Words joined by single spaces (`[&str]::join(" ")`).
pub open spec fn join_words(ws: Seq<Seq<char>>) -> Seq<char>
    decreases ws.len(),
{
    if ws.len() == 0 {
        seq![]
    } else if ws.len() == 1 {
        ws[0]
    } else {
        join_words(ws.drop_last()) + seq![' '] + ws.last()
    }
}

/// What `parse_summary_count` gives for a line such as
/// ` Upgrading:        215 packages`: the label before the count, without
/// its `:`, and the count.
pub open spec fn spec_parse_summary_count(line: Seq<char>) -> Result<
    (Seq<char>, nat),
    LineErrorView,
> {
    if !single_indented(line) {
        Err(LineErrorView::SummaryIndent)
    } else {
        let f = words(line);
        if f.len() < 3 {
            Err(LineErrorView::SummaryFieldCount { count: f.len() })
        } else {
            let unit = f[f.len() - 1];
            let count = f[f.len() - 2];
            if unit != "packages"@ && unit != "package"@ {
                Err(LineErrorView::SummaryUnit { unit })
            } else {
                match spec_parse_usize(count) {
                    Err(e) => Err(LineErrorView::SummaryCount { text: count, cause: e }),
                    Ok(n) => {
                        let label = join_words(f.take(f.len() - 2));
                        if label.len() > 0 && label.last() == ':' {
                            Ok((label.drop_last(), n))
                        } else {
                            Err(LineErrorView::SummaryLabel { label })
                        }
                    },
                }
            }
        }
    }
}

/// The first `m` words joined by single spaces.
fn join_first(ws: &Vec<Vec<char>>, m: usize) -> (j: Vec<char>)
    requires
        m <= ws.len(),
    ensures
        j@ == join_words(seqs_of(ws@).take(m as int)),
{
    let mut j: Vec<char> = Vec::new();
    let mut i: usize = 0;
    while i < m
        invariant
            m <= ws.len(),
            0 <= i <= m,
            j@ == join_words(seqs_of(ws@).take(i as int)),
        decreases m - i,
    {
        if i > 0 {
            j.push(' ');
        }
        let w = &ws[i];
        let mut k: usize = 0;
        let ghost mid = j@;
        while k < w.len()
            invariant
                0 <= k <= w.len(),
                j@ == mid + w@.take(k as int),
            decreases w.len() - k,
        {
            j.push(w[k]);
            assert(w@.take(k + 1) == w@.take(k as int).push(w@[k as int]));
            k += 1;
        }
        proof {
            let v = seqs_of(ws@);
            assert(v.take(i + 1).drop_last() == v.take(i as int));
            assert(v.take(i + 1).last() == w@);
            assert(w@.take(w@.len() as int) == w@);
        }
        i += 1;
    }
    j
}

/// Parses a summary count line given as characters.
pub fn summary_count(line: &Vec<char>) -> (r: Result<(String, usize), LineError>)
    ensures
        match r {
            Ok((label, n)) => spec_parse_summary_count(line@) == Ok::<
                (Seq<char>, nat),
                LineErrorView,
            >((label@, n as nat)),
            Err(e) => spec_parse_summary_count(line@) == Err::<(Seq<char>, nat), LineErrorView>(
                e@,
            ),
        },
{
    if !chars_start_with(line, " ") || chars_start_with(line, "  ") {
        return Err(LineError::SummaryIndent);
    }
    let f = split_words(line);
    let ghost v = seqs_of(f@);
    assert(v.len() == f@.len());
    let n = f.len();
    if n < 3 {
        return Err(LineError::SummaryFieldCount { count: n });
    }
    assert(v[n - 1] == f@[n - 1]@ && v[n - 2] == f@[n - 2]@);
    if !chars_eq(&f[n - 1], "packages") && !chars_eq(&f[n - 1], "package") {
        return Err(LineError::SummaryUnit { unit: string_of(&f[n - 1]) });
    }
    let count = match parse_usize(&f[n - 2]) {
        Err(e) => {
            return Err(LineError::SummaryCount { text: string_of(&f[n - 2]), cause: e });
        },
        Ok(c) => c,
    };
    let label = join_first(&f, n - 2);
    if label.len() > 0 && label[label.len() - 1] == ':' {
        Ok((string_of_prefix(&label), count))
    } else {
        Err(LineError::SummaryLabel { label: string_of(&label) })
    }
}

/// `v` without its last character, as a string.
fn string_of_prefix(v: &Vec<char>) -> (s: String)
    requires
        v.len() > 0,
    ensures
        s@ == v@.drop_last(),
{
    string_of(&sub_chars(v, 0, v.len() - 1))
}

/// Parses a summary count line such as ` Upgrading:        215 packages`
/// into (label, count). The label is everything before the count, sans its `:`.
pub fn parse_summary_count(line: &str) -> (r: Result<(String, usize), LineError>)
    ensures
        match r {
            Ok((label, n)) => spec_parse_summary_count(line@) == Ok::<
                (Seq<char>, nat),
                LineErrorView,
            >((label@, n as nat)),
            Err(e) => spec_parse_summary_count(line@) == Err::<(Seq<char>, nat), LineErrorView>(
                e@,
            ),
        },
{
    summary_count(&chars_of(line))
}

/// A version without a `0:` epoch: `0:1.0-1` is `1.0-1`; any other epoch stays.
pub open spec fn spec_normalize_version(v: Seq<char>) -> Seq<char> {
    if starts_with(v, "0:"@) {
        v.skip(2)
    } else {
        v
    }
}

/// Drops a `0:` epoch from a version given as characters.
pub fn normalize_chars(v: &Vec<char>) -> (s: String)
    ensures
        s@ == spec_normalize_version(v@),
{
    if chars_start_with(v, "0:") {
        proof {
            reveal_strlit("0:");
        }
        string_of_range(v, 2, v.len())
    } else {
        string_of(v)
    }
}

/// Strips a `0:` epoch prefix from a version; other epochs are kept.
pub fn normalize_version(v: &str) -> (s: String)
    ensures
        s@ == spec_normalize_version(v@),
{
    normalize_chars(&chars_of(v))
}

} // verus!
