//! What can be wrong with a line of the transaction table, and the message
//! that reports it.
use vstd::prelude::*;
use crate::number::{decimal, push_decimal, IntError};
use crate::size::{SizeError, SizeErrorView};

verus! {

/// How `str`'s `Debug` writes the string `s`: in double quotes, with
/// quotes, backslashes and control characters escaped.
pub uninterp spec fn debug_repr(s: Seq<char>) -> Seq<char>;

/// `s` written as `Debug` writes a `str`. Trusted: the body is
/// `format!("{:?}", s)`, which the contract takes to depend on the
/// characters of `s` alone; what the escaping is, it leaves unsaid.
#[verifier::external_body]
fn debug_string(s: &str) -> (r: String)
    ensures
        r@ == debug_repr(s@),
{
    format!("{:?}", s)
}

/// Appends `s` written as `Debug` writes a `str`.
pub fn push_debug(out: &mut String, s: &str)
    ensures
        final(out)@ == old(out)@ + debug_repr(s@),
{
    let d = debug_string(s);
    out.append(d.as_str());
}

/// Why a line of the transaction table was refused.
#[derive(Debug)]
pub enum LineError {
    /// Before the table: neither the column header, `Nothing to do.`, nor blank.
    ExpectedColumnHeader,
    /// After the column header: not a section header.
    ExpectedSectionHeader,
    /// A section header that names no known section.
    UnknownSectionHeader { name: String },
    /// A package line not indented by exactly one space.
    PackageIndent,
    /// A package line without exactly six fields.
    PackageFieldCount { count: usize },
    /// A package line whose size is not a size.
    PackageSize { error: SizeError },
    /// An upgraded package not followed by its `replacing` sub-line.
    MissingReplacing { name: String },
    /// A `replacing` sub-line without exactly six fields.
    ReplacingFieldCount { count: usize },
    /// A `replacing` sub-line that names another package.
    ReplacingNameMismatch { found: String, expected: String },
    /// After the sections: not `Transaction Summary:`.
    ExpectedSummaryHeader,
    /// A summary line not indented by exactly one space.
    SummaryIndent,
    /// A summary line with fewer than three fields.
    SummaryFieldCount { count: usize },
    /// A summary line that does not end in `package` or `packages`.
    SummaryUnit { unit: String },
    /// A summary count that is not a number.
    SummaryCount { text: String, cause: IntError },
    /// A summary label that does not end in `:`.
    SummaryLabel { label: String },
    /// A summary label given twice.
    DuplicateSummaryLabel { label: String },
    /// Something other than blank lines after the summary.
    ContentAfterSummary,
}

pub ghost enum LineErrorView {
    ExpectedColumnHeader,
    ExpectedSectionHeader,
    UnknownSectionHeader { name: Seq<char> },
    PackageIndent,
    PackageFieldCount { count: nat },
    PackageSize { error: SizeErrorView },
    MissingReplacing { name: Seq<char> },
    ReplacingFieldCount { count: nat },
    ReplacingNameMismatch { found: Seq<char>, expected: Seq<char> },
    ExpectedSummaryHeader,
    SummaryIndent,
    SummaryFieldCount { count: nat },
    SummaryUnit { unit: Seq<char> },
    SummaryCount { text: Seq<char>, cause: IntError },
    SummaryLabel { label: Seq<char> },
    DuplicateSummaryLabel { label: Seq<char> },
    ContentAfterSummary,
}

impl View for LineError {
    type V = LineErrorView;

    open spec fn view(&self) -> LineErrorView {
        match self {
            LineError::ExpectedColumnHeader => LineErrorView::ExpectedColumnHeader,
            LineError::ExpectedSectionHeader => LineErrorView::ExpectedSectionHeader,
            LineError::UnknownSectionHeader { name } => LineErrorView::UnknownSectionHeader {
                name: name@,
            },
            LineError::PackageIndent => LineErrorView::PackageIndent,
            LineError::PackageFieldCount { count } => LineErrorView::PackageFieldCount {
                count: *count as nat,
            },
            LineError::PackageSize { error } => LineErrorView::PackageSize { error: error@ },
            LineError::MissingReplacing { name } => LineErrorView::MissingReplacing {
                name: name@,
            },
            LineError::ReplacingFieldCount { count } => LineErrorView::ReplacingFieldCount {
                count: *count as nat,
            },
            LineError::ReplacingNameMismatch { found, expected } =>
                LineErrorView::ReplacingNameMismatch { found: found@, expected: expected@ },
            LineError::ExpectedSummaryHeader => LineErrorView::ExpectedSummaryHeader,
            LineError::SummaryIndent => LineErrorView::SummaryIndent,
            LineError::SummaryFieldCount { count } => LineErrorView::SummaryFieldCount {
                count: *count as nat,
            },
            LineError::SummaryUnit { unit } => LineErrorView::SummaryUnit { unit: unit@ },
            LineError::SummaryCount { text, cause } => LineErrorView::SummaryCount {
                text: text@,
                cause: *cause,
            },
            LineError::SummaryLabel { label } => LineErrorView::SummaryLabel { label: label@ },
            LineError::DuplicateSummaryLabel { label } => LineErrorView::DuplicateSummaryLabel {
                label: label@,
            },
            LineError::ContentAfterSummary => LineErrorView::ContentAfterSummary,
        }
    }
}

/// The message of an integer that does not parse (`ParseIntError`'s).
pub open spec fn int_error_text(e: IntError) -> Seq<char> {
    match e {
        IntError::Empty => "cannot parse integer from empty string"@,
        IntError::InvalidDigit => "invalid digit found in string"@,
        IntError::PosOverflow => "number too large to fit in target type"@,
    }
}

/// The message of a size that does not parse.
pub open spec fn size_error_text(e: SizeErrorView) -> Seq<char> {
    match e {
        SizeErrorView::InvalidNumber { number } => "invalid size number: "@ + debug_repr(number)
            + ": "@ + if number.len() == 0 {
            "cannot parse float from empty string"@
        } else {
            "invalid float literal"@
        },
        SizeErrorView::UnknownUnit { unit } => "unknown size unit: "@ + debug_repr(unit),
    }
}

/// The message of a refused line.
pub open spec fn line_error_text(e: LineErrorView) -> Seq<char> {
    match e {
        LineErrorView::ExpectedColumnHeader =>
            "expected the column header 'Package Arch Version Repository Size'"@,
        LineErrorView::ExpectedSectionHeader => "expected a section header"@,
        LineErrorView::UnknownSectionHeader { name } => "unknown section header "@ + debug_repr(
            name,
        ),
        LineErrorView::PackageIndent => "expected a single-space-indented package line"@,
        LineErrorView::PackageFieldCount { count } => "package line has "@ + decimal(count)
            + " fields, expected 6"@,
        LineErrorView::PackageSize { error } => "parsing package size: "@ + size_error_text(
            error,
        ),
        LineErrorView::MissingReplacing { name } => "expected a 'replacing' sub-line for "@
            + debug_repr(name),
        LineErrorView::ReplacingFieldCount { count } => "'replacing' line has "@ + decimal(count)
            + " fields, expected 6"@,
        LineErrorView::ReplacingNameMismatch { found, expected } => "'replacing' references "@
            + debug_repr(found) + " but expected "@ + debug_repr(expected),
        LineErrorView::ExpectedSummaryHeader => "expected 'Transaction Summary:'"@,
        LineErrorView::SummaryIndent => "expected a single-space-indented summary line"@,
        LineErrorView::SummaryFieldCount { count } => "summary line has "@ + decimal(count)
            + " fields, expected at least 3"@,
        LineErrorView::SummaryUnit { unit } => "summary line must end with 'package(s)', got "@
            + debug_repr(unit),
        LineErrorView::SummaryCount { text, cause } => "invalid summary count "@ + debug_repr(
            text,
        ) + ": "@ + int_error_text(cause),
        LineErrorView::SummaryLabel { label } => "summary label "@ + debug_repr(label)
            + " must end with ':'"@,
        LineErrorView::DuplicateSummaryLabel { label } => "duplicate summary label "@
            + debug_repr(label),
        LineErrorView::ContentAfterSummary => "unexpected content after the transaction summary"@,
    }
}

/// Appends the message of an integer that does not parse.
pub fn push_int_error(out: &mut String, e: IntError)
    ensures
        final(out)@ == old(out)@ + int_error_text(e),
{
    match e {
        IntError::Empty => out.append("cannot parse integer from empty string"),
        IntError::InvalidDigit => out.append("invalid digit found in string"),
        IntError::PosOverflow => out.append("number too large to fit in target type"),
    }
}

impl SizeError {
    /// Appends this error's message.
    pub fn push_message(&self, out: &mut String)
        ensures
            final(out)@ == old(out)@ + size_error_text(self@),
    {
        let ghost start = out@;
        match self {
            SizeError::InvalidNumber { number } => {
                out.append("invalid size number: ");
                push_debug(out, number.as_str());
                out.append(": ");
                if number.as_str().is_empty() {
                    out.append("cannot parse float from empty string");
                } else {
                    out.append("invalid float literal");
                }
            },
            SizeError::UnknownUnit { unit } => {
                out.append("unknown size unit: ");
                push_debug(out, unit.as_str());
            },
        }
        assert(out@ =~= start + size_error_text(self@));
    }

    /// This error's message, as its `Display` would write it.
    pub fn message(&self) -> (s: String)
        ensures
            s@ == size_error_text(self@),
    {
        let mut s = String::new();
        self.push_message(&mut s);
        assert(s@ =~= size_error_text(self@));
        s
    }
}

impl LineError {
    /// Appends this error's message.
    pub fn push_message(&self, out: &mut String)
        ensures
            final(out)@ == old(out)@ + line_error_text(self@),
    {
        let ghost start = out@;
        match self {
            LineError::ExpectedColumnHeader => out.append(
                "expected the column header 'Package Arch Version Repository Size'",
            ),
            LineError::ExpectedSectionHeader => out.append("expected a section header"),
            LineError::UnknownSectionHeader { name } => {
                out.append("unknown section header ");
                push_debug(out, name.as_str());
            },
            LineError::PackageIndent => out.append(
                "expected a single-space-indented package line",
            ),
            LineError::PackageFieldCount { count } => {
                out.append("package line has ");
                push_decimal(out, *count);
                out.append(" fields, expected 6");
            },
            LineError::PackageSize { error } => {
                out.append("parsing package size: ");
                error.push_message(out);
            },
            LineError::MissingReplacing { name } => {
                out.append("expected a 'replacing' sub-line for ");
                push_debug(out, name.as_str());
            },
            LineError::ReplacingFieldCount { count } => {
                out.append("'replacing' line has ");
                push_decimal(out, *count);
                out.append(" fields, expected 6");
            },
            LineError::ReplacingNameMismatch { found, expected } => {
                out.append("'replacing' references ");
                push_debug(out, found.as_str());
                out.append(" but expected ");
                push_debug(out, expected.as_str());
            },
            LineError::ExpectedSummaryHeader => out.append("expected 'Transaction Summary:'"),
            LineError::SummaryIndent => out.append(
                "expected a single-space-indented summary line",
            ),
            LineError::SummaryFieldCount { count } => {
                out.append("summary line has ");
                push_decimal(out, *count);
                out.append(" fields, expected at least 3");
            },
            LineError::SummaryUnit { unit } => {
                out.append("summary line must end with 'package(s)', got ");
                push_debug(out, unit.as_str());
            },
            LineError::SummaryCount { text, cause } => {
                out.append("invalid summary count ");
                push_debug(out, text.as_str());
                out.append(": ");
                push_int_error(out, *cause);
            },
            LineError::SummaryLabel { label } => {
                out.append("summary label ");
                push_debug(out, label.as_str());
                out.append(" must end with ':'");
            },
            LineError::DuplicateSummaryLabel { label } => {
                out.append("duplicate summary label ");
                push_debug(out, label.as_str());
            },
            LineError::ContentAfterSummary => out.append(
                "unexpected content after the transaction summary",
            ),
        }
        assert(out@ =~= start + line_error_text(self@));
    }

    /// This error's message, as its `Display` would write it.
    pub fn message(&self) -> (s: String)
        ensures
            s@ == line_error_text(self@),
    {
        let mut s = String::new();
        self.push_message(&mut s);
        assert(s@ =~= line_error_text(self@));
        s
    }
}

} // verus!
