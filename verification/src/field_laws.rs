//! What each reader takes from the text dnf prints, stated over the
//! characters of the line: which lines it accepts and which fields of the
//! line end up where.
use vstd::prelude::*;
use crate::display::{spec_is_affirmative, spec_packages_phrase};
use crate::number::{decimal, spec_parse_usize, IntError};
use crate::progress::{
    spec_classify_stderr_line, spec_parse_disk_line, spec_parse_download_line, StderrLineView,
};
use crate::size::{is_float_literal, unit_named};
use crate::table::{
    group_of, header_text, is_column_header_line, join_words, spec_normalize_version,
    spec_parse_package_row, spec_parse_summary_count,
};
use crate::parser::{
    replacing_prefix, section_state, spec_on_end, spec_on_header, spec_on_summary_header,
    StateView,
};
use crate::error::LineErrorView;
use crate::text::{starts_with, trim, words};

verus! {

/// A version loses a leading `0:` epoch and nothing else.
pub proof fn lemma_normalize_drops_zero_epoch(v: Seq<char>)
    ensures
        (v.len() >= 2 && v[0] == '0' && v[1] == ':') ==> seq!['0', ':'] + spec_normalize_version(v)
            == v,
        !(v.len() >= 2 && v[0] == '0' && v[1] == ':') ==> spec_normalize_version(v) == v,
{
    reveal_strlit("0:");
    assert("0:"@ =~= seq!['0', ':']);
    if v.len() >= 2 && v[0] == '0' && v[1] == ':' {
        assert(v.take(2) =~= seq!['0', ':']);
        assert(seq!['0', ':'] + v.skip(2) =~= v);
    } else if v.len() >= 2 {
        assert(v.take(2) != "0:"@ || v.take(2) =~= "0:"@);
        if v.take(2) == "0:"@ {
            assert(v.take(2)[0] == v[0] && v.take(2)[1] == v[1]);
        }
    }
}

/// A header line is a non-empty line that does not start with a space and
/// ends in `:`; its text is the line without that `:`.
pub proof fn lemma_header_is_colon_line(line: Seq<char>)
    ensures
        header_text(line) is Some <==> line.len() > 0 && line[0] != ' ' && line.last() == ':',
        header_text(line) matches Some(h) ==> h.push(':') == line,
{
    reveal_strlit(" ");
    if line.len() > 0 {
        if line.take(1) == " "@ {
            assert(line.take(1)[0] == line[0]);
        }
        if line[0] == ' ' {
            assert(line.take(1) =~= " "@);
        }
        assert(line.drop_last().push(line.last()) =~= line);
    }
}

/// The column header is the line whose words are exactly `Package Arch
/// Version Repository Size`.
pub proof fn lemma_column_header_words(line: Seq<char>)
    ensures
        is_column_header_line(line) <==> words(line) == seq![
            seq!['P', 'a', 'c', 'k', 'a', 'g', 'e'],
            seq!['A', 'r', 'c', 'h'],
            seq!['V', 'e', 'r', 's', 'i', 'o', 'n'],
            seq!['R', 'e', 'p', 'o', 's', 'i', 't', 'o', 'r', 'y'],
            seq!['S', 'i', 'z', 'e'],
        ],
{
    reveal_strlit("Package");
    reveal_strlit("Arch");
    reveal_strlit("Version");
    reveal_strlit("Repository");
    reveal_strlit("Size");
    assert("Package"@ =~= seq!['P', 'a', 'c', 'k', 'a', 'g', 'e']);
    assert("Arch"@ =~= seq!['A', 'r', 'c', 'h']);
    assert("Version"@ =~= seq!['V', 'e', 'r', 's', 'i', 'o', 'n']);
    assert("Repository"@ =~= seq!['R', 'e', 'p', 'o', 's', 'i', 't', 'o', 'r', 'y']);
    assert("Size"@ =~= seq!['S', 'i', 'z', 'e']);
}

/// A package line is indented by exactly one space and has six words:
/// name, arch, version, repository, then the size's number and unit, as
/// written.
pub proof fn lemma_package_row_fields(line: Seq<char>)
    ensures
        ({
            let w = words(line);
            let indented = line.len() >= 1 && line[0] == ' ' && (line.len() == 1 || line[1] != ' ');
            &&& spec_parse_package_row(line) is Ok <==> indented && w.len() == 6 && is_float_literal(
                w[4],
            ) && unit_named(w[5]) is Some
            &&& spec_parse_package_row(line) matches Ok(r) ==> r.name == w[0] && r.arch == w[1]
                && r.version == w[2] && r.repo == w[3] && r.size.number == w[4] && unit_named(w[5])
                == Some(r.size.unit)
            &&& spec_parse_package_row(line) == Err::<crate::table::RowView, LineErrorView>(
                LineErrorView::PackageIndent,
            ) <==> !indented
            &&& indented && w.len() != 6 ==> spec_parse_package_row(line) == Err::<
                crate::table::RowView,
                LineErrorView,
            >(LineErrorView::PackageFieldCount { count: w.len() })
        }),
{
    lemma_single_indent(line);
}

proof fn lemma_single_indent(line: Seq<char>)
    ensures
        crate::table::single_indented(line) <==> line.len() >= 1 && line[0] == ' ' && (line.len()
            == 1 || line[1] != ' '),
{
    reveal_strlit(" ");
    reveal_strlit("  ");
    if line.len() >= 1 {
        if line.take(1) == " "@ {
            assert(line.take(1)[0] == line[0]);
        }
        if line[0] == ' ' {
            assert(line.take(1) =~= " "@);
        }
    }
    if line.len() >= 2 {
        if line.take(2) == "  "@ {
            assert(line.take(2)[0] == line[0] && line.take(2)[1] == line[1]);
        }
        if line[0] == ' ' && line[1] == ' ' {
            assert(line.take(2) =~= "  "@);
        }
    }
}

/// The stderr lines dnf prints and what each is taken for: three exact
/// messages, the download total by `Total size of inbound packages is`,
/// the disk change by `After this operation,`, and everything else shown.
pub proof fn lemma_stderr_kinds(line: Seq<char>)
    ensures
        spec_classify_stderr_line(line) is LoadingRepositories <==> line
            == "Updating and loading repositories:"@,
        spec_classify_stderr_line(line) is RepositoriesLoaded <==> line == "Repositories loaded."@,
        spec_classify_stderr_line(line) is Aborted <==> line == "Operation aborted by the user."@,
        spec_classify_stderr_line(line) is DownloadSize <==> starts_with(
            line,
            "Total size of inbound packages is"@,
        ),
        spec_classify_stderr_line(line) matches StderrLineView::DownloadSize(z) ==> z
            == spec_parse_download_line(line),
        spec_classify_stderr_line(line) is DiskChange <==> starts_with(line, "After this operation,"@),
        spec_classify_stderr_line(line) matches StderrLineView::DiskChange(d) ==> d
            == spec_parse_disk_line(line),
{
    reveal_strlit("Updating and loading repositories:");
    reveal_strlit("Repositories loaded.");
    reveal_strlit("Operation aborted by the user.");
    reveal_strlit("Total size of inbound packages is");
    reveal_strlit("After this operation,");
    let t = "Total size of inbound packages is"@;
    let a = "After this operation,"@;
    assert(t[0] == 'T' && a[0] == 'A');
    assert("Updating and loading repositories:"@[0] == 'U');
    assert("Repositories loaded."@[0] == 'R');
    assert("Operation aborted by the user."@[0] == 'O');
    assert("Repositories loaded."@.len() == 20 && "Operation aborted by the user."@.len() == 30);
    assert("Updating and loading repositories:"@.len() == 34);
    if starts_with(line, t) {
        assert(line[0] == line.take(t.len() as int)[0]);
    }
    if starts_with(line, a) {
        assert(line[0] == line.take(a.len() as int)[0]);
    }
}

/// The answers that go ahead are the empty answer, `y` and `yes`.
pub proof fn lemma_affirmative_answers(lowered: Seq<char>)
    ensures
        spec_is_affirmative(lowered) <==> (lowered.len() == 0 || lowered == seq!['y']
            || lowered == seq!['y', 'e', 's']),
{
    reveal_strlit("");
    reveal_strlit("y");
    reveal_strlit("yes");
    assert("y"@ =~= seq!['y']);
    assert("yes"@ =~= seq!['y', 'e', 's']);
    if lowered.len() == 0 {
        assert(lowered =~= ""@);
    }
}

/// The package count in the title: the count in decimal, then ` package`,
/// with an `s` unless the count is one.
pub proof fn lemma_packages_phrase(count: nat)
    ensures
        spec_packages_phrase(count) == decimal(count) + seq![' ', 'p', 'a', 'c', 'k', 'a', 'g', 'e']
            + (if count == 1 {
            Seq::<char>::empty()
        } else {
            seq!['s']
        }),
{
    reveal_strlit(" package");
    reveal_strlit("");
    reveal_strlit("s");
    assert(" package"@ =~= seq![' ', 'p', 'a', 'c', 'k', 'a', 'g', 'e']);
    assert(""@ =~= Seq::<char>::empty());
    assert("s"@ =~= seq!['s']);
}

/// The value of a digit character.
pub open spec fn digit_of(c: char) -> int {
    c as int - '0' as int
}

proof fn lemma_read_digits_push(s: Seq<char>, i: int, acc: nat, d: char)
    requires
        0 <= i <= s.len(),
    ensures
        crate::number::read_digits(s.push(d), i, acc) == (match crate::number::read_digits(s, i, acc) {
            Ok(m) => if !('0' <= d <= '9') {
                Err(IntError::InvalidDigit)
            } else if m * 10 + digit_of(d) > usize::MAX {
                Err(IntError::PosOverflow)
            } else {
                Ok((m * 10 + digit_of(d)) as nat)
            },
            Err(e) => Err(e),
        }),
    decreases s.len() - i,
{
    let t = s.push(d);
    if i < s.len() {
        assert(t[i] == s[i]);
        if '0' <= s[i] <= '9' && acc * 10 + crate::number::digit_value(s[i]) <= usize::MAX {
            lemma_read_digits_push(s, i + 1, acc * 10 + crate::number::digit_value(s[i]), d);
        }
    } else {
        assert(t[i] == d);
        assert(crate::number::read_digits(t, i + 1, acc * 10 + crate::number::digit_value(d)) == Ok::<nat, IntError>(acc * 10 + crate::number::digit_value(d)));
    }
}

/// Reading a `usize`: nothing is an error; one digit, with or without a
/// leading `+`, is its value; and each further character is a digit that
/// multiplies what was read by ten and adds itself, or an error: an
/// invalid digit, or an overflow past `usize::MAX`.
pub proof fn lemma_parse_usize_reads_digits(s: Seq<char>, d: char)
    ensures
        spec_parse_usize(Seq::empty()) == Err::<nat, IntError>(IntError::Empty),
        '0' <= d <= '9' ==> spec_parse_usize(seq![d]) == Ok::<nat, IntError>(digit_of(d) as nat)
            && spec_parse_usize(seq!['+', d]) == Ok::<nat, IntError>(digit_of(d) as nat),
        spec_parse_usize(s) matches Ok(n) ==> spec_parse_usize(s.push(d)) == (if !('0' <= d <= '9') {
            Err::<nat, IntError>(IntError::InvalidDigit)
        } else if n * 10 + digit_of(d) > usize::MAX {
            Err(IntError::PosOverflow)
        } else {
            Ok((n * 10 + digit_of(d)) as nat)
        }),
{
    if '0' <= d <= '9' {
        assert(crate::number::read_digits(seq![d], 1, digit_of(d) as nat) == Ok::<nat, IntError>(digit_of(d) as nat));
        assert(crate::number::read_digits(seq!['+', d], 2, digit_of(d) as nat) == Ok::<nat, IntError>(digit_of(d) as nat));
    }
    if spec_parse_usize(s) is Ok {
        if s[0] == '+' {
            lemma_read_digits_push(s, 1, 0, d);
            assert(s.push(d)[0] == '+');
        } else {
            lemma_read_digits_push(s, 0, 0, d);
            assert(s.push(d)[0] == s[0]);
        }
    }
}

/// Writing a number in decimal and reading it back gives the number.
pub proof fn lemma_decimal_reads_back(n: nat)
    requires
        n <= usize::MAX,
    ensures
        spec_parse_usize(decimal(n)) == Ok::<nat, IntError>(n),
        forall|i: int| 0 <= i < decimal(n).len() ==> '0' <= #[trigger] decimal(n)[i] <= '9',
        decimal(n).len() > 1 ==> decimal(n)[0] != '0',
    decreases n,
{
    if n < 10 {
        let c = (('0' as u32) + n) as char;
        assert(c as int == '0' as int + n);
        lemma_parse_usize_reads_digits(Seq::empty(), c);
    } else {
        lemma_decimal_reads_back(n / 10);
        let c = (('0' as u32) + (n % 10)) as char;
        assert(c as int == '0' as int + n % 10);
        lemma_parse_usize_reads_digits(decimal(n / 10), c);
        assert(decimal(n / 10).len() > 0);
        assert(decimal(n)[0] == decimal(n / 10)[0]);
    }
}

/// Before the table a blank line changes nothing, the column header
/// starts the table, `Nothing to do.` (surrounding whitespace aside) ends
/// the output, and any other line is an error.
pub proof fn lemma_header_state_lines(line: Seq<char>)
    ensures
        spec_on_header(line) == Ok::<StateView, LineErrorView>(StateView::Header) <==> line.len() == 0,
        spec_on_header(line) == Ok::<StateView, LineErrorView>(StateView::ExpectSection) <==> line.len()
            > 0 && is_column_header_line(line),
        spec_on_header(line) == Ok::<StateView, LineErrorView>(StateView::End) <==> line.len() > 0
            && !is_column_header_line(line) && trim(line) == seq![
            'N', 'o', 't', 'h', 'i', 'n', 'g', ' ', 't', 'o', ' ', 'd', 'o', '.',
        ],
        spec_on_header(line) is Err ==> spec_on_header(line) == Err::<StateView, LineErrorView>(
            LineErrorView::ExpectedColumnHeader,
        ),
{
    reveal_strlit("Nothing to do.");
    assert("Nothing to do."@ =~= seq!['N', 'o', 't', 'h', 'i', 'n', 'g', ' ', 't', 'o', ' ', 'd', 'o', '.']);
}

/// The summary starts at exactly the line `Transaction Summary:`.
pub proof fn lemma_summary_header_line(line: Seq<char>)
    ensures
        spec_on_summary_header(line) is Ok <==> line == seq![
            'T', 'r', 'a', 'n', 's', 'a', 'c', 't', 'i', 'o', 'n', ' ', 'S', 'u', 'm', 'm', 'a', 'r',
            'y', ':',
        ],
{
    reveal_strlit("Transaction Summary");
    let t = seq!['T', 'r', 'a', 'n', 's', 'a', 'c', 't', 'i', 'o', 'n', ' ', 'S', 'u', 'm', 'm', 'a', 'r', 'y'];
    assert("Transaction Summary"@ =~= t);
    lemma_header_is_colon_line(line);
    if header_text(line) == Some(t) {
        assert(line == t.push(':'));
    }
    let full = seq![
        'T', 'r', 'a', 'n', 's', 'a', 'c', 't', 'i', 'o', 'n', ' ', 'S', 'u', 'm', 'm', 'a', 'r',
        'y', ':',
    ];
    assert(full =~= t.push(':'));
    if line == full {
        assert(line[0] == 'T' && line.last() == ':');
        assert(line.drop_last() =~= t);
        assert(header_text(line) == Some(t));
    }
}

/// A section header opens its section, counting in the header's bucket;
/// only `Upgrading:` opens a section whose package lines are updates.
/// An unknown header is an error naming it.
pub proof fn lemma_section_state(name: Seq<char>)
    ensures
        section_state(name) matches Ok(StateView::Section { group, upgrading }) ==> group_of(name)
            == Some(group) && (upgrading <==> name == seq!['U', 'p', 'g', 'r', 'a', 'd', 'i', 'n', 'g']),
        section_state(name) is Err <==> group_of(name) is None,
        section_state(name) is Err ==> section_state(name) == Err::<StateView, LineErrorView>(
            LineErrorView::UnknownSectionHeader { name },
        ),
        section_state(name) is Ok ==> section_state(name)->Ok_0 is Section,
{
    reveal_strlit("Upgrading");
    assert("Upgrading"@ =~= seq!['U', 'p', 'g', 'r', 'a', 'd', 'i', 'n', 'g']);
}

/// A `replacing` sub-line starts with three spaces and `replacing `.
pub proof fn lemma_replacing_prefix()
    ensures
        replacing_prefix() == seq![' ', ' ', ' ', 'r', 'e', 'p', 'l', 'a', 'c', 'i', 'n', 'g', ' '],
{
    reveal_strlit("   replacing ");
    assert("   replacing "@ =~= seq![' ', ' ', ' ', 'r', 'e', 'p', 'l', 'a', 'c', 'i', 'n', 'g', ' ']);
}

/// After the summary only blank lines may follow.
pub proof fn lemma_end_state_lines(line: Seq<char>)
    ensures
        spec_on_end(line) is Ok <==> line.len() == 0,
        spec_on_end(line) is Ok ==> spec_on_end(line) == Ok::<StateView, LineErrorView>(StateView::End),
{
}

/// A summary count line is indented by one space, ends in the count and
/// `package` or `packages`, and its label is the words before the count,
/// joined by spaces, without the `:` they end in.
pub proof fn lemma_summary_count_fields(line: Seq<char>)
    ensures
        ({
            let f = words(line);
            spec_parse_summary_count(line) matches Ok((label, n)) ==> {
                &&& line.len() >= 1 && line[0] == ' ' && (line.len() == 1 || line[1] != ' ')
                &&& f.len() >= 3
                &&& (f[f.len() - 1] == seq!['p', 'a', 'c', 'k', 'a', 'g', 'e'] || f[f.len() - 1]
                    == seq!['p', 'a', 'c', 'k', 'a', 'g', 'e', 's'])
                &&& spec_parse_usize(f[f.len() - 2]) == Ok::<nat, IntError>(n)
                &&& label.push(':') == join_words(f.take(f.len() - 2))
            }
        }),
{
    reveal_strlit("package");
    reveal_strlit("packages");
    assert("package"@ =~= seq!['p', 'a', 'c', 'k', 'a', 'g', 'e']);
    assert("packages"@ =~= seq!['p', 'a', 'c', 'k', 'a', 'g', 'e', 's']);
    lemma_single_indent(line);
    if spec_parse_summary_count(line) is Ok {
        let f = words(line);
        let j = join_words(f.take(f.len() - 2));
        assert(j.drop_last().push(':') =~= j);
    }
}

/// Words joined by spaces: one word is itself, and each further word
/// comes after a single space.
pub proof fn lemma_join_words(ws: Seq<Seq<char>>, w: Seq<char>)
    ensures
        join_words(seq![w]) == w,
        ws.len() > 0 ==> join_words(ws.push(w)) == join_words(ws) + seq![' '] + w,
{
    assert(seq![w].len() == 1);
    if ws.len() > 0 {
        assert(ws.push(w).drop_last() =~= ws);
    }
}

} // verus!
