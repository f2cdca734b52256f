use fnf::parser::{parse_update_lines, TableParser};
use fnf::table::{
    is_column_header, normalize_version, parse_package_row, parse_summary_count, section_header,
    summary_group,
};

fn err(stdout: &str) -> String {
    parse_update_lines(stdout).unwrap_err().message()
}

const HEAD: &str = "Package Arch Version Repository Size\n";

#[test]
fn sorts_updates_by_name_keeping_equal_names_in_order() {
    let s = format!(
        "{HEAD}Upgrading:\n zeta x86_64 0:2-1 updates 1 KiB\n   replacing zeta x86_64 0:1-1 updates 1 KiB\n \
alpha i686 0:2-1 updates 1 KiB\n   replacing alpha i686 0:1-1 updates 1 KiB\n \
alpha x86_64 0:2-1 updates 1 KiB\n   replacing alpha x86_64 0:1-1 updates 1 KiB\n\n\
Transaction Summary:\n Upgrading: 3 packages\n Replacing: 3 packages\n"
    );
    let us = parse_update_lines(&s).expect("parses");
    let names: Vec<&str> = us.iter().map(|u| u.name.as_str()).collect();
    assert_eq!(names, ["alpha", "alpha", "zeta"]);
    assert_eq!(us[0].arch, "i686");
    assert_eq!(us[1].arch, "x86_64");
}

#[test]
fn crlf_line_endings_parse_like_lf() {
    let s = "Package Arch Version Repository Size\r\nUpgrading:\r\n foo x86_64 0:2.0-1 updates 3.3 MiB\r\n   replacing foo x86_64 0:1.0-1 updates 3.3 MiB\r\n\r\nTransaction Summary:\r\n Upgrading: 1 package\r\n Replacing: 1 package\r\n";
    let us = parse_update_lines(s).expect("parses");
    assert_eq!(us.len(), 1);
    assert_eq!(us[0].old_version, "1.0-1");
    assert_eq!(us[0].new_version, "2.0-1");
}

#[test]
fn missing_final_newline_parses_the_same() {
    let with = format!("{HEAD}Upgrading:\n foo x86_64 1 u 1 B\n   replacing foo x86_64 0 u 1 B\n\nTransaction Summary:\n Upgrading: 1 package\n Replacing: 1 package\n");
    let without = with.trim_end_matches('\n').to_string();
    let a = parse_update_lines(&with).expect("parses");
    let b = parse_update_lines(&without).expect("parses");
    assert_eq!(a.len(), 1);
    assert_eq!(b.len(), 1);
    assert_eq!(a[0].name, b[0].name);
}

#[test]
fn blank_lines_only_is_no_updates() {
    assert!(parse_update_lines("\n\n\n").unwrap().is_empty());
}

#[test]
fn nothing_to_do_with_spaces_and_blanks() {
    assert!(parse_update_lines("\n  Nothing to do.  \n\n").unwrap().is_empty());
}

#[test]
fn sections_without_summary_lines_disagree() {
    // A counted section whose summary lists nothing is a mismatch, not an
    // empty transaction.
    let s = format!("{HEAD}Removing:\n old x86_64 1 u 1 B\n\nTransaction Summary:\n\n");
    assert_eq!(
        err(&s),
        "transaction summary disagrees with the parsed table\n  parsed:  {\"Removing\": 1}\n  summary: {}"
    );
}

#[test]
fn summary_without_trailing_blank_is_accepted() {
    let s = format!("{HEAD}Removing:\n old x86_64 1 u 1 B\n\nTransaction Summary:\n Removing: 1 package");
    assert!(parse_update_lines(&s).unwrap().is_empty());
}

#[test]
fn error_messages_name_the_line() {
    assert_eq!(
        err("Removing:\n"),
        "at stdout line 1: \"Removing:\": expected the column header 'Package Arch Version Repository Size'"
    );
    assert_eq!(
        err(&format!("{HEAD}Frobnicating:\n")),
        "at stdout line 2: \"Frobnicating:\": unknown section header \"Frobnicating\""
    );
    assert_eq!(
        err(&format!("{HEAD}not a header\n")),
        "at stdout line 2: \"not a header\": expected a section header"
    );
}

#[test]
fn package_line_errors() {
    assert!(err(&format!("{HEAD}Removing:\n  two x86_64 1 u 1 B\n")).contains("expected a single-space-indented package line"));
    assert!(err(&format!("{HEAD}Removing:\n a b c d e f g\n")).contains("package line has 7 fields, expected 6"));
    assert!(err(&format!("{HEAD}Removing:\n a b c d x.y MiB\n")).contains("parsing package size: invalid size number: \"x.y\": invalid float literal"));
    assert!(err(&format!("{HEAD}Removing:\n a b c d 1.0 TiB\n")).contains("parsing package size: unknown size unit: \"TiB\""));
}

#[test]
fn replacing_line_errors() {
    let pre = format!("{HEAD}Upgrading:\n foo x86_64 2 u 1 B\n");
    assert!(err(&format!("{pre}   replacing foo x86_64 1 u 1\n")).contains("'replacing' line has 5 fields, expected 6"));
    assert!(err(&format!("{pre} bar x86_64 2 u 1 B\n")).contains("expected a 'replacing' sub-line for \"foo\""));
    assert!(err(&format!("{pre}   replacing bar x86_64 1 u 1 B\n")).contains("'replacing' references \"bar\" but expected \"foo\""));
}

#[test]
fn summary_line_errors() {
    let pre = format!("{HEAD}Removing:\n old x86_64 1 u 1 B\n\n");
    assert!(err(&format!("{pre}Summary:\n")).contains("expected 'Transaction Summary:'"));
    let pre = format!("{pre}Transaction Summary:\n");
    assert!(err(&format!("{pre}Removing: 1 package\n")).contains("expected a single-space-indented summary line"));
    assert!(err(&format!("{pre} Removing: 1\n")).contains("summary line has 2 fields, expected at least 3"));
    assert!(err(&format!("{pre} Removing: 1 pkgs\n")).contains("summary line must end with 'package(s)', got \"pkgs\""));
    assert!(err(&format!("{pre} Removing: x package\n")).contains("invalid summary count \"x\": invalid digit found in string"));
    assert!(err(&format!("{pre} Removing: 99999999999999999999999 packages\n")).contains("number too large to fit in target type"));
    assert!(err(&format!("{pre} Removing 1 package\n")).contains("summary label \"Removing\" must end with ':'"));
    assert!(err(&format!("{pre} Removing: 1 package\n Removing: 1 package\n")).contains("duplicate summary label \"Removing\""));
    assert!(err(&format!("{pre} Removing: 1 package\n\ntrailing\n")).contains("unexpected content after the transaction summary"));
}

#[test]
fn summary_mismatch_message_lists_both_sides_in_label_order() {
    let s = format!("{HEAD}Removing:\n old x86_64 1 u 1 B\n\nTransaction Summary:\n Upgrading: 2 packages\n Removing: 1 package\n");
    assert_eq!(
        err(&s),
        "transaction summary disagrees with the parsed table\n  parsed:  {\"Removing\": 1}\n  summary: {\"Removing\": 1, \"Upgrading\": 2}"
    );
}

#[test]
fn truncated_messages_show_the_state() {
    assert_eq!(
        err(&format!("{HEAD}Upgrading:\n foo x86_64 2 u 1 B\n")),
        "dnf output ended unexpectedly in state Replacing { name: \"foo\" }"
    );
    assert_eq!(
        err(&format!("{HEAD}Upgrading:\n")),
        "dnf output ended unexpectedly in state Section { group: \"Upgrading\", upgrading: true }"
    );
    assert_eq!(err(HEAD), "dnf output ended unexpectedly in state ExpectSection");
}

#[test]
fn summary_counts_accept_plus_sign_and_multiword_labels() {
    let (label, n) = parse_summary_count(" Installing weak deps:  +12 packages").unwrap();
    assert_eq!(label, "Installing weak deps");
    assert_eq!(n, 12);
    assert!(parse_summary_count(" Removing: -1 package").is_err());
}

#[test]
fn package_rows_read_six_fields() {
    let row = parse_package_row(" foo  x86_64  1:2.0-1  updates  12.5  KiB").unwrap();
    assert_eq!(row.name, "foo");
    assert_eq!(row.arch, "x86_64");
    assert_eq!(row.version, "1:2.0-1");
    assert_eq!(row.repo, "updates");
    assert_eq!(row.size.number, "12.5");
    assert!(parse_package_row("   replacing foo x86_64 1 u 1 B").is_err());
}

#[test]
fn headers_and_groups() {
    assert_eq!(section_header("Upgrading:"), Some("Upgrading".to_string()));
    assert_eq!(section_header(" Upgrading:"), None);
    assert_eq!(section_header(""), None);
    assert_eq!(section_header("Upgrading"), None);
    assert_eq!(summary_group("Installing weak dependencies"), Some("Installing"));
    assert_eq!(summary_group("Removing unused dependencies"), Some("Removing"));
    assert_eq!(summary_group("Upgrading"), Some("Upgrading"));
    assert_eq!(summary_group("Frobnicating"), None);
    assert!(is_column_header("  Package   Arch Version  Repository     Size  "));
    assert!(!is_column_header("Package Arch Version Repository"));
}

#[test]
fn normalize_strips_only_zero_epoch() {
    assert_eq!(normalize_version("0:1.0-1"), "1.0-1");
    assert_eq!(normalize_version("1:1.0-1"), "1:1.0-1");
    assert_eq!(normalize_version("10:1.0-1"), "10:1.0-1");
    assert_eq!(normalize_version("0:0:1"), "0:1");
}

#[test]
fn parser_can_be_fed_line_by_line() {
    let mut p = TableParser::new();
    for line in ["Package Arch Version Repository Size", "Upgrading:", " foo x86_64 2 u 1 B", "   replacing foo x86_64 0:1 old 1 B", "", "Transaction Summary:", " Upgrading: 1 package", " Replacing: 1 package"] {
        assert!(p.feed(line).is_ok());
    }
    let us = p.finish().unwrap();
    assert_eq!(us.len(), 1);
    assert_eq!(us[0].old_version, "1");
    assert_eq!(us[0].old_repo, "old");
    assert_eq!(us[0].new_repo, "u");
}

#[test]
fn update_count_matches_summary_counts() {
    let s = format!(
        "{HEAD}Upgrading:\n a x 2 u 1 B\n   replacing a x 1 u 1 B\n b x 2 u 1 B\n   replacing b x 1 u 1 B\nInstalling dependencies:\n c x 1 u 1 B\nInstalling:\n d x 1 u 1 B\n\n\
Transaction Summary:\n Installing: 2 packages\n Upgrading: 2 packages\n Replacing: 2 packages\n"
    );
    let us = parse_update_lines(&s).expect("parses");
    assert_eq!(us.len(), 2);
    let wrong = s.replace(" Installing: 2 packages", " Installing: 1 package");
    assert!(parse_update_lines(&wrong).is_err());
}

#[test]
fn malformed_replacing_line_is_an_error_without_any_update() {
    let mut p = TableParser::new();
    assert_eq!(
        p.on_replacing("garbage", "foo").unwrap_err().message(),
        "expected a 'replacing' sub-line for \"foo\""
    );
    assert_eq!(
        p.on_replacing("   replacing foo x86_64 0:1-1 updates", "foo").unwrap_err().message(),
        "'replacing' line has 4 fields, expected 6"
    );
    assert_eq!(
        p.on_replacing("   replacing bar x86_64 0:1-1 updates 1 KiB", "foo").unwrap_err().message(),
        "'replacing' references \"bar\" but expected \"foo\""
    );
}

#[test]
fn lines_after_the_summary_leave_the_table_alone() {
    let pre = format!(
        "{HEAD}Upgrading:\n foo x86_64 0:2-1 updates 1 KiB\n   replacing foo x86_64 0:1-1 updates 1 KiB\n\n\
Transaction Summary:\n Upgrading: 1 package\n Replacing: 1 package\n"
    );
    let a = parse_update_lines(&pre).expect("parses");
    let b = parse_update_lines(&format!("{pre}\n\n\n")).expect("parses");
    assert_eq!(a.len(), 1);
    assert_eq!(b.len(), 1);
    assert_eq!(a[0].old_version, b[0].old_version);
    assert_eq!(a[0].new_version, "2-1");
}

#[test]
fn counted_sections_are_never_taken_for_no_table() {
    let s = format!("{HEAD}Installing:\n new x86_64 1 u 1 B\n\nTransaction Summary:\n");
    assert_eq!(
        err(&s),
        "transaction summary disagrees with the parsed table\n  parsed:  {\"Installing\": 1}\n  summary: {}"
    );
}
