use fnf::parse_update_lines;
use fnf::size::DnfSize;

/// A compact transaction exercising every line type: column header, a
/// non-upgrade section (Removing), the Upgrading section with `replacing`
/// sub-lines, another non-upgrade section (Installing), the blank/summary
/// boundary, all four summary buckets, and a trailing blank line.
const SAMPLE: &str = "\
Package    Arch   Version          Repository   Size
Removing:
 oldpkg    x86_64 0:1.0-1.fc44     updates      1.0 MiB
Upgrading:
 bar       noarch 1:2.0-1.fc44     fedora       0.0   B
   replacing bar noarch 1:1.9-1.fc44 fedora     0.0   B
 foo       x86_64 0:2.0-1.fc44     updates      3.3 MiB
   replacing foo x86_64 0:1.0-1.fc44 <unknown>  3.3 MiB
Installing:
 newpkg    x86_64 0:3.0-1.fc44     updates      2.0 MiB

Transaction Summary:
 Installing:   1 package
 Upgrading:    2 packages
 Replacing:    2 packages
 Removing:     1 package
";

/// Bytes of a size, as the program computes them for display.
fn size_in_bytes(size: &DnfSize) -> u64 {
    let n: f64 = size.number.parse().unwrap();
    (n * (1u64 << size.unit.shift()) as f64) as u64
}

#[test]
fn parses_sample_transaction() {
    let updates = parse_update_lines(SAMPLE).expect("sample parses");
    // Only Upgrading packages become updates, sorted by name.
    assert_eq!(updates.len(), 2);

    assert_eq!(updates[0].name, "bar");
    assert_eq!(updates[0].arch, "noarch");
    assert_eq!(updates[0].old_version, "1:1.9-1.fc44"); // non-zero epoch preserved
    assert_eq!(updates[0].new_version, "1:2.0-1.fc44");
    assert_eq!(updates[0].old_repo, "fedora");
    assert_eq!(updates[0].new_repo, "fedora");

    assert_eq!(updates[1].name, "foo");
    assert_eq!(updates[1].old_version, "1.0-1.fc44"); // `0:` epoch stripped
    assert_eq!(updates[1].new_version, "2.0-1.fc44");
    assert_eq!(updates[1].old_repo, "<unknown>");
    assert_eq!(updates[1].new_repo, "updates");
    assert_eq!(size_in_bytes(&updates[1].download_size), (3.3 * (1u64 << 20) as f64) as u64);
}

#[test]
fn empty_output_is_no_updates() {
    assert!(parse_update_lines("").unwrap().is_empty());
}

#[test]
fn nothing_to_do_is_no_updates() {
    assert!(parse_update_lines("Nothing to do.\n").unwrap().is_empty());
}

fn err(stdout: &str) -> String {
    parse_update_lines(stdout).unwrap_err().message()
}

#[test]
fn rejects_missing_column_header() {
    assert!(err("Removing:\n oldpkg x86_64 0:1.0-1.fc44 updates 1.0 MiB\n").contains("column header"));
}

#[test]
fn rejects_unknown_section_header() {
    let s = "Package Arch Version Repository Size\nFrobnicating:\n";
    assert!(err(s).contains("unknown section header"));
}

#[test]
fn rejects_wrong_field_count() {
    let s = "Package Arch Version Repository Size\nRemoving:\n oldpkg x86_64 0:1.0-1.fc44 updates\n";
    assert!(err(s).contains("expected 6"));
}

#[test]
fn rejects_missing_replacing_line() {
    let s = "\
Package Arch Version Repository Size
Upgrading:
 foo x86_64 0:2.0-1.fc44 updates 3.3 MiB
 bar x86_64 0:2.0-1.fc44 updates 3.3 MiB
";
    assert!(err(s).contains("replacing"));
}

#[test]
fn rejects_replacing_name_mismatch() {
    let s = "\
Package Arch Version Repository Size
Upgrading:
 foo x86_64 0:2.0-1.fc44 updates 3.3 MiB
   replacing bar x86_64 0:1.0-1.fc44 updates 3.3 MiB
";
    assert!(err(s).contains("expected \"foo\""));
}

#[test]
fn rejects_truncated_output() {
    let s = "\
Package Arch Version Repository Size
Upgrading:
 foo x86_64 0:2.0-1.fc44 updates 3.3 MiB
   replacing foo x86_64 0:1.0-1.fc44 updates 3.3 MiB
";
    assert!(err(s).contains("ended unexpectedly"));
}

#[test]
fn rejects_summary_count_mismatch() {
    // Summary claims 2 upgrades but only 1 was listed.
    let s = "\
Package Arch Version Repository Size
Upgrading:
 foo x86_64 0:2.0-1.fc44 updates 3.3 MiB
   replacing foo x86_64 0:1.0-1.fc44 updates 3.3 MiB

Transaction Summary:
 Upgrading: 2 packages
 Replacing: 1 package
";
    assert!(err(s).contains("disagrees with the parsed table"));
}

#[test]
fn rejects_orphan_replacing_line() {
    let s = "\
Package Arch Version Repository Size
Upgrading:
   replacing foo x86_64 0:1.0-1.fc44 updates 3.3 MiB
";
    // A replacing line with no preceding package is a single-space/indent mismatch.
    assert!(parse_update_lines(s).is_err());
}
