use fnf::display::{
    column_widths, confirms_upgrade, diff_fits_chars, display_rows, highlight_diff, is_affirmative,
    packages_phrase, repo_display, shorten_repo, upgrade_args, upgrade_specs, DisplayRow, GroupBy,
    RepoDisplay,
};
use fnf::parser::PackageUpdate;
use fnf::size::{parse_dnf_size};

fn update(name: &str, old_repo: &str, new_repo: &str) -> PackageUpdate {
    PackageUpdate {
        name: name.to_string(),
        arch: "x86_64".to_string(),
        old_version: "1.0-1.fc44".to_string(),
        new_version: "1.1-1.fc44".to_string(),
        old_repo: old_repo.to_string(),
        new_repo: new_repo.to_string(),
        download_size: parse_dnf_size("1", "KiB").unwrap(),
    }
}

#[test]
fn highlight_splits_only_the_changed_part() {
    let d = highlight_diff("5.2.15-1.fc44", "5.2.21-1.fc44");
    assert_eq!(d.prefix, "5.2.");
    assert_eq!(d.old_mid, "15");
    assert_eq!(d.new_mid, "21");
    assert_eq!(d.suffix, "-1.fc44");
    let d = highlight_diff("same", "same");
    assert_eq!(format!("{}{}{}", d.prefix, d.old_mid, d.suffix), "same");
    assert_eq!(d.old_mid, "");
    let d = highlight_diff("1.0", "1.0.1");
    assert_eq!((d.prefix.as_str(), d.old_mid.as_str(), d.new_mid.as_str(), d.suffix.as_str()), ("1.0", "", ".1", ""));
}

#[test]
fn highlight_pieces_reassemble_both_versions() {
    for (a, b) in [("112.0-1.fc44", "113.0-1.fc44"), ("abc", "xyz"), ("", "1"), ("aXb", "aYYb")] {
        let d = highlight_diff(a, b);
        assert_eq!(format!("{}{}{}", d.prefix, d.old_mid, d.suffix), a);
        assert_eq!(format!("{}{}{}", d.prefix, d.new_mid, d.suffix), b);
    }
}

#[test]
fn highlight_needs_char_boundaries() {
    assert!(diff_fits_chars("1.0", "2.0"));
    // 'é' and 'è' share their first UTF-8 byte: slicing bytes would split a char.
    assert!(!diff_fits_chars("é", "è"));
    assert!(diff_fits_chars("é", "x"));
}

#[test]
fn shorten_repo_only_long_hashes() {
    assert_eq!(shorten_repo("0123456789abcdef0123"), "01..23");
    assert_eq!(shorten_repo("0123456789abcdef012"), "0123456789abcdef012");
    assert_eq!(shorten_repo("updates-testing-modular"), "updates-testing-modular");
    assert_eq!(shorten_repo(&shorten_repo("ABCDEF0123456789ABCDEF")), "AB..EF");
}

#[test]
fn upgrade_specs_pin_versions() {
    let us = vec![update("foo", "", "updates"), update("bar", "", "fedora")];
    assert_eq!(upgrade_specs(&us), ["foo-1.1-1.fc44.x86_64", "bar-1.1-1.fc44.x86_64"]);
    assert!(upgrade_specs(&[]).is_empty());
}

#[test]
fn column_widths_count_bytes() {
    let mut us = vec![update("foo", "", "u"), update("python3-requests", "", "u")];
    us[0].arch = "noarch".to_string();
    us[1].name = "é".to_string();
    let w = column_widths(&us);
    assert_eq!(w.name, 3);
    assert_eq!(w.arch, 6);
    assert_eq!(w.old_version, 10);
    assert_eq!(w.new_version, 10);
    assert_eq!(column_widths(&[]).name, 0);
}

fn describe(rows: &[DisplayRow]) -> Vec<String> {
    rows.iter()
        .map(|r| match r {
            DisplayRow::Blank => "-".to_string(),
            DisplayRow::RepoHeader { repo } => format!("[{repo}]"),
            DisplayRow::Package { index } => index.to_string(),
        })
        .collect()
}

#[test]
fn rows_grouped_by_repository() {
    let us = vec![
        update("c", "", "updates"),
        update("b", "", "fedora"),
        update("a", "", "updates"),
        update("d", "", "0123456789abcdef0123"),
    ];
    let rows = display_rows(&us, GroupBy::Repository);
    assert_eq!(describe(&rows), ["[01..23]", "3", "-", "[fedora]", "1", "-", "[updates]", "2", "0"]);
    let flat = display_rows(&us, GroupBy::Ungrouped);
    assert_eq!(describe(&flat), ["0", "1", "2", "3"]);
}

#[test]
fn repo_column() {
    match repo_display(&update("a", "", "updates")) {
        RepoDisplay::Same { repo } => assert_eq!(repo, "updates"),
        RepoDisplay::Changed { .. } => panic!(),
    }
    match repo_display(&update("a", "updates", "updates")) {
        RepoDisplay::Same { repo } => assert_eq!(repo, "updates"),
        RepoDisplay::Changed { .. } => panic!(),
    }
    match repo_display(&update("a", "fedora", "updates")) {
        RepoDisplay::Changed { diff } => {
            assert_eq!(diff.old_mid, "fedora");
            assert_eq!(diff.new_mid, "updates");
        }
        RepoDisplay::Same { .. } => panic!(),
    }
}

#[test]
fn package_count_phrase() {
    assert_eq!(packages_phrase(1), "1 package");
    assert_eq!(packages_phrase(0), "0 packages");
    assert_eq!(packages_phrase(215), "215 packages");
}

#[test]
fn confirmation_answers() {
    for yes in ["", "\n", "y\n", "Y", "yes", "  YES \n", "Yes"] {
        assert!(confirms_upgrade(yes), "{yes:?}");
    }
    for no in ["n", "no", "yess", "y e s", "ja"] {
        assert!(!confirms_upgrade(no), "{no:?}");
    }
    assert!(is_affirmative("yes"));
    assert!(!is_affirmative("YES"));
}

#[test]
fn upgrade_args_are_upgrade_yes_then_the_specs() {
    let us = vec![update("foo", "", "updates"), update("bar", "", "fedora")];
    assert_eq!(upgrade_args(&us), ["upgrade", "-y", "foo-1.1-1.fc44.x86_64", "bar-1.1-1.fc44.x86_64"]);
    assert_eq!(upgrade_args(&[]), ["upgrade", "-y"]);
}

#[test]
fn grouped_rows_keep_each_repository_together() {
    let mut us = vec![
        update("b", "", "updates"),
        update("a", "", "fedora"),
        update("a", "", "updates"),
        update("c", "", "fedora"),
        update("a", "", "updates"),
    ];
    us[4].arch = "i686".to_string();
    let rows = display_rows(&us, GroupBy::Repository);
    assert_eq!(describe(&rows), ["[fedora]", "1", "3", "-", "[updates]", "2", "4", "0"]);
    // the two `a` updates of `updates` keep the order they came in
    match (&rows[5], &rows[6]) {
        (DisplayRow::Package { index: i }, DisplayRow::Package { index: j }) => {
            assert_eq!(us[*i].arch, "x86_64");
            assert_eq!(us[*j].arch, "i686");
        }
        _ => panic!("unexpected rows"),
    }
}
